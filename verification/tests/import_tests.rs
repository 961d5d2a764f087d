use floapalette::import::{category_color, first_non_empty, import_commands, slugify};
use floapalette::model::{AppData, AppSettings, Category, CommandItem, ImportSource, SourceCommand};
use floapalette::validate::{configured_data_path, is_valid_app_data};

fn s(x: &str) -> Option<String> {
    Some(x.to_string())
}

fn item(command: &str) -> CommandItem {
    CommandItem {
        id: "i".to_string(),
        title: "t".to_string(),
        command: command.to_string(),
        description: String::new(),
        favorite: false,
        auto_enter: false,
        input_mode: None,
    }
}

fn category(items: Vec<CommandItem>) -> Category {
    Category { id: "c".to_string(), label: "C".to_string(), color: "#000".to_string(), items }
}

fn data(categories: Vec<Category>) -> AppData {
    AppData { app_name: "CmdPal".to_string(), version: 1, categories }
}

#[test]
fn first_non_empty_skips_missing_and_blank() {
    assert_eq!(first_non_empty(&[None, Some("  "), Some("git pull"), Some("x")]), "git pull");
    assert_eq!(first_non_empty(&[None, Some("\t")]), "");
    assert_eq!(first_non_empty(&[]), "");
    assert_eq!(first_non_empty(&[Some(" a ")]), " a ");
}

#[test]
fn slugs() {
    assert_eq!(slugify("Git"), "git");
    assert_eq!(slugify("Markdown Tips!"), "markdown-tips");
    assert_eq!(slugify("--A  b--"), "a--b");
    assert_eq!(slugify("記号"), "category");
    assert_eq!(slugify(""), "category");
    assert_eq!(slugify("HTML5"), "html5");
}

#[test]
fn slugify_twice_is_slugify_once() {
    for x in ["Git", "Markdown Tips!", "記号", "", "-a-", "ÄBC 12"] {
        let once = slugify(x);
        assert_eq!(slugify(&once), once);
    }
}

#[test]
fn colours_by_label() {
    let cases = [
        ("Text", "#6bc7ff"),
        ("Prompt", "#b46cff"),
        ("Terminal", "#35c2a0"),
        ("Obsidian", "#9f7aea"),
        ("HTML", "#f97316"),
        ("Symbols", "#f472b6"),
        ("Git", "#f6c453"),
        ("Markdown", "#b46cff"),
        ("General", "#6bc7ff"),
        ("git", "#6bc7ff"),
    ];
    for (label, color) in cases {
        assert_eq!(category_color(&label.to_string()), color);
    }
}

#[test]
fn validity_needs_a_command_that_is_not_blank() {
    assert!(!is_valid_app_data(&data(vec![])));
    assert!(!is_valid_app_data(&data(vec![category(vec![])])));
    assert!(!is_valid_app_data(&data(vec![category(vec![item("  "), item("")])])));
    assert!(is_valid_app_data(&data(vec![category(vec![]), category(vec![item(" "), item("git status")])])));
}

#[test]
fn configured_path_must_not_be_blank() {
    assert_eq!(configured_data_path(&AppSettings { data_file_path: None }), None);
    assert_eq!(configured_data_path(&AppSettings { data_file_path: s("  ") }), None);
    assert_eq!(configured_data_path(&AppSettings { data_file_path: s("D:\\x.json") }), s("D:\\x.json"));
}

fn global_commands() -> Vec<SourceCommand> {
    vec![
        SourceCommand { category: s("Git"), name: s("status"), cmd: s("git status"), tag: s("essential"), ..Default::default() },
        SourceCommand { category: s("Git"), title: s("pull"), command: s("git pull"), desc: s("fetch"), auto_enter: Some(true), ..Default::default() },
        SourceCommand { action: s("vscodeCommand"), cmd: s("workbench.action"), ..Default::default() },
        SourceCommand { category: s("Git"), cmd: s("   "), ..Default::default() },
        SourceCommand { id: s("own-id"), category: s("  "), text: s("echo hi"), favorite: Some(true), ..Default::default() },
    ]
}

fn markdown_commands() -> Vec<SourceCommand> {
    vec![
        SourceCommand { content: s("# "), description: s("heading"), ..Default::default() },
        SourceCommand { category: s("Git"), value: s("git log"), ..Default::default() },
    ]
}

#[test]
fn import_groups_commands_by_category() {
    let sources = vec![
        ImportSource { commands: global_commands(), default_category: None },
        ImportSource { commands: markdown_commands(), default_category: s("Markdown") },
    ];
    let d = import_commands(&sources).unwrap();
    assert_eq!(d.app_name, "FloaPalette");
    assert_eq!(d.version, 1);
    let labels: Vec<&str> = d.categories.iter().map(|c| c.label.as_str()).collect();
    assert_eq!(labels, vec!["Git", "General", "Markdown"]);

    let git = &d.categories[0];
    assert_eq!(git.id, "git");
    assert_eq!(git.color, "#f6c453");
    let ids: Vec<&str> = git.items.iter().map(|i| i.id.as_str()).collect();
    assert_eq!(ids, vec!["git-1", "git-2", "git-3"]);
    assert_eq!(git.items[0].title, "status");
    assert_eq!(git.items[0].command, "git status");
    assert!(git.items[0].favorite);
    assert!(!git.items[0].auto_enter);
    assert_eq!(git.items[1].title, "pull");
    assert_eq!(git.items[1].description, "fetch");
    assert!(git.items[1].auto_enter);
    assert!(!git.items[1].favorite);
    assert_eq!(git.items[2].command, "git log");

    let general = &d.categories[1];
    assert_eq!(general.id, "general");
    assert_eq!(general.color, "#6bc7ff");
    assert_eq!(general.items[0].id, "own-id");
    assert_eq!(general.items[0].command, "echo hi");
    assert!(general.items[0].favorite);

    let markdown = &d.categories[2];
    assert_eq!(markdown.id, "markdown");
    assert_eq!(markdown.color, "#b46cff");
    assert_eq!(markdown.items[0].id, "markdown-1");
    assert_eq!(markdown.items[0].command, "# ");
    assert_eq!(markdown.items[0].title, "");
    assert_eq!(markdown.items[0].description, "heading");
    assert_eq!(markdown.items[0].input_mode, None);

    assert!(is_valid_app_data(&d));
}

#[test]
fn import_numbers_items_past_nine() {
    let commands: Vec<SourceCommand> = (0..12)
        .map(|k| SourceCommand { category: s("Text"), cmd: Some(format!("c{}", k)), ..Default::default() })
        .collect();
    let d = import_commands(&vec![ImportSource { commands, default_category: None }]).unwrap();
    assert_eq!(d.categories[0].items[9].id, "text-10");
    assert_eq!(d.categories[0].items[11].id, "text-12");
    assert_eq!(d.categories[0].color, "#6bc7ff");
}

#[test]
fn import_of_nothing_usable_fails() {
    let only_skipped = vec![SourceCommand { action: s("vscodeCommand"), cmd: s("x"), ..Default::default() }];
    for sources in [vec![], vec![ImportSource { commands: only_skipped, default_category: s("Markdown") }]] {
        assert_eq!(
            import_commands(&sources).unwrap_err(),
            "FloInPalette のコマンド定義を読み込めませんでした"
        );
    }
}
