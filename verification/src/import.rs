use vstd::prelude::*;

use crate::model::{
    AppData, AppDataModel, Category, CategoryModel, CommandItem, ImportSource, ItemModel,
    SourceCommand, SourceModel, opt_view,
};
use crate::validate::valid_data;
use crate::text::{
    ascii_lower, blank, chars_of, dashes_stripped, is_blank, string_of, strip_dash_end,
    strip_dash_start, strip_dashes, to_ascii_lower,
};

verus! {

/// The first of `values` that is present and not blank, else the empty text.
pub open spec fn first_nonblank(values: Seq<Option<Seq<char>>>) -> Seq<char>
    decreases values.len(),
{
    if values.len() == 0 {
        Seq::<char>::empty()
    } else {
        match values[0] {
            Some(v) if !is_blank(v) => v,
            _ => first_nonblank(values.drop_first()),
        }
    }
}

pub open spec fn str_opt_view(o: Option<&str>) -> Option<Seq<char>> {
    match o {
        Some(s) => Some(s@),
        None => None,
    }
}

/// The first of `values` that is present and not blank, else "".
pub fn first_non_empty(values: &[Option<&str>]) -> (r: String)
    ensures
        r@ == first_nonblank(values@.map_values(|o: Option<&str>| str_opt_view(o))),
{
    let ghost vs = values@.map_values(|o: Option<&str>| str_opt_view(o));
    let mut i: usize = 0;
    assert(vs.skip(0) =~= vs);
    while i < values.len()
        invariant
            i <= values.len(),
            vs == values@.map_values(|o: Option<&str>| str_opt_view(o)),
            first_nonblank(vs) == first_nonblank(vs.skip(i as int)),
        decreases values.len() - i,
    {
        assert(vs.skip(i as int)[0] == str_opt_view(values@[i as int]));
        assert(vs.skip(i as int).drop_first() =~= vs.skip(i + 1));
        match values[i] {
            Some(v) => {
                let c = chars_of(v);
                if !blank(&c) {
                    return v.to_owned();
                }
            },
            None => {},
        }
        i += 1;
    }
    String::new()
}

/// The character that stands for `c` in a slug: ASCII letters and digits in
/// lower case, '-' for anything else.
pub open spec fn slug_char(c: char) -> char {
    if ('a' <= c && c <= 'z') || ('A' <= c && c <= 'Z') || ('0' <= c && c <= '9') {
        ascii_lower(c)
    } else {
        '-'
    }
}

pub open spec fn category_word() -> Seq<char> {
    "category"@
}

/// The slug of `s`: every character made a slug character, the '-' at both
/// ends taken off, and "category" if nothing is left.
pub open spec fn slug(s: Seq<char>) -> Seq<char> {
    let t = strip_dashes(s.map_values(|c: char| slug_char(c)));
    if t.len() == 0 {
        category_word()
    } else {
        t
    }
}

/// A name for use in ids: ASCII letters and digits in lower case, every other
/// character as '-', no '-' at either end; "category" when that is empty.
pub fn slugify(value: &str) -> (r: String)
    ensures
        r@ == slug(value@),
{
    let s = chars_of(value);
    let mut mapped: Vec<char> = Vec::new();
    let mut i: usize = 0;
    while i < s.len()
        invariant
            i <= s.len(),
            mapped@ == s@.take(i as int).map_values(|c: char| slug_char(c)),
        decreases s.len() - i,
    {
        let c = s[i];
        let m = if ('a' <= c && c <= 'z') || ('A' <= c && c <= 'Z') || ('0' <= c && c <= '9') {
            to_ascii_lower(c)
        } else {
            '-'
        };
        mapped.push(m);
        assert(s@.take(i + 1).map_values(|c: char| slug_char(c)) =~= s@.take(i as int).map_values(
            |c: char| slug_char(c),
        ).push(slug_char(c)));
        i += 1;
    }
    assert(s@.take(s.len() as int) =~= s@);
    let t = dashes_stripped(&mapped);
    if t.len() == 0 {
        String::from_str("category")
    } else {
        string_of(&t)
    }
}

/// A character that a slug holds: an ASCII lower-case letter, a digit, or '-'.
pub open spec fn is_slug_char(c: char) -> bool {
    ('a' <= c && c <= 'z') || ('0' <= c && c <= '9') || c == '-'
}

/// The shape of a slug: not empty, only slug characters, no '-' at either end.
pub open spec fn is_slug(s: Seq<char>) -> bool {
    &&& s.len() > 0
    &&& forall|i: int| 0 <= i < s.len() ==> is_slug_char(#[trigger] s[i])
    &&& s[0] != '-'
    &&& s.last() != '-'
}

proof fn lemma_strip_start_keeps(s: Seq<char>)
    requires
        forall|i: int| 0 <= i < s.len() ==> is_slug_char(#[trigger] s[i]),
    ensures
        forall|i: int|
            0 <= i < strip_dash_start(s).len() ==> is_slug_char(#[trigger] strip_dash_start(s)[i]),
        strip_dash_start(s).len() > 0 ==> strip_dash_start(s)[0] != '-',
        strip_dash_start(s).len() > 0 ==> strip_dash_start(s).last() == s.last(),
    decreases s.len(),
{
    if s.len() > 0 && s[0] == '-' {
        lemma_strip_start_keeps(s.drop_first());
    }
}

proof fn lemma_strip_end_keeps(s: Seq<char>)
    requires
        forall|i: int| 0 <= i < s.len() ==> is_slug_char(#[trigger] s[i]),
    ensures
        forall|i: int|
            0 <= i < strip_dash_end(s).len() ==> is_slug_char(#[trigger] strip_dash_end(s)[i]),
        strip_dash_end(s).len() > 0 ==> strip_dash_end(s).last() != '-',
        strip_dash_end(s).len() > 0 ==> strip_dash_end(s)[0] == s[0],
    decreases s.len(),
{
    if s.len() > 0 && s.last() == '-' {
        lemma_strip_end_keeps(s.drop_last());
    }
}

/// A slug is always a slug: not empty, made of ASCII lower-case letters,
/// digits and '-', with no '-' at either end.
pub proof fn lemma_slug_shape(s: Seq<char>)
    ensures
        is_slug(slug(s)),
{
    let m = s.map_values(|c: char| slug_char(c));
    assert forall|i: int| 0 <= i < m.len() implies is_slug_char(#[trigger] m[i]) by {
        assert(m[i] == slug_char(s[i]));
    }
    lemma_strip_start_keeps(m);
    lemma_strip_end_keeps(strip_dash_start(m));
    reveal_strlit("category");
}

/// Slugs are fixed points: the slug of a slug is the slug itself.
pub proof fn lemma_slugify_idempotent(s: Seq<char>)
    ensures
        slug(slug(s)) == slug(s),
{
    let t = slug(s);
    lemma_slug_shape(s);
    let m = t.map_values(|c: char| slug_char(c));
    assert(m =~= t) by {
        assert forall|i: int| 0 <= i < t.len() implies m[i] == t[i] by {
            assert(is_slug_char(t[i]));
        }
    }
    assert(strip_dash_start(t) == t);
    assert(strip_dash_end(t) == t);
}


pub open spec fn digit_char(d: nat) -> char {
    ((d % 10 + 48) as u8) as char
}

/// The decimal digits of `n`, most significant first, without leading zeros.
pub open spec fn decimal(n: nat) -> Seq<char>
    decreases n,
{
    if n < 10 {
        seq![digit_char(n)]
    } else {
        decimal(n / 10).push(digit_char(n))
    }
}

/// The decimal digits of `n`.
pub fn decimal_chars(n: u128) -> (r: Vec<char>)
    ensures
        r@ == decimal(n as nat),
    decreases n,
{
    let d = (((n % 10) + 48) as u8) as char;
    if n < 10 {
        let mut r: Vec<char> = Vec::new();
        r.push(d);
        assert(r@ =~= seq![digit_char(n as nat)]);
        r
    } else {
        let mut r = decimal_chars(n / 10);
        r.push(d);
        r
    }
}


/// One command to import, with the category of the file it came from.
pub type Entry = (SourceModel, Option<Seq<char>>);

pub open spec fn source_entries(src: ImportSource) -> Seq<Entry> {
    src.commands@.map_values(|c: SourceCommand| (c@, opt_view(src.default_category)))
}

/// The commands of all sources, in order, each with its file's category.
pub open spec fn entries_of(sources: Seq<ImportSource>) -> Seq<Entry>
    decreases sources.len(),
{
    if sources.len() == 0 {
        Seq::<Entry>::empty()
    } else {
        entries_of(sources.drop_last()) + source_entries(sources.last())
    }
}

/// The text of a command: the first of cmd, command, text, content and value
/// that is not blank.
pub open spec fn command_text(raw: SourceModel) -> Seq<char> {
    first_nonblank(seq![raw.cmd, raw.command, raw.text, raw.content, raw.value])
}

/// The category of a command: its own unless that is missing or blank, else
/// its file's, else "General".
pub open spec fn label_of(raw: SourceModel, default: Option<Seq<char>>) -> Seq<char> {
    match raw.category {
        Some(c) if !is_blank(c) => c,
        _ => match default {
            Some(d) => d,
            None => "General"@,
        },
    }
}

/// The colour of a category, by its label.
pub open spec fn color_of(label: Seq<char>) -> Seq<char> {
    if label == "Text"@ {
        "#6bc7ff"@
    } else if label == "Prompt"@ {
        "#b46cff"@
    } else if label == "Terminal"@ {
        "#35c2a0"@
    } else if label == "Obsidian"@ {
        "#9f7aea"@
    } else if label == "HTML"@ {
        "#f97316"@
    } else if label == "Symbols"@ {
        "#f472b6"@
    } else if label == "Git"@ {
        "#f6c453"@
    } else if label == "Markdown"@ {
        "#b46cff"@
    } else {
        "#6bc7ff"@
    }
}

/// The index of the first category from `i` on labelled `label`.
pub open spec fn find_label(cats: Seq<CategoryModel>, label: Seq<char>, i: int) -> Option<int>
    decreases cats.len() - i,
{
    if i < 0 || i >= cats.len() {
        None
    } else if cats[i].label == label {
        Some(i)
    } else {
        find_label(cats, label, i + 1)
    }
}

/// A command skipped on import: a VS Code command.
pub open spec fn is_editor_action(raw: SourceModel) -> bool {
    raw.action == Some("vscodeCommand"@)
}

/// The palette command made of `raw`, the `index`-th of its category.
pub open spec fn new_item(raw: SourceModel, label: Seq<char>, command: Seq<char>, index: nat) -> ItemModel {
    ItemModel {
        id: match raw.id {
            Some(id) => id,
            None => slug(label) + seq!['-'] + decimal(index),
        },
        title: first_nonblank(seq![raw.name, raw.title]),
        command,
        description: first_nonblank(seq![raw.desc, raw.description]),
        favorite: raw.favorite == Some(true) || raw.tag == Some("essential"@),
        auto_enter: raw.auto_enter == Some(true),
        input_mode: None,
    }
}

/// Importing one command: VS Code commands and those without text are
/// skipped; the others go at the end of their category, which is made (with
/// the slug of its label as id) when it is new.
pub open spec fn import_step(cats: Seq<CategoryModel>, entry: Entry) -> Seq<CategoryModel> {
    let raw = entry.0;
    let command = command_text(raw);
    if is_editor_action(raw) || is_blank(command) {
        cats
    } else {
        let label = label_of(raw, entry.1);
        match find_label(cats, label, 0) {
            Some(i) => cats.update(
                i,
                CategoryModel {
                    items: cats[i].items.push(
                        new_item(raw, label, command, cats[i].items.len() + 1),
                    ),
                    ..cats[i]
                },
            ),
            None => cats.push(
                CategoryModel {
                    id: slug(label),
                    label,
                    color: color_of(label),
                    items: seq![new_item(raw, label, command, 1)],
                },
            ),
        }
    }
}

/// The categories made by importing `entries` in order.
pub open spec fn import_fold(entries: Seq<Entry>) -> Seq<CategoryModel>
    decreases entries.len(),
{
    if entries.len() == 0 {
        Seq::<CategoryModel>::empty()
    } else {
        import_step(import_fold(entries.drop_last()), entries.last())
    }
}

pub open spec fn import_error_message() -> Seq<char> {
    "FloInPalette のコマンド定義を読み込めませんでした"@
}

/// The palette data imported from `sources`: no category at all is an error.
pub open spec fn imported(sources: Seq<ImportSource>) -> Result<AppDataModel, Seq<char>> {
    let cats = import_fold(entries_of(sources));
    if cats.len() == 0 {
        Err(import_error_message())
    } else {
        Ok(AppDataModel { app_name: "FloaPalette"@, version: 1, categories: cats })
    }
}

pub open spec fn cat_views(v: Seq<Category>) -> Seq<CategoryModel> {
    v.map_values(|c: Category| c@)
}

fn opt_str(o: &Option<String>) -> (r: Option<&str>)
    ensures
        str_opt_view(r) == opt_view(*o),
{
    match o {
        Some(s) => Some(s.as_str()),
        None => None,
    }
}

fn opt_is(o: &Option<String>, lit: &str) -> (r: bool)
    ensures
        r == (opt_view(*o) == Some(lit@)),
{
    match o {
        Some(s) => *s == String::from_str(lit),
        None => false,
    }
}

/// The colour of the category labelled `label`.
pub fn category_color(label: &String) -> (r: String)
    ensures
        r@ == color_of(label@),
{
    if *label == String::from_str("Text") {
        String::from_str("#6bc7ff")
    } else if *label == String::from_str("Prompt") {
        String::from_str("#b46cff")
    } else if *label == String::from_str("Terminal") {
        String::from_str("#35c2a0")
    } else if *label == String::from_str("Obsidian") {
        String::from_str("#9f7aea")
    } else if *label == String::from_str("HTML") {
        String::from_str("#f97316")
    } else if *label == String::from_str("Symbols") {
        String::from_str("#f472b6")
    } else if *label == String::from_str("Git") {
        String::from_str("#f6c453")
    } else if *label == String::from_str("Markdown") {
        String::from_str("#b46cff")
    } else {
        String::from_str("#6bc7ff")
    }
}

fn make_item(raw: &SourceCommand, label: &String, command: String, index: u128) -> (r: CommandItem)
    ensures
        r@ == new_item(raw@, label@, command@, index as nat),
{
    let id = match &raw.id {
        Some(id) => id.clone(),
        None => {
            let mut id = slugify(label.as_str());
            id.append("-");
            let digits = string_of(&decimal_chars(index));
            id.append(digits.as_str());
            proof {
                reveal_strlit("-");
            }
            id
        },
    };
    let names = vec![opt_str(&raw.name), opt_str(&raw.title)];
    let title = first_non_empty(names.as_slice());
    assert(names@.map_values(|o: Option<&str>| str_opt_view(o)) =~= seq![raw@.name, raw@.title]);
    let descs = vec![opt_str(&raw.desc), opt_str(&raw.description)];
    let description = first_non_empty(descs.as_slice());
    assert(descs@.map_values(|o: Option<&str>| str_opt_view(o)) =~= seq![raw@.desc, raw@.description]);
    let favorite = match raw.favorite {
        Some(f) => f,
        None => false,
    } || opt_is(&raw.tag, "essential");
    let auto_enter = match raw.auto_enter {
        Some(a) => a,
        None => false,
    };
    let ghost expected = new_item(raw@, label@, command@, index as nat);
    assert(id@ == expected.id);
    assert(title@ == expected.title);
    assert(description@ == expected.description);
    assert(favorite == expected.favorite);
    assert(auto_enter == expected.auto_enter);
    CommandItem { id, title, command, description, favorite, auto_enter, input_mode: None }
}


fn find_category(cats: &Vec<Category>, label: &String) -> (r: Option<usize>)
    ensures
        r matches Some(i) ==> i < cats.len() && find_label(cat_views(cats@), label@, 0) == Some(
            i as int,
        ),
        r is None ==> find_label(cat_views(cats@), label@, 0) is None,
{
    let ghost cv = cat_views(cats@);
    let mut k: usize = 0;
    while k < cats.len()
        invariant
            k <= cats.len(),
            cv == cat_views(cats@),
            find_label(cv, label@, 0) == find_label(cv, label@, k as int),
        decreases cats.len() - k,
    {
        assert(cv[k as int] == cats@[k as int]@);
        if cats[k].label == *label {
            return Some(k);
        }
        k += 1;
    }
    None
}

/// Imports one command into `cats`.
fn import_one(cats: &mut Vec<Category>, raw: &SourceCommand, default: &Option<String>)
    ensures
        cat_views(final(cats)@) == import_step(cat_views(old(cats)@), (raw@, opt_view(*default))),
{
    if opt_is(&raw.action, "vscodeCommand") {
        return;
    }
    let texts = vec![
        opt_str(&raw.cmd),
        opt_str(&raw.command),
        opt_str(&raw.text),
        opt_str(&raw.content),
        opt_str(&raw.value),
    ];
    let command = first_non_empty(texts.as_slice());
    assert(texts@.map_values(|o: Option<&str>| str_opt_view(o)) =~= seq![
        raw@.cmd,
        raw@.command,
        raw@.text,
        raw@.content,
        raw@.value,
    ]);
    let command_chars = chars_of(command.as_str());
    if blank(&command_chars) {
        return;
    }
    let label = match &raw.category {
        Some(c) if !blank(&chars_of(c.as_str())) => c.clone(),
        _ => match default {
            Some(d) => d.clone(),
            None => String::from_str("General"),
        },
    };
    assert(label@ == label_of(raw@, opt_view(*default)));
    let ghost before = cat_views(cats@);
    let ghost entry = (raw@, opt_view(*default));
    assert(command@ == command_text(raw@));
    assert(!is_editor_action(raw@));
    assert(!is_blank(command_text(raw@)));
    match find_category(cats, &label) {
        Some(i) => {
            let mut cat = Category {
                id: String::new(),
                label: String::new(),
                color: String::new(),
                items: Vec::new(),
            };
            cats.set_and_swap(i, &mut cat);
            let index: u128 = (cat.items.len() as u128) + 1;
            let item = make_item(raw, &label, command, index);
            let ghost old_items = cat@.items;
            cat.items.push(item);
            assert(cat@.items =~= old_items.push(item@));
            cats.set_and_swap(i, &mut cat);
            assert(cat_views(cats@) =~= before.update(
                i as int,
                CategoryModel {
                    items: before[i as int].items.push(
                        new_item(raw@, label@, command@, before[i as int].items.len() + 1),
                    ),
                    ..before[i as int]
                },
            ));
            assert(find_label(before, label@, 0) == Some(i as int));
            assert(cat_views(cats@) == import_step(before, entry));
        },
        None => {
            let id = slugify(label.as_str());
            let color = category_color(&label);
            let item = make_item(raw, &label, command, 1);
            let mut items: Vec<CommandItem> = Vec::new();
            items.push(item);
            let cat = Category { id, label, color, items };
            assert(cat@.items =~= seq![item@]);
            cats.push(cat);
            assert(cat_views(cats@) =~= before.push(cat@));
            assert(cat_views(cats@) == import_step(before, entry));
        },
    }
}

/// The palette data imported from command files of another palette, in order:
/// each command that has text and is not a VS Code command goes at the end of
/// its category (the first with its label, or a new one); no category at all
/// is an error.
pub fn import_commands(sources: &Vec<ImportSource>) -> (r: Result<AppData, String>)
    ensures
        match imported(sources@) {
            Ok(d) => r is Ok && r->Ok_0@ == d,
            Err(e) => r is Err && r->Err_0@ == e,
        },
{
    let mut categories: Vec<Category> = Vec::new();
    let mut i: usize = 0;
    assert(sources@.take(0) =~= Seq::<ImportSource>::empty());
    assert(cat_views(categories@) =~= Seq::<CategoryModel>::empty());
    while i < sources.len()
        invariant
            i <= sources.len(),
            cat_views(categories@) == import_fold(entries_of(sources@.take(i as int))),
        decreases sources.len() - i,
    {
        let src = &sources[i];
        let ghost done = entries_of(sources@.take(i as int));
        let mut j: usize = 0;
        assert(done + source_entries(*src).take(0) =~= done);
        while j < src.commands.len()
            invariant
                i < sources.len(),
                src == sources@[i as int],
                done == entries_of(sources@.take(i as int)),
                j <= src.commands.len(),
                cat_views(categories@) == import_fold(done + source_entries(*src).take(j as int)),
            decreases src.commands.len() - j,
        {
            let ghost prefix = done + source_entries(*src).take(j as int);
            let ghost next = done + source_entries(*src).take(j + 1);
            assert(next.drop_last() =~= prefix);
            assert(next.last() == (src.commands@[j as int]@, opt_view(src.default_category)));
            import_one(&mut categories, &src.commands[j], &src.default_category);
            j += 1;
        }
        assert(source_entries(*src).take(src.commands.len() as int) =~= source_entries(*src));
        assert(sources@.take(i + 1).drop_last() =~= sources@.take(i as int));
        i += 1;
    }
    assert(sources@.take(sources.len() as int) =~= sources@);
    if categories.len() == 0 {
        return Err(String::from_str("FloInPalette のコマンド定義を読み込めませんでした"));
    }
    let data = AppData { app_name: String::from_str("FloaPalette"), version: 1, categories };
    assert(data@.categories == cat_views(data.categories@));
    Ok(data)
}


/// What importing keeps true of the categories: each has a command, no command
/// is blank, no two share a label, and each has the slug of its label as id and
/// its label's colour.
pub open spec fn well_formed(cats: Seq<CategoryModel>) -> bool {
    &&& forall|i: int| 0 <= i < cats.len() ==> (#[trigger] cats[i]).items.len() > 0
    &&& forall|i: int, j: int|
        0 <= i < cats.len() && 0 <= j < cats[i].items.len() ==> !is_blank(
            #[trigger] cats[i].items[j].command,
        )
    &&& forall|i: int, j: int|
        0 <= i < cats.len() && 0 <= j < cats.len() && i != j ==> #[trigger] cats[i].label
            != #[trigger] cats[j].label
    &&& forall|i: int|
        0 <= i < cats.len() ==> (#[trigger] cats[i]).id == slug(cats[i].label) && cats[i].color
            == color_of(cats[i].label)
}

proof fn lemma_find_label(cats: Seq<CategoryModel>, label: Seq<char>, k: int)
    requires
        0 <= k,
    ensures
        find_label(cats, label, k) matches Some(i) ==> k <= i < cats.len() && cats[i].label
            == label,
        find_label(cats, label, k) is None ==> forall|i: int|
            k <= i < cats.len() ==> cats[i].label != label,
    decreases cats.len() - k,
{
    if k < cats.len() && cats[k].label != label {
        lemma_find_label(cats, label, k + 1);
    }
}

/// Importing any commands, in any order, gives well-formed categories.
pub proof fn lemma_import_well_formed(entries: Seq<Entry>)
    ensures
        well_formed(import_fold(entries)),
    decreases entries.len(),
{
    if entries.len() > 0 {
        lemma_import_well_formed(entries.drop_last());
        let cats = import_fold(entries.drop_last());
        let entry = entries.last();
        let raw = entry.0;
        let command = command_text(raw);
        if !(is_editor_action(raw) || is_blank(command)) {
            let label = label_of(raw, entry.1);
            lemma_find_label(cats, label, 0);
            let next = import_fold(entries);
            match find_label(cats, label, 0) {
                Some(i) => {
                    assert forall|a: int, b: int|
                        0 <= a < next.len() && 0 <= b < next[a].items.len() implies !is_blank(
                        #[trigger] next[a].items[b].command,
                    ) by {
                        if a == i && b == cats[i].items.len() {
                        } else if a == i {
                            assert(next[a].items[b] == cats[a].items[b]);
                        } else {
                            assert(next[a] == cats[a]);
                        }
                    }
                    assert forall|a: int, b: int|
                        0 <= a < next.len() && 0 <= b < next.len() && a != b implies #[trigger] next[a].label
                        != #[trigger] next[b].label by {
                        assert(cats[a].label != cats[b].label);
                    }
                    assert forall|a: int| 0 <= a < next.len() implies (#[trigger] next[a]).id == slug(
                        next[a].label,
                    ) && next[a].color == color_of(next[a].label) by {
                        assert(cats[a].id == slug(cats[a].label));
                    }
                    assert forall|a: int| 0 <= a < next.len() implies (#[trigger] next[a]).items.len()
                        > 0 by {
                        assert(cats[a].items.len() > 0);
                    }
                },
                None => {
                    assert forall|a: int, b: int|
                        0 <= a < next.len() && 0 <= b < next[a].items.len() implies !is_blank(
                        #[trigger] next[a].items[b].command,
                    ) by {
                        if a < cats.len() {
                            assert(next[a] == cats[a]);
                        }
                    }
                    assert forall|a: int, b: int|
                        0 <= a < next.len() && 0 <= b < next.len() && a != b implies #[trigger] next[a].label
                        != #[trigger] next[b].label by {
                        if a < cats.len() && b < cats.len() {
                            assert(cats[a].label != cats[b].label);
                        }
                    }
                    assert forall|a: int| 0 <= a < next.len() implies (#[trigger] next[a]).id == slug(
                        next[a].label,
                    ) && next[a].color == color_of(next[a].label) by {
                        if a < cats.len() {
                            assert(cats[a].id == slug(cats[a].label));
                        }
                    }
                    assert forall|a: int| 0 <= a < next.len() implies (#[trigger] next[a]).items.len()
                        > 0 by {
                        if a < cats.len() {
                            assert(cats[a].items.len() > 0);
                        }
                    }
                },
            }
        }
    }
}

/// Imported data always passes the check that loading applies: it has a
/// category, a command, and a command that is not blank.
pub proof fn lemma_imported_is_valid(sources: Seq<ImportSource>)
    requires
        imported(sources) is Ok,
    ensures
        valid_data(imported(sources)->Ok_0),
{
    let cats = import_fold(entries_of(sources));
    lemma_import_well_formed(entries_of(sources));
    assert(cats[0].items.len() > 0);
    assert(!is_blank(cats[0].items[0].command));
    let d = imported(sources)->Ok_0;
    assert(d.categories[0].items[0].command == cats[0].items[0].command);
}


/// The first non-blank value is blank exactly when no value is present and not
/// blank; otherwise it is one of the values.
pub proof fn lemma_first_nonblank(values: Seq<Option<Seq<char>>>)
    ensures
        is_blank(first_nonblank(values)) <==> forall|i: int|
            0 <= i < values.len() ==> (#[trigger] values[i] matches Some(v) ==> is_blank(v)),
        !is_blank(first_nonblank(values)) ==> exists|i: int|
            0 <= i < values.len() && #[trigger] values[i] == Some(first_nonblank(values)),
    decreases values.len(),
{
    if values.len() > 0 {
        lemma_first_nonblank(values.drop_first());
        let rest = values.drop_first();
        assert forall|i: int| 0 < i < values.len() implies #[trigger] values[i] == rest[i - 1] by {}
        if !is_blank(first_nonblank(values)) {
            match values[0] {
                Some(v) if !is_blank(v) => {},
                _ => {
                    let k = choose|k: int| 0 <= k < rest.len() && #[trigger] rest[k] == Some(
                        first_nonblank(rest),
                    );
                    assert(values[k + 1] == rest[k]);
                },
            }
        }
    }
}

} // verus!

verus! {

/// A command that is imported (not a VS Code command, and with some text)
/// becomes the last command of the category with its label, holding its text;
/// it is a favorite exactly when its favorite field is `Some(true)` or its tag
/// is "essential" (so an "essential" command is a favorite whatever its
/// favorite field says), and it presses Enter exactly when its auto-enter field
/// is `Some(true)`.
pub proof fn lemma_imported_command(entries: Seq<Entry>, entry: Entry)
    requires
        entry.0.action != Some("vscodeCommand"@),
        !is_blank(command_text(entry.0)),
    ensures
        exists|i: int|
            0 <= i < import_fold(entries.push(entry)).len() && {
                let cat = #[trigger] import_fold(entries.push(entry))[i];
                let item = cat.items.last();
                &&& cat.label == label_of(entry.0, entry.1)
                &&& cat.items.len() > 0
                &&& item.command == command_text(entry.0)
                &&& item.favorite == (entry.0.favorite == Some(true) || entry.0.tag == Some(
                    "essential"@,
                ))
                &&& item.auto_enter == (entry.0.auto_enter == Some(true))
            },
{
    let all = entries.push(entry);
    assert(all.drop_last() =~= entries);
    assert(all.last() == entry);
    let before = import_fold(entries);
    let after = import_fold(all);
    let label = label_of(entry.0, entry.1);
    lemma_find_label(before, label, 0);
    let i = match find_label(before, label, 0) {
        Some(i) => i,
        None => before.len() as int,
    };
    assert(after[i].items.len() > 0);
    assert(after[i].label == label);
}

} // verus!
