use vstd::prelude::*;

verus! {

/// One command of the palette.
#[derive(Debug)]
pub struct CommandItem {
    pub id: String,
    pub title: String,
    pub command: String,
    pub description: String,
    pub favorite: bool,
    pub auto_enter: bool,
    pub input_mode: Option<String>,
}

/// A named, coloured group of commands.
#[derive(Debug)]
pub struct Category {
    pub id: String,
    pub label: String,
    pub color: String,
    pub items: Vec<CommandItem>,
}

/// Everything the palette shows: its name, the format version, the categories.
#[derive(Debug)]
pub struct AppData {
    pub app_name: String,
    pub version: u32,
    pub categories: Vec<Category>,
}

/// The user's settings: the data file chosen in place of the default one.
#[derive(Debug, Default)]
pub struct AppSettings {
    pub data_file_path: Option<String>,
}

/// One command as another palette's command files write it: every field may
/// be missing, and several fields may hold the same thing.
#[derive(Debug, Default)]
pub struct SourceCommand {
    pub id: Option<String>,
    pub category: Option<String>,
    pub name: Option<String>,
    pub title: Option<String>,
    pub desc: Option<String>,
    pub description: Option<String>,
    pub cmd: Option<String>,
    pub command: Option<String>,
    pub text: Option<String>,
    pub content: Option<String>,
    pub value: Option<String>,
    pub tag: Option<String>,
    pub favorite: Option<bool>,
    pub auto_enter: Option<bool>,
    pub action: Option<String>,
}

/// The contents of one such command file.
#[derive(Debug, Default)]
pub struct SourcePayload {
    pub commands: Vec<SourceCommand>,
}

/// One command file to import: its commands, and the category of those that
/// name none.
#[derive(Debug)]
pub struct ImportSource {
    pub commands: Vec<SourceCommand>,
    pub default_category: Option<String>,
}

pub open spec fn opt_view(o: Option<String>) -> Option<Seq<char>> {
    match o {
        Some(s) => Some(s@),
        None => None,
    }
}

pub struct ItemModel {
    pub id: Seq<char>,
    pub title: Seq<char>,
    pub command: Seq<char>,
    pub description: Seq<char>,
    pub favorite: bool,
    pub auto_enter: bool,
    pub input_mode: Option<Seq<char>>,
}

pub struct CategoryModel {
    pub id: Seq<char>,
    pub label: Seq<char>,
    pub color: Seq<char>,
    pub items: Seq<ItemModel>,
}

pub struct AppDataModel {
    pub app_name: Seq<char>,
    pub version: u32,
    pub categories: Seq<CategoryModel>,
}

pub struct SourceModel {
    pub id: Option<Seq<char>>,
    pub category: Option<Seq<char>>,
    pub name: Option<Seq<char>>,
    pub title: Option<Seq<char>>,
    pub desc: Option<Seq<char>>,
    pub description: Option<Seq<char>>,
    pub cmd: Option<Seq<char>>,
    pub command: Option<Seq<char>>,
    pub text: Option<Seq<char>>,
    pub content: Option<Seq<char>>,
    pub value: Option<Seq<char>>,
    pub tag: Option<Seq<char>>,
    pub favorite: Option<bool>,
    pub auto_enter: Option<bool>,
    pub action: Option<Seq<char>>,
}

impl View for CommandItem {
    type V = ItemModel;

    open spec fn view(&self) -> ItemModel {
        ItemModel {
            id: self.id@,
            title: self.title@,
            command: self.command@,
            description: self.description@,
            favorite: self.favorite,
            auto_enter: self.auto_enter,
            input_mode: opt_view(self.input_mode),
        }
    }
}

impl View for Category {
    type V = CategoryModel;

    open spec fn view(&self) -> CategoryModel {
        CategoryModel {
            id: self.id@,
            label: self.label@,
            color: self.color@,
            items: self.items@.map_values(|i: CommandItem| i@),
        }
    }
}

impl View for AppData {
    type V = AppDataModel;

    open spec fn view(&self) -> AppDataModel {
        AppDataModel {
            app_name: self.app_name@,
            version: self.version,
            categories: self.categories@.map_values(|c: Category| c@),
        }
    }
}

impl View for SourceCommand {
    type V = SourceModel;

    open spec fn view(&self) -> SourceModel {
        SourceModel {
            id: opt_view(self.id),
            category: opt_view(self.category),
            name: opt_view(self.name),
            title: opt_view(self.title),
            desc: opt_view(self.desc),
            description: opt_view(self.description),
            cmd: opt_view(self.cmd),
            command: opt_view(self.command),
            text: opt_view(self.text),
            content: opt_view(self.content),
            value: opt_view(self.value),
            tag: opt_view(self.tag),
            favorite: self.favorite,
            auto_enter: self.auto_enter,
            action: opt_view(self.action),
        }
    }
}

} // verus!
