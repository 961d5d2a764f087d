use vstd::prelude::*;

use crate::model::{AppData, AppDataModel, AppSettings, CategoryModel, opt_view};
use crate::text::{blank, chars_of, is_blank};

verus! {

/// The number of commands in all of `cats`.
pub open spec fn item_count(cats: Seq<CategoryModel>) -> nat
    decreases cats.len(),
{
    if cats.len() == 0 {
        0
    } else {
        item_count(cats.drop_last()) + cats.last().items.len()
    }
}

/// Some command of `cats` is not blank.
pub open spec fn has_command(cats: Seq<CategoryModel>) -> bool {
    exists|i: int, j: int|
        0 <= i < cats.len() && 0 <= j < cats[i].items.len() && !is_blank(
            #[trigger] cats[i].items[j].command,
        )
}

/// Data worth showing: at least one category, at least one command in all,
/// and some command that is not blank.
pub open spec fn valid_data(data: AppDataModel) -> bool {
    &&& data.categories.len() > 0
    &&& item_count(data.categories) > 0
    &&& has_command(data.categories)
}

proof fn lemma_item_counted(cats: Seq<CategoryModel>, i: int)
    requires
        0 <= i < cats.len(),
    ensures
        item_count(cats) >= cats[i].items.len(),
    decreases cats.len(),
{
    if i < cats.len() - 1 {
        lemma_item_counted(cats.drop_last(), i);
    }
}

/// Whether `data` is worth showing: there is a category, a command, and some
/// command that is not blank.
pub fn is_valid_app_data(data: &AppData) -> (r: bool)
    ensures
        r == valid_data(data@),
{
    let cats = &data.categories;
    let mut i: usize = 0;
    while i < cats.len()
        invariant
            i <= cats.len(),
            cats == data.categories,
            forall|a: int, b: int|
                0 <= a < i && 0 <= b < data@.categories[a].items.len() ==> is_blank(
                    #[trigger] data@.categories[a].items[b].command,
                ),
        decreases cats.len() - i,
    {
        let items = &cats[i].items;
        assert(data@.categories[i as int] == cats@[i as int]@);
        let mut j: usize = 0;
        while j < items.len()
            invariant
                i < cats.len(),
                j <= items.len(),
                cats == data.categories,
                items == cats@[i as int].items,
                data@.categories[i as int] == cats@[i as int]@,
                forall|a: int, b: int|
                    0 <= a < i && 0 <= b < data@.categories[a].items.len() ==> is_blank(
                        #[trigger] data@.categories[a].items[b].command,
                    ),
                forall|b: int| 0 <= b < j ==> is_blank(#[trigger] data@.categories[i as int].items[b].command),
            decreases items.len() - j,
        {
            let command = chars_of(items[j].command.as_str());
            assert(data@.categories[i as int].items[j as int] == items@[j as int]@);
            if !blank(&command) {
                assert(!is_blank(data@.categories[i as int].items[j as int].command));
                proof {
                    lemma_item_counted(data@.categories, i as int);
                }
                return true;
            }
            j += 1;
        }
        i += 1;
    }
    false
}

/// The data file that the settings choose, unless it is missing or blank.
pub open spec fn configured_path(settings: Option<Seq<char>>) -> Option<Seq<char>> {
    match settings {
        Some(p) => if is_blank(p) {
            None
        } else {
            Some(p)
        },
        None => None,
    }
}

/// The data file path that `settings` choose, unless it is missing or blank.
pub fn configured_data_path(settings: &AppSettings) -> (r: Option<String>)
    ensures
        opt_view(r) == configured_path(opt_view(settings.data_file_path)),
{
    match &settings.data_file_path {
        Some(p) => {
            let c = chars_of(p.as_str());
            if blank(&c) {
                None
            } else {
                Some(p.clone())
            }
        },
        None => None,
    }
}

} // verus!

verus! {

/// Data is valid exactly when some command, in any category and at any place
/// among its commands, is not blank.
pub proof fn lemma_valid_iff_some_command(data: AppDataModel)
    ensures
        (exists|i: int, j: int|
            0 <= i < data.categories.len() && 0 <= j < data.categories[i].items.len()
                && !is_blank(#[trigger] data.categories[i].items[j].command)) <==> valid_data(data),
        forall|i: int, j: int|
            0 <= i < data.categories.len() && 0 <= j < data.categories[i].items.len() && !is_blank(
                #[trigger] data.categories[i].items[j].command,
            ) ==> valid_data(data),
{
    if exists|i: int, j: int|
        0 <= i < data.categories.len() && 0 <= j < data.categories[i].items.len() && !is_blank(
            #[trigger] data.categories[i].items[j].command,
        ) {
        let (i, j) = choose|i: int, j: int|
            0 <= i < data.categories.len() && 0 <= j < data.categories[i].items.len() && !is_blank(
                #[trigger] data.categories[i].items[j].command,
            );
        lemma_item_counted(data.categories, i);
    }
    assert forall|i: int, j: int|
        0 <= i < data.categories.len() && 0 <= j < data.categories[i].items.len() && !is_blank(
            #[trigger] data.categories[i].items[j].command,
        ) implies valid_data(data) by {
        lemma_item_counted(data.categories, i);
    }
}

} // verus!
