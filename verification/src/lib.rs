//! The logic of a floating command palette: its data model and the checks and
//! import rules of its data file, and the planning of the key strokes that type
//! a command or a keyboard shortcut into another window.

pub mod import;
pub mod model;
pub mod shortcut;
pub mod text;
pub mod validate;
pub mod win_input;
