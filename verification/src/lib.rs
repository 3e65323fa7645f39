//! Verified core of a small PDF reader: reading position history, preference
//! files, page layout arithmetic, text selection, search navigation, view
//! toggles, render scheduling and page image orientation.

pub mod text;
pub mod assoc;
pub mod history;
pub mod settings;
pub mod layout;
pub mod search;
pub mod selection;
pub mod bookmarks;
pub mod view;
pub mod render;
