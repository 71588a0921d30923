//! Text-buffer core of a small terminal text editor: rows with tab
//! expansion and syntax highlighting, a document of rows, search, and the
//! editor's command handling.

pub mod highlighting;
pub mod row;
pub mod document;
pub mod editor;
pub mod search;
pub mod terminal;
