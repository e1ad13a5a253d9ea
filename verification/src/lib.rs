//! A modal, terminal-resident text editor core.
//!
//! The library holds the verified heart of the editor: a grapheme-aware
//! line buffer ([`Row`]), an ordered buffer of rows with file identity
//! and search ([`Document`]), a stateful per-line syntax highlighter
//! that threads "inside a block comment" state across lines, and the
//! modal command/undo state machine ([`Editor`]). Terminal plumbing,
//! file I/O and the system clipboard live outside the library and talk
//! to it through plain values and [`editor::Action`] requests.

#![verifier::loop_isolation(false)]

pub mod document;
pub mod editor;
pub mod filetype;
pub mod highlighting;
pub mod row;
pub mod status;
pub mod text;

pub use document::Document;
pub use editor::Editor;
pub use editor::Position;
pub use editor::SearchDirection;
pub use editor::Size;
pub use filetype::FileType;
pub use highlighting::HighlightingOptions;
pub use row::Row;
