//! The terminal screen: its state, its keys and its texts.

pub mod keys;
pub mod screen;
pub mod state;

pub use state::{FileEntry, FileStatus, Panel, TuiState};
