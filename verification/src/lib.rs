//! Core of a modal hex editor: a byte rope, edit deltas, a multi-selection
//! algebra, undo history and the modes that turn key events into edits.

pub mod byte_range;
pub mod byte_rope;
pub mod cmd_count;
pub mod current_buffer;
pub mod delta;
pub mod hex_view;
pub mod history;
pub mod keymap;
pub mod laws;
pub mod modes;
pub mod operations;
pub mod selection;
pub mod text;

pub use crate::current_buffer::{BuffrCollection, CurrentBuffer, OverflowSelectionStyle};
