//! What the view of a buffer computes: which bytes are on the screen, how
//! the window on the file is kept around them, and what an event changes.

pub mod render;
pub mod view;
