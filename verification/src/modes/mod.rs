//! The modes of the editor and what they make of an event.

pub mod collapse;
pub mod command;
pub mod insert;
pub mod jumpto;
pub mod mode;
pub mod normal;
pub mod quitting;
pub mod replace;
pub mod search;
pub mod split;
