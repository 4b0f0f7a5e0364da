//! The core of a terminal text editor: a rope-backed text buffer, an undo log
//! and a selection layer stacked on it, a modal input state machine and a
//! double-buffered screen that only re-emits the cells that changed.

pub mod command;
pub mod lines;
pub mod record;
pub mod rope;
pub mod screen;
pub mod select;
pub mod strings;
pub mod text;
pub mod view;

