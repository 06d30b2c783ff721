//! Text editing and focus management for character-grid terminal interfaces.
//!
//! The library has two parts. The first is the state of a single-line text
//! field: a UTF-8 text with a caret and a selection, and the edits that key
//! events ask for (`utf8`, `buffer`, `input_field`, `widgets`). The second is
//! the screen: the views that change, in tab order, with at most one of them
//! in focus, and the rules by which the focus moves and key events reach the
//! view in focus (`focus`, `cells`, `views`, `event`). `layout` says how a
//! stack of views shares out its space.
//!
//! Drawing, reading the terminal and the clipboard are left to the program
//! that uses the library.

pub mod buffer;
pub mod cells;
pub mod event;
pub mod focus;
pub mod input_field;
pub mod layout;
pub mod utf8;
pub mod views;
pub mod widgets;
