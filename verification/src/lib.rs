//! Parser for a small line-oriented keymap-cheatsheet format.
//!
//! The input is plain text in which `###` opens a window title, `##` a tab,
//! `#` a binding group, and any other non-blank line is a `keys | action`
//! binding.  Parsing yields a [`bindings::Window`] tree whose shape and
//! contents are pinned down by the specification functions in [`parser`].

pub mod bindings;
pub mod laws;
pub mod nav;
pub mod parser;
pub mod text;
