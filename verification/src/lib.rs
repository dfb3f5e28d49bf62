//! Character mappings for rewriting full-width punctuation and typographic
//! quotes into their plain ASCII forms, the editor state around them, and the
//! decisions of the keyboard hook.
pub mod display;
pub mod editor;
pub mod hook;
pub mod mapping;
pub mod text;
