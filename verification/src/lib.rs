//! A verified text-editing engine: a document buffer with index
//! conversions, a reversible command log, a cursor/selection model,
//! a line-layout and wrap engine, a scroll controller, a search
//! engine with cyclic match navigation, and a cursor-blink state
//! machine.

pub mod blink;
pub mod char_kind;
pub mod command;
pub mod doc;
pub mod editor;
pub mod layout;
pub mod scroll;
pub mod search;
pub mod syntax;
pub mod text;
