//! Shiboru: the state and rules of a fuzzy picker (query, filtered results,
//! selection cursor, scrolling), the item sources that feed it, and the
//! decisions behind its windows.
//!
//! - [`picker`]: the picker state machine and the specification of each
//!   transition.
//! - [`sources`]: the items, and how the file, grep and buffer sources build
//!   them from what was read outside.
//! - [`ui`]: window layout, the results window's lines, reading the prompt,
//!   and the editor command that opens an accepted item.
//! - [`laws`]: properties that span several operations.
//! - [`text`]: character-level helpers and their specifications.

pub mod text;

pub mod sources;
pub mod picker;
pub mod ui;
pub mod laws;
