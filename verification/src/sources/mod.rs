//! The items that feed the picker, and the sources that produce them.
//!
//! Each source knows its name and whether it must be asked again when the
//! query changes; the items it produces are built by the verified functions
//! of its module from what was read outside.

use vstd::prelude::*;

pub mod buffers;
pub mod files;
pub mod grep;

verus! {

/// Opaque `std::path::PathBuf`: the library only carries it.
#[verifier::external_type_specification]
#[verifier::external_body]
pub struct ExPathBuf(std::path::PathBuf);

/// A single entry produced by a source.
#[derive(Debug, Clone)]
pub struct SourceItem {
    /// Display text shown in the picker results list.
    pub display: String,
    /// The value used for fuzzy matching (may differ from display).
    pub filter_text: String,
    /// Action payload — typically a file path or `path:line` location.
    pub action: String,
}

/// The three texts of an item, as character sequences.
pub struct ItemView {
    pub display: Seq<char>,
    pub filter_text: Seq<char>,
    pub action: Seq<char>,
}

impl View for SourceItem {
    type V = ItemView;

    open spec fn view(&self) -> ItemView {
        ItemView { display: self.display@, filter_text: self.filter_text@, action: self.action@ }
    }
}

/// The item whose display, filter text and action are all `text`.
pub open spec fn simple_item(text: Seq<char>) -> ItemView {
    ItemView { display: text, filter_text: text, action: text }
}

impl SourceItem {
    /// Create a source item where display, filter, and action are all the same.
    pub fn simple(text: &str) -> (item: Self)
        ensures
            item@ == simple_item(text@),
    {
        SourceItem { display: text.to_owned(), filter_text: text.to_owned(), action: text.to_owned() }
    }
}

/// Trait implemented by each picker source (files, grep, buffers, etc.).
pub trait Source {
    /// Human-readable name shown in the picker title.
    fn name(&self) -> &str;

    /// Whether the items should be gathered again when the query changes.
    /// Grep needs this (`true`); files and buffers do not (`false`). A
    /// source that does not say is not live.
    fn is_live(&self) -> (live: bool)
        default_ensures
            !live,
    {
        false
    }
}

} // verus!
