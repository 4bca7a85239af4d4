//! Buffer-list source: lists the editor's open, listed buffers.
//!
//! The editor is asked for its buffers outside the library; the library
//! decides which buffers become items and how they are shown.

use vstd::prelude::*;
use crate::sources::{ItemView, SourceItem, Source};
use crate::sources::grep::item_views;
use crate::text::{append_signed_decimal, push_char, signed_decimal};

verus! {

/// What the editor reports of one buffer.
pub struct BufferInfo {
    /// The buffer number.
    pub handle: i32,
    /// The buffer's name (its file path), empty when it has none.
    pub name: String,
    /// Whether the buffer is listed.
    pub listed: bool,
}

/// The item for one buffer: a listed buffer with a name is shown as
/// `{number}: {name}`, matched and opened by its name; any other buffer gives
/// no item.
pub open spec fn buffer_item(handle: int, name: Seq<char>, listed: bool) -> Option<ItemView> {
    if !listed || name.len() == 0 {
        None
    } else {
        Some(ItemView {
            display: signed_decimal(handle) + seq![':', ' '] + name,
            filter_text: name,
            action: name,
        })
    }
}

/// The items for a list of buffers, in the order given.
pub open spec fn buffer_items(bufs: Seq<BufferInfo>) -> Seq<ItemView>
    decreases bufs.len(),
{
    if bufs.len() == 0 {
        seq![]
    } else {
        buffer_items(bufs.drop_last()) + match buffer_item(
            bufs.last().handle as int,
            bufs.last().name@,
            bufs.last().listed,
        ) {
            Some(it) => seq![it],
            None => seq![],
        }
    }
}

/// Source that lists open, listed editor buffers.
pub struct BufferSource;

impl BufferSource {
    pub fn new() -> (s: Self)
        ensures
            s == BufferSource,
    {
        BufferSource
    }

    /// The item for one buffer, if it gives one.
    pub fn item_for(buf: &BufferInfo) -> (r: Option<SourceItem>)
        ensures
            match r {
                Some(it) => buffer_item(buf.handle as int, buf.name@, buf.listed) == Some(it@),
                None => buffer_item(buf.handle as int, buf.name@, buf.listed) is None,
            },
    {
        if !buf.listed || buf.name.as_str().is_empty() {
            return None;
        }
        let mut display = String::new();
        append_signed_decimal(&mut display, buf.handle as i64);
        push_char(&mut display, ':');
        push_char(&mut display, ' ');
        display.append(buf.name.as_str());
        assert(display@ =~= signed_decimal(buf.handle as int) + seq![':', ' '] + buf.name@);
        Some(SourceItem { display, filter_text: buf.name.clone(), action: buf.name.clone() })
    }

    /// The items for the editor's buffers, in the order given.
    pub fn items(bufs: &Vec<BufferInfo>) -> (items: Vec<SourceItem>)
        ensures
            item_views(items@) == buffer_items(bufs@),
    {
        let mut items: Vec<SourceItem> = Vec::new();
        let mut i: usize = 0;
        while i < bufs.len()
            invariant
                i <= bufs@.len(),
                item_views(items@) == buffer_items(bufs@.take(i as int)),
            decreases bufs@.len() - i,
        {
            let ghost old_items = items@;
            match Self::item_for(&bufs[i]) {
                Some(it) => items.push(it),
                None => {}
            }
            proof {
                assert(bufs@.take(i + 1).drop_last() =~= bufs@.take(i as int));
                assert(item_views(items@) =~= buffer_items(bufs@.take(i + 1)));
            }
            i = i + 1;
        }
        assert(bufs@.take(bufs@.len() as int) =~= bufs@);
        items
    }
}

impl Default for BufferSource {
    fn default() -> (s: Self)
        ensures
            s == BufferSource,
    {
        Self::new()
    }
}

impl Source for BufferSource {
    fn name(&self) -> (r: &str)
        ensures
            r@ == "Buffers"@,
    {
        "Buffers"
    }

    fn is_live(&self) -> (b: bool)
        ensures
            !b,
    {
        false
    }
}

} // verus!
