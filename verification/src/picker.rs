//! Core picker state machine.
//!
//! Manages the query string, filtered results, and selection cursor. This
//! module is pure state: ranking the items against a non-empty query is done
//! by a fuzzy matcher outside the library, whose ranking is handed back with
//! [`PickerState::apply_ranking`].

use vstd::prelude::*;
use crate::sources::{ItemView, SourceItem};
use crate::sources::grep::item_views;
use crate::text::{append_decimal, decimal, pop_char, push_char};

verus! {

/// An action the picker wants the caller to execute.
#[derive(Debug, Clone, PartialEq, Eq)]
pub enum PickerAction {
    /// User confirmed a selection. Payload is the action string from the
    /// selected item.
    Accept(String),
    /// User cancelled the picker.
    Cancel,
}

/// The picker's internal state.
#[derive(Debug)]
pub struct PickerState {
    /// Current query string.
    query: String,
    /// Unfiltered items from the source.
    all_items: Vec<SourceItem>,
    /// Indices into `all_items` that match the current query, in ranked order.
    filtered: Vec<usize>,
    /// Currently highlighted index within `filtered`.
    selected: usize,
    /// Scroll offset (index of first visible item).
    scroll_offset: usize,
    /// Number of visible result rows.
    visible_rows: usize,
    /// The query is non-empty and its ranking has not been handed in yet.
    ranking_pending: bool,
}

/// The mathematical state of a picker.
pub struct PickerView {
    pub query: Seq<char>,
    pub items: Seq<ItemView>,
    pub filtered: Seq<usize>,
    pub selected: int,
    pub scroll: int,
    pub rows: int,
    pub pending: bool,
}

// ---------------------------------------------------------------------------
// Specification of the transitions
// ---------------------------------------------------------------------------

/// `0, 1, .., n - 1`: every item, in source order.
pub open spec fn all_indices(n: int) -> Seq<usize> {
    Seq::new(n as nat, |i: int| i as usize)
}

/// No index occurs twice in `s`.
pub open spec fn distinct_indices(s: Seq<usize>) -> bool {
    forall|i: int, j: int| 0 <= i < j < s.len() ==> #[trigger] s[i] != #[trigger] s[j]
}

/// The state is consistent:
/// - every filtered index names an item, and none occurs twice;
/// - an empty query lists every item in source order;
/// - the selection lies within the filtered list (or is 0 when it is empty);
/// - the window's end `scroll + rows` fits in a `usize`;
/// - the selection is in view: the window starts at or before it and, when
///   it has at least one row, ends after it; with no rows the window starts
///   at most one entry past it;
/// - a pending ranking belongs to a non-empty query with nothing filtered yet.
pub open spec fn picker_wf(v: PickerView) -> bool {
    &&& forall|k: int| 0 <= k < v.filtered.len() ==> (#[trigger] v.filtered[k]) < v.items.len()
    &&& distinct_indices(v.filtered)
    &&& v.items.len() <= usize::MAX
    &&& v.query.len() == 0 ==> v.filtered == all_indices(v.items.len() as int) && !v.pending
    &&& v.filtered.len() == 0 ==> v.selected == 0
    &&& v.filtered.len() > 0 ==> 0 <= v.selected < v.filtered.len()
    &&& 0 <= v.scroll
    &&& 0 <= v.rows
    &&& v.scroll + v.rows <= usize::MAX
    &&& v.rows >= 1 ==> v.scroll <= v.selected < v.scroll + v.rows
    &&& v.rows == 0 ==> v.scroll <= v.selected + 1
    &&& v.pending ==> v.query.len() > 0 && v.filtered.len() == 0
}

/// The state after the query or the items changed: an empty query lists
/// every item in source order; a non-empty one waits for the matcher's
/// ranking with nothing listed. Either way the selection and the scroll
/// return to the top.
pub open spec fn refiltered(v: PickerView) -> PickerView {
    PickerView {
        filtered: if v.query.len() == 0 { all_indices(v.items.len() as int) } else { seq![] },
        pending: v.query.len() > 0,
        selected: 0,
        scroll: 0,
        ..v
    }
}

/// The state after the query became `q`.
pub open spec fn with_query(v: PickerView, q: Seq<char>) -> PickerView {
    refiltered(PickerView { query: q, ..v })
}

/// The state after the items became `items`.
pub open spec fn with_items(v: PickerView, items: Seq<ItemView>) -> PickerView {
    refiltered(PickerView { items, ..v })
}

/// The state after the matcher's ranking `ranked` was handed in.
pub open spec fn with_ranking(v: PickerView, ranked: Seq<usize>) -> PickerView {
    PickerView { filtered: ranked, pending: false, selected: 0, scroll: 0, ..v }
}

/// The scroll offset that keeps `sel` in view: scroll up to it when it is
/// above the window, down just enough when it is below.
pub open spec fn scroll_for(sel: int, scroll: int, rows: int) -> int {
    if sel < scroll {
        sel
    } else if sel >= scroll + rows {
        sel - rows + 1
    } else {
        scroll
    }
}

/// Keeping `sel` in view computes `scroll + rows` without overflow.
pub open spec fn scroll_fits(sel: int, scroll: int, rows: int) -> bool {
    sel < scroll || scroll + rows <= usize::MAX
}

/// The state with `sel` selected and kept in view.
pub open spec fn with_selection(v: PickerView, sel: int) -> PickerView {
    PickerView { selected: sel, scroll: scroll_for(sel, v.scroll, v.rows), ..v }
}

/// Move down by one, stopping at the last entry.
pub open spec fn selected_next(v: PickerView) -> PickerView {
    if v.filtered.len() == 0 {
        v
    } else {
        with_selection(v, if v.selected + 1 < v.filtered.len() { v.selected + 1 } else { v.filtered.len() - 1 })
    }
}

/// Move up by one, stopping at the first entry.
pub open spec fn selected_prev(v: PickerView) -> PickerView {
    with_selection(v, if v.selected > 0 { v.selected - 1 } else { 0 })
}

/// Jump to the first entry, scrolled to the top.
pub open spec fn selected_first(v: PickerView) -> PickerView {
    PickerView { selected: 0, scroll: 0, ..v }
}

/// Jump to the last entry.
pub open spec fn selected_last(v: PickerView) -> PickerView {
    if v.filtered.len() == 0 {
        v
    } else {
        with_selection(v, v.filtered.len() - 1)
    }
}

/// The item under the selection, when the filtered list is not empty.
pub open spec fn selected_item(v: PickerView) -> Option<ItemView> {
    if 0 <= v.selected < v.filtered.len() {
        Some(v.items[v.filtered[v.selected] as int])
    } else {
        None
    }
}

/// End (exclusive) of the visible window within the filtered list.
pub open spec fn visible_end(v: PickerView) -> int {
    if v.scroll + v.rows < v.filtered.len() {
        v.scroll + v.rows
    } else {
        v.filtered.len() as int
    }
}

/// Display texts of the visible portion of the filtered list.
pub open spec fn visible_displays(v: PickerView) -> Seq<Seq<char>> {
    Seq::new(
        (visible_end(v) - v.scroll) as nat,
        |k: int| v.items[v.filtered[v.scroll + k] as int].display,
    )
}

/// The views of a list of string slices.
pub open spec fn str_views(v: Seq<&str>) -> Seq<Seq<char>> {
    v.map_values(|s: &str| s@)
}

impl View for PickerState {
    type V = PickerView;

    closed spec fn view(&self) -> PickerView {
        PickerView {
            query: self.query@,
            items: item_views(self.all_items@),
            filtered: self.filtered@,
            selected: self.selected as int,
            scroll: self.scroll_offset as int,
            rows: self.visible_rows as int,
            pending: self.ranking_pending,
        }
    }
}

impl PickerState {
    /// The state is consistent (see [`picker_wf`]).
    pub open spec fn wf(&self) -> bool {
        picker_wf(self@)
    }

    /// Lists every item for an empty query, or marks a non-empty query as
    /// waiting for its ranking; returns the selection to the top.
    fn refilter(&mut self)
        ensures
            final(self)@ == refiltered(old(self)@),
            final(self).wf(),
    {
        let n = self.all_items.len();
        if self.query.as_str().is_empty() {
            let mut filtered: Vec<usize> = Vec::new();
            let mut i: usize = 0;
            while i < n
                invariant
                    i <= n,
                    filtered@ == all_indices(i as int),
                decreases n - i,
            {
                filtered.push(i);
                assert(filtered@ =~= all_indices(i + 1));
                i = i + 1;
            }
            assert forall|a: int, b: int| 0 <= a < b < filtered@.len() implies
                #[trigger] filtered@[a] != #[trigger] filtered@[b] by {
                assert(filtered@[a] == a as usize && filtered@[b] == b as usize);
            }
            self.filtered = filtered;
            self.ranking_pending = false;
        } else {
            self.filtered = Vec::new();
            self.ranking_pending = true;
        }
        // Reset selection to top after re-filtering.
        self.selected = 0;
        self.scroll_offset = 0;
        assert(self@ =~= refiltered(old(self)@));
    }

    /// Keeps the selection inside the visible window.
    fn ensure_visible(&mut self)
        requires
            scroll_fits(old(self).selected as int, old(self).scroll_offset as int, old(self).visible_rows as int),
            old(self).selected < usize::MAX,
        ensures
            final(self)@ == with_selection(old(self)@, old(self).selected as int),
    {
        if self.selected < self.scroll_offset {
            self.scroll_offset = self.selected;
        } else if self.selected >= self.scroll_offset + self.visible_rows {
            self.scroll_offset = self.selected - self.visible_rows + 1;
        }
        assert(self@ =~= with_selection(old(self)@, old(self).selected as int));
    }

    /// Create a new picker state with the given items and visible row count.
    pub fn new(items: Vec<SourceItem>, visible_rows: usize) -> (s: Self)
        ensures
            s.wf(),
            s@.query == Seq::<char>::empty(),
            s@.items == item_views(items@),
            s@.filtered == all_indices(items@.len() as int),
            s@.selected == 0,
            s@.scroll == 0,
            s@.rows == visible_rows,
            !s@.pending,
    {
        let mut s = PickerState {
            query: String::new(),
            all_items: items,
            filtered: Vec::new(),
            selected: 0,
            scroll_offset: 0,
            visible_rows,
            ranking_pending: false,
        };
        s.refilter();
        s
    }

    /// Replace the items (used when a live source re-collects).
    pub fn set_items(&mut self, items: Vec<SourceItem>)
        requires
            old(self).wf(),
        ensures
            final(self).wf(),
            final(self)@ == with_items(old(self)@, item_views(items@)),
    {
        self.all_items = items;
        self.refilter();
        assert(self@ =~= with_items(old(self)@, item_views(items@)));
    }

    // -- Query manipulation --------------------------------------------------

    /// The current query string.
    pub fn query(&self) -> (q: &str)
        ensures
            q@ == self@.query,
    {
        self.query.as_str()
    }

    /// Append a character to the query.
    pub fn push_char(&mut self, ch: char)
        requires
            old(self).wf(),
        ensures
            final(self).wf(),
            final(self)@ == with_query(old(self)@, old(self)@.query.push(ch)),
    {
        push_char(&mut self.query, ch);
        self.refilter();
    }

    /// Delete the last character from the query.
    pub fn pop_char(&mut self)
        requires
            old(self).wf(),
        ensures
            final(self).wf(),
            final(self)@ == with_query(
                old(self)@,
                if old(self)@.query.len() > 0 { old(self)@.query.drop_last() } else { old(self)@.query },
            ),
    {
        let _ = pop_char(&mut self.query);
        self.refilter();
    }

    /// Replace the entire query.
    pub fn set_query(&mut self, query: &str)
        requires
            old(self).wf(),
        ensures
            final(self).wf(),
            final(self)@ == with_query(old(self)@, query@),
    {
        self.query = query.to_owned();
        self.refilter();
    }

    /// Clear the query.
    pub fn clear_query(&mut self)
        requires
            old(self).wf(),
        ensures
            final(self).wf(),
            final(self)@ == with_query(old(self)@, Seq::<char>::empty()),
    {
        self.query = String::new();
        self.refilter();
    }

    /// Whether the current query still waits for the matcher's ranking.
    pub fn needs_ranking(&self) -> (b: bool)
        ensures
            b == self@.pending,
    {
        self.ranking_pending
    }

    /// The texts the matcher ranks the query against, one per item, in
    /// source order.
    pub fn candidates(&self) -> (c: Vec<&str>)
        ensures
            str_views(c@) == self@.items.map_values(|it: ItemView| it.filter_text),
    {
        let mut c: Vec<&str> = Vec::new();
        let mut i: usize = 0;
        while i < self.all_items.len()
            invariant
                i <= self.all_items@.len(),
                c@.len() == i,
                str_views(c@) == item_views(self.all_items@).take(i as int).map_values(|it: ItemView| it.filter_text),
            decreases self.all_items@.len() - i,
        {
            let t = self.all_items[i].filter_text.as_str();
            assert(t@ == item_views(self.all_items@)[i as int].filter_text);
            let ghost old_c = c@;
            c.push(t);
            proof {
                let target = item_views(self.all_items@).take(i + 1).map_values(|it: ItemView| it.filter_text);
                let prev = item_views(self.all_items@).take(i as int).map_values(|it: ItemView| it.filter_text);
                assert forall|j: int| 0 <= j < i + 1 implies str_views(c@)[j] == target[j] by {
                    if j < i {
                        assert(c@[j] == old_c[j]);
                        assert(str_views(old_c)[j] == prev[j]);
                    }
                }
                assert(str_views(c@) =~= target);
            }
            i = i + 1;
        }
        assert(item_views(self.all_items@).take(i as int) =~= item_views(self.all_items@));
        c
    }

    /// Hand in the matcher's ranking of the current query, while the state
    /// waits for one: the indices of the matching items, best first, each at
    /// most once. The selection returns to the top.
    pub fn apply_ranking(&mut self, ranked: Vec<usize>)
        requires
            old(self).wf(),
            old(self)@.pending,
            forall|k: int| 0 <= k < ranked@.len() ==> (#[trigger] ranked@[k]) < old(self)@.items.len(),
            distinct_indices(ranked@),
        ensures
            final(self).wf(),
            final(self)@ == with_ranking(old(self)@, ranked@),
    {
        self.filtered = ranked;
        self.ranking_pending = false;
        self.selected = 0;
        self.scroll_offset = 0;
        assert(self@ =~= with_ranking(old(self)@, ranked@));
    }

    // -- Navigation ----------------------------------------------------------

    /// Move selection down by one.
    pub fn select_next(&mut self)
        requires
            old(self).wf(),
        ensures
            final(self).wf(),
            final(self)@ == selected_next(old(self)@),
    {
        if !self.filtered.is_empty() {
            let last = self.filtered.len() - 1;
            self.selected = if self.selected + 1 < last { self.selected + 1 } else { last };
            self.ensure_visible();
        }
        assert(self@ =~= selected_next(old(self)@));
    }

    /// Move selection up by one.
    pub fn select_prev(&mut self)
        requires
            old(self).wf(),
        ensures
            final(self).wf(),
            final(self)@ == selected_prev(old(self)@),
    {
        self.selected = if self.selected > 0 { self.selected - 1 } else { 0 };
        self.ensure_visible();
    }

    /// Jump to the first item.
    pub fn select_first(&mut self)
        requires
            old(self).wf(),
        ensures
            final(self).wf(),
            final(self)@ == selected_first(old(self)@),
    {
        self.selected = 0;
        self.scroll_offset = 0;
        assert(self@ =~= selected_first(old(self)@));
    }

    /// Jump to the last item.
    pub fn select_last(&mut self)
        requires
            old(self).wf(),
        ensures
            final(self).wf(),
            final(self)@ == selected_last(old(self)@),
    {
        if !self.filtered.is_empty() {
            self.selected = self.filtered.len() - 1;
            self.ensure_visible();
        }
        assert(self@ =~= selected_last(old(self)@));
    }

    /// The currently selected index within the filtered list.
    pub fn selected_index(&self) -> (i: usize)
        ensures
            i == self@.selected,
    {
        self.selected
    }

    /// The scroll offset.
    pub fn scroll_offset(&self) -> (o: usize)
        ensures
            o == self@.scroll,
    {
        self.scroll_offset
    }

    /// The number of visible result rows.
    pub fn visible_rows(&self) -> (r: usize)
        ensures
            r == self@.rows,
    {
        self.visible_rows
    }

    // -- Actions -------------------------------------------------------------

    /// Accept the current selection. Returns `None` if the list is empty.
    pub fn accept(&self) -> (a: Option<PickerAction>)
        requires
            self.wf(),
        ensures
            match selected_item(self@) {
                Some(it) => a matches Some(PickerAction::Accept(s)) && s@ == it.action,
                None => a is None,
            },
    {
        if self.selected >= self.filtered.len() {
            return None;
        }
        let idx = self.filtered[self.selected];
        let item = &self.all_items[idx];
        Some(PickerAction::Accept(item.action.clone()))
    }

    /// Cancel the picker.
    pub fn cancel(&self) -> (a: PickerAction)
        ensures
            a is Cancel,
    {
        PickerAction::Cancel
    }

    // -- Rendering helpers ---------------------------------------------------

    /// Get the display lines for the visible portion of the filtered results.
    pub fn visible_lines(&self) -> (lines: Vec<&str>)
        requires
            self.wf(),
            self@.scroll <= self@.filtered.len(),
        ensures
            str_views(lines@) == visible_displays(self@),
    {
        let sum = self.scroll_offset + self.visible_rows;
        let end = if sum < self.filtered.len() { sum } else { self.filtered.len() };
        let mut lines: Vec<&str> = Vec::new();
        let mut i = self.scroll_offset;
        while i < end
            invariant
                self.wf(),
                self.scroll_offset <= i <= end <= self.filtered@.len(),
                end == visible_end(self@),
                lines@.len() == i - self.scroll_offset,
                str_views(lines@) == visible_displays(self@).take(i - self.scroll_offset),
            decreases end - i,
        {
            let idx = self.filtered[i];
            let t = self.all_items[idx].display.as_str();
            assert(t@ == self@.items[idx as int].display);
            assert(t@ == visible_displays(self@)[i - self.scroll_offset]);
            let ghost old_lines = lines@;
            lines.push(t);
            proof {
                let target = visible_displays(self@).take(i + 1 - self.scroll_offset);
                let prev = visible_displays(self@).take(i - self.scroll_offset);
                assert forall|j: int| 0 <= j < i + 1 - self.scroll_offset implies str_views(lines@)[j] == target[j] by {
                    if j < i - self.scroll_offset {
                        assert(lines@[j] == old_lines[j]);
                        assert(str_views(old_lines)[j] == prev[j]);
                    }
                }
                assert(str_views(lines@) =~= target);
            }
            i = i + 1;
        }
        assert(visible_displays(self@).take(end - self.scroll_offset) =~= visible_displays(self@));
        lines
    }

    /// Index within the visible slice that is currently selected.
    pub fn visible_selected(&self) -> (i: usize)
        ensures
            i == if self@.selected > self@.scroll { self@.selected - self@.scroll } else { 0 },
    {
        if self.selected > self.scroll_offset { self.selected - self.scroll_offset } else { 0 }
    }

    /// Total number of filtered results.
    pub fn filtered_count(&self) -> (n: usize)
        ensures
            n == self@.filtered.len(),
    {
        self.filtered.len()
    }

    /// Total number of items (before filtering).
    pub fn total_count(&self) -> (n: usize)
        ensures
            n == self@.items.len(),
    {
        self.all_items.len()
    }

    /// The prompt line: `> {query}`.
    pub fn prompt_line(&self) -> (line: String)
        ensures
            line@ == seq!['>', ' '] + self@.query,
    {
        let mut line = String::new();
        push_char(&mut line, '>');
        push_char(&mut line, ' ');
        line.append(self.query.as_str());
        assert(line@ =~= seq!['>', ' '] + self@.query);
        line
    }

    /// Status line: `{filtered}/{total}`.
    pub fn status_line(&self) -> (line: String)
        ensures
            line@ == decimal(self@.filtered.len()) + seq!['/'] + decimal(self@.items.len()),
    {
        let mut line = String::new();
        append_decimal(&mut line, self.filtered.len() as u64);
        push_char(&mut line, '/');
        append_decimal(&mut line, self.all_items.len() as u64);
        assert(line@ =~= decimal(self@.filtered.len()) + seq!['/'] + decimal(self@.items.len()));
        line
    }
}

} // verus!
