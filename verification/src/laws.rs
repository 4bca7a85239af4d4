//! Properties of the picker that span several operations, proved over the
//! specifications that the operations' contracts use.

use vstd::prelude::*;
use crate::picker::{
    all_indices, picker_wf, selected_item, selected_last, selected_next,
    selected_prev, visible_displays, visible_end, with_items, with_query, with_ranking,
    with_selection, PickerView,
};
use crate::sources::ItemView;
use crate::sources::files::{enters_dir, seq_lt};
use crate::sources::buffers::{buffer_item, buffer_items, BufferInfo};
use crate::sources::grep::{grep_items, grep_items_of_lines, grep_line_item, lines};
use crate::text::{decimal, is_white_space, lemma_decimal_digits, lemma_rfind_char, trim, trim_end, trim_start, unsigned_digits};
use crate::ui::{edit_command, prompt_query};

verus! {

/// Deleting the character just typed gives back the query before it: the
/// state after `push_char(c)` then `pop_char()` is the state after setting
/// the query it had before again.
pub proof fn law_pop_char_undoes_push_char(v: PickerView, c: char)
    ensures
        ({
            let pushed = with_query(v, v.query.push(c));
            with_query(pushed, pushed.query.drop_last()) == with_query(v, v.query)
        }),
{
    assert(v.query.push(c).drop_last() =~= v.query);
}

/// An empty query lists every item, in source order, with nothing waiting
/// for a ranking.
pub proof fn law_empty_query_lists_all_items(v: PickerView)
    ensures
        with_query(v, Seq::<char>::empty()).filtered == all_indices(v.items.len() as int),
        !with_query(v, Seq::<char>::empty()).pending,
        forall|items: Seq<ItemView>| v.query.len() == 0 ==> (#[trigger] with_items(v, items)).filtered
            == all_indices(items.len() as int),
{
}

/// Changing the query, the items or the ranking puts the selection back on
/// the first entry, scrolled to the top.
pub proof fn law_filter_change_resets_selection(v: PickerView, q: Seq<char>, items: Seq<ItemView>, ranked: Seq<usize>)
    ensures
        with_query(v, q).selected == 0 && with_query(v, q).scroll == 0,
        with_items(v, items).selected == 0 && with_items(v, items).scroll == 0,
        with_ranking(v, ranked).selected == 0 && with_ranking(v, ranked).scroll == 0,
{
}

/// Moving down stops at the last entry, and moving up stops at the first.
pub proof fn law_navigation_clamps(v: PickerView)
    requires
        picker_wf(v),
    ensures
        v.filtered.len() > 0 ==> selected_next(selected_last(v)).selected == v.filtered.len() - 1,
        v.filtered.len() > 0 ==> selected_next(v).selected <= v.filtered.len() - 1,
        v.selected == 0 ==> selected_prev(v).selected == 0,
{
}

/// After navigation in a window of at least one row, the selected entry is
/// inside the visible window; an entry already in view does not scroll it.
pub proof fn law_selection_stays_visible(v: PickerView, sel: int)
    requires
        v.rows > 0,
        0 <= sel,
    ensures
        ({
            let w = with_selection(v, sel);
            w.scroll <= sel < w.scroll + v.rows
        }),
        v.scroll <= sel < v.scroll + v.rows ==> with_selection(v, sel).scroll == v.scroll,
{
}

/// In every consistent state, which every constructor and operation
/// keeps, with a window of at least one row: the selection is in view and
/// the window starts inside the list, so the visible lines can always be
/// taken; with no rows this still holds unless the list is empty.
pub proof fn law_selection_in_view(v: PickerView)
    requires
        picker_wf(v),
    ensures
        v.rows >= 1 && v.filtered.len() == 0 ==> v.selected == 0 && v.scroll == 0,
        v.rows >= 1 && v.filtered.len() > 0 ==> v.scroll <= v.selected < v.filtered.len()
            && v.selected < v.scroll + v.rows,
        v.rows >= 1 || v.filtered.len() > 0 ==> v.scroll <= v.filtered.len(),
{
}

/// Accepting gives nothing exactly when the list is empty; otherwise, in a
/// window of at least one row, it gives the item whose display is the line
/// marked as selected (`visible_lines()[visible_selected()]`).
pub proof fn law_marked_line_is_accepted_item(v: PickerView)
    requires
        picker_wf(v),
    ensures
        selected_item(v) is None <==> v.filtered.len() == 0,
        v.rows >= 1 && v.filtered.len() > 0 ==> {
            &&& 0 <= v.selected - v.scroll < visible_displays(v).len()
            &&& visible_displays(v)[v.selected - v.scroll] == selected_item(v)->0.display
        },
{
    if v.rows >= 1 && v.filtered.len() > 0 {
        assert(v.selected < visible_end(v));
    }
}

/// Right after a ranking is handed in, accepting returns its best match.
pub proof fn law_ranking_best_match_first(v: PickerView, ranked: Seq<usize>)
    requires
        ranked.len() > 0,
    ensures
        selected_item(with_ranking(v, ranked)) == Some(v.items[ranked[0] as int]),
{
}

/// Reading the query back from the rendered prompt line `> {query}` gives
/// the query itself, so rendering the prompt never changes the query.
pub proof fn law_prompt_round_trip(q: Seq<char>)
    ensures
        prompt_query(seq!['>', ' '] + q) == q,
{
    assert((seq!['>', ' '] + q).skip(2) =~= q);
}

/// Accepting a `file:line` target, as the grep source produces with a
/// decimal line number, opens `file` at that line.
pub proof fn law_open_command_jumps_to_line(file: Seq<char>, line: u32)
    ensures
        edit_command(file + seq![':'] + decimal(line as nat))
            == seq!['e', 'd', 'i', 't', ' ', '+'] + decimal(line as nat) + seq![' '] + file,
{
    let d = decimal(line as nat);
    let t = file + seq![':'] + d;
    lemma_decimal_digits(line as nat);
    assert forall|k: int| file.len() < k < t.len() implies t[k] != ':' by {
        assert(t[k] == d[k - file.len() - 1]);
    }
    lemma_rfind_char(t, ':', file.len() as int);
    assert(t.skip(file.len() as int + 1) =~= d);
    assert(unsigned_digits(d) == d);
    assert(t.take(file.len() as int) =~= file);
}

/// Every grep result is matched on what it shows, and its action is the
/// `file:line` its display starts with, followed by `: ` and the text; the
/// text neither starts nor ends with white space (a tab-indented match is
/// shown without its indentation).
pub proof fn law_grep_item_shape(output: Seq<char>)
    ensures
        forall|k: int| 0 <= k < grep_items(output).len() ==> {
            let it = #[trigger] grep_items(output)[k];
            &&& it.filter_text == it.display
            &&& it.display.len() >= it.action.len() + 2
            &&& it.display.take(it.action.len() as int) == it.action
            &&& it.display[it.action.len() as int] == ':'
            &&& it.display[it.action.len() as int + 1] == ' '
            &&& no_edge_white_space(it.display.skip(it.action.len() as int + 2))
        },
{
    lemma_grep_items_of_lines_shape(lines(output));
}

proof fn lemma_grep_items_of_lines_shape(ls: Seq<Seq<char>>)
    ensures
        forall|k: int| 0 <= k < grep_items_of_lines(ls).len() ==> {
            let it = #[trigger] grep_items_of_lines(ls)[k];
            &&& it.filter_text == it.display
            &&& it.display.len() >= it.action.len() + 2
            &&& it.display.take(it.action.len() as int) == it.action
            &&& it.display[it.action.len() as int] == ':'
            &&& it.display[it.action.len() as int + 1] == ' '
            &&& no_edge_white_space(it.display.skip(it.action.len() as int + 2))
        },
    decreases ls.len(),
{
    if ls.len() > 0 {
        lemma_grep_items_of_lines_shape(ls.drop_first());
        let first: Seq<ItemView> = if ls[0].len() == 0 {
            seq![]
        } else {
            match grep_line_item(ls[0]) {
                Some(it) => seq![it],
                None => seq![],
            }
        };
        let rest = grep_items_of_lines(ls.drop_first());
        assert(grep_items_of_lines(ls) == first + rest);
        if first.len() > 0 {
            let it = first[0];
            let l = ls[0];
            let a = crate::text::find_char(l, ':');
            let r = l.skip(a + 1);
            let b = crate::text::find_char(r, ':');
            let head = l.take(a) + seq![':'] + r.take(b);
            assert(it.action == head);
            assert(it.display == head + seq![':', ' '] + crate::text::trim(r.skip(b + 1)));
            assert(it.display.take(head.len() as int) =~= head);
            let t = crate::text::trim(r.skip(b + 1));
            assert(it.display.skip(head.len() as int + 2) =~= t);
            lemma_trim_edges(r.skip(b + 1));
            if t.len() > 0 {
                law_white_space_is_unicode_white_space(t[0]);
                law_white_space_is_unicode_white_space(t.last());
            }
        }
        assert forall|k: int| 0 <= k < grep_items_of_lines(ls).len() implies {
            let it = #[trigger] grep_items_of_lines(ls)[k];
            &&& it.filter_text == it.display
            &&& it.display.len() >= it.action.len() + 2
            &&& it.display.take(it.action.len() as int) == it.action
            &&& it.display[it.action.len() as int] == ':'
            &&& it.display[it.action.len() as int + 1] == ' '
            &&& no_edge_white_space(it.display.skip(it.action.len() as int + 2))
        } by {
            if k >= first.len() {
                assert(grep_items_of_lines(ls)[k] == rest[k - first.len()]);
            }
        }
    }
}

/// Every buffer item is matched on and opens the buffer's name, which its
/// display ends with, after the buffer number and `: `.
pub proof fn law_buffer_item_shape(bufs: Seq<BufferInfo>)
    ensures
        forall|k: int| 0 <= k < buffer_items(bufs).len() ==> {
            let it = #[trigger] buffer_items(bufs)[k];
            &&& it.filter_text == it.action
            &&& it.action.len() > 0
            &&& it.display.len() >= it.action.len() + 2
            &&& it.display.skip(it.display.len() - it.action.len()) == it.action
        },
    decreases bufs.len(),
{
    if bufs.len() > 0 {
        law_buffer_item_shape(bufs.drop_last());
        let prev = buffer_items(bufs.drop_last());
        let b = bufs.last();
        let last: Seq<ItemView> = match buffer_item(b.handle as int, b.name@, b.listed) {
            Some(it) => seq![it],
            None => seq![],
        };
        assert(buffer_items(bufs) == prev + last);
        if last.len() > 0 {
            let it = last[0];
            let head = crate::text::signed_decimal(b.handle as int) + seq![':', ' '];
            assert(it.display == head + b.name@);
            assert(it.display.skip(it.display.len() - it.action.len()) =~= b.name@);
        }
        assert forall|k: int| 0 <= k < buffer_items(bufs).len() implies {
            let it = #[trigger] buffer_items(bufs)[k];
            &&& it.filter_text == it.action
            &&& it.action.len() > 0
            &&& it.display.len() >= it.action.len() + 2
            &&& it.display.skip(it.display.len() - it.action.len()) == it.action
        } by {
            if k < prev.len() {
                assert(buffer_items(bufs)[k] == prev[k]);
            }
        }
    }
}

/// The Unicode `White_Space` code points: tab, line feed, vertical tab,
/// form feed, carriage return, space, next line, no-break space, ogham space
/// mark, the spaces U+2000 to U+200A, line and paragraph separators, narrow
/// no-break space, medium mathematical space and ideographic space.
pub open spec fn white_space_code_point(n: u32) -> bool {
    ||| n == 9 || n == 10 || n == 11 || n == 12 || n == 13 || n == 32
    ||| n == 0x85 || n == 0xA0 || n == 0x1680
    ||| (0x2000 <= n && n <= 0x200A)
    ||| n == 0x2028 || n == 0x2029 || n == 0x202F || n == 0x205F || n == 0x3000
}

/// `t` neither starts nor ends with a white-space character.
pub open spec fn no_edge_white_space(t: Seq<char>) -> bool {
    t.len() > 0 ==> !white_space_code_point(t[0] as u32) && !white_space_code_point(t.last() as u32)
}

/// What trimming treats as white space (and so what `char::is_whitespace`
/// gives) is exactly the Unicode `White_Space` set, by code point.
pub proof fn law_white_space_is_unicode_white_space(c: char)
    ensures
        is_white_space(c) <==> white_space_code_point(c as u32),
{
}

/// Trimming leaves no white space at either end, and only shortens the text.
pub proof fn lemma_trim_edges(s: Seq<char>)
    ensures
        trim(s).len() > 0 ==> !is_white_space(trim(s)[0]) && !is_white_space(trim(s).last()),
        trim(s).len() <= s.len(),
{
    lemma_trim_start_edge(s);
    lemma_trim_end_edge(trim_start(s));
    let t = trim_start(s);
    if trim(s).len() > 0 {
        assert(trim(s)[0] == t[0]);
    }
}

proof fn lemma_trim_start_edge(s: Seq<char>)
    ensures
        trim_start(s).len() > 0 ==> !is_white_space(trim_start(s)[0]),
        trim_start(s).len() <= s.len(),
    decreases s.len(),
{
    if s.len() > 0 && is_white_space(s[0]) {
        lemma_trim_start_edge(s.drop_first());
    }
}

proof fn lemma_trim_end_edge(s: Seq<char>)
    ensures
        trim_end(s).len() > 0 ==> !is_white_space(trim_end(s).last()),
        trim_end(s).len() <= s.len(),
        trim_end(s) == s.take(trim_end(s).len() as int),
    decreases s.len(),
{
    if s.len() > 0 && is_white_space(s.last()) {
        lemma_trim_end_edge(s.drop_last());
        assert(s.drop_last().take(trim_end(s).len() as int) =~= s.take(trim_end(s).len() as int));
    } else {
        assert(s.take(s.len() as int) =~= s);
    }
}

/// The order files are listed in is `str`'s lexicographic order: nothing
/// comes before itself, a proper prefix comes before every longer text that
/// starts with it (`.env` before `.env.example`), and otherwise the first
/// differing character decides.
pub proof fn law_str_order(a: Seq<char>, b: Seq<char>, k: int)
    ensures
        !seq_lt(a, a),
        b.len() > 0 ==> seq_lt(a, a + b) && !seq_lt(a + b, a),
        0 <= k < a.len() && k < b.len() && a.take(k) == b.take(k) && a[k] < b[k] ==> seq_lt(a, b) && !seq_lt(b, a),
    decreases a.len(),
{
    if a.len() > 0 {
        law_str_order(a.drop_first(), b, k - 1);
        assert((a + b).drop_first() =~= a.drop_first() + b);
        assert((a + b)[0] == a[0]);
        if 0 < k < a.len() && k < b.len() && a.take(k) == b.take(k) && a[k] < b[k] {
            assert(a[0] == a.take(k)[0] && b[0] == b.take(k)[0]);
            assert(a.drop_first().take(k - 1) =~= a.take(k).drop_first());
            assert(b.drop_first().take(k - 1) =~= b.take(k).drop_first());
            lemma_first_difference(a.drop_first(), b.drop_first(), k - 1);
        }
    }
}

proof fn lemma_first_difference(a: Seq<char>, b: Seq<char>, k: int)
    requires
        0 <= k < a.len(),
        k < b.len(),
        a.take(k) == b.take(k),
        a[k] < b[k],
    ensures
        seq_lt(a, b) && !seq_lt(b, a),
    decreases k,
{
    if k > 0 {
        assert(a[0] == a.take(k)[0] && b[0] == b.take(k)[0]);
        assert(a.drop_first().take(k - 1) =~= a.take(k).drop_first());
        assert(b.drop_first().take(k - 1) =~= b.take(k).drop_first());
        lemma_first_difference(a.drop_first(), b.drop_first(), k - 1);
    }
}

/// Keeping a selection in view moves the window as little as possible: the
/// new window shows the selection, and no other window that shows it starts
/// closer to where the old one started. An entry above the window becomes
/// its top row; one below becomes its bottom row.
pub proof fn law_scroll_moves_least(v: PickerView, sel: int, other: int)
    requires
        v.rows >= 1,
        0 <= sel,
        0 <= v.scroll,
    ensures
        ({
            let s = with_selection(v, sel).scroll;
            &&& s <= sel < s + v.rows
            &&& sel < v.scroll ==> s == sel
            &&& sel >= v.scroll + v.rows ==> s + v.rows - 1 == sel
            &&& (0 <= other <= sel < other + v.rows) ==> (if s >= v.scroll { s - v.scroll } else { v.scroll - s })
                <= (if other >= v.scroll { other - v.scroll } else { v.scroll - other })
        }),
{
}

/// Replacing the items keeps filtering by the current query: the state is
/// the one that setting the query gives over the new items, so a non-empty
/// query waits for the ranking of the new items with nothing listed, and an
/// empty one lists them all.
pub proof fn law_set_items_keeps_query(v: PickerView, items: Seq<ItemView>)
    ensures
        with_items(v, items) == with_query(PickerView { items, ..v }, v.query),
        v.query.len() > 0 ==> with_items(v, items).pending && with_items(v, items).filtered.len() == 0,
        v.query.len() == 0 ==> with_items(v, items).filtered == all_indices(items.len() as int),
        with_items(v, items).items == items && with_items(v, items).query == v.query,
{
}

/// The file walk skips exactly nine directory names (`.git`,
/// `node_modules`, `target`, `.next`, `__pycache__`, `.venv`, `dist`,
/// `build`, `.direnv`) and every hidden one; it enters every other directory.
pub proof fn law_enters_dir(name: Seq<char>)
    ensures
        enters_dir(name) <==> !(name == ".git"@ || name == "node_modules"@ || name == "target"@
            || name == ".next"@ || name == "__pycache__"@ || name == ".venv"@ || name == "dist"@
            || name == "build"@ || name == ".direnv"@) && !(name.len() > 0 && name[0] == '.'),
{
    let d = crate::sources::files::skip_dirs();
    if name == ".git"@ || name == "node_modules"@ || name == "target"@ || name == ".next"@
        || name == "__pycache__"@ || name == ".venv"@ || name == "dist"@ || name == "build"@
        || name == ".direnv"@ {
        if name == ".git"@ { assert(d[0] == name); }
        if name == "node_modules"@ { assert(d[1] == name); }
        if name == "target"@ { assert(d[2] == name); }
        if name == ".next"@ { assert(d[3] == name); }
        if name == "__pycache__"@ { assert(d[4] == name); }
        if name == ".venv"@ { assert(d[5] == name); }
        if name == "dist"@ { assert(d[6] == name); }
        if name == "build"@ { assert(d[7] == name); }
        if name == ".direnv"@ { assert(d[8] == name); }
    }
}

} // verus!
