//! The decisions behind the picker's windows: where they go, what the
//! results window shows, how the prompt's text becomes the query, and which
//! editor command an accepted item runs. Drawing the windows and running the
//! commands happens outside the library.

use vstd::prelude::*;
use crate::picker::{with_query, PickerState};
use crate::sources::grep::string_views;
use crate::text::{
    append_chars, append_decimal, chars_of, decimal, digit_value, digits_value, is_digit,
    parse_u32, push_char, unsigned_digits, rfind_char, rfind_in, string_of,
};

verus! {

// ---------------------------------------------------------------------------
// Layout
// ---------------------------------------------------------------------------

/// Height of the prompt window (always 1 line).
pub const PROMPT_HEIGHT: u32 = 1;

/// Where the two windows go in the editor.
pub struct PickerLayout {
    /// Width of both windows.
    pub width: u32,
    /// Height of prompt, gap and results together.
    pub total_height: u32,
    /// Height of the results window.
    pub results_height: u32,
    /// Row of the prompt window.
    pub start_row: u32,
    /// Column of both windows.
    pub start_col: u32,
    /// Row of the results window, below the prompt and a one-line gap.
    pub results_row: u32,
}

/// The editor size used when no UI is attached.
pub open spec fn editor_size(ui: Option<(u32, u32)>) -> (int, int) {
    match ui {
        Some((w, h)) => (w as int, h as int),
        None => (80, 24),
    }
}

impl PickerLayout {
    /// Centered windows, four fifths of the editor's width (at least 20
    /// columns) and three fifths of its height (at least 5 lines), the
    /// fractions rounded down. `ui` is the editor's `(width, height)`, when a
    /// UI is attached; 80 by 24 is assumed otherwise.
    pub fn compute(ui: Option<(u32, u32)>) -> (l: PickerLayout)
        ensures
            ({
                let (w, h) = editor_size(ui);
                let width = if w * 4 / 5 > 20 { w * 4 / 5 } else { 20 };
                let total = if h * 3 / 5 > 5 { h * 3 / 5 } else { 5 };
                &&& l.width == width
                &&& l.total_height == total
                &&& l.results_height == total - (PROMPT_HEIGHT + 1)
                &&& l.start_row == (if h > total { h - total } else { 0 }) / 2
                &&& l.start_col == (if w > width { w - width } else { 0 }) / 2
                &&& l.results_row == l.start_row + PROMPT_HEIGHT + 1
            }),
    {
        let (w, h): (u32, u32) = match ui {
            Some((w, h)) => (w, h),
            None => (80, 24),
        };
        let w4: u64 = (w as u64) * 4 / 5;
        let h3: u64 = (h as u64) * 3 / 5;
        let width: u32 = if w4 > 20 { w4 as u32 } else { 20 };
        let total_height: u32 = if h3 > 5 { h3 as u32 } else { 5 };
        let results_height = total_height - (PROMPT_HEIGHT + 1);
        let start_row = (if h > total_height { h - total_height } else { 0 }) / 2;
        let start_col = (if w > width { w - width } else { 0 }) / 2;
        PickerLayout {
            width,
            total_height,
            results_height,
            start_row,
            start_col,
            results_row: start_row + PROMPT_HEIGHT + 1,
        }
    }
}

// ---------------------------------------------------------------------------
// Results window
// ---------------------------------------------------------------------------

/// The results window's lines: each visible line behind a two-column
/// marker, `> ` on the selected one, then the status in brackets.
pub open spec fn formatted_lines(lines: Seq<Seq<char>>, selected: int, status: Seq<char>) -> Seq<Seq<char>> {
    Seq::new(
        lines.len(),
        |i: int| (if i == selected { seq!['>', ' '] } else { seq![' ', ' '] }) + lines[i],
    ).push(seq![' ', ' ', '['] + status + seq![']'])
}

/// Format result lines with selection indicator and status.
pub fn format_lines(lines: &Vec<&str>, selected: usize, status: &str) -> (out: Vec<String>)
    ensures
        string_views(out@) == formatted_lines(lines@.map_values(|s: &str| s@), selected as int, status@),
{
    let ghost views = lines@.map_values(|s: &str| s@);
    let ghost target = formatted_lines(views, selected as int, status@);
    let mut out: Vec<String> = Vec::new();
    let mut i: usize = 0;
    while i < lines.len()
        invariant
            i <= lines@.len(),
            views == lines@.map_values(|s: &str| s@),
            target == formatted_lines(views, selected as int, status@),
            out@.len() == i,
            forall|k: int| 0 <= k < i ==> #[trigger] out@[k]@ == target[k],
        decreases lines@.len() - i,
    {
        let mut line = String::new();
        if i == selected {
            push_char(&mut line, '>');
        } else {
            push_char(&mut line, ' ');
        }
        push_char(&mut line, ' ');
        line.append(lines[i]);
        assert(line@ =~= target[i as int]);
        out.push(line);
        i = i + 1;
    }
    let mut last = String::new();
    push_char(&mut last, ' ');
    push_char(&mut last, ' ');
    push_char(&mut last, '[');
    last.append(status);
    push_char(&mut last, ']');
    assert(last@ =~= target[lines@.len() as int]);
    out.push(last);
    assert(string_views(out@) =~= target);
    out
}

// ---------------------------------------------------------------------------
// Prompt
// ---------------------------------------------------------------------------

/// The query typed into the prompt line: the line without its `> ` prefix,
/// or the whole line when it has none.
pub open spec fn prompt_query(line: Seq<char>) -> Seq<char> {
    if line.len() >= 2 && line[0] == '>' && line[1] == ' ' {
        line.skip(2)
    } else {
        line
    }
}

/// The query typed into the prompt line.
pub fn query_from_prompt(line: &str) -> (q: String)
    ensures
        q@ == prompt_query(line@),
{
    let v = chars_of(line);
    if v.len() >= 2 && v[0] == '>' && v[1] == ' ' {
        let q = string_of(&v, 2, v.len());
        assert(q@ =~= line@.skip(2));
        q
    } else {
        let q = string_of(&v, 0, v.len());
        assert(q@ =~= line@);
        q
    }
}

impl PickerState {
    /// Takes the prompt's text as typed: when the query in it differs from
    /// the current one, it becomes the query (see `set_query`). Returns
    /// whether it did.
    pub fn update_from_prompt(&mut self, line: &str) -> (changed: bool)
        requires
            old(self).wf(),
        ensures
            final(self).wf(),
            changed == (prompt_query(line@) != old(self)@.query),
            changed ==> final(self)@ == with_query(old(self)@, prompt_query(line@)),
            !changed ==> final(self)@ == old(self)@,
    {
        let q = query_from_prompt(line);
        let old_q = self.query().to_owned();
        if q == old_q {
            false
        } else {
            self.set_query(q.as_str());
            true
        }
    }
}

// ---------------------------------------------------------------------------
// Accepted items
// ---------------------------------------------------------------------------

/// The editor command that opens an accepted target: a target ending in
/// `:{line}` whose line number parses as a `u32` opens the file before the
/// last `:` at that line; any other target is opened as a file.
pub open spec fn edit_command(target: Seq<char>) -> Seq<char> {
    let c = rfind_char(target, ':');
    if c >= 0 && parse_u32(target.skip(c + 1)) is Some {
        seq!['e', 'd', 'i', 't', ' ', '+'] + decimal(parse_u32(target.skip(c + 1))->0 as nat)
            + seq![' '] + target.take(c)
    } else {
        seq!['e', 'd', 'i', 't', ' '] + target
    }
}

/// A prefix of a string of digits has no greater value.
proof fn lemma_digits_value_prefix(s: Seq<char>, j: int)
    requires
        0 <= j <= s.len(),
        forall|i: int| 0 <= i < s.len() ==> is_digit(#[trigger] s[i]),
    ensures
        digits_value(s.take(j)) <= digits_value(s),
    decreases s.len(),
{
    if j < s.len() {
        assert(s.drop_last().take(j) =~= s.take(j));
        lemma_digits_value_prefix(s.drop_last(), j);
    } else {
        assert(s.take(j) =~= s);
    }
}

/// `str::parse::<u32>` of `v[lo..hi]`.
fn parse_u32_in(v: &Vec<char>, lo: usize, hi: usize) -> (r: Option<u32>)
    requires
        lo <= hi <= v@.len(),
    ensures
        r == parse_u32(v@.subrange(lo as int, hi as int)),
{
    let ghost s = v@.subrange(lo as int, hi as int);
    let start = if lo < hi && v[lo] == '+' { lo + 1 } else { lo };
    let ghost digits = v@.subrange(start as int, hi as int);
    proof {
        if lo < hi && v@[lo as int] == '+' {
            assert(s.drop_first() =~= digits);
        } else {
            assert(s =~= digits);
        }
    }
    if start == hi {
        return None;
    }
    let mut acc: u64 = 0;
    let mut too_big = false;
    let mut i = start;
    while i < hi
        invariant
            lo <= start <= i <= hi <= v@.len(),
            digits == v@.subrange(start as int, hi as int),
            s == v@.subrange(lo as int, hi as int),
            digits == unsigned_digits(s),
            forall|k: int| start <= k < i ==> is_digit(#[trigger] v@[k]),
            !too_big ==> acc == digits_value(v@.subrange(start as int, i as int)) && acc <= u32::MAX,
            too_big ==> digits_value(v@.subrange(start as int, i as int)) > u32::MAX,
        decreases hi - i,
    {
        let c = v[i];
        if !('0' <= c && c <= '9') {
            proof {
                assert(digits[i - start] == c);
                assert(!is_digit(digits[i - start]));
            }
            return None;
        }
        let d: u64 = (c as u32 - 48) as u64;
        let ghost prefix = v@.subrange(start as int, i + 1);
        proof {
            assert(prefix.drop_last() =~= v@.subrange(start as int, i as int));
            assert(prefix.last() == c);
            assert(d == digit_value(c));
        }
        if !too_big {
            acc = acc * 10 + d;
            if acc > 4294967295u64 {
                too_big = true;
            }
        } else {
            proof {
                assert(digits_value(prefix) >= digits_value(prefix.drop_last()));
            }
        }
        i = i + 1;
    }
    proof {
        assert(v@.subrange(start as int, hi as int) =~= digits);
        assert forall|k: int| 0 <= k < digits.len() implies is_digit(#[trigger] digits[k]) by {
            assert(digits[k] == v@[start + k]);
        }
    }
    if too_big {
        None
    } else {
        Some(acc as u32)
    }
}

/// The editor command that opens an accepted target.
pub fn open_command(target: &str) -> (cmd: String)
    ensures
        cmd@ == edit_command(target@),
{
    let v = chars_of(target);
    let ghost t = target@;
    match rfind_in(&v, v.len(), ':') {
        Some(c) => {
            proof {
                assert(v@.subrange(0, v@.len() as int) =~= t);
                assert(t.skip(c + 1) =~= v@.subrange(c + 1, v@.len() as int));
            }
            match parse_u32_in(&v, c + 1, v.len()) {
                Some(line) => {
                    let mut cmd = String::new();
                    push_char(&mut cmd, 'e');
                    push_char(&mut cmd, 'd');
                    push_char(&mut cmd, 'i');
                    push_char(&mut cmd, 't');
                    push_char(&mut cmd, ' ');
                    push_char(&mut cmd, '+');
                    append_decimal(&mut cmd, line as u64);
                    push_char(&mut cmd, ' ');
                    append_chars(&mut cmd, &v, 0, c);
                    assert(t.take(c as int) =~= v@.subrange(0, c as int));
                    assert(cmd@ =~= edit_command(t));
                    return cmd;
                }
                None => {}
            }
        }
        None => {
            assert(v@.subrange(0, v@.len() as int) =~= t);
        }
    }
    let mut cmd = String::new();
    push_char(&mut cmd, 'e');
    push_char(&mut cmd, 'd');
    push_char(&mut cmd, 'i');
    push_char(&mut cmd, 't');
    push_char(&mut cmd, ' ');
    cmd.append(target);
    assert(cmd@ =~= edit_command(t));
    cmd
}

} // verus!
