//! Live grep source: searches file contents for a pattern.
//!
//! The search itself runs outside the library; what the library decides is
//! whether to search at all, which commands to try, and how their output
//! becomes picker items.

use vstd::prelude::*;
use crate::sources::{ItemView, SourceItem, Source};
use std::path::PathBuf;
use vstd::utf8::{decode_utf8, valid_utf8};
use crate::text::{append_chars, chars_of, find_char, find_in, lemma_find_char_bounds, push_char, trim, trim_bounds};

verus! {

// ---------------------------------------------------------------------------
// Specification of the output format `file:line:text`
// ---------------------------------------------------------------------------

/// A line without the `\r` of a `\r\n` terminator.
pub open spec fn strip_cr(l: Seq<char>) -> Seq<char> {
    if l.len() > 0 && l.last() == '\r' {
        l.drop_last()
    } else {
        l
    }
}

/// The lines of `s`, as `str::lines` splits it: at each `\n`, dropping a `\r`
/// just before it; the final line ending is optional.
pub open spec fn lines(s: Seq<char>) -> Seq<Seq<char>>
    decreases s.len(),
{
    if s.len() == 0 {
        seq![]
    } else {
        let e = find_char(s, '\n');
        if e >= s.len() {
            seq![s]
        } else {
            proof {
                lemma_find_char_bounds(s, '\n');
            }
            seq![strip_cr(s.take(e))] + lines(s.skip(e + 1))
        }
    }
}

/// The item for one line of output: the text before the first `:` is the
/// file, the text up to the second `:` the line number, and the rest, trimmed,
/// the matched text. A line with fewer than two `:` gives no item.
pub open spec fn grep_line_item(l: Seq<char>) -> Option<ItemView> {
    let a = find_char(l, ':');
    if a >= l.len() {
        None
    } else {
        let rest = l.skip(a + 1);
        let b = find_char(rest, ':');
        if b >= rest.len() {
            None
        } else {
            let file = l.take(a);
            let line_no = rest.take(b);
            let text = trim(rest.skip(b + 1));
            let display = file + seq![':'] + line_no + seq![':', ' '] + text;
            Some(ItemView { display, filter_text: display, action: file + seq![':'] + line_no })
        }
    }
}

/// The items for a sequence of lines: empty lines are skipped, and so are
/// lines that give no item.
pub open spec fn grep_items_of_lines(ls: Seq<Seq<char>>) -> Seq<ItemView>
    decreases ls.len(),
{
    if ls.len() == 0 {
        seq![]
    } else {
        let first: Seq<ItemView> = if ls[0].len() == 0 {
            seq![]
        } else {
            match grep_line_item(ls[0]) {
                Some(it) => seq![it],
                None => seq![],
            }
        };
        first + grep_items_of_lines(ls.drop_first())
    }
}

/// The items for the whole output of a search.
pub open spec fn grep_items(output: Seq<char>) -> Seq<ItemView> {
    grep_items_of_lines(lines(output))
}

/// The views of a sequence of items.
pub open spec fn item_views(items: Seq<SourceItem>) -> Seq<ItemView> {
    items.map_values(|it: SourceItem| it@)
}

// ---------------------------------------------------------------------------
// Parsing
// ---------------------------------------------------------------------------

/// The item for the line `v[lo..hi]`.
fn parse_line(v: &Vec<char>, lo: usize, hi: usize) -> (r: Option<SourceItem>)
    requires
        lo <= hi <= v@.len(),
    ensures
        match r {
            Some(it) => grep_line_item(v@.subrange(lo as int, hi as int)) == Some(it@),
            None => grep_line_item(v@.subrange(lo as int, hi as int)) is None,
        },
{
    let ghost l = v@.subrange(lo as int, hi as int);
    let a = find_in(v, lo, hi, ':');
    if a == hi {
        return None;
    }
    let b = find_in(v, a + 1, hi, ':');
    proof {
        assert(l.skip(a - lo + 1) =~= v@.subrange(a + 1, hi as int));
    }
    if b == hi {
        return None;
    }
    let (t0, t1) = trim_bounds(v, b + 1, hi);
    let mut action = String::new();
    append_chars(&mut action, v, lo, a);
    push_char(&mut action, ':');
    append_chars(&mut action, v, a + 1, b);
    let mut display = action.clone();
    push_char(&mut display, ':');
    push_char(&mut display, ' ');
    append_chars(&mut display, v, t0, t1);
    let filter_text = display.clone();
    proof {
        let rest = l.skip(a - lo + 1);
        assert(l.take(a - lo) =~= v@.subrange(lo as int, a as int));
        assert(rest.take(b - a - 1) =~= v@.subrange(a + 1, b as int));
        assert(rest.skip(b - a - 1 + 1) =~= v@.subrange(b + 1, hi as int));
        let file = l.take(a - lo);
        let line_no = rest.take(b - a - 1);
        assert(action@ =~= file + seq![':'] + line_no);
        assert(display@ =~= file + seq![':'] + line_no + seq![':', ' '] + trim(rest.skip(b - a - 1 + 1)));
    }
    Some(SourceItem { display, filter_text, action })
}

/// Parse `file:line:text` output into source items.
pub fn parse_grep_output(output: &str) -> (items: Vec<SourceItem>)
    ensures
        item_views(items@) == grep_items(output@),
{
    let v = chars_of(output);
    let n = v.len();
    let mut items: Vec<SourceItem> = Vec::new();
    let mut start: usize = 0;
    proof {
        assert(v@.subrange(0, n as int) =~= v@);
        assert(item_views(items@) + grep_items(v@) =~= grep_items(v@));
    }
    while start < n
        invariant
            n == v@.len(),
            v@ == output@,
            start <= n,
            item_views(items@) + grep_items(v@.subrange(start as int, n as int)) == grep_items(v@),
        decreases n - start,
    {
        let ghost t = v@.subrange(start as int, n as int);
        let e = find_in(&v, start, n, '\n');
        let hi = if e < n && e > start && v[e - 1] == '\r' { e - 1 } else { e };
        let ghost old_items = items@;
        let ghost line = v@.subrange(start as int, hi as int);
        proof {
            lemma_find_char_bounds(t, '\n');
            if e < n {
                assert(t.take(e - start) =~= v@.subrange(start as int, e as int));
                assert(strip_cr(t.take(e - start)) =~= line);
                assert(t.skip(e - start + 1) =~= v@.subrange(e + 1, n as int));
                assert(lines(t) == seq![line] + lines(v@.subrange(e + 1, n as int)));
            } else {
                assert(line =~= t);
                assert(lines(t) == seq![line]);
            }
            let ls = lines(t);
            assert(ls[0] == line);
            assert(ls.drop_first() =~= if e < n { lines(v@.subrange(e + 1, n as int)) } else { seq![] });
        }
        if hi > start {
            match parse_line(&v, start, hi) {
                Some(it) => {
                    items.push(it);
                }
                None => {}
            }
        }
        let next = if e < n { e + 1 } else { n };
        proof {
            assert(item_views(items@) =~= item_views(old_items) + (if line.len() == 0 {
                seq![]
            } else {
                match grep_line_item(line) {
                    Some(it) => seq![it],
                    None => seq![],
                }
            }));
            if e >= n {
                assert(v@.subrange(next as int, n as int) =~= Seq::<char>::empty());
                assert(lines(Seq::<char>::empty()) =~= Seq::<Seq<char>>::empty());
            }
        }
        start = next;
    }
    proof {
        assert(v@.subrange(n as int, n as int) =~= Seq::<char>::empty());
        assert(lines(Seq::<char>::empty()) =~= Seq::<Seq<char>>::empty());
        assert(item_views(items@) + grep_items(Seq::<char>::empty()) =~= item_views(items@));
    }
    items
}

// ---------------------------------------------------------------------------
// The source
// ---------------------------------------------------------------------------

/// What `String::from_utf8_lossy` makes of a byte string.
pub uninterp spec fn utf8_lossy(bytes: Seq<u8>) -> Seq<char>;

/// `String::from_utf8_lossy`: the result is a function of the bytes alone
/// and, on valid UTF-8, their decoding. How invalid sequences are replaced
/// is left unsaid.
#[verifier::external_body]
fn decode_lossy(bytes: &[u8]) -> (s: String)
    ensures
        s@ == utf8_lossy(bytes@),
        valid_utf8(bytes@) ==> s@ == decode_utf8(bytes@),
{
    String::from_utf8_lossy(bytes).into_owned()
}

/// A command to run in the source's root directory.
pub struct SearchCommand {
    pub program: String,
    pub args: Vec<String>,
}

/// What to do next in a search: run a command, or stop with these items.
pub enum SearchStep {
    Run(SearchCommand),
    Done(Vec<SourceItem>),
}

/// `cmd` runs `rg` for `pattern`.
pub open spec fn is_rg_command(cmd: SearchCommand, pattern: Seq<char>) -> bool {
    cmd.program@ == "rg"@ && string_views(cmd.args@) == rg_args(pattern)
}

/// `cmd` runs `grep` for `pattern`.
pub open spec fn is_grep_command(cmd: SearchCommand, pattern: Seq<char>) -> bool {
    cmd.program@ == "grep"@ && string_views(cmd.args@) == grep_args(pattern)
}

/// The views of a list of strings.
pub open spec fn string_views(v: Seq<String>) -> Seq<Seq<char>> {
    v.map_values(|s: String| s@)
}

/// The `rg` arguments for `pattern`.
pub open spec fn rg_args(pattern: Seq<char>) -> Seq<Seq<char>> {
    seq![
        "--no-heading"@,
        "--line-number"@,
        "--color=never"@,
        "--max-count=200"@,
        "--max-columns=200"@,
        pattern,
    ]
}

/// The `grep` arguments for `pattern`.
pub open spec fn grep_args(pattern: Seq<char>) -> Seq<Seq<char>> {
    seq!["-rn"@, "--color=never"@, "--include=*"@, "-m"@, "200"@, pattern]
}

/// Source that runs `rg` (or `grep` when `rg` cannot be run) against a root
/// directory and returns matching lines.
pub struct GrepSource {
    root: PathBuf,
}

impl GrepSource {
    /// The directory searched.
    pub closed spec fn spec_root(&self) -> PathBuf {
        self.root
    }

    /// Create a grep source rooted at `root`.
    pub fn new(root: PathBuf) -> (s: Self)
        ensures
            s.spec_root() == root,
    {
        GrepSource { root }
    }

    /// The directory searched.
    pub fn root(&self) -> (r: &PathBuf)
        ensures
            *r == self.spec_root(),
    {
        &self.root
    }

    /// The commands to try, in order, for `pattern`: none for an empty
    /// pattern, else `rg` and then `grep` as the fallback.
    pub fn search_commands(&self, pattern: &str) -> (cmds: Vec<SearchCommand>)
        ensures
            pattern@.len() == 0 ==> cmds@.len() == 0,
            pattern@.len() > 0 ==> {
                &&& cmds@.len() == 2
                &&& cmds@[0].program@ == "rg"@
                &&& string_views(cmds@[0].args@) == rg_args(pattern@)
                &&& cmds@[1].program@ == "grep"@
                &&& string_views(cmds@[1].args@) == grep_args(pattern@)
            },
    {
        let mut cmds: Vec<SearchCommand> = Vec::new();
        if pattern.is_empty() {
            return cmds;
        }
        let mut rg: Vec<String> = Vec::new();
        rg.push("--no-heading".to_owned());
        rg.push("--line-number".to_owned());
        rg.push("--color=never".to_owned());
        rg.push("--max-count=200".to_owned());
        rg.push("--max-columns=200".to_owned());
        rg.push(pattern.to_owned());
        let mut grep: Vec<String> = Vec::new();
        grep.push("-rn".to_owned());
        grep.push("--color=never".to_owned());
        grep.push("--include=*".to_owned());
        grep.push("-m".to_owned());
        grep.push("200".to_owned());
        grep.push(pattern.to_owned());
        assert(string_views(rg@) =~= rg_args(pattern@));
        assert(string_views(grep@) =~= grep_args(pattern@));
        cmds.push(SearchCommand { program: "rg".to_owned(), args: rg });
        cmds.push(SearchCommand { program: "grep".to_owned(), args: grep });
        cmds
    }

    /// The items for `query`, given the standard output of the first search
    /// command that could be run (empty when none could): nothing for an
    /// empty query, else the parsed lines of that output. Output that is
    /// valid UTF-8 is parsed as its decoding; no output gives no items.
    pub fn collect(&self, query: &str, output: &[u8]) -> (items: Vec<SourceItem>)
        ensures
            query@.len() == 0 ==> items@.len() == 0,
            query@.len() > 0 ==> item_views(items@) == grep_items(utf8_lossy(output@)),
            valid_utf8(output@) ==> item_views(items@) == if query@.len() == 0 {
                Seq::<ItemView>::empty()
            } else {
                grep_items(decode_utf8(output@))
            },
            output@.len() == 0 ==> items@.len() == 0,
    {
        if query.is_empty() {
            let items: Vec<SourceItem> = Vec::new();
            assert(item_views(items@) =~= Seq::<ItemView>::empty());
            return items;
        }
        let stdout = decode_lossy(output);
        let items = parse_grep_output(stdout.as_str());
        proof {
            if output@.len() == 0 {
                assert(valid_utf8(output@));
                assert(decode_utf8(output@) =~= Seq::<char>::empty());
                assert(lines(Seq::<char>::empty()) =~= Seq::<Seq<char>>::empty());
                assert(grep_items(Seq::<char>::empty()) =~= Seq::<ItemView>::empty());
                assert(item_views(items@).len() == items@.len());
            }
        }
        items
    }

    /// The first step of a search for `query`: nothing to run and no items
    /// for an empty query, else run `rg`.
    pub fn start_search(&self, query: &str) -> (step: SearchStep)
        ensures
            query@.len() == 0 ==> (step matches SearchStep::Done(items) && items@.len() == 0),
            query@.len() > 0 ==> (step matches SearchStep::Run(cmd) && is_rg_command(cmd, query@)),
    {
        let mut cmds = self.search_commands(query);
        if cmds.len() == 0 {
            return SearchStep::Done(Vec::new());
        }
        let cmd = cmds.remove(0);
        SearchStep::Run(cmd)
    }

    /// The step after running command number `attempt` (0 for `rg`, 1 for
    /// `grep`) for `query`, given its standard output, or `None` when it
    /// could not be run: the output of a command that ran gives the items,
    /// whatever its exit status, and nothing further runs; when `rg` could
    /// not be run, `grep` is tried; when no command could be run, there are
    /// no items.
    pub fn after_run(&self, query: &str, attempt: usize, output: Option<&[u8]>) -> (step: SearchStep)
        ensures
            match output {
                Some(out) => step matches SearchStep::Done(items) && item_views(items@) == if query@.len() == 0 {
                    Seq::<ItemView>::empty()
                } else {
                    grep_items(utf8_lossy(out@))
                },
                None => if attempt == 0 && query@.len() > 0 {
                    step matches SearchStep::Run(cmd) && is_grep_command(cmd, query@)
                } else {
                    step matches SearchStep::Done(items) && items@.len() == 0
                },
            },
    {
        match output {
            Some(out) => {
                let items = self.collect(query, out);
                proof {
                    if query@.len() == 0 {
                        assert(item_views(items@) =~= Seq::<ItemView>::empty());
                    }
                }
                SearchStep::Done(items)
            },
            None => {
                if attempt == 0 && !query.is_empty() {
                    let mut cmds = self.search_commands(query);
                    let cmd = cmds.remove(1);
                    SearchStep::Run(cmd)
                } else {
                    SearchStep::Done(Vec::new())
                }
            },
        }
    }
}

impl Source for GrepSource {
    fn name(&self) -> (r: &str)
        ensures
            r@ == "Grep"@,
    {
        "Grep"
    }

    fn is_live(&self) -> (b: bool)
        ensures
            b,
    {
        true
    }
}

} // verus!
