//! File-finder source: lists the files under a root directory.
//!
//! Walking the directory tree happens outside the library; the library
//! decides which directories are entered, how a path is shown, and in which
//! order the files are listed.

use vstd::prelude::*;
use crate::sources::{simple_item, ItemView, SourceItem, Source};
use crate::sources::grep::{item_views, string_views};
use crate::text::chars_of;
use crate::picker::all_indices;
use std::path::PathBuf;

verus! {

// ---------------------------------------------------------------------------
// Lexicographic order of character sequences (the order of `str`)
// ---------------------------------------------------------------------------

/// `a` comes strictly before `b` in lexicographic order by code point, the
/// order `str::cmp` gives (UTF-8 byte order agrees with code point order).
pub open spec fn seq_lt(a: Seq<char>, b: Seq<char>) -> bool
    decreases a.len(),
{
    if a.len() == 0 {
        b.len() > 0
    } else if b.len() == 0 {
        false
    } else if a[0] < b[0] {
        true
    } else if a[0] > b[0] {
        false
    } else {
        seq_lt(a.drop_first(), b.drop_first())
    }
}

/// `a` comes before `b` or equals it.
pub open spec fn seq_le(a: Seq<char>, b: Seq<char>) -> bool {
    a == b || seq_lt(a, b)
}

/// The order is transitive.
pub proof fn lemma_seq_lt_transitive(a: Seq<char>, b: Seq<char>, c: Seq<char>)
    requires
        seq_lt(a, b),
        seq_lt(b, c),
    ensures
        seq_lt(a, c),
    decreases a.len(),
{
    if a.len() > 0 && b.len() > 0 && c.len() > 0 && a[0] == b[0] && b[0] == c[0] {
        lemma_seq_lt_transitive(a.drop_first(), b.drop_first(), c.drop_first());
    }
}

/// Any two distinct sequences are ordered one way or the other.
pub proof fn lemma_seq_lt_total(a: Seq<char>, b: Seq<char>)
    ensures
        a == b || seq_lt(a, b) || seq_lt(b, a),
    decreases a.len(),
{
    if a.len() > 0 && b.len() > 0 && a[0] == b[0] {
        lemma_seq_lt_total(a.drop_first(), b.drop_first());
        if a.drop_first() == b.drop_first() {
            assert(a =~= seq![a[0]] + a.drop_first());
            assert(b =~= seq![b[0]] + b.drop_first());
        }
    } else if a.len() == 0 && b.len() == 0 {
        assert(a =~= b);
    } else if a.len() > 0 && b.len() > 0 {
        assert(a[0] != b[0]);
    }
}

/// A common prefix does not change the order.
proof fn lemma_seq_lt_common_prefix(a: Seq<char>, b: Seq<char>, i: int)
    requires
        0 <= i <= a.len(),
        i <= b.len(),
        a.take(i) == b.take(i),
    ensures
        seq_lt(a, b) == seq_lt(a.skip(i), b.skip(i)),
    decreases i,
{
    if i > 0 {
        assert(a[0] == a.take(i)[0]);
        assert(b[0] == b.take(i)[0]);
        assert(a.drop_first().take(i - 1) =~= a.take(i).drop_first());
        assert(b.drop_first().take(i - 1) =~= b.take(i).drop_first());
        lemma_seq_lt_common_prefix(a.drop_first(), b.drop_first(), i - 1);
        assert(a.drop_first().skip(i - 1) =~= a.skip(i));
        assert(b.drop_first().skip(i - 1) =~= b.skip(i));
    } else {
        assert(a.skip(0) =~= a);
        assert(b.skip(0) =~= b);
    }
}

/// Whether `a` comes strictly before `b`.
fn chars_lt(a: &Vec<char>, b: &Vec<char>) -> (r: bool)
    ensures
        r == seq_lt(a@, b@),
{
    let mut i: usize = 0;
    while i < a.len() && i < b.len() && a[i] == b[i]
        invariant
            i <= a@.len(),
            i <= b@.len(),
            a@.take(i as int) == b@.take(i as int),
        decreases a@.len() - i,
    {
        assert(a@.take(i + 1) =~= a@.take(i as int).push(a@[i as int]));
        assert(b@.take(i + 1) =~= b@.take(i as int).push(b@[i as int]));
        i = i + 1;
    }
    proof {
        lemma_seq_lt_common_prefix(a@, b@, i as int);
    }
    if i == a.len() {
        i < b.len()
    } else if i == b.len() {
        false
    } else {
        a[i] < b[i]
    }
}

// ---------------------------------------------------------------------------
// Walk decisions
// ---------------------------------------------------------------------------

/// Directories that are always skipped during file walking.
pub open spec fn skip_dirs() -> Seq<Seq<char>> {
    seq![
        ".git"@,
        "node_modules"@,
        "target"@,
        ".next"@,
        "__pycache__"@,
        ".venv"@,
        "dist"@,
        "build"@,
        ".direnv"@,
    ]
}

/// Whether the walk enters a directory named `name`: not one of the skipped
/// directories, and not hidden (a name starting with `.`).
pub open spec fn enters_dir(name: Seq<char>) -> bool {
    !skip_dirs().contains(name) && !(name.len() > 0 && name[0] == '.')
}

/// What `Path::strip_prefix` gives for `path` and `base`, shown as a string:
/// the path relative to `base`, or nothing when `base` is not a prefix of
/// `path` component by component.
pub uninterp spec fn path_strip_prefix(path: Seq<char>, base: Seq<char>) -> Option<Seq<char>>;

/// `Path::strip_prefix` followed by `to_string_lossy`; its result is a
/// function of the two paths, named above and not spelled out.
#[verifier::external_body]
fn strip_path_prefix(path: &str, base: &str) -> (r: Option<String>)
    ensures
        match r {
            Some(s) => path_strip_prefix(path@, base@) == Some(s@),
            None => path_strip_prefix(path@, base@) is None,
        },
{
    std::path::Path::new(path).strip_prefix(base).ok().map(|p| p.to_string_lossy().into_owned())
}

/// The keys that a sequence of indices names.
pub open spec fn keyed(keys: Seq<Vec<char>>, s: Seq<usize>) -> Seq<Seq<char>> {
    s.map_values(|i: usize| keys[i as int]@)
}

/// Every index in `s` names a key.
pub open spec fn in_bounds(keys: Seq<Vec<char>>, s: Seq<usize>) -> bool {
    forall|k: int| 0 <= k < s.len() ==> (#[trigger] s[k]) < keys.len()
}

/// The sequences are in order.
pub open spec fn sorted_seqs(ks: Seq<Seq<char>>) -> bool {
    forall|a: int, b: int| 0 <= a < b < ks.len() ==> seq_le(#[trigger] ks[a], #[trigger] ks[b])
}

/// The order with equality is transitive.
proof fn lemma_seq_le_transitive(a: Seq<char>, b: Seq<char>, c: Seq<char>)
    requires
        seq_le(a, b),
        seq_le(b, c),
    ensures
        seq_le(a, c),
{
    if seq_lt(a, b) && seq_lt(b, c) {
        lemma_seq_lt_transitive(a, b, c);
    }
}

/// Merges the sorted index lists `a` and `b` into one sorted list holding
/// both, taking from `a` first among equal keys.
fn merge(keys: &Vec<Vec<char>>, a: &Vec<usize>, b: &Vec<usize>) -> (r: Vec<usize>)
    requires
        in_bounds(keys@, a@),
        in_bounds(keys@, b@),
        sorted_seqs(keyed(keys@, a@)),
        sorted_seqs(keyed(keys@, b@)),
    ensures
        in_bounds(keys@, r@),
        sorted_seqs(keyed(keys@, r@)),
        keyed(keys@, r@).to_multiset() == keyed(keys@, a@).to_multiset().add(keyed(keys@, b@).to_multiset()),
{
    broadcast use vstd::multiset::group_multiset_axioms;
    let ghost ka = keyed(keys@, a@);
    let ghost kb = keyed(keys@, b@);
    let mut r: Vec<usize> = Vec::new();
    let mut i: usize = 0;
    let mut j: usize = 0;
    proof {
        assert(keyed(keys@, r@) =~= Seq::<Seq<char>>::empty());
        assert(ka.take(0) =~= Seq::<Seq<char>>::empty());
        assert(kb.take(0) =~= Seq::<Seq<char>>::empty());
        let e = Seq::<Seq<char>>::empty();
        vstd::seq_lib::to_multiset_len(e);
        assert(e.to_multiset() =~= vstd::multiset::Multiset::empty());
    }
    while i < a.len() || j < b.len()
        invariant
            ka == keyed(keys@, a@),
            kb == keyed(keys@, b@),
            in_bounds(keys@, a@),
            in_bounds(keys@, b@),
            sorted_seqs(ka),
            sorted_seqs(kb),
            i <= a@.len(),
            j <= b@.len(),
            r@.len() == i + j,
            in_bounds(keys@, r@),
            sorted_seqs(keyed(keys@, r@)),
            keyed(keys@, r@).to_multiset() == ka.take(i as int).to_multiset().add(kb.take(j as int).to_multiset()),
            forall|k: int| 0 <= k < r@.len() && i < a@.len() ==> seq_le(#[trigger] keyed(keys@, r@)[k], ka[i as int]),
            forall|k: int| 0 <= k < r@.len() && j < b@.len() ==> seq_le(#[trigger] keyed(keys@, r@)[k], kb[j as int]),
        decreases a@.len() + b@.len() - i - j,
    {
        let ghost old_r = r@;
        let ghost kr = keyed(keys@, r@);
        let take_a = if i < a.len() && j < b.len() {
            !chars_lt(&keys[b[j]], &keys[a[i]])
        } else {
            i < a.len()
        };
        if take_a {
            let x = a[i];
            proof {
                if j < b@.len() {
                    lemma_seq_lt_total(ka[i as int], kb[j as int]);
                    assert(seq_le(ka[i as int], kb[j as int]));
                }
            }
            r.push(x);
            proof {
                assert(keyed(keys@, r@) =~= kr.push(ka[i as int]));
                assert(ka.take(i + 1) =~= ka.take(i as int).push(ka[i as int]));
                vstd::seq_lib::to_multiset_build(kr, ka[i as int]);
                vstd::seq_lib::to_multiset_build(ka.take(i as int), ka[i as int]);
                assert(keyed(keys@, r@).to_multiset() =~= ka.take(i + 1).to_multiset().add(kb.take(j as int).to_multiset()));
                assert forall|k: int| 0 <= k < r@.len() && i + 1 < a@.len() implies
                    seq_le(#[trigger] keyed(keys@, r@)[k], ka[i + 1]) by {
                    assert(seq_le(ka[i as int], ka[i + 1]));
                    if k < kr.len() {
                        lemma_seq_le_transitive(kr[k], ka[i as int], ka[i + 1]);
                    }
                }
                assert forall|a1: int, b1: int| 0 <= a1 < b1 < r@.len() implies
                    seq_le(#[trigger] keyed(keys@, r@)[a1], #[trigger] keyed(keys@, r@)[b1]) by {
                    if b1 < kr.len() {
                        assert(keyed(keys@, r@)[a1] == kr[a1] && keyed(keys@, r@)[b1] == kr[b1]);
                    }
                }
            }
            i = i + 1;
        } else {
            let x = b[j];
            proof {
                if i < a@.len() {
                    assert(seq_lt(kb[j as int], ka[i as int]));
                }
            }
            r.push(x);
            proof {
                assert(keyed(keys@, r@) =~= kr.push(kb[j as int]));
                assert(kb.take(j + 1) =~= kb.take(j as int).push(kb[j as int]));
                vstd::seq_lib::to_multiset_build(kr, kb[j as int]);
                vstd::seq_lib::to_multiset_build(kb.take(j as int), kb[j as int]);
                assert(keyed(keys@, r@).to_multiset() =~= ka.take(i as int).to_multiset().add(kb.take(j + 1).to_multiset()));
                assert forall|k: int| 0 <= k < r@.len() && j + 1 < b@.len() implies
                    seq_le(#[trigger] keyed(keys@, r@)[k], kb[j + 1]) by {
                    assert(seq_le(kb[j as int], kb[j + 1]));
                    if k < kr.len() {
                        lemma_seq_le_transitive(kr[k], kb[j as int], kb[j + 1]);
                    }
                }
                assert forall|k: int| 0 <= k < r@.len() && i < a@.len() implies
                    seq_le(#[trigger] keyed(keys@, r@)[k], ka[i as int]) by {
                    if k == kr.len() {
                        assert(keyed(keys@, r@)[k] == kb[j as int]);
                    }
                }
                assert forall|a1: int, b1: int| 0 <= a1 < b1 < r@.len() implies
                    seq_le(#[trigger] keyed(keys@, r@)[a1], #[trigger] keyed(keys@, r@)[b1]) by {
                    if b1 < kr.len() {
                        assert(keyed(keys@, r@)[a1] == kr[a1] && keyed(keys@, r@)[b1] == kr[b1]);
                    }
                }
            }
            j = j + 1;
        }
    }
    proof {
        assert(ka.take(i as int) =~= ka);
        assert(kb.take(j as int) =~= kb);
    }
    r
}

/// Sorts a list of indices by the keys they name, keeping the keys it
/// holds.
fn merge_sort(keys: &Vec<Vec<char>>, idx: Vec<usize>) -> (r: Vec<usize>)
    requires
        in_bounds(keys@, idx@),
    ensures
        r@.len() == idx@.len(),
        in_bounds(keys@, r@),
        sorted_seqs(keyed(keys@, r@)),
        keyed(keys@, r@).to_multiset() == keyed(keys@, idx@).to_multiset(),
    decreases idx@.len(),
{
    if idx.len() <= 1 {
        return idx;
    }
    let ghost whole = idx@;
    let mut left = idx;
    let mid = left.len() / 2;
    let right = left.split_off(mid);
    proof {
        assert(keyed(keys@, whole) =~= keyed(keys@, left@) + keyed(keys@, right@));
        vstd::seq_lib::lemma_multiset_commutative(keyed(keys@, left@), keyed(keys@, right@));
    }
    let ls = merge_sort(keys, left);
    let rs = merge_sort(keys, right);
    let r = merge(keys, &ls, &rs);
    proof {
        vstd::seq_lib::to_multiset_len(keyed(keys@, r@));
        vstd::seq_lib::to_multiset_len(keyed(keys@, whole));
        vstd::seq_lib::to_multiset_len(keyed(keys@, ls@));
        vstd::seq_lib::to_multiset_len(keyed(keys@, rs@));
    }
    r
}

/// The display texts of a sequence of items.
pub open spec fn displays(items: Seq<ItemView>) -> Seq<Seq<char>> {
    items.map_values(|it: ItemView| it.display)
}

/// What the walk does with one directory entry.
pub enum WalkStep {
    /// Walk into this directory.
    Descend,
    /// List the file under this path, relative to the root.
    Record(String),
    /// Leave the entry out.
    Skip,
}

/// Source that lists files under a root directory.
pub struct FileSource {
    root: PathBuf,
}

impl FileSource {
    /// The directory listed.
    pub closed spec fn spec_root(&self) -> PathBuf {
        self.root
    }

    /// Create a file source rooted at `root`.
    pub fn new(root: PathBuf) -> (s: Self)
        ensures
            s.spec_root() == root,
    {
        FileSource { root }
    }

    /// The directory listed.
    pub fn root(&self) -> (r: &PathBuf)
        ensures
            *r == self.spec_root(),
    {
        &self.root
    }

    /// Whether the walk enters a directory named `name`.
    pub fn enters_dir(name: &str) -> (b: bool)
        ensures
            b == enters_dir(name@),
    {
        let n = name.to_owned();
        let mut i: usize = 0;
        let skip: [&str; 9] = [
            ".git",
            "node_modules",
            "target",
            ".next",
            "__pycache__",
            ".venv",
            "dist",
            "build",
            ".direnv",
        ];
        assert(skip@.map_values(|s: &str| s@) =~= skip_dirs());
        while i < 9
            invariant
                i <= 9,
                skip@.map_values(|s: &str| s@) == skip_dirs(),
                n@ == name@,
                forall|k: int| 0 <= k < i ==> skip_dirs()[k] != name@,
            decreases 9 - i,
        {
            let d = skip[i].to_owned();
            assert(d@ == skip_dirs()[i as int]);
            if d == n {
                assert(skip_dirs().contains(name@));
                return false;
            }
            i = i + 1;
        }
        assert(!skip_dirs().contains(name@));
        let v = chars_of(name);
        !(v.len() > 0 && v[0] == '.')
    }

    /// Produce a relative path string from `path` relative to `root`.
    pub fn relative_display(path: &str, root: &str) -> (r: Option<String>)
        ensures
            match r {
                Some(s) => path_strip_prefix(path@, root@) == Some(s@),
                None => path_strip_prefix(path@, root@) is None,
            },
    {
        strip_path_prefix(path, root)
    }

    /// What the walk does with an entry named `name` at `path` (as a
    /// string), found under the root `root`: a directory is walked into when
    /// [`enters_dir`] allows it and is never listed; any other entry is
    /// listed by its path relative to the root, or left out when the root is
    /// not a prefix of its path.
    pub fn visit(name: &str, is_dir: bool, path: &str, root: &str) -> (step: WalkStep)
        ensures
            is_dir && enters_dir(name@) ==> step is Descend,
            is_dir && !enters_dir(name@) ==> step is Skip,
            !is_dir ==> match path_strip_prefix(path@, root@) {
                Some(rel) => step matches WalkStep::Record(r) && r@ == rel,
                None => step is Skip,
            },
    {
        if is_dir {
            if Self::enters_dir(name) {
                WalkStep::Descend
            } else {
                WalkStep::Skip
            }
        } else {
            match Self::relative_display(path, root) {
                Some(r) => WalkStep::Record(r),
                None => WalkStep::Skip,
            }
        }
    }

    /// The items for the walked files, given their paths relative to the
    /// root: one simple item per path, ordered by display text.
    pub fn sorted_items(paths: &Vec<String>) -> (items: Vec<SourceItem>)
        ensures
            items@.len() == paths@.len(),
            forall|k: int| 0 <= k < items@.len() ==> #[trigger] items@[k]@ == simple_item(items@[k].display@),
            forall|i: int, j: int|
                0 <= i < j < items@.len() ==> seq_le(#[trigger] items@[i].display@, #[trigger] items@[j].display@),
            displays(item_views(items@)).to_multiset() == string_views(paths@).to_multiset(),
    {
        let n = paths.len();
        let mut keys: Vec<Vec<char>> = Vec::new();
        let mut idx: Vec<usize> = Vec::new();
        let mut i: usize = 0;
        while i < n
            invariant
                n == paths@.len(),
                i <= n,
                keys@.len() == i,
                idx@ == all_indices(i as int),
                forall|k: int| 0 <= k < i ==> #[trigger] keys@[k]@ == paths@[k]@,
            decreases n - i,
        {
            keys.push(chars_of(paths[i].as_str()));
            idx.push(i);
            assert(idx@ =~= all_indices(i + 1));
            i = i + 1;
        }
        proof {
            assert(keyed(keys@, idx@) =~= string_views(paths@));
            assert forall|k: int| 0 <= k < idx@.len() implies (#[trigger] idx@[k]) < keys@.len() by {}
        }
        let order = merge_sort(&keys, idx);
        let mut items: Vec<SourceItem> = Vec::new();
        let mut k: usize = 0;
        while k < order.len()
            invariant
                k <= order@.len(),
                order@.len() == n,
                n == paths@.len(),
                keys@.len() == n,
                in_bounds(keys@, order@),
                forall|m: int| 0 <= m < n ==> #[trigger] keys@[m]@ == paths@[m]@,
                items@.len() == k,
                forall|m: int| 0 <= m < k ==> #[trigger] items@[m]@ == simple_item(keyed(keys@, order@)[m]),
            decreases order@.len() - k,
        {
            let item = SourceItem::simple(paths[order[k]].as_str());
            assert(keys@[order@[k as int] as int]@ == paths@[order@[k as int] as int]@);
            items.push(item);
            k = k + 1;
        }
        proof {
            assert(displays(item_views(items@)) =~= keyed(keys@, order@));
            assert forall|a: int, b: int|
                0 <= a < b < items@.len() implies seq_le(#[trigger] items@[a].display@, #[trigger] items@[b].display@) by {
                assert(items@[a].display@ == keyed(keys@, order@)[a]);
                assert(items@[b].display@ == keyed(keys@, order@)[b]);
            }
        }
        items
    }
}

impl Source for FileSource {
    fn name(&self) -> (r: &str)
        ensures
            r@ == "Files"@,
    {
        "Files"
    }

    fn is_live(&self) -> (b: bool)
        ensures
            !b,
    {
        false
    }
}

} // verus!
