//! Directory listings and remote path arithmetic.
//!
//! Local and remote panes share one shape: a `Listing` of `FileEntry`s,
//! directories first and then case-insensitively by name. Remote paths are
//! always POSIX (SFTP speaks `/` whatever the server's native separator is),
//! so joining, parent and final component are computed here on strings.

use vstd::prelude::*;
use crate::text::{chars_of, lower_text, seq_lt, string_of, to_lower, chars_less, lemma_seq_lt_trans, lemma_seq_lt_irrefl, lemma_seq_lt_asym};

verus! {

broadcast use vstd::seq_lib::group_to_multiset_ensures;

/// What a directory entry is, after symlinks have been resolved.
#[derive(PartialEq, Eq, Structural, Clone, Copy, Debug)]
pub enum EntryKind {
    Dir,
    File,
    Other,
}

/// One row of a listing.
#[derive(Debug)]
pub struct FileEntry {
    pub name: String,
    /// Full path, in whichever convention the owning side uses.
    pub path: String,
    pub kind: EntryKind,
    pub size: u64,
    /// Unix epoch seconds, when the platform or server reports it.
    pub modified: Option<u64>,
    /// Dotfile. Reported rather than filtered: the UI owns the policy.
    pub hidden: bool,
    pub symlink: bool,
}

pub struct FileEntryView {
    pub name: Seq<char>,
    pub path: Seq<char>,
    pub kind: EntryKind,
    pub size: u64,
    pub modified: Option<u64>,
    pub hidden: bool,
    pub symlink: bool,
}

impl View for FileEntry {
    type V = FileEntryView;

    open spec fn view(&self) -> FileEntryView {
        FileEntryView {
            name: self.name@,
            path: self.path@,
            kind: self.kind,
            size: self.size,
            modified: self.modified,
            hidden: self.hidden,
            symlink: self.symlink,
        }
    }
}

pub open spec fn entry_views(v: Seq<FileEntry>) -> Seq<FileEntryView> {
    v.map_values(|e: FileEntry| e@)
}

/// One directory's worth of entries, plus enough context to navigate.
#[derive(Debug)]
pub struct Listing {
    /// Canonical path of the directory that was listed.
    pub path: String,
    /// `None` at the root, which is what disables the "up" control.
    pub parent: Option<String>,
    pub entries: Vec<FileEntry>,
}

/// Progress of one transfer. `total` is 0 when the size is unknown.
#[derive(Clone, Copy, Debug, PartialEq, Eq, Structural)]
pub struct Progress {
    pub transferred: u64,
    pub total: u64,
}

/// Listing order: directories before everything else, then by lowercased
/// name.
pub open spec fn entry_less(a: FileEntryView, b: FileEntryView) -> bool {
    ||| (a.kind == EntryKind::Dir && b.kind != EntryKind::Dir)
    ||| ((a.kind == EntryKind::Dir) == (b.kind == EntryKind::Dir) && seq_lt(lower_text(a.name), lower_text(b.name)))
}

/// No entry comes after one that sorts before it.
pub open spec fn in_listing_order(s: Seq<FileEntryView>) -> bool {
    forall|i: int, j: int| 0 <= i < j < s.len() ==> !entry_less(#[trigger] s[j], #[trigger] s[i])
}

proof fn lemma_entry_less_trans(a: FileEntryView, b: FileEntryView, c: FileEntryView)
    requires
        entry_less(a, b),
        entry_less(b, c),
    ensures
        entry_less(a, c),
{
    if (a.kind == EntryKind::Dir) == (b.kind == EntryKind::Dir) && (b.kind == EntryKind::Dir) == (c.kind
        == EntryKind::Dir) {
        lemma_seq_lt_trans(lower_text(a.name), lower_text(b.name), lower_text(c.name));
    }
}

/// Not sorting before is transitive: `a <= x <= c` gives `a <= c`.
proof fn lemma_entry_less_total_contra(a: FileEntryView, x: FileEntryView, c: FileEntryView)
    requires
        !entry_less(x, a),
        !entry_less(c, x),
    ensures
        !entry_less(c, a),
{
    let la = lower_text(a.name);
    let lx = lower_text(x.name);
    let lc = lower_text(c.name);
    crate::text::lemma_seq_lt_total(la, lx);
    crate::text::lemma_seq_lt_total(lx, lc);
    crate::text::lemma_seq_lt_total(la, lc);
    if seq_lt(lc, la) {
        if seq_lt(la, lx) {
            lemma_seq_lt_trans(lc, la, lx);
        }
        if seq_lt(lx, lc) {
            lemma_seq_lt_trans(lx, lc, la);
        }
        if la == lx {
            lemma_seq_lt_asym(lc, la);
        }
        if lx == lc {
            lemma_seq_lt_asym(lc, la);
        }
    }
}

/// Whether a name marks a dotfile.
pub fn is_hidden(name: &str) -> (r: bool)
    ensures
        r == (name@.len() > 0 && name@[0] == '.'),
{
    let cs = chars_of(name);
    cs.len() > 0 && cs[0] == '.'
}

/// The kind of an entry from what the server says it is.
pub fn kind_of(is_dir: bool, is_file: bool) -> (r: EntryKind)
    ensures
        r == (if is_dir { EntryKind::Dir } else if is_file { EntryKind::File } else { EntryKind::Other }),
{
    if is_dir {
        EntryKind::Dir
    } else if is_file {
        EntryKind::File
    } else {
        EntryKind::Other
    }
}

/// What listing order compares: whether the entry is a directory, and its
/// lowercased name.
pub open spec fn listing_key(e: FileEntryView) -> (bool, Seq<char>) {
    (e.kind == EntryKind::Dir, lower_text(e.name))
}

/// Whether an entry sorts level with `e`.
pub open spec fn level_pred(e: FileEntryView) -> spec_fn(FileEntryView) -> bool {
    |y: FileEntryView| listing_key(y) == listing_key(e)
}

/// The entries of `s` that sort level with `e`, in their order in `s`.
pub open spec fn level_with(s: Seq<FileEntryView>, e: FileEntryView) -> Seq<FileEntryView> {
    s.filter(level_pred(e))
}

proof fn lemma_entry_less_asym(a: FileEntryView, b: FileEntryView)
    requires
        entry_less(a, b),
    ensures
        !entry_less(b, a),
        listing_key(a) != listing_key(b),
{
    lemma_seq_lt_irrefl(lower_text(a.name));
    if entry_less(b, a) {
        lemma_entry_less_trans(a, b, a);
    }
}

/// Sorts entries into listing order: directories first, then
/// case-insensitively by name. Entries arrive from SFTP in server order,
/// which is effectively arbitrary. The sort is stable: entries that sort
/// level (`a` and `A`) keep the order they came in.
pub fn sort_entries(entries: &mut Vec<FileEntry>)
    ensures
        final(entries)@.len() == old(entries)@.len(),
        entry_views(final(entries)@).to_multiset() == entry_views(old(entries)@).to_multiset(),
        in_listing_order(entry_views(final(entries)@)),
        forall|e: FileEntryView|
            #[trigger] level_with(entry_views(final(entries)@), e) == level_with(entry_views(old(entries)@), e),
{
    let ghost orig = entry_views(entries@);
    let mut input: Vec<FileEntry> = Vec::new();
    std::mem::swap(&mut input, entries);
    let mut out: Vec<FileEntry> = Vec::new();
    let mut keys: Vec<Vec<char>> = Vec::new();
    assert(entry_views(out@) =~= Seq::<FileEntryView>::empty());
    assert(orig.skip(orig.len() as int) =~= Seq::<FileEntryView>::empty());
    assert forall|e: FileEntryView| #[trigger] level_with(entry_views(out@), e) == level_with(
        orig.skip(input@.len() as int),
        e,
    ) by {
        assert(level_with(entry_views(out@), e) =~= Seq::<FileEntryView>::empty());
        assert(level_with(orig.skip(input@.len() as int), e) =~= Seq::<FileEntryView>::empty());
    }
    while input.len() > 0
        invariant
            out@.len() == keys@.len(),
            forall|k: int| 0 <= k < keys@.len() ==> #[trigger] keys@[k]@ == lower_text(out@[k].name@),
            in_listing_order(entry_views(out@)),
            entry_views(out@).to_multiset().add(entry_views(input@).to_multiset()) == orig.to_multiset(),
            out@.len() + input@.len() == orig.len(),
            entry_views(input@) == orig.take(input@.len() as int),
            forall|e: FileEntryView| #[trigger] level_with(entry_views(out@), e) == level_with(
                orig.skip(input@.len() as int),
                e,
            ),
        decreases input@.len(),
    {
        let ghost in_before = entry_views(input@);
        let ghost n: int = input@.len() as int;
        let x = input.pop().unwrap();
        assert(in_before =~= entry_views(input@).push(x@));
        assert(entry_views(input@) =~= orig.take(n - 1));
        assert(in_before[n - 1] == x@);
        assert(orig.take(n)[n - 1] == orig[n - 1]);
        assert(x@ == orig[n - 1]);
        let xk = chars_of(to_lower(x.name.as_str()).as_str());
        let x_dir = x.kind == EntryKind::Dir;
        let mut p: usize = 0;
        while p < out.len()
            invariant
                out@.len() == keys@.len(),
                p <= out@.len(),
                forall|k: int| 0 <= k < keys@.len() ==> #[trigger] keys@[k]@ == lower_text(out@[k].name@),
                xk@ == lower_text(x.name@),
                x_dir == (x.kind == EntryKind::Dir),
                forall|k: int| 0 <= k < p ==> entry_less(#[trigger] entry_views(out@)[k], x@),
            ensures
                p <= out@.len(),
                forall|k: int| 0 <= k < p ==> entry_less(#[trigger] entry_views(out@)[k], x@),
                p == out@.len() || !entry_less(entry_views(out@)[p as int], x@),
            decreases out.len() - p,
        {
            let y_dir = out[p].kind == EntryKind::Dir;
            let less = (y_dir && !x_dir) || (x_dir == y_dir && chars_less(&keys[p], &xk));
            assert(keys@[p as int]@ == lower_text(out@[p as int].name@));
            assert(less == entry_less(entry_views(out@)[p as int], x@));
            if !less {
                break;
            }
            p = p + 1;
        }
        let ghost ov = entry_views(out@);
        out.insert(p, x);
        keys.insert(p, xk);
        let ghost nv = entry_views(out@);
        assert(nv =~= ov.insert(p as int, x@));
        assert(in_listing_order(nv)) by {
            assert forall|i: int, j: int| 0 <= i < j < nv.len() implies !entry_less(#[trigger] nv[j], #[trigger] nv[i]) by {
                if j < p {
                    assert(nv[j] == ov[j] && nv[i] == ov[i]);
                } else if j == p {
                    assert(nv[i] == ov[i]);
                    lemma_entry_less_asym(ov[i], x@);
                } else if i < p {
                    assert(nv[j] == ov[j - 1] && nv[i] == ov[i]);
                } else if i == p {
                    assert(nv[j] == ov[j - 1]);
                    if j - 1 > p {
                        assert(!entry_less(ov[j - 1], ov[p as int]));
                    } else {
                        lemma_seq_lt_irrefl(lower_text(ov[p as int].name));
                    }
                    lemma_entry_less_total_contra(x@, ov[p as int], ov[j - 1]);
                } else {
                    assert(nv[j] == ov[j - 1] && nv[i] == ov[i - 1]);
                }
            }
        }
        proof {
            let suffix = orig.skip(n - 1);
            assert(suffix =~= seq![x@] + orig.skip(n));
            assert(ov.take(p as int) + seq![x@] + ov.skip(p as int) =~= nv);
            assert(ov.take(p as int) + ov.skip(p as int) =~= ov);
            assert forall|e: FileEntryView| #[trigger] level_with(nv, e) == level_with(suffix, e) by {
                let pred = level_pred(e);
                assert(level_with(ov, e) == level_with(orig.skip(n), e));
                let a = ov.take(p as int);
                let b = ov.skip(p as int);
                Seq::filter_distributes_over_add(a + seq![x@], b, pred);
                Seq::filter_distributes_over_add(a, seq![x@], pred);
                Seq::filter_distributes_over_add(a, b, pred);
                Seq::filter_distributes_over_add(seq![x@], orig.skip(n), pred);
                assert(nv.filter(pred) == a.filter(pred) + seq![x@].filter(pred) + b.filter(pred));
                assert(ov.filter(pred) == a.filter(pred) + b.filter(pred));
                assert(suffix.filter(pred) == seq![x@].filter(pred) + orig.skip(n).filter(pred));
                if listing_key(x@) == listing_key(e) {
                    assert(a.filter(pred) =~= Seq::<FileEntryView>::empty()) by {
                        a.lemma_filter_len(pred);
                        if a.filter(pred).len() > 0 {
                            let w = a.filter(pred)[0];
                            a.lemma_filter_contains_rev(pred, w);
                            assert(a.filter(pred).contains(w));
                            let k = choose|k: int| 0 <= k < a.len() && a[k] == w;
                            assert(entry_less(ov[k], x@));
                            lemma_entry_less_asym(ov[k], x@);
                        }
                    }
                    assert(seq![x@].filter(pred) =~= seq![x@]) by {
                        reveal_with_fuel(Seq::filter, 2);
                        assert(seq![x@].drop_last() =~= Seq::<FileEntryView>::empty());
                    }
                    assert(nv.filter(pred) =~= seq![x@] + b.filter(pred));
                    assert(ov.filter(pred) =~= b.filter(pred));
                } else {
                    assert(seq![x@].filter(pred) =~= Seq::<FileEntryView>::empty()) by {
                        reveal_with_fuel(Seq::filter, 2);
                        assert(seq![x@].drop_last() =~= Seq::<FileEntryView>::empty());
                    }
                    assert(nv.filter(pred) =~= a.filter(pred) + b.filter(pred));
                    assert(suffix.filter(pred) =~= orig.skip(n).filter(pred));
                }
            }
        }
        assert forall|k: int| 0 <= k < keys@.len() implies #[trigger] keys@[k]@ == lower_text(out@[k].name@) by {
            if k < p {
            } else if k > p {
            }
        }
    }
    assert(orig.skip(0) =~= orig);
    *entries = out;
}


/// `s` without trailing slashes.
pub open spec fn trim_slashes(s: Seq<char>) -> Seq<char>
    decreases s.len(),
{
    if s.len() > 0 && s.last() == '/' {
        trim_slashes(s.drop_last())
    } else {
        s
    }
}

/// Index of the last slash in `s`, or -1.
pub open spec fn last_slash(s: Seq<char>) -> int
    decreases s.len(),
{
    if s.len() == 0 {
        -1
    } else if s.last() == '/' {
        s.len() - 1
    } else {
        last_slash(s.drop_last())
    }
}

proof fn lemma_last_slash(s: Seq<char>)
    ensures
        -1 <= last_slash(s) < s.len(),
        last_slash(s) >= 0 ==> s[last_slash(s)] == '/',
        forall|k: int| last_slash(s) < k < s.len() ==> s[k] != '/',
    decreases s.len(),
{
    if s.len() > 0 && s.last() != '/' {
        let d = s.drop_last();
        lemma_last_slash(d);
        assert forall|k: int| last_slash(s) < k < s.len() implies s[k] != '/' by {
            if k < s.len() - 1 {
                assert(d[k] == s[k]);
            }
        }
    }
}

/// `name` under `base`, POSIX style: an absolute name replaces the base,
/// and a base that already ends in `/` gets no second one.
pub open spec fn posix_join_spec(base: Seq<char>, name: Seq<char>) -> Seq<char> {
    if name.len() > 0 && name[0] == '/' {
        name
    } else if base.len() > 0 && base.last() == '/' {
        base + name
    } else {
        base.push('/') + name
    }
}

/// Parent of a POSIX path: `None` at the root (or for a bare name), `/` for
/// a first-level entry; trailing slashes are ignored.
pub open spec fn posix_parent_spec(path: Seq<char>) -> Option<Seq<char>> {
    let t = trim_slashes(path);
    if t.len() == 0 || last_slash(t) < 0 {
        None
    } else if last_slash(t) == 0 {
        Some(seq!['/'])
    } else {
        Some(t.take(last_slash(t)))
    }
}

/// Final component of a POSIX path; trailing slashes are ignored.
pub open spec fn posix_name_spec(path: Seq<char>) -> Seq<char> {
    let t = trim_slashes(path);
    t.skip(last_slash(t) + 1)
}

proof fn lemma_trimmed_end(s: Seq<char>)
    ensures
        trim_slashes(s).len() > 0 ==> trim_slashes(s).last() != '/',
        trim_slashes(s).len() <= s.len(),
    decreases s.len(),
{
    if s.len() > 0 && s.last() == '/' {
        lemma_trimmed_end(s.drop_last());
    }
}

/// Going up and coming back down rebuilds the path: joining a path's parent
/// and its final component gives the path (without trailing slashes), as
/// long as the final component is not preceded by a doubled slash, where
/// the parent keeps a trailing slash.
pub proof fn parent_and_name_rebuild_the_path(p: Seq<char>)
    requires
        posix_parent_spec(p) is Some,
        last_slash(trim_slashes(p)) == 0 || trim_slashes(p)[last_slash(trim_slashes(p)) - 1] != '/',
    ensures
        posix_join_spec(posix_parent_spec(p).unwrap(), posix_name_spec(p)) == trim_slashes(p),
{
    let t = trim_slashes(p);
    let ls = last_slash(t);
    lemma_last_slash(t);
    lemma_trimmed_end(p);
    let name = t.skip(ls + 1);
    assert(ls < t.len() - 1);
    assert(name.len() > 0);
    assert(name[0] == t[ls + 1]);
    if ls == 0 {
        assert(seq!['/'] + name =~= t);
    } else {
        let parent = t.take(ls);
        assert(parent.last() == t[ls - 1]);
        assert(parent.push('/') + name =~= t);
    }
}

/// In `x + n`, where `x` ends in a slash and `n` has none, the last slash
/// is the one that ends `x`.
proof fn lemma_last_slash_before_name(x: Seq<char>, n: Seq<char>)
    requires
        x.len() > 0,
        x.last() == '/',
        !n.contains('/'),
    ensures
        last_slash(x + n) == x.len() - 1,
{
    let s = x + n;
    lemma_last_slash(s);
    let ls = last_slash(s);
    assert(s[x.len() - 1] == '/');
    if ls > x.len() - 1 {
        assert(s[ls] == n[ls - x.len()]);
    }
}

/// The join of a base and a plain name, with the slash that separates them.
proof fn lemma_join_shape(b: Seq<char>, n: Seq<char>)
    requires
        n.len() > 0,
        !n.contains('/'),
    ensures
        ({
            let x = if b.len() > 0 && b.last() == '/' { b } else { b.push('/') };
            &&& posix_join_spec(b, n) == x + n
            &&& trim_slashes(x + n) == x + n
            &&& last_slash(x + n) == x.len() - 1
        }),
{
    let x = if b.len() > 0 && b.last() == '/' { b } else { b.push('/') };
    assert(n[0] != '/') by {
        if n[0] == '/' {
            assert(n.contains('/'));
        }
    }
    assert(n.last() != '/') by {
        if n.last() == '/' {
            assert(n[n.len() - 1] == '/');
        }
    }
    assert((x + n).last() == n.last());
    lemma_last_slash_before_name(x, n);
}

/// The name of a joined path is the name that was joined.
pub proof fn name_of_a_join_is_the_name(b: Seq<char>, n: Seq<char>)
    requires
        n.len() > 0,
        !n.contains('/'),
    ensures
        posix_name_spec(posix_join_spec(b, n)) == n,
{
    lemma_join_shape(b, n);
    let x = if b.len() > 0 && b.last() == '/' { b } else { b.push('/') };
    assert((x + n).skip(x.len() as int) =~= n);
}

/// No parent is ever the empty path: a first-level entry's parent is `/`.
pub proof fn a_parent_is_never_empty(p: Seq<char>)
    ensures
        posix_parent_spec(p) matches Some(q) ==> q.len() > 0,
{
    lemma_last_slash(trim_slashes(p));
}

/// Going up from a one-level join gives the base back; under the root
/// that is `/` itself.
pub proof fn parent_of_a_join_is_the_base(b: Seq<char>, n: Seq<char>)
    requires
        n.len() > 0,
        !n.contains('/'),
        b.len() > 0,
        b == seq!['/'] || b.last() != '/',
    ensures
        posix_parent_spec(posix_join_spec(b, n)) == Some(b),
{
    lemma_join_shape(b, n);
    let x = if b.len() > 0 && b.last() == '/' { b } else { b.push('/') };
    if b.last() != '/' {
        assert((x + n).take(b.len() as int) =~= b);
    }
}

fn trim_slashes_len(v: &Vec<char>) -> (n: usize)
    ensures
        n <= v@.len(),
        v@.take(n as int) == trim_slashes(v@),
{
    let mut i = v.len();
    assert(v@.take(i as int) == v@);
    while i > 0 && v[i - 1] == '/'
        invariant
            i <= v@.len(),
            trim_slashes(v@.take(i as int)) == trim_slashes(v@),
        decreases i,
    {
        assert(v@.take(i as int).drop_last() == v@.take(i - 1));
        i = i - 1;
    }
    i
}

/// Index of the last slash among the first `n` characters.
fn last_slash_in(v: &Vec<char>, n: usize) -> (r: Option<usize>)
    requires
        n <= v@.len(),
    ensures
        match r {
            Some(i) => i < n && last_slash(v@.take(n as int)) == i,
            None => last_slash(v@.take(n as int)) == -1,
        },
{
    let mut i = n;
    while i > 0 && v[i - 1] != '/'
        invariant
            i <= n <= v@.len(),
            last_slash(v@.take(i as int)) == last_slash(v@.take(n as int)),
        decreases i,
    {
        assert(v@.take(i as int).drop_last() == v@.take(i - 1));
        i = i - 1;
    }
    if i == 0 {
        assert(v@.take(0) == Seq::<char>::empty());
        None
    } else {
        Some(i - 1)
    }
}

fn copy_range(v: &Vec<char>, from: usize, to: usize) -> (r: Vec<char>)
    requires
        from <= to <= v@.len(),
    ensures
        r@ == v@.subrange(from as int, to as int),
{
    crate::text::slice_chars(v, from, to)
}

/// Joins a POSIX path for the remote side.
pub fn posix_join(base: &str, name: &str) -> (r: String)
    ensures
        r@ == posix_join_spec(base@, name@),
{
    let b = chars_of(base);
    let n = chars_of(name);
    if n.len() > 0 && n[0] == '/' {
        return string_of(&n);
    }
    let mut out = b;
    if !(out.len() > 0 && out[out.len() - 1] == '/') {
        out.push('/');
    }
    let ghost head = out@;
    let mut i: usize = 0;
    while i < n.len()
        invariant
            i <= n@.len(),
            out@ == head + n@.take(i as int),
        decreases n.len() - i,
    {
        out.push(n[i]);
        i = i + 1;
    }
    assert(n@.take(i as int) == n@);
    string_of(&out)
}

/// Parent of a POSIX path, or `None` at the root.
pub fn posix_parent(path: &str) -> (r: Option<String>)
    ensures
        match r {
            Some(p) => posix_parent_spec(path@) == Some(p@),
            None => posix_parent_spec(path@) is None,
        },
{
    let v = chars_of(path);
    let t = trim_slashes_len(&v);
    if t == 0 {
        return None;
    }
    assert(v@.take(t as int) == trim_slashes(path@));
    proof {
        lemma_last_slash(v@.take(t as int));
    }
    match last_slash_in(&v, t) {
        None => None,
        Some(0) => {
            let r = string_of(&vec!['/']);
            assert(r@ =~= seq!['/']);
            Some(r)
        },
        Some(i) => {
            let head = copy_range(&v, 0, i);
            assert(head@ =~= trim_slashes(path@).take(i as int));
            Some(string_of(&head))
        },
    }
}

/// Final component of a POSIX path.
pub fn posix_name(path: &str) -> (r: String)
    ensures
        r@ == posix_name_spec(path@),
{
    let v = chars_of(path);
    let t = trim_slashes_len(&v);
    let start = match last_slash_in(&v, t) {
        None => 0,
        Some(i) => i + 1,
    };
    proof {
        lemma_last_slash(v@.take(t as int));
    }
    let tail = copy_range(&v, start, t);
    assert(tail@ =~= trim_slashes(path@).skip(last_slash(trim_slashes(path@)) + 1));
    string_of(&tail)
}

/// Where a local pane opens: the user's home directory when there is one
/// (`home`, as the caller found it), otherwise the filesystem root.
pub fn local_home(home: Option<String>) -> (r: String)
    ensures
        r@ == (match home {
            Some(h) => h@,
            None => seq!['/'],
        }),
{
    match home {
        Some(h) => h,
        None => {
            let r = string_of(&vec!['/']);
            assert(r@ =~= seq!['/']);
            r
        },
    }
}

/// The listing of directory `path` with parent `parent` (as the platform
/// reports it): an empty parent counts as none, and the entries are put in
/// listing order.
pub fn listing_of(path: String, parent: Option<String>, entries: Vec<FileEntry>) -> (r: Listing)
    ensures
        r.path@ == path@,
        r.parent == (match parent {
            Some(p) => if p@.len() > 0 { Some(p) } else { None },
            None => None,
        }),
        entry_views(r.entries@).to_multiset() == entry_views(entries@).to_multiset(),
        in_listing_order(entry_views(r.entries@)),
        forall|e: FileEntryView| #[trigger] level_with(entry_views(r.entries@), e) == level_with(entry_views(entries@), e),
{
    let mut entries = entries;
    sort_entries(&mut entries);
    let parent = match parent {
        Some(p) => if p.as_str().is_empty() { None } else { Some(p) },
        None => None,
    };
    Listing { path, parent, entries }
}

/// Whether a directory entry is the `.` or `..` that servers list.
pub open spec fn is_dot_entry(name: Seq<char>) -> bool {
    name == seq!['.'] || name == seq!['.', '.']
}

/// The entries that are not `.` or `..`, in order.
pub open spec fn without_dots(es: Seq<FileEntryView>) -> Seq<FileEntryView>
    decreases es.len(),
{
    if es.len() == 0 {
        Seq::empty()
    } else if is_dot_entry(es.last().name) {
        without_dots(es.drop_last())
    } else {
        without_dots(es.drop_last()).push(es.last())
    }
}

/// A remote directory listing: the server's `.` and `..` rows dropped, the
/// rest in listing order, and the parent computed POSIX-style from the
/// canonical path.
pub fn remote_listing(canonical: String, entries: Vec<FileEntry>) -> (r: Listing)
    ensures
        r.path@ == canonical@,
        match r.parent {
            Some(p) => posix_parent_spec(canonical@) == Some(p@),
            None => posix_parent_spec(canonical@) is None,
        },
        entry_views(r.entries@).to_multiset() == without_dots(entry_views(entries@)).to_multiset(),
        in_listing_order(entry_views(r.entries@)),
        forall|e: FileEntryView|
            #[trigger] level_with(entry_views(r.entries@), e) == level_with(without_dots(entry_views(entries@)), e),
{
    let ghost ev = entry_views(entries@);
    let mut input = entries;
    let mut rev: Vec<FileEntry> = Vec::new();
    while input.len() > 0
        invariant
            entry_views(input@) == ev.take(input@.len() as int),
            rev@.len() + input@.len() == ev.len(),
            forall|k: int| 0 <= k < rev@.len() ==> #[trigger] entry_views(rev@)[k] == ev[ev.len() - 1 - k],
        decreases input@.len(),
    {
        let ghost before = entry_views(input@);
        let x = input.pop().unwrap();
        assert(before =~= entry_views(input@).push(x@));
        assert(entry_views(input@) =~= ev.take(input@.len() as int));
        assert(x@ == ev[input@.len() as int]) by {
            assert(before[input@.len() as int] == x@);
        }
        let ghost rb = entry_views(rev@);
        rev.push(x);
        assert(entry_views(rev@) =~= rb.push(x@));
    }
    let mut kept: Vec<FileEntry> = Vec::new();
    assert(ev.take(0) =~= Seq::<FileEntryView>::empty());
    assert(entry_views(kept@) =~= Seq::<FileEntryView>::empty());
    while rev.len() > 0
        invariant
            rev@.len() <= ev.len(),
            forall|k: int| 0 <= k < rev@.len() ==> #[trigger] entry_views(rev@)[k] == ev[ev.len() - 1 - k],
            entry_views(kept@) == without_dots(ev.take(ev.len() - rev@.len())),
        decreases rev@.len(),
    {
        let ghost c: int = ev.len() - rev@.len();
        let ghost rb = entry_views(rev@);
        let x = rev.pop().unwrap();
        assert(rb =~= entry_views(rev@).push(x@));
        assert forall|k: int| 0 <= k < rev@.len() implies #[trigger] entry_views(rev@)[k] == ev[ev.len() - 1 - k] by {
            assert(entry_views(rev@)[k] == rb[k]);
        }
        assert(x@ == ev[c]) by {
            assert(rb[rb.len() - 1] == x@);
        }
        assert(ev.take(c + 1).drop_last() =~= ev.take(c));
        assert(ev.take(c + 1).last() == ev[c]);
        let name = chars_of(x.name.as_str());
        let dot = (name.len() == 1 && name[0] == '.') || (name.len() == 2 && name[0] == '.' && name[1] == '.');
        proof {
            if name@ == seq!['.'] {
                assert(name@[0] == '.');
            }
            if name@ == seq!['.', '.'] {
                assert(name@[0] == '.' && name@[1] == '.');
            }
            if dot {
                if name@.len() == 1 {
                    assert(name@ =~= seq!['.']);
                } else {
                    assert(name@ =~= seq!['.', '.']);
                }
            }
        }
        if !dot {
            let ghost kb = entry_views(kept@);
            kept.push(x);
            assert(entry_views(kept@) =~= kb.push(x@));
        }
    }
    assert(ev.take(ev.len() as int) =~= ev);
    sort_entries(&mut kept);
    Listing { parent: posix_parent(canonical.as_str()), path: canonical, entries: kept }
}

/// How often a transfer reports progress, in bytes. Per-chunk reports would
/// flood the UI bridge on a fast link.
pub const PROGRESS_INTERVAL: u64 = 524288;

/// Decides when a streaming copy reports progress.
pub struct TransferMeter {
    pub moved: u64,
    pub last_report: u64,
    pub total: u64,
}

impl TransferMeter {
    /// A copy of `total` bytes (0: unknown) that has not started.
    pub fn new(total: u64) -> (r: TransferMeter)
        ensures
            r.moved == 0,
            r.last_report == 0,
            r.total == total,
    {
        TransferMeter { moved: 0, last_report: 0, total }
    }

    /// `n` more bytes were copied. Progress is reported whenever at least
    /// `PROGRESS_INTERVAL` bytes have moved since the last report.
    pub fn advance(&mut self, n: u64) -> (r: Option<Progress>)
        requires
            old(self).last_report <= old(self).moved,
            old(self).moved + n <= u64::MAX,
        ensures
            final(self).moved == old(self).moved + n,
            final(self).total == old(self).total,
            final(self).last_report <= final(self).moved,
            final(self).moved - old(self).last_report >= PROGRESS_INTERVAL ==> r == Some(
                Progress { transferred: final(self).moved, total: old(self).total },
            ) && final(self).last_report == final(self).moved,
            final(self).moved - old(self).last_report < PROGRESS_INTERVAL ==> r is None && final(self).last_report
                == old(self).last_report,
    {
        self.moved = self.moved + n;
        if self.moved - self.last_report >= PROGRESS_INTERVAL {
            self.last_report = self.moved;
            Some(Progress { transferred: self.moved, total: self.total })
        } else {
            None
        }
    }

    /// The final report, always sent so the UI settles on 100% even when
    /// the advertised size was wrong or absent.
    pub fn finish(&self) -> (r: Progress)
        ensures
            r == (Progress {
                transferred: self.moved,
                total: if self.total >= self.moved { self.total } else { self.moved },
            }),
    {
        Progress { transferred: self.moved, total: if self.total >= self.moved { self.total } else { self.moved } }
    }
}

/// The final component of `p` as `Path::components` reads a Unix path:
/// scanning back from the end, empty segments (repeated or trailing `/`)
/// and `.` segments are skipped; the first other segment is the name,
/// unless it is `..`. `seg` holds the characters already scanned past the
/// end of `p`, none of them a `/`.
pub open spec fn name_from(p: Seq<char>, seg: Seq<char>) -> Option<Seq<char>>
    decreases p.len(),
{
    if p.len() == 0 || p.last() == '/' {
        if seg.len() == 0 || seg == seq!['.'] {
            if p.len() == 0 {
                None
            } else {
                name_from(p.drop_last(), Seq::empty())
            }
        } else if seg == seq!['.', '.'] {
            None
        } else {
            Some(seg)
        }
    } else {
        name_from(p.drop_last(), seq![p.last()] + seg)
    }
}

/// What `Path::file_name` gives for a path on Unix: its final normal
/// component; `None` for an empty path, the root, `.` and a path ending in
/// `..`.
pub open spec fn unix_file_name(p: Seq<char>) -> Option<Seq<char>> {
    name_from(p, Seq::empty())
}

/// `s` is one of the `/`-separated segments of `p`.
pub open spec fn is_segment_of(s: Seq<char>, p: Seq<char>) -> bool {
    exists|i: int|
        0 <= i && i + s.len() <= p.len() && #[trigger] p.subrange(i, i + s.len()) == s && (i == 0 || p[i - 1] == '/')
            && (i + s.len() == p.len() || p[i + s.len()] == '/')
}

proof fn lemma_name_from(p: Seq<char>, seg: Seq<char>, rest: Seq<char>)
    requires
        !seg.contains('/'),
        rest.len() == 0 || rest[0] == '/',
        name_from(p, seg) is Some,
    ensures
        ({
            let n = name_from(p, seg).unwrap();
            &&& !n.contains('/')
            &&& n.len() > 0 && n != seq!['.'] && n != seq!['.', '.']
            &&& is_segment_of(n, p + seg + rest)
        }),
    decreases p.len(),
{
    let whole = p + seg + rest;
    if p.len() == 0 || p.last() == '/' {
        if seg.len() == 0 || seg == seq!['.'] {
            let p2 = p.drop_last();
            let rest2 = seq!['/'] + seg + rest;
            assert(p2 + Seq::<char>::empty() + rest2 =~= whole);
            assert(!Seq::<char>::empty().contains('/'));
            lemma_name_from(p2, Seq::empty(), rest2);
        } else {
            let i = p.len() as int;
            assert(whole.subrange(i, i + seg.len()) =~= seg);
            if i + seg.len() < whole.len() {
                assert(whole[i + seg.len()] == rest[0]);
            }
            if i > 0 {
                assert(whole[i - 1] == p.last());
            }
        }
    } else {
        let p2 = p.drop_last();
        let seg2 = seq![p.last()] + seg;
        assert(!seg2.contains('/')) by {
            if seg2.contains('/') {
                let j = choose|j: int| 0 <= j < seg2.len() && seg2[j] == '/';
                if j > 0 {
                    assert(seg[j - 1] == '/');
                }
            }
        }
        assert(p2 + seg2 + rest =~= whole);
        lemma_name_from(p2, seg2, rest);
    }
}

/// Calls `std::path::Path::file_name`. On Unix, the platform this library
/// is built for, `/` is the only separator, and the components are read
/// as `Path::components` documents: repeated and trailing separators and
/// `.` components are normalized away, and a final `..` has no name.
#[verifier::external_body]
fn file_name_of(p: &str) -> (r: Option<String>)
    ensures
        r is Some <==> unix_file_name(p@) is Some,
        r matches Some(n) ==> n@ == unix_file_name(p@).unwrap(),
{
    std::path::Path::new(p).file_name().and_then(|n| n.to_str()).map(|n| n.to_string())
}

/// What `format!("{:?}", s)` gives for a string: it quoted and escaped.
pub uninterp spec fn debug_quoted(s: Seq<char>) -> Seq<char>;

/// Calls `format!("{:?}", s)`.
#[verifier::external_body]
fn debug_string(s: &str) -> (r: String)
    ensures
        r@ == debug_quoted(s@),
{
    format!("{:?}", s)
}

/// The message for a name that is refused as a file name.
pub open spec fn unsafe_name_message(name: Seq<char>) -> Seq<char> {
    seq!['u', 'n', 's', 'a', 'f', 'e', ' ', 'f', 'i', 'l', 'e', ' ', 'n', 'a', 'm', 'e', ':', ' '] + debug_quoted(name)
}

/// Whether a final component is usable as a file name.
pub open spec fn usable_name(n: Seq<char>) -> bool {
    n.len() > 0 && n != seq!['.'] && n != seq!['.', '.']
}

/// Reduces a name (for instance one a remote host returned) to a plain file
/// name, so a staged file can never land outside its directory: only the
/// final path component is kept, and an empty, `.` or `..` one is refused.
pub fn safe_file_name(name: &str) -> (r: Result<String, String>)
    ensures
        r matches Ok(n) ==> unix_file_name(name@) == Some(n@) && usable_name(n@) && !n@.contains('/')
            && is_segment_of(n@, name@),
        r is Err <==> unix_file_name(name@) is None,
        r matches Err(m) ==> m@ == unsafe_name_message(name@),
{
    match file_name_of(name) {
        Some(n) => {
            proof {
                assert(!Seq::<char>::empty().contains('/'));
                lemma_name_from(name@, Seq::empty(), Seq::empty());
                assert(name@ + Seq::<char>::empty() + Seq::<char>::empty() =~= name@);
            }
            let v = chars_of(n.as_str());
            let dot = v.len() == 1 && v[0] == '.';
            let dotdot = v.len() == 2 && v[0] == '.' && v[1] == '.';
            assert(dot == (v@ == seq!['.'])) by {
                if v@ == seq!['.'] {
                    assert(v@.len() == 1 && v@[0] == '.');
                }
                if dot {
                    assert(v@ =~= seq!['.']);
                }
            }
            assert(dotdot == (v@ == seq!['.', '.'])) by {
                if v@ == seq!['.', '.'] {
                    assert(v@.len() == 2 && v@[0] == '.' && v@[1] == '.');
                }
                if dotdot {
                    assert(v@ =~= seq!['.', '.']);
                }
            }
            if v.len() > 0 && !dot && !dotdot {
                Ok(n)
            } else {
                Err(unsafe_message(name))
            }
        },
        None => Err(unsafe_message(name)),
    }
}

fn unsafe_message(name: &str) -> (r: String)
    ensures
        r@ == unsafe_name_message(name@),
{
    let mut v = vec!['u', 'n', 's', 'a', 'f', 'e', ' ', 'f', 'i', 'l', 'e', ' ', 'n', 'a', 'm', 'e', ':', ' '];
    let ghost head = v@;
    let q = chars_of(debug_string(name).as_str());
    let mut i: usize = 0;
    while i < q.len()
        invariant
            i <= q@.len(),
            v@ == head + q@.take(i as int),
        decreases q.len() - i,
    {
        v.push(q[i]);
        i = i + 1;
    }
    assert(q@.take(i as int) == q@);
    assert(head =~= seq!['u', 'n', 's', 'a', 'f', 'e', ' ', 'f', 'i', 'l', 'e', ' ', 'n', 'a', 'm', 'e', ':', ' ']);
    string_of(&v)
}

} // verus!
