//! Bounded scrollback of a session's raw output.
//!
//! When the UI is closed the daemon keeps a session's process alive and keeps
//! receiving its output; when the UI comes back it replays the recent
//! scrollback from here. The buffer holds whole chunks in arrival order and
//! drops the oldest ones once the total would exceed the capacity.

use std::collections::VecDeque;
use vstd::prelude::*;
use crate::text::{
    ascii_lower_char, chars_of, contains_chars, contains_seq, is_ascii_text, lossy, lower_text, split_chars, split_seq, string_of,
    to_lower, lossy_text,
};

verus! {

/// Default capacity: 1 MiB.
pub const DEFAULT_CAPACITY_BYTES: usize = 1048576;

/// The chunks laid end to end.
pub open spec fn concat_all(s: Seq<Seq<u8>>) -> Seq<u8>
    decreases s.len(),
{
    if s.len() == 0 {
        Seq::empty()
    } else {
        concat_all(s.drop_last()) + s.last()
    }
}

/// Total number of bytes in `s`.
pub open spec fn total_len(s: Seq<Seq<u8>>) -> nat {
    concat_all(s).len()
}

/// The chunks that remain once the oldest are dropped until `incoming`
/// more bytes fit in `cap` (or nothing is left).
pub open spec fn drop_front(s: Seq<Seq<u8>>, incoming: nat, cap: nat) -> Seq<Seq<u8>>
    decreases s.len(),
{
    if s.len() > 0 && total_len(s) + incoming > cap {
        drop_front(s.drop_first(), incoming, cap)
    } else {
        s
    }
}

/// The buffer after a push: the oldest chunks go until the new one fits;
/// a chunk larger than the whole capacity keeps only its last `cap` bytes.
pub open spec fn push_spec(s: Seq<Seq<u8>>, cap: nat, chunk: Seq<u8>) -> Seq<Seq<u8>> {
    let kept = drop_front(s, chunk.len(), cap);
    if chunk.len() > cap {
        kept.push(chunk.skip(chunk.len() - cap))
    } else {
        kept.push(chunk)
    }
}

pub proof fn lemma_concat_first(s: Seq<Seq<u8>>)
    requires
        s.len() > 0,
    ensures
        concat_all(s) == s[0] + concat_all(s.drop_first()),
    decreases s.len(),
{
    if s.len() == 1 {
        assert(s.drop_first() =~= Seq::<Seq<u8>>::empty());
        assert(s.drop_last() =~= Seq::<Seq<u8>>::empty());
        assert(concat_all(s.drop_last()) =~= Seq::<u8>::empty());
        assert(concat_all(s) =~= s[0]);
    } else {
        lemma_concat_first(s.drop_last());
        assert(s.drop_last().drop_first() =~= s.drop_first().drop_last());
        assert(s.drop_first().last() == s.last());
        assert(concat_all(s) =~= s[0] + concat_all(s.drop_first()));
    }
}

/// Dropping from the front keeps a suffix of the bytes.
pub proof fn lemma_drop_front_suffix(s: Seq<Seq<u8>>, incoming: nat, cap: nat)
    ensures
        concat_all(drop_front(s, incoming, cap)).len() <= concat_all(s).len(),
        concat_all(drop_front(s, incoming, cap)) == concat_all(s).skip(
            concat_all(s).len() - concat_all(drop_front(s, incoming, cap)).len(),
        ),
        drop_front(s, incoming, cap).len() == 0 || total_len(drop_front(s, incoming, cap)) + incoming <= cap,
    decreases s.len(),
{
    if s.len() > 0 && total_len(s) + incoming > cap {
        lemma_concat_first(s);
        lemma_drop_front_suffix(s.drop_first(), incoming, cap);
        let a = concat_all(s);
        let b = concat_all(s.drop_first());
        let c = concat_all(drop_front(s.drop_first(), incoming, cap));
        assert(a == s[0] + b);
        assert(c == b.skip(b.len() - c.len()));
        assert(c =~= a.skip(a.len() - c.len()));
    } else {
        assert(concat_all(s).skip(0) =~= concat_all(s));
    }
}

/// The chunks kept are the suffix of `s` from some index `j`, and every
/// longer suffix would leave no room for `incoming` bytes.
proof fn lemma_drop_front_index(s: Seq<Seq<u8>>, incoming: nat, cap: nat) -> (j: int)
    ensures
        0 <= j <= s.len(),
        drop_front(s, incoming, cap) == s.skip(j),
        forall|i: int| 0 <= i < j ==> total_len(#[trigger] s.skip(i)) + incoming > cap,
    decreases s.len(),
{
    if s.len() > 0 && total_len(s) + incoming > cap {
        let j1 = lemma_drop_front_index(s.drop_first(), incoming, cap);
        assert(s.drop_first().skip(j1) =~= s.skip(j1 + 1));
        assert forall|i: int| 0 <= i < j1 + 1 implies total_len(#[trigger] s.skip(i)) + incoming > cap by {
            if i == 0 {
                assert(s.skip(0) =~= s);
            } else {
                assert(s.drop_first().skip(i - 1) =~= s.skip(i));
            }
        }
        j1 + 1
    } else {
        assert(s.skip(0) =~= s);
        0
    }
}

/// What a push leaves is always the longest run of the newest output that
/// fits: the buffered bytes are a suffix of everything held before plus the
/// new chunk, they never exceed the capacity, and nothing is dropped while
/// everything fits. A chunk that fits
/// is kept whole at the end, after the longest run of the newest old chunks
/// that leaves room for it; a larger chunk leaves just its last `cap` bytes.
pub proof fn push_keeps_the_newest_bytes(s: Seq<Seq<u8>>, cap: nat, chunk: Seq<u8>)
    requires
        total_len(s) <= cap,
    ensures
        ({
            let after = concat_all(push_spec(s, cap, chunk));
            let all = concat_all(s) + chunk;
            &&& after.len() <= cap
            &&& after.len() <= all.len()
            &&& after == all.skip(all.len() - after.len())
            &&& (chunk.len() <= cap ==> after.len() >= chunk.len() && after.skip(after.len() - chunk.len()) == chunk)
            &&& (chunk.len() > cap ==> after.len() == cap && after == chunk.skip(chunk.len() - cap))
        }),
        total_len(s) + chunk.len() <= cap ==> push_spec(s, cap, chunk) == s.push(chunk),
        chunk.len() <= cap ==> exists|j: int|
            0 <= j <= s.len() && push_spec(s, cap, chunk) == s.skip(j).push(chunk) && total_len(s.skip(j))
                + chunk.len() <= cap && forall|i: int| 0 <= i < j ==> total_len(#[trigger] s.skip(i)) + chunk.len() > cap,
{
    let kept = drop_front(s, chunk.len(), cap);
    lemma_drop_front_suffix(s, chunk.len(), cap);
    let j = lemma_drop_front_index(s, chunk.len(), cap);
    if chunk.len() <= cap {
        if kept.len() == 0 {
            assert(concat_all(kept) =~= Seq::<u8>::empty());
        }
        assert(push_spec(s, cap, chunk) == s.skip(j).push(chunk));
    }
    let k = concat_all(kept);
    let a = concat_all(s);
    let all = a + chunk;
    if chunk.len() > cap {
        let t = chunk.skip(chunk.len() - cap);
        assert(kept.len() == 0);
        assert(k =~= Seq::<u8>::empty());
        assert(kept.push(t).drop_last() == kept);
        assert(concat_all(kept.push(t)) =~= t);
        assert(t.len() == cap);
        assert(t =~= all.skip(all.len() - t.len()));
    } else {
        assert(kept.push(chunk).drop_last() == kept);
        let after = concat_all(kept.push(chunk));
        assert(after == k + chunk);
        if kept.len() == 0 {
            assert(k =~= Seq::<u8>::empty());
        }
        assert(after.len() <= cap);
        assert(after =~= all.skip(all.len() - after.len()));
        assert(after.skip(after.len() - chunk.len()) =~= chunk);
    }
}

/// The scrollback of one session.
pub struct OutputRingBuffer {
    chunks: VecDeque<Vec<u8>>,
    total_bytes: usize,
    capacity: usize,
}

/// The chunks as byte strings.
pub open spec fn chunk_seqs(v: Seq<Vec<u8>>) -> Seq<Seq<u8>> {
    v.map_values(|c: Vec<u8>| c@)
}

/// One line of the scrollback that matched a search.
#[derive(Clone, Debug)]
pub struct SearchHit {
    /// 1-based line number within the joined output.
    pub line_number: usize,
    /// The line text, in its original case.
    pub text: String,
}

pub struct HitView {
    pub line_number: usize,
    pub text: Seq<char>,
}

impl View for SearchHit {
    type V = HitView;

    open spec fn view(&self) -> HitView {
        HitView { line_number: self.line_number, text: self.text@ }
    }
}

pub open spec fn hit_views(v: Seq<SearchHit>) -> Seq<HitView> {
    v.map_values(|h: SearchHit| h@)
}

/// The chunks decoded one by one (lossily) and laid end to end. A chunk
/// boundary that splits a UTF-8 sequence yields replacement characters.
pub open spec fn joined_text(s: Seq<Seq<u8>>) -> Seq<char>
    decreases s.len(),
{
    if s.len() == 0 {
        Seq::empty()
    } else {
        joined_text(s.drop_last()) + lossy_text(s.last())
    }
}

/// The text searched is the text of every chunk, oldest first, each
/// decoded on its own.
pub proof fn searched_text_is_every_chunk_in_turn(s: Seq<Seq<u8>>)
    ensures
        joined_text(s) == s.map_values(|c: Seq<u8>| lossy_text(c)).flatten(),
    decreases s.len(),
{
    let m = s.map_values(|c: Seq<u8>| lossy_text(c));
    m.lemma_flatten_and_flatten_alt_are_equivalent();
    if s.len() > 0 {
        searched_text_is_every_chunk_in_turn(s.drop_last());
        let d = s.drop_last().map_values(|c: Seq<u8>| lossy_text(c));
        assert(m.drop_last() =~= d);
        d.lemma_flatten_and_flatten_alt_are_equivalent();
        assert(m.flatten_alt() == m.drop_last().flatten_alt() + m.last());
    }
}

/// `t` as compared by a search.
pub open spec fn fold_case(t: Seq<char>, case_sensitive: bool) -> Seq<char> {
    if case_sensitive { t } else { lower_text(t) }
}

/// A case-sensitive search compares text as it is; otherwise letters
/// compare without regard to case: in ASCII text `A` to `Z` count as `a`
/// to `z`, and nothing else changes.
pub proof fn case_folding_of_a_search(t: Seq<char>)
    ensures
        fold_case(t, true) == t,
        is_ascii_text(t) ==> fold_case(t, false) == t.map_values(|c: char| ascii_lower_char(c)),
{
}

/// The hits among the first `k` lines: every line whose case-folded text
/// contains the case-folded needle, in order, until `max` are found.
pub open spec fn hits_upto(lines: Seq<Seq<char>>, needle: Seq<char>, case_sensitive: bool, max: nat, k: nat) -> Seq<HitView>
    decreases k,
{
    if k == 0 {
        Seq::empty()
    } else {
        let h = hits_upto(lines, needle, case_sensitive, max, (k - 1) as nat);
        let line = lines[k - 1];
        if h.len() < max && contains_seq(fold_case(line, case_sensitive), fold_case(needle, case_sensitive)) {
            h.push(HitView { line_number: k as usize, text: line })
        } else {
            h
        }
    }
}

/// What a search of the scrollback `s` returns.
pub open spec fn search_spec(s: Seq<Seq<u8>>, needle: Seq<char>, case_sensitive: bool, max: nat) -> Seq<HitView> {
    let lines = split_seq(joined_text(s), '\n');
    hits_upto(lines, needle, case_sensitive, max, lines.len())
}

/// Once `max` hits are found, later lines add none.
proof fn lemma_hits_saturate(lines: Seq<Seq<char>>, needle: Seq<char>, cs: bool, max: nat, k: nat, k2: nat)
    requires
        k <= k2,
        hits_upto(lines, needle, cs, max, k).len() >= max,
    ensures
        hits_upto(lines, needle, cs, max, k2) == hits_upto(lines, needle, cs, max, k),
    decreases k2 - k,
{
    if k2 > k {
        lemma_hits_saturate(lines, needle, cs, max, k, (k2 - 1) as nat);
    }
}

/// Hits never outnumber `max`, come in strictly increasing line order, and
/// each one is a line that contains the needle once case is folded.
pub proof fn search_hits_are_well_formed(lines: Seq<Seq<char>>, needle: Seq<char>, cs: bool, max: nat, k: nat)
    requires
        k <= lines.len(),
        k < usize::MAX,
    ensures
        hits_upto(lines, needle, cs, max, k).len() <= max,
        forall|i: int|
            0 <= i < hits_upto(lines, needle, cs, max, k).len() ==> {
                let h = #[trigger] hits_upto(lines, needle, cs, max, k)[i];
                &&& 1 <= h.line_number <= k
                &&& h.text == lines[h.line_number - 1]
                &&& contains_seq(fold_case(h.text, cs), fold_case(needle, cs))
            },
        forall|i: int, j: int|
            0 <= i < j < hits_upto(lines, needle, cs, max, k).len() ==> hits_upto(lines, needle, cs, max, k)[i].line_number
                < hits_upto(lines, needle, cs, max, k)[j].line_number,
    decreases k,
{
    if k > 0 {
        search_hits_are_well_formed(lines, needle, cs, max, (k - 1) as nat);
    }
}

proof fn lemma_hits_complete(lines: Seq<Seq<char>>, needle: Seq<char>, cs: bool, max: nat, n: nat, k: int)
    requires
        n <= lines.len(),
        n < usize::MAX,
        0 <= k < n,
        contains_seq(fold_case(lines[k], cs), fold_case(needle, cs)),
    ensures
        (exists|j: int|
            0 <= j < hits_upto(lines, needle, cs, max, n).len() && #[trigger] hits_upto(lines, needle, cs, max, n)[j].line_number
                == k + 1) || (hits_upto(lines, needle, cs, max, n).len() == max && forall|j: int|
            0 <= j < hits_upto(lines, needle, cs, max, n).len() ==> #[trigger] hits_upto(lines, needle, cs, max, n)[j].line_number
                <= k),
    decreases n,
{
    let h = hits_upto(lines, needle, cs, max, (n - 1) as nat);
    let hn = hits_upto(lines, needle, cs, max, n);
    search_hits_are_well_formed(lines, needle, cs, max, (n - 1) as nat);
    if k == n - 1 {
        if h.len() < max {
            assert(hn == h.push(HitView { line_number: n as usize, text: lines[k] }));
            assert(hn[h.len() as int].line_number == k + 1);
        } else {
            assert(hn == h);
            assert forall|j: int| 0 <= j < hn.len() implies #[trigger] hn[j].line_number <= k by {
                assert(h[j].line_number <= n - 1);
            }
        }
    } else {
        lemma_hits_complete(lines, needle, cs, max, (n - 1) as nat, k);
        if exists|j: int| 0 <= j < h.len() && #[trigger] h[j].line_number == k + 1 {
            let j = choose|j: int| 0 <= j < h.len() && #[trigger] h[j].line_number == k + 1;
            assert(hn[j] == h[j]);
        } else {
            assert(hn == h);
        }
    }
}

/// A search returns exactly the matching lines of the scrollback, up to the
/// limit: the output, decoded and laid end to end, is cut at every `\n`
/// (the last piece, after the final `\n` or with none at all, is a line
/// too); every hit is such a line, numbered from 1, that contains the
/// needle once case is folded (unless the search is case-sensitive); hits
/// come in line order; and a matching line is left out only when the limit
/// was reached before it.
pub proof fn search_returns_the_matching_lines(s: Seq<Seq<u8>>, needle: Seq<char>, cs: bool, max: nat)
    requires
        split_seq(joined_text(s), '\n').len() < usize::MAX,
    ensures
        ({
            let lines = split_seq(joined_text(s), '\n');
            let r = search_spec(s, needle, cs, max);
            &&& r.len() <= max
            &&& forall|i: int|
                0 <= i < r.len() ==> 1 <= (#[trigger] r[i]).line_number <= lines.len() && r[i].text == lines[r[i].line_number
                    - 1] && contains_seq(fold_case(r[i].text, cs), fold_case(needle, cs))
            &&& forall|i: int, j: int| 0 <= i < j < r.len() ==> r[i].line_number < r[j].line_number
            &&& forall|k: int|
                0 <= k < lines.len() && contains_seq(fold_case(#[trigger] lines[k], cs), fold_case(needle, cs)) ==> (exists|j: int|
                    0 <= j < r.len() && #[trigger] r[j].line_number == k + 1) || (r.len() == max && forall|j: int|
                    0 <= j < r.len() ==> #[trigger] r[j].line_number <= k)
        }),
{
    let lines = split_seq(joined_text(s), '\n');
    search_hits_are_well_formed(lines, needle, cs, max, lines.len());
    assert forall|k: int|
        0 <= k < lines.len() && contains_seq(fold_case(#[trigger] lines[k], cs), fold_case(needle, cs)) implies (exists|j: int|
            0 <= j < search_spec(s, needle, cs, max).len() && #[trigger] search_spec(s, needle, cs, max)[j].line_number == k + 1)
            || (search_spec(s, needle, cs, max).len() == max && forall|j: int|
            0 <= j < search_spec(s, needle, cs, max).len() ==> #[trigger] search_spec(s, needle, cs, max)[j].line_number <= k) by {
        lemma_hits_complete(lines, needle, cs, max, lines.len(), k);
    }
}

impl OutputRingBuffer {
    /// The chunks held, oldest first.
    pub closed spec fn contents(&self) -> Seq<Seq<u8>> {
        chunk_seqs(self.chunks@)
    }

    pub closed spec fn cap(&self) -> nat {
        self.capacity as nat
    }

    /// What every buffer keeps: the count of bytes is exact and within the
    /// capacity.
    pub closed spec fn wf(&self) -> bool {
        &&& self.total_bytes == total_len(chunk_seqs(self.chunks@))
        &&& self.total_bytes <= self.capacity
    }

    /// An empty buffer with the default capacity of 1 MiB.
    pub fn new() -> (r: OutputRingBuffer)
        ensures
            r.wf(),
            r.contents() == Seq::<Seq<u8>>::empty(),
            r.cap() == DEFAULT_CAPACITY_BYTES,
    {
        OutputRingBuffer::with_capacity(DEFAULT_CAPACITY_BYTES)
    }

    /// An empty buffer that holds at most `capacity` bytes.
    pub fn with_capacity(capacity: usize) -> (r: OutputRingBuffer)
        ensures
            r.wf(),
            r.contents() == Seq::<Seq<u8>>::empty(),
            r.cap() == capacity,
    {
        let r = OutputRingBuffer { chunks: VecDeque::new(), total_bytes: 0, capacity };
        assert(chunk_seqs(r.chunks@) =~= Seq::<Seq<u8>>::empty());
        r
    }

    /// Number of bytes held.
    pub fn len(&self) -> (n: usize)
        requires
            self.wf(),
        ensures
            n == total_len(self.contents()),
    {
        self.total_bytes
    }

    /// Appends a chunk. If the total would exceed the capacity, the oldest
    /// chunks are dropped until the new one fits; a chunk larger than the
    /// whole capacity is cut down to its last `capacity` bytes, since some
    /// scrollback is better than none.
    pub fn push(&mut self, chunk: Vec<u8>)
        requires
            old(self).wf(),
        ensures
            final(self).wf(),
            final(self).cap() == old(self).cap(),
            final(self).contents() == push_spec(old(self).contents(), old(self).cap(), chunk@),
            ({
                let after = concat_all(final(self).contents());
                let all = concat_all(old(self).contents()) + chunk@;
                &&& after.len() <= old(self).cap()
                &&& after == all.skip(all.len() - after.len())
                &&& (total_len(old(self).contents()) + chunk@.len() <= old(self).cap() ==> final(self).contents()
                    == old(self).contents().push(chunk@))
                &&& (chunk@.len() > old(self).cap() ==> after == chunk@.skip(chunk@.len() - old(self).cap()))
            }),
            chunk@.len() <= old(self).cap() ==> exists|j: int|
                0 <= j <= old(self).contents().len() && final(self).contents() == old(self).contents().skip(j).push(chunk@)
                    && total_len(old(self).contents().skip(j)) + chunk@.len() <= old(self).cap() && forall|i: int|
                    0 <= i < j ==> total_len(#[trigger] old(self).contents().skip(i)) + chunk@.len() > old(self).cap(),
    {
        proof {
            push_keeps_the_newest_bytes(old(self).contents(), old(self).cap(), chunk@);
        }
        let ghost s0 = self.contents();
        let ghost n = chunk@.len();
        if chunk.len() > self.capacity || self.total_bytes > self.capacity - chunk.len() {
            while (chunk.len() > self.capacity || self.total_bytes > self.capacity - chunk.len()) && self.chunks.len() > 0
                invariant
                    self.total_bytes == total_len(chunk_seqs(self.chunks@)),
                    self.total_bytes <= self.capacity,
                    n == chunk@.len(),
                    drop_front(chunk_seqs(self.chunks@), n, self.capacity as nat) == drop_front(s0, n, self.capacity as nat),
                    s0 == old(self).contents(),
                    self.capacity == old(self).capacity,
                decreases self.chunks@.len(),
            {
                let ghost before = chunk_seqs(self.chunks@);
                proof {
                    lemma_concat_first(before);
                }
                let dropped = self.chunks.pop_front().unwrap();
                assert(chunk_seqs(self.chunks@) =~= before.drop_first());
                self.total_bytes = self.total_bytes - dropped.len();
            }
            if chunk.len() > self.capacity {
                let start = chunk.len() - self.capacity;
                let mut tail: Vec<u8> = Vec::new();
                let mut i = start;
                while i < chunk.len()
                    invariant
                        start <= i <= chunk@.len(),
                        tail@ == chunk@.subrange(start as int, i as int),
                    decreases chunk.len() - i,
                {
                    tail.push(chunk[i]);
                    i = i + 1;
                }
                assert(tail@ == chunk@.skip(start as int));
                assert(chunk_seqs(self.chunks@) =~= Seq::<Seq<u8>>::empty());
                let ghost before = self.chunks@;
                self.chunks.push_back(tail);
                assert(chunk_seqs(self.chunks@) =~= chunk_seqs(before).push(tail@));
                assert(concat_all(chunk_seqs(before)) =~= Seq::<u8>::empty());
                assert(chunk_seqs(self.chunks@).drop_last() =~= chunk_seqs(before));
                assert(concat_all(chunk_seqs(self.chunks@)) =~= tail@);
                self.total_bytes = self.capacity;
                return;
            }
        }
        proof {
            if total_len(s0) + n <= self.capacity {
                assert(drop_front(s0, n, self.capacity as nat) == s0);
            }
        }
        let ghost before = self.chunks@;
        self.total_bytes = self.total_bytes + chunk.len();
        self.chunks.push_back(chunk);
        assert(chunk_seqs(self.chunks@) =~= chunk_seqs(before).push(chunk@));
        assert(chunk_seqs(self.chunks@).drop_last() =~= chunk_seqs(before));
        proof {
            if chunk_seqs(before).len() == 0 {
                assert(concat_all(chunk_seqs(before)) =~= Seq::<u8>::empty());
            }
        }
    }

    /// Every line of the buffered output that contains `needle`, in
    /// arrival order with its 1-based line number, at most `max_results` of
    /// them. The chunks are decoded lossily and laid end to end before the
    /// text is split on `\n`, so a match that straddles a chunk boundary is
    /// still found. Without `case_sensitive` both sides are lowercased for
    /// the comparison; the returned text keeps its case.
    pub fn search(&self, needle: &str, case_sensitive: bool, max_results: usize) -> (r: Vec<SearchHit>)
        ensures
            hit_views(r@) == search_spec(self.contents(), needle@, case_sensitive, max_results as nat),
    {
        let ghost cs = self.contents();
        let mut joined: Vec<char> = Vec::new();
        let mut i: usize = 0;
        while i < self.chunks.len()
            invariant
                i <= self.chunks@.len(),
                cs == chunk_seqs(self.chunks@),
                joined@ == joined_text(cs.take(i as int)),
            decreases self.chunks.len() - i,
        {
            let text = chars_of(lossy(self.chunks[i].as_slice()).as_str());
            let mut j: usize = 0;
            let ghost before = joined@;
            while j < text.len()
                invariant
                    j <= text.len(),
                    joined@ == before + text@.take(j as int),
                decreases text.len() - j,
            {
                joined.push(text[j]);
                j = j + 1;
            }
            assert(text@.take(j as int) == text@);
            assert(cs.take(i + 1).drop_last() == cs.take(i as int));
            assert(cs.take(i + 1).last() == self.chunks@[i as int]@);
            i = i + 1;
        }
        assert(cs.take(i as int) == cs);
        let needle_norm: Vec<char> = if case_sensitive {
            chars_of(needle)
        } else {
            chars_of(to_lower(needle).as_str())
        };
        assert(needle_norm@ == fold_case(needle@, case_sensitive));
        let lines = split_chars(&joined, '\n');
        let ghost ls = split_seq(joined@, '\n');
        assert(ls == split_seq(joined_text(cs), '\n'));
        let mut hits: Vec<SearchHit> = Vec::new();
        let mut idx: usize = 0;
        while idx < lines.len()
            invariant
                idx <= lines@.len(),
                lines@.len() == ls.len(),
                forall|k: int| 0 <= k < lines@.len() ==> #[trigger] lines@[k]@ == ls[k],
                needle_norm@ == fold_case(needle@, case_sensitive),
                ls == split_seq(joined_text(cs), '\n'),
                cs == self.contents(),
                hit_views(hits@) == hits_upto(ls, needle@, case_sensitive, max_results as nat, idx as nat),
            decreases lines.len() - idx,
        {
            if hits.len() >= max_results {
                proof {
                    assert(hit_views(hits@).len() == hits@.len());
                    lemma_hits_saturate(ls, needle@, case_sensitive, max_results as nat, idx as nat, ls.len());
                    assert(ls == split_seq(joined_text(cs), '\n'));
                    assert(hit_views(hits@) == search_spec(cs, needle@, case_sensitive, max_results as nat));
                }
                return hits;
            }
            let raw = &lines[idx];
            assert(raw@ == ls[idx as int]);
            let line_norm: Vec<char> = if case_sensitive {
                raw.clone()
            } else {
                chars_of(to_lower(string_of(raw).as_str()).as_str())
            };
            assert(line_norm@ =~= fold_case(ls[idx as int], case_sensitive));
            if contains_chars(&line_norm, &needle_norm) {
                let ghost before = hits@;
                hits.push(SearchHit { line_number: idx + 1, text: string_of(raw) });
                assert(hits@ == before.push(hits@.last()));
                assert(hit_views(hits@) =~= hit_views(before).push(HitView { line_number: (idx + 1) as usize, text: ls[idx as int] }));
            }
            idx = idx + 1;
        }
        hits
    }

    /// The chunks held, oldest first.
    pub fn snapshot(&self) -> (r: Vec<Vec<u8>>)
        ensures
            chunk_seqs(r@) == self.contents(),
    {
        let mut r: Vec<Vec<u8>> = Vec::new();
        let mut i: usize = 0;
        while i < self.chunks.len()
            invariant
                i <= self.chunks@.len(),
                r@.len() == i,
                forall|k: int| 0 <= k < i ==> #[trigger] r@[k]@ == self.chunks@[k]@,
            decreases self.chunks.len() - i,
        {
            let c = self.chunks[i].clone();
            assert(c@ =~= self.chunks@[i as int]@);
            r.push(c);
            i = i + 1;
        }
        assert(chunk_seqs(r@) =~= chunk_seqs(self.chunks@));
        r
    }
}

} // verus!
