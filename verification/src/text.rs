//! Character-level helpers shared by the parsers and formatters: views of
//! strings as `Vec<char>`, Unicode whitespace trimming, substring search,
//! splitting, decimal formatting and integer parsing.

use vstd::prelude::*;
use vstd::std_specs::iter::IteratorSpec;

verus! {

broadcast use vstd::string::group_string_axioms;

/// Unicode `White_Space`, the property that `char::is_whitespace` and the
/// `trim` family of `str` methods test.
pub open spec fn is_ws(c: char) -> bool {
    let u = c as u32;
    (0x9 <= u && u <= 0xd) || u == 0x20 || u == 0x85 || u == 0xa0 || u == 0x1680 || (0x2000 <= u
        && u <= 0x200a) || u == 0x2028 || u == 0x2029 || u == 0x202f || u == 0x205f || u == 0x3000
}

/// `s` with trailing whitespace removed.
pub open spec fn trim_end_seq(s: Seq<char>) -> Seq<char>
    decreases s.len(),
{
    if s.len() > 0 && is_ws(s.last()) {
        trim_end_seq(s.drop_last())
    } else {
        s
    }
}

/// `s` with leading whitespace removed.
pub open spec fn trim_start_seq(s: Seq<char>) -> Seq<char>
    decreases s.len(),
{
    if s.len() > 0 && is_ws(s[0]) {
        trim_start_seq(s.drop_first())
    } else {
        s
    }
}

/// `s` with whitespace removed from both ends.
pub open spec fn trim_seq(s: Seq<char>) -> Seq<char> {
    trim_start_seq(trim_end_seq(s))
}

/// Whether `needle` occurs in `hay` as a contiguous run.
pub open spec fn contains_seq<T>(hay: Seq<T>, needle: Seq<T>) -> bool {
    exists|i: int| 0 <= i && i + needle.len() <= hay.len() && #[trigger] hay.subrange(i, i + needle.len()) == needle
}

/// `s` split on every occurrence of `sep`, as `str::split` with a `char`
/// pattern does: always at least one piece, and `k` separators give `k + 1`
/// pieces.
pub open spec fn split_seq(s: Seq<char>, sep: char) -> Seq<Seq<char>>
    decreases s.len(),
{
    if s.len() == 0 {
        seq![Seq::<char>::empty()]
    } else {
        let rest = split_seq(s.drop_last(), sep);
        if s.last() == sep {
            rest.push(Seq::<char>::empty())
        } else {
            rest.update(rest.len() - 1, rest.last().push(s.last()))
        }
    }
}

pub open spec fn digit_char(d: nat) -> char {
    if d == 0 { '0' }
    else if d == 1 { '1' }
    else if d == 2 { '2' }
    else if d == 3 { '3' }
    else if d == 4 { '4' }
    else if d == 5 { '5' }
    else if d == 6 { '6' }
    else if d == 7 { '7' }
    else if d == 8 { '8' }
    else { '9' }
}

/// Decimal digits of `n`, most significant first, without leading zeros.
pub open spec fn decimal(n: nat) -> Seq<char>
    decreases n,
{
    if n < 10 {
        seq![digit_char(n)]
    } else {
        decimal(n / 10).push(digit_char(n % 10))
    }
}

pub open spec fn is_digit(c: char) -> bool {
    '0' <= c && c <= '9'
}

pub open spec fn digit_value(c: char) -> nat {
    (c as u32 - '0' as u32) as nat
}

/// The value of a run of ASCII decimal digits.
pub open spec fn digits_value(s: Seq<char>) -> nat
    decreases s.len(),
{
    if s.len() == 0 {
        0
    } else {
        digits_value(s.drop_last()) * 10 + digit_value(s.last())
    }
}

pub open spec fn all_digits(s: Seq<char>) -> bool {
    forall|i: int| 0 <= i < s.len() ==> is_digit(#[trigger] s[i])
}

/// What `str::parse::<i32>` returns: an optional `+` or `-`, then one or
/// more ASCII digits, whose value must fit in an `i32`.
pub open spec fn parse_i32_spec(s: Seq<char>) -> Option<i32> {
    let neg = s.len() > 0 && s[0] == '-';
    let signed = s.len() > 0 && (s[0] == '-' || s[0] == '+');
    let digits = if signed { s.drop_first() } else { s };
    if digits.len() == 0 || !all_digits(digits) {
        None
    } else if neg {
        if digits_value(digits) <= 0x8000_0000 {
            Some((0 - digits_value(digits)) as i32)
        } else {
            None
        }
    } else if digits_value(digits) <= 0x7fff_ffff {
        Some(digits_value(digits) as i32)
    } else {
        None
    }
}

/// Strict lexicographic order on character sequences, by code point. This
/// is the order of `String`'s `Ord`: UTF-8 encoding preserves code-point
/// order, so comparing the bytes and comparing the characters agree.
pub open spec fn seq_lt(a: Seq<char>, b: Seq<char>) -> bool
    decreases a.len(),
{
    if a.len() == 0 {
        b.len() > 0
    } else if b.len() == 0 {
        false
    } else if a[0] < b[0] {
        true
    } else if a[0] == b[0] {
        seq_lt(a.drop_first(), b.drop_first())
    } else {
        false
    }
}

pub proof fn lemma_seq_lt_irrefl(a: Seq<char>)
    ensures
        !seq_lt(a, a),
    decreases a.len(),
{
    if a.len() > 0 {
        lemma_seq_lt_irrefl(a.drop_first());
    }
}

pub proof fn lemma_seq_lt_trans(a: Seq<char>, b: Seq<char>, c: Seq<char>)
    requires
        seq_lt(a, b),
        seq_lt(b, c),
    ensures
        seq_lt(a, c),
    decreases a.len(),
{
    if a.len() > 0 && b.len() > 0 && c.len() > 0 {
        if a[0] == b[0] && b[0] == c[0] {
            lemma_seq_lt_trans(a.drop_first(), b.drop_first(), c.drop_first());
        }
    }
}

pub proof fn lemma_seq_lt_total(a: Seq<char>, b: Seq<char>)
    ensures
        a == b || seq_lt(a, b) || seq_lt(b, a),
    decreases a.len(),
{
    if a.len() > 0 && b.len() > 0 {
        if a[0] == b[0] {
            lemma_seq_lt_total(a.drop_first(), b.drop_first());
            if a.drop_first() == b.drop_first() {
                assert(a =~= seq![a[0]] + a.drop_first());
                assert(b =~= seq![b[0]] + b.drop_first());
            }
        }
    } else if a.len() == 0 && b.len() == 0 {
        assert(a =~= b);
    }
}

pub proof fn lemma_seq_lt_asym(a: Seq<char>, b: Seq<char>)
    requires
        seq_lt(a, b),
    ensures
        !seq_lt(b, a),
{
    if seq_lt(b, a) {
        lemma_seq_lt_trans(a, b, a);
        lemma_seq_lt_irrefl(a);
    }
}

/// Whether `a` sorts strictly before `b`.
pub fn chars_less(a: &Vec<char>, b: &Vec<char>) -> (r: bool)
    ensures
        r == seq_lt(a@, b@),
{
    let mut i: usize = 0;
    assert(a@.skip(0) == a@ && b@.skip(0) == b@);
    while i < a.len() && i < b.len() && a[i] == b[i]
        invariant
            i <= a.len(),
            i <= b.len(),
            seq_lt(a@, b@) == seq_lt(a@.skip(i as int), b@.skip(i as int)),
        decreases a.len() - i,
    {
        assert(a@.skip(i as int).drop_first() == a@.skip(i + 1));
        assert(b@.skip(i as int).drop_first() == b@.skip(i + 1));
        i = i + 1;
    }
    if i == a.len() {
        i < b.len()
    } else if i == b.len() {
        false
    } else {
        a[i] < b[i]
    }
}

/// Whether `a` and `b` hold the same characters.
pub fn chars_equal(a: &Vec<char>, b: &Vec<char>) -> (r: bool)
    ensures
        r == (a@ == b@),
{
    if a.len() != b.len() {
        return false;
    }
    let mut i: usize = 0;
    while i < a.len()
        invariant
            i <= a.len(),
            a.len() == b.len(),
            forall|k: int| 0 <= k < i ==> a@[k] == b@[k],
        decreases a.len() - i,
    {
        if a[i] != b[i] {
            return false;
        }
        i = i + 1;
    }
    assert(a@ =~= b@);
    true
}

/// Appends `src` to `dst`.
pub fn append_bytes(dst: &mut Vec<u8>, src: &[u8])
    ensures
        final(dst)@ == old(dst)@ + src@,
{
    let mut i: usize = 0;
    while i < src.len()
        invariant
            i <= src@.len(),
            dst@ == old(dst)@ + src@.take(i as int),
        decreases src.len() - i,
    {
        dst.push(src[i]);
        i = i + 1;
    }
    assert(src@.take(i as int) == src@);
}

/// A copy of `b[from..to]`.
pub fn sub_bytes(b: &[u8], from: usize, to: usize) -> (r: Vec<u8>)
    requires
        from <= to <= b@.len(),
    ensures
        r@ == b@.subrange(from as int, to as int),
{
    let mut r: Vec<u8> = Vec::new();
    let mut i = from;
    while i < to
        invariant
            from <= i <= to <= b@.len(),
            r@ == b@.subrange(from as int, i as int),
        decreases to - i,
    {
        r.push(b[i]);
        i = i + 1;
    }
    r
}

/// The characters of `s`, one per element.
pub fn chars_of(s: &str) -> (v: Vec<char>)
    ensures
        v@ == s@,
{
    let mut v: Vec<char> = Vec::new();
    for c in iter: s.chars()
        invariant
            v@ == iter.seq().take(iter.index() as int),
            iter.seq() == s@,
    {
        v.push(c);
    }
    v
}


/// The string whose characters are `v`: calls `Iterator::collect` into a
/// `String`, which appends the characters in order.
#[verifier::external_body]
pub(crate) fn string_of(v: &Vec<char>) -> (s: String)
    ensures
        s@ == v@,
{
    v.iter().collect()
}

/// What `str::to_lowercase` makes of a string: the Unicode lowercase
/// mapping, which may change the length and depends on context (final
/// sigma), so it is given a name rather than written out.
pub uninterp spec fn lowercase(s: Seq<char>) -> Seq<char>;

/// `c` with an ASCII capital letter turned into the small one.
pub open spec fn ascii_lower_char(c: char) -> char {
    if 'A' <= c && c <= 'Z' {
        ((c as u32) + 32) as char
    } else {
        c
    }
}

/// Every character of `s` is ASCII.
pub open spec fn is_ascii_text(s: Seq<char>) -> bool {
    forall|i: int| 0 <= i < s.len() ==> (#[trigger] s[i] as u32) < 128
}

/// `s` in lowercase, as `str::to_lowercase` gives it: written out for
/// ASCII text, where only `A` to `Z` change, and by the name otherwise.
pub open spec fn lower_text(s: Seq<char>) -> Seq<char> {
    if is_ascii_text(s) {
        s.map_values(|c: char| ascii_lower_char(c))
    } else {
        lowercase(s)
    }
}

/// Calls `str::to_lowercase`. The Unicode lowercase mapping sends `A` to
/// `Z` to `a` to `z` and leaves every other ASCII character as it is.
#[verifier::external_body]
pub(crate) fn to_lower(s: &str) -> (r: String)
    ensures
        r@ == lowercase(s@),
        is_ascii_text(s@) ==> r@ == s@.map_values(|c: char| ascii_lower_char(c)),
{
    s.to_lowercase()
}

/// What `String::from_utf8_lossy` makes of a byte string: every maximal
/// invalid sequence becomes U+FFFD.
pub uninterp spec fn utf8_lossy(b: Seq<u8>) -> Seq<char>;

/// The text the lossy decoder gives for `b`: valid UTF-8 decoded as it
/// is, anything else with each invalid sequence replaced.
pub open spec fn lossy_text(b: Seq<u8>) -> Seq<char> {
    if vstd::utf8::valid_utf8(b) {
        vstd::utf8::decode_utf8(b)
    } else {
        utf8_lossy(b)
    }
}

/// Calls `String::from_utf8_lossy`. Its documentation promises that valid
/// UTF-8 is decoded unchanged.
#[verifier::external_body]
pub(crate) fn lossy(b: &[u8]) -> (r: String)
    ensures
        r@ == utf8_lossy(b@),
        vstd::utf8::valid_utf8(b@) ==> r@ == vstd::utf8::decode_utf8(b@),
{
    String::from_utf8_lossy(b).into_owned()
}

/// Calls `String::from_utf8`, which accepts exactly the well-formed UTF-8
/// byte strings and decodes them.
#[verifier::external_body]
pub(crate) fn utf8_decode(b: &[u8]) -> (r: Option<String>)
    ensures
        r is Some <==> vstd::utf8::valid_utf8(b@),
        r matches Some(s) ==> s@ == vstd::utf8::decode_utf8(b@),
{
    String::from_utf8(b.to_vec()).ok()
}

/// Whether `c` is Unicode whitespace.
pub fn is_whitespace(c: char) -> (r: bool)
    ensures
        r == is_ws(c),
{
    let u = c as u32;
    (0x9 <= u && u <= 0xd) || u == 0x20 || u == 0x85 || u == 0xa0 || u == 0x1680 || (0x2000 <= u
        && u <= 0x200a) || u == 0x2028 || u == 0x2029 || u == 0x202f || u == 0x205f || u == 0x3000
}

/// Length of `v` once trailing whitespace is removed.
pub fn trim_end_len(v: &Vec<char>) -> (n: usize)
    ensures
        n <= v.len(),
        v@.take(n as int) == trim_end_seq(v@),
{
    let mut i = v.len();
    assert(v@.take(i as int) == v@);
    while i > 0 && is_whitespace(v[i - 1])
        invariant
            i <= v.len(),
            trim_end_seq(v@.take(i as int)) == trim_end_seq(v@),
        decreases i,
    {
        assert(v@.take(i as int).drop_last() == v@.take(i - 1));
        i = i - 1;
    }
    i
}

/// Index of the first character of `v` that is not whitespace (or its
/// length).
pub fn trim_start_index(v: &Vec<char>) -> (n: usize)
    ensures
        n <= v.len(),
        v@.skip(n as int) == trim_start_seq(v@),
{
    let mut i: usize = 0;
    assert(v@.skip(0) == v@);
    while i < v.len() && is_whitespace(v[i])
        invariant
            i <= v.len(),
            trim_start_seq(v@.skip(i as int)) == trim_start_seq(v@),
        decreases v.len() - i,
    {
        assert(v@.skip(i as int).drop_first() == v@.skip(i + 1));
        i = i + 1;
    }
    i
}

/// A copy of `v[from..to]`.
pub fn slice_chars(v: &Vec<char>, from: usize, to: usize) -> (r: Vec<char>)
    requires
        from <= to <= v.len(),
    ensures
        r@ == v@.subrange(from as int, to as int),
{
    let mut r: Vec<char> = Vec::new();
    let mut i = from;
    while i < to
        invariant
            from <= i <= to <= v.len(),
            r@ == v@.subrange(from as int, i as int),
        decreases to - i,
    {
        r.push(v[i]);
        i = i + 1;
    }
    r
}

/// `v` with whitespace removed from both ends.
pub fn trim_chars(v: &Vec<char>) -> (r: Vec<char>)
    ensures
        r@ == trim_seq(v@),
{
    let end = trim_end_len(v);
    let head = slice_chars(v, 0, end);
    let start = trim_start_index(&head);
    slice_chars(&head, start, end)
}

/// Whether `needle` occurs in `hay`.
pub fn contains_chars(hay: &Vec<char>, needle: &Vec<char>) -> (r: bool)
    ensures
        r == contains_seq(hay@, needle@),
{
    if needle.len() > hay.len() {
        return false;
    }
    let last = hay.len() - needle.len();
    let mut i: usize = 0;
    while i <= last
        invariant
            last == hay.len() - needle.len(),
            i <= last + 1,
            forall|k: int| 0 <= k < i ==> #[trigger] hay@.subrange(k, k + needle.len()) != needle@,
        decreases last + 1 - i,
    {
        let mut j: usize = 0;
        while j < needle.len() && hay[i + j] == needle[j]
            invariant
                i <= last,
                last == hay.len() - needle.len(),
                j <= needle.len(),
                forall|t: int| 0 <= t < j ==> hay@[i + t] == needle@[t],
            decreases needle.len() - j,
        {
            j = j + 1;
        }
        if j == needle.len() {
            assert(hay@.subrange(i as int, i + needle.len()) == needle@);
            return true;
        }
        assert(hay@.subrange(i as int, i + needle.len())[j as int] != needle@[j as int]);
        i = i + 1;
    }
    proof {
        assert forall|k: int|
            0 <= k && k + needle@.len() <= hay@.len() implies #[trigger] hay@.subrange(
            k,
            k + needle@.len(),
        ) != needle@ by {
            assert(k < i);
        }
    }
    false
}

/// `v` split on every `sep`.
pub fn split_chars(v: &Vec<char>, sep: char) -> (r: Vec<Vec<char>>)
    ensures
        r@.len() == split_seq(v@, sep).len(),
        forall|k: int| 0 <= k < r@.len() ==> #[trigger] r@[k]@ == split_seq(v@, sep)[k],
{
    let mut done: Vec<Vec<char>> = Vec::new();
    let mut cur: Vec<char> = Vec::new();
    let mut i: usize = 0;
    while i < v.len()
        invariant
            i <= v.len(),
            done@.len() + 1 == split_seq(v@.take(i as int), sep).len(),
            forall|k: int| 0 <= k < done@.len() ==> #[trigger] done@[k]@ == split_seq(v@.take(i as int), sep)[k],
            cur@ == split_seq(v@.take(i as int), sep).last(),
        decreases v.len() - i,
    {
        assert(v@.take(i + 1).drop_last() == v@.take(i as int));
        if v[i] == sep {
            done.push(cur);
            cur = Vec::new();
        } else {
            cur.push(v[i]);
        }
        i = i + 1;
    }
    assert(v@.take(i as int) == v@);
    done.push(cur);
    done
}

/// Appends the decimal digits of `n` to `out`.
pub fn push_decimal(n: u64, out: &mut Vec<char>)
    ensures
        final(out)@ == old(out)@ + decimal(n as nat),
    decreases n,
{
    if n >= 10 {
        push_decimal(n / 10, out);
    }
    let d = n % 10;
    let c = if d == 0 { '0' }
        else if d == 1 { '1' }
        else if d == 2 { '2' }
        else if d == 3 { '3' }
        else if d == 4 { '4' }
        else if d == 5 { '5' }
        else if d == 6 { '6' }
        else if d == 7 { '7' }
        else if d == 8 { '8' }
        else { '9' };
    out.push(c);
}

/// The value of `digits` capped at `cap`.
proof fn lemma_capped_step(a: nat, d: nat, cap: nat)
    requires
        d < 10,
    ensures
        (if (if a < cap { a } else { cap }) * 10 + d < cap { (if a < cap { a } else { cap }) * 10 + d } else { cap })
            == (if a * 10 + d < cap { a * 10 + d } else { cap }),
{
}

/// What `str::parse::<i32>` gives for the characters `s`.
pub fn parse_i32(s: &Vec<char>) -> (r: Option<i32>)
    ensures
        r == parse_i32_spec(s@),
{
    let neg = s.len() > 0 && s[0] == '-';
    let signed = s.len() > 0 && (s[0] == '-' || s[0] == '+');
    let start: usize = if signed { 1 } else { 0 };
    let ghost digits = if signed { s@.drop_first() } else { s@ };
    if start >= s.len() {
        return None;
    }
    let cap: u64 = 0x1_0000_0000;
    let mut acc: u64 = 0;
    let mut i = start;
    while i < s.len()
        invariant
            start <= i <= s.len(),
            signed == (s@.len() > 0 && (s@[0] == '-' || s@[0] == '+')),
            neg == (s@.len() > 0 && s@[0] == '-'),
            start == (if signed { 1usize } else { 0usize }),
            digits == (if signed { s@.drop_first() } else { s@ }),
            digits == s@.skip(start as int),
            cap == 0x1_0000_0000,
            all_digits(s@.subrange(start as int, i as int)),
            acc == (if digits_value(s@.subrange(start as int, i as int)) < cap { digits_value(
                s@.subrange(start as int, i as int),
            ) } else { cap as nat }),
        decreases s.len() - i,
    {
        let c = s[i];
        if !('0' <= c && c <= '9') {
            assert(!is_digit(digits[i - start]));
            assert(!all_digits(digits));
            return None;
        }
        let d = (c as u32 - '0' as u32) as u64;
        assert(s@.subrange(start as int, i + 1).drop_last() == s@.subrange(start as int, i as int));
        proof {
            lemma_capped_step(digits_value(s@.subrange(start as int, i as int)), d as nat, cap as nat);
        }
        let next = acc * 10 + d;
        acc = if next < cap { next } else { cap };
        i = i + 1;
    }
    assert(s@.subrange(start as int, s.len() as int) == digits);
    if neg {
        if acc <= 0x8000_0000 {
            Some((0 - acc as i64) as i32)
        } else {
            None
        }
    } else if acc <= 0x7fff_ffff {
        Some(acc as i32)
    } else {
        None
    }
}


/// `str::split_whitespace` as a fold: the finished words and the word in
/// progress.
pub open spec fn words_acc(s: Seq<char>) -> (Seq<Seq<char>>, Seq<char>)
    decreases s.len(),
{
    if s.len() == 0 {
        (Seq::empty(), Seq::empty())
    } else {
        let (d, c) = words_acc(s.drop_last());
        if is_ws(s.last()) {
            if c.len() > 0 {
                (d.push(c), Seq::empty())
            } else {
                (d, c)
            }
        } else {
            (d, c.push(s.last()))
        }
    }
}

/// The maximal runs of non-whitespace characters of `s`, in order.
pub open spec fn words(s: Seq<char>) -> Seq<Seq<char>> {
    let (d, c) = words_acc(s);
    if c.len() > 0 {
        d.push(c)
    } else {
        d
    }
}

pub open spec fn char_views(v: Seq<Vec<char>>) -> Seq<Seq<char>> {
    v.map_values(|w: Vec<char>| w@)
}

/// Splits `v` into whitespace-separated words.
pub fn split_words(v: &Vec<char>) -> (r: Vec<Vec<char>>)
    ensures
        char_views(r@) == words(v@),
{
    let mut done: Vec<Vec<char>> = Vec::new();
    let mut cur: Vec<char> = Vec::new();
    let mut i: usize = 0;
    while i < v.len()
        invariant
            i <= v.len(),
            (char_views(done@), cur@) == words_acc(v@.take(i as int)),
        decreases v.len() - i,
    {
        assert(v@.take(i + 1).drop_last() == v@.take(i as int));
        assert(v@.take(i + 1).last() == v@[i as int]);
        let ghost before = done@;
        if is_whitespace(v[i]) {
            if cur.len() > 0 {
                done.push(cur);
                cur = Vec::new();
                assert(char_views(done@) =~= char_views(before).push(char_views(done@).last()));
            }
        } else {
            cur.push(v[i]);
        }
        i = i + 1;
    }
    assert(v@.take(i as int) == v@);
    if cur.len() > 0 {
        let ghost before = done@;
        done.push(cur);
        assert(char_views(done@) =~= char_views(before).push(char_views(done@).last()));
    }
    done
}

/// The words joined with single spaces, as `[&str]::join(" ")` does.
pub open spec fn join_spaced(ws: Seq<Seq<char>>) -> Seq<char>
    decreases ws.len(),
{
    if ws.len() == 0 {
        Seq::empty()
    } else if ws.len() == 1 {
        ws[0]
    } else {
        join_spaced(ws.drop_last()).push(' ') + ws.last()
    }
}

/// Joins `ws[from..]` with single spaces.
pub fn join_words(ws: &Vec<Vec<char>>, from: usize) -> (r: Vec<char>)
    requires
        from <= ws@.len(),
    ensures
        r@ == join_spaced(char_views(ws@).skip(from as int)),
{
    let ghost all = char_views(ws@).skip(from as int);
    let mut out: Vec<char> = Vec::new();
    let mut i: usize = from;
    assert(all.take(0) =~= Seq::<Seq<char>>::empty());
    while i < ws.len()
        invariant
            from <= i <= ws@.len(),
            all == char_views(ws@).skip(from as int),
            out@ == join_spaced(all.take(i - from)),
        decreases ws.len() - i,
    {
        let ghost prev = all.take(i - from);
        assert(all.take(i - from + 1).drop_last() =~= prev);
        assert(all.take(i - from + 1).last() == ws@[i as int]@);
        if i > from {
            out.push(' ');
        } else {
            assert(all.take(1) =~= seq![ws@[i as int]@]);
        }
        let w = &ws[i];
        let ghost head = out@;
        let mut j: usize = 0;
        while j < w.len()
            invariant
                j <= w@.len(),
                out@ == head + w@.take(j as int),
            decreases w.len() - j,
        {
            out.push(w[j]);
            j = j + 1;
        }
        assert(w@.take(j as int) =~= w@);
        i = i + 1;
    }
    assert(all.take(i - from) =~= all);
    out
}

/// `l` without one trailing carriage return.
pub open spec fn strip_cr(l: Seq<char>) -> Seq<char> {
    if l.len() > 0 && l.last() == '\r' {
        l.drop_last()
    } else {
        l
    }
}

/// The lines of `s`, as `str::lines` gives them: split at `\n`, each line
/// that a `\n` ends loses one `\r` before it, and a final empty piece (the
/// string ended with `\n`, or is empty) is not a line.
pub open spec fn lines_of(s: Seq<char>) -> Seq<Seq<char>> {
    let p = split_seq(s, '\n');
    Seq::new((p.len() - 1) as nat, |i: int| strip_cr(p[i])) + (if p.last().len() > 0 {
        seq![p.last()]
    } else {
        Seq::empty()
    })
}

/// The pieces laid end to end with `sep` between them.
pub open spec fn join_with(pieces: Seq<Seq<char>>, sep: char) -> Seq<char>
    decreases pieces.len(),
{
    if pieces.len() == 0 {
        Seq::empty()
    } else if pieces.len() == 1 {
        pieces[0]
    } else {
        join_with(pieces.drop_last(), sep).push(sep) + pieces.last()
    }
}

/// Splitting loses nothing and cuts at every separator: the pieces hold no
/// separator, and joined back with it they give the text again. (So the
/// text after the last separator, empty or not, is the last piece.)
pub proof fn split_pieces_rejoin(s: Seq<char>, sep: char)
    ensures
        split_seq(s, sep).len() >= 1,
        join_with(split_seq(s, sep), sep) == s,
        forall|i: int| 0 <= i < split_seq(s, sep).len() ==> !(#[trigger] split_seq(s, sep)[i]).contains(sep),
    decreases s.len(),
{
    if s.len() > 0 {
        let d = s.drop_last();
        let c = s.last();
        split_pieces_rejoin(d, sep);
        let rest = split_seq(d, sep);
        let p = split_seq(s, sep);
        if c == sep {
            assert(p == rest.push(Seq::<char>::empty()));
            assert(p.drop_last() =~= rest);
            assert(join_with(p, sep) =~= d.push(sep) + Seq::<char>::empty());
            assert(d.push(sep) =~= s);
            assert forall|i: int| 0 <= i < p.len() implies !(#[trigger] p[i]).contains(sep) by {
                if i < rest.len() {
                    assert(p[i] == rest[i]);
                }
            }
        } else {
            let n = rest.len() - 1;
            assert(p == rest.update(n, rest.last().push(c)));
            assert forall|i: int| 0 <= i < p.len() implies !(#[trigger] p[i]).contains(sep) by {
                if i < n {
                    assert(p[i] == rest[i]);
                } else {
                    assert(p[i] == rest[n].push(c));
                    assert(!rest[n].contains(sep));
                    if p[i].contains(sep) {
                        let j = choose|j: int| 0 <= j < p[i].len() && p[i][j] == sep;
                        if j < rest[n].len() {
                            assert(rest[n][j] == sep);
                        }
                    }
                }
            }
            if rest.len() == 1 {
                assert(join_with(p, sep) == p[0]);
                assert(rest[0] == d);
                assert(p[0] =~= s);
            } else {
                assert(p.drop_last() =~= rest.drop_last());
                assert(join_with(p, sep) == join_with(rest.drop_last(), sep).push(sep) + rest.last().push(c));
                assert(join_with(rest, sep) == join_with(rest.drop_last(), sep).push(sep) + rest.last());
                assert(join_with(p, sep) =~= join_with(rest, sep).push(c));
                assert(d.push(c) =~= s);
            }
        }
    }
}

proof fn lemma_split_nonempty(s: Seq<char>, sep: char)
    ensures
        split_seq(s, sep).len() >= 1,
    decreases s.len(),
{
    if s.len() > 0 {
        lemma_split_nonempty(s.drop_last(), sep);
    }
}

/// The lines of `v`.
pub fn text_lines(v: &Vec<char>) -> (r: Vec<Vec<char>>)
    ensures
        char_views(r@) == lines_of(v@),
{
    proof {
        lemma_split_nonempty(v@, '\n');
    }
    let pieces = split_chars(v, '\n');
    let ghost p = split_seq(v@, '\n');
    let n = pieces.len();
    let mut out: Vec<Vec<char>> = Vec::new();
    let mut i: usize = 0;
    while i + 1 < n
        invariant
            n == pieces@.len() == p.len() >= 1,
            i <= n - 1,
            forall|k: int| 0 <= k < pieces@.len() ==> #[trigger] pieces@[k]@ == p[k],
            char_views(out@) == Seq::new(i as nat, |k: int| strip_cr(p[k])),
        decreases n - i,
    {
        let l = &pieces[i];
        let mut line = l.clone();
        assert(line@ == l@);
        if line.len() > 0 && line[line.len() - 1] == '\r' {
            line.pop();
        }
        assert(line@ == strip_cr(p[i as int]));
        let ghost before = out@;
        let ghost lv = line@;
        out.push(line);
        assert(char_views(out@) =~= char_views(before).push(lv));
        assert(char_views(out@) =~= Seq::new((i + 1) as nat, |k: int| strip_cr(p[k])));
        i = i + 1;
    }
    let last = &pieces[n - 1];
    if last.len() > 0 {
        let ghost before = out@;
        out.push(last.clone());
        assert(char_views(out@) =~= char_views(before) + seq![p.last()]);
    } else {
        assert(char_views(out@) =~= char_views(out@) + Seq::<Seq<char>>::empty());
    }
    out
}

/// The UTF-8 length of a character.
pub open spec fn utf8_width(c: char) -> nat {
    if (c as u32) < 0x80 {
        1
    } else if (c as u32) < 0x800 {
        2
    } else if (c as u32) < 0x10000 {
        3
    } else {
        4
    }
}

/// The UTF-8 length of a string.
pub open spec fn utf8_len(s: Seq<char>) -> nat
    decreases s.len(),
{
    if s.len() == 0 {
        0
    } else {
        utf8_len(s.drop_last()) + utf8_width(s.last())
    }
}

/// The characters whose UTF-8 encoding is the first `n` bytes of that of
/// `s` (all of `s` when it is shorter), as `&s[..n.min(s.len())]` slices
/// it; `None` when byte `n` falls inside a character, where that slicing
/// panics.
pub open spec fn byte_prefix(s: Seq<char>, n: int) -> Option<Seq<char>>
    decreases s.len(),
{
    if s.len() == 0 || n <= 0 {
        Some(Seq::empty())
    } else if utf8_width(s[0]) > n {
        None
    } else {
        match byte_prefix(s.drop_first(), n - utf8_width(s[0])) {
            Some(p) => Some(seq![s[0]] + p),
            None => None,
        }
    }
}

/// `char::len_utf8`.
pub fn char_width(c: char) -> (r: usize)
    ensures
        r == utf8_width(c),
{
    let u = c as u32;
    if u < 0x80 {
        1
    } else if u < 0x800 {
        2
    } else if u < 0x10000 {
        3
    } else {
        4
    }
}

/// The prefix of `v` that fills the first `n` UTF-8 bytes.
pub fn prefix_bytes(v: &Vec<char>, n: usize) -> (r: Option<Vec<char>>)
    ensures
        match r {
            Some(p) => byte_prefix(v@, n as int) == Some(p@),
            None => byte_prefix(v@, n as int) is None,
        },
{
    let mut i: usize = 0;
    let mut rem: usize = n;
    assert(v@.take(0) =~= Seq::<char>::empty());
    assert(v@.skip(0) =~= v@);
    while i < v.len() && rem > 0
        invariant
            i <= v@.len(),
            rem <= n,
            byte_prefix(v@, n as int) == (match byte_prefix(v@.skip(i as int), rem as int) {
                Some(p) => Some(v@.take(i as int) + p),
                None => None::<Seq<char>>,
            }),
        decreases v.len() - i,
    {
        let w = char_width(v[i]);
        let ghost t = v@.skip(i as int);
        assert(t[0] == v@[i as int]);
        assert(t.drop_first() =~= v@.skip(i + 1));
        if w > rem {
            return None;
        }
        proof {
            match byte_prefix(t.drop_first(), rem - w) {
                Some(p) => {
                    assert(v@.take(i as int) + (seq![t[0]] + p) =~= v@.take(i + 1) + p);
                },
                None => {},
            }
        }
        rem = rem - w;
        i = i + 1;
    }
    let r = slice_chars(v, 0, i);
    proof {
        assert(byte_prefix(v@.skip(i as int), rem as int) == Some(Seq::<char>::empty()));
        assert(v@.take(i as int) + Seq::<char>::empty() =~= r@);
    }
    Some(r)
}

} // verus!
