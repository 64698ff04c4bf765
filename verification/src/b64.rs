//! Standard base64 (RFC 4648 alphabet, with padding), the text form in
//! which session bytes and frame pixels cross the JSON boundaries.

use vstd::prelude::*;
use base64::Engine;

verus! {

/// The character of the standard alphabet (RFC 4648, section 4) for a
/// 6-bit value.
pub open spec fn b64_char(v: int) -> char {
    if v < 26 {
        (65 + v) as char
    } else if v < 52 {
        (71 + v) as char
    } else if v < 62 {
        (v - 4) as char
    } else if v == 62 {
        '+'
    } else {
        '/'
    }
}

/// The standard, padded base64 text of `bytes`: every group of three bytes
/// becomes four characters of six bits each, and a last group of one or
/// two bytes is filled with zero bits and padded with `=` to four
/// characters.
pub open spec fn base64_standard(bytes: Seq<u8>) -> Seq<char>
    decreases bytes.len(),
{
    if bytes.len() == 0 {
        Seq::empty()
    } else if bytes.len() == 1 {
        let a = bytes[0] as int;
        seq![b64_char(a / 4), b64_char((a % 4) * 16), '=', '=']
    } else if bytes.len() == 2 {
        let a = bytes[0] as int;
        let b = bytes[1] as int;
        seq![b64_char(a / 4), b64_char((a % 4) * 16 + b / 16), b64_char((b % 16) * 4), '=']
    } else {
        let a = bytes[0] as int;
        let b = bytes[1] as int;
        let c = bytes[2] as int;
        seq![b64_char(a / 4), b64_char((a % 4) * 16 + b / 16), b64_char((b % 16) * 4 + c / 64), b64_char(c % 64)]
            + base64_standard(bytes.skip(3))
    }
}

/// The bytes that the standard, padded base64 text `text` encodes, if it is
/// such a text.
pub uninterp spec fn base64_decoded(text: Seq<char>) -> Option<Seq<u8>>;

/// Inputs short enough that the encoded length fits in a `usize`; on
/// longer ones the encoder panics.
pub open spec fn encodable(n: nat) -> bool {
    (n / 3 + 1) * 4 <= usize::MAX
}

proof fn lemma_base64_len(b: Seq<u8>)
    ensures
        base64_standard(b).len() == (b.len() + 2) / 3 * 4,
    decreases b.len(),
{
    if b.len() >= 3 {
        lemma_base64_len(b.skip(3));
    }
}

/// Calls `base64::engine::general_purpose::STANDARD.encode`: the standard
/// alphabet with `=` padding, four characters for every started group of
/// three bytes.
#[verifier::external_body]
fn standard_encode(bytes: &[u8]) -> (r: String)
    requires
        encodable(bytes@.len()),
    ensures
        r@ == base64_standard(bytes@),
{
    base64::engine::general_purpose::STANDARD.encode(bytes)
}

/// Calls `base64::engine::general_purpose::STANDARD.decode`. It undoes the
/// encoder: the encoding of some bytes decodes to exactly those bytes.
#[verifier::external_body]
fn standard_decode(text: &str) -> (r: Option<Vec<u8>>)
    ensures
        match r {
            Some(b) => base64_decoded(text@) == Some(b@),
            None => base64_decoded(text@) is None,
        },
        forall|b: Seq<u8>| #[trigger] base64_standard(b) == text@ ==> r is Some && r->Some_0@ == b,
{
    base64::engine::general_purpose::STANDARD.decode(text).ok()
}

/// The base64 text of `data`.
pub fn base64_encode(data: &[u8]) -> (r: String)
    requires
        encodable(data@.len()),
    ensures
        r@ == base64_standard(data@),
        r@.len() == (data@.len() + 2) / 3 * 4,
{
    proof {
        lemma_base64_len(data@);
    }
    standard_encode(data)
}

/// The bytes that `text` encodes; `None` when it is not standard base64.
/// Decoding what [`base64_encode`] produced gives the bytes back.
pub fn base64_decode(text: &str) -> (r: Option<Vec<u8>>)
    ensures
        match r {
            Some(b) => base64_decoded(text@) == Some(b@),
            None => base64_decoded(text@) is None,
        },
        forall|b: Seq<u8>| #[trigger] base64_standard(b) == text@ ==> r is Some && r->Some_0@ == b,
{
    standard_decode(text)
}

} // verus!
