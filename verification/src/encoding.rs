use vstd::prelude::*;
use vstd::utf8::{decode_utf8, valid_utf8};

verus! {

/// The character for a six-bit value in the standard Base64 alphabet
/// (`A`-`Z`, `a`-`z`, `0`-`9`, `+`, `/`).
pub open spec fn b64_char(v: int) -> char {
    if v < 26 {
        (65 + v) as char
    } else if v < 52 {
        (97 + v - 26) as char
    } else if v < 62 {
        (48 + v - 52) as char
    } else if v == 62 {
        '+'
    } else {
        '/'
    }
}

/// Standard Base64 (RFC 4648, section 4): each group of three bytes becomes four
/// characters of six bits each; a final group of one or two bytes is completed
/// with zero bits and padded with `=` to four characters.
pub open spec fn base64_standard(b: Seq<u8>) -> Seq<char>
    decreases b.len(),
{
    if b.len() == 0 {
        seq![]
    } else if b.len() == 1 {
        seq![b64_char(b[0] as int / 4), b64_char((b[0] as int % 4) * 16), '=', '=']
    } else if b.len() == 2 {
        seq![
            b64_char(b[0] as int / 4),
            b64_char((b[0] as int % 4) * 16 + b[1] as int / 16),
            b64_char((b[1] as int % 16) * 4),
            '=',
        ]
    } else {
        seq![
            b64_char(b[0] as int / 4),
            b64_char((b[0] as int % 4) * 16 + b[1] as int / 16),
            b64_char((b[1] as int % 16) * 4 + b[2] as int / 64),
            b64_char(b[2] as int % 64),
        ] + base64_standard(b.skip(3))
    }
}

/// Four characters for each started group of three bytes.
pub proof fn lemma_base64_len(b: Seq<u8>)
    ensures
        base64_standard(b).len() == 4 * ((b.len() + 2) / 3),
    decreases b.len(),
{
    if b.len() >= 3 {
        lemma_base64_len(b.skip(3));
    }
}

/// The length of the padded Base64 text of `n` bytes fits in a `usize`.
pub open spec fn encoded_len_fits_spec(n: nat) -> bool {
    (n / 3) * 4 + if n % 3 > 0 {
        4int
    } else {
        0int
    } <= usize::MAX
}

/// Whether the padded Base64 text of `n` bytes has a length that fits in a `usize`.
pub fn encoded_len_fits(n: usize) -> (b: bool)
    ensures
        b == encoded_len_fits_spec(n as nat),
{
    let chunks = n / 3;
    if chunks > (usize::MAX - 4) / 4 {
        if n % 3 > 0 {
            false
        } else {
            chunks <= usize::MAX / 4
        }
    } else {
        true
    }
}

/// Calls `base64::engine::general_purpose::STANDARD.encode`. The contract states
/// that the result is the padded standard Base64 text [`base64_standard`] of the
/// bytes; the crate panics where the encoded length overflows `usize`, which
/// `requires` excludes.
#[verifier::external_body]
pub(crate) fn encode_base64(bytes: &[u8]) -> (s: String)
    requires
        encoded_len_fits_spec(bytes@.len()),
    ensures
        s@ == base64_standard(bytes@),
{
    base64::Engine::encode(&base64::engine::general_purpose::STANDARD, bytes)
}

/// The text that `String::from_utf8_lossy` makes of `bytes`: their UTF-8
/// decoding, with each invalid sequence replaced by U+FFFD.
pub uninterp spec fn utf8_lossy(bytes: Seq<u8>) -> Seq<char>;

/// Calls `String::from_utf8_lossy` and takes the text it returns. The contract
/// names its result [`utf8_lossy`] and states that valid UTF-8 is decoded as it
/// stands; how invalid sequences are replaced is left unsaid.
#[verifier::external_body]
pub(crate) fn decode_utf8_lossy(bytes: &[u8]) -> (s: String)
    ensures
        s@ == utf8_lossy(bytes@),
        valid_utf8(bytes@) ==> s@ == decode_utf8(bytes@),
{
    String::from_utf8_lossy(bytes).into_owned()
}

} // verus!
