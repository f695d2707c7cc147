//! Bytes as text: hexadecimal, base64 and UTF-8.
use base64::Engine;
use vstd::prelude::*;
use vstd::utf8::{decode_utf8, encode_utf8, valid_utf8};

verus! {

/// The error of [`hex::decode`].
#[verifier::external_type_specification]
#[verifier::external_body]
pub struct ExFromHexError(hex::FromHexError);

/// The error of a base64 engine's `decode`.
#[verifier::external_type_specification]
#[verifier::external_body]
pub struct ExDecodeError(base64::DecodeError);

// ---------------------------------------------------------------- hexadecimal
/// The lower-case hexadecimal digit of the value `v`.
pub open spec fn hex_digit(v: nat) -> char {
    if v < 10 {
        ('0' as u32 + v) as char
    } else {
        ('a' as u32 + v - 10) as char
    }
}

/// Two lower-case hexadecimal digits for each byte, the high one first.
pub open spec fn hex_text(bytes: Seq<u8>) -> Seq<char> {
    Seq::new(
        2 * bytes.len(),
        |i: int|
            hex_digit(
                if i % 2 == 0 {
                    bytes[i / 2] as nat / 16
                } else {
                    bytes[i / 2] as nat % 16
                },
            ),
    )
}

/// The value of a hexadecimal digit of either case.
pub open spec fn hex_value(c: char) -> Option<int> {
    if '0' <= c <= '9' {
        Some(c as u32 - '0' as u32)
    } else if 'a' <= c <= 'f' {
        Some(c as u32 - 'a' as u32 + 10)
    } else if 'A' <= c <= 'F' {
        Some(c as u32 - 'A' as u32 + 10)
    } else {
        None
    }
}

/// The bytes that `text` writes in hexadecimal: none where it has an odd
/// length or holds a character that is no hexadecimal digit.
pub open spec fn hex_bytes(text: Seq<char>) -> Option<Seq<u8>> {
    if text.len() % 2 == 0 && (forall|i: int|
        0 <= i < text.len() ==> hex_value(#[trigger] text[i]) is Some) {
        Some(
            Seq::new(
                text.len() / 2,
                |i: int| (16 * hex_value(text[2 * i])->0 + hex_value(text[2 * i + 1])->0) as u8,
            ),
        )
    } else {
        None
    }
}

/// `hex::encode` writes two lower-case hexadecimal digits for each byte.
#[verifier::external_body]
pub(crate) fn hex_encode(bytes: &[u8; 32]) -> (r: String)
    ensures
        r@ == hex_text(bytes@),
{
    hex::encode(bytes)
}

/// `hex::decode` reads pairs of hexadecimal digits of either case, and fails on
/// an odd length and on any other character.
#[verifier::external_body]
pub(crate) fn hex_decode(text: &str) -> (r: Result<Vec<u8>, hex::FromHexError>)
    ensures
        match r {
            Ok(bytes) => hex_bytes(text@) == Some(bytes@),
            Err(_) => hex_bytes(text@) is None,
        },
{
    hex::decode(text)
}

/// Reading back hexadecimal text gives the bytes that were written.
pub proof fn hex_round_trip(bytes: Seq<u8>)
    ensures
        hex_bytes(hex_text(bytes)) == Some(bytes),
{
    let text = hex_text(bytes);
    assert forall|i: int| 0 <= i < text.len() implies hex_value(#[trigger] text[i]) is Some by {
        lemma_hex_digit_value(bytes[i / 2] as nat / 16);
        lemma_hex_digit_value(bytes[i / 2] as nat % 16);
    }
    assert forall|i: int| 0 <= i < bytes.len() implies hex_bytes(text)->0[i] == bytes[i] by {
        lemma_hex_digit_value(bytes[i] as nat / 16);
        lemma_hex_digit_value(bytes[i] as nat % 16);
        assert(text[2 * i] == hex_digit(bytes[i] as nat / 16));
        assert(text[2 * i + 1] == hex_digit(bytes[i] as nat % 16));
    }
    assert(hex_bytes(text)->0 =~= bytes);
}

proof fn lemma_hex_digit_value(v: nat)
    requires
        v < 16,
    ensures
        hex_value(hex_digit(v)) == Some(v as int),
{
}

// --------------------------------------------------------------------- base64
/// The character for the six bits `v` in the standard alphabet.
pub open spec fn base64_char(v: int) -> char {
    if v < 26 {
        ('A' as u32 + v) as char
    } else if v < 52 {
        ('a' as u32 + v - 26) as char
    } else if v < 62 {
        ('0' as u32 + v - 52) as char
    } else if v == 62 {
        '+'
    } else {
        '/'
    }
}

/// The byte at `j`, or zero past the end.
pub open spec fn byte_or_zero(bytes: Seq<u8>, j: int) -> int {
    if j < bytes.len() {
        bytes[j] as int
    } else {
        0
    }
}

/// The `i`-th group of six bits of `bytes`.
pub open spec fn sextet(bytes: Seq<u8>, i: int) -> int {
    let q = i / 4 * 3;
    if i % 4 == 0 {
        byte_or_zero(bytes, q) / 4
    } else if i % 4 == 1 {
        byte_or_zero(bytes, q) % 4 * 16 + byte_or_zero(bytes, q + 1) / 16
    } else if i % 4 == 2 {
        byte_or_zero(bytes, q + 1) % 16 * 4 + byte_or_zero(bytes, q + 2) / 64
    } else {
        byte_or_zero(bytes, q + 2) % 64
    }
}

/// How many characters `n` bytes take in base64.
pub open spec fn base64_len(n: int) -> int {
    (n + 2) / 3 * 4
}

/// `bytes` in standard base64, padded with `=` to whole groups of four.
pub open spec fn base64_text(bytes: Seq<u8>) -> Seq<char> {
    Seq::new(
        base64_len(bytes.len() as int) as nat,
        |i: int|
            if 6 * i < 8 * bytes.len() {
                base64_char(sextet(bytes, i))
            } else {
                '='
            },
    )
}

/// The bytes whose standard base64 form is `text`, if there are any.
pub open spec fn base64_bytes(text: Seq<char>) -> Option<Seq<u8>> {
    if exists|bytes: Seq<u8>| base64_text(bytes) == text {
        Some(choose|bytes: Seq<u8>| base64_text(bytes) == text)
    } else {
        None
    }
}

/// The standard engine's `encode` writes padded base64. It panics where the
/// length of the text does not fit in `usize`.
#[verifier::external_body]
pub(crate) fn base64_encode(bytes: &[u8]) -> (r: String)
    requires
        base64_len(bytes@.len() as int) <= usize::MAX,
    ensures
        r@ == base64_text(bytes@),
{
    base64::engine::general_purpose::STANDARD.encode(bytes)
}

/// The standard engine's `decode` accepts exactly the padded base64 forms of
/// byte sequences: it refuses characters outside the alphabet, missing or
/// misplaced padding, and a last character with unused bits set.
#[verifier::external_body]
pub(crate) fn base64_decode(text: &str) -> (r: Result<Vec<u8>, base64::DecodeError>)
    ensures
        match r {
            Ok(bytes) => base64_text(bytes@) == text@,
            Err(_) => forall|bytes: Seq<u8>| #[trigger] base64_text(bytes) != text@,
        },
{
    base64::engine::general_purpose::STANDARD.decode(text.as_bytes())
}

proof fn lemma_base64_text(bytes: Seq<u8>)
    ensures
        base64_text(bytes).len() == base64_len(bytes.len() as int),
        forall|i: int|
            0 <= i < base64_len(bytes.len() as int) ==> #[trigger] base64_text(bytes)[i] == (if 6 * i
                < 8 * bytes.len() {
                base64_char(sextet(bytes, i))
            } else {
                '='
            }),
{
    assert(base64_len(bytes.len() as int) >= 0);
}

proof fn lemma_sextet_range(bytes: Seq<u8>, i: int)
    requires
        0 <= i,
    ensures
        0 <= sextet(bytes, i) < 64,
{
}

proof fn lemma_base64_char_injective(v: int, w: int)
    requires
        0 <= v < 64,
        0 <= w < 64,
        base64_char(v) == base64_char(w),
    ensures
        v == w,
        base64_char(v) != '=',
{
}

/// Different byte sequences have different base64 forms.
pub proof fn base64_is_injective(a: Seq<u8>, b: Seq<u8>)
    requires
        base64_text(a) == base64_text(b),
    ensures
        a == b,
{
    lemma_base64_text(a);
    lemma_base64_text(b);
    lemma_base64_same_len(a, b);
    lemma_base64_same_len(b, a);
    assert forall|j: int| 0 <= j < a.len() implies a[j] == b[j] by {
        let k = j / 3 * 4;
        let m = j % 3;
        assert(6 * (k + m) < 8 * a.len());
        assert(6 * (k + m + 1) < 8 * a.len());
        assert(k + m + 1 < base64_len(a.len() as int));
        assert(base64_text(a)[k + m] == base64_char(sextet(a, k + m)));
        assert(base64_text(b)[k + m] == base64_char(sextet(b, k + m)));
        assert(base64_text(a)[k + m + 1] == base64_char(sextet(a, k + m + 1)));
        assert(base64_text(b)[k + m + 1] == base64_char(sextet(b, k + m + 1)));
        lemma_sextet_range(a, k + m);
        lemma_sextet_range(b, k + m);
        lemma_sextet_range(a, k + m + 1);
        lemma_sextet_range(b, k + m + 1);
        lemma_base64_char_injective(sextet(a, k + m), sextet(b, k + m));
        lemma_base64_char_injective(sextet(a, k + m + 1), sextet(b, k + m + 1));
        assert((k + m) / 4 * 3 + m == j);
        assert((k + m + 1) / 4 * 3 + m == j);
    }
    assert(a =~= b);
}

proof fn lemma_base64_same_len(a: Seq<u8>, b: Seq<u8>)
    requires
        base64_text(a) == base64_text(b),
    ensures
        a.len() >= b.len(),
{
    lemma_base64_text(a);
    lemma_base64_text(b);
    if a.len() < b.len() {
        assert(base64_len(a.len() as int) == base64_len(b.len() as int));
        let i: int = (4 * a.len() + 2) as int / 3;
        assert(8 * a.len() <= 6 * i < 8 * b.len());
        assert(0 <= i < base64_len(b.len() as int));
        assert(base64_text(a)[i] == '=');
        lemma_sextet_range(b, i);
        lemma_base64_char_injective(sextet(b, i), sextet(b, i));
        assert(false);
    }
}

/// Reading back base64 text gives the bytes that were written.
pub proof fn base64_round_trip(bytes: Seq<u8>)
    ensures
        base64_bytes(base64_text(bytes)) == Some(bytes),
{
    let back = choose|b: Seq<u8>| base64_text(b) == base64_text(bytes);
    base64_is_injective(back, bytes);
}

/// Reads base64 text. What it stands for is never so long that it could not be
/// written in base64 again.
pub fn read_base64(text: &str) -> (r: Option<Vec<u8>>)
    ensures
        match r {
            Some(bytes) => base64_bytes(text@) == Some(bytes@),
            None => base64_bytes(text@) is None,
        },
        r matches Some(bytes) ==> base64_len(bytes@.len() as int) <= usize::MAX,
{
    let len: usize = text.as_bytes().len();
    assert(text@.len() <= len) by {
        utf8_len_at_least(text@);
    }
    match base64_decode(text) {
        Ok(bytes) => {
            proof {
                lemma_base64_text(bytes@);
                base64_round_trip(bytes@);
            }
            Some(bytes)
        },
        Err(_) => None,
    }
}

// ---------------------------------------------------------------------- UTF-8
/// The text that `String::from_utf8_lossy` makes of bytes that are not UTF-8.
pub uninterp spec fn utf8_repaired(bytes: Seq<u8>) -> Seq<char>;

/// `bytes` read as UTF-8, repaired where they are not valid.
pub open spec fn lossy_text(bytes: Seq<u8>) -> Seq<char> {
    if valid_utf8(bytes) {
        decode_utf8(bytes)
    } else {
        utf8_repaired(bytes)
    }
}

/// `String::from_utf8_lossy` gives the text that valid UTF-8 encodes. What is
/// not valid it replaces with U+FFFD; which runs share one replacement
/// character is left to the name.
#[verifier::external_body]
pub(crate) fn text_lossy(bytes: &[u8]) -> (r: String)
    ensures
        valid_utf8(bytes@) ==> r@ == decode_utf8(bytes@),
        !valid_utf8(bytes@) ==> r@ == utf8_repaired(bytes@),
{
    String::from_utf8_lossy(bytes).to_string()
}

/// Reading back the UTF-8 form of a text gives the text.
pub proof fn utf8_round_trip(text: Seq<char>)
    ensures
        valid_utf8(encode_utf8(text)),
        decode_utf8(encode_utf8(text)) == text,
        lossy_text(encode_utf8(text)) == text,
{
    vstd::utf8::encode_utf8_valid_utf8(text);
    vstd::utf8::encode_utf8_decode_utf8(text);
}

/// Bytes that are not UTF-8 are repaired as a whole.
pub proof fn invalid_text_is_repaired_whole(bytes: Seq<u8>)
    requires
        !valid_utf8(bytes),
    ensures
        lossy_text(bytes) == utf8_repaired(bytes),
{
}

/// A text takes at most four bytes a character.
pub proof fn utf8_len_bound(text: Seq<char>)
    ensures
        encode_utf8(text).len() <= 4 * text.len(),
    decreases text.len(),
{
    if text.len() > 0 {
        utf8_len_bound(text.drop_first());
    }
}

/// A text takes at least one byte a character.
pub proof fn utf8_len_at_least(text: Seq<char>)
    ensures
        text.len() <= encode_utf8(text).len(),
    decreases text.len(),
{
    if text.len() > 0 {
        utf8_len_at_least(text.drop_first());
    }
}

/// `String::from_utf8` takes exactly the byte vectors that are valid UTF-8.
#[verifier::external_body]
pub(crate) fn text_strict(bytes: Vec<u8>) -> (r: Option<String>)
    ensures
        match r {
            Some(text) => valid_utf8(bytes@) && text@ == decode_utf8(bytes@),
            None => !valid_utf8(bytes@),
        },
{
    String::from_utf8(bytes).ok()
}

} // verus!
