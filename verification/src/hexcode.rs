//! Hexadecimal encoding and decoding, delegated to the `hex` crate.
//!
//! The contracts follow the crate's source: decoding works on the UTF-8
//! bytes of its input, rejects an odd number of bytes first, and otherwise
//! reports the first byte that is not a hex digit.

use vstd::prelude::*;

verus! {

/// Why a hex string could not be decoded; mirrors the `hex` crate's error.
#[derive(Debug, Clone, Copy, PartialEq, Eq)]
pub enum HexError {
    /// A byte that is not `0-9`, `a-f` or `A-F`, with its position.
    InvalidHexCharacter { c: char, index: usize },
    /// The input has an odd number of bytes.
    OddLength,
    /// A fixed-size target did not match the input length.
    InvalidStringLength,
}

/// `b` is the ASCII code of a hexadecimal digit.
pub open spec fn is_hex_byte(b: u8) -> bool {
    (48 <= b <= 57) || (97 <= b <= 102) || (65 <= b <= 70)
}

/// The value of a hexadecimal digit given by its ASCII code.
pub open spec fn hex_byte_value(b: u8) -> int {
    if 48 <= b <= 57 {
        b - 48
    } else if 97 <= b <= 102 {
        b - 87
    } else {
        b - 55
    }
}

/// Every byte of `s` is a hexadecimal digit.
pub open spec fn all_hex_bytes(s: Seq<u8>) -> bool {
    forall|i: int| 0 <= i < s.len() ==> is_hex_byte(#[trigger] s[i])
}

/// The position of the first byte of `s` that is not a hexadecimal digit.
pub open spec fn first_non_hex(s: Seq<u8>) -> int {
    choose|i: int|
        0 <= i < s.len() && !is_hex_byte(s[i]) && forall|j: int|
            0 <= j < i ==> is_hex_byte(#[trigger] s[j])
}

/// Bytes denoted by pairs of hex digits, the first digit of each pair being
/// the high nibble.
pub open spec fn decoded_bytes(s: Seq<u8>) -> Seq<u8> {
    Seq::new(
        s.len() / 2,
        |k: int| (hex_byte_value(s[2 * k]) * 16 + hex_byte_value(s[2 * k + 1])) as u8,
    )
}

/// What decoding the hex text `s` (given as bytes) yields.
pub open spec fn hex_decode_result(s: Seq<u8>) -> Result<Seq<u8>, HexError> {
    if s.len() % 2 != 0 {
        Err(HexError::OddLength)
    } else if all_hex_bytes(s) {
        Ok(decoded_bytes(s))
    } else {
        Err(
            HexError::InvalidHexCharacter {
                c: s[first_non_hex(s)] as char,
                index: first_non_hex(s) as usize,
            },
        )
    }
}

/// The lower-case hexadecimal digit for `n` (`0 <= n < 16`).
pub open spec fn hex_digit_char(n: int) -> char {
    if n < 10 {
        (48 + n) as char
    } else {
        (87 + n) as char
    }
}

/// The high nibble of byte `k / 2` of `b` at even positions, the low nibble
/// at odd positions.
pub open spec fn nibble_at(b: Seq<u8>, i: int) -> int {
    if i % 2 == 0 {
        b[i / 2] as int / 16
    } else {
        b[i / 2] as int % 16
    }
}

/// Lower-case hex text of `b`: two digits per byte, high nibble first.
pub open spec fn hex_encode_spec(b: Seq<u8>) -> Seq<char> {
    Seq::new(2 * b.len(), |i: int| hex_digit_char(nibble_at(b, i)))
}

/// Decodes hex text given as bytes with `hex::decode`.
///
/// Trusted: the result is what `hex_decode_result` says, as `hex`'s
/// `FromHex for Vec<u8>` shows: odd length is refused first, then the bytes
/// are read in pairs and the first byte that is not a hex digit is reported.
#[verifier::external_body]
pub(crate) fn decode_hex(data: &[u8]) -> (r: Result<Vec<u8>, HexError>)
    ensures
        r is Ok ==> hex_decode_result(data@) == Ok::<Seq<u8>, HexError>(r->Ok_0@),
        r is Err ==> hex_decode_result(data@) == Err::<Seq<u8>, HexError>(r->Err_0),
{
    match hex::decode(data) {
        Ok(v) => Ok(v),
        Err(hex::FromHexError::InvalidHexCharacter { c, index }) => Err(
            HexError::InvalidHexCharacter { c, index },
        ),
        Err(hex::FromHexError::OddLength) => Err(HexError::OddLength),
        Err(hex::FromHexError::InvalidStringLength) => Err(HexError::InvalidStringLength),
    }
}

/// Encodes bytes as lower-case hex text with `hex::encode`.
///
/// Trusted: two lower-case digits per byte, high nibble first, as the
/// crate's `write_hex` with the table `0123456789abcdef` writes them.
#[verifier::external_body]
pub(crate) fn encode_hex(data: &[u8]) -> (r: String)
    ensures
        r@ == hex_encode_spec(data@),
{
    hex::encode(data)
}

/// Hex text is plain ASCII.
pub proof fn lemma_hex_encode_ascii(b: Seq<u8>)
    ensures
        vstd::utf8::is_ascii_chars(hex_encode_spec(b)),
        hex_encode_spec(b).len() == 2 * b.len(),
{
    let s = hex_encode_spec(b);
    assert forall|i: int| 0 <= i < s.len() implies '\0' <= #[trigger] s[i] <= '\u{7f}' by {
        let n = nibble_at(b, i);
        assert(0 <= n < 16);
    }
}

/// The hex text of a concatenation is the concatenation of the hex texts.
pub proof fn lemma_hex_encode_concat(a: Seq<u8>, b: Seq<u8>)
    ensures
        hex_encode_spec(a + b) == hex_encode_spec(a) + hex_encode_spec(b),
{
    let l = hex_encode_spec(a + b);
    let r = hex_encode_spec(a) + hex_encode_spec(b);
    assert forall|i: int| 0 <= i < l.len() implies l[i] == r[i] by {
        if i < 2 * a.len() {
            assert(nibble_at(a + b, i) == nibble_at(a, i));
        } else {
            let j = i - 2 * a.len();
            assert(i / 2 == a.len() + j / 2);
            assert(i % 2 == j % 2);
            assert(nibble_at(a + b, i) == nibble_at(b, j));
        }
    }
    assert(l =~= r);
}

/// Dropping the first `k` bytes drops the first `2k` hex digits.
pub proof fn lemma_hex_encode_skip(b: Seq<u8>, k: int)
    requires
        0 <= k <= b.len(),
    ensures
        hex_encode_spec(b).skip(2 * k) == hex_encode_spec(b.skip(k)),
{
    assert(b =~= b.take(k) + b.skip(k));
    lemma_hex_encode_concat(b.take(k), b.skip(k));
    assert(hex_encode_spec(b).skip(2 * k) =~= hex_encode_spec(b.skip(k)));
}

/// Decoding the hex text of some bytes gives those bytes back.
pub proof fn lemma_hex_round_trip(b: Seq<u8>)
    ensures
        hex_decode_result(vstd::utf8::encode_utf8(hex_encode_spec(b))) == Ok::<
            Seq<u8>,
            HexError,
        >(b),
{
    let s = hex_encode_spec(b);
    lemma_hex_encode_ascii(b);
    vstd::utf8::is_ascii_chars_encode_utf8(s);
    let bytes = vstd::utf8::encode_utf8(s);
    assert forall|i: int| 0 <= i < bytes.len() implies is_hex_byte(#[trigger] bytes[i])
        && hex_byte_value(bytes[i]) == nibble_at(b, i) by {
        assert(s[i] as u8 == bytes[i]);
        let n = nibble_at(b, i);
        assert(0 <= n < 16);
    }
    assert forall|k: int| 0 <= k < b.len() implies #[trigger] decoded_bytes(bytes)[k] == b[k] by {
        assert(hex_byte_value(bytes[2 * k]) == nibble_at(b, 2 * k));
        assert(hex_byte_value(bytes[2 * k + 1]) == nibble_at(b, 2 * k + 1));
        assert((2 * k) / 2 == k);
        assert((2 * k + 1) / 2 == k);
        assert((2 * k) % 2 == 0);
        assert((2 * k + 1) % 2 == 1);
    }
    assert(decoded_bytes(bytes) =~= b);
}

} // verus!
