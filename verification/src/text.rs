//! Small string helpers: prefix tests, decimal parsing, character classes.

use vstd::prelude::*;

verus! {

/// `p` is an initial segment of `s`.
pub open spec fn begins_with(s: Seq<char>, p: Seq<char>) -> bool {
    p.len() <= s.len() && s.subrange(0, p.len() as int) == p
}

/// Tests whether `s` starts with `p`, with `str::starts_with`.
///
/// Trusted: true exactly when `p` is an initial segment of `s`, as the
/// standard library documents for a string pattern.
#[verifier::external_body]
pub(crate) fn starts_with(s: &str, p: &str) -> (r: bool)
    ensures
        r == begins_with(s@, p@),
{
    s.starts_with(p)
}

/// Appends one character with `String::push`.
///
/// Trusted: the character is added at the end, as documented.
#[verifier::external_body]
pub(crate) fn push_char(s: &mut String, c: char)
    ensures
        final(s)@ == old(s)@.push(c),
{
    s.push(c)
}

/// `c` is an ASCII decimal digit.
pub open spec fn is_decimal_digit(c: char) -> bool {
    '0' <= c <= '9'
}

/// The number written by the decimal digits `s`.
pub open spec fn decimal_value(s: Seq<char>) -> nat
    decreases s.len(),
{
    if s.len() == 0 {
        0
    } else {
        decimal_value(s.drop_last()) * 10 + ((s.last() as int) - 48) as nat
    }
}

/// The digits of an unsigned number: the text without one leading `+`.
pub open spec fn unsigned_digits(s: Seq<char>) -> Seq<char> {
    if s.len() > 0 && s[0] == '+' {
        s.drop_first()
    } else {
        s
    }
}

/// `s` is accepted by an unsigned integer's `from_str` whose largest value
/// is `max`: an optional `+` and then at least one decimal digit, the number
/// being at most `max`.
pub open spec fn parses_within(s: Seq<char>, max: nat) -> bool {
    let d = unsigned_digits(s);
    &&& d.len() > 0
    &&& forall|i: int| 0 <= i < d.len() ==> is_decimal_digit(#[trigger] d[i])
    &&& decimal_value(d) <= max
}

/// `s` is accepted by `u32`'s `from_str`.
pub open spec fn parses_as_u32(s: Seq<char>) -> bool {
    parses_within(s, u32::MAX as nat)
}

/// `s` is accepted by `u8`'s `from_str`.
pub open spec fn parses_as_u8(s: Seq<char>) -> bool {
    parses_within(s, u8::MAX as nat)
}

/// Parses an unsigned 32-bit number with `str::parse::<u32>`.
///
/// Trusted: succeeds exactly on an optional `+` followed by decimal digits
/// whose value fits, and then yields that value, as `u32::from_str_radix`
/// with radix 10 is documented; the error's kind is dropped.
#[verifier::external_body]
pub(crate) fn parse_u32(s: &str) -> (r: Option<u32>)
    ensures
        r is Some <==> parses_as_u32(s@),
        r is Some ==> r->0 == decimal_value(unsigned_digits(s@)),
{
    s.parse::<u32>().ok()
}

/// Parses an unsigned 8-bit number with `str::parse::<u8>`.
///
/// Trusted: succeeds exactly on an optional `+` followed by decimal digits
/// whose value is at most 255, and then yields that value, as
/// `u8::from_str_radix` with radix 10 is documented; the error's kind is
/// dropped.
#[verifier::external_body]
pub(crate) fn parse_u8(s: &str) -> (r: Option<u8>)
    ensures
        r is Some <==> parses_as_u8(s@),
        r is Some ==> r->0 == decimal_value(unsigned_digits(s@)),
{
    s.parse::<u8>().ok()
}

/// `c` is a hexadecimal digit in either case (`char::is_digit(16)`).
pub open spec fn is_hex_char(c: char) -> bool {
    ('0' <= c <= '9') || ('a' <= c <= 'f') || ('A' <= c <= 'F')
}

/// Every character of `s` is a hexadecimal digit.
pub open spec fn all_hex_chars(s: Seq<char>) -> bool {
    forall|i: int| 0 <= i < s.len() ==> is_hex_char(#[trigger] s[i])
}

/// Whether `c` is a digit in radix 16.
pub fn is_hex_digit(c: char) -> (r: bool)
    ensures
        r == is_hex_char(c),
{
    ('0' <= c && c <= '9') || ('a' <= c && c <= 'f') || ('A' <= c && c <= 'F')
}

/// Whether every character of `s` is a hexadecimal digit.
pub fn is_hex_str(s: &str) -> (r: bool)
    ensures
        r == all_hex_chars(s@),
{
    let n = s.unicode_len();
    let mut i: usize = 0;
    while i < n
        invariant
            n == s@.len(),
            i <= n,
            forall|j: int| 0 <= j < i ==> is_hex_char(#[trigger] s@[j]),
        decreases n - i,
    {
        if !is_hex_digit(s.get_char(i)) {
            return false;
        }
        i = i + 1;
    }
    true
}

/// Remove the `0x` prefix from a hex string: everything after its first two
/// characters, and nothing when it has no more than two.
pub fn without_prefix(string: String) -> (r: String)
    ensures
        string@.len() >= 2 ==> r@ == string@.skip(2),
        string@.len() < 2 ==> r@.len() == 0,
{
    let n = string.as_str().unicode_len();
    if n < 2 {
        return String::new();
    }
    let rest = string.as_str().substring_char(2, n);
    assert(rest@ =~= string@.skip(2));
    String::from_str(rest)
}

/// `s` begins with the two characters `0x`.
pub open spec fn has_hex_prefix(s: Seq<char>) -> bool {
    s.len() >= 2 && s[0] == '0' && s[1] == 'x'
}

/// `s` with a leading `0x` removed, if it has one.
pub open spec fn strip_hex_prefix(s: Seq<char>) -> Seq<char> {
    if has_hex_prefix(s) {
        s.skip(2)
    } else {
        s
    }
}

/// Whether `s` starts with `0x`.
pub fn starts_with_0x(s: &str) -> (r: bool)
    ensures
        r == has_hex_prefix(s@),
{
    let r = starts_with(s, "0x");
    proof {
        reveal_strlit("0x");
        if has_hex_prefix(s@) {
            assert(s@.subrange(0, 2) =~= "0x"@);
        }
        if r {
            assert(s@.subrange(0, 2)[0] == s@[0]);
            assert(s@.subrange(0, 2)[1] == s@[1]);
        }
    }
    r
}

/// Putting the `0x` prefix back in front of what `strip_hex_prefix` leaves
/// gives the original text.
pub proof fn lemma_strip_hex_prefix(s: Seq<char>)
    ensures
        has_hex_prefix(s) ==> seq!['0', 'x'] + strip_hex_prefix(s) == s,
        !has_hex_prefix(s) ==> strip_hex_prefix(s) == s,
{
    if has_hex_prefix(s) {
        assert(seq!['0', 'x'] + s.skip(2) =~= s);
    }
}

/// A character passes the prefix check exactly when it is ASCII and its
/// byte is one the hex decoder accepts as a digit.
pub proof fn lemma_hex_char_is_decoder_digit(c: char)
    ensures
        is_hex_char(c) <==> ((c as int) < 128 && crate::hexcode::is_hex_byte(c as u8)),
{
    if (c as int) < 128 {
        assert((c as u8) as int == c as int);
    }
}

/// Every character of an address's hex text passes the prefix check, so any
/// initial part of such a text is an acceptable prefix.
pub proof fn lemma_hex_text_passes_prefix_check(b: Seq<u8>)
    ensures
        all_hex_chars(crate::hexcode::hex_encode_spec(b)),
{
    let t = crate::hexcode::hex_encode_spec(b);
    assert forall|i: int| 0 <= i < t.len() implies is_hex_char(#[trigger] t[i]) by {
        let n = crate::hexcode::nibble_at(b, i);
        assert(0 <= n < 16);
    }
}

} // verus!
