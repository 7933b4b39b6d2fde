//! The search configuration and the validation of the text it is built from.

use vstd::prelude::*;
use vstd::utf8::encode_utf8;
use crate::bytes::{to_fixed_20, to_fixed_32};
use crate::hexcode::{HexError, decode_hex, decoded_bytes, hex_decode_result};
use crate::text::{
    all_hex_chars, decimal_value, has_hex_prefix, is_hex_str, parse_u32, parse_u8,
    parses_as_u32, parses_as_u8, starts_with_0x, strip_hex_prefix, unsigned_digits,
    without_prefix,
};

verus! {

/// Requires three hex-encoded arguments: the address of the contract that will
/// be calling CREATE2, the address of the caller of said contract *(assuming
/// the contract calling CREATE2 has frontrunning protection in place - if not
/// applicable to your use-case you can set it to the null address)*, and the
/// keccak-256 hash of the bytecode that is provided by the contract calling
/// CREATE2 that will be used to initialize the new contract. An additional set
/// of three optional values may be provided: a device to target for OpenCL GPU
/// search, a threshold for leading zeroes to search for, and a threshold for
/// total zeroes to search for. A further optional value is a hex prefix that
/// the found address must start with; with a prefix the thresholds are not
/// used and are zero.
#[derive(Clone)]
pub struct Config {
    pub factory_address: [u8; 20],
    pub calling_address: [u8; 20],
    pub init_code_hash: [u8; 32],
    pub gpu_device: u32,
    pub leading_zeroes_threshold: u8,
    pub total_zeroes_threshold: u8,
    pub prefix: Option<String>,
    pub leading_ones: u32,
}

/// The text of each argument.
pub open spec fn arg_views(args: Seq<String>) -> Seq<Seq<char>> {
    args.map_values(|s: String| s@)
}

/// The UTF-8 bytes of an argument once a leading `0x` is removed.
pub open spec fn arg_bytes(s: Seq<char>) -> Seq<u8> {
    encode_utf8(strip_hex_prefix(s))
}

/// The argument is hex text once a leading `0x` is removed.
pub open spec fn arg_decodes(s: Seq<char>) -> bool {
    hex_decode_result(arg_bytes(s)) is Ok
}

/// The arguments include the prefix (the eighth, after the program name,
/// the three hex values, the device and the two thresholds).
pub open spec fn has_prefix_arg(a: Seq<Seq<char>>) -> bool {
    a.len() > 7
}

/// The message of the first check that the arguments fail, in the order in
/// which `Config::new` makes them; `None` when all pass.
pub open spec fn config_failure(a: Seq<Seq<char>>) -> Option<Seq<char>> {
    if a.len() < 2 {
        Some("didn't get a factory_address argument."@)
    } else if a.len() < 3 {
        Some("didn't get a calling_address argument."@)
    } else if a.len() < 4 {
        Some("didn't get an init_code_hash argument."@)
    } else if !has_prefix_arg(a) && a.len() > 5 && !parses_as_u8(a[5]) {
        Some("invalid leading zeroes threshold value supplied."@)
    } else if !has_prefix_arg(a) && a.len() > 6 && !parses_as_u8(a[6]) {
        Some("invalid total zeroes threshold value supplied."@)
    } else if !arg_decodes(a[1]) {
        Some("could not decode factory address argument."@)
    } else if !arg_decodes(a[2]) {
        Some("could not decode calling address argument."@)
    } else if !arg_decodes(a[3]) {
        Some("could not decode initialization code hash argument."@)
    } else if decoded_bytes(arg_bytes(a[1])).len() != 20 {
        Some("invalid length for factory address argument."@)
    } else if decoded_bytes(arg_bytes(a[2])).len() != 20 {
        Some("invalid length for calling address argument."@)
    } else if decoded_bytes(arg_bytes(a[3])).len() != 32 {
        Some("invalid length for initialization code hash argument."@)
    } else if a.len() > 4 && !parses_as_u32(a[4]) {
        Some("invalid gpu device value."@)
    } else if has_prefix_arg(a) && !all_hex_chars(strip_hex_prefix(a[7])) {
        Some("prefix must contain only valid hexadecimal characters"@)
    } else {
        None
    }
}

/// The configuration that `Config::new` builds from arguments that pass all
/// checks. Without a prefix the zero-byte thresholds are the given values,
/// 7 and 5 when absent; with one they are 0.
pub open spec fn config_from_args(c: Config, a: Seq<Seq<char>>) -> bool {
    &&& c.factory_address@ == decoded_bytes(arg_bytes(a[1]))
    &&& c.calling_address@ == decoded_bytes(arg_bytes(a[2]))
    &&& c.init_code_hash@ == decoded_bytes(arg_bytes(a[3]))
    &&& c.gpu_device == (if a.len() > 4 {
        decimal_value(unsigned_digits(a[4]))
    } else {
        255
    })
    &&& (has_prefix_arg(a) ==> c.prefix is Some && c.prefix.unwrap()@ == strip_hex_prefix(a[7]))
    &&& (!has_prefix_arg(a) ==> c.prefix is None)
    &&& c.leading_zeroes_threshold == (if has_prefix_arg(a) {
        0
    } else if a.len() > 5 {
        decimal_value(unsigned_digits(a[5]))
    } else {
        7
    })
    &&& c.total_zeroes_threshold == (if has_prefix_arg(a) {
        0
    } else if a.len() > 6 {
        decimal_value(unsigned_digits(a[6]))
    } else {
        5
    })
    &&& c.leading_ones == 0
}

/// `s` with a leading `0x` removed, as an owned string.
fn strip_arg(s: &String) -> (r: String)
    ensures
        r@ == strip_hex_prefix(s@),
{
    if starts_with_0x(s.as_str()) {
        without_prefix(s.clone())
    } else {
        s.clone()
    }
}

/// Validate the provided arguments and construct the Config struct.
impl Config {
    /// Builds a configuration from the program's arguments, the first of
    /// which is the program name and is skipped.
    pub fn new(args: Vec<String>) -> (r: Result<Config, &'static str>)
        ensures
            r is Err <==> config_failure(arg_views(args@)) is Some,
            r is Err ==> r->Err_0@ == config_failure(arg_views(args@))->0,
            r is Ok ==> config_from_args(r->Ok_0, arg_views(args@)),
    {
        let ghost a = arg_views(args@);
        let n = args.len();
        if n < 2 {
            return Err("didn't get a factory_address argument.");
        }
        if n < 3 {
            return Err("didn't get a calling_address argument.");
        }
        if n < 4 {
            return Err("didn't get an init_code_hash argument.");
        }
        assert(forall|i: int| 0 <= i < n ==> a[i] == #[trigger] args@[i]@);

        // If we have a prefix, we don't need these thresholds
        let prefix_string: Option<String> = if n > 7 {
            Some(strip_arg(&args[7]))
        } else {
            None
        };

        // Only parse these if we don't have a prefix
        let (leading_zeroes_threshold, total_zeroes_threshold): (u8, u8) = if n > 7 {
            (0, 0)  // Default to 0 when using prefix
        } else {
            let leading_parsed: u8 = if n > 5 {
                match parse_u8(args[5].as_str()) {
                    Some(t) => t,
                    None => {
                        return Err("invalid leading zeroes threshold value supplied.");
                    },
                }
            } else {
                7
            };
            let total_parsed: u8 = if n > 6 {
                match parse_u8(args[6].as_str()) {
                    Some(t) => t,
                    None => {
                        return Err("invalid total zeroes threshold value supplied.");
                    },
                }
            } else {
                5
            };
            (leading_parsed, total_parsed)
        };

        // strip 0x from args if applicable
        let factory_address_string = strip_arg(&args[1]);
        let calling_address_string = strip_arg(&args[2]);
        let init_code_hash_string = strip_arg(&args[3]);

        // convert main arguments from hex string to vector of bytes
        let factory_address_vec = match decode_hex(factory_address_string.as_str().as_bytes()) {
            Ok(t) => t,
            Err(_) => {
                return Err("could not decode factory address argument.");
            },
        };
        let calling_address_vec = match decode_hex(calling_address_string.as_str().as_bytes()) {
            Ok(t) => t,
            Err(_) => {
                return Err("could not decode calling address argument.");
            },
        };
        let init_code_hash_vec = match decode_hex(init_code_hash_string.as_str().as_bytes()) {
            Ok(t) => t,
            Err(_) => {
                return Err("could not decode initialization code hash argument.");
            },
        };

        // validate length of each argument (20, 20, 32)
        if factory_address_vec.len() != 20 {
            return Err("invalid length for factory address argument.");
        }
        if calling_address_vec.len() != 20 {
            return Err("invalid length for calling address argument.");
        }
        if init_code_hash_vec.len() != 32 {
            return Err("invalid length for initialization code hash argument.");
        }

        // convert from vector to fixed array
        let factory_address = to_fixed_20(factory_address_vec);
        let calling_address = to_fixed_20(calling_address_vec);
        let init_code_hash = to_fixed_32(init_code_hash_vec);
        assert(factory_address@ =~= decoded_bytes(arg_bytes(a[1])));
        assert(calling_address@ =~= decoded_bytes(arg_bytes(a[2])));
        assert(init_code_hash@ =~= decoded_bytes(arg_bytes(a[3])));

        // the device defaults to 255, which selects the CPU
        let gpu_device: u32 = if n > 4 {
            match parse_u32(args[4].as_str()) {
                Some(t) => t,
                None => {
                    return Err("invalid gpu device value.");
                },
            }
        } else {
            255
        };

        // Validate prefix if provided
        let prefix = match prefix_string {
            Some(prefix_str) => {
                if !is_hex_str(prefix_str.as_str()) {
                    return Err("prefix must contain only valid hexadecimal characters");
                }
                Some(prefix_str)
            },
            None => None,
        };

        Ok(
            Config {
                factory_address,
                calling_address,
                init_code_hash,
                gpu_device,
                leading_zeroes_threshold,
                total_zeroes_threshold,
                prefix,
                leading_ones: 0,
            },
        )
    }
}

/// A configuration built from arguments never has both a prefix and a
/// nonzero threshold, and its prefix holds only hex digits.
pub proof fn lemma_prefix_excludes_thresholds(c: Config, a: Seq<Seq<char>>)
    requires
        config_failure(a) is None,
        config_from_args(c, a),
        c.prefix is Some,
    ensures
        c.leading_zeroes_threshold == 0,
        c.total_zeroes_threshold == 0,
        all_hex_chars(c.prefix.unwrap()@),
{
}

/// `b` placed at the right end of `n` zero bytes: a shorter `b` is padded
/// with zeros in front, a longer one keeps only its first `n` bytes.
pub open spec fn fit_right(b: Seq<u8>, n: nat) -> Seq<u8> {
    let k = if b.len() < n {
        b.len()
    } else {
        n
    };
    Seq::new((n - k) as nat, |i: int| 0u8) + b.take(k as int)
}

/// Hex text without a leading `0x`, with a `0` put in front when it has an
/// odd number of bytes.
pub open spec fn padded_hex(s: Seq<char>) -> Seq<char> {
    let t = strip_hex_prefix(s);
    if (encode_utf8(t).len() as usize) % 2 != 0 {
        seq!['0'] + t
    } else {
        t
    }
}

/// What reading `s` as an `n`-byte value gives: its padded hex decoded and
/// fitted into `n` bytes, or the decoding error.
pub open spec fn fixed_hex_result(s: Seq<char>, n: nat) -> Result<Seq<u8>, HexError> {
    match hex_decode_result(encode_utf8(padded_hex(s))) {
        Ok(b) => Ok(fit_right(b, n)),
        Err(e) => Err(e),
    }
}

/// The hex text `s` without a leading `0x`, padded to an even byte count.
fn padded_hex_text(s: &str) -> (r: String)
    ensures
        r@ == padded_hex(s@),
{
    let t: &str = if starts_with_0x(s) {
        s.substring_char(2, s.unicode_len())
    } else {
        s
    };
    assert(t@ == strip_hex_prefix(s@));
    // Ensure the string has an even length
    if t.len() % 2 != 0 {
        let mut p = String::from_str("0");
        p.append(t);
        proof {
            reveal_strlit("0");
            assert(p@ =~= seq!['0'] + t@);
        }
        p
    } else {
        String::from_str(t)
    }
}

/// Parse an address from a hex string: 20 bytes, right-aligned when the text
/// is shorter and cut to its first 20 bytes when it is longer.
pub fn parse_address(address_str: &str) -> (r: Result<[u8; 20], HexError>)
    ensures
        r is Ok ==> fixed_hex_result(address_str@, 20) == Ok::<Seq<u8>, HexError>(r->Ok_0@),
        r is Err ==> fixed_hex_result(address_str@, 20) == Err::<Seq<u8>, HexError>(r->Err_0),
{
    let text = padded_hex_text(address_str);
    let bytes = match decode_hex(text.as_str().as_bytes()) {
        Ok(b) => b,
        Err(e) => {
            return Err(e);
        },
    };
    let mut result = [0u8; 20];
    let copy_len: usize = if bytes.len() < 20 {
        bytes.len()
    } else {
        20
    };
    let start: usize = 20 - copy_len;
    let mut j: usize = 0;
    while j < copy_len
        invariant
            copy_len <= 20,
            copy_len <= bytes@.len(),
            start == 20 - copy_len,
            j <= copy_len,
            forall|i: int| 0 <= i < start ==> result@[i] == 0u8,
            forall|i: int| 0 <= i < j ==> result@[start + i] == bytes@[i],
        decreases copy_len - j,
    {
        result[start + j] = bytes[j];
        j = j + 1;
    }
    assert(result@ =~= fit_right(bytes@, 20));
    Ok(result)
}

/// Parse a hash from a hex string: 32 bytes, right-aligned when the text is
/// shorter and cut to its first 32 bytes when it is longer.
pub fn parse_hash(hash_str: &str) -> (r: Result<[u8; 32], HexError>)
    ensures
        r is Ok ==> fixed_hex_result(hash_str@, 32) == Ok::<Seq<u8>, HexError>(r->Ok_0@),
        r is Err ==> fixed_hex_result(hash_str@, 32) == Err::<Seq<u8>, HexError>(r->Err_0),
{
    let text = padded_hex_text(hash_str);
    let bytes = match decode_hex(text.as_str().as_bytes()) {
        Ok(b) => b,
        Err(e) => {
            return Err(e);
        },
    };
    let mut result = [0u8; 32];
    let copy_len: usize = if bytes.len() < 32 {
        bytes.len()
    } else {
        32
    };
    let start: usize = 32 - copy_len;
    let mut j: usize = 0;
    while j < copy_len
        invariant
            copy_len <= 32,
            copy_len <= bytes@.len(),
            start == 32 - copy_len,
            j <= copy_len,
            forall|i: int| 0 <= i < start ==> result@[i] == 0u8,
            forall|i: int| 0 <= i < j ==> result@[start + i] == bytes@[i],
        decreases copy_len - j,
    {
        result[start + j] = bytes[j];
        j = j + 1;
    }
    assert(result@ =~= fit_right(bytes@, 32));
    Ok(result)
}

/// The number an optional decimal argument gives, or `default` when the
/// argument is absent or does not parse.
pub open spec fn number_or(a: Seq<Seq<char>>, i: int, default: nat) -> nat {
    if a.len() > i && parses_as_u32(a[i]) {
        decimal_value(unsigned_digits(a[i]))
    } else {
        default
    }
}

/// The bytes an optional hex argument gives, `n` zero bytes when it is
/// absent.
pub open spec fn fixed_or_zero(a: Seq<Seq<char>>, i: int, n: nat) -> Seq<u8> {
    if a.len() > i {
        fixed_hex_result(a[i], n)->Ok_0
    } else {
        Seq::new(n, |k: int| 0u8)
    }
}

/// The first hex argument on the command line that fails to decode, in the
/// order factory address, calling address, code hash.
pub open spec fn command_line_error(a: Seq<Seq<char>>) -> Option<HexError> {
    if a.len() > 2 && fixed_hex_result(a[2], 20) is Err {
        Some(fixed_hex_result(a[2], 20)->Err_0)
    } else if a.len() > 3 && fixed_hex_result(a[3], 20) is Err {
        Some(fixed_hex_result(a[3], 20)->Err_0)
    } else if a.len() > 4 && fixed_hex_result(a[4], 32) is Err {
        Some(fixed_hex_result(a[4], 32)->Err_0)
    } else {
        None
    }
}

impl Config {
    /// Builds the configuration the command-line program uses: positional
    /// leading-ones count (default 8), factory address, calling address and
    /// code hash (default all zero), and device number (default 0); no
    /// prefix and zero thresholds. The first argument is the program name.
    pub fn from_command_line(args: &Vec<String>) -> (r: Result<Config, HexError>)
        ensures
            r is Err <==> command_line_error(arg_views(args@)) is Some,
            r is Err ==> r->Err_0 == command_line_error(arg_views(args@))->0,
            r is Ok ==> {
                let a = arg_views(args@);
                &&& r->Ok_0.leading_ones == number_or(a, 1, 8)
                &&& r->Ok_0.factory_address@ == fixed_or_zero(a, 2, 20)
                &&& r->Ok_0.calling_address@ == fixed_or_zero(a, 3, 20)
                &&& r->Ok_0.init_code_hash@ == fixed_or_zero(a, 4, 32)
                &&& r->Ok_0.gpu_device == number_or(a, 5, 0)
                &&& r->Ok_0.leading_zeroes_threshold == 0
                &&& r->Ok_0.total_zeroes_threshold == 0
                &&& r->Ok_0.prefix is None
            },
    {
        let ghost a = arg_views(args@);
        let n = args.len();
        assert(forall|i: int| 0 <= i < n ==> a[i] == #[trigger] args@[i]@);

        // the number of leading ones, 8 when absent or unreadable
        let leading_ones: u32 = if n > 1 {
            match parse_u32(args[1].as_str()) {
                Some(v) => v,
                None => 8,
            }
        } else {
            8
        };

        let factory_address: [u8; 20] = if n > 2 {
            match parse_address(args[2].as_str()) {
                Ok(v) => v,
                Err(e) => {
                    return Err(e);
                },
            }
        } else {
            [0u8; 20]
        };
        let calling_address: [u8; 20] = if n > 3 {
            match parse_address(args[3].as_str()) {
                Ok(v) => v,
                Err(e) => {
                    return Err(e);
                },
            }
        } else {
            [0u8; 20]
        };
        let init_code_hash: [u8; 32] = if n > 4 {
            match parse_hash(args[4].as_str()) {
                Ok(v) => v,
                Err(e) => {
                    return Err(e);
                },
            }
        } else {
            [0u8; 32]
        };
        let gpu_device: u32 = if n > 5 {
            match parse_u32(args[5].as_str()) {
                Some(v) => v,
                None => 0,
            }
        } else {
            0
        };
        assert(n <= 2 ==> factory_address@ =~= fixed_or_zero(a, 2, 20));
        assert(n <= 3 ==> calling_address@ =~= fixed_or_zero(a, 3, 20));
        assert(n <= 4 ==> init_code_hash@ =~= fixed_or_zero(a, 4, 32));

        Ok(
            Config {
                factory_address,
                calling_address,
                init_code_hash,
                gpu_device,
                leading_ones,
                leading_zeroes_threshold: 0,
                total_zeroes_threshold: 0,
                prefix: None,
            },
        )
    }
}

/// Reading hex text with or without a leading `0x` gives the same bytes, as
/// long as the text itself does not start with `0x`.
pub proof fn lemma_fixed_hex_ignores_0x(t: Seq<char>, n: nat)
    requires
        !has_hex_prefix(t),
    ensures
        fixed_hex_result(seq!['0', 'x'] + t, n) == fixed_hex_result(t, n),
{
    let s = seq!['0', 'x'] + t;
    assert(has_hex_prefix(s));
    assert(s.skip(2) =~= t);
}

/// The hex text of a 20-byte address or a 32-byte hash reads back as exactly
/// those bytes.
pub proof fn lemma_fixed_hex_round_trip(b: Seq<u8>)
    requires
        b.len() == 20 || b.len() == 32,
    ensures
        fixed_hex_result(crate::hexcode::hex_encode_spec(b), b.len()) == Ok::<
            Seq<u8>,
            HexError,
        >(b),
{
    let s = crate::hexcode::hex_encode_spec(b);
    crate::hexcode::lemma_hex_encode_ascii(b);
    crate::hexcode::lemma_hex_round_trip(b);
    vstd::utf8::is_ascii_chars_encode_utf8(s);
    let n1 = crate::hexcode::nibble_at(b, 1);
    assert(0 <= n1 < 16);
    assert(s[1] != 'x');
    assert(strip_hex_prefix(s) == s);
    assert(encode_utf8(s).len() == 2 * b.len());
    assert(padded_hex(s) == s);
    assert(fit_right(b, b.len()) =~= b);
}

/// Putting the digit `0` in front of some text puts its byte in front of the
/// text's UTF-8 bytes.
proof fn lemma_encode_leading_zero_digit(t: Seq<char>)
    ensures
        encode_utf8(seq!['0'] + t) == seq![48u8] + encode_utf8(t),
{
    let p = seq!['0'] + t;
    assert(p.drop_first() =~= t);
    assert(p[0] == '0');
    assert(('0' as u32) == 48u32);
    assert((48u32 & 0x7F) as u8 == 48u8) by (bit_vector);
    assert(vstd::utf8::encode_scalar(48u32) =~= seq![48u8]);
}

/// As long as the text's bytes number fewer than `usize::MAX`, reading it
/// as an address and reading it as a hash fail alike, and they fail exactly
/// when the text without its `0x` holds a byte that is not a hex digit.
pub proof fn lemma_fixed_hex_fails_on_non_hex(s: Seq<char>)
    requires
        encode_utf8(strip_hex_prefix(s)).len() < usize::MAX,
    ensures
        fixed_hex_result(s, 20) is Err <==> !crate::hexcode::all_hex_bytes(
            encode_utf8(strip_hex_prefix(s)),
        ),
        fixed_hex_result(s, 32) is Err <==> fixed_hex_result(s, 20) is Err,
{
    let t = strip_hex_prefix(s);
    let b = encode_utf8(t);
    assert((b.len() as usize) as int == b.len());
    if (b.len() as usize) % 2 != 0 {
        lemma_encode_leading_zero_digit(t);
        let pb = seq![48u8] + b;
        assert(padded_hex(s) == seq!['0'] + t);
        assert(encode_utf8(padded_hex(s)) == pb);
        assert(pb.len() % 2 == 0);
        if crate::hexcode::all_hex_bytes(b) {
            assert forall|i: int| 0 <= i < pb.len() implies crate::hexcode::is_hex_byte(
                #[trigger] pb[i],
            ) by {
                if i > 0 {
                    assert(pb[i] == b[i - 1]);
                }
            }
        } else {
            let j = choose|j: int| 0 <= j < b.len() && !crate::hexcode::is_hex_byte(b[j]);
            assert(pb[j + 1] == b[j]);
            assert(!crate::hexcode::all_hex_bytes(pb));
        }
    } else {
        assert(padded_hex(s) == t);
    }
}

} // verus!
