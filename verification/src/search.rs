//! The per-salt work of the CREATE2 search: assembling the hashed message,
//! judging the resulting address, and rendering what is reported.

use vstd::prelude::*;
use vstd::utf8::{encode_utf8, is_ascii_chars};
use crate::bytes::{be_bytes_6, u64_to_fixed_6};
use crate::config::Config;
use crate::hexcode::{encode_hex, hex_encode_spec, lemma_hex_encode_ascii,
    lemma_hex_encode_concat, lemma_hex_encode_skip, nibble_at};
use crate::keccak::{keccak256, keccak256_digest};
use crate::text::{begins_with, push_char, starts_with};

verus! {

/// The first byte of every CREATE2 message.
pub const CONTROL_CHARACTER: u8 = 0xff;

/// The largest nonce tried after each random salt segment.
pub const MAX_INCREMENTER: u64 = 0xffffffffffff;

/// A table from reward keys (`leading * 20 + total` zero bytes) to the
/// rarity shown for an address; keys it does not hold are worth `"0"`.
pub struct Reward {
    entries: Vec<(usize, String)>,
}

/// The rarity the entries give `key`: the value of the first entry with that
/// key, or `"0"` when there is none.
pub open spec fn reward_of(entries: Seq<(usize, Seq<char>)>, key: int) -> Seq<char>
    decreases entries.len(),
{
    if entries.len() == 0 {
        "0"@
    } else if entries[0].0 == key {
        entries[0].1
    } else {
        reward_of(entries.drop_first(), key)
    }
}

/// A lookup gives the value of the first entry whose key is the requested
/// key, and `"0"` when no entry has that key: entries with other keys never
/// affect the result.
pub proof fn lemma_reward_of_first_match(entries: Seq<(usize, Seq<char>)>, key: int)
    ensures
        (forall|i: int| 0 <= i < entries.len() ==> #[trigger] entries[i].0 != key) ==> reward_of(
            entries,
            key,
        ) == "0"@,
        forall|i: int|
            0 <= i < entries.len() && #[trigger] entries[i].0 == key && (forall|j: int|
                0 <= j < i ==> entries[j].0 != key) ==> reward_of(entries, key) == entries[i].1,
    decreases entries.len(),
{
    if entries.len() > 0 {
        let rest = entries.drop_first();
        lemma_reward_of_first_match(rest, key);
        if entries[0].0 != key {
            assert forall|i: int|
                0 <= i < entries.len() && #[trigger] entries[i].0 == key && (forall|j: int|
                    0 <= j < i ==> entries[j].0 != key) implies reward_of(entries, key)
                == entries[i].1 by {
                assert(i > 0);
                assert(rest[i - 1] == entries[i]);
                assert forall|j: int| 0 <= j < i - 1 implies rest[j].0 != key by {
                    assert(rest[j] == entries[j + 1]);
                }
            }
            if forall|i: int| 0 <= i < entries.len() ==> #[trigger] entries[i].0 != key {
                assert forall|i: int| 0 <= i < rest.len() implies #[trigger] rest[i].0 != key by {
                    assert(rest[i] == entries[i + 1]);
                }
            }
        } else {
            assert forall|i: int|
                0 <= i < entries.len() && #[trigger] entries[i].0 == key && (forall|j: int|
                    0 <= j < i ==> entries[j].0 != key) implies reward_of(entries, key)
                == entries[i].1 by {
                if i > 0 {
                    assert(entries[0].0 != key);
                }
            }
        }
    }
}

/// The entries of a table, each value taken by its text.
pub open spec fn entries_view(entries: Seq<(usize, String)>) -> Seq<(usize, Seq<char>)> {
    entries.map_values(|e: (usize, String)| (e.0, e.1@))
}

impl View for Reward {
    type V = Seq<(usize, Seq<char>)>;

    closed spec fn view(&self) -> Seq<(usize, Seq<char>)> {
        entries_view(self.entries@)
    }
}

impl Reward {
    /// A table holding the given entries.
    pub fn new(entries: Vec<(usize, String)>) -> (r: Reward)
        ensures
            r@ == entries_view(entries@),
    {
        Reward { entries }
    }

    /// The rarity shown for `key`.
    pub fn get(&self, key: &usize) -> (r: String)
        ensures
            r@ == reward_of(self@, *key as int),
            (forall|i: int| 0 <= i < self@.len() ==> #[trigger] self@[i].0 != *key) ==> r@
                == "0"@,
            forall|i: int|
                0 <= i < self@.len() && #[trigger] self@[i].0 == *key && (forall|j: int|
                    0 <= j < i ==> self@[j].0 != *key) ==> r@ == self@[i].1,
    {
        proof {
            lemma_reward_of_first_match(self@, *key as int);
        }
        let ghost e = self@;
        let n = self.entries.len();
        let mut i: usize = 0;
        assert(e.skip(0) =~= e);
        while i < n
            invariant
                n == self.entries@.len(),
                e == entries_view(self.entries@),
                i <= n,
                reward_of(e, *key as int) == reward_of(e.skip(i as int), *key as int),
            decreases n - i,
        {
            assert(e.skip(i as int).drop_first() =~= e.skip(i + 1));
            assert(e.skip(i as int)[0] == e[i as int]);
            if self.entries[i].0 == *key {
                proof {
                    lemma_reward_of_first_match(e, *key as int);
                }
                return self.entries[i].1.clone();
            }
            i = i + 1;
        }
        assert(e.skip(n as int) =~= Seq::<(usize, Seq<char>)>::empty());
        proof {
            lemma_reward_of_first_match(e, *key as int);
        }
        String::from_str("0")
    }
}

/// Whether a rarity is the zero rarity `"0"`.
pub fn is_zero_reward(reward: &String) -> (r: bool)
    ensures
        r == (reward@ == "0"@),
{
    proof {
        reveal_strlit("0");
    }
    let s = reward.as_str();
    if s.unicode_len() != 1 {
        return false;
    }
    let r = s.get_char(0) == '0';
    if r {
        assert(reward@ =~= "0"@);
    }
    r
}

/// `0xff ++ factory ++ caller ++ random segment`, the 47 bytes that precede
/// the nonce segment in every message of one search round.
pub open spec fn header_bytes(factory: Seq<u8>, caller: Seq<u8>, random: Seq<u8>) -> Seq<u8> {
    seq![CONTROL_CHARACTER] + factory + caller + random
}

/// Appends the bytes of `s` to `v`.
fn extend_bytes(v: &mut Vec<u8>, s: &[u8])
    ensures
        final(v)@ == old(v)@ + s@,
{
    let mut i: usize = 0;
    while i < s.len()
        invariant
            i <= s@.len(),
            v@ == old(v)@ + s@.take(i as int),
        decreases s@.len() - i,
    {
        v.push(s[i]);
        i = i + 1;
        assert(v@ =~= old(v)@ + s@.take(i as int));
    }
    assert(s@.take(s@.len() as int) =~= s@);
}

/// header: 0xff ++ factory ++ caller ++ salt_random_segment (47 bytes)
pub fn build_header(config: &Config, salt_random_segment: &[u8; 6]) -> (header: Vec<u8>)
    ensures
        header@ == header_bytes(
            config.factory_address@,
            config.calling_address@,
            salt_random_segment@,
        ),
        header@.len() == 47,
{
    let mut header_vec: Vec<u8> = Vec::new();
    header_vec.push(CONTROL_CHARACTER);
    extend_bytes(&mut header_vec, config.factory_address.as_slice());
    extend_bytes(&mut header_vec, config.calling_address.as_slice());
    extend_bytes(&mut header_vec, salt_random_segment.as_slice());
    assert(header_vec@ =~= header_bytes(
        config.factory_address@,
        config.calling_address@,
        salt_random_segment@,
    ));
    header_vec
}

/// The Keccak-256 digest of `header ++ salt segment ++ footer` (85 bytes).
pub fn salt_digest(header: &[u8; 47], salt_segment: &[u8; 6], footer: &[u8; 32]) -> (res: [u8; 32])
    ensures
        res@ == keccak256_digest(header@ + salt_segment@ + footer@),
{
    let mut message: Vec<u8> = Vec::new();
    extend_bytes(&mut message, header.as_slice());
    extend_bytes(&mut message, salt_segment.as_slice());
    extend_bytes(&mut message, footer.as_slice());
    assert(message@ =~= header@ + salt_segment@ + footer@);
    keccak256(message.as_slice())
}

/// The address a digest names: its last 20 bytes.
pub open spec fn address_of(digest: Seq<u8>) -> Seq<u8> {
    digest.subrange(12, 32)
}

/// truncate first 12 bytes from the hash to derive address
pub fn address_from_digest(res: &[u8; 32]) -> (address: [u8; 20])
    ensures
        address@ == address_of(res@),
{
    let mut address_bytes = [0u8; 20];
    let mut i: usize = 0;
    while i < 20
        invariant
            i <= 20,
            forall|j: int| 0 <= j < i ==> address_bytes@[j] == res@[12 + j],
        decreases 20 - i,
    {
        address_bytes[i] = res[12 + i];
        i = i + 1;
    }
    assert(address_bytes@ =~= address_of(res@));
    address_bytes
}

/// The number of zero bytes in `s`.
pub open spec fn count_zero_bytes(s: Seq<u8>) -> nat
    decreases s.len(),
{
    if s.len() == 0 {
        0
    } else {
        (if s[0] == 0 {
            1nat
        } else {
            0nat
        }) + count_zero_bytes(s.drop_first())
    }
}

/// The number of zero bytes with which `s` begins.
pub open spec fn zero_run(s: Seq<u8>) -> nat
    decreases s.len(),
{
    if s.len() == 0 || s[0] != 0 {
        0
    } else {
        1 + zero_run(s.drop_first())
    }
}

/// The leading zero bytes as the search counts them: the position of the
/// first non-zero byte, and 0 when every byte is zero.
pub open spec fn leading_zero_count(s: Seq<u8>) -> nat {
    if zero_run(s) == s.len() {
        0
    } else {
        zero_run(s)
    }
}

proof fn lemma_zero_run_bounded(s: Seq<u8>)
    ensures
        zero_run(s) <= count_zero_bytes(s),
        zero_run(s) <= s.len(),
        count_zero_bytes(s) <= s.len(),
    decreases s.len(),
{
    if s.len() > 0 {
        lemma_zero_run_bounded(s.drop_first());
    }
}

/// A single byte counts as one zero byte exactly when it is 0.
pub proof fn lemma_count_zero_bytes_single(b: u8)
    ensures
        count_zero_bytes(seq![b]) == (if b == 0 {
            1nat
        } else {
            0nat
        }),
{
    assert(seq![b].drop_first() =~= Seq::<u8>::empty());
    assert(count_zero_bytes(Seq::<u8>::empty()) == 0);
}

/// The zero bytes of a concatenation are those of its parts.
pub proof fn lemma_count_zero_bytes_concat(a: Seq<u8>, b: Seq<u8>)
    ensures
        count_zero_bytes(a + b) == count_zero_bytes(a) + count_zero_bytes(b),
    decreases a.len(),
{
    if a.len() > 0 {
        assert((a + b).drop_first() =~= a.drop_first() + b);
        lemma_count_zero_bytes_concat(a.drop_first(), b);
    } else {
        assert(a + b =~= b);
    }
}

/// Bytes that are all non-zero count no zero byte; bytes that are all zero
/// count every one.
pub proof fn lemma_count_zero_bytes_extremes(s: Seq<u8>)
    ensures
        (forall|i: int| 0 <= i < s.len() ==> #[trigger] s[i] != 0) ==> count_zero_bytes(s) == 0,
        (forall|i: int| 0 <= i < s.len() ==> #[trigger] s[i] == 0) ==> count_zero_bytes(s)
            == s.len(),
    decreases s.len(),
{
    if s.len() > 0 {
        let t = s.drop_first();
        lemma_count_zero_bytes_extremes(t);
        if forall|i: int| 0 <= i < s.len() ==> #[trigger] s[i] != 0 {
            assert forall|i: int| 0 <= i < t.len() implies #[trigger] t[i] != 0 by {
                assert(t[i] == s[i + 1]);
            }
        }
        if forall|i: int| 0 <= i < s.len() ==> #[trigger] s[i] == 0 {
            assert forall|i: int| 0 <= i < t.len() implies #[trigger] t[i] == 0 by {
                assert(t[i] == s[i + 1]);
            }
        }
    }
}

proof fn lemma_zero_run_facts(s: Seq<u8>)
    ensures
        zero_run(s) <= s.len(),
        forall|j: int| 0 <= j < zero_run(s) ==> #[trigger] s[j] == 0,
        zero_run(s) < s.len() ==> s[zero_run(s) as int] != 0,
    decreases s.len(),
{
    if s.len() > 0 && s[0] == 0 {
        let t = s.drop_first();
        lemma_zero_run_facts(t);
        assert forall|j: int| 0 <= j < zero_run(s) implies #[trigger] s[j] == 0 by {
            if j > 0 {
                assert(s[j] == t[j - 1]);
            }
        }
        if zero_run(s) < s.len() {
            assert(s[zero_run(s) as int] == t[zero_run(t) as int]);
        }
    }
}

/// The leading zero count is the position of the first non-zero byte, every
/// byte before it being zero; when all bytes are zero it is 0.
pub proof fn lemma_leading_zero_count_first_nonzero(s: Seq<u8>)
    ensures
        (exists|i: int| 0 <= i < s.len() && #[trigger] s[i] != 0) ==> {
            &&& leading_zero_count(s) < s.len()
            &&& s[leading_zero_count(s) as int] != 0
            &&& forall|j: int| 0 <= j < leading_zero_count(s) ==> #[trigger] s[j] == 0
        },
        (forall|i: int| 0 <= i < s.len() ==> #[trigger] s[i] == 0) ==> leading_zero_count(s) == 0,
{
    lemma_zero_run_facts(s);
    if exists|i: int| 0 <= i < s.len() && #[trigger] s[i] != 0 {
        let i = choose|i: int| 0 <= i < s.len() && #[trigger] s[i] != 0;
        if zero_run(s) == s.len() {
            assert(s[i] == 0);
        }
    }
}

/// get the total zero bytes associated with the address
pub fn total_zero_bytes(res: &[u8; 32]) -> (total: usize)
    ensures
        total == count_zero_bytes(address_of(res@)),
        total <= 20,
        (forall|i: int| 12 <= i < 32 ==> #[trigger] res@[i] != 0) ==> total == 0,
        (forall|i: int| 12 <= i < 32 ==> #[trigger] res@[i] == 0) ==> total == 20,
{
    proof {
        let a = address_of(res@);
        lemma_count_zero_bytes_extremes(a);
        assert forall|i: int| 0 <= i < 20 implies #[trigger] a[i] == res@[12 + i] by {}
    }
    let ghost s = address_of(res@);
    let mut total: usize = 0;
    let mut i: usize = 12;
    while i < 32
        invariant
            12 <= i <= 32,
            s == address_of(res@),
            total <= i - 12,
            total + count_zero_bytes(res@.subrange(i as int, 32)) == count_zero_bytes(s),
        decreases 32 - i,
    {
        assert(res@.subrange(i as int, 32).drop_first() =~= res@.subrange(i + 1, 32));
        assert(res@.subrange(i as int, 32)[0] == res@[i as int]);
        if res[i] == 0 {
            total = total + 1;
        }
        i = i + 1;
    }
    total
}

/// get the leading zero bytes associated with the address
pub fn leading_zero_bytes(res: &[u8; 32]) -> (leading: usize)
    ensures
        leading == leading_zero_count(address_of(res@)),
        leading < 20,
        forall|j: int| 0 <= j < leading ==> #[trigger] res@[12 + j] == 0,
        (exists|i: int| 12 <= i < 32 && #[trigger] res@[i] != 0) ==> res@[12 + leading] != 0,
{
    let ghost s = address_of(res@);
    let mut i: usize = 0;
    assert(s.subrange(0, 20) =~= s);
    while i < 20 && res[12 + i] == 0
        invariant
            i <= 20,
            s == address_of(res@),
            zero_run(s) == i + zero_run(s.subrange(i as int, 20)),
        decreases 20 - i,
    {
        assert(s.subrange(i as int, 20).drop_first() =~= s.subrange(i + 1, 20));
        assert(s.subrange(i as int, 20)[0] == s[i as int]);
        i = i + 1;
    }
    if i < 20 {
        assert(s.subrange(i as int, 20)[0] == s[i as int]);
    }
    let leading: usize = if i == 20 {
        0
    } else {
        i
    };
    proof {
        lemma_leading_zero_count_first_nonzero(s);
        assert forall|j: int| 0 <= j < leading implies #[trigger] res@[12 + j] == 0 by {
            assert(s[j] == res@[12 + j]);
        }
        if exists|k: int| 12 <= k < 32 && #[trigger] res@[k] != 0 {
            let k = choose|k: int| 12 <= k < 32 && #[trigger] res@[k] != 0;
            assert(s[k - 12] != 0);
            assert(s[leading as int] == res@[12 + leading]);
        }
    }
    leading
}

/// The view of an optional string.
pub open spec fn opt_view(o: Option<String>) -> Option<Seq<char>> {
    match o {
        Some(s) => Some(s@),
        None => None,
    }
}

/// An address is efficient when more than two of its bytes are zero and the
/// rarity of its (leading, total) zero-byte counts is not `"0"`.
pub open spec fn is_efficient(address: Seq<u8>, rewards: Seq<(usize, Seq<char>)>) -> bool {
    &&& count_zero_bytes(address) > 2
    &&& reward_of(
        rewards,
        (leading_zero_count(address) * 20 + count_zero_bytes(address)) as int,
    ) != "0"@
}

/// A found address: with a prefix, its hex text starts with the prefix;
/// without one, it is efficient.
pub open spec fn candidate_matches(
    prefix: Option<Seq<char>>,
    address_hex: Seq<char>,
    address: Seq<u8>,
    rewards: Seq<(usize, Seq<char>)>,
) -> bool {
    match prefix {
        Some(p) => begins_with(address_hex, p),
        None => is_efficient(address, rewards),
    }
}

/// With a prefix, a candidate matches exactly when the prefix is an initial
/// segment of the address's hex text: no longer than it, and equal to it
/// character by character from the start.
pub proof fn lemma_prefix_is_initial_segment(
    p: Seq<char>,
    address_hex: Seq<char>,
    address: Seq<u8>,
    rewards: Seq<(usize, Seq<char>)>,
)
    ensures
        candidate_matches(Some(p), address_hex, address, rewards) <==> (p.len()
            <= address_hex.len() && forall|i: int|
            0 <= i < p.len() ==> #[trigger] address_hex[i] == p[i]),
{
    if p.len() <= address_hex.len() && forall|i: int|
        0 <= i < p.len() ==> #[trigger] address_hex[i] == p[i] {
        assert(address_hex.subrange(0, p.len() as int) =~= p);
    }
    if candidate_matches(Some(p), address_hex, address, rewards) {
        assert forall|i: int| 0 <= i < p.len() implies #[trigger] address_hex[i] == p[i] by {
            assert(address_hex.subrange(0, p.len() as int)[i] == address_hex[i]);
        }
    }
}

/// Check if the address matches the desired prefix, or, without a prefix,
/// whether it is efficient enough to report.
pub fn prefix_match(
    prefix: &Option<String>,
    address_hex_string: &String,
    res: &[u8; 32],
    rewards: &Reward,
) -> (r: bool)
    ensures
        r == candidate_matches(
            opt_view(*prefix),
            address_hex_string@,
            address_of(res@),
            rewards@,
        ),
        prefix is Some ==> (r <==> (prefix->0@.len() <= address_hex_string@.len() && forall|
            i: int,
        |
            0 <= i < prefix->0@.len() ==> #[trigger] address_hex_string@[i] == prefix->0@[i])),
        prefix is None && r ==> count_zero_bytes(address_of(res@)) > 2,
{
    proof {
        if prefix is Some {
            lemma_prefix_is_initial_segment(
                prefix->0@,
                address_hex_string@,
                address_of(res@),
                rewards@,
            );
        }
    }
    match prefix {
        Some(p) => starts_with(address_hex_string.as_str(), p.as_str()),
        None => {
            let total = total_zero_bytes(res);
            if total <= 2 {
                return false;
            }
            let leading = leading_zero_bytes(res);
            let key: usize = leading * 20 + total;
            !is_zero_reward(&rewards.get(&key))
        },
    }
}

/// The upper-case form of an ASCII letter; other characters are unchanged.
pub open spec fn ascii_upper(c: char) -> char {
    if 'a' <= c <= 'z' {
        ((c as int) - 32) as char
    } else {
        c
    }
}

/// `char::to_uppercase` on an ASCII character.
fn to_upper_ascii(c: char) -> (r: char)
    requires
        '\0' <= c <= '\u{7f}',
    ensures
        r == ascii_upper(c),
{
    if 'a' <= c && c <= 'z' {
        ((c as u8) - 32) as char
    } else {
        c
    }
}

/// The mixed-case address: `0x`, then each character of `address`, made
/// upper case where the matching hex digit of `hash` exceeds 7.
pub open spec fn checksum_spec(address: Seq<char>, hash: Seq<u8>) -> Seq<char> {
    seq!['0', 'x'] + Seq::new(
        address.len(),
        |i: int|
            if nibble_at(hash, i) > 7 {
                ascii_upper(address[i])
            } else {
                address[i]
            },
    )
}

/// compute the address checksum using the hash of the address text
pub fn checksum_address(address: &String, address_hash: &[u8; 32]) -> (r: String)
    requires
        is_ascii_chars(address@),
        address@.len() <= 64,
    ensures
        r@ == checksum_spec(address@, address_hash@),
{
    let mut checksum_address = String::from_str("0x");
    proof {
        reveal_strlit("0x");
    }
    let ghost tail = Seq::new(
        address@.len(),
        |i: int|
            if nibble_at(address_hash@, i) > 7 {
                ascii_upper(address@[i])
            } else {
                address@[i]
            },
    );
    let n = address.as_str().unicode_len();
    let mut nibble: usize = 0;
    while nibble < n
        invariant
            n == address@.len(),
            n <= 64,
            is_ascii_chars(address@),
            nibble <= n,
            tail.len() == n,
            forall|i: int| #![trigger tail[i]] 0 <= i < n ==> tail[i] == (if nibble_at(address_hash@, i) > 7 {
                ascii_upper(address@[i])
            } else {
                address@[i]
            }),
            checksum_address@ == seq!['0', 'x'] + tail.take(nibble as int),
        decreases n - nibble,
    {
        let byte = address_hash[nibble / 2];
        let hash_character: u8 = if nibble % 2 == 0 {
            byte / 16
        } else {
            byte % 16
        };
        assert(hash_character == nibble_at(address_hash@, nibble as int));
        let character = address.as_str().get_char(nibble);
        assert('\0' <= address@[nibble as int] <= '\u{7f}');
        if hash_character > 7 {
            push_char(&mut checksum_address, to_upper_ascii(character));
        } else {
            push_char(&mut checksum_address, character);
        }
        assert(tail.take(nibble + 1) =~= tail.take(nibble as int).push(tail[nibble as int]));
        nibble = nibble + 1;
    }
    assert(tail.take(n as int) =~= tail);
    checksum_address
}

/// The checksummed form of an address given by its lower-case hex text,
/// using the Keccak-256 digest of that text.
pub fn checksum_encode(address: &String) -> (r: String)
    requires
        is_ascii_chars(address@),
        address@.len() <= 64,
    ensures
        r@ == checksum_spec(address@, keccak256_digest(encode_utf8(address@))),
{
    let checksum_res = keccak256(address.as_str().as_bytes());
    checksum_address(address, &checksum_res)
}

/// get the full salt used to create the address: `0x` and the hex text of
/// the header without its first 21 bytes, then of the nonce segment
pub fn full_salt(header_vec: &Vec<u8>, salt_incremented_segment: &[u8; 6]) -> (r: String)
    requires
        header_vec@.len() >= 21,
    ensures
        r@ == seq!['0', 'x'] + hex_encode_spec(header_vec@.skip(21) + salt_incremented_segment@),
{
    let header_hex_string = encode_hex(header_vec.as_slice());
    let body_hex_string = encode_hex(salt_incremented_segment.as_slice());
    proof {
        lemma_hex_encode_ascii(header_vec@);
        lemma_hex_encode_skip(header_vec@, 21);
        lemma_hex_encode_concat(header_vec@.skip(21), salt_incremented_segment@);
        reveal_strlit("0x");
    }
    let header_len = header_hex_string.as_str().unicode_len();
    let mut salt = String::from_str("0x");
    salt.append(header_hex_string.as_str().substring_char(42, header_len));
    salt.append(body_hex_string.as_str());
    assert(salt@ =~= seq!['0', 'x'] + hex_encode_spec(
        header_vec@.skip(21) + salt_incremented_segment@,
    ));
    salt
}

/// The report line: `salt => address => rarity`.
pub open spec fn report_spec(salt: Seq<char>, address: Seq<char>, reward: Seq<char>) -> Seq<char> {
    salt + " => "@ + address + " => "@ + reward
}

/// display the salt, the address and its rarity
pub fn report_line(salt: &String, address: &String, reward: &String) -> (r: String)
    ensures
        r@ == report_spec(salt@, address@, reward@),
{
    let mut output = salt.clone();
    output.append(" => ");
    output.append(address.as_str());
    output.append(" => ");
    output.append(reward.as_str());
    output
}

/// What the search reports for a salt whose address is found.
pub struct Found {
    /// The 32-byte salt as `0x` and 64 hex digits.
    pub full_salt: String,
    /// The checksummed address.
    pub address: String,
    /// The rarity of the address's zero-byte counts.
    pub reward: String,
    /// `full_salt => address => reward`.
    pub output: String,
}

/// The report for a found address: its salt, checksummed address, rarity
/// and report line.
pub open spec fn found_spec(
    f: Found,
    header: Seq<u8>,
    salt_segment: Seq<u8>,
    address: Seq<u8>,
    rewards: Seq<(usize, Seq<char>)>,
) -> bool {
    let address_hex = hex_encode_spec(address);
    &&& f.full_salt@ == seq!['0', 'x'] + hex_encode_spec(header.skip(21) + salt_segment)
    &&& f.address@ == checksum_spec(address_hex, keccak256_digest(encode_utf8(address_hex)))
    &&& f.reward@ == reward_of(
        rewards,
        (leading_zero_count(address) * 20 + count_zero_bytes(address)) as int,
    )
    &&& f.output@ == report_spec(f.full_salt@, f.address@, f.reward@)
}

/// Judges the salt made of the header's last 26 bytes and the six-byte
/// form of `nonce`: hashes the CREATE2 message, derives the address and
/// returns the report when it matches.
pub fn evaluate_salt(
    config: &Config,
    rewards: &Reward,
    header_vec: &Vec<u8>,
    header: &[u8; 47],
    nonce: u64,
) -> (r: Option<Found>)
    requires
        header_vec@ == header@,
    ensures
        ({
            let segment = be_bytes_6(nonce);
            let address = address_of(
                keccak256_digest(header@ + segment + config.init_code_hash@),
            );
            &&& r is Some <==> candidate_matches(
                opt_view(config.prefix),
                hex_encode_spec(address),
                address,
                rewards@,
            )
            &&& r is Some ==> found_spec(r->0, header@, segment, address, rewards@)
            &&& config.prefix is None && r is Some ==> {
                &&& count_zero_bytes(address) > 2
                &&& r->0.reward@ != "0"@
            }
            &&& config.prefix is Some ==> (r is Some <==> ({
                let p = config.prefix->0@;
                let text = hex_encode_spec(address);
                p.len() <= text.len() && forall|i: int|
                    0 <= i < p.len() ==> #[trigger] text[i] == p[i]
            }))
        }),
{
    let salt_incremented_segment = u64_to_fixed_6(&nonce);
    let ghost address = address_of(
        keccak256_digest(header@ + be_bytes_6(nonce) + config.init_code_hash@),
    );
    proof {
        if config.prefix is Some {
            lemma_prefix_is_initial_segment(
                config.prefix->0@,
                hex_encode_spec(address),
                address,
                rewards@,
            );
        }
    }
    let res = salt_digest(header, &salt_incremented_segment, &config.init_code_hash);
    let address_bytes = address_from_digest(&res);
    let address_hex_string = encode_hex(address_bytes.as_slice());
    if !prefix_match(&config.prefix, &address_hex_string, &res, rewards) {
        return None;
    }
    let total = total_zero_bytes(&res);
    let leading = leading_zero_bytes(&res);
    let salt = full_salt(header_vec, &salt_incremented_segment);
    proof {
        lemma_hex_encode_ascii(address_bytes@);
    }
    let checksum = checksum_encode(&address_hex_string);
    let key: usize = leading * 20 + total;
    let reward = rewards.get(&key);
    let output = report_line(&salt, &checksum, &reward);
    Some(Found { full_salt: salt, address: checksum, reward, output })
}

/// The message hashed for a salt is the CREATE2 preimage
/// `0xff ++ factory ++ salt ++ code hash`, where the 32-byte salt is
/// `caller ++ random segment ++ nonce segment`, and the reported full salt
/// is the hex text of exactly that salt.
pub proof fn lemma_create2_message(
    factory: Seq<u8>,
    caller: Seq<u8>,
    random: Seq<u8>,
    segment: Seq<u8>,
    code_hash: Seq<u8>,
)
    requires
        factory.len() == 20,
        caller.len() == 20,
        random.len() == 6,
        segment.len() == 6,
    ensures
        ({
            let header = header_bytes(factory, caller, random);
            let salt = caller + random + segment;
            &&& salt.len() == 32
            &&& header + segment + code_hash == seq![CONTROL_CHARACTER] + factory + salt
                + code_hash
            &&& header.skip(21) + segment == salt
        }),
{
    let header = header_bytes(factory, caller, random);
    let salt = caller + random + segment;
    assert(header + segment + code_hash =~= seq![CONTROL_CHARACTER] + factory + salt + code_hash);
    assert(header.skip(21) + segment =~= salt);
}

/// The leading zero bytes counted for an address never exceed its total
/// zero bytes, so the reward key `leading * 20 + total` stays below 400.
pub proof fn lemma_leading_within_total(address: Seq<u8>)
    requires
        address.len() == 20,
    ensures
        leading_zero_count(address) <= count_zero_bytes(address),
        count_zero_bytes(address) <= 20,
        leading_zero_count(address) * 20 + count_zero_bytes(address) <= 400,
{
    lemma_zero_run_bounded(address);
}

/// The checksummed address is the address text with `0x` in front, some
/// letters made upper case and nothing else changed.
pub proof fn lemma_checksum_only_changes_case(address: Seq<char>, hash: Seq<u8>)
    ensures
        checksum_spec(address, hash).len() == address.len() + 2,
        checksum_spec(address, hash).take(2) == seq!['0', 'x'],
        forall|i: int|
            0 <= i < address.len() ==> {
                let c = #[trigger] checksum_spec(address, hash)[i + 2];
                c == address[i] || c == ascii_upper(address[i])
            },
{
    assert(checksum_spec(address, hash).take(2) =~= seq!['0', 'x']);
}

} // verus!
