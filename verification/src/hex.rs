//! The hex-string boundary: addresses and hashes arrive as `0x`-prefixed
//! strings and leave as such; malformed encodings are rejected before they
//! reach the store.
use vstd::prelude::*;

use crate::errors::EvmError;
use crate::values::{Address, Hash256};

verus! {

pub open spec fn is_hex_digit(c: char) -> bool {
    ('0' <= c && c <= '9') || ('a' <= c && c <= 'f') || ('A' <= c && c <= 'F')
}

/// The value of one hex digit.
pub open spec fn hex_val(c: char) -> int {
    if '0' <= c && c <= '9' {
        c as int - '0' as int
    } else if 'a' <= c && c <= 'f' {
        10 + c as int - 'a' as int
    } else if 'A' <= c && c <= 'F' {
        10 + c as int - 'A' as int
    } else {
        0
    }
}

/// The value of a big-endian sequence of hex digits.
pub open spec fn hex_seq_val(s: Seq<char>) -> int
    decreases s.len(),
{
    if s.len() == 0 {
        0
    } else {
        hex_seq_val(s.drop_last()) * 16 + hex_val(s.last())
    }
}

pub open spec fn all_hex(s: Seq<char>) -> bool {
    forall|i: int| 0 <= i < s.len() ==> is_hex_digit(#[trigger] s[i])
}

/// 16 to the n-th power.
pub open spec fn pow16(n: nat) -> int
    decreases n,
{
    if n == 0 {
        1
    } else {
        16 * pow16((n - 1) as nat)
    }
}

pub proof fn lemma_pow16_pos(n: nat)
    ensures
        pow16(n) >= 1,
    decreases n,
{
    if n > 0 {
        lemma_pow16_pos((n - 1) as nat);
    }
}

pub proof fn lemma_pow16_mono(a: nat, b: nat)
    requires
        a <= b,
    ensures
        pow16(a) <= pow16(b),
    decreases b,
{
    if a < b {
        lemma_pow16_mono(a, (b - 1) as nat);
        lemma_pow16_pos((b - 1) as nat);
    }
}

pub proof fn lemma_pow16_32()
    ensures
        pow16(8) == 0x1_0000_0000,
        pow16(32) == 0x1_0000_0000_0000_0000_0000_0000_0000_0000,
{
    assert(pow16(0) == 1);
    assert(pow16(1) == 16);
    assert(pow16(2) == 0x100);
    assert(pow16(3) == 0x1000);
    assert(pow16(4) == 0x1_0000);
    assert(pow16(5) == 0x10_0000);
    assert(pow16(6) == 0x100_0000);
    assert(pow16(7) == 0x1000_0000);
    assert(pow16(8) == 0x1_0000_0000);
    assert(pow16(9) == 0x10_0000_0000);
    assert(pow16(10) == 0x100_0000_0000);
    assert(pow16(11) == 0x1000_0000_0000);
    assert(pow16(12) == 0x1_0000_0000_0000);
    assert(pow16(13) == 0x10_0000_0000_0000);
    assert(pow16(14) == 0x100_0000_0000_0000);
    assert(pow16(15) == 0x1000_0000_0000_0000);
    assert(pow16(16) == 0x1_0000_0000_0000_0000);
    assert(pow16(17) == 0x10_0000_0000_0000_0000);
    assert(pow16(18) == 0x100_0000_0000_0000_0000);
    assert(pow16(19) == 0x1000_0000_0000_0000_0000);
    assert(pow16(20) == 0x1_0000_0000_0000_0000_0000);
    assert(pow16(21) == 0x10_0000_0000_0000_0000_0000);
    assert(pow16(22) == 0x100_0000_0000_0000_0000_0000);
    assert(pow16(23) == 0x1000_0000_0000_0000_0000_0000);
    assert(pow16(24) == 0x1_0000_0000_0000_0000_0000_0000);
    assert(pow16(25) == 0x10_0000_0000_0000_0000_0000_0000);
    assert(pow16(26) == 0x100_0000_0000_0000_0000_0000_0000);
    assert(pow16(27) == 0x1000_0000_0000_0000_0000_0000_0000);
    assert(pow16(28) == 0x1_0000_0000_0000_0000_0000_0000_0000);
    assert(pow16(29) == 0x10_0000_0000_0000_0000_0000_0000_0000);
    assert(pow16(30) == 0x100_0000_0000_0000_0000_0000_0000_0000);
    assert(pow16(31) == 0x1000_0000_0000_0000_0000_0000_0000_0000);
    assert(pow16(32) == 0x1_0000_0000_0000_0000_0000_0000_0000_0000);
}

/// A sequence of hex digits is worth less than 16 to its length.
pub proof fn lemma_hex_seq_val_bound(s: Seq<char>)
    requires
        all_hex(s),
    ensures
        0 <= hex_seq_val(s) < pow16(s.len()),
    decreases s.len(),
{
    if s.len() > 0 {
        assert(all_hex(s.drop_last())) by {
            assert forall|i: int| 0 <= i < s.len() - 1 implies is_hex_digit(
                #[trigger] s.drop_last()[i],
            ) by {
                assert(s.drop_last()[i] == s[i]);
            }
        }
        lemma_hex_seq_val_bound(s.drop_last());
        assert(is_hex_digit(s.last()));
        assert(0 <= hex_val(s.last()) < 16);
    }
}

/// The value of one hex digit, or `None` when the character is not one.
fn hex_digit(c: char) -> (r: Option<u8>)
    ensures
        match r {
            Some(v) => is_hex_digit(c) && v == hex_val(c) && v < 16,
            None => !is_hex_digit(c),
        },
{
    let u = c as u32;
    if u >= 48 && u <= 57 {
        Some((u - 48) as u8)
    } else if u >= 97 && u <= 102 {
        Some((u - 87) as u8)
    } else if u >= 65 && u <= 70 {
        Some((u - 55) as u8)
    } else {
        None
    }
}

/// Parses the hex digits of `s` between `from` and `to` (at most 32 of
/// them) as a big-endian number.
fn parse_hex_chunk(s: &str, from: usize, to: usize) -> (r: Option<u128>)
    requires
        from <= to <= s@.len(),
        to - from <= 32,
    ensures
        match r {
            Some(v) => all_hex(s@.subrange(from as int, to as int)) && v == hex_seq_val(
                s@.subrange(from as int, to as int),
            ),
            None => !all_hex(s@.subrange(from as int, to as int)),
        },
{
    let mut acc: u128 = 0;
    let mut i: usize = from;
    proof {
        assert(s@.subrange(from as int, from as int) =~= Seq::<char>::empty());
    }
    while i < to
        invariant
            from <= i <= to <= s@.len(),
            to - from <= 32,
            all_hex(s@.subrange(from as int, i as int)),
            acc == hex_seq_val(s@.subrange(from as int, i as int)),
        decreases to - i,
    {
        let c = s.get_char(i);
        match hex_digit(c) {
            Some(d) => {
                proof {
                    let pre = s@.subrange(from as int, i as int);
                    let post = s@.subrange(from as int, i as int + 1);
                    assert(post.drop_last() =~= pre);
                    assert(post.last() == c);
                    lemma_hex_seq_val_bound(pre);
                    lemma_pow16_mono((i - from) as nat, 31);
                    lemma_pow16_32();
                    assert(pow16(31) * 16 == pow16(32));
                    assert(acc < pow16(31));
                    assert(all_hex(post)) by {
                        assert forall|t: int| 0 <= t < post.len() implies is_hex_digit(
                            #[trigger] post[t],
                        ) by {
                            if t < post.len() - 1 {
                                assert(post[t] == pre[t]);
                            }
                        }
                    }
                }
                acc = acc * 16 + (d as u128);
                i += 1;
            },
            None => {
                proof {
                    assert(s@.subrange(from as int, to as int)[i - from] == c);
                }
                return None;
            },
        }
    }
    Some(acc)
}

/// Whether a string is a well-formed `0x`-prefixed 40-digit address.
pub open spec fn valid_address_str(s: Seq<char>) -> bool {
    s.len() == 42 && s[0] == '0' && s[1] == 'x' && all_hex(s.subrange(2, 42))
}

/// The address a well-formed address string denotes.
pub open spec fn spec_address_of(s: Seq<char>) -> Address {
    Address {
        hi: hex_seq_val(s.subrange(2, 10)) as u32,
        lo: hex_seq_val(s.subrange(10, 42)) as u128,
    }
}

/// Whether a string is a well-formed `0x`-prefixed 64-digit digest.
pub open spec fn valid_hash_str(s: Seq<char>) -> bool {
    s.len() == 66 && s[0] == '0' && s[1] == 'x' && all_hex(s.subrange(2, 66))
}

/// The digest a well-formed hash string denotes.
pub open spec fn spec_hash_of(s: Seq<char>) -> Hash256 {
    Hash256 {
        hi: hex_seq_val(s.subrange(2, 34)) as u128,
        lo: hex_seq_val(s.subrange(34, 66)) as u128,
    }
}

/// Parses a `0x`-prefixed 40-digit hex string as an address. Returns
/// `InvalidArgument`, and exactly then, when the string is not of that
/// shape.
pub fn parse_address(s: &str) -> (r: Result<Address, EvmError>)
    ensures
        match r {
            Ok(a) => valid_address_str(s@) && a == spec_address_of(s@),
            Err(e) => e is InvalidArgument && !valid_address_str(s@),
        },
{
    if s.unicode_len() != 42 {
        return Err(EvmError::InvalidArgument(String::from_str("malformed address")));
    }
    if s.get_char(0) != '0' || s.get_char(1) != 'x' {
        return Err(EvmError::InvalidArgument(String::from_str("malformed address")));
    }
    let hi = match parse_hex_chunk(s, 2, 10) {
        Some(v) => v,
        None => {
            proof {
                lemma_subrange_not_hex(s@, 2, 10, 42);
            }
            return Err(EvmError::InvalidArgument(String::from_str("malformed address")));
        },
    };
    let lo = match parse_hex_chunk(s, 10, 42) {
        Some(v) => v,
        None => {
            proof {
                lemma_subrange_not_hex(s@, 10, 42, 42);
            }
            return Err(EvmError::InvalidArgument(String::from_str("malformed address")));
        },
    };
    proof {
        lemma_hex_seq_val_bound(s@.subrange(2, 10));
        lemma_hex_seq_val_bound(s@.subrange(10, 42));
        lemma_pow16_32();
        assert forall|i: int| 0 <= i < 40 implies is_hex_digit(#[trigger] s@.subrange(2, 42)[i])
        by {
            if i < 8 {
                assert(s@.subrange(2, 10)[i] == s@.subrange(2, 42)[i]);
            } else {
                assert(s@.subrange(10, 42)[i - 8] == s@.subrange(2, 42)[i]);
            }
        }
    }
    Ok(Address { hi: hi as u32, lo })
}

/// Dishonest hex digits inside a window spoil the whole window.
proof fn lemma_subrange_not_hex(s: Seq<char>, from: int, to: int, whole: int)
    requires
        0 <= 2 <= from <= to <= whole <= s.len(),
        !all_hex(s.subrange(from, to)),
    ensures
        !all_hex(s.subrange(2, whole)),
{
    let i = choose|i: int|
        0 <= i < s.subrange(from, to).len() && !is_hex_digit(s.subrange(from, to)[i]);
    assert(s.subrange(2, whole)[from - 2 + i] == s.subrange(from, to)[i]);
}

/// Parses a `0x`-prefixed 64-digit hex string as a 32-byte digest.
pub fn parse_hash(s: &str) -> (r: Result<Hash256, EvmError>)
    ensures
        match r {
            Ok(h) => valid_hash_str(s@) && h == spec_hash_of(s@),
            Err(e) => e is InvalidArgument && !valid_hash_str(s@),
        },
{
    if s.unicode_len() != 66 {
        return Err(EvmError::InvalidArgument(String::from_str("malformed hash")));
    }
    if s.get_char(0) != '0' || s.get_char(1) != 'x' {
        return Err(EvmError::InvalidArgument(String::from_str("malformed hash")));
    }
    let hi = match parse_hex_chunk(s, 2, 34) {
        Some(v) => v,
        None => {
            proof {
                lemma_subrange_not_hex(s@, 2, 34, 66);
            }
            return Err(EvmError::InvalidArgument(String::from_str("malformed hash")));
        },
    };
    let lo = match parse_hex_chunk(s, 34, 66) {
        Some(v) => v,
        None => {
            proof {
                lemma_subrange_not_hex(s@, 34, 66, 66);
            }
            return Err(EvmError::InvalidArgument(String::from_str("malformed hash")));
        },
    };
    proof {
        assert forall|i: int| 0 <= i < 64 implies is_hex_digit(#[trigger] s@.subrange(2, 66)[i])
        by {
            if i < 32 {
                assert(s@.subrange(2, 34)[i] == s@.subrange(2, 66)[i]);
            } else {
                assert(s@.subrange(34, 66)[i - 32] == s@.subrange(2, 66)[i]);
            }
        }
    }
    Ok(Hash256 { hi, lo })
}

pub open spec fn is_dec_digit(c: char) -> bool {
    '0' <= c && c <= '9'
}

pub open spec fn dec_val(c: char) -> int {
    c as int - '0' as int
}

/// The value of a big-endian sequence of decimal digits.
pub open spec fn dec_seq_val(s: Seq<char>) -> int
    decreases s.len(),
{
    if s.len() == 0 {
        0
    } else {
        dec_seq_val(s.drop_last()) * 10 + dec_val(s.last())
    }
}

pub open spec fn all_dec(s: Seq<char>) -> bool {
    forall|i: int| 0 <= i < s.len() ==> is_dec_digit(#[trigger] s[i])
}

/// 10 to the n-th power.
pub open spec fn pow10(n: nat) -> int
    decreases n,
{
    if n == 0 {
        1
    } else {
        10 * pow10((n - 1) as nat)
    }
}

pub proof fn lemma_pow10_19()
    ensures
        pow10(19) == 10_000_000_000_000_000_000,
{
    assert(pow10(0) == 1);
    assert(pow10(1) == 10);
    assert(pow10(2) == 100);
    assert(pow10(3) == 1000);
    assert(pow10(4) == 10_000);
    assert(pow10(5) == 100_000);
    assert(pow10(6) == 1_000_000);
    assert(pow10(7) == 10_000_000);
    assert(pow10(8) == 100_000_000);
    assert(pow10(9) == 1_000_000_000);
    assert(pow10(10) == 10_000_000_000);
    assert(pow10(11) == 100_000_000_000);
    assert(pow10(12) == 1_000_000_000_000);
    assert(pow10(13) == 10_000_000_000_000);
    assert(pow10(14) == 100_000_000_000_000);
    assert(pow10(15) == 1_000_000_000_000_000);
    assert(pow10(16) == 10_000_000_000_000_000);
    assert(pow10(17) == 100_000_000_000_000_000);
    assert(pow10(18) == 1_000_000_000_000_000_000);
    assert(pow10(19) == 10_000_000_000_000_000_000);
}

pub proof fn lemma_pow10_mono(a: nat, b: nat)
    requires
        a <= b,
    ensures
        1 <= pow10(a) <= pow10(b),
    decreases b,
{
    if a < b {
        lemma_pow10_mono(a, (b - 1) as nat);
    } else if a == b && a > 0 {
        lemma_pow10_mono((a - 1) as nat, (a - 1) as nat);
    }
}

/// A sequence of decimal digits is worth less than 10 to its length.
pub proof fn lemma_dec_seq_val_bound(s: Seq<char>)
    requires
        all_dec(s),
    ensures
        0 <= dec_seq_val(s) < pow10(s.len()),
    decreases s.len(),
{
    if s.len() > 0 {
        assert(all_dec(s.drop_last())) by {
            assert forall|i: int| 0 <= i < s.len() - 1 implies is_dec_digit(
                #[trigger] s.drop_last()[i],
            ) by {
                assert(s.drop_last()[i] == s[i]);
            }
        }
        lemma_dec_seq_val_bound(s.drop_last());
        assert(is_dec_digit(s.last()));
        assert(0 <= dec_val(s.last()) < 10);
    }
}

/// Parses a whole string of at most 19 decimal digits.
fn parse_dec(s: &str) -> (r: Option<u64>)
    ensures
        match r {
            Some(v) => 1 <= s@.len() <= 19 && all_dec(s@) && v == dec_seq_val(s@),
            None => !(1 <= s@.len() <= 19 && all_dec(s@)),
        },
{
    let n = s.unicode_len();
    if n == 0 || n > 19 {
        return None;
    }
    let mut acc: u64 = 0;
    let mut i: usize = 0;
    proof {
        assert(s@.subrange(0, 0) =~= Seq::<char>::empty());
    }
    while i < n
        invariant
            0 < n == s@.len() <= 19,
            i <= n,
            all_dec(s@.subrange(0, i as int)),
            acc == dec_seq_val(s@.subrange(0, i as int)),
        decreases n - i,
    {
        let c = s.get_char(i);
        let u = c as u32;
        if u < 48 || u > 57 {
            proof {
                assert(s@[i as int] == c);
            }
            return None;
        }
        proof {
            let pre = s@.subrange(0, i as int);
            let post = s@.subrange(0, i as int + 1);
            assert(post.drop_last() =~= pre);
            assert(post.last() == c);
            lemma_dec_seq_val_bound(pre);
            lemma_pow10_mono((i) as nat, 18);
            lemma_pow10_19();
            assert(pow10(18) * 10 == pow10(19));
            assert(all_dec(post)) by {
                assert forall|t: int| 0 <= t < post.len() implies is_dec_digit(
                    #[trigger] post[t],
                ) by {
                    if t < post.len() - 1 {
                        assert(post[t] == pre[t]);
                    }
                }
            }
        }
        acc = acc * 10 + ((u - 48) as u64);
        i += 1;
    }
    proof {
        assert(s@.subrange(0, n as int) =~= s@);
    }
    Some(acc)
}

/// Whether a string is one of the three accepted pin shapes: the word
/// `latest`, a block number of at most 19 decimal digits, or a
/// `0x`-prefixed 64-digit block hash.
pub open spec fn valid_block_pin_str(s: Seq<char>) -> bool {
    s == "latest"@ || (1 <= s.len() <= 19 && all_dec(s)) || valid_hash_str(s)
}

/// The pin a well-formed pin string denotes. The three shapes are
/// disjoint: `latest` starts with a letter, a number is at most 19
/// characters, a hash is 66.
pub open spec fn spec_block_pin_of(s: Seq<char>) -> crate::values::BlockPin {
    if s == "latest"@ {
        crate::values::BlockPin::Latest
    } else if 1 <= s.len() <= 19 && all_dec(s) {
        crate::values::BlockPin::Number(dec_seq_val(s) as u64)
    } else {
        crate::values::BlockPin::Hash(spec_hash_of(s))
    }
}

/// Parses a historical pin: the word `latest`, a block number of at most
/// 19 decimal digits, or a `0x`-prefixed 64-digit block hash. Returns
/// `InvalidArgument`, and exactly then, when the string is none of the
/// three.
pub fn parse_block_pin(s: &str) -> (r: Result<crate::values::BlockPin, EvmError>)
    ensures
        match r {
            Ok(p) => valid_block_pin_str(s@) && p == spec_block_pin_of(s@),
            Err(e) => e is InvalidArgument && !valid_block_pin_str(s@),
        },
{
    if s.unicode_len() == 6 {
        let lit: &str = "latest";
        if str_eq(s, lit) {
            return Ok(crate::values::BlockPin::Latest);
        }
    }
    match parse_dec(s) {
        Some(v) => {
            proof {
                // A decimal pin is not the word `latest`: its first
                // character is a digit.
                if s@ == "latest"@ {
                    reveal_strlit("latest");
                    assert(is_dec_digit(s@[0]));
                    assert(false);
                }
                lemma_dec_seq_val_bound(s@);
                lemma_pow10_mono(s@.len() as nat, 19);
                lemma_pow10_19();
            }
            Ok(crate::values::BlockPin::Number(v))
        },
        None => match parse_hash(s) {
            Ok(h) => {
                proof {
                    // A hash pin is 66 characters, so neither `latest`
                    // nor a number shape.
                    if s@ == "latest"@ {
                        reveal_strlit("latest");
                        assert(s@.len() == 6);
                        assert(false);
                    }
                }
                Ok(crate::values::BlockPin::Hash(h))
            },
            Err(e) => {
                proof {
                    if s@ == "latest"@ {
                        reveal_strlit("latest");
                        assert(s@.len() == 6);
                        assert(false);
                    }
                }
                Err(e)
            },
        },
    }
}

/// Character-wise string equality.
fn str_eq(a: &str, b: &str) -> (r: bool)
    ensures
        r == (a@ == b@),
{
    let n = a.unicode_len();
    let m = b.unicode_len();
    if n != m {
        proof {
            assert(a@.len() != b@.len());
        }
        return false;
    }
    let mut i: usize = 0;
    while i < n
        invariant
            n == a@.len() && n == b@.len(),
            i <= n,
            forall|j: int| 0 <= j < i ==> a@[j] == b@[j],
        decreases n - i,
    {
        if a.get_char(i) != b.get_char(i) {
            return false;
        }
        i += 1;
    }
    proof {
        assert(a@ =~= b@);
    }
    true
}

/// The ASCII decimal digits of a positive value.
pub open spec fn dec_digits_of(v: int) -> Seq<u8>
    decreases v,
{
    if v <= 0 {
        Seq::empty()
    } else {
        dec_digits_of(v / 10).push((48 + v % 10) as u8)
    }
}

/// The ASCII decimal rendering of a value, as the engine's empty backing
/// database renders block numbers.
pub open spec fn dec_bytes(v: int) -> Seq<u8> {
    if v == 0 {
        seq![48u8]
    } else {
        dec_digits_of(v)
    }
}

/// Appends the decimal digits of a positive value.
fn push_dec(out: &mut Vec<u8>, v: u64)
    ensures
        final(out)@ == old(out)@ + dec_digits_of(v as int),
    decreases v,
{
    if v == 0 {
        proof {
            assert(old(out)@ + dec_digits_of(0) =~= old(out)@);
        }
    } else {
        push_dec(out, v / 10);
        out.push((48 + (v % 10) as u8));
        proof {
            assert(old(out)@ + dec_digits_of(v as int) =~= (old(out)@ + dec_digits_of(
                v as int / 10,
            )).push((48 + v as int % 10) as u8));
        }
    }
}

/// The ASCII decimal rendering of a block number.
pub fn u64_decimal_bytes(v: u64) -> (r: Vec<u8>)
    ensures
        r@ == dec_bytes(v as int),
{
    let mut out: Vec<u8> = Vec::new();
    if v == 0 {
        out.push(48);
        proof {
            assert(out@ =~= dec_bytes(0));
        }
    } else {
        push_dec(&mut out, v);
        proof {
            assert(Seq::<u8>::empty() + dec_digits_of(v as int) =~= dec_digits_of(v as int));
        }
    }
    out
}

/// The lower-case hex character of a digit value.
pub open spec fn hex_char_of(v: int) -> char {
    if v == 0 {
        '0'
    } else if v == 1 {
        '1'
    } else if v == 2 {
        '2'
    } else if v == 3 {
        '3'
    } else if v == 4 {
        '4'
    } else if v == 5 {
        '5'
    } else if v == 6 {
        '6'
    } else if v == 7 {
        '7'
    } else if v == 8 {
        '8'
    } else if v == 9 {
        '9'
    } else if v == 10 {
        'a'
    } else if v == 11 {
        'b'
    } else if v == 12 {
        'c'
    } else if v == 13 {
        'd'
    } else if v == 14 {
        'e'
    } else {
        'f'
    }
}

/// The n-digit lower-case big-endian hex rendering of a value.
pub open spec fn hex_digits_of(v: int, n: nat) -> Seq<char>
    decreases n,
{
    if n == 0 {
        Seq::empty()
    } else {
        hex_digits_of(v / 16, (n - 1) as nat).push(hex_char_of(v % 16))
    }
}

/// One hex digit as a string slice.
fn nibble_str(d: u128) -> (r: &'static str)
    requires
        d < 16,
    ensures
        r@ == seq![hex_char_of(d as int)],
{
    proof {
        reveal_strlit("0");
        reveal_strlit("1");
        reveal_strlit("2");
        reveal_strlit("3");
        reveal_strlit("4");
        reveal_strlit("5");
        reveal_strlit("6");
        reveal_strlit("7");
        reveal_strlit("8");
        reveal_strlit("9");
        reveal_strlit("a");
        reveal_strlit("b");
        reveal_strlit("c");
        reveal_strlit("d");
        reveal_strlit("e");
        reveal_strlit("f");
    }
    if d == 0 {
        "0"
    } else if d == 1 {
        "1"
    } else if d == 2 {
        "2"
    } else if d == 3 {
        "3"
    } else if d == 4 {
        "4"
    } else if d == 5 {
        "5"
    } else if d == 6 {
        "6"
    } else if d == 7 {
        "7"
    } else if d == 8 {
        "8"
    } else if d == 9 {
        "9"
    } else if d == 10 {
        "a"
    } else if d == 11 {
        "b"
    } else if d == 12 {
        "c"
    } else if d == 13 {
        "d"
    } else if d == 14 {
        "e"
    } else {
        "f"
    }
}

/// Appends the n-digit hex rendering of `v`.
fn push_hex(out: &mut String, v: u128, n: usize)
    ensures
        final(out)@ == old(out)@ + hex_digits_of(v as int, n as nat),
    decreases n,
{
    if n == 0 {
        proof {
            assert(old(out)@ + hex_digits_of(v as int, 0) =~= old(out)@);
        }
    } else {
        push_hex(out, v / 16, n - 1);
        out.append(nibble_str(v % 16));
        proof {
            assert(old(out)@ + hex_digits_of(v as int, n as nat) =~= (old(out)@ + hex_digits_of(
                v as int / 16,
                (n - 1) as nat,
            )) + seq![hex_char_of(v as int % 16)]);
        }
    }
}

/// The canonical rendering of an address: `0x` and 40 lower-case hex
/// digits.
pub open spec fn address_hex(a: Address) -> Seq<char> {
    seq!['0', 'x'] + hex_digits_of(a.hi as int, 8) + hex_digits_of(a.lo as int, 32)
}

/// Renders an address as its fixed-format hex string.
pub fn format_address(a: &Address) -> (r: String)
    ensures
        r@ == address_hex(*a),
{
    let mut out = String::from_str("0x");
    proof {
        reveal_strlit("0x");
        assert(out@ =~= seq!['0', 'x']);
    }
    push_hex(&mut out, a.hi as u128, 8);
    push_hex(&mut out, a.lo, 32);
    proof {
        assert(out@ =~= address_hex(*a));
    }
    out
}

/// Rendering is the inverse of the digit-sequence value: the n-digit hex
/// rendering of a value below 16^n is all hex digits and reads back as
/// that value.
pub proof fn lemma_hex_digits_roundtrip(v: int, n: nat)
    requires
        0 <= v < pow16(n),
    ensures
        hex_digits_of(v, n).len() == n,
        all_hex(hex_digits_of(v, n)),
        hex_seq_val(hex_digits_of(v, n)) == v,
    decreases n,
{
    if n == 0 {
    } else {
        lemma_pow16_pos((n - 1) as nat);
        assert(v / 16 < pow16((n - 1) as nat)) by {
            if v / 16 >= pow16((n - 1) as nat) {
                assert(v >= 16 * pow16((n - 1) as nat));
            }
        }
        lemma_hex_digits_roundtrip(v / 16, (n - 1) as nat);
        let d = hex_digits_of(v, n);
        assert(d.drop_last() =~= hex_digits_of(v / 16, (n - 1) as nat));
        assert(d.last() == hex_char_of(v % 16));
        assert(is_hex_digit(hex_char_of(v % 16)) && hex_val(hex_char_of(v % 16)) == v % 16);
        assert(all_hex(d)) by {
            assert forall|i: int| 0 <= i < d.len() implies is_hex_digit(#[trigger] d[i]) by {
                if i < d.len() - 1 {
                    assert(d[i] == d.drop_last()[i]);
                }
            }
        }
    }
}

/// The fixed-format rendering of an address is a well-formed address
/// string that parses back to the same address.
pub proof fn lemma_address_hex_roundtrip(a: Address)
    ensures
        valid_address_str(address_hex(a)),
        spec_address_of(address_hex(a)) == a,
{
    lemma_pow16_32();
    lemma_hex_digits_roundtrip(a.hi as int, 8);
    lemma_hex_digits_roundtrip(a.lo as int, 32);
    let s = address_hex(a);
    assert(s.subrange(2, 10) =~= hex_digits_of(a.hi as int, 8));
    assert(s.subrange(10, 42) =~= hex_digits_of(a.lo as int, 32));
    assert(all_hex(s.subrange(2, 42))) by {
        assert forall|i: int| 0 <= i < 40 implies is_hex_digit(
            #[trigger] s.subrange(2, 42)[i],
        ) by {
            if i < 8 {
                assert(s.subrange(2, 42)[i] == s.subrange(2, 10)[i]);
            } else {
                assert(s.subrange(2, 42)[i] == s.subrange(10, 42)[i - 8]);
            }
        }
    }
}

} // verus!
