//! Sharding lines by the low bits of their hash: the shard of a line is
//! named by those bits in lower-case hexadecimal.

use vstd::prelude::*;
use vstd::arithmetic::power2::pow2;
use vstd::bits::low_bits_mask;

use crate::sip::{line_hash, sip_hash_str};
use crate::text::{chars_of, string_of};

verus! {

/// Why a number cannot be parsed (as std's `u64::from_str` tells them
/// apart).
#[derive(Debug, Clone, Copy, PartialEq, Eq, Structural)]
pub enum ParseIntError {
    /// The string is empty.
    Empty,
    /// A character is not a decimal digit.
    InvalidDigit,
    /// The number does not fit in 64 bits.
    PosOverflow,
}

pub open spec fn is_decimal_digit(c: char) -> bool {
    48 <= (c as u32) <= 57
}

pub open spec fn digit_value(c: char) -> nat {
    ((c as u32) - 48) as nat
}

/// Reading the digits `ds` after the value `acc`, from left to right: the
/// first character that is not a digit, or whose digit makes the value
/// exceed 64 bits, decides the error.
pub open spec fn parse_digits(ds: Seq<char>, acc: nat) -> Result<u64, ParseIntError>
    decreases ds.len(),
{
    if ds.len() == 0 {
        Ok(acc as u64)
    } else if !is_decimal_digit(ds[0]) {
        Err(ParseIntError::InvalidDigit)
    } else if acc * 10 + digit_value(ds[0]) > u64::MAX {
        Err(ParseIntError::PosOverflow)
    } else {
        parse_digits(ds.drop_first(), acc * 10 + digit_value(ds[0]))
    }
}

/// The value of a decimal number with an optional leading `+`.
pub open spec fn parse_u64_spec(s: Seq<char>) -> Result<u64, ParseIntError> {
    if s.len() == 0 {
        Err(ParseIntError::Empty)
    } else if s[0] == '+' {
        if s.len() == 1 {
            Err(ParseIntError::InvalidDigit)
        } else {
            parse_digits(s.drop_first(), 0)
        }
    } else {
        parse_digits(s, 0)
    }
}

/// Parses a decimal number with an optional leading `+` (see
/// `parse_u64_spec`).
pub fn parse_u64(s: &str) -> (res: Result<u64, ParseIntError>)
    ensures
        res == parse_u64_spec(s@),
{
    let cs = chars_of(s);
    if cs.len() == 0 {
        return Err(ParseIntError::Empty);
    }
    let mut i: usize = 0;
    if cs[0] == '+' {
        if cs.len() == 1 {
            return Err(ParseIntError::InvalidDigit);
        }
        i = 1;
    }
    let ghost ds = cs@.skip(i as int);
    proof {
        if i == 1 {
            assert(ds == cs@.drop_first());
        } else {
            assert(ds == cs@);
        }
    }
    let mut acc: u64 = 0;
    while i < cs.len()
        invariant
            cs@ == s@,
            1 <= cs.len(),
            i <= cs.len(),
            parse_u64_spec(s@) == parse_digits(ds, 0),
            parse_digits(ds, 0) == parse_digits(cs@.skip(i as int), acc as nat),
        decreases cs.len() - i,
    {
        let c = cs[i];
        assert(cs@.skip(i as int)[0] == c);
        assert(cs@.skip(i as int).drop_first() == cs@.skip(i + 1));
        let code = c as u32;
        if code < 48 || code > 57 {
            return Err(ParseIntError::InvalidDigit);
        }
        let d = (code - 48) as u64;
        let next = match acc.checked_mul(10) {
            None => {
                return Err(ParseIntError::PosOverflow);
            },
            Some(m) => match m.checked_add(d) {
                None => {
                    return Err(ParseIntError::PosOverflow);
                },
                Some(v) => v,
            },
        };
        acc = next;
        i = i + 1;
    }
    Ok(acc)
}

/// The number of bits to shard by: the argument, or 8 when there is none.
pub fn parse_shard_bits(arg: Option<&str>) -> (res: Result<u64, ParseIntError>)
    ensures
        arg is None ==> res == Ok::<u64, ParseIntError>(8),
        arg matches Some(s) ==> res == parse_u64_spec(s@),
{
    match arg {
        Some(s) => parse_u64(s),
        None => {
            proof {
                reveal_strlit("8");
                assert("8"@ =~= seq!['8']);
                assert(('8' as u32) == 56);
                assert(seq!['8'].drop_first() =~= Seq::<char>::empty());
                assert(seq!['8'][0] == '8');
                assert(digit_value('8') == 8);
                assert(parse_digits(Seq::<char>::empty(), 8) == Ok::<u64, ParseIntError>(8));
                assert(parse_digits(seq!['8'], 0) == Ok::<u64, ParseIntError>(8));
            }
            let r = parse_u64("8");
            r
        },
    }
}

/// The mask of the low `n_bits` bits; all bits when there are more than 63.
pub open spec fn shard_mask_spec(n_bits: u64) -> u64 {
    if n_bits > 63 {
        u64::MAX
    } else {
        low_bits_mask(n_bits as nat) as u64
    }
}

/// The mask of the low `n_bits` bits (see `shard_mask_spec`).
pub fn shard_mask(n_bits: u64) -> (res: u64)
    ensures
        res == shard_mask_spec(n_bits),
{
    if n_bits > 63 {
        assert(!0u64 == 0xffff_ffff_ffff_ffffu64) by (bit_vector);
        !0u64
    } else {
        proof {
            vstd::bits::lemma_u64_pow2_no_overflow(n_bits as nat);
            vstd::arithmetic::power2::lemma_pow2_pos(n_bits as nat);
            vstd::bits::lemma_u64_shl_is_mul(1, n_bits);
            assert(1 * pow2(n_bits as nat) == pow2(n_bits as nat));
        }
        (1u64 << n_bits) - 1
    }
}

/// The lower-case hexadecimal digit of `d`.
pub open spec fn hex_digit(d: nat) -> char {
    if d < 10 {
        (48 + d) as char
    } else {
        (87 + d) as char
    }
}

/// `n` in lower-case hexadecimal, without leading zeros.
pub open spec fn lower_hex(n: nat) -> Seq<char>
    decreases n,
{
    if n < 16 {
        seq![hex_digit(n)]
    } else {
        lower_hex(n / 16).push(hex_digit(n % 16))
    }
}

/// The hexadecimal digit of `d`.
fn hex_char(d: u64) -> (res: char)
    requires
        d < 16,
    ensures
        res == hex_digit(d as nat),
{
    if d < 10 {
        ((d as u8) + 48) as char
    } else {
        ((d as u8) + 87) as char
    }
}

/// `n` in lower-case hexadecimal (see `lower_hex`).
pub fn to_lower_hex(n: u64) -> (res: String)
    ensures
        res@ == lower_hex(n as nat),
{
    let mut digits: Vec<char> = Vec::new();
    let mut cur = n;
    while cur >= 16
        invariant
            lower_hex(n as nat) == lower_hex(cur as nat) + digits@,
        decreases cur,
    {
        let ghost before = digits@;
        digits.insert(0, hex_char(cur % 16));
        proof {
            assert(lower_hex(cur as nat) == lower_hex((cur / 16) as nat).push(hex_digit((cur % 16) as nat)));
            assert(lower_hex((cur / 16) as nat) + digits@ =~= lower_hex(cur as nat) + before);
        }
        cur = cur / 16;
    }
    digits.insert(0, hex_char(cur));
    assert(digits@ =~= lower_hex(n as nat));
    string_of(&digits)
}

/// The name of the shard of `line`: its hash, masked, in lower-case
/// hexadecimal.
pub fn shard_name(line: &str, mask: u64) -> (res: String)
    ensures
        res@ == lower_hex((line_hash(line@) & mask) as nat),
{
    let h = sip_hash_str(line);
    to_lower_hex(h & mask)
}

/// With `n_bits` below 64 the shard of a hash is the hash modulo
/// `2^n_bits`, so there are at most `2^n_bits` shards; with more bits the
/// shard is the whole hash.
pub proof fn law_shard_is_hash_mod(h: u64, n_bits: u64)
    ensures
        n_bits <= 63 ==> (h & shard_mask_spec(n_bits)) == h % (pow2(n_bits as nat) as u64),
        n_bits <= 63 ==> (h & shard_mask_spec(n_bits)) < pow2(n_bits as nat),
        n_bits > 63 ==> (h & shard_mask_spec(n_bits)) == h,
{
    if n_bits <= 63 {
        vstd::bits::lemma_u64_low_bits_mask_is_mod(h, n_bits as nat);
        vstd::bits::lemma_u64_pow2_no_overflow(n_bits as nat);
    } else {
        assert(h & 0xffff_ffff_ffff_ffffu64 == h) by (bit_vector);
    }
}

/// Lines with the same text go to the same shard.
pub proof fn law_same_line_same_shard(a: Seq<char>, b: Seq<char>, mask: u64)
    requires
        a == b,
    ensures
        lower_hex((line_hash(a) & mask) as nat) == lower_hex((line_hash(b) & mask) as nat),
{
}

/// The value of a lower-case hexadecimal digit.
pub open spec fn hex_digit_value(c: char) -> int {
    if (c as u32) <= 57 {
        (c as u32) - 48
    } else {
        (c as u32) - 87
    }
}

/// The value of a string of lower-case hexadecimal digits.
pub open spec fn hex_value(s: Seq<char>) -> int
    decreases s.len(),
{
    if s.len() == 0 {
        0
    } else {
        hex_value(s.drop_last()) * 16 + hex_digit_value(s.last())
    }
}

/// Whether `c` is one of `0`-`9` and `a`-`f`.
pub open spec fn is_lower_hex_digit(c: char) -> bool {
    (48 <= (c as u32) <= 57) || (97 <= (c as u32) <= 102)
}

/// A shard name is `n` written in lower-case hexadecimal: its digits are
/// `0`-`9` and `a`-`f`, it has a leading zero only when it is `0`, and it
/// reads back as `n`.
pub proof fn law_lower_hex(n: nat)
    ensures
        lower_hex(n).len() > 0,
        forall|i: int| 0 <= i < lower_hex(n).len() ==> is_lower_hex_digit(#[trigger] lower_hex(n)[i]),
        lower_hex(n)[0] == '0' ==> n == 0,
        hex_value(lower_hex(n)) == n,
    decreases n,
{
    if n < 16 {
        assert(hex_value(lower_hex(n).drop_last()) == 0) by {
            assert(lower_hex(n).drop_last().len() == 0);
        }
    } else {
        law_lower_hex(n / 16);
        let s = lower_hex(n);
        let d = n % 16;
        assert(s.drop_last() =~= lower_hex(n / 16));
        assert(s.last() == hex_digit(d));
        assert(hex_digit_value(hex_digit(d)) == d);
        assert forall|i: int| 0 <= i < s.len() implies is_lower_hex_digit(#[trigger] s[i]) by {
            if i < s.len() - 1 {
                assert(s[i] == lower_hex(n / 16)[i]);
            }
        }
        assert(s[0] == lower_hex(n / 16)[0]);
        assert((n / 16) * 16 + d == n);
    }
}

/// `10^e`.
pub open spec fn pow10(e: nat) -> nat
    decreases e,
{
    if e == 0 {
        1
    } else {
        10 * pow10((e - 1) as nat)
    }
}

/// The value of a string of decimal digits.
pub open spec fn decimal_value(ds: Seq<char>) -> nat
    decreases ds.len(),
{
    if ds.len() == 0 {
        0
    } else {
        digit_value(ds[0]) * pow10((ds.len() - 1) as nat) + decimal_value(ds.drop_first())
    }
}

/// Whether every character of `ds` is a decimal digit.
pub open spec fn all_decimal_digits(ds: Seq<char>) -> bool {
    forall|i: int| 0 <= i < ds.len() ==> is_decimal_digit(#[trigger] ds[i])
}

proof fn lemma_pow10_pos(e: nat)
    ensures
        pow10(e) >= 1,
    decreases e,
{
    if e > 0 {
        lemma_pow10_pos((e - 1) as nat);
    }
}

/// Reading digits after `acc` gives `acc` shifted by the digits plus their
/// value, as long as that fits.
proof fn lemma_parse_digits_value(ds: Seq<char>, acc: nat)
    requires
        all_decimal_digits(ds),
        acc * pow10(ds.len()) + decimal_value(ds) <= u64::MAX,
    ensures
        parse_digits(ds, acc) == Ok::<u64, ParseIntError>((acc * pow10(ds.len()) + decimal_value(ds)) as u64),
    decreases ds.len(),
{
    if ds.len() == 0 {
        assert(pow10(0) == 1);
        assert(acc * pow10(0) == acc) by (nonlinear_arith)
            requires
                pow10(0) == 1,
        ;
    } else {
        let rest = ds.drop_first();
        let d = digit_value(ds[0]);
        let p = pow10(rest.len());
        assert(pow10(ds.len()) == 10 * p);
        assert(is_decimal_digit(ds[0]));
        assert(all_decimal_digits(rest)) by {
            assert forall|i: int| 0 <= i < rest.len() implies is_decimal_digit(#[trigger] rest[i]) by {
                assert(rest[i] == ds[i + 1]);
            }
        }
        lemma_pow10_pos(rest.len());
        let next = acc * 10 + d;
        let dv = decimal_value(rest);
        assert(next * p + dv == acc * (10 * p) + d * p + dv) by (nonlinear_arith)
            requires
                next == acc * 10 + d,
        ;
        assert(decimal_value(ds) == d * p + dv);
        assert(next <= next * p) by (nonlinear_arith)
            requires
                p >= 1,
        ;
        lemma_parse_digits_value(rest, next);
    }
}

/// A string of decimal digits, optionally after `+`, whose value fits in 64
/// bits parses to that value; a string with a character that is not a
/// digit, other than a leading `+`, does not parse.
pub proof fn law_parse_decimal(ds: Seq<char>)
    ensures
        ds.len() > 0 && all_decimal_digits(ds) && decimal_value(ds) <= u64::MAX ==> parse_u64_spec(ds)
            == Ok::<u64, ParseIntError>(decimal_value(ds) as u64)
            && parse_u64_spec(seq!['+'] + ds) == Ok::<u64, ParseIntError>(decimal_value(ds) as u64),
        ds.len() > 0 && !all_decimal_digits(ds) ==> parse_u64_spec(seq!['+'] + ds) is Err,
        ds.len() > 0 && ds[0] != '+' && !all_decimal_digits(ds) ==> parse_u64_spec(ds) is Err,
        parse_u64_spec(Seq::empty()) == Err::<u64, ParseIntError>(ParseIntError::Empty),
{
    assert((seq!['+'] + ds).drop_first() =~= ds);
    assert((seq!['+'] + ds)[0] == '+');
    if ds.len() > 0 && all_decimal_digits(ds) && decimal_value(ds) <= u64::MAX {
        assert(ds[0] != '+') by {
            assert(is_decimal_digit(ds[0]));
        }
        lemma_parse_digits_value(ds, 0);
    }
    if ds.len() > 0 && !all_decimal_digits(ds) {
        lemma_parse_digits_rejects(ds, 0);
    }
}

/// Reading digits fails when some character is not a digit.
proof fn lemma_parse_digits_rejects(ds: Seq<char>, acc: nat)
    requires
        !all_decimal_digits(ds),
    ensures
        parse_digits(ds, acc) is Err,
    decreases ds.len(),
{
    if is_decimal_digit(ds[0]) {
        let rest = ds.drop_first();
        assert(!all_decimal_digits(rest)) by {
            let i = choose|i: int| 0 <= i < ds.len() && !is_decimal_digit(#[trigger] ds[i]);
            assert(i != 0);
            assert(rest[i - 1] == ds[i]);
        }
        if acc * 10 + digit_value(ds[0]) <= u64::MAX {
            lemma_parse_digits_rejects(rest, acc * 10 + digit_value(ds[0]));
        }
    }
}

} // verus!
