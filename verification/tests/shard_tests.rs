use std::hash::{Hash, Hasher};
use std::num::IntErrorKind;

use conll_tools::shard::{parse_shard_bits, parse_u64, shard_mask, shard_name, to_lower_hex, ParseIntError};
use siphasher::sip::SipHasher;

fn std_parse(s: &str) -> Result<u64, ParseIntError> {
    match s.parse::<u64>() {
        Ok(v) => Ok(v),
        Err(e) => match e.kind() {
            IntErrorKind::Empty => Err(ParseIntError::Empty),
            IntErrorKind::InvalidDigit => Err(ParseIntError::InvalidDigit),
            IntErrorKind::PosOverflow => Err(ParseIntError::PosOverflow),
            other => panic!("unexpected error kind {:?}", other),
        },
    }
}

#[test]
fn parses_like_std() {
    for s in [
        "0", "8", "+8", "007", "18446744073709551615", "18446744073709551616",
        "99999999999999999999", "999999999999999999999x", "", "+", "-", "-1", "1a", " 1",
        "12 ", "+-1", "٣",
    ] {
        assert_eq!(parse_u64(s), std_parse(s), "input {:?}", s);
    }
}

#[test]
fn default_bits() {
    assert_eq!(parse_shard_bits(None), Ok(8));
    assert_eq!(parse_shard_bits(Some("12")), Ok(12));
    assert_eq!(parse_shard_bits(Some("x")), Err(ParseIntError::InvalidDigit));
}

#[test]
fn masks() {
    assert_eq!(shard_mask(0), 0);
    assert_eq!(shard_mask(8), 0xff);
    assert_eq!(shard_mask(63), u64::MAX >> 1);
    assert_eq!(shard_mask(64), u64::MAX);
    assert_eq!(shard_mask(1000), u64::MAX);
}

#[test]
fn hex_like_format() {
    for n in [0u64, 9, 10, 15, 16, 255, 256, 0xdeadbeef, u64::MAX] {
        assert_eq!(to_lower_hex(n), format!("{:x}", n));
    }
}

fn reference_hash(line: &str) -> u64 {
    let mut hasher = SipHasher::new();
    line.hash(&mut hasher);
    hasher.finish()
}

#[test]
fn shard_name_is_masked_hash_in_hex() {
    for line in ["", "a", "Hallo Welt", "ünïcödé"] {
        for bits in [0u64, 4, 8, 64] {
            let mask = shard_mask(bits);
            assert_eq!(shard_name(line, mask), format!("{:x}", reference_hash(line) & mask));
        }
    }
    // The hash depends on the line.
    assert_ne!(shard_name("a", u64::MAX), shard_name("b", u64::MAX));
}

#[test]
fn at_most_two_to_the_bits_shards() {
    let mask = shard_mask(4);
    for i in 0..100 {
        let name = shard_name(&format!("line {}", i), mask);
        assert!(u64::from_str_radix(&name, 16).unwrap() < 16);
    }
}
