//! Hashing lines with SipHash.

use vstd::prelude::*;

verus! {

/// The SipHash-2-4 hash, with both keys 0, of a string as std's `Hash`
/// feeds a string to a hasher (its UTF-8 bytes, then the byte 0xff).
pub uninterp spec fn line_hash(s: Seq<char>) -> u64;

/// Hashes `s` with siphasher's `SipHasher::new()` (SipHash-2-4 with keys
/// 0, 0) through std's `Hash` for `str`, and returns `Hasher::finish`. The
/// contract claims only that the result is `line_hash` of the characters
/// of `s`: the same string gives the same hash in every process.
#[verifier::external_body]
pub(crate) fn sip_hash_str(s: &str) -> (h: u64)
    ensures
        h == line_hash(s@),
{
    let mut hasher = siphasher::sip::SipHasher::new();
    std::hash::Hash::hash(s, &mut hasher);
    std::hash::Hasher::finish(&hasher)
}

} // verus!
