//! Keeping only the most specific part of topological field annotations
//! such as `TopoField:VF-LK`.

use vstd::prelude::*;

use crate::features::FeatureMap;
use crate::text::{after_last, has_char, chars_of, find_last_split_start, lemma_last_split_start, string_of_range};

verus! {

pub open spec fn key_topo_field() -> Seq<char> {
    seq!['T', 'o', 'p', 'o', 'F', 'i', 'e', 'l', 'd']
}

/// Why a topological field annotation cannot be rewritten.
#[derive(Debug, Clone, Copy, PartialEq, Eq, Structural)]
pub enum TopoError {
    /// The `TopoField` feature has no value.
    MissingValue,
}

/// The part of `topo` after its last `-`.
pub fn most_specific_topo(topo: &str) -> (res: String)
    ensures
        res@ == after_last(topo@, '-'),
{
    let cs = chars_of(topo);
    let start = find_last_split_start(&cs, '-');
    proof {
        lemma_last_split_start(cs@, '-');
    }
    let res = string_of_range(&cs, start, cs.len());
    assert(res@ =~= after_last(topo@, '-'));
    res
}

/// Keeping the most specific part twice gives what keeping it once gives.
pub proof fn law_most_specific_idempotent(topo: Seq<char>)
    ensures
        after_last(after_last(topo, '-'), '-') == after_last(topo, '-'),
{
    crate::text::lemma_after_last_has_no_sep(topo, '-');
    crate::text::lemma_after_last_without_sep(after_last(topo, '-'), '-');
}

/// Replaces the `TopoField` value in `misc` by its most specific part.
/// Without a `TopoField` feature nothing changes; a `TopoField` without a
/// value is an error, and then nothing changes.
pub fn specific_topo_token(misc: &mut FeatureMap) -> (res: Result<(), TopoError>)
    ensures
        !old(misc)@.dom().contains(seq!['T', 'o', 'p', 'o', 'F', 'i', 'e', 'l', 'd']) ==> res is Ok && final(misc)@ == old(misc)@,
        old(misc)@.dom().contains(seq!['T', 'o', 'p', 'o', 'F', 'i', 'e', 'l', 'd']) ==> match old(misc)@[seq!['T', 'o', 'p', 'o', 'F', 'i', 'e', 'l', 'd']] {
            None => res is Err && final(misc)@ == old(misc)@,
            Some(t) => res is Ok && final(misc)@ == old(misc)@.insert(
                seq!['T', 'o', 'p', 'o', 'F', 'i', 'e', 'l', 'd'],
                Some(after_last(t, '-')),
            ),
        },
{
    let key = "TopoField".to_owned();
    proof {
        reveal_strlit("TopoField");
        assert(key@ =~= key_topo_field());
    }
    let specific = match misc.get(&key) {
        None => {
            return Ok(());
        },
        Some(None) => {
            return Err(TopoError::MissingValue);
        },
        Some(Some(topo)) => most_specific_topo(topo.as_str()),
    };
    misc.insert(key, Some(specific));
    Ok(())
}

/// The most specific part of an annotation is what follows its last `-`:
/// for a part without `-` after a prefix that is empty or ends with `-`,
/// it is that part.
pub proof fn law_most_specific_parts(prefix: Seq<char>, last: Seq<char>)
    requires
        !has_char(last, '-'),
        prefix.len() == 0 || prefix.last() == '-',
    ensures
        after_last(prefix + last, '-') == last,
{
    let s = prefix + last;
    crate::text::lemma_last_split_start(s, '-');
    let l = crate::text::last_split_start(s, '-');
    let n = prefix.len() as int;
    if l < n {
        assert(s[n - 1] == prefix.last());
    }
    if l > n {
        assert(s[l - 1] == last[l - 1 - n]);
    }
    assert(l == n);
    assert(s.skip(n) =~= last);
}

} // verus!
