//! Removing repeated lines: a line is kept when no earlier line has the
//! same hash.

use vstd::prelude::*;
use std::collections::HashSet;

use crate::sip::{line_hash, sip_hash_str};

verus! {

broadcast use vstd::std_specs::hash::group_hash_axioms;

/// The lines of `lines` whose hash is neither in `seen` nor that of an
/// earlier line.
pub open spec fn dedup_spec(lines: Seq<Seq<char>>, seen: Set<u64>) -> Seq<Seq<char>>
    decreases lines.len(),
{
    if lines.len() == 0 {
        Seq::empty()
    } else {
        let h = line_hash(lines[0]);
        if seen.contains(h) {
            dedup_spec(lines.drop_first(), seen)
        } else {
            seq![lines[0]] + dedup_spec(lines.drop_first(), seen.insert(h))
        }
    }
}

/// Remembers the hashes of the lines seen so far.
#[derive(Debug)]
pub struct LineDeduper {
    seen: HashSet<u64>,
}

impl View for LineDeduper {
    type V = Set<u64>;

    closed spec fn view(&self) -> Set<u64> {
        self.seen@
    }
}

impl LineDeduper {
    /// A deduplicator that has seen no line.
    pub fn new() -> (res: LineDeduper)
        ensures
            res@ == Set::<u64>::empty(),
    {
        LineDeduper { seen: HashSet::new() }
    }

    /// Records `line`; whether its hash is new, that is, whether the line is
    /// to be kept.
    pub fn insert_line(&mut self, line: &str) -> (res: bool)
        ensures
            res == !old(self)@.contains(line_hash(line@)),
            final(self)@ == old(self)@.insert(line_hash(line@)),
    {
        let h = sip_hash_str(line);
        self.seen.insert(h)
    }
}

/// The views of a list of strings.
pub open spec fn strings_view(v: Seq<String>) -> Seq<Seq<char>> {
    v.map_values(|s: String| s@)
}

/// The lines of `lines` whose hash differs from that of every earlier line.
pub fn dedup_lines(lines: &Vec<String>) -> (res: Vec<String>)
    ensures
        strings_view(res@) == dedup_spec(strings_view(lines@), Set::empty()),
{
    let ghost all = strings_view(lines@);
    let mut dedup = LineDeduper::new();
    let mut res: Vec<String> = Vec::new();
    let mut i: usize = 0;
    assert(all.skip(0) == all);
    while i < lines.len()
        invariant
            i <= lines.len(),
            all == strings_view(lines@),
            dedup_spec(all, Set::empty()) == strings_view(res@) + dedup_spec(all.skip(i as int), dedup@),
        decreases lines.len() - i,
    {
        assert(all.skip(i as int).drop_first() == all.skip(i + 1));
        assert(all.skip(i as int)[0] == lines@[i as int]@);
        let ghost before = res@;
        let ghost seen_before = dedup@;
        let fresh = dedup.insert_line(lines[i].as_str());
        proof {
            if !fresh {
                assert(seen_before.insert(line_hash(all[i as int])) =~= seen_before);
            }
        }
        if fresh {
            res.push(lines[i].clone());
            assert(strings_view(res@) =~= strings_view(before).push(lines@[i as int]@));
            assert(strings_view(before) + (seq![lines@[i as int]@] + dedup_spec(all.skip(i + 1), dedup@))
                =~= strings_view(res@) + dedup_spec(all.skip(i + 1), dedup@));
        }
        i = i + 1;
    }
    assert(strings_view(res@) + Seq::<Seq<char>>::empty() =~= strings_view(res@));
    res
}

/// Whether the lines have pairwise different hashes, none of them in `seen`.
pub open spec fn fresh_hashes(lines: Seq<Seq<char>>, seen: Set<u64>) -> bool {
    &&& forall|i: int, j: int| 0 <= i < j < lines.len() ==> line_hash(lines[i]) != line_hash(lines[j])
    &&& forall|i: int| 0 <= i < lines.len() ==> !seen.contains(#[trigger] line_hash(lines[i]))
}

/// Every kept line has a hash that is new.
proof fn lemma_dedup_fresh(lines: Seq<Seq<char>>, seen: Set<u64>)
    ensures
        fresh_hashes(dedup_spec(lines, seen), seen),
        forall|i: int| 0 <= i < dedup_spec(lines, seen).len() ==> #[trigger] lines.contains(dedup_spec(lines, seen)[i]),
    decreases lines.len(),
{
    if lines.len() > 0 {
        let h = line_hash(lines[0]);
        let rest = lines.drop_first();
        if seen.contains(h) {
            lemma_dedup_fresh(rest, seen);
            let out = dedup_spec(lines, seen);
            assert forall|i: int| 0 <= i < out.len() implies #[trigger] lines.contains(out[i]) by {
                assert(rest.contains(out[i]));
                let k = choose|k: int| 0 <= k < rest.len() && rest[k] == out[i];
                assert(lines[k + 1] == out[i]);
            }
        } else {
            lemma_dedup_fresh(rest, seen.insert(h));
            let tail = dedup_spec(rest, seen.insert(h));
            let out = dedup_spec(lines, seen);
            assert(out == seq![lines[0]] + tail);
            assert forall|i: int, j: int| 0 <= i < j < out.len() implies line_hash(out[i]) != line_hash(out[j]) by {
                if i == 0 {
                    assert(out[j] == tail[j - 1]);
                    assert(!seen.insert(h).contains(line_hash(tail[j - 1])));
                } else {
                    assert(out[i] == tail[i - 1]);
                    assert(out[j] == tail[j - 1]);
                }
            }
            assert forall|i: int| 0 <= i < out.len() implies !seen.contains(#[trigger] line_hash(out[i])) by {
                if i > 0 {
                    assert(out[i] == tail[i - 1]);
                    assert(!seen.insert(h).contains(line_hash(tail[i - 1])));
                }
            }
            assert forall|i: int| 0 <= i < out.len() implies #[trigger] lines.contains(out[i]) by {
                if i == 0 {
                    assert(lines[0] == out[0]);
                } else {
                    assert(out[i] == tail[i - 1]);
                    assert(rest.contains(tail[i - 1]));
                    let k = choose|k: int| 0 <= k < rest.len() && rest[k] == tail[i - 1];
                    assert(lines[k + 1] == out[i]);
                }
            }
        }
    }
}

/// Lines with fresh hashes are all kept.
proof fn lemma_dedup_keeps_fresh(lines: Seq<Seq<char>>, seen: Set<u64>)
    requires
        fresh_hashes(lines, seen),
    ensures
        dedup_spec(lines, seen) == lines,
    decreases lines.len(),
{
    if lines.len() > 0 {
        let h = line_hash(lines[0]);
        let rest = lines.drop_first();
        assert(!seen.contains(line_hash(lines[0])));
        assert forall|i: int, j: int| 0 <= i < j < rest.len() implies line_hash(rest[i]) != line_hash(rest[j]) by {
            assert(rest[i] == lines[i + 1] && rest[j] == lines[j + 1]);
        }
        assert forall|i: int| 0 <= i < rest.len() implies !seen.insert(h).contains(#[trigger] line_hash(rest[i])) by {
            assert(rest[i] == lines[i + 1]);
            assert(line_hash(lines[0]) != line_hash(lines[i + 1]));
        }
        lemma_dedup_keeps_fresh(rest, seen.insert(h));
        assert(seq![lines[0]] + rest =~= lines);
    }
}

/// No two kept lines share a hash, every kept line comes from the input, and
/// removing repeated lines a second time changes nothing.
pub proof fn law_dedup_idempotent(lines: Seq<Seq<char>>)
    ensures
        forall|i: int, j: int| 0 <= i < j < dedup_spec(lines, Set::empty()).len() ==> line_hash(
            dedup_spec(lines, Set::empty())[i],
        ) != line_hash(dedup_spec(lines, Set::empty())[j]),
        forall|i: int| 0 <= i < dedup_spec(lines, Set::empty()).len() ==> #[trigger] lines.contains(
            dedup_spec(lines, Set::empty())[i],
        ),
        dedup_spec(dedup_spec(lines, Set::empty()), Set::empty()) == dedup_spec(lines, Set::empty()),
{
    lemma_dedup_fresh(lines, Set::empty());
    lemma_dedup_keeps_fresh(dedup_spec(lines, Set::empty()), Set::empty());
}

/// A line whose hash is neither in `seen` nor that of an earlier line is
/// kept.
proof fn lemma_dedup_keeps_first(lines: Seq<Seq<char>>, seen: Set<u64>, i: int)
    requires
        0 <= i < lines.len(),
        !seen.contains(line_hash(lines[i])),
        forall|j: int| 0 <= j < i ==> line_hash(#[trigger] lines[j]) != line_hash(lines[i]),
    ensures
        dedup_spec(lines, seen).contains(lines[i]),
    decreases i,
{
    let h = line_hash(lines[0]);
    let rest = lines.drop_first();
    if i == 0 {
        assert(dedup_spec(lines, seen)[0] == lines[0]);
    } else {
        assert(rest[i - 1] == lines[i]);
        assert forall|j: int| 0 <= j < i - 1 implies line_hash(#[trigger] rest[j]) != line_hash(rest[i - 1]) by {
            assert(rest[j] == lines[j + 1]);
        }
        if seen.contains(h) {
            lemma_dedup_keeps_first(rest, seen, i - 1);
        } else {
            assert(line_hash(lines[0]) != line_hash(lines[i]));
            lemma_dedup_keeps_first(rest, seen.insert(h), i - 1);
            let tail = dedup_spec(rest, seen.insert(h));
            let k = choose|k: int| 0 <= k < tail.len() && tail[k] == lines[i];
            assert(dedup_spec(lines, seen)[k + 1] == lines[i]);
        }
    }
}

/// The first line with each hash is kept: a line whose hash differs from
/// those of all earlier lines is in the result. With
/// `law_dedup_idempotent`, the result holds exactly one line per hash of
/// the input.
pub proof fn law_dedup_keeps_first_lines(lines: Seq<Seq<char>>)
    ensures
        forall|i: int|
            0 <= i < lines.len() && (forall|j: int| 0 <= j < i ==> line_hash(lines[j]) != line_hash(
                lines[i],
            )) ==> #[trigger] dedup_spec(lines, Set::empty()).contains(lines[i]),
{
    assert forall|i: int|
        0 <= i < lines.len() && (forall|j: int| 0 <= j < i ==> line_hash(lines[j]) != line_hash(
            lines[i],
        )) implies #[trigger] dedup_spec(lines, Set::empty()).contains(lines[i]) by {
        lemma_dedup_keeps_first(lines, Set::empty(), i);
    }
}

} // verus!
