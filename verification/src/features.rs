//! A map from feature names to optional values, as found in the feature and
//! miscellaneous columns of CoNLL-X and CoNLL-U files.
//!
//! The map is held as a list of entries. Its view is the map in which the
//! first entry for a key gives that key's value, so every list of entries
//! stands for exactly one map and no invariant has to be kept.

use vstd::prelude::*;

verus! {

/// The view of an optional string.
pub open spec fn opt_view(o: Option<String>) -> Option<Seq<char>> {
    match o {
        Some(s) => Some(s@),
        None => None,
    }
}

/// A copy of an optional string.
pub fn clone_opt(o: &Option<String>) -> (res: Option<String>)
    ensures
        opt_view(res) == opt_view(*o),
{
    match o {
        Some(s) => Some(s.clone()),
        None => None,
    }
}

/// The view of one entry of a feature list.
pub open spec fn entry_view(e: (String, Option<String>)) -> (Seq<char>, Option<Seq<char>>) {
    (e.0@, opt_view(e.1))
}

/// The map that a list of entries stands for: the first entry for a key
/// gives the key's value.
pub open spec fn assoc_view(s: Seq<(Seq<char>, Option<Seq<char>>)>) -> Map<
    Seq<char>,
    Option<Seq<char>>,
>
    decreases s.len(),
{
    if s.len() == 0 {
        Map::empty()
    } else {
        let m = assoc_view(s.drop_last());
        if m.dom().contains(s.last().0) {
            m
        } else {
            m.insert(s.last().0, s.last().1)
        }
    }
}

/// A key bound in a prefix of the list keeps its binding in every longer
/// prefix.
pub proof fn lemma_assoc_view_prefix(
    s: Seq<(Seq<char>, Option<Seq<char>>)>,
    i: int,
    j: int,
    k: Seq<char>,
)
    requires
        0 <= i <= j <= s.len(),
        assoc_view(s.take(i)).dom().contains(k),
    ensures
        assoc_view(s.take(j)).dom().contains(k),
        assoc_view(s.take(j))[k] == assoc_view(s.take(i))[k],
    decreases j - i,
{
    if j > i {
        lemma_assoc_view_prefix(s, i, j - 1, k);
        assert(s.take(j).drop_last() == s.take(j - 1));
    }
}

/// The domain of the map of a list is the set of its keys.
pub proof fn lemma_assoc_view_dom(s: Seq<(Seq<char>, Option<Seq<char>>)>, k: Seq<char>)
    ensures
        assoc_view(s).dom().contains(k) <==> exists|i: int| 0 <= i < s.len() && s[i].0 == k,
    decreases s.len(),
{
    if s.len() > 0 {
        lemma_assoc_view_dom(s.drop_last(), k);
        if exists|i: int| 0 <= i < s.len() && s[i].0 == k {
            let i = choose|i: int| 0 <= i < s.len() && s[i].0 == k;
            if i < s.len() - 1 {
                assert(s.drop_last()[i].0 == k);
            }
        }
        if exists|i: int| 0 <= i < s.len() - 1 && s.drop_last()[i].0 == k {
            let i = choose|i: int| 0 <= i < s.len() - 1 && s.drop_last()[i].0 == k;
            assert(s[i].0 == k);
        }
    }
}

/// Feature names with optional values.
#[derive(Debug)]
pub struct FeatureMap {
    entries: Vec<(String, Option<String>)>,
}

impl FeatureMap {
    /// The views of the entries, in order.
    pub closed spec fn entries_view(&self) -> Seq<(Seq<char>, Option<Seq<char>>)> {
        self.entries@.map_values(|e: (String, Option<String>)| entry_view(e))
    }
}

impl View for FeatureMap {
    type V = Map<Seq<char>, Option<Seq<char>>>;

    closed spec fn view(&self) -> Map<Seq<char>, Option<Seq<char>>> {
        assoc_view(self.entries_view())
    }
}

impl FeatureMap {
    /// The empty map.
    pub fn new() -> (res: FeatureMap)
        ensures
            res@ == Map::<Seq<char>, Option<Seq<char>>>::empty(),
    {
        FeatureMap { entries: Vec::new() }
    }

    /// The entries of the map in the order in which they were added. Where
    /// two entries share a key, the first one gives its value.
    pub fn entries(&self) -> (res: &Vec<(String, Option<String>)>)
        ensures
            assoc_view(res@.map_values(|e: (String, Option<String>)| entry_view(e))) == self@,
    {
        &self.entries
    }

    /// The position of the first entry for `key`, or the number of entries.
    fn position(&self, key: &String) -> (res: usize)
        ensures
            res <= self.entries@.len(),
            forall|j: int| 0 <= j < res ==> self.entries_view()[j].0 != key@,
            res < self.entries@.len() ==> self.entries_view()[res as int].0 == key@,
            !assoc_view(self.entries_view().take(res as int)).dom().contains(key@),
    {
        let ghost s = self.entries_view();
        let mut i: usize = 0;
        while i < self.entries.len()
            invariant
                i <= self.entries@.len(),
                s == self.entries_view(),
                s.len() == self.entries@.len(),
                forall|j: int| 0 <= j < i ==> s[j].0 != key@,
            ensures
                i <= self.entries@.len(),
                forall|j: int| 0 <= j < i ==> s[j].0 != key@,
                i < self.entries@.len() ==> s[i as int].0 == key@,
            decreases self.entries@.len() - i,
        {
            if self.entries[i].0 == *key {
                break;
            }
            i = i + 1;
        }
        proof {
            lemma_assoc_view_dom(s.take(i as int), key@);
        }
        i
    }

    /// The value bound to `key`, if `key` is bound.
    pub fn get(&self, key: &String) -> (res: Option<&Option<String>>)
        ensures
            res.is_some() <==> self@.dom().contains(key@),
            res matches Some(v) ==> opt_view(*v) == self@[key@],
    {
        let ghost s = self.entries_view();
        let i = self.position(key);
        proof {
            lemma_assoc_view_dom(s, key@);
            assert(s.take(s.len() as int) == s);
        }
        if i < self.entries.len() {
            proof {
                assert(s.take(i + 1).drop_last() == s.take(i as int));
                lemma_assoc_view_prefix(s, i + 1, s.len() as int, key@);
            }
            Some(&self.entries[i].1)
        } else {
            None
        }
    }

    /// A copy of the map.
    pub fn copy(&self) -> (res: FeatureMap)
        ensures
            res@ == self@,
    {
        let mut entries: Vec<(String, Option<String>)> = Vec::new();
        let mut i: usize = 0;
        while i < self.entries.len()
            invariant
                i <= self.entries@.len(),
                entries@.len() == i,
                entries@.map_values(|e: (String, Option<String>)| entry_view(e))
                    == self.entries_view().take(i as int),
            decreases self.entries@.len() - i,
        {
            let ghost before = entries@;
            let e = (self.entries[i].0.clone(), clone_opt(&self.entries[i].1));
            assert(entry_view(e) == self.entries_view()[i as int]);
            entries.push(e);
            proof {
                let after = entries@.map_values(|e: (String, Option<String>)| entry_view(e));
                assert(entries@ == before.push(e));
                assert forall|j: int| 0 <= j < i + 1 implies after[j] == self.entries_view().take(
                    i + 1,
                )[j] by {
                    if j < i {
                        assert(entries@[j] == before[j]);
                        assert(before.map_values(|e: (String, Option<String>)| entry_view(e))[j]
                            == self.entries_view().take(i as int)[j]);
                    }
                }
                assert(after =~= self.entries_view().take(i + 1));
            }
            i = i + 1;
        }
        let res = FeatureMap { entries };
        proof {
            assert(res.entries_view() =~= self.entries_view());
        }
        res
    }

    /// Whether `key` is bound.
    pub fn contains_key(&self, key: &String) -> (res: bool)
        ensures
            res == self@.dom().contains(key@),
    {
        self.get(key).is_some()
    }

    /// Whether no key is bound.
    pub fn is_empty(&self) -> (res: bool)
        ensures
            res == (self@.dom() == Set::<Seq<char>>::empty()),
    {
        proof {
            let s = self.entries_view();
            if s.len() > 0 {
                lemma_assoc_view_dom(s, s[0].0);
                assert(self@.dom().contains(s[0].0));
            } else {
                assert(self@.dom() =~= Set::<Seq<char>>::empty());
            }
        }
        self.entries.len() == 0
    }

    /// Binds `key` to `value`, replacing an earlier value of `key`.
    pub fn insert(&mut self, key: String, value: Option<String>)
        ensures
            final(self)@ == old(self)@.insert(key@, opt_view(value)),
    {
        let ghost old_s = self.entries_view();
        let i = self.position(&key);
        if i < self.entries.len() {
            self.entries.set(i, (key, value));
            proof {
                let new_s = self.entries_view();
                assert(new_s == old_s.update(i as int, (key@, opt_view(value))));
                self.lemma_update_view(old_s, new_s, i as int, new_s.len() as int);
                assert(new_s.take(new_s.len() as int) == new_s);
                assert(old_s.take(old_s.len() as int) == old_s);
            }
        } else {
            self.entries.push((key, value));
            proof {
                let new_s = self.entries_view();
                assert(new_s.drop_last() == old_s);
                assert(old_s.take(old_s.len() as int) == old_s);
            }
        }
    }

    /// Replacing the value of the first entry for a key changes the map of
    /// every prefix that holds that entry by binding the new value.
    proof fn lemma_update_view(
        &self,
        old_s: Seq<(Seq<char>, Option<Seq<char>>)>,
        new_s: Seq<(Seq<char>, Option<Seq<char>>)>,
        i: int,
        j: int,
    )
        requires
            0 <= i < j <= old_s.len(),
            new_s.len() == old_s.len(),
            new_s == old_s.update(i, (old_s[i].0, new_s[i].1)),
            !assoc_view(old_s.take(i)).dom().contains(old_s[i].0),
        ensures
            assoc_view(new_s.take(j)) == assoc_view(old_s.take(j)).insert(old_s[i].0, new_s[i].1),
        decreases j - i,
    {
        let k = old_s[i].0;
        assert(new_s.take(j).drop_last() == new_s.take(j - 1));
        assert(old_s.take(j).drop_last() == old_s.take(j - 1));
        if j == i + 1 {
            assert(new_s.take(i) == old_s.take(i));
        } else {
            self.lemma_update_view(old_s, new_s, i, j - 1);
            assert(new_s[j - 1] == old_s[j - 1]);
            assert(old_s.take(i + 1).drop_last() == old_s.take(i));
            lemma_assoc_view_prefix(old_s, i + 1, j - 1, k);
        }
    }

    /// Removes every entry for `key`.
    pub fn remove(&mut self, key: &String)
        ensures
            final(self)@ == old(self)@.remove(key@),
    {
        let ghost old_s = self.entries_view();
        let mut kept: Vec<(String, Option<String>)> = Vec::new();
        let mut i: usize = 0;
        while i < self.entries.len()
            invariant
                i <= self.entries@.len(),
                old_s == self.entries_view(),
                old_s.len() == self.entries@.len(),
                assoc_view(kept@.map_values(|e: (String, Option<String>)| entry_view(e)))
                    == assoc_view(old_s.take(i as int)).remove(key@),
            decreases self.entries@.len() - i,
        {
            let ghost kept_before = kept@.map_values(
                |e: (String, Option<String>)| entry_view(e),
            );
            assert(old_s.take(i + 1).drop_last() == old_s.take(i as int));
            if !(self.entries[i].0 == *key) {
                let k = self.entries[i].0.clone();
                let v = match &self.entries[i].1 {
                    Some(s) => Some(s.clone()),
                    None => None,
                };
                kept.push((k, v));
                proof {
                    let kept_after = kept@.map_values(
                        |e: (String, Option<String>)| entry_view(e),
                    );
                    assert(kept_after.drop_last() == kept_before);
                    assert(kept_after.last() == old_s[i as int]);
                    assert(assoc_view(kept_after) =~= assoc_view(old_s.take(i + 1)).remove(
                        key@,
                    ));
                }
            } else {
                assert(assoc_view(old_s.take(i + 1)).remove(key@) =~= assoc_view(
                    old_s.take(i as int),
                ).remove(key@));
            }
            i = i + 1;
        }
        proof {
            assert(old_s.take(old_s.len() as int) == old_s);
        }
        self.entries = kept;
    }
}

} // verus!
