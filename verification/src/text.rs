//! Character-level helpers on strings: the views of the strings are
//! sequences of characters, and every helper is stated over them.

use vstd::prelude::*;

verus! {

/// std's `String::push`: appends one character at the end.
#[verifier::external_body]
pub(crate) fn push_char(s: &mut String, c: char)
    ensures
        final(s)@ == old(s)@.push(c),
{
    s.push(c);
}

/// The characters of `s`, in order.
pub fn chars_of(s: &str) -> (res: Vec<char>)
    ensures
        res@ == s@,
{
    let mut res: Vec<char> = Vec::new();
    for c in it: s.chars()
        invariant
            res@ == it.seq().take(it.index() as int),
            it.seq() == s@,
    {
        res.push(c);
    }
    res
}

/// The string made of the characters `cs[from..to]`.
pub fn string_of_range(cs: &Vec<char>, from: usize, to: usize) -> (res: String)
    requires
        from <= to <= cs.len(),
    ensures
        res@ == cs@.subrange(from as int, to as int),
{
    let mut res = String::new();
    let mut i = from;
    while i < to
        invariant
            from <= i <= to <= cs.len(),
            res@ == cs@.subrange(from as int, i as int),
        decreases to - i,
    {
        push_char(&mut res, cs[i]);
        i = i + 1;
    }
    res
}

/// The string made of all characters of `cs`.
pub fn string_of(cs: &Vec<char>) -> (res: String)
    ensures
        res@ == cs@,
{
    let res = string_of_range(cs, 0, cs.len());
    assert(cs@.subrange(0, cs@.len() as int) == cs@);
    res
}

/// The string `prefix` followed by `rest`.
pub fn concat_chars(prefix: &Vec<char>, rest: &Vec<char>) -> (res: String)
    ensures
        res@ == prefix@ + rest@,
{
    let mut res = string_of(prefix);
    let mut i: usize = 0;
    while i < rest.len()
        invariant
            i <= rest.len(),
            res@ == prefix@ + rest@.take(i as int),
        decreases rest.len() - i,
    {
        push_char(&mut res, rest[i]);
        i = i + 1;
        assert(rest@.take(i as int) == rest@.take(i - 1).push(rest@[i - 1]));
    }
    assert(rest@.take(rest@.len() as int) == rest@);
    res
}

/// Appends the characters of `t` to `s`.
pub fn append_str(s: &mut String, t: &str)
    ensures
        final(s)@ == old(s)@ + t@,
{
    let cs = chars_of(t);
    let mut i: usize = 0;
    while i < cs.len()
        invariant
            i <= cs.len(),
            cs@ == t@,
            s@ == old(s)@ + cs@.take(i as int),
        decreases cs.len() - i,
    {
        push_char(s, cs[i]);
        i = i + 1;
        assert(cs@.take(i as int) == cs@.take(i - 1).push(cs@[i - 1]));
    }
    assert(cs@.take(cs@.len() as int) == cs@);
}

/// Whether `s` and `t` hold the same characters.
pub fn same_chars(s: &str, t: &str) -> (res: bool)
    ensures
        res == (s@ == t@),
{
    let a = chars_of(s);
    let b = chars_of(t);
    if a.len() != b.len() {
        return false;
    }
    let mut i: usize = 0;
    while i < a.len()
        invariant
            i <= a.len(),
            a.len() == b.len(),
            a@ == s@,
            b@ == t@,
            forall|j: int| 0 <= j < i ==> a@[j] == b@[j],
        decreases a.len() - i,
    {
        if a[i] != b[i] {
            return false;
        }
        i = i + 1;
    }
    assert(a@ =~= b@);
    true
}

/// The index of the first occurrence of `c` in `s`, or the length of `s`
/// when `c` does not occur in it.
pub open spec fn first_index_of(s: Seq<char>, c: char) -> int
    decreases s.len(),
{
    if s.len() == 0 {
        0
    } else if s[0] == c {
        0
    } else {
        1 + first_index_of(s.drop_first(), c)
    }
}

/// `first_index_of` is the first position of `c`, or the length when absent.
pub proof fn lemma_first_index_of(s: Seq<char>, c: char)
    ensures
        0 <= first_index_of(s, c) <= s.len(),
        forall|j: int| 0 <= j < first_index_of(s, c) ==> s[j] != c,
        first_index_of(s, c) < s.len() ==> s[first_index_of(s, c)] == c,
    decreases s.len(),
{
    if s.len() > 0 && s[0] != c {
        lemma_first_index_of(s.drop_first(), c);
        assert forall|j: int| 0 <= j < first_index_of(s, c) implies s[j] != c by {
            if j > 0 {
                assert(s[j] == s.drop_first()[j - 1]);
            }
        }
    }
}

/// Whether `c` occurs in `s`.
pub open spec fn has_char(s: Seq<char>, c: char) -> bool {
    exists|i: int| 0 <= i < s.len() && s[i] == c
}

/// The index of the first `c` in `cs`, or `cs.len()` when there is none.
pub fn find_char(cs: &Vec<char>, c: char) -> (res: usize)
    ensures
        res == first_index_of(cs@, c),
        res <= cs.len(),
        res < cs.len() ==> cs@[res as int] == c,
        forall|j: int| 0 <= j < res ==> cs@[j] != c,
        res < cs.len() <==> has_char(cs@, c),
{
    proof {
        lemma_first_index_of(cs@, c);
    }
    let mut i: usize = 0;
    while i < cs.len() && cs[i] != c
        invariant
            i <= cs.len(),
            forall|j: int| 0 <= j < i ==> cs@[j] != c,
        decreases cs.len() - i,
    {
        i = i + 1;
    }
    i
}

/// The part of `s` before the first `c` (all of `s` when there is none);
/// this is the first item of splitting `s` at `c`.
pub open spec fn before_first(s: Seq<char>, c: char) -> Seq<char> {
    s.take(first_index_of(s, c))
}

/// The part of `s` after the first `c`.
pub open spec fn after_first(s: Seq<char>, c: char) -> Seq<char> {
    s.skip(first_index_of(s, c) + 1)
}

/// The position just after the last `c` in `s`, or 0 when there is none.
pub open spec fn last_split_start(s: Seq<char>, c: char) -> int
    decreases s.len(),
{
    if s.len() == 0 {
        0
    } else if s.last() == c {
        s.len() as int
    } else {
        last_split_start(s.drop_last(), c)
    }
}

/// The part of `s` after its last `c` (all of `s` when there is none);
/// this is the last item of splitting `s` at `c`.
pub open spec fn after_last(s: Seq<char>, c: char) -> Seq<char> {
    s.skip(last_split_start(s, c))
}

/// `last_split_start` lies just after an occurrence of `c` (or at 0), and
/// no `c` follows it.
pub proof fn lemma_last_split_start(s: Seq<char>, c: char)
    ensures
        0 <= last_split_start(s, c) <= s.len(),
        last_split_start(s, c) > 0 ==> s[last_split_start(s, c) - 1] == c,
        forall|j: int| last_split_start(s, c) <= j < s.len() ==> s[j] != c,
    decreases s.len(),
{
    if s.len() > 0 && s.last() != c {
        lemma_last_split_start(s.drop_last(), c);
        assert forall|j: int| last_split_start(s, c) <= j < s.len() implies s[j] != c by {
            if j < s.len() - 1 {
                assert(s[j] == s.drop_last()[j]);
            }
        }
    }
}

/// The part after the last `c` holds no `c`.
pub proof fn lemma_after_last_has_no_sep(s: Seq<char>, c: char)
    ensures
        !has_char(after_last(s, c), c),
{
    lemma_last_split_start(s, c);
    let t = after_last(s, c);
    assert forall|i: int| 0 <= i < t.len() implies t[i] != c by {
        assert(t[i] == s[last_split_start(s, c) + i]);
    }
}

/// A sequence without `c` is its own part after the last `c`.
pub proof fn lemma_after_last_without_sep(s: Seq<char>, c: char)
    requires
        !has_char(s, c),
    ensures
        after_last(s, c) == s,
{
    lemma_last_split_start(s, c);
    if last_split_start(s, c) > 0 {
        assert(s[last_split_start(s, c) - 1] == c);
    }
    assert(s.skip(0) =~= s);
}

/// The start of the last segment of `cs` when split at `c`.
pub fn find_last_split_start(cs: &Vec<char>, c: char) -> (res: usize)
    ensures
        res == last_split_start(cs@, c),
{
    let mut i: usize = cs.len();
    assert(cs@.take(cs@.len() as int) == cs@);
    while i > 0 && cs[i - 1] != c
        invariant
            i <= cs.len(),
            last_split_start(cs@, c) == last_split_start(cs@.take(i as int), c),
        decreases i,
    {
        assert(cs@.take(i as int).drop_last() == cs@.take(i - 1));
        i = i - 1;
    }
    i
}

} // verus!
