//! Relabelling adjectival modifiers of verbs (`amod` with a `VERB` head) as
//! adverbial modifiers (`advmod`).

use vstd::prelude::*;

use crate::features::{clone_opt, opt_view};
use crate::text::same_chars;

verus! {

/// The head of a token and the relation to it.
#[derive(Debug)]
pub struct HeadRel {
    pub head: usize,
    pub relation: Option<String>,
}

/// A token of a dependency graph: its universal part-of-speech tag and its
/// head relation, if it has one.
#[derive(Debug)]
pub struct DepToken {
    pub upos: Option<String>,
    pub head: Option<HeadRel>,
}

/// The view of a token: its tag, and its head with the relation.
pub open spec fn dep_token_view(t: DepToken) -> (Option<Seq<char>>, Option<(usize, Option<Seq<char>>)>) {
    (
        opt_view(t.upos),
        match t.head {
            Some(h) => Some((h.head, opt_view(h.relation))),
            None => None,
        },
    )
}

/// The views of a list of tokens.
pub open spec fn dep_tokens_view(ts: Seq<DepToken>) -> Seq<
    (Option<Seq<char>>, Option<(usize, Option<Seq<char>>)>),
> {
    ts.map_values(|t: DepToken| dep_token_view(t))
}

/// A dependency graph. Node 0 is the root and node `i + 1` is token `i`;
/// every head is a node of the graph.
#[derive(Debug)]
pub struct DepSentence {
    tokens: Vec<DepToken>,
}

/// Whether every head in `ts` is a node of a graph with these tokens.
pub open spec fn heads_in_range(ts: Seq<(Option<Seq<char>>, Option<(usize, Option<Seq<char>>)>)>) -> bool {
    forall|i: int| 0 <= i < ts.len() && (#[trigger] ts[i]).1 is Some ==> (ts[i].1->0).0 <= ts.len()
}

/// Why a token cannot be checked.
#[derive(Debug, Clone, Copy, PartialEq, Eq, Structural)]
pub enum DepError {
    /// The node has no head.
    NoHead(usize),
    /// The node's head relation has no label.
    NoRelation(usize),
    /// The head of the node has no universal part-of-speech tag.
    NoUpos(usize),
}

pub open spec fn rel_amod() -> Seq<char> {
    seq!['a', 'm', 'o', 'd']
}

pub open spec fn rel_advmod() -> Seq<char> {
    seq!['a', 'd', 'v', 'm', 'o', 'd']
}

pub open spec fn upos_verb() -> Seq<char> {
    seq!['V', 'E', 'R', 'B']
}

/// Whether node `idx` (a token) is an adjectival modifier of a verb: its
/// head if so, `None` if not, or why it cannot be told.
pub open spec fn qualifying_spec(
    ts: Seq<(Option<Seq<char>>, Option<(usize, Option<Seq<char>>)>)>,
    idx: int,
) -> Result<Option<usize>, DepError> {
    match ts[idx - 1].1 {
        None => Err(DepError::NoHead(idx as usize)),
        Some((head, rel)) => match rel {
            None => Err(DepError::NoRelation(idx as usize)),
            Some(rel) => if head == 0 {
                Ok(None)
            } else {
                match ts[head - 1].0 {
                    None => Err(DepError::NoUpos(idx as usize)),
                    Some(pos) => if rel == rel_amod() && pos == upos_verb() {
                        Ok(Some(head))
                    } else {
                        Ok(None)
                    },
                }
            },
        },
    }
}

/// Token `i` after relabelling: an adjectival modifier of a verb becomes an
/// adverbial modifier of the same head.
pub open spec fn relabelled(
    ts: Seq<(Option<Seq<char>>, Option<(usize, Option<Seq<char>>)>)>,
    i: int,
) -> (Option<Seq<char>>, Option<(usize, Option<Seq<char>>)>) {
    match qualifying_spec(ts, i + 1) {
        Ok(Some(head)) => (ts[i].0, Some((head, Some(rel_advmod())))),
        _ => ts[i],
    }
}

/// The first token that cannot be checked, or the number of tokens.
pub open spec fn first_failure(
    ts: Seq<(Option<Seq<char>>, Option<(usize, Option<Seq<char>>)>)>,
    k: int,
) -> bool {
    &&& 0 <= k <= ts.len()
    &&& forall|j: int| 0 <= j < k ==> (#[trigger] qualifying_spec(ts, j + 1)) is Ok
    &&& k < ts.len() ==> qualifying_spec(ts, k + 1) is Err
}

impl DepSentence {
    /// The views of the tokens.
    pub closed spec fn tokens_view(&self) -> Seq<(Option<Seq<char>>, Option<(usize, Option<Seq<char>>)>)> {
        dep_tokens_view(self.tokens@)
    }

    /// The graph with the given tokens, or `None` when a head is not a node
    /// of it.
    pub fn new(tokens: Vec<DepToken>) -> (res: Option<DepSentence>)
        ensures
            res is Some <==> heads_in_range(dep_tokens_view(tokens@)),
            res matches Some(s) ==> s.tokens_view() == dep_tokens_view(tokens@),
    {
        let mut i: usize = 0;
        while i < tokens.len()
            invariant
                i <= tokens.len(),
                forall|j: int| 0 <= j < i && (#[trigger] dep_tokens_view(tokens@)[j]).1 is Some
                    ==> (dep_tokens_view(tokens@)[j].1->0).0 <= tokens.len(),
            decreases tokens.len() - i,
        {
            assert(dep_tokens_view(tokens@)[i as int] == dep_token_view(tokens@[i as int]));
            if let Some(h) = &tokens[i].head {
                if h.head > tokens.len() {
                    return None;
                }
            }
            i = i + 1;
        }
        Some(DepSentence { tokens })
    }

    /// The tokens of the graph.
    pub fn tokens(&self) -> (res: &Vec<DepToken>)
        ensures
            dep_tokens_view(res@) == self.tokens_view(),
    {
        &self.tokens
    }
}

/// Whether node `idx` is an adjectival modifier of a verb (see
/// `qualifying_spec`).
pub fn qualifying_relation(sent: &DepSentence, idx: usize) -> (res: Result<Option<usize>, DepError>)
    requires
        heads_in_range(sent.tokens_view()),
        1 <= idx <= sent.tokens_view().len(),
    ensures
        res == qualifying_spec(sent.tokens_view(), idx as int),
{
    let ghost ts = sent.tokens_view();
    let tokens = sent.tokens();
    assert(ts[idx - 1] == dep_token_view(tokens@[idx - 1]));
    let triple = match &tokens[idx - 1].head {
        None => {
            return Err(DepError::NoHead(idx));
        },
        Some(h) => h,
    };
    let rel = match &triple.relation {
        None => {
            return Err(DepError::NoRelation(idx));
        },
        Some(r) => r,
    };
    if triple.head == 0 {
        return Ok(None);
    }
    assert(ts[idx - 1].1 == Some((triple.head, Some(rel@))));
    assert(triple.head <= ts.len());
    assert(ts[triple.head - 1] == dep_token_view(tokens@[triple.head - 1]));
    let head_pos = match &tokens[triple.head - 1].upos {
        None => {
            return Err(DepError::NoUpos(idx));
        },
        Some(p) => p,
    };
    proof {
        reveal_strlit("amod");
        reveal_strlit("VERB");
        assert("amod"@ =~= rel_amod());
        assert("VERB"@ =~= upos_verb());
    }
    if same_chars(rel.as_str(), "amod") && same_chars(head_pos.as_str(), "VERB") {
        Ok(Some(triple.head))
    } else {
        Ok(None)
    }
}

/// Relabels every adjectival modifier of a verb as an adverbial modifier,
/// token by token from the first. At the first token that cannot be checked
/// it stops with that token's error: the tokens before it are relabelled,
/// the others are left as they were.
pub fn replace_verb_amod_advmod(sent: &mut DepSentence) -> (res: Result<(), DepError>)
    requires
        heads_in_range(old(sent).tokens_view()),
    ensures
        final(sent).tokens_view().len() == old(sent).tokens_view().len(),
        heads_in_range(final(sent).tokens_view()),
        exists|k: int| {
            &&& first_failure(old(sent).tokens_view(), k)
            &&& k < old(sent).tokens_view().len() ==> res == Err::<(), DepError>(
                qualifying_spec(old(sent).tokens_view(), k + 1)->Err_0,
            )
            &&& k == old(sent).tokens_view().len() ==> res is Ok
            &&& forall|j: int| 0 <= j < k ==> #[trigger] final(sent).tokens_view()[j] == relabelled(
                old(sent).tokens_view(),
                j,
            )
            &&& forall|j: int| k <= j < old(sent).tokens_view().len() ==> #[trigger] final(sent).tokens_view()[j] == old(sent).tokens_view()[j]
        },
{
    let ghost ts = sent.tokens_view();
    let n = sent.tokens.len();
    let mut i: usize = 0;
    while i < n
        invariant
            ts == old(sent).tokens_view(),
            n == ts.len(),
            heads_in_range(ts),
            i <= n,
            sent.tokens@.len() == n,
            sent.tokens_view().len() == n,
            forall|j: int| 0 <= j < i ==> (#[trigger] qualifying_spec(ts, j + 1)) is Ok,
            forall|j: int| 0 <= j < i ==> #[trigger] sent.tokens_view()[j] == relabelled(ts, j),
            forall|j: int| i <= j < n ==> #[trigger] sent.tokens_view()[j] == ts[j],
            forall|j: int| 0 <= j < n ==> (#[trigger] sent.tokens_view()[j]).0 == ts[j].0,
            forall|j: int| 0 <= j < n && (#[trigger] sent.tokens_view()[j]).1 is Some ==> (
                sent.tokens_view()[j].1->0).0 == (ts[j].1->0).0,
            forall|j: int| 0 <= j < n ==> ((#[trigger] sent.tokens_view()[j]).1 is Some <==> ts[j].1 is Some),
        decreases n - i,
    {
        let q = {
            let ghost cur = sent.tokens_view();
            let r = qualifying_relation(&*sent, i + 1);
            proof {
                // Relabelling earlier tokens changes only their relations,
                // which node `i + 1` does not read.
                assert(cur[i as int] == ts[i as int]);
                assert(qualifying_spec(cur, i + 1) == qualifying_spec(ts, i + 1)) by {
                    if let Some((head, _)) = ts[i as int].1 {
                        if head > 0 {
                            assert(cur[head - 1].0 == ts[head - 1].0);
                        }
                    }
                }
            }
            r
        };
        match q {
            Err(e) => {
                proof {
                    assert(first_failure(ts, i as int));
                }
                return Err(e);
            },
            Ok(None) => {},
            Ok(Some(head)) => {
                let ghost before = sent.tokens_view();
                let upos = clone_opt(&sent.tokens[i].upos);
                let advmod = "advmod".to_owned();
                proof {
                    reveal_strlit("advmod");
                    assert(advmod@ =~= rel_advmod());
                }
                let t = DepToken { upos, head: Some(HeadRel { head, relation: Some(advmod) }) };
                sent.tokens.set(i, t);
                proof {
                    assert(sent.tokens_view() =~= before.update(i as int, dep_token_view(t)));
                }
            },
        }
        i = i + 1;
    }
    proof {
        assert(first_failure(ts, n as int));
        assert forall|j: int| 0 <= j < n && (#[trigger] sent.tokens_view()[j]).1 is Some implies (
            sent.tokens_view()[j].1->0).0 <= sent.tokens_view().len() by {
            assert(ts[j].1 is Some);
        }
    }
    Ok(())
}

/// Relabelling twice gives what relabelling once gives, and a graph that
/// could be relabelled can be relabelled again.
pub proof fn law_relabel_idempotent(ts: Seq<(Option<Seq<char>>, Option<(usize, Option<Seq<char>>)>)>)
    requires
        heads_in_range(ts),
        forall|j: int| 0 <= j < ts.len() ==> (#[trigger] qualifying_spec(ts, j + 1)) is Ok,
    ensures
        ({
            let once = Seq::new(ts.len(), |j: int| relabelled(ts, j));
            &&& forall|j: int| 0 <= j < ts.len() ==> (#[trigger] qualifying_spec(once, j + 1)) is Ok
            &&& forall|j: int| 0 <= j < ts.len() ==> #[trigger] relabelled(once, j) == once[j]
        }),
{
    let once = Seq::new(ts.len(), |j: int| relabelled(ts, j));
    assert forall|j: int| 0 <= j < ts.len() implies (#[trigger] qualifying_spec(once, j + 1)) is Ok
        && relabelled(once, j) == once[j] by {
        assert(once[j] == relabelled(ts, j));
        if let Some((head, _)) = ts[j].1 {
            if head > 0 {
                assert(once[head - 1] == relabelled(ts, head - 1));
                assert(once[head - 1].0 == ts[head - 1].0);
            }
        }
        if qualifying_spec(ts, j + 1) matches Ok(Some(h)) {
            assert(rel_advmod()[1] != rel_amod()[1]);
        }
    }
}

/// A token whose head is a token is an adjectival modifier of a verb exactly
/// when its relation is `amod` and its head's tag is `VERB`, wherever the
/// token and its head stand in the sentence; relabelling then gives it the
/// relation `advmod` to the same head and keeps its tag, and otherwise
/// leaves it as it is. A token attached to the root never qualifies.
pub proof fn law_amod_of_verb_qualifies(
    ts: Seq<(Option<Seq<char>>, Option<(usize, Option<Seq<char>>)>)>,
    idx: int,
    head: usize,
    rel: Seq<char>,
)
    requires
        heads_in_range(ts),
        1 <= idx <= ts.len(),
        ts[idx - 1].1 == Some((head, Some(rel))),
    ensures
        head == 0 ==> qualifying_spec(ts, idx) == Ok::<Option<usize>, DepError>(None)
            && relabelled(ts, idx - 1) == ts[idx - 1],
        head > 0 && ts[head - 1].0 is Some ==> {
            let qualifies = rel == seq!['a', 'm', 'o', 'd'] && ts[head - 1].0 == Some(
                seq!['V', 'E', 'R', 'B'],
            );
            &&& qualifying_spec(ts, idx) == if qualifies {
                Ok::<Option<usize>, DepError>(Some(head))
            } else {
                Ok::<Option<usize>, DepError>(None)
            }
            &&& relabelled(ts, idx - 1) == if qualifies {
                (ts[idx - 1].0, Some((head, Some(seq!['a', 'd', 'v', 'm', 'o', 'd']))))
            } else {
                ts[idx - 1]
            }
        },
        head > 0 && ts[head - 1].0 is None ==> qualifying_spec(ts, idx) == Err::<
            Option<usize>,
            DepError,
        >(DepError::NoUpos(idx as usize)),
{
    assert(ts[idx - 1] == (ts[idx - 1].0, ts[idx - 1].1));
}

/// A token without a head, or whose head relation has no label, cannot be
/// checked, and the error names the token.
pub proof fn law_unlabelled_tokens_fail(
    ts: Seq<(Option<Seq<char>>, Option<(usize, Option<Seq<char>>)>)>,
    idx: int,
)
    requires
        1 <= idx <= ts.len(),
    ensures
        ts[idx - 1].1 is None ==> qualifying_spec(ts, idx) == Err::<Option<usize>, DepError>(
            DepError::NoHead(idx as usize),
        ),
        ts[idx - 1].1 matches Some((h, r)) && r is None ==> qualifying_spec(ts, idx) == Err::<
            Option<usize>,
            DepError,
        >(DepError::NoRelation(idx as usize)),
{
}

} // verus!
