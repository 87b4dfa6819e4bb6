//! Lining up gold and predicted named-entity annotations of the same
//! sentences: one line per token with its form, its gold entity and its
//! predicted entity, separated by tabs.

use vstd::prelude::*;

use crate::de_iob::key_ne_tag;
use crate::text::{append_str, push_char};
use crate::token::Node;

verus! {

/// Why a node has no entity.
#[derive(Debug, Clone, Copy, PartialEq, Eq, Structural)]
pub enum EntityError {
    /// The node is the root.
    NotAToken,
    /// The token has no `NE` feature.
    MissingFeature,
    /// The `NE` feature of the token has no value.
    MissingValue,
}

/// Why two sentences cannot be lined up.
#[derive(Debug, Clone, Copy, PartialEq, Eq, Structural)]
pub enum MergeError {
    /// The sentences differ in length.
    LengthMismatch,
    /// A gold node has no entity.
    Gold(EntityError),
    /// A predicted node has no entity.
    Predicted(EntityError),
}

/// The entity of a node: the value of the `NE` feature of a token.
pub open spec fn entity_of(node: Node) -> Result<Seq<char>, EntityError> {
    match node {
        Node::Root => Err(EntityError::NotAToken),
        Node::Token(t) => if !t.misc@.dom().contains(key_ne_tag()) {
            Err(EntityError::MissingFeature)
        } else {
            match t.misc@[key_ne_tag()] {
                None => Err(EntityError::MissingValue),
                Some(e) => Ok(e),
            }
        },
    }
}

/// The entity of `node` (see `entity_of`).
pub fn get_entity(node: &Node) -> (res: Result<&str, EntityError>)
    ensures
        match entity_of(*node) {
            Ok(e) => res matches Ok(s) && s@ == e,
            Err(err) => res == Err::<&str, EntityError>(err),
        },
{
    match node {
        Node::Root => Err(EntityError::NotAToken),
        Node::Token(token) => {
            let key = "NE".to_owned();
            proof {
                reveal_strlit("NE");
                assert(key@ =~= key_ne_tag());
            }
            match token.misc.get(&key) {
                None => Err(EntityError::MissingFeature),
                Some(None) => Err(EntityError::MissingValue),
                Some(Some(e)) => Ok(e.as_str()),
            }
        },
    }
}

/// The line of a token: its form, its gold entity and its predicted
/// entity, separated by tabs.
pub open spec fn merged_line(form: Seq<char>, gold: Seq<char>, predicted: Seq<char>) -> Seq<char> {
    form + seq!['\t'] + gold + seq!['\t'] + predicted
}

/// The lines of two sentences of the same length, up to the first node
/// without an entity, and the error of that node if there is one. Only the
/// gold tokens give lines; the root gives none.
pub open spec fn merge_spec(gold: Seq<Node>, predicted: Seq<Node>) -> (
    Seq<Seq<char>>,
    Option<MergeError>,
)
    decreases gold.len(),
{
    if gold.len() == 0 || predicted.len() == 0 {
        (Seq::empty(), None)
    } else {
        match gold[0] {
            Node::Root => merge_spec(gold.drop_first(), predicted.drop_first()),
            Node::Token(t) => match entity_of(gold[0]) {
                Err(e) => (Seq::empty(), Some(MergeError::Gold(e))),
                Ok(g) => match entity_of(predicted[0]) {
                    Err(e) => (Seq::empty(), Some(MergeError::Predicted(e))),
                    Ok(p) => {
                        let (lines, err) = merge_spec(gold.drop_first(), predicted.drop_first());
                        (seq![merged_line(t.form@, g, p)] + lines, err)
                    },
                },
            },
        }
    }
}

/// The views of a list of lines.
pub open spec fn lines_view(lines: Seq<String>) -> Seq<Seq<char>> {
    lines.map_values(|l: String| l@)
}

/// Lines up the tokens of a gold and a predicted sentence. The lines are
/// those of the tokens up to the first one without an entity; the error, if
/// any, is that of this token, or a length mismatch, for which there are no
/// lines.
pub fn merge_sentence(gold: &Vec<Node>, predicted: &Vec<Node>) -> (res: (
    Vec<String>,
    Option<MergeError>,
))
    ensures
        gold.len() != predicted.len() ==> res.0@.len() == 0 && res.1 == Some(
            MergeError::LengthMismatch,
        ),
        gold.len() == predicted.len() ==> (lines_view(res.0@), res.1) == merge_spec(
            gold@,
            predicted@,
        ),
{
    let mut lines: Vec<String> = Vec::new();
    if gold.len() != predicted.len() {
        return (lines, Some(MergeError::LengthMismatch));
    }
    proof {
        reveal_strlit("\t");
        assert("\t"@ =~= seq!['\t']);
        assert(gold@.skip(0) == gold@);
        assert(predicted@.skip(0) == predicted@);
    }
    let mut i: usize = 0;
    while i < gold.len()
        invariant
            gold.len() == predicted.len(),
            i <= gold.len(),
            "\t"@ == seq!['\t'],
            ({
                let (rest, err) = merge_spec(gold@.skip(i as int), predicted@.skip(i as int));
                merge_spec(gold@, predicted@) == (lines_view(lines@) + rest, err)
            }),
        decreases gold.len() - i,
    {
        let ghost g_rest = gold@.skip(i as int);
        let ghost p_rest = predicted@.skip(i as int);
        assert(g_rest.drop_first() == gold@.skip(i + 1));
        assert(p_rest.drop_first() == predicted@.skip(i + 1));
        assert(g_rest[0] == gold@[i as int]);
        assert(p_rest[0] == predicted@[i as int]);
        match &gold[i] {
            Node::Root => {
                assert(merge_spec(g_rest, p_rest) == merge_spec(
                    gold@.skip(i + 1),
                    predicted@.skip(i + 1),
                ));
            },
            Node::Token(token) => {
                let g = match get_entity(&gold[i]) {
                    Ok(g) => g,
                    Err(e) => {
                        return (lines, Some(MergeError::Gold(e)));
                    },
                };
                let p = match get_entity(&predicted[i]) {
                    Ok(p) => p,
                    Err(e) => {
                        return (lines, Some(MergeError::Predicted(e)));
                    },
                };
                let mut line = token.form.clone();
                push_char(&mut line, '\t');
                append_str(&mut line, g);
                push_char(&mut line, '\t');
                append_str(&mut line, p);
                let ghost before = lines@;
                lines.push(line);
                proof {
                    assert(line@ == merged_line(token.form@, g@, p@));
                    assert(lines_view(lines@) =~= lines_view(before) + seq![line@]);
                    let (rest, err) = merge_spec(gold@.skip(i + 1), predicted@.skip(i + 1));
                    assert(merge_spec(g_rest, p_rest) == (seq![line@] + rest, err));
                    assert(lines_view(before) + (seq![line@] + rest) =~= lines_view(lines@)
                        + rest);
                }
            },
        }
        i = i + 1;
    }
    proof {
        assert(gold@.skip(i as int).len() == 0);
        assert(lines_view(lines@) + Seq::<Seq<char>>::empty() =~= lines_view(lines@));
    }
    (lines, None)
}

/// The number of token nodes in `nodes`.
pub open spec fn token_count(nodes: Seq<Node>) -> nat
    decreases nodes.len(),
{
    if nodes.len() == 0 {
        0
    } else {
        (if nodes[0] is Token {
            1nat
        } else {
            0nat
        }) + token_count(nodes.drop_first())
    }
}

/// Two sentences of the same length that line up without an error give
/// one line per gold token.
pub proof fn law_one_line_per_token(gold: Seq<Node>, predicted: Seq<Node>)
    requires
        gold.len() == predicted.len(),
        merge_spec(gold, predicted).1 is None,
    ensures
        merge_spec(gold, predicted).0.len() == token_count(gold),
    decreases gold.len(),
{
    if gold.len() > 0 {
        law_one_line_per_token(gold.drop_first(), predicted.drop_first());
    }
}

/// The value of the `NE` feature of a token node, if it has one with a value.
pub open spec fn ne_value(node: Node) -> Option<Seq<char>> {
    match node {
        Node::Token(t) => if t.misc@.dom().contains(seq!['N', 'E']) {
            t.misc@[seq!['N', 'E']]
        } else {
            None
        },
        Node::Root => None,
    }
}

/// The line of a gold token: the token's form, a tab, its gold `NE` value, a
/// tab and the `NE` value of the predicted token at the same position,
/// unchanged. When every token before position `k` has both values, the
/// token at `k` gives the line after those of the tokens before it.
pub proof fn law_merged_line_of_token(gold: Seq<Node>, predicted: Seq<Node>, k: int)
    requires
        gold.len() == predicted.len(),
        0 <= k < gold.len(),
        gold[k] is Token,
        ne_value(gold[k]) is Some,
        ne_value(predicted[k]) is Some,
        forall|j: int|
            0 <= j < k ==> (#[trigger] gold[j] is Root) || (ne_value(gold[j]) is Some && ne_value(
                predicted[j],
            ) is Some),
    ensures
        merge_spec(gold, predicted).0.len() > token_count(gold.take(k)),
        merge_spec(gold, predicted).0[token_count(gold.take(k)) as int] == (gold[k]->Token_0).form@
            + seq!['\t'] + ne_value(gold[k])->0 + seq!['\t'] + ne_value(predicted[k])->0,
    decreases k,
{
    let g0 = gold[0];
    if k == 0 {
        assert(gold.take(0).len() == 0);
    } else {
        let rest_g = gold.drop_first();
        let rest_p = predicted.drop_first();
        assert forall|j: int| 0 <= j < k - 1 implies (#[trigger] rest_g[j] is Root) || (ne_value(
            rest_g[j],
        ) is Some && ne_value(rest_p[j]) is Some) by {
            assert(rest_g[j] == gold[j + 1] && rest_p[j] == predicted[j + 1]);
            assert(gold[j + 1] is Root || (ne_value(gold[j + 1]) is Some && ne_value(predicted[j + 1]) is Some));
        }
        assert(rest_g[k - 1] == gold[k] && rest_p[k - 1] == predicted[k]);
        law_merged_line_of_token(rest_g, rest_p, k - 1);
        assert(gold.take(k).drop_first() =~= rest_g.take(k - 1));
        assert(gold[0] is Root || (ne_value(gold[0]) is Some && ne_value(predicted[0]) is Some));
        assert(gold.take(k)[0] == gold[0]);
    }
}

/// The entity of a node is the value of its `NE` feature: the root has
/// none, a token without the feature misses it, and a token whose feature
/// has no value misses the value.
pub proof fn law_entity_is_ne_value(node: Node)
    ensures
        node is Root ==> entity_of(node) == Err::<Seq<char>, EntityError>(EntityError::NotAToken),
        node matches Node::Token(t) ==> {
            &&& !t.misc@.dom().contains(seq!['N', 'E']) ==> entity_of(node) == Err::<
                Seq<char>,
                EntityError,
            >(EntityError::MissingFeature)
            &&& t.misc@.dom().contains(seq!['N', 'E']) && t.misc@[seq!['N', 'E']] is None
                ==> entity_of(node) == Err::<Seq<char>, EntityError>(EntityError::MissingValue)
            &&& ne_value(node) matches Some(v) ==> entity_of(node) == Ok::<
                Seq<char>,
                EntityError,
            >(v)
        },
{
    assert(key_ne_tag() =~= seq!['N', 'E']);
}

} // verus!
