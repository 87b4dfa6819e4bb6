//! Turning named-entity annotations with identifiers, such as
//! `NE:ORG_1627129-LOC_1627129a`, into IOB tags such as `NE:B-ORG`.
//!
//! Within a sentence a token continues the entity of the token before it
//! (`I-`) when both carry the same entity identifier; otherwise it begins
//! an entity (`B-`). Tokens without a named-entity feature are outside any
//! entity (`O`).

use vstd::prelude::*;

use crate::de_iob::{de_iob_spec, key_ne_tag, ne_tag_sliceable, DeIobOutcome, tag_prefix, utf8_width};
use crate::features::{opt_view, FeatureMap};
use crate::text::{
    after_first, before_first, chars_of, concat_chars, find_char, has_char, lemma_first_index_of,
    same_chars, string_of_range,
};

verus! {

/// The first entity of a chain of entities.
pub open spec fn entity_head(ud_entity: Seq<char>) -> Seq<char> {
    before_first(ud_entity, '-')
}

/// Whether the first entity of `ud_entity` separates its label from its
/// identifier by `_`.
pub open spec fn has_entity_separator(ud_entity: Seq<char>) -> bool {
    has_char(entity_head(ud_entity), '_')
}

/// The label of the first entity, such as `ORG`.
pub open spec fn entity_label(ud_entity: Seq<char>) -> Seq<char> {
    before_first(entity_head(ud_entity), '_')
}

/// The identifier of the first entity, such as `1627129`.
pub open spec fn entity_id(ud_entity: Seq<char>) -> Seq<char> {
    after_first(entity_head(ud_entity), '_')
}

/// The IOB tag of an entity and the identifier of the entity that the next
/// token may continue.
pub open spec fn fixup_spec(ud_entity: Seq<char>, last_id: Option<Seq<char>>) -> (
    Seq<char>,
    Option<Seq<char>>,
) {
    let id = entity_id(ud_entity);
    if last_id == Some(id) {
        (seq!['I', '-'] + entity_label(ud_entity), last_id)
    } else {
        (seq!['B', '-'] + entity_label(ud_entity), Some(id))
    }
}

/// Whether the first entity of `ud_entity` has a label-identifier separator.
pub fn entity_has_separator(ud_entity: &str) -> (res: bool)
    ensures
        res == has_entity_separator(ud_entity@),
{
    let cs = chars_of(ud_entity);
    let end = find_char(&cs, '-');
    let mut i: usize = 0;
    while i < end
        invariant
            cs@ == ud_entity@,
            end == crate::text::first_index_of(cs@, '-'),
            end <= cs.len(),
            i <= end,
            forall|j: int| 0 <= j < i ==> cs@[j] != '_',
        decreases end - i,
    {
        if cs[i] == '_' {
            proof {
                assert(entity_head(ud_entity@)[i as int] == '_');
            }
            return true;
        }
        i = i + 1;
    }
    proof {
        let h = entity_head(ud_entity@);
        assert forall|j: int| 0 <= j < h.len() implies h[j] != '_' by {
            assert(h[j] == cs@[j]);
        }
    }
    false
}

/// Replaces the entity annotation `ud_entity` by its IOB tag and keeps track
/// of the identifier of the current entity (see `fixup_spec`).
pub fn fixup_entity(ud_entity: &mut String, last_id: &mut Option<String>)
    requires
        has_entity_separator(old(ud_entity)@),
    ensures
        (final(ud_entity)@, opt_view(*final(last_id))) == fixup_spec(
            old(ud_entity)@,
            opt_view(*old(last_id)),
        ),
{
    let cs = chars_of(ud_entity.as_str());
    let end = find_char(&cs, '-');
    let head = string_of_range(&cs, 0, end);
    let hs = chars_of(head.as_str());
    let sep = find_char(&hs, '_');
    proof {
        assert(hs@ =~= entity_head(ud_entity@));
        lemma_first_index_of(hs@, '_');
    }
    let id = string_of_range(&hs, sep + 1, hs.len());
    let label_chars = chars_of(string_of_range(&hs, 0, sep).as_str());
    assert(id@ =~= entity_id(old(ud_entity)@));
    assert(label_chars@ =~= entity_label(old(ud_entity)@));
    let same = match &*last_id {
        Some(last) => same_chars(id.as_str(), last.as_str()),
        None => false,
    };
    let mut prefix: Vec<char> = Vec::new();
    if same {
        prefix.push('I');
        prefix.push('-');
        assert(prefix@ =~= seq!['I', '-']);
        *ud_entity = concat_chars(&prefix, &label_chars);
    } else {
        prefix.push('B');
        prefix.push('-');
        assert(prefix@ =~= seq!['B', '-']);
        *ud_entity = concat_chars(&prefix, &label_chars);
        *last_id = Some(id);
    }
}

/// Why a token cannot be tagged.
#[derive(Debug, Clone, Copy, PartialEq, Eq, Structural)]
pub enum NeIobError {
    /// The `NE` feature has no value.
    MissingEntity,
}

/// The effect of tagging one token: its new miscellaneous features and the
/// identifier that the next token may continue, or `None` for a named-entity
/// feature without a value.
pub open spec fn encode_step(m: Map<Seq<char>, Option<Seq<char>>>, last_id: Option<Seq<char>>) -> Option<
    (Map<Seq<char>, Option<Seq<char>>>, Option<Seq<char>>),
> {
    if !m.dom().contains(key_ne_tag()) {
        Some((m.insert(key_ne_tag(), Some(seq!['O'])), None))
    } else {
        match m[key_ne_tag()] {
            None => None,
            Some(e) => {
                let (tag, next) = fixup_spec(e, last_id);
                Some((m.insert(key_ne_tag(), Some(tag)), next))
            },
        }
    }
}

/// Whether tagging a token with features `m` would find an entity whose
/// first part has no label-identifier separator.
pub open spec fn entity_lacks_separator(m: Map<Seq<char>, Option<Seq<char>>>) -> bool {
    &&& m.dom().contains(key_ne_tag())
    &&& m[key_ne_tag()] is Some
    &&& !has_entity_separator(m[key_ne_tag()]->0)
}

/// Tags one token of a sentence (see `encode_step`); `last_id` carries the
/// current entity from token to token and starts as `None` in each
/// sentence. On an error nothing changes.
pub fn iob_encode_token(misc: &mut FeatureMap, last_id: &mut Option<String>) -> (res: Result<
    (),
    NeIobError,
>)
    requires
        !entity_lacks_separator(old(misc)@),
    ensures
        match encode_step(old(misc)@, opt_view(*old(last_id))) {
            None => res is Err && final(misc)@ == old(misc)@ && opt_view(*final(last_id))
                == opt_view(*old(last_id)),
            Some((m, next)) => res is Ok && final(misc)@ == m && opt_view(*final(last_id)) == next,
        },
{
    let key = "NE".to_owned();
    proof {
        reveal_strlit("NE");
        assert(key@ =~= key_ne_tag());
    }
    let mut entity = match misc.get(&key) {
        None => {
            let outside = "O".to_owned();
            proof {
                reveal_strlit("O");
                assert(outside@ =~= seq!['O']);
            }
            misc.insert(key, Some(outside));
            *last_id = None;
            return Ok(());
        },
        Some(None) => {
            return Err(NeIobError::MissingEntity);
        },
        Some(Some(e)) => e.clone(),
    };
    fixup_entity(&mut entity, last_id);
    misc.insert(key, Some(entity));
    Ok(())
}

/// Tagging the tokens of a sentence one after the other from `last_id`:
/// the tags, or `None` when some token cannot be tagged.
pub open spec fn encode_run(
    ms: Seq<Map<Seq<char>, Option<Seq<char>>>>,
    last_id: Option<Seq<char>>,
) -> Option<Seq<Map<Seq<char>, Option<Seq<char>>>>>
    decreases ms.len(),
{
    if ms.len() == 0 {
        Some(Seq::empty())
    } else {
        match encode_step(ms[0], last_id) {
            None => None,
            Some((m, next)) => match encode_run(ms.drop_first(), next) {
                None => None,
                Some(rest) => Some(seq![m] + rest),
            },
        }
    }
}

/// The tag of a tagged token.
pub open spec fn tag_of(m: Map<Seq<char>, Option<Seq<char>>>) -> Seq<char> {
    m[key_ne_tag()]->0
}

/// Every tagged token has a tag that is `O` or that starts with `B-` or
/// `I-`; the tokens of a tagged sentence can all be rewritten back into
/// entity and chunk features.
pub proof fn law_encoded_tags_rewrite(
    m: Map<Seq<char>, Option<Seq<char>>>,
    last_id: Option<Seq<char>>,
)
    requires
        encode_step(m, last_id) is Some,
    ensures
        ({
            let (m2, _next) = encode_step(m, last_id)->0;
            let tag = tag_of(m2);
            &&& m2.dom().contains(key_ne_tag())
            &&& m2[key_ne_tag()] is Some
            &&& tag == seq!['O'] || (tag.len() >= 2 && (tag[0] == 'B' || tag[0] == 'I') && tag[1]
                == '-')
            &&& ne_tag_sliceable(m2)
            &&& de_iob_spec(m2) is Rewritten
        }),
{
    let (m2, _next) = encode_step(m, last_id)->0;
    let tag = tag_of(m2);
    assert(m2[key_ne_tag()] == Some(tag));
    if tag == seq!['O'] {
        assert(utf8_width(tag[0]) == 1);
        assert(tag_prefix(tag) == tag);
    } else {
        assert(tag.len() >= 2);
        assert(utf8_width(tag[0]) == 1 && utf8_width(tag[1]) == 1);
        assert(tag_prefix(tag) =~= seq![tag[0], tag[1]]);
        if tag[0] == 'B' {
            assert(tag_prefix(tag) =~= seq!['B', '-']);
        } else {
            assert(tag_prefix(tag) =~= seq!['I', '-']);
        }
    }
}

/// In a tagged sentence the first token never continues an entity, and a
/// token that continues an entity (`I-`) follows one that is inside an
/// entity (`B-` or `I-`, not `O`).
pub proof fn law_continuation_follows_entity(
    ms: Seq<Map<Seq<char>, Option<Seq<char>>>>,
    i: int,
)
    requires
        encode_run(ms, None) is Some,
        0 <= i < ms.len(),
        tag_of(encode_run(ms, None)->0[i])[0] == 'I',
    ensures
        i > 0,
        tag_of(encode_run(ms, None)->0[i - 1]) != seq!['O'],
{
    lemma_run_continuation(ms, None, i);
}

/// A successful run tags every token.
proof fn lemma_run_len(ms: Seq<Map<Seq<char>, Option<Seq<char>>>>, last_id: Option<Seq<char>>)
    ensures
        encode_run(ms, last_id) matches Some(out) ==> out.len() == ms.len(),
    decreases ms.len(),
{
    if ms.len() > 0 {
        if let Some((m, next)) = encode_step(ms[0], last_id) {
            lemma_run_len(ms.drop_first(), next);
        }
    }
}

/// The generalisation of `law_continuation_follows_entity` to a run that
/// starts from any `last_id`.
proof fn lemma_run_continuation(
    ms: Seq<Map<Seq<char>, Option<Seq<char>>>>,
    last_id: Option<Seq<char>>,
    i: int,
)
    requires
        encode_run(ms, last_id) is Some,
        0 <= i < ms.len(),
        tag_of(encode_run(ms, last_id)->0[i])[0] == 'I',
    ensures
        last_id is None ==> i > 0,
        i > 0 ==> tag_of(encode_run(ms, last_id)->0[i - 1]) != seq!['O'],
    decreases ms.len(),
{
    let (m, next) = encode_step(ms[0], last_id)->0;
    let rest = encode_run(ms.drop_first(), next)->0;
    let out = encode_run(ms, last_id)->0;
    lemma_run_len(ms.drop_first(), next);
    assert(out == seq![m] + rest);
    if i == 0 {
        assert(out[0] == m);
        let tag = tag_of(m);
        if !ms[0].dom().contains(key_ne_tag()) {
            assert(tag == seq!['O']);
        } else {
            let e = ms[0][key_ne_tag()]->0;
            if last_id is None {
                assert(tag == seq!['B', '-'] + entity_label(e));
                assert(tag[0] == 'B');
            }
        }
    } else {
        assert(out[i] == rest[i - 1]);
        lemma_run_continuation(ms.drop_first(), next, i - 1);
        if i - 1 == 0 {
            // The token before continues from `next`, which is set only by a
            // token inside an entity.
            assert(next is Some);
            assert(out[0] == m);
            let tag = tag_of(m);
            assert(ms[0].dom().contains(key_ne_tag()));
            let e = ms[0][key_ne_tag()]->0;
            assert(tag[0] == 'I' || tag[0] == 'B') by {
                if last_id == Some(entity_id(e)) {
                    assert(tag == seq!['I', '-'] + entity_label(e));
                } else {
                    assert(tag == seq!['B', '-'] + entity_label(e));
                }
            }
            assert(tag != seq!['O']);
        } else {
            assert(out[i - 1] == rest[i - 2]);
        }
    }
}

/// An annotation made of a label without `_` or `-`, `_`, an identifier
/// without `-`, and optionally `-` with further entities: its tag is `I-`
/// and the label when the identifier is that of the entity before, and then
/// the current entity stays; otherwise its tag is `B-` and the label, and
/// the identifier becomes the current entity. Entities after the first
/// `-` play no part.
pub proof fn law_fixup_parts(
    label: Seq<char>,
    id: Seq<char>,
    rest: Seq<char>,
    last_id: Option<Seq<char>>,
)
    requires
        !has_char(label, '_'),
        !has_char(label, '-'),
        !has_char(id, '-'),
        rest.len() == 0 || rest[0] == '-',
    ensures
        has_entity_separator(label + seq!['_'] + id + rest),
        fixup_spec(label + seq!['_'] + id + rest, last_id) == if last_id == Some(id) {
            (seq!['I', '-'] + label, last_id)
        } else {
            (seq!['B', '-'] + label, Some(id))
        },
{
    let e = label + seq!['_'] + id + rest;
    let head = label + seq!['_'] + id;
    let n = head.len() as int;
    lemma_first_index_of(e, '-');
    let f = crate::text::first_index_of(e, '-');
    assert(forall|j: int| 0 <= j < label.len() ==> e[j] == label[j]);
    assert(e[label.len() as int] == '_');
    assert(forall|j: int| 0 <= j < id.len() ==> e[label.len() + 1 + j] == id[j]);
    if f < n {
        if f < label.len() {
            assert(label[f] == '-');
        } else if f > label.len() {
            assert(id[f - label.len() - 1] == '-');
        }
    }
    if f > n {
        assert(e[n] == rest[0]);
    }
    assert(f == n);
    assert(entity_head(e) =~= head);
    lemma_first_index_of(head, '_');
    let g = crate::text::first_index_of(head, '_');
    assert(head[label.len() as int] == '_');
    if g < label.len() {
        assert(head[g] == label[g]);
    }
    assert(g == label.len());
    assert(has_char(head, '_'));
    assert(entity_label(e) =~= label);
    assert(entity_id(e) =~= id);
}

/// Tagging a token: without a named-entity feature it is tagged `O` and
/// ends the current entity; a named-entity feature without a value cannot
/// be tagged; an annotation `label_id...` is tagged as `law_fixup_parts`
/// says. No other feature changes.
pub proof fn law_encode_token(
    m: Map<Seq<char>, Option<Seq<char>>>,
    last_id: Option<Seq<char>>,
    label: Seq<char>,
    id: Seq<char>,
    rest: Seq<char>,
)
    ensures
        !m.dom().contains(seq!['N', 'E']) ==> encode_step(m, last_id) == Some(
            (m.insert(seq!['N', 'E'], Some(seq!['O'])), None::<Seq<char>>),
        ),
        m.dom().contains(seq!['N', 'E']) && m[seq!['N', 'E']] is None ==> encode_step(m, last_id)
            is None,
        m.dom().contains(seq!['N', 'E']) && m[seq!['N', 'E']] == Some(
            label + seq!['_'] + id + rest,
        ) && !has_char(label, '_') && !has_char(label, '-') && !has_char(id, '-') && (rest.len()
            == 0 || rest[0] == '-') ==> encode_step(m, last_id) == if last_id == Some(id) {
            Some((m.insert(seq!['N', 'E'], Some(seq!['I', '-'] + label)), last_id))
        } else {
            Some((m.insert(seq!['N', 'E'], Some(seq!['B', '-'] + label)), Some(id)))
        },
{
    assert(key_ne_tag() =~= seq!['N', 'E']);
    if !has_char(label, '_') && !has_char(label, '-') && !has_char(id, '-') && (rest.len() == 0
        || rest[0] == '-') {
        law_fixup_parts(label, id, rest, last_id);
    }
}

} // verus!
