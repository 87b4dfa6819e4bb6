//! Rewriting IOB-encoded named-entity features (`NE:B-PER`) into an entity
//! feature and a chunk feature (`ne:PER|ne_chunk:B`).

use vstd::prelude::*;

use crate::features::FeatureMap;
use crate::text::{chars_of, string_of, string_of_range};
use crate::token::{opt_features_view, ConllxToken};

verus! {

pub open spec fn key_ne_tag() -> Seq<char> {
    seq!['N', 'E']
}

pub open spec fn key_entity() -> Seq<char> {
    seq!['n', 'e']
}

pub open spec fn key_chunk() -> Seq<char> {
    seq!['n', 'e', '_', 'c', 'h', 'u', 'n', 'k']
}

/// The number of bytes of `c` in UTF-8.
pub open spec fn utf8_width(c: char) -> int {
    if (c as u32) < 0x80 {
        1
    } else if (c as u32) < 0x800 {
        2
    } else if (c as u32) < 0x10000 {
        3
    } else {
        4
    }
}

/// Whether the first two bytes of the UTF-8 encoding of `tag` end on a
/// character boundary, or `tag` has fewer than two bytes: that is, whether
/// the first two bytes of `tag` can be sliced off.
pub open spec fn prefix_on_boundary(tag: Seq<char>) -> bool {
    ||| tag.len() == 0
    ||| utf8_width(tag[0]) == 2
    ||| (utf8_width(tag[0]) == 1 && (tag.len() == 1 || utf8_width(tag[1]) == 1))
}

/// The characters in the first two bytes of `tag` (all of `tag` when it is
/// shorter), given `prefix_on_boundary(tag)`.
pub open spec fn tag_prefix(tag: Seq<char>) -> Seq<char> {
    if tag.len() == 0 {
        tag
    } else if utf8_width(tag[0]) == 2 {
        tag.take(1)
    } else if tag.len() == 1 {
        tag
    } else {
        tag.take(2)
    }
}

/// Why a named-entity feature cannot be rewritten.
#[derive(Debug)]
pub enum DeIobError {
    /// The `NE` feature has no value.
    MissingTag,
    /// The value starts with neither `B-` nor `I-` and is not `O`; the
    /// first two bytes of the value.
    UnknownPrefix(String),
}

/// The specification's view of a rewrite.
pub enum DeIobOutcome {
    Rewritten(Map<Seq<char>, Option<Seq<char>>>),
    MissingTag,
    UnknownPrefix(Seq<char>),
}

/// The features after rewriting the named-entity feature of `m`: the `NE`
/// feature is dropped; an `O` tag adds nothing; `B-X` and `I-X` add `ne:X`
/// and `ne_chunk:B` or `ne_chunk:I`.
pub open spec fn de_iob_spec(m: Map<Seq<char>, Option<Seq<char>>>) -> DeIobOutcome {
    if !m.dom().contains(key_ne_tag()) {
        DeIobOutcome::Rewritten(m)
    } else {
        match m[key_ne_tag()] {
            None => DeIobOutcome::MissingTag,
            Some(tag) => {
                let rest = m.remove(key_ne_tag());
                let prefix = tag_prefix(tag);
                if prefix == seq!['O'] {
                    DeIobOutcome::Rewritten(rest)
                } else if prefix == seq!['B', '-'] {
                    DeIobOutcome::Rewritten(
                        rest.insert(key_entity(), Some(tag.skip(2))).insert(
                            key_chunk(),
                            Some(seq!['B']),
                        ),
                    )
                } else if prefix == seq!['I', '-'] {
                    DeIobOutcome::Rewritten(
                        rest.insert(key_entity(), Some(tag.skip(2))).insert(
                            key_chunk(),
                            Some(seq!['I']),
                        ),
                    )
                } else {
                    DeIobOutcome::UnknownPrefix(prefix)
                }
            },
        }
    }
}

/// The outcome of `rewrite_features` as the specification sees it.
pub open spec fn rewrite_outcome(res: Result<FeatureMap, DeIobError>) -> DeIobOutcome {
    match res {
        Ok(m) => DeIobOutcome::Rewritten(m@),
        Err(DeIobError::MissingTag) => DeIobOutcome::MissingTag,
        Err(DeIobError::UnknownPrefix(p)) => DeIobOutcome::UnknownPrefix(p@),
    }
}

/// Whether the value of the `NE` feature in `m`, if there is one, can have
/// its first two bytes sliced off.
pub open spec fn ne_tag_sliceable(m: Map<Seq<char>, Option<Seq<char>>>) -> bool {
    m.dom().contains(key_ne_tag()) && m[key_ne_tag()] is Some ==> prefix_on_boundary(
        m[key_ne_tag()]->0,
    )
}

/// The number of bytes of `c` in UTF-8.
fn char_width(c: char) -> (res: u8)
    ensures
        res == utf8_width(c),
{
    let code = c as u32;
    if code < 0x80 {
        1
    } else if code < 0x800 {
        2
    } else if code < 0x10000 {
        3
    } else {
        4
    }
}

/// Rewrites the named-entity feature of `old_features` (see `de_iob_spec`).
pub fn rewrite_features(old_features: &FeatureMap) -> (res: Result<FeatureMap, DeIobError>)
    requires
        ne_tag_sliceable(old_features@),
    ensures
        rewrite_outcome(res) == de_iob_spec(old_features@),
{
    let ne = "NE".to_owned();
    proof {
        reveal_strlit("NE");
        assert(ne@ =~= key_ne_tag());
    }
    let mut new_features = old_features.copy();
    new_features.remove(&ne);
    match old_features.get(&ne) {
        None => {
            assert(old_features@.remove(ne@) =~= old_features@);
            Ok(new_features)
        },
        Some(None) => Err(DeIobError::MissingTag),
        Some(Some(tag)) => {
            let cs = chars_of(tag.as_str());
            let n = cs.len();
            let prefix_len: usize = if n == 0 {
                0
            } else if char_width(cs[0]) == 2 {
                1
            } else if n == 1 {
                1
            } else {
                2
            };
            assert(cs@.take(prefix_len as int) == tag_prefix(tag@));
            if prefix_len == 1 && cs[0] == 'O' {
                assert(tag_prefix(tag@) =~= seq!['O']);
                Ok(new_features)
            } else if prefix_len == 2 && (cs[0] == 'B' || cs[0] == 'I') && cs[1] == '-' {
                let chunk_char = cs[0];
                let entity = string_of_range(&cs, 2, n);
                let key_ne = "ne".to_owned();
                let key_ne_chunk = "ne_chunk".to_owned();
                let mut chunk_chars: Vec<char> = Vec::new();
                chunk_chars.push(chunk_char);
                let chunk = string_of(&chunk_chars);
                proof {
                    reveal_strlit("ne");
                    reveal_strlit("ne_chunk");
                    assert(key_ne@ =~= key_entity());
                    assert(key_ne_chunk@ =~= key_chunk());
                    assert(cs@.skip(2) =~= cs@.subrange(2, n as int));
                    if chunk_char == 'B' {
                        assert(tag_prefix(tag@) =~= seq!['B', '-']);
                        assert(chunk@ =~= seq!['B']);
                    } else {
                        assert(tag_prefix(tag@) =~= seq!['I', '-']);
                        assert(tag_prefix(tag@) != seq!['B', '-']);
                        assert(chunk@ =~= seq!['I']);
                    }
                    assert(tag_prefix(tag@) != seq!['O']);
                }
                new_features.insert(key_ne, Some(entity));
                new_features.insert(key_ne_chunk, Some(chunk));
                Ok(new_features)
            } else {
                let prefix = string_of_range(&cs, 0, prefix_len);
                proof {
                    assert(cs@.subrange(0, prefix_len as int) =~= cs@.take(prefix_len as int));
                    if tag_prefix(tag@) =~= seq!['O'] {
                        assert(tag_prefix(tag@)[0] == 'O');
                    }
                    if tag_prefix(tag@) =~= seq!['B', '-'] || tag_prefix(tag@) =~= seq!['I', '-'] {
                        assert(tag_prefix(tag@)[1] == '-');
                    }
                }
                Err(DeIobError::UnknownPrefix(prefix))
            }
        },
    }
}

/// Rewrites the named-entity feature of `token` (see `de_iob_spec`). A token
/// left without features gets none at all. On an error the token is left as
/// it was.
pub fn de_iob_token(token: &mut ConllxToken) -> (res: Result<(), DeIobError>)
    requires
        old(token).features matches Some(m) ==> ne_tag_sliceable(m@),
    ensures
        final(token).form == old(token).form,
        final(token).cpos == old(token).cpos,
        final(token).pos == old(token).pos,
        old(token).features is None ==> res is Ok && opt_features_view(final(token).features)
            == opt_features_view(old(token).features),
        old(token).features matches Some(m) ==> match de_iob_spec(m@) {
            DeIobOutcome::Rewritten(n) => res is Ok && opt_features_view(final(token).features)
                == (if n.dom() == Set::<Seq<char>>::empty() {
                None
            } else {
                Some(n)
            }),
            DeIobOutcome::MissingTag => res matches Err(DeIobError::MissingTag)
                && opt_features_view(final(token).features) == opt_features_view(
                old(token).features,
            ),
            DeIobOutcome::UnknownPrefix(p) => res matches Err(DeIobError::UnknownPrefix(q)) && q@
                == p && opt_features_view(final(token).features) == opt_features_view(
                old(token).features,
            ),
        },
{
    let new_features = match &token.features {
        None => {
            return Ok(());
        },
        Some(old_features) => rewrite_features(old_features),
    };
    match new_features {
        Ok(m) => {
            if m.is_empty() {
                token.features = None;
            } else {
                token.features = Some(m);
            }
            Ok(())
        },
        Err(e) => Err(e),
    }
}

/// A rewritten feature map holds no `NE` feature any more, and keeps every
/// other feature except `ne` and `ne_chunk`.
pub proof fn law_de_iob_drops_ne_tag(m: Map<Seq<char>, Option<Seq<char>>>)
    requires
        de_iob_spec(m) is Rewritten,
    ensures
        ({
            let n = de_iob_spec(m)->Rewritten_0;
            &&& !n.dom().contains(key_ne_tag())
            &&& forall|k: Seq<char>|
                k != key_ne_tag() && k != key_entity() && k != key_chunk() && #[trigger] m.dom().contains(k)
                    ==> n.dom().contains(k) && n[k] == m[k]
        }),
{
    assert(key_entity()[0] != key_ne_tag()[0]);
    assert(key_chunk().len() != key_ne_tag().len());
}

/// A tag `B-X` or `I-X` is rewritten into `ne:X`, with all of `X`, and
/// `ne_chunk:B` or `ne_chunk:I`, so that the chunk letter, `-` and the
/// entity give the tag back; the tag `O` is dropped and nothing is added;
/// every other feature is kept.
pub proof fn law_de_iob_tags(m: Map<Seq<char>, Option<Seq<char>>>, tag: Seq<char>)
    requires
        m.dom().contains(seq!['N', 'E']),
        m[seq!['N', 'E']] == Some(tag),
    ensures
        tag.len() >= 2 && (tag[0] == 'B' || tag[0] == 'I') && tag[1] == '-' ==> {
            &&& de_iob_spec(m) is Rewritten
            &&& de_iob_spec(m)->Rewritten_0.dom().contains(seq!['n', 'e'])
            &&& de_iob_spec(m)->Rewritten_0[seq!['n', 'e']] == Some(tag.skip(2))
            &&& de_iob_spec(m)->Rewritten_0.dom().contains(
                seq!['n', 'e', '_', 'c', 'h', 'u', 'n', 'k'],
            )
            &&& de_iob_spec(m)->Rewritten_0[seq!['n', 'e', '_', 'c', 'h', 'u', 'n', 'k']] == Some(
                seq![tag[0]],
            )
            &&& seq![tag[0], '-'] + tag.skip(2) == tag
        },
        tag == seq!['O'] ==> de_iob_spec(m) == DeIobOutcome::Rewritten(m.remove(seq!['N', 'E'])),
{
    if tag.len() >= 2 && (tag[0] == 'B' || tag[0] == 'I') && tag[1] == '-' {
        assert(utf8_width(tag[0]) == 1 && utf8_width(tag[1]) == 1);
        assert(tag_prefix(tag) =~= seq![tag[0], tag[1]]);
        if tag[0] == 'B' {
            assert(tag_prefix(tag) =~= seq!['B', '-']);
        } else {
            assert(tag_prefix(tag) =~= seq!['I', '-']);
            assert(tag_prefix(tag) != seq!['B', '-']);
        }
        assert(tag_prefix(tag) != seq!['O']);
        assert(key_chunk().len() != key_entity().len());
        assert(seq![tag[0], '-'] + tag.skip(2) =~= tag);
        assert(seq![tag[0]] =~= if tag[0] == 'B' { seq!['B'] } else { seq!['I'] });
    }
    if tag == seq!['O'] {
        assert(utf8_width(tag[0]) == 1);
        assert(tag_prefix(tag) == tag);
    }
}

/// A tag that is not `O` and does not start with `B-` or `I-` cannot be
/// rewritten; a named-entity feature without a value cannot be rewritten;
/// features without a named-entity feature are kept as they are.
pub proof fn law_de_iob_rejects(m: Map<Seq<char>, Option<Seq<char>>>)
    ensures
        !m.dom().contains(seq!['N', 'E']) ==> de_iob_spec(m) == DeIobOutcome::Rewritten(m),
        m.dom().contains(seq!['N', 'E']) && m[seq!['N', 'E']] is None ==> de_iob_spec(m)
            == DeIobOutcome::MissingTag,
        m.dom().contains(seq!['N', 'E']) && m[seq!['N', 'E']] is Some ==> ({
            let tag = m[seq!['N', 'E']]->0;
            tag != seq!['O'] && !(tag.len() >= 2 && (tag[0] == 'B' || tag[0] == 'I') && tag[1]
                == '-') ==> de_iob_spec(m) is UnknownPrefix
        }),
{
    assert(key_ne_tag() =~= seq!['N', 'E']);
    if m.dom().contains(seq!['N', 'E']) && m[seq!['N', 'E']] is Some {
        let tag = m[seq!['N', 'E']]->0;
        let p = tag_prefix(tag);
        if tag != seq!['O'] && !(tag.len() >= 2 && (tag[0] == 'B' || tag[0] == 'I') && tag[1]
            == '-') {
            if p == seq!['O'] {
                assert(p[0] == 'O');
                if tag.len() > 0 && utf8_width(tag[0]) == 2 {
                    assert(p[0] == tag[0]);
                } else if tag.len() == 1 {
                    assert(tag == p);
                }
            }
            if p == seq!['B', '-'] || p == seq!['I', '-'] {
                assert(p.len() == 2);
                assert(p[0] == tag[0] && p[1] == tag[1]);
            }
        }
    }
}

} // verus!
