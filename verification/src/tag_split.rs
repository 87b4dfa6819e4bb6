//! Splitting combined tags such as `NOUN-NN` into a universal part-of-speech
//! tag and an STTS tag.

use vstd::prelude::*;

use crate::text::{after_first, before_first, chars_of, find_char, has_char, lemma_first_index_of, string_of_range};
use crate::token::ConllxToken;

verus! {

/// Why the tags of a token cannot be split.
#[derive(Debug, Clone, Copy, PartialEq, Eq, Structural)]
pub enum SplitError {
    /// The tag holds no `-`.
    TagWithoutSeparator,
}

/// Splits `pos` at its first `-`: the part before it and the part after it.
pub fn split_tag(pos: &str) -> (res: Option<(String, String)>)
    ensures
        res is None <==> !has_char(pos@, '-'),
        res matches Some((ut, stts)) ==> {
            &&& ut@ == before_first(pos@, '-')
            &&& stts@ == after_first(pos@, '-')
            &&& ut@ + seq!['-'] + stts@ == pos@
            &&& !has_char(ut@, '-')
        },
{
    let cs = chars_of(pos);
    let sep = find_char(&cs, '-');
    if sep == cs.len() {
        return None;
    }
    let ut = string_of_range(&cs, 0, sep);
    let stts = string_of_range(&cs, sep + 1, cs.len());
    proof {
        lemma_first_index_of(cs@, '-');
        assert(ut@ =~= before_first(pos@, '-'));
        assert(stts@ =~= after_first(pos@, '-'));
        assert(ut@ + seq!['-'] + stts@ =~= pos@);
    }
    Some((ut, stts))
}

/// Moves the universal part of a combined tag to the coarse tag and keeps the
/// rest as the fine tag. A token without a fine tag is left as it is; a fine
/// tag without `-` is an error, and then the token is left as it is.
pub fn split_token_tags(token: &mut ConllxToken) -> (res: Result<(), SplitError>)
    ensures
        final(token).form == old(token).form,
        final(token).features == old(token).features,
        old(token).pos is None ==> res is Ok && final(token).cpos == old(token).cpos
            && final(token).pos == old(token).pos,
        old(token).pos matches Some(p) ==> {
            if has_char(p@, '-') {
                &&& res is Ok
                &&& final(token).cpos matches Some(ut) && ut@ == before_first(p@, '-')
                &&& final(token).pos matches Some(stts) && stts@ == after_first(p@, '-')
            } else {
                &&& res is Err
                &&& final(token).cpos == old(token).cpos
                &&& final(token).pos == old(token).pos
            }
        },
{
    let split = match &token.pos {
        None => {
            return Ok(());
        },
        Some(pos) => split_tag(pos.as_str()),
    };
    match split {
        None => Err(SplitError::TagWithoutSeparator),
        Some((ut, stts)) => {
            token.cpos = Some(ut);
            token.pos = Some(stts);
            Ok(())
        },
    }
}

} // verus!
