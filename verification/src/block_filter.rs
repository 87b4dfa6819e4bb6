//! Filtering text blocks (one per line): dropping blocks with Unicode
//! replacement characters, and removing `<br>` tags and dropping blocks
//! with other HTML tags.

use vstd::prelude::*;

use crate::patterns::{
    compile_regex, compile_set, regex_compiles, regex_replace_all, regex_replace_all_result,
    regex_set_compiles, regex_set_is_match_result, set_is_match, CompiledRegex, CompiledSet,
    patterns_view,
};
use crate::text::{chars_of, has_char};

verus! {

/// The pattern of line breaks.
pub open spec fn br_pattern() -> Seq<char> {
    "<br */?>"@
}

/// The patterns of HTML tags.
pub open spec fn html_tag_patterns() -> Seq<Seq<char>> {
    seq!["<[^>]+/>"@, "<[[:alnum:]:]+>"@, "<[[:alnum:]:]+ [^>]+=[^>]+>"@, "</[[:alnum:]]"@]
}

/// The Unicode replacement character.
pub open spec fn replacement_char() -> char {
    '\u{FFFD}'
}

/// Why a filter cannot be made.
#[derive(Debug, Clone, Copy, PartialEq, Eq, Structural)]
pub enum FilterError {
    /// A pattern does not compile.
    InvalidPattern,
}

/// What to filter, and the expressions for HTML.
#[derive(Debug)]
pub struct BlockFilter {
    html: bool,
    replacement: bool,
    html_res: Option<(CompiledRegex, CompiledSet)>,
}

/// What the filter makes of a block: `None` to drop it, or the block to
/// keep. With `replacement`, blocks with a replacement character are
/// dropped; with `html`, line breaks become spaces and blocks that still
/// hold HTML tags are dropped.
pub open spec fn filter_spec(html: bool, replacement: bool, line: Seq<char>) -> Option<Seq<char>> {
    if replacement && has_char(line, replacement_char()) {
        None
    } else if html {
        let cleaned = regex_replace_all_result(br_pattern(), line, seq![' ']);
        if regex_set_is_match_result(html_tag_patterns(), cleaned) {
            None
        } else {
            Some(cleaned)
        }
    } else {
        Some(line)
    }
}

impl BlockFilter {
    /// Whether the filter removes HTML.
    pub closed spec fn spec_html(&self) -> bool {
        self.html
    }

    /// Whether the filter drops blocks with replacement characters.
    pub closed spec fn spec_replacement(&self) -> bool {
        self.replacement
    }

    /// Whether the filter holds the expressions it needs.
    pub closed spec fn wf(&self) -> bool {
        self.html ==> (self.html_res matches Some((br, tags)) && br@ == br_pattern() && tags@
            == html_tag_patterns())
    }

    /// A filter. The HTML expressions are compiled only when `html` is set;
    /// the filter cannot be made when they do not compile.
    pub fn new(html: bool, replacement: bool) -> (res: Result<BlockFilter, FilterError>)
        ensures
            res is Ok <==> (html ==> regex_compiles(br_pattern()) && regex_set_compiles(
                html_tag_patterns(),
            )),
            res matches Ok(f) ==> f.wf() && f.spec_html() == html && f.spec_replacement()
                == replacement,
    {
        if !html {
            return Ok(BlockFilter { html, replacement, html_res: None });
        }
        let br = match compile_regex("<br */?>") {
            Ok(br) => br,
            Err(_) => {
                return Err(FilterError::InvalidPattern);
            },
        };
        let mut patterns: Vec<String> = Vec::new();
        patterns.push("<[^>]+/>".to_owned());
        patterns.push("<[[:alnum:]:]+>".to_owned());
        patterns.push("<[[:alnum:]:]+ [^>]+=[^>]+>".to_owned());
        patterns.push("</[[:alnum:]]".to_owned());
        assert(patterns_view(patterns@) =~= html_tag_patterns());
        let tags = match compile_set(patterns) {
            Ok(tags) => tags,
            Err(_) => {
                return Err(FilterError::InvalidPattern);
            },
        };
        Ok(BlockFilter { html, replacement, html_res: Some((br, tags)) })
    }

    /// Filters one block (see `filter_spec`).
    pub fn filter_line(&self, line: &str) -> (res: Option<String>)
        requires
            self.wf(),
        ensures
            match res {
                Some(s) => filter_spec(self.spec_html(), self.spec_replacement(), line@) == Some(s@),
                None => filter_spec(self.spec_html(), self.spec_replacement(), line@) is None,
            },
    {
        if self.replacement && contains_char(line, '\u{FFFD}') {
            return None;
        }
        if self.html {
            match &self.html_res {
                Some((br, tags)) => {
                    proof {
                        reveal_strlit(" ");
                        assert(" "@ =~= seq![' ']);
                    }
                    let cleaned = regex_replace_all(br, line, " ");
                    if set_is_match(tags, cleaned.as_str()) {
                        None
                    } else {
                        Some(cleaned)
                    }
                },
                None => None,
            }
        } else {
            Some(line.to_owned())
        }
    }
}

/// Whether `c` occurs in `s`.
pub fn contains_char(s: &str, c: char) -> (res: bool)
    ensures
        res == has_char(s@, c),
{
    let cs = chars_of(s);
    let mut i: usize = 0;
    while i < cs.len()
        invariant
            cs@ == s@,
            i <= cs.len(),
            forall|j: int| 0 <= j < i ==> cs@[j] != c,
        decreases cs.len() - i,
    {
        if cs[i] == c {
            return true;
        }
        i = i + 1;
    }
    false
}

/// With `replacement`, every kept block comes from a block without
/// replacement characters; without `html`, a kept block is the block itself.
pub proof fn law_kept_blocks(html: bool, replacement: bool, line: Seq<char>)
    ensures
        replacement && filter_spec(html, replacement, line) is Some ==> !has_char(
            line,
            replacement_char(),
        ),
        !html && !(replacement && has_char(line, replacement_char())) ==> filter_spec(
            html,
            replacement,
            line,
        ) == Some(line),
{
}

/// With `--html`, a block is kept exactly when it passes the replacement
/// check (if asked for) and, once its line breaks are spaces, matches none of
/// the HTML tag patterns; the kept block is that cleaned block. This holds
/// whether or not replacement characters are checked.
pub proof fn law_html_blocks(replacement: bool, line: Seq<char>)
    ensures
        ({
            let cleaned = regex_replace_all_result("<br */?>"@, line, seq![' ']);
            let tags = seq![
                "<[^>]+/>"@,
                "<[[:alnum:]:]+>"@,
                "<[[:alnum:]:]+ [^>]+=[^>]+>"@,
                "</[[:alnum:]]"@,
            ];
            &&& regex_set_is_match_result(tags, cleaned) ==> filter_spec(true, replacement, line)
                is None
            &&& (replacement && has_char(line, '\u{FFFD}')) ==> filter_spec(true, replacement, line)
                is None
            &&& !regex_set_is_match_result(tags, cleaned) && !(replacement && has_char(
                line,
                '\u{FFFD}',
            )) ==> filter_spec(true, replacement, line) == Some(cleaned)
            &&& filter_spec(true, replacement, line) matches Some(s) ==> s == cleaned
                && !regex_set_is_match_result(tags, s)
        }),
{
}

/// Without `--html`, a block is kept unchanged unless replacement characters
/// are checked and it holds one.
pub proof fn law_plain_blocks(replacement: bool, line: Seq<char>)
    ensures
        filter_spec(false, replacement, line) == if replacement && has_char(line, '\u{FFFD}') {
            None
        } else {
            Some(line)
        },
{
}

} // verus!
