//! Regular expressions, compiled and run by the `regex` crate. A compiled
//! expression keeps the pattern it was compiled from, which is its view.

use vstd::prelude::*;

verus! {

#[verifier::external_type_specification]
#[verifier::external_body]
pub struct ExRegex(regex::Regex);

#[verifier::external_type_specification]
#[verifier::external_body]
pub struct ExRegexSet(regex::RegexSet);

#[verifier::external_type_specification]
#[verifier::external_body]
pub struct ExRegexError(regex::Error);

/// Whether `regex` compiles `pattern`.
pub uninterp spec fn regex_compiles(pattern: Seq<char>) -> bool;

/// What `regex` gives for replacing every match of `pattern` in `haystack`
/// by `rep`.
pub uninterp spec fn regex_replace_all_result(
    pattern: Seq<char>,
    haystack: Seq<char>,
    rep: Seq<char>,
) -> Seq<char>;

/// Whether `regex` compiles every pattern of `patterns` into one set.
pub uninterp spec fn regex_set_compiles(patterns: Seq<Seq<char>>) -> bool;

/// Whether one of `patterns` matches somewhere in `haystack`, as `regex`
/// decides it.
pub uninterp spec fn regex_set_is_match_result(patterns: Seq<Seq<char>>, haystack: Seq<char>) -> bool;

/// A regular expression compiled from a pattern.
#[derive(Debug)]
pub struct CompiledRegex {
    pattern: String,
    re: regex::Regex,
}

impl View for CompiledRegex {
    type V = Seq<char>;

    closed spec fn view(&self) -> Seq<char> {
        self.pattern@
    }
}

/// A set of regular expressions compiled from a list of patterns.
#[derive(Debug)]
pub struct CompiledSet {
    patterns: Vec<String>,
    set: regex::RegexSet,
}

/// The views of a list of strings.
pub open spec fn patterns_view(v: Seq<String>) -> Seq<Seq<char>> {
    v.map_values(|s: String| s@)
}

impl View for CompiledSet {
    type V = Seq<Seq<char>>;

    closed spec fn view(&self) -> Seq<Seq<char>> {
        patterns_view(self.patterns@)
    }
}

/// Compiles `pattern` with `regex::Regex::new` and keeps the pattern with
/// the compiled expression. The contract claims that the call succeeds
/// exactly when `regex_compiles(pattern)`; which patterns compile is not
/// stated.
#[verifier::external_body]
pub(crate) fn compile_regex(pattern: &str) -> (res: Result<CompiledRegex, regex::Error>)
    ensures
        res is Ok <==> regex_compiles(pattern@),
        res matches Ok(c) ==> c@ == pattern@,
{
    match regex::Regex::new(pattern) {
        Ok(re) => Ok(CompiledRegex { pattern: pattern.to_owned(), re }),
        Err(e) => Err(e),
    }
}

/// Replaces every match of the expression in `haystack` by `rep` with
/// `regex::Regex::replace_all`. The contract claims only that the result is
/// `regex_replace_all_result` of the pattern, the haystack and the
/// replacement; what that is, is not stated.
#[verifier::external_body]
pub(crate) fn regex_replace_all(re: &CompiledRegex, haystack: &str, rep: &str) -> (res: String)
    ensures
        res@ == regex_replace_all_result(re@, haystack@, rep@),
{
    re.re.replace_all(haystack, rep).into_owned()
}

/// Compiles `patterns` into one set with `regex::RegexSet::new` and keeps
/// the patterns with it. The contract claims that the call succeeds exactly
/// when `regex_set_compiles(patterns)`.
#[verifier::external_body]
pub(crate) fn compile_set(patterns: Vec<String>) -> (res: Result<CompiledSet, regex::Error>)
    ensures
        res is Ok <==> regex_set_compiles(patterns_view(patterns@)),
        res matches Ok(c) ==> c@ == patterns_view(patterns@),
{
    match regex::RegexSet::new(&patterns) {
        Ok(set) => Ok(CompiledSet { patterns, set }),
        Err(e) => Err(e),
    }
}

/// Whether one of the expressions of the set matches somewhere in
/// `haystack`, with `regex::RegexSet::is_match`. The contract claims only
/// that the result is `regex_set_is_match_result` of the patterns and the
/// haystack.
#[verifier::external_body]
pub(crate) fn set_is_match(set: &CompiledSet, haystack: &str) -> (res: bool)
    ensures
        res == regex_set_is_match_result(set@, haystack@),
{
    set.set.is_match(haystack)
}

} // verus!
