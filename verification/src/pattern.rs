//! Regular expressions of the `regex` crate, kept together with the pattern
//! they were compiled from, and what the library asks of them.

use vstd::prelude::*;
use regex::Regex;

verus! {

#[verifier::external_type_specification]
#[verifier::external_body]
pub struct ExRegex(Regex);

#[verifier::external_type_specification]
#[verifier::external_body]
pub struct ExRegexError(regex::Error);

/// Whether `regex::Regex::new` accepts `pattern`: the pattern is valid
/// syntax and the compiled program fits the default size limits. The size
/// of a compiled program is counted in memory of the target platform, so
/// for patterns near that limit this is a function of the pattern on a
/// given platform.
pub uninterp spec fn regex_accepts(pattern: Seq<char>) -> bool;

/// For the regular expression compiled from `pattern`, the text that group
/// `group` captured in each successive non-overlapping match in `haystack`
/// (`None` where the group did not take part in the match or does not exist).
pub uninterp spec fn regex_group_captures(
    pattern: Seq<char>,
    haystack: Seq<char>,
    group: usize,
) -> Seq<Option<Seq<char>>>;

/// The number of capture groups of the regular expression compiled from
/// `pattern`, the implicit group 0 (the whole match) included: what
/// `regex::Regex::captures_len` gives.
pub uninterp spec fn regex_group_count(pattern: Seq<char>) -> usize;

/// A regular expression together with the pattern it was compiled from.
/// Its fields are private to this module, where only `compile_pattern`
/// makes values, from `regex::Regex::new` on that very pattern.
pub struct CompiledPattern {
    regex: Regex,
    source: Ghost<Seq<char>>,
}

/// Calls `regex::Regex::new` on `pattern` and keeps the compiled regular
/// expression with `pattern` as its source. Its outcome is named
/// `regex_accepts`: it depends on the pattern alone (syntax and default
/// size limits).
#[verifier::external_body]
pub(crate) fn compile_pattern(pattern: &str) -> (r: Result<CompiledPattern, regex::Error>)
    ensures
        r is Ok <==> regex_accepts(pattern@),
        r matches Ok(c) ==> c.source() == pattern@,
{
    Regex::new(pattern).map(|regex| CompiledPattern { regex, source: Ghost(pattern@) })
}

/// Calls `regex::Regex::captures_len`: the number of capture groups,
/// group 0 included, named `regex_group_count` of the pattern.
#[verifier::external_body]
fn captures_len(compiled: &CompiledPattern) -> (r: usize)
    ensures
        r == regex_group_count(compiled.source()),
{
    compiled.regex.captures_len()
}

impl CompiledPattern {
    /// The pattern this regular expression was compiled from.
    pub closed spec fn source(&self) -> Seq<char> {
        self.source@
    }

    /// The number of capture groups, group 0 (the whole match) included.
    pub fn group_count(&self) -> (r: usize)
        ensures
            r == regex_group_count(self.source()),
    {
        captures_len(self)
    }
}

/// Runs `regex::Regex::captures_iter` over `haystack` and keeps, for each
/// match, what `Captures::get(group)` gives, as an owned string. The result
/// is named `regex_group_captures` of the pattern the regular expression was
/// compiled from (see `CompiledPattern`), the haystack and the group. As
/// the regex documentation gives it: there is one entry per match whatever
/// the group; group 0 is present in every match; a group index that does
/// not correspond to a group (`regex_group_count` or beyond) gives `None`.
#[verifier::external_body]
pub(crate) fn captures_group_all(compiled: &CompiledPattern, haystack: &str, group: usize) -> (r: Vec<Option<String>>)
    ensures
        r.deep_view() == regex_group_captures(compiled.source(), haystack@, group),
        r.len() == regex_group_captures(compiled.source(), haystack@, 0).len(),
        group == 0 ==> forall|i: int| 0 <= i < r.len() ==> (#[trigger] r@[i]) is Some,
        group >= regex_group_count(compiled.source()) ==> forall|i: int|
            0 <= i < r.len() ==> (#[trigger] r@[i]) is None,
{
    compiled.regex.captures_iter(haystack).map(|caps| caps.get(group).map(|m| m.as_str().to_string())).collect()
}

} // verus!
