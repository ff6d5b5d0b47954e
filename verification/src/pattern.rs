//! Case-insensitive regular expressions (the `regex` crate) as the rules use
//! them.

use vstd::prelude::*;

verus! {

/// The `regex` crate's compiled expression.
#[verifier::external_type_specification]
#[verifier::external_body]
pub struct ExRegex(regex::Regex);

/// The `regex` crate's compile error.
#[verifier::external_type_specification]
#[verifier::external_body]
pub struct ExRegexError(regex::Error);

/// Whether `source` compiles as a case-insensitive regular expression
/// (`RegexBuilder::new(source).case_insensitive(true).build()` succeeds).
pub uninterp spec fn ci_regex_compiles(source: Seq<char>) -> bool;

/// Whether the case-insensitive regular expression `source` matches somewhere in `text`
/// (`Regex::is_match`).
pub uninterp spec fn ci_regex_matches(source: Seq<char>, text: Seq<char>) -> bool;

/// The capture groups (group 0 being the whole match; `None` for a group that
/// did not take part) of each successive non-overlapping match of the
/// case-insensitive regular expression `source` in `text` (`Regex::captures_iter`).
pub uninterp spec fn ci_regex_captures(source: Seq<char>, text: Seq<char>) -> Seq<Seq<Option<Seq<char>>>>;

/// The texts of optional capture groups.
pub open spec fn group_texts(groups: Seq<Option<String>>) -> Seq<Option<Seq<char>>> {
    groups.map_values(|g: Option<String>| match g {
        Some(s) => Some(s@),
        None => None,
    })
}

/// A case-insensitive regular expression together with its source text. A value
/// is only ever made by `Pattern::compile` (or copied from one), so the compiled
/// expression is always the one built from `source`.
pub struct Pattern {
    source: String,
    compiled: regex::Regex,
}

impl Pattern {
    /// The source text the expression was compiled from.
    pub closed spec fn source(&self) -> Seq<char> {
        self.source@
    }

    /// Compiles `source` case-insensitively with `regex::RegexBuilder`.
    /// Claimed: it succeeds exactly when `ci_regex_compiles(source)`, and the
    /// pattern keeps `source`.
    #[verifier::external_body]
    pub fn compile(source: &str) -> (r: Result<Pattern, regex::Error>)
        ensures
            r is Ok <==> ci_regex_compiles(source@),
            r matches Ok(p) ==> p.source() == source@,
    {
        match regex::RegexBuilder::new(source).case_insensitive(true).build() {
            Ok(compiled) => Ok(Pattern { source: source.to_string(), compiled }),
            Err(e) => Err(e),
        }
    }

    /// Whether the expression matches somewhere in `text` (`Regex::is_match`).
    /// Claimed: the result is `ci_regex_matches` of the source and the text.
    #[verifier::external_body]
    pub fn is_match(&self, text: &str) -> (r: bool)
        ensures
            r == ci_regex_matches(self.source(), text@),
    {
        self.compiled.is_match(text)
    }

    /// A copy of the pattern (`Regex::clone`). Claimed: it has the same source.
    #[verifier::external_body]
    pub fn copy(&self) -> (r: Pattern)
        ensures
            r.source() == self.source(),
    {
        Pattern { source: self.source.clone(), compiled: self.compiled.clone() }
    }

    /// The capture groups of each successive non-overlapping match in `text`
    /// (`Regex::captures_iter`, each group as owned text). Claimed: they are
    /// `ci_regex_captures` of the source and the text.
    #[verifier::external_body]
    pub fn captures(&self, text: &str) -> (r: Vec<Vec<Option<String>>>)
        ensures
            r@.map_values(|c: Vec<Option<String>>| group_texts(c@)) == ci_regex_captures(self.source(), text@),
    {
        self.compiled
            .captures_iter(text)
            .map(|c| c.iter().map(|g| g.map(|m| m.as_str().to_string())).collect())
            .collect()
    }

    /// The source text.
    pub fn as_str(&self) -> (r: &str)
        ensures
            r@ == self.source(),
    {
        self.source.as_str()
    }
}

} // verus!
