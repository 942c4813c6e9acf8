//! Compiled regular-expression patterns with their source text preserved for
//! diagnostics. Matching goes through the `regex` crate; the result of a
//! match is a function of the pattern source and the text alone, which the
//! specifications name `regex_match`.

use vstd::prelude::*;

verus! {

#[verifier::external_type_specification]
#[verifier::external_body]
pub struct ExRegex(regex::Regex);

/// Whether `regex::Regex::new` accepts this pattern source. Acceptance
/// depends on the source text alone.
pub uninterp spec fn regex_valid(src: Seq<char>) -> bool;

/// Whether the pattern compiled from `src` finds a match inside `text`.
/// The result depends on the pattern source and the text alone.
pub uninterp spec fn regex_match(src: Seq<char>, text: Seq<char>) -> bool;

/// A compiled regular expression together with its original source text.
///
/// The fields are private: every `Pattern` is built by [`Pattern::parse`],
/// so the compiled expression always belongs to the recorded source, and
/// [`Pattern::is_match`] answers exactly `regex_match` of that source.
#[derive(Debug)]
pub struct Pattern {
    source: String,
    regex: regex::Regex,
}

impl View for Pattern {
    type V = Seq<char>;

    /// A pattern is abstracted by its source text.
    closed spec fn view(&self) -> Seq<char> {
        self.source@
    }
}

impl Pattern {
    /// Relies on `regex::Regex::new`: it compiles the source, or reports why
    /// it cannot; which sources compile depends on the source text alone.
    #[verifier::external_body]
    pub fn parse(input: &str) -> (r: Result<Pattern, String>)
        ensures
            r is Ok <==> regex_valid(input@),
            r matches Ok(p) ==> p@ == input@,
    {
        match regex::Regex::new(input) {
            Ok(regex) => Ok(Pattern { source: input.to_owned(), regex }),
            Err(err) => Err(format!("Failed to parse regex ({input}): {err}")),
        }
    }

    /// Relies on `regex::Regex::is_match`: whether a match is found inside
    /// `text` depends on the pattern source and the text alone.
    #[verifier::external_body]
    pub fn is_match(&self, text: &str) -> (r: bool)
        ensures
            r == regex_match(self@, text@),
    {
        self.regex.is_match(text)
    }

    /// The original source text of the pattern.
    pub fn source(&self) -> (r: &str)
        ensures
            r@ == self@,
    {
        self.source.as_str()
    }
}

impl Clone for Pattern {
    /// Relies on `regex::Regex::clone`: the clone is the same compiled
    /// expression, so it matches exactly as the original.
    #[verifier::external_body]
    fn clone(&self) -> (r: Self)
        ensures
            r@ == self@,
    {
        Pattern { source: self.source.clone(), regex: self.regex.clone() }
    }
}

} // verus!
