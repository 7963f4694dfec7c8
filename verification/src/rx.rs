use vstd::prelude::*;

use regex::Regex;

verus! {

/// Whether the pattern engine accepts the pattern text.
pub uninterp spec fn regex_ok(pattern: Seq<char>) -> bool;

/// Whether the pattern is found anywhere in the text.
pub uninterp spec fn regex_matches(pattern: Seq<char>, text: Seq<char>) -> bool;

/// The text with every non-overlapping match of the pattern replaced by the
/// replacement template, group references in the template (written `${N}`)
/// standing for the matched groups' text.
pub uninterp spec fn regex_replace_all(
    pattern: Seq<char>,
    template: Seq<char>,
    text: Seq<char>,
) -> Seq<char>;

#[verifier::external_type_specification]
#[verifier::external_body]
pub struct ExRegex(Regex);

/// A compiled pattern, kept together with the text it was compiled from.
/// The fields stay private: every value is built by `compile`, so the engine
/// value always belongs to the recorded pattern text.
pub struct CompiledRegex {
    regex: Regex,
    pattern: String,
}

impl CompiledRegex {
    /// The pattern text this value was compiled from.
    pub closed spec fn pattern(&self) -> Seq<char> {
        self.pattern@
    }

    /// Relies on regex::Regex::new: whether a pattern compiles depends on its
    /// text alone.
    #[verifier::external_body]
    pub fn compile(pattern: &str) -> (r: Option<CompiledRegex>)
        ensures
            r is Some <==> regex_ok(pattern@),
            r is Some ==> r->0.pattern() == pattern@,
    {
        match Regex::new(pattern) {
            Ok(regex) => Some(CompiledRegex { regex, pattern: pattern.to_string() }),
            Err(_) => None,
        }
    }

    /// Relies on regex::Regex::is_match: whether the pattern is found
    /// anywhere in the text depends on the pattern and the text alone.
    #[verifier::external_body]
    pub fn is_match(&self, text: &str) -> (r: bool)
        ensures
            r == regex_matches(self.pattern(), text@),
    {
        self.regex.is_match(text)
    }

    /// Relies on regex::Regex::replace_all: the result depends on the
    /// pattern, the replacement template and the text alone.
    #[verifier::external_body]
    pub fn replace_all(&self, text: &str, template: &str) -> (r: String)
        ensures
            r@ == regex_replace_all(self.pattern(), template@, text@),
    {
        self.regex.replace_all(text, template).into_owned()
    }
}

} // verus!
