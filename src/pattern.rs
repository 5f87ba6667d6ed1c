use vstd::prelude::*;
use regex::Regex;
use convert_case::{Case, Casing};

verus! {

#[verifier::external_type_specification]
#[verifier::external_body]
pub struct ExRegex(Regex);

/// Whether `pattern` compiles as a regular expression.
pub uninterp spec fn regex_valid(pattern: Seq<char>) -> bool;

/// Whether `pattern` matches somewhere in `text`.
pub uninterp spec fn regex_is_match(pattern: Seq<char>, text: Seq<char>) -> bool;

/// `text` with the first match of `pattern` replaced by the template `rep`.
pub uninterp spec fn regex_replace(pattern: Seq<char>, text: Seq<char>, rep: Seq<char>) -> Seq<char>;

/// The pieces of `text` between the matches of `pattern`.
pub uninterp spec fn regex_split(pattern: Seq<char>, text: Seq<char>) -> Seq<Seq<char>>;

/// The first capture group of the first match of `pattern` in `text`.
pub uninterp spec fn regex_group(pattern: Seq<char>, text: Seq<char>) -> Option<Seq<char>>;

/// `text` in Pascal case.
pub uninterp spec fn pascal_case(text: Seq<char>) -> Seq<char>;

/// A compiled regular expression together with its source text.
pub struct Pattern {
    source: String,
    re: Regex,
}

impl View for Pattern {
    type V = Seq<char>;

    closed spec fn view(&self) -> Seq<char> {
        self.source@
    }
}

/// Relies on regex::Regex::new: it compiles `source`, or fails when the text
/// is not a valid pattern.
#[verifier::external_body]
pub(crate) fn compile(source: &str) -> (r: Option<Pattern>)
    ensures
        r is Some <==> regex_valid(source@),
        r matches Some(p) ==> p@ == source@,
{
    match Regex::new(source) {
        Ok(re) => Some(Pattern { source: source.to_string(), re }),
        Err(_) => None,
    }
}

impl Pattern {
    /// Relies on regex::Regex::is_match.
    #[verifier::external_body]
    pub(crate) fn is_match(&self, text: &str) -> (r: bool)
        ensures
            r == regex_is_match(self@, text@),
    {
        self.re.is_match(text)
    }

    /// Relies on regex::Regex::replace, which leaves a text without a match
    /// as it is.
    #[verifier::external_body]
    pub(crate) fn replace(&self, text: &str, rep: &str) -> (r: String)
        ensures
            r@ == regex_replace(self@, text@, rep@),
            !regex_is_match(self@, text@) ==> r@ == text@,
    {
        self.re.replace(text, rep).to_string()
    }

    /// Relies on regex::Regex::split.
    #[verifier::external_body]
    pub(crate) fn split(&self, text: &str) -> (r: Vec<String>)
        ensures
            r@.map_values(|s: String| s@) == regex_split(self@, text@),
    {
        self.re.split(text).map(|s| s.to_string()).collect()
    }

    /// Relies on regex::Regex::captures, taking its first group.
    #[verifier::external_body]
    pub(crate) fn first_group(&self, text: &str) -> (r: Option<String>)
        ensures
            match r {
                Some(s) => regex_group(self@, text@) == Some(s@),
                None => regex_group(self@, text@) is None,
            },
    {
        self.re.captures(text).and_then(|c| c.get(1)).map(|m| m.as_str().to_string())
    }
}

/// Relies on convert_case's `to_case(Case::Pascal)`.
#[verifier::external_body]
pub(crate) fn to_pascal(text: &str) -> (r: String)
    ensures
        r@ == pascal_case(text@),
{
    text.to_case(Case::Pascal)
}

} // verus!
