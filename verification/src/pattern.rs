use vstd::prelude::*;

verus! {

#[verifier::external_type_specification]
#[verifier::external_body]
pub struct ExRegex(regex::Regex);

/// Whether the pattern text is a valid regular expression; compilation
/// succeeds or fails on the pattern text alone.
pub uninterp spec fn regex_ok(pattern: Seq<char>) -> bool;

/// Whether the pattern matches somewhere in the text; a function of the
/// pattern and the text alone.
pub uninterp spec fn regex_is_match(pattern: Seq<char>, text: Seq<char>) -> bool;

/// The text with every non-overlapping match of the pattern replaced; a
/// function of the pattern, the text and the replacement alone.
pub uninterp spec fn regex_replace_all(
    pattern: Seq<char>,
    text: Seq<char>,
    rep: Seq<char>,
) -> Seq<char>;

/// A compiled regular expression kept together with its pattern text; the
/// view is the pattern text, and the compiled automaton is only ever built
/// from it by `Pattern::new`.
pub struct Pattern {
    re: regex::Regex,
    source: String,
}

impl View for Pattern {
    type V = Seq<char>;

    closed spec fn view(&self) -> Seq<char> {
        self.source@
    }
}

impl Pattern {
    /// Relies on regex::Regex::new: whether the pattern compiles depends on
    /// the pattern text alone.
    #[verifier::external_body]
    pub fn new(source: &str) -> (r: Option<Pattern>)
        ensures
            (r is Some) == regex_ok(source@),
            r matches Some(p) ==> p@ == source@,
    {
        match regex::Regex::new(source) {
            Ok(re) => Some(Pattern { re, source: source.to_owned() }),
            Err(_) => None,
        }
    }

    /// Relies on regex::Regex::is_match: the answer depends on the pattern
    /// and the text alone.
    #[verifier::external_body]
    pub fn is_match(&self, text: &str) -> (b: bool)
        ensures
            b == regex_is_match(self@, text@),
    {
        self.re.is_match(text)
    }

    /// Relies on regex::Regex::replace_all: the rewrite depends on the
    /// pattern, the text and the replacement alone.
    #[verifier::external_body]
    pub fn replace_all(&self, text: &str, rep: &str) -> (r: String)
        ensures
            r@ == regex_replace_all(self@, text@, rep@),
    {
        self.re.replace_all(text, rep).into_owned()
    }

    /// The pattern text the expression was compiled from.
    pub fn source_str(&self) -> (r: &String)
        ensures
            r@ == self@,
    {
        &self.source
    }
}

} // verus!
