//! Regular expressions, through the `regex` crate.
use vstd::prelude::*;
use crate::text::has_prefix;

verus! {

#[verifier::external_type_specification]
#[verifier::external_body]
pub struct ExRegex(regex::Regex);

/// Whether `regex::Regex::new` accepts the pattern `p`.
pub uninterp spec fn regex_compiles(p: Seq<char>) -> bool;

/// What `regex::Regex::captures_iter` yields for pattern `p` on `text`: for each
/// successive non-overlapping match, its capture groups (group 0 is the match).
pub uninterp spec fn regex_captures(p: Seq<char>, text: Seq<char>) -> Seq<Seq<Option<Seq<char>>>>;

/// A compiled regular expression and the pattern it was compiled from.
pub struct Pattern {
    re: regex::Regex,
    source: Ghost<Seq<char>>,
}

impl View for Pattern {
    type V = Seq<char>;

    closed spec fn view(&self) -> Seq<char> {
        self.source@
    }
}

/// Views of the groups of one match.
pub open spec fn group_views(g: Seq<Option<String>>) -> Seq<Option<Seq<char>>> {
    g.map_values(
        |o: Option<String>|
            match o {
                Some(s) => Some(s@),
                None => None,
            },
    )
}

/// Views of all matches.
pub open spec fn capture_views(c: Seq<Vec<Option<String>>>) -> Seq<Seq<Option<Seq<char>>>> {
    c.map_values(|g: Vec<Option<String>>| group_views(g@))
}

impl Pattern {
    /// `regex::Regex::new`: `Some` exactly when the pattern compiles.
    #[verifier::external_body]
    pub(crate) fn new(p: &str) -> (r: Option<Pattern>)
        ensures
            r is Some <==> regex_compiles(p@),
            r matches Some(q) ==> q@ == p@,
    {
        let re = regex::Regex::new(p).ok()?;
        Some(Pattern { re, source: Ghost(p@) })
    }

    /// `regex::Regex::captures_iter`, each match's groups read out as strings.
    /// The result is what `regex_captures` names; group 0 (the whole match) is
    /// present in every match, as the crate documents. A match is text the
    /// pattern matches, so every match of the URL pattern (the literal `http`,
    /// an optional `s`, `://` and one or more further characters) starts with
    /// `http`.
    #[verifier::external_body]
    pub(crate) fn captures_all(&self, text: &str) -> (r: Vec<Vec<Option<String>>>)
        ensures
            capture_views(r@) == regex_captures(self@, text@),
            forall|i: int| 0 <= i < r@.len() ==> r@[i]@.len() > 0 && (#[trigger] r@[i]@)[0] is Some,
            self@ == crate::scrape::URL_PATTERN@ ==> forall|i: int|
                0 <= i < r@.len() ==> ((#[trigger] r@[i]@)[0] matches Some(m) && has_prefix(m@, "http"@)),
    {
        self.re.captures_iter(text).map(
            |c| c.iter().map(|m| m.map(|m| m.as_str().to_string())).collect(),
        ).collect()
    }
}

} // verus!
