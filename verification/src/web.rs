//! Absolute URLs, as parsed by the `url` crate, and the URLs this library
//! builds.
use url::Url;
use vstd::prelude::*;

use crate::text::{chars_of, string_from_chars, trim, trim_str};

verus! {

/// What `url::Url::parse` makes of `input`: the URL's serialisation and its
/// path (`Url::as_str`, `Url::path`), or `None` when `input` is not an
/// absolute URL.
pub uninterp spec fn url_parse(input: Seq<char>) -> Option<(Seq<char>, Seq<char>)>;

/// What `url::Url::parse_with_params` makes of `base` and the name/value
/// `pairs`: the serialisation of `base` with the pairs appended to its query
/// in `application/x-www-form-urlencoded` form, or the text of the parse
/// error.
pub uninterp spec fn url_with_params(
    base: Seq<char>,
    pairs: Seq<(Seq<char>, Seq<char>)>,
) -> Result<Seq<char>, Seq<char>>;

/// A well-formed absolute URL: its serialisation and its path.
#[derive(Debug, PartialEq, Eq)]
pub struct WebUrl {
    text: String,
    path: String,
}

impl View for WebUrl {
    type V = (Seq<char>, Seq<char>);

    closed spec fn view(&self) -> (Seq<char>, Seq<char>) {
        (self.text@, self.path@)
    }
}

impl Clone for WebUrl {
    fn clone(&self) -> (res: Self)
        ensures
            res == *self,
    {
        proof {
            use_type_invariant(self);
        }
        WebUrl { text: self.text.clone(), path: self.path.clone() }
    }
}

/// Whether `v` is what `url::Url::parse` gives for some input.
pub open spec fn is_parsed_url(v: (Seq<char>, Seq<char>)) -> bool {
    exists|s: Seq<char>| url_parse(s) == Some(v)
}

/// The views of an optional URL.
pub open spec fn url_opt_view(u: Option<WebUrl>) -> Option<(Seq<char>, Seq<char>)> {
    match u {
        Some(u) => Some(u@),
        None => None,
    }
}

impl WebUrl {
    /// Every `WebUrl` is the result of parsing some text.
    #[verifier::type_invariant]
    closed spec fn wf(self) -> bool {
        is_parsed_url(self@)
    }

    /// The URL's serialisation.
    pub fn as_str(&self) -> (res: &str)
        ensures
            res@ == self@.0,
    {
        self.text.as_str()
    }

    /// The URL's serialisation, as a new `String`.
    pub fn to_string(&self) -> (res: String)
        ensures
            res@ == self@.0,
    {
        self.text.clone()
    }

    /// The URL's path.
    pub fn path(&self) -> (res: &str)
        ensures
            res@ == self@.1,
    {
        self.path.as_str()
    }
}

/// Parses an absolute URL with `url::Url::parse`; the contract says the
/// result is `url_parse` of the input, and nothing about which inputs parse.
#[verifier::external_body]
fn parse_absolute_url(input: &str) -> (res: Option<WebUrl>)
    ensures
        url_opt_view(res) == url_parse(input@),
{
    match Url::parse(input) {
        Ok(u) => Some(WebUrl { text: u.as_str().to_string(), path: u.path().to_string() }),
        Err(_) => None,
    }
}

/// Builds a URL with a query with `url::Url::parse_with_params`; the
/// contract says the result is `url_with_params` of the arguments.
#[verifier::external_body]
pub(crate) fn parse_with_params(base: &str, pairs: &Vec<(String, String)>) -> (res: Result<
    String,
    String,
>)
    ensures
        match res {
            Ok(t) => url_with_params(base@, pairs.deep_view()) == Ok::<Seq<char>, Seq<char>>(t@),
            Err(e) => url_with_params(base@, pairs.deep_view()) == Err::<Seq<char>, Seq<char>>(
                e@,
            ),
        },
{
    match Url::parse_with_params(base, pairs.iter().map(|p| (p.0.as_str(), p.1.as_str()))) {
        Ok(u) => Ok(u.as_str().to_string()),
        Err(e) => Err(e.to_string()),
    }
}

/// What `parse_url_opt` gives for `s`: nothing for blank input, else the
/// parse of the trimmed input.
pub open spec fn parse_url_opt_spec(s: Seq<char>) -> Option<(Seq<char>, Seq<char>)> {
    let t = trim(s);
    if t.len() == 0 {
        None
    } else {
        url_parse(t)
    }
}

/// Parses `s` as an absolute URL after trimming it; blank or malformed
/// input gives `None`, so only well-formed URLs are ever surfaced.
pub fn parse_url_opt(s: &str) -> (res: Option<WebUrl>)
    ensures
        url_opt_view(res) == parse_url_opt_spec(s@),
{
    let trimmed = trim_str(s);
    if trimmed.as_str().is_empty() {
        None
    } else {
        parse_absolute_url(trimmed.as_str())
    }
}


/// A URL that `parse_url_opt` surfaces is what `url::Url::parse` made of
/// the trimmed input: malformed input never yields a URL.
pub proof fn lemma_parse_url_opt_parsed(s: Seq<char>)
    ensures
        match parse_url_opt_spec(s) {
            Some(v) => is_parsed_url(v) && url_parse(trim(s)) == Some(v),
            None => true,
        },
{
}

/// The prefix of an article's e-print (source) bundle URL.
pub const EPRINT_PREFIX: &'static str = "https://arxiv.org/e-print/";

/// What `eprint_url` gives for the id `id`.
pub open spec fn eprint_url_spec(id: Seq<char>) -> Option<(Seq<char>, Seq<char>)> {
    parse_url_opt_spec(EPRINT_PREFIX@ + id)
}

/// The candidate e-print (source) URL `https://arxiv.org/e-print/<id>` for a
/// bare arXiv id, or `None` when that is not a valid URL.
pub fn eprint_url(id: &str) -> (res: Option<WebUrl>)
    ensures
        url_opt_view(res) == eprint_url_spec(id@),
{
    let mut v = chars_of(EPRINT_PREFIX);
    let w = chars_of(id);
    let mut i: usize = 0;
    while i < w.len()
        invariant
            i <= w.len(),
            v@ == EPRINT_PREFIX@ + w@.take(i as int),
        decreases w.len() - i,
    {
        v.push(w[i]);
        i += 1;
        proof {
            assert(v@ =~= EPRINT_PREFIX@ + w@.take(i as int));
        }
    }
    proof {
        assert(w@.take(w.len() as int) =~= w@);
    }
    let candidate = string_from_chars(v.as_slice());
    parse_url_opt(candidate.as_str())
}

} // verus!
