//! The arguments and results of an arXiv query, the Atom feed model the
//! results are built from, and the transformation from one to the other.
use vstd::prelude::*;

use crate::text::{
    after_first, after_first_chars, contains_chars, contains_seq, chars_equal, chars_of, str_equal, trim_start_char, trim_start_char_chars, normalize_whitespace, normalize_ws, parse_u64, parse_u64_spec, string_from_chars,
    strip_prefix, strip_prefix_chars, trim, trim_end, trim_start, trim_str, decimal_string,
    lemma_decimal_roundtrip, lemma_after_first_split,
};
use crate::web::{
    is_parsed_url, lemma_parse_url_opt_parsed, parse_url_opt, parse_url_opt_spec, url_opt_view,
    WebUrl,
};

verus! {

// ---------------------------------------------------------------------------
// Query arguments
// ---------------------------------------------------------------------------

/// How to sort the result set (the arXiv `sortBy` parameter).
#[derive(Debug, Clone, Copy, PartialEq, Eq, Structural)]
pub enum SortBy {
    Relevance,
    LastUpdatedDate,
    SubmittedDate,
}

/// The `sortBy` parameter value of `s`.
pub open spec fn sort_by_param(s: SortBy) -> Seq<char> {
    match s {
        SortBy::Relevance => "relevance"@,
        SortBy::LastUpdatedDate => "lastUpdatedDate"@,
        SortBy::SubmittedDate => "submittedDate"@,
    }
}

impl SortBy {
    /// The value of the arXiv `sortBy` parameter for this ordering.
    pub fn as_param(&self) -> (res: &'static str)
        ensures
            res@ == sort_by_param(*self),
    {
        match self {
            SortBy::Relevance => "relevance",
            SortBy::LastUpdatedDate => "lastUpdatedDate",
            SortBy::SubmittedDate => "submittedDate",
        }
    }
}

/// The direction of the sort (the arXiv `sortOrder` parameter).
#[derive(Debug, Clone, Copy, PartialEq, Eq, Structural)]
pub enum SortOrder {
    Ascending,
    Descending,
}

/// The `sortOrder` parameter value of `s`.
pub open spec fn sort_order_param(s: SortOrder) -> Seq<char> {
    match s {
        SortOrder::Ascending => "ascending"@,
        SortOrder::Descending => "descending"@,
    }
}

impl SortOrder {
    /// The value of the arXiv `sortOrder` parameter for this direction.
    pub fn as_param(&self) -> (res: &'static str)
        ensures
            res@ == sort_order_param(*self),
    {
        match self {
            SortOrder::Ascending => "ascending",
            SortOrder::Descending => "descending",
        }
    }
}

/// Arguments of the `query` tool; they map onto the parameters of the arXiv
/// query interface.
#[derive(Default, Debug, Clone)]
pub struct QueryArguments {
    /// The arXiv search query, e.g. `all:electron`.
    pub search_query: Option<String>,
    /// A comma-delimited list of arXiv ids, e.g. `2301.00001,hep-ex/0307015`.
    pub id_list: Option<String>,
    /// The 0-based index of the first returned result.
    pub start: Option<u32>,
    /// The maximum number of results to return.
    pub max_results: Option<u32>,
    /// How to sort the results.
    pub sort_by: Option<SortBy>,
    /// The sort direction.
    pub sort_order: Option<SortOrder>,
    /// Whether to check each entry's e-print URL before reporting it
    /// (default: yes).
    pub verify_source_url: Option<bool>,
}

// ---------------------------------------------------------------------------
// Query results
// ---------------------------------------------------------------------------

/// A DOI of an article, with its resolved URL when arXiv provides one.
#[derive(Default, Debug, Clone, PartialEq, Eq)]
pub struct Doi {
    /// The DOI itself, e.g. `10.1103/PhysRevD.61.084004`.
    pub doi: String,
    /// The resolved DOI URL, if present and well-formed.
    pub url: Option<WebUrl>,
}

/// An author of an article.
#[derive(Default, Debug, Clone, PartialEq, Eq)]
pub struct Author {
    /// The author's name.
    pub name: String,
    /// The author's affiliations, in order.
    pub affiliations: Vec<String>,
}

/// A single article returned by an arXiv query.
#[derive(Default, Debug, Clone, PartialEq, Eq)]
pub struct Entry {
    /// The bare arXiv identifier, e.g. `2301.00001v1` or `hep-ex/0307015v1`.
    pub id: String,
    /// The article title.
    pub title: String,
    /// The article abstract.
    pub summary: String,
    /// When version 1 was submitted.
    pub published: String,
    /// When the retrieved version was submitted.
    pub updated: String,
    /// The authors, in order of authorship.
    pub authors: Vec<Author>,
    /// The primary subject classification, if present.
    pub primary_category: Option<String>,
    /// All subject classifications.
    pub categories: Vec<String>,
    /// The author's comment, if present.
    pub comment: Option<String>,
    /// The journal reference, if present.
    pub journal_ref: Option<String>,
    /// The DOIs, each with its resolved URL.
    pub dois: Vec<Doi>,
    /// The abstract page, if the feed gives a well-formed URL for it.
    pub abstract_url: Option<WebUrl>,
    /// The PDF, if present and well-formed.
    pub pdf_url: Option<WebUrl>,
    /// The source (e-print) bundle, set only once a HEAD request succeeded.
    pub source_url: Option<WebUrl>,
}

/// The full response of a `query` tool call.
#[derive(Default, Debug, Clone, PartialEq, Eq)]
pub struct QueryResponse {
    /// The total number of matching results (not just this page).
    pub total_results: u64,
    /// The 0-based index of the first returned result.
    pub start_index: u64,
    /// The number of results in this page.
    pub items_per_page: u64,
    /// The returned articles.
    pub entries: Vec<Entry>,
}

/// An error reported by the arXiv API: a feed holding a single error entry.
#[derive(Default, Debug, Clone, PartialEq, Eq)]
pub struct ArxivError {
    /// The error code from the fragment of the error id, if present.
    pub code: Option<String>,
    /// The human-readable message (the entry's summary).
    pub message: String,
    /// A URL explaining the error (the entry's id).
    pub link: String,
    /// When the error response was generated.
    pub updated: String,
}

/// The outcome of an arXiv query: results, or an error reported by the API.
#[derive(Debug, Clone, PartialEq, Eq)]
pub enum ArxivResponse {
    Results(QueryResponse),
    Error(ArxivError),
}

// ---------------------------------------------------------------------------
// The Atom feed as deserialised
// ---------------------------------------------------------------------------

/// An Atom feed as returned by the arXiv API.
#[derive(Debug, Default, Clone)]
pub struct XmlFeed {
    /// `<opensearch:totalResults>`.
    pub total_results: Option<String>,
    /// `<opensearch:startIndex>`.
    pub start_index: Option<String>,
    /// `<opensearch:itemsPerPage>`.
    pub items_per_page: Option<String>,
    /// The `<entry>` elements.
    pub entries: Vec<XmlEntry>,
}

/// An `<entry>` of the feed.
#[derive(Debug, Default, Clone)]
pub struct XmlEntry {
    pub id: String,
    pub title: String,
    pub summary: String,
    pub published: String,
    pub updated: String,
    pub authors: Vec<XmlAuthor>,
    pub links: Vec<XmlLink>,
    pub categories: Vec<XmlCategory>,
    pub primary_category: Option<XmlCategory>,
    pub comment: Option<String>,
    pub journal_ref: Option<String>,
    /// Every `<arxiv:doi>` element, in order.
    pub doi: Vec<String>,
}

/// An `<author>` of an entry.
#[derive(Debug, Default, Clone)]
pub struct XmlAuthor {
    pub name: String,
    /// Every `<arxiv:affiliation>` element, in order.
    pub affiliation: Vec<String>,
}

/// A `<link>` of an entry, with its attributes.
#[derive(Debug, Default, Clone)]
pub struct XmlLink {
    pub href: String,
    pub rel: Option<String>,
    pub title: Option<String>,
}

/// A `<category>` or `<arxiv:primary_category>` of an entry.
#[derive(Debug, Default, Clone)]
pub struct XmlCategory {
    pub term: String,
}

// ---------------------------------------------------------------------------
// Small transformations
// ---------------------------------------------------------------------------

/// The view of an optional string.
pub open spec fn opt_str(o: Option<String>) -> Option<Seq<char>> {
    match o {
        Some(s) => Some(s@),
        None => None,
    }
}

/// `Some(t)` unless `t` is empty.
pub open spec fn nonblank(t: Seq<char>) -> Option<Seq<char>> {
    if t.len() == 0 {
        None
    } else {
        Some(t)
    }
}

/// The trimmed value, if there is one and it is not blank.
pub open spec fn trimmed_opt_spec(o: Option<Seq<char>>) -> Option<Seq<char>> {
    match o {
        Some(v) => nonblank(trim(v)),
        None => None,
    }
}

/// Trims an optional value, dropping it when it is blank.
pub fn trimmed_opt(s: Option<String>) -> (res: Option<String>)
    ensures
        opt_str(res) == trimmed_opt_spec(opt_str(s)),
{
    match s {
        Some(v) => {
            let t = trim_str(v.as_str());
            if t.as_str().is_empty() {
                None
            } else {
                Some(t)
            }
        },
        None => None,
    }
}

/// The values of `s`, each with its whitespace normalised, without the
/// ones that end up empty.
pub open spec fn normalized_nonblank(s: Seq<Seq<char>>) -> Seq<Seq<char>>
    decreases s.len(),
{
    if s.len() == 0 {
        seq![]
    } else {
        let rest = normalized_nonblank(s.drop_last());
        let v = normalize_ws(s.last());
        if v.len() == 0 {
            rest
        } else {
            rest.push(v)
        }
    }
}

/// The values of `s`, each trimmed, without the ones that end up empty.
pub open spec fn trimmed_nonblank(s: Seq<Seq<char>>) -> Seq<Seq<char>>
    decreases s.len(),
{
    if s.len() == 0 {
        seq![]
    } else {
        let rest = trimmed_nonblank(s.drop_last());
        let v = trim(s.last());
        if v.len() == 0 {
            rest
        } else {
            rest.push(v)
        }
    }
}

/// Normalises the whitespace of each value, keeping the non-empty ones.
pub fn normalized_list(v: &Vec<String>) -> (res: Vec<String>)
    ensures
        res.deep_view() == normalized_nonblank(v.deep_view()),
{
    let mut res: Vec<String> = Vec::new();
    let mut i: usize = 0;
    while i < v.len()
        invariant
            i <= v.len(),
            res.deep_view() == normalized_nonblank(v.deep_view().take(i as int)),
        decreases v.len() - i,
    {
        let t = normalize_whitespace(v[i].as_str());
        proof {
            let q = v.deep_view().take(i + 1);
            assert(q.drop_last() =~= v.deep_view().take(i as int));
            assert(q.last() == v[i as int]@);
        }
        if !t.as_str().is_empty() {
            res.push(t);
            proof {
                assert(res.deep_view() =~= normalized_nonblank(v.deep_view().take(i as int)).push(
                    t@,
                ));
            }
        }
        i += 1;
    }
    proof {
        assert(v.deep_view().take(v.len() as int) =~= v.deep_view());
    }
    res
}

/// Trims each value, keeping the non-empty ones.
pub fn trimmed_list(v: &Vec<String>) -> (res: Vec<String>)
    ensures
        res.deep_view() == trimmed_nonblank(v.deep_view()),
{
    let mut res: Vec<String> = Vec::new();
    let mut i: usize = 0;
    while i < v.len()
        invariant
            i <= v.len(),
            res.deep_view() == trimmed_nonblank(v.deep_view().take(i as int)),
        decreases v.len() - i,
    {
        let t = trim_str(v[i].as_str());
        proof {
            let q = v.deep_view().take(i + 1);
            assert(q.drop_last() =~= v.deep_view().take(i as int));
            assert(q.last() == v[i as int]@);
        }
        if !t.as_str().is_empty() {
            res.push(t);
            proof {
                assert(res.deep_view() =~= trimmed_nonblank(v.deep_view().take(i as int)).push(
                    t@,
                ));
            }
        }
        i += 1;
    }
    proof {
        assert(v.deep_view().take(v.len() as int) =~= v.deep_view());
    }
    res
}

/// The abstract-page prefix of `<id>` URLs over HTTPS.
pub const ABS_PREFIX_HTTPS: &'static str = "https://arxiv.org/abs/";

/// The abstract-page prefix of `<id>` URLs over HTTP.
pub const ABS_PREFIX_HTTP: &'static str = "http://arxiv.org/abs/";

/// The bare arXiv id of an `<id>` URL: the trimmed input without its
/// `https://arxiv.org/abs/` (else `http://arxiv.org/abs/`) prefix; input
/// with neither prefix is returned trimmed.
pub open spec fn arxiv_id_spec(id_url: Seq<char>) -> Seq<char> {
    let t = trim(id_url);
    match strip_prefix(t, ABS_PREFIX_HTTPS@) {
        Some(r) => r,
        None => match strip_prefix(t, ABS_PREFIX_HTTP@) {
            Some(r) => r,
            None => t,
        },
    }
}

/// Parses a bare arXiv id out of the `<id>` URL by stripping the abstract
/// page prefix. Old-style ids contain a `/` (`hep-ex/0307015`), so a known
/// prefix is stripped rather than splitting on the last `/`.
pub fn parse_arxiv_id(id_url: &str) -> (res: String)
    ensures
        res@ == arxiv_id_spec(id_url@),
{
    let trimmed = trim_str(id_url);
    let t = chars_of(trimmed.as_str());
    match strip_prefix_chars(&t, &chars_of(ABS_PREFIX_HTTPS)) {
        Some(r) => string_from_chars(r.as_slice()),
        None => match strip_prefix_chars(&t, &chars_of(ABS_PREFIX_HTTP)) {
            Some(r) => string_from_chars(r.as_slice()),
            None => trimmed,
        },
    }
}


/// The id is recovered whole from its abstract-page URL over either scheme,
/// slashes and all (old-style ids such as `hep-ex/0307015` included), as
/// long as it has no trailing whitespace.
pub proof fn lemma_arxiv_id_roundtrip(id: Seq<char>)
    requires
        trim_end(id) == id,
    ensures
        arxiv_id_spec(ABS_PREFIX_HTTPS@ + id) == id,
        arxiv_id_spec(ABS_PREFIX_HTTP@ + id) == id,
{
    reveal_strlit("https://arxiv.org/abs/");
    reveal_strlit("http://arxiv.org/abs/");
    let hs = ABS_PREFIX_HTTPS@;
    let h = ABS_PREFIX_HTTP@;
    lemma_trim_of_prefixed(hs, id);
    lemma_trim_of_prefixed(h, id);
    assert((hs + id).subrange(0, hs.len() as int) =~= hs);
    assert((hs + id).subrange(hs.len() as int, (hs + id).len() as int) =~= id);
    assert((h + id).subrange(0, h.len() as int) =~= h);
    assert((h + id).subrange(h.len() as int, (h + id).len() as int) =~= id);
    assert(strip_prefix(h + id, hs) is None) by {
        if hs.len() <= (h + id).len() {
            assert((h + id).subrange(0, hs.len() as int)[4] == ':');
            assert(hs[4] == 's');
        }
    }
}

proof fn lemma_trim_of_prefixed(p: Seq<char>, id: Seq<char>)
    requires
        p.len() > 0,
        !crate::text::is_ws(p[0]),
        !crate::text::is_ws(p.last()),
        trim_end(id) == id,
    ensures
        trim(p + id) == p + id,
{
    let s = p + id;
    assert(s[0] == p[0]);
    assert(trim_start(s) == s);
    if id.len() > 0 {
        crate::text::lemma_trim_end_shape(id.drop_last());
        assert(!crate::text::is_ws(id.last()));
        assert(s.last() == id.last());
    } else {
        assert(s =~= p);
    }
    assert(trim_end(s) == s);
}

/// The count a feed field gives: its trimmed text as a `u64`, or 0 when
/// the field is missing or is not a valid `u64`.
pub open spec fn count_spec(v: Option<Seq<char>>) -> u64 {
    match v {
        Some(s) => match parse_u64_spec(trim(s)) {
            Some(n) => n,
            None => 0,
        },
        None => 0,
    }
}

/// Parses a count field of the feed, defaulting to 0.
pub fn parse_count(v: &Option<String>) -> (res: u64)
    ensures
        res == count_spec(opt_str(*v)),
{
    match v {
        Some(s) => {
            let t = trim_str(s.as_str());
            match parse_u64(&chars_of(t.as_str())) {
                Some(n) => n,
                None => 0,
            }
        },
        None => 0,
    }
}


// ---------------------------------------------------------------------------
// Entries
// ---------------------------------------------------------------------------

/// The `rel` (when `by_rel`) or `title` attribute of a link.
pub open spec fn link_key(l: XmlLink, by_rel: bool) -> Option<Seq<char>> {
    if by_rel {
        opt_str(l.rel)
    } else {
        opt_str(l.title)
    }
}

/// The first link whose `rel` (when `by_rel`) or `title` is `key`.
pub open spec fn first_link(links: Seq<XmlLink>, by_rel: bool, key: Seq<char>) -> Option<XmlLink>
    decreases links.len(),
{
    if links.len() == 0 {
        None
    } else if link_key(links[0], by_rel) == Some(key) {
        Some(links[0])
    } else {
        first_link(links.drop_first(), by_rel, key)
    }
}

proof fn lemma_first_link_at(links: Seq<XmlLink>, by_rel: bool, key: Seq<char>, i: int)
    requires
        0 <= i <= links.len(),
        forall|j: int| 0 <= j < i ==> link_key(#[trigger] links[j], by_rel) != Some(key),
    ensures
        i < links.len() && link_key(links[i], by_rel) == Some(key) ==> first_link(
            links,
            by_rel,
            key,
        ) == Some(links[i]),
        i == links.len() ==> first_link(links, by_rel, key) is None,
    decreases i,
{
    if i > 0 {
        let t = links.drop_first();
        assert forall|j: int| 0 <= j < i - 1 implies link_key(#[trigger] t[j], by_rel) != Some(
            key,
        ) by {
            assert(t[j] == links[j + 1]);
        }
        lemma_first_link_at(t, by_rel, key, i - 1);
        if i < links.len() {
            assert(t[i - 1] == links[i]);
        }
    }
}

/// Whether an optional attribute holds exactly `key`.
fn attribute_is(a: &Option<String>, key: &str) -> (res: bool)
    ensures
        res == (opt_str(*a) == Some(key@)),
{
    match a {
        Some(v) => str_equal(v.as_str(), key),
        None => false,
    }
}

/// The index of the first link whose `rel` (when `by_rel`) or `title` is
/// `key`.
fn find_link(links: &Vec<XmlLink>, by_rel: bool, key: &str) -> (res: Option<usize>)
    ensures
        match res {
            Some(i) => i < links.len() && first_link(links@, by_rel, key@) == Some(links@[i as int]),
            None => first_link(links@, by_rel, key@) is None,
        },
{
    let mut i: usize = 0;
    while i < links.len()
        invariant
            i <= links.len(),
            forall|j: int| 0 <= j < i ==> link_key(#[trigger] links@[j], by_rel) != Some(key@),
        decreases links.len() - i,
    {
        let hit = if by_rel {
            attribute_is(&links[i].rel, key)
        } else {
            attribute_is(&links[i].title, key)
        };
        if hit {
            proof {
                lemma_first_link_at(links@, by_rel, key@, i as int);
            }
            return Some(i);
        }
        i += 1;
    }
    proof {
        lemma_first_link_at(links@, by_rel, key@, i as int);
    }
    None
}

/// The abstract URL of an entry: the `alternate` link when it is a
/// well-formed URL, else the `<id>` when that is one.
pub open spec fn abstract_url_spec(x: XmlEntry) -> Option<(Seq<char>, Seq<char>)> {
    match first_link(x.links@, true, "alternate"@) {
        Some(l) => match parse_url_opt_spec(l.href@) {
            Some(u) => Some(u),
            None => parse_url_opt_spec(x.id@),
        },
        None => parse_url_opt_spec(x.id@),
    }
}

/// The PDF URL of an entry: the first link titled `pdf`, when its target is
/// a well-formed URL.
pub open spec fn pdf_url_spec(x: XmlEntry) -> Option<(Seq<char>, Seq<char>)> {
    match first_link(x.links@, false, "pdf"@) {
        Some(l) => parse_url_opt_spec(l.href@),
        None => None,
    }
}

/// The well-formed targets of the links titled `doi`, in order.
pub open spec fn doi_link_urls(links: Seq<XmlLink>) -> Seq<(Seq<char>, Seq<char>)>
    decreases links.len(),
{
    if links.len() == 0 {
        seq![]
    } else {
        let rest = doi_link_urls(links.drop_last());
        let l = links.last();
        if opt_str(l.title) == Some("doi"@) {
            match parse_url_opt_spec(l.href@) {
                Some(u) => rest.push(u),
                None => rest,
            }
        } else {
            rest
        }
    }
}

/// The first URL whose path, without its leading slashes, is exactly `doi`.
pub open spec fn doi_url_for(urls: Seq<(Seq<char>, Seq<char>)>, doi: Seq<char>) -> Option<
    (Seq<char>, Seq<char>),
>
    decreases urls.len(),
{
    if urls.len() == 0 {
        None
    } else if trim_start_char(urls[0].1, '/') == doi {
        Some(urls[0])
    } else {
        doi_url_for(urls.drop_first(), doi)
    }
}

/// The views of a sequence of URLs.
pub open spec fn url_views(us: Seq<WebUrl>) -> Seq<(Seq<char>, Seq<char>)> {
    us.map_values(|u: WebUrl| u@)
}

/// Collects the well-formed targets of the links titled `doi`.
pub fn doi_links(links: &Vec<XmlLink>) -> (res: Vec<WebUrl>)
    ensures
        url_views(res@) == doi_link_urls(links@),
{
    let mut res: Vec<WebUrl> = Vec::new();
    let mut i: usize = 0;
    while i < links.len()
        invariant
            i <= links.len(),
            url_views(res@) == doi_link_urls(links@.take(i as int)),
        decreases links.len() - i,
    {
        proof {
            let q = links@.take(i + 1);
            assert(q.drop_last() =~= links@.take(i as int));
            assert(q.last() == links@[i as int]);
        }
        if attribute_is(&links[i].title, "doi") {
            match parse_url_opt(links[i].href.as_str()) {
                Some(u) => {
                    res.push(u);
                    proof {
                        assert(url_views(res@) =~= doi_link_urls(links@.take(i as int)).push(
                            res@.last()@,
                        ));
                    }
                },
                None => {},
            }
        }
        i += 1;
    }
    proof {
        assert(links@.take(links.len() as int) =~= links@);
    }
    res
}

proof fn lemma_doi_url_for_at(urls: Seq<(Seq<char>, Seq<char>)>, doi: Seq<char>, i: int)
    requires
        0 <= i <= urls.len(),
        forall|j: int| 0 <= j < i ==> trim_start_char(#[trigger] urls[j].1, '/') != doi,
    ensures
        i < urls.len() && trim_start_char(urls[i].1, '/') == doi ==> doi_url_for(urls, doi) == Some(
            urls[i],
        ),
        i == urls.len() ==> doi_url_for(urls, doi) is None,
    decreases i,
{
    if i > 0 {
        let t = urls.drop_first();
        assert forall|j: int| 0 <= j < i - 1 implies trim_start_char(#[trigger] t[j].1, '/')
            != doi by {
            assert(t[j] == urls[j + 1]);
        }
        lemma_doi_url_for_at(t, doi, i - 1);
        if i < urls.len() {
            assert(t[i - 1] == urls[i]);
        }
    }
}

/// The first of `urls` whose path, without its leading slashes, is exactly
/// `doi`.
pub fn find_doi_url(urls: &Vec<WebUrl>, doi: &Vec<char>) -> (res: Option<WebUrl>)
    ensures
        url_opt_view(res) == doi_url_for(url_views(urls@), doi@),
{
    let ghost us = url_views(urls@);
    let mut i: usize = 0;
    while i < urls.len()
        invariant
            i <= urls.len(),
            us == url_views(urls@),
            forall|j: int| 0 <= j < i ==> trim_start_char(#[trigger] us[j].1, '/') != doi@,
        decreases urls.len() - i,
    {
        let tail = trim_start_char_chars(&chars_of(urls[i].path()), '/');
        assert(us[i as int] == urls@[i as int]@);
        if chars_equal(&tail, doi) {
            proof {
                lemma_doi_url_for_at(us, doi@, i as int);
            }
            return Some(urls[i].clone());
        }
        i += 1;
    }
    proof {
        lemma_doi_url_for_at(us, doi@, i as int);
    }
    None
}


/// DOI pairing is exact: the URL paired with a DOI is one of the DOI links,
/// and its path (without leading slashes) is the DOI itself, not merely
/// something that contains it.
pub proof fn lemma_doi_url_exact(urls: Seq<(Seq<char>, Seq<char>)>, doi: Seq<char>)
    ensures
        match doi_url_for(urls, doi) {
            Some(u) => urls.contains(u) && trim_start_char(u.1, '/') == doi,
            None => forall|i: int| 0 <= i < urls.len() ==> trim_start_char(#[trigger] urls[i].1, '/') != doi,
        },
    decreases urls.len(),
{
    if urls.len() > 0 {
        let t = urls.drop_first();
        lemma_doi_url_exact(t, doi);
        if trim_start_char(urls[0].1, '/') == doi {
            assert(urls[0] == urls[0]);
            assert(urls.contains(urls[0]));
        } else {
            match doi_url_for(t, doi) {
                Some(u) => {
                    let k = choose|k: int| 0 <= k < t.len() && t[k] == u;
                    assert(urls[k + 1] == u);
                },
                None => {
                    assert forall|i: int| 0 <= i < urls.len() implies trim_start_char(
                        #[trigger] urls[i].1,
                        '/',
                    ) != doi by {
                        if i > 0 {
                            assert(urls[i] == t[i - 1]);
                        }
                    }
                },
            }
        }
    }
}

/// The DOIs of an entry: every non-blank trimmed `<arxiv:doi>`, in order,
/// each paired with the first `doi` link whose path is exactly that DOI.
pub open spec fn dois_from_xml(d: Seq<Doi>, x: XmlEntry) -> bool {
    let ds = trimmed_nonblank(x.doi.deep_view());
    let urls = doi_link_urls(x.links@);
    &&& d.len() == ds.len()
    &&& forall|i: int|
        0 <= i < d.len() ==> {
            &&& (#[trigger] d[i]).doi@ == ds[i]
            &&& url_opt_view(d[i].url) == doi_url_for(urls, ds[i])
        }
}

/// Builds the DOIs of an entry.
fn dois_of(x: &XmlEntry) -> (res: Vec<Doi>)
    ensures
        dois_from_xml(res@, *x),
{
    let ds = trimmed_list(&x.doi);
    let urls = doi_links(&x.links);
    let mut res: Vec<Doi> = Vec::new();
    let mut i: usize = 0;
    while i < ds.len()
        invariant
            i <= ds.len(),
            ds.deep_view() == trimmed_nonblank(x.doi.deep_view()),
            url_views(urls@) == doi_link_urls(x.links@),
            res.len() == i,
            forall|j: int|
                0 <= j < i ==> {
                    &&& (#[trigger] res@[j]).doi@ == ds.deep_view()[j]
                    &&& url_opt_view(res@[j].url) == doi_url_for(
                        doi_link_urls(x.links@),
                        ds.deep_view()[j],
                    )
                },
        decreases ds.len() - i,
    {
        let doi = ds[i].clone();
        let url = find_doi_url(&urls, &chars_of(doi.as_str()));
        res.push(Doi { doi, url });
        i += 1;
    }
    res
}

/// An author built from its feed element: the name with its whitespace
/// normalised, and the non-blank normalised affiliations, in order.
pub open spec fn author_from_xml(a: Author, x: XmlAuthor) -> bool {
    &&& a.name@ == normalize_ws(x.name@)
    &&& a.affiliations.deep_view() == normalized_nonblank(x.affiliation.deep_view())
}

/// The terms of some categories.
pub open spec fn category_terms(cs: Seq<XmlCategory>) -> Seq<Seq<char>> {
    cs.map_values(|c: XmlCategory| c.term@)
}

/// What `Entry::from_xml` makes of a feed entry.
pub open spec fn entry_from_xml(e: Entry, x: XmlEntry) -> bool {
    &&& e.id@ == arxiv_id_spec(x.id@)
    &&& e.title@ == normalize_ws(x.title@)
    &&& e.summary@ == normalize_ws(x.summary@)
    &&& e.published@ == trim(x.published@)
    &&& e.updated@ == trim(x.updated@)
    &&& e.authors.len() == x.authors.len()
    &&& forall|i: int|
        0 <= i < e.authors.len() ==> author_from_xml(#[trigger] e.authors@[i], x.authors@[i])
    &&& opt_str(e.primary_category) == match x.primary_category {
        Some(c) => nonblank(trim(c.term@)),
        None => None,
    }
    &&& e.categories.deep_view() == trimmed_nonblank(category_terms(x.categories@))
    &&& opt_str(e.comment) == trimmed_opt_spec(opt_str(x.comment))
    &&& opt_str(e.journal_ref) == trimmed_opt_spec(opt_str(x.journal_ref))
    &&& dois_from_xml(e.dois@, x)
    &&& url_opt_view(e.abstract_url) == abstract_url_spec(x)
    &&& url_opt_view(e.pdf_url) == pdf_url_spec(x)
    &&& e.source_url is None
}


proof fn lemma_doi_link_urls_parsed(links: Seq<XmlLink>)
    ensures
        forall|i: int|
            0 <= i < doi_link_urls(links).len() ==> is_parsed_url(#[trigger] doi_link_urls(links)[i]),
    decreases links.len(),
{
    if links.len() > 0 {
        let rest = doi_link_urls(links.drop_last());
        lemma_doi_link_urls_parsed(links.drop_last());
        lemma_parse_url_opt_parsed(links.last().href@);
        let all = doi_link_urls(links);
        assert forall|i: int| 0 <= i < all.len() implies is_parsed_url(#[trigger] all[i]) by {
            if i < rest.len() {
                assert(all[i] == rest[i]);
            }
        }
    }
}

/// Every URL an entry surfaces (abstract, PDF, DOI links) is a well-formed
/// URL as `url::Url::parse` gives it; malformed ones are left out.
pub proof fn lemma_entry_urls_parsed(e: Entry, x: XmlEntry)
    requires
        entry_from_xml(e, x),
    ensures
        url_opt_view(e.abstract_url) matches Some(v) ==> is_parsed_url(v),
        url_opt_view(e.pdf_url) matches Some(v) ==> is_parsed_url(v),
        forall|i: int|
            0 <= i < e.dois.len() ==> (url_opt_view(#[trigger] e.dois@[i].url) matches Some(v)
                ==> is_parsed_url(v)),
        e.source_url is None,
{
    lemma_parse_url_opt_parsed(x.id@);
    match first_link(x.links@, true, "alternate"@) {
        Some(l) => lemma_parse_url_opt_parsed(l.href@),
        None => {},
    }
    match first_link(x.links@, false, "pdf"@) {
        Some(l) => lemma_parse_url_opt_parsed(l.href@),
        None => {},
    }
    let urls = doi_link_urls(x.links@);
    lemma_doi_link_urls_parsed(x.links@);
    let ds = trimmed_nonblank(x.doi.deep_view());
    assert forall|i: int|
        0 <= i < e.dois.len() implies (url_opt_view(#[trigger] e.dois@[i].url) matches Some(v)
        ==> is_parsed_url(v)) by {
        lemma_doi_url_exact(urls, ds[i]);
        match doi_url_for(urls, ds[i]) {
            Some(u) => {
                let k = choose|k: int| 0 <= k < urls.len() && urls[k] == u;
                assert(is_parsed_url(urls[k]));
            },
            None => {},
        }
    }
}


/// The dates of a converted entry come from the feed entry's own date
/// elements: `published` is the trimmed `<published>` (when version 1 was
/// submitted) and `updated` the trimmed `<updated>`; neither depends on the
/// other element, so a revised article keeps its first submission date.
pub proof fn lemma_entry_dates(e1: Entry, x1: XmlEntry, e2: Entry, x2: XmlEntry)
    requires
        entry_from_xml(e1, x1),
        entry_from_xml(e2, x2),
    ensures
        e1.published@ == trim(x1.published@),
        e1.updated@ == trim(x1.updated@),
        x1.published@ == x2.published@ ==> e1.published@ == e2.published@,
        x1.updated@ == x2.updated@ ==> e1.updated@ == e2.updated@,
        trim(x1.published@) == x1.published@ ==> e1.published@ == x1.published@,
        trim(x1.updated@) == x1.updated@ ==> e1.updated@ == x1.updated@,
{
}

/// The text fields of a converted entry come from their own feed elements:
/// the id from `<id>`, the title from `<title>`, the summary from
/// `<summary>` (whitespace normalised), each author's name from that
/// author's `<name>`, in order; and no source URL is set yet.
pub proof fn lemma_entry_text_fields(e: Entry, x: XmlEntry)
    requires
        entry_from_xml(e, x),
    ensures
        e.id@ == arxiv_id_spec(x.id@),
        e.title@ == normalize_ws(x.title@),
        e.summary@ == normalize_ws(x.summary@),
        e.authors.len() == x.authors.len(),
        forall|i: int|
            0 <= i < e.authors.len() ==> (#[trigger] e.authors@[i]).name@ == normalize_ws(
                x.authors@[i].name@,
            ),
        opt_str(e.comment) == trimmed_opt_spec(opt_str(x.comment)),
        opt_str(e.journal_ref) == trimmed_opt_spec(opt_str(x.journal_ref)),
        e.source_url is None,
{
    assert forall|i: int| 0 <= i < e.authors.len() implies (#[trigger] e.authors@[i]).name@
        == normalize_ws(x.authors@[i].name@) by {
        assert(author_from_xml(e.authors@[i], x.authors@[i]));
    }
}

impl Entry {
    /// Converts a feed entry into an [`Entry`]. The `source_url` is left
    /// unset; it is filled in only after the e-print URL has been checked.
    pub fn from_xml(xml: XmlEntry) -> (res: Entry)
        ensures
            entry_from_xml(res, xml),
    {
        let id = parse_arxiv_id(xml.id.as_str());

        let abstract_url = match find_link(&xml.links, true, "alternate") {
            Some(i) => match parse_url_opt(xml.links[i].href.as_str()) {
                Some(u) => Some(u),
                None => parse_url_opt(xml.id.as_str()),
            },
            None => parse_url_opt(xml.id.as_str()),
        };

        let pdf_url = match find_link(&xml.links, false, "pdf") {
            Some(i) => parse_url_opt(xml.links[i].href.as_str()),
            None => None,
        };

        let dois = dois_of(&xml);

        let mut authors: Vec<Author> = Vec::new();
        let mut i: usize = 0;
        while i < xml.authors.len()
            invariant
                i <= xml.authors.len(),
                authors.len() == i,
                forall|j: int|
                    0 <= j < i ==> author_from_xml(#[trigger] authors@[j], xml.authors@[j]),
            decreases xml.authors.len() - i,
        {
            let a = &xml.authors[i];
            authors.push(
                Author {
                    name: normalize_whitespace(a.name.as_str()),
                    affiliations: normalized_list(&a.affiliation),
                },
            );
            i += 1;
        }

        let mut terms: Vec<String> = Vec::new();
        let mut k: usize = 0;
        while k < xml.categories.len()
            invariant
                k <= xml.categories.len(),
                terms.deep_view() == category_terms(xml.categories@.take(k as int)),
            decreases xml.categories.len() - k,
        {
            let t = xml.categories[k].term.clone();
            let ghost before = terms.deep_view();
            terms.push(t);
            proof {
                assert(terms.deep_view() =~= before.push(t@));
                assert(xml.categories@.take(k + 1) =~= xml.categories@.take(k as int).push(
                    xml.categories@[k as int],
                ));
                assert(category_terms(xml.categories@.take(k + 1)) =~= category_terms(
                    xml.categories@.take(k as int),
                ).push(xml.categories@[k as int].term@));
            }
            k += 1;
        }
        proof {
            assert(xml.categories@.take(xml.categories.len() as int) =~= xml.categories@);
        }
        let categories = trimmed_list(&terms);

        let primary_category = match &xml.primary_category {
            Some(c) => {
                let t = trim_str(c.term.as_str());
                if t.as_str().is_empty() {
                    None
                } else {
                    Some(t)
                }
            },
            None => None,
        };

        Entry {
            id,
            title: normalize_whitespace(xml.title.as_str()),
            summary: normalize_whitespace(xml.summary.as_str()),
            published: trim_str(xml.published.as_str()),
            updated: trim_str(xml.updated.as_str()),
            authors,
            primary_category,
            categories,
            comment: trimmed_opt(xml.comment),
            journal_ref: trimmed_opt(xml.journal_ref),
            dois,
            abstract_url,
            pdf_url,
            source_url: None,
        }
    }
}


// ---------------------------------------------------------------------------
// Feeds
// ---------------------------------------------------------------------------

/// What `QueryResponse::from_feed` makes of a feed.
pub open spec fn results_from_feed(r: QueryResponse, feed: XmlFeed) -> bool {
    &&& r.total_results == count_spec(opt_str(feed.total_results))
    &&& r.start_index == count_spec(opt_str(feed.start_index))
    &&& r.items_per_page == count_spec(opt_str(feed.items_per_page))
    &&& r.entries.len() == feed.entries.len()
    &&& forall|i: int|
        0 <= i < r.entries.len() ==> entry_from_xml(#[trigger] r.entries@[i], feed.entries@[i])
}


/// The counts of a result set are read back from the feed's own fields:
/// a field holding the decimal text of `n` gives `n` (the start index of a
/// later page included), and a missing field gives 0. Every entry is kept.
pub proof fn lemma_counts_read_back(
    r: QueryResponse,
    feed: XmlFeed,
    total: u64,
    start: u64,
    per_page: u64,
)
    requires
        results_from_feed(r, feed),
    ensures
        opt_str(feed.total_results) == Some(decimal_string(total as nat)) ==> r.total_results
            == total,
        opt_str(feed.start_index) == Some(decimal_string(start as nat)) ==> r.start_index == start,
        opt_str(feed.items_per_page) == Some(decimal_string(per_page as nat)) ==> r.items_per_page
            == per_page,
        feed.total_results is None ==> r.total_results == 0,
        feed.start_index is None ==> r.start_index == 0,
        feed.items_per_page is None ==> r.items_per_page == 0,
        r.entries.len() == feed.entries.len(),
{
    lemma_decimal_roundtrip(total);
    lemma_decimal_roundtrip(start);
    lemma_decimal_roundtrip(per_page);
}

impl QueryResponse {
    /// Builds the result set of a feed: its three counts and every entry.
    pub fn from_feed(feed: XmlFeed) -> (res: QueryResponse)
        ensures
            results_from_feed(res, feed),
    {
        let total_results = parse_count(&feed.total_results);
        let start_index = parse_count(&feed.start_index);
        let items_per_page = parse_count(&feed.items_per_page);
        let ghost xs = feed.entries@;
        let mut entries: Vec<Entry> = Vec::new();
        for x in it: feed.entries.into_iter()
            invariant
                it.seq() == xs,
                entries.len() == it.index(),
                forall|j: int| 0 <= j < it.index() ==> entry_from_xml(#[trigger] entries@[j], xs[j]),
        {
            entries.push(Entry::from_xml(x));
        }
        QueryResponse { total_results, start_index, items_per_page, entries }
    }
}

/// The text that marks the id of an arXiv error entry.
pub const ERRORS_MARKER: &'static str = "arxiv.org/api/errors";

/// Whether a feed is an arXiv error response: a single entry whose trimmed
/// id points at `arxiv.org/api/errors`.
pub open spec fn is_error_feed(feed: XmlFeed) -> bool {
    &&& feed.entries.len() == 1
    &&& contains_seq(trim(feed.entries@[0].id@), ERRORS_MARKER@)
}

/// The error code of an error id: the trimmed fragment after the first
/// `#`, when there is a non-blank one.
pub open spec fn error_code_spec(id: Seq<char>) -> Option<Seq<char>> {
    match after_first(id, '#') {
        Some(f) => nonblank(trim(f)),
        None => None,
    }
}

/// What `ArxivError::from_feed` makes of an error feed.
pub open spec fn error_from_feed(e: ArxivError, feed: XmlFeed) -> bool {
    let x = feed.entries@[0];
    let id = trim(x.id@);
    &&& opt_str(e.code) == error_code_spec(id)
    &&& e.message@ == normalize_ws(x.summary@)
    &&& e.link@ == id
    &&& e.updated@ == trim(x.updated@)
}


/// A feed is an arXiv error response exactly when it has a single entry
/// whose trimmed id mentions `arxiv.org/api/errors`; a feed with any other
/// number of entries is a result set.
pub proof fn lemma_error_feed_classification(feed: XmlFeed)
    ensures
        feed.entries.len() != 1 ==> !is_error_feed(feed),
        feed.entries.len() == 1 ==> (is_error_feed(feed) <==> contains_seq(
            trim(feed.entries@[0].id@),
            ERRORS_MARKER@,
        )),
{
}

/// The code of an error is the trimmed text after the first `#` of its id,
/// when that is not blank; an id without `#` has no code.
pub proof fn lemma_error_code_is_fragment(prefix: Seq<char>, fragment: Seq<char>)
    requires
        !prefix.contains('#'),
    ensures
        error_code_spec(prefix + seq!['#'] + fragment) == nonblank(trim(fragment)),
        error_code_spec(prefix) is None,
{
    lemma_after_first_split(prefix, '#', fragment);
}

/// An error taken from an error feed reports the entry's own text: the
/// message is its normalised summary, the link its trimmed id and the time
/// its trimmed `<updated>`.
pub proof fn lemma_error_fields(e: ArxivError, feed: XmlFeed)
    requires
        error_from_feed(e, feed),
    ensures
        e.message@ == normalize_ws(feed.entries@[0].summary@),
        e.link@ == trim(feed.entries@[0].id@),
        e.updated@ == trim(feed.entries@[0].updated@),
        opt_str(e.code) == error_code_spec(trim(feed.entries@[0].id@)),
{
}

impl ArxivError {
    /// The error a feed reports, if it is an arXiv error response: a single
    /// entry whose id points at `arxiv.org/api/errors`.
    pub fn from_feed(feed: &XmlFeed) -> (res: Option<ArxivError>)
        ensures
            match res {
                Some(e) => is_error_feed(*feed) && error_from_feed(e, *feed),
                None => !is_error_feed(*feed),
            },
    {
        if feed.entries.len() != 1 {
            return None;
        }
        let entry = &feed.entries[0];
        let id = trim_str(entry.id.as_str());
        let id_chars = chars_of(id.as_str());
        if !contains_chars(&id_chars, &chars_of(ERRORS_MARKER)) {
            return None;
        }
        let code = match after_first_chars(&id_chars, '#') {
            Some(fragment) => {
                let f = string_from_chars(fragment.as_slice());
                let t = trim_str(f.as_str());
                if t.as_str().is_empty() {
                    None
                } else {
                    Some(t)
                }
            },
            None => None,
        };
        Some(
            ArxivError {
                code,
                message: normalize_whitespace(entry.summary.as_str()),
                link: id,
                updated: trim_str(entry.updated.as_str()),
            },
        )
    }
}

impl ArxivResponse {
    /// Classifies a feed as an error response or a result set.
    pub fn from_feed(feed: XmlFeed) -> (res: ArxivResponse)
        ensures
            match res {
                ArxivResponse::Error(e) => is_error_feed(feed) && error_from_feed(e, feed),
                ArxivResponse::Results(r) => !is_error_feed(feed) && results_from_feed(r, feed),
            },
    {
        match ArxivError::from_feed(&feed) {
            Some(error) => ArxivResponse::Error(error),
            None => ArxivResponse::Results(QueryResponse::from_feed(feed)),
        }
    }
}

} // verus!
