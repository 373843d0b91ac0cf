//! The decisions of the `query` tool: which tool a call names, the request
//! it makes to the arXiv API, how the reply is judged, and which e-print
//! URLs are reported.
use vstd::prelude::*;

use crate::text::{concat_str, decimal_string, decimal_u64, str_equal, trim_str};
use crate::types::{
    opt_str, sort_by_param, sort_order_param, trimmed_opt_spec, ArxivError, Entry, QueryArguments,
    QueryResponse, SortBy, SortOrder,
};
use crate::web::{eprint_url, eprint_url_spec, parse_with_params, url_opt_view, url_with_params, WebUrl};

verus! {

// ---------------------------------------------------------------------------
// Tools
// ---------------------------------------------------------------------------

/// The tools this plugin offers.
#[derive(Debug, Clone, Copy, PartialEq, Eq, Structural)]
pub enum ToolName {
    /// Searches arXiv.
    Query,
}

/// The name of the only tool.
pub const QUERY_TOOL: &'static str = "query";

/// The prefix of the error for a call of an unknown tool.
pub const UNKNOWN_TOOL: &'static str = "Unknown tool: ";

/// Resolves the tool a call names; any name but `query` is an error
/// `Unknown tool: <name>`.
pub fn tool_named(name: &str) -> (res: Result<ToolName, String>)
    ensures
        match res {
            Ok(t) => name@ == QUERY_TOOL@ && t == ToolName::Query,
            Err(m) => name@ != QUERY_TOOL@ && m@ == UNKNOWN_TOOL@ + name@,
        },
{
    if str_equal(name, QUERY_TOOL) {
        Ok(ToolName::Query)
    } else {
        Err(concat_str(UNKNOWN_TOOL, name))
    }
}

// ---------------------------------------------------------------------------
// The request
// ---------------------------------------------------------------------------

/// The endpoint of the arXiv query interface.
pub const ARXIV_API_URL: &'static str = "https://export.arxiv.org/api/query";

/// The error when neither a search query nor an id list is given.
pub const MISSING_QUERY: &'static str = "At least one of `search_query` or `id_list` must be provided.";

/// The name/value pairs of the query string for `args`, in order: the
/// non-blank trimmed `search_query` and `id_list`, then `start`,
/// `max_results`, `sortBy` and `sortOrder` where given.
pub open spec fn query_pairs_spec(args: QueryArguments) -> Seq<(Seq<char>, Seq<char>)> {
    let p0: Seq<(Seq<char>, Seq<char>)> = seq![];
    let p1 = match trimmed_opt_spec(opt_str(args.search_query)) {
        Some(q) => p0.push(("search_query"@, q)),
        None => p0,
    };
    let p2 = match trimmed_opt_spec(opt_str(args.id_list)) {
        Some(ids) => p1.push(("id_list"@, ids)),
        None => p1,
    };
    let p3 = match args.start {
        Some(n) => p2.push(("start"@, decimal_string(n as nat))),
        None => p2,
    };
    let p4 = match args.max_results {
        Some(n) => p3.push(("max_results"@, decimal_string(n as nat))),
        None => p3,
    };
    let p5 = match args.sort_by {
        Some(s) => p4.push(("sortBy"@, sort_by_param(s))),
        None => p4,
    };
    match args.sort_order {
        Some(s) => p5.push(("sortOrder"@, sort_order_param(s))),
        None => p5,
    }
}

/// Whether `args` name something to search for: a non-blank search query
/// or a non-blank id list.
pub open spec fn has_query(args: QueryArguments) -> bool {
    trimmed_opt_spec(opt_str(args.search_query)) is Some || trimmed_opt_spec(
        opt_str(args.id_list),
    ) is Some
}

/// A non-blank trimmed optional argument.
fn trimmed_arg(a: &Option<String>) -> (res: Option<String>)
    ensures
        opt_str(res) == trimmed_opt_spec(opt_str(*a)),
{
    match a {
        Some(v) => {
            let t = trim_str(v.as_str());
            if t.as_str().is_empty() {
                None
            } else {
                Some(t)
            }
        },
        None => None,
    }
}

/// The name/value pairs of the query string, or the error when neither a
/// search query nor an id list is given.
pub fn query_pairs(args: &QueryArguments) -> (res: Result<Vec<(String, String)>, String>)
    ensures
        match res {
            Ok(pairs) => has_query(*args) && pairs.deep_view() == query_pairs_spec(*args),
            Err(m) => !has_query(*args) && m@ == MISSING_QUERY@,
        },
{
    let search_query = trimmed_arg(&args.search_query);
    let id_list = trimmed_arg(&args.id_list);
    if search_query.is_none() && id_list.is_none() {
        return Err(MISSING_QUERY.to_string());
    }
    let mut pairs: Vec<(String, String)> = Vec::new();
    let ghost p0 = pairs.deep_view();
    if let Some(q) = search_query {
        pairs.push(("search_query".to_string(), q));
    }
    let ghost p1 = pairs.deep_view();
    if let Some(ids) = id_list {
        pairs.push(("id_list".to_string(), ids));
    }
    let ghost p2 = pairs.deep_view();
    if let Some(n) = args.start {
        pairs.push(("start".to_string(), decimal_u64(n as u64)));
    }
    let ghost p3 = pairs.deep_view();
    if let Some(n) = args.max_results {
        pairs.push(("max_results".to_string(), decimal_u64(n as u64)));
    }
    let ghost p4 = pairs.deep_view();
    if let Some(s) = args.sort_by {
        pairs.push(("sortBy".to_string(), s.as_param().to_string()));
    }
    let ghost p5 = pairs.deep_view();
    if let Some(s) = args.sort_order {
        pairs.push(("sortOrder".to_string(), s.as_param().to_string()));
    }
    proof {
        assert(p0 =~= seq![]);
        assert(pairs.deep_view() =~= query_pairs_spec(*args));
    }
    Ok(pairs)
}

/// The URL a query fetches, when `args` name something to search for.
pub open spec fn request_url_spec(args: QueryArguments) -> Result<Seq<char>, Seq<char>> {
    if has_query(args) {
        url_with_params(ARXIV_API_URL@, query_pairs_spec(args))
    } else {
        Err(MISSING_QUERY@)
    }
}

/// The URL of the arXiv API request for `args`: the query endpoint with the
/// query pairs appended, or the error when there is nothing to search for.
pub fn request_url(args: &QueryArguments) -> (res: Result<String, String>)
    ensures
        match res {
            Ok(u) => request_url_spec(*args) == Ok::<Seq<char>, Seq<char>>(u@),
            Err(m) => request_url_spec(*args) == Err::<Seq<char>, Seq<char>>(m@),
        },
{
    let pairs = query_pairs(args)?;
    parse_with_params(ARXIV_API_URL, &pairs)
}


// ---------------------------------------------------------------------------
// The reply
// ---------------------------------------------------------------------------

/// What `String::from_utf8_lossy` makes of `bytes`: their UTF-8 text, with
/// each invalid sequence replaced by U+FFFD.
pub uninterp spec fn utf8_lossy(bytes: Seq<u8>) -> Seq<char>;

/// Decodes bytes as UTF-8 with `String::from_utf8_lossy`; the contract says
/// the result is `utf8_lossy` of the bytes.
#[verifier::external_body]
fn decode_lossy(bytes: &[u8]) -> (res: String)
    ensures
        res@ == utf8_lossy(bytes@),
{
    String::from_utf8_lossy(bytes).to_string()
}

/// Whether an HTTP status is a success (2xx).
pub open spec fn is_success(code: u16) -> bool {
    200 <= code < 300
}

/// Whether an HTTP status is a success (2xx).
pub fn is_success_status(code: u16) -> (res: bool)
    ensures
        res == is_success(code),
{
    200 <= code && code < 300
}

/// Whether a HEAD request succeeded: it got a reply (`Some(status)`) with a
/// 2xx status; a failed request (`None`) counts as no success.
pub fn head_ok(reply: Option<u16>) -> (res: bool)
    ensures
        res == match reply {
            Some(code) => is_success(code),
            None => false,
        },
{
    match reply {
        Some(code) => is_success_status(code),
        None => false,
    }
}

/// The start of the error for a reply with a failure status.
pub const STATUS_FAILURE: &'static str = "arXiv API request failed with status ";

/// The error for a reply with status `code` and text `body`.
pub open spec fn status_failure_message(code: u16, body: Seq<char>) -> Seq<char> {
    STATUS_FAILURE@ + decimal_string(code as nat) + ": "@ + body
}

/// Judges the reply of the API: its body as text when the status is 2xx,
/// else the error `arXiv API request failed with status <code>: <body>`.
pub fn api_reply(status: u16, body: &[u8]) -> (res: Result<String, String>)
    ensures
        match res {
            Ok(text) => is_success(status) && text@ == utf8_lossy(body@),
            Err(m) => !is_success(status) && m@ == status_failure_message(status, utf8_lossy(body@)),
        },
{
    let text = decode_lossy(body);
    if !is_success_status(status) {
        let m = concat_str(STATUS_FAILURE, decimal_u64(status as u64).as_str());
        let m = concat_str(m.as_str(), ": ");
        let m = concat_str(m.as_str(), text.as_str());
        return Err(m);
    }
    Ok(text)
}

/// The start of the error reported for an arXiv error feed.
pub const API_ERROR: &'static str = "arXiv API error: ";

/// The message reported for an error the API returned:
/// `arXiv API error: <message>`.
pub fn api_error_message(error: &ArxivError) -> (res: String)
    ensures
        res@ == API_ERROR@ + error.message@,
{
    concat_str(API_ERROR, error.message.as_str())
}

// ---------------------------------------------------------------------------
// E-print (source) URLs
// ---------------------------------------------------------------------------

/// Whether e-print URLs are checked: yes unless switched off.
pub open spec fn checks_sources(verify_source_url: Option<bool>) -> bool {
    match verify_source_url {
        Some(b) => b,
        None => true,
    }
}

/// The e-print URL to check for an entry: its candidate URL when checks are
/// on and the entry has an id.
pub open spec fn source_candidate(e: Entry, verify: bool) -> Option<(Seq<char>, Seq<char>)> {
    if verify && e.id@.len() > 0 {
        eprint_url_spec(e.id@)
    } else {
        None
    }
}

/// The e-print URL to check for each entry of `response`, in order.
pub fn source_candidates(response: &QueryResponse, verify_source_url: Option<bool>) -> (res: Vec<
    Option<WebUrl>,
>)
    ensures
        res.len() == response.entries.len(),
        forall|i: int|
            0 <= i < res.len() ==> url_opt_view(#[trigger] res@[i]) == source_candidate(
                response.entries@[i],
                checks_sources(verify_source_url),
            ),
{
    let verify = match verify_source_url {
        Some(b) => b,
        None => true,
    };
    let mut res: Vec<Option<WebUrl>> = Vec::new();
    let mut i: usize = 0;
    while i < response.entries.len()
        invariant
            i <= response.entries.len(),
            verify == checks_sources(verify_source_url),
            res.len() == i,
            forall|j: int|
                0 <= j < i ==> url_opt_view(#[trigger] res@[j]) == source_candidate(
                    response.entries@[j],
                    verify,
                ),
        decreases response.entries.len() - i,
    {
        let id = &response.entries[i].id;
        if verify && !id.as_str().is_empty() {
            res.push(eprint_url(id.as_str()));
        } else {
            res.push(None);
        }
        i += 1;
    }
    res
}

/// The source URL of an entry after its check: the candidate when it was
/// reachable, else unchanged.
pub open spec fn checked_source(e: Entry, candidate: Option<WebUrl>, reachable: bool) -> Option<
    WebUrl,
> {
    if reachable && candidate is Some {
        candidate
    } else {
        e.source_url
    }
}


/// `after` is `before` with the outcome of the e-print checks recorded:
/// each entry whose candidate was reachable has it as its source URL, and
/// nothing else differs.
pub open spec fn sources_attached(
    before: QueryResponse,
    after: QueryResponse,
    candidates: Seq<Option<WebUrl>>,
    reachable: Seq<bool>,
) -> bool {
    &&& after.total_results == before.total_results
    &&& after.start_index == before.start_index
    &&& after.items_per_page == before.items_per_page
    &&& after.entries.len() == before.entries.len()
    &&& forall|i: int|
        0 <= i < after.entries.len() ==> #[trigger] after.entries@[i] == (Entry {
            source_url: checked_source(before.entries@[i], candidates[i], reachable[i]),
            ..before.entries@[i]
        })
}

/// Records the outcome of the e-print checks: each entry whose candidate
/// URL was reachable gets it as its `source_url`; nothing else changes.
pub fn attach_sources(
    response: &mut QueryResponse,
    candidates: &Vec<Option<WebUrl>>,
    reachable: &Vec<bool>,
)
    requires
        candidates.len() == old(response).entries.len(),
        reachable.len() == old(response).entries.len(),
    ensures
        sources_attached(*old(response), *final(response), candidates@, reachable@),
{
    let mut entries: Vec<Entry> = Vec::new();
    std::mem::swap(&mut entries, &mut response.entries);
    let ghost xs = entries@;
    let mut updated: Vec<Entry> = Vec::new();
    for e in it: entries.into_iter()
        invariant
            it.seq() == xs,
            xs.len() == candidates.len(),
            xs.len() == reachable.len(),
            updated.len() == it.index(),
            forall|j: int|
                0 <= j < it.index() ==> #[trigger] updated@[j] == (Entry {
                    source_url: checked_source(xs[j], candidates@[j], reachable@[j]),
                    ..xs[j]
                }),
    {
        let i = updated.len();
        let mut e = e;
        if reachable[i] {
            match &candidates[i] {
                Some(u) => {
                    e.source_url = Some(u.clone());
                },
                None => {},
            }
        }
        updated.push(e);
    }
    response.entries = updated;
}


/// A source URL is reported only for an entry that has an id, while checks
/// are on, and only when the HEAD request to its e-print URL got a 2xx
/// reply; it is then that e-print URL.
pub proof fn lemma_source_url_only_when_reachable(
    before: QueryResponse,
    after: QueryResponse,
    verify_source_url: Option<bool>,
    candidates: Seq<Option<WebUrl>>,
    replies: Seq<Option<u16>>,
    reachable: Seq<bool>,
)
    requires
        candidates.len() == before.entries.len(),
        replies.len() == before.entries.len(),
        reachable.len() == before.entries.len(),
        forall|i: int|
            0 <= i < candidates.len() ==> url_opt_view(#[trigger] candidates[i]) == source_candidate(
                before.entries@[i],
                checks_sources(verify_source_url),
            ),
        forall|i: int|
            0 <= i < reachable.len() ==> #[trigger] reachable[i] == match replies[i] {
                Some(code) => is_success(code),
                None => false,
            },
        forall|i: int| 0 <= i < before.entries.len() ==> (#[trigger] before.entries@[i]).source_url is None,
        sources_attached(before, after, candidates, reachable),
    ensures
        forall|i: int|
            0 <= i < after.entries.len() ==> {
                &&& ((#[trigger] after.entries@[i]).source_url is Some <==> {
                    &&& checks_sources(verify_source_url)
                    &&& before.entries@[i].id@.len() > 0
                    &&& eprint_url_spec(before.entries@[i].id@) is Some
                    &&& replies[i] matches Some(code) && is_success(code)
                })
                &&& url_opt_view(after.entries@[i].source_url) matches Some(v) ==> Some(v)
                    == eprint_url_spec(before.entries@[i].id@)
            },
{
    assert forall|i: int| 0 <= i < after.entries.len() implies {
        &&& ((#[trigger] after.entries@[i]).source_url is Some <==> {
            &&& checks_sources(verify_source_url)
            &&& before.entries@[i].id@.len() > 0
            &&& eprint_url_spec(before.entries@[i].id@) is Some
            &&& replies[i] matches Some(code) && is_success(code)
        })
        &&& url_opt_view(after.entries@[i].source_url) matches Some(v) ==> Some(v) == eprint_url_spec(
            before.entries@[i].id@,
        )
    } by {
        assert(url_opt_view(candidates[i]) == source_candidate(
            before.entries@[i],
            checks_sources(verify_source_url),
        ));
        assert(reachable[i] == match replies[i] {
            Some(code) => is_success(code),
            None => false,
        });
        assert(before.entries@[i].source_url is None);
    }
}


proof fn lemma_push_keeps(p: Seq<(Seq<char>, Seq<char>)>, y: (Seq<char>, Seq<char>), x: (Seq<char>, Seq<char>))
    ensures
        p.contains(x) ==> p.push(y).contains(x),
        p.push(y).contains(y),
{
    if p.contains(x) {
        let k = choose|k: int| 0 <= k < p.len() && p[k] == x;
        assert(p.push(y)[k] == x);
    }
    assert(p.push(y)[p.len() as int] == y);
}

/// 1 when `b` holds, else 0.
pub open spec fn one_if(b: bool) -> int {
    if b {
        1
    } else {
        0
    }
}

/// Every argument that is given reaches the request: the query string holds
/// the non-blank trimmed search query and id list, `start` and
/// `max_results` as decimals, and the sort parameters, each whenever it is
/// given and whatever the other arguments are; and it holds nothing else.
pub proof fn lemma_query_pairs_carry_every_argument(args: QueryArguments)
    ensures
        trimmed_opt_spec(opt_str(args.search_query)) matches Some(q) ==> query_pairs_spec(
            args,
        ).contains(("search_query"@, q)),
        trimmed_opt_spec(opt_str(args.id_list)) matches Some(ids) ==> query_pairs_spec(
            args,
        ).contains(("id_list"@, ids)),
        args.start matches Some(n) ==> query_pairs_spec(args).contains(
            ("start"@, decimal_string(n as nat)),
        ),
        args.max_results matches Some(n) ==> query_pairs_spec(args).contains(
            ("max_results"@, decimal_string(n as nat)),
        ),
        args.sort_by matches Some(b) ==> query_pairs_spec(args).contains(
            ("sortBy"@, sort_by_param(b)),
        ),
        args.sort_order matches Some(o) ==> query_pairs_spec(args).contains(
            ("sortOrder"@, sort_order_param(o)),
        ),
        query_pairs_spec(args).len() == one_if(trimmed_opt_spec(opt_str(args.search_query)) is Some)
            + one_if(trimmed_opt_spec(opt_str(args.id_list)) is Some) + one_if(args.start is Some)
            + one_if(args.max_results is Some) + one_if(args.sort_by is Some) + one_if(
            args.sort_order is Some,
        ),
{
    let p0: Seq<(Seq<char>, Seq<char>)> = seq![];
    let sq = trimmed_opt_spec(opt_str(args.search_query));
    let il = trimmed_opt_spec(opt_str(args.id_list));
    let p1 = match sq {
        Some(q) => p0.push(("search_query"@, q)),
        None => p0,
    };
    let p2 = match il {
        Some(ids) => p1.push(("id_list"@, ids)),
        None => p1,
    };
    let p3 = match args.start {
        Some(n) => p2.push(("start"@, decimal_string(n as nat))),
        None => p2,
    };
    let p4 = match args.max_results {
        Some(n) => p3.push(("max_results"@, decimal_string(n as nat))),
        None => p3,
    };
    let p5 = match args.sort_by {
        Some(b) => p4.push(("sortBy"@, sort_by_param(b))),
        None => p4,
    };
    let p6 = match args.sort_order {
        Some(o) => p5.push(("sortOrder"@, sort_order_param(o))),
        None => p5,
    };
    assert(query_pairs_spec(args) == p6);
    let o1 = match sq {
        Some(q) => Some(("search_query"@, q)),
        None => None,
    };
    let o2 = match il {
        Some(ids) => Some(("id_list"@, ids)),
        None => None,
    };
    let o3 = match args.start {
        Some(n) => Some(("start"@, decimal_string(n as nat))),
        None => None,
    };
    let o4 = match args.max_results {
        Some(n) => Some(("max_results"@, decimal_string(n as nat))),
        None => None,
    };
    let o5 = match args.sort_by {
        Some(b) => Some(("sortBy"@, sort_by_param(b))),
        None => None,
    };
    let o6 = match args.sort_order {
        Some(o) => Some(("sortOrder"@, sort_order_param(o))),
        None => None,
    };
    assert(p1 == maybe_push(p0, o1));
    assert(p2 == maybe_push(p1, o2));
    assert(p3 == maybe_push(p2, o3));
    assert(p4 == maybe_push(p3, o4));
    assert(p5 == maybe_push(p4, o5));
    assert(p6 == maybe_push(p5, o6));
    lemma_maybe_push(p0, o1);
    lemma_maybe_push(p1, o2);
    lemma_maybe_push(p2, o3);
    lemma_maybe_push(p3, o4);
    lemma_maybe_push(p4, o5);
    lemma_maybe_push(p5, o6);
}

/// `p` with `o` appended when there is one.
pub open spec fn maybe_push(p: Seq<(Seq<char>, Seq<char>)>, o: Option<(Seq<char>, Seq<char>)>) -> Seq<
    (Seq<char>, Seq<char>),
> {
    match o {
        Some(y) => p.push(y),
        None => p,
    }
}

proof fn lemma_maybe_push(p: Seq<(Seq<char>, Seq<char>)>, o: Option<(Seq<char>, Seq<char>)>)
    ensures
        forall|x: (Seq<char>, Seq<char>)| p.contains(x) ==> #[trigger] maybe_push(p, o).contains(x),
        o matches Some(y) ==> maybe_push(p, o).contains(y),
        maybe_push(p, o).len() == p.len() + one_if(o is Some),
{
    match o {
        Some(y) => {
            assert forall|x: (Seq<char>, Seq<char>)| p.contains(x) implies #[trigger] maybe_push(
                p,
                o,
            ).contains(x) by {
                lemma_push_keeps(p, y, x);
            }
            lemma_push_keeps(p, y, y);
        },
        None => {},
    }
}

/// E-print checks are on unless switched off: with `verify_source_url`
/// absent or `Some(true)`, every entry with an id gets its e-print URL as
/// the candidate to check; with `Some(false)`, or for an entry without an
/// id, there is none.
pub proof fn lemma_source_checks_switch(e: Entry, verify_source_url: Option<bool>)
    ensures
        verify_source_url != Some(false) && e.id@.len() > 0 ==> source_candidate(
            e,
            checks_sources(verify_source_url),
        ) == eprint_url_spec(e.id@),
        verify_source_url == Some(false) || e.id@.len() == 0 ==> source_candidate(
            e,
            checks_sources(verify_source_url),
        ) is None,
{
}

} // verus!
