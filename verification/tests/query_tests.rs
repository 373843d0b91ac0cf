use arxiv_query::query::{
    api_error_message, api_reply, attach_sources, head_ok, is_success_status, query_pairs,
    request_url, source_candidates, tool_named, ToolName, MISSING_QUERY,
};
use arxiv_query::retry::{next_step, retry_after_at, Delay, HttpOutcome, RetryStep, UtcInstant};
use arxiv_query::types::{ArxivError, Entry, QueryArguments, QueryResponse, SortBy, SortOrder};
use arxiv_query::web::WebUrl;

#[test]
fn only_the_query_tool_exists() {
    assert_eq!(tool_named("query"), Ok(ToolName::Query));
    assert_eq!(tool_named("search"), Err("Unknown tool: search".to_string()));
}

#[test]
fn a_query_needs_a_search_or_ids() {
    let args = QueryArguments {
        search_query: Some("   ".to_string()),
        start: Some(3),
        ..Default::default()
    };
    assert_eq!(query_pairs(&args), Err(MISSING_QUERY.to_string()));
    assert_eq!(
        request_url(&QueryArguments::default()),
        Err("At least one of `search_query` or `id_list` must be provided.".to_string())
    );
}

#[test]
fn query_pairs_follow_the_arguments() {
    let args = QueryArguments {
        search_query: Some("  all:electron ".to_string()),
        id_list: Some("2301.00001,hep-ex/0307015".to_string()),
        start: Some(0),
        max_results: Some(2000),
        sort_by: Some(SortBy::LastUpdatedDate),
        sort_order: Some(SortOrder::Descending),
        verify_source_url: None,
    };
    let pairs = query_pairs(&args).unwrap();
    let expected: Vec<(String, String)> = vec![
        ("search_query", "all:electron"),
        ("id_list", "2301.00001,hep-ex/0307015"),
        ("start", "0"),
        ("max_results", "2000"),
        ("sortBy", "lastUpdatedDate"),
        ("sortOrder", "descending"),
    ]
    .into_iter()
    .map(|(k, v)| (k.to_string(), v.to_string()))
    .collect();
    assert_eq!(pairs, expected);
}

#[test]
fn request_url_encodes_the_query() {
    let args = QueryArguments {
        search_query: Some("ti:\"quantum criticality\"".to_string()),
        max_results: Some(2),
        ..Default::default()
    };
    assert_eq!(
        request_url(&args).unwrap(),
        "https://export.arxiv.org/api/query?search_query=ti%3A%22quantum+criticality%22&max_results=2"
    );
    let args = QueryArguments {
        id_list: Some("2301.00001,hep-ex/0307015".to_string()),
        ..Default::default()
    };
    assert_eq!(
        request_url(&args).unwrap(),
        "https://export.arxiv.org/api/query?id_list=2301.00001%2Chep-ex%2F0307015"
    );
}

#[test]
fn replies_are_judged_by_status() {
    assert_eq!(api_reply(200, b"<feed/>"), Ok("<feed/>".to_string()));
    assert_eq!(api_reply(299, b""), Ok(String::new()));
    assert_eq!(
        api_reply(500, b"oops"),
        Err("arXiv API request failed with status 500: oops".to_string())
    );
    assert_eq!(
        api_reply(199, b"x"),
        Err("arXiv API request failed with status 199: x".to_string())
    );
    assert_eq!(api_reply(200, &[0x61, 0xff, 0x62]), Ok("a\u{fffd}b".to_string()));
    assert!(is_success_status(204));
    assert!(!is_success_status(300));
}

#[test]
fn api_errors_are_reported() {
    let error = ArxivError {
        code: None,
        message: "incorrect id format for 1234.12345".to_string(),
        link: String::new(),
        updated: String::new(),
    };
    assert_eq!(api_error_message(&error), "arXiv API error: incorrect id format for 1234.12345");
}

#[test]
fn head_checks_need_a_success_reply() {
    assert!(head_ok(Some(200)));
    assert!(head_ok(Some(204)));
    assert!(!head_ok(Some(404)));
    assert!(!head_ok(None));
}

fn response_with_ids(ids: &[&str]) -> QueryResponse {
    QueryResponse {
        total_results: 7,
        start_index: 1,
        items_per_page: ids.len() as u64,
        entries: ids
            .iter()
            .map(|id| Entry { id: id.to_string(), ..Default::default() })
            .collect(),
    }
}

#[test]
fn source_urls_are_set_only_for_reachable_candidates() {
    let mut response = response_with_ids(&["hep-ex/0307015v1", "", "2301.00001"]);
    let candidates = source_candidates(&response, None);
    assert_eq!(
        candidates.iter().map(|c| c.as_ref().map(WebUrl::to_string)).collect::<Vec<_>>(),
        vec![
            Some("https://arxiv.org/e-print/hep-ex/0307015v1".to_string()),
            None,
            Some("https://arxiv.org/e-print/2301.00001".to_string()),
        ]
    );
    attach_sources(&mut response, &candidates, &vec![true, true, false]);
    assert_eq!(response.total_results, 7);
    assert_eq!(
        response.entries[0].source_url.as_ref().map(WebUrl::as_str),
        Some("https://arxiv.org/e-print/hep-ex/0307015v1")
    );
    assert!(response.entries[1].source_url.is_none());
    assert!(response.entries[2].source_url.is_none());
    assert_eq!(response.entries[2].id, "2301.00001");
}

#[test]
fn source_checks_can_be_switched_off() {
    let response = response_with_ids(&["hep-ex/0307015v1"]);
    let candidates = source_candidates(&response, Some(false));
    assert_eq!(candidates.len(), 1);
    assert!(candidates[0].is_none());
}

#[test]
fn retries_stop_after_three_attempts() {
    let standard = RetryStep::Retry(Delay { secs: 15, nanos: 0 });
    assert_eq!(next_step(1, &HttpOutcome::Failed), standard);
    assert_eq!(next_step(2, &HttpOutcome::Failed), standard);
    assert_eq!(next_step(3, &HttpOutcome::Failed), RetryStep::Finish);
    let reply = |status: u16| HttpOutcome::Reply { status, retry_after: None };
    assert_eq!(next_step(1, &reply(429)), standard);
    assert_eq!(next_step(1, &reply(500)), standard);
    assert_eq!(next_step(1, &reply(503)), RetryStep::Finish);
    assert_eq!(next_step(1, &reply(404)), RetryStep::Finish);
    assert_eq!(next_step(1, &reply(200)), RetryStep::Finish);
    assert_eq!(next_step(3, &reply(500)), RetryStep::Finish);
    let with_header = HttpOutcome::Reply { status: 429, retry_after: Some("2".to_string()) };
    assert_eq!(next_step(2, &with_header), RetryStep::Retry(Delay { secs: 2, nanos: 0 }));
    let junk = HttpOutcome::Reply { status: 502, retry_after: Some("soon".to_string()) };
    assert_eq!(next_step(1, &junk), standard);
}

#[test]
fn retry_after_values() {
    // 2015-10-21T07:27:00Z
    let now = UtcInstant { secs: 1445412420, nanos: 0 };
    assert_eq!(retry_after_at("120", now), Some(Delay { secs: 120, nanos: 0 }));
    assert_eq!(
        retry_after_at("Wed, 21 Oct 2015 07:28:00 GMT", now),
        Some(Delay { secs: 60, nanos: 0 })
    );
    assert_eq!(
        retry_after_at("Wed Oct 21 07:28:30 2015", now),
        Some(Delay { secs: 90, nanos: 0 })
    );
    assert_eq!(retry_after_at("Wed, 21 Oct 2015 07:26:00 GMT", now), None);
    let later = UtcInstant { secs: 1445412420, nanos: 500_000_000 };
    assert_eq!(
        retry_after_at("Wed, 21 Oct 2015 07:27:01 GMT", later),
        Some(Delay { secs: 0, nanos: 500_000_000 })
    );
    assert_eq!(retry_after_at("tomorrow", now), None);
}
