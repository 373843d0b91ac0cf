use arxiv_query::types::{parse_arxiv_id, Entry, XmlEntry, XmlLink};
use arxiv_query::web::{eprint_url, parse_url_opt, WebUrl};

#[test]
fn parses_new_and_old_style_ids() {
    assert_eq!(
        parse_arxiv_id("http://arxiv.org/abs/2301.00001v1"),
        "2301.00001v1"
    );
    assert_eq!(
        parse_arxiv_id("https://arxiv.org/abs/2301.00001"),
        "2301.00001"
    );
    // Old-style ids contain a slash and must not be split on the last `/`.
    assert_eq!(
        parse_arxiv_id("http://arxiv.org/abs/hep-ex/0307015v1"),
        "hep-ex/0307015v1"
    );
    assert_eq!(
        parse_arxiv_id("https://arxiv.org/abs/cond-mat/0011267"),
        "cond-mat/0011267"
    );
    // Surrounding whitespace (as in the manual examples) is trimmed.
    assert_eq!(
        parse_arxiv_id("\n    http://arxiv.org/abs/hep-ex/0307015\n"),
        "hep-ex/0307015"
    );
}

#[test]
fn eprint_url_is_built_from_id() {
    assert_eq!(
        eprint_url("hep-ex/0307015v1").as_ref().map(WebUrl::as_str),
        Some("https://arxiv.org/e-print/hep-ex/0307015v1")
    );
}

#[test]
fn doi_url_pairing_is_exact_not_substring() {
    // Two DOIs where one is a prefix of the other, with the links listed in
    // an order that would mis-pair under a substring match.
    let xml = XmlEntry {
        id: "http://arxiv.org/abs/1234.5678v1".to_string(),
        title: "Prefix DOI entry".to_string(),
        doi: vec!["10.1234/foo".to_string(), "10.1234/foo.s1".to_string()],
        links: vec![
            // The longer (prefix-containing) URL is listed first on purpose.
            XmlLink {
                href: "https://doi.org/10.1234/foo.s1".to_string(),
                rel: Some("related".to_string()),
                title: Some("doi".to_string()),
            },
            XmlLink {
                href: "https://doi.org/10.1234/foo".to_string(),
                rel: Some("related".to_string()),
                title: Some("doi".to_string()),
            },
        ],
        ..Default::default()
    };

    let entry = Entry::from_xml(xml);
    assert_eq!(entry.dois.len(), 2);
    assert_eq!(entry.dois[0].doi, "10.1234/foo");
    assert_eq!(
        entry.dois[0].url.as_ref().map(WebUrl::as_str),
        Some("https://doi.org/10.1234/foo")
    );
    assert_eq!(entry.dois[1].doi, "10.1234/foo.s1");
    assert_eq!(
        entry.dois[1].url.as_ref().map(WebUrl::as_str),
        Some("https://doi.org/10.1234/foo.s1")
    );
}

#[test]
fn parse_url_opt_rejects_invalid_and_accepts_valid() {
    // Valid absolute URLs (optionally surrounded by whitespace) are kept.
    assert!(parse_url_opt("https://arxiv.org/abs/2301.00001v1").is_some());
    assert_eq!(
        parse_url_opt("  https://arxiv.org/x  ").map(|u| u.to_string()),
        Some("https://arxiv.org/x".to_string())
    );
    // Empty / whitespace-only input is rejected.
    assert!(parse_url_opt("").is_none());
    assert!(parse_url_opt("   ").is_none());
    // Scheme-less / relative strings are not valid URLs and are rejected.
    assert!(parse_url_opt("not a url").is_none());
    assert!(parse_url_opt("/relative/path").is_none());
    assert!(parse_url_opt("10.14722/ndss.2025").is_none());
}

#[test]
fn malformed_urls_are_dropped_from_entry() {
    // A synthetic entry whose links are all malformed.
    let xml = XmlEntry {
        id: "not a url".to_string(),
        title: "Bad URL entry".to_string(),
        doi: vec!["10.1234/example".to_string()],
        links: vec![
            // alternate (abstract) link with a malformed href
            XmlLink {
                href: "not a url".to_string(),
                rel: Some("alternate".to_string()),
                title: None,
            },
            // pdf link with a malformed href
            XmlLink {
                href: "/relative/path".to_string(),
                rel: Some("related".to_string()),
                title: Some("pdf".to_string()),
            },
            // doi link with a malformed (scheme-less) href
            XmlLink {
                href: "10.1234/example".to_string(),
                rel: Some("related".to_string()),
                title: Some("doi".to_string()),
            },
        ],
        ..Default::default()
    };

    let entry = Entry::from_xml(xml);

    // Both the malformed alternate link and the non-URL `<id>` fallback
    // fail to parse, so no abstract URL is surfaced.
    assert!(entry.abstract_url.is_none());
    // Malformed pdf link is dropped.
    assert!(entry.pdf_url.is_none());
    // The DOI string is kept, but its malformed link URL is dropped to None.
    assert_eq!(entry.dois.len(), 1);
    assert_eq!(entry.dois[0].doi, "10.1234/example");
    assert!(entry.dois[0].url.is_none());
}

#[test]
fn parsed_urls_are_normalised_by_the_url_parser() {
    let u = parse_url_opt(" HTTPS://ArXiv.org ").unwrap();
    assert_eq!(u.as_str(), "https://arxiv.org/");
    assert_eq!(u.path(), "/");
    let u = parse_url_opt("https://doi.org/10.1103/PhysRevD.61.084004?x=1").unwrap();
    assert_eq!(u.path(), "/10.1103/PhysRevD.61.084004");
    assert!(eprint_url("").is_some());
    assert_eq!(eprint_url("a b").unwrap().as_str(), "https://arxiv.org/e-print/a%20b");
}
