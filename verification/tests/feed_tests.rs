use arxiv_query::types::{
    normalized_list, parse_count, trimmed_list, trimmed_opt, ArxivError, ArxivResponse, Entry,
    QueryResponse, SortBy, SortOrder, XmlAuthor, XmlCategory, XmlEntry, XmlFeed, XmlLink,
};
use arxiv_query::web::WebUrl;

fn link(href: &str, rel: Option<&str>, title: Option<&str>) -> XmlLink {
    XmlLink {
        href: href.to_string(),
        rel: rel.map(|s| s.to_string()),
        title: title.map(|s| s.to_string()),
    }
}

fn sample_entry() -> XmlEntry {
    XmlEntry {
        id: "\n  http://arxiv.org/abs/cond-mat/0011267v1\n".to_string(),
        title: "The electronic structure of cuprates\n    from high energy spectroscopy".to_string(),
        summary: "  We report studies\n  of the electronic structure.  ".to_string(),
        published: " 2000-11-15T16:19:15Z ".to_string(),
        updated: "2000-11-15T16:19:15Z\n".to_string(),
        authors: vec![
            XmlAuthor { name: " Mark S.\n Golden ".to_string(), affiliation: vec![] },
            XmlAuthor {
                name: "Rohit Goswami".to_string(),
                affiliation: vec![
                    "TurtleTech ehf.,\n Reykjavik, Iceland".to_string(),
                    "   ".to_string(),
                    "Institute IMX and Lab-COSMO, EPFL, Lausanne, Switzerland".to_string(),
                ],
            },
        ],
        links: vec![
            link("http://arxiv.org/abs/cond-mat/0011267v1", Some("alternate"), None),
            link("http://arxiv.org/pdf/cond-mat/0011267v1", Some("related"), Some("pdf")),
        ],
        categories: vec![
            XmlCategory { term: "cond-mat.supr-con".to_string() },
            XmlCategory { term: "  ".to_string() },
            XmlCategory { term: " cond-mat.str-el ".to_string() },
        ],
        primary_category: Some(XmlCategory { term: " cond-mat.supr-con ".to_string() }),
        comment: Some("  Invited paper, special issue  ".to_string()),
        journal_ref: Some("   ".to_string()),
        doi: vec![],
    }
}

#[test]
fn entry_fields_are_cleaned() {
    let entry = Entry::from_xml(sample_entry());
    assert_eq!(entry.id, "cond-mat/0011267v1");
    assert_eq!(entry.title, "The electronic structure of cuprates from high energy spectroscopy");
    assert_eq!(entry.summary, "We report studies of the electronic structure.");
    assert_eq!(entry.published, "2000-11-15T16:19:15Z");
    assert_eq!(entry.updated, "2000-11-15T16:19:15Z");
    assert_eq!(entry.authors.len(), 2);
    assert_eq!(entry.authors[0].name, "Mark S. Golden");
    assert!(entry.authors[0].affiliations.is_empty());
    assert_eq!(entry.authors[1].name, "Rohit Goswami");
    assert_eq!(
        entry.authors[1].affiliations,
        vec![
            "TurtleTech ehf., Reykjavik, Iceland".to_string(),
            "Institute IMX and Lab-COSMO, EPFL, Lausanne, Switzerland".to_string(),
        ]
    );
    assert_eq!(entry.primary_category.as_deref(), Some("cond-mat.supr-con"));
    assert_eq!(entry.categories, vec!["cond-mat.supr-con", "cond-mat.str-el"]);
    assert_eq!(entry.comment.as_deref(), Some("Invited paper, special issue"));
    assert!(entry.journal_ref.is_none());
    assert!(entry.dois.is_empty());
    assert_eq!(
        entry.abstract_url.as_ref().map(WebUrl::as_str),
        Some("http://arxiv.org/abs/cond-mat/0011267v1")
    );
    assert_eq!(
        entry.pdf_url.as_ref().map(WebUrl::as_str),
        Some("http://arxiv.org/pdf/cond-mat/0011267v1")
    );
    assert!(entry.source_url.is_none());
}

#[test]
fn abstract_url_falls_back_to_the_id() {
    let mut xml = sample_entry();
    xml.links = vec![link("not a url", Some("alternate"), None)];
    let entry = Entry::from_xml(xml);
    assert_eq!(
        entry.abstract_url.as_ref().map(WebUrl::as_str),
        Some("http://arxiv.org/abs/cond-mat/0011267v1")
    );
    assert!(entry.pdf_url.is_none());
}

#[test]
fn first_matching_link_is_used() {
    let mut xml = sample_entry();
    xml.links = vec![
        link("https://arxiv.org/abs/a", Some("alternate"), None),
        link("https://arxiv.org/abs/b", Some("alternate"), None),
        link("https://arxiv.org/pdf/a", None, Some("pdf")),
        link("https://arxiv.org/pdf/b", None, Some("pdf")),
    ];
    let entry = Entry::from_xml(xml);
    assert_eq!(entry.abstract_url.as_ref().map(WebUrl::as_str), Some("https://arxiv.org/abs/a"));
    assert_eq!(entry.pdf_url.as_ref().map(WebUrl::as_str), Some("https://arxiv.org/pdf/a"));
}

#[test]
fn dois_are_paired_with_their_own_links() {
    let mut xml = sample_entry();
    xml.doi = vec![
        " 10.1103/PhysRevD.61.084004 ".to_string(),
        "".to_string(),
        "10.1103/PhysRevD.63.049902".to_string(),
        "10.9/none".to_string(),
    ];
    xml.links = vec![
        link("https://doi.org/10.1103/PhysRevD.63.049902", Some("related"), Some("doi")),
        link("https://doi.org/10.1103/PhysRevD.61.084004", Some("related"), Some("doi")),
    ];
    let entry = Entry::from_xml(xml);
    let dois: Vec<&str> = entry.dois.iter().map(|d| d.doi.as_str()).collect();
    assert_eq!(
        dois,
        vec!["10.1103/PhysRevD.61.084004", "10.1103/PhysRevD.63.049902", "10.9/none"]
    );
    for d in &entry.dois[..2] {
        assert_eq!(
            d.url.as_ref().map(WebUrl::as_str),
            Some(format!("https://doi.org/{}", d.doi).as_str())
        );
    }
    assert!(entry.dois[2].url.is_none());
}

#[test]
fn counts_default_to_zero() {
    assert_eq!(parse_count(&Some(" 182239 ".to_string())), 182239);
    assert_eq!(parse_count(&Some("+5".to_string())), 5);
    assert_eq!(parse_count(&Some("many".to_string())), 0);
    assert_eq!(parse_count(&Some("18446744073709551616".to_string())), 0);
    assert_eq!(parse_count(&None), 0);
}

#[test]
fn optional_and_list_values_are_trimmed() {
    assert_eq!(trimmed_opt(Some("  x ".to_string())), Some("x".to_string()));
    assert_eq!(trimmed_opt(Some(" \n ".to_string())), None);
    assert_eq!(trimmed_opt(None), None);
    assert_eq!(
        trimmed_list(&vec![" a ".to_string(), " ".to_string(), "b".to_string()]),
        vec!["a".to_string(), "b".to_string()]
    );
    assert_eq!(
        normalized_list(&vec![" a  b ".to_string(), "\n".to_string()]),
        vec!["a b".to_string()]
    );
}

#[test]
fn feed_metadata_and_entries_are_kept() {
    let feed = XmlFeed {
        total_results: Some("182239".to_string()),
        start_index: Some("0".to_string()),
        items_per_page: Some("2".to_string()),
        entries: vec![sample_entry(), sample_entry()],
    };
    match ArxivResponse::from_feed(feed) {
        ArxivResponse::Results(response) => {
            assert_eq!(response.total_results, 182239);
            assert_eq!(response.start_index, 0);
            assert_eq!(response.items_per_page, 2);
            assert_eq!(response.entries.len(), 2);
            assert_eq!(response.entries[1].id, "cond-mat/0011267v1");
        }
        ArxivResponse::Error(_) => panic!("expected a results response"),
    }
}

fn error_feed() -> XmlFeed {
    XmlFeed {
        total_results: Some("1".to_string()),
        start_index: Some("0".to_string()),
        items_per_page: Some("1".to_string()),
        entries: vec![XmlEntry {
            id: " http://arxiv.org/api/errors#incorrect_id_format_for_1234.12345 ".to_string(),
            title: "Error".to_string(),
            summary: "incorrect id format for\n 1234.12345".to_string(),
            updated: "2007-10-12T00:00:00-04:00".to_string(),
            ..Default::default()
        }],
    }
}

#[test]
fn error_feed_becomes_an_error() {
    match ArxivResponse::from_feed(error_feed()) {
        ArxivResponse::Error(error) => {
            assert_eq!(error.message, "incorrect id format for 1234.12345");
            assert_eq!(error.code.as_deref(), Some("incorrect_id_format_for_1234.12345"));
            assert!(error.link.contains("arxiv.org/api/errors"));
            assert_eq!(error.updated, "2007-10-12T00:00:00-04:00");
        }
        ArxivResponse::Results(_) => panic!("expected an error response"),
    }
}

#[test]
fn only_a_single_error_entry_is_an_error() {
    let mut feed = error_feed();
    feed.entries.push(sample_entry());
    assert!(ArxivError::from_feed(&feed).is_none());

    let mut feed = error_feed();
    feed.entries[0].id = "http://arxiv.org/api/errors".to_string();
    let error = ArxivError::from_feed(&feed).unwrap();
    assert_eq!(error.code, None);

    let mut feed = error_feed();
    feed.entries[0].id = "http://arxiv.org/api/errors#  ".to_string();
    assert_eq!(ArxivError::from_feed(&feed).unwrap().code, None);

    let feed = XmlFeed { entries: vec![sample_entry()], ..Default::default() };
    assert!(ArxivError::from_feed(&feed).is_none());
    let response = QueryResponse::from_feed(feed);
    assert_eq!(response.total_results, 0);
    assert_eq!(response.entries.len(), 1);
}

#[test]
fn sort_parameters() {
    assert_eq!(SortBy::Relevance.as_param(), "relevance");
    assert_eq!(SortBy::LastUpdatedDate.as_param(), "lastUpdatedDate");
    assert_eq!(SortBy::SubmittedDate.as_param(), "submittedDate");
    assert_eq!(SortOrder::Ascending.as_param(), "ascending");
    assert_eq!(SortOrder::Descending.as_param(), "descending");
}
