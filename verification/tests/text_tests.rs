use arxiv_query::text::{
    after_first_chars, chars_of, concat_str, contains_chars, decimal_u64, is_whitespace,
    normalize_whitespace, parse_u64, strip_prefix_chars, str_equal, trim_start_char_chars,
    trim_str,
};

#[test]
fn whitespace_class_matches_std_for_every_char() {
    for code in 0u32..=0x10FFFF {
        if let Some(c) = char::from_u32(code) {
            assert_eq!(is_whitespace(c), c.is_whitespace(), "char U+{:04X}", code);
        }
    }
}

#[test]
fn trim_matches_std() {
    let samples = [
        "",
        "   ",
        "abc",
        "  abc  ",
        "\n\t a b \u{3000}",
        "\u{a0}x\u{2028}",
        "  inner  space  ",
    ];
    for s in samples {
        assert_eq!(trim_str(s), s.trim());
    }
}

#[test]
fn normalize_collapses_runs_like_split_whitespace() {
    let samples = [
        "",
        "   ",
        "one",
        "  The electronic   structure\n    of cuprates  ",
        "a\tb\nc\u{2003}d",
        " x ",
    ];
    for s in samples {
        let expected = s.split_whitespace().collect::<Vec<_>>().join(" ");
        assert_eq!(normalize_whitespace(s), expected);
    }
    assert_eq!(
        normalize_whitespace("\n  We report   studies\n  of cuprates\n"),
        "We report studies of cuprates"
    );
}

#[test]
fn normalizing_twice_changes_nothing() {
    let once = normalize_whitespace("  a \n\n b\t\tc  ");
    assert_eq!(once, "a b c");
    assert_eq!(normalize_whitespace(&once), once);
}

#[test]
fn trimming_twice_changes_nothing() {
    let once = trim_str("\t  x y  \n");
    assert_eq!(once, "x y");
    assert_eq!(trim_str(&once), once);
}

#[test]
fn parse_u64_matches_std() {
    let samples = [
        "0",
        "7",
        "+7",
        "+",
        "-1",
        "",
        " 1",
        "12a",
        "182239",
        "18446744073709551615",
        "18446744073709551616",
        "99999999999999999999999",
        "00012",
    ];
    for s in samples {
        assert_eq!(parse_u64(&chars_of(s)), s.parse::<u64>().ok(), "input {:?}", s);
    }
}

#[test]
fn decimal_matches_to_string() {
    for n in [0u64, 9, 10, 99, 100, 429, 503, 2000, u64::MAX] {
        assert_eq!(decimal_u64(n), n.to_string());
    }
}

#[test]
fn prefix_search_and_split_helpers() {
    let s = chars_of("https://arxiv.org/abs/hep-ex/0307015");
    let p = chars_of("https://arxiv.org/abs/");
    let rest = strip_prefix_chars(&s, &p).unwrap();
    assert_eq!(rest.iter().collect::<String>(), "hep-ex/0307015");
    assert!(strip_prefix_chars(&p, &s).is_none());

    assert!(contains_chars(&chars_of("http://arxiv.org/api/errors#x"), &chars_of("arxiv.org/api/errors")));
    assert!(!contains_chars(&chars_of("http://arxiv.org/abs/1"), &chars_of("arxiv.org/api/errors")));
    assert!(contains_chars(&chars_of("abc"), &chars_of("")));

    let after = after_first_chars(&chars_of("a#b#c"), '#').unwrap();
    assert_eq!(after.iter().collect::<String>(), "b#c");
    assert!(after_first_chars(&chars_of("abc"), '#').is_none());

    let tail = trim_start_char_chars(&chars_of("//10.1/x"), '/');
    assert_eq!(tail.iter().collect::<String>(), "10.1/x");

    assert!(str_equal("doi", "doi"));
    assert!(!str_equal("doi", "do"));
    assert_eq!(concat_str("ab", "cd"), "abcd");
}

