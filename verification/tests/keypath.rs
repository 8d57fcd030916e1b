use uattestation::keypath::{parse_key, PathStep};

fn keys(steps: &[PathStep]) -> Vec<String> {
    steps
        .iter()
        .map(|p| match p {
            PathStep::Key(k) => format!("K:{}", k),
            PathStep::Index(i) => format!("I:{}", i),
        })
        .collect()
}

#[test]
fn identifiers_children_and_subscripts() {
    assert_eq!(keys(&parse_key("abcd").unwrap()), vec!["K:abcd"]);
    assert_eq!(keys(&parse_key("abcd-efgh").unwrap()), vec!["K:abcd-efgh"]);
    assert_eq!(keys(&parse_key("abcd.efgh.ijkl").unwrap()), vec!["K:abcd", "K:efgh", "K:ijkl"]);
    assert_eq!(keys(&parse_key("abcd[12]").unwrap()), vec!["K:abcd", "I:12"]);
    assert_eq!(keys(&parse_key("abcd[-1]").unwrap()), vec!["K:abcd", "I:-1"]);
    assert_eq!(keys(&parse_key("a b[\t3 ].c_d").unwrap()), vec!["K:a b", "I:3", "K:c_d"]);
}

#[test]
fn malformed_keys() {
    assert!(parse_key("").is_none());
    assert!(parse_key(".a").is_none());
    assert!(parse_key("a.").is_none());
    assert!(parse_key("a[]").is_none());
    assert!(parse_key("a[+1]").is_none());
    assert!(parse_key("a[1]x").is_none());
    assert!(parse_key("a[-]").is_none());
    assert!(parse_key("a[9223372036854775808]").is_none());
    assert_eq!(keys(&parse_key("a[-9223372036854775808]").unwrap()), vec!["K:a", "I:-9223372036854775808"]);
}
