use fywaf::crs::operators::{
    parse_byte_ranges, parse_i64, pm_match, pm_match_phrases, rx_found, rx_match,
    validate_byte_range,
};
use fywaf::crs::types::Operator;

fn hit(op: &Operator, value: &str) -> bool {
    fywaf::crs::operators::matches(op, value)
}

#[test]
fn rx_basic() {
    assert!(hit(&Operator::Rx("(?i)select".to_string()), "SELECT 1"));
    assert!(!hit(&Operator::Rx("(?i)select".to_string()), "hello world"));
}

#[test]
fn pm_basic() {
    let op = Operator::Pm(vec!["union".to_string(), "select".to_string()]);
    assert!(hit(&op, "UNION ALL SELECT 1"));
    assert!(!hit(&op, "hello world"));
}

#[test]
fn contains_case_insensitive() {
    assert!(hit(&Operator::Contains("script".to_string()), "<SCRIPT>"));
}

#[test]
fn begins_ends_with() {
    assert!(hit(&Operator::BeginsWith("hel".to_string()), "hello"));
    assert!(hit(&Operator::EndsWith("rld".to_string()), "world"));
}

#[test]
fn numeric_ops() {
    assert!(hit(&Operator::Lt(5), "3"));
    assert!(!hit(&Operator::Lt(5), "5"));
    assert!(hit(&Operator::Ge(3), "3"));
    assert!(hit(&Operator::Gt(2), "3"));
}

#[test]
fn negated() {
    let inner = Operator::Rx("sql".to_string());
    let op = Operator::Negated(Box::new(inner));
    assert!(hit(&op, "hello"));
    assert!(!hit(&op, "sql injection"));
}

#[test]
fn detect_xss_sqli_always_false() {
    assert!(!hit(&Operator::DetectXss, "<script>alert(1)</script>"));
    assert!(!hit(&Operator::DetectSqli, "' OR 1=1--"));
}

#[test]
fn validate_byte_range_valid() {
    assert!(validate_byte_range("hello", "32-126"));
}

#[test]
fn validate_byte_range_invalid() {
    assert!(!validate_byte_range("hel\x00lo", "32-126"));
}

#[test]
fn broken_pattern_matches_nothing() {
    assert!(!rx_match("(", "("));
    assert!(!rx_match("(", ""));
    assert!(rx_match("b+", "abbc"));
}

#[test]
fn found_is_a_match() {
    assert!(rx_found(Some(true)));
    assert!(!rx_found(Some(false)));
    assert!(!rx_found(None));
}

#[test]
fn words_are_taken_as_they_are() {
    assert!(pm_match(&["abc".to_string()], "xABCx"));
    assert!(!pm_match(&["ABC".to_string()], "xABCx"));
    assert!(!pm_match(&[], "anything"));
    assert!(pm_match(&["ä".to_string()], "Ä"));
}

#[test]
fn phrases_skip_comments_and_blank_lines() {
    let phrases = "# comment\n\n  Evil Bot  \r\nnmap\n";
    assert!(pm_match_phrases(phrases, "an EVIL BOT indeed"));
    assert!(pm_match_phrases(phrases, "Nmap/7"));
    assert!(!pm_match_phrases(phrases, "a comment"));
    assert!(!pm_match_phrases("", "x"));
}

#[test]
fn within_ignores_case_and_wants_all() {
    let op = Operator::Within(vec!["GET".to_string(), "POST".to_string()]);
    assert!(hit(&op, "get"));
    assert!(!hit(&op, "ge"));
    assert!(!hit(&op, "get post"));
}

#[test]
fn streq_is_exact() {
    assert!(hit(&Operator::Streq("Post".to_string()), "Post"));
    assert!(!hit(&Operator::Streq("Post".to_string()), "post"));
}

#[test]
fn comparisons_split_the_numbers() {
    for value in ["-3", "0", "7", " 7 ", "+7"] {
        assert_ne!(hit(&Operator::Lt(7), value), hit(&Operator::Ge(7), value));
        assert_ne!(hit(&Operator::Le(7), value), hit(&Operator::Gt(7), value));
    }
    for value in ["", "x", "7.0", "9223372036854775808"] {
        assert!(!hit(&Operator::Lt(7), value));
        assert!(!hit(&Operator::Le(7), value));
        assert!(!hit(&Operator::Ge(7), value));
        assert!(!hit(&Operator::Gt(7), value));
    }
}

#[test]
fn numbers_may_have_spaces_around() {
    assert_eq!(parse_i64(" -42\t"), Some(-42));
    assert_eq!(parse_i64("9223372036854775807"), Some(i64::MAX));
    assert_eq!(parse_i64("9223372036854775808"), None);
    assert_eq!(parse_i64("-9223372036854775808"), Some(i64::MIN));
    assert_eq!(parse_i64("4 2"), None);
    assert_eq!(parse_i64(""), None);
}

#[test]
fn byte_ranges_leave_out_what_is_none() {
    assert_eq!(parse_byte_ranges("9, 10,13,32-126"), vec![(9, 9), (10, 10), (13, 13), (32, 126)]);
    assert_eq!(parse_byte_ranges("x,5-,-5,256, 1 - 2 "), vec![(1, 2)]);
    assert_eq!(parse_byte_ranges(""), vec![]);
}

#[test]
fn byte_ranges_look_at_bytes() {
    assert!(validate_byte_range("ä", "195,164"));
    assert!(!validate_byte_range("ä", "195"));
    assert!(validate_byte_range("anything", "none"));
    assert!(validate_byte_range("", "1"));
}

#[test]
fn markers_and_unknown_operators_never_match() {
    assert!(!hit(&Operator::Pass, ""));
    assert!(!hit(&Operator::Unsupported("geoip".to_string()), "x"));
    let twice = Operator::Negated(Box::new(Operator::Negated(Box::new(Operator::Pass))));
    assert!(!hit(&twice, ""));
}
