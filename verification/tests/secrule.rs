use fywaf::secrule_parser::{
    extract_quoted, join_continued_lines, parse_action_id, parse_quoted_pair, split_actions,
    split_first_token,
};

fn pair(a: &str, b: &str) -> Option<(String, String)> {
    Some((a.to_string(), b.to_string()))
}

#[test]
fn split_actions_keeps_quoted_commas() {
    let parts = split_actions("id:1,msg:'a,b',t:none,block");
    assert_eq!(parts, vec!["id:1", "msg:'a,b'", "t:none", "block"]);
}

#[test]
fn continued_lines_become_one() {
    assert_eq!(
        join_continued_lines("a \\\n  b\\\nc  \nd\n\ne \\"),
        vec!["a    b c", "d", "", "e "]
    );
    assert_eq!(join_continued_lines(""), Vec::<String>::new());
    assert_eq!(join_continued_lines("\\\nx"), vec!["x"]);
}

#[test]
fn first_token_is_cut_off() {
    assert_eq!(split_first_token("ARGS   \"@rx a\" b"), pair("ARGS", "\"@rx a\" b"));
    assert_eq!(split_first_token("ARGS"), None);
    assert_eq!(split_first_token(" x"), pair("", "x"));
}

#[test]
fn quoted_texts() {
    assert_eq!(extract_quoted("\"abc\" rest"), pair("abc", " rest"));
    assert_eq!(extract_quoted("\"a\\\"b\"c"), pair("a\\\"b", "c"));
    assert_eq!(extract_quoted("abc"), None);
    assert_eq!(extract_quoted("\"abc"), None);
    assert_eq!(extract_quoted("\"abc\\"), None);
    assert_eq!(extract_quoted(""), None);
}

#[test]
fn quoted_pairs() {
    assert_eq!(parse_quoted_pair("  \"a\"  \"b\" c"), pair("a", "b"));
    assert_eq!(parse_quoted_pair("\"a\" b"), None);
    assert_eq!(parse_quoted_pair("a \"b\""), None);
}

#[test]
fn blank_actions_in_the_middle_are_kept() {
    assert_eq!(split_actions(" a ,, b , "), vec!["a", "", "b"]);
    assert_eq!(split_actions("  "), Vec::<String>::new());
}

#[test]
fn ids_lose_their_quotes() {
    assert_eq!(parse_action_id("phase:1,id:'42',id:7").as_deref(), Some("42"));
    assert_eq!(parse_action_id("msg:'id:1'"), None);
}
