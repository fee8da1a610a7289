use fywaf::crs::engine::{
    evaluate, parse_cookie_names, parse_cookie_values, parse_urlencoded_names,
    parse_urlencoded_values, resolve_variables, url_decode_simple, RequestContext,
};
use fywaf::crs::types::{Action, ChainedRule, Operator, Phase, Rule, Transform, Variable};
use fywaf::ordered::TextMap;

fn make_rule(id: u32, vars: Vec<Variable>, op: Operator, action: Action) -> Rule {
    Rule {
        id,
        phase: Phase::Two,
        variables: vars,
        operator: op,
        transforms: vec![Transform::Lowercase],
        action,
        msg: Some("test".to_string()),
        tags: vec![],
        severity: None,
        chained: vec![],
        skip_after: None,
        anomaly_score: Some(5),
        paranoia_level: 1,
    }
}

fn marker(name: &str) -> Rule {
    let mut rule = make_rule(0, vec![], Operator::Pass, Action::Pass);
    rule.transforms = vec![];
    rule.msg = None;
    rule.skip_after = Some(name.to_string());
    rule.anomaly_score = None;
    rule.paranoia_level = 0;
    rule
}

fn empty_headers() -> TextMap<String> {
    TextMap::new()
}

fn headers(pairs: &[(&str, &str)]) -> TextMap<String> {
    let mut map = TextMap::new();
    for (k, v) in pairs {
        map.insert(k.to_string(), v.to_string());
    }
    map
}

fn judge(rules: &[Rule], method: &str, query: &str, level: u8, threshold: u32) -> Option<(u32, String)> {
    evaluate(rules, method, "/", Some(query), None, &empty_headers(), None, level, threshold)
}

#[test]
fn blocks_sqli_in_args() {
    let rules = vec![make_rule(
        942100,
        vec![Variable::Args],
        Operator::Pm(vec!["union".to_string(), "select".to_string()]),
        Action::Block,
    )];
    let hdrs = empty_headers();
    let result = evaluate(
        &rules,
        "GET",
        "/",
        Some("q=UNION+SELECT+1"),
        None,
        &hdrs,
        None,
        1,
        5,
    );
    assert!(result.is_some());
    assert_eq!(result.unwrap().0, 942100);
}

#[test]
fn allows_clean_request() {
    let rules = vec![make_rule(
        942100,
        vec![Variable::Args],
        Operator::Pm(vec!["union".to_string()]),
        Action::Block,
    )];
    let hdrs = empty_headers();
    let result = evaluate(
        &rules,
        "GET",
        "/",
        Some("q=hello+world"),
        None,
        &hdrs,
        None,
        1,
        5,
    );
    assert!(result.is_none());
}

#[test]
fn paranoia_level_filters_high_pl_rules() {
    let mut rule = make_rule(
        942999,
        vec![Variable::Args],
        Operator::Pm(vec!["select".to_string()]),
        Action::Block,
    );
    rule.paranoia_level = 3;
    let rules = vec![rule];
    let hdrs = empty_headers();
    let result = evaluate(
        &rules,
        "GET",
        "/",
        Some("q=SELECT+1"),
        None,
        &hdrs,
        None,
        1,
        5,
    );
    assert!(result.is_none());
    let result2 = evaluate(
        &rules,
        "GET",
        "/",
        Some("q=SELECT+1"),
        None,
        &hdrs,
        None,
        3,
        5,
    );
    assert!(result2.is_some());
}

#[test]
fn skip_after_skips_rules() {
    let mut rule_a = make_rule(
        941011,
        vec![Variable::Tx("detection_paranoia_level".to_string())],
        Operator::Lt(1),
        Action::Pass,
    );
    rule_a.skip_after = Some("END-MARKER".to_string());
    rule_a.anomaly_score = None;

    let rule_b = make_rule(
        941100,
        vec![Variable::Args],
        Operator::Rx("(?i)script".to_string()),
        Action::Block,
    );

    let marker = Rule {
        id: 0,
        phase: Phase::Two,
        variables: vec![],
        operator: Operator::Pass,
        transforms: vec![],
        action: Action::Pass,
        msg: None,
        tags: vec![],
        severity: None,
        chained: vec![],
        skip_after: Some("END-MARKER".to_string()),
        anomaly_score: None,
        paranoia_level: 0,
    };

    let rules = vec![rule_a, rule_b, marker];
    let hdrs = empty_headers();
    // A transaction variable is the empty text, which is no number below 1: the
    // first rule does not match, and the second one does.
    let result = evaluate(
        &rules,
        "GET",
        "/",
        Some("foo=<script>"),
        None,
        &hdrs,
        None,
        1,
        5,
    );
    assert!(result.is_some());
}

#[test]
fn chained_rule_requires_both_match() {
    let chained = ChainedRule {
        variables: vec![Variable::RequestMethod],
        operator: Operator::Streq("POST".to_string()),
        transforms: vec![],
    };
    let mut rule = make_rule(
        942200,
        vec![Variable::Args],
        Operator::Pm(vec!["union".to_string()]),
        Action::Block,
    );
    rule.chained = vec![chained];
    rule.transforms = vec![];

    let hdrs = empty_headers();
    let rules = vec![rule];

    let result = evaluate(&rules, "GET", "/", Some("x=union"), None, &hdrs, None, 1, 5);
    assert!(result.is_none());

    let result2 = evaluate(
        &rules,
        "POST",
        "/",
        Some("x=union"),
        None,
        &hdrs,
        None,
        1,
        5,
    );
    assert!(result2.is_some());
}

#[test]
fn rules_are_skipped_up_to_the_marker() {
    let mut skip = make_rule(1, vec![Variable::RequestMethod], Operator::Streq("get".to_string()), Action::Pass);
    skip.skip_after = Some("END".to_string());
    let hit = |id: u32| {
        make_rule(id, vec![Variable::Args], Operator::Contains("x".to_string()), Action::Block)
    };
    let rules = vec![skip, hit(2), marker("OTHER"), hit(3), marker("END"), hit(4)];
    assert_eq!(judge(&rules, "GET", "a=x", 1, 5).unwrap().0, 4);
    assert_eq!(judge(&rules, "POST", "a=x", 1, 5).unwrap().0, 2);
    assert_eq!(judge(&rules[..4], "GET", "a=x", 1, 0), None);
}

#[test]
fn scores_add_up_and_the_rule_that_reaches_the_threshold_is_named() {
    let mut a = make_rule(1, vec![Variable::Args], Operator::Contains("x".to_string()), Action::Block);
    a.anomaly_score = Some(2);
    a.msg = None;
    let mut b = make_rule(2, vec![Variable::Args], Operator::Contains("x".to_string()), Action::Block);
    b.anomaly_score = None;
    let rules = vec![a, b];
    assert_eq!(judge(&rules, "GET", "a=x", 1, 2), Some((1, "Rule 1 matched".to_string())));
    let second = rules[1].msg.clone().unwrap();
    assert_eq!(judge(&rules, "GET", "a=x", 1, 3), Some((2, second.clone())));
    assert_eq!(judge(&rules, "GET", "a=x", 1, 7), Some((2, second)));
    assert_eq!(judge(&rules, "GET", "a=x", 1, 8), None);
    assert_eq!(judge(&rules, "GET", "a=y", 1, 0), None);
}

#[test]
fn score_stays_at_its_limit() {
    let mut a = make_rule(1, vec![Variable::Args], Operator::Contains("x".to_string()), Action::Block);
    a.anomaly_score = Some(u32::MAX - 1);
    let mut b = make_rule(2, vec![Variable::Args], Operator::Contains("x".to_string()), Action::Block);
    b.anomaly_score = Some(u32::MAX);
    let rules = [a, b];
    assert_eq!(judge(&rules, "GET", "a=x", 1, u32::MAX - 1).unwrap().0, 1);
    assert_eq!(judge(&rules, "GET", "a=x", 1, u32::MAX).unwrap().0, 2);
}

#[test]
fn second_of_two_equal_rules_reaches_the_threshold() {
    let rule = |id: u32, msg: &str| {
        let streq = Operator::Streq("GET".to_string());
        let mut r = make_rule(id, vec![Variable::RequestMethod], streq, Action::Block);
        r.transforms = vec![];
        r.msg = Some(msg.to_string());
        r.anomaly_score = Some(3);
        r
    };
    let rules = vec![rule(1, "a"), rule(2, "b")];
    assert_eq!(judge(&rules, "GET", "", 1, 3), Some((1, "a".to_string())));
    assert_eq!(judge(&rules, "GET", "", 1, 5), Some((2, "b".to_string())));
    assert_eq!(judge(&rules, "GET", "", 1, 7), None);
}

#[test]
fn pass_rules_never_refuse() {
    let rules = vec![make_rule(1, vec![Variable::Args], Operator::Contains("x".to_string()), Action::Pass)];
    assert_eq!(judge(&rules, "GET", "a=x", 4, 0), None);
}

#[test]
fn more_rules_and_lower_thresholds_refuse_as_well() {
    let hit = |id: u32| {
        make_rule(id, vec![Variable::Args], Operator::Contains("x".to_string()), Action::Block)
    };
    let few = vec![hit(1)];
    let many = vec![hit(1), make_rule(2, vec![], Operator::Pass, Action::Pass), hit(3)];
    let refused = judge(&few, "GET", "a=x", 1, 5);
    assert!(refused.is_some());
    assert_eq!(judge(&many, "GET", "a=x", 1, 5), refused);
    assert_eq!(judge(&few, "GET", "a=x", 1, 3), refused);
}

#[test]
fn silent_rules_make_no_difference() {
    let hit = make_rule(1, vec![Variable::Args], Operator::Contains("x".to_string()), Action::Block);
    let mut high = make_rule(2, vec![Variable::Args], Operator::Contains("x".to_string()), Action::Block);
    high.paranoia_level = 2;
    let with = vec![high, hit.clone()];
    let without = vec![hit];
    assert_eq!(judge(&with, "GET", "a=x", 1, 5), judge(&without, "GET", "a=x", 1, 5));
    assert_eq!(judge(&with, "GET", "a=x", 2, 5).unwrap().0, 2);
}

#[test]
fn parameters_are_decoded() {
    assert_eq!(parse_urlencoded_values("a=1&b=%41+%20c&flag&&x="), vec!["1", "A  c", "flag", ""]);
    assert_eq!(parse_urlencoded_names("a=1&b%42=2&flag&=3"), vec!["a", "bB", ""]);
    assert_eq!(url_decode_simple("%c3%a4%"), "\u{c3}\u{a4}%");
    assert_eq!(url_decode_simple("ä"), "\u{c3}\u{a4}");
    assert_eq!(url_decode_simple("%4"), "%4");
}

#[test]
fn cookies_are_trimmed() {
    assert_eq!(parse_cookie_values("a = 1 ; b=2;; c"), vec!["1", "2", "c"]);
    assert_eq!(parse_cookie_names("a = 1 ; b=2;; c"), vec!["a", "b"]);
}

#[test]
fn variables_are_resolved_in_order() {
    let hdrs = headers(&[
        ("Cookie", "s=1"),
        ("User-Agent", "curl"),
        ("accept", "text"),
        ("x-skip", "no"),
    ]);
    let ctx = RequestContext {
        method: "POST",
        path: "/p",
        query: Some("q=1"),
        user_agent: Some("other"),
        headers: &hdrs,
        body: Some("b=2"),
    };
    let resolve = |vars: &[Variable]| resolve_variables(vars, &ctx);
    assert_eq!(resolve(&[Variable::Args, Variable::ArgsNames]), vec!["1", "2", "q", "b"]);
    assert_eq!(resolve(&[Variable::RequestCookies, Variable::RequestCookiesNames]), vec!["1", "s"]);
    assert_eq!(resolve(&[Variable::RequestUri, Variable::RequestFilename]), vec!["/p?q=1", "/p"]);
    assert_eq!(resolve(&[Variable::RequestMethod, Variable::RequestBody]), vec!["POST", "b=2"]);
    assert_eq!(resolve(&[Variable::Tx("x".to_string()), Variable::Xml]), vec![""]);
    assert_eq!(
        resolve(&[
            Variable::RequestHeaders,
            Variable::RequestHeaderExclude("X-SKIP".to_string()),
            Variable::RequestHeaderExclude("cookie".to_string()),
        ]),
        vec!["curl", "text"]
    );
    assert_eq!(resolve(&[Variable::RequestHeader("USER-AGENT".to_string())]), vec!["curl"]);
    assert_eq!(resolve(&[Variable::RequestHeader("missing".to_string())]), Vec::<String>::new());
}

#[test]
fn bare_user_agent_stands_in_for_the_header() {
    let hdrs = empty_headers();
    let ctx = RequestContext {
        method: "GET",
        path: "/p",
        query: None,
        user_agent: Some("curl"),
        headers: &hdrs,
        body: None,
    };
    assert_eq!(
        resolve_variables(&[Variable::RequestHeader("User-Agent".to_string())], &ctx),
        vec!["curl"]
    );
    assert_eq!(resolve_variables(&[Variable::RequestUri], &ctx), vec!["/p"]);
    assert_eq!(resolve_variables(&[Variable::RequestHeaders], &ctx), Vec::<String>::new());
}
