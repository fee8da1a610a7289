use fywaf::crs::parser::{parse_operator, parse_str, parse_variables, split_actions};
use fywaf::crs::types::{Action, Operator, Phase, Severity, Transform, Variable};

fn operator(s: &str) -> Operator {
    let cs: Vec<char> = s.chars().collect();
    parse_operator(&cs)
}

#[test]
fn parse_simple_rx_rule() {
    let input = r#"SecRule REQUEST_HEADERS:User-Agent "@rx (?i)sqlmap" \
    "id:913100,\
    phase:1,\
    block,\
    msg:'Scanner Detected - sqlmap',\
    tag:'OWASP_CRS',\
    tag:'paranoia-level/1',\
    severity:'CRITICAL'""#;
    let rules = parse_str(input);
    assert_eq!(rules.len(), 1);
    let r = &rules[0];
    assert_eq!(r.id, 913100);
    assert_eq!(r.phase, Phase::One);
    assert_eq!(r.action, Action::Block);
    assert_eq!(r.paranoia_level, 1);
    assert!(matches!(r.operator, Operator::Rx(_)));
    if let Operator::Rx(ref rx) = r.operator {
        assert!(rx.contains("sqlmap"));
    }
}

#[test]
fn parse_pm_rule() {
    let input = r#"SecRule REQUEST_COOKIES|REQUEST_COOKIES_NAMES|ARGS_NAMES|ARGS "@pm union select drop table" \
    "id:942100,phase:2,block,msg:'SQL Injection',tag:'paranoia-level/1'""#;
    let rules = parse_str(input);
    assert_eq!(rules.len(), 1);
    let r = &rules[0];
    assert_eq!(r.id, 942100);
    if let Operator::Pm(ref words) = r.operator {
        assert!(words.contains(&"union".to_string()));
        assert!(words.contains(&"select".to_string()));
    } else {
        panic!("expected Pm operator");
    }
}

#[test]
fn parse_variables_multi() {
    let vars = parse_variables("REQUEST_COOKIES|ARGS|REQUEST_HEADERS:User-Agent");
    assert_eq!(vars.len(), 3);
    assert!(matches!(vars[0], Variable::RequestCookies));
    assert!(matches!(vars[1], Variable::Args));
    assert!(matches!(vars[2], Variable::RequestHeader(_)));
}

#[test]
fn parse_negated_request_header_variable() {
    let vars = parse_variables("!REQUEST_HEADERS:User-Agent");
    assert_eq!(vars.len(), 1);
    assert!(
        matches!(vars[0], Variable::RequestHeaderExclude(_)),
        "expected RequestHeaderExclude, got {:?}",
        vars[0]
    );
}

#[test]
fn parse_detect_xss_operator() {
    let input = r#"SecRule ARGS "@detectXSS" "id:941100,phase:2,block,msg:'XSS',tag:'paranoia-level/1'""#;
    let rules = parse_str(input);
    assert_eq!(rules.len(), 1);
    assert!(matches!(rules[0].operator, Operator::DetectXss));
}

#[test]
fn parse_skip_after() {
    let input = r#"SecRule TX:DETECTION_PARANOIA_LEVEL "@lt 1" "id:941011,phase:1,pass,nolog,tag:'OWASP_CRS',skipAfter:END-REQUEST-941-APPLICATION-ATTACK-XSS""#;
    let rules = parse_str(input);
    assert_eq!(rules.len(), 1);
    assert_eq!(
        rules[0].skip_after.as_deref(),
        Some("END-REQUEST-941-APPLICATION-ATTACK-XSS")
    );
    assert_eq!(rules[0].action, Action::Pass);
}

#[test]
fn parse_sec_marker() {
    let input = r#"SecMarker "END-REQUEST-941-APPLICATION-ATTACK-XSS""#;
    let rules = parse_str(input);
    assert_eq!(rules.len(), 1);
    assert_eq!(
        rules[0].skip_after.as_deref(),
        Some("END-REQUEST-941-APPLICATION-ATTACK-XSS")
    );
}

#[test]
fn parse_chained_rule() {
    let mut input = String::new();
    input.push_str(r#"SecRule REQUEST_COOKIES|ARGS_NAMES|ARGS "@rx \xbc" "#);
    input.push_str("\"id:941310,phase:2,block,msg:'XSS Chain',tag:'paranoia-level/1',chain\"\n");
    input.push_str(r#"    SecRule MATCHED_VARS "@rx (?:\xbc\s*/)" "#);
    input.push_str("\"setvar:'tx.xss_score=+%{tx.critical_anomaly_score}'\"\n");
    let rules = parse_str(&input);
    assert_eq!(rules.len(), 1);
    assert_eq!(rules[0].chained.len(), 1);
}

#[test]
fn line_continuation_joined() {
    let input = "SecRule ARGS \"@rx test\" \\\n    \"id:1,phase:2,block,msg:'test'\"";
    let rules = parse_str(input);
    let _ = rules;
}

#[test]
fn anomaly_score_extracted() {
    let input = r#"SecRule ARGS "@rx union" "id:942100,phase:2,block,msg:'SQLi',tag:'paranoia-level/1',setvar:'tx.inbound_anomaly_score_pl1=+%{tx.critical_anomaly_score}'""#;
    let rules = parse_str(input);
    assert_eq!(rules[0].anomaly_score, Some(5));
}

#[test]
fn continued_line_is_one_rule() {
    let rules = parse_str("SecRule ARGS \"@rx test\" \\\n    \"id:1,phase:2,block,msg:'test'\"");
    assert_eq!(rules.len(), 1);
    assert_eq!(rules[0].id, 1);
    assert_eq!(rules[0].msg.as_deref(), Some("test"));
}

#[test]
fn variables_by_name() {
    let vars = parse_variables(
        "args | ARGS_NAMES|REQUEST_COOKIES_NAMES|REQUEST_FILENAME|REQUEST_HEADERS|REQUEST_METHOD|\
REQUEST_URI_RAW|REQUEST_BODY|TX:score|XML:/*|!ARGS|X-Thing",
    );
    assert_eq!(
        vars,
        vec![
            Variable::Args,
            Variable::ArgsNames,
            Variable::RequestCookiesNames,
            Variable::RequestFilename,
            Variable::RequestHeaders,
            Variable::RequestMethod,
            Variable::RequestUri,
            Variable::RequestBody,
            Variable::Tx("score".to_string()),
            Variable::Xml,
            Variable::Args,
            Variable::RequestHeader("X-Thing".to_string()),
        ]
    );
}

#[test]
fn header_names_keep_their_case() {
    assert_eq!(
        parse_variables("request_headers:User-Agent|!REQUEST_HEADERS:Referer"),
        vec![
            Variable::RequestHeader("User-Agent".to_string()),
            Variable::RequestHeaderExclude("Referer".to_string()),
        ]
    );
}

#[test]
fn prefixes_are_cut_off_by_bytes() {
    // The long s takes two bytes, and is an S in uppercase.
    assert_eq!(
        parse_variables("REQUEST_HEADER\u{17f}:X"),
        vec![Variable::RequestHeader(":X".to_string())]
    );
    assert_eq!(
        parse_variables("REQUE\u{17f}T_HEADER\u{17f}:X"),
        vec![Variable::RequestHeader(":X".to_string())]
    );
}

#[test]
fn operators_by_name() {
    assert!(matches!(operator("@RX a b"), Operator::Rx(s) if s == "a b"));
    assert!(matches!(operator("bare text"), Operator::Rx(s) if s == "bare text"));
    assert!(matches!(operator("@pm A bC"), Operator::Pm(w) if w == vec!["a", "bc"]));
    assert!(matches!(operator("@within A b"), Operator::Within(w) if w == vec!["A", "b"]));
    assert!(matches!(operator("@pmFromFile x.data"), Operator::PmFromFile(s) if s == "x.data"));
    assert!(matches!(operator("@contains  x "), Operator::Contains(s) if s == "x"));
    assert!(matches!(operator("@beginsWith /"), Operator::BeginsWith(s) if s == "/"));
    assert!(matches!(operator("@endsWith .x"), Operator::EndsWith(s) if s == ".x"));
    assert!(matches!(operator("@streq"), Operator::Streq(s) if s.is_empty()));
    assert!(matches!(operator("@lt -3"), Operator::Lt(-3)));
    assert!(matches!(operator("@le x"), Operator::Le(0)));
    assert!(matches!(operator("@ge 4"), Operator::Ge(4)));
    assert!(matches!(operator("@gt 5"), Operator::Gt(5)));
    assert!(matches!(operator("@validateByteRange 1-2"), Operator::ValidateByteRange(s) if s == "1-2"));
    assert!(matches!(operator("@detectSQLi"), Operator::DetectSqli));
    assert!(matches!(operator("@geoLookup x"), Operator::Unsupported(s) if s == "geolookup"));
    match operator("!@streq x") {
        Operator::Negated(inner) => assert!(matches!(*inner, Operator::Streq(s) if s == "x")),
        _ => panic!("expected a negated operator"),
    }
}

#[test]
fn all_actions_of_a_rule() {
    let input = r#"SecRule ARGS "!@within a b" "id:7, phase:response-body, deny, t:none, t:urlDecodeUni,t:md5, msg:'one, two', tag:'x', tag:'paranoia-level/3', tag:'paranoia-level/1', severity:'warning', skipAfter: HERE , setvar:'tx.a=+%{tx.notice_anomaly_score}', setvar:'tx.a=+%{tx.error_anomaly_score}', capture""#;
    let rules = parse_str(input);
    assert_eq!(rules.len(), 1);
    let r = &rules[0];
    assert_eq!(r.id, 7);
    assert_eq!(r.phase, Phase::Four);
    assert_eq!(r.phase.number(), 4);
    assert_eq!(r.action, Action::Block);
    assert_eq!(
        r.transforms,
        vec![
            Transform::Identity,
            Transform::UrlDecodeUni,
            Transform::Other("md5".to_string()),
        ]
    );
    assert_eq!(r.msg.as_deref(), Some("one, two"));
    assert_eq!(r.tags, vec!["x", "paranoia-level/3", "paranoia-level/1"]);
    assert_eq!(r.paranoia_level, 3);
    assert_eq!(r.severity, Some(Severity::Warning));
    assert_eq!(r.severity.unwrap().number(), 4);
    assert_eq!(r.skip_after.as_deref(), Some("HERE"));
    assert_eq!(r.anomaly_score, Some(2));
}

#[test]
fn idle_lines_make_no_difference() {
    let plain = "SecRule ARGS \"@rx a\" \"id:1,block,chain\"\nSecRule ARGS \"@rx b\" \"t:none\"\n";
    let with_idle = "# c\n\nSecRule ARGS \"@rx a\" \"id:1,block,chain\"\n  # more\nSecRule broken\n\nSecRule ARGS \"@rx b\" \"t:none\"\n";
    let a = parse_str(plain);
    let b = parse_str(with_idle);
    assert_eq!(a.len(), 1);
    assert_eq!(b.len(), 1);
    assert_eq!(a[0].chained.len(), 1);
    assert_eq!(b[0].chained.len(), 1);
    assert_eq!(a[0].id, b[0].id);
}

#[test]
fn other_directives_close_a_chain() {
    let input = "SecRule ARGS \"@rx a\" \"id:1,block,chain\"\nSecAction \"id:9\"\nSecRule ARGS \"@rx b\" \"id:2,block\"\n";
    let rules = parse_str(input);
    assert_eq!(rules.len(), 2);
    assert_eq!((rules[0].id, rules[0].chained.len()), (1, 0));
    assert_eq!((rules[1].id, rules[1].chained.len()), (2, 0));
}

#[test]
fn markers_close_a_chain_and_stand_behind_it() {
    let input = "SecRule ARGS \"@rx a\" \"id:1,block,chain\"\nSecMarker  HERE\n";
    let rules = parse_str(input);
    assert_eq!(rules.len(), 2);
    assert_eq!(rules[0].id, 1);
    assert_eq!((rules[1].id, rules[1].skip_after.as_deref()), (0, Some("HERE")));
}

#[test]
fn open_chain_at_the_end_is_kept() {
    let rules = parse_str("SecRule ARGS \"@rx a\" \"id:1,block,chain\"");
    assert_eq!(rules.len(), 1);
    assert!(rules[0].chained.is_empty());
}

#[test]
fn written_rules_are_read() {
    let (vars, op, actions) = ("ARGS|REQUEST_URI", " !@rx say \"x\" \\d ", "id:3,deny,t:none");
    let line = format!("SecRule {} \"{}\" \"{}\"", vars, op, actions);
    let rules = parse_str(&line);
    assert_eq!(rules.len(), 1);
    assert_eq!(rules[0].variables, vec![Variable::Args, Variable::RequestUri]);
    assert_eq!((rules[0].id, rules[0].action), (3, Action::Block));
    match &rules[0].operator {
        Operator::Negated(inner) => {
            assert!(matches!(&**inner, Operator::Rx(s) if s == "say \"x\" \\d"));
        }
        _ => panic!("expected a negated operator"),
    }
}

#[test]
fn escaped_quotes_do_not_end_the_actions() {
    let rules = parse_str(r#"SecRule ARGS "@rx a" "id:5,block,msg:'say \"hi\"'""#);
    assert_eq!(rules.len(), 1);
    assert_eq!(rules[0].id, 5);
}

#[test]
fn idle_lines_between_a_rule_and_its_chain_make_no_difference() {
    let before = "SecRule ARGS \"@rx a\" \"id:1,block,chain\"\n";
    let after = "SecRule REQUEST_URI \"@rx b\" \"t:none\"\nSecMarker END";
    let rules = parse_str(&format!("{}{}", before, after));
    assert_eq!(rules.len(), 2);
    assert_eq!(rules[0].chained.len(), 1);
    let read = |text: String| format!("{:?}", parse_str(&text));
    let plain = format!("{:?}", rules);
    for idle in ["", "   ", "# a comment", "  # another\r", "SecRule ARGS"] {
        assert_eq!(read(format!("{}{}\n{}", before, idle, after)), plain);
    }
    // Behind a continued line, a line is part of that one.
    let continued = "SecMarker A\\\n";
    assert_ne!(
        read(format!("{}# a comment\n{}", continued, after)),
        read(format!("{}{}", continued, after))
    );
}

#[test]
fn parts_of_an_action_list_join_again() {
    let parts = |s: &str| -> Vec<String> {
        split_actions(s).iter().map(|p| p.iter().collect()).collect()
    };
    let whole = "id:1, msg:'a,b',tag:\"c,d\",x\\,y,,t:none";
    assert_eq!(
        parts(whole),
        vec!["id:1", " msg:'a,b'", "tag:\"c,d\"", "x\\,y", "", "t:none"]
    );
    for s in ["", "a", whole, "'open,", "a\\,", "a\\"] {
        assert_eq!(parts(s).join(","), s);
    }
    for s in [",", "a,", "a,,", "'b',"] {
        assert_eq!(parts(s).join(",") + ",", s);
    }
}
