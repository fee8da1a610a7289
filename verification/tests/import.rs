use fywaf::import_crs::{
    import_text, load_phrase_file, map_rule, map_target, needed_phrase_files, parse_default_action,
    parse_operator, parse_secrule, render_report, required_operand, run, split_pm_values,
    ImportCrsOptions, ImportStatus, ParseResult, ParsedSecRule, PhraseFile, Source,
};
use fywaf::ordered::TextMap;
use fywaf::ruleset::{Action, ConditionOperator, ConditionTarget, ConditionTransform, RuleConfig};

fn no_files() -> TextMap<PhraseFile> {
    TextMap::new()
}

fn files(name: &str, text: &str) -> TextMap<PhraseFile> {
    let mut map = TextMap::new();
    map.insert(name.to_string(), PhraseFile::Text(text.to_string()));
    map
}

fn parsed(target: &str, operator: &str) -> ParsedSecRule {
    ParsedSecRule {
        target: target.to_string(),
        operator: operator.to_string(),
        actions_raw: "id:1,block".to_string(),
        action: Action::Block,
        status_code: Some(403),
        rule_id: "1".to_string(),
        transforms: vec![ConditionTransform::Lowercase],
    }
}

fn error_of(target: &str, operator: &str) -> String {
    map_rule(&parsed(target, operator), &no_files()).unwrap_err().message()
}

fn import(raw: &str, files: &TextMap<PhraseFile>) -> (Vec<RuleConfig>, Vec<ParseResult>) {
    let mut rules = Vec::new();
    let mut results = Vec::new();
    import_text(raw, files, &mut rules, &mut results);
    (rules, results)
}

#[test]
fn parse_operator_handles_operand() {
    let (op, value) = parse_operator("@rx (?i)union\\s+select").unwrap();
    assert_eq!(op, "@rx");
    assert_eq!(value.as_deref(), Some("(?i)union\\s+select"));
}

#[test]
fn map_pm_user_agent_into_single_rule() {
    let parsed = ParsedSecRule {
        target: "REQUEST_HEADERS:User-Agent".to_string(),
        operator: "@pm sqlmap nmap".to_string(),
        actions_raw: "id:913100,block".to_string(),
        action: Action::Block,
        status_code: Some(403),
        rule_id: "913100".to_string(),
        transforms: vec![],
    };
    let mapped = map_rule(&parsed, &no_files()).unwrap();
    assert_eq!(mapped.len(), 1);
    assert_eq!(mapped[0].user_agent_contains, vec!["sqlmap", "nmap"]);
    assert_eq!(mapped[0].action, Action::Block);
    assert_eq!(mapped[0].id, "crs-913100");
}

#[test]
fn map_pm_from_file_works() {
    let parsed = ParsedSecRule {
        target: "REQUEST_HEADERS:User-Agent".to_string(),
        operator: "@pmFromFile scanner.data".to_string(),
        actions_raw: "id:913101,block".to_string(),
        action: Action::Block,
        status_code: Some(403),
        rule_id: "913101".to_string(),
        transforms: vec![],
    };
    let mapped = map_rule(&parsed, &files("scanner.data", "# comment\nsqlmap\n\nnmap\n")).unwrap();
    assert_eq!(mapped.len(), 1);
    assert_eq!(mapped[0].user_agent_contains, vec!["sqlmap", "nmap"]);
}

#[test]
fn map_regex_condition_effective() {
    let parsed = ParsedSecRule {
        target: "QUERY_STRING".to_string(),
        operator: "@rx (?i)union\\+select".to_string(),
        actions_raw: "id:942100,block,t:none".to_string(),
        action: Action::Block,
        status_code: Some(403),
        rule_id: "942100".to_string(),
        transforms: vec![ConditionTransform::Identity],
    };
    let mapped = map_rule(&parsed, &no_files()).unwrap();
    assert_eq!(mapped.len(), 1);
    assert_eq!(mapped[0].conditions.len(), 1);
    assert_eq!(mapped[0].id, "crs-942100");
    let condition = &mapped[0].conditions[0];
    assert_eq!(condition.target, ConditionTarget::Query);
    assert_eq!(condition.operator, ConditionOperator::Regex);
    assert_eq!(condition.value.as_deref(), Some("(?i)union\\+select"));
    assert!(fywaf::crs::operators::rx_match(
        condition.value.as_deref().unwrap(),
        "q=1+UNION+SELECT+2"
    ));
}

#[test]
fn default_actions() {
    assert_eq!(parse_default_action(" Allow ").unwrap(), Action::Allow);
    assert_eq!(parse_default_action("BLOCK").unwrap(), Action::Block);
    assert_eq!(
        parse_default_action("Drop").unwrap_err().message(),
        "invalid --default-action drop, expected allow|block"
    );
}

#[test]
fn one_rule_for_each_phrase() {
    let mapped = map_rule(&parsed("REQUEST_BODY", "@pm a b"), &no_files()).unwrap();
    let ids: Vec<&str> = mapped.iter().map(|r| r.id.as_str()).collect();
    assert_eq!(ids, vec!["crs-1-1", "crs-1-2"]);
    for rule in &mapped {
        assert!(rule.enabled);
        assert_eq!(rule.status_code, Some(403));
        assert_eq!(rule.conditions[0].operator, ConditionOperator::Contains);
        assert_eq!(rule.conditions[0].transforms, vec![ConditionTransform::Lowercase]);
    }
    assert_eq!(mapped[1].conditions[0].value.as_deref(), Some("b"));
}

#[test]
fn operators_and_targets() {
    for (name, operator) in [
        ("@streq", ConditionOperator::Eq),
        ("@contains", ConditionOperator::Contains),
        ("@beginsWith", ConditionOperator::Prefix),
        ("@endsWith", ConditionOperator::Suffix),
        ("@rx", ConditionOperator::Regex),
    ] {
        let text = format!("{} value here", name);
        let mapped = map_rule(&parsed("REQUEST_URI", &text), &no_files()).unwrap();
        assert_eq!(mapped[0].conditions[0].operator, operator);
        assert_eq!(mapped[0].conditions[0].value.as_deref(), Some("value here"));
    }
    assert_eq!(map_target("REQUEST_METHOD").unwrap(), ConditionTarget::Method);
    assert_eq!(map_target("REQUEST_URI").unwrap(), ConditionTarget::Path);
    assert_eq!(map_target("REQUEST_BODY").unwrap(), ConditionTarget::Body);
    assert_eq!(map_target("REMOTE_ADDR").unwrap(), ConditionTarget::ClientIp);
    assert_eq!(map_target("REQUEST_HEADERS:User-Agent").unwrap(), ConditionTarget::UserAgent);
    assert_eq!(
        map_target("REQUEST_HEADERS:X-Api").unwrap(),
        ConditionTarget::Header { name: "x-api".to_string() }
    );
}

#[test]
fn addresses_are_matched_for_the_client_only() {
    let mapped = map_rule(&parsed("REMOTE_ADDR", "@ipMatch 10.0.0.0/8 ::1"), &no_files()).unwrap();
    let condition = &mapped[0].conditions[0];
    assert_eq!(condition.operator, ConditionOperator::IpMatch);
    assert_eq!(condition.value, None);
    assert_eq!(condition.values, vec!["10.0.0.0/8", "::1"]);
    assert!(condition.transforms.is_empty());
    assert_eq!(
        error_of("REQUEST_URI", "@ipMatch 10.0.0.1"),
        "@ipMatch only supports REMOTE_ADDR target"
    );
}

#[test]
fn reasons_to_skip() {
    assert_eq!(error_of("ARGS", "@rx a"), "unsupported target ARGS");
    assert_eq!(error_of("REQUEST_URI", "@detectXSS"), "unsupported operator @detectXSS");
    assert_eq!(error_of("REQUEST_URI", "  "), "empty operator");
    assert_eq!(error_of("REQUEST_URI", "@streq"), "@streq missing operand");
    assert_eq!(error_of("REQUEST_HEADERS:User-Agent", "@pm"), "pm missing operand");
    assert_eq!(error_of("REQUEST_HEADERS:User-Agent", "@pmFromFile"), "pmFromFile missing operand");
    assert_eq!(error_of("REQUEST_URI", "@pmFromFile x"), "unable to resolve data file x");
    let mut chained = parsed("REQUEST_URI", "@rx a");
    chained.actions_raw = "id:1,block,chain".to_string();
    assert_eq!(map_rule(&chained, &no_files()).unwrap_err().message(), "unsupported chained rule");
    let empty = map_rule(&parsed("REQUEST_URI", "@pmFromFile x"), &files("x", "# none\n"));
    assert_eq!(empty.unwrap_err().message(), "empty phrase list");
    assert_eq!(
        required_operand(&Some("  ".to_string()), "@rx").unwrap_err().message(),
        "@rx operand is empty"
    );
    let mut unreadable = TextMap::new();
    unreadable.insert("x".to_string(), PhraseFile::Unreadable("/d/x".to_string()));
    unreadable.insert("y".to_string(), PhraseFile::Missing);
    assert_eq!(
        load_phrase_file("x", &unreadable).unwrap_err().message(),
        "failed to read phrase file /d/x"
    );
    assert_eq!(
        load_phrase_file("y", &unreadable).unwrap_err().message(),
        "unable to resolve data file y"
    );
}

#[test]
fn actions_are_read_in_order() {
    let message = |actions: &str| parse_secrule("T", "@rx a", actions).unwrap_err().message();
    assert_eq!(message("id:1"), "missing action (block/deny/pass/allow)");
    assert_eq!(message("deny,pass,status:x"), "conflicting actions");
    assert_eq!(message("deny,status:"), "cannot parse integer from empty string");
    assert_eq!(message("deny,status:4x3,t:md5"), "invalid digit found in string");
    assert_eq!(message("deny,status:70000"), "number too large to fit in target type");
    assert_eq!(message("deny,status:600"), "invalid status code 600");
    assert_eq!(message("deny,t:none,t:MD5,t:sha"), "unsupported transform md5");
    let rule = parse_secrule("T", "@rx a", "id:'9',PASS,status: 200 ,t:urlDecodeUni,t:None").unwrap();
    assert_eq!(rule.rule_id, "9");
    assert_eq!(rule.action, Action::Allow);
    assert_eq!(rule.status_code, Some(200));
    assert_eq!(
        rule.transforms,
        vec![ConditionTransform::UrlDecode, ConditionTransform::Identity]
    );
    assert_eq!(parse_secrule("T", "@rx a", "deny").unwrap().rule_id, "(no-id)");
}

#[test]
fn phrase_lists_are_words() {
    assert_eq!(split_pm_values("  a\tb  c "), vec!["a", "b", "c"]);
    assert_eq!(split_pm_values(" "), Vec::<String>::new());
}

#[test]
fn a_file_is_imported() {
    let raw = "# comment\nSecRule REQUEST_URI \"@rx a\" \\\n  \"id:1,deny\"\nSecAction \"id:5\"\n\
SecRule ARGS \"@rx b\" \"id:2,deny\"\nSecRule REQUEST_URI \"@rx c\" \"id:3\"\nSecRule broken\n";
    let (rules, results) = import(raw, &no_files());
    assert_eq!(rules.len(), 1);
    assert_eq!(results.len(), 3);
    let seen: Vec<(&str, ImportStatus, &str)> =
        results.iter().map(|r| (r.rule_id.as_str(), r.status, r.reason.as_str())).collect();
    assert_eq!(
        seen,
        vec![
            ("1", ImportStatus::Imported, "ok"),
            ("2", ImportStatus::Skipped, "unsupported target ARGS"),
            (
                "(no-id)",
                ImportStatus::Skipped,
                "parse_error: missing action (block/deny/pass/allow)"
            ),
        ]
    );
}

#[test]
fn needed_files_decide() {
    let raw = "SecRule REQUEST_URI \"@pmFromFile a.data\" \"id:1,deny\"\nSecRule ARGS \"@pm x\" \"id:2,deny\"\n";
    assert_eq!(needed_phrase_files(raw), vec!["a.data"]);
    let mut more = files("a.data", "x\n");
    more.insert("b.data".to_string(), PhraseFile::Text("y".to_string()));
    let (rules, _) = import(raw, &files("a.data", "x\n"));
    let (same, _) = import(raw, &more);
    assert_eq!(rules, same);
    assert_eq!(rules.len(), 1);
}

#[test]
fn report_on_an_import() {
    let result = |id: &str, status: ImportStatus, reason: &str| ParseResult {
        rule_id: id.to_string(),
        status,
        reason: reason.to_string(),
    };
    assert_eq!(
        render_report(0, &vec![]),
        "CRS Import Report\nfiles_scanned: 0\nrules_seen: 0\nrules_imported: 0\nrules_skipped: 0\n\
skip_reasons:\n  - none\nsample_skipped:\n  - none\n"
    );
    let results = vec![
        result("1", ImportStatus::Imported, "ok"),
        result("2", ImportStatus::Skipped, "z"),
        result("3", ImportStatus::Skipped, "a"),
        result("4", ImportStatus::Skipped, "z"),
    ];
    assert_eq!(
        render_report(2, &results),
        "CRS Import Report\nfiles_scanned: 2\nrules_seen: 4\nrules_imported: 1\nrules_skipped: 3\n\
skip_reasons:\n  - a: 1\n  - z: 2\nsample_skipped:\n  - 2 z\n  - 3 a\n  - 4 z\n"
    );
    let many: Vec<ParseResult> =
        (0..25).map(|i| result(&format!("{}", i), ImportStatus::Skipped, "r")).collect();
    let text = render_report(1, &many);
    assert!(text.contains("  - 19 r\n"));
    assert!(!text.contains("  - 20 r\n"));
    assert!(text.contains("  - r: 25\n"));
}

#[test]
fn whole_import() {
    let mut options = ImportCrsOptions {
        rules_dir: "rules".to_string(),
        out: "out.yml".to_string(),
        profile_id: "crs".to_string(),
        default_action: "allow".to_string(),
        report_out: "report.txt".to_string(),
    };
    let sources = vec![
        Source {
            text: "SecRule REQUEST_URI \"@rx a\" \"id:1,deny\"".to_string(),
            phrase_files: no_files(),
        },
        Source {
            text: "SecRule REQUEST_URI \"@pmFromFile f\" \"id:2,deny\"".to_string(),
            phrase_files: files("f", "p\nq"),
        },
    ];
    let output = run(&options, &sources).unwrap();
    assert_eq!(output.profile.id, "crs");
    assert_eq!(output.profile.default_action, Action::Allow);
    let ids: Vec<&str> = output.profile.rules.iter().map(|r| r.id.as_str()).collect();
    assert_eq!(ids, vec!["crs-1", "crs-2-1", "crs-2-2"]);
    assert!(output.report.contains("files_scanned: 2\nrules_seen: 2\nrules_imported: 2\n"));
    options.default_action = "maybe".to_string();
    assert!(run(&options, &sources).is_err());
}
