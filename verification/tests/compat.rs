use fywaf::compat::{analyze_text, evaluate_rule, render_report, RuleReport, RuleStatus};

fn judged(target: &str, operator: &str, actions: &str) -> (RuleStatus, Vec<String>) {
    let cs = |s: &str| s.chars().collect::<Vec<char>>();
    evaluate_rule(&cs(target), &cs(operator), &cs(actions))
}

#[test]
fn supported_rules_have_no_reasons() {
    for target in [
        "REQUEST_METHOD",
        "REQUEST_URI",
        "REQUEST_BODY",
        "REMOTE_ADDR",
        "QUERY_STRING",
        "REQUEST_HEADERS:Host",
    ] {
        assert_eq!(
            judged(target, "@rx a", "id:1,deny,t:none,t:LowerCase"),
            (RuleStatus::Supported, vec![])
        );
    }
}

#[test]
fn reasons_come_once_and_in_order() {
    let (status, reasons) = judged(
        "ARGS|REQUEST_URI",
        "@detectXSS",
        "t:sha1,t:md5,t:md5,phase:2,chain,setvar:x,capture,t:urlDecodeUni,ctl:x,skipAfter:y",
    );
    assert_eq!(status, RuleStatus::Unsupported);
    assert_eq!(
        reasons,
        vec![
            "control-flow-actions",
            "multi-target",
            "operator:@detectXSS",
            "transform:md5",
            "transform:sha1",
            "chain",
            "phase-control",
            "stateful-actions",
            "transform:url_decode_uni",
        ]
    );
}

#[test]
fn partial_support() {
    assert_eq!(
        judged("REQUEST_HEADERS", "@pmFromFile x", "deny"),
        (
            RuleStatus::Partial,
            vec!["header-collection".to_string(), "operator:pm_from_file".to_string()]
        )
    );
    assert_eq!(judged("ARGS:x", " @rx a", ""), (RuleStatus::Partial, vec!["args-target".to_string()]));
    assert_eq!(
        judged("TX:a", "", ""),
        (RuleStatus::Unsupported, vec!["operator:".to_string(), "target:TX:a".to_string()])
    );
}

#[test]
fn files_are_analyzed() {
    let raw = "SecRule REQUEST_URI \"@rx a\" \"id:1,deny\"\nSecMarker X\nSecRule ARGS \"@rx a\" \\\n \"deny\"\n";
    let reports = analyze_text("f.conf", raw);
    assert_eq!(reports.len(), 2);
    assert_eq!(reports[0].rule_id, "1");
    assert_eq!(reports[0].status, RuleStatus::Supported);
    assert_eq!(reports[1].rule_id, "(no-id)");
    assert_eq!(reports[1].file, "f.conf");
    assert_eq!(
        render_report(&reports),
        "Compatibility report\n- total_rules: 2\n- supported: 1\n- partial: 1\n- unsupported: 0\n\
- reasons:\n  - args-target: 1\n- sample_non_supported:\n  - f.conf (no-id) [partial] args-target\n"
    );
}

#[test]
fn report_without_rules() {
    assert_eq!(
        render_report(&vec![]),
        "Compatibility report\n- total_rules: 0\n- supported: 0\n- partial: 0\n- unsupported: 0\n\
- sample_non_supported:\n"
    );
}

#[test]
fn counts_add_up_and_samples_end() {
    let reports: Vec<RuleReport> = (0..30)
        .map(|i| RuleReport {
            file: "f".to_string(),
            rule_id: format!("{}", i),
            status: if i % 3 == 0 { RuleStatus::Supported } else { RuleStatus::Unsupported },
            reasons: if i % 3 == 0 { vec![] } else { vec!["a".to_string(), "b".to_string()] },
        })
        .collect();
    let text = render_report(&reports);
    assert!(text.contains("- total_rules: 30\n- supported: 10\n- partial: 0\n- unsupported: 20\n"));
    assert_eq!(text.matches("[unsupported] a,b\n").count(), 20);
    let more: Vec<RuleReport> = (0..21)
        .map(|_| RuleReport {
            file: "f".to_string(),
            rule_id: "x".to_string(),
            status: RuleStatus::Partial,
            reasons: vec!["a".to_string()],
        })
        .collect();
    assert_eq!(render_report(&more).matches("[partial] a\n").count(), 20);
}
