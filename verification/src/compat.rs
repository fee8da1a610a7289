//! How far `SecRule` files can be used: what of each rule is supported.

use vstd::prelude::*;
use vstd::slice::slice_subrange;

use crate::crs::parser::char_lists;
use crate::import_crs::{count_line, id_of, id_or_none, push_count, tally_lines, tally_text};
use crate::ordered::{lemma_place_bounds, lemma_tally, tallied, tally, TextMap};
use crate::secrule_parser::{
    action_list, actions_of, cut_rule, rule_pieces, statements, statements_of, RulePieces,
};
use crate::text::{
    after_prefix, ascii_lower, before_space, begins, chars_of, copy_texts, find_char, find_space,
    is_text, lemma_leading_bounds, lower_ascii, not_char, push_chars, push_text, starts_with,
    string_of, strip, texts, trim, trimmed,
};

verus! {

// ---------------------------------------------------------------------------
// Findings
// ---------------------------------------------------------------------------

/// Whether a rule can be used.
#[derive(Clone, Copy, Debug, PartialEq, Eq, Structural)]
pub enum RuleStatus {
    Supported,
    Partial,
    Unsupported,
}

/// What is found of a part of a rule.
pub enum Finding {
    /// The part is supported.
    Supported,
    /// The part is supported to some extent, for this reason.
    Partial(String),
    /// The part is not supported, for this reason.
    Unsupported(String),
}

/// A [`Finding`] with texts in place of strings.
pub enum FindingView {
    Supported,
    Partial(Seq<char>),
    Unsupported(Seq<char>),
}

impl View for Finding {
    type V = FindingView;

    open spec fn view(&self) -> FindingView {
        match *self {
            Finding::Supported => FindingView::Supported,
            Finding::Partial(s) => FindingView::Partial(s@),
            Finding::Unsupported(s) => FindingView::Unsupported(s@),
        }
    }
}

/// What is found of a target.
pub open spec fn target_finding(target: Seq<char>) -> FindingView {
    if target.contains('|') || target.contains('&') {
        FindingView::Unsupported("multi-target"@)
    } else if target == "REQUEST_METHOD"@ || target == "REQUEST_URI"@ || target == "REQUEST_BODY"@
        || target == "REMOTE_ADDR"@ || target == "QUERY_STRING"@ || starts_with(
        target,
        "REQUEST_HEADERS:"@,
    ) {
        FindingView::Supported
    } else if target == "REQUEST_HEADERS"@ {
        FindingView::Partial("header-collection"@)
    } else if starts_with(target, "ARGS"@) {
        FindingView::Partial("args-target"@)
    } else {
        FindingView::Unsupported("target:"@ + target)
    }
}

/// The name of an operator: its first word.
pub open spec fn operator_name(operator: Seq<char>) -> Seq<char> {
    trim(operator).take(before_space(trim(operator)))
}

/// What is found of an operator.
pub open spec fn operator_finding(operator: Seq<char>) -> FindingView {
    let name = operator_name(operator);
    if name == "@streq"@ || name == "@contains"@ || name == "@beginsWith"@ || name == "@endsWith"@
        || name == "@rx"@ || name == "@pm"@ || name == "@ipMatch"@ {
        FindingView::Supported
    } else if name == "@pmFromFile"@ {
        FindingView::Partial("operator:pm_from_file"@)
    } else {
        FindingView::Unsupported("operator:"@ + name)
    }
}

/// What is found of a transformation, by its name in ASCII lowercase.
pub open spec fn transform_finding(name: Seq<char>) -> FindingView {
    if name == "none"@ || name == "lowercase"@ || name == "urldecode"@ || name
        == "compresswhitespace"@ || name == "removenulls"@ {
        FindingView::Supported
    } else if name == "urldecodeuni"@ {
        FindingView::Partial("transform:url_decode_uni"@)
    } else {
        FindingView::Unsupported("transform:"@ + name)
    }
}

/// What is found of one action.
pub open spec fn action_finding(action: Seq<char>) -> FindingView {
    let a = trim(action);
    match after_prefix(a, "t:"@) {
        Some(name) => transform_finding(ascii_lower(name)),
        None => if starts_with(a, "setvar:"@) || a == "capture"@ {
            FindingView::Partial("stateful-actions"@)
        } else if a == "chain"@ {
            FindingView::Partial("chain"@)
        } else if starts_with(a, "phase:"@) {
            FindingView::Partial("phase-control"@)
        } else if starts_with(a, "ctl:"@) || starts_with(a, "skipAfter:"@) {
            FindingView::Unsupported("control-flow-actions"@)
        } else {
            FindingView::Supported
        },
    }
}

/// The reasons why something is not supported, and why something is supported
/// to some extent.
pub struct Reasons {
    pub unsupported: Seq<Seq<char>>,
    pub partial: Seq<Seq<char>>,
}

/// The reasons with one more finding.
pub open spec fn with_finding(r: Reasons, f: FindingView) -> Reasons {
    match f {
        FindingView::Supported => r,
        FindingView::Partial(s) => Reasons { partial: r.partial.push(s), ..r },
        FindingView::Unsupported(s) => Reasons { unsupported: r.unsupported.push(s), ..r },
    }
}

/// The reasons with what is found of some actions.
pub open spec fn with_actions(r: Reasons, actions: Seq<Seq<char>>) -> Reasons
    decreases actions.len(),
{
    if actions.len() == 0 {
        r
    } else {
        with_finding(with_actions(r, actions.drop_last()), action_finding(actions.last()))
    }
}

/// The reasons found in a rule: of the target, the operator and the actions.
pub open spec fn reasons_in(p: RulePieces) -> Reasons {
    with_actions(
        with_finding(
            with_finding(
                Reasons { unsupported: seq![], partial: seq![] },
                target_finding(p.target),
            ),
            operator_finding(p.operator),
        ),
        action_list(p.actions),
    )
}

/// The words, each once and in order.
pub open spec fn distinct(words: Seq<Seq<char>>) -> Seq<Seq<char>> {
    tallied(words).map_values(|e: (Seq<char>, usize)| e.0)
}

/// Whether a rule with such reasons can be used.
pub open spec fn status_of(r: Reasons) -> RuleStatus {
    if r.unsupported.len() > 0 {
        RuleStatus::Unsupported
    } else if r.partial.len() > 0 {
        RuleStatus::Partial
    } else {
        RuleStatus::Supported
    }
}

/// The reasons as they are reported: those why something is not supported
/// first, each once and in order.
pub open spec fn reported(r: Reasons) -> Seq<Seq<char>> {
    distinct(r.unsupported) + distinct(r.partial)
}

fn has_char(s: &[char], c: char) -> (r: bool)
    ensures
        r == s@.contains(c),
{
    let n = find_char(s, c);
    proof {
        lemma_leading_bounds(s@, not_char(c));
    }
    if n < s.len() {
        assert(s@[n as int] == c);
        true
    } else {
        assert forall|i: int| 0 <= i < s@.len() implies s@[i] != c by {
            assert(not_char(c)(s@[i]));
        }
        false
    }
}

fn labelled(label: &str, s: &[char]) -> (out: String)
    ensures
        out@ == label@ + s@,
{
    let mut out = chars_of(label);
    push_chars(&mut out, s);
    string_of(out.as_slice())
}

/// What is found of a target.
pub fn evaluate_target(target: &[char]) -> (f: Finding)
    ensures
        f@ == target_finding(target@),
{
    if has_char(target, '|') || has_char(target, '&') {
        Finding::Unsupported("multi-target".to_owned())
    } else if is_text(target, "REQUEST_METHOD") || is_text(target, "REQUEST_URI") || is_text(
        target,
        "REQUEST_BODY",
    ) || is_text(target, "REMOTE_ADDR") || is_text(target, "QUERY_STRING") || begins(
        target,
        "REQUEST_HEADERS:",
    ) {
        Finding::Supported
    } else if is_text(target, "REQUEST_HEADERS") {
        Finding::Partial("header-collection".to_owned())
    } else if begins(target, "ARGS") {
        Finding::Partial("args-target".to_owned())
    } else {
        Finding::Unsupported(labelled("target:", target))
    }
}

/// What is found of an operator.
pub fn evaluate_operator(operator: &[char]) -> (f: Finding)
    ensures
        f@ == operator_finding(operator@),
{
    let t = trimmed(operator);
    let n = find_space(t);
    let name = slice_subrange(t, 0, n);
    assert(name@ =~= operator_name(operator@));
    if is_text(name, "@streq") || is_text(name, "@contains") || is_text(name, "@beginsWith")
        || is_text(name, "@endsWith") || is_text(name, "@rx") || is_text(name, "@pm") || is_text(
        name,
        "@ipMatch",
    ) {
        Finding::Supported
    } else if is_text(name, "@pmFromFile") {
        Finding::Partial("operator:pm_from_file".to_owned())
    } else {
        Finding::Unsupported(labelled("operator:", name))
    }
}

fn evaluate_transform(name: &[char]) -> (f: Finding)
    ensures
        f@ == transform_finding(name@),
{
    if is_text(name, "none") || is_text(name, "lowercase") || is_text(name, "urldecode") || is_text(
        name,
        "compresswhitespace",
    ) || is_text(name, "removenulls") {
        Finding::Supported
    } else if is_text(name, "urldecodeuni") {
        Finding::Partial("transform:url_decode_uni".to_owned())
    } else {
        Finding::Unsupported(labelled("transform:", name))
    }
}

fn evaluate_action(action: &[char]) -> (f: Finding)
    ensures
        f@ == action_finding(action@),
{
    let a = trimmed(action);
    match strip(a, "t:") {
        Some(name) => {
            let lowered = lower_ascii(name);
            evaluate_transform(lowered.as_slice())
        },
        None => if begins(a, "setvar:") || is_text(a, "capture") {
            Finding::Partial("stateful-actions".to_owned())
        } else if is_text(a, "chain") {
            Finding::Partial("chain".to_owned())
        } else if begins(a, "phase:") {
            Finding::Partial("phase-control".to_owned())
        } else if begins(a, "ctl:") || begins(a, "skipAfter:") {
            Finding::Unsupported("control-flow-actions".to_owned())
        } else {
            Finding::Supported
        },
    }
}

fn add_finding(unsupported: &mut Vec<String>, partial: &mut Vec<String>, f: Finding)
    ensures
        with_finding(
            (Reasons { unsupported: texts(old(unsupported)@), partial: texts(old(partial)@) }),
            f@,
        ) == (Reasons { unsupported: texts(final(unsupported)@), partial: texts(final(partial)@) }),
{
    let ghost u = texts(unsupported@);
    let ghost p = texts(partial@);
    match f {
        Finding::Supported => {},
        Finding::Partial(s) => {
            partial.push(s);
            assert(texts(partial@) =~= p.push(s@));
        },
        Finding::Unsupported(s) => {
            unsupported.push(s);
            assert(texts(unsupported@) =~= u.push(s@));
        },
    }
}

/// Adds what is found of the actions.
fn evaluate_actions(actions: &[char], unsupported: &mut Vec<String>, partial: &mut Vec<String>)
    ensures
        with_actions(
            (Reasons { unsupported: texts(old(unsupported)@), partial: texts(old(partial)@) }),
            action_list(actions@),
        ) == (Reasons { unsupported: texts(final(unsupported)@), partial: texts(final(partial)@) }),
{
    let list = actions_of(actions);
    let ghost all = char_lists(list@);
    let ghost start = Reasons { unsupported: texts(unsupported@), partial: texts(partial@) };
    for i in 0..list.len()
        invariant
            all == char_lists(list@),
            with_actions(start, all.take(i as int)) == (Reasons {
                unsupported: texts(unsupported@),
                partial: texts(partial@),
            }),
    {
        assert(all.take(i + 1).drop_last() =~= all.take(i as int));
        assert(all.take(i + 1).last() == list@[i as int]@);
        let f = evaluate_action(list[i].as_slice());
        add_finding(unsupported, partial, f);
    }
    assert(all.take(all.len() as int) =~= all);
}

fn push_keys(out: &mut Vec<String>, t: &TextMap<usize>)
    ensures
        texts(final(out)@) == texts(old(out)@) + t@.map_values(|e: (Seq<char>, usize)| e.0),
{
    let ghost before = texts(out@);
    let ghost keys = t@.map_values(|e: (Seq<char>, usize)| e.0);
    let n = t.len();
    assert(before + keys.take(0) =~= before);
    for i in 0..n
        invariant
            n == t@.len(),
            keys == t@.map_values(|e: (Seq<char>, usize)| e.0),
            texts(out@) == before + keys.take(i as int),
    {
        let ghost so_far = texts(out@);
        let key = t.key(i);
        out.push(key.to_owned());
        assert(texts(out@) =~= so_far.push(key@));
        assert(keys.take(i + 1) =~= keys.take(i as int).push(key@));
        assert(so_far.push(key@) =~= before + keys.take(i + 1));
    }
    assert(keys.take(n as int) =~= keys);
}

/// Whether a rule can be used, and the reasons.
pub fn evaluate_rule(target: &[char], operator: &[char], actions: &[char]) -> (r: (
    RuleStatus,
    Vec<String>,
))
    ensures
        ({
            let found = reasons_in(
                RulePieces { target: target@, operator: operator@, actions: actions@ },
            );
            r.0 == status_of(found) && texts(r.1@) == reported(found)
        }),
{
    let mut unsupported: Vec<String> = Vec::new();
    let mut partial: Vec<String> = Vec::new();
    assert(texts(unsupported@) =~= seq![]);
    assert(texts(partial@) =~= seq![]);
    add_finding(&mut unsupported, &mut partial, evaluate_target(target));
    add_finding(&mut unsupported, &mut partial, evaluate_operator(operator));
    evaluate_actions(actions, &mut unsupported, &mut partial);
    assert(texts(unsupported@).len() == unsupported@.len());
    assert(texts(partial@).len() == partial@.len());
    let status = if unsupported.len() > 0 {
        RuleStatus::Unsupported
    } else if partial.len() > 0 {
        RuleStatus::Partial
    } else {
        RuleStatus::Supported
    };
    let mut reasons: Vec<String> = Vec::new();
    push_keys(&mut reasons, &tally(&unsupported));
    push_keys(&mut reasons, &tally(&partial));
    assert(texts(reasons@) =~= distinct(texts(unsupported@)) + distinct(texts(partial@)));
    (status, reasons)
}

// ---------------------------------------------------------------------------
// Files
// ---------------------------------------------------------------------------

/// What is said of one rule.
#[derive(Debug)]
pub struct RuleReport {
    pub file: String,
    pub rule_id: String,
    pub status: RuleStatus,
    pub reasons: Vec<String>,
}

/// A [`RuleReport`] with texts in place of strings.
pub struct RuleReportView {
    pub file: Seq<char>,
    pub rule_id: Seq<char>,
    pub status: RuleStatus,
    pub reasons: Seq<Seq<char>>,
}

impl View for RuleReport {
    type V = RuleReportView;

    open spec fn view(&self) -> RuleReportView {
        RuleReportView {
            file: self.file@,
            rule_id: self.rule_id@,
            status: self.status,
            reasons: texts(self.reasons@),
        }
    }
}

/// The models of a list of reports.
pub open spec fn reports_view(v: Seq<RuleReport>) -> Seq<RuleReportView> {
    v.map_values(|r: RuleReport| r@)
}

/// What is said of a rule in a file.
pub open spec fn rule_report(file: Seq<char>, p: RulePieces) -> RuleReportView {
    RuleReportView {
        file,
        rule_id: id_or_none(p.actions),
        status: status_of(reasons_in(p)),
        reasons: reported(reasons_in(p)),
    }
}

/// What is said of the rules among the statements of a file.
pub open spec fn file_reports(file: Seq<char>, stmts: Seq<Seq<char>>) -> Seq<RuleReportView>
    decreases stmts.len(),
{
    if stmts.len() == 0 {
        seq![]
    } else {
        let head = file_reports(file, stmts.drop_last());
        match rule_pieces(stmts.last()) {
            Some(p) => head.push(rule_report(file, p)),
            None => head,
        }
    }
}

/// What is said of the rules in the text of a file.
pub fn analyze_text(file: &str, raw: &str) -> (out: Vec<RuleReport>)
    ensures
        reports_view(out@) == file_reports(file@, statements(raw@)),
{
    let cs = chars_of(raw);
    let stmts = statements_of(cs.as_slice());
    let ghost all = char_lists(stmts@);
    let mut out: Vec<RuleReport> = Vec::new();
    assert(reports_view(out@) =~= file_reports(file@, all.take(0)));
    for i in 0..stmts.len()
        invariant
            all == char_lists(stmts@),
            reports_view(out@) == file_reports(file@, all.take(i as int)),
    {
        assert(all.take(i + 1).drop_last() =~= all.take(i as int));
        assert(all.take(i + 1).last() == stmts@[i as int]@);
        if let Some((target, operator, actions)) = cut_rule(stmts[i].as_slice()) {
            let (status, reasons) = evaluate_rule(target, operator, actions);
            let text = string_of(actions);
            let report = RuleReport {
                file: file.to_owned(),
                rule_id: id_of(text.as_str()),
                status,
                reasons,
            };
            let ghost before = reports_view(out@);
            out.push(report);
            assert(reports_view(out@) =~= before.push(report@));
        }
    }
    assert(all.take(all.len() as int) =~= all);
    out
}

// ---------------------------------------------------------------------------
// Reports
// ---------------------------------------------------------------------------

/// How many of the rules have a status.
pub open spec fn count_status(reports: Seq<RuleReportView>, status: RuleStatus) -> nat
    decreases reports.len(),
{
    if reports.len() == 0 {
        0
    } else {
        count_status(reports.drop_last(), status) + (if reports.last().status == status {
            1nat
        } else {
            0
        })
    }
}

/// The reasons of all the rules.
pub open spec fn all_reasons(reports: Seq<RuleReportView>) -> Seq<Seq<char>>
    decreases reports.len(),
{
    if reports.len() == 0 {
        seq![]
    } else {
        all_reasons(reports.drop_last()) + reports.last().reasons
    }
}

/// The rules that are not fully supported.
pub open spec fn not_supported(reports: Seq<RuleReportView>) -> Seq<RuleReportView>
    decreases reports.len(),
{
    if reports.len() == 0 {
        seq![]
    } else if reports.last().status == RuleStatus::Supported {
        not_supported(reports.drop_last())
    } else {
        not_supported(reports.drop_last()).push(reports.last())
    }
}

/// The word for a status.
pub open spec fn status_word(status: RuleStatus) -> Seq<char> {
    match status {
        RuleStatus::Supported => "supported"@,
        RuleStatus::Partial => "partial"@,
        RuleStatus::Unsupported => "unsupported"@,
    }
}

/// The words with commas between them.
pub open spec fn comma_separated(words: Seq<Seq<char>>) -> Seq<char>
    decreases words.len(),
{
    if words.len() == 0 {
        seq![]
    } else if words.len() == 1 {
        words[0]
    } else {
        comma_separated(words.drop_last()) + ","@ + words.last()
    }
}

/// The line of the report for a rule.
pub open spec fn report_line(r: RuleReportView) -> Seq<char> {
    "  - "@ + r.file + " "@ + r.rule_id + " ["@ + status_word(r.status) + "] "@ + comma_separated(
        r.reasons,
    ) + "\n"@
}

/// The lines of the report for some rules.
pub open spec fn report_lines(reports: Seq<RuleReportView>) -> Seq<char>
    decreases reports.len(),
{
    if reports.len() == 0 {
        seq![]
    } else {
        report_lines(reports.drop_last()) + report_line(reports.last())
    }
}

/// The first twenty of a list.
pub open spec fn first_reports(reports: Seq<RuleReportView>) -> Seq<RuleReportView> {
    if reports.len() > 20 {
        reports.take(20)
    } else {
        reports
    }
}

/// The lines of the report with the reasons, in order with their counts.
pub open spec fn reason_lines(reasons: Seq<Seq<char>>) -> Seq<char> {
    if reasons.len() == 0 {
        seq![]
    } else {
        "- reasons:\n"@ + tally_lines(tallied(reasons))
    }
}

/// The report on some rules: how many can be used, the reasons, and the first
/// rules that are not fully supported.
pub open spec fn compatibility(reports: Seq<RuleReportView>) -> Seq<char> {
    "Compatibility report\n"@ + count_line("- total_rules: "@, reports.len() as int) + count_line(
        "- supported: "@,
        count_status(reports, RuleStatus::Supported) as int,
    ) + count_line("- partial: "@, count_status(reports, RuleStatus::Partial) as int) + count_line(
        "- unsupported: "@,
        count_status(reports, RuleStatus::Unsupported) as int,
    ) + reason_lines(all_reasons(reports)) + "- sample_non_supported:\n"@ + report_lines(
        first_reports(not_supported(reports)),
    )
}

proof fn lemma_count_bound(reports: Seq<RuleReportView>, status: RuleStatus)
    ensures
        count_status(reports, status) <= reports.len(),
    decreases reports.len(),
{
    if reports.len() > 0 {
        lemma_count_bound(reports.drop_last(), status);
    }
}

/// Every rule has exactly one status: the counts add up to the number of rules.
pub proof fn lemma_counts_add_up(reports: Seq<RuleReportView>)
    ensures
        count_status(reports, RuleStatus::Supported) + count_status(reports, RuleStatus::Partial)
            + count_status(reports, RuleStatus::Unsupported) == reports.len(),
    decreases reports.len(),
{
    if reports.len() > 0 {
        lemma_counts_add_up(reports.drop_last());
    }
}

fn count_with(reports: &Vec<RuleReport>, status: RuleStatus) -> (n: usize)
    ensures
        n == count_status(reports_view(reports@), status),
{
    let ghost all = reports_view(reports@);
    let mut n: usize = 0;
    for i in 0..reports.len()
        invariant
            all == reports_view(reports@),
            n == count_status(all.take(i as int), status),
    {
        assert(all.take(i + 1).drop_last() =~= all.take(i as int));
        assert(all.take(i + 1).last() == reports@[i as int]@);
        proof {
            lemma_count_bound(all.take(i as int), status);
        }
        if reports[i].status == status {
            n = n + 1;
        }
    }
    assert(all.take(all.len() as int) =~= all);
    n
}

fn gather_reasons(reports: &Vec<RuleReport>) -> (out: Vec<String>)
    ensures
        texts(out@) == all_reasons(reports_view(reports@)),
{
    let ghost all = reports_view(reports@);
    let mut out: Vec<String> = Vec::new();
    assert(texts(out@) =~= all_reasons(all.take(0)));
    for i in 0..reports.len()
        invariant
            all == reports_view(reports@),
            texts(out@) == all_reasons(all.take(i as int)),
    {
        assert(all.take(i + 1).drop_last() =~= all.take(i as int));
        assert(all.take(i + 1).last() == reports@[i as int]@);
        let mut reasons = copy_texts(&reports[i].reasons);
        let ghost before = out@;
        let ghost more = reasons@;
        out.append(&mut reasons);
        assert(texts(out@) =~= texts(before) + texts(more));
    }
    assert(all.take(all.len() as int) =~= all);
    out
}

fn word_of(status: RuleStatus) -> (s: &'static str)
    ensures
        s@ == status_word(status),
{
    match status {
        RuleStatus::Supported => "supported",
        RuleStatus::Partial => "partial",
        RuleStatus::Unsupported => "unsupported",
    }
}

fn join_with_commas(words: &Vec<String>) -> (out: Vec<char>)
    ensures
        out@ == comma_separated(texts(words@)),
{
    let ghost all = texts(words@);
    let mut out: Vec<char> = Vec::new();
    assert(out@ =~= comma_separated(all.take(0)));
    for i in 0..words.len()
        invariant
            all == texts(words@),
            out@ == comma_separated(all.take(i as int)),
    {
        let ghost before = out@;
        assert(all.take(i + 1).drop_last() =~= all.take(i as int));
        assert(all.take(i + 1).last() == words@[i as int]@);
        if i > 0 {
            push_text(&mut out, ",");
        }
        push_text(&mut out, words[i].as_str());
        if i > 0 {
            assert(out@ =~= before + ","@ + all[i as int]);
        } else {
            assert(before =~= seq![]);
            assert(out@ =~= all.take(1)[0]);
        }
    }
    assert(all.take(all.len() as int) =~= all);
    out
}

fn push_report_line(out: &mut Vec<char>, report: &RuleReport)
    ensures
        final(out)@ == old(out)@ + report_line(report@),
{
    let ghost before = out@;
    push_text(out, "  - ");
    push_text(out, report.file.as_str());
    push_text(out, " ");
    push_text(out, report.rule_id.as_str());
    push_text(out, " [");
    push_text(out, word_of(report.status));
    push_text(out, "] ");
    push_chars(out, join_with_commas(&report.reasons).as_slice());
    push_text(out, "\n");
    assert(out@ =~= before + report_line(report@));
}

fn push_samples(out: &mut Vec<char>, reports: &Vec<RuleReport>)
    ensures
        final(out)@ == old(out)@ + report_lines(
            first_reports(not_supported(reports_view(reports@))),
        ),
{
    let ghost all = reports_view(reports@);
    let ghost start = out@;
    let mut shown: usize = 0;
    assert(start + report_lines(first_reports(not_supported(all.take(0)))) =~= start);
    for i in 0..reports.len()
        invariant
            all == reports_view(reports@),
            shown == first_reports(not_supported(all.take(i as int))).len(),
            out@ == start + report_lines(first_reports(not_supported(all.take(i as int)))),
    {
        let report = &reports[i];
        assert(all.take(i + 1).drop_last() =~= all.take(i as int));
        assert(all.take(i + 1).last() == report@);
        let ghost before = not_supported(all.take(i as int));
        let ghost after = not_supported(all.take(i + 1));
        if report.status != RuleStatus::Supported {
            assert(after == before.push(report@));
            if shown < 20 {
                push_report_line(out, report);
                shown = shown + 1;
                assert(after.drop_last() =~= before);
                assert(out@ =~= start + (report_lines(before) + report_line(report@)));
            } else {
                assert(first_reports(after) =~= first_reports(before));
            }
        }
    }
    assert(all.take(all.len() as int) =~= all);
}

/// The report on some rules.
pub fn render_report(reports: &Vec<RuleReport>) -> (out: String)
    ensures
        out@ == compatibility(reports_view(reports@)),
{
    let mut out = chars_of("Compatibility report\n");
    push_count(&mut out, "- total_rules: ", reports.len());
    push_count(&mut out, "- supported: ", count_with(reports, RuleStatus::Supported));
    push_count(&mut out, "- partial: ", count_with(reports, RuleStatus::Partial));
    push_count(&mut out, "- unsupported: ", count_with(reports, RuleStatus::Unsupported));
    let ghost so_far = out@;
    let reasons = gather_reasons(reports);
    assert(texts(reasons@).len() == reasons@.len());
    if reasons.len() > 0 {
        push_text(&mut out, "- reasons:\n");
        let counts = tally_text(&tally(&reasons));
        push_chars(&mut out, counts.as_slice());
    }
    assert(out@ =~= so_far + reason_lines(texts(reasons@)));
    push_text(&mut out, "- sample_non_supported:\n");
    push_samples(&mut out, reports);
    string_of(out.as_slice())
}

// ---------------------------------------------------------------------------
// Laws
// ---------------------------------------------------------------------------

/// A rule is supported exactly where nothing is reported of it.
pub proof fn lemma_supported_without_reasons(p: RulePieces)
    ensures
        status_of(reasons_in(p)) == RuleStatus::Supported <==> reported(reasons_in(p)).len() == 0,
{
    let r = reasons_in(p);
    lemma_distinct_some(r.unsupported);
    lemma_distinct_some(r.partial);
}

proof fn lemma_distinct_some(words: Seq<Seq<char>>)
    ensures
        words.len() > 0 <==> distinct(words).len() > 0,
{
    if words.len() > 0 {
        lemma_tally(words, words.last());
        lemma_place_bounds(tallied(words), words.last());
    }
}

} // verus!
