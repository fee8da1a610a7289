//! What is reported of rules, by what stands in them.

use vstd::prelude::*;

use crate::compat::{
    action_finding, all_reasons, comma_separated, compatibility, count_status, distinct,
    file_reports, not_supported, operator_finding, reasons_in, report_lines, status_of,
    target_finding, with_actions, with_finding, FindingView, Reasons, RuleReportView, RuleStatus,
};
use crate::import_crs::tally_lines;
use crate::number::decimal;
use crate::ordered::{
    lemma_lookup_entry, lemma_lookup_none, lemma_tally, lookup, occurrences, precedes, tallied,
};
use crate::secrule_parser::{action_id, action_list, rule_pieces, RulePieces};
use crate::text::{ascii_lower, is_space, lemma_leading_is, starts_with, trim};
use crate::text_laws::{blank, lemma_after_prefix, lemma_trim};

verus! {

/// The targets that are supported, those that are to some extent, and those that are
/// not: several at once, or any other.
#[verifier::rlimit(40)]
pub proof fn lemma_target_findings(target: Seq<char>, rest: Seq<char>)
    ensures
        target.contains('|') || target.contains('&') ==> target_finding(target)
            == FindingView::Unsupported("multi-target"@),
        !target.contains('|') && !target.contains('&') ==> {
            &&& target == "REQUEST_METHOD"@ ==> target_finding(target) == FindingView::Supported
            &&& target == "REQUEST_URI"@ ==> target_finding(target) == FindingView::Supported
            &&& target == "REQUEST_BODY"@ ==> target_finding(target) == FindingView::Supported
            &&& target == "REMOTE_ADDR"@ ==> target_finding(target) == FindingView::Supported
            &&& target == "QUERY_STRING"@ ==> target_finding(target) == FindingView::Supported
            &&& target == "REQUEST_HEADERS:"@ + rest ==> target_finding(target)
                == FindingView::Supported
            &&& target == "REQUEST_HEADERS"@ ==> target_finding(target) == FindingView::Partial(
                "header-collection"@,
            )
            &&& target == "ARGS"@ + rest ==> target_finding(target) == FindingView::Partial(
                "args-target"@,
            )
            &&& target_finding(target) matches FindingView::Unsupported(reason) ==> reason
                == "target:"@ + target
            &&& target_finding(target) is Unsupported <==> (target != "REQUEST_METHOD"@
                && target != "REQUEST_URI"@ && target != "REQUEST_BODY"@
                && target != "REMOTE_ADDR"@ && target != "QUERY_STRING"@
                && target != "REQUEST_HEADERS"@ && !starts_with(
                target,
                "REQUEST_HEADERS:"@,
            ) && !starts_with(target, "ARGS"@))
        },
{
    reveal_strlit("REQUEST_METHOD");
    reveal_strlit("REQUEST_URI");
    reveal_strlit("REQUEST_BODY");
    reveal_strlit("REMOTE_ADDR");
    reveal_strlit("QUERY_STRING");
    reveal_strlit("REQUEST_HEADERS");
    reveal_strlit("REQUEST_HEADERS:");
    reveal_strlit("ARGS");
    assert("REQUEST_METHOD"@.len() == 14);
    assert("REQUEST_URI"@.len() == 11);
    assert("REQUEST_BODY"@.len() == 12);
    assert("REMOTE_ADDR"@.len() == 11);
    assert("QUERY_STRING"@.len() == 12);
    assert("REQUEST_HEADERS"@.len() == 15);
    assert("REQUEST_HEADERS:"@.len() == 16);
    assert("ARGS"@.len() == 4);
    assert("REQUEST_METHOD"@[0] == 'R');
    assert("REQUEST_URI"@[0] == 'R');
    assert("REQUEST_BODY"@[0] == 'R');
    assert("REMOTE_ADDR"@[0] == 'R');
    assert("QUERY_STRING"@[0] == 'Q');
    assert("REQUEST_HEADERS"@[0] == 'R');
    assert("REQUEST_HEADERS:"@[0] == 'R');
    assert("ARGS"@[0] == 'A');
    assert("REQUEST_METHOD"@[8] == 'M');
    lemma_after_prefix(target, "REQUEST_HEADERS:"@, rest);
    lemma_after_prefix(target, "ARGS"@, rest);
    assert(starts_with(target, "REQUEST_HEADERS:"@) ==> target.take(16)[0] == 'R');
    assert(starts_with(target, "ARGS"@) ==> target.take(4)[0] == 'A');
}

/// The operators by their names: the first word, whatever follows it.
#[verifier::rlimit(40)]
pub proof fn lemma_operator_findings(
    before: Seq<char>,
    name: Seq<char>,
    rest: Seq<char>,
    after: Seq<char>,
)
    requires
        blank(before),
        blank(after),
        name.len() > 0,
        forall|i: int| 0 <= i < name.len() ==> !is_space(#[trigger] name[i]),
        rest.len() > 0 ==> is_space(rest[0]) && !is_space(rest.last()),
    ensures
        ({
            let found = operator_finding(before + (name + rest) + after);
            &&& name == "@streq"@ ==> found == FindingView::Supported
            &&& name == "@contains"@ ==> found == FindingView::Supported
            &&& name == "@beginsWith"@ ==> found == FindingView::Supported
            &&& name == "@endsWith"@ ==> found == FindingView::Supported
            &&& name == "@rx"@ ==> found == FindingView::Supported
            &&& name == "@pm"@ ==> found == FindingView::Supported
            &&& name == "@ipMatch"@ ==> found == FindingView::Supported
            &&& name == "@pmFromFile"@ ==> found == FindingView::Partial(
                "operator:pm_from_file"@,
            )
            &&& name != "@streq"@ && name != "@contains"@ && name != "@beginsWith"@
                && name != "@endsWith"@ && name != "@rx"@ && name != "@pm"@ && name != "@ipMatch"@
                && name != "@pmFromFile"@ ==> found == FindingView::Unsupported("operator:"@ + name)
        }),
{
    let t = name + rest;
    let n = name.len() as int;
    let other = |x: char| !is_space(x);
    assert(t[0] == name[0]);
    assert(!is_space(name[0]));
    assert(!is_space(name[n - 1]));
    assert(rest.len() == 0 ==> t.last() == name[n - 1]);
    assert(rest.len() > 0 ==> t.last() == rest.last());
    lemma_trim(before, t, after);
    assert forall|i: int| 0 <= i < n implies other(#[trigger] t[i]) by {
        assert(t[i] == name[i]);
    }
    if rest.len() > 0 {
        assert(t[n] == rest[0]);
    }
    lemma_leading_is(t, other, n);
    assert(t.take(n) =~= name);
    reveal_strlit("@streq");
    reveal_strlit("@contains");
    reveal_strlit("@beginsWith");
    reveal_strlit("@endsWith");
    reveal_strlit("@rx");
    reveal_strlit("@pm");
    reveal_strlit("@ipMatch");
    reveal_strlit("@pmFromFile");
    assert("@streq"@.len() == 6);
    assert("@contains"@.len() == 9);
    assert("@beginsWith"@.len() == 11);
    assert("@endsWith"@.len() == 9);
    assert("@rx"@.len() == 3);
    assert("@pm"@.len() == 3);
    assert("@ipMatch"@.len() == 8);
    assert("@pmFromFile"@.len() == 11);
    assert("@streq"@[1] == 's');
    assert("@contains"@[1] == 'c');
    assert("@beginsWith"@[1] == 'b');
    assert("@endsWith"@[1] == 'e');
    assert("@rx"@[1] == 'r');
    assert("@pm"@[1] == 'p');
    assert("@ipMatch"@[1] == 'i');
    assert("@pmFromFile"@[1] == 'p');
}

/// The actions that change what is reported: transformations by their names in ASCII
/// lowercase, and those that keep state, chain, choose a phase or control the flow.
#[verifier::rlimit(40)]
pub proof fn lemma_action_findings(action: Seq<char>, rest: Seq<char>)
    ensures
        ({
            let a = trim(action);
            let found = action_finding(action);
            let name = ascii_lower(rest);
            &&& a == "t:"@ + rest ==> {
                &&& name == "none"@ ==> found == FindingView::Supported
                &&& name == "lowercase"@ ==> found == FindingView::Supported
                &&& name == "urldecode"@ ==> found == FindingView::Supported
                &&& name == "compresswhitespace"@ ==> found == FindingView::Supported
                &&& name == "removenulls"@ ==> found == FindingView::Supported
                &&& name == "urldecodeuni"@ ==> found == FindingView::Partial(
                    "transform:url_decode_uni"@,
                )
                &&& name != "none"@ && name != "lowercase"@ && name != "urldecode"@
                    && name != "compresswhitespace"@ && name != "removenulls"@
                    && name != "urldecodeuni"@ ==> found == FindingView::Unsupported(
                    "transform:"@ + name,
                )
            }
            &&& a == "setvar:"@ + rest || a == "capture"@ ==> found == FindingView::Partial(
                "stateful-actions"@,
            )
            &&& a == "chain"@ ==> found == FindingView::Partial("chain"@)
            &&& a == "phase:"@ + rest ==> found == FindingView::Partial("phase-control"@)
            &&& a == "ctl:"@ + rest || a == "skipAfter:"@ + rest ==> found
                == FindingView::Unsupported("control-flow-actions"@)
            &&& !starts_with(a, "t:"@) && !starts_with(a, "setvar:"@) && a != "capture"@ && a
                != "chain"@ && !starts_with(a, "phase:"@) && !starts_with(a, "ctl:"@)
                && !starts_with(a, "skipAfter:"@) ==> found == FindingView::Supported
        }),
{
    let a = trim(action);
    reveal_strlit("none");
    reveal_strlit("lowercase");
    reveal_strlit("urldecode");
    reveal_strlit("compresswhitespace");
    reveal_strlit("removenulls");
    reveal_strlit("urldecodeuni");
    reveal_strlit("t:");
    reveal_strlit("setvar:");
    reveal_strlit("capture");
    reveal_strlit("chain");
    reveal_strlit("phase:");
    reveal_strlit("ctl:");
    reveal_strlit("skipAfter:");
    assert("none"@.len() == 4);
    assert("lowercase"@.len() == 9);
    assert("urldecode"@.len() == 9);
    assert("compresswhitespace"@.len() == 18);
    assert("removenulls"@.len() == 11);
    assert("urldecodeuni"@.len() == 12);
    assert("t:"@.len() == 2);
    assert("setvar:"@.len() == 7);
    assert("capture"@.len() == 7);
    assert("chain"@.len() == 5);
    assert("phase:"@.len() == 6);
    assert("ctl:"@.len() == 4);
    assert("skipAfter:"@.len() == 10);
    assert("lowercase"@[0] == 'l');
    assert("urldecode"@[0] == 'u');
    assert("t:"@[0] == 't');
    assert("setvar:"@[0] == 's');
    assert("capture"@[0] == 'c');
    assert("chain"@[0] == 'c');
    assert("phase:"@[0] == 'p');
    assert("ctl:"@[0] == 'c');
    assert("skipAfter:"@[0] == 's');
    assert("setvar:"@[1] == 'e');
    assert("capture"@[1] == 'a');
    assert("chain"@[1] == 'h');
    assert("ctl:"@[1] == 't');
    assert("skipAfter:"@[1] == 'k');
    lemma_after_prefix(a, "t:"@, rest);
    lemma_after_prefix(a, "setvar:"@, rest);
    lemma_after_prefix(a, "phase:"@, rest);
    lemma_after_prefix(a, "ctl:"@, rest);
    lemma_after_prefix(a, "skipAfter:"@, rest);
    assert(starts_with(a, "t:"@) ==> a.take(2)[0] == 't' && a.take(2)[1] == ':');
    assert(starts_with(a, "setvar:"@) ==> a.take(7)[0] == 's' && a.take(7)[1] == 'e');
    assert(starts_with(a, "phase:"@) ==> a.take(6)[0] == 'p' && a.take(6)[1] == 'h');
    assert(starts_with(a, "ctl:"@) ==> a.take(4)[0] == 'c' && a.take(4)[1] == 't');
    assert(starts_with(a, "skipAfter:"@) ==> a.take(10)[0] == 's' && a.take(10)[1] == 'k');
}

/// A reason why something is not supported makes a rule unsupported; without one, a
/// reason why something is supported to some extent makes it partial; without any it is
/// supported.
pub proof fn lemma_statuses(r: Reasons)
    ensures
        r.unsupported.len() > 0 ==> status_of(r) == RuleStatus::Unsupported,
        r.unsupported.len() == 0 && r.partial.len() > 0 ==> status_of(r) == RuleStatus::Partial,
        r.unsupported.len() == 0 && r.partial.len() == 0 ==> status_of(r) == RuleStatus::Supported,
{
}

/// The reasons in a rule are those of its target, of its operator and of each of its
/// actions, in that order, and no others.
pub proof fn lemma_reasons(p: RulePieces, reason: Seq<char>)
    ensures
        reasons_in(p).unsupported.contains(reason) <==> (target_finding(p.target)
            == FindingView::Unsupported(reason) || operator_finding(p.operator)
            == FindingView::Unsupported(reason) || exists|i: int|
            0 <= i < action_list(p.actions).len() && action_finding(
                #[trigger] action_list(p.actions)[i],
            ) == FindingView::Unsupported(reason)),
        reasons_in(p).partial.contains(reason) <==> (target_finding(p.target)
            == FindingView::Partial(reason) || operator_finding(p.operator)
            == FindingView::Partial(reason) || exists|i: int|
            0 <= i < action_list(p.actions).len() && action_finding(
                #[trigger] action_list(p.actions)[i],
            ) == FindingView::Partial(reason)),
{
    let none = Reasons { unsupported: seq![], partial: seq![] };
    let one = with_finding(none, target_finding(p.target));
    let two = with_finding(one, operator_finding(p.operator));
    lemma_with_finding(none, target_finding(p.target), reason);
    lemma_with_finding(one, operator_finding(p.operator), reason);
    lemma_with_actions(two, action_list(p.actions), reason);
}

proof fn lemma_with_finding(r: Reasons, f: FindingView, reason: Seq<char>)
    ensures
        with_finding(r, f).unsupported.contains(reason) <==> r.unsupported.contains(reason) || f
            == FindingView::Unsupported(reason),
        with_finding(r, f).partial.contains(reason) <==> r.partial.contains(reason) || f
            == FindingView::Partial(reason),
{
    match f {
        FindingView::Supported => {},
        FindingView::Partial(s) => lemma_pushed(r.partial, s, reason),
        FindingView::Unsupported(s) => lemma_pushed(r.unsupported, s, reason),
    }
}

proof fn lemma_pushed(words: Seq<Seq<char>>, s: Seq<char>, reason: Seq<char>)
    ensures
        words.push(s).contains(reason) <==> words.contains(reason) || s == reason,
{
    let all = words.push(s);
    if words.contains(reason) {
        let i = words.index_of(reason);
        assert(all[i] == reason);
    }
    assert(all[words.len() as int] == s);
    if all.contains(reason) {
        let i = all.index_of(reason);
        if i < words.len() {
            assert(words[i] == reason);
        }
    }
}

#[verifier::rlimit(40)]
proof fn lemma_with_actions(r: Reasons, actions: Seq<Seq<char>>, reason: Seq<char>)
    ensures
        with_actions(r, actions).unsupported.contains(reason) <==> (r.unsupported.contains(reason)
            || exists|i: int|
            0 <= i < actions.len() && action_finding(#[trigger] actions[i])
                == FindingView::Unsupported(reason)),
        with_actions(r, actions).partial.contains(reason) <==> (r.partial.contains(reason)
            || exists|i: int|
            0 <= i < actions.len() && action_finding(#[trigger] actions[i])
                == FindingView::Partial(reason)),
    decreases actions.len(),
{
    if actions.len() > 0 {
        let front = actions.drop_last();
        lemma_with_actions(r, front, reason);
        lemma_with_finding(with_actions(r, front), action_finding(actions.last()), reason);
        assert(actions[actions.len() - 1] == actions.last());
        assert forall|i: int| 0 <= i < front.len() implies #[trigger] front[i] == actions[i] by {}
        if exists|i: int|
            0 <= i < front.len() && action_finding(#[trigger] front[i])
                == FindingView::Unsupported(reason) {
            let i = choose|i: int|
                0 <= i < front.len() && action_finding(#[trigger] front[i])
                    == FindingView::Unsupported(reason);
            assert(action_finding(actions[i]) == FindingView::Unsupported(reason));
        }
        if exists|i: int|
            0 <= i < front.len() && action_finding(#[trigger] front[i])
                == FindingView::Partial(reason) {
            let i = choose|i: int|
                0 <= i < front.len() && action_finding(#[trigger] front[i])
                    == FindingView::Partial(reason);
            assert(action_finding(actions[i]) == FindingView::Partial(reason));
        }
        if exists|i: int|
            0 <= i < actions.len() && action_finding(#[trigger] actions[i])
                == FindingView::Unsupported(reason) {
            let i = choose|i: int|
                0 <= i < actions.len() && action_finding(#[trigger] actions[i])
                    == FindingView::Unsupported(reason);
            if i < front.len() {
                assert(action_finding(front[i]) == FindingView::Unsupported(reason));
            }
        }
        if exists|i: int|
            0 <= i < actions.len() && action_finding(#[trigger] actions[i])
                == FindingView::Partial(reason) {
            let i = choose|i: int|
                0 <= i < actions.len() && action_finding(#[trigger] actions[i])
                    == FindingView::Partial(reason);
            if i < front.len() {
                assert(action_finding(front[i]) == FindingView::Partial(reason));
            }
        }
    }
}

/// What is reported of a rule: the file, the id or a mark in its place, the status and
/// the reasons; what is no rule is not reported.
pub proof fn lemma_reported_rules(
    file: Seq<char>,
    stmts: Seq<Seq<char>>,
    statement: Seq<char>,
)
    ensures
        file_reports(file, seq![]).len() == 0,
        rule_pieces(statement) is None ==> file_reports(file, stmts.push(statement))
            == file_reports(file, stmts),
        rule_pieces(statement) matches Some(p) ==> {
            let now = file_reports(file, stmts.push(statement));
            &&& now.drop_last() == file_reports(file, stmts)
            &&& now.len() == file_reports(file, stmts).len() + 1
            &&& now.last().file == file
            &&& action_id(p.actions) matches Some(id) ==> now.last().rule_id == id
            &&& action_id(p.actions) is None ==> now.last().rule_id == "(no-id)"@
            &&& now.last().status == status_of(reasons_in(p))
            &&& now.last().reasons == distinct(reasons_in(p).unsupported) + distinct(
                reasons_in(p).partial,
            )
        },
{
    assert(stmts.push(statement).drop_last() =~= stmts);
    if let Some(p) = rule_pieces(statement) {
        assert(file_reports(file, stmts.push(statement)).drop_last() =~= file_reports(
            file,
            stmts,
        ));
    }
}

/// The counts and the samples are those of the rules with that status.
pub proof fn lemma_counted(reports: Seq<RuleReportView>, status: RuleStatus)
    ensures
        count_status(reports, status) == reports.filter(
            |r: RuleReportView| r.status == status,
        ).len(),
        not_supported(reports) == reports.filter(
            |r: RuleReportView| r.status != RuleStatus::Supported,
        ),
    decreases reports.len(),
{
    reveal(Seq::filter);
    if reports.len() > 0 {
        lemma_counted(reports.drop_last(), status);
    }
}

/// The reasons are told each once: a reason is told if and only if it was found, and in
/// order.
pub proof fn lemma_distinct(words: Seq<Seq<char>>, word: Seq<char>)
    ensures
        distinct(words).contains(word) <==> words.contains(word),
        forall|i: int, j: int|
            0 <= i < j < distinct(words).len() ==> precedes(
                #[trigger] distinct(words)[i],
                #[trigger] distinct(words)[j],
            ),
{
    let t = tallied(words);
    let d = distinct(words);
    lemma_tally(words, word);
    lemma_occurs(words, word);
    lemma_lookup_none(t, word);
    if d.contains(word) {
        let i = d.index_of(word);
        assert(t[i].0 == word);
        lemma_lookup_entry(t, i);
    }
    if words.contains(word) {
        let v = lookup(t, word)->0;
        let i = choose|i: int| 0 <= i < t.len() && #[trigger] t[i] == (word, v);
        assert(d[i] == word);
    }
    assert forall|i: int, j: int| 0 <= i < j < d.len() implies precedes(
        #[trigger] d[i],
        #[trigger] d[j],
    ) by {
        assert(precedes(t[i].0, t[j].0));
    }
}

proof fn lemma_occurs(words: Seq<Seq<char>>, word: Seq<char>)
    ensures
        occurrences(words, word) > 0 <==> words.contains(word),
    decreases words.len(),
{
    if words.len() > 0 {
        let front = words.drop_last();
        lemma_occurs(front, word);
        lemma_pushed(front, words.last(), word);
        assert(front.push(words.last()) =~= words);
    }
}

/// The report counts the rules and those of each status; then come the reasons with their
/// counts, in order, where there are any, and the first twenty rules that are not fully
/// supported.
#[verifier::rlimit(40)]
pub proof fn lemma_compatibility(reports: Seq<RuleReportView>)
    ensures
        ({
            let full = reports.filter(|r: RuleReportView| r.status == RuleStatus::Supported).len();
            let part = reports.filter(|r: RuleReportView| r.status == RuleStatus::Partial).len();
            let none = reports.filter(
                |r: RuleReportView| r.status == RuleStatus::Unsupported,
            ).len();
            let others = reports.filter(|r: RuleReportView| r.status != RuleStatus::Supported);
            let shown = if others.len() > 20 {
                others.take(20)
            } else {
                others
            };
            let reasons = all_reasons(reports);
            compatibility(reports) == "Compatibility report\n"@ + ("- total_rules: "@ + decimal(
                reports.len() as int,
            ) + "\n"@) + ("- supported: "@ + decimal(full as int) + "\n"@) + ("- partial: "@
                + decimal(part as int) + "\n"@) + ("- unsupported: "@ + decimal(none as int)
                + "\n"@) + (if reasons.len() == 0 {
                seq![]
            } else {
                "- reasons:\n"@ + tally_lines(tallied(reasons))
            }) + "- sample_non_supported:\n"@ + report_lines(shown)
        }),
{
    lemma_counted(reports, RuleStatus::Supported);
    lemma_counted(reports, RuleStatus::Partial);
    lemma_counted(reports, RuleStatus::Unsupported);
}

/// A rule is told on a line with its file, its id, its status and its reasons with commas
/// between them; and the reasons of the report are those of all rules.
pub proof fn lemma_report_line(
    reports: Seq<RuleReportView>,
    r: RuleReportView,
    words: Seq<Seq<char>>,
    word: Seq<char>,
)
    ensures
        report_lines(reports.push(r)) == report_lines(reports) + ("  - "@ + r.file + " "@
            + r.rule_id + " ["@ + (match r.status {
            RuleStatus::Supported => "supported"@,
            RuleStatus::Partial => "partial"@,
            RuleStatus::Unsupported => "unsupported"@,
        }) + "] "@ + comma_separated(r.reasons) + "\n"@),
        report_lines(seq![]).len() == 0,
        all_reasons(reports.push(r)) == all_reasons(reports) + r.reasons,
        all_reasons(seq![]).len() == 0,
        comma_separated(seq![word]) == word,
        words.len() > 0 ==> comma_separated(words.push(word)) == comma_separated(words) + seq![
            ',',
        ] + word,
        comma_separated(seq![]).len() == 0,
{
    reveal_strlit(",");
    assert(","@ =~= seq![',']);
    assert(reports.push(r).drop_last() =~= reports);
    assert(words.push(word).drop_last() =~= words);
}

} // verus!
