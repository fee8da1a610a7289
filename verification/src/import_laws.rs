//! What importing makes of rules as they are written.

use vstd::prelude::*;

use crate::crs::parser::lemma_closing_quote;
use crate::import_crs::{
    action_in, default_action_in, error_message, first_twenty, imported_from, mapped, operand_for,
    operator_parts, parsed_in, phrase_files_of, phrases_in, phrases_named, reasons_of, report,
    sample_lines, says_allow, says_block, skipped, status_in, tally_lines, target_in,
    transforms_in, with_rule, with_statements, ErrorView, ImportStatus, Imported, ParseResultView,
    ParsedView, PhraseFileView, SourceView,
};
use crate::number::{decimal, lemma_decimal_digits, lemma_decimal_round_trip};
use crate::ordered::{lemma_lookup_none, lemma_tally, lookup, tallied};
use crate::ruleset::{
    Action, ConditionConfigView, ConditionOperator, ConditionTransform, RuleConfigView, TargetView,
};
use crate::secrule_parser::{
    action_id, action_list, first_value, quoted, rule_pieces, statements, RulePieces,
};
use crate::text::{
    after_prefix, ascii_lower, contains, is_char, is_space, lemma_leading_is, lines, starts_with,
    trim, trim_start, words,
};
use crate::text_laws::{
    blank, free_of, lemma_after_prefix, lemma_contains, lemma_trim, lemma_trim_end_char,
    lemma_trim_tight, tight,
};

verus! {

// ---------------------------------------------------------------------------
// Actions
// ---------------------------------------------------------------------------

/// The transformations by their names, whatever the case: each `t:name` adds its own
/// behind those before it. No two names but those for URLs give the same, and a name
/// that is not supported is an error.
#[verifier::rlimit(40)]
pub proof fn lemma_transform_actions(
    actions: Seq<Seq<char>>,
    head: Seq<ConditionTransform>,
    action: Seq<char>,
    raw: Seq<char>,
)
    requires
        transforms_in(actions) == Ok::<_, ErrorView>(head),
        trim(action) == "t:"@ + raw,
    ensures
        ({
            let name = ascii_lower(trim(raw));
            let now = transforms_in(actions.push(action));
            &&& name == "none"@ ==> now == Ok::<_, ErrorView>(
                head.push(ConditionTransform::Identity),
            )
            &&& name == "lowercase"@ ==> now == Ok::<_, ErrorView>(
                head.push(ConditionTransform::Lowercase),
            )
            &&& name == "urldecode"@ ==> now == Ok::<_, ErrorView>(
                head.push(ConditionTransform::UrlDecode),
            )
            &&& name == "urldecodeuni"@ ==> now == Ok::<_, ErrorView>(
                head.push(ConditionTransform::UrlDecode),
            )
            &&& name == "compresswhitespace"@ ==> now == Ok::<_, ErrorView>(
                head.push(ConditionTransform::CompressWhitespace),
            )
            &&& name == "removenulls"@ ==> now == Ok::<_, ErrorView>(
                head.push(ConditionTransform::RemoveNulls),
            )
            &&& now is Err <==> name != "none"@ && name != "lowercase"@ && name != "urldecode"@
                && name != "urldecodeuni"@ && name != "compresswhitespace"@
                && name != "removenulls"@
            &&& now matches Err(e) ==> e == ErrorView::Transform(name)
        }),
{
    reveal_strlit("none");
    reveal_strlit("lowercase");
    reveal_strlit("urldecode");
    reveal_strlit("urldecodeuni");
    reveal_strlit("compresswhitespace");
    reveal_strlit("removenulls");
    reveal_strlit("t:");
    assert("none"@.len() == 4);
    assert("lowercase"@.len() == 9);
    assert("urldecode"@.len() == 9);
    assert("urldecodeuni"@.len() == 12);
    assert("compresswhitespace"@.len() == 18);
    assert("removenulls"@.len() == 11);
    assert("t:"@.len() == 2);
    assert("lowercase"@[0] == 'l');
    assert("urldecode"@[0] == 'u');
    assert(actions.push(action).drop_last() =~= actions);
    lemma_after_prefix(trim(action), "t:"@, raw);
}

/// What is no `t:` action adds no transformation, and there is none without actions;
/// an error stays.
pub proof fn lemma_other_actions(actions: Seq<Seq<char>>, action: Seq<char>)
    ensures
        transforms_in(seq![]) == Ok::<Seq<ConditionTransform>, ErrorView>(seq![]),
        (forall|raw: Seq<char>| trim(action) != #[trigger] ("t:"@ + raw)) ==> transforms_in(
            actions.push(action),
        ) == transforms_in(actions),
        transforms_in(actions) is Err ==> transforms_in(actions.push(action)) == transforms_in(
            actions,
        ),
{
    assert(actions.push(action).drop_last() =~= actions);
    if forall|raw: Seq<char>| trim(action) != #[trigger] ("t:"@ + raw) {
        if let Some(raw) = after_prefix(trim(action), "t:"@) {
            lemma_after_prefix(trim(action), "t:"@, raw);
            assert(trim(action) == "t:"@ + raw);
        }
    }
}

/// One of the actions is one of two words, whatever the case.
pub open spec fn says(actions: Seq<Seq<char>>, a: Seq<char>, b: Seq<char>) -> bool {
    exists|i: int|
        0 <= i < actions.len() && {
            let name = ascii_lower(trim(#[trigger] actions[i]));
            name == a || name == b
        }
}

/// A rule blocks where it says `block` or `deny`, and lets pass where it says `allow`
/// or `pass`; both or neither is an error.
pub proof fn lemma_rule_action(actions: Seq<Seq<char>>)
    ensures
        ({
            let block = says(actions, "block"@, "deny"@);
            let allow = says(actions, "allow"@, "pass"@);
            &&& block && !allow ==> action_in(actions) == Ok::<_, ErrorView>(Action::Block)
            &&& allow && !block ==> action_in(actions) == Ok::<_, ErrorView>(Action::Allow)
            &&& block && allow ==> action_in(actions) == Err::<Action, _>(
                ErrorView::ConflictingActions,
            )
            &&& !block && !allow ==> action_in(actions) == Err::<Action, _>(
                ErrorView::MissingAction,
            )
        }),
{
    let block = says(actions, "block"@, "deny"@);
    let allow = says(actions, "allow"@, "pass"@);
    if block {
        let i = choose|i: int|
            0 <= i < actions.len() && {
                let name = ascii_lower(trim(#[trigger] actions[i]));
                name == "block"@ || name == "deny"@
            };
        assert(says_block(actions[i]));
    }
    if allow {
        let i = choose|i: int|
            0 <= i < actions.len() && {
                let name = ascii_lower(trim(#[trigger] actions[i]));
                name == "allow"@ || name == "pass"@
            };
        assert(says_allow(actions[i]));
    }
    if exists|i: int|
        0 <= i < actions.len() && says_block(#[trigger] actions[i]) {
        let i = choose|i: int|
            0 <= i < actions.len() && says_block(#[trigger] actions[i]);
        let name = ascii_lower(trim(actions[i]));
        assert(name == "block"@ || name == "deny"@);
        assert(block);
    }
    if exists|i: int|
        0 <= i < actions.len() && says_allow(#[trigger] actions[i]) {
        let i = choose|i: int|
            0 <= i < actions.len() && says_allow(#[trigger] actions[i]);
        let name = ascii_lower(trim(actions[i]));
        assert(name == "allow"@ || name == "pass"@);
        assert(allow);
    }
}

/// The default action by its name, whatever the case and the whitespace around it.
pub proof fn lemma_default_action(input: Seq<char>)
    ensures
        ({
            let name = ascii_lower(trim(input));
            &&& name == "allow"@ ==> default_action_in(input) == Ok::<_, ErrorView>(Action::Allow)
            &&& name == "block"@ ==> default_action_in(input) == Ok::<_, ErrorView>(Action::Block)
            &&& name != "allow"@ && name != "block"@ ==> default_action_in(input) == Err::<
                Action,
                _,
            >(ErrorView::DefaultAction(name))
        }),
{
    reveal_strlit("allow");
    reveal_strlit("block");
    assert("allow"@.len() == 5);
    assert("block"@.len() == 5);
    assert("allow"@[0] == 'a' && "block"@[0] == 'b');
}

/// The value of the first action with a prefix is all that stands behind it.
pub proof fn lemma_first_value(
    before: Seq<Seq<char>>,
    part: Seq<char>,
    after: Seq<Seq<char>>,
    prefix: Seq<char>,
    value: Seq<char>,
)
    requires
        forall|i: int| 0 <= i < before.len() ==> !starts_with(trim(#[trigger] before[i]), prefix),
        trim(part) == prefix + value,
    ensures
        first_value(before + seq![part] + after, prefix) == Some(value),
        first_value(before, prefix) is None,
    decreases before.len(),
{
    let all = before + seq![part] + after;
    if before.len() == 0 {
        assert(all[0] == part);
        lemma_after_prefix(trim(part), prefix, value);
    } else {
        let rest = before.skip(1);
        assert(all[0] == before[0]);
        assert(!starts_with(trim(before[0]), prefix));
        assert(all.skip(1) =~= rest + seq![part] + after);
        assert forall|i: int| 0 <= i < rest.len() implies !starts_with(
            trim(#[trigger] rest[i]),
            prefix,
        ) by {
            assert(rest[i] == before[i + 1]);
        }
        lemma_first_value(rest, part, after, prefix, value);
    }
}

/// `status:N` is the status code where it is one of HTTP, and an error otherwise;
/// without it there is none.
pub proof fn lemma_status(
    before: Seq<Seq<char>>,
    part: Seq<char>,
    after: Seq<Seq<char>>,
    n: int,
)
    requires
        forall|i: int|
            0 <= i < before.len() ==> !starts_with(trim(#[trigger] before[i]), "status:"@),
        trim(part) == "status:"@ + decimal(n),
        0 <= n <= 65535,
    ensures
        100 <= n <= 599 ==> status_in(before + seq![part] + after) == Ok::<_, ErrorView>(
            Some(n as u16),
        ),
        !(100 <= n <= 599) ==> status_in(before + seq![part] + after) == Err::<Option<u16>, _>(
            ErrorView::StatusRange(n as u16),
        ),
        status_in(before) == Ok::<Option<u16>, ErrorView>(None),
{
    lemma_first_value(before, part, after, "status:"@, decimal(n));
    lemma_decimal_round_trip(n, 0xffff);
    lemma_decimal_digits(n);
    let d = decimal(n);
    assert('0' <= d[0] <= '9');
    assert('0' <= d[d.len() - 1] <= '9');
    lemma_trim_tight(d);
}

/// `id:N` is the id, with or without single quotation marks around it.
pub proof fn lemma_id(
    actions: Seq<char>,
    before: Seq<Seq<char>>,
    part: Seq<char>,
    after: Seq<Seq<char>>,
    id: Seq<char>,
)
    requires
        action_list(actions) == before + seq![part] + after,
        forall|i: int| 0 <= i < before.len() ==> !starts_with(trim(#[trigger] before[i]), "id:"@),
        id.len() > 0,
        id[0] != '\'',
        id.last() != '\'',
        trim(part) == "id:"@ + id || trim(part) == "id:"@ + (seq!['\''] + id + seq!['\'']),
    ensures
        action_id(actions) == Some(id),
{
    let mark = is_char('\'');
    let quoted = seq!['\''] + id + seq!['\''];
    if trim(part) == "id:"@ + id {
        lemma_first_value(before, part, after, "id:"@, id);
        lemma_leading_is(id, mark, 0);
        assert(id.skip(0) =~= id);
        assert(id + Seq::<char>::empty() =~= id);
        lemma_trim_end_char(id, '\'', seq![]);
    } else {
        lemma_first_value(before, part, after, "id:"@, quoted);
        assert(quoted[0] == '\'' && quoted[1] == id[0]);
        lemma_leading_is(quoted, mark, 1);
        assert(quoted.skip(1) =~= id + seq!['\'']);
        lemma_trim_end_char(id, '\'', seq!['\'']);
    }
}

// ---------------------------------------------------------------------------
// Targets and operators
// ---------------------------------------------------------------------------

/// The targets by their names, and headers by theirs in ASCII lowercase; any other
/// target is an error.
#[verifier::rlimit(40)]
pub proof fn lemma_targets(raw: Seq<char>, name: Seq<char>)
    ensures
        raw == "REQUEST_METHOD"@ ==> target_in(raw) == Ok::<_, ErrorView>(TargetView::Method),
        raw == "REQUEST_URI"@ ==> target_in(raw) == Ok::<_, ErrorView>(TargetView::Path),
        raw == "QUERY_STRING"@ ==> target_in(raw) == Ok::<_, ErrorView>(TargetView::Query),
        raw == "REQUEST_BODY"@ ==> target_in(raw) == Ok::<_, ErrorView>(TargetView::Body),
        raw == "REQUEST_HEADERS:User-Agent"@ ==> target_in(raw) == Ok::<_, ErrorView>(
            TargetView::UserAgent,
        ),
        raw == "REMOTE_ADDR"@ ==> target_in(raw) == Ok::<_, ErrorView>(TargetView::ClientIp),
        raw == "REQUEST_HEADERS:"@ + name && name != "User-Agent"@ ==> target_in(raw) == Ok::<
            _,
            ErrorView,
        >(TargetView::Header(ascii_lower(name))),
        target_in(raw) matches Err(e) ==> e == ErrorView::Target(raw),
        target_in(raw) is Err <==> (raw != "REQUEST_METHOD"@ && raw != "REQUEST_URI"@ && raw
            != "QUERY_STRING"@ && raw != "REQUEST_BODY"@ && raw != "REMOTE_ADDR"@ && !starts_with(
            raw,
            "REQUEST_HEADERS:"@,
        )),
{
    reveal_strlit("REQUEST_METHOD");
    reveal_strlit("REQUEST_URI");
    reveal_strlit("QUERY_STRING");
    reveal_strlit("REQUEST_BODY");
    reveal_strlit("REQUEST_HEADERS:User-Agent");
    reveal_strlit("REMOTE_ADDR");
    reveal_strlit("REQUEST_HEADERS:");
    reveal_strlit("User-Agent");
    assert("REQUEST_METHOD"@.len() == 14);
    assert("REQUEST_URI"@.len() == 11);
    assert("QUERY_STRING"@.len() == 12);
    assert("REQUEST_BODY"@.len() == 12);
    assert("REQUEST_HEADERS:User-Agent"@.len() == 26);
    assert("REMOTE_ADDR"@.len() == 11);
    assert("REQUEST_HEADERS:"@.len() == 16);
    assert("User-Agent"@.len() == 10);
    assert("REQUEST_METHOD"@[8] == 'M');
    assert("REQUEST_URI"@[0] == 'R' && "REQUEST_URI"@[2] == 'Q');
    assert("REMOTE_ADDR"@[2] == 'M');
    assert("QUERY_STRING"@[0] == 'Q');
    assert("REQUEST_BODY"@[0] == 'R');
    assert("REQUEST_HEADERS:User-Agent"@ =~= "REQUEST_HEADERS:"@ + "User-Agent"@);
    assert("REQUEST_HEADERS:User-Agent"@.take(16) =~= "REQUEST_HEADERS:"@);
    lemma_after_prefix(raw, "REQUEST_HEADERS:"@, name);
    if raw == "REQUEST_HEADERS:"@ + name {
        assert(raw.skip(16) =~= name);
        assert("REQUEST_HEADERS:User-Agent"@.skip(16) =~= "User-Agent"@);
    }
}

/// An operator is a word, and its operand is all that follows, without the whitespace
/// around it.
pub proof fn lemma_operator_parts(
    before: Seq<char>,
    name: Seq<char>,
    gap: Seq<char>,
    operand: Seq<char>,
    after: Seq<char>,
)
    requires
        blank(before),
        blank(gap),
        blank(after),
        name.len() > 0,
        forall|i: int| 0 <= i < name.len() ==> !is_space(#[trigger] name[i]),
        tight(operand),
        operand.len() > 0,
        gap.len() > 0,
    ensures
        operator_parts(before + (name + gap + operand) + after) == Ok::<_, ErrorView>(
            (name, Some(operand)),
        ),
        operator_parts(before + name + after) == Ok::<_, ErrorView>((name, None::<Seq<char>>)),
        operator_parts(before) == Err::<(Seq<char>, Option<Seq<char>>), _>(
            ErrorView::EmptyOperator,
        ),
{
    let other = |x: char| !is_space(x);
    let none = Seq::<char>::empty();
    let t = name + gap + operand;
    let n = name.len() as int;
    assert(t[0] == name[0]);
    assert(t.last() == operand.last());
    assert(!is_space(name[0]));
    lemma_trim(before, t, after);
    assert forall|i: int| 0 <= i < n implies other(#[trigger] t[i]) by {
        assert(t[i] == name[i]);
    }
    assert(t[n] == gap[0]);
    assert(is_space(gap[0]));
    lemma_leading_is(t, other, n);
    assert(t.take(n) =~= name);
    let rest = gap.skip(1);
    assert forall|i: int| 0 <= i < rest.len() implies is_space(#[trigger] rest[i]) by {
        assert(rest[i] == gap[i + 1]);
    }
    assert(t.skip(n + 1) =~= rest + operand + none);
    lemma_trim(rest, operand, none);
    assert(!is_space(name[name.len() - 1]));
    lemma_trim(before, name, after);
    assert forall|i: int| 0 <= i < n implies other(#[trigger] name[i]) by {}
    lemma_leading_is(name, other, n);
    assert(name.take(n) =~= name);
    assert(before + none + none =~= before);
    lemma_trim(before, none, none);
}

/// A rule of the rule set as importing makes it: enabled, and bound to nothing but its
/// needles and its conditions.
pub open spec fn imported_rule(
    p: ParsedView,
    id: Seq<char>,
    needles: Seq<Seq<char>>,
    conditions: Seq<ConditionConfigView>,
) -> RuleConfigView {
    RuleConfigView {
        id,
        enabled: true,
        action: p.action,
        status_code: p.status_code,
        methods: seq![],
        path_prefixes: seq![],
        ip_cidrs: seq![],
        user_agent_contains: needles,
        conditions,
    }
}

/// A condition that compares one value, with the transformations of its rule.
pub open spec fn value_condition(
    p: ParsedView,
    target: TargetView,
    operator: ConditionOperator,
    value: Seq<char>,
) -> ConditionConfigView {
    ConditionConfigView {
        target,
        operator,
        value: Some(value),
        values: seq![],
        transforms: p.transforms,
    }
}

/// The rule for an operator with one value: it has the id of the `SecRule` behind
/// `crs-`, its action and its status code, and one condition with the target, the
/// operator, the operand and the transformations.
#[verifier::rlimit(40)]
pub proof fn lemma_value_operators(
    p: ParsedView,
    files: Seq<(Seq<char>, PhraseFileView)>,
    name: Seq<char>,
    value: Seq<char>,
    target: TargetView,
)
    requires
        operator_parts(p.operator) == Ok::<_, ErrorView>((name, Some(value))),
        value.len() > 0,
        tight(value),
        !contains(p.actions_raw, "chain"@),
        target_in(p.target) == Ok::<_, ErrorView>(target),
    ensures
        ({
            let id = "crs-"@ + p.rule_id;
            let rules = mapped(p, files);
            &&& name == "@streq"@ ==> rules == Ok::<_, ErrorView>(
                seq![
                    imported_rule(
                        p,
                        id,
                        seq![],
                        seq![value_condition(p, target, ConditionOperator::Eq, value)],
                    ),
                ],
            )
            &&& name == "@contains"@ ==> rules == Ok::<_, ErrorView>(
                seq![
                    imported_rule(
                        p,
                        id,
                        seq![],
                        seq![value_condition(p, target, ConditionOperator::Contains, value)],
                    ),
                ],
            )
            &&& name == "@beginsWith"@ ==> rules == Ok::<_, ErrorView>(
                seq![
                    imported_rule(
                        p,
                        id,
                        seq![],
                        seq![value_condition(p, target, ConditionOperator::Prefix, value)],
                    ),
                ],
            )
            &&& name == "@endsWith"@ ==> rules == Ok::<_, ErrorView>(
                seq![
                    imported_rule(
                        p,
                        id,
                        seq![],
                        seq![value_condition(p, target, ConditionOperator::Suffix, value)],
                    ),
                ],
            )
            &&& name == "@rx"@ ==> rules == Ok::<_, ErrorView>(
                seq![
                    imported_rule(
                        p,
                        id,
                        seq![],
                        seq![value_condition(p, target, ConditionOperator::Regex, value)],
                    ),
                ],
            )
        }),
{
    reveal_strlit("@streq");
    reveal_strlit("@contains");
    reveal_strlit("@beginsWith");
    reveal_strlit("@endsWith");
    reveal_strlit("@rx");
    reveal_strlit("@ipMatch");
    reveal_strlit("@pmFromFile");
    reveal_strlit("@pm");
    assert("@streq"@.len() == 6);
    assert("@contains"@.len() == 9);
    assert("@beginsWith"@.len() == 11);
    assert("@endsWith"@.len() == 9);
    assert("@rx"@.len() == 3);
    assert("@ipMatch"@.len() == 8);
    assert("@pmFromFile"@.len() == 11);
    assert("@pm"@.len() == 3);
    assert("@streq"@[1] == 's');
    assert("@contains"@[1] == 'c');
    assert("@beginsWith"@[1] == 'b');
    assert("@endsWith"@[1] == 'e');
    assert("@rx"@[1] == 'r');
    assert("@ipMatch"@[1] == 'i');
    assert("@pmFromFile"@[1] == 'p');
    assert("@pm"@[1] == 'p');
    lemma_trim_tight(value);
}

/// The rule for `@ipMatch`: only for the client's address, with all the networks, and
/// without transformations.
#[verifier::rlimit(40)]
pub proof fn lemma_address_operator(
    p: ParsedView,
    files: Seq<(Seq<char>, PhraseFileView)>,
    value: Seq<char>,
    target: TargetView,
)
    requires
        operator_parts(p.operator) == Ok::<_, ErrorView>(("@ipMatch"@, Some(value))),
        value.len() > 0,
        tight(value),
        !contains(p.actions_raw, "chain"@),
        target_in(p.target) == Ok::<_, ErrorView>(target),
    ensures
        target is ClientIp ==> mapped(p, files) == Ok::<_, ErrorView>(
            seq![
                imported_rule(
                    p,
                    "crs-"@ + p.rule_id,
                    seq![],
                    seq![
                        ConditionConfigView {
                            target,
                            operator: ConditionOperator::IpMatch,
                            value: None,
                            values: words(value),
                            transforms: seq![],
                        },
                    ],
                ),
            ],
        ),
        !(target is ClientIp) ==> mapped(p, files) == Err::<Seq<RuleConfigView>, _>(
            ErrorView::IpMatchTarget,
        ),
{
    reveal_strlit("@streq");
    reveal_strlit("@contains");
    reveal_strlit("@beginsWith");
    reveal_strlit("@endsWith");
    reveal_strlit("@rx");
    reveal_strlit("@ipMatch");
    reveal_strlit("@pmFromFile");
    reveal_strlit("@pm");
    assert("@streq"@.len() == 6);
    assert("@contains"@.len() == 9);
    assert("@beginsWith"@.len() == 11);
    assert("@endsWith"@.len() == 9);
    assert("@rx"@.len() == 3);
    assert("@ipMatch"@.len() == 8);
    assert("@pmFromFile"@.len() == 11);
    assert("@pm"@.len() == 3);
    assert("@streq"@[1] == 's');
    assert("@contains"@[1] == 'c');
    assert("@beginsWith"@[1] == 'b');
    assert("@endsWith"@[1] == 'e');
    assert("@rx"@[1] == 'r');
    assert("@ipMatch"@[1] == 'i');
    assert("@pmFromFile"@[1] == 'p');
    assert("@pm"@[1] == 'p');
    lemma_trim_tight(value);
}

/// A list of phrases makes one rule for each, numbered from one, that looks for it;
/// `@pm` has them in its operand and `@pmFromFile` in the file that it names. On the
/// user agent they all go into one rule. No phrase at all is an error.
#[verifier::rlimit(40)]
pub proof fn lemma_phrase_operators(
    p: ParsedView,
    files: Seq<(Seq<char>, PhraseFileView)>,
    name: Seq<char>,
    value: Seq<char>,
    target: TargetView,
    phrases: Seq<Seq<char>>,
    i: int,
)
    requires
        operator_parts(p.operator) == Ok::<_, ErrorView>((name, Some(value))),
        value.len() > 0,
        tight(value),
        !contains(p.actions_raw, "chain"@),
        target_in(p.target) == Ok::<_, ErrorView>(target),
        name == "@pm"@ && phrases == words(value) || name == "@pmFromFile"@ && phrases_named(
            value,
            files,
        ) == Ok::<_, ErrorView>(phrases),
    ensures
        phrases.len() == 0 ==> mapped(p, files) == Err::<Seq<RuleConfigView>, _>(
            ErrorView::EmptyPhrases,
        ),
        phrases.len() > 0 && p.target == "REQUEST_HEADERS:User-Agent"@ ==> mapped(p, files)
            == Ok::<_, ErrorView>(
            seq![imported_rule(p, "crs-"@ + p.rule_id, phrases, seq![])],
        ),
        phrases.len() > 0 && p.target != "REQUEST_HEADERS:User-Agent"@ ==> (mapped(
            p,
            files,
        ) matches Ok(rules) && rules.len() == phrases.len() && (0 <= i < phrases.len()
            ==> rules[i] == imported_rule(
            p,
            "crs-"@ + p.rule_id + "-"@ + decimal(i + 1),
            seq![],
            seq![value_condition(p, target, ConditionOperator::Contains, phrases[i])],
        ))),
{
    reveal_strlit("@streq");
    reveal_strlit("@contains");
    reveal_strlit("@beginsWith");
    reveal_strlit("@endsWith");
    reveal_strlit("@rx");
    reveal_strlit("@ipMatch");
    reveal_strlit("@pmFromFile");
    reveal_strlit("@pm");
    assert("@streq"@.len() == 6);
    assert("@contains"@.len() == 9);
    assert("@beginsWith"@.len() == 11);
    assert("@endsWith"@.len() == 9);
    assert("@rx"@.len() == 3);
    assert("@ipMatch"@.len() == 8);
    assert("@pmFromFile"@.len() == 11);
    assert("@pm"@.len() == 3);
    assert("@streq"@[1] == 's');
    assert("@contains"@[1] == 'c');
    assert("@beginsWith"@[1] == 'b');
    assert("@endsWith"@[1] == 'e');
    assert("@rx"@[1] == 'r');
    assert("@ipMatch"@[1] == 'i');
    assert("@pmFromFile"@[1] == 'p');
    assert("@pm"@[1] == 'p');
    lemma_trim_tight(value);
}

/// A rule whose actions mention a chain is skipped, and so is one with an operator that
/// is not supported, or with none of the operand that it needs.
#[verifier::rlimit(40)]
pub proof fn lemma_skipped_rules(
    p: ParsedView,
    files: Seq<(Seq<char>, PhraseFileView)>,
    name: Seq<char>,
    operand: Option<Seq<char>>,
    front: Seq<char>,
    rest: Seq<char>,
)
    requires
        operator_parts(p.operator) == Ok::<_, ErrorView>((name, operand)),
    ensures
        p.actions_raw == front + "chain"@ + rest ==> mapped(p, files) == Err::<
            Seq<RuleConfigView>,
            _,
        >(ErrorView::Chained),
        !contains(p.actions_raw, "chain"@) && target_in(p.target) is Ok && name != "@streq"@
            && name != "@contains"@ && name != "@beginsWith"@ && name != "@endsWith"@
            && name != "@rx"@ && name != "@ipMatch"@ && name != "@pmFromFile"@
            && name != "@pm"@ ==> mapped(p, files) == Err::<Seq<RuleConfigView>, _>(
            ErrorView::Operator(name),
        ),
        !contains(p.actions_raw, "chain"@) && target_in(p.target) is Ok && operand is None
            && (name == "@streq"@ || name == "@contains"@ || name == "@beginsWith"@
            || name == "@endsWith"@
            || name == "@rx"@) ==> mapped(p, files) == Err::<Seq<RuleConfigView>, _>(
            ErrorView::MissingOperand(name),
        ),
{
    reveal_strlit("@streq");
    reveal_strlit("@contains");
    reveal_strlit("@beginsWith");
    reveal_strlit("@endsWith");
    reveal_strlit("@rx");
    reveal_strlit("@ipMatch");
    reveal_strlit("@pmFromFile");
    reveal_strlit("@pm");
    assert("@streq"@.len() == 6);
    assert("@contains"@.len() == 9);
    assert("@beginsWith"@.len() == 11);
    assert("@endsWith"@.len() == 9);
    assert("@rx"@.len() == 3);
    assert("@ipMatch"@.len() == 8);
    assert("@pmFromFile"@.len() == 11);
    assert("@pm"@.len() == 3);
    assert("@streq"@[1] == 's');
    assert("@contains"@[1] == 'c');
    assert("@beginsWith"@[1] == 'b');
    assert("@endsWith"@[1] == 'e');
    assert("@rx"@[1] == 'r');
    assert("@ipMatch"@[1] == 'i');
    assert("@pmFromFile"@[1] == 'p');
    assert("@pm"@[1] == 'p');
    lemma_contains(p.actions_raw, "chain"@);
}

/// Whatever the operator, a condition of an imported rule has the transformations that
/// the actions name, but for addresses, which have none; and every rule has the action
/// and the status code that the actions give.
#[verifier::rlimit(40)]
pub proof fn lemma_imported_rules(
    pieces: RulePieces,
    files: Seq<(Seq<char>, PhraseFileView)>,
    p: ParsedView,
    rules: Seq<RuleConfigView>,
    i: int,
    k: int,
)
    requires
        parsed_in(pieces) == Ok::<_, ErrorView>(p),
        mapped(p, files) == Ok::<_, ErrorView>(rules),
        0 <= i < rules.len(),
    ensures
        action_in(action_list(pieces.actions)) == Ok::<_, ErrorView>(rules[i].action),
        status_in(action_list(pieces.actions)) == Ok::<_, ErrorView>(rules[i].status_code),
        0 <= k < rules[i].conditions.len() ==> (rules[i].conditions[k].operator
            == ConditionOperator::IpMatch || transforms_in(action_list(pieces.actions)) == Ok::<
            _,
            ErrorView,
        >(rules[i].conditions[k].transforms)),
        0 <= k < rules[i].conditions.len() ==> target_in(pieces.target) == Ok::<_, ErrorView>(
            rules[i].conditions[k].target,
        ),
{
}

/// A rule is imported with the id that its actions give, or with a mark where they
/// give none.
pub proof fn lemma_imported_ids(pieces: RulePieces, p: ParsedView)
    requires
        parsed_in(pieces) == Ok::<_, ErrorView>(p),
    ensures
        p.target == pieces.target,
        p.operator == pieces.operator,
        p.actions_raw == pieces.actions,
        action_id(pieces.actions) matches Some(id) ==> p.rule_id == id,
        action_id(pieces.actions) is None ==> p.rule_id == "(no-id)"@,
{
}

// ---------------------------------------------------------------------------
// Phrase files
// ---------------------------------------------------------------------------

/// The phrases of a file come line by line, without the whitespace around them; blank
/// lines and comments hold none.
pub proof fn lemma_phrases(ls: Seq<Seq<char>>, line: Seq<char>)
    ensures
        phrases_in(seq![]).len() == 0,
        trim(line).len() == 0 || trim(line)[0] == '#' ==> phrases_in(ls.push(line)) == phrases_in(
            ls,
        ),
        trim(line).len() > 0 && trim(line)[0] != '#' ==> phrases_in(ls.push(line)) == phrases_in(
            ls,
        ).push(trim(line)),
{
    assert(ls.push(line).drop_last() =~= ls);
    reveal_strlit("#");
    assert("#"@ =~= seq!['#']);
    let t = trim(line);
    if t.len() > 0 {
        assert(t.take(1)[0] == t[0]);
        if t[0] == '#' {
            assert(t.take(1) =~= "#"@);
        }
    }
}

/// The phrases of a rule are those in the file that it names; a file that was not found
/// or cannot be read is an error that says so.
pub proof fn lemma_phrase_file(name: Seq<char>, files: Seq<(Seq<char>, PhraseFileView)>)
    ensures
        lookup(files, name) matches Some(PhraseFileView::Text(raw)) ==> phrases_named(name, files)
            == Ok::<_, ErrorView>(phrases_in(lines(raw))),
        lookup(files, name) matches Some(PhraseFileView::Unreadable(path)) ==> phrases_named(
            name,
            files,
        ) == Err::<Seq<Seq<char>>, _>(ErrorView::UnreadableFile(path)),
        lookup(files, name) is None || lookup(files, name) == Some(PhraseFileView::Missing)
            ==> phrases_named(name, files) == Err::<Seq<Seq<char>>, _>(
            ErrorView::UnresolvedFile(name),
        ),
{
}

// ---------------------------------------------------------------------------
// Files and reports
// ---------------------------------------------------------------------------

/// A `SecRule` that can be imported adds its rules behind those before it, and one that
/// cannot adds none; either is told in the results, with the reason.
pub proof fn lemma_imported_or_skipped(
    so_far: Imported,
    pieces: RulePieces,
    files: Seq<(Seq<char>, PhraseFileView)>,
)
    ensures
        ({
            let now = with_rule(so_far, pieces, files);
            let last = now.results.last();
            &&& now.results.drop_last() == so_far.results
            &&& now.results.len() == so_far.results.len() + 1
            &&& match parsed_in(pieces) {
                Ok(p) => last.rule_id == p.rule_id && match mapped(p, files) {
                    Ok(rules) => now.rules == so_far.rules + rules && last.status
                        == ImportStatus::Imported && last.reason == "ok"@,
                    Err(e) => now.rules == so_far.rules && last.status == ImportStatus::Skipped
                        && last.reason == error_message(e),
                },
                Err(e) => now.rules == so_far.rules && last.status == ImportStatus::Skipped
                    && last.rule_id == "(no-id)"@ && last.reason == "parse_error: "@
                    + error_message(e),
            }
        }),
{
    let now = with_rule(so_far, pieces, files);
    assert(now.results.drop_last() =~= so_far.results);
}

/// Statements are imported one after the other; what is no rule adds nothing.
pub proof fn lemma_statement(
    so_far: Imported,
    stmts: Seq<Seq<char>>,
    statement: Seq<char>,
    files: Seq<(Seq<char>, PhraseFileView)>,
)
    ensures
        with_statements(so_far, seq![], files) == so_far,
        rule_pieces(statement) is None ==> with_statements(so_far, stmts.push(statement), files)
            == with_statements(so_far, stmts, files),
        rule_pieces(statement) matches Some(pieces) ==> with_statements(
            so_far,
            stmts.push(statement),
            files,
        ) == with_rule(with_statements(so_far, stmts, files), pieces, files),
{
    assert(stmts.push(statement).drop_last() =~= stmts);
}

/// A statement `SecRule target "operator" "actions"` has those three parts, whatever the
/// whitespace before and between them.
#[verifier::rlimit(40)]
pub proof fn lemma_rule_statement(
    before: Seq<char>,
    target: Seq<char>,
    gap: Seq<char>,
    operator: Seq<char>,
    space: Seq<char>,
    actions: Seq<char>,
    rest: Seq<char>,
)
    requires
        blank(before),
        blank(gap),
        blank(space),
        gap.len() > 0,
        target.len() > 0,
        forall|i: int| 0 <= i < target.len() ==> !is_space(#[trigger] target[i]),
        free_of(operator, '"'),
        free_of(operator, '\\'),
        free_of(actions, '"'),
        free_of(actions, '\\'),
    ensures
        rule_pieces(
            before + ("SecRule "@ + (target + gap + (seq!['"'] + operator + seq!['"'] + (space
                + (seq!['"'] + actions + seq!['"'] + rest))))),
        ) == Some(RulePieces { target, operator, actions }),
{
    let second = seq!['"'] + actions + seq!['"'] + rest;
    let first = seq!['"'] + operator + seq!['"'] + (space + second);
    let body = target + gap + first;
    let line = "SecRule "@ + body;
    reveal_strlit("SecRule ");
    assert(line[0] == 'S');
    lemma_trim_start_blank(before, line);
    lemma_after_prefix(line, "SecRule "@, body);
    let other = |x: char| !is_space(x);
    let n = target.len() as int;
    assert forall|i: int| 0 <= i < n implies other(#[trigger] body[i]) by {
        assert(body[i] == target[i]);
    }
    assert(body[n] == gap[0]);
    assert(is_space(gap[0]));
    lemma_leading_is(body, other, n);
    assert(body.take(n) =~= target);
    let tail = gap.skip(1);
    assert forall|i: int| 0 <= i < tail.len() implies is_space(#[trigger] tail[i]) by {
        assert(tail[i] == gap[i + 1]);
    }
    assert(body.skip(n + 1) =~= tail + first);
    assert(first[0] == '"');
    lemma_trim_start_blank(tail, first);
    let none = Seq::<char>::empty();
    lemma_trim_start_blank(none, first);
    assert(none + first =~= first);
    lemma_quoted(operator, space + second);
    assert(second[0] == '"');
    lemma_trim_start_blank(space, second);
    lemma_quoted(actions, rest);
}

proof fn lemma_trim_start_blank(before: Seq<char>, s: Seq<char>)
    requires
        blank(before),
        s.len() > 0,
        !is_space(s[0]),
    ensures
        trim_start(before + s) == s,
{
    let space = |x: char| is_space(x);
    let all = before + s;
    let n = before.len() as int;
    assert forall|i: int| 0 <= i < n implies space(#[trigger] all[i]) by {
        assert(all[i] == before[i]);
    }
    assert(all[n] == s[0]);
    lemma_leading_is(all, space, n);
    assert(all.skip(n) =~= s);
}

proof fn lemma_quoted(text: Seq<char>, rest: Seq<char>)
    requires
        free_of(text, '"'),
        free_of(text, '\\'),
    ensures
        quoted(seq!['"'] + text + seq!['"'] + rest) == Some((text, rest)),
{
    let s = seq!['"'] + text + seq!['"'] + rest;
    let n = text.len() as int;
    let tail = s.skip(1);
    assert(tail =~= text + seq!['"'] + rest);
    assert(tail[n] == '"');
    assert forall|j: int| 0 <= j < n implies #[trigger] tail[j] != '"' && tail[j] != '\\' by {
        assert(tail[j] == text[j]);
    }
    lemma_closing_quote(tail, 0, n);
    assert(tail.take(n) =~= text);
    assert(tail.skip(n + 1) =~= rest);
}

/// The results that tell of a rule that was skipped are those, in order, and the others
/// tell of one that was imported.
pub proof fn lemma_skipped(results: Seq<ParseResultView>)
    ensures
        skipped(results) == results.filter(
            |r: ParseResultView| r.status == ImportStatus::Skipped,
        ),
    decreases results.len(),
{
    reveal(Seq::filter);
    if results.len() > 0 {
        lemma_skipped(results.drop_last());
    }
}

/// The report counts the files, the rules, those imported and those skipped; then come the
/// reasons with their counts, in order, and the first twenty rules that were skipped.
/// Where there are none, that is said.
#[verifier::rlimit(40)]
pub proof fn lemma_report(n_files: int, results: Seq<ParseResultView>)
    ensures
        ({
            let left_out = results.filter(
                |r: ParseResultView| r.status == ImportStatus::Skipped,
            );
            let shown = if left_out.len() > 20 {
                left_out.take(20)
            } else {
                left_out
            };
            let reasons = tallied(left_out.map_values(|r: ParseResultView| r.reason));
            report(n_files, results) == "CRS Import Report\n"@ + ("files_scanned: "@ + decimal(
                n_files,
            ) + "\n"@) + ("rules_seen: "@ + decimal(results.len() as int) + "\n"@) + (
            "rules_imported: "@ + decimal(results.len() - left_out.len()) + "\n"@) + (
            "rules_skipped: "@ + decimal(left_out.len() as int) + "\n"@) + "skip_reasons:\n"@ + (
            if left_out.len() == 0 {
                "  - none\n"@
            } else {
                tally_lines(reasons)
            }) + "sample_skipped:\n"@ + (if left_out.len() == 0 {
                "  - none\n"@
            } else {
                sample_lines(shown)
            })
        }),
{
    lemma_skipped(results);
    let left_out = skipped(results);
    let words = left_out.map_values(|r: ParseResultView| r.reason);
    let reasons = tallied(words);
    assert(reasons_of(left_out) =~= words);
    reveal_strlit("  - ");
    if left_out.len() > 0 {
        let shown = first_twenty(left_out);
        assert(shown.len() > 0);
        lemma_some_lines(shown);
        lemma_tally(words, words.last());
        lemma_lookup_none(reasons, words.last());
        assert(reasons.len() > 0);
        lemma_some_counts(reasons);
    } else {
        assert(words =~= seq![]);
        assert(tally_lines(reasons) =~= seq![]);
        assert(first_twenty(left_out) =~= seq![]);
        assert(sample_lines(first_twenty(left_out)) =~= seq![]);
    }
}

proof fn lemma_some_lines(results: Seq<ParseResultView>)
    requires
        results.len() > 0,
    ensures
        sample_lines(results).len() > 0,
{
    reveal_strlit("  - ");
}

proof fn lemma_some_counts(tally: Seq<(Seq<char>, usize)>)
    requires
        tally.len() > 0,
    ensures
        tally_lines(tally).len() > 0,
{
    reveal_strlit("  - ");
}

/// The lines of the report: a rule with its reason, and a reason with its count, each on
/// a line of its own.
pub proof fn lemma_report_lines(
    results: Seq<ParseResultView>,
    result: ParseResultView,
    tally: Seq<(Seq<char>, usize)>,
    entry: (Seq<char>, usize),
)
    ensures
        sample_lines(results.push(result)) == sample_lines(results) + ("  - "@ + result.rule_id
            + " "@ + result.reason + "\n"@),
        tally_lines(tally.push(entry)) == tally_lines(tally) + ("  - "@ + entry.0 + ": "@ + decimal(
            entry.1 as int,
        ) + "\n"@),
        sample_lines(seq![]).len() == 0,
        tally_lines(seq![]).len() == 0,
{
    assert(results.push(result).drop_last() =~= results);
    assert(tally.push(entry).drop_last() =~= tally);
}

/// The phrase files that are needed are those that `@pmFromFile` operators name.
pub proof fn lemma_needed(stmts: Seq<Seq<char>>, statement: Seq<char>)
    ensures
        phrase_files_of(seq![]).len() == 0,
        ({
            let now = phrase_files_of(stmts.push(statement));
            match rule_pieces(statement) {
                Some(pieces) => match operator_parts(pieces.operator) {
                    Ok((name, Some(file))) => if name == "@pmFromFile"@ {
                        now == phrase_files_of(stmts).push(file)
                    } else {
                        now == phrase_files_of(stmts)
                    },
                    _ => now == phrase_files_of(stmts),
                },
                None => now == phrase_files_of(stmts),
            }
        }),
{
    assert(stmts.push(statement).drop_last() =~= stmts);
}

/// Files are imported one after the other, each with its own phrase files.
pub proof fn lemma_sources(sources: Seq<SourceView>, source: SourceView)
    ensures
        imported_from(seq![]).rules.len() == 0,
        imported_from(seq![]).results.len() == 0,
        imported_from(sources.push(source)) == with_statements(
            imported_from(sources),
            statements(source.text),
            source.phrase_files,
        ),
{
    assert(sources.push(source).drop_last() =~= sources);
}

/// An operand is taken without the whitespace around it; one that is blank or missing is
/// told, with the operator that needs it.
pub proof fn lemma_operands(operand: Seq<char>, operator: Seq<char>)
    ensures
        operand_for(None, operator) == Err::<Seq<char>, _>(ErrorView::MissingOperand(operator)),
        trim(operand).len() == 0 ==> operand_for(Some(operand), operator) == Err::<Seq<char>, _>(
            ErrorView::EmptyOperand(operator),
        ),
        trim(operand).len() > 0 ==> operand_for(Some(operand), operator) == Ok::<_, ErrorView>(
            trim(operand),
        ),
{
}

/// A phrase operator without an operand is skipped, and told by its name.
pub proof fn lemma_missing_phrases(
    p: ParsedView,
    files: Seq<(Seq<char>, PhraseFileView)>,
    name: Seq<char>,
)
    requires
        operator_parts(p.operator) == Ok::<_, ErrorView>((name, None::<Seq<char>>)),
        !contains(p.actions_raw, "chain"@),
    ensures
        p.target == "REQUEST_HEADERS:User-Agent"@ && name == "@pm"@ ==> mapped(p, files) == Err::<
            Seq<RuleConfigView>,
            _,
        >(ErrorView::PmOperand),
        p.target == "REQUEST_HEADERS:User-Agent"@ && name == "@pmFromFile"@ ==> mapped(p, files)
            == Err::<Seq<RuleConfigView>, _>(ErrorView::PmFromFileOperand),
        p.target == "REQUEST_URI"@ && (name == "@pm"@ || name == "@pmFromFile"@) ==> mapped(
            p,
            files,
        ) == Err::<Seq<RuleConfigView>, _>(ErrorView::MissingOperand(name)),
        name == "@rx"@ ==> (target_in(p.target) matches Err(e) ==> mapped(p, files) == Err::<
            Seq<RuleConfigView>,
            _,
        >(e)),
{
    reveal_strlit("@streq");
    reveal_strlit("@contains");
    reveal_strlit("@beginsWith");
    reveal_strlit("@endsWith");
    reveal_strlit("@rx");
    reveal_strlit("@ipMatch");
    reveal_strlit("@pmFromFile");
    reveal_strlit("@pm");
    reveal_strlit("REQUEST_URI");
    reveal_strlit("REQUEST_HEADERS:User-Agent");
    assert("@streq"@.len() == 6);
    assert("@contains"@.len() == 9);
    assert("@beginsWith"@.len() == 11);
    assert("@endsWith"@.len() == 9);
    assert("@rx"@.len() == 3);
    assert("@ipMatch"@.len() == 8);
    assert("@pmFromFile"@.len() == 11);
    assert("@pm"@.len() == 3);
    assert("REQUEST_URI"@.len() == 11);
    assert("REQUEST_HEADERS:User-Agent"@.len() == 26);
    assert("@pm"@[1] == 'p' && "@rx"@[1] == 'r');
    assert("@pmFromFile"@[1] == 'p' && "@beginsWith"@[1] == 'b');
    lemma_targets(p.target, seq![]);
}

} // verus!
