//! What holds of the rules whatever the request.

use vstd::prelude::*;

use crate::crs::engine::{
    condition_holds, counts, fires, first_reaching, in_use, lemma_first_reaching,
    lemma_score_grows, resolved, rule_holds, rule_message, score, skipping, values_before,
    values_of, verdict, ContextView,
};
use crate::crs::operators::{number_in, operator_matches};
use crate::crs::transforms::{compressed, decoded, escape, transformed, transformed_by, Escapes};
use crate::crs::types::{
    Action, ConditionView, OperatorView, RuleView, TransformView, VariableView,
};
use crate::number::decimal;
use crate::text::{is_ascii_space, starts_with};

verus! {

// ---------------------------------------------------------------------------
// Verdicts
// ---------------------------------------------------------------------------

/// A request is refused if and only if some rule counts against it and the
/// anomaly score of all rules reaches the threshold. The rule named is the one
/// that makes it reach the threshold: with it the score is there, and before it
/// the score is below, or no rule has counted yet.
pub proof fn lemma_verdict(rules: Seq<RuleView>, req: ContextView, level: u8, threshold: u32)
    ensures
        verdict(rules, req, level, threshold) is Some <==> score(
            rules,
            rules.len() as int,
            req,
            level,
        ) >= threshold && exists|i: int|
            0 <= i < rules.len() && #[trigger] counts(rules, i, req, level),
        verdict(rules, req, level, threshold) matches Some((id, msg)) ==> exists|i: int|
            0 <= i < rules.len() && #[trigger] counts(rules, i, req, level) && id == rules[i].id
                && msg == rule_message(rules[i]) && score(rules, i + 1, req, level) >= threshold
                && (score(rules, i, req, level) < threshold || forall|j: int|
                0 <= j < i ==> !#[trigger] counts(rules, j, req, level)),
{
    let n = rules.len() as int;
    lemma_first_reaching(rules, n, req, level, threshold);
    if let Some(i) = first_reaching(rules, n, req, level, threshold) {
        assert(counts(rules, i, req, level));
        lemma_score_grows(rules, i + 1, n, req, level, threshold);
        lemma_first_reaching(rules, i, req, level, threshold);
    }
}

/// Rules that only pass never refuse a request.
pub proof fn lemma_pass_rules_allow(
    rules: Seq<RuleView>,
    req: ContextView,
    level: u8,
    threshold: u32,
)
    requires
        forall|i: int| 0 <= i < rules.len() ==> (#[trigger] rules[i]).action == Action::Pass,
    ensures
        verdict(rules, req, level, threshold) is None,
{
    lemma_first_reaching(rules, rules.len() as int, req, level, threshold);
}

/// What a threshold refuses, a lower threshold refuses too.
pub proof fn lemma_lower_threshold(
    rules: Seq<RuleView>,
    req: ContextView,
    level: u8,
    threshold: u32,
    lower: u32,
)
    requires
        lower <= threshold,
        verdict(rules, req, level, threshold) is Some,
    ensures
        verdict(rules, req, level, lower) is Some,
{
    lemma_verdict(rules, req, level, threshold);
    lemma_verdict(rules, req, level, lower);
}

/// A rule fires only where its paranoia level, if it has one, is at most the
/// level in force.
pub proof fn lemma_fires_within_level(rules: Seq<RuleView>, i: int, req: ContextView, level: u8)
    requires
        rules[i].paranoia_level > level,
    ensures
        !fires(rules, i, req, level),
{
}

/// Every rule whose paranoia level is at most the level in force fires where it is
/// no marker, nothing is being skipped, and its own condition and every chained one
/// hold. A rule without a level has the level 0.
pub proof fn lemma_fires_up_to_level(rules: Seq<RuleView>, i: int, req: ContextView, level: u8)
    requires
        rules[i].id != 0,
        rules[i].paranoia_level <= level,
        skipping(rules, i, req, level) is None,
        condition_holds(rules[i].condition, req),
        forall|k: int|
            0 <= k < rules[i].chained.len() ==> condition_holds(
                #[trigger] rules[i].chained[k],
                req,
            ),
    ensures
        fires(rules, i, req, level),
        rules[i].action == Action::Block ==> counts(rules, i, req, level),
{
}

/// Raising the level never takes a rule out of use.
pub proof fn lemma_higher_level(rule: RuleView, level: u8, higher: u8)
    requires
        level <= higher,
        in_use(rule, level),
    ensures
        in_use(rule, higher),
{
}

/// A condition holds if and only if its operator matches, transformed, some value
/// of one of its variables.
#[verifier::rlimit(40)]
pub proof fn lemma_condition(c: ConditionView, req: ContextView)
    ensures
        condition_holds(c, req) <==> exists|k: int, j: int|
            0 <= k < c.variables.len() && 0 <= j < values_of(
                c.variables[k],
                c.variables,
                req,
            ).len() && operator_matches(
                c.operator,
                transformed_by(
                    #[trigger] values_of(c.variables[k], c.variables, req)[j],
                    c.transforms,
                ),
            ),
{
    let n = c.variables.len() as int;
    let all = resolved(c.variables, req);
    if condition_holds(c, req) {
        let i = choose|i: int|
            0 <= i < all.len() && operator_matches(
                c.operator,
                transformed_by(#[trigger] resolved(c.variables, req)[i], c.transforms),
            );
        lemma_value_from(c.variables, n, req, i);
        let (k, j) = choose|k: int, j: int|
            0 <= k < n && 0 <= j < values_of(c.variables[k], c.variables, req).len()
                && #[trigger] values_of(c.variables[k], c.variables, req)[j] == all[i];
        assert(values_of(c.variables[k], c.variables, req)[j] == all[i]);
    }
    if exists|k: int, j: int|
        0 <= k < n && 0 <= j < values_of(c.variables[k], c.variables, req).len()
            && operator_matches(
            c.operator,
            transformed_by(
                #[trigger] values_of(c.variables[k], c.variables, req)[j],
                c.transforms,
            ),
        ) {
        let (k, j) = choose|k: int, j: int|
            0 <= k < n && 0 <= j < values_of(c.variables[k], c.variables, req).len()
                && operator_matches(
                c.operator,
                transformed_by(
                    #[trigger] values_of(c.variables[k], c.variables, req)[j],
                    c.transforms,
                ),
            );
        lemma_value_among(c.variables, n, req, k, j);
        let v = values_of(c.variables[k], c.variables, req)[j];
        let i = choose|i: int| 0 <= i < all.len() && all[i] == v;
        assert(resolved(c.variables, req)[i] == v);
    }
}

proof fn lemma_value_from(vars: Seq<VariableView>, n: int, req: ContextView, i: int)
    requires
        0 <= n <= vars.len(),
        0 <= i < values_before(vars, n, req).len(),
    ensures
        exists|k: int, j: int|
            0 <= k < n && 0 <= j < values_of(vars[k], vars, req).len() && #[trigger] values_of(
                vars[k],
                vars,
                req,
            )[j] == values_before(vars, n, req)[i],
    decreases n,
{
    let head = values_before(vars, n - 1, req);
    if n > 0 {
        if i < head.len() {
            lemma_value_from(vars, n - 1, req, i);
            let (k, j) = choose|k: int, j: int|
                0 <= k < n - 1 && 0 <= j < values_of(vars[k], vars, req).len()
                    && #[trigger] values_of(vars[k], vars, req)[j] == head[i];
            assert(values_of(vars[k], vars, req)[j] == values_before(vars, n, req)[i]);
        } else {
            assert(values_of(vars[n - 1], vars, req)[i - head.len()] == values_before(
                vars,
                n,
                req,
            )[i]);
        }
    }
}

proof fn lemma_value_among(vars: Seq<VariableView>, n: int, req: ContextView, k: int, j: int)
    requires
        0 <= k < n <= vars.len(),
        0 <= j < values_of(vars[k], vars, req).len(),
    ensures
        exists|i: int|
            0 <= i < values_before(vars, n, req).len() && values_before(vars, n, req)[i]
                == values_of(vars[k], vars, req)[j],
    decreases n,
{
    let head = values_before(vars, n - 1, req);
    let v = values_of(vars[k], vars, req)[j];
    if k < n - 1 {
        lemma_value_among(vars, n - 1, req, k, j);
        let i = choose|i: int| 0 <= i < head.len() && head[i] == v;
        assert(values_before(vars, n, req)[i] == v);
    } else {
        assert(values_before(vars, n, req)[head.len() + j] == v);
    }
}

/// The values of a list of variables are those of each, in the order of the variables.
pub proof fn lemma_values_in_order(vars: Seq<VariableView>, n: int, req: ContextView)
    requires
        0 <= n < vars.len(),
    ensures
        values_before(vars, 0, req).len() == 0,
        values_before(vars, n + 1, req) == values_before(vars, n, req) + values_of(
            vars[n],
            vars,
            req,
        ),
        resolved(vars, req) == values_before(vars, vars.len() as int, req),
{
}

/// What one rule alone says: it refuses a request if and only if it is no marker,
/// its level is in force, it blocks, all its conditions hold, and its score, which is
/// five where it names none, reaches the threshold. It is then named, with its own
/// message or with one that tells its id.
#[verifier::rlimit(40)]
pub proof fn lemma_single_rule(rule: RuleView, req: ContextView, level: u8, threshold: u32)
    ensures
        ({
            let verdict = verdict(seq![rule], req, level, threshold);
            let points = match rule.anomaly_score {
                Some(n) => n,
                None => 5u32,
            };
            &&& verdict is Some <==> (rule.id != 0 && rule.paranoia_level <= level && rule.action
                == Action::Block && condition_holds(rule.condition, req) && (forall|k: int|
                0 <= k < rule.chained.len() ==> condition_holds(#[trigger] rule.chained[k], req))
                && points >= threshold)
            &&& verdict matches Some((id, msg)) ==> id == rule.id && (match rule.msg {
                Some(m) => msg == m,
                None => msg == "Rule "@ + decimal(rule.id as int) + " matched"@,
            })
        }),
{
    let rules = seq![rule];
    reveal_with_fuel(score, 2);
    reveal_with_fuel(first_reaching, 2);
    assert(skipping(rules, 0, req, level) is None);
    assert(rules[0] == rule);
    assert(counts(rules, 0, req, level) <==> rule.id != 0 && rule.paranoia_level <= level
        && rule.action == Action::Block && rule_holds(rule, req));
}

/// Nothing is skipped at the start; and where rules are skipped up to a marker, a
/// pass rule that named it has fired before, and the marker has not come since.
pub proof fn lemma_skip_reason(rules: Seq<RuleView>, n: int, req: ContextView, level: u8)
    requires
        0 <= n,
    ensures
        n == 0 ==> skipping(rules, n, req, level) is None,
        skipping(rules, n, req, level) matches Some(name) ==> exists|k: int|
            0 <= k < n && #[trigger] fires(rules, k, req, level) && rules[k].action == Action::Pass
                && rules[k].skip_after == Some(name) && forall|j: int|
                k < j < n ==> !((#[trigger] rules[j]).id == 0 && rules[j].skip_after == Some(name)),
    decreases n,
{
    if n > 0 {
        lemma_skip_reason(rules, n - 1, req, level);
        let before = skipping(rules, n - 1, req, level);
        let now = skipping(rules, n, req, level);
        if now is Some {
            if before == now {
                let name = now->0;
                let k = choose|k: int|
                    0 <= k < n - 1 && #[trigger] fires(rules, k, req, level) && rules[k].action
                        == Action::Pass && rules[k].skip_after == Some(name) && forall|j: int|
                        k < j < n - 1 ==> !((#[trigger] rules[j]).id == 0 && rules[j].skip_after
                            == Some(name));
                assert(fires(rules, k, req, level));
            } else {
                assert(fires(rules, n - 1, req, level));
            }
        }
    }
}

/// A rule that blocks and fires adds its score, five where it names none; no other
/// rule adds anything.
pub proof fn lemma_score_step(rules: Seq<RuleView>, i: int, req: ContextView, level: u8)
    requires
        0 <= i,
    ensures
        score(rules, 0, req, level) == 0,
        fires(rules, i, req, level) && rules[i].action == Action::Block ==> score(
            rules,
            i + 1,
            req,
            level,
        ) == score(rules, i, req, level) + (match rules[i].anomaly_score {
            Some(n) => n as int,
            None => 5int,
        }),
        !fires(rules, i, req, level) || rules[i].action == Action::Pass ==> score(
            rules,
            i + 1,
            req,
            level,
        ) == score(rules, i, req, level),
{
}

/// A rule fires only where its own condition and every chained one hold.
pub proof fn lemma_fires_whole_chain(
    rules: Seq<RuleView>,
    i: int,
    req: ContextView,
    level: u8,
    k: int,
)
    requires
        fires(rules, i, req, level),
        0 <= k < rules[i].chained.len(),
    ensures
        condition_holds(rules[i].condition, req),
        condition_holds(rules[i].chained[k], req),
{
}

/// After a pass rule with a `skipAfter` has fired, no rule fires up to the
/// marker that it names.
pub proof fn lemma_skip_after(
    rules: Seq<RuleView>,
    i: int,
    j: int,
    req: ContextView,
    level: u8,
)
    requires
        0 <= i < j,
        fires(rules, i, req, level),
        rules[i].action == Action::Pass,
        rules[i].skip_after is Some,
        forall|k: int|
            i < k < j ==> !((#[trigger] rules[k]).id == 0 && rules[k].skip_after
                == rules[i].skip_after),
    ensures
        skipping(rules, j, req, level) == rules[i].skip_after,
        !fires(rules, j, req, level),
    decreases j,
{
    if j > i + 1 {
        lemma_skip_after(rules, i, j - 1, req, level);
        assert(!(rules[j - 1].id == 0 && rules[j - 1].skip_after == rules[i].skip_after));
    }
}

/// Skipping ends at the marker: behind it rules can fire again.
pub proof fn lemma_skip_ends(rules: Seq<RuleView>, i: int, req: ContextView, level: u8)
    requires
        0 <= i,
        rules[i].id == 0,
        skipping(rules, i, req, level) == rules[i].skip_after,
    ensures
        skipping(rules, i + 1, req, level) is None,
{
}

proof fn lemma_same_prefix(
    rules: Seq<RuleView>,
    more: Seq<RuleView>,
    n: int,
    req: ContextView,
    level: u8,
    threshold: u32,
)
    requires
        0 <= n <= rules.len(),
    ensures
        skipping(rules + more, n, req, level) == skipping(rules, n, req, level),
        score(rules + more, n, req, level) == score(rules, n, req, level),
        first_reaching(rules + more, n, req, level, threshold) == first_reaching(
            rules,
            n,
            req,
            level,
            threshold,
        ),
    decreases n,
{
    if n > 0 {
        lemma_same_prefix(rules, more, n - 1, req, level, threshold);
        assert((rules + more)[n - 1] == rules[n - 1]);
    }
}

/// What some rules refuse stays refused, in the same words, whatever rules
/// stand behind them.
pub proof fn lemma_more_rules(
    rules: Seq<RuleView>,
    more: Seq<RuleView>,
    req: ContextView,
    level: u8,
    threshold: u32,
)
    requires
        verdict(rules, req, level, threshold) is Some,
    ensures
        verdict(rules + more, req, level, threshold) == verdict(rules, req, level, threshold),
{
    let n = rules.len() as int;
    lemma_same_prefix(rules, more, n, req, level, threshold);
    lemma_score_grows(rules + more, n, (rules + more).len() as int, req, level, threshold);
    lemma_first_reaching(rules, n, req, level, threshold);
    let i = first_reaching(rules, n, req, level, threshold)->0;
    assert((rules + more)[i] == rules[i]);
}

proof fn lemma_without(
    rules: Seq<RuleView>,
    k: int,
    n: int,
    req: ContextView,
    level: u8,
    threshold: u32,
)
    requires
        0 <= k < rules.len(),
        rules[k].id != 0,
        !(in_use(rules[k], level) && rule_holds(rules[k], req)),
        0 <= n <= rules.len(),
    ensures
        ({
            let rest = rules.remove(k);
            let m = if n <= k {
                n
            } else {
                n - 1
            };
            &&& skipping(rest, m, req, level) == skipping(rules, n, req, level)
            &&& score(rest, m, req, level) == score(rules, n, req, level)
            &&& first_reaching(rest, m, req, level, threshold) == (match first_reaching(
                rules,
                n,
                req,
                level,
                threshold,
            ) {
                Some(i) => Some(
                    if i < k {
                        i
                    } else {
                        i - 1
                    },
                ),
                None => None::<int>,
            })
            &&& first_reaching(rules, n, req, level, threshold) != Some(k)
        }),
    decreases n,
{
    if n > 0 {
        lemma_without(rules, k, n - 1, req, level, threshold);
        let rest = rules.remove(k);
        if n <= k {
            assert(rest[n - 1] == rules[n - 1]);
        } else if n > k + 1 {
            assert(rest[n - 2] == rules[n - 1]);
        } else {
            assert(!fires(rules, k, req, level));
        }
    }
}

/// A rule that is not in use at the level in force, or that does not match,
/// makes no difference: without it the verdict is the same.
pub proof fn lemma_silent_rule(
    rules: Seq<RuleView>,
    k: int,
    req: ContextView,
    level: u8,
    threshold: u32,
)
    requires
        0 <= k < rules.len(),
        rules[k].id != 0,
        !(in_use(rules[k], level) && rule_holds(rules[k], req)),
    ensures
        verdict(rules.remove(k), req, level, threshold) == verdict(rules, req, level, threshold),
{
    let n = rules.len() as int;
    lemma_without(rules, k, n, req, level, threshold);
    lemma_first_reaching(rules, n, req, level, threshold);
    match first_reaching(rules, n, req, level, threshold) {
        Some(i) => {
            if i < k {
                assert(rules.remove(k)[i] == rules[i]);
            } else {
                assert(rules.remove(k)[i - 1] == rules[i]);
            }
        },
        None => {},
    }
}

// ---------------------------------------------------------------------------
// Operators
// ---------------------------------------------------------------------------

/// A negated operator matches exactly where the operator does not.
pub proof fn lemma_negated(op: OperatorView, value: Seq<char>)
    ensures
        operator_matches(OperatorView::Negated(Box::new(op)), value) == !operator_matches(
            op,
            value,
        ),
{
}

/// Of a value that writes a number, exactly one of `@lt n` and `@ge n` matches,
/// and exactly one of `@le n` and `@gt n`; of any other value, none does.
pub proof fn lemma_comparisons(n: int, value: Seq<char>)
    ensures
        number_in(value) is Some ==> operator_matches(OperatorView::Lt(n), value)
            == !operator_matches(OperatorView::Ge(n), value),
        number_in(value) is Some ==> operator_matches(OperatorView::Le(n), value)
            == !operator_matches(OperatorView::Gt(n), value),
        number_in(value) is None ==> !operator_matches(OperatorView::Lt(n), value)
            && !operator_matches(OperatorView::Le(n), value) && !operator_matches(
            OperatorView::Ge(n),
            value,
        ) && !operator_matches(OperatorView::Gt(n), value),
{
}

// ---------------------------------------------------------------------------
// Transformations
// ---------------------------------------------------------------------------

/// Transformations apply one after the other: a list of them in two parts does
/// what the second part does to the result of the first.
pub proof fn lemma_transforms_compose(
    s: Seq<char>,
    first: Seq<TransformView>,
    second: Seq<TransformView>,
)
    ensures
        transformed_by(s, first + second) == transformed_by(transformed_by(s, first), second),
    decreases second.len(),
{
    if second.len() == 0 {
        assert(first + second =~= first);
    } else {
        lemma_transforms_compose(s, first, second.drop_last());
        assert((first + second).drop_last() =~= first + second.drop_last());
    }
}

/// One transformation does what it does alone, and none does nothing.
pub proof fn lemma_transform_alone(s: Seq<char>, t: TransformView)
    ensures
        transformed_by(s, seq![]) == s,
        transformed_by(s, seq![t]) == transformed(s, t),
{
    assert(seq![t].drop_last() =~= seq![]);
    assert(transformed_by(s, seq![t].drop_last()) == s);
}

/// A character that an escape can start with.
pub open spec fn introduces(kind: Escapes, c: char) -> bool {
    match kind {
        Escapes::Url => c == '%',
        Escapes::Form => c == '%' || c == '+',
        Escapes::Html => c == '&',
        Escapes::Js | Escapes::Css => c == '\\',
    }
}

/// Decoding leaves a text as it is that holds no character with which an
/// escape starts.
pub proof fn lemma_plain_text(kind: Escapes, s: Seq<char>)
    requires
        forall|i: int| 0 <= i < s.len() ==> !introduces(kind, #[trigger] s[i]),
    ensures
        decoded(kind, s) == s,
    decreases s.len(),
{
    if s.len() > 0 {
        reveal_strlit("&lt;");
        reveal_strlit("&gt;");
        reveal_strlit("&amp;");
        reveal_strlit("&quot;");
        reveal_strlit("&apos;");
        reveal_strlit("&#x");
        reveal_strlit("&#X");
        reveal_strlit("&#");
        let c = s[0];
        assert(!introduces(kind, c));
        assert(forall|p: Seq<char>| #[trigger]
            starts_with(s, p) && p.len() > 0 ==> p[0] == c) by {
            assert forall|p: Seq<char>| #[trigger] starts_with(s, p) && p.len() > 0 implies p[0]
                == c by {
                assert(p[0] == s.take(p.len() as int)[0]);
            }
        }
        assert(escape(kind, s) is None);
        lemma_plain_text(kind, s.skip(1));
        assert(seq![s[0]] + s.skip(1) =~= s);
    }
}

proof fn lemma_compressed(s: Seq<char>)
    ensures
        forall|i: int|
            0 <= i < compressed(s).len() ==> (is_ascii_space(#[trigger] compressed(s)[i])
                ==> compressed(s)[i] == ' '),
        forall|i: int|
            0 < i < compressed(s).len() ==> !(is_ascii_space(#[trigger] compressed(s)[i])
                && is_ascii_space(compressed(s)[i - 1])),
        s.len() > 0 ==> compressed(s).len() > 0 && is_ascii_space(compressed(s).last())
            == is_ascii_space(s.last()),
    decreases s.len(),
{
    if s.len() > 0 {
        let before = s.drop_last();
        let head = compressed(before);
        lemma_compressed(before);
        let c = compressed(s);
        assert forall|i: int| 0 <= i < c.len() && is_ascii_space(#[trigger] c[i]) implies c[i]
            == ' ' by {
            if i < head.len() {
                assert(c[i] == head[i]);
            }
        }
        assert forall|i: int| 0 < i < c.len() implies !(is_ascii_space(#[trigger] c[i])
            && is_ascii_space(c[i - 1])) by {
            assert(c[i - 1] == head[i - 1]);
            if i < head.len() {
                assert(c[i] == head[i]);
            } else {
                assert(before.last() == s[s.len() - 2]);
            }
        }
    }
}

proof fn lemma_compressed_fixed(s: Seq<char>)
    requires
        forall|i: int| 0 <= i < s.len() ==> (is_ascii_space(#[trigger] s[i]) ==> s[i] == ' '),
        forall|i: int|
            0 < i < s.len() ==> !(is_ascii_space(#[trigger] s[i]) && is_ascii_space(s[i - 1])),
    ensures
        compressed(s) == s,
    decreases s.len(),
{
    if s.len() > 0 {
        let head = s.drop_last();
        assert forall|i: int| 0 <= i < head.len() && is_ascii_space(#[trigger] head[i]) implies
            head[i] == ' ' by {
            assert(head[i] == s[i]);
        }
        assert forall|i: int| 0 < i < head.len() implies !(is_ascii_space(#[trigger] head[i])
            && is_ascii_space(head[i - 1])) by {
            assert(head[i] == s[i]);
        }
        lemma_compressed_fixed(head);
        assert(is_ascii_space(s[s.len() - 1]) ==> s[s.len() - 1] == ' ');
        assert(head.push(s.last()) =~= s);
    } else {
        assert(compressed(s) =~= s);
    }
}

/// Compressing whitespace a second time changes nothing.
pub proof fn lemma_compress_twice(s: Seq<char>)
    ensures
        transformed(
            transformed(s, TransformView::CompressWhitespace),
            TransformView::CompressWhitespace,
        ) == transformed(s, TransformView::CompressWhitespace),
{
    lemma_compressed(s);
    lemma_compressed_fixed(compressed(s));
}

proof fn lemma_filter_twice(s: Seq<char>, keep: spec_fn(char) -> bool)
    ensures
        s.filter(keep).filter(keep) == s.filter(keep),
    decreases s.len(),
{
    reveal(Seq::filter);
    if s.len() > 0 {
        lemma_filter_twice(s.drop_last(), keep);
        let head = s.drop_last().filter(keep);
        if keep(s.last()) {
            assert(head.push(s.last()).drop_last() =~= head);
        }
    }
}

/// Removing nulls or whitespace a second time changes nothing.
pub proof fn lemma_remove_twice(s: Seq<char>)
    ensures
        transformed(transformed(s, TransformView::RemoveNulls), TransformView::RemoveNulls)
            == transformed(s, TransformView::RemoveNulls),
        transformed(
            transformed(s, TransformView::RemoveWhitespace),
            TransformView::RemoveWhitespace,
        ) == transformed(s, TransformView::RemoveWhitespace),
{
    lemma_filter_twice(s, |c: char| c != '\0');
    lemma_filter_twice(s, |c: char| !is_ascii_space(c));
}

} // verus!
