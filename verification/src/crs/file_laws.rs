//! What holds of the reading of rule files.

use vstd::prelude::*;
use vstd::utf8::{is_ascii_chars, is_ascii_chars_encode_utf8, is_ascii_chars_nat_bound};

use crate::crs::parser::{
    action_parts, action_texts, closed_rules, directive_in, joined, last_block, lemma_idle_line,
    logical_lines, read_lines, rules_in, DirectiveView, Reading,
};
use crate::crs::types::{Action, RuleView};
use crate::text::{
    before_char, byte_chars, is_space, leading, lemma_leading_bounds, lemma_leading_is,
    lemma_trailing_bounds, lemma_trailing_is, lines, not_char, starts_with, trailing, trim,
    trim_start, without_cr,
};
use crate::text_laws::{free_of, lemma_line};

verus! {

// ---------------------------------------------------------------------------
// Lines
// ---------------------------------------------------------------------------

/// A rule without quotation marks cannot be read.
pub proof fn lemma_unquoted_rule(line: Seq<char>)
    requires
        starts_with(trim(line), "SecRule"@),
        forall|i: int| 0 <= i < line.len() ==> #[trigger] line[i] != '"',
    ensures
        directive_in(line) is Nothing,
{
    let t = trim(line);
    reveal_strlit("SecRule");
    reveal_strlit("SecMarker");
    assert(t.take(7)[3] == 'R');
    assert(starts_with(t, "SecMarker"@) ==> t.take(9)[3] == 'M');
    lemma_trim_within(line);
    let rest = t.skip(7);
    lemma_trim_within(rest);
    let body = trim(rest);
    lemma_trim_within(body);
    let input = trim(body);
    assert forall|i: int| 0 <= i < input.len() implies #[trigger] input[i] != '"' by {
        assert(body.contains(input[i]));
        assert(rest.contains(input[i]));
        let j = choose|j: int| 0 <= j < rest.len() && rest[j] == input[i];
        assert(t[j + 7] == input[i]);
        assert(t.contains(input[i]));
        assert(line.contains(input[i]));
    }
    lemma_trailing_is(input, not_char('"'), input.len() as int);
    assert(last_block(input) is None);
}

proof fn lemma_trim_within(s: Seq<char>)
    ensures
        forall|i: int| 0 <= i < trim(s).len() ==> s.contains(#[trigger] trim(s)[i]),
{
    let space = |x: char| is_space(x);
    lemma_leading_bounds(s, space);
    let a = trim_start(s);
    lemma_trailing_bounds(a, space);
    assert forall|i: int| 0 <= i < trim(s).len() implies s.contains(#[trigger] trim(s)[i]) by {
        assert(trim(s)[i] == s[i + leading(s, space)]);
    }
}

/// A text that is empty or ends with a line feed keeps its lines, whatever stands
/// behind it.
proof fn lemma_lines_behind(a: Seq<char>, b: Seq<char>)
    requires
        a.len() > 0 ==> a.last() == '\n',
    ensures
        lines(a + b) == lines(a) + lines(b),
    decreases a.len(),
{
    if a.len() == 0 {
        assert(a + b =~= b);
        assert(lines(a) + lines(b) =~= lines(b));
    } else {
        let n = before_char(a, '\n');
        lemma_leading_bounds(a, not_char('\n'));
        assert(n < a.len()) by {
            if n >= a.len() {
                assert(not_char('\n')(a[a.len() - 1]));
            }
        }
        let all = a + b;
        assert forall|i: int| 0 <= i < n implies not_char('\n')(#[trigger] all[i]) by {
            assert(all[i] == a[i]);
        }
        assert(all[n] == a[n]);
        lemma_leading_is(all, not_char('\n'), n);
        assert(all.take(n) =~= a.take(n));
        let rest = a.skip(n + 1);
        assert(all.skip(n + 1) =~= rest + b);
        if rest.len() > 0 {
            assert(rest.last() == a.last());
        }
        lemma_lines_behind(rest, b);
        assert(lines(a + b) =~= lines(a) + lines(b));
    }
}

/// Whether a line goes on with the next one.
pub open spec fn continued(line: Seq<char>) -> bool {
    line.len() > 0 && line.last() == '\\'
}

/// Lines that end with one that is not continued are joined among themselves.
proof fn lemma_joined_behind(ls: Seq<Seq<char>>, more: Seq<Seq<char>>, pending: Seq<char>)
    requires
        ls.len() > 0,
        !continued(ls.last()),
    ensures
        joined(ls + more, pending) == joined(ls, pending) + joined(more, seq![]),
    decreases ls.len(),
{
    let all = ls + more;
    let rest = ls.skip(1);
    assert(all[0] == ls[0]);
    assert(all.skip(1) =~= rest + more);
    if ls.len() == 1 {
        assert(ls.last() == ls[0]);
        assert(rest + more =~= more);
        assert(joined(ls, pending) =~= seq![pending + ls[0]]);
    } else {
        assert(rest.last() == ls.last());
        if continued(ls[0]) {
            lemma_joined_behind(rest, more, pending + ls[0].drop_last() + seq![' ']);
        } else {
            lemma_joined_behind(rest, more, seq![]);
            assert(joined(all, pending) =~= joined(ls, pending) + joined(more, seq![]));
        }
    }
}

/// A carriage return at the end of a line makes no difference to its directive.
proof fn lemma_directive_without_cr(line: Seq<char>)
    ensures
        directive_in(without_cr(line)) == directive_in(line),
{
    let short = without_cr(line);
    if short != line {
        let space = |x: char| is_space(x);
        let p = leading(line, space);
        lemma_leading_bounds(line, space);
        assert(short =~= line.drop_last());
        assert(is_space(line.last()));
        if p >= line.len() {
            assert forall|i: int| 0 <= i < short.len() implies space(#[trigger] short[i]) by {
                assert(short[i] == line[i]);
            }
            lemma_leading_is(short, space, short.len() as int);
            assert(trim_start(line) =~= seq![]);
            assert(trim_start(short) =~= seq![]);
        } else {
            assert(p < short.len()) by {
                if p == line.len() - 1 {
                    assert(!space(line[p]));
                }
            }
            assert forall|i: int| 0 <= i < p implies space(#[trigger] short[i]) by {
                assert(short[i] == line[i]);
            }
            assert(short[p] == line[p]);
            lemma_leading_is(short, space, p);
            let a = trim_start(line);
            let b = trim_start(short);
            assert(a.drop_last() =~= b);
            assert(space(a.last()));
            assert(trailing(a, space) == 1 + trailing(b, space));
            lemma_trailing_bounds(b, space);
            assert(trim(line) =~= trim(short));
        }
    }
}

/// A blank line, a comment or a rule that cannot be read, put between two lines
/// of a file, makes no difference, not even between a rule and its chain.
#[verifier::rlimit(40)]
pub proof fn lemma_idle_text(before: Seq<char>, line: Seq<char>, after: Seq<char>)
    requires
        before.len() > 0 ==> before.last() == '\n' && !continued(lines(before).last()),
        forall|i: int| 0 <= i < line.len() ==> #[trigger] line[i] != '\n',
        !continued(without_cr(line)),
        directive_in(line) is Nothing,
    ensures
        rules_in(before + line + seq!['\n'] + after) == rules_in(before + after),
{
    let x = line + seq!['\n'];
    let n = line.len() as int;
    assert forall|i: int| 0 <= i < n implies not_char('\n')(#[trigger] x[i]) by {
        assert(x[i] == line[i]);
    }
    lemma_leading_is(x, not_char('\n'), n);
    assert(x.take(n) =~= line);
    assert(x.skip(n + 1) =~= seq![]);
    let own = seq![without_cr(line)];
    assert(lines(x.skip(n + 1)) =~= seq![]);
    assert(lines(x) =~= own);
    assert(before + line + seq!['\n'] + after =~= before + (x + after));
    lemma_lines_behind(before, x + after);
    lemma_lines_behind(x, after);
    lemma_lines_behind(before, after);
    lemma_joined_behind(own, lines(after), seq![]);
    assert(joined(own, seq![]) =~= own) by {
        assert(own.skip(1) =~= seq![]);
        assert(joined(own.skip(1), seq![]) =~= seq![]);
        assert(Seq::<char>::empty() + own[0] =~= own[0]);
        assert(!continued(own[0]));
    }
    let front = logical_lines(before);
    let back = logical_lines(after);
    if before.len() > 0 {
        lemma_joined_behind(lines(before), own + lines(after), seq![]);
        lemma_joined_behind(lines(before), lines(after), seq![]);
    } else {
        assert(front =~= seq![]);
        assert(lines(before) + (own + lines(after)) =~= own + lines(after));
        assert(lines(before) + lines(after) =~= lines(after));
        assert(front + back =~= back);
        assert(front + (own + back) =~= own + back);
    }
    let ls = front + (own + back);
    let k = front.len() as int;
    lemma_directive_without_cr(line);
    assert(ls[k] == own[0]);
    assert(ls.remove(k) =~= front + back);
    lemma_idle_line(ls, k);
}

// ---------------------------------------------------------------------------
// Rules and chains
// ---------------------------------------------------------------------------

/// Lines as they are written to a file, each with a line feed behind it.
pub open spec fn written_lines(ls: Seq<Seq<char>>) -> Seq<char>
    decreases ls.len(),
{
    if ls.len() == 0 {
        seq![]
    } else {
        ls[0] + seq!['\n'] + written_lines(ls.skip(1))
    }
}

/// A line that can be written as it is: without line feeds, and with neither a
/// backslash nor a carriage return at its end.
pub open spec fn is_line(s: Seq<char>) -> bool {
    &&& free_of(s, '\n')
    &&& s.len() > 0 ==> s.last() != '\r' && s.last() != '\\'
}

/// The lines that are written to a file are those that are read from it.
pub proof fn lemma_written_lines(ls: Seq<Seq<char>>)
    requires
        forall|i: int| 0 <= i < ls.len() ==> is_line(#[trigger] ls[i]),
    ensures
        logical_lines(written_lines(ls)) == ls,
    decreases ls.len(),
{
    if ls.len() > 0 {
        let line = ls[0];
        let rest = ls.skip(1);
        assert(is_line(line));
        assert forall|i: int| 0 <= i < rest.len() implies is_line(#[trigger] rest[i]) by {
            assert(rest[i] == ls[i + 1]);
        }
        lemma_written_lines(rest);
        lemma_line(line, written_lines(rest));
        let all = seq![line] + lines(written_lines(rest));
        assert(all[0] == line);
        assert(all.skip(1) =~= lines(written_lines(rest)));
        assert(Seq::<char>::empty() + line =~= line);
        assert(seq![line] + rest =~= ls);
    } else {
        lemma_line(seq![], seq![]);
        assert(lines(written_lines(ls)) =~= seq![]);
        assert(logical_lines(written_lines(ls)) =~= ls);
    }
}

/// The rule and whether the next one is chained to it, on each of the lines.
pub open spec fn are_rules(
    ls: Seq<Seq<char>>,
    rules: Seq<RuleView>,
    chains: Seq<bool>,
) -> bool {
    &&& rules.len() == ls.len()
    &&& chains.len() == ls.len()
    &&& forall|i: int|
        0 <= i < ls.len() ==> directive_in(#[trigger] ls[i]) == DirectiveView::Rule(
            rules[i],
            chains[i],
        )
}

/// The first of the rules, with the conditions of all the others chained to it in
/// order.
pub open spec fn one_rule(rules: Seq<RuleView>) -> RuleView {
    RuleView {
        chained: Seq::new((rules.len() - 1) as nat, |i: int| rules[i + 1].condition),
        ..rules[0]
    }
}

/// A run of rules of which each but the last has the action `chain` reads as
/// exactly one rule: that of the first, with the conditions of the others chained
/// to it in order. What was read before stays.
#[verifier::rlimit(40)]
pub proof fn lemma_chain(
    before: Seq<Seq<char>>,
    run: Seq<Seq<char>>,
    rules: Seq<RuleView>,
    chains: Seq<bool>,
)
    requires
        read_lines(before).open is None,
        run.len() > 0,
        are_rules(run, rules, chains),
        forall|i: int| 0 <= i < run.len() ==> #[trigger] chains[i] == (i < run.len() - 1),
    ensures
        read_lines(before + run) == (Reading {
            rules: read_lines(before).rules.push(one_rule(rules)),
            open: None,
        }),
        rules[0].chained.len() == 0,
{
    let k = run.len() - 1;
    lemma_open_chain(before, run, rules, chains, k);
    assert(run.take(k) =~= run.drop_last());
    assert((before + run).drop_last() =~= before + run.take(k));
    assert((before + run).last() == run[k]);
    assert(directive_in(run[0]) == DirectiveView::Rule(rules[0], chains[0]));
    assert(directive_in(run[k]) == DirectiveView::Rule(rules[k], chains[k]));
    assert(chains[k] == false);
    if k > 0 {
        let part = rules.take(k);
        assert(one_rule(part).chained.push(rules[k].condition) =~= one_rule(rules).chained);
        assert(part[0] == rules[0]);
    } else {
        assert(one_rule(rules).chained =~= rules[0].chained);
    }
}

#[verifier::rlimit(40)]
proof fn lemma_open_chain(
    before: Seq<Seq<char>>,
    run: Seq<Seq<char>>,
    rules: Seq<RuleView>,
    chains: Seq<bool>,
    n: int,
)
    requires
        read_lines(before).open is None,
        run.len() > 0,
        are_rules(run, rules, chains),
        forall|i: int| 0 <= i < run.len() ==> #[trigger] chains[i] == (i < run.len() - 1),
        0 <= n < run.len(),
    ensures
        rules[0].chained =~= seq![],
        read_lines(before + run.take(n)).rules == read_lines(before).rules,
        n == 0 ==> read_lines(before + run.take(n)).open is None,
        n > 0 ==> read_lines(before + run.take(n)).open == Some(one_rule(rules.take(n))),
    decreases n,
{
    assert(directive_in(run[0]) == DirectiveView::Rule(rules[0], chains[0]));
    if n == 0 {
        assert(before + run.take(0) =~= before);
    } else {
        lemma_open_chain(before, run, rules, chains, n - 1);
        let now = before + run.take(n);
        assert(now.drop_last() =~= before + run.take(n - 1));
        assert(now.last() == run[n - 1]);
        assert(directive_in(run[n - 1]) == DirectiveView::Rule(rules[n - 1], chains[n - 1]));
        assert(chains[n - 1]);
        let part = rules.take(n);
        assert(part[0] == rules[0]);
        if n > 1 {
            let shorter = rules.take(n - 1);
            assert(shorter[0] == rules[0]);
            assert(one_rule(shorter).chained.push(rules[n - 1].condition)
                =~= one_rule(part).chained);
        } else {
            assert(one_rule(part).chained =~= rules[0].chained);
        }
    }
}

/// A file that holds one such run holds one rule.
pub proof fn lemma_chain_file(run: Seq<Seq<char>>, rules: Seq<RuleView>, chains: Seq<bool>)
    requires
        run.len() > 0,
        are_rules(run, rules, chains),
        forall|i: int| 0 <= i < run.len() ==> #[trigger] chains[i] == (i < run.len() - 1),
        forall|i: int| 0 <= i < run.len() ==> is_line(#[trigger] run[i]),
    ensures
        rules_in(written_lines(run)) == seq![one_rule(rules)],
{
    let none = Seq::<Seq<char>>::empty();
    lemma_written_lines(run);
    lemma_chain(none, run, rules, chains);
    assert(none + run =~= run);
    assert(rules_in(written_lines(run)) =~= seq![one_rule(rules)]);
}

/// A file whose rules are not chained holds them all, in order.
pub proof fn lemma_unchained_file(ls: Seq<Seq<char>>, rules: Seq<RuleView>, chains: Seq<bool>)
    requires
        are_rules(ls, rules, chains),
        forall|i: int| 0 <= i < ls.len() ==> !#[trigger] chains[i],
        forall|i: int| 0 <= i < ls.len() ==> is_line(#[trigger] ls[i]),
    ensures
        rules_in(written_lines(ls)) == rules,
{
    lemma_written_lines(ls);
    lemma_unchained(ls, rules, chains, ls.len() as int);
    assert(ls.take(ls.len() as int) =~= ls);
    assert(rules.take(ls.len() as int) =~= rules);
}

proof fn lemma_unchained(
    ls: Seq<Seq<char>>,
    rules: Seq<RuleView>,
    chains: Seq<bool>,
    n: int,
)
    requires
        are_rules(ls, rules, chains),
        forall|i: int| 0 <= i < ls.len() ==> !#[trigger] chains[i],
        0 <= n <= ls.len(),
    ensures
        read_lines(ls.take(n)) == (Reading { rules: rules.take(n), open: None }),
    decreases n,
{
    if n == 0 {
        assert(read_lines(ls.take(0)).rules =~= rules.take(0));
    } else {
        lemma_unchained(ls, rules, chains, n - 1);
        assert(ls.take(n).drop_last() =~= ls.take(n - 1));
        assert(directive_in(ls[n - 1]) == DirectiveView::Rule(rules[n - 1], chains[n - 1]));
        assert(!chains[n - 1]);
        assert(rules.take(n - 1).push(rules[n - 1]) =~= rules.take(n));
    }
}

/// A chain that is not continued is kept as far as it goes: a marker or any other
/// directive ends it, and so does the end of the file. A marker comes behind it, as a
/// rule with the id 0 that blocks nothing and carries the name.
pub proof fn lemma_chain_ends(before: Seq<Seq<char>>, line: Seq<char>, open: RuleView)
    requires
        read_lines(before).open == Some(open),
    ensures
        directive_in(line) is Other ==> read_lines(before.push(line)) == (Reading {
            rules: read_lines(before).rules.push(open),
            open: None,
        }),
        directive_in(line) matches DirectiveView::Marker(name) ==> {
            let r = read_lines(before.push(line));
            &&& r.open is None
            &&& r.rules.len() == read_lines(before).rules.len() + 2
            &&& r.rules.take(r.rules.len() - 2) == read_lines(before).rules
            &&& r.rules[r.rules.len() - 2] == open
            &&& r.rules.last().id == 0
            &&& r.rules.last().skip_after == Some(name)
            &&& r.rules.last().action == Action::Pass
            &&& r.rules.last().condition.variables.len() == 0
            &&& r.rules.last().paranoia_level == 0
        },
        closed_rules(read_lines(before)) == read_lines(before).rules.push(open),
{
    assert(before.push(line).drop_last() =~= before);
    if let DirectiveView::Marker(name) = directive_in(line) {
        let r = read_lines(before.push(line));
        assert(r.rules.take(r.rules.len() - 2) =~= read_lines(before).rules);
    }
}

/// A marker outside a chain is one more rule, with the id 0 and the name; any other
/// directive is none.
pub proof fn lemma_marker(before: Seq<Seq<char>>, line: Seq<char>)
    requires
        read_lines(before).open is None,
    ensures
        directive_in(line) is Other ==> read_lines(before.push(line)) == read_lines(before),
        directive_in(line) matches DirectiveView::Marker(name) ==> {
            let r = read_lines(before.push(line));
            &&& r.open is None
            &&& r.rules.drop_last() == read_lines(before).rules
            &&& r.rules.last().id == 0
            &&& r.rules.last().skip_after == Some(name)
            &&& r.rules.last().action == Action::Pass
            &&& r.rules.last().condition.variables.len() == 0
            &&& r.rules.last().paranoia_level == 0
        },
{
    assert(before.push(line).drop_last() =~= before);
    if let DirectiveView::Marker(name) = directive_in(line) {
        let r = read_lines(before.push(line));
        assert(r.rules.drop_last() =~= read_lines(before).rules);
    }
}

/// A line that continues joins the next one, with a space in place of the backslash.
pub proof fn lemma_continued_line(a: Seq<char>, b: Seq<char>)
    requires
        free_of(a, '\n'),
        is_line(b),
        b.len() > 0,
    ensures
        logical_lines(a + seq!['\\', '\n'] + b) == seq![a + seq![' '] + b],
{
    let first = a.push('\\');
    assert(a + seq!['\\', '\n'] + b =~= first + seq!['\n'] + b);
    assert forall|i: int| 0 <= i < first.len() implies #[trigger] first[i] != '\n' by {}
    lemma_line(first, b);
    lemma_line(b, seq![]);
    let ls = seq![first, b];
    assert(seq![first] + seq![b] =~= ls);
    assert(first.drop_last() =~= a);
    assert(ls[0].last() == '\\');
    assert(ls.skip(1) =~= seq![b]);
    let none = Seq::<char>::empty();
    assert(none + first.drop_last() + seq![' '] =~= a + seq![' ']);
    assert(seq![b].skip(1) =~= seq![]);
    assert(joined(seq![b].skip(1), seq![]) =~= seq![]);
    assert(joined(seq![b], a + seq![' ']) =~= seq![a + seq![' '] + b]);
}

// ---------------------------------------------------------------------------
// Action lists
// ---------------------------------------------------------------------------

/// The character at place `i` of `s` is a comma that separates two actions: it
/// stands outside quotation marks, and no backslash takes it along. `single` and
/// `double` say whether `s` begins within such marks.
pub open spec fn separates(s: Seq<char>, i: int, single: bool, double: bool) -> bool
    decreases s.len(),
{
    if s.len() == 0 || i < 0 {
        false
    } else {
        let c = s[0];
        if c == '\'' && !double {
            separates(s.skip(1), i - 1, !single, double)
        } else if c == '"' && !single {
            separates(s.skip(1), i - 1, single, !double)
        } else if c == '\\' && s.len() > 1 {
            separates(s.skip(2), i - 2, single, double)
        } else if c == ',' && !single && !double {
            i == 0 || separates(s.skip(1), i - 1, single, double)
        } else {
            separates(s.skip(1), i - 1, single, double)
        }
    }
}

/// Texts with commas between them.
pub open spec fn with_commas(parts: Seq<Seq<char>>) -> Seq<char>
    decreases parts.len(),
{
    if parts.len() == 0 {
        seq![]
    } else if parts.len() == 1 {
        parts[0]
    } else {
        parts[0] + seq![','] + with_commas(parts.skip(1))
    }
}

/// The place of the first comma of `s` that separates.
spec fn first_separator(s: Seq<char>, single: bool, double: bool) -> Option<int>
    decreases s.len(),
{
    if s.len() == 0 {
        None
    } else {
        let c = s[0];
        let (step, rest) = if c == '\'' && !double {
            (1int, first_separator(s.skip(1), !single, double))
        } else if c == '"' && !single {
            (1int, first_separator(s.skip(1), single, !double))
        } else if c == '\\' && s.len() > 1 {
            (2int, first_separator(s.skip(2), single, double))
        } else {
            (1int, first_separator(s.skip(1), single, double))
        };
        if c == ',' && !single && !double {
            Some(0)
        } else {
            match rest {
                Some(n) => Some(n + step),
                None => None,
            }
        }
    }
}

/// The first part ends at the first comma that separates.
proof fn lemma_first_part(s: Seq<char>, current: Seq<char>, single: bool, double: bool)
    ensures
        action_parts(s, current, single, double) == (match first_separator(s, single, double) {
            Some(n) => seq![current + s.take(n)] + action_parts(
                s.skip(n + 1),
                seq![],
                false,
                false,
            ),
            None => if current.len() + s.len() > 0 {
                seq![current + s]
            } else {
                seq![]
            },
        }),
        first_separator(s, single, double) matches Some(n) ==> 0 <= n < s.len() && s[n] == ',',
    decreases s.len(),
{
    if s.len() == 0 {
        assert(current + s =~= current);
    } else {
        let c = s[0];
        let rest = s.skip(1);
        if c == '\\' && s.len() > 1 && !(c == ',' && !single && !double) {
            let next = current.push(c).push(s[1]);
            lemma_first_part(s.skip(2), next, single, double);
            assert(next + s.skip(2) =~= current + s);
            if let Some(n) = first_separator(s.skip(2), single, double) {
                assert(next + s.skip(2).take(n) =~= current + s.take(n + 2));
                assert(s.skip(2).skip(n + 1) =~= s.skip(n + 3));
                assert(s[n + 2] == s.skip(2)[n]);
            }
        } else if c == ',' && !single && !double {
            assert(current + s.take(0) =~= current);
        } else {
            let (one, two) = if c == '\'' && !double {
                (!single, double)
            } else if c == '"' && !single {
                (single, !double)
            } else {
                (single, double)
            };
            lemma_first_part(rest, current.push(c), one, two);
            assert(current.push(c) + rest =~= current + s);
            if let Some(n) = first_separator(rest, one, two) {
                assert(current.push(c) + rest.take(n) =~= current + s.take(n + 1));
                assert(rest.skip(n + 1) =~= s.skip(n + 2));
                assert(s[n + 1] == rest[n]);
            }
        }
    }
}

/// Before the first comma that separates none does, that one does, and behind it
/// those of the rest do.
proof fn lemma_first_separator(s: Seq<char>, i: int, single: bool, double: bool)
    ensures
        match first_separator(s, single, double) {
            Some(n) => !separates(s.take(n), i, single, double) && separates(
                s,
                n,
                single,
                double,
            ) && (i > n ==> separates(s, i, single, double) == separates(
                s.skip(n + 1),
                i - n - 1,
                false,
                false,
            )),
            None => !separates(s, i, single, double),
        },
    decreases s.len(),
{
    lemma_first_part(s, seq![], single, double);
    if s.len() > 0 {
        let c = s[0];
        let (step, one, two) = if c == '\'' && !double {
            (1int, !single, double)
        } else if c == '"' && !single {
            (1int, single, !double)
        } else if c == '\\' && s.len() > 1 {
            (2int, single, double)
        } else {
            (1int, single, double)
        };
        let rest = s.skip(step);
        if !(c == ',' && !single && !double) {
            lemma_first_separator(rest, i - step, one, two);
            lemma_first_part(rest, seq![], one, two);
            if let Some(n) = first_separator(rest, one, two) {
                let front = s.take(n + step);
                assert(front[0] == c);
                assert(front.skip(step) =~= rest.take(n));
                assert(rest.skip(n + 1) =~= s.skip(n + step + 1));
            }
        }
    }
}

/// The parts of a list, with commas between them, are the list again, but for a
/// comma that separates at its end; and no comma of a part separates.
proof fn lemma_parts_rejoin(s: Seq<char>)
    ensures
        ({
            let parts = action_parts(s, seq![], false, false);
            &&& s.len() > 0 ==> parts.len() > 0
            &&& with_commas(parts) + (if separates(s, s.len() - 1, false, false) {
                seq![',']
            } else {
                seq![]
            }) == s
            &&& forall|k: int, i: int|
                0 <= k < parts.len() ==> !#[trigger] separates(parts[k], i, false, false)
        }),
    decreases s.len(),
{
    let parts = action_parts(s, seq![], false, false);
    lemma_first_part(s, seq![], false, false);
    lemma_first_separator(s, s.len() - 1, false, false);
    match first_separator(s, false, false) {
        Some(n) => {
            let rest = s.skip(n + 1);
            let tail = action_parts(rest, seq![], false, false);
            lemma_parts_rejoin(rest);
            assert(Seq::<char>::empty() + s.take(n) =~= s.take(n));
            assert(parts.skip(1) =~= tail);
            assert forall|k: int, i: int| 0 <= k < parts.len() implies !#[trigger] separates(
                parts[k],
                i,
                false,
                false,
            ) by {
                if k == 0 {
                    lemma_first_separator(s, i, false, false);
                } else {
                    assert(parts[k] == tail[k - 1]);
                }
            }
            assert(s =~= s.take(n) + seq![','] + rest);
            if rest.len() == 0 {
                assert(tail =~= seq![]);
            } else {
                assert(with_commas(parts) == s.take(n) + seq![','] + with_commas(tail));
                assert(with_commas(parts) + (if separates(s, s.len() - 1, false, false) {
                    seq![',']
                } else {
                    seq![]
                }) =~= s);
            }
        },
        None => {
            assert(Seq::<char>::empty() + s =~= s);
            assert forall|k: int, i: int| 0 <= k < parts.len() implies !#[trigger] separates(
                parts[k],
                i,
                false,
                false,
            ) by {
                lemma_first_separator(s, i, false, false);
            }
            assert(with_commas(parts) + Seq::<char>::empty() =~= s);
        },
    }
}

/// Nothing of a list of actions is lost, trimmed or unescaped: its parts, with
/// commas between them, are its bytes again, but for one comma at the end that
/// separates; and no comma of a part separates. Of ASCII text, the bytes are the
/// text.
pub proof fn lemma_actions_rejoin(s: Seq<char>)
    ensures
        with_commas(action_texts(s)) + (if separates(
            byte_chars(s),
            byte_chars(s).len() - 1,
            false,
            false,
        ) {
            seq![',']
        } else {
            seq![]
        }) == byte_chars(s),
        forall|k: int, i: int|
            0 <= k < action_texts(s).len() ==> !#[trigger] separates(
                action_texts(s)[k],
                i,
                false,
                false,
            ),
        is_ascii_chars(s) ==> byte_chars(s) == s,
{
    if is_ascii_chars(s) {
        is_ascii_chars_encode_utf8(s);
        is_ascii_chars_nat_bound(s);
        assert(byte_chars(s) =~= s);
    }
    lemma_parts_rejoin(byte_chars(s));
}

} // verus!
