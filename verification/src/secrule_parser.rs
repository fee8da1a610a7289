//! The pieces of `SecRule` statements.

use vstd::prelude::*;
use vstd::slice::slice_subrange;

use crate::crs::parser::{char_lists, closing_quote, find_closing_quote, lemma_closing_quote};
use crate::text::{
    after_prefix, before_space, chars_of, copy_of, find_space, is_space, lemma_leading_is,
    lemma_trailing_is, lines, lines_of, pair_view, push_chars, slices, string_of, strip, text_opt,
    texts, trim, trim_char, trim_end, trim_start, trimmed, trimmed_char, trimmed_end,
    trimmed_start,
};
use crate::text_laws::{free_of, lemma_line};

verus! {

// ---------------------------------------------------------------------------
// Statements
// ---------------------------------------------------------------------------

/// What a statement holds with one more line behind it.
pub open spec fn continued(current: Seq<char>, line: Seq<char>) -> Seq<char> {
    if current.len() == 0 {
        line
    } else {
        current.push(' ') + line
    }
}

/// The lines joined where they end with a backslash, which is dropped;
/// `current` is what was read of the first statement.
pub open spec fn statements_from(ls: Seq<Seq<char>>, current: Seq<char>) -> Seq<Seq<char>>
    decreases ls.len(),
{
    if ls.len() == 0 {
        if current.len() > 0 {
            seq![current]
        } else {
            seq![]
        }
    } else {
        let line = trim_end(ls[0]);
        let longer = continued(current, line);
        if line.len() > 0 && line.last() == '\\' {
            statements_from(ls.skip(1), longer.drop_last())
        } else {
            seq![longer] + statements_from(ls.skip(1), seq![])
        }
    }
}

/// The statements of a file. Whitespace at the end of a line is dropped.
pub open spec fn statements(s: Seq<char>) -> Seq<Seq<char>> {
    statements_from(lines(s), seq![])
}

pub(crate) fn statements_of(raw: &[char]) -> (out: Vec<Vec<char>>)
    ensures
        char_lists(out@) == statements(raw@),
{
    let ls = lines_of(raw);
    let ghost all = slices(ls@);
    let mut out: Vec<Vec<char>> = Vec::new();
    let mut current: Vec<char> = Vec::new();
    assert(all.skip(0) =~= all);
    assert(current@ =~= seq![]);
    assert(char_lists(out@) + statements(raw@) =~= statements(raw@));
    for i in 0..ls.len()
        invariant
            all == slices(ls@),
            char_lists(out@) + statements_from(all.skip(i as int), current@) == statements(raw@),
    {
        let ghost rest = all.skip(i as int);
        let line = trimmed_end(ls[i]);
        assert(rest[0] == ls@[i as int]@);
        assert(rest.skip(1) =~= all.skip(i + 1));
        let ghost start = current@;
        if current.len() > 0 {
            current.push(' ');
        }
        push_chars(&mut current, line);
        assert(current@ =~= continued(start, line@));
        let n = line.len();
        if n > 0 && line[n - 1] == '\\' {
            let _ = current.pop();
            assert(current@ =~= continued(start, line@).drop_last());
        } else {
            let ghost before = char_lists(out@);
            let ghost whole = current@;
            out.push(current);
            current = Vec::new();
            assert(current@ =~= seq![]);
            assert(char_lists(out@) =~= before.push(whole));
            assert(before.push(whole) + statements_from(rest.skip(1), seq![]) =~= before + (seq![
                whole,
            ] + statements_from(rest.skip(1), seq![])));
        }
    }
    assert(all.skip(all.len() as int) =~= seq![]);
    if current.len() > 0 {
        let ghost before = char_lists(out@);
        let ghost whole = current@;
        out.push(current);
        assert(char_lists(out@) =~= before + seq![whole]);
    } else {
        assert(char_lists(out@) + Seq::<Seq<char>>::empty() =~= char_lists(out@));
    }
    out
}

/// The strings with the given characters.
pub(crate) fn strings_from(v: &Vec<Vec<char>>) -> (out: Vec<String>)
    ensures
        texts(out@) == char_lists(v@),
{
    let mut out: Vec<String> = Vec::new();
    for i in 0..v.len()
        invariant
            out@.len() == i,
            forall|j: int| 0 <= j < i ==> (#[trigger] out@[j])@ == v@[j]@,
    {
        out.push(string_of(v[i].as_slice()));
    }
    assert(texts(out@) =~= char_lists(v@));
    out
}

/// Joins lines that end with a backslash into statements.
pub fn join_continued_lines(raw: &str) -> (out: Vec<String>)
    ensures
        texts(out@) == statements(raw@),
{
    let cs = chars_of(raw);
    strings_from(&statements_of(cs.as_slice()))
}

// ---------------------------------------------------------------------------
// Words and quoted texts
// ---------------------------------------------------------------------------

/// The model of a pair of strings.
pub open spec fn strings_view(r: Option<(String, String)>) -> Option<(Seq<char>, Seq<char>)> {
    match r {
        Some((a, b)) => Some((a@, b@)),
        None => None,
    }
}

fn strings_pair(r: Option<(&[char], &[char])>) -> (out: Option<(String, String)>)
    ensures
        strings_view(out) == pair_view(r),
{
    match r {
        Some((a, b)) => Some((string_of(a), string_of(b))),
        None => None,
    }
}

/// A text cut at its first whitespace, which is dropped with what whitespace
/// follows it.
pub open spec fn first_token(s: Seq<char>) -> Option<(Seq<char>, Seq<char>)> {
    let n = before_space(s);
    if n < s.len() {
        Some((s.take(n), trim_start(s.skip(n + 1))))
    } else {
        None
    }
}

pub(crate) fn cut_first_token(s: &[char]) -> (r: Option<(&[char], &[char])>)
    ensures
        pair_view(r) == first_token(s@),
{
    let n = find_space(s);
    if n < s.len() {
        let left = slice_subrange(s, 0, n);
        let right = slice_subrange(s, n + 1, s.len());
        assert(left@ =~= s@.take(n as int));
        assert(right@ =~= s@.skip(n + 1));
        Some((left, trimmed_start(right)))
    } else {
        None
    }
}

/// Cuts a text at its first whitespace.
pub fn split_first_token(input: &str) -> (r: Option<(String, String)>)
    ensures
        strings_view(r) == first_token(input@),
{
    let cs = chars_of(input);
    strings_pair(cut_first_token(cs.as_slice()))
}

/// The text between the quotation mark that `s` starts with and the one that
/// closes it, and what stands behind that. A backslash takes the next character
/// with it.
pub open spec fn quoted(s: Seq<char>) -> Option<(Seq<char>, Seq<char>)> {
    if s.len() > 0 && s[0] == '"' {
        match closing_quote(s.skip(1), 0) {
            Some(i) => Some((s.skip(1).take(i), s.skip(1).skip(i + 1))),
            None => None,
        }
    } else {
        None
    }
}

pub(crate) fn cut_quoted(s: &[char]) -> (r: Option<(&[char], &[char])>)
    ensures
        pair_view(r) == quoted(s@),
{
    let len = s.len();
    if len == 0 || s[0] != '"' {
        return None;
    }
    let rest = slice_subrange(s, 1, len);
    assert(rest@ =~= s@.skip(1));
    match find_closing_quote(rest) {
        Some(i) => {
            let n = rest.len();
            let value = slice_subrange(rest, 0, i);
            let tail = slice_subrange(rest, i + 1, n);
            assert(value@ =~= rest@.take(i as int));
            assert(tail@ =~= rest@.skip(i + 1));
            Some((value, tail))
        },
        None => None,
    }
}

/// The quoted text that `input` starts with, and what stands behind it.
pub fn extract_quoted(input: &str) -> (r: Option<(String, String)>)
    ensures
        strings_view(r) == quoted(input@),
{
    let cs = chars_of(input);
    strings_pair(cut_quoted(cs.as_slice()))
}

/// The two quoted texts that `s` starts with, with whitespace before each
/// allowed.
pub open spec fn quoted_pair(s: Seq<char>) -> Option<(Seq<char>, Seq<char>)> {
    match quoted(trim_start(s)) {
        Some((first, rest)) => match quoted(trim_start(rest)) {
            Some((second, _)) => Some((first, second)),
            None => None,
        },
        None => None,
    }
}

pub(crate) fn cut_quoted_pair(s: &[char]) -> (r: Option<(&[char], &[char])>)
    ensures
        pair_view(r) == quoted_pair(s@),
{
    match cut_quoted(trimmed_start(s)) {
        Some((first, rest)) => match cut_quoted(trimmed_start(rest)) {
            Some((second, _)) => Some((first, second)),
            None => None,
        },
        None => None,
    }
}

/// The two quoted texts that `input` starts with.
pub fn parse_quoted_pair(input: &str) -> (r: Option<(String, String)>)
    ensures
        strings_view(r) == quoted_pair(input@),
{
    let cs = chars_of(input);
    strings_pair(cut_quoted_pair(cs.as_slice()))
}

// ---------------------------------------------------------------------------
// Actions
// ---------------------------------------------------------------------------

/// The trimmed parts of `s` between commas that stand outside single quotation
/// marks; `current` is what was read of the first part. A last part that is
/// blank is left out.
pub open spec fn parts_from(s: Seq<char>, current: Seq<char>, single: bool) -> Seq<Seq<char>>
    decreases s.len(),
{
    if s.len() == 0 {
        if trim(current).len() > 0 {
            seq![trim(current)]
        } else {
            seq![]
        }
    } else if s[0] == '\'' {
        parts_from(s.skip(1), current.push(s[0]), !single)
    } else if s[0] == ',' && !single {
        seq![trim(current)] + parts_from(s.skip(1), seq![], single)
    } else {
        parts_from(s.skip(1), current.push(s[0]), single)
    }
}

/// The actions in a list.
pub open spec fn action_list(s: Seq<char>) -> Seq<Seq<char>> {
    parts_from(s, seq![], false)
}

pub(crate) fn actions_of(s: &[char]) -> (out: Vec<Vec<char>>)
    ensures
        char_lists(out@) == action_list(s@),
{
    let mut out: Vec<Vec<char>> = Vec::new();
    let mut current: Vec<char> = Vec::new();
    let mut single = false;
    assert(s@.skip(0) =~= s@);
    assert(current@ =~= seq![]);
    assert(char_lists(out@) + action_list(s@) =~= action_list(s@));
    for i in 0..s.len()
        invariant
            char_lists(out@) + parts_from(s@.skip(i as int), current@, single) == action_list(s@),
    {
        let ghost rest = s@.skip(i as int);
        let c = s[i];
        assert(rest[0] == c);
        assert(rest.skip(1) =~= s@.skip(i + 1));
        if c == '\'' {
            single = !single;
            current.push(c);
        } else if c == ',' && !single {
            let part = copy_of(trimmed(current.as_slice()));
            let ghost before = char_lists(out@);
            let ghost whole = part@;
            out.push(part);
            current = Vec::new();
            assert(current@ =~= seq![]);
            assert(char_lists(out@) =~= before.push(whole));
            assert(before.push(whole) + parts_from(rest.skip(1), seq![], single) =~= before + (seq![
                whole,
            ] + parts_from(rest.skip(1), seq![], single)));
        } else {
            current.push(c);
        }
    }
    assert(s@.skip(s@.len() as int) =~= seq![]);
    let last = trimmed(current.as_slice());
    if last.len() > 0 {
        let part = copy_of(last);
        let ghost before = char_lists(out@);
        let ghost whole = part@;
        out.push(part);
        assert(char_lists(out@) =~= before + seq![whole]);
    } else {
        assert(char_lists(out@) + Seq::<Seq<char>>::empty() =~= char_lists(out@));
    }
    out
}

/// Splits a list of actions at the commas outside single quotation marks.
pub fn split_actions(actions: &str) -> (out: Vec<String>)
    ensures
        texts(out@) == action_list(actions@),
{
    let cs = chars_of(actions);
    strings_from(&actions_of(cs.as_slice()))
}

/// The value of the first of the parts that starts with a prefix.
pub open spec fn first_value(parts: Seq<Seq<char>>, prefix: Seq<char>) -> Option<Seq<char>>
    decreases parts.len(),
{
    if parts.len() == 0 {
        None
    } else {
        match after_prefix(trim(parts[0]), prefix) {
            Some(v) => Some(v),
            None => first_value(parts.skip(1), prefix),
        }
    }
}

pub(crate) fn value_of(parts: &Vec<Vec<char>>, prefix: &str) -> (r: Option<Vec<char>>)
    ensures
        match r {
            Some(v) => first_value(char_lists(parts@), prefix@) == Some(v@),
            None => first_value(char_lists(parts@), prefix@) is None,
        },
{
    let ghost all = char_lists(parts@);
    assert(all.skip(0) =~= all);
    for i in 0..parts.len()
        invariant
            all == char_lists(parts@),
            first_value(all, prefix@) == first_value(all.skip(i as int), prefix@),
    {
        assert(all.skip(i as int)[0] == parts@[i as int]@);
        assert(all.skip(i as int).skip(1) =~= all.skip(i + 1));
        if let Some(v) = strip(trimmed(parts[i].as_slice()), prefix) {
            return Some(copy_of(v));
        }
    }
    assert(all.skip(all.len() as int) =~= seq![]);
    None
}

/// The id that a list of actions gives, without quotation marks around it.
pub open spec fn action_id(s: Seq<char>) -> Option<Seq<char>> {
    match first_value(action_list(s), "id:"@) {
        Some(v) => Some(trim_char(v, '\'')),
        None => None,
    }
}

/// The id that a list of actions gives.
pub fn parse_action_id(actions: &str) -> (r: Option<String>)
    ensures
        text_opt(r) == action_id(actions@),
{
    let cs = chars_of(actions);
    match value_of(&actions_of(cs.as_slice()), "id:") {
        Some(v) => Some(string_of(trimmed_char(v.as_slice(), '\''))),
        None => None,
    }
}

// ---------------------------------------------------------------------------
// Rules
// ---------------------------------------------------------------------------

/// The parts of a `SecRule` statement: the target, the operator and the
/// actions.
pub struct RulePieces {
    pub target: Seq<char>,
    pub operator: Seq<char>,
    pub actions: Seq<char>,
}

/// The parts of a statement, where it is a `SecRule` with a target and two
/// quoted texts.
pub open spec fn rule_pieces(statement: Seq<char>) -> Option<RulePieces> {
    match after_prefix(trim_start(statement), "SecRule "@) {
        Some(body) => match first_token(body) {
            Some((target, tail)) => match quoted_pair(tail) {
                Some((operator, actions)) => Some(RulePieces { target, operator, actions }),
                None => None,
            },
            None => None,
        },
        None => None,
    }
}

/// The model of what [`cut_rule`] returns.
pub open spec fn pieces_view(r: Option<(&[char], &[char], &[char])>) -> Option<RulePieces> {
    match r {
        Some((target, operator, actions)) => Some(
            RulePieces { target: target@, operator: operator@, actions: actions@ },
        ),
        None => None,
    }
}

pub(crate) fn cut_rule(statement: &[char]) -> (r: Option<(&[char], &[char], &[char])>)
    ensures
        pieces_view(r) == rule_pieces(statement@),
{
    match strip(trimmed_start(statement), "SecRule ") {
        Some(body) => match cut_first_token(body) {
            Some((target, tail)) => match cut_quoted_pair(tail) {
                Some((operator, actions)) => Some((target, operator, actions)),
                None => None,
            },
            None => None,
        },
        None => None,
    }
}

// ---------------------------------------------------------------------------
// Laws
// ---------------------------------------------------------------------------

/// What stands between quotation marks comes back as it is, with what stands
/// behind it, where it holds neither a quotation mark nor a backslash.
pub proof fn lemma_quoted_text(value: Seq<char>, rest: Seq<char>)
    requires
        forall|i: int| 0 <= i < value.len() ==> #[trigger] value[i] != '"' && value[i] != '\\',
    ensures
        quoted(seq!['"'] + value + seq!['"'] + rest) == Some((value, rest)),
{
    let s = seq!['"'] + value + seq!['"'] + rest;
    let t = s.skip(1);
    assert(t =~= value + seq!['"'] + rest);
    lemma_closing_quote(t, 0, value.len() as int);
    assert(t.take(value.len() as int) =~= value);
    assert(t.skip(value.len() as int + 1) =~= rest);
}

/// A line that ends with a backslash joins the next one, with a space between them; any
/// other line is a statement of its own, without the whitespace at its end.
pub proof fn lemma_statement_lines(a: Seq<char>, b: Seq<char>, rest: Seq<char>)
    requires
        free_of(a, '\n'),
        free_of(b, '\n'),
        a.len() > 0,
        b.len() > 0,
        !is_space(b.last()),
        b.last() != '\\',
    ensures
        statements(a + seq!['\\', '\n'] + b + seq!['\n'] + rest) == seq![a + seq![' '] + b]
            + statements(rest),
        statements(b + seq!['\n'] + rest) == seq![b] + statements(rest),
        statements(seq![]).len() == 0,
{
    let first = a.push('\\');
    let text = a + seq!['\\', '\n'] + b + seq!['\n'] + rest;
    assert forall|i: int| 0 <= i < first.len() implies #[trigger] first[i] != '\n' by {}
    lemma_line(first, b + seq!['\n'] + rest);
    lemma_line(b, rest);
    assert(text =~= first + seq!['\n'] + (b + seq!['\n'] + rest));
    let space = |x: char| is_space(x);
    lemma_trailing_is(first, space, 0);
    assert(first.take(first.len() as int) =~= first);
    lemma_trailing_is(b, space, 0);
    assert(b.take(b.len() as int) =~= b);
    let tail = lines(rest);
    let after = seq![b] + tail;
    let all = seq![first] + after;
    assert(lines(text) =~= all);
    assert(all[0] == first);
    assert(all.skip(1) =~= after);
    assert(after[0] == b);
    assert(after.skip(1) =~= tail);
    assert(first.drop_last() =~= a);
    assert(continued(a, b) =~= a + seq![' '] + b);
    assert(statements_from(after, a) == seq![a + seq![' '] + b] + statements_from(tail, seq![]));
    assert(statements_from(all, seq![]) == statements_from(after, a));
    lemma_line(seq![], seq![]);
}

/// An escaped character within quotation marks does not end them: what is escaped
/// counts as text, and the next mark that is not escaped closes.
pub proof fn lemma_escaped(before: Seq<char>, c: char, rest: Seq<char>)
    requires
        free_of(before, '"'),
        free_of(before, '\\'),
    ensures
        closing_quote(before + seq!['\\', c] + rest, 0) == (match closing_quote(rest, 0) {
            Some(n) => Some(before.len() + 2 + n),
            None => None::<int>,
        }),
        closing_quote(before + seq!['"'] + rest, 0) == Some(before.len() as int),
        closing_quote(before, 0) is None,
{
    let s = before + seq!['\\', c] + rest;
    let n = before.len() as int;
    lemma_closing_from(s, 0, n);
    assert(s[n] == '\\');
    assert(s.skip(n + 2) =~= rest);
    lemma_closing_shift(s, rest, n + 2, 0);
    let t = before + seq!['"'] + rest;
    lemma_closing_from(t, 0, n);
    assert(t[n] == '"');
    lemma_closing_from(before, 0, n);
}

proof fn lemma_closing_from(s: Seq<char>, i: int, n: int)
    requires
        0 <= i <= n <= s.len(),
        forall|j: int| i <= j < n ==> #[trigger] s[j] != '"' && s[j] != '\\',
    ensures
        closing_quote(s, i) == closing_quote(s, n),
    decreases n - i,
{
    if i < n {
        lemma_closing_from(s, i + 1, n);
    }
}

proof fn lemma_closing_shift(s: Seq<char>, rest: Seq<char>, at: int, i: int)
    requires
        0 <= at <= s.len(),
        s.skip(at) == rest,
        0 <= i,
    ensures
        closing_quote(s, at + i) == (match closing_quote(rest, i) {
            Some(n) => Some(at + n),
            None => None::<int>,
        }),
    decreases rest.len() - i,
{
    if i < rest.len() {
        assert(rest[i] == s[at + i]);
        if i + 1 < rest.len() {
            lemma_closing_shift(s, rest, at, i + 2);
        }
        lemma_closing_shift(s, rest, at, i + 1);
    }
}

/// The last action of a list needs no comma behind it, and whitespace alone is none.
pub proof fn lemma_last_action(action: Seq<char>)
    requires
        forall|i: int|
            0 <= i < action.len() ==> #[trigger] action[i] != ',' && action[i] != '\'',
    ensures
        action_list(action) == (if trim(action).len() > 0 {
            seq![trim(action)]
        } else {
            seq![]
        }),
{
    let none = Seq::<char>::empty();
    lemma_parts_run(action, none, none, false);
    assert(none + action =~= action);
    assert(action + none =~= action);
}

/// A text is cut at its first whitespace, and what whitespace follows is dropped.
pub proof fn lemma_first_token(token: Seq<char>, gap: Seq<char>, rest: Seq<char>)
    requires
        forall|i: int| 0 <= i < token.len() ==> !is_space(#[trigger] token[i]),
        gap.len() > 0,
        forall|i: int| 0 <= i < gap.len() ==> is_space(#[trigger] gap[i]),
        rest.len() > 0 ==> !is_space(rest[0]),
    ensures
        first_token(token + gap + rest) == Some((token, rest)),
        first_token(token) is None,
{
    let other = |x: char| !is_space(x);
    let space = |x: char| is_space(x);
    let s = token + gap + rest;
    let n = token.len() as int;
    assert forall|i: int| 0 <= i < n implies other(#[trigger] s[i]) by {
        assert(s[i] == token[i]);
    }
    assert(s[n] == gap[0]);
    assert(is_space(gap[0]));
    lemma_leading_is(s, other, n);
    assert(s.take(n) =~= token);
    let tail = s.skip(n + 1);
    let m = gap.len() - 1;
    assert forall|i: int| 0 <= i < m implies space(#[trigger] tail[i]) by {
        assert(tail[i] == gap[i + 1]);
    }
    if rest.len() > 0 {
        assert(tail[m] == rest[0]);
    }
    lemma_leading_is(tail, space, m);
    assert(tail.skip(m) =~= rest);
    assert forall|i: int| 0 <= i < n implies other(#[trigger] token[i]) by {}
    lemma_leading_is(token, other, n);
}

/// An action without commas and quotation marks is split from those behind it.
pub proof fn lemma_first_action(action: Seq<char>, rest: Seq<char>)
    requires
        forall|i: int|
            0 <= i < action.len() ==> #[trigger] action[i] != ',' && action[i] != '\'',
    ensures
        action_list(action + seq![','] + rest) == seq![trim(action)] + action_list(rest),
{
    lemma_parts_run(action, seq![','] + rest, seq![], false);
    assert(Seq::<char>::empty() + action =~= action);
    assert(action + seq![','] + rest =~= action + (seq![','] + rest));
    assert((seq![','] + rest).skip(1) =~= rest);
}

/// Within single quotation marks a comma splits nothing.
pub proof fn lemma_quoted_comma(before: Seq<char>, inside: Seq<char>, rest: Seq<char>)
    requires
        forall|i: int|
            0 <= i < before.len() ==> #[trigger] before[i] != ',' && before[i] != '\'',
        forall|i: int| 0 <= i < inside.len() ==> #[trigger] inside[i] != '\'',
    ensures
        action_list(before + seq!['\''] + inside + seq!['\'', ','] + rest) == seq![
            trim(before + seq!['\''] + inside + seq!['\'']),
        ] + action_list(rest),
{
    let tail = seq!['\'', ','] + rest;
    let quoted_tail = seq!['\''] + inside + tail;
    let all = before + seq!['\''] + inside + seq!['\'', ','] + rest;
    assert(all =~= before + quoted_tail);
    lemma_parts_run(before, quoted_tail, seq![], false);
    assert(Seq::<char>::empty() + before =~= before);
    let opened = before.push('\'');
    assert(quoted_tail.skip(1) =~= inside + tail);
    assert(parts_from(quoted_tail, before, false) == parts_from(inside + tail, opened, true));
    lemma_parts_run(inside, tail, opened, true);
    let held = opened + inside;
    let whole = held.push('\'');
    assert(tail.skip(1) =~= seq![','] + rest);
    assert(parts_from(tail, held, true) == parts_from(seq![','] + rest, whole, false));
    assert((seq![','] + rest).skip(1) =~= rest);
    assert(whole =~= before + seq!['\''] + inside + seq!['\'']);
}

proof fn lemma_parts_run(run: Seq<char>, rest: Seq<char>, current: Seq<char>, single: bool)
    requires
        forall|i: int|
            0 <= i < run.len() ==> #[trigger] run[i] != '\'' && (run[i] != ',' || single),
    ensures
        parts_from(run + rest, current, single) == parts_from(rest, current + run, single),
    decreases run.len(),
{
    if run.len() == 0 {
        assert(run + rest =~= rest);
        assert(current + run =~= current);
    } else {
        let more = run.skip(1);
        assert((run + rest).skip(1) =~= more + rest);
        assert((run + rest)[0] == run[0]);
        assert forall|i: int| 0 <= i < more.len() implies #[trigger] more[i] != '\'' && (more[i]
            != ',' || single) by {
            assert(more[i] == run[i + 1]);
        }
        lemma_parts_run(more, rest, current.push(run[0]), single);
        assert(current.push(run[0]) + more =~= current + run);
    }
}

} // verus!
