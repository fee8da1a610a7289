//! Reading rule files.
//!
//! A file holds `SecRule VARIABLES OPERATOR "ACTIONS"` and `SecMarker NAME`
//! directives, comments, and lines continued with a backslash.

use vstd::prelude::*;
use vstd::slice::slice_subrange;

use crate::crs::types::{
    chained_view, rules_view, transforms_view, variables_view, Action, ChainedRule, ConditionView,
    Operator, OperatorView, Phase, Rule, RuleView, Severity, Transform, TransformView, Variable,
    VariableView,
};
use crate::number::{integer, natural, parse_integer, parse_natural};
use crate::text::{
    after_prefix, before_ascii_space, begins, byte_chars, byte_chars_of, chars_of, contains,
    find_ascii_space, is_ascii_space, is_char, is_space, is_text, lemma_leading_is,
    lemma_trailing_is, lemma_trimmed_already, lines, lines_of, lower, lowercase, mentions,
    not_char, pair_view, push_chars, slices, split_at_char, split_char, starts_with, string_of,
    strings_of, strip, text_opt, texts, trailing, trim, trim_char, trim_end_char, trim_start,
    trimmed, trimmed_char, trimmed_end_char, trimmed_start, upper, uppercase, words, words_of,
};

verus! {

// ---------------------------------------------------------------------------
// Logical lines
// ---------------------------------------------------------------------------

/// The physical lines joined where they end with a backslash, with a space in
/// its place; `pending` is what was read of the first of them.
pub open spec fn joined(ls: Seq<Seq<char>>, pending: Seq<char>) -> Seq<Seq<char>>
    decreases ls.len(),
{
    if ls.len() == 0 {
        if pending.len() > 0 {
            seq![pending]
        } else {
            seq![]
        }
    } else if ls[0].len() > 0 && ls[0].last() == '\\' {
        joined(ls.skip(1), pending + ls[0].drop_last() + seq![' '])
    } else {
        seq![pending + ls[0]] + joined(ls.skip(1), seq![])
    }
}

/// The logical lines of a file.
pub open spec fn logical_lines(s: Seq<char>) -> Seq<Seq<char>> {
    joined(lines(s), seq![])
}

/// The models of lists of characters.
pub open spec fn char_lists(v: Seq<Vec<char>>) -> Seq<Seq<char>> {
    v.map_values(|x: Vec<char>| x@)
}

/// Joins physical lines that end with a backslash into logical lines.
pub fn join_continuations(input: &[char]) -> (out: Vec<Vec<char>>)
    ensures
        char_lists(out@) == logical_lines(input@),
{
    let ls = lines_of(input);
    let ghost all = slices(ls@);
    let mut out: Vec<Vec<char>> = Vec::new();
    let mut pending: Vec<char> = Vec::new();
    assert(all.skip(0) =~= all);
    assert(pending@ =~= seq![]);
    assert(char_lists(out@) + joined(all, pending@) =~= joined(all, seq![]));
    for i in 0..ls.len()
        invariant
            all == slices(ls@),
            char_lists(out@) + joined(all.skip(i as int), pending@) == joined(all, seq![]),
    {
        let line = ls[i];
        let ghost rest = all.skip(i as int);
        assert(rest[0] == line@);
        assert(rest.skip(1) =~= all.skip(i + 1));
        let n = line.len();
        if n > 0 && line[n - 1] == '\\' {
            let head = slice_subrange(line, 0, n - 1);
            assert(head@ =~= line@.drop_last());
            let ghost start = pending@;
            push_chars(&mut pending, head);
            pending.push(' ');
            assert(pending@ =~= start + line@.drop_last() + seq![' ']);
        } else {
            push_chars(&mut pending, line);
            let ghost before = char_lists(out@);
            let ghost whole = pending@;
            out.push(pending);
            pending = Vec::new();
            assert(pending@ =~= seq![]);
            assert(char_lists(out@) =~= before.push(whole));
            assert(before.push(whole) + joined(rest.skip(1), seq![]) =~= before + (seq![whole]
                + joined(rest.skip(1), seq![])));
        }
    }
    assert(all.skip(all.len() as int) =~= seq![]);
    if pending.len() > 0 {
        let ghost before = char_lists(out@);
        let ghost whole = pending@;
        out.push(pending);
        assert(char_lists(out@) =~= before + seq![whole]);
    } else {
        assert(char_lists(out@) + Seq::<Seq<char>>::empty() =~= char_lists(out@));
    }
    out
}

// ---------------------------------------------------------------------------
// Quotes
// ---------------------------------------------------------------------------

/// The character at `i` is not escaped: an even number of backslashes stands
/// directly before it.
pub open spec fn unescaped(s: Seq<char>, i: int) -> bool {
    trailing(s.take(i), is_char('\\')) % 2 == 0
}

/// The place of the last quotation mark before `end` that is not escaped.
pub open spec fn last_opening(s: Seq<char>, end: int) -> Option<int>
    decreases end,
{
    if end <= 0 {
        None
    } else if s[end - 1] == '"' && unescaped(s, end - 1) {
        Some(end - 1)
    } else {
        last_opening(s, end - 1)
    }
}

/// The place of the quotation mark that opens the last quoted block: the last
/// unescaped one before the very last quotation mark.
pub open spec fn last_block(s: Seq<char>) -> Option<int> {
    let n = trailing(s, not_char('"'));
    if n < s.len() {
        last_opening(s, s.len() - n - 1)
    } else {
        None
    }
}

/// The place of the first quotation mark from `i` on that is not escaped.
pub open spec fn closing_quote(s: Seq<char>, i: int) -> Option<int>
    decreases s.len() - i,
{
    if i >= s.len() {
        None
    } else if s[i] == '\\' {
        if i + 1 < s.len() {
            closing_quote(s, i + 2)
        } else {
            None
        }
    } else if s[i] == '"' {
        Some(i)
    } else {
        closing_quote(s, i + 1)
    }
}

/// The model of a place.
pub open spec fn place_view(r: Option<usize>) -> Option<int> {
    match r {
        Some(i) => Some(i as int),
        None => None,
    }
}

/// How many backslashes stand directly before `i`.
fn backslashes_before(s: &[char], i: usize) -> (n: usize)
    requires
        i <= s@.len(),
    ensures
        n == trailing(s@.take(i as int), is_char('\\')),
        n <= i,
{
    let ghost head = s@.take(i as int);
    let mut n: usize = 0;
    while n < i && s[i - n - 1] == '\\'
        invariant
            n <= i <= s@.len(),
            head == s@.take(i as int),
            forall|j: int| i - n <= j < i ==> is_char('\\')(#[trigger] head[j]),
        decreases i - n,
    {
        n = n + 1;
    }
    proof {
        lemma_trailing_is(head, is_char('\\'), n as int);
    }
    n
}

/// The place of the quotation mark that opens the last quoted block.
pub fn find_last_quoted_block_start(s: &[char]) -> (r: Option<usize>)
    ensures
        place_view(r) == last_block(s@),
        r is Some ==> r->0 < s@.len(),
{
    let len = s.len();
    let mut n: usize = 0;
    while n < len && s[len - n - 1] != '"'
        invariant
            n <= len == s@.len(),
            forall|j: int| len - n <= j < len ==> not_char('"')(#[trigger] s@[j]),
        decreases len - n,
    {
        n = n + 1;
    }
    proof {
        lemma_trailing_is(s@, not_char('"'), n as int);
    }
    if n == len {
        return None;
    }
    let mut i: usize = len - n - 1;
    while i > 0
        invariant
            i <= s@.len() - n - 1,
            n == trailing(s@, not_char('"')),
            last_opening(s@, s@.len() - n - 1) == last_opening(s@, i as int),
        decreases i,
    {
        i = i - 1;
        if s[i] == '"' && backslashes_before(s, i) % 2 == 0 {
            return Some(i);
        }
    }
    None
}

/// The place of the quotation mark that closes the block which `s` stands
/// behind the opening of.
pub fn find_closing_quote(s: &[char]) -> (r: Option<usize>)
    ensures
        place_view(r) == closing_quote(s@, 0),
        r is Some ==> r->0 < s@.len(),
{
    let len = s.len();
    let mut i: usize = 0;
    while i < len
        invariant
            len == s@.len(),
            closing_quote(s@, 0) == closing_quote(s@, i as int),
        decreases len - i,
    {
        if s[i] == '\\' {
            if i + 1 >= len {
                return None;
            }
            i = i + 2;
        } else if s[i] == '"' {
            return Some(i);
        } else {
            i = i + 1;
        }
    }
    None
}

/// A text cut at its first ASCII whitespace, which is dropped with what
/// whitespace follows it.
pub open spec fn first_word(s: Seq<char>) -> Option<(Seq<char>, Seq<char>)> {
    let n = before_ascii_space(s);
    if n < s.len() {
        Some((s.take(n), trim_start(s.skip(n + 1))))
    } else {
        None
    }
}

/// Cuts a text at its first ASCII whitespace.
pub fn split_first_ws(s: &[char]) -> (r: Option<(&[char], &[char])>)
    ensures
        pair_view(r) == first_word(s@),
{
    let n = find_ascii_space(s);
    if n < s.len() {
        let left = slice_subrange(s, 0, n);
        let right = slice_subrange(s, n + 1, s.len());
        assert(left@ =~= s@.take(n as int));
        assert(right@ =~= s@.skip(n + 1));
        Some((left, trimmed_start(right)))
    } else {
        None
    }
}

// ---------------------------------------------------------------------------
// Variables
// ---------------------------------------------------------------------------

/// How many bytes a character takes in UTF-8.
pub open spec fn char_bytes(c: char) -> int {
    if (c as u32) < 0x80 {
        1
    } else if (c as u32) < 0x800 {
        2
    } else if (c as u32) < 0x10000 {
        3
    } else {
        4
    }
}

/// `s` without the characters that start in its first `n` bytes.
pub open spec fn after_bytes(s: Seq<char>, n: int) -> Seq<char>
    decreases s.len(),
{
    if n <= 0 || s.len() == 0 {
        s
    } else {
        after_bytes(s.skip(1), n - char_bytes(s[0]))
    }
}

/// Of ASCII text, bytes and characters are the same.
pub proof fn lemma_after_bytes_ascii(s: Seq<char>, n: int)
    requires
        0 <= n <= s.len(),
        forall|i: int| 0 <= i < n ==> (#[trigger] s[i] as u32) < 0x80,
    ensures
        after_bytes(s, n) == s.skip(n),
    decreases n,
{
    if n > 0 {
        let rest = s.skip(1);
        assert((s[0] as u32) < 0x80);
        assert forall|i: int| 0 <= i < n - 1 implies (#[trigger] rest[i] as u32) < 0x80 by {
            assert(rest[i] == s[i + 1]);
        }
        lemma_after_bytes_ascii(rest, n - 1);
        assert(rest.skip(n - 1) =~= s.skip(n));
    } else {
        assert(s.skip(0) =~= s);
    }
}

/// `s` without a leading `!`.
pub open spec fn without_negation(s: Seq<char>) -> Seq<char> {
    if starts_with(s, "!"@) {
        s.skip(1)
    } else {
        s
    }
}

/// The variable that a text names. Names are compared in uppercase; a name
/// that is no variable is taken for that of a header. A `!` matters only before
/// a single header, which is then left out.
pub open spec fn variable_named(s: Seq<char>) -> VariableView {
    let name = without_negation(s);
    let up = uppercase(name);
    if up == "ARGS"@ {
        VariableView::Args
    } else if up == "ARGS_NAMES"@ {
        VariableView::ArgsNames
    } else if up == "REQUEST_COOKIES"@ {
        VariableView::RequestCookies
    } else if up == "REQUEST_COOKIES_NAMES"@ {
        VariableView::RequestCookiesNames
    } else if up == "REQUEST_FILENAME"@ {
        VariableView::RequestFilename
    } else if up == "REQUEST_HEADERS"@ {
        VariableView::RequestHeaders
    } else if starts_with(up, "REQUEST_HEADERS:"@) {
        if starts_with(s, "!"@) {
            VariableView::RequestHeaderExclude(after_bytes(name, 16))
        } else {
            VariableView::RequestHeader(after_bytes(name, 16))
        }
    } else if up == "REQUEST_METHOD"@ {
        VariableView::RequestMethod
    } else if up == "REQUEST_URI"@ || up == "REQUEST_URI_RAW"@ {
        VariableView::RequestUri
    } else if up == "REQUEST_BODY"@ || up == "REQUEST_BODY_RAW"@ {
        VariableView::RequestBody
    } else if starts_with(up, "TX:"@) {
        VariableView::Tx(after_bytes(name, 3))
    } else if starts_with(up, "XML:"@) {
        VariableView::Xml
    } else {
        VariableView::RequestHeader(name)
    }
}

/// The variables that a list separated by `|` names.
pub open spec fn variables_named(s: Seq<char>) -> Seq<VariableView> {
    split_char(s, '|').map_values(|p: Seq<char>| variable_named(trim(p)))
}

fn bytes_of_char(c: char) -> (n: usize)
    ensures
        n == char_bytes(c),
{
    let code: u32 = c as u32;
    if code < 0x80 {
        1
    } else if code < 0x800 {
        2
    } else if code < 0x10000 {
        3
    } else {
        4
    }
}

fn skip_bytes(s: &[char], n: usize) -> (r: &[char])
    ensures
        r@ == after_bytes(s@, n as int),
{
    let mut i: usize = 0;
    let mut left: usize = n;
    assert(s@.skip(0) =~= s@);
    while left > 0 && i < s.len()
        invariant
            i <= s@.len(),
            after_bytes(s@, n as int) == after_bytes(s@.skip(i as int), left as int),
        decreases s.len() - i,
    {
        let ghost rest = s@.skip(i as int);
        assert(rest[0] == s@[i as int]);
        assert(rest.skip(1) =~= s@.skip(i + 1));
        let size = bytes_of_char(s[i]);
        assert(after_bytes(rest.skip(1), left - size) == after_bytes(
            rest.skip(1),
            if size < left {
                left - size
            } else {
                0
            },
        ));
        left = if size < left {
            left - size
        } else {
            0
        };
        i = i + 1;
    }
    let r = slice_subrange(s, i, s.len());
    assert(r@ =~= s@.skip(i as int));
    r
}

/// The variable that a text names.
pub fn parse_variable(s: &[char]) -> (v: Variable)
    ensures
        v@ == variable_named(s@),
{
    proof {
        reveal_strlit("!");
    }
    let negated = begins(s, "!");
    let name = if negated {
        let rest = slice_subrange(s, 1, s.len());
        assert(rest@ =~= s@.skip(1));
        rest
    } else {
        s
    };
    let up = upper(name);
    let up = up.as_slice();
    if is_text(up, "ARGS") {
        Variable::Args
    } else if is_text(up, "ARGS_NAMES") {
        Variable::ArgsNames
    } else if is_text(up, "REQUEST_COOKIES") {
        Variable::RequestCookies
    } else if is_text(up, "REQUEST_COOKIES_NAMES") {
        Variable::RequestCookiesNames
    } else if is_text(up, "REQUEST_FILENAME") {
        Variable::RequestFilename
    } else if is_text(up, "REQUEST_HEADERS") {
        Variable::RequestHeaders
    } else if begins(up, "REQUEST_HEADERS:") {
        let header = string_of(skip_bytes(name, 16));
        if negated {
            Variable::RequestHeaderExclude(header)
        } else {
            Variable::RequestHeader(header)
        }
    } else if is_text(up, "REQUEST_METHOD") {
        Variable::RequestMethod
    } else if is_text(up, "REQUEST_URI") || is_text(up, "REQUEST_URI_RAW") {
        Variable::RequestUri
    } else if is_text(up, "REQUEST_BODY") || is_text(up, "REQUEST_BODY_RAW") {
        Variable::RequestBody
    } else if begins(up, "TX:") {
        Variable::Tx(string_of(skip_bytes(name, 3)))
    } else if begins(up, "XML:") {
        Variable::Xml
    } else {
        Variable::RequestHeader(string_of(name))
    }
}

/// The variables that a list separated by `|` names.
pub fn parse_variables(s: &str) -> (out: Vec<Variable>)
    ensures
        variables_view(out@) == variables_named(s@),
{
    let cs = chars_of(s);
    variables_in(cs.as_slice())
}

fn variables_in(s: &[char]) -> (out: Vec<Variable>)
    ensures
        variables_view(out@) == variables_named(s@),
{
    let parts = split_at_char(s, '|');
    let mut out: Vec<Variable> = Vec::new();
    for i in 0..parts.len()
        invariant
            slices(parts@) == split_char(s@, '|'),
            out@.len() == i,
            forall|j: int|
                0 <= j < i ==> (#[trigger] out@[j])@ == variable_named(trim(parts@[j]@)),
    {
        out.push(parse_variable(trimmed(parts[i])));
    }
    assert(variables_view(out@) =~= variables_named(s@)) by {
        assert forall|j: int| 0 <= j < out@.len() implies variables_view(out@)[j]
            == variables_named(s@)[j] by {
            assert(parts@[j]@ == slices(parts@)[j]);
        }
    }
    out
}

// ---------------------------------------------------------------------------
// Operators
// ---------------------------------------------------------------------------

/// The number that the argument of a comparison writes, or 0.
pub open spec fn number_or_zero(arg: Seq<char>) -> int {
    match parse_integer(arg, i64::MIN as int, i64::MAX as int) {
        Some(n) => n,
        None => 0,
    }
}

/// The operator with a name, in lowercase, and an argument.
pub open spec fn operator_named(name: Seq<char>, arg: Seq<char>) -> OperatorView {
    if name == "rx"@ {
        OperatorView::Rx(arg)
    } else if name == "pm"@ {
        OperatorView::Pm(words(arg).map_values(|w: Seq<char>| lowercase(w)))
    } else if name == "pmfromfile"@ {
        OperatorView::PmFromFile(arg)
    } else if name == "contains"@ {
        OperatorView::Contains(arg)
    } else if name == "beginswith"@ {
        OperatorView::BeginsWith(arg)
    } else if name == "endswith"@ {
        OperatorView::EndsWith(arg)
    } else if name == "streq"@ {
        OperatorView::Streq(arg)
    } else if name == "lt"@ {
        OperatorView::Lt(number_or_zero(arg))
    } else if name == "le"@ {
        OperatorView::Le(number_or_zero(arg))
    } else if name == "ge"@ {
        OperatorView::Ge(number_or_zero(arg))
    } else if name == "gt"@ {
        OperatorView::Gt(number_or_zero(arg))
    } else if name == "within"@ {
        OperatorView::Within(words(arg))
    } else if name == "validatebyterange"@ {
        OperatorView::ValidateByteRange(arg)
    } else if name == "detectxss"@ {
        OperatorView::DetectXss
    } else if name == "detectsqli"@ {
        OperatorView::DetectSqli
    } else {
        OperatorView::Unsupported(name)
    }
}

/// The operator that a text without a leading `!` writes: `@name argument`, or
/// a regular expression.
pub open spec fn plain_operator(s: Seq<char>) -> OperatorView {
    if starts_with(s, "@"@) {
        let rest = s.skip(1);
        let n = before_ascii_space(rest);
        if n < rest.len() {
            operator_named(lowercase(rest.take(n)), trim(rest.skip(n + 1)))
        } else {
            operator_named(lowercase(rest), seq![])
        }
    } else {
        OperatorView::Rx(s)
    }
}

/// The operator that a text writes; a leading `!` negates it.
pub open spec fn operator_in(s: Seq<char>) -> OperatorView {
    if starts_with(s, "!"@) {
        OperatorView::Negated(Box::new(plain_operator(s.skip(1))))
    } else {
        plain_operator(s)
    }
}

fn lowered_words(arg: &[char]) -> (out: Vec<String>)
    ensures
        texts(out@) == words(arg@).map_values(|w: Seq<char>| lowercase(w)),
{
    let ws = words_of(arg);
    let mut out: Vec<String> = Vec::new();
    for i in 0..ws.len()
        invariant
            slices(ws@) == words(arg@),
            out@.len() == i,
            forall|j: int| 0 <= j < i ==> (#[trigger] out@[j])@ == lowercase(ws@[j]@),
    {
        let w = lower(ws[i]);
        out.push(string_of(w.as_slice()));
    }
    assert(texts(out@) =~= words(arg@).map_values(|w: Seq<char>| lowercase(w))) by {
        assert forall|j: int| 0 <= j < out@.len() implies texts(out@)[j] == words(
            arg@,
        ).map_values(|w: Seq<char>| lowercase(w))[j] by {
            assert(ws@[j]@ == slices(ws@)[j]);
        }
    }
    out
}

fn number_of(arg: &[char]) -> (n: i64)
    ensures
        n == number_or_zero(arg@),
{
    match integer(arg) {
        Some(n) => n,
        None => 0,
    }
}

/// The operator with a name, in lowercase, and an argument.
fn operator_by_name(name: &[char], arg: &[char]) -> (op: Operator)
    ensures
        op@ == operator_named(name@, arg@),
{
    if is_text(name, "rx") {
        Operator::Rx(string_of(arg))
    } else if is_text(name, "pm") {
        Operator::Pm(lowered_words(arg))
    } else if is_text(name, "pmfromfile") {
        Operator::PmFromFile(string_of(arg))
    } else if is_text(name, "contains") {
        Operator::Contains(string_of(arg))
    } else if is_text(name, "beginswith") {
        Operator::BeginsWith(string_of(arg))
    } else if is_text(name, "endswith") {
        Operator::EndsWith(string_of(arg))
    } else if is_text(name, "streq") {
        Operator::Streq(string_of(arg))
    } else if is_text(name, "lt") {
        Operator::Lt(number_of(arg))
    } else if is_text(name, "le") {
        Operator::Le(number_of(arg))
    } else if is_text(name, "ge") {
        Operator::Ge(number_of(arg))
    } else if is_text(name, "gt") {
        Operator::Gt(number_of(arg))
    } else if is_text(name, "within") {
        let ws = words_of(arg);
        Operator::Within(strings_of(&ws))
    } else if is_text(name, "validatebyterange") {
        Operator::ValidateByteRange(string_of(arg))
    } else if is_text(name, "detectxss") {
        Operator::DetectXss
    } else if is_text(name, "detectsqli") {
        Operator::DetectSqli
    } else {
        Operator::Unsupported(string_of(name))
    }
}

fn operator_of(s: &[char]) -> (op: Operator)
    ensures
        op@ == plain_operator(s@),
{
    proof {
        reveal_strlit("@");
    }
    if begins(s, "@") {
        let rest = slice_subrange(s, 1, s.len());
        assert(rest@ =~= s@.skip(1));
        let n = find_ascii_space(rest);
        if n < rest.len() {
            let name = slice_subrange(rest, 0, n);
            let arg = slice_subrange(rest, n + 1, rest.len());
            assert(name@ =~= rest@.take(n as int));
            assert(arg@ =~= rest@.skip(n + 1));
            operator_by_name(lower(name).as_slice(), trimmed(arg))
        } else {
            let arg: Vec<char> = Vec::new();
            assert(arg@ =~= seq![]);
            operator_by_name(lower(rest).as_slice(), arg.as_slice())
        }
    } else {
        Operator::Rx(string_of(s))
    }
}

/// The operator that a text writes; a leading `!` negates it.
pub fn parse_operator(s: &[char]) -> (op: Operator)
    ensures
        op@ == operator_in(s@),
{
    proof {
        reveal_strlit("!");
    }
    if begins(s, "!") {
        let rest = slice_subrange(s, 1, s.len());
        assert(rest@ =~= s@.skip(1));
        let inner = operator_of(rest);
        Operator::Negated(Box::new(inner))
    } else {
        operator_of(s)
    }
}

// ---------------------------------------------------------------------------
// Actions
// ---------------------------------------------------------------------------

/// The parts of `s` between commas that stand outside quotation marks;
/// `current` is what was read of the first part, within single or double marks
/// or outside. A backslash takes the next character with it.
pub open spec fn action_parts(
    s: Seq<char>,
    current: Seq<char>,
    single: bool,
    double: bool,
) -> Seq<Seq<char>>
    decreases s.len(),
{
    if s.len() == 0 {
        if current.len() > 0 {
            seq![current]
        } else {
            seq![]
        }
    } else {
        let c = s[0];
        if c == '\'' && !double {
            action_parts(s.skip(1), current.push(c), !single, double)
        } else if c == '"' && !single {
            action_parts(s.skip(1), current.push(c), single, !double)
        } else if c == '\\' && s.len() > 1 {
            action_parts(s.skip(2), current.push(c).push(s[1]), single, double)
        } else if c == ',' && !single && !double {
            seq![current] + action_parts(s.skip(1), seq![], single, double)
        } else {
            action_parts(s.skip(1), current.push(c), single, double)
        }
    }
}

/// The actions in a list, byte by byte.
pub open spec fn action_texts(s: Seq<char>) -> Seq<Seq<char>> {
    action_parts(byte_chars(s), seq![], false, false)
}

/// Splits a list of actions at the commas outside quotation marks.
pub fn split_actions(s: &str) -> (out: Vec<Vec<char>>)
    ensures
        char_lists(out@) == action_texts(s@),
{
    let bytes = byte_chars_of(s);
    let mut out: Vec<Vec<char>> = Vec::new();
    let mut current: Vec<char> = Vec::new();
    let mut single = false;
    let mut double = false;
    let mut i: usize = 0;
    assert(bytes@.skip(0) =~= bytes@);
    assert(current@ =~= seq![]);
    assert(char_lists(out@) + action_texts(s@) =~= action_texts(s@));
    while i < bytes.len()
        invariant
            i <= bytes@.len(),
            char_lists(out@) + action_parts(bytes@.skip(i as int), current@, single, double)
                == action_texts(s@),
        decreases bytes.len() - i,
    {
        let ghost rest = bytes@.skip(i as int);
        let c = bytes[i];
        assert(rest[0] == c);
        assert(rest.skip(1) =~= bytes@.skip(i + 1));
        if c == '\'' && !double {
            single = !single;
            current.push(c);
        } else if c == '"' && !single {
            double = !double;
            current.push(c);
        } else if c == '\\' && i + 1 < bytes.len() {
            assert(rest[1] == bytes@[i + 1]);
            assert(rest.skip(2) =~= bytes@.skip(i + 2));
            current.push(c);
            i = i + 1;
            current.push(bytes[i]);
        } else if c == ',' && !single && !double {
            let ghost before = char_lists(out@);
            let ghost whole = current@;
            out.push(current);
            current = Vec::new();
            assert(current@ =~= seq![]);
            assert(char_lists(out@) =~= before.push(whole));
            assert(before.push(whole) + action_parts(rest.skip(1), seq![], single, double)
                =~= before + (seq![whole] + action_parts(rest.skip(1), seq![], single, double)));
        } else {
            current.push(c);
        }
        i = i + 1;
    }
    assert(bytes@.skip(i as int) =~= seq![]);
    if current.len() > 0 {
        let ghost before = char_lists(out@);
        let ghost whole = current@;
        out.push(current);
        assert(char_lists(out@) =~= before + seq![whole]);
    } else {
        assert(char_lists(out@) + Seq::<Seq<char>>::empty() =~= char_lists(out@));
    }
    out
}

/// The transformation with a name, whatever the case.
pub open spec fn transform_named(s: Seq<char>) -> TransformView {
    let name = lowercase(s);
    if name == "lowercase"@ {
        TransformView::Lowercase
    } else if name == "urldecodeuni"@ {
        TransformView::UrlDecodeUni
    } else if name == "htmlentitydecode"@ {
        TransformView::HtmlEntityDecode
    } else if name == "jsdecode"@ {
        TransformView::JsDecode
    } else if name == "cssdecode"@ {
        TransformView::CssDecode
    } else if name == "removenulls"@ {
        TransformView::RemoveNulls
    } else if name == "removewhitespace"@ {
        TransformView::RemoveWhitespace
    } else if name == "compresswhitespace"@ {
        TransformView::CompressWhitespace
    } else if name == "utf8tounicode"@ {
        TransformView::Utf8toUnicode
    } else if name == "none"@ {
        TransformView::Identity
    } else {
        TransformView::Other(name)
    }
}

/// The transformation with a name, whatever the case.
pub fn parse_transform(s: &[char]) -> (t: Transform)
    ensures
        t@ == transform_named(s@),
{
    let lowered = lower(s);
    let name = lowered.as_slice();
    if is_text(name, "lowercase") {
        Transform::Lowercase
    } else if is_text(name, "urldecodeuni") {
        Transform::UrlDecodeUni
    } else if is_text(name, "htmlentitydecode") {
        Transform::HtmlEntityDecode
    } else if is_text(name, "jsdecode") {
        Transform::JsDecode
    } else if is_text(name, "cssdecode") {
        Transform::CssDecode
    } else if is_text(name, "removenulls") {
        Transform::RemoveNulls
    } else if is_text(name, "removewhitespace") {
        Transform::RemoveWhitespace
    } else if is_text(name, "compresswhitespace") {
        Transform::CompressWhitespace
    } else if is_text(name, "utf8tounicode") {
        Transform::Utf8toUnicode
    } else if is_text(name, "none") {
        Transform::Identity
    } else {
        Transform::Other(string_of(name))
    }
}

/// The severity with a name, whatever the case, or with a number.
pub open spec fn severity_named(s: Seq<char>) -> Option<Severity> {
    let name = uppercase(s);
    if name == "EMERGENCY"@ || name == "0"@ {
        Some(Severity::Emergency)
    } else if name == "ALERT"@ || name == "1"@ {
        Some(Severity::Alert)
    } else if name == "CRITICAL"@ || name == "2"@ {
        Some(Severity::Critical)
    } else if name == "ERROR"@ || name == "3"@ {
        Some(Severity::Error)
    } else if name == "WARNING"@ || name == "4"@ {
        Some(Severity::Warning)
    } else if name == "NOTICE"@ || name == "5"@ {
        Some(Severity::Notice)
    } else if name == "INFO"@ || name == "6"@ {
        Some(Severity::Info)
    } else if name == "DEBUG"@ || name == "7"@ {
        Some(Severity::Debug)
    } else {
        None
    }
}

/// The severity with a name, whatever the case, or with a number.
pub fn parse_severity(s: &[char]) -> (r: Option<Severity>)
    ensures
        r == severity_named(s@),
{
    let uppered = upper(s);
    let name = uppered.as_slice();
    if is_text(name, "EMERGENCY") || is_text(name, "0") {
        Some(Severity::Emergency)
    } else if is_text(name, "ALERT") || is_text(name, "1") {
        Some(Severity::Alert)
    } else if is_text(name, "CRITICAL") || is_text(name, "2") {
        Some(Severity::Critical)
    } else if is_text(name, "ERROR") || is_text(name, "3") {
        Some(Severity::Error)
    } else if is_text(name, "WARNING") || is_text(name, "4") {
        Some(Severity::Warning)
    } else if is_text(name, "NOTICE") || is_text(name, "5") {
        Some(Severity::Notice)
    } else if is_text(name, "INFO") || is_text(name, "6") {
        Some(Severity::Info)
    } else if is_text(name, "DEBUG") || is_text(name, "7") {
        Some(Severity::Debug)
    } else {
        None
    }
}

/// The anomaly score that a `setvar` adds, by the name of the score.
pub open spec fn score_named(setvar: Seq<char>) -> Option<u32> {
    let val = lowercase(setvar);
    if contains(val, "critical_anomaly_score"@) {
        Some(5u32)
    } else if contains(val, "error_anomaly_score"@) {
        Some(4u32)
    } else if contains(val, "warning_anomaly_score"@) {
        Some(3u32)
    } else if contains(val, "notice_anomaly_score"@) {
        Some(2u32)
    } else {
        None
    }
}

/// The anomaly score that a `setvar` adds, by the name of the score, as in
/// `tx.inbound_anomaly_score_pl1=+%{tx.critical_anomaly_score}`.
pub fn extract_anomaly_score(setvar: &[char]) -> (r: Option<u32>)
    ensures
        r == score_named(setvar@),
{
    let lowered = lower(setvar);
    let val = lowered.as_slice();
    if mentions(val, "critical_anomaly_score") {
        Some(5)
    } else if mentions(val, "error_anomaly_score") {
        Some(4)
    } else if mentions(val, "warning_anomaly_score") {
        Some(3)
    } else if mentions(val, "notice_anomaly_score") {
        Some(2)
    } else {
        None
    }
}

/// One action of a rule.
pub enum ActionToken {
    /// `id:N`
    Id(u32),
    /// `phase:N`
    Phase(Phase),
    /// `block`, `deny`, `pass` and `allow`
    Act(Action),
    /// `chain`
    Chain,
    /// `msg:'..'`
    Msg(String),
    /// `tag:'..'`
    Tag(String),
    /// `t:name`
    Transform(Transform),
    /// `severity:'..'`
    Severity(Option<Severity>),
    /// `skipAfter:name`
    SkipAfter(String),
    /// `setvar:'..'`
    Setvar(Option<u32>),
    /// Any other action.
    Ignored,
}

/// An [`ActionToken`] with texts in place of strings.
pub enum TokenView {
    Id(u32),
    Phase(Phase),
    Act(Action),
    Chain,
    Msg(Seq<char>),
    Tag(Seq<char>),
    Transform(TransformView),
    Severity(Option<Severity>),
    SkipAfter(Seq<char>),
    Setvar(Option<u32>),
    Ignored,
}

impl View for ActionToken {
    type V = TokenView;

    open spec fn view(&self) -> TokenView {
        match *self {
            ActionToken::Id(n) => TokenView::Id(n),
            ActionToken::Phase(p) => TokenView::Phase(p),
            ActionToken::Act(a) => TokenView::Act(a),
            ActionToken::Chain => TokenView::Chain,
            ActionToken::Msg(m) => TokenView::Msg(m@),
            ActionToken::Tag(t) => TokenView::Tag(t@),
            ActionToken::Transform(t) => TokenView::Transform(t@),
            ActionToken::Severity(s) => TokenView::Severity(s),
            ActionToken::SkipAfter(m) => TokenView::SkipAfter(m@),
            ActionToken::Setvar(n) => TokenView::Setvar(n),
            ActionToken::Ignored => TokenView::Ignored,
        }
    }
}

/// The phase with a number or a name; the second where it has neither.
pub open spec fn phase_named(s: Seq<char>) -> Phase {
    let name = trim(s);
    if name == "1"@ || name == "request-headers"@ {
        Phase::One
    } else if name == "3"@ || name == "response-headers"@ {
        Phase::Three
    } else if name == "4"@ || name == "response-body"@ {
        Phase::Four
    } else if name == "5"@ || name == "logging"@ {
        Phase::Five
    } else {
        Phase::Two
    }
}

fn parse_phase(s: &[char]) -> (p: Phase)
    ensures
        p == phase_named(s@),
{
    let name = trimmed(s);
    if is_text(name, "1") || is_text(name, "request-headers") {
        Phase::One
    } else if is_text(name, "3") || is_text(name, "response-headers") {
        Phase::Three
    } else if is_text(name, "4") || is_text(name, "response-body") {
        Phase::Four
    } else if is_text(name, "5") || is_text(name, "logging") {
        Phase::Five
    } else {
        Phase::Two
    }
}

/// The number of an `id`, or 0.
pub open spec fn id_or_zero(s: Seq<char>) -> u32 {
    match parse_natural(s, 10, u32::MAX as int) {
        Ok(n) => n as u32,
        Err(_) => 0,
    }
}

fn parse_id(s: &[char]) -> (n: u32)
    ensures
        n == id_or_zero(s@),
{
    match natural(s, 10, 0xffff_ffff) {
        Ok(n) => n as u32,
        Err(_) => 0,
    }
}

/// The action that a text writes.
pub open spec fn token_in(t: Seq<char>) -> TokenView {
    if starts_with(t, "id:"@) {
        TokenView::Id(id_or_zero(t.skip(3)))
    } else if starts_with(t, "phase:"@) {
        TokenView::Phase(phase_named(t.skip(6)))
    } else if t == "block"@ || t == "deny"@ {
        TokenView::Act(Action::Block)
    } else if t == "pass"@ || t == "allow"@ {
        TokenView::Act(Action::Pass)
    } else if t == "chain"@ {
        TokenView::Chain
    } else if starts_with(t, "msg:'"@) {
        TokenView::Msg(trim_end_char(t.skip(5), '\''))
    } else if starts_with(t, "msg:\""@) {
        TokenView::Msg(trim_end_char(t.skip(5), '"'))
    } else if starts_with(t, "tag:'"@) {
        TokenView::Tag(trim_end_char(t.skip(5), '\''))
    } else if starts_with(t, "tag:\""@) {
        TokenView::Tag(trim_end_char(t.skip(5), '"'))
    } else if starts_with(t, "t:"@) {
        TokenView::Transform(transform_named(t.skip(2)))
    } else if starts_with(t, "severity:'"@) {
        TokenView::Severity(severity_named(trim_end_char(t.skip(10), '\'')))
    } else if starts_with(t, "severity:\""@) {
        TokenView::Severity(severity_named(trim_end_char(t.skip(10), '"')))
    } else if starts_with(t, "skipAfter:"@) {
        TokenView::SkipAfter(trim(t.skip(10)))
    } else if starts_with(t, "setvar:'"@) || starts_with(t, "setvar:\""@) {
        TokenView::Setvar(score_named(t.skip(8)))
    } else {
        TokenView::Ignored
    }
}

/// The action that a text writes.
pub fn parse_token(t: &[char]) -> (out: ActionToken)
    ensures
        out@ == token_in(t@),
{
    proof {
        reveal_strlit("id:");
        reveal_strlit("phase:");
        reveal_strlit("msg:'");
        reveal_strlit("msg:\"");
        reveal_strlit("tag:'");
        reveal_strlit("tag:\"");
        reveal_strlit("t:");
        reveal_strlit("severity:'");
        reveal_strlit("severity:\"");
        reveal_strlit("skipAfter:");
        reveal_strlit("setvar:'");
        reveal_strlit("setvar:\"");
    }
    if let Some(val) = strip(t, "id:") {
        ActionToken::Id(parse_id(val))
    } else if let Some(val) = strip(t, "phase:") {
        ActionToken::Phase(parse_phase(val))
    } else if is_text(t, "block") || is_text(t, "deny") {
        ActionToken::Act(Action::Block)
    } else if is_text(t, "pass") || is_text(t, "allow") {
        ActionToken::Act(Action::Pass)
    } else if is_text(t, "chain") {
        ActionToken::Chain
    } else if let Some(val) = strip(t, "msg:'") {
        ActionToken::Msg(string_of(trimmed_end_char(val, '\'')))
    } else if let Some(val) = strip(t, "msg:\"") {
        ActionToken::Msg(string_of(trimmed_end_char(val, '"')))
    } else if let Some(val) = strip(t, "tag:'") {
        ActionToken::Tag(string_of(trimmed_end_char(val, '\'')))
    } else if let Some(val) = strip(t, "tag:\"") {
        ActionToken::Tag(string_of(trimmed_end_char(val, '"')))
    } else if let Some(val) = strip(t, "t:") {
        ActionToken::Transform(parse_transform(val))
    } else if let Some(val) = strip(t, "severity:'") {
        ActionToken::Severity(parse_severity(trimmed_end_char(val, '\'')))
    } else if let Some(val) = strip(t, "severity:\"") {
        ActionToken::Severity(parse_severity(trimmed_end_char(val, '"')))
    } else if let Some(val) = strip(t, "skipAfter:") {
        ActionToken::SkipAfter(string_of(trimmed(val)))
    } else if let Some(val) = strip(t, "setvar:'") {
        ActionToken::Setvar(extract_anomaly_score(val))
    } else if let Some(val) = strip(t, "setvar:\"") {
        ActionToken::Setvar(extract_anomaly_score(val))
    } else {
        ActionToken::Ignored
    }
}

/// What the actions of a rule say.
pub struct Actions {
    pub transforms: Vec<Transform>,
    pub id: u32,
    pub phase: Phase,
    pub action: Action,
    pub msg: Option<String>,
    pub tags: Vec<String>,
    pub severity: Option<Severity>,
    pub skip_after: Option<String>,
    pub anomaly_score: Option<u32>,
    pub chain: bool,
}

/// An [`Actions`] with texts in place of strings.
pub struct ActionsView {
    pub transforms: Seq<TransformView>,
    pub id: u32,
    pub phase: Phase,
    pub action: Action,
    pub msg: Option<Seq<char>>,
    pub tags: Seq<Seq<char>>,
    pub severity: Option<Severity>,
    pub skip_after: Option<Seq<char>>,
    pub anomaly_score: Option<u32>,
    pub chain: bool,
}

impl View for Actions {
    type V = ActionsView;

    open spec fn view(&self) -> ActionsView {
        ActionsView {
            transforms: transforms_view(self.transforms@),
            id: self.id,
            phase: self.phase,
            action: self.action,
            msg: text_opt(self.msg),
            tags: texts(self.tags@),
            severity: self.severity,
            skip_after: text_opt(self.skip_after),
            anomaly_score: self.anomaly_score,
            chain: self.chain,
        }
    }
}

/// What a rule without actions does: it passes, in the second phase.
pub open spec fn no_actions() -> ActionsView {
    ActionsView {
        transforms: seq![],
        id: 0,
        phase: Phase::Two,
        action: Action::Pass,
        msg: None,
        tags: seq![],
        severity: None,
        skip_after: None,
        anomaly_score: None,
        chain: false,
    }
}

/// What one more action adds. Of several scores the first counts; of the other
/// actions that say one thing, the last.
pub open spec fn with_token(a: ActionsView, token: TokenView) -> ActionsView {
    match token {
        TokenView::Id(id) => ActionsView { id, ..a },
        TokenView::Phase(phase) => ActionsView { phase, ..a },
        TokenView::Act(action) => ActionsView { action, ..a },
        TokenView::Chain => ActionsView { chain: true, ..a },
        TokenView::Msg(m) => ActionsView { msg: Some(m), ..a },
        TokenView::Tag(t) => ActionsView { tags: a.tags.push(t), ..a },
        TokenView::Transform(t) => ActionsView { transforms: a.transforms.push(t), ..a },
        TokenView::Severity(severity) => ActionsView { severity, ..a },
        TokenView::SkipAfter(m) => ActionsView { skip_after: Some(m), ..a },
        TokenView::Setvar(n) => ActionsView {
            anomaly_score: if a.anomaly_score is Some {
                a.anomaly_score
            } else {
                n
            },
            ..a
        },
        TokenView::Ignored => a,
    }
}

/// What a list of actions says, one after the other.
pub open spec fn actions_in(parts: Seq<Seq<char>>) -> ActionsView
    decreases parts.len(),
{
    if parts.len() == 0 {
        no_actions()
    } else {
        with_token(actions_in(parts.drop_last()), token_in(trim(parts.last())))
    }
}

/// Adds what one more action says.
fn add_token(a: Actions, token: ActionToken) -> (out: Actions)
    ensures
        out@ == with_token(a@, token@),
{
    let mut out = a;
    match token {
        ActionToken::Id(id) => {
            out.id = id;
        },
        ActionToken::Phase(phase) => {
            out.phase = phase;
        },
        ActionToken::Act(action) => {
            out.action = action;
        },
        ActionToken::Chain => {
            out.chain = true;
        },
        ActionToken::Msg(m) => {
            out.msg = Some(m);
        },
        ActionToken::Tag(t) => {
            out.tags.push(t);
            assert(texts(out.tags@) =~= texts(a.tags@).push(t@));
        },
        ActionToken::Transform(t) => {
            out.transforms.push(t);
            assert(transforms_view(out.transforms@) =~= transforms_view(a.transforms@).push(t@));
        },
        ActionToken::Severity(severity) => {
            out.severity = severity;
        },
        ActionToken::SkipAfter(m) => {
            out.skip_after = Some(m);
        },
        ActionToken::Setvar(n) => {
            if out.anomaly_score.is_none() {
                out.anomaly_score = n;
            }
        },
        ActionToken::Ignored => {},
    }
    out
}

/// What the actions of a rule say, given the text between their quotation marks.
pub fn parse_actions(raw: &str) -> (out: Actions)
    ensures
        out@ == actions_in(action_texts(raw@)),
{
    let parts = split_actions(raw);
    let ghost all = char_lists(parts@);
    let mut out = Actions {
        transforms: Vec::new(),
        id: 0,
        phase: Phase::Two,
        action: Action::Pass,
        msg: None,
        tags: Vec::new(),
        severity: None,
        skip_after: None,
        anomaly_score: None,
        chain: false,
    };
    assert(texts(out.tags@) =~= seq![]);
    assert(transforms_view(out.transforms@) =~= seq![]);
    for i in 0..parts.len()
        invariant
            all == char_lists(parts@),
            out@ == actions_in(all.take(i as int)),
    {
        assert(all.take(i + 1).drop_last() =~= all.take(i as int));
        assert(all.take(i + 1).last() == parts@[i as int]@);
        let token = parse_token(trimmed(parts[i].as_slice()));
        out = add_token(out, token);
    }
    assert(all.take(all.len() as int) =~= all);
    out
}

// ---------------------------------------------------------------------------
// Rules
// ---------------------------------------------------------------------------

/// The paranoia level that the first tag of the kind `paranoia-level/N` names,
/// or 0.
pub open spec fn level_named(tags: Seq<Seq<char>>) -> u8
    decreases tags.len(),
{
    if tags.len() == 0 {
        0
    } else {
        match after_prefix(tags[0], "paranoia-level/"@) {
            Some(n) => match parse_natural(n, 10, 255) {
                Ok(v) => v as u8,
                Err(_) => 0,
            },
            None => level_named(tags.skip(1)),
        }
    }
}

fn paranoia_level(tags: &Vec<String>) -> (level: u8)
    ensures
        level == level_named(texts(tags@)),
{
    let ghost all = texts(tags@);
    assert(all.skip(0) =~= all);
    for i in 0..tags.len()
        invariant
            all == texts(tags@),
            level_named(all) == level_named(all.skip(i as int)),
    {
        assert(all.skip(i as int)[0] == tags@[i as int]@);
        assert(all.skip(i as int).skip(1) =~= all.skip(i + 1));
        let tag = chars_of(tags[i].as_str());
        if let Some(n) = strip(tag.as_slice(), "paranoia-level/") {
            return match natural(n, 10, 255) {
                Ok(v) => v as u8,
                Err(_) => 0,
            };
        }
    }
    assert(all.skip(all.len() as int) =~= seq![]);
    0
}

/// The parts of a `SecRule`: the variables, the operator and the actions. The
/// actions are the last quoted block; the variables end at the first whitespace.
pub open spec fn secrule_parts(body: Seq<char>) -> Option<(Seq<char>, Seq<char>, Seq<char>)> {
    let input = trim(body);
    match last_block(input) {
        Some(open) => match closing_quote(input.skip(open + 1), 0) {
            Some(end) => match first_word(trim(input.take(open))) {
                Some((vars, rest)) => Some(
                    (
                        vars,
                        trim(trim_char(trim(rest), '"')),
                        input.skip(open + 1).take(end),
                    ),
                ),
                None => None,
            },
            None => None,
        },
        None => None,
    }
}

/// The rule that the text behind `SecRule` writes, and whether the next rule is
/// chained to it.
pub open spec fn secrule_in(body: Seq<char>) -> Option<(RuleView, bool)> {
    match secrule_parts(body) {
        Some((vars, op, actions)) => {
            let a = actions_in(action_texts(actions));
            Some(
                (
                    RuleView {
                        id: a.id,
                        phase: a.phase,
                        condition: ConditionView {
                            variables: variables_named(vars),
                            operator: operator_in(op),
                            transforms: a.transforms,
                        },
                        action: a.action,
                        msg: a.msg,
                        tags: a.tags,
                        severity: a.severity,
                        chained: seq![],
                        skip_after: a.skip_after,
                        anomaly_score: a.anomaly_score,
                        paranoia_level: level_named(a.tags),
                    },
                    a.chain,
                ),
            )
        },
        None => None,
    }
}

/// The model of what [`parse_secrule`] returns.
pub open spec fn secrule_view(r: Option<(Rule, bool)>) -> Option<(RuleView, bool)> {
    match r {
        Some((rule, chain)) => Some((rule@, chain)),
        None => None,
    }
}

/// The rule that the text behind `SecRule` writes, and whether the next rule is
/// chained to it.
pub fn parse_secrule(body: &[char]) -> (r: Option<(Rule, bool)>)
    ensures
        secrule_view(r) == secrule_in(body@),
{
    let input = trimmed(body);
    let open = match find_last_quoted_block_start(input) {
        Some(i) => i,
        None => {
            return None;
        },
    };
    let len = input.len();
    let before = trimmed(slice_subrange(input, 0, open));
    let after = slice_subrange(input, open + 1, len);
    assert(input@.subrange(0, open as int) =~= input@.take(open as int));
    assert(after@ =~= input@.skip(open + 1));
    let end = match find_closing_quote(after) {
        Some(i) => i,
        None => {
            return None;
        },
    };
    let actions = slice_subrange(after, 0, end);
    assert(actions@ =~= after@.take(end as int));
    let (vars, rest) = match split_first_ws(before) {
        Some(p) => p,
        None => {
            return None;
        },
    };
    let variables = variables_in(vars);
    let operator = parse_operator(trimmed(trimmed_char(trimmed(rest), '"')));
    let a = parse_actions(string_of(actions).as_str());
    let level = paranoia_level(&a.tags);
    let rule = Rule {
        id: a.id,
        phase: a.phase,
        variables,
        operator,
        transforms: a.transforms,
        action: a.action,
        msg: a.msg,
        tags: a.tags,
        severity: a.severity,
        chained: Vec::new(),
        skip_after: a.skip_after,
        anomaly_score: a.anomaly_score,
        paranoia_level: level,
    };
    assert(chained_view(rule.chained@) =~= seq![]);
    Some((rule, a.chain))
}

// ---------------------------------------------------------------------------
// Files
// ---------------------------------------------------------------------------

/// A directive of a rule file.
pub enum DirectiveView {
    /// A blank line, a comment, or a `SecRule` that cannot be read.
    Nothing,
    /// `SecMarker`
    Marker(Seq<char>),
    /// `SecRule`
    Rule(RuleView, bool),
    /// Any other directive.
    Other,
}

/// The directive on a logical line.
pub open spec fn directive_in(line: Seq<char>) -> DirectiveView {
    let t = trim(line);
    if t.len() == 0 || starts_with(t, "#"@) {
        DirectiveView::Nothing
    } else {
        match after_prefix(t, "SecMarker"@) {
            Some(rest) => DirectiveView::Marker(trim(trim_char(trim(rest), '"'))),
            None => match after_prefix(t, "SecRule"@) {
                Some(rest) => match secrule_in(trim(rest)) {
                    Some((rule, chain)) => DirectiveView::Rule(rule, chain),
                    None => DirectiveView::Nothing,
                },
                None => DirectiveView::Other,
            },
        }
    }
}

/// The rule that stands for a marker: it has the id 0 and the marker's name.
pub open spec fn marker_rule(name: Seq<char>) -> RuleView {
    RuleView {
        id: 0,
        phase: Phase::Two,
        condition: ConditionView {
            variables: seq![],
            operator: OperatorView::Pass,
            transforms: seq![],
        },
        action: Action::Pass,
        msg: None,
        tags: seq![],
        severity: None,
        chained: seq![],
        skip_after: Some(name),
        anomaly_score: None,
        paranoia_level: 0,
    }
}

/// What was read of a file: the finished rules, and the rule whose chain is
/// still open.
pub struct Reading {
    pub rules: Seq<RuleView>,
    pub open: Option<RuleView>,
}

/// The finished rules with the one whose chain was open behind them.
pub open spec fn closed_rules(r: Reading) -> Seq<RuleView> {
    match r.open {
        Some(rule) => r.rules.push(rule),
        None => r.rules,
    }
}

/// What one more directive adds. A rule goes into the open chain where there is
/// one, and closes it where it does not continue it. A marker or any other
/// directive closes an open chain.
pub open spec fn read_directive(r: Reading, d: DirectiveView) -> Reading {
    match d {
        DirectiveView::Nothing => r,
        DirectiveView::Marker(name) => Reading {
            rules: closed_rules(r).push(marker_rule(name)),
            open: None,
        },
        DirectiveView::Rule(rule, chain) => match r.open {
            Some(top) => {
                let longer = RuleView { chained: top.chained.push(rule.condition), ..top };
                if chain {
                    Reading { open: Some(longer), ..r }
                } else {
                    Reading { rules: r.rules.push(longer), open: None }
                }
            },
            None => if chain {
                Reading { open: Some(rule), ..r }
            } else {
                Reading { rules: r.rules.push(rule), open: None }
            },
        },
        DirectiveView::Other => Reading { rules: closed_rules(r), open: None },
    }
}

/// What was read after the given logical lines.
pub open spec fn read_lines(ls: Seq<Seq<char>>) -> Reading
    decreases ls.len(),
{
    if ls.len() == 0 {
        Reading { rules: seq![], open: None }
    } else {
        read_directive(read_lines(ls.drop_last()), directive_in(ls.last()))
    }
}

/// The rules in a file.
pub open spec fn rules_in(s: Seq<char>) -> Seq<RuleView> {
    closed_rules(read_lines(logical_lines(s)))
}

/// The model of a rule that may be missing.
pub open spec fn rule_opt(o: Option<Rule>) -> Option<RuleView> {
    match o {
        Some(r) => Some(r@),
        None => None,
    }
}

fn push_rule(rules: &mut Vec<Rule>, rule: Rule)
    ensures
        rules_view(final(rules)@) == rules_view(old(rules)@).push(rule@),
{
    let ghost before = rules@;
    rules.push(rule);
    assert(rules_view(rules@) =~= rules_view(before).push(rule@));
}

/// Closes an open chain.
fn flush_chain(open: Option<Rule>, rules: &mut Vec<Rule>)
    ensures
        rules_view(final(rules)@) == closed_rules(
            Reading { rules: rules_view(old(rules)@), open: rule_opt(open) },
        ),
{
    if let Some(rule) = open {
        push_rule(rules, rule);
    }
}

fn marker(name: String) -> (rule: Rule)
    ensures
        rule@ == marker_rule(name@),
{
    let rule = Rule {
        id: 0,
        phase: Phase::Two,
        variables: Vec::new(),
        operator: Operator::Pass,
        transforms: Vec::new(),
        action: Action::Pass,
        msg: None,
        tags: Vec::new(),
        severity: None,
        chained: Vec::new(),
        skip_after: Some(name),
        anomaly_score: None,
        paranoia_level: 0,
    };
    assert(variables_view(rule.variables@) =~= seq![]);
    assert(transforms_view(rule.transforms@) =~= seq![]);
    assert(texts(rule.tags@) =~= seq![]);
    assert(chained_view(rule.chained@) =~= seq![]);
    rule
}

/// Chains a rule to another.
fn chain_onto(top: Rule, rule: Rule) -> (out: Rule)
    ensures
        out@ == (RuleView { chained: top@.chained.push(rule@.condition), ..top@ }),
{
    let mut out = top;
    let chained = ChainedRule {
        variables: rule.variables,
        operator: rule.operator,
        transforms: rule.transforms,
    };
    out.chained.push(chained);
    assert(chained_view(out.chained@) =~= chained_view(top.chained@).push(rule@.condition));
    out
}

/// Reads one logical line.
fn read_line(line: &[char], open: Option<Rule>, rules: &mut Vec<Rule>) -> (still_open: Option<
    Rule,
>)
    ensures
        read_directive(
            Reading { rules: rules_view(old(rules)@), open: rule_opt(open) },
            directive_in(line@),
        ) == (Reading { rules: rules_view(final(rules)@), open: rule_opt(still_open) }),
{
    let t = trimmed(line);
    if t.len() == 0 || begins(t, "#") {
        return open;
    }
    if let Some(rest) = strip(t, "SecMarker") {
        flush_chain(open, rules);
        push_rule(rules, marker(string_of(trimmed(trimmed_char(trimmed(rest), '"')))));
        return None;
    }
    if let Some(rest) = strip(t, "SecRule") {
        return match parse_secrule(trimmed(rest)) {
            Some((rule, chain)) => match open {
                Some(top) => {
                    let longer = chain_onto(top, rule);
                    if chain {
                        Some(longer)
                    } else {
                        push_rule(rules, longer);
                        None
                    }
                },
                None => if chain {
                    Some(rule)
                } else {
                    push_rule(rules, rule);
                    None
                },
            },
            None => open,
        };
    }
    flush_chain(open, rules);
    None
}

/// The rules in the text of a file. What cannot be read is left out.
///
/// A marker becomes a rule with the id 0 whose `skip_after` is the marker's
/// name.
pub fn parse_str(input: &str) -> (rules: Vec<Rule>)
    ensures
        rules_view(rules@) == rules_in(input@),
{
    let cs = chars_of(input);
    let ls = join_continuations(cs.as_slice());
    let ghost all = char_lists(ls@);
    let mut rules: Vec<Rule> = Vec::new();
    let mut open: Option<Rule> = None;
    assert(rules_view(rules@) =~= seq![]);
    for i in 0..ls.len()
        invariant
            all == char_lists(ls@),
            read_lines(all.take(i as int)) == (Reading {
                rules: rules_view(rules@),
                open: rule_opt(open),
            }),
    {
        assert(all.take(i + 1).drop_last() =~= all.take(i as int));
        assert(all.take(i + 1).last() == ls@[i as int]@);
        open = read_line(ls[i].as_slice(), open, &mut rules);
    }
    assert(all.take(all.len() as int) =~= all);
    flush_chain(open, &mut rules);
    rules
}

// ---------------------------------------------------------------------------
// Laws
// ---------------------------------------------------------------------------

/// A line that holds no directive makes no difference: blank lines, comments,
/// and rules that cannot be read are as if they were not there.
pub proof fn lemma_idle_line(ls: Seq<Seq<char>>, k: int)
    requires
        0 <= k < ls.len(),
        directive_in(ls[k]) is Nothing,
    ensures
        read_lines(ls.remove(k)) == read_lines(ls),
    decreases ls.len(),
{
    if k == ls.len() - 1 {
        assert(ls.remove(k) =~= ls.drop_last());
    } else {
        lemma_idle_line(ls.drop_last(), k);
        assert(ls.remove(k).drop_last() =~= ls.drop_last().remove(k));
        assert(ls.remove(k).last() == ls.last());
    }
}

/// A blank line or a comment holds no directive.
pub proof fn lemma_comment(line: Seq<char>)
    requires
        trim(line).len() == 0 || starts_with(trim(line), "#"@),
    ensures
        directive_in(line) is Nothing,
{
}

/// A file never yields more rules than it has logical lines: a rule with its
/// chain counts once.
pub proof fn lemma_rules_at_most_lines(ls: Seq<Seq<char>>)
    ensures
        closed_rules(read_lines(ls)).len() <= ls.len(),
    decreases ls.len(),
{
    if ls.len() > 0 {
        lemma_rules_at_most_lines(ls.drop_last());
    }
}

/// The first quotation mark, where no backslash stands before it, closes.
pub proof fn lemma_closing_quote(s: Seq<char>, i: int, n: int)
    requires
        0 <= i <= n < s.len(),
        s[n] == '"',
        forall|j: int| i <= j < n ==> #[trigger] s[j] != '"' && s[j] != '\\',
    ensures
        closing_quote(s, i) == Some(n),
    decreases n - i,
{
    if i < n {
        lemma_closing_quote(s, i + 1, n);
    }
}

proof fn lemma_last_opening(s: Seq<char>, start: int, end: int)
    requires
        0 <= start <= end <= s.len(),
        forall|i: int| start <= i < end ==> #[trigger] s[i] != '"',
    ensures
        last_opening(s, end) == last_opening(s, start),
    decreases end,
{
    if start < end {
        assert(s[end - 1] != '"');
        lemma_last_opening(s, start, end - 1);
    }
}

/// A rule as it is usually written: the variables, the operator and the actions,
/// the latter two in quotation marks.
pub open spec fn written_rule(vars: Seq<char>, op: Seq<char>, actions: Seq<char>) -> Seq<char> {
    vars + seq![' ', '"'] + op + seq!['"', ' ', '"'] + actions + seq!['"']
}

/// What can be written of a rule as it is: variables without whitespace and
/// quotation marks, an operator without quotation marks around it, and actions
/// without quotation marks and backslashes.
pub open spec fn writable(vars: Seq<char>, op: Seq<char>, actions: Seq<char>) -> bool {
    &&& vars.len() > 0
    &&& forall|i: int| 0 <= i < vars.len() ==> !is_space(#[trigger] vars[i]) && vars[i] != '"'
    &&& op.len() > 0 ==> op[0] != '"' && op.last() != '"'
    &&& forall|i: int|
        0 <= i < actions.len() ==> #[trigger] actions[i] != '"' && actions[i] != '\\'
}

/// What is written of a rule is what is read: its variables, its operator and
/// its actions.
pub proof fn lemma_written_rule(vars: Seq<char>, op: Seq<char>, actions: Seq<char>)
    requires
        writable(vars, op, actions),
    ensures
        secrule_parts(written_rule(vars, op, actions)) == Some((vars, trim(op), actions)),
{
    let s = written_rule(vars, op, actions);
    let open = vars.len() + 4 + op.len() as int;
    let v = vars.len() as int;
    assert(s[0] == vars[0]);
    lemma_trimmed_already(s);

    // The actions are the last quoted block.
    lemma_trailing_is(s, not_char('"'), 0);
    assert forall|i: int| open + 1 <= i < s.len() - 1 implies #[trigger] s[i] != '"' by {
        assert(s[i] == actions[i - open - 1]);
    }
    lemma_last_opening(s, open + 1, s.len() - 1);
    assert(s[open] == '"');
    assert(s.take(open)[open - 1] == ' ');
    lemma_trailing_is(s.take(open), is_char('\\'), 0);
    assert(last_block(s) == Some(open));
    let block = s.skip(open + 1);
    assert(block =~= actions + seq!['"']);
    lemma_closing_quote(block, 0, actions.len() as int);
    assert(block.take(actions.len() as int) =~= actions);

    // The variables are the first word before them.
    let before = s.take(open);
    let front = vars + seq![' ', '"'] + op + seq!['"'];
    let space = |x: char| is_space(x);
    assert(before =~= front.push(' '));
    assert(before[0] == vars[0]);
    lemma_leading_is(before, space, 0);
    assert(before.skip(0) =~= before);
    assert(before[before.len() - 2] == '"');
    lemma_trailing_is(before, space, 1);
    assert(before.take(before.len() - 1) =~= front);
    assert(trim(before) == front);
    let word = |x: char| !is_ascii_space(x);
    assert forall|i: int| 0 <= i < v implies word(#[trigger] front[i]) by {
        assert(front[i] == vars[i]);
    }
    assert(front[v] == ' ');
    lemma_leading_is(front, word, v);
    assert(front.take(v) =~= vars);
    let rest = front.skip(v + 1);
    assert(rest =~= seq!['"'] + op + seq!['"']);
    lemma_trimmed_already(rest);

    // The operator is what stands between its quotation marks.
    if op.len() > 0 {
        assert(rest[1] == op[0]);
        lemma_leading_is(rest, is_char('"'), 1);
        let tail = rest.skip(1);
        assert(tail =~= op + seq!['"']);
        assert(tail[tail.len() - 2] == op.last());
        lemma_trailing_is(tail, is_char('"'), 1);
        assert(tail.take(tail.len() - 1) =~= op);
    } else {
        lemma_leading_is(rest, is_char('"'), 2);
        let tail = rest.skip(2);
        assert(tail =~= op);
        lemma_trailing_is(tail, is_char('"'), 0);
        assert(tail.take(0) =~= op);
    }
}

/// A line with such a rule holds that rule.
pub proof fn lemma_rule_line(vars: Seq<char>, op: Seq<char>, actions: Seq<char>)
    requires
        writable(vars, op, actions),
    ensures
        secrule_in(written_rule(vars, op, actions)) is Some,
        directive_in("SecRule "@ + written_rule(vars, op, actions)) == DirectiveView::Rule(
            (secrule_in(written_rule(vars, op, actions))->0).0,
            (secrule_in(written_rule(vars, op, actions))->0).1,
        ),
{
    let s = written_rule(vars, op, actions);
    let line = "SecRule "@ + s;
    lemma_written_rule(vars, op, actions);
    reveal_strlit("SecRule ");
    reveal_strlit("SecRule");
    reveal_strlit("SecMarker");
    reveal_strlit("#");
    assert(line[0] == 'S' && line[3] == 'R');
    assert(line.last() == '"');
    lemma_trimmed_already(line);
    assert(starts_with(line, "#"@) ==> line.take(1)[0] == '#');
    assert(starts_with(line, "SecMarker"@) ==> line.take(9)[3] == 'M');
    assert(line.take(7) =~= "SecRule"@);
    let rest = line.skip(7);
    assert(rest =~= seq![' '] + s);
    let space = |x: char| is_space(x);
    assert(s[0] == vars[0]);
    assert(rest[1] == s[0]);
    lemma_leading_is(rest, space, 1);
    assert(rest.skip(1) =~= s);
    lemma_trailing_is(s, space, 0);
    assert(s.take(s.len() as int) =~= s);
}

} // verus!
