//! Judging a request by the rules: paranoia levels, the values that a rule
//! inspects, chained rules, jumps to markers and the anomaly score.

use vstd::prelude::*;

use crate::crs::operators::operator_matches;
use crate::crs::transforms::{apply_transforms, decode, decoded, transformed_by, Escapes};
use crate::crs::types::{
    rules_view, transforms_view, variables_view, Action, ConditionView, Operator, Rule, RuleView,
    Transform, Variable, VariableView,
};
use crate::number::{decimal, write_decimal};
use crate::ordered::{lookup, TextMap};
use crate::text::{
    byte_chars, byte_chars_of, chars_of, lowercase, push_chars, push_text, same_text, slices,
    split_at_char, split_char, split_first, split_once, str_opt, string_of, text_opt, texts, trim,
    trimmed,
};

verus! {

// ---------------------------------------------------------------------------
// Requests
// ---------------------------------------------------------------------------

/// What the rules see of a request.
pub struct RequestContext<'a> {
    pub method: &'a str,
    pub path: &'a str,
    pub query: Option<&'a str>,
    pub user_agent: Option<&'a str>,
    pub headers: &'a TextMap<String>,
    pub body: Option<&'a str>,
}

/// A [`RequestContext`] with texts in place of strings.
pub struct ContextView {
    pub method: Seq<char>,
    pub path: Seq<char>,
    pub query: Option<Seq<char>>,
    pub user_agent: Option<Seq<char>>,
    pub headers: Seq<(Seq<char>, Seq<char>)>,
    pub body: Option<Seq<char>>,
}

impl<'a> View for RequestContext<'a> {
    type V = ContextView;

    open spec fn view(&self) -> ContextView {
        ContextView {
            method: self.method@,
            path: self.path@,
            query: str_opt(self.query),
            user_agent: str_opt(self.user_agent),
            headers: self.headers@,
            body: str_opt(self.body),
        }
    }
}

// ---------------------------------------------------------------------------
// Parameters and cookies
// ---------------------------------------------------------------------------

/// The lists of `name=value` pairs in a request, and what is wanted of them.
#[derive(Clone, Copy, Debug, PartialEq, Eq, Structural)]
pub enum Pairs {
    /// The values of parameters: `key=value&key2=value2`.
    FormValues,
    /// The names of parameters.
    FormNames,
    /// The values of cookies: `name=value; name2=value2`.
    CookieValues,
    /// The names of cookies.
    CookieNames,
}

/// A parameter's text with its escapes decoded byte by byte.
pub open spec fn form_text(s: Seq<char>) -> Seq<char> {
    decoded(Escapes::Form, byte_chars(s))
}

/// What is wanted of one pair. A pair without `=` is a value and has no name.
pub open spec fn pair_part(kind: Pairs, pair: Seq<char>) -> Option<Seq<char>> {
    match kind {
        Pairs::FormValues => if pair.len() == 0 {
            None
        } else {
            match split_once(pair, '=') {
                Some((_, v)) => Some(form_text(v)),
                None => Some(form_text(pair)),
            }
        },
        Pairs::FormNames => match split_once(pair, '=') {
            Some((k, _)) => Some(form_text(k)),
            None => None,
        },
        Pairs::CookieValues => if trim(pair).len() == 0 {
            None
        } else {
            match split_once(trim(pair), '=') {
                Some((_, v)) => Some(trim(v)),
                None => Some(trim(pair)),
            }
        },
        Pairs::CookieNames => match split_once(trim(pair), '=') {
            Some((k, _)) => Some(trim(k)),
            None => None,
        },
    }
}

/// What is wanted of the pairs, in order.
pub open spec fn pair_parts(kind: Pairs, pairs: Seq<Seq<char>>) -> Seq<Seq<char>>
    decreases pairs.len(),
{
    if pairs.len() == 0 {
        seq![]
    } else {
        let head = pair_parts(kind, pairs.drop_last());
        match pair_part(kind, pairs.last()) {
            Some(t) => head.push(t),
            None => head,
        }
    }
}

/// The character between two pairs.
pub open spec fn pair_separator(kind: Pairs) -> char {
    match kind {
        Pairs::FormValues | Pairs::FormNames => '&',
        Pairs::CookieValues | Pairs::CookieNames => ';',
    }
}

/// What is wanted of a whole list of pairs.
pub open spec fn listed(kind: Pairs, s: Seq<char>) -> Seq<Seq<char>> {
    pair_parts(kind, split_char(s, pair_separator(kind)))
}

/// Decodes `%XX` escapes byte by byte; `+` stands for a space.
pub fn url_decode_simple(s: &str) -> (out: String)
    ensures
        out@ == form_text(s@),
{
    let bytes = byte_chars_of(s);
    let out = decode(Escapes::Form, bytes.as_slice());
    string_of(out.as_slice())
}

fn form_string(s: &[char]) -> (out: String)
    ensures
        out@ == form_text(s@),
{
    let text = string_of(s);
    url_decode_simple(text.as_str())
}

fn part_of_pair(kind: Pairs, pair: &[char]) -> (r: Option<String>)
    ensures
        text_opt(r) == pair_part(kind, pair@),
{
    match kind {
        Pairs::FormValues => if pair.len() == 0 {
            None
        } else {
            match split_first(pair, '=') {
                Some((_, v)) => Some(form_string(v)),
                None => Some(form_string(pair)),
            }
        },
        Pairs::FormNames => match split_first(pair, '=') {
            Some((k, _)) => Some(form_string(k)),
            None => None,
        },
        Pairs::CookieValues => {
            let pair = trimmed(pair);
            if pair.len() == 0 {
                None
            } else {
                match split_first(pair, '=') {
                    Some((_, v)) => Some(string_of(trimmed(v))),
                    None => Some(string_of(pair)),
                }
            }
        },
        Pairs::CookieNames => match split_first(trimmed(pair), '=') {
            Some((k, _)) => Some(string_of(trimmed(k))),
            None => None,
        },
    }
}

fn parts_of_pairs(kind: Pairs, s: &str) -> (out: Vec<String>)
    ensures
        texts(out@) == listed(kind, s@),
{
    let cs = chars_of(s);
    let separator = match kind {
        Pairs::FormValues | Pairs::FormNames => '&',
        Pairs::CookieValues | Pairs::CookieNames => ';',
    };
    let pairs = split_at_char(cs.as_slice(), separator);
    let mut out: Vec<String> = Vec::new();
    let ghost all = slices(pairs@);
    assert(texts(out@) =~= pair_parts(kind, all.take(0)));
    for i in 0..pairs.len()
        invariant
            all == slices(pairs@),
            texts(out@) == pair_parts(kind, all.take(i as int)),
    {
        assert(all.take(i + 1).drop_last() =~= all.take(i as int));
        assert(all.take(i + 1).last() == pairs@[i as int]@);
        let ghost before = texts(out@);
        match part_of_pair(kind, pairs[i]) {
            Some(t) => {
                out.push(t);
                assert(texts(out@) =~= before.push(t@));
            },
            None => {},
        }
    }
    assert(all.take(all.len() as int) =~= all);
    out
}

/// The values in `key=value&key2=value2`, decoded.
pub fn parse_urlencoded_values(s: &str) -> (out: Vec<String>)
    ensures
        texts(out@) == listed(Pairs::FormValues, s@),
{
    parts_of_pairs(Pairs::FormValues, s)
}

/// The names in `key=value&key2=value2`, decoded.
pub fn parse_urlencoded_names(s: &str) -> (out: Vec<String>)
    ensures
        texts(out@) == listed(Pairs::FormNames, s@),
{
    parts_of_pairs(Pairs::FormNames, s)
}

/// The values in `name=value; name2=value2`.
pub fn parse_cookie_values(s: &str) -> (out: Vec<String>)
    ensures
        texts(out@) == listed(Pairs::CookieValues, s@),
{
    parts_of_pairs(Pairs::CookieValues, s)
}

/// The names in `name=value; name2=value2`.
pub fn parse_cookie_names(s: &str) -> (out: Vec<String>)
    ensures
        texts(out@) == listed(Pairs::CookieNames, s@),
{
    parts_of_pairs(Pairs::CookieNames, s)
}

// ---------------------------------------------------------------------------
// The values that a rule inspects
// ---------------------------------------------------------------------------

/// One of the variables leaves out the header with this lowercase name.
pub open spec fn leaves_out(vars: Seq<VariableView>, name: Seq<char>) -> bool {
    exists|i: int|
        0 <= i < vars.len() && (#[trigger] vars[i] matches VariableView::RequestHeaderExclude(n)
            && lowercase(n) == name)
}

/// The values of the headers that no variable leaves out.
pub open spec fn headers_kept(
    headers: Seq<(Seq<char>, Seq<char>)>,
    vars: Seq<VariableView>,
) -> Seq<Seq<char>>
    decreases headers.len(),
{
    if headers.len() == 0 {
        seq![]
    } else {
        let head = headers_kept(headers.drop_last(), vars);
        if leaves_out(vars, lowercase(headers.last().0)) {
            head
        } else {
            head.push(headers.last().1)
        }
    }
}

/// The values of the headers with a name, whatever the case.
pub open spec fn headers_named(headers: Seq<(Seq<char>, Seq<char>)>, name: Seq<char>) -> Seq<
    Seq<char>,
>
    decreases headers.len(),
{
    if headers.len() == 0 {
        seq![]
    } else {
        let head = headers_named(headers.drop_last(), name);
        if lowercase(headers.last().0) == lowercase(name) {
            head.push(headers.last().1)
        } else {
            head
        }
    }
}

/// The `Cookie` header.
pub open spec fn cookie_header(headers: Seq<(Seq<char>, Seq<char>)>) -> Option<Seq<char>> {
    match lookup(headers, "cookie"@) {
        Some(v) => Some(v),
        None => lookup(headers, "Cookie"@),
    }
}

/// What is wanted of a list of pairs that may be missing.
pub open spec fn listed_in(kind: Pairs, s: Option<Seq<char>>) -> Seq<Seq<char>> {
    match s {
        Some(t) => listed(kind, t),
        None => seq![],
    }
}

/// The user agent, where the headers do not hold one.
pub open spec fn bare_user_agent(req: ContextView) -> Seq<Seq<char>> {
    match req.user_agent {
        Some(ua) => if lookup(req.headers, "user-agent"@) is None && lookup(
            req.headers,
            "User-Agent"@,
        ) is None {
            seq![ua]
        } else {
            seq![]
        },
        None => seq![],
    }
}

/// The values of one variable, where `vars` are the variables beside it.
pub open spec fn values_of(
    var: VariableView,
    vars: Seq<VariableView>,
    req: ContextView,
) -> Seq<Seq<char>> {
    match var {
        VariableView::Args => listed_in(Pairs::FormValues, req.query) + listed_in(
            Pairs::FormValues,
            req.body,
        ),
        VariableView::ArgsNames => listed_in(Pairs::FormNames, req.query) + listed_in(
            Pairs::FormNames,
            req.body,
        ),
        VariableView::RequestCookies => listed_in(Pairs::CookieValues, cookie_header(req.headers)),
        VariableView::RequestCookiesNames => listed_in(
            Pairs::CookieNames,
            cookie_header(req.headers),
        ),
        VariableView::RequestFilename => seq![req.path],
        VariableView::RequestHeaders => headers_kept(req.headers, vars),
        VariableView::RequestHeader(name) => headers_named(req.headers, name) + (if lowercase(name)
            == "user-agent"@ {
            bare_user_agent(req)
        } else {
            seq![]
        }),
        VariableView::RequestHeaderExclude(_) => seq![],
        VariableView::RequestMethod => seq![req.method],
        VariableView::RequestUri => seq![
            match req.query {
                Some(q) => req.path + "?"@ + q,
                None => req.path,
            },
        ],
        VariableView::RequestBody => match req.body {
            Some(b) => seq![b],
            None => seq![],
        },
        VariableView::Tx(_) => seq![Seq::<char>::empty()],
        VariableView::Xml => seq![],
    }
}

/// The values of the first `n` variables, in order.
pub open spec fn values_before(vars: Seq<VariableView>, n: int, req: ContextView) -> Seq<
    Seq<char>,
>
    decreases n,
{
    if n <= 0 {
        seq![]
    } else {
        values_before(vars, n - 1, req) + values_of(vars[n - 1], vars, req)
    }
}

/// The values of all the variables, in order.
pub open spec fn resolved(vars: Seq<VariableView>, req: ContextView) -> Seq<Seq<char>> {
    values_before(vars, vars.len() as int, req)
}

/// Appends texts to a list.
fn append_texts(values: &mut Vec<String>, tail: Vec<String>)
    ensures
        texts(final(values)@) == texts(old(values)@) + texts(tail@),
{
    let mut rest = tail;
    let ghost before = values@;
    values.append(&mut rest);
    assert(texts(values@) =~= texts(before) + texts(tail@));
}

/// Appends a text to a list.
fn push_value(values: &mut Vec<String>, s: &str)
    ensures
        texts(final(values)@) == texts(old(values)@).push(s@),
{
    let ghost before = values@;
    values.push(s.to_owned());
    assert(texts(values@) =~= texts(before).push(s@));
}

fn push_listed(values: &mut Vec<String>, kind: Pairs, s: Option<&str>)
    ensures
        texts(final(values)@) == texts(old(values)@) + listed_in(kind, str_opt(s)),
{
    match s {
        Some(t) => append_texts(values, parts_of_pairs(kind, t)),
        None => {
            assert(texts(values@) + Seq::<Seq<char>>::empty() =~= texts(values@));
        },
    }
}

fn cookie_text<'a>(headers: &'a TextMap<String>) -> (r: Option<&'a str>)
    ensures
        str_opt(r) == cookie_header(headers@),
{
    match headers.get("cookie") {
        Some(v) => Some(v.as_str()),
        None => match headers.get("Cookie") {
            Some(v) => Some(v.as_str()),
            None => None,
        },
    }
}

/// Whether one of the variables leaves out the header with this lowercase name.
fn left_out(vars: &[Variable], name: &str) -> (r: bool)
    ensures
        r == leaves_out(variables_view(vars@), name@),
{
    let ghost vs = variables_view(vars@);
    for i in 0..vars.len()
        invariant
            vs == variables_view(vars@),
            forall|j: int|
                0 <= j < i ==> !(#[trigger] vs[j] matches VariableView::RequestHeaderExclude(n)
                    && lowercase(n) == name@),
    {
        assert(vs[i as int] == vars@[i as int]@);
        if let Variable::RequestHeaderExclude(n) = &vars[i] {
            let lowered = n.as_str().to_lowercase();
            if same_text(lowered.as_str(), name) {
                return true;
            }
        }
    }
    false
}

fn push_headers_kept(values: &mut Vec<String>, headers: &TextMap<String>, vars: &[Variable])
    ensures
        texts(final(values)@) == texts(old(values)@) + headers_kept(
            headers@,
            variables_view(vars@),
        ),
{
    let ghost vs = variables_view(vars@);
    let ghost before = texts(values@);
    let n = headers.len();
    assert(before + headers_kept(headers@.take(0), vs) =~= before);
    for i in 0..n
        invariant
            n == headers@.len(),
            vs == variables_view(vars@),
            texts(values@) == before + headers_kept(headers@.take(i as int), vs),
    {
        assert(headers@.take(i + 1).drop_last() =~= headers@.take(i as int));
        let ghost head = headers_kept(headers@.take(i as int), vs);
        let name = headers.key(i).to_lowercase();
        if !left_out(vars, name.as_str()) {
            let v = headers.value(i);
            push_value(values, v.as_str());
            assert((before + head).push(v@) =~= before + head.push(v@));
        }
    }
    assert(headers@.take(n as int) =~= headers@);
}

fn push_headers_named(values: &mut Vec<String>, headers: &TextMap<String>, name: &str)
    ensures
        texts(final(values)@) == texts(old(values)@) + headers_named(headers@, name@),
{
    let ghost before = texts(values@);
    let wanted = name.to_lowercase();
    let n = headers.len();
    assert(before + headers_named(headers@.take(0), name@) =~= before);
    for i in 0..n
        invariant
            n == headers@.len(),
            wanted@ == lowercase(name@),
            texts(values@) == before + headers_named(headers@.take(i as int), name@),
    {
        assert(headers@.take(i + 1).drop_last() =~= headers@.take(i as int));
        let ghost head = headers_named(headers@.take(i as int), name@);
        let found = headers.key(i).to_lowercase();
        if same_text(found.as_str(), wanted.as_str()) {
            let v = headers.value(i);
            push_value(values, v.as_str());
            assert((before + head).push(v@) =~= before + head.push(v@));
        }
    }
    assert(headers@.take(n as int) =~= headers@);
}

fn push_user_agent(values: &mut Vec<String>, ctx: &RequestContext<'_>)
    ensures
        texts(final(values)@) == texts(old(values)@) + bare_user_agent(ctx@),
{
    let ghost before = texts(values@);
    assert(before + Seq::<Seq<char>>::empty() =~= before);
    if let Some(ua) = ctx.user_agent {
        if ctx.headers.get("user-agent").is_none() && ctx.headers.get("User-Agent").is_none() {
            push_value(values, ua);
            assert(before.push(ua@) =~= before + seq![ua@]);
        }
    }
}

/// The path with the query behind it.
fn uri_of(path: &str, query: Option<&str>) -> (out: String)
    ensures
        out@ == (match str_opt(query) {
            Some(q) => path@ + "?"@ + q,
            None => path@,
        }),
{
    match query {
        Some(q) => {
            let mut uri = chars_of(path);
            push_text(&mut uri, "?");
            push_text(&mut uri, q);
            string_of(uri.as_slice())
        },
        None => path.to_owned(),
    }
}

/// Appends the values of one variable.
fn push_values_of(
    values: &mut Vec<String>,
    var: &Variable,
    vars: &[Variable],
    ctx: &RequestContext<'_>,
)
    ensures
        texts(final(values)@) == texts(old(values)@) + values_of(
            var@,
            variables_view(vars@),
            ctx@,
        ),
{
    let ghost before = texts(values@);
    let ghost vs = variables_view(vars@);
    assert(before + Seq::<Seq<char>>::empty() =~= before);
    assert(forall|t: Seq<char>| #[trigger] before.push(t) =~= before + seq![t]);
    match var {
        Variable::Args => {
            push_listed(values, Pairs::FormValues, ctx.query);
            push_listed(values, Pairs::FormValues, ctx.body);
            assert(texts(values@) =~= before + values_of(var@, vs, ctx@));
        },
        Variable::ArgsNames => {
            push_listed(values, Pairs::FormNames, ctx.query);
            push_listed(values, Pairs::FormNames, ctx.body);
            assert(texts(values@) =~= before + values_of(var@, vs, ctx@));
        },
        Variable::RequestCookies => push_listed(
            values,
            Pairs::CookieValues,
            cookie_text(ctx.headers),
        ),
        Variable::RequestCookiesNames => push_listed(
            values,
            Pairs::CookieNames,
            cookie_text(ctx.headers),
        ),
        Variable::RequestFilename => push_value(values, ctx.path),
        Variable::RequestHeaders => push_headers_kept(values, ctx.headers, vars),
        Variable::RequestHeader(name) => {
            push_headers_named(values, ctx.headers, name.as_str());
            let ghost named = headers_named(ctx@.headers, name@);
            let lowered = name.as_str().to_lowercase();
            if same_text(lowered.as_str(), "user-agent") {
                push_user_agent(values, ctx);
                assert(texts(values@) =~= before + (named + bare_user_agent(ctx@)));
            } else {
                assert(texts(values@) =~= before + (named + Seq::<Seq<char>>::empty()));
            }
        },
        Variable::RequestHeaderExclude(_) => {},
        Variable::RequestMethod => push_value(values, ctx.method),
        Variable::RequestUri => {
            let uri = uri_of(ctx.path, ctx.query);
            push_value(values, uri.as_str());
        },
        Variable::RequestBody => {
            if let Some(b) = ctx.body {
                push_value(values, b);
            }
        },
        // Transaction variables are not kept: each is the empty text.
        Variable::Tx(_) => {
            let none = String::new();
            push_value(values, none.as_str());
            assert(none@ =~= Seq::<char>::empty());
        },
        Variable::Xml => {},
    }
}

/// The values of the variables in a request, in order.
pub fn resolve_variables(vars: &[Variable], ctx: &RequestContext<'_>) -> (values: Vec<String>)
    ensures
        texts(values@) == resolved(variables_view(vars@), ctx@),
{
    let ghost vs = variables_view(vars@);
    let mut values: Vec<String> = Vec::new();
    assert(texts(values@) =~= values_before(vs, 0, ctx@));
    for i in 0..vars.len()
        invariant
            vs == variables_view(vars@),
            texts(values@) == values_before(vs, i as int, ctx@),
    {
        assert(vs[i as int] == vars@[i as int]@);
        push_values_of(&mut values, &vars[i], vars, ctx);
    }
    values
}

// ---------------------------------------------------------------------------
// Matching
// ---------------------------------------------------------------------------

/// A condition holds of a request: the operator matches the transformed form
/// of some value of the variables.
pub open spec fn condition_holds(c: ConditionView, req: ContextView) -> bool {
    exists|i: int|
        0 <= i < resolved(c.variables, req).len() && operator_matches(
            c.operator,
            transformed_by(#[trigger] resolved(c.variables, req)[i], c.transforms),
        )
}

/// A rule matches a request: its own condition and those of all chained rules
/// hold.
pub open spec fn rule_holds(rule: RuleView, req: ContextView) -> bool {
    &&& condition_holds(rule.condition, req)
    &&& forall|i: int|
        0 <= i < rule.chained.len() ==> condition_holds(#[trigger] rule.chained[i], req)
}

/// Whether the operator matches the transformed form of some value of the
/// variables.
pub fn condition_matches(
    variables: &[Variable],
    operator: &Operator,
    transforms: &[Transform],
    ctx: &RequestContext<'_>,
) -> (r: bool)
    ensures
        r == condition_holds(
            (ConditionView {
                variables: variables_view(variables@),
                operator: operator@,
                transforms: transforms_view(transforms@),
            }),
            ctx@,
        ),
{
    let values = resolve_variables(variables, ctx);
    let ghost c = ConditionView {
        variables: variables_view(variables@),
        operator: operator@,
        transforms: transforms_view(transforms@),
    };
    let ghost all = resolved(c.variables, ctx@);
    for i in 0..values.len()
        invariant
            texts(values@) == all,
            all == resolved(c.variables, ctx@),
            c == (ConditionView {
                variables: variables_view(variables@),
                operator: operator@,
                transforms: transforms_view(transforms@),
            }),
            forall|j: int|
                0 <= j < i ==> !operator_matches(
                    c.operator,
                    transformed_by(#[trigger] all[j], c.transforms),
                ),
    {
        assert(values@[i as int]@ == all[i as int]);
        let transformed = apply_transforms(values[i].as_str(), transforms);
        if crate::crs::operators::matches(operator, transformed.as_str()) {
            assert(condition_holds(c, ctx@)) by {
                assert(operator_matches(
                    c.operator,
                    transformed_by(resolved(c.variables, ctx@)[i as int], c.transforms),
                ));
                assert(i < values@.len() == texts(values@).len());
            }
            return true;
        }
    }
    assert(values@.len() == all.len());
    false
}

/// Whether the rule and all rules chained to it match the request.
pub fn rule_matches(rule: &Rule, ctx: &RequestContext<'_>) -> (r: bool)
    ensures
        r == rule_holds(rule@, ctx@),
{
    if !condition_matches(
        rule.variables.as_slice(),
        &rule.operator,
        rule.transforms.as_slice(),
        ctx,
    ) {
        return false;
    }
    for i in 0..rule.chained.len()
        invariant
            forall|j: int| 0 <= j < i ==> condition_holds(#[trigger] rule@.chained[j], ctx@),
    {
        let chained = &rule.chained[i];
        assert(rule@.chained[i as int] == rule.chained@[i as int]@);
        if !condition_matches(
            chained.variables.as_slice(),
            &chained.operator,
            chained.transforms.as_slice(),
            ctx,
        ) {
            return false;
        }
    }
    true
}

// ---------------------------------------------------------------------------
// Judging
// ---------------------------------------------------------------------------

/// A rule is in use at a paranoia level. A rule without a level always is.
pub open spec fn in_use(rule: RuleView, level: u8) -> bool {
    rule.paranoia_level == 0 || rule.paranoia_level <= level
}

/// The marker that rules are skipped up to, before the rule at place `n`.
///
/// A matching pass rule can name such a marker; the skipping ends at the
/// marker, which is a rule with the id 0.
pub open spec fn skipping(rules: Seq<RuleView>, n: int, req: ContextView, level: u8) -> Option<
    Seq<char>,
>
    decreases n,
{
    if n <= 0 {
        None
    } else {
        let rule = rules[n - 1];
        let before = skipping(rules, n - 1, req, level);
        if rule.id == 0 {
            if rule.skip_after == before {
                None
            } else {
                before
            }
        } else if before is None && in_use(rule, level) && rule_holds(rule, req) && rule.action
            == Action::Pass {
            rule.skip_after
        } else {
            before
        }
    }
}

/// The rule at place `i` is reached, is in use and matches.
pub open spec fn fires(rules: Seq<RuleView>, i: int, req: ContextView, level: u8) -> bool {
    &&& rules[i].id != 0
    &&& skipping(rules, i, req, level) is None
    &&& in_use(rules[i], level)
    &&& rule_holds(rules[i], req)
}

/// The rule at place `i` counts against the request.
pub open spec fn counts(rules: Seq<RuleView>, i: int, req: ContextView, level: u8) -> bool {
    fires(rules, i, req, level) && rules[i].action == Action::Block
}

/// What a rule adds to the anomaly score; 5 where it does not say.
pub open spec fn rule_score(rule: RuleView) -> int {
    match rule.anomaly_score {
        Some(n) => n as int,
        None => 5,
    }
}

/// The anomaly score after the first `n` rules.
pub open spec fn score(rules: Seq<RuleView>, n: int, req: ContextView, level: u8) -> int
    decreases n,
{
    if n <= 0 {
        0
    } else if counts(rules, n - 1, req, level) {
        score(rules, n - 1, req, level) + rule_score(rules[n - 1])
    } else {
        score(rules, n - 1, req, level)
    }
}

/// The rule at place `i` counts against the request, and the anomaly score with
/// it reaches the threshold.
pub open spec fn reaches(
    rules: Seq<RuleView>,
    i: int,
    req: ContextView,
    level: u8,
    threshold: u32,
) -> bool {
    counts(rules, i, req, level) && score(rules, i + 1, req, level) >= threshold
}

/// The place of the first of the first `n` rules with which the anomaly score
/// reaches the threshold.
pub open spec fn first_reaching(
    rules: Seq<RuleView>,
    n: int,
    req: ContextView,
    level: u8,
    threshold: u32,
) -> Option<int>
    decreases n,
{
    if n <= 0 {
        None
    } else {
        match first_reaching(rules, n - 1, req, level, threshold) {
            Some(i) => Some(i),
            None => if reaches(rules, n - 1, req, level, threshold) {
                Some(n - 1)
            } else {
                None
            },
        }
    }
}

/// The message of a rule.
pub open spec fn rule_message(rule: RuleView) -> Seq<char> {
    match rule.msg {
        Some(m) => m,
        None => "Rule "@ + decimal(rule.id as int) + " matched"@,
    }
}

/// What the rules say of a request: the first rule that counts against it and
/// makes the anomaly score reach the threshold, and the message of that rule.
pub open spec fn verdict(
    rules: Seq<RuleView>,
    req: ContextView,
    level: u8,
    threshold: u32,
) -> Option<(u32, Seq<char>)> {
    match first_reaching(rules, rules.len() as int, req, level, threshold) {
        Some(i) => Some((rules[i].id, rule_message(rules[i]))),
        None => None,
    }
}

/// The anomaly score never falls from one rule to the next, and the first rule
/// that makes it reach the threshold stays the first.
pub proof fn lemma_score_grows(
    rules: Seq<RuleView>,
    m: int,
    n: int,
    req: ContextView,
    level: u8,
    threshold: u32,
)
    requires
        0 <= m <= n,
    ensures
        0 <= score(rules, m, req, level) <= score(rules, n, req, level),
        first_reaching(rules, m, req, level, threshold) is Some ==> first_reaching(
            rules,
            n,
            req,
            level,
            threshold,
        ) == first_reaching(rules, m, req, level, threshold),
    decreases n,
{
    if m < n {
        lemma_score_grows(rules, m, n - 1, req, level, threshold);
    } else if m > 0 {
        lemma_score_grows(rules, m - 1, m - 1, req, level, threshold);
    }
}

/// The first rule that makes the anomaly score reach the threshold is the first.
/// Where there is none, the score is below the threshold or no rule counts.
pub proof fn lemma_first_reaching(
    rules: Seq<RuleView>,
    n: int,
    req: ContextView,
    level: u8,
    threshold: u32,
)
    ensures
        match first_reaching(rules, n, req, level, threshold) {
            Some(i) => 0 <= i < n && reaches(rules, i, req, level, threshold) && forall|j: int|
                0 <= j < i ==> !#[trigger] reaches(rules, j, req, level, threshold),
            None => (score(rules, n, req, level) < threshold || forall|j: int|
                0 <= j < n ==> !#[trigger] counts(rules, j, req, level)) && forall|j: int|
                0 <= j < n ==> !#[trigger] reaches(rules, j, req, level, threshold),
        },
    decreases n,
{
    if n > 0 {
        lemma_first_reaching(rules, n - 1, req, level, threshold);
    }
}

/// The model of a verdict.
pub open spec fn verdict_view(r: Option<(u32, String)>) -> Option<(u32, Seq<char>)> {
    match r {
        Some((id, msg)) => Some((id, msg@)),
        None => None,
    }
}

/// The message of a rule.
fn message_of(rule: &Rule) -> (out: String)
    ensures
        out@ == rule_message(rule@),
{
    match &rule.msg {
        Some(m) => m.clone(),
        None => {
            let mut out = chars_of("Rule ");
            push_chars(&mut out, write_decimal(rule.id as u64).as_slice());
            push_text(&mut out, " matched");
            string_of(out.as_slice())
        },
    }
}

/// Judges a request by the rules.
///
/// Comes back with the first rule that makes the anomaly score reach or exceed
/// `anomaly_threshold`, and its message; with nothing where the request is
/// allowed.
pub fn evaluate(
    rules: &[Rule],
    method: &str,
    path: &str,
    query: Option<&str>,
    user_agent: Option<&str>,
    headers: &TextMap<String>,
    body: Option<&str>,
    paranoia_level: u8,
    anomaly_threshold: u32,
) -> (r: Option<(u32, String)>)
    ensures
        verdict_view(r) == verdict(
            rules_view(rules@),
            (ContextView {
                method: method@,
                path: path@,
                query: str_opt(query),
                user_agent: str_opt(user_agent),
                headers: headers@,
                body: str_opt(body),
            }),
            paranoia_level,
            anomaly_threshold,
        ),
{
    let ctx = RequestContext { method, path, query, user_agent, headers, body };
    let ghost rs = rules_view(rules@);
    let ghost req = ctx@;
    let mut anomaly_score: u32 = 0;
    let mut skip_until: Option<String> = None;

    for i in 0..rules.len()
        invariant
            rs == rules_view(rules@),
            req == ctx@,
            req == (ContextView {
                method: method@,
                path: path@,
                query: str_opt(query),
                user_agent: str_opt(user_agent),
                headers: headers@,
                body: str_opt(body),
            }),
            text_opt(skip_until) == skipping(rs, i as int, req, paranoia_level),
            anomaly_score == (if score(rs, i as int, req, paranoia_level) <= u32::MAX {
                score(rs, i as int, req, paranoia_level)
            } else {
                u32::MAX as int
            }),
            first_reaching(rs, i as int, req, paranoia_level, anomaly_threshold) is None,
    {
        let rule = &rules[i];
        assert(rs[i as int] == rule@);
        proof {
            lemma_score_grows(rs, i as int, i as int, req, paranoia_level, anomaly_threshold);
        }
        if rule.id == 0 {
            // A marker: skipping up to it ends here.
            if let Some(target) = &skip_until {
                if let Some(name) = &rule.skip_after {
                    if same_text(name.as_str(), target.as_str()) {
                        skip_until = None;
                    }
                }
            }
        } else if skip_until.is_none() && (rule.paranoia_level == 0 || rule.paranoia_level
            <= paranoia_level) && rule_matches(rule, &ctx) {
            match rule.action {
                Action::Pass => {
                    if let Some(marker) = &rule.skip_after {
                        skip_until = Some(marker.clone());
                    }
                },
                Action::Block => {
                    let points: u32 = match rule.anomaly_score {
                        Some(n) => n,
                        None => 5,
                    };
                    assert(counts(rs, i as int, req, paranoia_level));
                    anomaly_score = anomaly_score.saturating_add(points);
                    if anomaly_score >= anomaly_threshold {
                        assert(reaches(rs, i as int, req, paranoia_level, anomaly_threshold));
                        proof {
                            lemma_score_grows(
                                rs,
                                i + 1,
                                rs.len() as int,
                                req,
                                paranoia_level,
                                anomaly_threshold,
                            );
                        }
                        return Some((rule.id, message_of(rule)));
                    }
                },
            }
        }
    }
    None
}

} // verus!
