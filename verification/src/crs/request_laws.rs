//! What the rules see of a request: the values of parameters, cookies, headers and
//! the other variables.

use vstd::prelude::*;

use crate::crs::engine::{
    form_text, headers_kept, headers_named, leaves_out, listed, pair_part, pair_parts, values_of,
    ContextView, Pairs,
};
use crate::crs::types::VariableView;
use crate::ordered::lookup;
use crate::text::{is_space, lowercase, split_char};
use crate::text_laws::{
    blank, free_of, lemma_split_both, lemma_split_char, lemma_split_once, lemma_trim,
    lemma_trim_tight, tight,
};

verus! {

// ---------------------------------------------------------------------------
// Parameters and cookies
// ---------------------------------------------------------------------------

proof fn lemma_parts_of_both(kind: Pairs, a: Seq<Seq<char>>, b: Seq<Seq<char>>)
    ensures
        pair_parts(kind, a + b) == pair_parts(kind, a) + pair_parts(kind, b),
    decreases b.len(),
{
    if b.len() == 0 {
        assert(a + b =~= a);
        assert(pair_parts(kind, a) + pair_parts(kind, b) =~= pair_parts(kind, a));
    } else {
        lemma_parts_of_both(kind, a, b.drop_last());
        assert((a + b).drop_last() =~= a + b.drop_last());
        assert(pair_parts(kind, a + b) =~= pair_parts(kind, a) + pair_parts(kind, b));
    }
}

/// The parameters before and behind an `&` are all there, in order, and so are
/// the cookies before and behind a `;`.
pub proof fn lemma_pairs_listed(a: Seq<char>, b: Seq<char>)
    ensures
        listed(Pairs::FormValues, a + seq!['&'] + b) == listed(Pairs::FormValues, a) + listed(
            Pairs::FormValues,
            b,
        ),
        listed(Pairs::FormNames, a + seq!['&'] + b) == listed(Pairs::FormNames, a) + listed(
            Pairs::FormNames,
            b,
        ),
        listed(Pairs::CookieValues, a + seq![';'] + b) == listed(Pairs::CookieValues, a) + listed(
            Pairs::CookieValues,
            b,
        ),
        listed(Pairs::CookieNames, a + seq![';'] + b) == listed(Pairs::CookieNames, a) + listed(
            Pairs::CookieNames,
            b,
        ),
{
    lemma_split_both(a, '&', b);
    lemma_split_both(a, ';', b);
    lemma_parts_of_both(Pairs::FormValues, split_char(a, '&'), split_char(b, '&'));
    lemma_parts_of_both(Pairs::FormNames, split_char(a, '&'), split_char(b, '&'));
    lemma_parts_of_both(Pairs::CookieValues, split_char(a, ';'), split_char(b, ';'));
    lemma_parts_of_both(Pairs::CookieNames, split_char(a, ';'), split_char(b, ';'));
}

proof fn lemma_one_pair(kind: Pairs, s: Seq<char>)
    ensures
        pair_parts(kind, seq![s]) == match pair_part(kind, s) {
            Some(t) => seq![t],
            None => seq![],
        },
{
    let pairs = seq![s];
    assert(pairs.drop_last() =~= seq![]);
    assert(pair_parts(kind, pairs.drop_last()) =~= seq![]);
    assert(pair_parts(kind, pairs) =~= match pair_part(kind, s) {
        Some(t) => seq![t],
        None => seq![],
    });
}

/// The value of a parameter is all that stands behind its first `=`, decoded, and
/// its name is what stands before it, decoded.
pub proof fn lemma_parameter(name: Seq<char>, value: Seq<char>)
    requires
        free_of(name, '='),
        free_of(name, '&'),
        free_of(value, '&'),
    ensures
        listed(Pairs::FormValues, name + seq!['='] + value) == seq![form_text(value)],
        listed(Pairs::FormNames, name + seq!['='] + value) == seq![form_text(name)],
{
    let s = name + seq!['='] + value;
    assert forall|i: int| 0 <= i < s.len() implies #[trigger] s[i] != '&' by {
        if i < name.len() {
            assert(s[i] == name[i]);
        } else if i > name.len() {
            assert(s[i] == value[i - name.len() - 1]);
        }
    }
    lemma_split_char(s, '&', seq![]);
    lemma_split_once(name, '=', value);
    lemma_one_pair(Pairs::FormValues, s);
    lemma_one_pair(Pairs::FormNames, s);
}

/// A parameter without `=` is a value without a name; nothing at all is neither.
pub proof fn lemma_bare_parameter(s: Seq<char>)
    requires
        free_of(s, '='),
        free_of(s, '&'),
    ensures
        listed(Pairs::FormValues, s) == (if s.len() > 0 {
            seq![form_text(s)]
        } else {
            seq![]
        }),
        listed(Pairs::FormNames, s).len() == 0,
{
    lemma_split_char(s, '&', seq![]);
    lemma_split_once(s, '=', seq![]);
    lemma_one_pair(Pairs::FormValues, s);
    lemma_one_pair(Pairs::FormNames, s);
}

/// The value of a cookie is all that stands behind its first `=`, and its name is
/// what stands before it; whitespace around the pair is not part of either.
pub proof fn lemma_cookie(
    before: Seq<char>,
    name: Seq<char>,
    value: Seq<char>,
    after: Seq<char>,
)
    requires
        blank(before),
        blank(after),
        tight(name),
        tight(value),
        free_of(name, '='),
        free_of(name, ';'),
        free_of(value, ';'),
    ensures
        listed(Pairs::CookieValues, before + (name + seq!['='] + value) + after) == seq![value],
        listed(Pairs::CookieNames, before + (name + seq!['='] + value) + after) == seq![name],
{
    let pair = name + seq!['='] + value;
    let s = before + pair + after;
    assert forall|i: int| 0 <= i < s.len() implies #[trigger] s[i] != ';' by {
        let k = i - before.len();
        if k < 0 {
            assert(is_space(before[i]));
        } else if k < name.len() {
            assert(s[i] == name[k]);
        } else if name.len() < k < pair.len() {
            assert(s[i] == value[k - name.len() - 1]);
        } else if k >= pair.len() {
            assert(s[i] == after[k - pair.len()]);
            assert(is_space(after[k - pair.len()]));
        }
    }
    lemma_split_char(s, ';', seq![]);
    assert(name.len() > 0 ==> pair[0] == name[0]);
    assert(name.len() == 0 ==> pair[0] == '=');
    assert(value.len() > 0 ==> pair.last() == value.last());
    assert(value.len() == 0 ==> pair.last() == '=');
    lemma_trim(before, pair, after);
    lemma_split_once(name, '=', value);
    lemma_trim_tight(name);
    lemma_trim_tight(value);
    lemma_one_pair(Pairs::CookieValues, s);
    lemma_one_pair(Pairs::CookieNames, s);
}

/// A cookie without `=` is a value without a name; whitespace alone is neither.
pub proof fn lemma_bare_cookie(before: Seq<char>, s: Seq<char>, after: Seq<char>)
    requires
        blank(before),
        blank(after),
        tight(s),
        free_of(s, '='),
        free_of(s, ';'),
    ensures
        listed(Pairs::CookieValues, before + s + after) == (if s.len() > 0 {
            seq![s]
        } else {
            seq![]
        }),
        listed(Pairs::CookieNames, before + s + after).len() == 0,
{
    let t = before + s + after;
    assert forall|i: int| 0 <= i < t.len() implies #[trigger] t[i] != ';' by {
        let k = i - before.len();
        if k < 0 {
            assert(is_space(before[i]));
        } else if k < s.len() {
            assert(t[i] == s[k]);
        } else {
            assert(t[i] == after[k - s.len()]);
            assert(is_space(after[k - s.len()]));
        }
    }
    lemma_split_char(t, ';', seq![]);
    lemma_trim(before, s, after);
    lemma_split_once(s, '=', seq![]);
    lemma_one_pair(Pairs::CookieValues, t);
    lemma_one_pair(Pairs::CookieNames, t);
}

// ---------------------------------------------------------------------------
// Variables
// ---------------------------------------------------------------------------

/// `ARGS` and `ARGS_NAMES` are the values and the names of the parameters in the
/// query, and behind them those in the body.
pub proof fn lemma_args(
    vars: Seq<VariableView>,
    req: ContextView,
    query: Seq<char>,
    body: Seq<char>,
)
    ensures
        req.query == Some(query) && req.body == Some(body) ==> values_of(
            VariableView::Args,
            vars,
            req,
        ) == listed(Pairs::FormValues, query) + listed(Pairs::FormValues, body) && values_of(
            VariableView::ArgsNames,
            vars,
            req,
        ) == listed(Pairs::FormNames, query) + listed(Pairs::FormNames, body),
        req.query == Some(query) && req.body is None ==> values_of(VariableView::Args, vars, req)
            == listed(Pairs::FormValues, query) && values_of(VariableView::ArgsNames, vars, req)
            == listed(Pairs::FormNames, query),
        req.query is None && req.body == Some(body) ==> values_of(VariableView::Args, vars, req)
            == listed(Pairs::FormValues, body) && values_of(VariableView::ArgsNames, vars, req)
            == listed(Pairs::FormNames, body),
        req.query is None && req.body is None ==> values_of(VariableView::Args, vars, req).len()
            == 0 && values_of(VariableView::ArgsNames, vars, req).len() == 0,
{
    let none = Seq::<Seq<char>>::empty();
    assert(listed(Pairs::FormValues, query) + none =~= listed(Pairs::FormValues, query));
    assert(listed(Pairs::FormNames, query) + none =~= listed(Pairs::FormNames, query));
    assert(none + listed(Pairs::FormValues, body) =~= listed(Pairs::FormValues, body));
    assert(none + listed(Pairs::FormNames, body) =~= listed(Pairs::FormNames, body));
}

/// The variables that are one part of the request: the method, the path, the path
/// with the query behind a question mark, and the body.
pub proof fn lemma_single_values(vars: Seq<VariableView>, req: ContextView, name: Seq<char>)
    ensures
        values_of(VariableView::RequestMethod, vars, req) == seq![req.method],
        values_of(VariableView::RequestFilename, vars, req) == seq![req.path],
        req.query matches Some(q) ==> values_of(VariableView::RequestUri, vars, req) == seq![
            req.path + seq!['?'] + q,
        ],
        req.query is None ==> values_of(VariableView::RequestUri, vars, req) == seq![req.path],
        req.body matches Some(b) ==> values_of(VariableView::RequestBody, vars, req) == seq![b],
        req.body is None ==> values_of(VariableView::RequestBody, vars, req).len() == 0,
        values_of(VariableView::Tx(name), vars, req) == seq![Seq::<char>::empty()],
        values_of(VariableView::Xml, vars, req).len() == 0,
        values_of(VariableView::RequestHeaderExclude(name), vars, req).len() == 0,
{
    reveal_strlit("?");
    assert("?"@ =~= seq!['?']);
}

/// The cookies are those of the header `cookie`, or of `Cookie` where there is none
/// of that name.
pub proof fn lemma_cookies(vars: Seq<VariableView>, req: ContextView)
    ensures
        lookup(req.headers, "cookie"@) matches Some(c) ==> values_of(
            VariableView::RequestCookies,
            vars,
            req,
        ) == listed(Pairs::CookieValues, c) && values_of(
            VariableView::RequestCookiesNames,
            vars,
            req,
        ) == listed(Pairs::CookieNames, c),
        lookup(req.headers, "cookie"@) is None ==> (lookup(req.headers, "Cookie"@) matches Some(c)
            ==> values_of(VariableView::RequestCookies, vars, req) == listed(
            Pairs::CookieValues,
            c,
        ) && values_of(VariableView::RequestCookiesNames, vars, req) == listed(
            Pairs::CookieNames,
            c,
        )),
        lookup(req.headers, "cookie"@) is None && lookup(req.headers, "Cookie"@) is None
            ==> values_of(VariableView::RequestCookies, vars, req).len() == 0 && values_of(
            VariableView::RequestCookiesNames,
            vars,
            req,
        ).len() == 0,
{
}

/// `REQUEST_HEADERS` has the value of a header if and only if no variable beside it
/// leaves that header out, whatever the case of the names.
pub proof fn lemma_all_headers(vars: Seq<VariableView>, req: ContextView, value: Seq<char>)
    ensures
        values_of(VariableView::RequestHeaders, vars, req).contains(value) <==> exists|i: int|
            0 <= i < req.headers.len() && (#[trigger] req.headers[i]).1 == value && forall|k: int|
                0 <= k < vars.len() ==> (#[trigger] vars[k] matches
                    VariableView::RequestHeaderExclude(n) ==> lowercase(n) != lowercase(
                    req.headers[i].0,
                )),
{
    lemma_headers_kept(req.headers, vars, value);
}

spec fn is_kept(vars: Seq<VariableView>, name: Seq<char>) -> bool {
    forall|k: int|
        0 <= k < vars.len() ==> (#[trigger] vars[k] matches VariableView::RequestHeaderExclude(n)
            ==> lowercase(n) != lowercase(name))
}

proof fn lemma_headers_kept(
    headers: Seq<(Seq<char>, Seq<char>)>,
    vars: Seq<VariableView>,
    value: Seq<char>,
)
    ensures
        headers_kept(headers, vars).contains(value) <==> exists|i: int|
            0 <= i < headers.len() && (#[trigger] headers[i]).1 == value && is_kept(
                vars,
                headers[i].0,
            ),
    decreases headers.len(),
{
    if headers.len() > 0 {
        let front = headers.drop_last();
        let head = headers_kept(front, vars);
        let all = headers_kept(headers, vars);
        lemma_headers_kept(front, vars, value);
        let last = headers.last();
        assert(is_kept(vars, last.0) <==> !leaves_out(
            vars,
            lowercase(last.0),
        ));
        if all.contains(value) {
            let j = all.index_of(value);
            if j < head.len() {
                assert(head[j] == value);
                let i = choose|i: int|
                    0 <= i < front.len() && (#[trigger] front[i]).1 == value && is_kept(
                        vars,
                        front[i].0,
                    );
                assert(headers[i] == front[i]);
            } else {
                assert(headers[headers.len() - 1] == last);
            }
        }
        if exists|i: int|
            0 <= i < headers.len() && (#[trigger] headers[i]).1 == value && is_kept(
                vars,
                headers[i].0,
            ) {
            let i = choose|i: int|
                0 <= i < headers.len() && (#[trigger] headers[i]).1 == value && is_kept(
                    vars,
                    headers[i].0,
                );
            if i < headers.len() - 1 {
                assert(front[i] == headers[i]);
                assert(head.contains(value));
                let j = head.index_of(value);
                assert(all[j] == value);
            } else {
                assert(all[all.len() - 1] == value);
            }
        }
    }
}

/// `REQUEST_HEADERS:name` has the value of every header of that name, whatever the
/// case. The user agent of the request counts as the header of its name where the
/// headers hold none.
pub proof fn lemma_named_header(
    vars: Seq<VariableView>,
    req: ContextView,
    name: Seq<char>,
    value: Seq<char>,
)
    ensures
        values_of(VariableView::RequestHeader(name), vars, req).contains(value) <==> (exists|
            i: int,
        |
            0 <= i < req.headers.len() && (#[trigger] req.headers[i]).1 == value && lowercase(
                req.headers[i].0,
            ) == lowercase(name)) || (lowercase(name) == "user-agent"@ && req.user_agent == Some(
            value,
        ) && lookup(req.headers, "user-agent"@) is None && lookup(
            req.headers,
            "User-Agent"@,
        ) is None),
{
    let named = headers_named(req.headers, name);
    let all = values_of(VariableView::RequestHeader(name), vars, req);
    lemma_headers_named(req.headers, name, value);
    let extra = all.skip(named.len() as int);
    assert(all =~= named + extra);
    if all.contains(value) {
        let j = all.index_of(value);
        if j < named.len() {
            assert(named[j] == value);
        }
    }
    if named.contains(value) {
        let j = named.index_of(value);
        assert(all[j] == value);
    }
    if lowercase(name) == "user-agent"@ && req.user_agent == Some(value) && lookup(
        req.headers,
        "user-agent"@,
    ) is None && lookup(req.headers, "User-Agent"@) is None {
        assert(all[named.len() as int] == value);
    }
}

proof fn lemma_headers_named(
    headers: Seq<(Seq<char>, Seq<char>)>,
    name: Seq<char>,
    value: Seq<char>,
)
    ensures
        headers_named(headers, name).contains(value) <==> exists|i: int|
            0 <= i < headers.len() && (#[trigger] headers[i]).1 == value && lowercase(
                headers[i].0,
            ) == lowercase(name),
    decreases headers.len(),
{
    if headers.len() > 0 {
        let front = headers.drop_last();
        let head = headers_named(front, name);
        let all = headers_named(headers, name);
        lemma_headers_named(front, name, value);
        if all.contains(value) {
            let j = all.index_of(value);
            if j < head.len() {
                assert(head[j] == value);
                let i = choose|i: int|
                    0 <= i < front.len() && (#[trigger] front[i]).1 == value && lowercase(
                        front[i].0,
                    ) == lowercase(name);
                assert(headers[i] == front[i]);
            } else {
                assert(headers[headers.len() - 1] == headers.last());
            }
        }
        if exists|i: int|
            0 <= i < headers.len() && (#[trigger] headers[i]).1 == value && lowercase(
                headers[i].0,
            ) == lowercase(name) {
            let i = choose|i: int|
                0 <= i < headers.len() && (#[trigger] headers[i]).1 == value && lowercase(
                    headers[i].0,
                ) == lowercase(name);
            if i < headers.len() - 1 {
                assert(front[i] == headers[i]);
                assert(head.contains(value));
                let j = head.index_of(value);
                assert(all[j] == value);
            } else {
                assert(all[all.len() - 1] == value);
            }
        }
    }
}

/// Headers count one after the other: the values of some headers and of others behind
/// them are those of the former and then those of the latter, and one header has its one
/// value.
pub proof fn lemma_headers_in_order(
    a: Seq<(Seq<char>, Seq<char>)>,
    b: Seq<(Seq<char>, Seq<char>)>,
    vars: Seq<VariableView>,
    name: Seq<char>,
    entry: (Seq<char>, Seq<char>),
)
    ensures
        headers_named(a + b, name) == headers_named(a, name) + headers_named(b, name),
        headers_kept(a + b, vars) == headers_kept(a, vars) + headers_kept(b, vars),
        lowercase(entry.0) == lowercase(name) ==> headers_named(seq![entry], name) == seq![
            entry.1,
        ],
        lowercase(entry.0) != lowercase(name) ==> headers_named(seq![entry], name).len() == 0,
        vars.len() == 0 ==> headers_kept(seq![entry], vars) == seq![entry.1],
    decreases b.len(),
{
    let one = seq![entry];
    assert(one.drop_last() =~= seq![]);
    assert(headers_named(one.drop_last(), name) =~= seq![]);
    assert(headers_kept(one.drop_last(), vars) =~= seq![]);
    if vars.len() == 0 {
        assert(!leaves_out(vars, lowercase(entry.0)));
        assert(headers_kept(one, vars) =~= seq![entry.1]);
    }
    if lowercase(entry.0) == lowercase(name) {
        assert(headers_named(one, name) =~= seq![entry.1]);
    }
    if b.len() == 0 {
        assert(a + b =~= a);
        assert(headers_named(a, name) + headers_named(b, name) =~= headers_named(a, name));
        assert(headers_kept(a, vars) + headers_kept(b, vars) =~= headers_kept(a, vars));
    } else {
        lemma_headers_in_order(a, b.drop_last(), vars, name, entry);
        assert((a + b).drop_last() =~= a + b.drop_last());
        assert((a + b).last() == b.last());
        assert(headers_named(a + b, name) =~= headers_named(a, name) + headers_named(b, name));
        assert(headers_kept(a + b, vars) =~= headers_kept(a, vars) + headers_kept(b, vars));
    }
}

} // verus!
