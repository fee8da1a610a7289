//! What the transformations make of a text, in terms of its characters.

use vstd::prelude::*;
use vstd::utf8::{is_ascii_chars, is_ascii_chars_encode_utf8, is_ascii_chars_nat_bound, is_scalar};

use crate::crs::engine::form_text;
use crate::crs::transforms::{
    compressed, css_digits, decoded, escape, hex_scalar, is_hex, transformed, unicode_escaped,
    unicode_escaped_char, Escapes,
};
use crate::crs::types::TransformView;
use crate::number::{
    decimal, digit_char, digit_value, lemma_decimal_digits, lemma_decimal_round_trip, parse_digits,
    written, zero_padded, NumberError,
};
use crate::text::{
    before_char, byte_chars, is_ascii_space, leading, lemma_leading_bounds, lemma_leading_is,
    lowercase, starts_with,
};
use crate::text_laws::{free_of, lemma_before_char};

verus! {

// ---------------------------------------------------------------------------
// Characters taken out or kept
// ---------------------------------------------------------------------------

/// A space, a tab, a line feed, a form feed or a carriage return.
pub open spec fn whitespace(c: char) -> bool {
    c == ' ' || c == '\t' || c == '\n' || c == '\x0c' || c == '\r'
}

proof fn lemma_whitespace(c: char)
    ensures
        whitespace(c) == is_ascii_space(c),
{
}

/// `lowercase` is the lowercase form; `none` and what is not known change nothing.
pub proof fn lemma_plain_transforms(s: Seq<char>, name: Seq<char>)
    ensures
        transformed(s, TransformView::Lowercase) == lowercase(s),
        transformed(s, TransformView::Identity) == s,
        transformed(s, TransformView::Other(name)) == s,
{
}

proof fn lemma_filter_parts(a: Seq<char>, b: Seq<char>, keep: spec_fn(char) -> bool)
    ensures
        (a + b).filter(keep) == a.filter(keep) + b.filter(keep),
    decreases b.len(),
{
    reveal(Seq::filter);
    if b.len() == 0 {
        assert(a + b =~= a);
        assert(a.filter(keep) + b.filter(keep) =~= a.filter(keep));
    } else {
        lemma_filter_parts(a, b.drop_last(), keep);
        assert((a + b).drop_last() =~= a + b.drop_last());
        assert((a + b).filter(keep) =~= a.filter(keep) + b.filter(keep));
    }
}

proof fn lemma_filter_one(c: char, keep: spec_fn(char) -> bool)
    ensures
        seq![c].filter(keep) == if keep(c) {
            seq![c]
        } else {
            seq![]
        },
{
    reveal(Seq::filter);
    let s = seq![c];
    assert(s.drop_last() =~= seq![]);
    assert(s.drop_last().filter(keep) =~= seq![]);
    assert(s.filter(keep) =~= if keep(c) {
        seq![c]
    } else {
        seq![]
    });
}

/// `removeNulls` takes out the characters with the code zero, wherever they stand,
/// and keeps all others in order.
pub proof fn lemma_remove_nulls(a: Seq<char>, c: char, b: Seq<char>)
    ensures
        transformed(a + seq!['\0'] + b, TransformView::RemoveNulls) == transformed(
            a,
            TransformView::RemoveNulls,
        ) + transformed(b, TransformView::RemoveNulls),
        c != '\0' ==> transformed(a + seq![c] + b, TransformView::RemoveNulls) == transformed(
            a,
            TransformView::RemoveNulls,
        ) + seq![c] + transformed(b, TransformView::RemoveNulls),
        transformed(seq![], TransformView::RemoveNulls).len() == 0,
{
    reveal(Seq::filter);
    let keep = |c: char| c != '\0';
    lemma_filter_one('\0', keep);
    lemma_filter_one(c, keep);
    lemma_filter_parts(a, seq!['\0'], keep);
    lemma_filter_parts(a + seq!['\0'], b, keep);
    lemma_filter_parts(a, seq![c], keep);
    lemma_filter_parts(a + seq![c], b, keep);
    assert(a.filter(keep) + Seq::<char>::empty() =~= a.filter(keep));
    assert(Seq::<char>::empty().filter(keep) =~= seq![]);
}

/// `removeWhitespace` takes out the ASCII whitespace, wherever it stands, and
/// keeps all other characters in order.
pub proof fn lemma_remove_whitespace(a: Seq<char>, c: char, b: Seq<char>)
    ensures
        transformed(a + seq![c] + b, TransformView::RemoveWhitespace) == transformed(
            a,
            TransformView::RemoveWhitespace,
        ) + (if whitespace(c) {
            seq![]
        } else {
            seq![c]
        }) + transformed(b, TransformView::RemoveWhitespace),
        transformed(seq![], TransformView::RemoveWhitespace).len() == 0,
{
    reveal(Seq::filter);
    let keep = |c: char| !is_ascii_space(c);
    lemma_filter_one(c, keep);
    lemma_filter_parts(a, seq![c], keep);
    lemma_filter_parts(a + seq![c], b, keep);
    assert(whitespace(c) == is_ascii_space(c));
    assert(Seq::<char>::empty().filter(keep) =~= seq![]);
}

proof fn lemma_compressed_run(a: Seq<char>, run: Seq<char>)
    requires
        forall|i: int| 0 <= i < run.len() ==> is_ascii_space(#[trigger] run[i]),
        run.len() > 0,
        a.len() > 0 ==> !is_ascii_space(a.last()),
    ensures
        compressed(a + run) == compressed(a).push(' '),
    decreases run.len(),
{
    let s = a + run;
    assert(s.drop_last() =~= a + run.drop_last());
    assert(is_ascii_space(run[run.len() - 1]));
    assert(s.last() == run.last());
    if run.len() == 1 {
        assert(a + run.drop_last() =~= a);
        if a.len() > 0 {
            assert(s[s.len() - 2] == a.last());
        }
    } else {
        assert(s[s.len() - 2] == run[run.len() - 2]);
        lemma_compressed_run(a, run.drop_last());
    }
}

proof fn lemma_compressed_behind(a: Seq<char>, b: Seq<char>)
    requires
        b.len() > 0 ==> !is_ascii_space(b[0]),
    ensures
        compressed(a + b) == compressed(a) + compressed(b),
    decreases b.len(),
{
    let s = a + b;
    if b.len() == 0 {
        assert(s =~= a);
        assert(compressed(a) + compressed(b) =~= compressed(a));
    } else {
        assert(s.drop_last() =~= a + b.drop_last());
        assert(s.last() == b.last());
        lemma_compressed_behind(a, b.drop_last());
        if b.len() > 1 {
            assert(s[s.len() - 2] == b[b.len() - 2]);
        }
        assert(compressed(s) =~= compressed(a) + compressed(b));
    }
}

/// `compressWhitespace` makes one space of a run of ASCII whitespace, also at the
/// ends, and keeps what is no whitespace as it is.
pub proof fn lemma_compress_run(a: Seq<char>, run: Seq<char>, b: Seq<char>)
    requires
        run.len() > 0,
        forall|i: int| 0 <= i < run.len() ==> whitespace(#[trigger] run[i]),
        a.len() > 0 ==> !whitespace(a.last()),
        b.len() > 0 ==> !whitespace(b[0]),
    ensures
        transformed(a + run + b, TransformView::CompressWhitespace) == transformed(
            a,
            TransformView::CompressWhitespace,
        ) + seq![' '] + transformed(b, TransformView::CompressWhitespace),
{
    assert forall|i: int| 0 <= i < run.len() implies is_ascii_space(#[trigger] run[i]) by {
        assert(whitespace(run[i]));
    }
    if a.len() > 0 {
        lemma_whitespace(a.last());
    }
    if b.len() > 0 {
        lemma_whitespace(b[0]);
    }
    lemma_compressed_run(a, run);
    lemma_compressed_behind(a + run, b);
    assert(compressed(a).push(' ') =~= compressed(a) + seq![' ']);
}

/// A text without whitespace is compressed already.
pub proof fn lemma_compress_nothing(s: Seq<char>)
    requires
        forall|i: int| 0 <= i < s.len() ==> !whitespace(#[trigger] s[i]),
    ensures
        transformed(s, TransformView::CompressWhitespace) == s,
    decreases s.len(),
{
    if s.len() > 0 {
        assert(!whitespace(s[s.len() - 1]));
        lemma_whitespace(s.last());
        lemma_compress_nothing(s.drop_last());
        assert(compressed(s) =~= s);
    }
}

// ---------------------------------------------------------------------------
// Hexadecimal digits
// ---------------------------------------------------------------------------

/// `c` is the hexadecimal digit for `v`, in either case.
pub open spec fn is_digit_for(c: char, v: int) -> bool {
    ||| 0 <= v <= 9 && c as int == '0' as int + v
    ||| 10 <= v <= 15 && c as int == 'a' as int + v - 10
    ||| 10 <= v <= 15 && c as int == 'A' as int + v - 10
}

/// `d` writes `v` in hexadecimal digits.
pub open spec fn writes(d: Seq<char>, v: int) -> bool
    decreases d.len(),
{
    if d.len() == 0 {
        v == 0
    } else {
        v >= 0 && is_digit_for(d.last(), v % 16) && writes(d.drop_last(), v / 16)
    }
}

proof fn lemma_writes(d: Seq<char>, v: int, max: int)
    requires
        writes(d, v),
        v <= max,
    ensures
        parse_digits(d, 16, max) == Ok::<int, NumberError>(v),
        forall|i: int| 0 <= i < d.len() ==> is_hex()(#[trigger] d[i]),
        v >= 0,
    decreases d.len(),
{
    if d.len() > 0 {
        lemma_writes(d.drop_last(), v / 16, max);
        assert(digit_value(d.last(), 16) == Some(v % 16));
        assert forall|i: int| 0 <= i < d.len() implies is_hex()(#[trigger] d[i]) by {
            if i < d.len() - 1 {
                assert(d[i] == d.drop_last()[i]);
            }
        }
    }
}

proof fn lemma_hex_scalar(d: Seq<char>, v: int)
    requires
        writes(d, v),
        v <= u32::MAX,
        is_scalar(v as u32),
    ensures
        hex_scalar(d) == Some(v as u32 as char),
{
    lemma_writes(d, v, u32::MAX as int);
}

/// Two digits write a number below 256.
proof fn lemma_two_digits(d: Seq<char>, v: int)
    requires
        writes(d, v),
        d.len() == 2,
    ensures
        0 <= v < 256,
{
    reveal_with_fuel(writes, 3);
    assert(d.drop_last().drop_last().len() == 0);
    assert(v / 16 / 16 == 0);
}

// ---------------------------------------------------------------------------
// Escapes
// ---------------------------------------------------------------------------

/// Of ASCII text, the bytes are the characters.
pub proof fn lemma_ascii_bytes(s: Seq<char>)
    requires
        is_ascii_chars(s),
    ensures
        byte_chars(s) == s,
{
    is_ascii_chars_encode_utf8(s);
    is_ascii_chars_nat_bound(s);
    assert(byte_chars(s) =~= s);
}

proof fn lemma_decoded_escape(kind: Escapes, e: Seq<char>, c: char, rest: Seq<char>)
    requires
        e.len() > 0,
        escape(kind, e + rest) == Some((c, e.len() as int)),
    ensures
        decoded(kind, e + rest) == seq![c] + decoded(kind, rest),
{
    assert((e + rest).skip(e.len() as int) =~= rest);
}

/// `%XX` is the character with that code, for URLs and for forms.
pub proof fn lemma_percent(d: Seq<char>, v: int, rest: Seq<char>)
    requires
        writes(d, v),
        d.len() == 2,
    ensures
        decoded(Escapes::Url, seq!['%'] + d + rest) == seq![v as u32 as char] + decoded(
            Escapes::Url,
            rest,
        ),
        decoded(Escapes::Form, seq!['%'] + d + rest) == seq![v as u32 as char] + decoded(
            Escapes::Form,
            rest,
        ),
{
    let e = seq!['%'] + d;
    let s = e + rest;
    lemma_two_digits(d, v);
    lemma_hex_scalar(d, v);
    lemma_writes(d, v, u32::MAX as int);
    assert(s.subrange(1, 3) =~= d);
    assert(s[1] == d[0]);
    assert(is_hex()(d[0]));
    assert(s[1] != 'u' && s[1] != 'U');
    lemma_decoded_escape(Escapes::Url, e, v as u32 as char, rest);
    lemma_decoded_escape(Escapes::Form, e, v as u32 as char, rest);
}

/// `%uXXXX` is the character with that code, for URLs.
pub proof fn lemma_percent_u(u: char, d: Seq<char>, v: int, rest: Seq<char>)
    requires
        u == 'u' || u == 'U',
        writes(d, v),
        d.len() == 4,
        v <= u32::MAX,
        is_scalar(v as u32),
    ensures
        decoded(Escapes::Url, seq!['%', u] + d + rest) == seq![v as u32 as char] + decoded(
            Escapes::Url,
            rest,
        ),
{
    let e = seq!['%', u] + d;
    lemma_hex_scalar(d, v);
    assert((e + rest).subrange(2, 6) =~= d);
    lemma_decoded_escape(Escapes::Url, e, v as u32 as char, rest);
}

/// A plus sign stands for a space in a form, and for itself in a URL.
pub proof fn lemma_plus(rest: Seq<char>)
    ensures
        decoded(Escapes::Form, seq!['+'] + rest) == seq![' '] + decoded(Escapes::Form, rest),
        decoded(Escapes::Url, seq!['+'] + rest) == seq!['+'] + decoded(Escapes::Url, rest),
{
    lemma_decoded_escape(Escapes::Form, seq!['+'], ' ', rest);
    assert((seq!['+'] + rest).skip(1) =~= rest);
}

/// A percent sign without two digits behind it stands for itself.
pub proof fn lemma_lone_percent(rest: Seq<char>)
    requires
        rest.len() < 2 || !is_digit(rest[0]) || !is_digit(rest[1]),
        rest.len() > 0 ==> rest[0] != 'u' && rest[0] != 'U',
    ensures
        decoded(Escapes::Url, seq!['%'] + rest) == seq!['%'] + decoded(Escapes::Url, rest),
        decoded(Escapes::Form, seq!['%'] + rest) == seq!['%'] + decoded(Escapes::Form, rest),
{
    let s = seq!['%'] + rest;
    assert(s.skip(1) =~= rest);
    if s.len() >= 3 {
        let d = s.subrange(1, 3);
        assert(d[0] == rest[0] && d[1] == rest[1]);
        assert(d.drop_last().drop_last() =~= seq![]);
        reveal_with_fuel(parse_digits, 3);
        if !is_digit(rest[0]) {
            assert(digit_value(d[0], 16) is None);
            assert(d.drop_last().last() == d[0]);
        } else {
            assert(digit_value(d[1], 16) is None);
        }
        assert(hex_scalar(d) is None);
    }
}

/// `c` is a hexadecimal digit.
pub open spec fn is_digit(c: char) -> bool {
    '0' <= c <= '9' || 'a' <= c <= 'f' || 'A' <= c <= 'F'
}

/// A character that begins no escape stands for itself: all but `%` for URLs, all
/// but `%` and `+` for forms, all but `&` for HTML, and all but the backslash for
/// the others.
#[verifier::rlimit(40)]
pub proof fn lemma_other_character(c: char, rest: Seq<char>)
    ensures
        c != '%' ==> decoded(Escapes::Url, seq![c] + rest) == seq![c] + decoded(
            Escapes::Url,
            rest,
        ),
        c != '%' && c != '+' ==> decoded(Escapes::Form, seq![c] + rest) == seq![c] + decoded(
            Escapes::Form,
            rest,
        ),
        c != '&' ==> decoded(Escapes::Html, seq![c] + rest) == seq![c] + decoded(
            Escapes::Html,
            rest,
        ),
        c != '\\' ==> decoded(Escapes::Js, seq![c] + rest) == seq![c] + decoded(Escapes::Js, rest),
        c != '\\' ==> decoded(Escapes::Css, seq![c] + rest) == seq![c] + decoded(
            Escapes::Css,
            rest,
        ),
        forall|kind: Escapes| (#[trigger] decoded(kind, seq![])).len() == 0,
{
    let s = seq![c] + rest;
    assert(s.skip(1) =~= rest);
    reveal_strlit("&lt;");
    reveal_strlit("&gt;");
    reveal_strlit("&amp;");
    reveal_strlit("&quot;");
    reveal_strlit("&apos;");
    reveal_strlit("&#x");
    reveal_strlit("&#X");
    reveal_strlit("&#");
    if c != '&' {
        assert(starts_with(s, "&lt;"@) ==> s.take(4)[0] == '&');
        assert(starts_with(s, "&gt;"@) ==> s.take(4)[0] == '&');
        assert(starts_with(s, "&amp;"@) ==> s.take(5)[0] == '&');
        assert(starts_with(s, "&quot;"@) ==> s.take(6)[0] == '&');
        assert(starts_with(s, "&apos;"@) ==> s.take(6)[0] == '&');
        assert(starts_with(s, "&#x"@) ==> s.take(3)[0] == '&');
        assert(starts_with(s, "&#X"@) ==> s.take(3)[0] == '&');
        assert(starts_with(s, "&#"@) ==> s.take(2)[0] == '&');
    }
}

/// The five entities with a name.
#[verifier::rlimit(40)]
pub proof fn lemma_named_entities(rest: Seq<char>)
    ensures
        decoded(Escapes::Html, seq!['&', 'l', 't', ';'] + rest) == seq!['<'] + decoded(
            Escapes::Html,
            rest,
        ),
        decoded(Escapes::Html, seq!['&', 'g', 't', ';'] + rest) == seq!['>'] + decoded(
            Escapes::Html,
            rest,
        ),
        decoded(Escapes::Html, seq!['&', 'a', 'm', 'p', ';'] + rest) == seq!['&'] + decoded(
            Escapes::Html,
            rest,
        ),
        decoded(Escapes::Html, seq!['&', 'q', 'u', 'o', 't', ';'] + rest) == seq!['"'] + decoded(
            Escapes::Html,
            rest,
        ),
        decoded(Escapes::Html, seq!['&', 'a', 'p', 'o', 's', ';'] + rest) == seq!['\'']
            + decoded(Escapes::Html, rest),
{
    reveal_strlit("&lt;");
    reveal_strlit("&gt;");
    reveal_strlit("&amp;");
    reveal_strlit("&quot;");
    reveal_strlit("&apos;");
    let lt = seq!['&', 'l', 't', ';'];
    let gt = seq!['&', 'g', 't', ';'];
    let amp = seq!['&', 'a', 'm', 'p', ';'];
    let quot = seq!['&', 'q', 'u', 'o', 't', ';'];
    let apos = seq!['&', 'a', 'p', 'o', 's', ';'];
    assert((lt + rest).take(4) =~= "&lt;"@);
    lemma_decoded_escape(Escapes::Html, lt, '<', rest);
    let s = gt + rest;
    assert(s.take(4)[1] == 'g');
    assert(s.take(4) =~= "&gt;"@);
    lemma_decoded_escape(Escapes::Html, gt, '>', rest);
    let s = amp + rest;
    assert(s.take(4)[1] == 'a');
    assert(s.take(5) =~= "&amp;"@);
    lemma_decoded_escape(Escapes::Html, amp, '&', rest);
    let s = quot + rest;
    assert(s.take(4)[1] == 'q');
    assert(s.take(5)[1] == 'q');
    assert(s.take(6) =~= "&quot;"@);
    lemma_decoded_escape(Escapes::Html, quot, '"', rest);
    let s = apos + rest;
    assert(s.take(4)[1] == 'a');
    assert(s.take(5)[2] == 'p' && s.take(5)[3] == 'o');
    assert(s.take(6)[1] == 'a');
    assert(s.take(6) =~= "&apos;"@);
    lemma_decoded_escape(Escapes::Html, apos, '\'', rest);
}

proof fn lemma_no_named_entity(s: Seq<char>)
    requires
        s.len() >= 2,
        s[1] == '#',
    ensures
        !starts_with(s, "&lt;"@),
        !starts_with(s, "&gt;"@),
        !starts_with(s, "&amp;"@),
        !starts_with(s, "&quot;"@),
        !starts_with(s, "&apos;"@),
{
    reveal_strlit("&lt;");
    reveal_strlit("&gt;");
    reveal_strlit("&amp;");
    reveal_strlit("&quot;");
    reveal_strlit("&apos;");
    assert(starts_with(s, "&lt;"@) ==> s.take(4)[1] == 'l');
    assert(starts_with(s, "&gt;"@) ==> s.take(4)[1] == 'g');
    assert(starts_with(s, "&amp;"@) ==> s.take(5)[1] == 'a');
    assert(starts_with(s, "&quot;"@) ==> s.take(6)[1] == 'q');
    assert(starts_with(s, "&apos;"@) ==> s.take(6)[1] == 'a');
}

/// `&#N;` is the character with that code in decimal.
#[verifier::rlimit(40)]
pub proof fn lemma_decimal_entity(n: int, rest: Seq<char>)
    requires
        0 <= n <= u32::MAX,
        is_scalar(n as u32),
    ensures
        decoded(Escapes::Html, seq!['&', '#'] + decimal(n) + seq![';'] + rest) == seq![
            n as u32 as char,
        ] + decoded(Escapes::Html, rest),
{
    let d = decimal(n);
    let e = seq!['&', '#'] + d + seq![';'];
    let s = e + rest;
    lemma_decimal_digits(n);
    lemma_decimal_round_trip(n, u32::MAX as int);
    assert('0' <= d[0] <= '9');
    assert(s[2] == d[0]);
    assert(s[1] == '#');
    lemma_no_named_entity(s);
    reveal_strlit("&#x");
    reveal_strlit("&#X");
    reveal_strlit("&#");
    assert(starts_with(s, "&#x"@) ==> s.take(3)[2] == 'x');
    assert(starts_with(s, "&#X"@) ==> s.take(3)[2] == 'X');
    assert(s.take(3)[2] == s[2]);
    assert(s.take(2) =~= "&#"@);
    let tail = s.skip(2);
    assert(tail =~= d + seq![';'] + rest);
    assert forall|i: int| 0 <= i < d.len() implies #[trigger] d[i] != ';' by {
        assert('0' <= d[i] <= '9');
    }
    lemma_before_char(d, ';', rest);
    assert(tail.take(d.len() as int) =~= d);
    lemma_decoded_escape(Escapes::Html, e, n as u32 as char, rest);
}

/// `&#xH;` is the character with that code in hexadecimal.
#[verifier::rlimit(40)]
pub proof fn lemma_hex_entity(x: char, d: Seq<char>, v: int, rest: Seq<char>)
    requires
        x == 'x' || x == 'X',
        d.len() > 0,
        writes(d, v),
        v <= u32::MAX,
        is_scalar(v as u32),
    ensures
        decoded(Escapes::Html, seq!['&', '#', x] + d + seq![';'] + rest) == seq![
            v as u32 as char,
        ] + decoded(Escapes::Html, rest),
{
    let e = seq!['&', '#', x] + d + seq![';'];
    let s = e + rest;
    lemma_writes(d, v, u32::MAX as int);
    assert(s[1] == '#' && s[2] == x);
    lemma_no_named_entity(s);
    reveal_strlit("&#x");
    reveal_strlit("&#X");
    assert(x == 'x' ==> s.take(3) =~= "&#x"@);
    assert(x == 'X' ==> s.take(3) =~= "&#X"@);
    let tail = s.skip(3);
    assert(tail =~= d + seq![';'] + rest);
    assert forall|i: int| 0 <= i < d.len() implies #[trigger] d[i] != ';' by {
        assert(is_hex()(d[i]));
    }
    assert(is_hex()(d[0]));
    lemma_before_char(d, ';', rest);
    assert(tail.take(d.len() as int) =~= d);
    lemma_decoded_escape(Escapes::Html, e, v as u32 as char, rest);
}

/// A backslash with `n`, `r` or `t` is a line feed, a carriage return or a tab; with
/// any other character but `u` and `x`, it is that character.
pub proof fn lemma_js_letter(c: char, rest: Seq<char>)
    requires
        c != 'u' && c != 'U' && c != 'x' && c != 'X',
    ensures
        decoded(Escapes::Js, seq!['\\', c] + rest) == seq![
            if c == 'n' {
                '\n'
            } else if c == 'r' {
                '\r'
            } else if c == 't' {
                '\t'
            } else {
                c
            },
        ] + decoded(Escapes::Js, rest),
{
    let e = seq!['\\', c];
    let out = if c == 'n' {
        '\n'
    } else if c == 'r' {
        '\r'
    } else if c == 't' {
        '\t'
    } else {
        c
    };
    lemma_decoded_escape(Escapes::Js, e, out, rest);
}

/// A backslash with `uXXXX` or `xXX` is the character with that code.
pub proof fn lemma_js_code(u: char, d: Seq<char>, v: int, rest: Seq<char>)
    requires
        (u == 'u' || u == 'U') && d.len() == 4 || (u == 'x' || u == 'X') && d.len() == 2,
        writes(d, v),
        v <= u32::MAX,
        is_scalar(v as u32),
    ensures
        decoded(Escapes::Js, seq!['\\', u] + d + rest) == seq![v as u32 as char] + decoded(
            Escapes::Js,
            rest,
        ),
{
    let e = seq!['\\', u] + d;
    lemma_hex_scalar(d, v);
    assert((e + rest).subrange(2, 2 + d.len() as int) =~= d);
    lemma_decoded_escape(Escapes::Js, e, v as u32 as char, rest);
}

/// A backslash with one to six hexadecimal digits is the character with that code;
/// one space behind the digits goes with them.
#[verifier::rlimit(40)]
pub proof fn lemma_css_code(d: Seq<char>, v: int, rest: Seq<char>)
    requires
        1 <= d.len() <= 6,
        writes(d, v),
        v <= u32::MAX,
        is_scalar(v as u32),
    ensures
        decoded(Escapes::Css, seq!['\\'] + d + seq![' '] + rest) == seq![v as u32 as char]
            + decoded(Escapes::Css, rest),
        rest.len() == 0 || rest[0] != ' ' && (d.len() == 6 || !is_digit(rest[0])) ==> decoded(
            Escapes::Css,
            seq!['\\'] + d + rest,
        ) == seq![v as u32 as char] + decoded(Escapes::Css, rest),
{
    let n = d.len() as int;
    lemma_hex_scalar(d, v);
    let spaced = seq!['\\'] + d + seq![' '];
    lemma_css_digits(d, v, seq![' '] + rest);
    assert(spaced + rest =~= seq!['\\'] + d + (seq![' '] + rest));
    assert((spaced + rest).skip(1) =~= d + (seq![' '] + rest));
    assert((spaced + rest).subrange(1, 1 + n) =~= d);
    assert((spaced + rest)[1 + n] == ' ');
    lemma_decoded_escape(Escapes::Css, spaced, v as u32 as char, rest);
    if rest.len() == 0 || rest[0] != ' ' && (d.len() == 6 || !is_digit(rest[0])) {
        let bare = seq!['\\'] + d;
        lemma_css_digits(d, v, rest);
        assert((bare + rest).skip(1) =~= d + rest);
        assert((bare + rest).subrange(1, 1 + n) =~= d);
        if rest.len() > 0 {
            assert((bare + rest)[1 + n] == rest[0]);
        }
        lemma_decoded_escape(Escapes::Css, bare, v as u32 as char, rest);
    }
}

proof fn lemma_css_digits(d: Seq<char>, v: int, rest: Seq<char>)
    requires
        1 <= d.len() <= 6,
        writes(d, v),
        rest.len() > 0 ==> d.len() == 6 || !is_digit(rest[0]),
    ensures
        css_digits(d + rest) == d.len(),
{
    let s = d + rest;
    lemma_writes(d, v, v);
    assert forall|i: int| 0 <= i < d.len() implies is_hex()(#[trigger] s[i]) by {
        assert(s[i] == d[i]);
    }
    lemma_leading_bounds(s, is_hex());
    let n = leading(s, is_hex());
    if n < d.len() {
        assert(is_hex()(s[n]));
    }
    if d.len() < 6 && rest.len() > 0 {
        assert(s[d.len() as int] == rest[0]);
        assert(!is_hex()(rest[0]));
        lemma_leading_is(s, is_hex(), d.len() as int);
    }
}

/// The transformations that decode do so on the bytes of a text, the one for HTML
/// on its characters; of ASCII text that is the same.
pub proof fn lemma_decoding_transforms(s: Seq<char>)
    requires
        is_ascii_chars(s),
    ensures
        transformed(s, TransformView::UrlDecodeUni) == decoded(Escapes::Url, s),
        transformed(s, TransformView::HtmlEntityDecode) == decoded(Escapes::Html, s),
        transformed(s, TransformView::JsDecode) == decoded(Escapes::Js, s),
        transformed(s, TransformView::CssDecode) == decoded(Escapes::Css, s),
        form_text(s) == decoded(Escapes::Form, s),
{
    lemma_ascii_bytes(s);
}

proof fn lemma_unicode_parts(a: Seq<char>, b: Seq<char>)
    ensures
        unicode_escaped(a + b) == unicode_escaped(a) + unicode_escaped(b),
    decreases b.len(),
{
    if b.len() == 0 {
        assert(a + b =~= a);
        assert(unicode_escaped(a) + unicode_escaped(b) =~= unicode_escaped(a));
    } else {
        lemma_unicode_parts(a, b.drop_last());
        assert((a + b).drop_last() =~= a + b.drop_last());
        assert(unicode_escaped(a + b) =~= unicode_escaped(a) + unicode_escaped(b));
    }
}

/// `utf8toUnicode` keeps the ASCII characters and writes any other one as a
/// backslash, a `u` and the digits of its code, each where it stands.
pub proof fn lemma_utf8_to_unicode(a: Seq<char>, c: char, b: Seq<char>)
    ensures
        transformed(a + seq![c] + b, TransformView::Utf8toUnicode) == transformed(
            a,
            TransformView::Utf8toUnicode,
        ) + transformed(seq![c], TransformView::Utf8toUnicode) + transformed(
            b,
            TransformView::Utf8toUnicode,
        ),
        (c as u32) < 0x80 ==> transformed(seq![c], TransformView::Utf8toUnicode) == seq![c],
        transformed(seq![], TransformView::Utf8toUnicode).len() == 0,
{
    lemma_unicode_parts(a, seq![c]);
    lemma_unicode_parts(a + seq![c], b);
    lemma_unicode_one(c);
}

proof fn lemma_unicode_one(c: char)
    ensures
        unicode_escaped(seq![c]) == if (c as u32) < 0x80 {
            seq![c]
        } else {
            seq!['\\', 'u'] + zero_padded(written(c as u32 as int, 16), 4)
        },
{
    let s = seq![c];
    assert(s.drop_last() =~= seq![]);
    assert(unicode_escaped(s.drop_last()) =~= seq![]);
    assert(unicode_escaped(s) =~= unicode_escaped_char(c));
}

proof fn lemma_written_hex(v: int)
    requires
        0 <= v,
    ensures
        writes(written(v, 16), v),
        written(v, 16).len() > 0,
    decreases v,
{
    reveal_with_fuel(writes, 2);
    if v < 16 {
        let s = written(v, 16);
        assert(s.drop_last() =~= seq![]);
        assert(s.last() == digit_char(v));
    } else {
        lemma_written_hex(v / 16);
        let s = written(v, 16);
        assert(s.drop_last() =~= written(v / 16, 16));
        assert(s.last() == digit_char(v % 16));
    }
}

proof fn lemma_zero_in_front(d: Seq<char>, v: int)
    requires
        writes(d, v),
    ensures
        writes(seq!['0'] + d, v),
    decreases d.len(),
{
    reveal_with_fuel(writes, 2);
    let s = seq!['0'] + d;
    if d.len() == 0 {
        assert(s.drop_last() =~= seq![]);
        assert(s.last() == '0');
        assert(writes(s.drop_last(), 0));
    } else {
        assert(s.last() == d.last());
        lemma_zero_in_front(d.drop_last(), v / 16);
        assert(s.drop_last() =~= seq!['0'] + d.drop_last());
    }
}

proof fn lemma_padded(d: Seq<char>, v: int, width: int)
    requires
        writes(d, v),
    ensures
        writes(zero_padded(d, width), v),
        zero_padded(d, width).len() >= width,
        d.len() <= width ==> zero_padded(d, width).len() == width,
    decreases width - d.len(),
{
    if d.len() < width {
        lemma_zero_in_front(d, v);
        lemma_padded(seq!['0'] + d, v, width);
    }
}

/// What `utf8toUnicode` writes for a character beyond ASCII is at least four digits
/// of its code.
pub proof fn lemma_unicode_digits(c: char)
    requires
        (c as u32) >= 0x80,
    ensures
        ({
            let e = transformed(seq![c], TransformView::Utf8toUnicode);
            &&& e.len() >= 6
            &&& e[0] == '\\'
            &&& e[1] == 'u'
            &&& writes(e.skip(2), c as u32 as int)
        }),
{
    lemma_unicode_one(c);
    let d = written(c as u32 as int, 16);
    lemma_written_hex(c as u32 as int);
    lemma_padded(d, c as u32 as int, 4);
    let e = unicode_escaped(seq![c]);
    assert(e.skip(2) =~= zero_padded(d, 4));
}

// ---------------------------------------------------------------------------
// What is no escape
// ---------------------------------------------------------------------------

proof fn lemma_not_hex(d: Seq<char>, i: int)
    requires
        0 <= i < d.len(),
        !is_digit(d[i]),
    ensures
        hex_scalar(d) is None,
{
    lemma_digit_missing(d, i, u32::MAX as int);
}

proof fn lemma_digit_missing(d: Seq<char>, i: int, max: int)
    requires
        0 <= i < d.len(),
        !is_digit(d[i]),
    ensures
        parse_digits(d, 16, max) is Err,
    decreases d.len(),
{
    if i < d.len() - 1 {
        lemma_digit_missing(d.drop_last(), i, max);
    } else {
        assert(digit_value(d[i], 16) is None);
    }
}

/// A backslash with `u` or `x` but without room for the digits is that letter; where
/// there is room and one of them is no digit, the backslash stands for itself, and so
/// does one at the end.
pub proof fn lemma_js_letter_code(u: char, rest: Seq<char>, i: int)
    requires
        u == 'u' || u == 'U' || u == 'x' || u == 'X',
    ensures
        ({
            let n: int = if u == 'u' || u == 'U' {
                4
            } else {
                2
            };
            let s = seq!['\\', u] + rest;
            &&& rest.len() < n ==> decoded(Escapes::Js, s) == seq![u] + decoded(Escapes::Js, rest)
            &&& 0 <= i < n <= rest.len() && !is_digit(rest[i]) ==> decoded(Escapes::Js, s) == seq![
                '\\',
            ] + decoded(Escapes::Js, seq![u] + rest)
        }),
        decoded(Escapes::Js, seq!['\\']) == seq!['\\'],
        decoded(Escapes::Css, seq!['\\']) == seq!['\\'],
{
    let n: int = if u == 'u' || u == 'U' {
        4
    } else {
        2
    };
    let e = seq!['\\', u];
    let s = e + rest;
    if rest.len() < n {
        lemma_decoded_escape(Escapes::Js, e, u, rest);
    } else if 0 <= i < n && !is_digit(rest[i]) {
        let d = s.subrange(2, 2 + n);
        assert(d[i] == rest[i]);
        lemma_not_hex(d, i);
        assert(s.skip(1) =~= seq![u] + rest);
    }
    let lone = seq!['\\'];
    assert(lone.skip(1) =~= seq![]);
    assert(decoded(Escapes::Js, lone.skip(1)) =~= seq![]);
    assert(decoded(Escapes::Css, lone.skip(1)) =~= seq![]);
    assert(decoded(Escapes::Js, lone) =~= lone);
    assert(decoded(Escapes::Css, lone) =~= lone);
}

/// A backslash before anything but a hexadecimal digit stands for itself in CSS.
pub proof fn lemma_css_other(c: char, rest: Seq<char>)
    requires
        !is_digit(c),
    ensures
        decoded(Escapes::Css, seq!['\\', c] + rest) == seq!['\\'] + decoded(
            Escapes::Css,
            seq![c] + rest,
        ),
{
    let s = seq!['\\', c] + rest;
    assert(s.skip(1) =~= seq![c] + rest);
    assert(s.skip(1)[0] == c);
    assert(!is_hex()(c));
    lemma_leading_is(s.skip(1), is_hex(), 0);
}

/// An ampersand that begins none of the entities stands for itself: the character behind
/// it is no letter of theirs and no number sign, or a number has no end.
#[verifier::rlimit(40)]
pub proof fn lemma_html_other(c: char, rest: Seq<char>)
    requires
        c != 'l' && c != 'g' && c != 'a' && c != 'q' && (c != '#' || free_of(rest, ';')),
    ensures
        decoded(Escapes::Html, seq!['&', c] + rest) == seq!['&'] + decoded(
            Escapes::Html,
            seq![c] + rest,
        ),
{
    let s = seq!['&', c] + rest;
    assert(s.skip(1) =~= seq![c] + rest);
    reveal_strlit("&lt;");
    reveal_strlit("&gt;");
    reveal_strlit("&amp;");
    reveal_strlit("&quot;");
    reveal_strlit("&apos;");
    reveal_strlit("&#x");
    reveal_strlit("&#X");
    reveal_strlit("&#");
    assert(s[1] == c);
    assert(starts_with(s, "&lt;"@) ==> s.take(4)[1] == 'l');
    assert(starts_with(s, "&gt;"@) ==> s.take(4)[1] == 'g');
    assert(starts_with(s, "&amp;"@) ==> s.take(5)[1] == 'a');
    assert(starts_with(s, "&quot;"@) ==> s.take(6)[1] == 'q');
    assert(starts_with(s, "&apos;"@) ==> s.take(6)[1] == 'a');
    assert(starts_with(s, "&#x"@) ==> s.take(3)[1] == '#');
    assert(starts_with(s, "&#X"@) ==> s.take(3)[1] == '#');
    assert(starts_with(s, "&#"@) ==> s.take(2)[1] == '#');
    if c == '#' {
        assert(s.skip(2) =~= rest);
        lemma_no_end(s.skip(2), rest);
        if s.len() >= 3 {
            assert(s.skip(3) =~= rest.skip(1));
            lemma_no_end(s.skip(3), rest);
        }
    }
}

proof fn lemma_no_end(d: Seq<char>, rest: Seq<char>)
    requires
        free_of(rest, ';'),
        d == rest || rest.len() > 0 && d == rest.skip(1),
    ensures
        before_char(d, ';') >= d.len(),
{
    assert forall|i: int| 0 <= i < d.len() implies #[trigger] d[i] != ';' by {
        if d == rest {
            assert(rest[i] != ';');
        } else {
            assert(d[i] == rest[i + 1]);
        }
    }
    lemma_before_char(d, ';', seq![]);
}

proof fn lemma_written_upper(v: int)
    requires
        0 <= v,
    ensures
        forall|i: int|
            0 <= i < written(v, 16).len() ==> '0' <= #[trigger] written(v, 16)[i] <= '9' || 'A'
                <= written(v, 16)[i] <= 'F',
        v < 16 ==> written(v, 16).len() == 1,
        v < 256 ==> written(v, 16).len() <= 2,
        v < 4096 ==> written(v, 16).len() <= 3,
        v < 65536 ==> written(v, 16).len() <= 4,
    decreases v,
{
    let s = written(v, 16);
    if v >= 16 {
        lemma_written_upper(v / 16);
        let head = written(v / 16, 16);
        assert forall|i: int| 0 <= i < s.len() implies '0' <= #[trigger] s[i] <= '9' || 'A' <= s[i]
            <= 'F' by {
            if i < head.len() {
                assert(s[i] == head[i]);
            } else {
                assert(s[i] == digit_char(v % 16));
            }
        }
    }
}

proof fn lemma_padded_upper(d: Seq<char>, width: int)
    requires
        forall|i: int|
            0 <= i < d.len() ==> '0' <= #[trigger] d[i] <= '9' || 'A' <= d[i] <= 'F',
    ensures
        forall|i: int|
            0 <= i < zero_padded(d, width).len() ==> '0' <= #[trigger] zero_padded(d, width)[i]
                <= '9' || 'A' <= zero_padded(d, width)[i] <= 'F',
    decreases width - d.len(),
{
    if d.len() < width {
        let s = seq!['0'] + d;
        assert forall|i: int| 0 <= i < s.len() implies '0' <= #[trigger] s[i] <= '9' || 'A' <= s[i]
            <= 'F' by {
            if i > 0 {
                assert(s[i] == d[i - 1]);
            }
        }
        lemma_padded_upper(s, width);
        assert(zero_padded(d, width) == zero_padded(s, width));
    } else {
        assert(zero_padded(d, width) == d);
    }
}

/// The digits that `utf8toUnicode` writes are in uppercase, and just four where four are
/// enough.
pub proof fn lemma_unicode_form(c: char)
    requires
        (c as u32) >= 0x80,
    ensures
        ({
            let e = transformed(seq![c], TransformView::Utf8toUnicode);
            &&& (c as u32) < 0x10000 ==> e.len() == 6
            &&& forall|i: int|
                2 <= i < e.len() ==> '0' <= #[trigger] e[i] <= '9' || 'A' <= e[i] <= 'F'
        }),
{
    lemma_unicode_one(c);
    let d = written(c as u32 as int, 16);
    lemma_written_hex(c as u32 as int);
    lemma_padded(d, c as u32 as int, 4);
    lemma_written_upper(c as u32 as int);
    lemma_padded_upper(d, 4);
    let e = unicode_escaped(seq![c]);
    let p = zero_padded(d, 4);
    assert(e =~= seq!['\\', 'u'] + p);
    assert forall|i: int| 2 <= i < e.len() implies '0' <= #[trigger] e[i] <= '9' || 'A' <= e[i]
        <= 'F' by {
        assert(e[i] == p[i - 2]);
    }
}

} // verus!
