//! Transformations of a value before a rule's operator sees it.

use vstd::prelude::*;
use vstd::slice::slice_subrange;

use crate::crs::types::{transforms_view, Transform, TransformView};
use crate::number::{
    digit_value, hex_digit, lemma_parse_digits_error, natural, pad_zeros, parse_digits,
    parse_natural, scalar, write_number, written, zero_padded,
};
use crate::text::{
    ascii_space, before_char, begins, byte_chars, byte_chars_of, chars_of, find_char,
    is_ascii_space, leading, lemma_leading_bounds, lowercase, not_char, push_chars, starts_with,
    string_of,
};

verus! {

// ---------------------------------------------------------------------------
// What the transformations are
// ---------------------------------------------------------------------------

/// The ways to write a character by an escape.
#[derive(Clone, Copy, Debug, PartialEq, Eq, Structural)]
pub enum Escapes {
    /// `%XX` and `%uXXXX`.
    Url,
    /// `%XX`, and `+` for a space.
    Form,
    /// `&name;`, `&#N;` and `&#xN;`.
    Html,
    /// A backslash with `uXXXX`, `xXX`, `n`, `r`, `t`, or the character itself.
    Js,
    /// A backslash with one to six hexadecimal digits and an optional space.
    Css,
}

/// The character whose code is the number that hexadecimal digits write.
pub open spec fn hex_scalar(d: Seq<char>) -> Option<char> {
    match parse_digits(d, 16, u32::MAX as int) {
        Ok(v) => scalar(v as u32),
        Err(_) => None,
    }
}

/// The escape of the kind `%XX` that `s` starts with.
pub open spec fn percent_escape(s: Seq<char>) -> Option<(char, int)> {
    if s.len() >= 3 && s[0] == '%' && hex_scalar(s.subrange(1, 3)) is Some {
        Some((hex_scalar(s.subrange(1, 3))->0, 3))
    } else {
        None
    }
}

/// The escape of the kinds `%uXXXX` and `%XX` that `s` starts with.
pub open spec fn url_escape(s: Seq<char>) -> Option<(char, int)> {
    if s.len() >= 6 && s[0] == '%' && (s[1] == 'u' || s[1] == 'U') && hex_scalar(
        s.subrange(2, 6),
    ) is Some {
        Some((hex_scalar(s.subrange(2, 6))->0, 6))
    } else {
        percent_escape(s)
    }
}

/// The escape of form encoding that `s` starts with.
pub open spec fn form_escape(s: Seq<char>) -> Option<(char, int)> {
    if s.len() > 0 && s[0] == '+' {
        Some((' ', 1))
    } else {
        percent_escape(s)
    }
}

/// The entity by number that `s` starts with: the digits stand at position
/// `at`, in base `radix`, and end before the first semicolon.
pub open spec fn numeric_entity(s: Seq<char>, at: int, radix: int) -> Option<(char, int)> {
    let d = s.skip(at);
    let n = before_char(d, ';');
    if n < d.len() {
        match parse_natural(d.take(n), radix, u32::MAX as int) {
            Ok(v) => match scalar(v as u32) {
                Some(c) => Some((c, at + n + 1)),
                None => None,
            },
            Err(_) => None,
        }
    } else {
        None
    }
}

/// The HTML entity that `s` starts with.
pub open spec fn html_escape(s: Seq<char>) -> Option<(char, int)> {
    if starts_with(s, "&lt;"@) {
        Some(('<', 4))
    } else if starts_with(s, "&gt;"@) {
        Some(('>', 4))
    } else if starts_with(s, "&amp;"@) {
        Some(('&', 5))
    } else if starts_with(s, "&quot;"@) {
        Some(('"', 6))
    } else if starts_with(s, "&apos;"@) {
        Some(('\'', 6))
    } else if starts_with(s, "&#x"@) || starts_with(s, "&#X"@) {
        numeric_entity(s, 3, 16)
    } else if starts_with(s, "&#"@) {
        numeric_entity(s, 2, 10)
    } else {
        None
    }
}

/// The JavaScript escape that `s` starts with. A `\u` or `\x` with room for its
/// digits is an escape only where the digits write a character; one without
/// room for them stands for the letter.
pub open spec fn js_escape(s: Seq<char>) -> Option<(char, int)> {
    if s.len() < 2 || s[0] != '\\' {
        None
    } else if (s[1] == 'u' || s[1] == 'U') && s.len() >= 6 {
        match hex_scalar(s.subrange(2, 6)) {
            Some(c) => Some((c, 6)),
            None => None,
        }
    } else if (s[1] == 'x' || s[1] == 'X') && s.len() >= 4 {
        match hex_scalar(s.subrange(2, 4)) {
            Some(c) => Some((c, 4)),
            None => None,
        }
    } else if s[1] == 'n' {
        Some(('\n', 2))
    } else if s[1] == 'r' {
        Some(('\r', 2))
    } else if s[1] == 't' {
        Some(('\t', 2))
    } else {
        Some((s[1], 2))
    }
}

/// Being a hexadecimal digit.
pub open spec fn is_hex() -> spec_fn(char) -> bool {
    |x: char| digit_value(x, 16) is Some
}

/// How many hexadecimal digits, at most six, `s` starts with.
pub open spec fn css_digits(s: Seq<char>) -> int {
    let n = leading(s, is_hex());
    if n <= 6 {
        n
    } else {
        6
    }
}

/// The CSS escape that `s` starts with.
pub open spec fn css_escape(s: Seq<char>) -> Option<(char, int)> {
    if s.len() < 2 || s[0] != '\\' {
        None
    } else {
        let n = css_digits(s.skip(1));
        if n == 0 {
            None
        } else {
            match hex_scalar(s.subrange(1, 1 + n)) {
                Some(c) => if s.len() > 1 + n && s[1 + n] == ' ' {
                    Some((c, n + 2))
                } else {
                    Some((c, n + 1))
                },
                None => None,
            }
        }
    }
}

/// The escape that `s` starts with: the character it stands for, and how many
/// characters it takes.
pub open spec fn escape(kind: Escapes, s: Seq<char>) -> Option<(char, int)> {
    match kind {
        Escapes::Url => url_escape(s),
        Escapes::Form => form_escape(s),
        Escapes::Html => html_escape(s),
        Escapes::Js => js_escape(s),
        Escapes::Css => css_escape(s),
    }
}

/// `s` with its escapes, found from the left, replaced by what they stand for.
pub open spec fn decoded(kind: Escapes, s: Seq<char>) -> Seq<char>
    decreases s.len(),
{
    if s.len() == 0 {
        seq![]
    } else {
        match escape(kind, s) {
            Some((c, n)) => if 0 < n <= s.len() {
                seq![c] + decoded(kind, s.skip(n))
            } else {
                seq![]
            },
            None => seq![s[0]] + decoded(kind, s.skip(1)),
        }
    }
}

/// `s` with each run of ASCII whitespace replaced by one space.
pub open spec fn compressed(s: Seq<char>) -> Seq<char>
    decreases s.len(),
{
    if s.len() == 0 {
        seq![]
    } else {
        let head = compressed(s.drop_last());
        if !is_ascii_space(s.last()) {
            head.push(s.last())
        } else if s.len() > 1 && is_ascii_space(s[s.len() - 2]) {
            head
        } else {
            head.push(' ')
        }
    }
}

/// An ASCII character as it is, any other by the escape `\uXXXX`.
pub open spec fn unicode_escaped_char(c: char) -> Seq<char> {
    if (c as u32) < 0x80 {
        seq![c]
    } else {
        seq!['\\', 'u'] + zero_padded(written(c as u32 as int, 16), 4)
    }
}

/// `s` with every character that is not ASCII replaced by its escape `\uXXXX`.
pub open spec fn unicode_escaped(s: Seq<char>) -> Seq<char>
    decreases s.len(),
{
    if s.len() == 0 {
        seq![]
    } else {
        unicode_escaped(s.drop_last()) + unicode_escaped_char(s.last())
    }
}

/// What the transformation `t` makes of `s`.
pub open spec fn transformed(s: Seq<char>, t: TransformView) -> Seq<char> {
    match t {
        TransformView::Lowercase => lowercase(s),
        TransformView::RemoveNulls => s.filter(|c: char| c != '\0'),
        TransformView::RemoveWhitespace => s.filter(|c: char| !is_ascii_space(c)),
        TransformView::CompressWhitespace => compressed(s),
        TransformView::UrlDecodeUni => decoded(Escapes::Url, byte_chars(s)),
        TransformView::HtmlEntityDecode => decoded(Escapes::Html, s),
        TransformView::JsDecode => decoded(Escapes::Js, byte_chars(s)),
        TransformView::CssDecode => decoded(Escapes::Css, byte_chars(s)),
        TransformView::Utf8toUnicode => unicode_escaped(s),
        TransformView::Identity => s,
        TransformView::Other(_) => s,
    }
}

/// What the transformations `ts`, applied in order, make of `s`.
pub open spec fn transformed_by(s: Seq<char>, ts: Seq<TransformView>) -> Seq<char>
    decreases ts.len(),
{
    if ts.len() == 0 {
        s
    } else {
        transformed(transformed_by(s, ts.drop_last()), ts.last())
    }
}

// ---------------------------------------------------------------------------
// Escapes
// ---------------------------------------------------------------------------

/// An escape is never empty and never longer than the text.
proof fn lemma_escape_bounds(kind: Escapes, s: Seq<char>)
    ensures
        escape(kind, s) matches Some((c, n)) ==> 0 < n <= s.len(),
{
    reveal_strlit("&lt;");
    reveal_strlit("&gt;");
    reveal_strlit("&amp;");
    reveal_strlit("&quot;");
    reveal_strlit("&apos;");
    reveal_strlit("&#x");
    reveal_strlit("&#X");
    reveal_strlit("&#");
    if s.len() >= 1 {
        lemma_leading_bounds(s.skip(1), is_hex());
    }
    if s.len() >= 2 {
        lemma_leading_bounds(s.skip(2), not_char(';'));
    }
    if s.len() >= 3 {
        lemma_leading_bounds(s.skip(3), not_char(';'));
    }
}

/// An escape with its length as a number.
pub open spec fn escape_view(r: Option<(char, usize)>) -> Option<(char, int)> {
    match r {
        Some((c, n)) => Some((c, n as int)),
        None => None,
    }
}

/// The character whose code hexadecimal digits write.
fn hex_char(d: &[char]) -> (r: Option<char>)
    requires
        d@.len() <= 6,
    ensures
        r == hex_scalar(d@),
{
    let mut value: u32 = 0;
    for i in 0..d.len()
        invariant
            d@.len() <= 6,
            parse_digits(d@.take(i as int), 16, u32::MAX as int) == Ok::<
                int,
                crate::number::NumberError,
            >(value as int),
            i <= 1 ==> value < 0x10,
            i == 0 ==> value == 0,
            i <= 2 ==> value < 0x100,
            i <= 3 ==> value < 0x1000,
            i <= 4 ==> value < 0x1_0000,
            i <= 5 ==> value < 0x10_0000,
            i <= 6 ==> value < 0x100_0000,
    {
        proof {
            assert(d@.take(i + 1).drop_last() =~= d@.take(i as int));
            assert(d@.take(i + 1).last() == d@[i as int]);
            if parse_digits(d@.take(i + 1), 16, u32::MAX as int) is Err {
                lemma_parse_digits_error(d@, i + 1, 16, u32::MAX as int);
            }
        }
        match hex_digit(d[i]) {
            None => {
                return None;
            },
            Some(x) => {
                value = value * 16 + x;
            },
        }
    }
    assert(d@.take(d@.len() as int) =~= d@);
    char::from_u32(value)
}

/// The escape of the kind `%XX` that `s` starts with.
fn percent_at(s: &[char]) -> (r: Option<(char, usize)>)
    ensures
        escape_view(r) == percent_escape(s@),
{
    if s.len() >= 3 && s[0] == '%' {
        match hex_char(slice_subrange(s, 1, 3)) {
            Some(c) => Some((c, 3)),
            None => None,
        }
    } else {
        None
    }
}

/// The escape of the kinds `%uXXXX` and `%XX` that `s` starts with.
fn url_at(s: &[char]) -> (r: Option<(char, usize)>)
    ensures
        escape_view(r) == url_escape(s@),
{
    if s.len() >= 6 && s[0] == '%' && (s[1] == 'u' || s[1] == 'U') {
        match hex_char(slice_subrange(s, 2, 6)) {
            Some(c) => {
                return Some((c, 6));
            },
            None => {},
        }
    }
    percent_at(s)
}

/// The escape of form encoding that `s` starts with.
fn form_at(s: &[char]) -> (r: Option<(char, usize)>)
    ensures
        escape_view(r) == form_escape(s@),
{
    if s.len() > 0 && s[0] == '+' {
        Some((' ', 1))
    } else {
        percent_at(s)
    }
}

/// The entity by number that `s` starts with.
fn numeric_at(s: &[char], at: usize, radix: u64) -> (r: Option<(char, usize)>)
    requires
        at <= s@.len(),
        radix == 10 || radix == 16,
    ensures
        escape_view(r) == numeric_entity(s@, at as int, radix as int),
{
    let d = slice_subrange(s, at, s.len());
    assert(d@ =~= s@.skip(at as int));
    let n = find_char(d, ';');
    if n < d.len() {
        match natural(slice_subrange(d, 0, n), radix, 0xffff_ffff) {
            Ok(v) => match char::from_u32(v as u32) {
                Some(c) => Some((c, at + n + 1)),
                None => None,
            },
            Err(_) => None,
        }
    } else {
        None
    }
}

/// The HTML entity that `s` starts with.
fn html_at(s: &[char]) -> (r: Option<(char, usize)>)
    ensures
        escape_view(r) == html_escape(s@),
{
    proof {
        reveal_strlit("&#x");
        reveal_strlit("&#X");
        reveal_strlit("&#");
    }
    if begins(s, "&lt;") {
        Some(('<', 4))
    } else if begins(s, "&gt;") {
        Some(('>', 4))
    } else if begins(s, "&amp;") {
        Some(('&', 5))
    } else if begins(s, "&quot;") {
        Some(('"', 6))
    } else if begins(s, "&apos;") {
        Some(('\'', 6))
    } else if begins(s, "&#x") || begins(s, "&#X") {
        numeric_at(s, 3, 16)
    } else if begins(s, "&#") {
        numeric_at(s, 2, 10)
    } else {
        None
    }
}

/// The JavaScript escape that `s` starts with.
fn js_at(s: &[char]) -> (r: Option<(char, usize)>)
    ensures
        escape_view(r) == js_escape(s@),
{
    if s.len() < 2 || s[0] != '\\' {
        None
    } else if (s[1] == 'u' || s[1] == 'U') && s.len() >= 6 {
        match hex_char(slice_subrange(s, 2, 6)) {
            Some(c) => Some((c, 6)),
            None => None,
        }
    } else if (s[1] == 'x' || s[1] == 'X') && s.len() >= 4 {
        match hex_char(slice_subrange(s, 2, 4)) {
            Some(c) => Some((c, 4)),
            None => None,
        }
    } else if s[1] == 'n' {
        Some(('\n', 2))
    } else if s[1] == 'r' {
        Some(('\r', 2))
    } else if s[1] == 't' {
        Some(('\t', 2))
    } else {
        Some((s[1], 2))
    }
}

/// The CSS escape that `s` starts with.
fn css_at(s: &[char]) -> (r: Option<(char, usize)>)
    ensures
        escape_view(r) == css_escape(s@),
{
    if s.len() < 2 || s[0] != '\\' {
        return None;
    }
    let d = slice_subrange(s, 1, s.len());
    assert(d@ =~= s@.skip(1));
    let mut n: usize = 0;
    while n < d.len() && n < 6 && hex_digit(d[n]).is_some()
        invariant
            n <= d@.len(),
            n <= 6,
            forall|i: int| 0 <= i < n ==> digit_value(#[trigger] d@[i], 16) is Some,
        decreases d@.len() - n,
    {
        n = n + 1;
    }
    proof {
        lemma_leading_bounds(d@, is_hex());
        let m = leading(d@, is_hex());
        if m < n {
            assert(digit_value(d@[m], 16) is Some);
        } else if n < 6 && n < m {
            assert(is_hex()(d@[n as int]));
        }
        assert(n == css_digits(d@));
        assert(s@.subrange(1, 1 + n) =~= d@.take(n as int));
    }
    if n == 0 {
        return None;
    }
    match hex_char(slice_subrange(s, 1, 1 + n)) {
        Some(c) => if s.len() > 1 + n && s[1 + n] == ' ' {
            Some((c, n + 2))
        } else {
            Some((c, n + 1))
        },
        None => None,
    }
}

/// The escape that `s` starts with.
fn escape_at(kind: Escapes, s: &[char]) -> (r: Option<(char, usize)>)
    ensures
        escape_view(r) == escape(kind, s@),
        r matches Some((c, n)) ==> 0 < n <= s@.len(),
{
    proof {
        lemma_escape_bounds(kind, s@);
    }
    match kind {
        Escapes::Url => url_at(s),
        Escapes::Form => form_at(s),
        Escapes::Html => html_at(s),
        Escapes::Js => js_at(s),
        Escapes::Css => css_at(s),
    }
}

/// `s` with its escapes, found from the left, replaced by what they stand for.
pub fn decode(kind: Escapes, s: &[char]) -> (out: Vec<char>)
    ensures
        out@ == decoded(kind, s@),
{
    let mut out: Vec<char> = Vec::new();
    let mut i: usize = 0;
    assert(s@.skip(0) =~= s@);
    assert(out@ + decoded(kind, s@) =~= decoded(kind, s@));
    while i < s.len()
        invariant
            i <= s@.len(),
            out@ + decoded(kind, s@.skip(i as int)) == decoded(kind, s@),
        decreases s@.len() - i,
    {
        let rest = slice_subrange(s, i, s.len());
        assert(rest@ =~= s@.skip(i as int));
        let ghost before = out@;
        match escape_at(kind, rest) {
            Some((c, n)) => {
                out.push(c);
                assert(rest@.skip(n as int) =~= s@.skip(i + n));
                assert(out@ + decoded(kind, s@.skip(i + n)) =~= before + decoded(kind, rest@));
                i = i + n;
            },
            None => {
                out.push(rest[0]);
                assert(rest@.skip(1) =~= s@.skip(i + 1));
                assert(out@ + decoded(kind, s@.skip(i + 1)) =~= before + decoded(kind, rest@));
                i = i + 1;
            },
        }
    }
    assert(decoded(kind, s@.skip(i as int)) =~= seq![]);
    assert(out@ + decoded(kind, s@.skip(i as int)) =~= out@);
    out
}

// ---------------------------------------------------------------------------
// The transformations
// ---------------------------------------------------------------------------

/// Decodes `%XX` and `%uXXXX`.
pub fn url_decode_uni(s: &str) -> (out: String)
    ensures
        out@ == decoded(Escapes::Url, byte_chars(s@)),
{
    let b = byte_chars_of(s);
    let d = decode(Escapes::Url, b.as_slice());
    string_of(d.as_slice())
}

/// Decodes the common HTML entities, by name and by number.
pub fn html_entity_decode(s: &str) -> (out: String)
    ensures
        out@ == decoded(Escapes::Html, s@),
{
    let b = chars_of(s);
    let d = decode(Escapes::Html, b.as_slice());
    string_of(d.as_slice())
}

/// Decodes JavaScript escapes.
pub fn js_decode(s: &str) -> (out: String)
    ensures
        out@ == decoded(Escapes::Js, byte_chars(s@)),
{
    let b = byte_chars_of(s);
    let d = decode(Escapes::Js, b.as_slice());
    string_of(d.as_slice())
}

/// Decodes CSS escapes.
pub fn css_decode(s: &str) -> (out: String)
    ensures
        out@ == decoded(Escapes::Css, byte_chars(s@)),
{
    let b = byte_chars_of(s);
    let d = decode(Escapes::Css, b.as_slice());
    string_of(d.as_slice())
}

/// Replaces each run of ASCII whitespace by one space.
pub fn compress_whitespace(s: &str) -> (out: String)
    ensures
        out@ == compressed(s@),
{
    let cs = chars_of(s);
    let mut out: Vec<char> = Vec::new();
    let mut prev_space = false;
    for i in 0..cs.len()
        invariant
            cs@ == s@,
            out@ == compressed(s@.take(i as int)),
            prev_space == (i > 0 && is_ascii_space(s@[i - 1])),
    {
        assert(s@.take(i + 1).drop_last() =~= s@.take(i as int));
        assert(s@.take(i + 1).last() == s@[i as int]);
        if ascii_space(cs[i]) {
            if !prev_space {
                out.push(' ');
            }
            prev_space = true;
        } else {
            out.push(cs[i]);
            prev_space = false;
        }
    }
    assert(s@.take(s@.len() as int) =~= s@);
    string_of(out.as_slice())
}

/// Replaces every character that is not ASCII by its escape `\uXXXX`.
pub fn utf8_to_unicode_escape(s: &str) -> (out: String)
    ensures
        out@ == unicode_escaped(s@),
{
    let cs = chars_of(s);
    let mut out: Vec<char> = Vec::new();
    for i in 0..cs.len()
        invariant
            cs@ == s@,
            out@ == unicode_escaped(s@.take(i as int)),
    {
        assert(s@.take(i + 1).drop_last() =~= s@.take(i as int));
        assert(s@.take(i + 1).last() == s@[i as int]);
        let c = cs[i];
        let code: u32 = c as u32;
        let ghost before = out@;
        if code < 0x80 {
            out.push(c);
            assert(out@ =~= before + seq![c]);
        } else {
            out.push('\\');
            out.push('u');
            let digits = pad_zeros(write_number(code as u64, 16), 4);
            assert(digits@ == zero_padded(written(code as int, 16), 4));
            push_chars(&mut out, digits.as_slice());
            assert(out@ =~= before + (seq!['\\', 'u'] + digits@));
        }
    }
    assert(s@.take(s@.len() as int) =~= s@);
    string_of(out.as_slice())
}

/// Removes the characters with code 0.
fn remove_nulls(s: &str) -> (out: String)
    ensures
        out@ == s@.filter(|c: char| c != '\0'),
{
    let cs = chars_of(s);
    let mut out: Vec<char> = Vec::new();
    let ghost keep = |c: char| c != '\0';
    for i in 0..cs.len()
        invariant
            cs@ == s@,
            keep == (|c: char| c != '\0'),
            out@ == s@.take(i as int).filter(keep),
    {
        assert(s@.take(i + 1) =~= s@.take(i as int).push(s@[i as int]));
        proof {
            lemma_filter_push(s@.take(i as int), s@[i as int], keep);
        }
        if cs[i] != '\0' {
            out.push(cs[i]);
        }
    }
    assert(s@.take(s@.len() as int) =~= s@);
    string_of(out.as_slice())
}

/// Removes ASCII whitespace.
fn remove_whitespace(s: &str) -> (out: String)
    ensures
        out@ == s@.filter(|c: char| !is_ascii_space(c)),
{
    let cs = chars_of(s);
    let mut out: Vec<char> = Vec::new();
    let ghost keep = |c: char| !is_ascii_space(c);
    for i in 0..cs.len()
        invariant
            cs@ == s@,
            keep == (|c: char| !is_ascii_space(c)),
            out@ == s@.take(i as int).filter(keep),
    {
        assert(s@.take(i + 1) =~= s@.take(i as int).push(s@[i as int]));
        proof {
            lemma_filter_push(s@.take(i as int), s@[i as int], keep);
        }
        if !ascii_space(cs[i]) {
            out.push(cs[i]);
        }
    }
    assert(s@.take(s@.len() as int) =~= s@);
    string_of(out.as_slice())
}

proof fn lemma_filter_push(s: Seq<char>, c: char, keep: spec_fn(char) -> bool)
    ensures
        s.push(c).filter(keep) == if keep(c) {
            s.filter(keep).push(c)
        } else {
            s.filter(keep)
        },
{
    reveal(Seq::filter);
    assert(s.push(c).drop_last() =~= s);
}

/// Applies one transformation.
pub fn apply_one(s: &str, t: &Transform) -> (out: String)
    ensures
        out@ == transformed(s@, t@),
{
    match t {
        Transform::Lowercase => s.to_lowercase(),
        Transform::RemoveNulls => remove_nulls(s),
        Transform::RemoveWhitespace => remove_whitespace(s),
        Transform::CompressWhitespace => compress_whitespace(s),
        Transform::UrlDecodeUni => url_decode_uni(s),
        Transform::HtmlEntityDecode => html_entity_decode(s),
        Transform::JsDecode => js_decode(s),
        Transform::Utf8toUnicode => utf8_to_unicode_escape(s),
        Transform::CssDecode => css_decode(s),
        Transform::Identity => s.to_owned(),
        Transform::Other(_) => s.to_owned(),
    }
}

/// Applies the transformations in order.
pub fn apply_transforms(value: &str, transforms: &[Transform]) -> (out: String)
    ensures
        out@ == transformed_by(value@, transforms_view(transforms@)),
{
    let mut s: String = value.to_owned();
    for i in 0..transforms.len()
        invariant
            s@ == transformed_by(value@, transforms_view(transforms@).take(i as int)),
    {
        let ghost ts = transforms_view(transforms@);
        assert(ts.take(i + 1).drop_last() =~= ts.take(i as int));
        assert(ts.take(i + 1).last() == ts[i as int]);
        s = apply_one(s.as_str(), &transforms[i]);
    }
    assert(transforms_view(transforms@).take(transforms@.len() as int) =~= transforms_view(
        transforms@,
    ));
    s
}

} // verus!
