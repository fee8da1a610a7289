//! What is read of a request, in terms of its text.

use vstd::prelude::*;

use crate::http::{
    after_chunk, before_crlf, body_length, crlf_lines, head_of_text, headers_in, next_action,
    HeadView, ReadAction, ReaderView, RequestError,
};
use crate::number::{decimal, digit_value, lemma_decimal_round_trip, parse_digits};
use crate::ordered::{
    lemma_entered_ordered, lemma_lookup_entered, lemma_lookup_other, lookup, ordered,
};
use crate::text::{ascii_lower, is_space, split_once, trim, words};
use crate::text_laws::{
    blank, free_of, lemma_contains, lemma_no_words, lemma_split_once, lemma_starts_with,
    lemma_trim, lemma_word, tight,
};

verus! {

// ---------------------------------------------------------------------------
// Lines
// ---------------------------------------------------------------------------

/// A line reaches to the next CR LF.
pub proof fn lemma_crlf_line(line: Seq<char>, rest: Seq<char>)
    requires
        free_of(line, '\r'),
    ensures
        crlf_lines(line + seq!['\r', '\n'] + rest) == seq![line] + crlf_lines(rest),
        crlf_lines(line) == seq![line],
{
    lemma_before_crlf(line, rest);
    let s = line + seq!['\r', '\n'] + rest;
    let n = line.len() as int;
    assert(s.take(n) =~= line);
    assert(s.skip(n + 2) =~= rest);
}

proof fn lemma_before_crlf(line: Seq<char>, rest: Seq<char>)
    requires
        free_of(line, '\r'),
    ensures
        before_crlf(line + seq!['\r', '\n'] + rest) == line.len(),
        before_crlf(line) == line.len(),
    decreases line.len(),
{
    let s = line + seq!['\r', '\n'] + rest;
    if line.len() > 0 {
        assert(s[0] == line[0]);
        assert(line[0] != '\r');
        let tail = line.skip(1);
        assert forall|i: int| 0 <= i < tail.len() implies #[trigger] tail[i] != '\r' by {
            assert(tail[i] == line[i + 1]);
        }
        lemma_before_crlf(tail, rest);
        assert(s.skip(1) =~= tail + seq!['\r', '\n'] + rest);
    } else {
        assert(s[0] == '\r' && s[1] == '\n');
    }
}

// ---------------------------------------------------------------------------
// Headers
// ---------------------------------------------------------------------------

/// The headers that were read are ordered by their names.
pub proof fn lemma_headers_ordered(ls: Seq<Seq<char>>)
    ensures
        headers_in(ls) matches Ok(headers) ==> ordered(headers),
    decreases ls.len(),
{
    if ls.len() > 0 {
        lemma_headers_ordered(ls.drop_last());
        if let Ok(headers) = headers_in(ls.drop_last()) {
            if let Some((name, value)) = split_once(ls.last(), ':') {
                lemma_entered_ordered(headers, ascii_lower(trim(name)), trim(value));
            }
        }
    }
}

/// A line `name:value` gives the header of that name, in ASCII lowercase, all of the
/// value, colons included, without the whitespace around both. A header of the same
/// name before it is lost, and all others stay.
pub proof fn lemma_header_line(
    ls: Seq<Seq<char>>,
    headers: Seq<(Seq<char>, Seq<char>)>,
    name: Seq<char>,
    value: Seq<char>,
    other: Seq<char>,
)
    requires
        headers_in(ls) == Ok::<_, RequestError>(headers),
        free_of(name, ':'),
    ensures
        headers_in(ls.push(name + seq![':'] + value)) matches Ok(now) && {
            &&& lookup(now, ascii_lower(trim(name))) == Some(trim(value))
            &&& other != ascii_lower(trim(name)) ==> lookup(now, other) == lookup(headers, other)
        },
{
    let line = name + seq![':'] + value;
    assert(ls.push(line).drop_last() =~= ls);
    assert(line.len() > 0);
    lemma_split_once(name, ':', value);
    lemma_headers_ordered(ls);
    let key = ascii_lower(trim(name));
    lemma_lookup_entered(headers, key, trim(value));
    if other != key {
        lemma_lookup_other(headers, key, trim(value), other);
    }
}

/// The same with the whitespace written out: the value of a header is exactly what
/// stands between the whitespace behind the first colon and that at the end.
pub proof fn lemma_header_value(
    ls: Seq<Seq<char>>,
    name: Seq<char>,
    before: Seq<char>,
    value: Seq<char>,
    after: Seq<char>,
)
    requires
        headers_in(ls) is Ok,
        free_of(name, ':'),
        tight(name),
        blank(before),
        tight(value),
        blank(after),
    ensures
        headers_in(ls.push(name + seq![':'] + (before + value + after))) matches Ok(now) && lookup(
            now,
            ascii_lower(name),
        ) == Some(value),
{
    lemma_header_line(ls, headers_in(ls)->Ok_0, name, before + value + after, seq![]);
    lemma_trim(before, value, after);
    let none = Seq::<char>::empty();
    assert(none + name + none =~= name);
    lemma_trim(none, name, none);
}

/// No lines give no headers, an empty line gives none, a line without a colon is an
/// error, and an error stays whatever lines follow.
pub proof fn lemma_other_lines(ls: Seq<Seq<char>>, line: Seq<char>)
    ensures
        headers_in(seq![]) == Ok::<Seq<(Seq<char>, Seq<char>)>, RequestError>(seq![]),
        line.len() == 0 ==> headers_in(ls.push(line)) == headers_in(ls),
        headers_in(ls) is Ok && line.len() > 0 && free_of(line, ':') ==> headers_in(ls.push(line))
            == Err::<Seq<(Seq<char>, Seq<char>)>, _>(RequestError::MalformedHeader),
        headers_in(ls) is Err ==> headers_in(ls.push(line)) == headers_in(ls),
{
    assert(ls.push(line).drop_last() =~= ls);
    if free_of(line, ':') {
        lemma_split_once(line, ':', seq![]);
    }
}

// ---------------------------------------------------------------------------
// Request lines
// ---------------------------------------------------------------------------

/// A word: not empty, and without whitespace.
pub open spec fn is_word(s: Seq<char>) -> bool {
    s.len() > 0 && forall|i: int| 0 <= i < s.len() ==> !is_space(#[trigger] s[i])
}

#[verifier::rlimit(40)]
proof fn lemma_three_words(a: Seq<char>, b: Seq<char>, c: Seq<char>, more: Seq<char>)
    requires
        is_word(a),
        is_word(b),
        is_word(c),
        more.len() > 0 ==> is_space(more[0]),
    ensures
        words(a + seq![' '] + b + seq![' '] + c + more) == seq![a, b, c] + words(more),
        words(a + seq![' '] + b) == seq![a, b],
        words(a) == seq![a],
{
    let none = Seq::<char>::empty();
    let gap = seq![' '];
    lemma_no_words(none);
    assert(words(none) =~= seq![]);
    lemma_word(gap, c, more);
    let last = gap + c + more;
    lemma_word(gap, b, last);
    lemma_word(gap, b, none);
    let two = gap + b + last;
    lemma_word(none, a, two);
    lemma_word(none, a, gap + b + none);
    lemma_word(none, a, none);
    assert(none + a + two =~= a + gap + b + gap + c + more);
    assert(none + a + (gap + b + none) =~= a + gap + b);
    assert(none + a + none =~= a);
    assert(words(a + gap + b + gap + c + more) =~= seq![a, b, c] + words(more));
    assert(words(a + gap + b) =~= seq![a, b]);
    assert(words(a) =~= seq![a]);
}

/// What a method, a path and a version of HTTP/1 before the headers give: those
/// three, and the headers and the length that the other lines give.
#[verifier::rlimit(40)]
pub proof fn lemma_request_line(
    method: Seq<char>,
    path: Seq<char>,
    minor: Seq<char>,
    rest: Seq<char>,
)
    requires
        is_word(method),
        is_word(path),
        is_word("HTTP/1."@ + minor),
    ensures
        ({
            let version = "HTTP/1."@ + minor;
            let text = method + seq![' '] + path + seq![' '] + version + seq!['\r', '\n'] + rest;
            match headers_in(crlf_lines(rest)) {
                Ok(headers) => match body_length(headers) {
                    Ok(n) => head_of_text(text) == Ok::<HeadView, RequestError>(
                        HeadView { method, path, version, headers, content_length: n },
                    ),
                    Err(e) => head_of_text(text) == Err::<HeadView, _>(e),
                },
                Err(e) => head_of_text(text) == Err::<HeadView, _>(e),
            }
        }),
{
    let version = "HTTP/1."@ + minor;
    let line = method + seq![' '] + path + seq![' '] + version;
    lemma_first_line(method, path, version, rest);
    lemma_starts_with(version, "HTTP/1."@);
}

/// The first line of a text whose request line holds three words.
#[verifier::rlimit(40)]
proof fn lemma_first_line(
    method: Seq<char>,
    path: Seq<char>,
    version: Seq<char>,
    rest: Seq<char>,
)
    requires
        is_word(method),
        is_word(path),
        is_word(version),
    ensures
        ({
            let text = method + seq![' '] + path + seq![' '] + version + seq!['\r', '\n'] + rest;
            &&& crlf_lines(text).skip(1) == crlf_lines(rest)
            &&& words(crlf_lines(text)[0]) == seq![method, path, version]
        }),
{
    let none = Seq::<char>::empty();
    let line = method + seq![' '] + path + seq![' '] + version;
    lemma_three_words(method, path, version, none);
    assert(line + none =~= line);
    lemma_no_words(none);
    assert(seq![method, path, version] + words(none) =~= seq![method, path, version]);
    assert forall|i: int| 0 <= i < line.len() implies #[trigger] line[i] != '\r' by {
        let k = i - method.len() - 1;
        if i < method.len() {
            assert(line[i] == method[i]);
            assert(!is_space(method[i]));
        } else if 0 <= k < path.len() {
            assert(line[i] == path[k]);
            assert(!is_space(path[k]));
        } else if k > path.len() {
            assert(line[i] == version[k - path.len() - 1]);
            assert(!is_space(version[k - path.len() - 1]));
        }
    }
    lemma_crlf_line(line, rest);
    let text = line + seq!['\r', '\n'] + rest;
    assert(crlf_lines(text)[0] == line);
    assert(crlf_lines(text).skip(1) =~= crlf_lines(rest));
}

/// A version other than HTTP/1 is refused, whatever the headers.
pub proof fn lemma_other_version(
    method: Seq<char>,
    path: Seq<char>,
    version: Seq<char>,
    rest: Seq<char>,
)
    requires
        is_word(method),
        is_word(path),
        is_word(version),
        forall|minor: Seq<char>| version != #[trigger] ("HTTP/1."@ + minor),
    ensures
        head_of_text(
            method + seq![' '] + path + seq![' '] + version + seq!['\r', '\n'] + rest,
        ) == Err::<HeadView, _>(RequestError::UnsupportedVersion),
{
    lemma_first_line(method, path, version, rest);
    lemma_starts_with(version, "HTTP/1."@);
}

/// What a request line lacks is told, and so is what it has too much.
pub proof fn lemma_broken_request_line(
    a: Seq<char>,
    b: Seq<char>,
    c: Seq<char>,
    d: Seq<char>,
    s: Seq<char>,
)
    requires
        is_word(a),
        is_word(b),
        is_word(c),
        is_word(d),
    ensures
        blank(crlf_lines(s)[0]) ==> head_of_text(s) == Err::<HeadView, _>(
            RequestError::MissingMethod,
        ),
        crlf_lines(s)[0] == a ==> head_of_text(s) == Err::<HeadView, _>(RequestError::MissingPath),
        crlf_lines(s)[0] == a + seq![' '] + b ==> head_of_text(s) == Err::<HeadView, _>(
            RequestError::MissingVersion,
        ),
        crlf_lines(s)[0] == a + seq![' '] + b + seq![' '] + c + (seq![' '] + d) ==> head_of_text(
            s,
        ) == Err::<HeadView, _>(RequestError::InvalidRequestLine),
{
    let none = Seq::<char>::empty();
    if blank(crlf_lines(s)[0]) {
        lemma_no_words(crlf_lines(s)[0]);
    }
    lemma_three_words(a, b, c, seq![' '] + d);
    lemma_word(seq![' '], d, none);
    assert(seq![' '] + d + none =~= seq![' '] + d);
    lemma_no_words(none);
    assert(words(seq![' '] + d) =~= seq![d]);
    assert((seq![a, b, c] + seq![d]).len() == 4);
}

// ---------------------------------------------------------------------------
// Bodies
// ---------------------------------------------------------------------------

/// The length of a body is the number in `content-length`, up to ten mebibytes; a
/// larger one is refused, and without the header there is no body.
pub proof fn lemma_content_length(headers: Seq<(Seq<char>, Seq<char>)>, n: int)
    requires
        lookup(headers, "transfer-encoding"@) is None,
        0 <= n <= u32::MAX,
    ensures
        lookup(headers, "content-length"@) == Some(decimal(n)) ==> body_length(headers) == (if n
            <= 10485760 {
            Ok::<int, RequestError>(n)
        } else {
            Err(RequestError::BodyTooLarge)
        }),
        lookup(headers, "content-length"@) is None ==> body_length(headers) == Ok::<
            int,
            RequestError,
        >(0),
{
    lemma_decimal_round_trip(n, usize::MAX as int);
}

/// A `content-length` that is no number is refused.
pub proof fn lemma_bad_content_length(
    headers: Seq<(Seq<char>, Seq<char>)>,
    value: Seq<char>,
    i: int,
)
    requires
        lookup(headers, "transfer-encoding"@) is None,
        lookup(headers, "content-length"@) == Some(value),
        value.len() == 0 || 0 <= i < value.len() && !('0' <= value[i] <= '9') && (i == 0
            ==> value[i] != '+'),
    ensures
        body_length(headers) == Err::<int, _>(RequestError::InvalidContentLength),
{
    if value.len() > 0 {
        lemma_no_digits(value, i, usize::MAX as int);
        if i > 0 {
            assert(value.skip(1)[i - 1] == value[i]);
            lemma_no_digits(value.skip(1), i - 1, usize::MAX as int);
        }
    }
}

proof fn lemma_no_digits(d: Seq<char>, i: int, max: int)
    requires
        0 <= i < d.len(),
        !('0' <= d[i] <= '9'),
    ensures
        parse_digits(d, 10, max) is Err,
    decreases d.len(),
{
    if i < d.len() - 1 {
        lemma_no_digits(d.drop_last(), i, max);
    } else {
        assert(digit_value(d[i], 10) is None);
    }
}

/// A chunked body is refused, whatever else the header says and whatever its case,
/// and whatever length is announced; any other encoding makes no difference.
pub proof fn lemma_transfer_encoding(
    headers: Seq<(Seq<char>, Seq<char>)>,
    value: Seq<char>,
    front: Seq<char>,
    rest: Seq<char>,
)
    requires
        lookup(headers, "transfer-encoding"@) == Some(value),
    ensures
        ascii_lower(value) == front + "chunked"@ + rest ==> body_length(headers) == Err::<int, _>(
            RequestError::ChunkedBody,
        ),
        (forall|a: Seq<char>, b: Seq<char>| ascii_lower(value) != #[trigger] (a + "chunked"@ + b))
            && lookup(headers, "content-length"@) is None ==> body_length(headers) == Ok::<
            int,
            RequestError,
        >(0),
{
    lemma_contains(ascii_lower(value), "chunked"@);
}

// ---------------------------------------------------------------------------
// Reading
// ---------------------------------------------------------------------------

/// A head is read on while it has no more than 65536 bytes; a body is read until
/// nothing of the announced length is missing, and no further.
pub proof fn lemma_next_action(buffer: Seq<u8>, head: HeadView, body: Seq<u8>)
    requires
        0 <= head.content_length <= usize::MAX,
    ensures
        buffer.len() > 65536 ==> next_action(ReaderView::Head(buffer)) == Err::<ReadAction, _>(
            RequestError::HeadersTooLarge,
        ),
        buffer.len() <= 65536 ==> (next_action(ReaderView::Head(buffer)) matches Ok(
            ReadAction::ReadHead(most),
        ) && most > 0),
        body.len() < head.content_length ==> (next_action(ReaderView::Body(head, body)) matches Ok(
            ReadAction::ReadBody(most),
        ) && body.len() + most == head.content_length),
        body.len() >= head.content_length ==> next_action(ReaderView::Body(head, body)) == Ok::<
            _,
            RequestError,
        >(ReadAction::Complete),
{
}

/// A connection that is closed too early is told, and where.
pub proof fn lemma_closed(buffer: Seq<u8>, head: HeadView, body: Seq<u8>)
    ensures
        after_chunk(ReaderView::Head(buffer), seq![]) == Err::<ReaderView, _>(
            RequestError::ClosedBeforeHeaders,
        ),
        after_chunk(ReaderView::Body(head, body), seq![]) == Err::<ReaderView, _>(
            RequestError::ClosedInBody,
        ),
{
}

} // verus!
