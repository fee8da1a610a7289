//! Reading HTTP requests: the head, and as much body as it announces.

use vstd::prelude::*;
use vstd::slice::slice_subrange;
use vstd::utf8::{decode_utf8, valid_utf8};

use crate::bytes::push_bytes;
use crate::number::{natural, parse_natural};
use crate::ordered::{entered, lookup, TextMap};
use crate::text::{
    ascii_lower, begins, chars_of, contains, lower_ascii, mentions, slices, split_first,
    split_once, starts_with, string_of, trim, trimmed, utf8_text, words, words_of,
};

verus! {

/// How many bytes a head may have before the rest of it is read.
pub const MAX_HEADER_SIZE: usize = 65536;

/// How many bytes a body may have.
pub const MAX_BODY_SIZE: usize = 10485760;

/// How many bytes of a head are read at once.
pub const HEAD_CHUNK: usize = 2048;

/// Why a request cannot be read or passed on.
#[derive(Clone, Copy, Debug, PartialEq, Eq, Structural)]
pub enum RequestError {
    HeadersTooLarge,
    ClosedBeforeHeaders,
    HeadersNotUtf8,
    MissingMethod,
    MissingPath,
    MissingVersion,
    InvalidRequestLine,
    UnsupportedVersion,
    MalformedHeader,
    ChunkedBody,
    InvalidContentLength,
    BodyTooLarge,
    ClosedInBody,
    UpstreamTooLarge,
}

/// What is said of an error.
pub open spec fn request_message(e: RequestError) -> Seq<char> {
    match e {
        RequestError::HeadersTooLarge => "request headers exceed 65536 bytes"@,
        RequestError::ClosedBeforeHeaders => "client closed before sending headers"@,
        RequestError::HeadersNotUtf8 => "request headers are not utf-8"@,
        RequestError::MissingMethod => "missing method"@,
        RequestError::MissingPath => "missing path"@,
        RequestError::MissingVersion => "missing version"@,
        RequestError::InvalidRequestLine => "invalid request line"@,
        RequestError::UnsupportedVersion => "only HTTP/1.x is supported"@,
        RequestError::MalformedHeader => "malformed header line"@,
        RequestError::ChunkedBody => "chunked request bodies are not supported in MVP"@,
        RequestError::InvalidContentLength => "invalid content-length"@,
        RequestError::BodyTooLarge => "request body exceeds 10485760 bytes"@,
        RequestError::ClosedInBody => "client closed while sending body"@,
        RequestError::UpstreamTooLarge => "upstream request is too large"@,
    }
}

impl RequestError {
    /// What is said of the error.
    pub fn message(&self) -> (s: &'static str)
        ensures
            s@ == request_message(*self),
    {
        match self {
            RequestError::HeadersTooLarge => "request headers exceed 65536 bytes",
            RequestError::ClosedBeforeHeaders => "client closed before sending headers",
            RequestError::HeadersNotUtf8 => "request headers are not utf-8",
            RequestError::MissingMethod => "missing method",
            RequestError::MissingPath => "missing path",
            RequestError::MissingVersion => "missing version",
            RequestError::InvalidRequestLine => "invalid request line",
            RequestError::UnsupportedVersion => "only HTTP/1.x is supported",
            RequestError::MalformedHeader => "malformed header line",
            RequestError::ChunkedBody => "chunked request bodies are not supported in MVP",
            RequestError::InvalidContentLength => "invalid content-length",
            RequestError::BodyTooLarge => "request body exceeds 10485760 bytes",
            RequestError::ClosedInBody => "client closed while sending body",
            RequestError::UpstreamTooLarge => "upstream request is too large",
        }
    }
}

// ---------------------------------------------------------------------------
// The end of a head
// ---------------------------------------------------------------------------

/// A blank line starts at `i`: CR LF CR LF.
pub open spec fn blank_line_at(b: Seq<u8>, i: int) -> bool {
    0 <= i && i + 4 <= b.len() && b[i] == 0x0d && b[i + 1] == 0x0a && b[i + 2] == 0x0d && b[i + 3]
        == 0x0a
}

/// Where the first blank line from `i` on starts.
pub open spec fn head_end_from(b: Seq<u8>, i: int) -> Option<int>
    decreases b.len() - i,
{
    if i + 4 > b.len() {
        None
    } else if blank_line_at(b, i) {
        Some(i)
    } else {
        head_end_from(b, i + 1)
    }
}

/// Where the first blank line starts.
pub open spec fn head_end(b: Seq<u8>) -> Option<int> {
    head_end_from(b, 0)
}

/// Where the first blank line starts.
pub fn find_header_end(bytes: &[u8]) -> (r: Option<usize>)
    ensures
        match r {
            Some(i) => head_end(bytes@) == Some(i as int) && i + 4 <= bytes@.len(),
            None => head_end(bytes@) is None,
        },
{
    let len = bytes.len();
    let mut i: usize = 0;
    while len >= 4 && i <= len - 4
        invariant
            len == bytes@.len(),
            i <= len,
            head_end(bytes@) == head_end_from(bytes@, i as int),
        decreases len - i,
    {
        if bytes[i] == 0x0d && bytes[i + 1] == 0x0a && bytes[i + 2] == 0x0d && bytes[i + 3]
            == 0x0a {
            return Some(i);
        }
        i = i + 1;
    }
    None
}

/// The place found is that of the first blank line, and where none is found
/// there is none.
pub proof fn lemma_head_end(b: Seq<u8>, i: int)
    requires
        0 <= i,
    ensures
        match head_end_from(b, i) {
            Some(p) => i <= p && blank_line_at(b, p) && forall|j: int|
                i <= j < p ==> !#[trigger] blank_line_at(b, j),
            None => forall|j: int| i <= j ==> !#[trigger] blank_line_at(b, j),
        },
    decreases b.len() - i,
{
    if i + 4 <= b.len() && !blank_line_at(b, i) {
        lemma_head_end(b, i + 1);
    }
}

/// Bytes that follow do not move the end of the head.
pub proof fn lemma_head_end_stays(b: Seq<u8>, more: Seq<u8>)
    requires
        head_end(b) is Some,
    ensures
        head_end(b + more) == head_end(b),
{
    lemma_head_end(b, 0);
    lemma_head_end(b + more, 0);
    let p = head_end(b)->0;
    assert(blank_line_at(b + more, p));
    let q = head_end(b + more)->0;
    if q < p {
        assert(blank_line_at(b, q));
    }
}

// ---------------------------------------------------------------------------
// Heads
// ---------------------------------------------------------------------------

/// How many characters stand before the first CR LF.
pub open spec fn before_crlf(s: Seq<char>) -> int
    decreases s.len(),
{
    if s.len() < 2 {
        s.len() as int
    } else if s[0] == '\r' && s[1] == '\n' {
        0
    } else {
        1 + before_crlf(s.skip(1))
    }
}

/// The parts of `s` between CR LFs.
pub open spec fn crlf_lines(s: Seq<char>) -> Seq<Seq<char>>
    decreases s.len(),
{
    let n = before_crlf(s);
    if 0 <= n && n + 2 <= s.len() {
        seq![s.take(n)] + crlf_lines(s.skip(n + 2))
    } else {
        seq![s]
    }
}

/// The headers that the lines give, up to the first line that gives none.
/// Names are in ASCII lowercase; of two headers with one name the last counts.
pub open spec fn headers_in(ls: Seq<Seq<char>>) -> Result<
    Seq<(Seq<char>, Seq<char>)>,
    RequestError,
>
    decreases ls.len(),
{
    if ls.len() == 0 {
        Ok(seq![])
    } else {
        match headers_in(ls.drop_last()) {
            Ok(headers) => if ls.last().len() == 0 {
                Ok(headers)
            } else {
                match split_once(ls.last(), ':') {
                    Some((name, value)) => Ok(
                        entered(headers, ascii_lower(trim(name)), trim(value)),
                    ),
                    None => Err(RequestError::MalformedHeader),
                }
            },
            Err(e) => Err(e),
        }
    }
}

/// The length of the body that the headers announce.
pub open spec fn body_length(headers: Seq<(Seq<char>, Seq<char>)>) -> Result<int, RequestError> {
    let encoding = lookup(headers, "transfer-encoding"@);
    if encoding is Some && contains(ascii_lower(encoding->0), "chunked"@) {
        Err(RequestError::ChunkedBody)
    } else {
        match lookup(headers, "content-length"@) {
            Some(v) => match parse_natural(v, 10, usize::MAX as int) {
                Ok(n) => if n > MAX_BODY_SIZE {
                    Err(RequestError::BodyTooLarge)
                } else {
                    Ok(n)
                },
                Err(_) => Err(RequestError::InvalidContentLength),
            },
            None => Ok(0),
        }
    }
}

/// The head of a request.
#[derive(Debug)]
pub struct RequestHead {
    pub method: String,
    pub path: String,
    pub version: String,
    pub headers: TextMap<String>,
    /// The length of the body that the headers announce.
    pub content_length: usize,
}

/// A [`RequestHead`] with texts in place of strings.
pub struct HeadView {
    pub method: Seq<char>,
    pub path: Seq<char>,
    pub version: Seq<char>,
    pub headers: Seq<(Seq<char>, Seq<char>)>,
    pub content_length: int,
}

impl View for RequestHead {
    type V = HeadView;

    open spec fn view(&self) -> HeadView {
        HeadView {
            method: self.method@,
            path: self.path@,
            version: self.version@,
            headers: self.headers@,
            content_length: self.content_length as int,
        }
    }
}

/// The error in a request line, which holds a method, a path and a version.
pub open spec fn request_line_error(parts: Seq<Seq<char>>) -> Option<RequestError> {
    if parts.len() == 0 {
        Some(RequestError::MissingMethod)
    } else if parts.len() == 1 {
        Some(RequestError::MissingPath)
    } else if parts.len() == 2 {
        Some(RequestError::MissingVersion)
    } else if parts.len() > 3 {
        Some(RequestError::InvalidRequestLine)
    } else if !starts_with(parts[2], "HTTP/1."@) {
        Some(RequestError::UnsupportedVersion)
    } else {
        None
    }
}

/// The head that a text writes.
pub open spec fn head_of_text(s: Seq<char>) -> Result<HeadView, RequestError> {
    let ls = crlf_lines(s);
    let parts = words(ls[0]);
    match request_line_error(parts) {
        Some(e) => Err(e),
        None => match headers_in(ls.skip(1)) {
            Ok(headers) => match body_length(headers) {
                Ok(n) => Ok(
                    HeadView {
                        method: parts[0],
                        path: parts[1],
                        version: parts[2],
                        headers,
                        content_length: n,
                    },
                ),
                Err(e) => Err(e),
            },
            Err(e) => Err(e),
        },
    }
}

/// The head that bytes write.
pub open spec fn head_in(bytes: Seq<u8>) -> Result<HeadView, RequestError> {
    if valid_utf8(bytes) {
        head_of_text(decode_utf8(bytes))
    } else {
        Err(RequestError::HeadersNotUtf8)
    }
}

/// The place of the first CR LF, or nothing.
fn find_crlf(s: &[char]) -> (r: Option<usize>)
    ensures
        match r {
            Some(n) => n == before_crlf(s@) && n + 2 <= s@.len(),
            None => before_crlf(s@) + 2 > s@.len(),
        },
{
    let len = s.len();
    let mut i: usize = 0;
    assert(s@.skip(0) =~= s@);
    while i < len && len - i >= 2
        invariant
            i <= len == s@.len(),
            before_crlf(s@) == i + before_crlf(s@.skip(i as int)),
        decreases len - i,
    {
        let ghost rest = s@.skip(i as int);
        assert(rest[0] == s@[i as int]);
        assert(rest[1] == s@[i + 1]);
        assert(rest.skip(1) =~= s@.skip(i + 1));
        if s[i] == '\r' && s[i + 1] == '\n' {
            return Some(i);
        }
        i = i + 1;
    }
    None
}

/// Splits a text at each CR LF.
fn split_crlf(s: &[char]) -> (out: Vec<&[char]>)
    ensures
        slices(out@) == crlf_lines(s@),
        out@.len() > 0,
{
    let len = s.len();
    let mut out: Vec<&[char]> = Vec::new();
    let mut i: usize = 0;
    assert(s@.skip(0) =~= s@);
    assert(slices(out@) + crlf_lines(s@) =~= crlf_lines(s@));
    loop
        invariant
            i <= len == s@.len(),
            slices(out@) + crlf_lines(s@.skip(i as int)) == crlf_lines(s@),
        decreases len - i,
    {
        let rest = slice_subrange(s, i, len);
        assert(rest@ =~= s@.skip(i as int));
        let ghost before = slices(out@);
        match find_crlf(rest) {
            Some(n) => {
                let line = slice_subrange(rest, 0, n);
                assert(line@ =~= rest@.take(n as int));
                assert(rest@.skip(n + 2) =~= s@.skip(i + n + 2));
                out.push(line);
                assert(slices(out@) =~= before.push(line@));
                assert(before.push(line@) + crlf_lines(rest@.skip(n + 2)) =~= before + (seq![
                    line@,
                ] + crlf_lines(rest@.skip(n + 2))));
                i = i + n + 2;
            },
            None => {
                out.push(rest);
                assert(slices(out@) =~= before.push(rest@));
                assert(before.push(rest@) =~= before + seq![rest@]);
                return out;
            },
        }
    }
}

proof fn lemma_headers_error(ls: Seq<Seq<char>>, n: int)
    requires
        0 <= n <= ls.len(),
        headers_in(ls.take(n)) is Err,
    ensures
        headers_in(ls) == headers_in(ls.take(n)),
    decreases ls.len(),
{
    if n < ls.len() {
        assert(ls.drop_last().take(n) =~= ls.take(n));
        lemma_headers_error(ls.drop_last(), n);
    } else {
        assert(ls.take(n) =~= ls);
    }
}

/// The headers on the lines behind the first.
fn parse_headers(ls: &Vec<&[char]>) -> (r: Result<TextMap<String>, RequestError>)
    requires
        ls@.len() > 0,
    ensures
        match headers_in(slices(ls@).skip(1)) {
            Ok(headers) => r is Ok && r->Ok_0@ == headers,
            Err(e) => r is Err && r->Err_0 == e,
        },
{
    let ghost all = slices(ls@).skip(1);
    let mut headers: TextMap<String> = TextMap::new();
    assert(all.take(0) =~= seq![]);
    for i in 1..ls.len()
        invariant
            1 <= i <= ls@.len(),
            all == slices(ls@).skip(1),
            headers_in(all.take(i - 1)) == Ok::<_, RequestError>(headers@),
    {
        let line = ls[i];
        assert(all.take(i as int).drop_last() =~= all.take(i - 1));
        assert(all.take(i as int).last() == line@);
        if line.len() > 0 {
            match split_first(line, ':') {
                Some((name, value)) => {
                    let lowered = lower_ascii(trimmed(name));
                    headers.insert(string_of(lowered.as_slice()), string_of(trimmed(value)));
                },
                None => {
                    proof {
                        lemma_headers_error(all, i as int);
                    }
                    return Err(RequestError::MalformedHeader);
                },
            }
        }
    }
    assert(all.take(all.len() as int) =~= all);
    Ok(headers)
}

/// The length of the body that the headers announce.
fn announced_length(headers: &TextMap<String>) -> (r: Result<usize, RequestError>)
    ensures
        match body_length(headers@) {
            Ok(n) => r is Ok && r->Ok_0 == n,
            Err(e) => r is Err && r->Err_0 == e,
        },
{
    if let Some(v) = headers.get("transfer-encoding") {
        let cs = chars_of(v.as_str());
        let lowered = lower_ascii(cs.as_slice());
        if mentions(lowered.as_slice(), "chunked") {
            return Err(RequestError::ChunkedBody);
        }
    }
    match headers.get("content-length") {
        Some(v) => {
            let cs = chars_of(v.as_str());
            match natural(cs.as_slice(), 10, usize::MAX as u64) {
                Ok(n) => if n > MAX_BODY_SIZE as u64 {
                    Err(RequestError::BodyTooLarge)
                } else {
                    Ok(n as usize)
                },
                Err(_) => Err(RequestError::InvalidContentLength),
            }
        },
        None => Ok(0),
    }
}

/// The model of what [`parse_head`] returns.
pub open spec fn head_result(r: Result<RequestHead, RequestError>) -> Result<
    HeadView,
    RequestError,
> {
    match r {
        Ok(h) => Ok(h@),
        Err(e) => Err(e),
    }
}

/// The head that bytes write, without the blank line behind it.
pub fn parse_head(bytes: &[u8]) -> (r: Result<RequestHead, RequestError>)
    ensures
        head_result(r) == head_in(bytes@),
{
    let text = match utf8_text(bytes) {
        Some(s) => s,
        None => {
            return Err(RequestError::HeadersNotUtf8);
        },
    };
    let cs = chars_of(text.as_str());
    let ls = split_crlf(cs.as_slice());
    let parts = words_of(ls[0]);
    assert(slices(ls@)[0] == ls@[0]@);
    let ghost ws = slices(parts@);
    assert(ws.len() == parts@.len());
    if parts.len() == 0 {
        return Err(RequestError::MissingMethod);
    }
    if parts.len() == 1 {
        return Err(RequestError::MissingPath);
    }
    if parts.len() == 2 {
        return Err(RequestError::MissingVersion);
    }
    if parts.len() > 3 {
        return Err(RequestError::InvalidRequestLine);
    }
    assert(ws[0] == parts@[0]@ && ws[1] == parts@[1]@ && ws[2] == parts@[2]@);
    if !begins(parts[2], "HTTP/1.") {
        return Err(RequestError::UnsupportedVersion);
    }
    let headers = match parse_headers(&ls) {
        Ok(h) => h,
        Err(e) => {
            return Err(e);
        },
    };
    let content_length = match announced_length(&headers) {
        Ok(n) => n,
        Err(e) => {
            return Err(e);
        },
    };
    Ok(
        RequestHead {
            method: string_of(parts[0]),
            path: string_of(parts[1]),
            version: string_of(parts[2]),
            headers,
            content_length,
        },
    )
}

// ---------------------------------------------------------------------------
// Requests
// ---------------------------------------------------------------------------

/// A request.
#[derive(Debug)]
pub struct HttpRequest {
    pub method: String,
    pub path: String,
    pub version: String,
    /// The headers, by their names in ASCII lowercase.
    pub headers: TextMap<String>,
    pub body: Vec<u8>,
}

/// An [`HttpRequest`] with texts in place of strings.
pub struct RequestView {
    pub method: Seq<char>,
    pub path: Seq<char>,
    pub version: Seq<char>,
    pub headers: Seq<(Seq<char>, Seq<char>)>,
    pub body: Seq<u8>,
}

impl View for HttpRequest {
    type V = RequestView;

    open spec fn view(&self) -> RequestView {
        RequestView {
            method: self.method@,
            path: self.path@,
            version: self.version@,
            headers: self.headers@,
            body: self.body@,
        }
    }
}

/// How far a request has been read.
pub enum RequestReader {
    /// The head is not complete yet.
    Head { buffer: Vec<u8> },
    /// The head is complete; this is what was read of the body.
    Body { head: RequestHead, body: Vec<u8> },
}

/// A [`RequestReader`] with texts in place of strings.
pub enum ReaderView {
    Head(Seq<u8>),
    Body(HeadView, Seq<u8>),
}

impl View for RequestReader {
    type V = ReaderView;

    open spec fn view(&self) -> ReaderView {
        match *self {
            RequestReader::Head { buffer } => ReaderView::Head(buffer@),
            RequestReader::Body { head, body } => ReaderView::Body(head@, body@),
        }
    }
}

/// What is to be done next to read a request.
#[derive(Clone, Copy, Debug, PartialEq, Eq, Structural)]
pub enum ReadAction {
    /// Read at most so many bytes of the head, or of what follows it.
    ReadHead(usize),
    /// Read at most so many bytes of the body.
    ReadBody(usize),
    /// Nothing: the request is complete.
    Complete,
}

/// What is to be done next: a head is read in chunks, a body up to its end.
pub open spec fn next_action(r: ReaderView) -> Result<ReadAction, RequestError> {
    match r {
        ReaderView::Head(buffer) => if buffer.len() > MAX_HEADER_SIZE {
            Err(RequestError::HeadersTooLarge)
        } else {
            Ok(ReadAction::ReadHead(HEAD_CHUNK))
        },
        ReaderView::Body(head, body) => if body.len() < head.content_length {
            Ok(ReadAction::ReadBody((head.content_length - body.len()) as usize))
        } else {
            Ok(ReadAction::Complete)
        },
    }
}

/// How far a request has been read once more bytes have come; none come where
/// the client has closed the connection.
pub open spec fn after_chunk(r: ReaderView, chunk: Seq<u8>) -> Result<ReaderView, RequestError> {
    match r {
        ReaderView::Head(buffer) => if chunk.len() == 0 {
            Err(RequestError::ClosedBeforeHeaders)
        } else {
            let all = buffer + chunk;
            match head_end(all) {
                Some(p) => match head_in(all.take(p)) {
                    Ok(head) => Ok(ReaderView::Body(head, all.skip(p + 4))),
                    Err(e) => Err(e),
                },
                None => Ok(ReaderView::Head(all)),
            }
        },
        ReaderView::Body(head, body) => if chunk.len() == 0 {
            Err(RequestError::ClosedInBody)
        } else {
            Ok(ReaderView::Body(head, body + chunk))
        },
    }
}

impl RequestReader {
    /// Nothing has been read yet.
    pub fn new() -> (r: RequestReader)
        ensures
            r@ == ReaderView::Head(seq![]),
    {
        let buffer: Vec<u8> = Vec::new();
        assert(buffer@ =~= seq![]);
        RequestReader::Head { buffer }
    }

    /// What is to be done next.
    pub fn action(&self) -> (r: Result<ReadAction, RequestError>)
        ensures
            r == next_action(self@),
    {
        match self {
            RequestReader::Head { buffer } => if buffer.len() > MAX_HEADER_SIZE {
                Err(RequestError::HeadersTooLarge)
            } else {
                Ok(ReadAction::ReadHead(HEAD_CHUNK))
            },
            RequestReader::Body { head, body } => if body.len() < head.content_length {
                Ok(ReadAction::ReadBody(head.content_length - body.len()))
            } else {
                Ok(ReadAction::Complete)
            },
        }
    }

    /// Takes the bytes that have come, none where the client has closed the
    /// connection.
    pub fn received(self, chunk: &[u8]) -> (r: Result<RequestReader, RequestError>)
        ensures
            match after_chunk(self@, chunk@) {
                Ok(next) => r is Ok && r->Ok_0@ == next,
                Err(e) => r is Err && r->Err_0 == e,
            },
    {
        match self {
            RequestReader::Head { buffer } => {
                if chunk.len() == 0 {
                    return Err(RequestError::ClosedBeforeHeaders);
                }
                let mut all = buffer;
                push_bytes(&mut all, chunk);
                match find_header_end(all.as_slice()) {
                    Some(p) => {
                        let len = all.len();
                        let front = slice_subrange(all.as_slice(), 0, p);
                        let back = slice_subrange(all.as_slice(), p + 4, len);
                        assert(front@ =~= all@.take(p as int));
                        assert(back@ =~= all@.skip(p + 4));
                        match parse_head(front) {
                            Ok(head) => {
                                let mut body: Vec<u8> = Vec::new();
                                push_bytes(&mut body, back);
                                assert(body@ =~= back@);
                                Ok(RequestReader::Body { head, body })
                            },
                            Err(e) => Err(e),
                        }
                    },
                    None => Ok(RequestReader::Head { buffer: all }),
                }
            },
            RequestReader::Body { head, body } => {
                if chunk.len() == 0 {
                    return Err(RequestError::ClosedInBody);
                }
                let mut body = body;
                push_bytes(&mut body, chunk);
                Ok(RequestReader::Body { head, body })
            },
        }
    }

    /// The request, where it is complete.
    pub fn finish(self) -> (r: Option<HttpRequest>)
        ensures
            match r {
                Some(request) => self@ matches ReaderView::Body(head, body) && body.len()
                    >= head.content_length && request@ == (RequestView {
                    method: head.method,
                    path: head.path,
                    version: head.version,
                    headers: head.headers,
                    body,
                }),
                None => next_action(self@) != Ok::<_, RequestError>(ReadAction::Complete),
            },
    {
        match self {
            RequestReader::Head { buffer: _ } => None,
            RequestReader::Body { head, body } => if body.len() < head.content_length {
                None
            } else {
                Some(
                    HttpRequest {
                        method: head.method,
                        path: head.path,
                        version: head.version,
                        headers: head.headers,
                        body,
                    },
                )
            },
        }
    }
}

// ---------------------------------------------------------------------------
// Laws
// ---------------------------------------------------------------------------

/// How far a request has been read after the given chunks.
pub open spec fn after_chunks(chunks: Seq<Seq<u8>>) -> Result<ReaderView, RequestError>
    decreases chunks.len(),
{
    if chunks.len() == 0 {
        Ok(ReaderView::Head(seq![]))
    } else {
        match after_chunks(chunks.drop_last()) {
            Ok(r) => after_chunk(r, chunks.last()),
            Err(e) => Err(e),
        }
    }
}

/// The bytes of the chunks, one after the other.
pub open spec fn stream_of(chunks: Seq<Seq<u8>>) -> Seq<u8>
    decreases chunks.len(),
{
    if chunks.len() == 0 {
        seq![]
    } else {
        stream_of(chunks.drop_last()) + chunks.last()
    }
}

/// What has been read is what has come, however it was cut: while the head is
/// incomplete all of it is kept, and afterwards the head is that before the
/// first blank line and the body is what follows it.
pub proof fn lemma_reader_follows_stream(chunks: Seq<Seq<u8>>)
    ensures
        match after_chunks(chunks) {
            Ok(ReaderView::Head(buffer)) => buffer == stream_of(chunks) && head_end(
                stream_of(chunks),
            ) is None,
            Ok(ReaderView::Body(head, body)) => head_end(stream_of(chunks)) matches Some(p)
                && head_in(stream_of(chunks).take(p)) == Ok::<_, RequestError>(head) && body
                == stream_of(chunks).skip(p + 4),
            Err(_) => true,
        },
    decreases chunks.len(),
{
    if chunks.len() > 0 {
        let before = chunks.drop_last();
        let last = chunks.last();
        lemma_reader_follows_stream(before);
        match after_chunks(before) {
            Ok(ReaderView::Head(buffer)) => {
                assert(buffer + last == stream_of(chunks));
            },
            Ok(ReaderView::Body(head, body)) => {
                let s = stream_of(before);
                let p = head_end(s)->0;
                lemma_head_end(s, 0);
                lemma_head_end_stays(s, last);
                assert((s + last).take(p) =~= s.take(p));
                assert((s + last).skip(p + 4) =~= s.skip(p + 4) + last);
            },
            Err(_) => {},
        }
    }
}

/// The announced length of a body is never more than is allowed.
pub proof fn lemma_body_length_bounded(headers: Seq<(Seq<char>, Seq<char>)>)
    ensures
        body_length(headers) matches Ok(n) ==> n <= MAX_BODY_SIZE,
{
}

} // verus!
