//! Passing requests on to the server behind a site, or refusing them.

use vstd::prelude::*;
use vstd::utf8::encode_utf8;

use crate::bytes::push_bytes;
use crate::config::{SiteConfig, SiteView};
use crate::engine::{Decision, MetaView, RequestMeta};
use crate::http::{HttpRequest, RequestError, RequestView, MAX_BODY_SIZE, MAX_HEADER_SIZE};
use crate::number::{
    decimal, lemma_decimal_digits, lemma_decimal_round_trip, natural, parse_natural, write_decimal,
};
use crate::ordered::{lemma_entered_last, lookup, ordered, TextMap};
use crate::text::{
    after_prefix, begins, chars_of, contains, ends_with, is_text, lemma_leading_is, lossy_text,
    not_char, occurs_at, push_chars, push_text, same_text, split_first, split_once, starts_with,
    string_of, strip, utf8_lossy,
};

verus! {

// ---------------------------------------------------------------------------
// Upstreams
// ---------------------------------------------------------------------------

/// The server behind a site.
#[derive(Clone, Debug)]
pub struct Upstream {
    pub host: String,
    pub port: u16,
    /// The path that the paths of requests go behind, without a slash at its
    /// end unless it is nothing else.
    pub base_path: String,
}

/// An [`Upstream`] with texts in place of strings.
pub struct UpstreamView {
    pub host: Seq<char>,
    pub port: u16,
    pub base_path: Seq<char>,
}

impl View for Upstream {
    type V = UpstreamView;

    open spec fn view(&self) -> UpstreamView {
        UpstreamView { host: self.host@, port: self.port, base_path: self.base_path@ }
    }
}

/// What is wrong with the URL of an upstream.
#[derive(Clone, Copy, Debug, PartialEq, Eq, Structural)]
pub enum UpstreamError {
    NotHttp,
    EmptyUrl,
    EmptyAuthority,
    InvalidPort,
    EmptyHost,
}

/// What is said of an error.
pub open spec fn upstream_message(e: UpstreamError) -> Seq<char> {
    match e {
        UpstreamError::NotHttp => "only http:// upstream is supported"@,
        UpstreamError::EmptyUrl => "empty upstream URL"@,
        UpstreamError::EmptyAuthority => "upstream authority is empty"@,
        UpstreamError::InvalidPort => "invalid upstream port"@,
        UpstreamError::EmptyHost => "upstream host is empty"@,
    }
}

impl UpstreamError {
    /// What is said of the error.
    pub fn message(&self) -> (s: &'static str)
        ensures
            s@ == upstream_message(*self),
    {
        match self {
            UpstreamError::NotHttp => "only http:// upstream is supported",
            UpstreamError::EmptyUrl => "empty upstream URL",
            UpstreamError::EmptyAuthority => "upstream authority is empty",
            UpstreamError::InvalidPort => "invalid upstream port",
            UpstreamError::EmptyHost => "upstream host is empty",
        }
    }
}

/// The path of a URL without one slash at its end.
pub open spec fn base_path_of(path: Seq<char>) -> Seq<char> {
    if path.len() > 1 && path.last() == '/' {
        path.drop_last()
    } else {
        path
    }
}

/// The server at an authority, with a port of 80 where it names none.
pub open spec fn upstream_at(authority: Seq<char>, path: Seq<char>) -> Result<
    UpstreamView,
    UpstreamError,
> {
    let base_path = base_path_of(path);
    match split_once(authority, ':') {
        Some((host, port)) => match parse_natural(port, 10, 0xffff) {
            Ok(n) => if host.len() == 0 {
                Err(UpstreamError::EmptyHost)
            } else {
                Ok(UpstreamView { host, port: n as u16, base_path })
            },
            Err(_) => Err(UpstreamError::InvalidPort),
        },
        None => Ok(UpstreamView { host: authority, port: 80, base_path }),
    }
}

/// The server that a URL names: `http://host[:port][/path]`.
pub open spec fn upstream_in(raw: Seq<char>) -> Result<UpstreamView, UpstreamError> {
    match after_prefix(raw, "http://"@) {
        Some(rest) => if rest.len() == 0 {
            Err(UpstreamError::EmptyUrl)
        } else {
            match split_once(rest, '/') {
                Some((authority, path)) => if authority.len() == 0 {
                    Err(UpstreamError::EmptyAuthority)
                } else {
                    upstream_at(authority, "/"@ + path)
                },
                None => upstream_at(rest, "/"@),
            }
        },
        None => Err(UpstreamError::NotHttp),
    }
}

/// The authority of a server.
pub open spec fn authority_of(u: UpstreamView) -> Seq<char> {
    u.host + ":"@ + decimal(u.port as int)
}

/// The model of what [`Upstream::parse`] returns.
pub open spec fn upstream_result(r: Result<Upstream, UpstreamError>) -> Result<
    UpstreamView,
    UpstreamError,
> {
    match r {
        Ok(u) => Ok(u@),
        Err(e) => Err(e),
    }
}

fn make_upstream(authority: &[char], path: Vec<char>) -> (r: Result<Upstream, UpstreamError>)
    requires
        authority@.len() > 0,
    ensures
        upstream_result(r) == upstream_at(authority@, path@),
{
    let mut base = path;
    let n = base.len();
    if n > 1 && base[n - 1] == '/' {
        let _ = base.pop();
    }
    assert(base@ =~= base_path_of(path@));
    match split_first(authority, ':') {
        Some((host, port)) => match natural(port, 10, 0xffff) {
            Ok(p) => if host.len() == 0 {
                Err(UpstreamError::EmptyHost)
            } else {
                Ok(
                    Upstream {
                        host: string_of(host),
                        port: p as u16,
                        base_path: string_of(base.as_slice()),
                    },
                )
            },
            Err(_) => Err(UpstreamError::InvalidPort),
        },
        None => Ok(
            Upstream {
                host: string_of(authority),
                port: 80,
                base_path: string_of(base.as_slice()),
            },
        ),
    }
}

impl Upstream {
    /// The server that a URL names.
    pub fn parse(raw: &str) -> (r: Result<Upstream, UpstreamError>)
        ensures
            upstream_result(r) == upstream_in(raw@),
    {
        let cs = chars_of(raw);
        match strip(cs.as_slice(), "http://") {
            Some(rest) => {
                if rest.len() == 0 {
                    return Err(UpstreamError::EmptyUrl);
                }
                match split_first(rest, '/') {
                    Some((authority, path)) => {
                        if authority.len() == 0 {
                            return Err(UpstreamError::EmptyAuthority);
                        }
                        let mut full = chars_of("/");
                        push_chars(&mut full, path);
                        make_upstream(authority, full)
                    },
                    None => make_upstream(rest, chars_of("/")),
                }
            },
            None => Err(UpstreamError::NotHttp),
        }
    }

    /// The authority of the server.
    pub fn authority(&self) -> (s: String)
        ensures
            s@ == authority_of(self@),
    {
        let mut out = chars_of(self.host.as_str());
        push_text(&mut out, ":");
        push_chars(&mut out, write_decimal(self.port as u64).as_slice());
        string_of(out.as_slice())
    }
}

/// A server comes back from the URL that is made of its parts, where its host
/// has neither a colon nor a slash.
pub proof fn lemma_upstream_round_trip(u: UpstreamView)
    requires
        u.host.len() > 0,
        !u.host.contains(':'),
        !u.host.contains('/'),
        u.base_path.len() > 0,
        u.base_path[0] == '/',
        u.base_path.len() > 1 ==> u.base_path.last() != '/',
    ensures
        upstream_in("http://"@ + authority_of(u) + u.base_path) == Ok::<_, UpstreamError>(u),
{
    reveal_strlit("/");
    reveal_strlit(":");
    let port = decimal(u.port as int);
    let authority = authority_of(u);
    let rest = authority + u.base_path;
    lemma_decimal_digits(u.port as int);
    lemma_decimal_round_trip(u.port as int, 0xffff);
    let raw = "http://"@ + authority_of(u) + u.base_path;
    let n = "http://"@.len() as int;
    assert(raw.take(n) =~= "http://"@);
    assert(raw.skip(n) =~= rest);
    assert forall|i: int| 0 <= i < authority.len() implies not_char('/')(
        #[trigger] authority[i],
    ) by {
        if i < u.host.len() {
            assert(u.host.contains(u.host[i]));
        } else if i > u.host.len() {
            assert(authority[i] == port[i - u.host.len() - 1]);
        }
    }
    assert forall|i: int| 0 <= i < authority.len() implies not_char('/')(#[trigger] rest[i]) by {
        assert(rest[i] == authority[i]);
    }
    lemma_leading_is(rest, not_char('/'), authority.len() as int);
    assert(rest.take(authority.len() as int) =~= authority);
    assert("/"@ + rest.skip(authority.len() as int + 1) =~= u.base_path);
    assert forall|i: int| 0 <= i < u.host.len() implies not_char(':')(
        #[trigger] authority[i],
    ) by {
        assert(u.host.contains(u.host[i]));
    }
    lemma_leading_is(authority, not_char(':'), u.host.len() as int);
    assert(authority.take(u.host.len() as int) =~= u.host);
    assert(authority.skip(u.host.len() as int + 1) =~= port);
}

/// What a URL of a server reads to has a base path that starts with a slash,
/// and a host.
pub proof fn lemma_upstream_parts(raw: Seq<char>)
    ensures
        upstream_in(raw) matches Ok(u) ==> u.host.len() > 0 && u.base_path.len() > 0
            && u.base_path[0] == '/',
{
    reveal_strlit("/");
}

// ---------------------------------------------------------------------------
// Sites
// ---------------------------------------------------------------------------

/// A site that is ready to listen.
#[derive(Clone, Debug)]
pub struct SiteRuntime {
    pub id: String,
    pub listen: String,
    pub profile_id: String,
    pub upstream: Upstream,
}

/// A [`SiteRuntime`] with texts in place of strings.
pub struct SiteRuntimeView {
    pub id: Seq<char>,
    pub listen: Seq<char>,
    pub profile_id: Seq<char>,
    pub upstream: UpstreamView,
}

impl View for SiteRuntime {
    type V = SiteRuntimeView;

    open spec fn view(&self) -> SiteRuntimeView {
        SiteRuntimeView {
            id: self.id@,
            listen: self.listen@,
            profile_id: self.profile_id@,
            upstream: self.upstream@,
        }
    }
}

/// The models of a list of sites.
pub open spec fn site_configs_view(v: Seq<SiteConfig>) -> Seq<SiteView> {
    v.map_values(|s: SiteConfig| s@)
}

/// The models of a list of sites that are ready to listen.
pub open spec fn runtimes_view(v: Seq<SiteRuntime>) -> Seq<SiteRuntimeView> {
    v.map_values(|s: SiteRuntime| s@)
}

/// The sites, ready to listen, up to the first whose upstream is no URL of a
/// server.
pub open spec fn runtimes_of(sites: Seq<SiteView>) -> Result<Seq<SiteRuntimeView>, UpstreamError>
    decreases sites.len(),
{
    if sites.len() == 0 {
        Ok(seq![])
    } else {
        match runtimes_of(sites.drop_last()) {
            Ok(head) => match upstream_in(sites.last().url) {
                Ok(upstream) => Ok(
                    head.push(
                        SiteRuntimeView {
                            id: sites.last().id,
                            listen: sites.last().listen,
                            profile_id: sites.last().profile,
                            upstream,
                        },
                    ),
                ),
                Err(e) => Err(e),
            },
            Err(e) => Err(e),
        }
    }
}

proof fn lemma_runtimes_error(sites: Seq<SiteView>, n: int)
    requires
        0 <= n <= sites.len(),
        runtimes_of(sites.take(n)) is Err,
    ensures
        runtimes_of(sites) == runtimes_of(sites.take(n)),
    decreases sites.len(),
{
    if n < sites.len() {
        assert(sites.drop_last().take(n) =~= sites.take(n));
        lemma_runtimes_error(sites.drop_last(), n);
    } else {
        assert(sites.take(n) =~= sites);
    }
}

/// Makes the sites ready to listen.
pub fn prepare_sites(sites: &Vec<SiteConfig>) -> (r: Result<Vec<SiteRuntime>, UpstreamError>)
    ensures
        match runtimes_of(site_configs_view(sites@)) {
            Ok(v) => r is Ok && runtimes_view(r->Ok_0@) == v,
            Err(e) => r is Err && r->Err_0 == e,
        },
{
    let ghost all = site_configs_view(sites@);
    let mut out: Vec<SiteRuntime> = Vec::new();
    assert(runtimes_view(out@) =~= seq![]);
    for i in 0..sites.len()
        invariant
            all == site_configs_view(sites@),
            runtimes_of(all.take(i as int)) == Ok::<_, UpstreamError>(runtimes_view(out@)),
    {
        let site = &sites[i];
        assert(all.take(i + 1).drop_last() =~= all.take(i as int));
        assert(all.take(i + 1).last() == site@);
        match Upstream::parse(site.upstream.url.as_str()) {
            Ok(upstream) => {
                let runtime = SiteRuntime {
                    id: site.id.clone(),
                    listen: site.listen.clone(),
                    profile_id: site.profile.clone(),
                    upstream,
                };
                let ghost before = runtimes_view(out@);
                out.push(runtime);
                assert(runtimes_view(out@) =~= before.push(runtime@));
            },
            Err(e) => {
                proof {
                    lemma_runtimes_error(all, i + 1);
                }
                return Err(e);
            },
        }
    }
    assert(all.take(all.len() as int) =~= all);
    Ok(out)
}

// ---------------------------------------------------------------------------
// Deciding
// ---------------------------------------------------------------------------

/// The path of a request without its query.
pub open spec fn path_part(path: Seq<char>) -> Seq<char> {
    match split_once(path, '?') {
        Some((p, _)) => p,
        None => path,
    }
}

/// The query of a request.
pub open spec fn query_part(path: Seq<char>) -> Option<Seq<char>> {
    match split_once(path, '?') {
        Some((_, q)) => Some(q),
        None => None,
    }
}

/// What is handed to a module of a request. A body that is not UTF-8 is handed
/// on with replacements.
pub open spec fn meta_of(request: RequestView, client_ip: Seq<char>) -> MetaView {
    MetaView {
        client_ip,
        method: request.method,
        path: path_part(request.path),
        query: query_part(request.path),
        user_agent: lookup(request.headers, "user-agent"@),
        headers: request.headers,
        body: if request.body.len() == 0 {
            None
        } else {
            Some(lossy_text(request.body))
        },
    }
}

/// A copy of some headers.
fn copy_headers(headers: &TextMap<String>) -> (out: TextMap<String>)
    ensures
        out@ == headers@,
{
    let mut out: TextMap<String> = TextMap::new();
    let n = headers.len();
    assert(out@ =~= headers@.take(0));
    for i in 0..n
        invariant
            n == headers@.len(),
            ordered(headers@),
            out@ == headers@.take(i as int),
    {
        let key = headers.key(i);
        let value = headers.value(i);
        assert(headers@.take(i as int).push(headers@[i as int]) =~= headers@.take(i + 1));
        proof {
            lemma_entered_last(headers@.take(i as int), headers@[i as int]);
        }
        out.insert(key.to_owned(), value.clone());
        assert(out@ =~= headers@.take(i + 1));
    }
    assert(headers@.take(n as int) =~= headers@);
    out
}

/// What is handed to a module of a request.
pub fn request_meta(request: &HttpRequest, client_ip: &str) -> (meta: RequestMeta)
    ensures
        meta@ == meta_of(request@, client_ip@),
{
    let cs = chars_of(request.path.as_str());
    let (path, query) = match split_first(cs.as_slice(), '?') {
        Some((p, q)) => (string_of(p), Some(string_of(q))),
        None => (request.path.clone(), None),
    };
    let user_agent = match request.headers.get("user-agent") {
        Some(v) => Some(v.clone()),
        None => None,
    };
    let body = if request.body.len() == 0 {
        None
    } else {
        Some(utf8_lossy(request.body.as_slice()))
    };
    RequestMeta {
        client_ip: client_ip.to_owned(),
        method: request.method.clone(),
        path,
        query,
        user_agent,
        headers: copy_headers(&request.headers),
        body,
    }
}

/// What is done with a request.
#[derive(Clone, Copy, Debug, PartialEq, Eq, Structural)]
pub enum Route {
    /// It is refused with this status.
    Refuse(u16),
    /// It is passed on.
    Forward,
}

/// What is done with a request after a decision.
pub fn route(decision: &Decision) -> (r: Route)
    ensures
        r == (if decision@.allow {
            Route::Forward
        } else {
            Route::Refuse(decision@.status_code)
        }),
{
    if decision.allow {
        Route::Forward
    } else {
        Route::Refuse(decision.status_code)
    }
}

// ---------------------------------------------------------------------------
// Refusing
// ---------------------------------------------------------------------------

/// The phrase for a status.
pub open spec fn phrase_for(status: u16) -> Seq<char> {
    if status == 400 {
        "Bad Request"@
    } else if status == 403 {
        "Forbidden"@
    } else if status == 405 {
        "Method Not Allowed"@
    } else if status == 413 {
        "Payload Too Large"@
    } else if status == 431 {
        "Request Header Fields Too Large"@
    } else if status == 500 {
        "Internal Server Error"@
    } else if status == 502 {
        "Bad Gateway"@
    } else {
        "Blocked"@
    }
}

/// The phrase for a status.
pub fn reason_phrase(status: u16) -> (s: &'static str)
    ensures
        s@ == phrase_for(status),
{
    match status {
        400 => "Bad Request",
        403 => "Forbidden",
        405 => "Method Not Allowed",
        413 => "Payload Too Large",
        431 => "Request Header Fields Too Large",
        500 => "Internal Server Error",
        502 => "Bad Gateway",
        _ => "Blocked",
    }
}

/// The body of the answer to a refused request.
pub open spec fn refusal_body(status: u16) -> Seq<char> {
    "blocked by fywaf ("@ + decimal(status as int) + ")\n"@
}

/// The answer to a refused request.
pub open spec fn refusal(status: u16) -> Seq<char> {
    "HTTP/1.1 "@ + decimal(status as int) + " "@ + phrase_for(status)
        + "\r\nContent-Type: text/plain; charset=utf-8\r\nContent-Length: "@ + decimal(
        encode_utf8(refusal_body(status)).len() as int,
    ) + "\r\nConnection: close\r\n\r\n"@ + refusal_body(status)
}

/// The answer to a refused request.
pub fn blocked_response(status: u16) -> (out: String)
    ensures
        out@ == refusal(status),
{
    let mut body = chars_of("blocked by fywaf (");
    push_chars(&mut body, write_decimal(status as u64).as_slice());
    push_text(&mut body, ")\n");
    assert(body@ == refusal_body(status));
    let body = string_of(body.as_slice());
    let size = body.as_str().as_bytes().len();
    let mut out = chars_of("HTTP/1.1 ");
    push_chars(&mut out, write_decimal(status as u64).as_slice());
    push_text(&mut out, " ");
    push_text(&mut out, reason_phrase(status));
    push_text(&mut out, "\r\nContent-Type: text/plain; charset=utf-8\r\nContent-Length: ");
    push_chars(&mut out, write_decimal(size as u64).as_slice());
    push_text(&mut out, "\r\nConnection: close\r\n\r\n");
    push_text(&mut out, body.as_str());
    string_of(out.as_slice())
}

// ---------------------------------------------------------------------------
// Passing on
// ---------------------------------------------------------------------------

/// A header that concerns only one connection.
pub open spec fn hop_by_hop(name: Seq<char>) -> bool {
    name == "connection"@ || name == "proxy-connection"@ || name == "keep-alive"@ || name == "te"@
        || name == "trailer"@ || name == "transfer-encoding"@ || name == "upgrade"@
}

/// Whether a header concerns only one connection.
pub fn is_hop_by_hop(name: &str) -> (r: bool)
    ensures
        r == hop_by_hop(name@),
{
    same_text(name, "connection") || same_text(name, "proxy-connection") || same_text(
        name,
        "keep-alive",
    ) || same_text(name, "te") || same_text(name, "trailer") || same_text(name, "transfer-encoding")
        || same_text(name, "upgrade")
}

/// The path of a request behind the base path of a server.
pub open spec fn merged_path(base_path: Seq<char>, incoming: Seq<char>) -> Seq<char> {
    let path = if starts_with(incoming, "/"@) {
        incoming
    } else {
        "/"@ + incoming
    };
    if base_path == "/"@ {
        path
    } else if path == "/"@ {
        base_path
    } else {
        base_path + path
    }
}

/// The path of a request behind the base path of a server.
pub fn merge_upstream_path(base_path: &str, incoming: &str) -> (out: String)
    ensures
        out@ == merged_path(base_path@, incoming@),
{
    let cs = chars_of(incoming);
    let path = if begins(cs.as_slice(), "/") {
        cs
    } else {
        let mut full = chars_of("/");
        push_chars(&mut full, cs.as_slice());
        full
    };
    if same_text(base_path, "/") {
        string_of(path.as_slice())
    } else if is_text(path.as_slice(), "/") {
        base_path.to_owned()
    } else {
        let mut out = chars_of(base_path);
        push_chars(&mut out, path.as_slice());
        string_of(out.as_slice())
    }
}

/// A header that is passed on as it is.
pub open spec fn passed_on(name: Seq<char>) -> bool {
    !hop_by_hop(name) && name != "host"@ && name != "x-forwarded-for"@
}

/// The lines of the headers that are passed on.
pub open spec fn header_lines(headers: Seq<(Seq<char>, Seq<char>)>) -> Seq<char>
    decreases headers.len(),
{
    if headers.len() == 0 {
        seq![]
    } else {
        let head = header_lines(headers.drop_last());
        if passed_on(headers.last().0) {
            head + (headers.last().0 + ": "@ + headers.last().1 + "\r\n"@)
        } else {
            head
        }
    }
}

/// For whom a request is passed on: the client comes behind those already
/// named.
pub open spec fn forwarded_for(
    headers: Seq<(Seq<char>, Seq<char>)>,
    client_ip: Seq<char>,
) -> Seq<char> {
    let existing = lookup(headers, "x-forwarded-for"@);
    if existing is Some && existing->0.len() > 0 {
        existing->0 + ", "@ + client_ip
    } else {
        client_ip
    }
}

/// The line with the length of the body.
pub open spec fn length_line(request: RequestView) -> Seq<char> {
    if request.body.len() > 0 {
        "Content-Length: "@ + decimal(request.body.len() as int) + "\r\n"@
    } else if lookup(request.headers, "content-length"@) is None {
        "Content-Length: 0\r\n"@
    } else {
        seq![]
    }
}

/// The head of a request as it is passed on.
pub open spec fn upstream_head(
    request: RequestView,
    upstream: UpstreamView,
    client_ip: Seq<char>,
) -> Seq<char> {
    request.method + " "@ + merged_path(upstream.base_path, request.path) + " "@ + request.version
        + "\r\nHost: "@ + authority_of(upstream) + "\r\n"@ + header_lines(request.headers)
        + "x-forwarded-for: "@ + forwarded_for(request.headers, client_ip)
        + "\r\nConnection: close\r\n"@ + length_line(request) + "\r\n"@
}

/// A request as it is passed on.
pub open spec fn upstream_request(
    request: RequestView,
    upstream: UpstreamView,
    client_ip: Seq<char>,
) -> Seq<u8> {
    encode_utf8(upstream_head(request, upstream, client_ip)) + request.body
}

/// How many bytes a request that is passed on may have.
pub open spec fn upstream_limit() -> int {
    MAX_HEADER_SIZE + MAX_BODY_SIZE + 1024
}

fn push_header_lines(out: &mut Vec<char>, headers: &TextMap<String>)
    ensures
        final(out)@ == old(out)@ + header_lines(headers@),
{
    let ghost start = out@;
    let n = headers.len();
    assert(start + header_lines(headers@.take(0)) =~= start);
    for i in 0..n
        invariant
            n == headers@.len(),
            out@ == start + header_lines(headers@.take(i as int)),
    {
        assert(headers@.take(i + 1).drop_last() =~= headers@.take(i as int));
        assert(headers@.take(i + 1).last() == headers@[i as int]);
        let name = headers.key(i);
        let ghost so_far = header_lines(headers@.take(i as int));
        if !is_hop_by_hop(name) && !same_text(name, "host") && !same_text(name, "x-forwarded-for") {
            let value = headers.value(i);
            push_text(out, name);
            push_text(out, ": ");
            push_text(out, value.as_str());
            push_text(out, "\r\n");
            assert(out@ =~= start + (so_far + (name@ + ": "@ + value@ + "\r\n"@)));
        }
    }
    assert(headers@.take(n as int) =~= headers@);
}

fn push_forwarded_for(out: &mut Vec<char>, headers: &TextMap<String>, client_ip: &str)
    ensures
        final(out)@ == old(out)@ + forwarded_for(headers@, client_ip@),
{
    let ghost start = out@;
    if let Some(existing) = headers.get("x-forwarded-for") {
        let cs = chars_of(existing.as_str());
        if cs.len() > 0 {
            push_chars(out, cs.as_slice());
            push_text(out, ", ");
            push_text(out, client_ip);
            assert(out@ =~= start + (cs@ + ", "@ + client_ip@));
            return ;
        }
    }
    push_text(out, client_ip);
}

fn push_length_line(out: &mut Vec<char>, request: &HttpRequest)
    ensures
        final(out)@ == old(out)@ + length_line(request@),
{
    let ghost start = out@;
    if request.body.len() > 0 {
        push_text(out, "Content-Length: ");
        push_chars(out, write_decimal(request.body.len() as u64).as_slice());
        push_text(out, "\r\n");
        assert(out@ =~= start + ("Content-Length: "@ + decimal(request@.body.len() as int)
            + "\r\n"@));
    } else if request.headers.get("content-length").is_none() {
        push_text(out, "Content-Length: 0\r\n");
    } else {
        assert(start + Seq::<char>::empty() =~= start);
    }
}

/// The bytes of a request as it is passed on.
pub fn build_upstream_request(
    request: &HttpRequest,
    upstream: &Upstream,
    client_ip: &str,
) -> (r: Result<Vec<u8>, RequestError>)
    ensures
        ({
            let bytes = upstream_request(request@, upstream@, client_ip@);
            if bytes.len() > upstream_limit() {
                r is Err && r->Err_0 == RequestError::UpstreamTooLarge
            } else {
                r is Ok && r->Ok_0@ == bytes
            }
        }),
{
    let mut head = chars_of(request.method.as_str());
    push_text(&mut head, " ");
    let path = merge_upstream_path(upstream.base_path.as_str(), request.path.as_str());
    push_text(&mut head, path.as_str());
    push_text(&mut head, " ");
    push_text(&mut head, request.version.as_str());
    push_text(&mut head, "\r\nHost: ");
    push_text(&mut head, upstream.authority().as_str());
    push_text(&mut head, "\r\n");
    push_header_lines(&mut head, &request.headers);
    push_text(&mut head, "x-forwarded-for: ");
    push_forwarded_for(&mut head, &request.headers, client_ip);
    push_text(&mut head, "\r\nConnection: close\r\n");
    push_length_line(&mut head, request);
    push_text(&mut head, "\r\n");
    let head = string_of(head.as_slice());
    let mut out: Vec<u8> = Vec::new();
    push_bytes(&mut out, head.as_str().as_bytes());
    push_bytes(&mut out, request.body.as_slice());
    assert(out@ =~= upstream_request(request@, upstream@, client_ip@));
    if out.len() > MAX_HEADER_SIZE + MAX_BODY_SIZE + 1024 {
        return Err(RequestError::UpstreamTooLarge);
    }
    Ok(out)
}

// ---------------------------------------------------------------------------
// Laws
// ---------------------------------------------------------------------------

/// The body of a request is passed on as it is, behind the head.
pub proof fn lemma_body_unchanged(
    request: RequestView,
    upstream: UpstreamView,
    client_ip: Seq<char>,
)
    ensures
        ({
            let bytes = upstream_request(request, upstream, client_ip);
            bytes.skip(bytes.len() - request.body.len()) == request.body
        }),
{
    let bytes = upstream_request(request, upstream, client_ip);
    assert(bytes.skip(bytes.len() - request.body.len()) =~= request.body);
}

/// A header that is not passed on makes no difference to those that are.
pub proof fn lemma_header_dropped(headers: Seq<(Seq<char>, Seq<char>)>, i: int)
    requires
        0 <= i < headers.len(),
        !passed_on(headers[i].0),
    ensures
        header_lines(headers.remove(i)) == header_lines(headers),
    decreases headers.len(),
{
    if i == headers.len() - 1 {
        assert(headers.remove(i) =~= headers.drop_last());
    } else {
        lemma_header_dropped(headers.drop_last(), i);
        assert(headers.remove(i).drop_last() =~= headers.drop_last().remove(i));
        assert(headers.remove(i).last() == headers.last());
    }
}

/// The answer to a refused request ends with its body, and announces as many
/// bytes as the body has.
pub proof fn lemma_refusal(status: u16)
    ensures
        ends_with(refusal(status), refusal_body(status)),
        contains(
            refusal(status),
            "Content-Length: "@ + decimal(encode_utf8(refusal_body(status)).len() as int),
        ),
{
    let body = refusal_body(status);
    let length = decimal(encode_utf8(body).len() as int);
    let start = "HTTP/1.1 "@ + decimal(status as int) + " "@ + phrase_for(status);
    let type_line = "\r\nContent-Type: text/plain; charset=utf-8\r\nContent-Length: "@;
    let rest = "\r\nConnection: close\r\n\r\n"@ + body;
    let all = refusal(status);
    assert(all =~= start + type_line + length + rest);
    assert(all.skip(all.len() - body.len()) =~= body);
    reveal_strlit("\r\nContent-Type: text/plain; charset=utf-8\r\nContent-Length: ");
    reveal_strlit("Content-Length: ");
    let at = start.len() + type_line.len() - "Content-Length: "@.len();
    let line = "Content-Length: "@ + length;
    assert(type_line.skip(type_line.len() - 16) =~= "Content-Length: "@);
    assert(all.subrange(at, at + line.len()) =~= line);
    assert(occurs_at(all, line, at));
}

/// A path that starts with a slash goes through a server at the root unchanged.
pub proof fn lemma_root_path(incoming: Seq<char>)
    requires
        starts_with(incoming, "/"@),
    ensures
        merged_path("/"@, incoming) == incoming,
{
}

/// A merged path starts with a slash where the base path does.
pub proof fn lemma_merged_path_absolute(base_path: Seq<char>, incoming: Seq<char>)
    requires
        base_path.len() > 0,
        base_path[0] == '/',
    ensures
        merged_path(base_path, incoming).len() > 0,
        merged_path(base_path, incoming)[0] == '/',
{
    reveal_strlit("/");
    if starts_with(incoming, "/"@) {
        assert(incoming.take(1)[0] == '/');
    }
}

} // verus!
