//! What is passed on of a request, and to whom.

use vstd::prelude::*;
use vstd::utf8::encode_utf8;

use crate::config::SiteView;
use crate::http::RequestView;
use crate::number::{decimal, digit_value, lemma_decimal_round_trip, parse_digits};
use crate::ordered::lookup;
use crate::proxy::{
    forwarded_for, header_lines, hop_by_hop, length_line, merged_path, meta_of, passed_on,
    phrase_for, refusal, refusal_body, runtimes_of, upstream_head, upstream_in, upstream_limit,
    upstream_request, SiteRuntimeView, UpstreamError, UpstreamView,
};
use crate::text::{lossy_text, starts_with};
use crate::text_laws::{free_of, lemma_after_prefix, lemma_split_once};

verus! {

// ---------------------------------------------------------------------------
// Upstreams
// ---------------------------------------------------------------------------

/// `http://host` is that host at port 80, with `/` for a base path; a path behind it is
/// the base path, without one slash at its end.
#[verifier::rlimit(40)]
pub proof fn lemma_upstream_defaults(host: Seq<char>, path: Seq<char>)
    requires
        host.len() > 0,
        free_of(host, ':'),
        free_of(host, '/'),
        path.len() > 0 ==> path.last() != '/',
    ensures
        upstream_in("http://"@ + host) == Ok::<_, UpstreamError>(
            UpstreamView { host, port: 80, base_path: seq!['/'] },
        ),
        upstream_in("http://"@ + (host + seq!['/'] + path)) == Ok::<_, UpstreamError>(
            UpstreamView { host, port: 80, base_path: seq!['/'] + path },
        ),
        path.len() > 0 ==> upstream_in("http://"@ + (host + seq!['/'] + path.push('/')))
            == Ok::<_, UpstreamError>(
            UpstreamView { host, port: 80, base_path: seq!['/'] + path },
        ),
{
    reveal_strlit("/");
    assert("/"@ =~= seq!['/']);
    let none = Seq::<char>::empty();
    lemma_after_prefix("http://"@ + host, "http://"@, host);
    lemma_split_once(host, '/', none);
    lemma_split_once(host, ':', none);
    let with_path = host + seq!['/'] + path;
    lemma_after_prefix("http://"@ + with_path, "http://"@, with_path);
    lemma_split_once(host, '/', path);
    let slashed = path.push('/');
    let with_slash = host + seq!['/'] + slashed;
    lemma_after_prefix("http://"@ + with_slash, "http://"@, with_slash);
    lemma_split_once(host, '/', slashed);
    let base = seq!['/'] + path;
    assert(path.len() > 0 ==> base.last() == path.last());
    assert((seq!['/'] + slashed).drop_last() =~= base);
    assert((seq!['/'] + slashed).last() == '/');
}

/// What is wrong with a URL: another scheme, nothing behind it, no authority, a port
/// that is none, or no host.
#[verifier::rlimit(40)]
pub proof fn lemma_bad_upstream(raw: Seq<char>, host: Seq<char>, port: Seq<char>, rest: Seq<char>)
    requires
        free_of(host, ':'),
        free_of(host, '/'),
        free_of(port, '/'),
    ensures
        (forall|tail: Seq<char>| raw != #[trigger] ("http://"@ + tail)) ==> upstream_in(raw)
            == Err::<UpstreamView, _>(UpstreamError::NotHttp),
        upstream_in("http://"@ + Seq::<char>::empty()) == Err::<UpstreamView, _>(
            UpstreamError::EmptyUrl,
        ),
        upstream_in("http://"@ + (seq!['/'] + rest)) == Err::<UpstreamView, _>(
            UpstreamError::EmptyAuthority,
        ),
        port.len() > 0 && !('0' <= port[0] <= '9') && port[0] != '+' ==> upstream_in(
            "http://"@ + (host + seq![':'] + port),
        ) == Err::<UpstreamView, _>(UpstreamError::InvalidPort),
        port.len() == 0 ==> upstream_in("http://"@ + (host + seq![':'] + port)) == Err::<
            UpstreamView,
            _,
        >(UpstreamError::InvalidPort),
        host.len() == 0 && port == decimal(8080) ==> upstream_in(
            "http://"@ + (host + seq![':'] + port),
        ) == Err::<UpstreamView, _>(UpstreamError::EmptyHost),
{
    let none = Seq::<char>::empty();
    if forall|tail: Seq<char>| raw != #[trigger] ("http://"@ + tail) {
        if starts_with(raw, "http://"@) {
            let tail = raw.skip("http://"@.len() as int);
            assert(raw =~= "http://"@ + tail);
        }
    }
    lemma_after_prefix("http://"@ + none, "http://"@, none);
    let slash = seq!['/'] + rest;
    lemma_after_prefix("http://"@ + slash, "http://"@, slash);
    assert(none + seq!['/'] + rest =~= slash);
    lemma_split_once(none, '/', rest);
    let authority = host + seq![':'] + port;
    lemma_after_prefix("http://"@ + authority, "http://"@, authority);
    assert forall|i: int| 0 <= i < authority.len() implies #[trigger] authority[i] != '/' by {
        if i < host.len() {
            assert(authority[i] == host[i]);
        } else if i > host.len() {
            assert(authority[i] == port[i - host.len() - 1]);
        }
    }
    lemma_split_once(authority, '/', none);
    lemma_split_once(host, ':', port);
    if port.len() > 0 && !('0' <= port[0] <= '9') {
        lemma_first_digit(port, 0xffff);
    }
    lemma_decimal_round_trip(8080, 0xffff);
}

proof fn lemma_first_digit(d: Seq<char>, max: int)
    requires
        d.len() > 0,
        !('0' <= d[0] <= '9'),
    ensures
        parse_digits(d, 10, max) is Err,
    decreases d.len(),
{
    if d.len() > 1 {
        lemma_first_digit(d.drop_last(), max);
    } else {
        assert(digit_value(d[0], 10) is None);
    }
}

/// Every site listens where it says, for its profile, and passes on to its upstream; the
/// first upstream that is wrong is told.
pub proof fn lemma_sites_ready(sites: Seq<SiteView>, site: SiteView)
    ensures
        runtimes_of(seq![]) == Ok::<Seq<SiteRuntimeView>, UpstreamError>(seq![]),
        runtimes_of(sites) is Err ==> runtimes_of(sites.push(site)) == runtimes_of(sites),
        runtimes_of(sites) matches Ok(head) ==> match upstream_in(site.url) {
            Ok(upstream) => runtimes_of(sites.push(site)) == Ok::<_, UpstreamError>(
                head.push(
                    SiteRuntimeView {
                        id: site.id,
                        listen: site.listen,
                        profile_id: site.profile,
                        upstream,
                    },
                ),
            ),
            Err(e) => runtimes_of(sites.push(site)) == Err::<Seq<SiteRuntimeView>, _>(e),
        },
{
    assert(sites.push(site).drop_last() =~= sites);
}

// ---------------------------------------------------------------------------
// What a module is told
// ---------------------------------------------------------------------------

/// A module is told the path before the first question mark, and for a query all that
/// stands behind it; the user agent is the header of that name, and the headers are all
/// of them. An empty body is none.
pub proof fn lemma_meta(
    request: RequestView,
    client_ip: Seq<char>,
    path: Seq<char>,
    query: Seq<char>,
)
    requires
        free_of(path, '?'),
    ensures
        ({
            let meta = meta_of(request, client_ip);
            &&& meta.client_ip == client_ip
            &&& meta.method == request.method
            &&& request.path == path + seq!['?'] + query ==> meta.path == path && meta.query
                == Some(query)
            &&& request.path == path ==> meta.path == path && meta.query is None
            &&& meta.user_agent == lookup(request.headers, "user-agent"@)
            &&& meta.headers == request.headers
            &&& request.body.len() == 0 ==> meta.body is None
            &&& request.body.len() > 0 ==> meta.body == Some(lossy_text(request.body))
        }),
{
    lemma_split_once(path, '?', query);
}

// ---------------------------------------------------------------------------
// Paths
// ---------------------------------------------------------------------------

/// The path goes behind the base path, with exactly one slash between them: a server at
/// the root gets the path alone, and a request for the root gets the base path alone.
pub proof fn lemma_merged_path(base: Seq<char>, path: Seq<char>)
    ensures
        merged_path(seq!['/'], seq!['/'] + path) == seq!['/'] + path,
        path.len() > 0 && path[0] != '/' ==> merged_path(seq!['/'], path) == seq!['/'] + path,
        base != seq!['/'] && path.len() > 0 ==> merged_path(base, seq!['/'] + path) == base + (seq![
            '/',
        ] + path),
        base != seq!['/'] && path.len() > 0 && path[0] != '/' ==> merged_path(base, path) == base
            + (seq!['/'] + path),
        base != seq!['/'] ==> merged_path(base, seq!['/']) == base,
        base != seq!['/'] ==> merged_path(base, seq![]) == base,
{
    reveal_strlit("/");
    let root = seq!['/'];
    assert("/"@ =~= root);
    let full = root + path;
    assert(full.take(1) =~= root);
    assert(starts_with(full, "/"@));
    if path.len() > 0 {
        assert(path.take(1)[0] == path[0]);
        assert(full != root) by {
            assert(full.len() > 1);
        }
    }
    assert(root.take(1) =~= root);
    let none = Seq::<char>::empty();
    assert(root + none =~= root);
}

// ---------------------------------------------------------------------------
// Headers
// ---------------------------------------------------------------------------

/// The headers that are not passed on: those that concern one connection, and those that
/// are written anew.
pub proof fn lemma_headers_not_passed_on(name: Seq<char>)
    ensures
        !passed_on(name) <==> (name == "connection"@ || name == "proxy-connection"@ || name
            == "keep-alive"@ || name == "te"@ || name == "trailer"@ || name == "transfer-encoding"@
            || name == "upgrade"@ || name == "host"@ || name == "x-forwarded-for"@),
        hop_by_hop(name) <==> (name == "connection"@ || name == "proxy-connection"@ || name
            == "keep-alive"@ || name == "te"@ || name == "trailer"@ || name == "transfer-encoding"@
            || name == "upgrade"@),
{
}

/// Every other header is passed on as it is, on a line of its own, in order.
pub proof fn lemma_header_passed_on(
    headers: Seq<(Seq<char>, Seq<char>)>,
    name: Seq<char>,
    value: Seq<char>,
    more: Seq<(Seq<char>, Seq<char>)>,
)
    requires
        passed_on(name),
    ensures
        header_lines(headers + seq![(name, value)] + more) == header_lines(headers) + (name + seq![
            ':',
            ' ',
        ] + value + seq!['\r', '\n']) + header_lines(more),
        header_lines(seq![]).len() == 0,
{
    reveal_strlit(": ");
    reveal_strlit("\r\n");
    assert(": "@ =~= seq![':', ' ']);
    assert("\r\n"@ =~= seq!['\r', '\n']);
    let one = headers.push((name, value));
    assert(headers + seq![(name, value)] =~= one);
    assert(one.drop_last() =~= headers);
    lemma_lines_of_both(one, more);
}

proof fn lemma_lines_of_both(
    a: Seq<(Seq<char>, Seq<char>)>,
    b: Seq<(Seq<char>, Seq<char>)>,
)
    ensures
        header_lines(a + b) == header_lines(a) + header_lines(b),
    decreases b.len(),
{
    if b.len() == 0 {
        assert(a + b =~= a);
        assert(header_lines(a) + header_lines(b) =~= header_lines(a));
    } else {
        lemma_lines_of_both(a, b.drop_last());
        assert((a + b).drop_last() =~= a + b.drop_last());
        assert((a + b).last() == b.last());
        assert(header_lines(a + b) =~= header_lines(a) + header_lines(b));
    }
}

/// The client comes behind those for whom the request was passed on already, after a
/// comma; alone where there are none.
pub proof fn lemma_forwarded_for(headers: Seq<(Seq<char>, Seq<char>)>, client_ip: Seq<char>)
    ensures
        lookup(headers, "x-forwarded-for"@) is None ==> forwarded_for(headers, client_ip)
            == client_ip,
        lookup(headers, "x-forwarded-for"@) matches Some(others) ==> (if others.len() == 0 {
            forwarded_for(headers, client_ip) == client_ip
        } else {
            forwarded_for(headers, client_ip) == others + seq![',', ' '] + client_ip
        }),
{
    reveal_strlit(", ");
    assert(", "@ =~= seq![',', ' ']);
}

/// The length of a body is told where there is one, and told to be zero where no length
/// was given.
pub proof fn lemma_length_told(request: RequestView)
    ensures
        request.body.len() > 0 ==> length_line(request) == "Content-Length: "@ + decimal(
            request.body.len() as int,
        ) + seq!['\r', '\n'],
        request.body.len() == 0 && lookup(request.headers, "content-length"@) is None
            ==> length_line(request) == "Content-Length: "@ + seq!['0'] + seq!['\r', '\n'],
        request.body.len() == 0 && lookup(request.headers, "content-length"@) is Some
            ==> length_line(request).len() == 0,
{
    reveal_strlit("\r\n");
    reveal_strlit("Content-Length: 0\r\n");
    reveal_strlit("Content-Length: ");
    assert("\r\n"@ =~= seq!['\r', '\n']);
    assert("Content-Length: 0\r\n"@ =~= "Content-Length: "@ + seq!['0'] + seq!['\r', '\n']);
}

/// A request is passed on with its method, the merged path and its version on the first
/// line, the authority of the server for a host, the headers that are passed on, those
/// for whom it is, the end of the connection, the length, a blank line, and its body.
#[verifier::rlimit(40)]
pub proof fn lemma_passed_on_request(
    request: RequestView,
    upstream: UpstreamView,
    client_ip: Seq<char>,
)
    ensures
        ({
            let end = seq!['\r', '\n'];
            let first = request.method + seq![' '] + merged_path(
                upstream.base_path,
                request.path,
            ) + seq![' '] + request.version + end;
            let host = "Host: "@ + upstream.host + seq![':'] + decimal(upstream.port as int) + end;
            let others = header_lines(request.headers);
            let forwarded = "x-forwarded-for: "@ + forwarded_for(request.headers, client_ip) + end;
            let closing = "Connection: close"@ + end;
            let head = first + host + others + forwarded + closing + length_line(request) + end;
            &&& upstream_head(request, upstream, client_ip) == head
            &&& upstream_request(request, upstream, client_ip) == encode_utf8(head) + request.body
        }),
{
    reveal_strlit(" ");
    reveal_strlit(":");
    reveal_strlit("\r\n");
    reveal_strlit("Host: ");
    reveal_strlit("\r\nHost: ");
    reveal_strlit("Connection: close");
    reveal_strlit("\r\nConnection: close\r\n");
    let end = seq!['\r', '\n'];
    assert(" "@ =~= seq![' ']);
    assert(":"@ =~= seq![':']);
    assert("\r\n"@ =~= end);
    assert("\r\nHost: "@ =~= end + "Host: "@);
    assert("\r\nConnection: close\r\n"@ =~= end + "Connection: close"@ + end);
    let first = request.method + seq![' '] + merged_path(upstream.base_path, request.path) + seq![
        ' ',
    ] + request.version + end;
    let host = "Host: "@ + upstream.host + seq![':'] + decimal(upstream.port as int) + end;
    let others = header_lines(request.headers);
    let forwarded = "x-forwarded-for: "@ + forwarded_for(request.headers, client_ip) + end;
    let closing = "Connection: close"@ + end;
    assert(upstream_head(request, upstream, client_ip) =~= first + host + others + forwarded
        + closing + length_line(request) + end);
}

// ---------------------------------------------------------------------------
// Refusals
// ---------------------------------------------------------------------------

/// The phrases of the statuses.
pub proof fn lemma_phrases(status: u16)
    ensures
        status == 400 ==> phrase_for(status) == "Bad Request"@,
        status == 403 ==> phrase_for(status) == "Forbidden"@,
        status == 405 ==> phrase_for(status) == "Method Not Allowed"@,
        status == 413 ==> phrase_for(status) == "Payload Too Large"@,
        status == 431 ==> phrase_for(status) == "Request Header Fields Too Large"@,
        status == 500 ==> phrase_for(status) == "Internal Server Error"@,
        status == 502 ==> phrase_for(status) == "Bad Gateway"@,
        status != 400 && status != 403 && status != 405 && status != 413 && status != 431 && status
            != 500 && status != 502 ==> phrase_for(status) == "Blocked"@,
{
}

/// The first line of the answer to a refused request.
pub open spec fn status_line(status: u16) -> Seq<char> {
    "HTTP/1.1 "@ + decimal(status as int) + seq![' '] + phrase_for(status) + seq!['\r', '\n']
}

/// The answer to a refused request begins with its status and the phrase for it, and its
/// body tells the status.
pub proof fn lemma_refusal_status(status: u16)
    ensures
        exists|rest: Seq<char>| refusal(status) == #[trigger] (status_line(status) + rest),
        refusal_body(status) == "blocked by fywaf ("@ + decimal(status as int) + seq![')', '\n'],
{
    reveal_strlit(" ");
    reveal_strlit(")\n");
    reveal_strlit("\r\nContent-Type: text/plain; charset=utf-8\r\nContent-Length: ");
    assert(" "@ =~= seq![' ']);
    assert(")\n"@ =~= seq![')', '\n']);
    let line = "\r\nContent-Type: text/plain; charset=utf-8\r\nContent-Length: "@;
    assert(line =~= seq!['\r', '\n'] + line.skip(2));
    let head = status_line(status);
    let rest = refusal(status).skip(head.len() as int);
    assert(refusal(status) =~= head + rest);
}

/// How long a request that is passed on may be: as long as the longest head and the
/// longest body, with a kibibyte for what is written anew.
pub proof fn lemma_upstream_limit()
    ensures
        upstream_limit() == 65536 + 10485760 + 1024,
{
}

} // verus!
