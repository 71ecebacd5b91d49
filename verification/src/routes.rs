//! Route dispatch: the first path segment selects a handler. The handlers
//! that only compute build their response here; the file routes yield the
//! file operation to perform, and a second step turns the operation's
//! outcome into the response, so that the filesystem itself stays outside.
use vstd::prelude::*;
use vstd::slice::slice_to_vec;
use vstd::string::is_ascii;

use crate::bytes::ascii_bytes;
use crate::bytes::dec;
use crate::bytes::dec_exec;
use crate::bytes::lit;
use crate::bytes::lower;
use crate::bytes::lower_exec;
use crate::bytes::slice_eq;
use crate::request::kv_views;
use crate::request::ReqV;
use crate::request::Request;
use crate::response::RespV;
use crate::response::Response;

verus! {

/// Index of the first header whose ASCII-lowercased key equals `key`
/// (itself already lowercase), or -1 when there is none.
pub open spec fn header_index(hs: Seq<(Seq<u8>, Seq<u8>)>, key: Seq<u8>) -> int
    decreases hs.len(),
{
    if hs.len() == 0 {
        -1
    } else if lower(hs[0].0) == key {
        0
    } else {
        let r = header_index(hs.drop_first(), key);
        if r < 0 {
            -1
        } else {
            r + 1
        }
    }
}

/// The value of the first header whose lowercased key equals `key`.
pub open spec fn header_lookup(hs: Seq<(Seq<u8>, Seq<u8>)>, key: Seq<u8>) -> Option<Seq<u8>> {
    let i = header_index(hs, key);
    if 0 <= i < hs.len() {
        Some(hs[i].1)
    } else {
        None
    }
}

proof fn lemma_header_index_none(hs: Seq<(Seq<u8>, Seq<u8>)>, key: Seq<u8>)
    requires
        forall|j: int| 0 <= j < hs.len() ==> lower(#[trigger] hs[j].0) != key,
    ensures
        header_index(hs, key) == -1,
    decreases hs.len(),
{
    if hs.len() > 0 {
        lemma_header_index_none(hs.drop_first(), key);
    }
}

proof fn lemma_header_index_some(hs: Seq<(Seq<u8>, Seq<u8>)>, key: Seq<u8>, k: int)
    requires
        0 <= k < hs.len(),
        lower(hs[k].0) == key,
        forall|j: int| 0 <= j < k ==> lower(#[trigger] hs[j].0) != key,
    ensures
        header_index(hs, key) == k,
    decreases k,
{
    if k > 0 {
        lemma_header_index_some(hs.drop_first(), key, k - 1);
    }
}

/// Index of the first header of `headers` whose lowercased key equals the
/// (already lowercase) `key`.
pub fn header_find(headers: &Vec<(Vec<u8>, Vec<u8>)>, key: &[u8]) -> (r: Option<usize>)
    ensures
        match r {
            Some(i) => i < headers@.len() && header_index(kv_views(headers@), key@) == i,
            None => header_index(kv_views(headers@), key@) == -1,
        },
{
    let ghost hs = kv_views(headers@);
    let mut i: usize = 0;
    while i < headers.len()
        invariant
            i <= headers@.len(),
            hs == kv_views(headers@),
            forall|j: int| 0 <= j < i ==> lower(#[trigger] hs[j].0) != key@,
        decreases headers@.len() - i,
    {
        let low = lower_exec(headers[i].0.as_slice());
        if slice_eq(low.as_slice(), key) {
            proof {
                lemma_header_index_some(hs, key@, i as int);
            }
            return Some(i);
        }
        i += 1;
    }
    proof {
        lemma_header_index_none(hs, key@);
    }
    None
}

/// The 200 response that greets at the root: no headers, a fixed body.
pub open spec fn hello_v() -> RespV {
    RespV { status_code: 200, status_text: lit("OK"), headers: Seq::empty(), body: lit(
        "Hello, World!",
    ) }
}

/// The 404 response: no headers, empty body.
pub open spec fn not_found_v() -> RespV {
    RespV { status_code: 404, status_text: lit("Not Found"), headers: Seq::empty(), body: Seq::empty() }
}

/// The 400 response for a request the handlers reject: no headers, empty
/// body.
pub open spec fn bad_request_v() -> RespV {
    RespV {
        status_code: 400,
        status_text: lit("Bad Request"),
        headers: Seq::empty(),
        body: Seq::empty(),
    }
}

/// The 405 response for a file request whose method is neither GET nor
/// POST.
pub open spec fn method_not_allowed_v() -> RespV {
    RespV {
        status_code: 405,
        status_text: lit("Method Not Allowed"),
        headers: Seq::empty(),
        body: Seq::empty(),
    }
}

/// A 200 response whose body is `body`, with a content type and the body's
/// byte length as headers.
pub open spec fn ok_with_body_v(content_type: Seq<u8>, body: Seq<u8>) -> RespV {
    RespV {
        status_code: 200,
        status_text: lit("OK"),
        headers: seq![
            (lit("Content-Type"), content_type),
            (lit("Content-Length"), dec(body.len())),
        ],
        body: body,
    }
}

/// What the user-agent route returns: the value of the first `User-Agent`
/// header, or `unknown` when the request carries none, as a plain-text 200.
pub open spec fn user_agent_spec(rq: ReqV) -> RespV {
    let ua = match header_lookup(rq.headers, lit("user-agent")) {
        Some(v) => v,
        None => lit("unknown"),
    };
    ok_with_body_v(lit("text/plain"), ua)
}

/// What the echo route returns: the second path segment verbatim as a
/// plain-text 200; a 400 when that segment is missing or is itself `echo`
/// (the self-referential loop guard).
pub open spec fn echo_spec(rq: ReqV) -> RespV {
    if rq.parts.len() < 2 || rq.parts[1] == lit("echo") {
        bad_request_v()
    } else {
        ok_with_body_v(lit("text/plain"), rq.parts[1])
    }
}

/// The outcome of dispatch: either a finished response, or the file
/// operation — named by the last path segment — that must run before the
/// response can be formed.
pub enum Routed {
    Ready(Response),
    ReadFile(Vec<u8>),
    WriteFile(Vec<u8>, Vec<u8>),
}

/// The view of a dispatch outcome.
pub ghost enum RoutedV {
    Ready(RespV),
    ReadFile(Seq<u8>),
    WriteFile(Seq<u8>, Seq<u8>),
}

impl View for Routed {
    type V = RoutedV;

    open spec fn view(&self) -> RoutedV {
        match self {
            Routed::Ready(resp) => RoutedV::Ready(resp@),
            Routed::ReadFile(name) => RoutedV::ReadFile(name@),
            Routed::WriteFile(name, body) => RoutedV::WriteFile(name@, body@),
        }
    }
}

/// What the files route decides: read the file named by the last path
/// segment on GET, write the request body to it on POST, and refuse any
/// other method with a 405.
pub open spec fn files_spec(rq: ReqV) -> RoutedV {
    if rq.method == lit("GET") {
        RoutedV::ReadFile(rq.parts.last())
    } else if rq.method == lit("POST") {
        RoutedV::WriteFile(rq.parts.last(), rq.body)
    } else {
        RoutedV::Ready(method_not_allowed_v())
    }
}

/// What dispatch yields for a parsed request, keyed on the first path
/// segment (the empty key, when there is no segment, greets at the root).
pub open spec fn route_spec(rq: ReqV) -> RoutedV {
    let first: Seq<u8> = if rq.parts.len() == 0 {
        Seq::empty()
    } else {
        rq.parts[0]
    };
    if first == lit("user-agent") {
        RoutedV::Ready(user_agent_spec(rq))
    } else if first == lit("echo") {
        RoutedV::Ready(echo_spec(rq))
    } else if first == lit("files") {
        files_spec(rq)
    } else if first.len() == 0 {
        RoutedV::Ready(hello_v())
    } else {
        RoutedV::Ready(not_found_v())
    }
}

/// Build the response with no headers and an empty body that carries the
/// given status.
fn status_only(code: u16, text: Vec<u8>) -> (r: Response)
    ensures
        r@ == (RespV { status_code: code, status_text: text@, headers: Seq::empty(), body: Seq::empty() }),
{
    let r = Response { status_code: code, status_text: text, headers: Vec::new(), body: Vec::new() };
    proof {
        assert(kv_views(r.headers@) =~= Seq::<(Seq<u8>, Seq<u8>)>::empty());
        assert(r.body@ =~= Seq::<u8>::empty());
    }
    r
}

/// Build the plain 200 response around `body` with its content type and
/// length as headers.
fn ok_with_body(content_type: Vec<u8>, body: Vec<u8>) -> (r: Response)
    ensures
        r@ == ok_with_body_v(content_type@, body@),
{
    proof {
        reveal_strlit("OK");
        assert(is_ascii("OK"));
        reveal_strlit("Content-Type");
        assert(is_ascii("Content-Type"));
        reveal_strlit("Content-Length");
        assert(is_ascii("Content-Length"));
    }
    let status_text = ascii_bytes("OK");
    let content_length = dec_exec(body.len() as u64);
    let mut headers: Vec<(Vec<u8>, Vec<u8>)> = Vec::new();
    headers.push((ascii_bytes("Content-Type"), content_type));
    headers.push((ascii_bytes("Content-Length"), content_length));
    let r = Response { status_code: 200, status_text, headers, body };
    proof {
        assert(kv_views(r.headers@) =~= ok_with_body_v(content_type@, r.body@).headers);
    }
    r
}

/// The user-agent route.
pub fn user_agent(request: &Request) -> (r: Response)
    ensures
        r@ == user_agent_spec(request@),
{
    proof {
        reveal_strlit("user-agent");
        assert(is_ascii("user-agent"));
        reveal_strlit("text/plain");
        assert(is_ascii("text/plain"));
        reveal_strlit("unknown");
        assert(is_ascii("unknown"));
    }
    let key = ascii_bytes("user-agent");
    let ua: Vec<u8> = match header_find(&request.headers, key.as_slice()) {
        Some(i) => slice_to_vec(request.headers[i].1.as_slice()),
        None => ascii_bytes("unknown"),
    };
    ok_with_body(ascii_bytes("text/plain"), ua)
}

/// The echo route.
pub fn echo(request: &Request) -> (r: Response)
    ensures
        r@ == echo_spec(request@),
{
    proof {
        reveal_strlit("echo");
        assert(is_ascii("echo"));
        reveal_strlit("text/plain");
        assert(is_ascii("text/plain"));
        reveal_strlit("Bad Request");
        assert(is_ascii("Bad Request"));
    }
    let guard = ascii_bytes("echo");
    if request.path_parts.len() < 2 {
        return status_only(400, ascii_bytes("Bad Request"));
    }
    let segment = &request.path_parts[1];
    if slice_eq(segment.as_slice(), guard.as_slice()) {
        return status_only(400, ascii_bytes("Bad Request"));
    }
    ok_with_body(ascii_bytes("text/plain"), slice_to_vec(segment.as_slice()))
}

/// The files route: decide the file operation from the method.
pub fn files(request: &Request) -> (r: Routed)
    requires
        request@.parts.len() >= 1,
    ensures
        r@ == files_spec(request@),
{
    proof {
        reveal_strlit("GET");
        assert(is_ascii("GET"));
        reveal_strlit("POST");
        assert(is_ascii("POST"));
        reveal_strlit("Method Not Allowed");
        assert(is_ascii("Method Not Allowed"));
    }
    let get = ascii_bytes("GET");
    let post = ascii_bytes("POST");
    let last = request.path_parts.len() - 1;
    let name = slice_to_vec(request.path_parts[last].as_slice());
    if slice_eq(request.method.as_slice(), get.as_slice()) {
        Routed::ReadFile(name)
    } else if slice_eq(request.method.as_slice(), post.as_slice()) {
        Routed::WriteFile(name, slice_to_vec(request.body.as_slice()))
    } else {
        Routed::Ready(status_only(405, ascii_bytes("Method Not Allowed")))
    }
}

/// Dispatch a parsed request to its route.
pub fn route(request: &Request) -> (r: Routed)
    ensures
        r@ == route_spec(request@),
{
    proof {
        reveal_strlit("user-agent");
        assert(is_ascii("user-agent"));
        reveal_strlit("echo");
        assert(is_ascii("echo"));
        reveal_strlit("files");
        assert(is_ascii("files"));
        reveal_strlit("OK");
        assert(is_ascii("OK"));
        reveal_strlit("Hello, World!");
        assert(is_ascii("Hello, World!"));
        reveal_strlit("Not Found");
        assert(is_ascii("Not Found"));
    }
    let empty: Vec<u8> = Vec::new();
    let first: &Vec<u8> = if request.path_parts.len() == 0 {
        &empty
    } else {
        &request.path_parts[0]
    };
    proof {
        assert(request.path_parts@.len() == 0 ==> first@ =~= Seq::<u8>::empty());
    }
    if slice_eq(first.as_slice(), ascii_bytes("user-agent").as_slice()) {
        Routed::Ready(user_agent(request))
    } else if slice_eq(first.as_slice(), ascii_bytes("echo").as_slice()) {
        Routed::Ready(echo(request))
    } else if slice_eq(first.as_slice(), ascii_bytes("files").as_slice()) {
        files(request)
    } else if first.len() == 0 {
        let r = Response {
            status_code: 200,
            status_text: ascii_bytes("OK"),
            headers: Vec::new(),
            body: ascii_bytes("Hello, World!"),
        };
        proof {
            assert(kv_views(r.headers@) =~= Seq::<(Seq<u8>, Seq<u8>)>::empty());
        }
        Routed::Ready(r)
    } else {
        Routed::Ready(status_only(404, ascii_bytes("Not Found")))
    }
}

/// Turn the outcome of the file read into the response: the file bytes as
/// an octet-stream 200, or a 404 with an empty body when the read failed.
pub fn file_read_response(content: Option<Vec<u8>>) -> (r: Response)
    ensures
        content matches Some(b) ==> r@ == ok_with_body_v(
            lit("application/octet-stream"),
            b@,
        ),
        content is None ==> r@ == not_found_v(),
{
    proof {
        reveal_strlit("application/octet-stream");
        assert(is_ascii("application/octet-stream"));
        reveal_strlit("Not Found");
        assert(is_ascii("Not Found"));
    }
    match content {
        Some(b) => ok_with_body(ascii_bytes("application/octet-stream"), b),
        None => status_only(404, ascii_bytes("Not Found")),
    }
}

/// Turn the outcome of the file write into the response: a 201 with an
/// empty body on success, a 500 when the write failed.
pub fn file_write_response(ok: bool) -> (r: Response)
    ensures
        ok ==> r@ == (RespV {
            status_code: 201,
            status_text: lit("Created"),
            headers: Seq::empty(),
            body: Seq::empty(),
        }),
        !ok ==> r@ == (RespV {
            status_code: 500,
            status_text: lit("Internal Server Error"),
            headers: Seq::empty(),
            body: Seq::empty(),
        }),
{
    proof {
        reveal_strlit("Created");
        assert(is_ascii("Created"));
        reveal_strlit("Internal Server Error");
        assert(is_ascii("Internal Server Error"));
    }
    if ok {
        status_only(201, ascii_bytes("Created"))
    } else {
        status_only(500, ascii_bytes("Internal Server Error"))
    }
}

/// Law: for every request whose path segments are /echo/<X> with X a
/// non-empty segment other than `echo` itself, dispatch yields a finished
/// 200 response whose body is exactly X and whose `Content-Length` header
/// holds the decimal byte length of X.
pub proof fn lemma_echo_exact(rq: ReqV, x: Seq<u8>)
    requires
        rq.parts.len() >= 2,
        rq.parts[0] == lit("echo"),
        rq.parts[1] == x,
        x.len() > 0,
        x != lit("echo"),
    ensures
        route_spec(rq) == RoutedV::Ready(ok_with_body_v(lit("text/plain"), x)),
        ok_with_body_v(lit("text/plain"), x).status_code == 200,
        ok_with_body_v(lit("text/plain"), x).body == x,
        ok_with_body_v(lit("text/plain"), x).headers.contains(
            (lit("Content-Length"), dec(x.len())),
        ),
{
    proof_lit_lengths();
    assert(rq.parts[0].len() == 4);
    assert(ok_with_body_v(lit("text/plain"), x).headers[1] == (
        lit("Content-Length"),
        dec(x.len()),
    ));
}

/// Law: a POST to /files/<name> yields the write of exactly the request
/// body under <name>, and a GET to /files/<name> yields the read of
/// <name>; when that read then returns the stored bytes, the read's 200
/// response carries exactly the bytes the POST stored — the round trip.
pub proof fn lemma_files_round_trip(post: ReqV, get: ReqV, name: Seq<u8>)
    requires
        post.parts.len() >= 1,
        post.parts[0] == lit("files"),
        post.parts.last() == name,
        post.method == lit("POST"),
        get.parts.len() >= 1,
        get.parts[0] == lit("files"),
        get.parts.last() == name,
        get.method == lit("GET"),
    ensures
        route_spec(post) == RoutedV::WriteFile(name, post.body),
        route_spec(get) == RoutedV::ReadFile(name),
        ok_with_body_v(lit("application/octet-stream"), post.body).status_code == 200,
        ok_with_body_v(lit("application/octet-stream"), post.body).body == post.body,
{
    proof_lit_lengths();
    assert(post.parts[0].len() == 5);
    assert(get.parts[0].len() == 5);
}

/// The byte lengths of the route and method tokens, which tell the
/// dispatch keys apart.
proof fn proof_lit_lengths()
    ensures
        lit("user-agent").len() == 10,
        lit("echo").len() == 4,
        lit("files").len() == 5,
        lit("GET").len() == 3,
        lit("POST").len() == 4,
{
    reveal_strlit("user-agent");
    reveal_strlit("echo");
    reveal_strlit("files");
    reveal_strlit("GET");
    reveal_strlit("POST");
    assert(is_ascii("user-agent"));
    assert(is_ascii("echo"));
    assert(is_ascii("files"));
    assert(is_ascii("GET"));
    assert(is_ascii("POST"));
    vstd::string::is_ascii_spec_bytes("user-agent");
    vstd::string::is_ascii_spec_bytes("echo");
    vstd::string::is_ascii_spec_bytes("files");
    vstd::string::is_ascii_spec_bytes("GET");
    vstd::string::is_ascii_spec_bytes("POST");
}

} // verus!
