//! Content-encoding negotiation: when the request's `Accept-Encoding`
//! value list carries the `gzip` token, the response body is replaced by
//! its gzip form, a `Content-Encoding: gzip` header is appended, and the
//! `Content-Length` header is updated in place or appended.
use vstd::prelude::*;
use vstd::string::is_ascii;

use crate::bytes::ascii_bytes;
use crate::bytes::dec;
use crate::bytes::dec_exec;
use crate::bytes::lit;
use crate::bytes::lower;
use crate::bytes::slice_eq;
use crate::bytes::split;
use crate::bytes::split_bytes;
use crate::bytes::views;
use crate::request::kv_views;
use crate::request::ReqV;
use crate::request::Request;
use crate::response::resp_bytes;
use crate::response::RespV;
use crate::response::Response;
use crate::routes::header_find;
use crate::routes::header_index;
use crate::routes::header_lookup;

verus! {

/// What flate2's gzip encoder produces, at the default compression level,
/// for the given bytes.
pub uninterp spec fn gzip_of(b: Seq<u8>) -> Seq<u8>;

/// What flate2's gzip decoder recovers from the given bytes.
pub uninterp spec fn gunzip_of(b: Seq<u8>) -> Seq<u8>;

/// Relies on `flate2::write::GzEncoder` at the default level: the output
/// is a function of the input bytes alone, and, gzip being lossless,
/// `flate2::write::GzDecoder` recovers exactly the input from it. Writing
/// into a `Vec` sink cannot fail, so `finish` returns `Ok` here.
#[verifier::external_body]
fn gzip_compress(b: &[u8]) -> (r: Vec<u8>)
    ensures
        r@ == gzip_of(b@),
        gunzip_of(r@) == b@,
{
    let mut enc = flate2::write::GzEncoder::new(Vec::new(), flate2::Compression::default());
    let _ = std::io::Write::write_all(&mut enc, b);
    match enc.finish() {
        Ok(v) => v,
        Err(_) => Vec::new(),
    }
}

/// The comma-space separator of the `Accept-Encoding` value list.
pub open spec fn comma_sep() -> Seq<u8> {
    seq![44u8, 32u8]
}

/// True when the request's first `Accept-Encoding` header exists and its
/// comma-space-separated value list contains the token `gzip`.
pub open spec fn wants_gzip(rq: ReqV) -> bool {
    match header_lookup(rq.headers, lit("accept-encoding")) {
        Some(v) => split(v, comma_sep()).contains(lit("gzip")),
        None => false,
    }
}

/// The headers with the value of the first `Content-Length` entry replaced
/// by `v`, or with a new `Content-Length` entry appended when none exists.
pub open spec fn set_content_length(hs: Seq<(Seq<u8>, Seq<u8>)>, v: Seq<u8>) -> Seq<
    (Seq<u8>, Seq<u8>),
> {
    let i = header_index(hs, lit("content-length"));
    if 0 <= i < hs.len() {
        hs.update(i, (hs[i].0, v))
    } else {
        hs.push((lit("Content-Length"), v))
    }
}

/// What negotiation does to a response: nothing unless the request asks
/// for gzip; else the body is replaced by its gzip form, a
/// `Content-Encoding: gzip` header is appended, and `Content-Length` is
/// set to the compressed length.
pub open spec fn negotiate(rq: ReqV, resp: RespV) -> RespV {
    if wants_gzip(rq) {
        let zipped = gzip_of(resp.body);
        RespV {
            status_code: resp.status_code,
            status_text: resp.status_text,
            headers: set_content_length(
                resp.headers.push((lit("Content-Encoding"), lit("gzip"))),
                dec(zipped.len()),
            ),
            body: zipped,
        }
    } else {
        resp
    }
}

proof fn lemma_header_index_match(hs: Seq<(Seq<u8>, Seq<u8>)>, key: Seq<u8>)
    ensures
        header_index(hs, key) >= 0 ==> 0 <= header_index(hs, key) < hs.len() && lower(
            hs[header_index(hs, key)].0,
        ) == key,
    decreases hs.len(),
{
    if hs.len() > 0 && lower(hs[0].0) != key {
        lemma_header_index_match(hs.drop_first(), key);
    }
}

/// Decide whether the request asks for a gzip response body.
pub fn wants_gzip_exec(request: &Request) -> (r: bool)
    ensures
        r == wants_gzip(request@),
{
    proof {
        reveal_strlit("accept-encoding");
        assert(is_ascii("accept-encoding"));
        reveal_strlit("gzip");
        assert(is_ascii("gzip"));
    }
    let key = ascii_bytes("accept-encoding");
    let found = header_find(&request.headers, key.as_slice());
    match found {
        None => false,
        Some(i) => {
            let value = &request.headers[i].1;
            let mut sep: Vec<u8> = Vec::new();
            sep.push(44);
            sep.push(32);
            proof {
                assert(sep@ =~= comma_sep());
            }
            proof {
                assert(kv_views(request.headers@)[i as int] == (
                    request.headers@[i as int].0@,
                    request.headers@[i as int].1@,
                ));
            }
            let pieces = split_bytes(value.as_slice(), sep.as_slice());
            let token = ascii_bytes("gzip");
            let ghost list = split(value@, comma_sep());
            let mut j: usize = 0;
            while j < pieces.len()
                invariant
                    j <= pieces@.len(),
                    views(pieces@) == list,
                    list == split(
                        kv_views(request.headers@)[header_index(
                            kv_views(request.headers@),
                            lit("accept-encoding"),
                        )].1,
                        comma_sep(),
                    ),
                    header_lookup(kv_views(request.headers@), lit("accept-encoding"))
                        is Some,
                    token@ == lit("gzip"),
                    forall|k: int| 0 <= k < j ==> views(pieces@)[k] != lit("gzip"),
                decreases pieces@.len() - j,
            {
                let piece = &pieces[j];
                proof {
                    assert(views(pieces@)[j as int] == pieces@[j as int]@);
                    assert(piece@ == pieces@[j as int]@);
                }
                if slice_eq(piece.as_slice(), token.as_slice()) {
                    proof {
                        assert(list[j as int] == lit("gzip"));
                        assert(list.contains(lit("gzip")));
                    }
                    return true;
                }
                j += 1;
            }
            proof {
                assert(!list.contains(lit("gzip")));
            }
            false
        },
    }
}

impl Response {
    /// Replace the first `Content-Length` value with `v`, or append the
    /// header when none exists.
    fn set_content_length_exec(&mut self, v: Vec<u8>)
        ensures
            final(self).status_code == old(self).status_code,
            final(self).status_text == old(self).status_text,
            final(self).body == old(self).body,
            kv_views(final(self).headers@) == set_content_length(kv_views(old(self).headers@), v@),
    {
        proof {
            reveal_strlit("content-length");
            assert(is_ascii("content-length"));
            reveal_strlit("Content-Length");
            assert(is_ascii("Content-Length"));
        }
        let key = ascii_bytes("content-length");
        let found = header_find(&self.headers, key.as_slice());
        match found {
            Some(i) => {
                let (k, _) = self.headers.remove(i);
                self.headers.insert(i, (k, v));
                proof {
                    assert(kv_views(self.headers@) =~= set_content_length(
                        kv_views(old(self).headers@),
                        v@,
                    ));
                }
            },
            None => {
                self.headers.push((ascii_bytes("Content-Length"), v));
                proof {
                    assert(kv_views(self.headers@) =~= set_content_length(
                        kv_views(old(self).headers@),
                        v@,
                    ));
                }
            },
        }
    }
}

/// Negotiate the content encoding of a finished response against the
/// request that produced it. When the request asks for gzip, the returned
/// response's body is exactly the gzip form of the plain body — so
/// gzip-decoding it recovers the plain body — and the headers carry
/// `Content-Encoding: gzip`; otherwise the response is returned unchanged.
pub fn apply_encoding(request: &Request, response: Response) -> (r: Response)
    ensures
        r@ == negotiate(request@, response@),
        wants_gzip(request@) ==> {
            &&& r@.body == gzip_of(response@.body)
            &&& gunzip_of(r@.body) == response@.body
            &&& r@.headers.contains((lit("Content-Encoding"), lit("gzip")))
        },
        !wants_gzip(request@) ==> r@ == response@,
{
    if !wants_gzip_exec(request) {
        return response;
    }
    proof {
        reveal_strlit("Content-Encoding");
        assert(is_ascii("Content-Encoding"));
        reveal_strlit("gzip");
        assert(is_ascii("gzip"));
    }
    let mut response = response;
    let ghost plain = response@;
    response.headers.push((ascii_bytes("Content-Encoding"), ascii_bytes("gzip")));
    let ghost pushed = kv_views(response.headers@);
    proof {
        assert(pushed =~= plain.headers.push((lit("Content-Encoding"), lit("gzip"))));
    }
    let zipped = gzip_compress(response.body.as_slice());
    let length = dec_exec(zipped.len() as u64);
    response.body = zipped;
    response.set_content_length_exec(length);
    proof {
        let ghost ce = (lit("Content-Encoding"), lit("gzip"));
        let ghost ce_at = pushed.len() - 1;
        let ghost i = header_index(pushed, lit("content-length"));
        lemma_header_index_match(pushed, lit("content-length"));
        if 0 <= i < pushed.len() {
            reveal_strlit("content-length");
            reveal_strlit("Content-Encoding");
            assert(is_ascii("content-length"));
            assert(is_ascii("Content-Encoding"));
            vstd::string::is_ascii_spec_bytes("content-length");
            vstd::string::is_ascii_spec_bytes("Content-Encoding");
            assert(lit("content-length").len() == 14);
            assert(lower(lit("Content-Encoding")).len() == 16);
            assert(i != ce_at);
            assert(response@.headers[ce_at] == ce);
        } else {
            assert(response@.headers[ce_at] == ce);
        }
        assert(response@.headers.contains(ce));
    }
    response
}

/// The wire bytes the connection handler sends for a routed response:
/// content-encoding negotiation against the request, then serialization.
pub fn finish(request: &Request, response: Response) -> (r: Vec<u8>)
    ensures
        r@ == resp_bytes(negotiate(request@, response@)),
{
    let negotiated = apply_encoding(request, response);
    negotiated.to_bytes()
}

} // verus!
