//! The structured response and its byte-exact serialization: status line,
//! headers in insertion order, a blank line, then the body appended as
//! opaque bytes.
use vstd::prelude::*;
use vstd::string::is_ascii;

use crate::bytes::append_bytes;
use crate::bytes::ascii_bytes;
use crate::bytes::dec;
use crate::bytes::dec_exec;
use crate::bytes::lit;
use crate::request::crlf;
use crate::request::hsep;
use crate::request::kv_views;

verus! {

/// The view of a response.
pub ghost struct RespV {
    pub status_code: u16,
    pub status_text: Seq<u8>,
    pub headers: Seq<(Seq<u8>, Seq<u8>)>,
    pub body: Seq<u8>,
}

/// A structured response: status code and text, header pairs in insertion
/// order, and the body bytes.
pub struct Response {
    pub status_code: u16,
    pub status_text: Vec<u8>,
    pub headers: Vec<(Vec<u8>, Vec<u8>)>,
    pub body: Vec<u8>,
}

impl View for Response {
    type V = RespV;

    open spec fn view(&self) -> RespV {
        RespV {
            status_code: self.status_code,
            status_text: self.status_text@,
            headers: kv_views(self.headers@),
            body: self.body@,
        }
    }
}

/// The serialized form of the headers: each key, the separator, the value
/// and a line break, in insertion order.
pub open spec fn headers_bytes(hs: Seq<(Seq<u8>, Seq<u8>)>) -> Seq<u8>
    decreases hs.len(),
{
    if hs.len() == 0 {
        Seq::empty()
    } else {
        headers_bytes(hs.drop_last()) + hs.last().0 + hsep() + hs.last().1 + crlf()
    }
}

/// The wire bytes of a response: the HTTP/1.1 status line, the serialized
/// headers, a blank line, then the body bytes unchanged.
pub open spec fn resp_bytes(r: RespV) -> Seq<u8> {
    lit("HTTP/1.1 ") + dec(r.status_code as nat) + seq![32u8] + r.status_text + crlf()
        + headers_bytes(r.headers) + crlf() + r.body
}

impl Response {
    /// Serialize the response to its wire bytes.
    pub fn to_bytes(&self) -> (r: Vec<u8>)
        ensures
            r@ == resp_bytes(self@),
    {
        proof {
            reveal_strlit("HTTP/1.1 ");
            assert(is_ascii("HTTP/1.1 "));
        }
        let mut out = ascii_bytes("HTTP/1.1 ");
        let code = dec_exec(self.status_code as u64);
        append_bytes(&mut out, code.as_slice());
        out.push(32);
        append_bytes(&mut out, self.status_text.as_slice());
        out.push(13);
        out.push(10);
        let ghost before_headers = out@;
        proof {
            assert(before_headers =~= lit("HTTP/1.1 ") + dec(self.status_code as nat)
                + seq![32u8] + self.status_text@ + crlf());
        }
        let mut i: usize = 0;
        proof {
            assert(kv_views(self.headers@).take(0) =~= Seq::<(Seq<u8>, Seq<u8>)>::empty());
            assert(out@ =~= before_headers + headers_bytes(kv_views(self.headers@).take(0)));
        }
        while i < self.headers.len()
            invariant
                i <= self.headers@.len(),
                before_headers == lit("HTTP/1.1 ") + dec(self@.status_code as nat)
                    + seq![32u8] + self@.status_text + crlf(),
                out@ == before_headers + headers_bytes(kv_views(self.headers@).take(i as int)),
            decreases self.headers@.len() - i,
        {
            append_bytes(&mut out, self.headers[i].0.as_slice());
            out.push(58);
            out.push(32);
            append_bytes(&mut out, self.headers[i].1.as_slice());
            out.push(13);
            out.push(10);
            proof {
                let pre = kv_views(self.headers@).take(i as int);
                let ext = kv_views(self.headers@).take(i + 1);
                assert(ext.drop_last() =~= pre);
                assert(ext.last() == (self.headers@[i as int].0@, self.headers@[i as int].1@));
                assert(out@ =~= before_headers + headers_bytes(ext));
            }
            i += 1;
        }
        proof {
            assert(kv_views(self.headers@).take(self.headers@.len() as int) =~= kv_views(
                self.headers@,
            ));
        }
        out.push(13);
        out.push(10);
        append_bytes(&mut out, self.body.as_slice());
        proof {
            assert(out@ =~= resp_bytes(self@));
        }
        out
    }
}

} // verus!
