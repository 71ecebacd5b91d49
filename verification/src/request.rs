//! Parsing a bounded raw read buffer into a structured request: lossy UTF-8
//! decoding, CRLF line splitting, request-line tokens, path segments, header
//! classification and body assembly, with trailing read-padding stripped.
use vstd::prelude::*;

use crate::bytes::append_bytes;
use crate::bytes::find_at;
use crate::bytes::find_sep;
use crate::bytes::split;
use crate::bytes::split_bytes;
use crate::bytes::subrange_to_vec;
use crate::bytes::trim;
use crate::bytes::trim_exec;
use crate::bytes::views;

verus! {

/// The carriage-return/line-feed line separator.
pub open spec fn crlf() -> Seq<u8> {
    seq![13u8, 10u8]
}

/// The header separator: a colon followed by a space.
pub open spec fn hsep() -> Seq<u8> {
    seq![58u8, 32u8]
}

/// What `String::from_utf8_lossy` returns for the given bytes, re-encoded
/// as UTF-8 bytes: invalid sequences replaced, valid ones kept.
pub uninterp spec fn lossy_of(b: Seq<u8>) -> Seq<u8>;

/// Relies on `String::from_utf8_lossy`: the result is a function of the
/// input bytes alone, and input that is already valid UTF-8 — in particular,
/// pure ASCII input — comes back unchanged.
#[verifier::external_body]
fn lossy_decode(buf: &[u8]) -> (r: Vec<u8>)
    ensures
        r@ == lossy_of(buf@),
        (forall|i: int| 0 <= i < buf@.len() ==> buf@[i] < 128) ==> r@ == buf@,
{
    String::from_utf8_lossy(buf).into_owned().into_bytes()
}

/// Lines that are not blank once trimmed, in order.
pub open spec fn nonblank(lines: Seq<Seq<u8>>) -> Seq<Seq<u8>>
    decreases lines.len(),
{
    if lines.len() == 0 {
        Seq::empty()
    } else if trim(lines.last()).len() == 0 {
        nonblank(lines.drop_last())
    } else {
        nonblank(lines.drop_last()).push(lines.last())
    }
}

/// Segments that are not empty, in order.
pub open spec fn nonempty(parts: Seq<Seq<u8>>) -> Seq<Seq<u8>>
    decreases parts.len(),
{
    if parts.len() == 0 {
        Seq::empty()
    } else if parts.last().len() == 0 {
        nonempty(parts.drop_last())
    } else {
        nonempty(parts.drop_last()).push(parts.last())
    }
}

/// True when the line carries the header separator and so is a header line.
pub open spec fn is_header_line(l: Seq<u8>) -> bool {
    find_at(l, hsep()) >= 0
}

/// Key and value of a header line: the bytes before the first separator,
/// and the bytes after it.
pub open spec fn header_kv(l: Seq<u8>) -> (Seq<u8>, Seq<u8>) {
    let i = find_at(l, hsep());
    (l.take(i), l.skip(i + 2))
}

/// The header key/value pairs among the given lines, in order.
pub open spec fn headers_of(lines: Seq<Seq<u8>>) -> Seq<(Seq<u8>, Seq<u8>)>
    decreases lines.len(),
{
    if lines.len() == 0 {
        Seq::empty()
    } else if is_header_line(lines.last()) {
        headers_of(lines.drop_last()).push(header_kv(lines.last()))
    } else {
        headers_of(lines.drop_last())
    }
}

/// The concatenated bytes of the lines that are not header lines, in order.
pub open spec fn body_of(lines: Seq<Seq<u8>>) -> Seq<u8>
    decreases lines.len(),
{
    if lines.len() == 0 {
        Seq::empty()
    } else if is_header_line(lines.last()) {
        body_of(lines.drop_last())
    } else {
        body_of(lines.drop_last()) + lines.last()
    }
}

/// The sequence with trailing zero bytes removed.
pub open spec fn strip_zeros(s: Seq<u8>) -> Seq<u8>
    decreases s.len(),
{
    if s.len() > 0 && s.last() == 0 {
        strip_zeros(s.drop_last())
    } else {
        s
    }
}

/// The view of a parsed request.
pub ghost struct ReqV {
    pub method: Seq<u8>,
    pub path: Seq<u8>,
    pub parts: Seq<Seq<u8>>,
    pub headers: Seq<(Seq<u8>, Seq<u8>)>,
    pub body: Seq<u8>,
}

/// What parsing the (already decoded) text of a read buffer yields: `None`
/// when the request line has fewer than two space-separated tokens.
pub open spec fn parse(b: Seq<u8>) -> Option<ReqV> {
    let lines = nonblank(split(trim(b), crlf()));
    if lines.len() == 0 {
        None
    } else {
        let toks = split(lines[0], seq![32u8]);
        if toks.len() < 2 {
            None
        } else {
            Some(
                ReqV {
                    method: toks[0],
                    path: toks[1],
                    parts: nonempty(split(toks[1], seq![47u8])),
                    headers: headers_of(lines.skip(1)),
                    body: strip_zeros(body_of(lines.skip(1))),
                },
            )
        }
    }
}

/// The views of a vector of header pairs.
pub open spec fn kv_views(s: Seq<(Vec<u8>, Vec<u8>)>) -> Seq<(Seq<u8>, Seq<u8>)> {
    s.map_values(|p: (Vec<u8>, Vec<u8>)| (p.0@, p.1@))
}

/// A structured request: method and path tokens, path split into non-empty
/// segments, header pairs in order, and the body bytes.
pub struct Request {
    pub method: Vec<u8>,
    pub path: Vec<u8>,
    pub path_parts: Vec<Vec<u8>>,
    pub headers: Vec<(Vec<u8>, Vec<u8>)>,
    pub body: Vec<u8>,
}

impl View for Request {
    type V = ReqV;

    open spec fn view(&self) -> ReqV {
        ReqV {
            method: self.method@,
            path: self.path@,
            parts: views(self.path_parts@),
            headers: kv_views(self.headers@),
            body: self.body@,
        }
    }
}

/// Drop the lines that are blank once trimmed.
fn nonblank_exec(lines: &Vec<Vec<u8>>) -> (r: Vec<Vec<u8>>)
    ensures
        views(r@) == nonblank(views(lines@)),
{
    let mut r: Vec<Vec<u8>> = Vec::new();
    let mut i: usize = 0;
    proof {
        assert(views(lines@).take(0) =~= Seq::<Seq<u8>>::empty());
        assert(views(r@) =~= Seq::<Seq<u8>>::empty());
    }
    while i < lines.len()
        invariant
            i <= lines@.len(),
            views(r@) == nonblank(views(lines@).take(i as int)),
        decreases lines@.len() - i,
    {
        let t = trim_exec(lines[i].as_slice());
        proof {
            let pre = views(lines@).take(i as int);
            let ext = views(lines@).take(i + 1);
            assert(ext.drop_last() =~= pre);
            assert(ext.last() == lines@[i as int]@);
        }
        if t.len() > 0 {
            let kept = subrange_to_vec(lines[i].as_slice(), 0, lines[i].len());
            proof {
                assert(kept@ =~= lines@[i as int]@);
                crate::bytes::lemma_views_push(r@, kept);
            }
            r.push(kept);
        }
        i += 1;
    }
    proof {
        assert(views(lines@).take(lines@.len() as int) =~= views(lines@));
    }
    r
}

/// Drop the empty segments.
fn nonempty_exec(parts: &Vec<Vec<u8>>) -> (r: Vec<Vec<u8>>)
    ensures
        views(r@) == nonempty(views(parts@)),
{
    let mut r: Vec<Vec<u8>> = Vec::new();
    let mut i: usize = 0;
    proof {
        assert(views(parts@).take(0) =~= Seq::<Seq<u8>>::empty());
        assert(views(r@) =~= Seq::<Seq<u8>>::empty());
    }
    while i < parts.len()
        invariant
            i <= parts@.len(),
            views(r@) == nonempty(views(parts@).take(i as int)),
        decreases parts@.len() - i,
    {
        proof {
            let pre = views(parts@).take(i as int);
            let ext = views(parts@).take(i + 1);
            assert(ext.drop_last() =~= pre);
            assert(ext.last() == parts@[i as int]@);
        }
        if parts[i].len() > 0 {
            let kept = subrange_to_vec(parts[i].as_slice(), 0, parts[i].len());
            proof {
                assert(kept@ =~= parts@[i as int]@);
                crate::bytes::lemma_views_push(r@, kept);
            }
            r.push(kept);
        }
        i += 1;
    }
    proof {
        assert(views(parts@).take(parts@.len() as int) =~= views(parts@));
    }
    r
}

/// Classify the lines after the request line into header pairs and body
/// bytes.
fn classify_lines(lines: &Vec<Vec<u8>>, from: usize) -> (r: (Vec<(Vec<u8>, Vec<u8>)>, Vec<u8>))
    requires
        from <= lines@.len(),
    ensures
        kv_views(r.0@) == headers_of(views(lines@).skip(from as int)),
        r.1@ == body_of(views(lines@).skip(from as int)),
{
    let mut headers: Vec<(Vec<u8>, Vec<u8>)> = Vec::new();
    let mut body: Vec<u8> = Vec::new();
    let mut i: usize = from;
    let ghost tail = views(lines@).skip(from as int);
    proof {
        assert(tail.take(0) =~= Seq::<Seq<u8>>::empty());
        assert(kv_views(headers@) =~= Seq::<(Seq<u8>, Seq<u8>)>::empty());
        assert(body@ =~= Seq::<u8>::empty());
    }
    while i < lines.len()
        invariant
            from <= i <= lines@.len(),
            tail == views(lines@).skip(from as int),
            kv_views(headers@) == headers_of(tail.take(i - from)),
            body@ == body_of(tail.take(i - from)),
        decreases lines@.len() - i,
    {
        let line = &lines[i];
        proof {
            let pre = tail.take(i - from);
            let ext = tail.take(i + 1 - from);
            assert(ext.drop_last() =~= pre);
            assert(ext.last() == lines@[i as int]@);
        }
        let mut sep: Vec<u8> = Vec::new();
        sep.push(58);
        sep.push(32);
        proof {
            assert(sep@ =~= hsep());
        }
        let found = find_sep(line.as_slice(), 0, sep.as_slice());
        proof {
            assert(line@.skip(0) =~= line@);
        }
        match found {
            Some(p) => {
                let ll = line.len();
                assert(p + 2 <= ll);
                let key = subrange_to_vec(line.as_slice(), 0, p);
                let val = subrange_to_vec(line.as_slice(), p + 2, ll);
                proof {
                    let l = lines@[i as int]@;
                    assert(is_header_line(l));
                    assert(key@ =~= header_kv(l).0);
                    assert(l.skip(find_at(l, hsep()) + 2) =~= l.subrange(p + 2, l.len() as int));
                    assert(val@ =~= header_kv(l).1);
                    assert(kv_views(headers@.push((key, val))) =~= kv_views(headers@).push(
                        header_kv(l),
                    ));
                }
                headers.push((key, val));
            },
            None => {
                append_bytes(&mut body, line.as_slice());
                proof {
                    assert(!is_header_line(lines@[i as int]@));
                }
            },
        }
        i += 1;
    }
    proof {
        assert(tail.take(lines@.len() - from) =~= tail);
    }
    (headers, body)
}

impl Request {
    /// Parse one raw read buffer. Returns `None` when the request line has
    /// fewer than two space-separated tokens (no method or no path), the
    /// structured error for a malformed request. For pure-ASCII input the
    /// decoding step is the identity, so the result is `parse` of the
    /// buffer itself.
    pub fn new(buf: &[u8]) -> (r: Option<Request>)
        ensures
            match r {
                Some(req) => parse(lossy_of(buf@)) == Some(req@),
                None => parse(lossy_of(buf@)) is None,
            },
            (forall|i: int| 0 <= i < buf@.len() ==> buf@[i] < 128) ==> match r {
                Some(req) => parse(buf@) == Some(req@),
                None => parse(buf@) is None,
            },
    {
        let decoded = lossy_decode(buf);
        let trimmed = trim_exec(decoded.as_slice());
        let mut crlf_sep: Vec<u8> = Vec::new();
        crlf_sep.push(13);
        crlf_sep.push(10);
        proof {
            assert(crlf_sep@ =~= crlf());
        }
        let raw_lines = split_bytes(trimmed.as_slice(), crlf_sep.as_slice());
        let lines = nonblank_exec(&raw_lines);
        if lines.len() == 0 {
            return None;
        }
        let mut space: Vec<u8> = Vec::new();
        space.push(32);
        proof {
            assert(space@ =~= seq![32u8]);
            assert(views(lines@)[0] == lines@[0]@);
        }
        let toks = split_bytes(lines[0].as_slice(), space.as_slice());
        if toks.len() < 2 {
            return None;
        }
        let method = subrange_to_vec(toks[0].as_slice(), 0, toks[0].len());
        let path = subrange_to_vec(toks[1].as_slice(), 0, toks[1].len());
        proof {
            assert(method@ =~= views(toks@)[0]);
            assert(path@ =~= views(toks@)[1]);
        }
        let mut slash: Vec<u8> = Vec::new();
        slash.push(47);
        proof {
            assert(slash@ =~= seq![47u8]);
        }
        let raw_parts = split_bytes(path.as_slice(), slash.as_slice());
        let path_parts = nonempty_exec(&raw_parts);
        let (headers, mut body) = classify_lines(&lines, 1);
        while body.len() > 0 && body[body.len() - 1] == 0
            invariant
                strip_zeros(body_of(views(lines@).skip(1))) == strip_zeros(body@),
            decreases body@.len(),
        {
            proof {
                assert(body@.drop_last() =~= body@.subrange(0, body@.len() - 1));
            }
            body.pop();
        }
        let req = Request { method, path, path_parts, headers, body };
        Some(req)
    }
}

} // verus!
