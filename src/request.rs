//! HTTP request parsing.
//!
//! A request is read line by line: the request line, then header lines up to
//! a blank line (or the end of input), then, when `Content-Length` is given,
//! exactly that many body bytes. Header names are case-sensitive and the last
//! occurrence of a name wins; folded headers are not supported.
use vstd::prelude::*;
use vstd::utf8::*;
use crate::headers::HeaderMap;
use crate::percent::{decode_path, percent_decode_bytes};
use crate::response::content_length_name;
use crate::text::{
    chars_of, digits_value, parse_usize, parses_as_usize, split_words, string_from_utf8, string_of,
    trim, trim_chars, unsigned_digits, words,
};

verus! {

#[derive(Debug, Clone, Copy, PartialEq, Eq, Structural)]
pub enum HttpRequestError {
    InvalidRequestLine,
    InvalidPathEncoding,
    InvalidHeader,
    InvalidBody,
}

pub struct HttpRequest {
    pub method: String,
    /// The percent-decoded request path.
    pub path: String,
    pub version: String,
    pub headers: HeaderMap,
    pub body: String,
}

/// What a request holds, as plain values.
pub struct RequestModel {
    pub method: Seq<char>,
    pub path: Seq<char>,
    pub version: Seq<char>,
    pub headers: Map<Seq<char>, Seq<char>>,
    pub body: Seq<char>,
}

/// Method, decoded path and version of a request line, or why it is refused.
pub open spec fn request_line_spec(line: Seq<char>) -> Result<
    (Seq<char>, Seq<char>, Seq<char>),
    HttpRequestError,
> {
    let w = words(line);
    if w.len() != 3 {
        Err(HttpRequestError::InvalidRequestLine)
    } else {
        let d = percent_decode_bytes(encode_utf8(w[1]));
        if !valid_utf8(d) {
            Err(HttpRequestError::InvalidPathEncoding)
        } else {
            Ok((w[0], decode_utf8(d), w[2]))
        }
    }
}

/// `": "` starts at `i` in `t`.
pub open spec fn sep_at(t: Seq<char>, i: int) -> bool {
    0 <= i && i + 1 < t.len() && t[i] == ':' && t[i + 1] == ' '
}

/// Name and value of a trimmed header line: defined when `": "` occurs in it
/// exactly once, that is when splitting on `": "` gives exactly two parts.
pub open spec fn header_fields(t: Seq<char>) -> Option<(Seq<char>, Seq<char>)> {
    if exists|i: int| sep_at(t, i) && forall|j: int| sep_at(t, j) ==> j == i {
        let i = choose|i: int| sep_at(t, i) && forall|j: int| sep_at(t, j) ==> j == i;
        Some((t.subrange(0, i), t.subrange(i + 2, t.len() as int)))
    } else {
        None
    }
}

/// The position just after the first line feed at or after `p`, or the end.
pub open spec fn line_end(d: Seq<u8>, p: int) -> int
    decreases d.len() - p,
{
    if p >= d.len() {
        d.len() as int
    } else if d[p] == 10 {
        p + 1
    } else {
        line_end(d, p + 1)
    }
}

/// Reads header lines from `p` on into `hs`: the headers and the position
/// after the blank line (or the end of input), or why a line is refused.
pub open spec fn read_headers(d: Seq<u8>, p: int, hs: Map<Seq<char>, Seq<char>>) -> Result<
    (Map<Seq<char>, Seq<char>>, int),
    HttpRequestError,
>
    decreases d.len() - p,
    via read_headers_decreases
{
    if p < 0 || p >= d.len() {
        Ok((hs, p))
    } else {
        let e = line_end(d, p);
        let line = d.subrange(p, e);
        if !valid_utf8(line) {
            Err(HttpRequestError::InvalidHeader)
        } else {
            let t = trim(decode_utf8(line));
            if t.len() == 0 {
                Ok((hs, e))
            } else {
                match header_fields(t) {
                    None => Err(HttpRequestError::InvalidHeader),
                    Some((k, v)) => read_headers(d, e, hs.insert(k, v)),
                }
            }
        }
    }
}

#[via_fn]
proof fn read_headers_decreases(d: Seq<u8>, p: int, hs: Map<Seq<char>, Seq<char>>) {
    if 0 <= p < d.len() {
        lemma_line_end(d, p);
    }
}

pub proof fn lemma_line_end(d: Seq<u8>, p: int)
    requires
        0 <= p <= d.len(),
    ensures
        p <= line_end(d, p) <= d.len(),
        p < d.len() ==> p < line_end(d, p),
    decreases d.len() - p,
{
    if p < d.len() && d[p] != 10 {
        lemma_line_end(d, p + 1);
    }
}

/// The body read for a declared length `n` from the bytes `rest` that follow
/// the headers: the first `n` of them, padded with zero bytes where the
/// input ends early.
pub open spec fn body_bytes(rest: Seq<u8>, n: nat) -> Seq<u8> {
    Seq::new(n, |i: int| if i < rest.len() { rest[i] } else { 0u8 })
}

/// The declared body length, if a `Content-Length` header is present.
pub open spec fn declared_length(hs: Map<Seq<char>, Seq<char>>) -> Result<
    Option<nat>,
    HttpRequestError,
> {
    if !hs.contains_key(content_length_name()) {
        Ok(None)
    } else if !parses_as_usize(hs[content_length_name()]) {
        Err(HttpRequestError::InvalidHeader)
    } else {
        Ok(Some(digits_value(unsigned_digits(hs[content_length_name()]))))
    }
}

/// The request that the bytes `d` hold, or why they are refused.
pub open spec fn parse_spec(d: Seq<u8>) -> Result<RequestModel, HttpRequestError> {
    let e0 = line_end(d, 0);
    let l0 = d.subrange(0, e0);
    if !valid_utf8(l0) {
        Err(HttpRequestError::InvalidRequestLine)
    } else {
        match request_line_spec(decode_utf8(l0)) {
            Err(x) => Err(x),
            Ok((m, p, v)) => match read_headers(d, e0, Map::empty()) {
                Err(x) => Err(x),
                Ok((hs, q)) => match declared_length(hs) {
                    Err(x) => Err(x),
                    Ok(None) => Ok(
                        RequestModel { method: m, path: p, version: v, headers: hs, body: seq![] },
                    ),
                    Ok(Some(n)) => {
                        let b = body_bytes(d.subrange(q, d.len() as int), n);
                        if !valid_utf8(b) {
                            Err(HttpRequestError::InvalidBody)
                        } else {
                            Ok(
                                RequestModel {
                                    method: m,
                                    path: p,
                                    version: v,
                                    headers: hs,
                                    body: decode_utf8(b),
                                },
                            )
                        }
                    },
                },
            },
        }
    }
}

/// Splits a trimmed header line on `": "`.
pub fn split_header(t: &Vec<char>) -> (r: Option<(Vec<char>, Vec<char>)>)
    ensures
        r is None <==> header_fields(t@) is None,
        r matches Some((k, v)) ==> header_fields(t@) == Some((k@, v@)),
{
    let n = t.len();
    let mut first: Option<usize> = None;
    let mut i: usize = 0;
    while i < n && i + 1 < n
        invariant
            n == t@.len(),
            i <= n,
            first matches None ==> forall|j: int| 0 <= j < i ==> !sep_at(t@, j),
            first matches Some(f) ==> f < i && sep_at(t@, f as int) && forall|j: int|
                0 <= j < i && j != f ==> !sep_at(t@, j),
        decreases n - i,
    {
        if t[i] == ':' && t[i + 1] == ' ' {
            if let Some(f) = first {
                assert(sep_at(t@, i as int) && sep_at(t@, f as int) && i != f);
                assert(header_fields(t@) is None);
                return None;
            }
            first = Some(i);
        }
        i += 1;
    }
    match first {
        None => {
            assert(header_fields(t@) is None);
            None
        },
        Some(f) => {
            assert(forall|j: int| sep_at(t@, j) ==> j == f);
            let mut k: Vec<char> = Vec::new();
            let mut a: usize = 0;
            while a < f
                invariant
                    f < n,
                    n == t@.len(),
                    a <= f,
                    k@ =~= t@.subrange(0, a as int),
                decreases f - a,
            {
                k.push(t[a]);
                a += 1;
            }
            let mut v: Vec<char> = Vec::new();
            let mut b: usize = f + 2;
            while b < n
                invariant
                    f + 2 <= b <= n,
                    n == t@.len(),
                    v@ =~= t@.subrange(f + 2, b as int),
                decreases n - b,
            {
                v.push(t[b]);
                b += 1;
            }
            Some((k, v))
        },
    }
}

impl HttpRequest {
    pub open spec fn view(&self) -> RequestModel {
        RequestModel {
            method: self.method@,
            path: self.path@,
            version: self.version@,
            headers: self.headers@,
            body: self.body@,
        }
    }

    pub fn new() -> (r: HttpRequest)
        ensures
            r.method@.len() == 0,
            r.path@.len() == 0,
            r.version@.len() == 0,
            r.headers@ == Map::<Seq<char>, Seq<char>>::empty(),
            r.body@.len() == 0,
    {
        HttpRequest {
            method: String::new(),
            path: String::new(),
            version: String::new(),
            headers: HeaderMap::new(),
            body: String::new(),
        }
    }

    /// A request from its request line (as read, line end included), with no
    /// headers and an empty body yet. The line must hold exactly three
    /// whitespace-separated words, and the path must percent-decode to UTF-8.
    pub fn from_request_line(line: &str) -> (r: Result<HttpRequest, HttpRequestError>)
        ensures
            r is Err && r->Err_0 == HttpRequestError::InvalidRequestLine <==> words(line@).len()
                != 3,
            r is Err <==> request_line_spec(line@) is Err,
            r matches Err(e) ==> request_line_spec(line@) == Err::<
                (Seq<char>, Seq<char>, Seq<char>),
                HttpRequestError,
            >(e),
            r matches Ok(q) ==> {
                &&& request_line_spec(line@) == Ok::<_, HttpRequestError>(
                    (q.method@, q.path@, q.version@),
                )
                &&& q.headers@ == Map::<Seq<char>, Seq<char>>::empty()
                &&& q.body@.len() == 0
            },
    {
        let cs = chars_of(line);
        let ws = split_words(&cs);
        if ws.len() != 3 {
            return Err(HttpRequestError::InvalidRequestLine);
        }
        assert(ws@[1]@ == words(line@)[1]);
        let raw = string_of(&ws[1]);
        match decode_path(raw.as_str()) {
            None => Err(HttpRequestError::InvalidPathEncoding),
            Some(path) => {
                let mut req = HttpRequest::new();
                req.method = string_of(&ws[0]);
                req.path = path;
                req.version = string_of(&ws[2]);
                assert(ws@[0]@ == words(line@)[0]);
                assert(ws@[2]@ == words(line@)[2]);
                Ok(req)
            },
        }
    }

    /// Takes one header line (as read, line end included). A line that is
    /// blank once trimmed ends the header block: `Ok(false)`, nothing
    /// changed. Any other line must hold `": "` exactly once; its name and
    /// value are stored, replacing an earlier value of the same name.
    pub fn add_header_line(&mut self, line: &str) -> (r: Result<bool, HttpRequestError>)
        ensures
            final(self).method == old(self).method,
            final(self).path == old(self).path,
            final(self).version == old(self).version,
            final(self).body == old(self).body,
            trim(line@).len() == 0 ==> r == Ok::<bool, HttpRequestError>(false)
                && final(self)@ == old(self)@,
            trim(line@).len() > 0 && header_fields(trim(line@)) is None ==> r == Err::<
                bool,
                HttpRequestError,
            >(HttpRequestError::InvalidHeader) && final(self)@ == old(self)@,
            trim(line@).len() > 0 && header_fields(trim(line@)) is Some ==> {
                let (k, v) = header_fields(trim(line@))->Some_0;
                &&& r == Ok::<bool, HttpRequestError>(true)
                &&& final(self).headers@ == old(self).headers@.insert(k, v)
            },
    {
        let cs = chars_of(line);
        let t = trim_chars(&cs);
        if t.len() == 0 {
            return Ok(false);
        }
        match split_header(&t) {
            None => Err(HttpRequestError::InvalidHeader),
            Some((k, v)) => {
                let ks = string_of(&k);
                let vs = string_of(&v);
                self.headers.insert(ks, vs);
                Ok(true)
            },
        }
    }

    /// The body length that the `Content-Length` header declares.
    pub fn content_length(&self) -> (r: Result<Option<usize>, HttpRequestError>)
        ensures
            r is Err <==> declared_length(self.headers@) is Err,
            r matches Err(e) ==> e == HttpRequestError::InvalidHeader,
            r matches Ok(None) ==> declared_length(self.headers@) == Ok::<
                Option<nat>,
                HttpRequestError,
            >(None),
            r matches Ok(Some(n)) ==> declared_length(self.headers@) == Ok::<
                Option<nat>,
                HttpRequestError,
            >(Some(n as nat)),
    {
        let name = "Content-Length".to_owned();
        match self.headers.get(&name) {
            None => Ok(None),
            Some(v) => {
                let cs = chars_of(v.as_str());
                match parse_usize(&cs) {
                    None => Err(HttpRequestError::InvalidHeader),
                    Some(n) => Ok(Some(n)),
                }
            },
        }
    }

    /// Sets the body from the bytes read for it, which must be UTF-8.
    pub fn set_body(&mut self, bytes: Vec<u8>) -> (r: Result<(), HttpRequestError>)
        ensures
            final(self).method == old(self).method,
            final(self).path == old(self).path,
            final(self).version == old(self).version,
            final(self).headers == old(self).headers,
            r is Ok <==> valid_utf8(bytes@),
            r matches Err(e) ==> e == HttpRequestError::InvalidBody
                && final(self).body == old(self).body,
            r is Ok ==> final(self).body@ == decode_utf8(bytes@),
    {
        match string_from_utf8(bytes) {
            None => Err(HttpRequestError::InvalidBody),
            Some(s) => {
                self.body = s;
                Ok(())
            },
        }
    }
}

/// The end of the line that starts at `p`: just after its line feed, or the
/// end of input.
fn next_line_end(d: &[u8], p: usize) -> (r: usize)
    requires
        p <= d@.len(),
    ensures
        r == line_end(d@, p as int),
{
    let n = d.len();
    let mut i: usize = p;
    while i < n && d[i] != 10
        invariant
            p <= i <= n,
            n == d@.len(),
            line_end(d@, p as int) == line_end(d@, i as int),
        decreases n - i,
    {
        i += 1;
    }
    if i < n {
        i + 1
    } else {
        i
    }
}

/// The bytes `d[a..b]`.
fn copy_range(d: &[u8], a: usize, b: usize) -> (r: Vec<u8>)
    requires
        a <= b <= d@.len(),
    ensures
        r@ == d@.subrange(a as int, b as int),
{
    let mut out: Vec<u8> = Vec::new();
    let mut i: usize = a;
    while i < b
        invariant
            a <= i <= b <= d@.len(),
            out@ =~= d@.subrange(a as int, i as int),
        decreases b - i,
    {
        out.push(d[i]);
        i += 1;
    }
    out
}

/// The `n` body bytes that follow position `q`, zero-padded where input ends.
fn take_body(d: &[u8], q: usize, n: usize) -> (r: Vec<u8>)
    requires
        q <= d@.len(),
    ensures
        r@ == body_bytes(d@.subrange(q as int, d@.len() as int), n as nat),
{
    let ghost rest = d@.subrange(q as int, d@.len() as int);
    let total = d.len();
    let avail = total - q;
    let m = if n < avail { n } else { avail };
    let mut out: Vec<u8> = vec![0u8; n];
    let mut i: usize = 0;
    while i < m
        invariant
            m <= n,
            m <= avail,
            avail == rest.len(),
            total == d@.len(),
            q + avail == total,
            rest == d@.subrange(q as int, d@.len() as int),
            i <= m,
            out@.len() == n,
            forall|j: int| 0 <= j < n ==> #[trigger] out@[j] == (if j < i { rest[j] } else { 0u8 }),
        decreases m - i,
    {
        out.set(i, d[q + i]);
        i += 1;
    }
    assert(out@ =~= body_bytes(rest, n as nat));
    out
}

impl HttpRequest {
    /// Parses a whole request from the bytes of the input stream.
    pub fn try_from_bytes(data: &[u8]) -> (r: Result<HttpRequest, HttpRequestError>)
        ensures
            r is Ok <==> parse_spec(data@) is Ok,
            r matches Err(e) ==> parse_spec(data@) == Err::<RequestModel, HttpRequestError>(e),
            r matches Ok(q) ==> parse_spec(data@) == Ok::<
                RequestModel,
                HttpRequestError,
            >(q@),
    {
        let ghost d = data@;
        let n = data.len();
        let e0 = next_line_end(data, 0);
        proof {
            lemma_line_end(d, 0);
        }
        let l0 = copy_range(data, 0, e0);
        let s0 = match string_from_utf8(l0) {
            None => return Err(HttpRequestError::InvalidRequestLine),
            Some(s) => s,
        };
        let mut req = match Self::from_request_line(s0.as_str()) {
            Err(x) => return Err(x),
            Ok(q) => q,
        };
        let ghost m = req.method@;
        let ghost pa = req.path@;
        let ghost v = req.version@;
        let mut p: usize = e0;
        assert(req.headers@ =~= Map::<Seq<char>, Seq<char>>::empty());
        loop
            invariant_except_break
                read_headers(d, e0 as int, Map::empty()) == read_headers(d, p as int, req.headers@),
            invariant
                p <= n,
                n == d.len(),
                d == data@,
                e0 == line_end(d, 0),
                e0 <= n,
                valid_utf8(d.subrange(0, e0 as int)),
                request_line_spec(decode_utf8(d.subrange(0, e0 as int))) == Ok::<
                    (Seq<char>, Seq<char>, Seq<char>),
                    HttpRequestError,
                >((m, pa, v)),
                req.method@ == m,
                req.path@ == pa,
                req.version@ == v,
                req.body@.len() == 0,
            ensures
                read_headers(d, e0 as int, Map::empty()) == Ok::<
                    (Map<Seq<char>, Seq<char>>, int),
                    HttpRequestError,
                >((req.headers@, p as int)),
            decreases n - p,
        {
            if p >= n {
                break ;
            }
            let e = next_line_end(data, p);
            proof {
                lemma_line_end(d, p as int);
            }
            let line = copy_range(data, p, e);
            let s = match string_from_utf8(line) {
                None => return Err(HttpRequestError::InvalidHeader),
                Some(s) => s,
            };
            match req.add_header_line(s.as_str()) {
                Err(x) => return Err(x),
                Ok(false) => {
                    p = e;
                    break ;
                },
                Ok(true) => {
                    p = e;
                },
            }
        }
        assert(read_headers(d, e0 as int, Map::empty()) == Ok::<
            (Map<Seq<char>, Seq<char>>, int),
            HttpRequestError,
        >((req.headers@, p as int)));
        match req.content_length() {
            Err(x) => Err(x),
            Ok(None) => {
                assert(req.body@ =~= Seq::<char>::empty());
                assert(req@ == parse_spec(d)->Ok_0);
                Ok(req)
            },
            Ok(Some(len)) => {
                let bytes = take_body(data, p, len);
                match req.set_body(bytes) {
                    Err(x) => Err(x),
                    Ok(()) => {
                        assert(req@ == parse_spec(d)->Ok_0);
                        Ok(req)
                    },
                }
            },
        }
    }
}

/// However many bytes follow the headers, a declared length of `n` with at
/// least `n` bytes present gives exactly those first `n` bytes as the body.
pub proof fn lemma_body_exact_length(rest: Seq<u8>, extra: Seq<u8>, n: nat)
    requires
        rest.len() >= n,
    ensures
        body_bytes(rest, n) == rest.subrange(0, n as int),
        body_bytes(rest + extra, n) == body_bytes(rest, n),
        body_bytes(rest, n).len() == n,
{
    assert(body_bytes(rest, n) =~= rest.subrange(0, n as int));
    assert(body_bytes(rest + extra, n) =~= body_bytes(rest, n));
}

} // verus!
