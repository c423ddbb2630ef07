//! HTTP responses and their wire form.
use vstd::prelude::*;
use vstd::utf8::*;
use crate::headers::HeaderMap;
use crate::text::{decimal, decimal_string};

verus! {

pub open spec fn http11() -> Seq<char> {
    "HTTP/1.1"@
}

pub open spec fn connection_name() -> Seq<char> {
    "Connection"@
}

pub open spec fn close_value() -> Seq<char> {
    "close"@
}

pub open spec fn content_type_name() -> Seq<char> {
    "Content-Type"@
}

pub open spec fn content_length_name() -> Seq<char> {
    "Content-Length"@
}

/// The three framing header names differ from one another.
pub proof fn lemma_header_names_distinct()
    ensures
        connection_name() != content_type_name(),
        connection_name() != content_length_name(),
        content_type_name() != content_length_name(),
{
    reveal_strlit("Connection");
    reveal_strlit("Content-Type");
    reveal_strlit("Content-Length");
    assert(connection_name().len() != content_type_name().len());
    assert(connection_name().len() != content_length_name().len());
    assert(content_type_name().len() != content_length_name().len());
}

/// The header lines `name: value\r\n`, in the order of the entries.
pub open spec fn header_lines(es: Seq<(Seq<char>, Seq<char>)>) -> Seq<u8>
    decreases es.len(),
{
    if es.len() == 0 {
        seq![]
    } else {
        header_lines(es.drop_last()) + encode_utf8(es.last().0) + seq![58u8, 32u8] + encode_utf8(
            es.last().1,
        ) + seq![13u8, 10u8]
    }
}

/// Status line, header lines, a blank line, then the body verbatim.
pub open spec fn wire(
    version: Seq<char>,
    code: Seq<char>,
    reason: Seq<char>,
    es: Seq<(Seq<char>, Seq<char>)>,
    body: Seq<u8>,
) -> Seq<u8> {
    encode_utf8(version) + seq![32u8] + encode_utf8(code) + seq![32u8] + encode_utf8(reason)
        + seq![13u8, 10u8] + header_lines(es) + seq![13u8, 10u8] + body
}

/// The headers that a response with this body and content type carries.
pub open spec fn framing_headers(content_type: Seq<char>, len: nat) -> Map<Seq<char>, Seq<char>> {
    map![
        content_type_name() => content_type,
        content_length_name() => decimal(len),
        connection_name() => close_value(),
    ]
}

pub struct HttpResponse {
    pub version: String,
    pub code: String,
    pub reason: String,
    pub headers: HeaderMap,
    pub body: Vec<u8>,
}

impl HttpResponse {
    /// A response ready to be sent: `Connection: close` is set, and a
    /// non-empty body comes with its content type and exact length.
    pub open spec fn wf(&self) -> bool {
        &&& self.headers@.contains_key(connection_name())
        &&& self.headers@[connection_name()] == close_value()
        &&& self.body@.len() > 0 ==> {
            &&& self.headers@.contains_key(content_type_name())
            &&& self.headers@.contains_key(content_length_name())
            &&& self.headers@[content_length_name()] == decimal(self.body@.len())
        }
    }

    /// A response with this status line and no body.
    pub open spec fn is_status(&self, code: Seq<char>, reason: Seq<char>) -> bool {
        &&& self.version@ == http11()
        &&& self.code@ == code
        &&& self.reason@ == reason
        &&& self.headers@ == map![connection_name() => close_value()]
        &&& self.body@.len() == 0
    }

    /// A response with this status line whose body is `body`, typed `content_type`.
    pub open spec fn is_content(
        &self,
        code: Seq<char>,
        reason: Seq<char>,
        content_type: Seq<char>,
        body: Seq<u8>,
    ) -> bool {
        &&& self.version@ == http11()
        &&& self.code@ == code
        &&& self.reason@ == reason
        &&& self.headers@ == framing_headers(content_type, body.len())
        &&& self.body@ == body
    }

    /// An empty response: every field empty.
    pub fn new() -> (r: HttpResponse)
        ensures
            r.version@.len() == 0,
            r.code@.len() == 0,
            r.reason@.len() == 0,
            r.headers@ == Map::<Seq<char>, Seq<char>>::empty(),
            r.body@.len() == 0,
    {
        HttpResponse {
            version: String::new(),
            code: String::new(),
            reason: String::new(),
            headers: HeaderMap::new(),
            body: Vec::new(),
        }
    }

    /// A response with this status line and body; the content headers are set
    /// only when the body is not empty.
    pub fn with_status(code: &str, reason: &str, content_type: &str, body: Vec<u8>) -> (r:
        HttpResponse)
        ensures
            r.wf(),
            body@.len() == 0 ==> r.is_status(code@, reason@),
            body@.len() > 0 ==> r.is_content(code@, reason@, content_type@, body@),
    {
        let mut resp = Self::new();
        resp.version = "HTTP/1.1".to_owned();
        resp.code = code.to_owned();
        resp.reason = reason.to_owned();
        resp.body = body;
        if resp.body.len() > 0 {
            resp.headers.insert("Content-Type".to_owned(), content_type.to_owned());
            let len = decimal_string(resp.body.len());
            resp.headers.insert("Content-Length".to_owned(), len);
        }
        resp.headers.insert("Connection".to_owned(), "close".to_owned());
        proof {
            lemma_header_names_distinct();
            if body@.len() > 0 {
                assert(resp.headers@ =~= framing_headers(content_type@, body@.len()));
            } else {
                assert(resp.headers@ =~= map![connection_name() => close_value()]);
            }
        }
        resp
    }

    /// A bodiless response with this status line.
    pub fn new_with_status(code: &str, reason: &str) -> (r: HttpResponse)
        ensures
            r.wf(),
            r.is_status(code@, reason@),
    {
        let mut resp = Self::new();
        resp.version = "HTTP/1.1".to_owned();
        resp.code = code.to_owned();
        resp.reason = reason.to_owned();
        resp.headers.insert("Connection".to_owned(), "close".to_owned());
        assert(resp.headers@ =~= map![connection_name() => close_value()]);
        resp
    }

    /// 200 OK
    pub fn ok() -> (r: HttpResponse)
        ensures
            r.wf(),
            r.is_status("200"@, "OK"@),
    {
        Self::new_with_status("200", "OK")
    }

    /// 400 Bad Request
    pub fn bad_request() -> (r: HttpResponse)
        ensures
            r.wf(),
            r.is_status("400"@, "Bad Request"@),
    {
        Self::new_with_status("400", "Bad Request")
    }

    /// 404 Not Found
    pub fn not_found() -> (r: HttpResponse)
        ensures
            r.wf(),
            r.is_status("404"@, "Not Found"@),
    {
        Self::new_with_status("404", "Not Found")
    }

    /// 500 Internal Server Error
    pub fn internal_server_error() -> (r: HttpResponse)
        ensures
            r.wf(),
            r.is_status("500"@, "Internal Server Error"@),
    {
        Self::new_with_status("500", "Internal Server Error")
    }

    /// 501 Not Implemented
    pub fn not_implemented() -> (r: HttpResponse)
        ensures
            r.wf(),
            r.is_status("501"@, "Not Implemented"@),
    {
        Self::new_with_status("501", "Not Implemented")
    }

    /// Sets the body, with its `Content-Type` and `Content-Length` headers.
    pub fn body(self, content_type: &str, body: Vec<u8>) -> (r: HttpResponse)
        ensures
            r.version == self.version,
            r.code == self.code,
            r.reason == self.reason,
            r.headers@ == self.headers@.insert(content_type_name(), content_type@).insert(
                content_length_name(),
                decimal(body@.len()),
            ),
            r.body@ == body@,
            self.wf() ==> r.wf(),
    {
        let mut resp = self;
        resp.body = body;
        resp.headers.insert("Content-Type".to_owned(), content_type.to_owned());
        let len = decimal_string(resp.body.len());
        resp.headers.insert("Content-Length".to_owned(), len);
        proof {
            lemma_header_names_distinct();
        }
        resp
    }

    /// The response in wire format.
    pub fn gen_resp_bytes(&self) -> (r: Vec<u8>)
        ensures
            r@ == wire(self.version@, self.code@, self.reason@, self.headers.entries(), self.body@),
    {
        let mut out: Vec<u8> = Vec::new();
        out.extend_from_slice(self.version.as_str().as_bytes());
        out.push(32u8);
        out.extend_from_slice(self.code.as_str().as_bytes());
        out.push(32u8);
        out.extend_from_slice(self.reason.as_str().as_bytes());
        out.push(13u8);
        out.push(10u8);
        let ghost head = out@;
        let n = self.headers.len();
        let mut i: usize = 0;
        while i < n
            invariant
                n == self.headers.entries().len(),
                i <= n,
                out@ == head + header_lines(self.headers.entries().subrange(0, i as int)),
            decreases n - i,
        {
            let (k, v) = self.headers.entry(i);
            out.extend_from_slice(k.as_str().as_bytes());
            out.push(58u8);
            out.push(32u8);
            out.extend_from_slice(v.as_str().as_bytes());
            out.push(13u8);
            out.push(10u8);
            let ghost es = self.headers.entries();
            assert(es.subrange(0, i + 1).drop_last() =~= es.subrange(0, i as int));
            assert(out@ =~= head + header_lines(es.subrange(0, i + 1)));
            i += 1;
        }
        assert(self.headers.entries().subrange(0, n as int) =~= self.headers.entries());
        out.push(13u8);
        out.push(10u8);
        out.extend_from_slice(self.body.as_slice());
        assert(out@ =~= wire(
            self.version@,
            self.code@,
            self.reason@,
            self.headers.entries(),
            self.body@,
        ));
        out
    }
}

} // verus!
