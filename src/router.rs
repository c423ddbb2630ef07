//! Routing: which response a request gets, given what the file system
//! reported about its path.
//!
//! The caller resolves the path to its canonical form and inspects it; the
//! decisions and the responses are made here.
use vstd::prelude::*;
use vstd::utf8::*;
use crate::request::HttpRequest;
use crate::response::HttpResponse;
use crate::text::string_from_utf8;

verus! {

/// What a resolved path names on disk.
#[derive(Debug, Clone, Copy, PartialEq, Eq, Structural)]
pub enum PathKind {
    Directory,
    File,
    Other,
}

/// What to do with a request.
#[derive(Debug, Clone, Copy, PartialEq, Eq, Structural)]
pub enum Action {
    /// 501: the method is not `GET`.
    NotImplemented,
    /// 404: the path does not resolve, or resolves outside the document root.
    NotFound,
    /// 400: the path names neither a directory nor a regular file.
    BadRequest,
    /// Serve the index page of the directory.
    ListDirectory,
    /// Run the script and serve its standard output.
    RunScript,
    /// Serve the file's contents.
    ServeFile,
}

pub open spec fn get_method() -> Seq<char> {
    "GET"@
}

/// Only `GET` is served.
pub fn is_valid_method(req: &HttpRequest) -> (r: bool)
    ensures
        r == (req.method@ == get_method()),
{
    let get = "GET".to_owned();
    req.method == get
}

/// The request path with one leading `/` removed, to be resolved relative to
/// the working directory.
pub open spec fn relative_path(path: Seq<char>) -> Seq<char> {
    if path.len() > 0 && path[0] == '/' {
        path.drop_first()
    } else {
        path
    }
}

pub fn relative_request_path(path: &str) -> (r: String)
    ensures
        r@ == relative_path(path@),
{
    let cs = crate::text::chars_of(path);
    let mut out: Vec<char> = Vec::new();
    let start: usize = if cs.len() > 0 && cs[0] == '/' { 1 } else { 0 };
    let mut i: usize = start;
    while i < cs.len()
        invariant
            start <= i <= cs@.len(),
            out@ =~= cs@.subrange(start as int, i as int),
        decreases cs.len() - i,
    {
        out.push(cs[i]);
        i += 1;
    }
    assert(out@ =~= relative_path(path@));
    crate::text::string_of(&out)
}

/// `full` lies at or below `root`, comparing whole path components.
pub open spec fn within_root(root: Seq<Seq<char>>, full: Seq<Seq<char>>) -> bool {
    root.len() <= full.len() && full.subrange(0, root.len() as int) == root
}

pub open spec fn components(v: Seq<String>) -> Seq<Seq<char>> {
    v.map_values(|s: String| s@)
}

/// Whether the canonical path `full` stays inside the canonical document
/// root `root`, both given as their components.
pub fn is_path_safe(root: &Vec<String>, full: &Vec<String>) -> (r: bool)
    ensures
        r == within_root(components(root@), components(full@)),
{
    if root.len() > full.len() {
        return false;
    }
    let mut i: usize = 0;
    while i < root.len()
        invariant
            i <= root@.len() <= full@.len(),
            forall|j: int| 0 <= j < i ==> root@[j]@ == full@[j]@,
        decreases root.len() - i,
    {
        if root[i] != full[i] {
            assert(components(full@).subrange(0, root@.len() as int)[i as int] != components(
                root@,
            )[i as int]);
            return false;
        }
        i += 1;
    }
    assert(components(full@).subrange(0, root@.len() as int) =~= components(root@));
    true
}

pub open spec fn ends_with_cgi(p: Seq<char>) -> bool {
    let n = p.len();
    n >= 4 && p[n - 4] == '.' && p[n - 3] == 'c' && p[n - 2] == 'g' && p[n - 1] == 'i'
}

pub fn is_cgi_path(p: &str) -> (r: bool)
    ensures
        r == ends_with_cgi(p@),
{
    let cs = crate::text::chars_of(p);
    let n = cs.len();
    n >= 4 && cs[n - 4] == '.' && cs[n - 3] == 'c' && cs[n - 2] == 'g' && cs[n - 1] == 'i'
}

/// The routing rules, in order: the method, then confinement, then what the
/// path names.
pub open spec fn route_spec(
    method: Seq<char>,
    path: Seq<char>,
    root: Seq<Seq<char>>,
    resolved: Option<(Seq<Seq<char>>, PathKind)>,
) -> Action {
    if method != get_method() {
        Action::NotImplemented
    } else {
        match resolved {
            None => Action::NotFound,
            Some((full, kind)) => if !within_root(root, full) {
                Action::NotFound
            } else {
                match kind {
                    PathKind::Directory => Action::ListDirectory,
                    PathKind::File => if ends_with_cgi(path) {
                        Action::RunScript
                    } else {
                        Action::ServeFile
                    },
                    PathKind::Other => Action::BadRequest,
                }
            },
        }
    }
}

/// Decides what to do with `req`. `root` holds the components of the
/// canonical document root; `resolved` holds those of the canonical request
/// path and what it names, or `None` when it could not be resolved.
pub fn route(req: &HttpRequest, root: &Vec<String>, resolved: &Option<(Vec<String>, PathKind)>) -> (r:
    Action)
    ensures
        r == route_spec(
            req.method@,
            req.path@,
            components(root@),
            match resolved {
                Some((full, kind)) => Some((components(full@), *kind)),
                None => None,
            },
        ),
{
    if !is_valid_method(req) {
        return Action::NotImplemented;
    }
    match resolved {
        None => Action::NotFound,
        Some((full, kind)) => {
            if !is_path_safe(root, full) {
                Action::NotFound
            } else {
                match kind {
                    PathKind::Directory => Action::ListDirectory,
                    PathKind::File => if is_cgi_path(req.path.as_str()) {
                        Action::RunScript
                    } else {
                        Action::ServeFile
                    },
                    PathKind::Other => Action::BadRequest,
                }
            }
        },
    }
}

/// The response of an action that needs no further work: 501, 404 or 400.
pub fn action_response(a: Action) -> (r: Option<HttpResponse>)
    ensures
        a == Action::NotImplemented ==> (r matches Some(x) && x.wf() && x.is_status(
            "501"@,
            "Not Implemented"@,
        )),
        a == Action::NotFound ==> (r matches Some(x) && x.wf() && x.is_status(
            "404"@,
            "Not Found"@,
        )),
        a == Action::BadRequest ==> (r matches Some(x) && x.wf() && x.is_status(
            "400"@,
            "Bad Request"@,
        )),
        a == Action::ListDirectory || a == Action::RunScript || a == Action::ServeFile ==> r is None,
{
    match a {
        Action::NotImplemented => Some(HttpResponse::not_implemented()),
        Action::NotFound => Some(HttpResponse::not_found()),
        Action::BadRequest => Some(HttpResponse::bad_request()),
        _ => None,
    }
}

/// The UTF-8 bytes of `s`.
pub fn bytes_of(s: &str) -> (r: Vec<u8>)
    ensures
        r@ == encode_utf8(s@),
{
    let b = s.as_bytes();
    let mut out: Vec<u8> = Vec::new();
    let mut i: usize = 0;
    while i < b.len()
        invariant
            i <= b@.len(),
            out@ =~= b@.subrange(0, i as int),
        decreases b.len() - i,
    {
        out.push(b[i]);
        i += 1;
    }
    assert(b@.subrange(0, b@.len() as int) =~= b@);
    out
}

/// 200 OK with this body and content type.
pub fn ok_with_body(content_type: &str, body: Vec<u8>) -> (r: HttpResponse)
    ensures
        r.wf(),
        r.is_content("200"@, "OK"@, content_type@, body@),
{
    let resp = HttpResponse::ok().body(content_type, body);
    proof {
        crate::response::lemma_header_names_distinct();
        assert(resp.headers@ =~= crate::response::framing_headers(content_type@, body@.len()));
    }
    resp
}

/// The response for a directory: its index page as `text/html`, or 500 when
/// the directory could not be read.
pub fn directory_response(listing: Option<String>) -> (r: HttpResponse)
    ensures
        r.wf(),
        listing is None ==> r.is_status("500"@, "Internal Server Error"@),
        listing matches Some(html) ==> r.is_content(
            "200"@,
            "OK"@,
            "text/html"@,
            encode_utf8(html@),
        ),
{
    match listing {
        None => HttpResponse::internal_server_error(),
        Some(html) => ok_with_body("text/html", bytes_of(html.as_str())),
    }
}

/// The response for a script: its standard output as `text/html`, or 500
/// when it could not be run. Its exit status is not looked at.
pub fn cgi_response(stdout: Option<Vec<u8>>) -> (r: HttpResponse)
    ensures
        r.wf(),
        stdout is None ==> r.is_status("500"@, "Internal Server Error"@),
        stdout matches Some(out) ==> r.is_content("200"@, "OK"@, "text/html"@, out@),
{
    match stdout {
        None => HttpResponse::internal_server_error(),
        Some(out) => ok_with_body("text/html", out),
    }
}

/// A MIME type of the top-level type `text`.
pub open spec fn is_text_mime(m: Seq<char>) -> bool {
    m.len() >= 5 && m[0] == 't' && m[1] == 'e' && m[2] == 'x' && m[3] == 't' && m[4] == '/'
}

/// The response for a regular file of MIME type `mime` whose contents were
/// read (`None`: the read failed, 500). Text types must hold UTF-8 (else 500).
pub fn file_response(mime: &str, data: Option<Vec<u8>>) -> (r: HttpResponse)
    ensures
        r.wf(),
        data is None ==> r.is_status("500"@, "Internal Server Error"@),
        data matches Some(d) ==> if is_text_mime(mime@) && !valid_utf8(d@) {
            r.is_status("500"@, "Internal Server Error"@)
        } else {
            r.is_content("200"@, "OK"@, mime@, d@)
        },
{
    match data {
        None => HttpResponse::internal_server_error(),
        Some(d) => {
            let cs = crate::text::chars_of(mime);
            let text = cs.len() >= 5 && cs[0] == 't' && cs[1] == 'e' && cs[2] == 'x' && cs[3] == 't'
                && cs[4] == '/';
            if text {
                match string_from_utf8(d) {
                    None => HttpResponse::internal_server_error(),
                    Some(s) => {
                        let bytes = bytes_of(s.as_str());
                        proof {
                            decode_utf8_encode_utf8(d@);
                        }
                        ok_with_body(mime, bytes)
                    },
                }
            } else {
                ok_with_body(mime, d)
            }
        },
    }
}

/// The MIME type that `mime_guess` gives a path.
pub uninterp spec fn mime_of(path: Seq<char>) -> Seq<char>;

/// Relies on `mime_guess::from_path(..).first_or_octet_stream()`: a MIME type
/// chosen from the path's extension alone (`application/octet-stream` when
/// none is known).
#[verifier::external_body]
fn guess_mime(path: &str) -> (r: String)
    ensures
        r@ == mime_of(path@),
{
    mime_guess::from_path(path).first_or_octet_stream().to_string()
}

/// The response for the regular file at `path`, typed by its extension.
pub fn regular_file_response(path: &str, data: Option<Vec<u8>>) -> (r: HttpResponse)
    ensures
        r.wf(),
        data is None ==> r.is_status("500"@, "Internal Server Error"@),
        data matches Some(d) ==> if is_text_mime(mime_of(path@)) && !valid_utf8(d@) {
            r.is_status("500"@, "Internal Server Error"@)
        } else {
            r.is_content("200"@, "OK"@, mime_of(path@), d@)
        },
{
    let mime = guess_mime(path);
    file_response(mime.as_str(), data)
}

/// A `GET` whose path does not resolve, or resolves to somewhere outside
/// the document root (by `..` segments or a symbolic link), is answered
/// 404, whatever the path names: the two cases cannot be told apart.
pub proof fn lemma_unresolved_or_escaping_is_not_found(
    path: Seq<char>,
    root: Seq<Seq<char>>,
    resolved: Option<(Seq<Seq<char>>, PathKind)>,
)
    requires
        resolved matches Some((full, kind)) ==> !within_root(root, full),
    ensures
        route_spec(get_method(), path, root, resolved) == Action::NotFound,
{
}

} // verus!
