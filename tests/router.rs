use mini_httpd::listing::{extension_of, list_directory, render_listing, sort_entries};
use mini_httpd::percent::{decode_path, encode_segment};
use mini_httpd::request::HttpRequest;
use mini_httpd::router::{
    action_response, cgi_response, directory_response, file_response, is_path_safe,
    is_valid_method, regular_file_response, relative_request_path, route, Action, PathKind,
};

fn segs(parts: &[&str]) -> Vec<String> {
    parts.iter().map(|s| s.to_string()).collect()
}

fn get(path: &str) -> HttpRequest {
    HttpRequest::from_request_line(&format!("GET {} HTTP/1.1\r\n", path)).unwrap()
}

fn header(resp: &mini_httpd::response::HttpResponse, name: &str) -> Option<String> {
    resp.headers.get(&name.to_string()).cloned()
}

#[test]
fn only_get_is_valid() {
    assert!(is_valid_method(&get("/")));
    let post = HttpRequest::from_request_line("POST / HTTP/1.1").unwrap();
    assert!(!is_valid_method(&post));
    let lower = HttpRequest::from_request_line("get / HTTP/1.1").unwrap();
    assert!(!is_valid_method(&lower));
}

#[test]
fn non_get_is_not_implemented_before_anything_else() {
    let post = HttpRequest::from_request_line("POST /x HTTP/1.1").unwrap();
    let root = segs(&["/", "srv", "public"]);
    assert_eq!(route(&post, &root, &None), Action::NotImplemented);
    let resp = action_response(Action::NotImplemented).unwrap();
    assert_eq!(resp.code, "501");
}

#[test]
fn traversal_outside_the_root_is_not_found() {
    let req = get("/../../etc/passwd");
    let root = segs(&["/", "srv", "public"]);
    let resolved = Some((segs(&["/", "etc", "passwd"]), PathKind::File));
    assert_eq!(route(&req, &root, &resolved), Action::NotFound);
    let sibling = Some((segs(&["/", "srv", "public2", "a"]), PathKind::File));
    assert_eq!(route(&req, &root, &sibling), Action::NotFound);
    let resp = action_response(Action::NotFound).unwrap();
    assert_eq!(resp.code, "404");
    assert_eq!(resp.reason, "Not Found");
}

#[test]
fn missing_path_is_not_found() {
    let root = segs(&["/", "srv", "public"]);
    assert_eq!(route(&get("/public/nope.txt"), &root, &None), Action::NotFound);
}

#[test]
fn path_safety_compares_whole_components() {
    let root = segs(&["/", "srv", "public"]);
    assert!(is_path_safe(&root, &segs(&["/", "srv", "public"])));
    assert!(is_path_safe(&root, &segs(&["/", "srv", "public", "a", "b"])));
    assert!(!is_path_safe(&root, &segs(&["/", "srv", "publicity"])));
    assert!(!is_path_safe(&root, &segs(&["/", "srv"])));
}

#[test]
fn dispatch_by_path_kind() {
    let root = segs(&["/", "srv", "public"]);
    let inside = segs(&["/", "srv", "public", "x"]);
    let r = |req: &HttpRequest, kind| route(req, &root, &Some((inside.clone(), kind)));
    assert_eq!(r(&get("/public/x"), PathKind::Directory), Action::ListDirectory);
    assert_eq!(r(&get("/public/x.cgi"), PathKind::File), Action::RunScript);
    assert_eq!(r(&get("/public/x.cgi"), PathKind::Directory), Action::ListDirectory);
    assert_eq!(r(&get("/public/x.txt"), PathKind::File), Action::ServeFile);
    assert_eq!(r(&get("/public/x.CGI"), PathKind::File), Action::ServeFile);
    assert_eq!(r(&get("/public/x"), PathKind::Other), Action::BadRequest);
    assert_eq!(action_response(Action::BadRequest).unwrap().code, "400");
    assert!(action_response(Action::ServeFile).is_none());
}

#[test]
fn failed_script_gives_500() {
    let resp = cgi_response(None);
    assert_eq!(resp.code, "500");
    assert!(resp.body.is_empty());
}

#[test]
fn script_output_is_served_as_html() {
    let resp = cgi_response(Some(b"<b>hi</b>".to_vec()));
    assert_eq!(resp.code, "200");
    assert_eq!(header(&resp, "Content-Type").as_deref(), Some("text/html"));
    assert_eq!(header(&resp, "Content-Length").as_deref(), Some("9"));
    assert_eq!(resp.body, b"<b>hi</b>");
}

#[test]
fn binary_file_is_served_with_its_size() {
    let data = vec![0x89u8, b'P', b'N', b'G', 0xff, 0x00];
    let resp = regular_file_response("public/logo.png", Some(data.clone()));
    assert_eq!(resp.code, "200");
    assert_eq!(header(&resp, "Content-Type").as_deref(), Some("image/png"));
    assert_eq!(header(&resp, "Content-Length").as_deref(), Some("6"));
    assert_eq!(resp.body, data);
}

#[test]
fn unknown_extension_is_octet_stream() {
    let resp = regular_file_response("public/blob.zzzq", Some(vec![1, 2, 3]));
    assert_eq!(
        header(&resp, "Content-Type").as_deref(),
        Some("application/octet-stream")
    );
}

#[test]
fn text_file_must_be_utf8() {
    let bad = regular_file_response("public/a.txt", Some(vec![0xff, 0xfe]));
    assert_eq!(bad.code, "500");
    let good = regular_file_response("public/a.txt", Some("héllo".as_bytes().to_vec()));
    assert_eq!(good.code, "200");
    assert_eq!(header(&good, "Content-Type").as_deref(), Some("text/plain"));
    assert_eq!(header(&good, "Content-Length").as_deref(), Some("6"));
    let direct = file_response("text/css", Some(vec![0xc3]));
    assert_eq!(direct.code, "500");
    let binary = file_response("image/gif", Some(vec![0xc3]));
    assert_eq!(binary.code, "200");
}

#[test]
fn unreadable_file_gives_500() {
    assert_eq!(regular_file_response("public/a.txt", None).code, "500");
    assert_eq!(directory_response(None).code, "500");
}

#[test]
fn directory_page_is_html() {
    let resp = directory_response(Some("<p>x</p>".to_string()));
    assert_eq!(resp.code, "200");
    assert_eq!(header(&resp, "Content-Type").as_deref(), Some("text/html"));
    assert_eq!(resp.body, b"<p>x</p>");
}

#[test]
fn one_leading_slash_is_removed() {
    assert_eq!(relative_request_path("/public/a.txt"), "public/a.txt");
    assert_eq!(relative_request_path("//x"), "/x");
    assert_eq!(relative_request_path("x"), "x");
    assert_eq!(relative_request_path(""), "");
}

#[test]
fn files_sort_by_extension_then_name() {
    let files = segs(&["b.txt", "a.png", "z.jpg"]);
    assert_eq!(sort_entries(&files, true), segs(&["z.jpg", "a.png", "b.txt"]));
    let files = segs(&["B.txt", "a.TXT", "noext", "c.Png", ".hidden"]);
    assert_eq!(
        sort_entries(&files, true),
        segs(&[".hidden", "noext", "c.Png", "a.TXT", "B.txt"])
    );
}

#[test]
fn directories_sort_by_name_ignoring_case() {
    let dirs = segs(&["beta", "Alpha", "gamma.d", "ALPHB"]);
    assert_eq!(sort_entries(&dirs, false), segs(&["Alpha", "ALPHB", "beta", "gamma.d"]));
    assert_eq!(sort_entries(&Vec::new(), false), Vec::<String>::new());
}

#[test]
fn extensions_follow_path_rules() {
    let ext = |s: &str| extension_of(&s.chars().collect()).into_iter().collect::<String>();
    assert_eq!(ext("a.tar.gz"), "gz");
    assert_eq!(ext(".bashrc"), "");
    assert_eq!(ext("plain"), "");
    assert_eq!(ext("dot."), "");
    assert_eq!(ext("x.Y"), "Y");
}

#[test]
fn listing_puts_directories_first() {
    let page = list_directory(
        &segs(&["public"]),
        true,
        &segs(&["A"]),
        &segs(&["b.txt", "a.png", "z.jpg"]),
    );
    let a = page.find("[DIR] A/").unwrap();
    let z = page.find(">z.jpg<").unwrap();
    let p = page.find(">a.png<").unwrap();
    let b = page.find(">b.txt<").unwrap();
    assert!(a < z && z < p && p < b);
    assert!(!page.contains("[Parent Directory]"));
    assert!(page.starts_with("<!DOCTYPE html>\n"));
    assert!(page.contains("<title>Directory listing for /public</title>"));
    assert!(page.contains("<a href=\"/public/A\">[DIR] A/</a>\n"));
    assert!(page.ends_with("</pre>\n<hr>\n</body>\n</html>\n"));
}

#[test]
fn listing_links_are_percent_encoded_per_segment() {
    let page = render_listing(
        &segs(&["public", "my docs"]),
        false,
        &Vec::new(),
        &segs(&["a b.txt"]),
    );
    assert!(page.contains("<a href=\"/public\">[Parent Directory]</a>\n"));
    assert!(page.contains("<a href=\"/public/my%20docs/a%20b%2Etxt\">a b.txt</a>\n"));
    assert!(page.contains("<h1>Directory listing for /public/my docs</h1>"));
}

#[test]
fn percent_encoding_round_trips() {
    let plain = "ä b/c?d";
    let enc = encode_segment(plain);
    assert_eq!(enc, "%C3%A4%20b%2Fc%3Fd");
    assert_eq!(decode_path(&enc).as_deref(), Some(plain));
    assert_eq!(decode_path("%e4%b8%ad").as_deref(), Some("中"));
    assert_eq!(decode_path("%C3"), None);
}
