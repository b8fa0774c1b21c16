//! The proxy's handling of requests.

use rusty_proxy::proxy::AddrNotAvailable;
use rusty_proxy::proxy::Base;
use rusty_proxy::proxy::Proxy;
use rusty_proxy::server::Server;

fn s(t: &str) -> String {
    t.to_string()
}

fn proxy() -> Proxy {
    Proxy::new(Some(s("127.0.0.1:8000"))).unwrap()
}

fn site(name: &str, path: &str, addr: &str) -> Server {
    Server { addr: s(addr), ..Server::new().name(s(name)).path(s(path)) }
}

fn text(b: &[u8]) -> String {
    String::from_utf8_lossy(b).into_owned()
}

#[test]
fn proxy_needs_an_address() {
    let p = proxy();
    assert_eq!(p.addr, "127.0.0.1:8000");
    assert!(!p.connector);
    assert!(text(&p.home_html_bytes).ends_with("<body></body>\n</html>\n"));
    assert_eq!(Proxy::new(None).err(), Some(AddrNotAvailable));
}

#[test]
fn site_name_is_the_first_part_of_the_path() {
    let ok = |req: &str| Proxy::parse_site_name_indices(req.as_bytes()).unwrap();
    assert_eq!(ok("GET /a/b HTTP/1.1\r\n"), (5, 6));
    assert_eq!(ok("GET /site HTTP/1.1\r\n"), (5, 9));
    assert_eq!(ok("GET / HTTP/1.1\r\n"), (5, 5));
    assert_eq!(ok("GET site/x HTTP/1.1\r\n"), (4, 8));
    assert_eq!(ok("GET  HTTP/1.1\r\n"), (4, 4));
    let bad = "HTTP/1.1 400 Bad Request\r\n\r\n".as_bytes();
    assert_eq!(Proxy::parse_site_name_indices("GET".as_bytes()), Err(bad));
    assert_eq!(Proxy::parse_site_name_indices("GET /a".as_bytes()), Err(bad));
    assert_eq!(Proxy::parse_site_name_indices(&[]), Err(bad));
}

#[test]
fn site_name_is_removed_from_the_first_line() {
    let ok = |req: &str| Proxy::remove_site_name(req.as_bytes()).unwrap();
    assert_eq!(ok("GET /a/b HTTP/1.1\r\nHost: x\r\n"), (s("a"), s("GET /b HTTP/1.1\r\n")));
    assert_eq!(ok("GET /site HTTP/1.1\r\n\r\n"), (s("site"), s("GET / HTTP/1.1\r\n")));
    assert_eq!(ok("GET /site/ HTTP/1.1\r\n"), (s("site"), s("GET / HTTP/1.1\r\n")));
    assert_eq!(ok("GET / HTTP/1.1\r\n"), (s(""), s("GET / HTTP/1.1\r\n")));
    assert_eq!(ok("GET //x HTTP/1.1\r\n"), (s(""), s("GET /x HTTP/1.1\r\n")));
    assert_eq!(ok("GET /\u{e9}/x HTTP/1.1\r\n"), (s("\u{e9}"), s("GET /x HTTP/1.1\r\n")));
}

#[test]
fn removed_site_name_fits_back() {
    let req = "POST /a-b/c/d?e=f HTTP/1.1\r\nHost: x\r\n\r\n";
    let (i1, _) = Proxy::parse_site_name_indices(req.as_bytes()).unwrap();
    let (name, line) = Proxy::remove_site_name(req.as_bytes()).unwrap();
    assert_eq!(name, "a-b");
    let back = format!("{}{}/{}", &line[..i1], name, &line[i1..]);
    assert_eq!(back, "POST /a-b/c/d?e=f HTTP/1.1\r\n");
}

#[test]
fn request_without_a_site_name_is_bad() {
    let bad = "HTTP/1.1 400 Bad Request\r\n\r\n".as_bytes();
    assert_eq!(Proxy::remove_site_name("GET".as_bytes()), Err(bad));
    assert_eq!(Proxy::remove_site_name("GET /a HTTP/1.1".as_bytes()), Err(bad));
    let mut req = "GET /a".as_bytes().to_vec();
    req.push(0xff);
    req.extend_from_slice(" HTTP/1.1\r\n".as_bytes());
    assert_eq!(Proxy::remove_site_name(&req), Err(bad));
}

#[test]
fn path_past_the_first_line_is_bad() {
    let bad = "HTTP/1.1 400 Bad Request\r\n\r\n".as_bytes();
    assert_eq!(Proxy::remove_site_name("GET /x\r\nHost: a\r\n\r\n".as_bytes()), Err(bad));
    assert_eq!(Proxy::remove_site_name("GET /a\nb HTTP\r\n".as_bytes()), Err(bad));
    assert_eq!(Proxy::remove_site_name("GET /a b\n".as_bytes()), Ok((s("a"), s("GET / b\n"))));
}

#[test]
fn header_names_ignore_case() {
    let is = |have: &str| Proxy::is_http_header(have.as_bytes(), "rusty-proxy-path".as_bytes());
    assert!(is("Rusty-Proxy-Path: a\r\n"));
    assert!(is("RUSTY-PROXY-PATH:"));
    assert!(!is("rusty-proxy-path"));
    assert!(!is("rusty-proxy-path : a"));
    assert!(!is("rusty-proxy-paths: a"));
    assert!(!is("host: a"));
}

#[test]
fn body_follows_the_empty_line() {
    let start = |req: &str| Proxy::find_body_start(req.as_bytes());
    assert_eq!(start("POST / HTTP/1.1\r\nA: b\r\n\r\nbody"), Some(25));
    assert_eq!(start("POST / HTTP/1.1\r\n\r\n\n"), Some(19));
    assert_eq!(start("POST / HTTP/1.1\r\n\r\n"), None);
    assert_eq!(start("POST / HTTP/1.1\r\nA: b\r\n"), None);
    assert_eq!(start("POST / HTTP/1.1\nx\n\r\nb"), Some(20));
    assert_eq!(start(""), None);
}

#[test]
fn method_is_in_upper_case() {
    assert_eq!(Proxy::method("get / HTTP".as_bytes()), "GET".as_bytes());
    assert_eq!(Proxy::method("DeLeTe".as_bytes()), "DELETE".as_bytes());
    assert_eq!(Proxy::method(" x".as_bytes()), "".as_bytes());
}

#[test]
fn forwarded_request_names_its_site() {
    let req = "GET /a/b HTTP/1.1\r\nHost: x\r\n\r\nbody\r\n\r\nmore";
    let out = Proxy::write_req(req.as_bytes(), "a", "GET /b HTTP/1.1\r\n");
    assert_eq!(
        text(&out),
        "GET /b HTTP/1.1\r\nHost: x\r\nRusty-Proxy-Path: a\r\n\r\nbody\r\n\r\nmore"
    );
}

#[test]
fn forwarded_request_without_an_end_of_headers_gets_no_header() {
    let req = "GET /a/b HTTP/1.1\r\nHost: x\r\npart";
    let out = Proxy::write_req(req.as_bytes(), "a", "GET /b HTTP/1.1\r\n");
    assert_eq!(text(&out), "GET /b HTTP/1.1\r\nHost: x\r\npart");
    let out = Proxy::write_req("no line".as_bytes(), "a", "first\n");
    assert_eq!(text(&out), "first\nno line");
}

#[test]
fn only_an_empty_line_ends_the_headers() {
    let req = "GET /s HTTP/1.1\r\na\nHost: h\r\n\r\n";
    let out = Proxy::write_req(req.as_bytes(), "s", "GET / HTTP/1.1\r\n");
    assert_eq!(text(&out), "GET / HTTP/1.1\r\na\nHost: h\r\nRusty-Proxy-Path: s\r\n\r\n");
    let out = Proxy::write_req("GET /s HTTP\n\nx".as_bytes(), "s", "GET / HTTP\n");
    assert_eq!(text(&out), "GET / HTTP\n\nx");
}

#[test]
fn path_is_added_to_the_first_header_that_names_paths() {
    let line = "GET /x HTTP/1.1\r\n";
    let add = |headers: &str| {
        let req = format!("GET /s/x HTTP/1.1\r\n{}", headers);
        text(&Proxy::write_req(req.as_bytes(), "s", line))
    };
    assert_eq!(
        add("Rusty-Proxy-Path: p\r\n\r\nB"),
        "GET /x HTTP/1.1\r\nRusty-Proxy-Path: p, s\r\n\r\nB"
    );
    assert_eq!(
        add("Host: h\r\nrusty-proxy-path: p, q\r\nA: b\r\nRusty-Proxy-Path: z\r\n\r\n"),
        "GET /x HTTP/1.1\r\nHost: h\r\nrusty-proxy-path: p, q, s\r\nA: b\r\n\
            Rusty-Proxy-Path: z\r\n\r\n"
    );
    assert_eq!(
        add("Rusty-Proxy-Path: p\n\r\n"),
        "GET /x HTTP/1.1\r\nRusty-Proxy-Path: p, s\r\n\r\n"
    );
    assert_eq!(
        add("Rusty-Proxy-Path: p\r\npart"),
        "GET /x HTTP/1.1\r\nRusty-Proxy-Path: p, s\r\npart"
    );
}

#[test]
fn invalid_text_in_a_path_header_is_replaced() {
    let mut req = "\nRusty-Proxy-Path: ".as_bytes().to_vec();
    req.push(0xff);
    req.extend_from_slice("\r\n\r\n".as_bytes());
    let out = Proxy::write_req(&req, "a", "first\n");
    assert_eq!(text(&out), "first\nRusty-Proxy-Path: \u{fffd}, a\r\n\r\n");
}

#[test]
fn base_request_is_served_by_method() {
    let p = proxy();
    let page = text(&p.home_html_bytes);
    match p.serve_base("get / HTTP/1.1\r\n\r\n".as_bytes()) {
        Base::Reply(b) => assert_eq!(text(&b), page),
        _ => panic!("the home page was asked for"),
    }
    match p.serve_base("POST / HTTP/1.1\r\n\r\n{}".as_bytes()) {
        Base::Add(b) => assert_eq!(text(&b), "{}"),
        _ => panic!("a site was to be added"),
    }
    match p.serve_base("DELETE / HTTP/1.1\r\n\r\n{}".as_bytes()) {
        Base::Delete(b) => assert_eq!(text(&b), "{}"),
        _ => panic!("a site was to be deleted"),
    }
    for req in ["POST / HTTP/1.1\r\n\r\n", "DELETE / HTTP/1.1\r\n"] {
        match p.serve_base(req.as_bytes()) {
            Base::Reply(b) => assert_eq!(text(&b), "HTTP/1.1 400 Bad Request\r\n\r\n"),
            _ => panic!("there was no body"),
        }
    }
    match p.serve_base("PUT / HTTP/1.1\r\n\r\n{}".as_bytes()) {
        Base::Reply(b) => assert_eq!(text(&b), "HTTP/1.1 405 Method Not Allowed\r\n\r\n"),
        _ => panic!("the method is not served"),
    }
    assert_eq!(text(&p.serve_home_page()), page);
    assert_eq!(p.serve_favicon(), "HTTP/1.1 404 Not Found\r\n\r\n");
}

#[test]
fn only_a_complete_site_is_accepted() {
    let mut p = proxy();
    assert_eq!(p.add_server(&Some(site("A", "a", "x:1"))), None);
    assert!(p.routes.keys().is_empty());
    let bad = Some("HTTP/1.1 400 Bad Request\r\n\r\n");
    assert_eq!(p.add_server(&None), bad);
    assert_eq!(p.add_server(&Some(site("", "a", "x:1"))), bad);
    assert_eq!(p.add_server(&Some(site("A", "", "x:1"))), bad);
    assert_eq!(p.add_server(&Some(site("A", "a", ""))), bad);
}

#[test]
fn only_a_site_as_described_is_deleted() {
    let mut p = proxy();
    p.routes.store(s("a"), site("A", "a", "x:1"));
    p.routes.store(s("b"), site("B", "b", "x:2"));
    let not_found = "HTTP/1.1 404 Not Found\r\n\r\n";
    assert_eq!(p.delete_server(&None), "HTTP/1.1 400 Bad Request\r\n\r\n");
    assert_eq!(p.delete_server(&Some(site("", "a", "x:1"))), "HTTP/1.1 400 Bad Request\r\n\r\n");
    assert_eq!(p.delete_server(&Some(site("A", "c", "x:1"))), not_found);
    assert_eq!(p.delete_server(&Some(site("C", "a", "x:1"))), not_found);
    assert_eq!(p.delete_server(&Some(site("A", "a", "x:2"))), not_found);
    assert_eq!(p.routes.keys().len(), 2);
    assert_eq!(p.delete_server(&Some(site("A", "a", "x:1"))), "HTTP/1.1 200 OK\r\n\r\n");
    assert!(p.routes.load(&s("a")).is_none());
    assert!(p.routes.load(&s("b")).is_some());
    assert_eq!(p.delete_server(&Some(site("A", "a", "x:1"))), not_found);
}
