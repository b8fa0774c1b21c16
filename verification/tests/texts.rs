//! Byte strings, headers and sites.

use rusty_proxy::request::Header;
use rusty_proxy::request::Request;
use rusty_proxy::server::home_html_bytes;
use rusty_proxy::server::Server;
use rusty_proxy::server::ServerInfo;
use rusty_proxy::text;

fn s(t: &str) -> String {
    t.to_string()
}

#[test]
fn first_place_of_a_byte() {
    assert_eq!(text::position("a/b/c".as_bytes(), text::SLASH, 0), 1);
    assert_eq!(text::position("a/b/c".as_bytes(), text::SLASH, 2), 3);
    assert_eq!(text::position("a/b/c".as_bytes(), text::SPACE, 0), 5);
    assert_eq!(text::position("".as_bytes(), text::SPACE, 0), 0);
}

#[test]
fn only_the_first_occurrence_is_replaced() {
    let r = |a: &str, b: &str, c: &str| {
        String::from_utf8(text::replace_first(a.as_bytes(), b.as_bytes(), c.as_bytes())).unwrap()
    };
    assert_eq!(r("GET /a/a", "a", ""), "GET //a");
    assert_eq!(r("aXbXc", "X", "--"), "a--bXc");
    assert_eq!(r("abc", "x", "y"), "abc");
    assert_eq!(r("abc", "", "y"), "yabc");
    assert_eq!(r("", "", "y"), "y");
    assert_eq!(r("aab", "ab", ""), "a");
    assert_eq!(r("ab", "abc", "x"), "ab");
}

#[test]
fn letters_change_case() {
    assert_eq!(text::to_upper(0x61), 0x41);
    assert_eq!(text::to_upper(0x7b), 0x7b);
    assert_eq!(text::to_upper(0xe4), 0xe4);
    assert_eq!(text::to_lower(0x5a), 0x7a);
    assert_eq!(text::to_lower(0x5b), 0x5b);
}

#[test]
fn only_valid_text_is_decoded() {
    assert_eq!(text::decode("h\u{e9}".as_bytes()), Some(s("h\u{e9}")));
    assert_eq!(text::decode(&[]), Some(s("")));
    assert_eq!(text::decode(&[0x68, 0xff]), None);
    assert_eq!(text::decode(&[0xc3]), None);
}

#[test]
fn numbers_are_read() {
    assert_eq!(text::parse_usize(" 42\r\n"), Some(42));
    assert_eq!(text::parse_usize("+7"), Some(7));
    assert_eq!(text::parse_usize("\u{a0}0012\u{3000}"), Some(12));
    assert_eq!(text::parse_usize(""), None);
    assert_eq!(text::parse_usize("+"), None);
    assert_eq!(text::parse_usize("-1"), None);
    assert_eq!(text::parse_usize("1 2"), None);
    assert_eq!(text::parse_usize("1a"), None);
    assert_eq!(text::parse_usize(&usize::MAX.to_string()), Some(usize::MAX));
    assert_eq!(text::parse_usize(&format!("{}0", usize::MAX)), None);
    assert_eq!(text::parse_usize("18446744073709551616"), None);
}

#[test]
fn white_space_is_as_documented() {
    for c in '\u{0}'..='\u{ffff}' {
        assert_eq!(text::is_white_space(c), c.is_whitespace(), "{:?}", c);
    }
}

#[test]
fn numbers_are_written() {
    for n in [0usize, 7, 10, 99, 100, 1024, usize::MAX] {
        let digits = text::to_decimal(n);
        assert_eq!(digits, n.to_string().into_bytes());
        assert_eq!(text::parse_usize(std::str::from_utf8(&digits).unwrap()), Some(n));
    }
}

#[test]
fn headers_hold_their_values() {
    let h = Header::new(s("Host"), s("a"));
    assert_eq!(h.key, "Host");
    assert_eq!(h.values, vec!["a"]);
    let h = Header::with_values(s("Accept"), vec![s("x"), s("y")]);
    assert_eq!(h.key, "Accept");
    assert_eq!(h.values, vec!["x", "y"]);
}

#[test]
fn new_request_has_no_headers() {
    let req = Request::new();
    assert_eq!(req.headers.len(), 0);
    Request::set_header();
}

#[test]
fn site_is_built_up() {
    let site = Server::new().name(s("Blog")).path(s("blog")).hidden(true).secure(true);
    assert_eq!(site.name, "Blog");
    assert_eq!(site.path, "blog");
    assert_eq!(site.addr, "");
    assert!(site.hidden && site.secure);
    assert_eq!(Server::new(), Server::default());
}

#[test]
fn only_a_shown_site_has_a_link() {
    let site = Server::new().name(s("Blog")).path(s("blog"));
    assert_eq!(site.to_link(), "<a href=\"./blog\">Blog</a>");
    assert_eq!(site.hidden(true).to_link(), "");
}

#[test]
fn complete_site_has_name_path_and_address() {
    let full = || Server { addr: s("x:1"), ..Server::new().name(s("n")).path(s("p")) };
    assert!(full().is_complete());
    assert!(!full().name(s("")).is_complete());
    assert!(!full().path(s("")).is_complete());
    assert!(!Server { addr: s(""), ..full() }.is_complete());
    assert!(full().is_same_site(&full().hidden(true).secure(true)));
    assert!(!full().is_same_site(&full().name(s("m"))));
    assert!(!full().is_same_site(&full().path(s("q"))));
    assert!(!full().is_same_site(&Server { addr: s("y:1"), ..full() }));
}

#[test]
fn named_site_is_plain() {
    let info = ServerInfo::new(s("a"), s("b:1"));
    assert_eq!((info.name.as_str(), info.addr.as_str()), ("a", "b:1"));
    assert!(!info.tunnel && !info.secure);
}

#[test]
fn home_page_holds_its_links() {
    let want = "\n<!DOCTYPE html>\n<html lang=\"en-US\">\n<head>\n<title>Rusty Proxy</title>\
        <meta charset=\"UTF-8\">\n<meta name=\"viewport content=\"width=device-width, \
        initial-scale=1.0\"></head>\n<body>LINKS</body>\n</html>\n";
    assert_eq!(String::from_utf8(home_html_bytes("LINKS")).unwrap(), want);
}
