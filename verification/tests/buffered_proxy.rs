//! The proxy that checks headers one by one.

use rusty_proxy::buffered_proxy::headers::add_length_header;
use rusty_proxy::buffered_proxy::headers::classify;
use rusty_proxy::buffered_proxy::headers::forwarded_for_header;
use rusty_proxy::buffered_proxy::headers::HeaderLine;
use rusty_proxy::buffered_proxy::session::Action;
use rusty_proxy::buffered_proxy::session::ClientAction;
use rusty_proxy::buffered_proxy::session::ClientEvent;
use rusty_proxy::buffered_proxy::session::Event;
use rusty_proxy::buffered_proxy::session::Phase;
use rusty_proxy::buffered_proxy::session::PipeEnd;
use rusty_proxy::buffered_proxy::session::ServerAction;
use rusty_proxy::buffered_proxy::session::ServerEvent;
use rusty_proxy::buffered_proxy::session::Session;
use rusty_proxy::buffered_proxy::Proxy;
use rusty_proxy::proxy::session::Either;
use rusty_proxy::proxy::session::Failed;
use rusty_proxy::server::ServerInfo;

type Act = Action<Vec<u8>, String>;

const BAD: &str = "HTTP/1.1 400 Bad Request\r\n\r\n";
const NOT_FOUND: &str = "HTTP/1.1 404 Not Found\r\n\r\n";
const FAILURE: &str = "HTTP/1.1 500 Internal Server Error\r\n\r\n";

fn s(t: &str) -> String {
    t.to_string()
}

fn b(t: &str) -> Vec<u8> {
    t.as_bytes().to_vec()
}

fn proxy() -> Proxy {
    let mut p = Proxy::new(Some(s("127.0.0.1:8000"))).unwrap();
    p.sites.server_info_map.store(s("a"), ServerInfo::new(s("a"), s("x:1")));
    p
}

fn request(p: &mut Proxy, req: &str) -> (Session, Act) {
    let (mut session, action) = Session::new(s("10.0.0.7"));
    assert_eq!(action, Action::Read);
    let action = session.step(p, Event::Read(b(req)));
    (session, action)
}

/// What is put in the site's buffer for a request, and the session once the buffer is sent.
fn headers_of(p: &mut Proxy, req: &str) -> (Session, String) {
    let (mut session, action) = request(p, req);
    assert_eq!(action, Action::Connect(s("x:1")));
    let mut out = vec![];
    let mut action = session.step(p, Event::Connected);
    while let Action::Write(bytes) = action {
        out.extend_from_slice(&bytes);
        action = session.step(p, Event::Written);
    }
    assert_eq!(action, Action::Flush);
    (session, String::from_utf8(out).unwrap())
}

/// A session whose client is joined to the site `a`.
fn joined(p: &mut Proxy) -> Session {
    let (mut session, _) = headers_of(p, "GET /a/x HTTP/1.1\r\n\r\n");
    assert_eq!(session.step(p, Event::Written), Action::Pipe);
    assert_eq!(session.phase, Phase::Piping { site_name: s("a") });
    assert_eq!(session.bytes_read, 0);
    session
}

#[test]
fn two_servers_are_served() {
    let mut p = Proxy::new(Some(s("127.0.0.1:8000"))).unwrap();
    assert!(Proxy::new(None).is_err());
    for (name, addr) in [("mbp", "192.168.1.130:9000"), ("rb15", "192.168.1.126:9000")] {
        let info = p.sites.server_info_map.load(&s(name)).unwrap();
        assert_eq!(*info, ServerInfo::new(s(name), s(addr)));
    }
    assert_eq!(p.sites.server_info_map.keys().len(), 2);
}

#[test]
fn name_is_parsed_from_the_first_line() {
    let ok = |req: &str| Proxy::parse_site_name(req.as_bytes()).unwrap();
    assert_eq!(ok("GET /mbp/x HTTP/1.1\r\n"), (s("mbp"), s("GET //x HTTP/1.1\r\n")));
    assert_eq!(ok("GET /mbp HTTP/1.1\r\nmore"), (s("mbp"), s("GET / HTTP/1.1\r\n")));
    assert_eq!(ok("GET / HTTP/1.1\r\n"), (s(""), s("GET / HTTP/1.1\r\n")));
    assert_eq!(ok("GET //x HTTP/1.1\r\n"), (s(""), s("GET /x HTTP/1.1\r\n")));
    assert_eq!(ok("GET /G HTTP/1.1\r\n"), (s("G"), s("GET / HTTP/1.1\r\n")));
    assert_eq!(ok("GET /abc\r\n"), (s("abc"), s("GET /\r\n")));
    assert_eq!(ok("GET /abc\n"), (s("abc"), s("GET /\n")));
    assert_eq!(ok("GET abc/x HTTP/1.1\r\n"), (s("abc"), s("GET /x HTTP/1.1\r\n")));
    assert_eq!(ok("GET /\u{e9}/x HTTP/1.1\r\n"), (s("\u{e9}"), s("GET //x HTTP/1.1\r\n")));
}

#[test]
fn unparsable_lines_are_bad() {
    let bad = BAD.as_bytes();
    for req in ["", "GET /a HTTP/1.1", "GET\r\n", "GET  /a HTTP/1.1\r\n", "\r\u{e9}\r\n"] {
        assert_eq!(Proxy::parse_site_name(req.as_bytes()), Err(bad), "{:?}", req);
    }
    assert_eq!(Proxy::parse_site_name(&[0x47, 0xff, 0x20, 0x2f, 0x61, 0x0d, 0x0a]), Err(bad));
}

#[test]
fn short_lines_are_bad() {
    for req in ["\n", "\r\n", "a\n", "a\r\n", " \n"] {
        assert_eq!(Proxy::parse_site_name(req.as_bytes()), Err(BAD.as_bytes()), "{:?}", req);
    }
}

#[test]
fn header_lines_are_told_apart() {
    let line = |l: &str| classify(l.as_bytes());
    assert_eq!(line("\r\n"), HeaderLine::End);
    assert_eq!(line("x\n"), HeaderLine::End);
    assert_eq!(line("Host: a\r\n"), HeaderLine::Keep);
    assert_eq!(line("no colon\r\n"), HeaderLine::Keep);
    assert_eq!(line("Cookie: a\r\n"), HeaderLine::Keep);
    assert_eq!(line("cookie\r\n"), HeaderLine::Bad);
    assert_eq!(line("Content-Length: 12\r\n"), HeaderLine::Length(12));
    assert_eq!(line("CONTENT-LENGTH:7"), HeaderLine::Length(7));
    assert_eq!(line("content-length: x\r\n"), HeaderLine::Bad);
    assert_eq!(line("content-length:\r\n"), HeaderLine::Bad);
    assert_eq!(classify(&[0x63, 0x3a, 0xff]), HeaderLine::Bad);
    assert_eq!(classify(&[0x64, 0x3a, 0xff]), HeaderLine::Keep);
}

#[test]
fn length_header_is_read_back() {
    for n in [0usize, 5, 1024, usize::MAX] {
        let mut out = b("before");
        add_length_header(&mut out, n);
        assert_eq!(out, format!("beforeContent-Length: {}\r\n", n).into_bytes());
        assert_eq!(classify(&out[6..]), HeaderLine::Length(n));
    }
    assert_eq!(forwarded_for_header("::1"), b("Forwarded: for=::1\r\n\r\n"));
}

#[test]
fn headers_are_sent_with_the_client() {
    let mut p = proxy();
    let req = "GET /a/x HTTP/1.1\r\nHost: h\r\nCookie: c\r\n\r\n";
    let (session, out) = headers_of(&mut p, req);
    assert_eq!(
        out,
        "GET //x HTTP/1.1\r\nHost: h\r\nCookie: c\r\nForwarded: for=10.0.0.7\r\n\r\n"
    );
    let site_name = s("a");
    let header_size = req.len();
    assert_eq!(session.phase, Phase::Flushing { site_name, header_size, content_length: 0 });
}

#[test]
fn length_headers_pile_up() {
    let mut p = proxy();
    let req = "GET /a HTTP/1.1\r\ncontent-length: 3\r\nContent-Length: 4\r\n\r\nbody";
    let (session, out) = headers_of(&mut p, req);
    assert_eq!(
        out,
        "GET / HTTP/1.1\r\nContent-Length: 3\r\nContent-Length: 3\r\nContent-Length: 4\r\n\
            Forwarded: for=10.0.0.7\r\n\r\n"
    );
    let header_size = req.len() - 4;
    assert_eq!(
        session.phase,
        Phase::Flushing { site_name: s("a"), header_size, content_length: 4 }
    );
}

#[test]
fn headers_without_an_end_are_sent_as_they_are() {
    let mut p = proxy();
    let (mut session, out) = headers_of(&mut p, "GET /a HTTP/1.1\r\nHost: h\r\npart");
    assert_eq!(out, "GET / HTTP/1.1\r\nHost: h\r\npart");
    assert_eq!(session.step(&mut p, Event::Written), Action::Pipe);
}

#[test]
fn bad_header_is_refused() {
    let mut p = proxy();
    let (mut session, _) = request(&mut p, "GET /a HTTP/1.1\r\ncontent-length: x\r\n\r\n");
    session.step(&mut p, Event::Connected);
    assert_eq!(session.step(&mut p, Event::Written), Action::ReplyAndClose(b(BAD)));
    assert_eq!(session.phase, Phase::Done);
}

#[test]
fn whatever_follows_the_headers_is_sent() {
    let mut p = proxy();
    let (mut session, _) = headers_of(&mut p, "GET /a HTTP/1.1\r\n\r\nbody");
    assert_eq!(session.step(&mut p, Event::Written), Action::Send(b("body")));
    assert_eq!(session.step(&mut p, Event::Written), Action::Pipe);
}

#[test]
fn body_that_came_whole_is_sent() {
    let mut p = proxy();
    let (mut session, action) = Session::new(s("10.0.0.1"));
    assert_eq!(action, Action::Read);
    let req = "POST /mbp HTTP/1.1\r\nContent-Length: 2\r\n\r\nhi";
    let action = session.step(&mut p, Event::Read(b(req)));
    assert_eq!(action, Action::Connect(s("192.168.1.130:9000")));
    let mut out = vec![];
    let mut action = session.step(&mut p, Event::Connected);
    loop {
        match action {
            Action::Write(bytes) | Action::Send(bytes) => out.extend_from_slice(&bytes),
            Action::Flush => (),
            _ => break,
        }
        action = session.step(&mut p, Event::Written);
    }
    assert_eq!(action, Action::Pipe);
    assert_eq!(
        String::from_utf8(out).unwrap(),
        "POST / HTTP/1.1\r\nContent-Length: 2\r\nForwarded: for=10.0.0.1\r\n\r\nhi"
    );
}

#[test]
fn rest_of_a_short_body_is_left_to_the_pipe() {
    let mut p = proxy();
    let (mut session, _) = headers_of(&mut p, "GET /a HTTP/1.1\r\nContent-Length: 6\r\n\r\nbody");
    assert_eq!(session.step(&mut p, Event::Written), Action::Send(b("body")));
    assert_eq!(session.step(&mut p, Event::Written), Action::Pipe);
    let (mut session, _) = headers_of(&mut p, "GET /a HTTP/1.1\r\nContent-Length: 6\r\n\r\n");
    assert_eq!(session.step(&mut p, Event::Written), Action::Pipe);
}

#[test]
fn request_of_the_buffer_size_is_read_on() {
    let mut p = proxy();
    let head = |n: usize| format!("POST /a HTTP/1.1\r\nContent-Length: {}\r\n\r\n", n);
    let size = head(900).len();
    let (mut session, _) = headers_of(&mut p, &head(1024 - size));
    assert_eq!(session.step(&mut p, Event::Written), Action::ReadBody);
    assert_eq!(session.phase, Phase::BodyRead { site_name: s("a"), diff: 0 });
    let (mut session, _) = headers_of(&mut p, &head(1023 - size));
    assert_eq!(session.step(&mut p, Event::Written), Action::Pipe);
}

#[test]
fn long_body_is_read_piece_by_piece() {
    let mut p = proxy();
    let start = "POST /a HTTP/1.1\r\nContent-Length: 2000\r\n\r\n";
    let diff = start.len() + 2000 - 1024;
    let (mut session, _) = headers_of(&mut p, start);
    assert_eq!(session.step(&mut p, Event::Written), Action::ReadBody);
    let site_name = || s("a");
    assert_eq!(session.phase, Phase::BodyRead { site_name: site_name(), diff });
    let piece = vec![7u8; diff - 600];
    assert_eq!(session.step(&mut p, Event::Read(piece.clone())), Action::Send(piece));
    assert_eq!(session.step(&mut p, Event::Written), Action::ReadBody);
    assert_eq!(session.phase, Phase::BodyRead { site_name: site_name(), diff: 600 });
    let piece = vec![8u8; 600];
    assert_eq!(session.step(&mut p, Event::Read(piece.clone())), Action::Send(piece));
    assert_eq!(session.step(&mut p, Event::Written), Action::ReadBody);
    assert_eq!(session.phase, Phase::BodyRead { site_name: site_name(), diff: 0 });
    assert_eq!(session.step(&mut p, Event::Read(b("x"))), Action::Send(b("x")));
    assert_eq!(session.step(&mut p, Event::Written), Action::Pipe);
}

#[test]
fn full_buffer_is_read_on_from() {
    let mut p = proxy();
    let start = "POST /a HTTP/1.1\r\nContent-Length: 2000\r\n\r\n";
    let here = 1024 - start.len();
    let (mut session, _) = headers_of(&mut p, &format!("{}{}", start, "b".repeat(here)));
    assert_eq!(session.step(&mut p, Event::Written), Action::Send(vec![0x62; here]));
    assert_eq!(session.step(&mut p, Event::Written), Action::ReadBody);
    assert_eq!(session.phase, Phase::BodyRead { site_name: s("a"), diff: 2000 - here });
}

#[test]
fn waiting_for_the_body_ends() {
    let mut p = proxy();
    let req = "POST /a HTTP/1.1\r\nContent-Length: 2000\r\n\r\n";
    let (mut session, _) = headers_of(&mut p, req);
    session.step(&mut p, Event::Written);
    assert_eq!(session.step(&mut p, Event::TimedOut), Action::Pipe);
    let (mut session, _) = headers_of(&mut p, req);
    session.step(&mut p, Event::Written);
    assert_eq!(session.step(&mut p, Event::ReadFailed), Action::Close);
    let (mut session, _) = headers_of(&mut p, req);
    session.step(&mut p, Event::Written);
    session.step(&mut p, Event::Read(b("x")));
    assert_eq!(session.step(&mut p, Event::WriteFailed), Action::ReplyAndClose(b(FAILURE)));
}

#[test]
fn immense_length_is_waited_for() {
    let mut p = proxy();
    let req = format!("POST /a HTTP/1.1\r\nContent-Length: {}\r\n\r\n", usize::MAX);
    let (mut session, _) = headers_of(&mut p, &req);
    assert_eq!(session.step(&mut p, Event::Written), Action::ReadBody);
    assert_eq!(session.phase, Phase::BodyRead { site_name: s("a"), diff: usize::MAX - (1024 - req.len()) });
}

#[test]
fn refused_requests_end_the_connection() {
    let mut p = proxy();
    let refused = |a: &str| Action::ReplyAndClose(b(a));
    assert_eq!(request(&mut p, "").1, refused(BAD));
    assert_eq!(request(&mut p, "x").1, refused(BAD));
    assert_eq!(request(&mut p, "nonsense").1, refused(BAD));
    assert_eq!(request(&mut p, "GET /unknown HTTP/1.1\r\n\r\n").1, refused(NOT_FOUND));
    assert_eq!(request(&mut p, "\r\n").1, refused(BAD));
    for event in [Event::ReadFailed, Event::TimedOut] {
        assert_eq!(Session::new(s("ip")).0.step(&mut p, event), Action::Close);
    }
}

#[test]
fn own_pages_are_served_again() {
    let mut p = proxy();
    let (mut session, action) = request(&mut p, "GET / HTTP/1.1\r\n\r\n");
    assert_eq!(action, Action::ServeHome);
    assert_eq!(session.step(&mut p, Event::Replied), Action::ServeHome);
    let (mut session, action) = request(&mut p, "GET /favicon.ico HTTP/1.1\r\n\r\n");
    assert_eq!(action, Action::Reply(b(NOT_FOUND)));
    assert_eq!(session.step(&mut p, Event::Replied), Action::Reply(b(NOT_FOUND)));
}

#[test]
fn unreachable_sites_end_the_connection() {
    let mut p = proxy();
    let tunnel = ServerInfo { tunnel: true, ..ServerInfo::new(s("t"), s("x:2")) };
    p.sites.server_info_map.store(s("t"), tunnel);
    let secure = ServerInfo { secure: true, ..ServerInfo::new(s("s"), s("x:3")) };
    p.sites.server_info_map.store(s("s"), secure);
    assert_eq!(request(&mut p, "GET /t HTTP/1.1\r\n\r\n").1, Action::Close);
    let (mut session, action) = request(&mut p, "GET /s HTTP/1.1\r\n\r\n");
    assert_eq!(action, Action::Connect(s("x:3")));
    assert_eq!(session.step(&mut p, Event::Connected), Action::Close);
    let (mut session, _) = request(&mut p, "GET /a HTTP/1.1\r\n\r\n");
    let failure = || Action::ReplyAndClose(b(FAILURE));
    assert_eq!(session.step(&mut p, Event::ConnectFailed), failure());
    let (mut session, _) = request(&mut p, "GET /a HTTP/1.1\r\n\r\n");
    session.step(&mut p, Event::Connected);
    assert_eq!(session.step(&mut p, Event::WriteFailed), failure());
    let (mut session, _) = headers_of(&mut p, "GET /a HTTP/1.1\r\n\r\n");
    assert_eq!(session.step(&mut p, Event::WriteFailed), failure());
    let (mut session, _) = headers_of(&mut p, "GET /a HTTP/1.1\r\n\r\nbody");
    session.step(&mut p, Event::Written);
    assert_eq!(session.step(&mut p, Event::WriteFailed), failure());
}

#[test]
fn joined_client_is_sent_on_as_it_is() {
    let mut p = proxy();
    let mut session = joined(&mut p);
    let req = b("GET /a/y HTTP/1.1\r\n\r\n");
    let action = session.client_step(ClientEvent::Read(req.clone()));
    assert_eq!(action, ClientAction::Forward(req));
    assert_eq!(session.client_step(ClientEvent::Forwarded), ClientAction::Read);
    let action = session.client_step(ClientEvent::Read(b("raw bytes")));
    assert_eq!(action, ClientAction::Forward(b("raw bytes")));
    let icon = b("GET /favicon.ico HTTP/1.1\r\n\r\n");
    assert_eq!(session.client_step(ClientEvent::Read(icon)), ClientAction::Read);
    assert_eq!(session.client_step(ClientEvent::Read(b("\n"))), ClientAction::Forward(b("\n")));
}

#[test]
fn joined_client_parts() {
    let mut p = proxy();
    let mut session = joined(&mut p);
    let left = |res| ClientAction::End(Either::Left(res));
    assert_eq!(session.client_step(ClientEvent::Read(vec![])), left(Ok(0)));
    assert_eq!(session.client_step(ClientEvent::ReadFailed), left(Err(Failed)));
    assert_eq!(
        session.client_step(ClientEvent::ForwardFailed),
        ClientAction::End(Either::Right(Err(Failed)))
    );
    let req = "GET /mbp/z HTTP/1.1\r\n\r\n";
    assert_eq!(session.client_step(ClientEvent::Read(b(req))), left(Ok(req.len())));
    let end = PipeEnd::Client(Either::Left(Ok(req.len())));
    let action = session.step(&mut p, Event::PipeEnded(end));
    assert_eq!(action, Action::Connect(s("192.168.1.130:9000")));
}

#[test]
fn site_is_piped_to_the_client() {
    let step = Session::server_step;
    assert_eq!(step(ServerEvent::Read(b("hi"))), ServerAction::Write(b("hi")));
    assert_eq!(step(ServerEvent::Read(vec![])), ServerAction::End(Either::Right(Ok(0))));
    assert_eq!(step(ServerEvent::Written), ServerAction::Read);
    assert_eq!(step(ServerEvent::ReadFailed), ServerAction::End(Either::Right(Err(Failed))));
    assert_eq!(step(ServerEvent::WriteFailed), ServerAction::End(Either::Left(Err(Failed))));
}

#[test]
fn parted_client_goes_on() {
    let mut p = proxy();
    let end = |p: &mut Proxy, end| joined(p).step(p, Event::PipeEnded(end));
    assert_eq!(end(&mut p, PipeEnd::Client(Either::Left(Ok(0)))), Action::Close);
    assert_eq!(end(&mut p, PipeEnd::Client(Either::Left(Err(Failed)))), Action::Close);
    assert_eq!(end(&mut p, PipeEnd::Server(Either::Left(Err(Failed)))), Action::Read);
    assert_eq!(end(&mut p, PipeEnd::Server(Either::Left(Ok(0)))), Action::Read);
    assert_eq!(end(&mut p, PipeEnd::Server(Either::Right(Ok(0)))), Action::Read);
    assert_eq!(end(&mut p, PipeEnd::Client(Either::Right(Ok(0)))), Action::Read);
    let failure = || Action::Reply(b(FAILURE));
    assert_eq!(end(&mut p, PipeEnd::Client(Either::Right(Err(Failed)))), failure());
    let mut session = joined(&mut p);
    let lost = PipeEnd::Server(Either::Right(Err(Failed)));
    assert_eq!(session.step(&mut p, Event::PipeEnded(lost)), failure());
    assert_eq!(session.step(&mut p, Event::Replied), Action::Read);
}
