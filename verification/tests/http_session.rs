//! Sessions of the proxy.

use rusty_proxy::proxy::session::Action;
use rusty_proxy::proxy::session::ClientAction;
use rusty_proxy::proxy::session::ClientEvent;
use rusty_proxy::proxy::session::Either;
use rusty_proxy::proxy::session::Event;
use rusty_proxy::proxy::session::Failed;
use rusty_proxy::proxy::session::HttpSession;
use rusty_proxy::proxy::session::Phase;
use rusty_proxy::proxy::session::PipeEnd;
use rusty_proxy::proxy::session::ServerAction;
use rusty_proxy::proxy::session::ServerEvent;
use rusty_proxy::proxy::Proxy;
use rusty_proxy::server::Server;

type Act = Action<Vec<u8>, String>;

const BAD: &str = "HTTP/1.1 400 Bad Request\r\n\r\n";
const NOT_FOUND: &str = "HTTP/1.1 404 Not Found\r\n\r\n";
const FAILURE: &str = "HTTP/1.1 500 Internal Server Error\r\n\r\n";

fn b(t: &str) -> Vec<u8> {
    t.as_bytes().to_vec()
}

fn site(path: &str, addr: &str) -> Server {
    Server { addr: addr.to_string(), ..Server::new().name(path.to_string()).path(path.to_string()) }
}

fn proxy() -> Proxy {
    let mut p = Proxy::new(Some("127.0.0.1:8000".to_string())).unwrap();
    p.routes.store("a".to_string(), site("a", "x:1"));
    p.routes.store("b".to_string(), site("b", "x:2"));
    p.routes.store("s".to_string(), site("s", "x:3").secure(true));
    p
}

/// A session whose first request is `req`, of which four bytes were read before.
fn first(p: &mut Proxy, req: &str) -> (HttpSession, Act) {
    let (mut session, action) = HttpSession::new(&req.as_bytes()[..4]);
    assert_eq!(action, Action::Read { start: 4 });
    let action = session.step(p, Event::Read(b(&req[4..])));
    (session, action)
}

/// A session whose client is joined to the site `a`.
fn joined(p: &mut Proxy) -> HttpSession {
    let (mut session, action) = first(p, "GET /a/x HTTP/1.1\r\n\r\n");
    assert_eq!(action, Action::Connect("x:1".to_string()));
    let action = session.step(p, Event::Connected);
    assert_eq!(action, Action::Forward(b("GET /x HTTP/1.1\r\nRusty-Proxy-Path: a\r\n\r\n")));
    assert_eq!(session.step(p, Event::Forwarded), Action::Pipe);
    assert_eq!(session.phase, Phase::Piping { site_name: "a".to_string() });
    session
}

#[test]
fn first_read_completes_the_first_bytes() {
    let mut p = proxy();
    let (session, action) = first(&mut p, "GET / HTTP/1.1\r\n\r\n");
    assert_eq!(action, Action::Reply(p.home_html_bytes.clone()));
    assert_eq!(session.bytes_read, 0);
    assert_eq!(&session.req_buf[..18], "GET / HTTP/1.1\r\n\r\n".as_bytes());
    assert_eq!(session.req_buf.len(), 1024);
}

#[test]
fn failed_read_ends_the_session() {
    let mut p = proxy();
    for event in [Event::ReadFailed, Event::TimedOut] {
        let (mut session, _) = HttpSession::new(&[]);
        assert_eq!(session.step(&mut p, event), Action::Close);
        assert_eq!(session.phase, Phase::Done);
    }
}

#[test]
fn unparsable_request_is_refused() {
    let mut p = proxy();
    let (session, action) = first(&mut p, "nonsense");
    assert_eq!(action, Action::ReplyAndClose(b(BAD)));
    assert_eq!(session.phase, Phase::Done);
}

#[test]
fn empty_request_is_refused() {
    let mut p = proxy();
    let (mut session, _) = HttpSession::new(&[]);
    assert_eq!(session.step(&mut p, Event::Read(vec![])), Action::Read { start: 0 });
    assert_eq!(session.step(&mut p, Event::Read(vec![])), Action::ReplyAndClose(b(BAD)));
}

#[test]
fn request_may_come_in_two_reads() {
    let mut p = proxy();
    let (mut session, action) = HttpSession::new("GE".as_bytes());
    assert_eq!(action, Action::Read { start: 2 });
    let action = session.step(&mut p, Event::Read(b("T / HTTP/1.1\r\n\r\n")));
    assert_eq!(action, Action::Reply(p.home_html_bytes.clone()));
}

#[test]
fn path_past_the_line_is_refused() {
    let mut p = proxy();
    let (session, action) = first(&mut p, "GET /x\r\nHost: a\r\n\r\n");
    assert_eq!(action, Action::ReplyAndClose(b(BAD)));
    assert_eq!(session.phase, Phase::Done);
}

#[test]
fn unserved_requests_are_answered_and_the_session_goes_on() {
    let mut p = proxy();
    for req in ["GET /c/x HTTP/1.1\r\n\r\n", "GET /favicon.ico HTTP/1.1\r\n\r\n"] {
        let (mut session, action) = first(&mut p, req);
        assert_eq!(action, Action::Reply(b(NOT_FOUND)));
        assert_eq!(session.step(&mut p, Event::Replied), Action::Read { start: 0 });
        let action = session.step(&mut p, Event::Read(b("GET /b HTTP/1.1\r\n\r\n")));
        assert_eq!(action, Action::Connect("x:2".to_string()));
    }
}

#[test]
fn site_to_be_added_is_decoded() {
    let mut p = proxy();
    let (mut session, action) = first(&mut p, "POST / HTTP/1.1\r\n\r\n{}");
    assert_eq!(action, Action::Decode(b("{}")));
    assert_eq!(session.step(&mut p, Event::Decoded(None)), Action::Reply(b(BAD)));
    let (mut session, _) = first(&mut p, "POST / HTTP/1.1\r\n\r\n{}");
    let decoded = Event::Decoded(Some(site("n", "x:9")));
    assert_eq!(session.step(&mut p, decoded), Action::Read { start: 0 });
    assert!(p.routes.load(&"n".to_string()).is_none());
}

#[test]
fn site_is_deleted() {
    let mut p = proxy();
    let (mut session, action) = first(&mut p, "DELETE / HTTP/1.1\r\n\r\n{}");
    assert_eq!(action, Action::Decode(b("{}")));
    let action = session.step(&mut p, Event::Decoded(Some(site("a", "x:1"))));
    assert_eq!(action, Action::Reply(b("HTTP/1.1 200 OK\r\n\r\n")));
    assert!(p.routes.load(&"a".to_string()).is_none());
    assert_eq!(p.routes.keys().len(), 2);
    let (mut session, _) = first(&mut p, "DELETE / HTTP/1.1\r\n\r\n{}");
    let action = session.step(&mut p, Event::Decoded(Some(site("a", "x:1"))));
    assert_eq!(action, Action::Reply(b(NOT_FOUND)));
    let (_, action) = first(&mut p, "GET /a HTTP/1.1\r\n\r\n");
    assert_eq!(action, Action::Reply(b(NOT_FOUND)));
}

#[test]
fn unreachable_site_is_reported() {
    let mut p = proxy();
    let (mut session, _) = first(&mut p, "GET /a HTTP/1.1\r\n\r\n");
    assert_eq!(session.step(&mut p, Event::ConnectFailed), Action::Reply(b(FAILURE)));
    let (mut session, _) = first(&mut p, "GET /a HTTP/1.1\r\n\r\n");
    session.step(&mut p, Event::Connected);
    assert_eq!(session.step(&mut p, Event::ForwardFailed), Action::Reply(b(FAILURE)));
    assert_eq!(session.step(&mut p, Event::Replied), Action::Read { start: 0 });
}

#[test]
fn secure_site_without_a_connector_is_reported() {
    let mut p = proxy();
    let (mut session, action) = first(&mut p, "GET /s HTTP/1.1\r\n\r\n");
    assert_eq!(action, Action::Connect("x:3".to_string()));
    assert_eq!(session.step(&mut p, Event::Connected), Action::Reply(b(FAILURE)));
    p.connector = true;
    let (mut session, _) = first(&mut p, "GET /s HTTP/1.1\r\n\r\n");
    let action = session.step(&mut p, Event::Connected);
    assert_eq!(action, Action::Forward(b("GET / HTTP/1.1\r\nRusty-Proxy-Path: s\r\n\r\n")));
}

#[test]
fn request_from_another_proxy_is_forwarded() {
    let mut p = proxy();
    let req = "GET /a HTTP/1.1\r\nRusty-Proxy-Path: z\r\n\r\n";
    let out = b("GET / HTTP/1.1\r\nRusty-Proxy-Path: z, a\r\n\r\n");
    let (mut session, _) = first(&mut p, req);
    assert_eq!(session.step(&mut p, Event::Connected), Action::Forward(out.clone()));
    let mut session = joined(&mut p);
    assert_eq!(session.client_step(ClientEvent::Read(b(req))), ClientAction::Forward(out));
}

#[test]
fn joined_client_is_forwarded() {
    let mut p = proxy();
    let mut session = joined(&mut p);
    let action = session.client_step(ClientEvent::Read(b("GET /a/y HTTP/1.1\r\n\r\n")));
    let out = b("GET /y HTTP/1.1\r\nRusty-Proxy-Path: a\r\n\r\n");
    assert_eq!(action, ClientAction::Forward(out));
    assert_eq!(session.client_step(ClientEvent::Forwarded), ClientAction::Read);
    let action = session.client_step(ClientEvent::Read(b("raw bytes")));
    assert_eq!(action, ClientAction::Forward(b("raw bytes")));
    let action = session.client_step(ClientEvent::Read(b("GET /favicon.ico HTTP/1.1\r\n\r\n")));
    assert_eq!(action, ClientAction::Favicon);
    assert_eq!(session.client_step(ClientEvent::FaviconAsked), ClientAction::Read);
    let action = session.client_step(ClientEvent::Read(b("GET /a\nb HTTP\r\n")));
    assert_eq!(action, ClientAction::Forward(b("GET /a\nb HTTP\r\n")));
}

#[test]
fn joined_client_ends() {
    let mut p = proxy();
    let mut session = joined(&mut p);
    let left = |res| ClientAction::End(Either::Left(res));
    assert_eq!(session.client_step(ClientEvent::Read(vec![])), left(Ok(0)));
    assert_eq!(session.client_step(ClientEvent::ReadFailed), left(Err(Failed)));
    assert_eq!(
        session.client_step(ClientEvent::ForwardFailed),
        ClientAction::End(Either::Right(Some(Failed)))
    );
}

#[test]
fn request_for_another_site_changes_sites() {
    let mut p = proxy();
    let mut session = joined(&mut p);
    let req = "GET /b/z HTTP/1.1\r\n\r\n";
    let action = session.client_step(ClientEvent::Read(b(req)));
    assert_eq!(action, ClientAction::End(Either::Left(Ok(req.len()))));
    let end = PipeEnd::Client(Either::Left(Ok(req.len())));
    assert_eq!(session.step(&mut p, Event::PipeEnded(end)), Action::Connect("x:2".to_string()));
    let action = session.step(&mut p, Event::Connected);
    assert_eq!(action, Action::Forward(b("GET /z HTTP/1.1\r\nRusty-Proxy-Path: b\r\n\r\n")));
}

#[test]
fn site_answers_the_client() {
    let step = HttpSession::server_step;
    assert_eq!(step(ServerEvent::Read(b("hi"))), ServerAction::Write(b("hi")));
    assert_eq!(step(ServerEvent::Read(vec![])), ServerAction::Write(vec![]));
    assert_eq!(step(ServerEvent::Written), ServerAction::Listen);
    assert_eq!(step(ServerEvent::FaviconAsked), ServerAction::Write(b(NOT_FOUND)));
    assert_eq!(
        step(ServerEvent::ReadFailed),
        ServerAction::End(Either::Right(Some(Failed)))
    );
    assert_eq!(step(ServerEvent::WriteFailed), ServerAction::End(Either::Left(Err(Failed))));
}

#[test]
fn parted_session_goes_on() {
    let mut p = proxy();
    let end = |p: &mut Proxy, end| joined(p).step(p, Event::PipeEnded(end));
    let closed = PipeEnd::Client(Either::Left(Ok(0)));
    assert_eq!(end(&mut p, closed), Action::Close);
    let failed = PipeEnd::Client(Either::Left(Err(Failed)));
    assert_eq!(end(&mut p, failed), Action::Close);
    let site_lost = PipeEnd::Client(Either::Right(Some(Failed)));
    assert_eq!(end(&mut p, site_lost), Action::Reply(b(FAILURE)));
    let site_lost = PipeEnd::Server(Either::Right(Some(Failed)));
    assert_eq!(end(&mut p, site_lost), Action::Reply(b(FAILURE)));
    let nothing_left = PipeEnd::Server(Either::Left(Ok(0)));
    assert_eq!(end(&mut p, nothing_left), Action::Read { start: 0 });
}

#[test]
fn request_is_handled_again_when_the_client_cannot_be_written_to() {
    let mut p = proxy();
    let mut session = joined(&mut p);
    let lost = PipeEnd::Server(Either::Left(Err(Failed)));
    assert_eq!(session.step(&mut p, Event::PipeEnded(lost)), Action::Connect("x:1".to_string()));
}
