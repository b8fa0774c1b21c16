//! The proxy that handles first lines.

use rusty_proxy::line_proxy::Action;
use rusty_proxy::line_proxy::Event;
use rusty_proxy::line_proxy::Phase;
use rusty_proxy::line_proxy::PipeAction;
use rusty_proxy::line_proxy::PipeEvent;
use rusty_proxy::line_proxy::Proxy;
use rusty_proxy::line_proxy::Session;
use rusty_proxy::named_sites::ProxyStatus;
use rusty_proxy::proxy::session::Either;
use rusty_proxy::proxy::session::Failed;
use rusty_proxy::server::ServerInfo;

type Act = Action<Vec<u8>, String>;

const BAD: &str = "HTTP/1.1 400 400 Bad Request\r\n\r\n";
const NOT_FOUND: &str = "HTTP/1.1 404 Not Found\r\n\r\n";
const FAILURE: &str = "HTTP/1.1 500 Internal Server Error\r\n\r\n";

fn s(t: &str) -> String {
    t.to_string()
}

fn b(t: &str) -> Vec<u8> {
    t.as_bytes().to_vec()
}

fn proxy() -> Proxy {
    Proxy::new(Some(s("127.0.0.1:8000"))).unwrap()
}

fn line(p: &mut Proxy, l: &str) -> (Session, Act) {
    let (mut session, action) = Session::new(s("10.0.0.7"));
    assert_eq!(action, Action::ReadLine);
    let action = session.step(p, Event::Line(b(l)));
    (session, action)
}

#[test]
fn four_servers_are_served() {
    let mut p = proxy();
    assert!(Proxy::new(None).is_err());
    for (name, addr) in [
        ("server1", "127.0.0.1:9000"),
        ("server2", "127.0.0.1:9001"),
        ("server3", "127.0.0.1:9002"),
        ("server4", "127.0.0.1:9003"),
    ] {
        let info = p.sites.server_info_map.load(&s(name)).unwrap();
        assert_eq!(*info, ServerInfo::new(s(name), s(addr)));
    }
    assert_eq!(p.sites.server_info_map.keys().len(), 4);
    assert_eq!(p.sites.addr, "127.0.0.1:8000");
    assert_eq!(p.sites.status, ProxyStatus::NotStarted);
    assert_eq!((p.sites.num_running, p.sites.tunnel_reqs), (0, 0));
    assert!(!p.sites.connector && !p.sites.shutdown && !p.sites.force_shutdown);
    assert_eq!(p.sites.command_password, "");
}

#[test]
fn site_is_captured_from_the_line() {
    let group = |l: &str| Proxy::capture_site(l.as_bytes());
    assert_eq!(group("GET /server1/x HTTP/1.1\r\n"), Some(Some(b("server1"))));
    assert_eq!(group("GET /server1 HTTP/1.1\r\n"), Some(Some(b("server1"))));
    assert_eq!(group("GET / HTTP/1.1\r\n"), Some(None));
    assert_eq!(group("GET //x HTTP/1.1\r\n"), Some(None));
    assert_eq!(group("GET server1 HTTP/1.1\r\n"), None);
    assert_eq!(group("GET /server1\r\n"), None);
    assert_eq!(group(""), None);
}

#[test]
fn line_is_sent_without_the_name() {
    let mut p = proxy();
    let (mut session, action) = line(&mut p, "GET /server1/x HTTP/1.1\r\n");
    assert_eq!(action, Action::Connect(s("127.0.0.1:9000")));
    let sent = b("GET //x HTTP/1.1\r\nForwarded: for=10.0.0.7\r\n");
    assert_eq!(session.step(&mut p, Event::Connected), Action::Send(sent));
    assert_eq!(session.step(&mut p, Event::Sent), Action::SendBuffered);
    assert_eq!(session.step(&mut p, Event::Sent), Action::Pipe);
    assert_eq!(session.phase, Phase::Piping);
}

#[test]
fn name_is_taken_out_of_the_path() {
    let mut p = proxy();
    p.sites.server_info_map.store(s("E"), ServerInfo::new(s("E"), s("x:1")));
    let (mut session, action) = line(&mut p, "GET /E HTTP/1.1\r\n");
    assert_eq!(action, Action::Connect(s("x:1")));
    let sent = b("GET / HTTP/1.1\r\nForwarded: for=10.0.0.7\r\n");
    assert_eq!(session.step(&mut p, Event::Connected), Action::Send(sent));
}

#[test]
fn bad_lines_are_refused() {
    let mut p = proxy();
    for l in ["", "G", "nonsense\r\n", "GET server1 HTTP/1.1\r\n"] {
        let (session, action) = line(&mut p, l);
        assert_eq!(action, Action::ReplyAndClose(b(BAD)), "{:?}", l);
        assert_eq!(session.phase, Phase::Done);
    }
}

#[test]
fn unknown_names_are_not_found() {
    let mut p = proxy();
    for l in ["GET /server5 HTTP/1.1\r\n", "GET /favicon.ico HTTP/1.1\r\n"] {
        let (_, action) = line(&mut p, l);
        assert_eq!(action, Action::ReplyAndClose(b(NOT_FOUND)), "{:?}", l);
    }
}

#[test]
fn line_without_a_name_is_refused() {
    let mut p = proxy();
    for l in ["GET / HTTP/1.1\r\n", "GET //x HTTP/1.1\r\n"] {
        let (session, action) = line(&mut p, l);
        assert_eq!(action, Action::ReplyAndClose(b(BAD)));
        assert_eq!(session.phase, Phase::Done);
    }
}

#[test]
fn any_capture_is_planned_for() {
    let mut p = proxy();
    let mut plan = |l: &[u8], captured| Session::new(s("ip")).0.plan(&mut p, l, captured);
    let l = "GET /server1 HTTP\r\n".as_bytes();
    assert_eq!(plan(l, None), Action::ReplyAndClose(b(BAD)));
    let bad = || Action::ReplyAndClose(b(BAD));
    assert_eq!(plan(l, Some(None)), bad());
    assert_eq!(plan(l, Some(Some(vec![0xff]))), Action::ReplyAndClose(b(BAD)));
    assert_eq!(plan(l, Some(Some(vec![]))), Action::Close);
    assert_eq!(plan(l, Some(Some(b("favicon.ico")))), Action::ReplyAndClose(b(NOT_FOUND)));
    assert_eq!(plan(l, Some(Some(b("server1")))), Action::Connect(s("127.0.0.1:9000")));
    assert_eq!(plan(&[0x2f, 0xff, 0xff], Some(Some(b("server1")))), bad());
    assert_eq!(plan("no slash".as_bytes(), Some(Some(b("server1")))), bad());
    assert_eq!(plan("/short".as_bytes(), Some(Some(b("server1")))), bad());
    assert_eq!(plan("GET /server2 HTTP".as_bytes(), Some(Some(b("server1")))), bad());
}

#[test]
fn tunneled_site_is_closed() {
    let mut p = proxy();
    let info = ServerInfo { tunnel: true, ..ServerInfo::new(s("t"), s("x:1")) };
    p.sites.server_info_map.store(s("t"), info);
    let (_, action) = line(&mut p, "POST /t HTTP/1.1\r\n");
    assert_eq!(action, Action::Close);
}

#[test]
fn secure_site_needs_a_connector() {
    let mut p = proxy();
    let info = ServerInfo { secure: true, ..ServerInfo::new(s("x"), s("x:1")) };
    p.sites.server_info_map.store(s("x"), info);
    let (mut session, _) = line(&mut p, "POST /x HTTP/1.1\r\n");
    assert_eq!(session.step(&mut p, Event::Connected), Action::Close);
    p.sites.connector = true;
    let (mut session, _) = line(&mut p, "POST /x HTTP/1.1\r\n");
    let sent = b("POST / HTTP/1.1\r\nForwarded: for=10.0.0.7\r\n");
    assert_eq!(session.step(&mut p, Event::Connected), Action::Send(sent));
}

#[test]
fn failures_end_the_connection() {
    let mut p = proxy();
    for event in [Event::ReadFailed, Event::TimedOut] {
        let (mut session, _) = Session::new(s("ip"));
        assert_eq!(session.step(&mut p, event), Action::Close);
    }
    let failure = || Action::ReplyAndClose(b(FAILURE));
    let (mut session, _) = line(&mut p, "GET /server2 HTTP/1.1\r\n");
    assert_eq!(session.step(&mut p, Event::ConnectFailed), failure());
    let (mut session, _) = line(&mut p, "GET /server2 HTTP/1.1\r\n");
    session.step(&mut p, Event::Connected);
    assert_eq!(session.step(&mut p, Event::SendFailed), failure());
    let (mut session, _) = line(&mut p, "GET /server2 HTTP/1.1\r\n");
    session.step(&mut p, Event::Connected);
    session.step(&mut p, Event::Sent);
    assert_eq!(session.step(&mut p, Event::SendFailed), failure());
    assert_eq!(session.phase, Phase::Done);
}

#[test]
fn connections_are_piped() {
    let pipe = Proxy::pipe_conns;
    assert_eq!(pipe(PipeEvent::Read(b("hi"))), PipeAction::Write(b("hi")));
    assert_eq!(pipe(PipeEvent::Written), PipeAction::Read);
    assert_eq!(pipe(PipeEvent::Read(vec![])), PipeAction::End(Either::Left(Ok(()))));
    assert_eq!(pipe(PipeEvent::ReadFailed), PipeAction::End(Either::Left(Err(Failed))));
    assert_eq!(pipe(PipeEvent::WriteFailed), PipeAction::End(Either::Right(Err(Failed))));
}
