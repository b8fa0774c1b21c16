//! One client's HTTP connection, request after request.
//!
//! A session decides; whoever runs it acts. Each [`Action`] tells what to do next, and what came
//! of it goes back in as an [`Event`]. While a client and a site are joined, the two directions
//! run side by side, each with its own actions and events.

use vstd::prelude::*;
use vstd::utf8::*;

use crate::proxy;
use crate::proxy::forward;
use crate::proxy::site;
use crate::proxy::Base;
use crate::proxy::Proxy;
use crate::proxy::BUFFER_SIZE;
use crate::response::BAD_REQUEST_RESPONSE;
use crate::response::INTERNAL_SERVER_ERROR_RESPONSE;
use crate::response::NOT_FOUND_RESPONSE;
use crate::server::Server;
use crate::text;

verus! {

/// One of two.
#[derive(Debug, PartialEq, Eq)]
pub enum Either<L, R> {
    Left(L),
    Right(R),
}

/// Something could not be read or written.
#[derive(Debug, Clone, Copy, PartialEq, Eq, Structural)]
pub struct Failed;

/// How one direction between a client and a site ended: what concerns the client is on the left,
/// what concerns the site on the right. A number on the left is that of the bytes of a request
/// that is still to be handled.
pub type Ending = Either<Result<usize, Failed>, Option<Failed>>;

/// Which direction between a client and a site ended first, and how.
#[derive(Debug, PartialEq, Eq)]
pub enum PipeEnd {
    /// From the client to the site.
    Client(Ending),
    /// From the site to the client.
    Server(Ending),
}

/// What is to be done next.
#[derive(Debug, PartialEq, Eq)]
pub enum Action<B, S> {
    /// Read from the client what fits the request buffer from `start` on, and wait for it as long
    /// as requests are waited for.
    Read { start: usize },
    /// Send the client an answer, whether or not it arrives.
    Reply(B),
    /// Send the client an answer, whether or not it arrives, and end the connection.
    ReplyAndClose(B),
    /// End the connection.
    Close,
    /// Decode a site from its description.
    Decode(B),
    /// Connect to the site at an address.
    Connect(S),
    /// Send the site a request.
    Forward(B),
    /// Join the client and the site.
    Pipe,
}

/// What came of an action.
#[derive(Debug, PartialEq, Eq)]
pub enum Event<B> {
    Read(B),
    ReadFailed,
    TimedOut,
    Replied,
    /// The site decoded, if the description was good.
    Decoded(Option<Server>),
    Connected,
    ConnectFailed,
    Forwarded,
    ForwardFailed,
    PipeEnded(PipeEnd),
}

/// What a session waits for.
#[derive(Debug, PartialEq, Eq)]
pub enum Phase<S> {
    /// The rest of the first request, of which so many bytes are there.
    FirstRead(usize),
    /// A request.
    Request,
    /// An answer to be sent.
    Replying,
    /// A site to be added to be decoded.
    AddServer,
    /// A site to be deleted to be decoded.
    DeleteServer,
    /// The connection to a site.
    Connecting { site_name: S, first_line: S, secure: bool },
    /// A request to be sent to a site.
    Sending { site_name: S },
    /// The client and a site to be parted again.
    Piping { site_name: S },
    /// Nothing.
    Done,
}

/// What the direction from the client to the site does next.
#[derive(Debug, PartialEq, Eq)]
pub enum ClientAction<B> {
    /// Read from the client what fits the request buffer.
    Read,
    /// Let the other direction answer a request for an icon, then read on.
    Favicon,
    /// Send the site a request.
    Forward(B),
    End(Ending),
}

/// What came of an action of the direction from the client to the site.
#[derive(Debug, PartialEq, Eq)]
pub enum ClientEvent<B> {
    Read(B),
    ReadFailed,
    FaviconAsked,
    Forwarded,
    ForwardFailed,
}

/// What the direction from the site to the client does next.
#[derive(Debug, PartialEq, Eq)]
pub enum ServerAction<B> {
    /// Wait for the site to send something, or for a request for an icon.
    Listen,
    /// Send the client a piece of an answer.
    Write(B),
    End(Ending),
}

/// What came of an action of the direction from the site to the client.
#[derive(Debug, PartialEq, Eq)]
pub enum ServerEvent<B> {
    Read(B),
    ReadFailed,
    FaviconAsked,
    Written,
    WriteFailed,
}

impl View for Action<Vec<u8>, String> {
    type V = Action<Seq<u8>, Seq<char>>;

    open spec fn view(&self) -> Action<Seq<u8>, Seq<char>> {
        match self {
            Action::Read { start } => Action::Read { start: *start },
            Action::Reply(b) => Action::Reply(b@),
            Action::ReplyAndClose(b) => Action::ReplyAndClose(b@),
            Action::Close => Action::Close,
            Action::Decode(b) => Action::Decode(b@),
            Action::Connect(s) => Action::Connect(s@),
            Action::Forward(b) => Action::Forward(b@),
            Action::Pipe => Action::Pipe,
        }
    }
}

impl View for Event<Vec<u8>> {
    type V = Event<Seq<u8>>;

    open spec fn view(&self) -> Event<Seq<u8>> {
        match self {
            Event::Read(b) => Event::Read(b@),
            Event::ReadFailed => Event::ReadFailed,
            Event::TimedOut => Event::TimedOut,
            Event::Replied => Event::Replied,
            Event::Decoded(s) => Event::Decoded(*s),
            Event::Connected => Event::Connected,
            Event::ConnectFailed => Event::ConnectFailed,
            Event::Forwarded => Event::Forwarded,
            Event::ForwardFailed => Event::ForwardFailed,
            Event::PipeEnded(end) => Event::PipeEnded(*end),
        }
    }
}

impl View for Phase<String> {
    type V = Phase<Seq<char>>;

    open spec fn view(&self) -> Phase<Seq<char>> {
        match self {
            Phase::FirstRead(n) => Phase::FirstRead(*n),
            Phase::Request => Phase::Request,
            Phase::Replying => Phase::Replying,
            Phase::AddServer => Phase::AddServer,
            Phase::DeleteServer => Phase::DeleteServer,
            Phase::Connecting { site_name, first_line, secure } => Phase::Connecting {
                site_name: site_name@,
                first_line: first_line@,
                secure: *secure,
            },
            Phase::Sending { site_name } => Phase::Sending { site_name: site_name@ },
            Phase::Piping { site_name } => Phase::Piping { site_name: site_name@ },
            Phase::Done => Phase::Done,
        }
    }
}

impl View for ClientAction<Vec<u8>> {
    type V = ClientAction<Seq<u8>>;

    open spec fn view(&self) -> ClientAction<Seq<u8>> {
        match self {
            ClientAction::Read => ClientAction::Read,
            ClientAction::Favicon => ClientAction::Favicon,
            ClientAction::Forward(b) => ClientAction::Forward(b@),
            ClientAction::End(end) => ClientAction::End(*end),
        }
    }
}

impl View for ClientEvent<Vec<u8>> {
    type V = ClientEvent<Seq<u8>>;

    open spec fn view(&self) -> ClientEvent<Seq<u8>> {
        match self {
            ClientEvent::Read(b) => ClientEvent::Read(b@),
            ClientEvent::ReadFailed => ClientEvent::ReadFailed,
            ClientEvent::FaviconAsked => ClientEvent::FaviconAsked,
            ClientEvent::Forwarded => ClientEvent::Forwarded,
            ClientEvent::ForwardFailed => ClientEvent::ForwardFailed,
        }
    }
}

impl View for ServerAction<Vec<u8>> {
    type V = ServerAction<Seq<u8>>;

    open spec fn view(&self) -> ServerAction<Seq<u8>> {
        match self {
            ServerAction::Listen => ServerAction::Listen,
            ServerAction::Write(b) => ServerAction::Write(b@),
            ServerAction::End(end) => ServerAction::End(*end),
        }
    }
}

impl View for ServerEvent<Vec<u8>> {
    type V = ServerEvent<Seq<u8>>;

    open spec fn view(&self) -> ServerEvent<Seq<u8>> {
        match self {
            ServerEvent::Read(b) => ServerEvent::Read(b@),
            ServerEvent::ReadFailed => ServerEvent::ReadFailed,
            ServerEvent::FaviconAsked => ServerEvent::FaviconAsked,
            ServerEvent::Written => ServerEvent::Written,
            ServerEvent::WriteFailed => ServerEvent::WriteFailed,
        }
    }
}

/// A client's HTTP connection.
pub struct HttpSession {
    /// Where requests are read to.
    pub req_buf: Vec<u8>,
    /// How many bytes of the buffer are the request; none if one is still to be read.
    pub bytes_read: usize,
    pub phase: Phase<String>,
}

/// The state of a session.
#[verifier::ext_equal]
pub struct State {
    pub req_buf: Seq<u8>,
    pub bytes_read: int,
    pub phase: Phase<Seq<char>>,
}

/// A buffer after bytes were read into it at some place.
pub open spec fn written(buf: Seq<u8>, at: int, b: Seq<u8>) -> Seq<u8> {
    buf.take(at) + b + buf.skip(at + b.len())
}

/// A next state and the action that leads on from it.
pub type Next = (State, Action<Seq<u8>, Seq<char>>);

impl State {
    /// The request in the buffer.
    pub open spec fn request(self) -> Seq<u8> {
        self.req_buf.take(self.bytes_read)
    }

    /// The same buffer in another phase.
    pub open spec fn to(self, phase: Phase<Seq<char>>) -> State {
        State { phase, ..self }
    }

    /// The request is answered, and done with.
    pub open spec fn reply(self, answer: Seq<u8>) -> Next {
        (State { bytes_read: 0, phase: Phase::Replying, ..self }, Action::Reply(answer))
    }

    /// The next request is to be read.
    pub open spec fn read_request(self) -> Next {
        (State { bytes_read: 0, phase: Phase::Request, ..self }, Action::Read { start: 0 })
    }

    /// The connection is over.
    pub open spec fn close(self) -> Next {
        (self.to(Phase::Done), Action::Close)
    }

    /// What the request in the buffer leads to.
    pub open spec fn route(self, routes: Map<Seq<char>, Server>, home: Seq<u8>) -> Next {
        let req = self.request();
        let name = decode_utf8(site::site_name(req));
        if !site::names_site(req) {
            (self.to(Phase::Done), Action::ReplyAndClose(encode_utf8(BAD_REQUEST_RESPONSE@)))
        } else if name.len() == 0 {
            match proxy::base_request(req, home) {
                Base::Reply(answer) => self.reply(answer),
                Base::Add(body) => (self.to(Phase::AddServer), Action::Decode(body)),
                Base::Delete(body) => (self.to(Phase::DeleteServer), Action::Decode(body)),
            }
        } else if name == "favicon.ico"@ || !routes.contains_key(name) {
            self.reply(encode_utf8(NOT_FOUND_RESPONSE@))
        } else {
            (
                self.to(
                    Phase::Connecting {
                        site_name: name,
                        first_line: decode_utf8(site::line_without_site(req)),
                        secure: routes[name].secure,
                    },
                ),
                Action::Connect(routes[name].addr@),
            )
        }
    }

    /// What follows with `n` bytes of a request in the buffer.
    pub open spec fn go_on(self, n: int, routes: Map<Seq<char>, Server>, home: Seq<u8>) -> Next {
        if n == 0 {
            self.read_request()
        } else {
            State { bytes_read: n, ..self }.route(routes, home)
        }
    }

    /// What follows when the client and a site are parted.
    pub open spec fn parted(
        self,
        end: PipeEnd,
        routes: Map<Seq<char>, Server>,
        home: Seq<u8>,
    ) -> Next {
        match end {
            PipeEnd::Client(Either::Left(Ok(0))) => self.close(),
            PipeEnd::Client(Either::Left(Ok(n))) => self.go_on(n as int, routes, home),
            PipeEnd::Client(Either::Left(Err(_))) => self.close(),
            PipeEnd::Server(Either::Left(Ok(n))) => self.go_on(n as int, routes, home),
            PipeEnd::Server(Either::Left(Err(_))) => self.go_on(self.bytes_read, routes, home),
            PipeEnd::Client(Either::Right(_)) | PipeEnd::Server(Either::Right(_)) => self.reply(
                encode_utf8(INTERNAL_SERVER_ERROR_RESPONSE@),
            ),
        }
    }

    /// What follows when the site was connected to.
    pub open spec fn connected(
        self,
        site_name: Seq<char>,
        first_line: Seq<char>,
        secure: bool,
        connector: bool,
    ) -> Next {
        let req = self.request();
        if secure && !connector {
            self.reply(encode_utf8(INTERNAL_SERVER_ERROR_RESPONSE@))
        } else {
            (
                self.to(Phase::Sending { site_name }),
                Action::Forward(
                    forward::forwarded(req, encode_utf8(site_name), encode_utf8(first_line)),
                ),
            )
        }
    }

    /// The events that can come in this state.
    pub open spec fn expects(self, event: Event<Seq<u8>>) -> bool {
        match (self.phase, event) {
            (Phase::FirstRead(n), Event::Read(b)) => n + b.len() <= BUFFER_SIZE,
            (Phase::Request, Event::Read(b)) => b.len() <= BUFFER_SIZE,
            (Phase::FirstRead(_) | Phase::Request, Event::ReadFailed | Event::TimedOut) => true,
            (Phase::Replying, Event::Replied) => true,
            (Phase::AddServer | Phase::DeleteServer, Event::Decoded(_)) => true,
            (Phase::Connecting { .. }, Event::Connected | Event::ConnectFailed) => true,
            (Phase::Sending { .. }, Event::Forwarded | Event::ForwardFailed) => true,
            (Phase::Piping { .. }, Event::PipeEnded(end)) => match end {
                PipeEnd::Client(Either::Left(Ok(n))) => n <= BUFFER_SIZE,
                PipeEnd::Server(Either::Left(Ok(n))) => n <= BUFFER_SIZE,
                PipeEnd::Client(Either::Right(e)) | PipeEnd::Server(Either::Right(e)) => e is Some,
                _ => true,
            },
            _ => false,
        }
    }

    /// What an event leads to, with the sites served, the home page, and whether sites can be
    /// reached over TLS.
    pub open spec fn step(
        self,
        event: Event<Seq<u8>>,
        routes: Map<Seq<char>, Server>,
        home: Seq<u8>,
        connector: bool,
    ) -> Next {
        match (self.phase, event) {
            (Phase::FirstRead(n), Event::Read(b)) => State {
                req_buf: written(self.req_buf, n as int, b),
                ..self
            }.go_on(n + b.len(), routes, home),
            (Phase::Request, Event::Read(b)) => State {
                req_buf: written(self.req_buf, 0, b),
                bytes_read: b.len() as int,
                phase: Phase::Request,
            }.route(routes, home),
            (Phase::Replying, Event::Replied) => self.read_request(),
            (Phase::AddServer, Event::Decoded(s)) => match proxy::add_answer(s) {
                Some(answer) => self.reply(encode_utf8(answer)),
                None => self.read_request(),
            },
            (Phase::DeleteServer, Event::Decoded(s)) => self.reply(
                encode_utf8(proxy::delete_answer(routes, s)),
            ),
            (Phase::Connecting { site_name, first_line, secure }, Event::Connected) =>
                self.connected(site_name, first_line, secure, connector),
            (Phase::Connecting { .. }, Event::ConnectFailed) => self.reply(
                encode_utf8(INTERNAL_SERVER_ERROR_RESPONSE@),
            ),
            (Phase::Sending { site_name }, Event::Forwarded) => (
                self.to(Phase::Piping { site_name }),
                Action::Pipe,
            ),
            (Phase::Sending { .. }, Event::ForwardFailed) => self.reply(
                encode_utf8(INTERNAL_SERVER_ERROR_RESPONSE@),
            ),
            (Phase::Piping { .. }, Event::PipeEnded(end)) => self.parted(end, routes, home),
            _ => self.close(),
        }
    }

    /// The sites served after an event.
    pub open spec fn routes_after(
        self,
        event: Event<Seq<u8>>,
        routes: Map<Seq<char>, Server>,
    ) -> Map<Seq<char>, Server> {
        match (self.phase, event) {
            (Phase::DeleteServer, Event::Decoded(s)) => proxy::after_delete(routes, s),
            _ => routes,
        }
    }

    /// What an event of the direction from the client to the site leads to.
    pub open spec fn client_step(self, event: ClientEvent<Seq<u8>>) -> (
        State,
        ClientAction<Seq<u8>>,
    ) {
        match event {
            ClientEvent::Read(b) => if b.len() == 0 {
                (self, ClientAction::End(Either::Left(Ok(0))))
            } else {
                let after = State { req_buf: written(self.req_buf, 0, b), ..self };
                (after, self.client_request(b))
            },
            ClientEvent::ReadFailed => (self, ClientAction::End(Either::Left(Err(Failed)))),
            ClientEvent::FaviconAsked | ClientEvent::Forwarded => (self, ClientAction::Read),
            ClientEvent::ForwardFailed => (self, ClientAction::End(Either::Right(Some(Failed)))),
        }
    }

    /// What the direction from the client to the site makes of a request.
    pub open spec fn client_request(self, req: Seq<u8>) -> ClientAction<Seq<u8>> {
        let name = decode_utf8(site::site_name(req));
        if !site::names_site(req) {
            ClientAction::Forward(req)
        } else if name == "favicon.ico"@ {
            ClientAction::Favicon
        } else if self.phase != (Phase::Piping { site_name: name }) {
            ClientAction::End(Either::Left(Ok(req.len() as usize)))
        } else {
            ClientAction::Forward(
                forward::forwarded(req, site::site_name(req), site::line_without_site(req)),
            )
        }
    }
}

/// What an event of the direction from the site to the client leads to.
pub open spec fn server_step(event: ServerEvent<Seq<u8>>) -> ServerAction<Seq<u8>> {
    match event {
        ServerEvent::Read(b) => ServerAction::Write(b),
        ServerEvent::ReadFailed => ServerAction::End(Either::Right(Some(Failed))),
        ServerEvent::FaviconAsked => ServerAction::Write(encode_utf8(NOT_FOUND_RESPONSE@)),
        ServerEvent::Written => ServerAction::Listen,
        ServerEvent::WriteFailed => ServerAction::End(Either::Left(Err(Failed))),
    }
}

impl View for HttpSession {
    type V = State;

    open spec fn view(&self) -> State {
        State {
            req_buf: self.req_buf@,
            bytes_read: self.bytes_read as int,
            phase: self.phase@,
        }
    }
}

impl HttpSession {
    /// The buffer has its size, and holds the request.
    pub open spec fn wf(&self) -> bool {
        &&& self.req_buf@.len() == BUFFER_SIZE
        &&& self.bytes_read <= BUFFER_SIZE
        &&& self.phase matches Phase::FirstRead(n) ==> n <= BUFFER_SIZE
    }

    /// A session whose first request starts with bytes that were read already, and what it does
    /// first.
    pub fn new(first_bytes: &[u8]) -> (res: (HttpSession, Action<Vec<u8>, String>))
        requires
            first_bytes@.len() <= BUFFER_SIZE,
        ensures
            res.0.wf(),
            res.0@ == (State {
                req_buf: written(
                    Seq::new(BUFFER_SIZE as nat, |i: int| 0u8),
                    0,
                    first_bytes@,
                ),
                bytes_read: 0,
                phase: Phase::FirstRead(first_bytes@.len() as usize),
            }),
            res.1@ == (Action::<Seq<u8>, Seq<char>>::Read {
                start: first_bytes@.len() as usize,
            }),
    {
        let mut req_buf: Vec<u8> = vec![0u8; BUFFER_SIZE];
        assert(req_buf@ =~= Seq::new(BUFFER_SIZE as nat, |i: int| 0u8));
        overwrite(&mut req_buf, 0, first_bytes);
        let n: usize = first_bytes.len();
        (
            HttpSession { req_buf, bytes_read: 0, phase: Phase::FirstRead(n) },
            Action::Read { start: n },
        )
    }

    /// Answers the request and is done with it.
    fn reply(&mut self, answer: &[u8]) -> (action: Action<Vec<u8>, String>)
        requires
            old(self).wf(),
        ensures
            final(self).wf(),
            (final(self)@, action@) == old(self)@.reply(answer@),
    {
        self.bytes_read = 0;
        self.phase = Phase::Replying;
        Action::Reply(text::to_vec(answer))
    }

    /// Asks for the next request.
    fn read_request(&mut self) -> (action: Action<Vec<u8>, String>)
        requires
            old(self).wf(),
        ensures
            final(self).wf(),
            (final(self)@, action@) == old(self)@.read_request(),
    {
        self.bytes_read = 0;
        self.phase = Phase::Request;
        Action::Read { start: 0 }
    }

    /// Ends the session.
    fn finish(&mut self, action: Action<Vec<u8>, String>) -> (res: Action<Vec<u8>, String>)
        requires
            old(self).wf(),
        ensures
            final(self).wf(),
            final(self)@ == old(self)@.to(Phase::Done),
            res == action,
    {
        self.phase = Phase::Done;
        action
    }

    /// Handles the request in the buffer.
    fn route(&mut self, proxy: &mut Proxy) -> (action: Action<Vec<u8>, String>)
        requires
            old(self).wf(),
            old(proxy).wf(),
        ensures
            final(self).wf(),
            final(proxy).wf(),
            final(proxy).same_but_layout(*old(proxy)),
            (final(self)@, action@) == old(self)@.route(
                old(proxy).routes@,
                old(proxy).home_html_bytes@,
            ),
    {
        let req = &self.req_buf.as_slice()[0..self.bytes_read];
        assert(req@ =~= self@.request());
        let (site_name, first_line) = match Proxy::remove_site_name(req) {
            Ok(parts) => parts,
            Err(e) => {
                let e: Vec<u8> = text::to_vec(e);
                return self.finish(Action::ReplyAndClose(e));
            },
        };
        proof {
            encode_utf8_decode_utf8(site_name@);
            encode_utf8_decode_utf8(first_line@);
        }
        if site_name.as_str().is_empty() {
            return match proxy.serve_base(req) {
                Base::Reply(answer) => self.reply(answer.as_slice()),
                Base::Add(body) => {
                    self.phase = Phase::AddServer;
                    Action::Decode(body)
                },
                Base::Delete(body) => {
                    self.phase = Phase::DeleteServer;
                    Action::Decode(body)
                },
            };
        }
        if site_name == "favicon.ico".to_owned() {
            return self.reply(proxy.serve_favicon().as_bytes());
        }
        match proxy.routes.load(&site_name) {
            Some(info) => {
                self.phase = Phase::Connecting { site_name, first_line, secure: info.secure };
                Action::Connect(info.addr.clone())
            },
            None => self.reply(NOT_FOUND_RESPONSE.as_bytes()),
        }
    }

    /// Handles the first `n` bytes in the buffer, or asks for a request if there are none.
    fn go_on(&mut self, n: usize, proxy: &mut Proxy) -> (action: Action<Vec<u8>, String>)
        requires
            old(self).wf(),
            n <= BUFFER_SIZE,
            old(proxy).wf(),
        ensures
            final(self).wf(),
            final(proxy).wf(),
            final(proxy).same_but_layout(*old(proxy)),
            (final(self)@, action@) == old(self)@.go_on(
                n as int,
                old(proxy).routes@,
                old(proxy).home_html_bytes@,
            ),
    {
        if n == 0 {
            self.read_request()
        } else {
            self.bytes_read = n;
            self.route(proxy)
        }
    }

    /// Goes on after the client and a site were parted.
    fn parted(&mut self, end: PipeEnd, proxy: &mut Proxy) -> (action: Action<Vec<u8>, String>)
        requires
            old(self).wf(),
            old(self)@.phase is Piping,
            old(self)@.expects(Event::PipeEnded(end)),
            old(proxy).wf(),
        ensures
            final(self).wf(),
            final(proxy).wf(),
            final(proxy).same_but_layout(*old(proxy)),
            (final(self)@, action@) == old(self)@.parted(
                end,
                old(proxy).routes@,
                old(proxy).home_html_bytes@,
            ),
    {
        match end {
            PipeEnd::Client(Either::Left(Ok(n))) => if n == 0 {
                self.finish(Action::Close)
            } else {
                self.go_on(n, proxy)
            },
            PipeEnd::Client(Either::Left(Err(_))) => self.finish(Action::Close),
            PipeEnd::Server(Either::Left(Ok(n))) => self.go_on(n, proxy),
            PipeEnd::Server(Either::Left(Err(_))) => {
                let n: usize = self.bytes_read;
                self.go_on(n, proxy)
            },
            PipeEnd::Client(Either::Right(_)) | PipeEnd::Server(Either::Right(_)) => self.reply(
                INTERNAL_SERVER_ERROR_RESPONSE.as_bytes(),
            ),
        }
    }

    /// What the direction from the client to the site makes of a request.
    fn client_request(&self, req: &[u8]) -> (action: ClientAction<Vec<u8>>)
        requires
            self.phase is Piping,
        ensures
            action@ == self@.client_request(req@),
    {
        match Proxy::remove_site_name(req) {
            Ok((name, line)) => {
                proof {
                    encode_utf8_decode_utf8(name@);
                }
                if name == "favicon.ico".to_owned() {
                    return ClientAction::Favicon;
                }
                let same: bool = match &self.phase {
                    Phase::Piping { site_name } => name == *site_name,
                    _ => false,
                };
                if !same {
                    return ClientAction::End(Either::Left(Ok(req.len())));
                }
                ClientAction::Forward(Proxy::write_req(req, name.as_str(), line.as_str()))
            },
            Err(_) => ClientAction::Forward(text::to_vec(req)),
        }
    }

    /// Takes in what came of the last action of the direction from the client to the site and
    /// returns the next.
    pub fn client_step(&mut self, event: ClientEvent<Vec<u8>>) -> (action: ClientAction<Vec<u8>>)
        requires
            old(self).wf(),
            old(self)@.phase is Piping,
            event@ matches ClientEvent::Read(b) ==> b.len() <= BUFFER_SIZE,
        ensures
            final(self).wf(),
            (final(self)@, action@) == old(self)@.client_step(event@),
    {
        match event {
            ClientEvent::Read(b) => {
                if b.len() == 0 {
                    return ClientAction::End(Either::Left(Ok(0)));
                }
                overwrite(&mut self.req_buf, 0, b.as_slice());
                self.client_request(b.as_slice())
            },
            ClientEvent::ReadFailed => ClientAction::End(Either::Left(Err(Failed))),
            ClientEvent::FaviconAsked => ClientAction::Read,
            ClientEvent::Forwarded => ClientAction::Read,
            ClientEvent::ForwardFailed => ClientAction::End(Either::Right(Some(Failed))),
        }
    }

    /// Takes in what came of the last action of the direction from the site to the client and
    /// returns the next.
    pub fn server_step(event: ServerEvent<Vec<u8>>) -> (action: ServerAction<Vec<u8>>)
        ensures
            action@ == server_step(event@),
    {
        match event {
            ServerEvent::Read(b) => ServerAction::Write(b),
            ServerEvent::ReadFailed => ServerAction::End(Either::Right(Some(Failed))),
            ServerEvent::FaviconAsked => ServerAction::Write(
                text::to_vec(NOT_FOUND_RESPONSE.as_bytes()),
            ),
            ServerEvent::Written => ServerAction::Listen,
            ServerEvent::WriteFailed => ServerAction::End(Either::Left(Err(Failed))),
        }
    }

    /// Takes in what came of the last action and returns the next.
    pub fn step(&mut self, proxy: &mut Proxy, event: Event<Vec<u8>>) -> (action: Action<
        Vec<u8>,
        String,
    >)
        requires
            old(self).wf(),
            old(self)@.expects(event@),
            old(proxy).wf(),
        ensures
            final(self).wf(),
            final(proxy).wf(),
            final(proxy).addr == old(proxy).addr,
            final(proxy).home_html_bytes == old(proxy).home_html_bytes,
            final(proxy).connector == old(proxy).connector,
            final(proxy).routes@ == old(self)@.routes_after(event@, old(proxy).routes@),
            (final(self)@, action@) == old(self)@.step(
                event@,
                old(proxy).routes@,
                old(proxy).home_html_bytes@,
                old(proxy).connector,
            ),
    {
        let mut phase: Phase<String> = Phase::Request;
        std::mem::swap(&mut phase, &mut self.phase);
        match (phase, event) {
            (Phase::FirstRead(n), Event::Read(b)) => {
                overwrite(&mut self.req_buf, n, b.as_slice());
                self.go_on(n + b.len(), proxy)
            },
            (Phase::Request, Event::Read(b)) => {
                overwrite(&mut self.req_buf, 0, b.as_slice());
                self.bytes_read = b.len();
                self.route(proxy)
            },
            (Phase::Replying, Event::Replied) => self.read_request(),
            (Phase::AddServer, Event::Decoded(s)) => match proxy.add_server(&s) {
                Some(answer) => self.reply(answer.as_bytes()),
                None => self.read_request(),
            },
            (Phase::DeleteServer, Event::Decoded(s)) => {
                let answer = proxy.delete_server(&s);
                self.reply(answer.as_bytes())
            },
            (Phase::Connecting { site_name, first_line, secure }, Event::Connected) => {
                if secure && !proxy.connector {
                    return self.reply(INTERNAL_SERVER_ERROR_RESPONSE.as_bytes());
                }
                let req = &self.req_buf.as_slice()[0..self.bytes_read];
                assert(req@ =~= old(self)@.request());
                let out = Proxy::write_req(req, site_name.as_str(), first_line.as_str());
                self.phase = Phase::Sending { site_name };
                Action::Forward(out)
            },
            (Phase::Connecting { .. }, Event::ConnectFailed) => self.reply(
                INTERNAL_SERVER_ERROR_RESPONSE.as_bytes(),
            ),
            (Phase::Sending { site_name }, Event::Forwarded) => {
                self.phase = Phase::Piping { site_name };
                Action::Pipe
            },
            (Phase::Sending { .. }, Event::ForwardFailed) => self.reply(
                INTERNAL_SERVER_ERROR_RESPONSE.as_bytes(),
            ),
            (Phase::Piping { site_name }, Event::PipeEnded(end)) => {
                self.phase = Phase::Piping { site_name };
                self.parted(end, proxy)
            },
            _ => self.finish(Action::Close),
        }
    }
}

/// Reads `b` into `buf` at some place.
pub fn overwrite(buf: &mut Vec<u8>, at: usize, b: &[u8])
    requires
        at + b@.len() <= old(buf)@.len(),
    ensures
        final(buf)@ == written(old(buf)@, at as int, b@),
{
    let mut i: usize = 0;
    assert(written(old(buf)@, at as int, b@.take(0)) =~= old(buf)@);
    while i < b.len()
        invariant
            i <= b@.len(),
            at + b@.len() <= buf.len(),
            buf@.len() == old(buf)@.len(),
            buf@ == written(old(buf)@, at as int, b@.take(i as int)),
        decreases b@.len() - i,
    {
        buf[at + i] = b[i];
        i = i + 1;
        assert(buf@ =~= written(old(buf)@, at as int, b@.take(i as int)));
    }
    assert(b@.take(i as int) =~= b@);
}

} // verus!
