//! One client's connection, request after request.
//!
//! A session decides; whoever runs it acts. Each [`Action`] tells what to do next, and what came
//! of it goes back in as an [`Event`]. While a client and a site are joined, the two directions
//! run side by side, each with its own actions and events.

use vstd::prelude::*;
use vstd::utf8::*;

use crate::buffered_proxy;
use crate::buffered_proxy::headers;
use crate::buffered_proxy::headers::HeaderLine;
use crate::buffered_proxy::Proxy;
use crate::proxy::session;
use crate::proxy::session::Either;
use crate::proxy::session::Failed;
use crate::proxy::BUFFER_SIZE;
use crate::response::BAD_REQUEST_RESPONSE;
use crate::response::INTERNAL_SERVER_ERROR_RESPONSE;
use crate::response::NOT_FOUND_RESPONSE;
use crate::server::ServerInfo;
use crate::text;
use crate::text::LF;

verus! {

/// How one direction between a client and a site ended: what concerns the client is on the left,
/// what concerns the site on the right. A number is that of the bytes of a request that is still
/// to be handled.
pub type Ending = Either<Result<usize, Failed>, Result<usize, Failed>>;

/// Which direction between a client and a site ended first, and how.
#[derive(Debug, PartialEq, Eq)]
pub enum PipeEnd {
    /// From the client to the site.
    Client(Ending),
    /// From the site to the client.
    Server(Ending),
}

/// What is to be done next.
#[derive(Debug, PartialEq, Eq)]
pub enum Action<B, S> {
    /// Read a request from the client, and wait for it as long as requests are waited for.
    Read,
    /// Send the client an answer, whether or not it arrives.
    Reply(B),
    /// Send the client an answer, whether or not it arrives, and end the connection.
    ReplyAndClose(B),
    /// End the connection.
    Close,
    /// Serve the home page, which is still empty.
    ServeHome,
    /// Connect to the site at an address.
    Connect(S),
    /// Put bytes in the buffer of what is sent to the site.
    Write(B),
    /// Send the site what is in that buffer.
    Flush,
    /// Read more of the body from the client, and wait for it only shortly.
    ReadBody,
    /// Send the site bytes past the buffer.
    Send(B),
    /// Join the client and the site.
    Pipe,
}

/// What came of an action.
#[derive(Debug, PartialEq, Eq)]
pub enum Event<B> {
    Read(B),
    ReadFailed,
    TimedOut,
    Replied,
    Connected,
    ConnectFailed,
    Written,
    WriteFailed,
    PipeEnded(PipeEnd),
}

/// What a session waits for.
#[derive(Debug, PartialEq, Eq)]
pub enum Phase<B, S> {
    /// A request.
    Request,
    /// The request in the buffer to be handled once more.
    Again,
    /// An answer to be sent.
    Replying,
    /// The connection to a site.
    Connecting { site_name: S, first_line: S, secure: bool },
    /// The headers before `next` to be buffered. The length that they give the body, and the
    /// length headers made of them.
    Headers {
        site_name: S,
        next: usize,
        ended: bool,
        content_length: usize,
        length_headers: B,
    },
    /// The headers to be sent.
    Flushing { site_name: S, header_size: usize, content_length: usize },
    /// More of a request that is longer than the buffer; by `diff` bytes, less what was read since.
    BodyRead { site_name: S, diff: usize },
    /// A piece of the body of `len` bytes to be sent.
    BodySend { site_name: S, diff: usize, len: usize },
    /// What was read past the headers to be sent.
    RestSend { site_name: S, header_size: usize, content_length: usize },
    /// The client and a site to be parted again.
    Piping { site_name: S },
    /// Nothing.
    Done,
}

/// What the direction from the client to the site does next.
#[derive(Debug, PartialEq, Eq)]
pub enum ClientAction<B> {
    /// Read from the client what fits the request buffer.
    Read,
    /// Send the site a request.
    Forward(B),
    End(Ending),
}

/// What came of an action of the direction from the client to the site.
#[derive(Debug, PartialEq, Eq)]
pub enum ClientEvent<B> {
    Read(B),
    ReadFailed,
    Forwarded,
    ForwardFailed,
}

/// What the direction from the site to the client does next.
#[derive(Debug, PartialEq, Eq)]
pub enum ServerAction<B> {
    /// Wait for the site to send something.
    Read,
    /// Send the client a piece of an answer.
    Write(B),
    End(Ending),
}

/// What came of an action of the direction from the site to the client.
#[derive(Debug, PartialEq, Eq)]
pub enum ServerEvent<B> {
    Read(B),
    ReadFailed,
    Written,
    WriteFailed,
}

impl View for Action<Vec<u8>, String> {
    type V = Action<Seq<u8>, Seq<char>>;

    open spec fn view(&self) -> Action<Seq<u8>, Seq<char>> {
        match self {
            Action::Read => Action::Read,
            Action::Reply(b) => Action::Reply(b@),
            Action::ReplyAndClose(b) => Action::ReplyAndClose(b@),
            Action::Close => Action::Close,
            Action::ServeHome => Action::ServeHome,
            Action::Connect(s) => Action::Connect(s@),
            Action::Write(b) => Action::Write(b@),
            Action::Flush => Action::Flush,
            Action::ReadBody => Action::ReadBody,
            Action::Send(b) => Action::Send(b@),
            Action::Pipe => Action::Pipe,
        }
    }
}

impl View for Event<Vec<u8>> {
    type V = Event<Seq<u8>>;

    open spec fn view(&self) -> Event<Seq<u8>> {
        match self {
            Event::Read(b) => Event::Read(b@),
            Event::ReadFailed => Event::ReadFailed,
            Event::TimedOut => Event::TimedOut,
            Event::Replied => Event::Replied,
            Event::Connected => Event::Connected,
            Event::ConnectFailed => Event::ConnectFailed,
            Event::Written => Event::Written,
            Event::WriteFailed => Event::WriteFailed,
            Event::PipeEnded(end) => Event::PipeEnded(*end),
        }
    }
}

impl View for Phase<Vec<u8>, String> {
    type V = Phase<Seq<u8>, Seq<char>>;

    open spec fn view(&self) -> Phase<Seq<u8>, Seq<char>> {
        match self {
            Phase::Request => Phase::Request,
            Phase::Again => Phase::Again,
            Phase::Replying => Phase::Replying,
            Phase::Connecting { site_name, first_line, secure } => Phase::Connecting {
                site_name: site_name@,
                first_line: first_line@,
                secure: *secure,
            },
            Phase::Headers { site_name, next, ended, content_length, length_headers } =>
                Phase::Headers {
                site_name: site_name@,
                next: *next,
                ended: *ended,
                content_length: *content_length,
                length_headers: length_headers@,
            },
            Phase::Flushing { site_name, header_size, content_length } => Phase::Flushing {
                site_name: site_name@,
                header_size: *header_size,
                content_length: *content_length,
            },
            Phase::BodyRead { site_name, diff } => Phase::BodyRead {
                site_name: site_name@,
                diff: *diff,
            },
            Phase::BodySend { site_name, diff, len } => Phase::BodySend {
                site_name: site_name@,
                diff: *diff,
                len: *len,
            },
            Phase::RestSend { site_name, header_size, content_length } => Phase::RestSend {
                site_name: site_name@,
                header_size: *header_size,
                content_length: *content_length,
            },
            Phase::Piping { site_name } => Phase::Piping { site_name: site_name@ },
            Phase::Done => Phase::Done,
        }
    }
}

impl View for ClientAction<Vec<u8>> {
    type V = ClientAction<Seq<u8>>;

    open spec fn view(&self) -> ClientAction<Seq<u8>> {
        match self {
            ClientAction::Read => ClientAction::Read,
            ClientAction::Forward(b) => ClientAction::Forward(b@),
            ClientAction::End(end) => ClientAction::End(*end),
        }
    }
}

impl View for ClientEvent<Vec<u8>> {
    type V = ClientEvent<Seq<u8>>;

    open spec fn view(&self) -> ClientEvent<Seq<u8>> {
        match self {
            ClientEvent::Read(b) => ClientEvent::Read(b@),
            ClientEvent::ReadFailed => ClientEvent::ReadFailed,
            ClientEvent::Forwarded => ClientEvent::Forwarded,
            ClientEvent::ForwardFailed => ClientEvent::ForwardFailed,
        }
    }
}

impl View for ServerAction<Vec<u8>> {
    type V = ServerAction<Seq<u8>>;

    open spec fn view(&self) -> ServerAction<Seq<u8>> {
        match self {
            ServerAction::Read => ServerAction::Read,
            ServerAction::Write(b) => ServerAction::Write(b@),
            ServerAction::End(end) => ServerAction::End(*end),
        }
    }
}

impl View for ServerEvent<Vec<u8>> {
    type V = ServerEvent<Seq<u8>>;

    open spec fn view(&self) -> ServerEvent<Seq<u8>> {
        match self {
            ServerEvent::Read(b) => ServerEvent::Read(b@),
            ServerEvent::ReadFailed => ServerEvent::ReadFailed,
            ServerEvent::Written => ServerEvent::Written,
            ServerEvent::WriteFailed => ServerEvent::WriteFailed,
        }
    }
}

/// A client's connection.
pub struct Session {
    /// Where requests are read to.
    pub req_buf: Vec<u8>,
    /// How many bytes of the buffer are the request; none if one is still to be read.
    pub bytes_read: usize,
    pub phase: Phase<Vec<u8>, String>,
    /// The client's address.
    pub ip: String,
}

/// The state of a session.
#[verifier::ext_equal]
pub struct State {
    pub req_buf: Seq<u8>,
    pub bytes_read: int,
    pub phase: Phase<Seq<u8>, Seq<char>>,
    pub ip: Seq<char>,
}

/// A next state and the action that leads on from it.
pub type Next = (State, Action<Seq<u8>, Seq<char>>);

impl State {
    /// The request in the buffer.
    pub open spec fn request(self) -> Seq<u8> {
        self.req_buf.take(self.bytes_read)
    }

    /// The same buffer in another phase.
    pub open spec fn to(self, phase: Phase<Seq<u8>, Seq<char>>) -> State {
        State { phase, ..self }
    }

    /// The connection is over.
    pub open spec fn close(self) -> Next {
        (self.to(Phase::Done), Action::Close)
    }

    /// The connection is over, with an answer.
    pub open spec fn refuse(self, answer: Seq<char>) -> Next {
        (self.to(Phase::Done), Action::ReplyAndClose(encode_utf8(answer)))
    }

    /// The client is told of a failure, and may go on.
    pub open spec fn report_failure(self) -> Next {
        (
            self.to(Phase::Replying),
            Action::Reply(encode_utf8(INTERNAL_SERVER_ERROR_RESPONSE@)),
        )
    }

    /// What the request in the buffer leads to.
    ///
    /// A request for the home page or for an icon stays in the buffer, and is handled once more.
    pub open spec fn route(self, sites: Map<Seq<char>, ServerInfo>) -> Next {
        match buffered_proxy::site_and_line(self.request()) {
            None => self.refuse(BAD_REQUEST_RESPONSE@),
            Some((n, line)) => {
                let name = decode_utf8(n);
                if name.len() == 0 {
                    (self.to(Phase::Again), Action::ServeHome)
                } else if name == "favicon.ico"@ {
                    (self.to(Phase::Again), Action::Reply(encode_utf8(NOT_FOUND_RESPONSE@)))
                } else if !sites.contains_key(name) {
                    self.refuse(NOT_FOUND_RESPONSE@)
                } else if sites[name].tunnel {
                    self.close()
                } else {
                    (
                        self.to(
                            Phase::Connecting {
                                site_name: name,
                                first_line: decode_utf8(line),
                                secure: sites[name].secure,
                            },
                        ),
                        Action::Connect(sites[name].addr@),
                    )
                }
            },
        }
    }

    /// What follows with `n` bytes of a request in the buffer.
    pub open spec fn go_on(self, n: int, sites: Map<Seq<char>, ServerInfo>) -> Next {
        if n == 0 {
            (State { bytes_read: 0, phase: Phase::Request, ..self }, Action::Read)
        } else {
            State { bytes_read: n, ..self }.route(sites)
        }
    }

    /// What follows when the headers before `next` are buffered.
    pub open spec fn next_header(
        self,
        site_name: Seq<char>,
        next: usize,
        ended: bool,
        content_length: usize,
        length_headers: Seq<u8>,
    ) -> Next {
        let req = self.request();
        let stop = headers::line_stop(req, next as int);
        let line = req.subrange(next as int, stop);
        if ended || next >= req.len() {
            (
                self.to(Phase::Flushing { site_name, header_size: next, content_length }),
                Action::Flush,
            )
        } else {
            match headers::header_line(line) {
                HeaderLine::End => (
                    self.to(
                        Phase::Headers {
                            site_name,
                            next: stop as usize,
                            ended: true,
                            content_length,
                            length_headers,
                        },
                    ),
                    Action::Write(headers::forwarded_for(self.ip)),
                ),
                HeaderLine::Keep => (
                    self.to(
                        Phase::Headers {
                            site_name,
                            next: stop as usize,
                            ended: false,
                            content_length,
                            length_headers,
                        },
                    ),
                    Action::Write(line),
                ),
                HeaderLine::Length(n) => {
                    let all = length_headers + headers::length_header(n as nat);
                    (
                        self.to(
                            Phase::Headers {
                                site_name,
                                next: stop as usize,
                                ended: false,
                                content_length: n,
                                length_headers: all,
                            },
                        ),
                        Action::Write(all),
                    )
                },
                HeaderLine::Bad => self.refuse(BAD_REQUEST_RESPONSE@),
            }
        }
    }

    /// The client and the site are joined, and the request is done with.
    pub open spec fn join(self, site_name: Seq<char>) -> Next {
        (State { bytes_read: 0, phase: Phase::Piping { site_name }, ..self }, Action::Pipe)
    }

    /// What follows when the headers were sent: what was read past them is sent first.
    pub open spec fn flushed(
        self,
        site_name: Seq<char>,
        header_size: usize,
        content_length: usize,
    ) -> Next {
        let req = self.request();
        if req.len() > header_size {
            (
                self.to(Phase::RestSend { site_name, header_size, content_length }),
                Action::Send(req.skip(header_size as int)),
            )
        } else {
            self.read_on(site_name, header_size, content_length)
        }
    }

    /// What follows when all of the request that was read is sent: more is read of a request that
    /// is not shorter than the buffer.
    pub open spec fn read_on(
        self,
        site_name: Seq<char>,
        header_size: usize,
        content_length: usize,
    ) -> Next {
        let total = header_size + content_length;
        if total >= BUFFER_SIZE {
            (
                self.to(Phase::BodyRead { site_name, diff: (total - BUFFER_SIZE) as usize }),
                Action::ReadBody,
            )
        } else {
            self.join(site_name)
        }
    }

    /// What follows when the client and a site are parted.
    pub open spec fn parted(self, end: PipeEnd, sites: Map<Seq<char>, ServerInfo>) -> Next {
        match end {
            PipeEnd::Client(Either::Left(Ok(0))) => self.close(),
            PipeEnd::Client(Either::Left(Err(_))) => self.close(),
            PipeEnd::Client(Either::Left(Ok(n))) => self.go_on(n as int, sites),
            PipeEnd::Client(Either::Right(Ok(n))) => self.go_on(n as int, sites),
            PipeEnd::Server(Either::Left(Ok(n))) => self.go_on(n as int, sites),
            PipeEnd::Server(Either::Right(Ok(n))) => self.go_on(n as int, sites),
            PipeEnd::Server(Either::Left(Err(_))) => self.go_on(self.bytes_read, sites),
            PipeEnd::Client(Either::Right(Err(_))) | PipeEnd::Server(Either::Right(Err(_))) =>
                self.report_failure(),
        }
    }

    /// The events that can come in this state.
    pub open spec fn expects(self, event: Event<Seq<u8>>) -> bool {
        match (self.phase, event) {
            (Phase::Request | Phase::BodyRead { .. }, Event::Read(b)) => b.len() <= BUFFER_SIZE,
            (
                Phase::Request | Phase::BodyRead { .. },
                Event::ReadFailed | Event::TimedOut,
            ) => true,
            (Phase::Again | Phase::Replying, Event::Replied) => true,
            (Phase::Connecting { .. }, Event::Connected | Event::ConnectFailed) => true,
            (
                Phase::Headers { .. } | Phase::Flushing { .. } | Phase::BodySend { .. }
                | Phase::RestSend { .. },
                Event::Written | Event::WriteFailed,
            ) => true,
            (Phase::Piping { .. }, Event::PipeEnded(end)) => match end {
                PipeEnd::Client(Either::Left(Ok(n))) => n <= BUFFER_SIZE,
                PipeEnd::Client(Either::Right(Ok(n))) => n <= BUFFER_SIZE,
                PipeEnd::Server(Either::Left(Ok(n))) => n <= BUFFER_SIZE,
                PipeEnd::Server(Either::Right(Ok(n))) => n <= BUFFER_SIZE,
                _ => true,
            },
            _ => false,
        }
    }

    /// What an event leads to, with the sites served, and whether sites can be reached over TLS.
    pub open spec fn step(
        self,
        event: Event<Seq<u8>>,
        sites: Map<Seq<char>, ServerInfo>,
        connector: bool,
    ) -> Next {
        match (self.phase, event) {
            (Phase::Request, Event::Read(b)) => if b.len() < 2 {
                self.refuse(BAD_REQUEST_RESPONSE@)
            } else {
                State {
                    req_buf: session::written(self.req_buf, 0, b),
                    bytes_read: b.len() as int,
                    ..self
                }.route(sites)
            },
            (Phase::Again, Event::Replied) => self.route(sites),
            (Phase::Replying, Event::Replied) => self.go_on(self.bytes_read, sites),
            (Phase::Connecting { site_name, first_line, secure }, Event::Connected) => if secure
                && !connector {
                self.close()
            } else {
                (
                    self.to(
                        Phase::Headers {
                            site_name,
                            next: headers::line_stop(self.request(), 0) as usize,
                            ended: false,
                            content_length: 0,
                            length_headers: Seq::empty(),
                        },
                    ),
                    Action::Write(encode_utf8(first_line)),
                )
            },
            (Phase::Connecting { .. }, Event::ConnectFailed) => self.refuse(
                INTERNAL_SERVER_ERROR_RESPONSE@,
            ),
            (
                Phase::Headers { site_name, next, ended, content_length, length_headers },
                Event::Written,
            ) => self.next_header(site_name, next, ended, content_length, length_headers),
            (Phase::Flushing { site_name, header_size, content_length }, Event::Written) =>
                self.flushed(site_name, header_size, content_length),
            (Phase::BodyRead { site_name, diff }, Event::Read(b)) => (
                State {
                    req_buf: session::written(self.req_buf, 0, b),
                    phase: Phase::BodySend { site_name, diff, len: b.len() as usize },
                    ..self
                },
                Action::Send(b),
            ),
            (Phase::BodyRead { site_name, .. }, Event::TimedOut) => self.join(site_name),
            (Phase::BodySend { site_name, diff, len }, Event::Written) => if diff < len {
                self.join(site_name)
            } else {
                (
                    self.to(Phase::BodyRead { site_name, diff: (diff - len) as usize }),
                    Action::ReadBody,
                )
            },
            (Phase::RestSend { site_name, header_size, content_length }, Event::Written) =>
                self.read_on(site_name, header_size, content_length),
            (
                Phase::Headers { .. } | Phase::Flushing { .. } | Phase::BodySend { .. }
                | Phase::RestSend { .. },
                Event::WriteFailed,
            ) => self.refuse(INTERNAL_SERVER_ERROR_RESPONSE@),
            (Phase::Piping { .. }, Event::PipeEnded(end)) => self.parted(end, sites),
            _ => self.close(),
        }
    }

    /// What an event of the direction from the client to the site leads to.
    pub open spec fn client_step(self, event: ClientEvent<Seq<u8>>) -> (
        State,
        ClientAction<Seq<u8>>,
    ) {
        match event {
            ClientEvent::Read(b) => if b.len() == 0 {
                (self, ClientAction::End(Either::Left(Ok(0))))
            } else {
                (
                    State { req_buf: session::written(self.req_buf, 0, b), ..self },
                    self.client_request(b),
                )
            },
            ClientEvent::ReadFailed => (self, ClientAction::End(Either::Left(Err(Failed)))),
            ClientEvent::Forwarded => (self, ClientAction::Read),
            ClientEvent::ForwardFailed => (self, ClientAction::End(Either::Right(Err(Failed)))),
        }
    }

    /// What the direction from the client to the site makes of a request.
    pub open spec fn client_request(self, req: Seq<u8>) -> ClientAction<Seq<u8>> {
        match buffered_proxy::site_and_line(req) {
            None => ClientAction::Forward(req),
            Some((n, _)) => {
                let name = decode_utf8(n);
                if name == "favicon.ico"@ {
                    ClientAction::Read
                } else if self.phase != (Phase::<Seq<u8>, Seq<char>>::Piping { site_name: name }) {
                    ClientAction::End(Either::Left(Ok(req.len() as usize)))
                } else {
                    ClientAction::Forward(req)
                }
            },
        }
    }
}

/// What an event of the direction from the site to the client leads to.
pub open spec fn server_step(event: ServerEvent<Seq<u8>>) -> ServerAction<Seq<u8>> {
    match event {
        ServerEvent::Read(b) => if b.len() == 0 {
            ServerAction::End(Either::Right(Ok(0)))
        } else {
            ServerAction::Write(b)
        },
        ServerEvent::ReadFailed => ServerAction::End(Either::Right(Err(Failed))),
        ServerEvent::Written => ServerAction::Read,
        ServerEvent::WriteFailed => ServerAction::End(Either::Left(Err(Failed))),
    }
}

impl View for Session {
    type V = State;

    open spec fn view(&self) -> State {
        State {
            req_buf: self.req_buf@,
            bytes_read: self.bytes_read as int,
            phase: self.phase@,
            ip: self.ip@,
        }
    }
}

impl Session {
    /// The buffer has its size, and holds the request and the headers that were handled.
    pub open spec fn wf(&self) -> bool {
        &&& self.req_buf@.len() == BUFFER_SIZE
        &&& self.bytes_read <= BUFFER_SIZE
        &&& self.phase matches Phase::Headers { next, .. } ==> next <= self.bytes_read
        &&& self.phase matches Phase::Flushing { header_size, .. } ==> header_size
            <= self.bytes_read
        &&& self.phase matches Phase::RestSend { header_size, .. } ==> header_size
            <= self.bytes_read
    }

    /// A session with the client at an address, and what it does first.
    pub fn new(ip: String) -> (res: (Session, Action<Vec<u8>, String>))
        ensures
            res.0.wf(),
            res.0@ == (State {
                req_buf: Seq::new(BUFFER_SIZE as nat, |i: int| 0u8),
                bytes_read: 0,
                phase: Phase::Request,
                ip: ip@,
            }),
            res.1@ == Action::<Seq<u8>, Seq<char>>::Read,
    {
        let req_buf: Vec<u8> = vec![0u8; BUFFER_SIZE];
        assert(req_buf@ =~= Seq::new(BUFFER_SIZE as nat, |i: int| 0u8));
        (Session { req_buf, bytes_read: 0, phase: Phase::Request, ip }, Action::Read)
    }

    /// Ends the session.
    fn finish(&mut self, action: Action<Vec<u8>, String>) -> (res: Action<Vec<u8>, String>)
        requires
            old(self).req_buf@.len() == BUFFER_SIZE,
            old(self).bytes_read <= BUFFER_SIZE,
        ensures
            final(self).wf(),
            final(self)@ == old(self)@.to(Phase::Done),
            res == action,
    {
        self.phase = Phase::Done;
        action
    }

    /// Ends the session with an answer.
    fn refuse(&mut self, answer: &'static str) -> (action: Action<Vec<u8>, String>)
        requires
            old(self).req_buf@.len() == BUFFER_SIZE,
            old(self).bytes_read <= BUFFER_SIZE,
        ensures
            final(self).wf(),
            (final(self)@, action@) == old(self)@.refuse(answer@),
    {
        self.finish(Action::ReplyAndClose(text::to_vec(answer.as_bytes())))
    }

    /// Handles the request in the buffer.
    fn route(&mut self, proxy: &mut Proxy) -> (action: Action<Vec<u8>, String>)
        requires
            old(self).wf(),
            old(proxy).wf(),
        ensures
            final(self).wf(),
            final(proxy).wf(),
            final(proxy).sites.same_but_layout(old(proxy).sites),
            (final(self)@, action@) == old(self)@.route(old(proxy).sites.server_info_map@),
    {
        let req = &self.req_buf.as_slice()[0..self.bytes_read];
        assert(req@ =~= self@.request());
        let (site_name, first_line) = match Proxy::parse_site_name(req) {
            Ok(parts) => parts,
            Err(_) => return self.refuse(BAD_REQUEST_RESPONSE),
        };
        proof {
            encode_utf8_decode_utf8(site_name@);
            encode_utf8_decode_utf8(first_line@);
        }
        if site_name.as_str().is_empty() {
            self.phase = Phase::Again;
            return Action::ServeHome;
        }
        if site_name == "favicon.ico".to_owned() {
            self.phase = Phase::Again;
            return Action::Reply(text::to_vec(NOT_FOUND_RESPONSE.as_bytes()));
        }
        match proxy.sites.server_info_map.load(&site_name) {
            Some(info) => {
                if info.tunnel {
                    return self.finish(Action::Close);
                }
                self.phase = Phase::Connecting { site_name, first_line, secure: info.secure };
                Action::Connect(info.addr.clone())
            },
            None => self.refuse(NOT_FOUND_RESPONSE),
        }
    }

    /// Handles the first `n` bytes in the buffer, or asks for a request if there are none.
    fn go_on(&mut self, n: usize, proxy: &mut Proxy) -> (action: Action<Vec<u8>, String>)
        requires
            old(self).req_buf@.len() == BUFFER_SIZE,
            !(old(self).phase is Headers || old(self).phase is Flushing || old(
                self,
            ).phase is RestSend),
            n <= BUFFER_SIZE,
            old(proxy).wf(),
        ensures
            final(self).wf(),
            final(proxy).wf(),
            final(proxy).sites.same_but_layout(old(proxy).sites),
            (final(self)@, action@) == old(self)@.go_on(
                n as int,
                old(proxy).sites.server_info_map@,
            ),
    {
        self.bytes_read = n;
        if n == 0 {
            self.phase = Phase::Request;
            Action::Read
        } else {
            self.route(proxy)
        }
    }

    /// Tells the client of a failure.
    fn report_failure(&mut self) -> (action: Action<Vec<u8>, String>)
        requires
            old(self).wf(),
        ensures
            final(self).wf(),
            (final(self)@, action@) == old(self)@.report_failure(),
    {
        self.phase = Phase::Replying;
        Action::Reply(text::to_vec(INTERNAL_SERVER_ERROR_RESPONSE.as_bytes()))
    }

    /// Goes on after the client and a site were parted.
    fn parted(&mut self, end: PipeEnd, proxy: &mut Proxy) -> (action: Action<Vec<u8>, String>)
        requires
            old(self).wf(),
            old(self)@.phase is Piping,
            old(self)@.expects(Event::PipeEnded(end)),
            old(proxy).wf(),
        ensures
            final(self).wf(),
            final(proxy).wf(),
            final(proxy).sites.same_but_layout(old(proxy).sites),
            (final(self)@, action@) == old(self)@.parted(
                end,
                old(proxy).sites.server_info_map@,
            ),
    {
        match end {
            PipeEnd::Client(Either::Left(Ok(n))) => if n == 0 {
                self.finish(Action::Close)
            } else {
                self.go_on(n, proxy)
            },
            PipeEnd::Client(Either::Left(Err(_))) => self.finish(Action::Close),
            PipeEnd::Client(Either::Right(Ok(n))) => self.go_on(n, proxy),
            PipeEnd::Server(Either::Left(Ok(n))) => self.go_on(n, proxy),
            PipeEnd::Server(Either::Right(Ok(n))) => self.go_on(n, proxy),
            PipeEnd::Server(Either::Left(Err(_))) => {
                let n: usize = self.bytes_read;
                self.go_on(n, proxy)
            },
            PipeEnd::Client(Either::Right(Err(_))) => self.report_failure(),
            PipeEnd::Server(Either::Right(Err(_))) => self.report_failure(),
        }
    }

    /// Joins the client and the site.
    fn join(&mut self, site_name: String) -> (action: Action<Vec<u8>, String>)
        requires
            old(self).req_buf@.len() == BUFFER_SIZE,
        ensures
            final(self).wf(),
            (final(self)@, action@) == old(self)@.join(site_name@),
    {
        self.bytes_read = 0;
        self.phase = Phase::Piping { site_name };
        Action::Pipe
    }

    /// Handles the line at `next`.
    fn next_header(
        &mut self,
        site_name: String,
        next: usize,
        ended: bool,
        content_length: usize,
        length_headers: Vec<u8>,
    ) -> (action: Action<Vec<u8>, String>)
        requires
            old(self).req_buf@.len() == BUFFER_SIZE,
            next <= old(self).bytes_read <= BUFFER_SIZE,
        ensures
            final(self).wf(),
            (final(self)@, action@) == old(self)@.next_header(
                site_name@,
                next,
                ended,
                content_length,
                length_headers@,
            ),
    {
        let req = &self.req_buf.as_slice()[0..self.bytes_read];
        assert(req@ =~= self@.request());
        if ended || next >= req.len() {
            self.phase = Phase::Flushing { site_name, header_size: next, content_length };
            return Action::Flush;
        }
        let lf: usize = text::position(req, LF, next);
        let stop: usize = if lf < req.len() {
            lf + 1
        } else {
            req.len()
        };
        proof {
            text::find_is_first(req@, LF, next as int);
        }
        let line = &req[next..stop];
        match headers::classify(line) {
            HeaderLine::End => {
                self.phase = Phase::Headers {
                    site_name,
                    next: stop,
                    ended: true,
                    content_length,
                    length_headers,
                };
                Action::Write(headers::forwarded_for_header(self.ip.as_str()))
            },
            HeaderLine::Keep => {
                let out = text::to_vec(line);
                self.phase = Phase::Headers {
                    site_name,
                    next: stop,
                    ended: false,
                    content_length,
                    length_headers,
                };
                Action::Write(out)
            },
            HeaderLine::Length(n) => {
                let mut length_headers: Vec<u8> = length_headers;
                headers::add_length_header(&mut length_headers, n);
                let out = text::to_vec(length_headers.as_slice());
                self.phase = Phase::Headers {
                    site_name,
                    next: stop,
                    ended: false,
                    content_length: n,
                    length_headers,
                };
                Action::Write(out)
            },
            HeaderLine::Bad => self.refuse(BAD_REQUEST_RESPONSE),
        }
    }

    /// Goes on after the headers were sent.
    fn flushed(
        &mut self,
        site_name: String,
        header_size: usize,
        content_length: usize,
    ) -> (action: Action<Vec<u8>, String>)
        requires
            old(self).req_buf@.len() == BUFFER_SIZE,
            header_size <= old(self).bytes_read <= BUFFER_SIZE,
        ensures
            final(self).wf(),
            (final(self)@, action@) == old(self)@.flushed(
                site_name@,
                header_size,
                content_length,
            ),
    {
        if self.bytes_read > header_size {
            let rest = text::to_vec(&self.req_buf.as_slice()[header_size..self.bytes_read]);
            assert(rest@ =~= self@.request().skip(header_size as int));
            self.phase = Phase::RestSend { site_name, header_size, content_length };
            return Action::Send(rest);
        }
        self.read_on(site_name, header_size, content_length)
    }

    /// Goes on after all of the request that was read was sent.
    fn read_on(
        &mut self,
        site_name: String,
        header_size: usize,
        content_length: usize,
    ) -> (action: Action<Vec<u8>, String>)
        requires
            old(self).req_buf@.len() == BUFFER_SIZE,
            header_size <= old(self).bytes_read <= BUFFER_SIZE,
        ensures
            final(self).wf(),
            (final(self)@, action@) == old(self)@.read_on(
                site_name@,
                header_size,
                content_length,
            ),
    {
        let room: usize = BUFFER_SIZE - header_size;
        if content_length >= room {
            self.phase = Phase::BodyRead { site_name, diff: content_length - room };
            return Action::ReadBody;
        }
        self.join(site_name)
    }

    /// What the direction from the client to the site makes of a request.
    fn client_request(&self, req: &[u8]) -> (action: ClientAction<Vec<u8>>)
        requires
            self.phase is Piping,
        ensures
            action@ == self@.client_request(req@),
    {
        match Proxy::parse_site_name(req) {
            Ok((name, _)) => {
                proof {
                    encode_utf8_decode_utf8(name@);
                }
                if name == "favicon.ico".to_owned() {
                    return ClientAction::Read;
                }
                let same: bool = match &self.phase {
                    Phase::Piping { site_name } => name == *site_name,
                    _ => false,
                };
                if !same {
                    return ClientAction::End(Either::Left(Ok(req.len())));
                }
                ClientAction::Forward(text::to_vec(req))
            },
            Err(_) => ClientAction::Forward(text::to_vec(req)),
        }
    }

    /// Takes in what came of the last action of the direction from the client to the site and
    /// returns the next.
    pub fn client_step(&mut self, event: ClientEvent<Vec<u8>>) -> (action: ClientAction<Vec<u8>>)
        requires
            old(self).wf(),
            old(self)@.phase is Piping,
            event@ matches ClientEvent::Read(b) ==> b.len() <= BUFFER_SIZE,
        ensures
            final(self).wf(),
            (final(self)@, action@) == old(self)@.client_step(event@),
    {
        match event {
            ClientEvent::Read(b) => {
                if b.len() == 0 {
                    return ClientAction::End(Either::Left(Ok(0)));
                }
                session::overwrite(&mut self.req_buf, 0, b.as_slice());
                self.client_request(b.as_slice())
            },
            ClientEvent::ReadFailed => ClientAction::End(Either::Left(Err(Failed))),
            ClientEvent::Forwarded => ClientAction::Read,
            ClientEvent::ForwardFailed => ClientAction::End(Either::Right(Err(Failed))),
        }
    }

    /// Takes in what came of the last action of the direction from the site to the client and
    /// returns the next.
    pub fn server_step(event: ServerEvent<Vec<u8>>) -> (action: ServerAction<Vec<u8>>)
        ensures
            action@ == server_step(event@),
    {
        match event {
            ServerEvent::Read(b) => if b.len() == 0 {
                ServerAction::End(Either::Right(Ok(0)))
            } else {
                ServerAction::Write(b)
            },
            ServerEvent::ReadFailed => ServerAction::End(Either::Right(Err(Failed))),
            ServerEvent::Written => ServerAction::Read,
            ServerEvent::WriteFailed => ServerAction::End(Either::Left(Err(Failed))),
        }
    }

    /// Takes in what came of the last action and returns the next.
    pub fn step(&mut self, proxy: &mut Proxy, event: Event<Vec<u8>>) -> (action: Action<
        Vec<u8>,
        String,
    >)
        requires
            old(self).wf(),
            old(self)@.expects(event@),
            old(proxy).wf(),
        ensures
            final(self).wf(),
            final(proxy).wf(),
            final(proxy).sites.same_but_layout(old(proxy).sites),
            (final(self)@, action@) == old(self)@.step(
                event@,
                old(proxy).sites.server_info_map@,
                old(proxy).sites.connector,
            ),
    {
        let mut phase: Phase<Vec<u8>, String> = Phase::Request;
        std::mem::swap(&mut phase, &mut self.phase);
        match (phase, event) {
            (Phase::Request, Event::Read(b)) => {
                if b.len() < 2 {
                    return self.refuse(BAD_REQUEST_RESPONSE);
                }
                session::overwrite(&mut self.req_buf, 0, b.as_slice());
                self.bytes_read = b.len();
                self.route(proxy)
            },
            (Phase::Again, Event::Replied) => {
                self.phase = Phase::Again;
                self.route(proxy)
            },
            (Phase::Replying, Event::Replied) => {
                self.phase = Phase::Replying;
                let n: usize = self.bytes_read;
                self.go_on(n, proxy)
            },
            (Phase::Connecting { site_name, first_line, secure }, Event::Connected) => {
                if secure && !proxy.sites.connector {
                    return self.finish(Action::Close);
                }
                let req = &self.req_buf.as_slice()[0..self.bytes_read];
                assert(req@ =~= old(self)@.request());
                let lf: usize = text::position(req, LF, 0);
                let next: usize = if lf < req.len() {
                    lf + 1
                } else {
                    req.len()
                };
                self.phase = Phase::Headers {
                    site_name,
                    next,
                    ended: false,
                    content_length: 0,
                    length_headers: Vec::new(),
                };
                Action::Write(text::to_vec(first_line.as_str().as_bytes()))
            },
            (Phase::Connecting { .. }, Event::ConnectFailed) => self.refuse(
                INTERNAL_SERVER_ERROR_RESPONSE,
            ),
            (
                Phase::Headers { site_name, next, ended, content_length, length_headers },
                Event::Written,
            ) => self.next_header(site_name, next, ended, content_length, length_headers),
            (Phase::Flushing { site_name, header_size, content_length }, Event::Written) =>
                self.flushed(site_name, header_size, content_length),
            (Phase::BodyRead { site_name, diff }, Event::Read(b)) => {
                session::overwrite(&mut self.req_buf, 0, b.as_slice());
                self.phase = Phase::BodySend { site_name, diff, len: b.len() };
                Action::Send(b)
            },
            (Phase::BodyRead { site_name, .. }, Event::TimedOut) => self.join(site_name),
            (Phase::BodySend { site_name, diff, len }, Event::Written) => {
                if diff < len {
                    self.join(site_name)
                } else {
                    self.phase = Phase::BodyRead { site_name, diff: diff - len };
                    Action::ReadBody
                }
            },
            (Phase::RestSend { site_name, header_size, content_length }, Event::Written) =>
                self.read_on(site_name, header_size, content_length),
            (Phase::Headers { .. }, Event::WriteFailed) => self.refuse(
                INTERNAL_SERVER_ERROR_RESPONSE,
            ),
            (Phase::Flushing { .. }, Event::WriteFailed) => self.refuse(
                INTERNAL_SERVER_ERROR_RESPONSE,
            ),
            (Phase::BodySend { .. }, Event::WriteFailed) => self.refuse(
                INTERNAL_SERVER_ERROR_RESPONSE,
            ),
            (Phase::RestSend { .. }, Event::WriteFailed) => self.refuse(
                INTERNAL_SERVER_ERROR_RESPONSE,
            ),
            (Phase::Piping { site_name }, Event::PipeEnded(end)) => {
                self.phase = Phase::Piping { site_name };
                self.parted(end, proxy)
            },
            _ => self.finish(Action::Close),
        }
    }
}

} // verus!
