//! The proxy that reads the first line of a connection, sends it on without the name of the site,
//! and then joins the client and the site for good.

use vstd::prelude::*;
use vstd::utf8::*;

use crate::named_sites;
use crate::named_sites::NamedSites;
use crate::proxy::session::Either;
use crate::proxy::session::Failed;
use crate::proxy::AddrNotAvailable;
use crate::response::INTERNAL_SERVER_ERROR_RESPONSE;
use crate::response::NOT_FOUND_RESPONSE;
use crate::server::ServerInfo;
use crate::text;
use crate::text::CR;
use crate::text::LF;
use crate::text::SLASH;

verus! {

/// The answer to a first line that names no site.
pub const BAD_LINE_RESPONSE: &'static str = "HTTP/1.1 400 400 Bad Request\r\n\r\n";

/// What a first line looks like; its first group is the name of the site.
pub const REQ_RE: &'static str = "^\\w+ /([^/ ]+)?(/.+)? HTTP";

/// What the first group of a pattern holds where the pattern matches: nothing without a match, and
/// `Some(None)` where the group took no part in it.
pub uninterp spec fn first_group(pattern: Seq<char>, haystack: Seq<u8>) -> Option<
    Option<Seq<u8>>,
>;

/// A captured group as a sequence.
pub open spec fn group(g: Option<Option<Vec<u8>>>) -> Option<Option<Seq<u8>>> {
    match g {
        Some(Some(b)) => Some(Some(b@)),
        Some(None) => Some(None),
        None => None,
    }
}

/// What the first group of a pattern holds in the first match of the pattern.
///
/// Calls `regex::bytes::Regex::new` and `Regex::captures`, of which it claims that the result
/// depends on the pattern and the bytes alone. What a pattern matches is left unsaid. A pattern
/// that does not compile counts as one without a match.
#[verifier::external_body]
fn captures_first_group(pattern: &str, haystack: &[u8]) -> (res: Option<Option<Vec<u8>>>)
    ensures
        group(res) == first_group(pattern@, haystack@),
{
    let re = regex::bytes::Regex::new(pattern).ok()?;
    let caps = re.captures(haystack)?;
    Some(caps.get(1).map(|m| m.as_bytes().to_vec()))
}

/// What is to be done next.
#[derive(Debug, PartialEq, Eq)]
pub enum Action<B, S> {
    /// Read the first line from the client, and wait for it as long as requests are waited for.
    ReadLine,
    /// Send the client an answer, whether or not it arrives, and end the connection.
    ReplyAndClose(B),
    /// End the connection.
    Close,
    /// Connect to the site at an address.
    Connect(S),
    /// Send the site some bytes.
    Send(B),
    /// Send the site what was read from the client past the first line.
    SendBuffered,
    /// Join the client and the site, again and again.
    Pipe,
}

/// What came of an action.
#[derive(Debug, PartialEq, Eq)]
pub enum Event<B> {
    Line(B),
    ReadFailed,
    TimedOut,
    Connected,
    ConnectFailed,
    Sent,
    SendFailed,
}

/// What a session waits for.
#[derive(Debug, PartialEq, Eq)]
pub enum Phase<B> {
    /// The first line.
    Line,
    /// The connection to a site that is then sent some bytes.
    Connecting { request: B, secure: bool },
    /// The first line to be sent.
    Sending,
    /// The bytes past the first line to be sent.
    SendingBuffered,
    /// Nothing: the client and the site stay joined.
    Piping,
    /// Nothing: the connection is over.
    Done,
}

impl View for Action<Vec<u8>, String> {
    type V = Action<Seq<u8>, Seq<char>>;

    open spec fn view(&self) -> Action<Seq<u8>, Seq<char>> {
        match self {
            Action::ReadLine => Action::ReadLine,
            Action::ReplyAndClose(b) => Action::ReplyAndClose(b@),
            Action::Close => Action::Close,
            Action::Connect(s) => Action::Connect(s@),
            Action::Send(b) => Action::Send(b@),
            Action::SendBuffered => Action::SendBuffered,
            Action::Pipe => Action::Pipe,
        }
    }
}

impl View for Event<Vec<u8>> {
    type V = Event<Seq<u8>>;

    open spec fn view(&self) -> Event<Seq<u8>> {
        match self {
            Event::Line(b) => Event::Line(b@),
            Event::ReadFailed => Event::ReadFailed,
            Event::TimedOut => Event::TimedOut,
            Event::Connected => Event::Connected,
            Event::ConnectFailed => Event::ConnectFailed,
            Event::Sent => Event::Sent,
            Event::SendFailed => Event::SendFailed,
        }
    }
}

impl View for Phase<Vec<u8>> {
    type V = Phase<Seq<u8>>;

    open spec fn view(&self) -> Phase<Seq<u8>> {
        match self {
            Phase::Line => Phase::Line,
            Phase::Connecting { request, secure } => Phase::Connecting {
                request: request@,
                secure: *secure,
            },
            Phase::Sending => Phase::Sending,
            Phase::SendingBuffered => Phase::SendingBuffered,
            Phase::Piping => Phase::Piping,
            Phase::Done => Phase::Done,
        }
    }
}

/// A next phase and the action that leads on from it.
pub type Next = (Phase<Seq<u8>>, Action<Seq<u8>, Seq<char>>);

/// The header that tells a site whom a request comes from, with the end of the line before it.
pub open spec fn forwarded_for(ip: Seq<char>) -> Seq<u8> {
    encode_utf8("\r\nForwarded: for="@) + encode_utf8(ip) + encode_utf8("\r\n"@)
}

/// Where the name of the site starts in a first line: after the first slash.
pub open spec fn name_start(line: Seq<u8>) -> int {
    text::find(line, SLASH, 0) + 1
}

/// The line is valid UTF-8, and its path starts with the name.
pub open spec fn starts_path(line: Seq<u8>, name: Seq<u8>) -> bool {
    valid_utf8(line) && text::occurs(line, name, name_start(line))
}

/// The first line as it is sent to the site `name`: without the name in its path.
pub open spec fn line_for_site(line: Seq<u8>, name: Seq<u8>, ip: Seq<char>) -> Seq<u8> {
    let at = name_start(line);
    text::replaced(
        line.take(at) + line.skip(at + name.len()),
        encode_utf8("\r\n"@),
        forwarded_for(ip),
    )
}

/// The connection is over, with an answer.
pub open spec fn refuse(answer: Seq<char>) -> Next {
    (Phase::Done, Action::ReplyAndClose(encode_utf8(answer)))
}

/// What a first line leads to, given what was captured as the name of the site.
pub open spec fn plan(
    line: Seq<u8>,
    captured: Option<Option<Seq<u8>>>,
    ip: Seq<char>,
    sites: Map<Seq<char>, ServerInfo>,
) -> Next {
    if line.len() < 2 {
        refuse(BAD_LINE_RESPONSE@)
    } else {
        match captured {
            None => refuse(BAD_LINE_RESPONSE@),
            Some(None) => refuse(BAD_LINE_RESPONSE@),
            Some(Some(g)) => {
                let name = decode_utf8(g);
                if !valid_utf8(g) {
                    refuse(BAD_LINE_RESPONSE@)
                } else if name.len() == 0 {
                    (Phase::Done, Action::Close)
                } else if name == "favicon.ico"@ {
                    refuse(NOT_FOUND_RESPONSE@)
                } else if !starts_path(line, g) {
                    refuse(BAD_LINE_RESPONSE@)
                } else if !sites.contains_key(name) {
                    refuse(NOT_FOUND_RESPONSE@)
                } else if sites[name].tunnel {
                    (Phase::Done, Action::Close)
                } else {
                    (
                        Phase::Connecting {
                            request: line_for_site(line, g, ip),
                            secure: sites[name].secure,
                        },
                        Action::Connect(sites[name].addr@),
                    )
                }
            },
        }
    }
}

/// The events that can come in a phase.
pub open spec fn expects(phase: Phase<Seq<u8>>, event: Event<Seq<u8>>) -> bool {
    match (phase, event) {
        (Phase::Line, Event::Line(_) | Event::ReadFailed | Event::TimedOut) => true,
        (Phase::Connecting { .. }, Event::Connected | Event::ConnectFailed) => true,
        (Phase::Sending | Phase::SendingBuffered, Event::Sent | Event::SendFailed) => true,
        _ => false,
    }
}

/// What an event leads to, with the client's address, the sites served, and whether sites can be
/// reached over TLS.
pub open spec fn step(
    phase: Phase<Seq<u8>>,
    event: Event<Seq<u8>>,
    ip: Seq<char>,
    sites: Map<Seq<char>, ServerInfo>,
    connector: bool,
) -> Next {
    match (phase, event) {
        (Phase::Line, Event::Line(line)) => plan(line, first_group(REQ_RE@, line), ip, sites),
        (Phase::Connecting { request, secure }, Event::Connected) => if secure && !connector {
            (Phase::Done, Action::Close)
        } else {
            (Phase::Sending, Action::Send(request))
        },
        (Phase::Connecting { .. }, Event::ConnectFailed) => refuse(INTERNAL_SERVER_ERROR_RESPONSE@),
        (Phase::Sending, Event::Sent) => (Phase::SendingBuffered, Action::SendBuffered),
        (Phase::SendingBuffered, Event::Sent) => (Phase::Piping, Action::Pipe),
        (Phase::Sending | Phase::SendingBuffered, Event::SendFailed) => refuse(
            INTERNAL_SERVER_ERROR_RESPONSE@,
        ),
        _ => (Phase::Done, Action::Close),
    }
}

/// The event can come of the action.
pub open spec fn comes_of(action: Action<Seq<u8>, Seq<char>>, event: Event<Seq<u8>>) -> bool {
    match (action, event) {
        (Action::ReadLine, Event::Line(_) | Event::ReadFailed | Event::TimedOut) => true,
        (Action::Connect(_), Event::Connected | Event::ConnectFailed) => true,
        (Action::Send(_) | Action::SendBuffered, Event::Sent | Event::SendFailed) => true,
        _ => false,
    }
}

/// The action is the one that leads on from the phase.
pub open spec fn in_step(phase: Phase<Seq<u8>>, action: Action<Seq<u8>, Seq<char>>) -> bool {
    forall|event: Event<Seq<u8>>| #[trigger] expects(phase, event) <==> comes_of(action, event)
}

/// A session expects exactly what can come of the action that it asked for, from the first one on.
pub proof fn session_expects_what_comes(
    phase: Phase<Seq<u8>>,
    event: Event<Seq<u8>>,
    ip: Seq<char>,
    sites: Map<Seq<char>, ServerInfo>,
    connector: bool,
)
    requires
        expects(phase, event),
    ensures
        in_step(Phase::Line, Action::ReadLine),
        ({
            let (after, action) = step(phase, event, ip, sites, connector);
            in_step(after, action)
        }),
{
}

/// Whatever is captured in a first line, a session connects to the address of the site that was
/// captured, if it is served, and to no other.
pub proof fn connects_to_captured_site(
    line: Seq<u8>,
    captured: Option<Option<Seq<u8>>>,
    ip: Seq<char>,
    sites: Map<Seq<char>, ServerInfo>,
)
    ensures
        plan(line, captured, ip, sites) matches (_, Action::Connect(addr)) ==> {
            &&& captured matches Some(Some(g))
            &&& sites.contains_key(decode_utf8(g))
            &&& addr == sites[decode_utf8(g)].addr@
            &&& !sites[decode_utf8(g)].tunnel
        },
{
}

/// A site that can be reached is sent the first line, then what followed it, and is then joined
/// with the client.
pub proof fn line_reaches_its_site(
    request: Seq<u8>,
    secure: bool,
    ip: Seq<char>,
    sites: Map<Seq<char>, ServerInfo>,
    connector: bool,
)
    requires
        secure ==> connector,
    ensures
        ({
            let phase = Phase::<Seq<u8>>::Connecting { request, secure };
            let (sending, first) = step(phase, Event::Connected, ip, sites, connector);
            let (buffered, second) = step(sending, Event::Sent, ip, sites, connector);
            let (piping, third) = step(buffered, Event::Sent, ip, sites, connector);
            &&& first == Action::<Seq<u8>, Seq<char>>::Send(request)
            &&& second == Action::<Seq<u8>, Seq<char>>::SendBuffered
            &&& third == Action::<Seq<u8>, Seq<char>>::Pipe
            &&& piping == Phase::<Seq<u8>>::Piping
        }),
{
}

/// A first line is sent on without the name of the site in its path, and with a header that names
/// the client.
#[verifier::rlimit(50)]
pub proof fn line_is_sent_without_site(
    before: Seq<u8>,
    name: Seq<u8>,
    after: Seq<u8>,
    ip: Seq<char>,
)
    requires
        text::lacks(before, LF) && text::lacks(after, LF),
        text::lacks(before, SLASH),
    ensures
        ({
            let line = before + seq![SLASH] + name + after + encode_utf8("\r\n"@);
            &&& text::occurs(line, name, name_start(line))
            &&& line_for_site(line, name, ip) == before + seq![SLASH] + after + forwarded_for(ip)
        }),
{
    let crlf = encode_utf8("\r\n"@);
    reveal_strlit("\r\n");
    is_ascii_chars_encode_utf8("\r\n"@);
    assert(crlf =~= seq![CR, LF]);
    let line = before + seq![SLASH] + name + after + crlf;
    let at = before.len() as int + 1;
    text::find_is(line, SLASH, 0, before.len() as int);
    assert(line.subrange(at, at + name.len()) =~= name);
    let kept = before + seq![SLASH] + after;
    let without = line.take(at) + line.skip(at + name.len());
    assert(without =~= kept + crlf + Seq::<u8>::empty());
    assert forall|j: int| 0 <= j < kept.len() implies !text::occurs(
        kept + crlf + Seq::<u8>::empty(),
        crlf,
        j,
    ) by {
        if text::occurs(without, crlf, j) {
            assert(without.subrange(j, j + 2)[1] == without[j + 1]);
        }
    }
    text::first_occurrence_is_replaced(kept, crlf, Seq::empty(), forwarded_for(ip));
    assert(kept + forwarded_for(ip) + Seq::<u8>::empty() =~= kept + forwarded_for(ip));
}

/// A first line whose path starts with the name that was captured is for the site of that name. The
/// site is connected to at its address, and is sent the line without that name and with a header
/// that names the client. A name that is not served, or that is the icon's, is not found, and a
/// site behind a tunnel is not reached.
#[verifier::rlimit(50)]
pub proof fn line_goes_to_the_captured_site(
    before: Seq<u8>,
    name: Seq<u8>,
    after: Seq<u8>,
    ip: Seq<char>,
    sites: Map<Seq<char>, ServerInfo>,
    connector: bool,
)
    requires
        text::lacks(before, LF) && text::lacks(before, SLASH) && text::lacks(after, LF),
        valid_utf8(name),
        valid_utf8(before + seq![SLASH] + name + after + seq![CR, LF]),
        decode_utf8(name).len() > 0,
    ensures
        ({
            let site = decode_utf8(name);
            let line = before + seq![SLASH] + name + after + seq![CR, LF];
            let (phase, first) = plan(line, Some(Some(name)), ip, sites);
            let (_, second) = step(phase, Event::Connected, ip, sites, connector);
            if site == "favicon.ico"@ || !sites.contains_key(site) {
                &&& first == Action::<Seq<u8>, Seq<char>>::ReplyAndClose(
                    encode_utf8("HTTP/1.1 404 Not Found\r\n\r\n"@),
                )
                &&& phase == Phase::<Seq<u8>>::Done
            } else if sites[site].tunnel {
                first == Action::<Seq<u8>, Seq<char>>::Close && phase == Phase::<Seq<u8>>::Done
            } else {
                &&& first == Action::<Seq<u8>, Seq<char>>::Connect(sites[site].addr@)
                &&& second == (if sites[site].secure && !connector {
                    Action::<Seq<u8>, Seq<char>>::Close
                } else {
                    Action::<Seq<u8>, Seq<char>>::Send(
                        before + seq![SLASH] + after + seq![CR, LF] + encode_utf8(
                            "Forwarded: for="@,
                        ) + encode_utf8(ip) + seq![CR, LF],
                    )
                })
            }
        }),
{
    let line = before + seq![SLASH] + name + after + seq![CR, LF];
    reveal_strlit("\r\n");
    reveal_strlit("Forwarded: for=");
    reveal_strlit("\r\nForwarded: for=");
    is_ascii_chars_encode_utf8("\r\n"@);
    is_ascii_chars_encode_utf8("Forwarded: for="@);
    is_ascii_chars_encode_utf8("\r\nForwarded: for="@);
    assert(encode_utf8("\r\n"@) =~= seq![CR, LF]);
    assert(encode_utf8("\r\nForwarded: for="@) =~= seq![CR, LF] + encode_utf8("Forwarded: for="@));
    line_is_sent_without_site(before, name, after, ip);
    assert(before + seq![SLASH] + after + forwarded_for(ip) =~= before + seq![SLASH] + after + seq![
        CR,
        LF,
    ] + encode_utf8("Forwarded: for="@) + encode_utf8(ip) + seq![CR, LF]);
}

/// A first line that ends with a line feed alone is sent without the name of the site, and with
/// nothing more.
pub proof fn line_without_a_return_is_sent_shortened(
    before: Seq<u8>,
    name: Seq<u8>,
    after: Seq<u8>,
    ip: Seq<char>,
)
    requires
        text::lacks(before, LF) && text::lacks(before, SLASH),
        text::lacks(before, CR) && text::lacks(after, CR),
    ensures
        ({
            let line = before + seq![SLASH] + name + after + seq![LF];
            &&& text::occurs(line, name, name_start(line))
            &&& line_for_site(line, name, ip) == before + seq![SLASH] + after + seq![LF]
        }),
{
    let crlf = encode_utf8("\r\n"@);
    reveal_strlit("\r\n");
    is_ascii_chars_encode_utf8("\r\n"@);
    assert(crlf =~= seq![CR, LF]);
    let line = before + seq![SLASH] + name + after + seq![LF];
    let at = before.len() as int + 1;
    text::find_is(line, SLASH, 0, before.len() as int);
    assert(line.subrange(at, at + name.len()) =~= name);
    let kept = before + seq![SLASH] + after + seq![LF];
    assert(line.take(at) + line.skip(at + name.len()) =~= kept);
    assert forall|j: int| !text::occurs(kept, crlf, j) by {
        if text::occurs(kept, crlf, j) {
            assert(kept.subrange(j, j + 2)[0] == kept[j]);
            if j < before.len() {
                assert(kept[j] == before[j]);
            } else if at <= j < at + after.len() {
                assert(kept[j] == after[j - at]);
            }
        }
    }
    text::nothing_else_is_replaced(kept, crlf, forwarded_for(ip));
}

/// A first line whose path starts with anything but the name that was captured is answered as a
/// bad request, even if that name is served.
pub proof fn line_for_another_path_is_refused(
    before: Seq<u8>,
    path: Seq<u8>,
    name: Seq<u8>,
    ip: Seq<char>,
    sites: Map<Seq<char>, ServerInfo>,
)
    requires
        text::lacks(before, SLASH),
        decode_utf8(name).len() > 0 && decode_utf8(name) != "favicon.ico"@,
        path.len() < name.len() || path.take(name.len() as int) != name,
        (before + seq![SLASH] + path).len() >= 2,
    ensures
        plan(before + seq![SLASH] + path, Some(Some(name)), ip, sites) == (
            Phase::<Seq<u8>>::Done,
            Action::<Seq<u8>, Seq<char>>::ReplyAndClose(
                encode_utf8("HTTP/1.1 400 400 Bad Request\r\n\r\n"@),
            ),
        ),
{
    let line = before + seq![SLASH] + path;
    let at = before.len() as int + 1;
    text::find_is(line, SLASH, 0, before.len() as int);
    if text::occurs(line, name, at) {
        assert(line.subrange(at, at + name.len()) =~= path.take(name.len() as int));
    }
}

/// A first line of fewer than two bytes, one in which no name was captured, one whose name or text
/// is not valid UTF-8, and one whose path does not start with the name are answered as bad
/// requests; an empty name ends the connection.
pub proof fn bad_line_is_refused(
    line: Seq<u8>,
    name: Seq<u8>,
    captured: Option<Option<Seq<u8>>>,
    ip: Seq<char>,
    sites: Map<Seq<char>, ServerInfo>,
)
    ensures
        ({
            let bad = (
                Phase::<Seq<u8>>::Done,
                Action::<Seq<u8>, Seq<char>>::ReplyAndClose(
                    encode_utf8("HTTP/1.1 400 400 Bad Request\r\n\r\n"@),
                ),
            );
            let named = plan(line, Some(Some(name)), ip, sites);
            &&& line.len() < 2 ==> plan(line, captured, ip, sites) == bad
            &&& plan(line, None, ip, sites) == bad
            &&& plan(line, Some(None), ip, sites) == bad
            &&& !valid_utf8(name) ==> named == bad
            &&& line.len() >= 2 && name == Seq::<u8>::empty() ==> named == (
                Phase::<Seq<u8>>::Done,
                Action::<Seq<u8>, Seq<char>>::Close,
            )
            &&& decode_utf8(name).len() > 0 && decode_utf8(name) != "favicon.ico"@ && (
            !valid_utf8(line) || text::lacks(line, SLASH)) ==> named == bad
        }),
{
    assert(encode_utf8(Seq::<char>::empty()) =~= Seq::<u8>::empty());
    encode_utf8_decode_utf8(Seq::<char>::empty());
    encode_utf8_valid_utf8(Seq::<char>::empty());
    text::find_is_first(line, SLASH, 0);
    if text::lacks(line, SLASH) && decode_utf8(name).len() > 0 {
        if name.len() == 0 {
            assert(name =~= Seq::<u8>::empty());
        }
        assert(!text::occurs(line, name, name_start(line)));
    }
}

/// Failures end the connection, and a site that cannot be reached or written to is reported before
/// that.
pub proof fn failures_are_handled(
    phase: Phase<Seq<u8>>,
    ip: Seq<char>,
    sites: Map<Seq<char>, ServerInfo>,
    connector: bool,
)
    ensures
        ({
            let after = |event: Event<Seq<u8>>| step(phase, event, ip, sites, connector);
            let over = (Phase::<Seq<u8>>::Done, Action::<Seq<u8>, Seq<char>>::Close);
            let reported = (
                Phase::<Seq<u8>>::Done,
                Action::<Seq<u8>, Seq<char>>::ReplyAndClose(
                    encode_utf8("HTTP/1.1 500 Internal Server Error\r\n\r\n"@),
                ),
            );
            &&& phase is Line ==> after(Event::ReadFailed) == over && after(Event::TimedOut) == over
            &&& phase is Connecting ==> after(Event::ConnectFailed) == reported
            &&& phase is Sending || phase is SendingBuffered ==> after(Event::SendFailed)
                == reported
        }),
{
}

/// The first line is handled by what is captured in it.
pub proof fn line_is_handled_by_its_capture(
    line: Seq<u8>,
    ip: Seq<char>,
    sites: Map<Seq<char>, ServerInfo>,
    connector: bool,
)
    ensures
        step(Phase::Line, Event::Line(line), ip, sites, connector) == plan(
            line,
            first_group("^\\w+ /([^/ ]+)?(/.+)? HTTP"@, line),
            ip,
            sites,
        ),
{
}

/// What one direction between a client and a site does next.
#[derive(Debug, PartialEq, Eq)]
pub enum PipeAction<B> {
    Read,
    Write(B),
    /// The direction is over: on the left for want of bytes to read or for a failed read, on the
    /// right for a failed write.
    End(Either<Result<(), Failed>, Result<(), Failed>>),
}

/// What came of an action of one direction between a client and a site.
#[derive(Debug, PartialEq, Eq)]
pub enum PipeEvent<B> {
    Read(B),
    ReadFailed,
    Written,
    WriteFailed,
}

impl View for PipeAction<Vec<u8>> {
    type V = PipeAction<Seq<u8>>;

    open spec fn view(&self) -> PipeAction<Seq<u8>> {
        match self {
            PipeAction::Read => PipeAction::Read,
            PipeAction::Write(b) => PipeAction::Write(b@),
            PipeAction::End(end) => PipeAction::End(*end),
        }
    }
}

impl View for PipeEvent<Vec<u8>> {
    type V = PipeEvent<Seq<u8>>;

    open spec fn view(&self) -> PipeEvent<Seq<u8>> {
        match self {
            PipeEvent::Read(b) => PipeEvent::Read(b@),
            PipeEvent::ReadFailed => PipeEvent::ReadFailed,
            PipeEvent::Written => PipeEvent::Written,
            PipeEvent::WriteFailed => PipeEvent::WriteFailed,
        }
    }
}

/// What an event of one direction between a client and a site leads to.
pub open spec fn pipe_step(event: PipeEvent<Seq<u8>>) -> PipeAction<Seq<u8>> {
    match event {
        PipeEvent::Read(b) => if b.len() == 0 {
            PipeAction::End(Either::Left(Ok(())))
        } else {
            PipeAction::Write(b)
        },
        PipeEvent::ReadFailed => PipeAction::End(Either::Left(Err(Failed))),
        PipeEvent::Written => PipeAction::Read,
        PipeEvent::WriteFailed => PipeAction::End(Either::Right(Err(Failed))),
    }
}

/// What one end gets of bytes that were read one after the other from the other end, if each write
/// succeeds.
pub open spec fn piped(reads: Seq<Seq<u8>>) -> Option<Seq<u8>>
    decreases reads.len(),
{
    if reads.len() == 0 {
        Some(Seq::empty())
    } else {
        let action = pipe_step(PipeEvent::Read(reads[0]));
        let next = pipe_step(PipeEvent::Written);
        match (action, next, piped(reads.drop_first())) {
            (PipeAction::Write(out), PipeAction::Read, Some(more)) => Some(out + more),
            _ => None,
        }
    }
}

/// Whatever one end sends is what the other gets: all of it, as it came and in order.
pub proof fn bytes_are_piped(reads: Seq<Seq<u8>>)
    requires
        forall|i: int| 0 <= i < reads.len() ==> (#[trigger] reads[i]).len() > 0,
    ensures
        piped(reads) == Some(reads.flatten()),
    decreases reads.len(),
{
    if reads.len() > 0 {
        let rest = reads.drop_first();
        assert(reads[0].len() > 0);
        assert forall|i: int| 0 <= i < rest.len() implies (#[trigger] rest[i]).len() > 0 by {
            assert(rest[i] == reads[i + 1]);
        }
        bytes_are_piped(rest);
    }
}

/// A direction is over when nothing more is read, or when a read or a write fails: a read on the
/// left, a write on the right.
pub proof fn direction_ends(e: Failed)
    ensures
        pipe_step(PipeEvent::Read(Seq::empty())) == PipeAction::<Seq<u8>>::End(
            Either::Left(Ok(())),
        ),
        pipe_step(PipeEvent::ReadFailed) == PipeAction::<Seq<u8>>::End(Either::Left(Err(e))),
        pipe_step(PipeEvent::WriteFailed) == PipeAction::<Seq<u8>>::End(Either::Right(Err(e))),
{
}

/// The proxy.
pub struct Proxy {
    pub sites: NamedSites,
}

impl Proxy {
    /// The proxy is as its operations leave it.
    pub open spec fn wf(&self) -> bool {
        self.sites.wf()
    }

    /// A proxy with four sites that is yet to be started at the first of the addresses that were
    /// found, if any.
    pub fn new(addr: Option<String>) -> (res: Result<Self, AddrNotAvailable>)
        ensures
            match res {
                Ok(p) => {
                    &&& addr == Some(p.sites.addr)
                    &&& p.wf()
                    &&& p.sites.server_info_map@.dom()
                        == set!["server1"@, "server2"@, "server3"@, "server4"@]
                    &&& named_sites::plain(
                        p.sites.server_info_map@["server1"@],
                        "server1"@,
                        "127.0.0.1:9000"@,
                    )
                    &&& named_sites::plain(
                        p.sites.server_info_map@["server2"@],
                        "server2"@,
                        "127.0.0.1:9001"@,
                    )
                    &&& named_sites::plain(
                        p.sites.server_info_map@["server3"@],
                        "server3"@,
                        "127.0.0.1:9002"@,
                    )
                    &&& named_sites::plain(
                        p.sites.server_info_map@["server4"@],
                        "server4"@,
                        "127.0.0.1:9003"@,
                    )
                    &&& p.sites.fresh()
                },
                Err(_) => addr is None,
            },
    {
        let sites = [
            ("server1", "127.0.0.1:9000"),
            ("server2", "127.0.0.1:9001"),
            ("server3", "127.0.0.1:9002"),
            ("server4", "127.0.0.1:9003"),
        ];
        let ghost named = seq![
            ("server1"@, "127.0.0.1:9000"@),
            ("server2"@, "127.0.0.1:9001"@),
            ("server3"@, "127.0.0.1:9002"@),
            ("server4"@, "127.0.0.1:9003"@),
        ];
        assert(named_sites::chars(sites@) =~= named);
        match NamedSites::new(addr, &sites) {
            Ok(sites) => {
                proof {
                    reveal_strlit("server1");
                    reveal_strlit("server2");
                    reveal_strlit("server3");
                    reveal_strlit("server4");
                    assert("server1"@[6] == '1' && "server2"@[6] == '2' && "server3"@[6] == '3'
                        && "server4"@[6] == '4');
                    let m = sites.server_info_map@;
                    named_sites::holds_each(m, named);
                    let names = named.map_values(|s: (Seq<char>, Seq<char>)| s.0);
                    assert(names =~= seq!["server1"@, "server2"@, "server3"@, "server4"@]);
                    assert(named[0] == ("server1"@, "127.0.0.1:9000"@) && names[0] == "server1"@);
                    assert(named[1] == ("server2"@, "127.0.0.1:9001"@) && names[1] == "server2"@);
                    assert(named[2] == ("server3"@, "127.0.0.1:9002"@) && names[2] == "server3"@);
                    assert(named[3] == ("server4"@, "127.0.0.1:9003"@) && names[3] == "server4"@);
                    assert(m.dom() =~= set!["server1"@, "server2"@, "server3"@, "server4"@]);
                }
                Ok(Proxy { sites })
            },
            Err(e) => Err(e),
        }
    }

    /// One direction between a client and a site: takes in what came of the last action and
    /// returns the next.
    pub fn pipe_conns(event: PipeEvent<Vec<u8>>) -> (action: PipeAction<Vec<u8>>)
        ensures
            action@ == pipe_step(event@),
    {
        match event {
            PipeEvent::Read(b) => if b.len() == 0 {
                PipeAction::End(Either::Left(Ok(())))
            } else {
                PipeAction::Write(b)
            },
            PipeEvent::ReadFailed => PipeAction::End(Either::Left(Err(Failed))),
            PipeEvent::Written => PipeAction::Read,
            PipeEvent::WriteFailed => PipeAction::End(Either::Right(Err(Failed))),
        }
    }

    /// What is captured as the name of the site in a first line.
    pub fn capture_site(line: &[u8]) -> (res: Option<Option<Vec<u8>>>)
        ensures
            group(res) == first_group(REQ_RE@, line@),
    {
        captures_first_group(REQ_RE, line)
    }
}

/// A client's connection.
pub struct Session {
    pub phase: Phase<Vec<u8>>,
    /// The client's address.
    pub ip: String,
}

impl Session {
    /// A session with the client at an address, and what it does first.
    pub fn new(ip: String) -> (res: (Session, Action<Vec<u8>, String>))
        ensures
            res.0.phase@ == Phase::<Seq<u8>>::Line,
            res.0.ip == ip,
            res.1@ == Action::<Seq<u8>, Seq<char>>::ReadLine,
    {
        (Session { phase: Phase::Line, ip }, Action::ReadLine)
    }

    /// Ends the session with an answer.
    fn refuse(&mut self, answer: &'static str) -> (action: Action<Vec<u8>, String>)
        ensures
            (final(self).phase@, action@) == refuse(answer@),
            final(self).ip == old(self).ip,
    {
        self.phase = Phase::Done;
        Action::ReplyAndClose(text::to_vec(answer.as_bytes()))
    }

    /// Ends the session.
    fn finish(&mut self, action: Action<Vec<u8>, String>) -> (res: Action<Vec<u8>, String>)
        ensures
            final(self).phase@ == Phase::<Seq<u8>>::Done,
            final(self).ip == old(self).ip,
            res == action,
    {
        self.phase = Phase::Done;
        action
    }

    /// Handles the first line, given what was captured as the name of the site.
    pub fn plan(
        &mut self,
        proxy: &mut Proxy,
        line: &[u8],
        captured: Option<Option<Vec<u8>>>,
    ) -> (action: Action<Vec<u8>, String>)
        requires
            old(proxy).wf(),
        ensures
            final(proxy).wf(),
            final(proxy).sites.same_but_layout(old(proxy).sites),
            final(self).ip == old(self).ip,
            (final(self).phase@, action@) == plan(
                line@,
                group(captured),
                old(self).ip@,
                old(proxy).sites.server_info_map@,
            ),
    {
        if line.len() < 2 {
            return self.refuse(BAD_LINE_RESPONSE);
        }
        let g: Vec<u8> = match captured {
            None => return self.refuse(BAD_LINE_RESPONSE),
            Some(None) => return self.refuse(BAD_LINE_RESPONSE),
            Some(Some(g)) => g,
        };
        let site_name = match text::decode(g.as_slice()) {
            Some(name) => name,
            None => return self.refuse(BAD_LINE_RESPONSE),
        };
        proof {
            encode_utf8_decode_utf8(site_name@);
        }
        if site_name.as_str().is_empty() {
            return self.finish(Action::Close);
        }
        if site_name == "favicon.ico".to_owned() {
            return self.refuse(NOT_FOUND_RESPONSE);
        }
        if text::decode(line).is_none() {
            return self.refuse(BAD_LINE_RESPONSE);
        }
        let slash: usize = text::position(line, SLASH, 0);
        if slash == line.len() || g.len() >= line.len() - slash {
            return self.refuse(BAD_LINE_RESPONSE);
        }
        let at: usize = slash + 1;
        let end: usize = at + g.len();
        if !text::same(&line[at..end], g.as_slice()) {
            return self.refuse(BAD_LINE_RESPONSE);
        }
        let mut without: Vec<u8> = text::to_vec(&line[0..at]);
        text::append(&mut without, &line[end..line.len()]);
        assert(without@ =~= line@.take(at as int) + line@.skip(end as int));
        let mut header: Vec<u8> = text::to_vec("\r\nForwarded: for=".as_bytes());
        text::append(&mut header, self.ip.as_str().as_bytes());
        text::append(&mut header, "\r\n".as_bytes());
        let request = text::replace_first(
            without.as_slice(),
            "\r\n".as_bytes(),
            header.as_slice(),
        );
        assert(request@ == line_for_site(line@, g@, self.ip@));
        match proxy.sites.server_info_map.load(&site_name) {
            Some(info) => {
                if info.tunnel {
                    return self.finish(Action::Close);
                }
                self.phase = Phase::Connecting { request, secure: info.secure };
                Action::Connect(info.addr.clone())
            },
            None => self.refuse(NOT_FOUND_RESPONSE),
        }
    }

    /// Takes in what came of the last action and returns the next.
    pub fn step(&mut self, proxy: &mut Proxy, event: Event<Vec<u8>>) -> (action: Action<
        Vec<u8>,
        String,
    >)
        requires
            expects(old(self).phase@, event@),
            old(proxy).wf(),
        ensures
            final(proxy).wf(),
            final(proxy).sites.same_but_layout(old(proxy).sites),
            final(self).ip == old(self).ip,
            (final(self).phase@, action@) == step(
                old(self).phase@,
                event@,
                old(self).ip@,
                old(proxy).sites.server_info_map@,
                old(proxy).sites.connector,
            ),
    {
        let mut phase: Phase<Vec<u8>> = Phase::Done;
        std::mem::swap(&mut phase, &mut self.phase);
        match (phase, event) {
            (Phase::Line, Event::Line(line)) => {
                let captured = Proxy::capture_site(line.as_slice());
                self.plan(proxy, line.as_slice(), captured)
            },
            (Phase::Connecting { request, secure }, Event::Connected) => {
                if secure && !proxy.sites.connector {
                    return self.finish(Action::Close);
                }
                self.phase = Phase::Sending;
                Action::Send(request)
            },
            (Phase::Connecting { .. }, Event::ConnectFailed) => self.refuse(
                INTERNAL_SERVER_ERROR_RESPONSE,
            ),
            (Phase::Sending, Event::Sent) => {
                self.phase = Phase::SendingBuffered;
                Action::SendBuffered
            },
            (Phase::SendingBuffered, Event::Sent) => {
                self.phase = Phase::Piping;
                Action::Pipe
            },
            (Phase::Sending, Event::SendFailed) => self.refuse(INTERNAL_SERVER_ERROR_RESPONSE),
            (Phase::SendingBuffered, Event::SendFailed) => self.refuse(
                INTERNAL_SERVER_ERROR_RESPONSE,
            ),
            _ => self.finish(Action::Close),
        }
    }
}

} // verus!
