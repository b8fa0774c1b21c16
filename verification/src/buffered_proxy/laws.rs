//! What holds of every session, whatever its client and its sites do.

use vstd::prelude::*;
use vstd::utf8::*;

use crate::buffered_proxy;
use crate::buffered_proxy::headers;
use crate::buffered_proxy::headers::HeaderLine;
use crate::buffered_proxy::session;
use crate::buffered_proxy::session::Action;
use crate::buffered_proxy::session::ClientAction;
use crate::buffered_proxy::session::ClientEvent;
use crate::buffered_proxy::session::Event;
use crate::buffered_proxy::session::Phase;
use crate::buffered_proxy::session::PipeEnd;
use crate::buffered_proxy::session::ServerAction;
use crate::buffered_proxy::session::ServerEvent;
use crate::buffered_proxy::session::State;
use crate::proxy::session::Either;
use crate::proxy::session::Failed;
use crate::proxy::site;
use crate::proxy::BUFFER_SIZE;
use crate::response::BAD_REQUEST_RESPONSE;
use crate::response::NOT_FOUND_RESPONSE;
use crate::server::ServerInfo;
use crate::text;
use crate::text::COLON;
use crate::text::CR;
use crate::text::LF;
use crate::text::SPACE;

verus! {

/// The event can come of the action, if no more is read than there is room for.
pub open spec fn comes_of(action: Action<Seq<u8>, Seq<char>>, event: Event<Seq<u8>>) -> bool {
    match (action, event) {
        (Action::Read | Action::ReadBody, Event::Read(b)) => b.len() <= BUFFER_SIZE,
        (Action::Read | Action::ReadBody, Event::ReadFailed | Event::TimedOut) => true,
        (Action::Reply(_) | Action::ServeHome, Event::Replied) => true,
        (Action::Connect(_), Event::Connected | Event::ConnectFailed) => true,
        (
            Action::Write(_) | Action::Flush | Action::Send(_),
            Event::Written | Event::WriteFailed,
        ) => true,
        (Action::Pipe, Event::PipeEnded(end)) => fits(end),
        _ => false,
    }
}

/// The request that is left over is no longer than the buffer.
pub open spec fn fits(end: PipeEnd) -> bool {
    match end {
        PipeEnd::Client(Either::Left(Ok(n))) => n <= BUFFER_SIZE,
        PipeEnd::Client(Either::Right(Ok(n))) => n <= BUFFER_SIZE,
        PipeEnd::Server(Either::Left(Ok(n))) => n <= BUFFER_SIZE,
        PipeEnd::Server(Either::Right(Ok(n))) => n <= BUFFER_SIZE,
        _ => true,
    }
}

/// The action is the one that leads on from the state.
pub open spec fn in_step(state: State, action: Action<Seq<u8>, Seq<char>>) -> bool {
    forall|event: Event<Seq<u8>>| #[trigger]
        state.expects(event) <==> comes_of(action, event)
}

/// A session expects exactly what can come of the action that it asked for.
pub proof fn session_expects_what_comes(
    state: State,
    event: Event<Seq<u8>>,
    sites: Map<Seq<char>, ServerInfo>,
    connector: bool,
)
    requires
        state.expects(event),
    ensures
        ({
            let (after, action) = state.step(event, sites, connector);
            in_step(after, action)
        }),
{
}

/// A new session expects exactly what can come of the action that it asks for first.
pub proof fn new_session_expects_what_comes(state: State)
    requires
        state.phase == Phase::<Seq<u8>, Seq<char>>::Request,
    ensures
        in_step(state, Action::Read),
{
}

/// However a direction between the client and a site ends, the session can go on from there: what
/// is left over fits the buffer.
pub proof fn pipe_end_is_expected(
    state: State,
    client_event: ClientEvent<Seq<u8>>,
    server_event: ServerEvent<Seq<u8>>,
)
    requires
        client_event matches ClientEvent::Read(b) ==> b.len() <= BUFFER_SIZE,
    ensures
        ({
            let (_, action) = state.client_step(client_event);
            action matches ClientAction::End(end) ==> fits(PipeEnd::Client(end))
        }),
        session::server_step(server_event) matches ServerAction::End(end) ==> fits(
            PipeEnd::Server(end),
        ),
{
}

/// A client that is joined to a site reaches no other: what is sent on names that site, or
/// nothing that could be taken for the name of a site.
pub proof fn joined_client_reaches_one_site(state: State, site_name: Seq<char>, req: Seq<u8>)
    requires
        state.phase == (Phase::<Seq<u8>, Seq<char>>::Piping { site_name }),
    ensures
        state.client_request(req) matches ClientAction::Forward(out) ==> {
            &&& out == req
            &&& buffered_proxy::site_and_line(req) matches Some((name, _)) ==> decode_utf8(name)
                == site_name
        },
{
}

/// A session connects to the addresses of sites that are served, and to no others.
pub proof fn connects_to_served_sites(
    state: State,
    event: Event<Seq<u8>>,
    sites: Map<Seq<char>, ServerInfo>,
    connector: bool,
)
    ensures
        state.step(event, sites, connector) matches (after, Action::Connect(addr)) ==> {
            &&& after.phase matches Phase::Connecting { site_name, secure, .. }
            &&& sites.contains_key(site_name)
            &&& !sites[site_name].tunnel
            &&& addr == sites[site_name].addr@
            &&& secure == sites[site_name].secure
        },
{
}

/// A request from which no site can be had is answered as a bad one, one for a site that is not
/// served as such, and both end the connection.
pub proof fn unserved_request_is_refused(state: State, sites: Map<Seq<char>, ServerInfo>)
    ensures
        match buffered_proxy::site_and_line(state.request()) {
            None => state.route(sites) == state.refuse(BAD_REQUEST_RESPONSE@),
            Some((n, _)) => {
                let name = decode_utf8(n);
                name.len() > 0 && name != "favicon.ico"@ && !sites.contains_key(name)
                    ==> state.route(sites) == state.refuse(NOT_FOUND_RESPONSE@)
            },
        },
{
}

/// What a session puts in the site's buffer from a state on until it has the buffer sent, if it
/// comes that far and each write succeeds, and the state that it then is in.
pub open spec fn buffered(state: State) -> Option<(Seq<u8>, State)>
    decreases state.request().len() - state.phase->next,
{
    if let Phase::Headers { site_name, next, ended, content_length, length_headers } =
        state.phase {
        let (after, action) = state.next_header(
            site_name,
            next,
            ended,
            content_length,
            length_headers,
        );
        match (action, after.phase) {
            (Action::Flush, _) => Some((Seq::empty(), after)),
            (Action::Write(b), Phase::Headers { next: then, .. }) => if next < then
                <= after.request().len() && after.request() == state.request() {
                match buffered(after) {
                    Some((rest, flushing)) => Some((b + rest, flushing)),
                    None => None,
                }
            } else {
                None
            },
            _ => None,
        }
    } else {
        None
    }
}

/// What the line of the request that starts at `next` is.
pub open spec fn line_at(req: Seq<u8>, next: int) -> HeaderLine {
    headers::header_line(req.subrange(next, headers::line_stop(req, next)))
}

/// From `next` on the request has headers that can be read, and the line that ends at `stop` ends
/// them.
pub open spec fn complete_headers(req: Seq<u8>, next: int, stop: int) -> bool
    decreases req.len() - next,
{
    let end = headers::line_stop(req, next);
    &&& 0 <= next < end <= req.len()
    &&& line_at(req, next) != HeaderLine::Bad
    &&& if line_at(req, next) == HeaderLine::End {
        end == stop
    } else {
        complete_headers(req, end, stop)
    }
}

/// The headers from `next` on as they are sent: a length header is written anew, after those
/// before it, and the line that ends the headers comes with one that names the client.
pub open spec fn sent_headers(
    req: Seq<u8>,
    next: int,
    length_headers: Seq<u8>,
    ip: Seq<char>,
) -> Seq<u8>
    decreases req.len() - next,
{
    let end = headers::line_stop(req, next);
    if !(0 <= next < end <= req.len()) {
        Seq::empty()
    } else {
        match line_at(req, next) {
            HeaderLine::End => headers::forwarded_for(ip),
            HeaderLine::Length(n) => {
                let all = length_headers + headers::length_header(n as nat);
                all + sent_headers(req, end, all, ip)
            },
            _ => req.subrange(next, end) + sent_headers(req, end, length_headers, ip),
        }
    }
}

/// The length of the body that the headers from `next` on give; `n` if they give none.
pub open spec fn body_length(req: Seq<u8>, next: int, n: usize) -> usize
    decreases req.len() - next,
{
    let end = headers::line_stop(req, next);
    if !(0 <= next < end <= req.len()) {
        n
    } else {
        match line_at(req, next) {
            HeaderLine::End => n,
            HeaderLine::Length(m) => body_length(req, end, m),
            _ => body_length(req, end, n),
        }
    }
}

/// Every header up to the one that ends them reaches the site's buffer, and the session then knows
/// where the body starts and how long it is.
pub proof fn headers_are_sent(
    state: State,
    site_name: Seq<char>,
    next: usize,
    content_length: usize,
    length_headers: Seq<u8>,
    stop: int,
)
    requires
        state.req_buf.len() == BUFFER_SIZE,
        0 <= state.bytes_read <= BUFFER_SIZE,
        state.phase == (Phase::<Seq<u8>, Seq<char>>::Headers {
            site_name,
            next,
            ended: false,
            content_length,
            length_headers,
        }),
        complete_headers(state.request(), next as int, stop),
    ensures
        next < stop <= state.request().len(),
        buffered(state) == Some(
            (
                sent_headers(state.request(), next as int, length_headers, state.ip),
                state.to(
                    Phase::Flushing {
                        site_name,
                        header_size: stop as usize,
                        content_length: body_length(state.request(), next as int, content_length),
                    },
                ),
            ),
        ),
    decreases state.request().len() - next,
{
    let req = state.request();
    let end = headers::line_stop(req, next as int);
    let (after, _) = state.next_header(site_name, next, false, content_length, length_headers);
    assert(req.len() == state.bytes_read);
    assert(after.request() == req);
    reveal_with_fuel(buffered, 2);
    match line_at(req, next as int) {
        HeaderLine::End => {
            assert(headers::forwarded_for(state.ip) + Seq::<u8>::empty()
                =~= headers::forwarded_for(state.ip));
        },
        HeaderLine::Length(n) => {
            let all = length_headers + headers::length_header(n as nat);
            headers_are_sent(after, site_name, end as usize, n, all, stop);
        },
        _ => {
            headers_are_sent(
                after,
                site_name,
                end as usize,
                content_length,
                length_headers,
                stop,
            );
        },
    }
}

/// The lines from `next` up to `at` are sent on as they are.
pub open spec fn kept_lines(req: Seq<u8>, next: int, at: int) -> bool
    decreases req.len() - next,
{
    let end = headers::line_stop(req, next);
    next == at || {
        &&& 0 <= next < end <= at <= req.len()
        &&& line_at(req, next) == HeaderLine::Keep
        &&& kept_lines(req, end, at)
    }
}

/// Headers that say nothing of the body's length are sent as they are, and with them a last one
/// that names the client.
pub proof fn plain_headers_are_sent(
    req: Seq<u8>,
    next: int,
    at: int,
    length_headers: Seq<u8>,
    n: usize,
    ip: Seq<char>,
)
    requires
        0 <= next,
        kept_lines(req, next, at),
        at < req.len(),
        line_at(req, at) == HeaderLine::End,
    ensures
        complete_headers(req, next, headers::line_stop(req, at)),
        sent_headers(req, next, length_headers, ip) == req.subrange(next, at)
            + headers::forwarded_for(ip),
        body_length(req, next, n) == n,
    decreases req.len() - next,
{
    let end = headers::line_stop(req, next);
    text::find_is_first(req, LF, at);
    if next != at {
        plain_headers_are_sent(req, end, at, length_headers, n, ip);
        assert(req.subrange(next, end) + req.subrange(end, at) =~= req.subrange(next, at));
    }
    assert(sent_headers(req, next, length_headers, ip) =~= req.subrange(next, at)
        + headers::forwarded_for(ip));
}

/// A length header among them is written anew in its place, and gives the body its length.
pub proof fn length_header_is_sent(
    req: Seq<u8>,
    next: int,
    length_at: int,
    length: usize,
    at: int,
    n: usize,
    ip: Seq<char>,
)
    requires
        0 <= next,
        kept_lines(req, next, length_at),
        length_at < req.len(),
        line_at(req, length_at) == HeaderLine::Length(length),
        kept_lines(req, headers::line_stop(req, length_at), at),
        at < req.len(),
        line_at(req, at) == HeaderLine::End,
    ensures
        complete_headers(req, next, headers::line_stop(req, at)),
        sent_headers(req, next, Seq::empty(), ip) == req.subrange(next, length_at)
            + headers::length_header(length as nat) + req.subrange(
            headers::line_stop(req, length_at),
            at,
        ) + headers::forwarded_for(ip),
        body_length(req, next, n) == length,
    decreases req.len() - next,
{
    let end = headers::line_stop(req, next);
    let after = headers::line_stop(req, length_at);
    let header = headers::length_header(length as nat);
    text::find_is_first(req, LF, length_at);
    if next == length_at {
        assert(Seq::<u8>::empty() + header =~= header);
        plain_headers_are_sent(req, after, at, header, length, ip);
    } else {
        length_header_is_sent(req, end, length_at, length, at, n, ip);
        assert(req.subrange(next, end) + req.subrange(end, length_at) =~= req.subrange(
            next,
            length_at,
        ));
    }
    assert(sent_headers(req, next, Seq::empty(), ip) =~= req.subrange(next, length_at) + header
        + req.subrange(after, at) + headers::forwarded_for(ip));
}

/// A site that was connected to is sent the first line without its name, the headers, and then
/// whatever was read past them; after that the session reads on if the request is not shorter than
/// the buffer, or joins the client and the site.
pub proof fn request_reaches_its_site(
    state: State,
    site_name: Seq<char>,
    first_line: Seq<char>,
    secure: bool,
    sites: Map<Seq<char>, ServerInfo>,
    connector: bool,
    stop: int,
)
    requires
        state.req_buf.len() == BUFFER_SIZE,
        0 <= state.bytes_read <= BUFFER_SIZE,
        state.phase == (Phase::<Seq<u8>, Seq<char>>::Connecting { site_name, first_line, secure }),
        secure ==> connector,
        complete_headers(state.request(), headers::line_stop(state.request(), 0), stop),
    ensures
        ({
            let req = state.request();
            let start = headers::line_stop(req, 0);
            let length = body_length(req, start, 0);
            let (writing, first) = state.step(Event::Connected, sites, connector);
            let (sent, flushing) = buffered(writing)->0;
            let (after, action) = flushing.step(Event::Written, sites, connector);
            &&& first == Action::<Seq<u8>, Seq<char>>::Write(encode_utf8(first_line))
            &&& buffered(writing) is Some
            &&& sent == sent_headers(req, start, Seq::empty(), state.ip)
            &&& if req.len() > stop {
                &&& action == Action::<Seq<u8>, Seq<char>>::Send(req.skip(stop))
                &&& after.step(Event::Written, sites, connector) == state.read_on(
                    site_name,
                    stop as usize,
                    length,
                )
            } else {
                (after, action) == state.read_on(site_name, stop as usize, length)
            }
        }),
{
    let req = state.request();
    let (writing, _) = state.step(Event::Connected, sites, connector);
    assert(req.len() == state.bytes_read);
    assert(writing.request() == req);
    let start = headers::line_stop(req, 0) as usize;
    headers_are_sent(writing, site_name, start, 0, Seq::empty(), stop);
    let (_, flushing) = buffered(writing)->0;
    assert(flushing.request() == req);
}

/// Once all of a request was sent that was read, the client and the site are joined if the request
/// is shorter than the buffer, however much of it came; otherwise the session reads on, and where
/// the buffer was full, `diff` is how much of the body is missing.
pub proof fn only_a_long_request_is_read_on(
    state: State,
    site_name: Seq<char>,
    header_size: usize,
    content_length: usize,
)
    ensures
        ({
            let total = header_size + content_length;
            let (after, action) = state.read_on(site_name, header_size, content_length);
            &&& total < BUFFER_SIZE ==> (after, action) == state.join(site_name)
            &&& total >= BUFFER_SIZE ==> action == Action::<Seq<u8>, Seq<char>>::ReadBody
            &&& total >= BUFFER_SIZE && header_size <= state.bytes_read == BUFFER_SIZE
                ==> after.phase == (Phase::<Seq<u8>, Seq<char>>::BodyRead {
                site_name,
                diff: (total - state.bytes_read) as usize,
            })
        }),
{
}

/// How many bytes the pieces have together.
pub open spec fn total(pieces: Seq<Seq<u8>>) -> nat
    decreases pieces.len(),
{
    if pieces.len() == 0 {
        0
    } else {
        total(pieces.drop_last()) + pieces.last().len()
    }
}

/// The state after pieces of the body were read and sent, one after the other.
pub open spec fn relayed(
    state: State,
    pieces: Seq<Seq<u8>>,
    sites: Map<Seq<char>, ServerInfo>,
    connector: bool,
) -> State
    decreases pieces.len(),
{
    if pieces.len() == 0 {
        state
    } else {
        let before = relayed(state, pieces.drop_last(), sites, connector);
        let (sending, _) = before.step(Event::Read(pieces.last()), sites, connector);
        let (after, _) = sending.step(Event::Written, sites, connector);
        after
    }
}

/// Pieces of the body are sent as they are read, and the client and the site are joined as soon as
/// more than `diff` bytes were read.
pub proof fn body_is_relayed(
    state: State,
    site_name: Seq<char>,
    diff: usize,
    pieces: Seq<Seq<u8>>,
    piece: Seq<u8>,
    sites: Map<Seq<char>, ServerInfo>,
    connector: bool,
)
    requires
        state.phase == (Phase::<Seq<u8>, Seq<char>>::BodyRead { site_name, diff }),
        forall|i: int| 0 <= i < pieces.len() ==> (#[trigger] pieces[i]).len() <= BUFFER_SIZE,
        piece.len() <= BUFFER_SIZE,
        total(pieces) <= diff,
    ensures
        ({
            let before = relayed(state, pieces, sites, connector);
            let (sending, first) = before.step(Event::Read(piece), sites, connector);
            let (after, second) = sending.step(Event::Written, sites, connector);
            &&& before.phase == (Phase::<Seq<u8>, Seq<char>>::BodyRead {
                site_name,
                diff: (diff - total(pieces)) as usize,
            })
            &&& first == Action::<Seq<u8>, Seq<char>>::Send(piece)
            &&& if total(pieces) + piece.len() > diff {
                (after, second) == sending.join(site_name)
            } else {
                second == Action::<Seq<u8>, Seq<char>>::ReadBody
            }
        }),
    decreases pieces.len(),
{
    if pieces.len() > 0 {
        body_is_relayed(
            state,
            site_name,
            diff,
            pieces.drop_last(),
            pieces.last(),
            sites,
            connector,
        );
    }
}

/// Whatever its method, a request for a path is for the site that the path starts with. The site is
/// connected to at its address, and is then sent the first line without its name. The home page
/// and the icon are the proxy's own, and are served as often as they can be; a name that is not
/// served is not found; and a site behind a tunnel is not reached.
#[verifier::rlimit(50)]
pub proof fn request_is_routed_by_its_path(
    state: State,
    req: Seq<u8>,
    method: Seq<u8>,
    path: Seq<u8>,
    lead: Seq<u8>,
    name: Seq<u8>,
    slash: Seq<u8>,
    rest: Seq<u8>,
    version: Seq<u8>,
    eol: Seq<u8>,
    more: Seq<u8>,
    sites: Map<Seq<char>, ServerInfo>,
    connector: bool,
)
    requires
        state.phase == Phase::<Seq<u8>, Seq<char>>::Request,
        state.req_buf.len() == BUFFER_SIZE,
        req.len() <= BUFFER_SIZE,
        req == method + seq![SPACE] + path + version + eol + more,
        text::lacks(method, SPACE) && text::lacks(method, LF),
        site::is_path(path, lead, name, slash, rest) && path.len() > 0,
        text::lacks(version, LF),
        version.len() > 0 ==> version[0] == SPACE,
        eol == seq![CR, LF] || eol == seq![LF] && (path + version).last() != CR,
        valid_utf8(method + seq![SPACE] + path + version + eol),
    ensures
        ({
            let site = decode_utf8(name);
            let (after, first) = state.step(Event::Read(req), sites, connector);
            let (writing, second) = after.step(Event::Connected, sites, connector);
            if name.len() == 0 {
                &&& first == Action::<Seq<u8>, Seq<char>>::ServeHome
                &&& after.step(Event::Replied, sites, connector) == (after, first)
            } else if site == "favicon.ico"@ {
                &&& first == Action::<Seq<u8>, Seq<char>>::Reply(
                    encode_utf8("HTTP/1.1 404 Not Found\r\n\r\n"@),
                )
                &&& after.step(Event::Replied, sites, connector) == (after, first)
            } else if !sites.contains_key(site) {
                &&& first == Action::<Seq<u8>, Seq<char>>::ReplyAndClose(
                    encode_utf8("HTTP/1.1 404 Not Found\r\n\r\n"@),
                )
                &&& after.phase == Phase::<Seq<u8>, Seq<char>>::Done
            } else if sites[site].tunnel {
                &&& first == Action::<Seq<u8>, Seq<char>>::Close
                &&& after.phase == Phase::<Seq<u8>, Seq<char>>::Done
            } else {
                &&& first == Action::<Seq<u8>, Seq<char>>::Connect(sites[site].addr@)
                &&& after.request() == req && after.ip == state.ip
                &&& after.req_buf.len() == BUFFER_SIZE && after.bytes_read == req.len()
                &&& after.phase matches Phase::Connecting { site_name, first_line, secure }
                &&& site_name == site && secure == sites[site].secure
                &&& if secure && !connector {
                    second == Action::<Seq<u8>, Seq<char>>::Close
                } else {
                    second == Action::<Seq<u8>, Seq<char>>::Write(
                        method + seq![SPACE] + lead + slash + rest + version + eol,
                    )
                }
            }
        }),
{
    let read = State {
        req_buf: crate::proxy::session::written(state.req_buf, 0, req),
        bytes_read: req.len() as int,
        ..state
    };
    assert(read.request() =~= req);
    buffered_proxy::any_path_names_its_site(
        method,
        path,
        lead,
        name,
        slash,
        rest,
        version,
        eol,
        more,
    );
    buffered_proxy::site_and_line_are_text(req);
    decode_utf8_encode_utf8(name);
    let (_, line) = buffered_proxy::site_and_line(req)->0;
    decode_utf8_encode_utf8(line);
    assert(encode_utf8(Seq::<char>::empty()) =~= Seq::<u8>::empty());
    encode_utf8_decode_utf8(Seq::<char>::empty());
    assert(name.len() == 0 ==> name =~= Seq::<u8>::empty());
    assert(path.len() > 0);
    assert(req.len() >= 2);
}

/// Lines that are sent on as they are, one after the other.
proof fn lemma_kept_lines(before: Seq<u8>, lines: Seq<Seq<u8>>, after: Seq<u8>)
    requires
        forall|i: int| 0 <= i < lines.len() ==> headers::is_kept_line(#[trigger] lines[i]),
    ensures
        kept_lines(
            before + lines.flatten() + after,
            before.len() as int,
            (before + lines.flatten()).len() as int,
        ),
    decreases lines.len(),
{
    if lines.len() > 0 {
        let req = before + lines.flatten() + after;
        let l = lines[0];
        let rest = lines.drop_first();
        assert(headers::is_kept_line(l));
        assert forall|i: int| 0 <= i < rest.len() implies headers::is_kept_line(
            #[trigger] rest[i],
        ) by {
            assert(rest[i] == lines[i + 1]);
        }
        assert(req =~= before + l + (rest.flatten() + after));
        text::line_feed_ends_line(before, l, rest.flatten() + after);
        headers::kept_line_is_kept(l);
        assert(req =~= (before + l) + rest.flatten() + after);
        assert(before + lines.flatten() =~= (before + l) + rest.flatten());
        lemma_kept_lines(before + l, rest, after);
    }
}

/// What the line between two parts of a request is.
proof fn lemma_line_at(before: Seq<u8>, l: Seq<u8>, after: Seq<u8>)
    requires
        text::is_line(l),
    ensures
        headers::line_stop(before + l + after, before.len() as int) == (before + l).len(),
        line_at(before + l + after, before.len() as int) == headers::header_line(l),
{
    text::line_feed_ends_line(before, l, after);
}

/// A site that was connected to is sent, after the first line, the headers as they came, one more
/// that names the client, and all that was read of what follows them. After that the client and
/// the site are joined.
#[verifier::rlimit(50)]
pub proof fn plain_request_is_sent_on(
    state: State,
    site_name: Seq<char>,
    first_line: Seq<char>,
    secure: bool,
    first: Seq<u8>,
    lines: Seq<Seq<u8>>,
    end: Seq<u8>,
    body: Seq<u8>,
    sites: Map<Seq<char>, ServerInfo>,
    connector: bool,
)
    requires
        state.req_buf.len() == BUFFER_SIZE,
        0 <= state.bytes_read <= BUFFER_SIZE,
        state.phase == (Phase::<Seq<u8>, Seq<char>>::Connecting { site_name, first_line, secure }),
        secure ==> connector,
        state.request() == first + lines.flatten() + end + body,
        text::is_line(first),
        forall|i: int| 0 <= i < lines.len() ==> headers::is_kept_line(#[trigger] lines[i]),
        text::is_line(end) && end.len() == 2,
        (first + lines.flatten() + end).len() < BUFFER_SIZE,
    ensures
        ({
            let (writing, _) = state.step(Event::Connected, sites, connector);
            let (sent, flushing) = buffered(writing)->0;
            let (after, action) = flushing.step(Event::Written, sites, connector);
            &&& buffered(writing) is Some
            &&& sent == lines.flatten() + encode_utf8("Forwarded: for="@) + encode_utf8(state.ip)
                + seq![CR, LF, CR, LF]
            &&& sends_then_joins(site_name, body, after, action, sites, connector)
        }),
{
    let req = state.request();
    let top = first + lines.flatten();
    let at = top.len() as int;
    let stop = (top + end).len() as int;
    assert(req =~= first + lines.flatten() + (end + body));
    lemma_kept_lines(first, lines, end + body);
    assert(req =~= top + end + body);
    lemma_line_at(top, end, body);
    headers::first_letter_is_looked_at(end);
    let none = Seq::<u8>::empty();
    lemma_line_at(none, first, lines.flatten() + end + body);
    assert(none + first + (lines.flatten() + end + body) =~= req);
    plain_headers_are_sent(req, first.len() as int, at, none, 0, state.ip);
    assert(req.skip(stop) =~= body);
    lemma_sent_on(
        state,
        site_name,
        first_line,
        secure,
        stop,
        0,
        body,
        sites,
        connector,
    );
    headers::written_headers(0, state.ip);
    assert(req.subrange(first.len() as int, at) =~= lines.flatten());
    assert(lines.flatten() + headers::forwarded_for(state.ip) =~= lines.flatten() + encode_utf8(
        "Forwarded: for="@,
    ) + encode_utf8(state.ip) + seq![CR, LF, CR, LF]);
}

/// The bytes are sent, if there are any, and then the client and the site are joined, with nothing
/// of the request left over.
pub open spec fn sends_then_joins(
    site_name: Seq<char>,
    bytes: Seq<u8>,
    state: State,
    action: Action<Seq<u8>, Seq<char>>,
    sites: Map<Seq<char>, ServerInfo>,
    connector: bool,
) -> bool {
    let (after, next) = if bytes.len() > 0 {
        state.step(Event::Written, sites, connector)
    } else {
        (state, action)
    };
    &&& bytes.len() > 0 ==> action == Action::<Seq<u8>, Seq<char>>::Send(bytes)
    &&& next == Action::<Seq<u8>, Seq<char>>::Pipe
    &&& after.phase == (Phase::<Seq<u8>, Seq<char>>::Piping { site_name })
    &&& after.bytes_read == 0
}

/// A length header among the others is written anew, in its place and with the number that it
/// gave, and the body follows as far as it was read. If the request is shorter than the buffer, the
/// client and the site are then joined, and more of the body is read otherwise.
#[verifier::rlimit(50)]
pub proof fn request_with_a_length_is_sent_on(
    state: State,
    site_name: Seq<char>,
    first_line: Seq<char>,
    secure: bool,
    first: Seq<u8>,
    lines: Seq<Seq<u8>>,
    length_line: Seq<u8>,
    length: usize,
    later: Seq<Seq<u8>>,
    end: Seq<u8>,
    body: Seq<u8>,
    sites: Map<Seq<char>, ServerInfo>,
    connector: bool,
)
    requires
        state.req_buf.len() == BUFFER_SIZE,
        0 <= state.bytes_read <= BUFFER_SIZE,
        state.phase == (Phase::<Seq<u8>, Seq<char>>::Connecting { site_name, first_line, secure }),
        secure ==> connector,
        state.request() == first + lines.flatten() + length_line + later.flatten() + end + body,
        text::is_line(first),
        forall|i: int| 0 <= i < lines.len() ==> headers::is_kept_line(#[trigger] lines[i]),
        text::is_line(length_line),
        headers::header_line(length_line) == HeaderLine::Length(length),
        forall|i: int| 0 <= i < later.len() ==> headers::is_kept_line(#[trigger] later[i]),
        text::is_line(end) && end.len() == 2,
    ensures
        ({
            let total = (first + lines.flatten() + length_line + later.flatten() + end).len()
                + length;
            let (writing, _) = state.step(Event::Connected, sites, connector);
            let (sent, flushing) = buffered(writing)->0;
            let (after, action) = flushing.step(Event::Written, sites, connector);
            &&& buffered(writing) is Some
            &&& sent == lines.flatten() + encode_utf8("Content-Length: "@) + text::decimal(
                length as nat,
            ) + seq![CR, LF] + later.flatten() + encode_utf8("Forwarded: for="@) + encode_utf8(
                state.ip,
            ) + seq![CR, LF, CR, LF]
            &&& total < BUFFER_SIZE ==> sends_then_joins(
                site_name,
                body,
                after,
                action,
                sites,
                connector,
            )
            &&& total >= BUFFER_SIZE ==> {
                let (reading, next) = if body.len() > 0 {
                    after.step(Event::Written, sites, connector)
                } else {
                    (after, action)
                };
                &&& body.len() > 0 ==> action == Action::<Seq<u8>, Seq<char>>::Send(body)
                &&& next == Action::<Seq<u8>, Seq<char>>::ReadBody
                &&& reading.phase == (Phase::<Seq<u8>, Seq<char>>::BodyRead {
                    site_name,
                    diff: (total - BUFFER_SIZE) as usize,
                })
            }
        }),
{
    lemma_length_among_headers(
        state.request(),
        first,
        lines,
        length_line,
        length,
        later,
        end,
        body,
        state.ip,
    );
    let stop = (first + lines.flatten() + length_line + later.flatten() + end).len() as int;
    lemma_sent_on(
        state,
        site_name,
        first_line,
        secure,
        stop,
        length,
        body,
        sites,
        connector,
    );
}

/// What follows the first line, given where the headers stop and how long the body is to be.
#[verifier::rlimit(50)]
proof fn lemma_sent_on(
    state: State,
    site_name: Seq<char>,
    first_line: Seq<char>,
    secure: bool,
    stop: int,
    length: usize,
    body: Seq<u8>,
    sites: Map<Seq<char>, ServerInfo>,
    connector: bool,
)
    requires
        state.req_buf.len() == BUFFER_SIZE,
        0 <= state.bytes_read <= BUFFER_SIZE,
        state.phase == (Phase::<Seq<u8>, Seq<char>>::Connecting { site_name, first_line, secure }),
        secure ==> connector,
        complete_headers(state.request(), headers::line_stop(state.request(), 0), stop),
        body_length(state.request(), headers::line_stop(state.request(), 0), 0) == length,
        0 <= stop,
        state.request().skip(stop) == body,
        state.request().len() == stop + body.len(),
    ensures
        ({
            let req = state.request();
            let (writing, _) = state.step(Event::Connected, sites, connector);
            let (sent, flushing) = buffered(writing)->0;
            let (after, action) = flushing.step(Event::Written, sites, connector);
            &&& buffered(writing) is Some
            &&& sent == sent_headers(req, headers::line_stop(req, 0), Seq::empty(), state.ip)
            &&& stop + length < BUFFER_SIZE ==> sends_then_joins(
                site_name,
                body,
                after,
                action,
                sites,
                connector,
            )
            &&& stop + length >= BUFFER_SIZE ==> {
                let (reading, next) = if body.len() > 0 {
                    after.step(Event::Written, sites, connector)
                } else {
                    (after, action)
                };
                &&& body.len() > 0 ==> action == Action::<Seq<u8>, Seq<char>>::Send(body)
                &&& next == Action::<Seq<u8>, Seq<char>>::ReadBody
                &&& reading.phase == (Phase::<Seq<u8>, Seq<char>>::BodyRead {
                    site_name,
                    diff: (stop + length - BUFFER_SIZE) as usize,
                })
            }
        }),
{
    request_reaches_its_site(state, site_name, first_line, secure, sites, connector, stop);
}

#[verifier::rlimit(50)]
proof fn lemma_length_among_headers(
    req: Seq<u8>,
    first: Seq<u8>,
    lines: Seq<Seq<u8>>,
    length_line: Seq<u8>,
    length: usize,
    later: Seq<Seq<u8>>,
    end: Seq<u8>,
    body: Seq<u8>,
    ip: Seq<char>,
)
    requires
        req == first + lines.flatten() + length_line + later.flatten() + end + body,
        text::is_line(first),
        forall|i: int| 0 <= i < lines.len() ==> headers::is_kept_line(#[trigger] lines[i]),
        text::is_line(length_line),
        headers::header_line(length_line) == HeaderLine::Length(length),
        forall|i: int| 0 <= i < later.len() ==> headers::is_kept_line(#[trigger] later[i]),
        text::is_line(end) && end.len() == 2,
    ensures
        ({
            let start = headers::line_stop(req, 0);
            let stop = (first + lines.flatten() + length_line + later.flatten()
                + end).len() as int;
            &&& complete_headers(req, start, stop)
            &&& body_length(req, start, 0) == length
            &&& req.skip(stop) == body && req.len() == stop + body.len()
            &&& sent_headers(req, start, Seq::empty(), ip) == lines.flatten() + encode_utf8(
                "Content-Length: "@,
            ) + text::decimal(length as nat) + seq![CR, LF] + later.flatten() + encode_utf8(
                "Forwarded: for="@,
            ) + encode_utf8(ip) + seq![CR, LF, CR, LF]
        }),
{
    let pre = lines.flatten();
    let post = later.flatten();
    let top = first + pre;
    let upto = top + length_line;
    let all = upto + post;
    lemma_four_parts(req, first, pre, length_line, post, end, body);
    lemma_kept_lines(first, lines, length_line + post + end + body);
    lemma_line_at(top, length_line, post + end + body);
    lemma_kept_lines(upto, later, end + body);
    lemma_line_at(all, end, body);
    headers::first_letter_is_looked_at(end);
    lemma_line_at(Seq::empty(), first, pre + length_line + post + end + body);
    length_header_is_sent(
        req,
        first.len() as int,
        top.len() as int,
        length,
        all.len() as int,
        0,
        ip,
    );
    headers::written_headers(length as nat, ip);
    lemma_written(
        pre,
        encode_utf8("Content-Length: "@),
        text::decimal(length as nat),
        post,
        encode_utf8("Forwarded: for="@),
        encode_utf8(ip),
    );
}

#[verifier::rlimit(50)]
proof fn lemma_four_parts(
    req: Seq<u8>,
    first: Seq<u8>,
    pre: Seq<u8>,
    line: Seq<u8>,
    post: Seq<u8>,
    end: Seq<u8>,
    body: Seq<u8>,
)
    requires
        req == first + pre + line + post + end + body,
    ensures
        req == Seq::<u8>::empty() + first + (pre + line + post + end + body),
        req == first + pre + (line + post + end + body),
        req == first + pre + line + (post + end + body),
        req == first + pre + line + post + (end + body),
        req.subrange(first.len() as int, (first + pre).len() as int) == pre,
        req.subrange(
            (first + pre + line).len() as int,
            (first + pre + line + post).len() as int,
        ) == post,
        req.skip((first + pre + line + post + end).len() as int) == body,
{
    assert(req =~= Seq::<u8>::empty() + first + (pre + line + post + end + body));
    assert(req =~= first + pre + (line + post + end + body));
    assert(req =~= first + pre + line + (post + end + body));
    assert(req =~= first + pre + line + post + (end + body));
    assert(req.subrange(first.len() as int, (first + pre).len() as int) =~= pre);
    assert(req.subrange(
        (first + pre + line).len() as int,
        (first + pre + line + post).len() as int,
    ) =~= post);
    assert(req.skip((first + pre + line + post + end).len() as int) =~= body);
}

proof fn lemma_written(
    pre: Seq<u8>,
    name: Seq<u8>,
    number: Seq<u8>,
    post: Seq<u8>,
    forwarded: Seq<u8>,
    ip: Seq<u8>,
)
    ensures
        pre + (name + number + seq![CR, LF]) + post + (forwarded + ip + seq![CR, LF, CR, LF]) == pre
            + name + number + seq![CR, LF] + post + forwarded + ip + seq![CR, LF, CR, LF],
{
    assert(pre + (name + number + seq![CR, LF]) + post =~= pre + name + number + seq![CR, LF]
        + post);
    let all = pre + name + number + seq![CR, LF] + post;
    assert(all + (forwarded + ip + seq![CR, LF, CR, LF]) =~= all + forwarded + ip + seq![
        CR,
        LF,
        CR,
        LF,
    ]);
}

/// Each header is handled in its turn, whatever came before it and whatever follows: it is sent as
/// it is; or it gives the body's length, and is written anew after those that did so before; or it
/// ends the headers, and the client is named. After the end, or with the request, what was written
/// is flushed.
#[verifier::rlimit(50)]
pub proof fn header_is_sent_in_its_turn(
    state: State,
    site_name: Seq<char>,
    ended: bool,
    content_length: usize,
    length_headers: Seq<u8>,
    before: Seq<u8>,
    line: Seq<u8>,
    after: Seq<u8>,
    sites: Map<Seq<char>, ServerInfo>,
    connector: bool,
)
    requires
        state.req_buf.len() == BUFFER_SIZE,
        0 <= state.bytes_read <= BUFFER_SIZE,
        state.request() == before + line + after,
        text::is_line(line) || text::lacks(line, LF) && after.len() == 0,
        state.phase == (Phase::<Seq<u8>, Seq<char>>::Headers {
            site_name,
            next: before.len() as usize,
            ended,
            content_length,
            length_headers,
        }),
    ensures
        ({
            let next = (before + line).len() as usize;
            let length = |n: usize|
                length_headers + encode_utf8("Content-Length: "@) + text::decimal(n as nat) + seq![
                    CR,
                    LF,
                ];
            let sending = |n: usize, end: bool, lengths: Seq<u8>|
                State {
                    phase: Phase::Headers {
                        site_name,
                        next,
                        ended: end,
                        content_length: n,
                        length_headers: lengths,
                    },
                    ..state
                };
            let (then, action) = state.step(Event::Written, sites, connector);
            &&& ended || line.len() == 0 ==> {
                &&& action == Action::<Seq<u8>, Seq<char>>::Flush
                &&& then == State {
                    phase: Phase::Flushing {
                        site_name,
                        header_size: before.len() as usize,
                        content_length,
                    },
                    ..state
                }
            }
            &&& !ended && line.len() == 2 ==> {
                &&& action == Action::<Seq<u8>, Seq<char>>::Write(
                    encode_utf8("Forwarded: for="@) + encode_utf8(state.ip) + seq![CR, LF, CR, LF],
                )
                &&& then == sending(content_length, true, length_headers)
            }
            &&& !ended && line.len() > 0 && headers::header_line(line) == HeaderLine::Keep ==> {
                &&& action == Action::<Seq<u8>, Seq<char>>::Write(line)
                &&& then == sending(content_length, false, length_headers)
            }
            &&& !ended && line.len() > 0 ==> (headers::header_line(line) matches HeaderLine::Length(
                n,
            ) ==> {
                &&& action == Action::<Seq<u8>, Seq<char>>::Write(length(n))
                &&& then == sending(n, false, length(n))
            })
        }),
{
    let req = state.request();
    let start = before.len() as int;
    assert(req.len() == state.bytes_read);
    if text::is_line(line) {
        text::line_feed_ends_line(before, line, after);
    } else {
        text::find_is_first(req, LF, start);
        let i = text::find(req, LF, start);
        if i < req.len() {
            assert(req[i] == line[i - start]);
        }
        assert(req.subrange(start, req.len() as int) =~= line);
    }
    if line.len() > 0 {
        headers::first_letter_is_looked_at(line);
        if let HeaderLine::Length(n) = headers::header_line(line) {
            headers::written_headers(n as nat, state.ip);
            assert(length_headers + headers::length_header(n as nat) =~= length_headers
                + encode_utf8("Content-Length: "@) + text::decimal(n as nat) + seq![CR, LF]);
        }
        headers::written_headers(0, state.ip);
    }
}

/// A header that cannot be read is answered as a bad request, and ends the connection, whatever
/// came before it.
#[verifier::rlimit(50)]
pub proof fn bad_header_is_refused(
    state: State,
    site_name: Seq<char>,
    content_length: usize,
    length_headers: Seq<u8>,
    before: Seq<u8>,
    line: Seq<u8>,
    after: Seq<u8>,
    sites: Map<Seq<char>, ServerInfo>,
    connector: bool,
)
    requires
        state.req_buf.len() == BUFFER_SIZE,
        0 <= state.bytes_read <= BUFFER_SIZE,
        state.request() == before + line + after,
        text::is_line(line),
        line.len() != 2,
        line[0] == 0x63 || line[0] == 0x43,
        text::lacks(line, COLON) || !valid_utf8(line),
        state.phase == (Phase::<Seq<u8>, Seq<char>>::Headers {
            site_name,
            next: before.len() as usize,
            ended: false,
            content_length,
            length_headers,
        }),
    ensures
        ({
            let (refused, action) = state.step(Event::Written, sites, connector);
            &&& action == Action::<Seq<u8>, Seq<char>>::ReplyAndClose(
                encode_utf8("HTTP/1.1 400 Bad Request\r\n\r\n"@),
            )
            &&& refused.phase == Phase::<Seq<u8>, Seq<char>>::Done
        }),
{
    lemma_line_at(before, line, after);
    headers::first_letter_is_looked_at(line);
    assert(state.request().len() == state.bytes_read);
}

/// Failures end the connection, and a site that cannot be reached or written to is reported before
/// that; a body that does not come in time is left to the pipe.
pub proof fn failures_are_handled(
    state: State,
    sites: Map<Seq<char>, ServerInfo>,
    connector: bool,
)
    ensures
        ({
            let after = |event: Event<Seq<u8>>| state.step(event, sites, connector);
            let done = State { phase: Phase::Done, ..state };
            let over = (done, Action::<Seq<u8>, Seq<char>>::Close);
            let reported = (
                done,
                Action::<Seq<u8>, Seq<char>>::ReplyAndClose(
                    encode_utf8("HTTP/1.1 500 Internal Server Error\r\n\r\n"@),
                ),
            );
            &&& state.phase is Request ==> after(Event::ReadFailed) == over && after(
                Event::TimedOut,
            ) == over
            &&& state.phase is BodyRead ==> after(Event::ReadFailed) == over
            &&& state.phase matches Phase::BodyRead { site_name, .. } ==> {
                let (joined, action) = after(Event::TimedOut);
                &&& action == Action::<Seq<u8>, Seq<char>>::Pipe
                &&& joined.phase == (Phase::<Seq<u8>, Seq<char>>::Piping { site_name })
                &&& joined.bytes_read == 0
            }
            &&& state.phase is Connecting ==> after(Event::ConnectFailed) == reported
            &&& state.phase is Headers || state.phase is Flushing || state.phase is BodySend
                || state.phase is RestSend ==> after(Event::WriteFailed) == reported
        }),
{
}

/// A read of fewer than two bytes, or of bytes without a line feed or a space, is no request: the
/// client is told so and the connection is over.
pub proof fn no_request_is_refused(
    state: State,
    req: Seq<u8>,
    sites: Map<Seq<char>, ServerInfo>,
    connector: bool,
)
    requires
        state.phase == Phase::<Seq<u8>, Seq<char>>::Request,
        state.req_buf.len() == BUFFER_SIZE,
        req.len() <= BUFFER_SIZE,
        req.len() < 2 || text::lacks(req, LF) || text::is_line(req) && text::lacks(req, SPACE),
    ensures
        ({
            let (after, action) = state.step(Event::Read(req), sites, connector);
            &&& action == Action::<Seq<u8>, Seq<char>>::ReplyAndClose(
                encode_utf8("HTTP/1.1 400 Bad Request\r\n\r\n"@),
            )
            &&& after.phase == Phase::<Seq<u8>, Seq<char>>::Done
        }),
{
    let read = State {
        req_buf: crate::proxy::session::written(state.req_buf, 0, req),
        bytes_read: req.len() as int,
        ..state
    };
    assert(read.request() =~= req);
    buffered_proxy::no_path_names_no_site(req, req, req, Seq::empty());
    assert(req + Seq::<u8>::empty() =~= req);
}

/// How a session goes on after a client and a site were parted: it is over if the client is gone;
/// a lost site is reported, and the next request is read; and a request that is left over is
/// handled.
pub proof fn parted_session_goes_on(
    state: State,
    n: usize,
    e: Failed,
    sites: Map<Seq<char>, ServerInfo>,
    connector: bool,
)
    requires
        state.phase is Piping,
        state.bytes_read == 0,
        0 < n,
    ensures
        ({
            let after = |end: PipeEnd| state.step(Event::PipeEnded(end), sites, connector);
            let over = (State { phase: Phase::Done, ..state }, Action::<Seq<u8>, Seq<char>>::Close);
            let reading = (
                State { phase: Phase::Request, ..state },
                Action::<Seq<u8>, Seq<char>>::Read,
            );
            let lost = |end: PipeEnd|
                {
                    &&& after(end).1 == Action::<Seq<u8>, Seq<char>>::Reply(
                        encode_utf8("HTTP/1.1 500 Internal Server Error\r\n\r\n"@),
                    )
                    &&& after(end).0.step(Event::Replied, sites, connector) == reading
                };
            let left = State { bytes_read: n as int, ..state };
            &&& after(PipeEnd::Client(Either::Left(Ok(0)))) == over
            &&& after(PipeEnd::Client(Either::Left(Err(e)))) == over
            &&& lost(PipeEnd::Client(Either::Right(Err(e))))
            &&& lost(PipeEnd::Server(Either::Right(Err(e))))
            &&& after(PipeEnd::Client(Either::Left(Ok(n)))) == left.route(sites)
            &&& after(PipeEnd::Client(Either::Right(Ok(n)))) == left.route(sites)
            &&& after(PipeEnd::Server(Either::Left(Ok(n)))) == left.route(sites)
            &&& after(PipeEnd::Server(Either::Right(Ok(n)))) == left.route(sites)
            &&& after(PipeEnd::Server(Either::Right(Ok(0)))) == reading
            &&& after(PipeEnd::Server(Either::Left(Ok(0)))) == reading
            &&& after(PipeEnd::Server(Either::Left(Err(e)))) == reading
            &&& after(PipeEnd::Client(Either::Right(Ok(0)))) == reading
        }),
{
}

/// A client that is joined to a site has its requests for that site sent there as they came. A
/// request for another site parts the two, and one for the icon is passed over.
pub proof fn joined_request_goes_to_its_site(
    state: State,
    joined: Seq<char>,
    req: Seq<u8>,
    method: Seq<u8>,
    path: Seq<u8>,
    lead: Seq<u8>,
    name: Seq<u8>,
    slash: Seq<u8>,
    rest: Seq<u8>,
    version: Seq<u8>,
    eol: Seq<u8>,
    more: Seq<u8>,
)
    requires
        state.phase == (Phase::<Seq<u8>, Seq<char>>::Piping { site_name: joined }),
        req.len() <= BUFFER_SIZE,
        req == method + seq![SPACE] + path + version + eol + more,
        text::lacks(method, SPACE) && text::lacks(method, LF),
        site::is_path(path, lead, name, slash, rest) && path.len() > 0,
        text::lacks(version, LF),
        version.len() > 0 ==> version[0] == SPACE,
        eol == seq![CR, LF] || eol == seq![LF] && (path + version).last() != CR,
        valid_utf8(method + seq![SPACE] + path + version + eol),
    ensures
        ({
            let (after, action) = state.client_step(ClientEvent::Read(req));
            &&& after.phase == state.phase
            &&& if decode_utf8(name) == "favicon.ico"@ {
                action == ClientAction::<Seq<u8>>::Read
            } else if decode_utf8(name) == joined {
                action == ClientAction::Forward(req)
            } else {
                action == ClientAction::<Seq<u8>>::End(Either::Left(Ok(req.len() as usize)))
            }
        }),
{
    buffered_proxy::any_path_names_its_site(
        method,
        path,
        lead,
        name,
        slash,
        rest,
        version,
        eol,
        more,
    );
}

/// A request for another site parts the client from the site it is joined to, and is then handled
/// as if it had just been read.
pub proof fn request_for_another_site_is_handled_anew(
    state: State,
    joined: Seq<char>,
    req: Seq<u8>,
    sites: Map<Seq<char>, ServerInfo>,
    connector: bool,
)
    requires
        state.phase == (Phase::<Seq<u8>, Seq<char>>::Piping { site_name: joined }),
        state.req_buf.len() == BUFFER_SIZE,
        2 <= req.len() <= BUFFER_SIZE,
        buffered_proxy::site_and_line(req) is Some,
        ({
            let (name, _) = buffered_proxy::site_and_line(req)->0;
            decode_utf8(name) != joined && decode_utf8(name) != "favicon.ico"@
        }),
    ensures
        ({
            let (parting, action) = state.client_step(ClientEvent::Read(req));
            &&& action == ClientAction::<Seq<u8>>::End(Either::Left(Ok(req.len() as usize)))
            &&& parting.step(
                Event::PipeEnded(PipeEnd::Client(Either::Left(Ok(req.len() as usize)))),
                sites,
                connector,
            ) == State { phase: Phase::Request, ..state }.step(Event::Read(req), sites, connector)
        }),
{
}

/// What a site is sent of bytes that were read one after the other from a client that is joined
/// to it, if each of them is sent on and each write succeeds.
pub open spec fn site_gets(state: State, reads: Seq<Seq<u8>>) -> Option<Seq<u8>>
    decreases reads.len(),
{
    if reads.len() == 0 {
        Some(Seq::empty())
    } else {
        let (sending, action) = state.client_step(ClientEvent::Read(reads[0]));
        let (after, next) = sending.client_step(ClientEvent::Forwarded);
        match (action, next, site_gets(after, reads.drop_first())) {
            (ClientAction::Forward(out), ClientAction::Read, Some(more)) => Some(out + more),
            _ => None,
        }
    }
}

/// Bytes that name no site, such as those of a body, reach the site that the client is joined to:
/// all of them, as they came and in order.
pub proof fn bytes_without_a_site_reach_the_joined_one(state: State, reads: Seq<Seq<u8>>)
    requires
        state.phase is Piping,
        forall|i: int|
            0 <= i < reads.len() ==> (#[trigger] reads[i]).len() > 0
                && buffered_proxy::site_and_line(reads[i]) is None,
    ensures
        site_gets(state, reads) == Some(reads.flatten()),
    decreases reads.len(),
{
    if reads.len() > 0 {
        let b = reads[0];
        let rest = reads.drop_first();
        assert(b.len() > 0 && buffered_proxy::site_and_line(b) is None);
        let (sending, _) = state.client_step(ClientEvent::Read(b));
        assert forall|i: int| 0 <= i < rest.len() implies (#[trigger] rest[i]).len() > 0
            && buffered_proxy::site_and_line(rest[i]) is None by {
            assert(rest[i] == reads[i + 1]);
        }
        bytes_without_a_site_reach_the_joined_one(sending, rest);
    }
}

/// So do bytes that are no request, for want of a line feed.
pub proof fn plain_bytes_reach_the_site(state: State, reads: Seq<Seq<u8>>)
    requires
        state.phase is Piping,
        forall|i: int|
            0 <= i < reads.len() ==> (#[trigger] reads[i]).len() > 0 && text::lacks(reads[i], LF),
    ensures
        site_gets(state, reads) == Some(reads.flatten()),
{
    assert forall|i: int| 0 <= i < reads.len() implies (#[trigger] reads[i]).len() > 0
        && buffered_proxy::site_and_line(reads[i]) is None by {
        buffered_proxy::no_path_names_no_site(reads[i], reads[i], reads[i], reads[i]);
    }
    bytes_without_a_site_reach_the_joined_one(state, reads);
}

/// What a client is sent of bytes that were read one after the other from a site, if each write
/// succeeds.
pub open spec fn client_gets(reads: Seq<Seq<u8>>) -> Option<Seq<u8>>
    decreases reads.len(),
{
    if reads.len() == 0 {
        Some(Seq::empty())
    } else {
        let action = session::server_step(ServerEvent::Read(reads[0]));
        let next = session::server_step(ServerEvent::Written);
        match (action, next, client_gets(reads.drop_first())) {
            (ServerAction::Write(out), ServerAction::Read, Some(more)) => Some(out + more),
            _ => None,
        }
    }
}

/// Whatever a site sends is what the client is sent: all of it, as it came and in order.
pub proof fn answer_reaches_the_client(reads: Seq<Seq<u8>>)
    requires
        forall|i: int| 0 <= i < reads.len() ==> (#[trigger] reads[i]).len() > 0,
    ensures
        client_gets(reads) == Some(reads.flatten()),
    decreases reads.len(),
{
    if reads.len() > 0 {
        let rest = reads.drop_first();
        assert(reads[0].len() > 0);
        assert forall|i: int| 0 <= i < rest.len() implies (#[trigger] rest[i]).len() > 0 by {
            assert(rest[i] == reads[i + 1]);
        }
        answer_reaches_the_client(rest);
    }
}

/// How the two directions between a client and a site go on otherwise: a client that sends nothing
/// more, or that cannot be read from or written to, ends its direction on the left, and a site on
/// the right.
pub proof fn directions_end(state: State, e: Failed)
    ensures
        state.client_step(ClientEvent::Read(Seq::empty())) == (
            state,
            ClientAction::<Seq<u8>>::End(Either::Left(Ok(0))),
        ),
        state.client_step(ClientEvent::ReadFailed) == (
            state,
            ClientAction::<Seq<u8>>::End(Either::Left(Err(e))),
        ),
        state.client_step(ClientEvent::ForwardFailed) == (
            state,
            ClientAction::<Seq<u8>>::End(Either::Right(Err(e))),
        ),
        state.client_step(ClientEvent::Forwarded) == (state, ClientAction::<Seq<u8>>::Read),
        session::server_step(ServerEvent::Read(Seq::empty())) == ServerAction::<Seq<u8>>::End(
            Either::Right(Ok(0)),
        ),
        session::server_step(ServerEvent::ReadFailed) == ServerAction::<Seq<u8>>::End(
            Either::Right(Err(e)),
        ),
        session::server_step(ServerEvent::WriteFailed) == ServerAction::<Seq<u8>>::End(
            Either::Left(Err(e)),
        ),
{
}

} // verus!
