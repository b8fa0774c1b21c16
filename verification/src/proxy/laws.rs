//! What holds of every session, whatever its client and its sites do.

use vstd::prelude::*;
use vstd::utf8::*;

use crate::proxy;
use crate::proxy::forward;
use crate::proxy::session;
use crate::proxy::session::Action;
use crate::proxy::session::ClientAction;
use crate::proxy::session::ClientEvent;
use crate::proxy::session::Either;
use crate::proxy::session::Event;
use crate::proxy::session::Failed;
use crate::proxy::session::Phase;
use crate::proxy::session::PipeEnd;
use crate::proxy::session::ServerAction;
use crate::proxy::session::ServerEvent;
use crate::proxy::session::State;
use crate::proxy::site;
use crate::proxy::Base;
use crate::proxy::BUFFER_SIZE;
use crate::response::BAD_REQUEST_RESPONSE;
use crate::response::INTERNAL_SERVER_ERROR_RESPONSE;
use crate::response::NOT_FOUND_RESPONSE;
use crate::response::OK_RESPONSE;
use crate::server::Server;
use crate::text;
use crate::text::CR;
use crate::text::LF;
use crate::text::SLASH;
use crate::text::SPACE;

verus! {

/// The event can come of the action, if no more is read than there is room for.
pub open spec fn comes_of(action: Action<Seq<u8>, Seq<char>>, event: Event<Seq<u8>>) -> bool {
    match (action, event) {
        (Action::Read { start }, Event::Read(b)) => start + b.len() <= BUFFER_SIZE,
        (Action::Read { .. }, Event::ReadFailed | Event::TimedOut) => true,
        (Action::Reply(_), Event::Replied) => true,
        (Action::Decode(_), Event::Decoded(_)) => true,
        (Action::Connect(_), Event::Connected | Event::ConnectFailed) => true,
        (Action::Forward(_), Event::Forwarded | Event::ForwardFailed) => true,
        (Action::Pipe, Event::PipeEnded(end)) => fits(end),
        _ => false,
    }
}

/// The request that is left over is no longer than the buffer, and what concerns the site is a
/// failure.
pub open spec fn fits(end: PipeEnd) -> bool {
    match end {
        PipeEnd::Client(Either::Left(Ok(n))) => n <= BUFFER_SIZE,
        PipeEnd::Server(Either::Left(Ok(n))) => n <= BUFFER_SIZE,
        PipeEnd::Client(Either::Right(e)) | PipeEnd::Server(Either::Right(e)) => e is Some,
        _ => true,
    }
}

/// The action is the one that leads on from the state.
pub open spec fn in_step(state: State, action: Action<Seq<u8>, Seq<char>>) -> bool {
    forall|event: Event<Seq<u8>>| #[trigger]
        state.expects(event) <==> comes_of(action, event)
}

/// A session expects exactly what can come of the action that it asked for.
pub proof fn session_expects_what_comes(
    state: State,
    event: Event<Seq<u8>>,
    routes: Map<Seq<char>, Server>,
    home: Seq<u8>,
    connector: bool,
)
    requires
        state.expects(event),
    ensures
        ({
            let (after, action) = state.step(event, routes, home, connector);
            in_step(after, action)
        }),
{
}

/// A new session expects exactly what can come of the action that it asks for first.
pub proof fn new_session_expects_what_comes(state: State, n: usize)
    requires
        state.phase == Phase::<Seq<char>>::FirstRead(n),
    ensures
        in_step(state, Action::Read { start: n }),
{
}

/// However the direction from the client to a site ends, the session can go on from there: what
/// is left over fits the buffer, and a failure to reach the site is a failure.
pub proof fn client_end_is_expected(state: State, event: ClientEvent<Seq<u8>>)
    requires
        event matches ClientEvent::Read(b) ==> b.len() <= BUFFER_SIZE,
    ensures
        ({
            let (_, action) = state.client_step(event);
            action matches ClientAction::End(end) ==> fits(PipeEnd::Client(end))
        }),
{
}

/// However the direction from a site to the client ends, it ends with a failure, and the session
/// can go on from there.
pub proof fn server_end_is_a_failure(event: ServerEvent<Seq<u8>>)
    ensures
        session::server_step(event) matches ServerAction::End(end) ==> {
            &&& fits(PipeEnd::Server(end))
            &&& end matches Either::Left(res) ==> res is Err
        },
{
}

/// A client that is joined to a site reaches no other: what is sent on names that site, or
/// nothing that could be taken for the name of a site.
pub proof fn joined_client_reaches_one_site(state: State, site_name: Seq<char>, req: Seq<u8>)
    requires
        state.phase == (Phase::<Seq<char>>::Piping { site_name }),
    ensures
        state.client_request(req) matches ClientAction::Forward(out) ==> {
            ||| !site::names_site(req) && out == req
            ||| {
                &&& site::names_site(req)
                &&& decode_utf8(site::site_name(req)) == site_name
                &&& out == forward::forwarded(
                    req,
                    site::site_name(req),
                    site::line_without_site(req),
                )
            }
        },
{
}

/// A request for another site parts the client from the site it is joined to, and is then handled
/// as if it had just been read.
pub proof fn request_for_another_site_is_handled_anew(
    state: State,
    site_name: Seq<char>,
    req: Seq<u8>,
    routes: Map<Seq<char>, Server>,
    home: Seq<u8>,
    connector: bool,
)
    requires
        state.phase == (Phase::<Seq<char>>::Piping { site_name }),
        state.req_buf.len() == BUFFER_SIZE,
        0 < req.len() <= BUFFER_SIZE,
        site::names_site(req),
        decode_utf8(site::site_name(req)) != site_name,
        decode_utf8(site::site_name(req)) != "favicon.ico"@,
    ensures
        ({
            let (parting, action) = state.client_step(ClientEvent::Read(req));
            &&& action == ClientAction::<Seq<u8>>::End(Either::Left(Ok(req.len() as usize)))
            &&& parting.step(
                Event::PipeEnded(PipeEnd::Client(Either::Left(Ok(req.len() as usize)))),
                routes,
                home,
                connector,
            ) == state.to(Phase::Request).step(Event::Read(req), routes, home, connector)
        }),
{
}

/// A request from which no site can be had is answered as a bad one, and ends the connection.
pub proof fn bad_request_is_refused(state: State, routes: Map<Seq<char>, Server>, home: Seq<u8>)
    requires
        !site::names_site(state.request()),
    ensures
        state.route(routes, home) == (
            state.to(Phase::Done),
            Action::<Seq<u8>, Seq<char>>::ReplyAndClose(encode_utf8(BAD_REQUEST_RESPONSE@)),
        ),
{
}

/// A request for a site that is not served is answered as such, and the connection goes on with
/// the next request.
pub proof fn unknown_site_is_not_found(
    state: State,
    routes: Map<Seq<char>, Server>,
    home: Seq<u8>,
    connector: bool,
)
    requires
        site::names_site(state.request()),
        decode_utf8(site::site_name(state.request())).len() > 0,
        !routes.contains_key(decode_utf8(site::site_name(state.request()))),
    ensures
        ({
            let (after, action) = state.route(routes, home);
            &&& action == Action::<Seq<u8>, Seq<char>>::Reply(encode_utf8(NOT_FOUND_RESPONSE@))
            &&& after.step(Event::Replied, routes, home, connector) == state.read_request()
        }),
{
}

/// A request for a served site reaches that site, if the site can be reached: without the site's
/// name in its path and with it among the paths it came through. Then the client and the site are
/// joined.
pub proof fn request_reaches_its_site(
    state: State,
    req: Seq<u8>,
    routes: Map<Seq<char>, Server>,
    home: Seq<u8>,
    connector: bool,
)
    requires
        state.phase == Phase::<Seq<char>>::Request,
        state.req_buf.len() == BUFFER_SIZE,
        req.len() <= BUFFER_SIZE,
        site::names_site(req),
        ({
            let name = decode_utf8(site::site_name(req));
            &&& name.len() > 0
            &&& name != "favicon.ico"@
            &&& routes.contains_key(name)
            &&& routes[name].secure ==> connector
        }),
    ensures
        ({
            let name = decode_utf8(site::site_name(req));
            let (connecting, first) = state.step(Event::Read(req), routes, home, connector);
            let (sending, second) = connecting.step(Event::Connected, routes, home, connector);
            let (piping, third) = sending.step(Event::Forwarded, routes, home, connector);
            &&& first == Action::<Seq<u8>, Seq<char>>::Connect(routes[name].addr@)
            &&& second == Action::<Seq<u8>, Seq<char>>::Forward(
                forward::forwarded(req, site::site_name(req), site::line_without_site(req)),
            )
            &&& third == Action::<Seq<u8>, Seq<char>>::Pipe
            &&& piping.phase == (Phase::<Seq<char>>::Piping { site_name: name })
        }),
{
    let read = State {
        req_buf: session::written(state.req_buf, 0, req),
        bytes_read: req.len() as int,
        phase: Phase::Request,
    };
    assert(read.request() =~= req);
    site::site_and_line_are_text(req);
    decode_utf8_encode_utf8(site::site_name(req));
    decode_utf8_encode_utf8(site::line_without_site(req));
}

/// A session connects to the addresses of sites that are served, and to no others.
pub proof fn connects_to_served_sites(
    state: State,
    event: Event<Seq<u8>>,
    routes: Map<Seq<char>, Server>,
    home: Seq<u8>,
    connector: bool,
)
    ensures
        state.step(event, routes, home, connector) matches (after, Action::Connect(addr)) ==> {
            &&& after.phase matches Phase::Connecting { site_name, secure, .. }
            &&& routes.contains_key(site_name)
            &&& addr == routes[site_name].addr@
            &&& secure == routes[site_name].secure
        },
{
}

/// Without the means for TLS nothing is sent to a site that is to be reached over TLS.
pub proof fn secure_site_needs_connector(
    state: State,
    site_name: Seq<char>,
    first_line: Seq<char>,
    routes: Map<Seq<char>, Server>,
    home: Seq<u8>,
)
    requires
        state.phase == (Phase::<Seq<char>>::Connecting { site_name, first_line, secure: true }),
    ensures
        state.step(Event::Connected, routes, home, false) == state.reply(
            encode_utf8(INTERNAL_SERVER_ERROR_RESPONSE@),
        ),
{
}

/// The sites change only by a deletion that is answered with success.
pub proof fn only_an_answered_deletion_changes_sites(
    state: State,
    event: Event<Seq<u8>>,
    routes: Map<Seq<char>, Server>,
    home: Seq<u8>,
    connector: bool,
)
    requires
        state.routes_after(event, routes) != routes,
    ensures
        ({
            let (_, action) = state.step(event, routes, home, connector);
            &&& state.phase == Phase::<Seq<char>>::DeleteServer
            &&& event matches Event::Decoded(Some(s))
            &&& routes.contains_key(s.path@)
            &&& state.routes_after(event, routes) == routes.remove(s.path@)
            &&& action == Action::<Seq<u8>, Seq<char>>::Reply(encode_utf8(OK_RESPONSE@))
        }),
{
}

/// A site that was deleted is not found by any later request.
pub proof fn deleted_site_is_not_found(
    deleting: State,
    s: Server,
    later: State,
    routes: Map<Seq<char>, Server>,
    home: Seq<u8>,
)
    requires
        deleting.phase == Phase::<Seq<char>>::DeleteServer,
        s.complete(),
        proxy::serves(routes, s),
        site::names_site(later.request()),
        decode_utf8(site::site_name(later.request())) == s.path@,
    ensures
        later.route(deleting.routes_after(Event::Decoded(Some(s)), routes), home) == later.reply(
            encode_utf8(NOT_FOUND_RESPONSE@),
        ),
{
}

/// What was read goes to its place in the buffer, and changes nothing else there.
pub proof fn read_changes_its_place_only(buf: Seq<u8>, at: int, b: Seq<u8>, i: int)
    requires
        0 <= at,
        at + b.len() <= buf.len(),
    ensures
        session::written(buf, at, b).len() == buf.len(),
        session::written(buf, at, b).subrange(at, at + b.len()) == b,
        0 <= i < at || at + b.len() <= i < buf.len() ==> session::written(buf, at, b)[i] == buf[i],
{
    assert(session::written(buf, at, b).subrange(at, at + b.len()) =~= b);
}

/// A request that was read in two parts is handled as if it had been read in one.
pub proof fn two_reads_make_one_request(
    state: State,
    n: usize,
    b: Seq<u8>,
    routes: Map<Seq<char>, Server>,
    home: Seq<u8>,
    connector: bool,
)
    requires
        state.phase == Phase::<Seq<char>>::FirstRead(n),
        state.req_buf.len() == BUFFER_SIZE,
        0 < n + b.len() <= BUFFER_SIZE,
    ensures
        ({
            let whole = state.req_buf.take(n as int) + b;
            let (two, action) = state.step(Event::Read(b), routes, home, connector);
            let (one, same) = state.to(Phase::Request).step(
                Event::Read(whole),
                routes,
                home,
                connector,
            );
            action == same && two == one
        }),
{
    let whole = state.req_buf.take(n as int) + b;
    assert(session::written(state.req_buf, n as int, b) =~= session::written(
        state.req_buf,
        0,
        whole,
    ));
}

/// If nothing was read of the first request, it is waited for anew.
pub proof fn empty_first_read_is_read_again(
    state: State,
    routes: Map<Seq<char>, Server>,
    home: Seq<u8>,
    connector: bool,
)
    requires
        state.phase == Phase::<Seq<char>>::FirstRead(0),
    ensures
        reads_on(state, Event::Read(Seq::empty()), routes, home, connector),
{
}

/// A request as a client sends it: a first line with a path, headers that do not name paths, an
/// empty line and a body.
pub open spec fn is_request(
    req: Seq<u8>,
    method: Seq<u8>,
    path: Seq<u8>,
    version: Seq<u8>,
    headers: Seq<Seq<u8>>,
    body: Seq<u8>,
) -> bool {
    let line = method + seq![SPACE] + path + seq![SPACE] + version + seq![LF];
    &&& req == line + headers.flatten() + seq![CR, LF] + body
    &&& text::lacks(method, SPACE) && text::lacks(method, LF) && text::lacks(version, LF)
    &&& valid_utf8(line)
    &&& forall|i: int|
        0 <= i < headers.len() ==> forward::is_other_line(#[trigger] headers[i])
}

/// What such a request names, and how it is forwarded.
#[verifier::rlimit(50)]
proof fn lemma_request(
    req: Seq<u8>,
    method: Seq<u8>,
    path: Seq<u8>,
    lead: Seq<u8>,
    name: Seq<u8>,
    slash: Seq<u8>,
    rest: Seq<u8>,
    version: Seq<u8>,
    headers: Seq<Seq<u8>>,
    body: Seq<u8>,
)
    requires
        is_request(req, method, path, version, headers, body),
        site::is_path(path, lead, name, slash, rest),
    ensures
        site::names_site(req),
        site::site_name(req) == name,
        encode_utf8(decode_utf8(name)) == name,
        ({
            let line = method + seq![SPACE] + lead + rest + seq![SPACE] + version + seq![LF];
            &&& site::line_without_site(req) == line
            &&& encode_utf8(decode_utf8(line)) == line
            &&& forward::forwarded(req, name, line) == line + headers.flatten() + encode_utf8(
                "Rusty-Proxy-Path: "@,
            ) + name + seq![CR, LF, CR, LF] + body
        }),
{
    let first = method + seq![SPACE] + path + seq![SPACE] + version + seq![LF];
    let line = method + seq![SPACE] + lead + rest + seq![SPACE] + version + seq![LF];
    let more = headers.flatten() + seq![CR, LF] + body;
    assert(req =~= first + more);
    site::any_path_names_its_site(method, path, lead, name, slash, rest, version, more);
    site::site_and_line_are_text(req);
    decode_utf8_encode_utf8(name);
    decode_utf8_encode_utf8(line);
    assert(text::is_line(first)) by {
        let front = method + seq![SPACE] + path + seq![SPACE] + version;
        assert(first.drop_last() =~= front);
        text::both_lack(method, seq![SPACE], LF);
        text::both_lack(method + seq![SPACE], path, LF);
        text::both_lack(method + seq![SPACE] + path, seq![SPACE], LF);
        text::both_lack(method + seq![SPACE] + path + seq![SPACE], version, LF);
    }
    forward::forwarded_request_announces_its_site(first, headers, body, name, line);
}

/// Whatever its method, a request for a path reaches the site that the path starts with: the site
/// is connected to at its address, and is sent the request without its name in the path, with a
/// header more that names it, and with everything else as it came. A name that is not served, or
/// that is the icon's, is not found, and the connection goes on with the next request.
#[verifier::rlimit(50)]
pub proof fn request_is_served_by_the_site_in_its_path(
    state: State,
    req: Seq<u8>,
    method: Seq<u8>,
    path: Seq<u8>,
    lead: Seq<u8>,
    name: Seq<u8>,
    slash: Seq<u8>,
    rest: Seq<u8>,
    version: Seq<u8>,
    headers: Seq<Seq<u8>>,
    body: Seq<u8>,
    routes: Map<Seq<char>, Server>,
    home: Seq<u8>,
    connector: bool,
)
    requires
        state.phase == Phase::<Seq<char>>::Request,
        state.req_buf.len() == BUFFER_SIZE,
        req.len() <= BUFFER_SIZE,
        is_request(req, method, path, version, headers, body),
        site::is_path(path, lead, name, slash, rest),
        decode_utf8(name).len() > 0,
    ensures
        ({
            let site = decode_utf8(name);
            let (after, first) = state.step(Event::Read(req), routes, home, connector);
            if site == "favicon.ico"@ || !routes.contains_key(site) {
                &&& first == Action::<Seq<u8>, Seq<char>>::Reply(
                    encode_utf8("HTTP/1.1 404 Not Found\r\n\r\n"@),
                )
                &&& reads_on(after, Event::Replied, routes, home, connector)
            } else {
                let (sending, second) = after.step(Event::Connected, routes, home, connector);
                let (piping, third) = sending.step(Event::Forwarded, routes, home, connector);
                &&& first == Action::<Seq<u8>, Seq<char>>::Connect(routes[site].addr@)
                &&& if routes[site].secure && !connector {
                    &&& second == Action::<Seq<u8>, Seq<char>>::Reply(
                        encode_utf8("HTTP/1.1 500 Internal Server Error\r\n\r\n"@),
                    )
                    &&& reads_on(sending, Event::Replied, routes, home, connector)
                } else {
                    &&& second == Action::<Seq<u8>, Seq<char>>::Forward(
                        method + seq![SPACE] + lead + rest + seq![SPACE] + version + seq![LF]
                            + headers.flatten() + encode_utf8("Rusty-Proxy-Path: "@) + name + seq![
                            CR,
                            LF,
                            CR,
                            LF,
                        ] + body,
                    )
                    &&& third == Action::<Seq<u8>, Seq<char>>::Pipe
                    &&& piping.phase == (Phase::<Seq<char>>::Piping { site_name: site })
                }
            }
        }),
{
    let read = State {
        req_buf: session::written(state.req_buf, 0, req),
        bytes_read: req.len() as int,
        phase: Phase::Request,
    };
    assert(read.request() =~= req);
    lemma_request(req, method, path, lead, name, slash, rest, version, headers, body);
}

/// After the event the next request is read, into an empty buffer.
pub open spec fn reads_on(
    state: State,
    event: Event<Seq<u8>>,
    routes: Map<Seq<char>, Server>,
    home: Seq<u8>,
    connector: bool,
) -> bool {
    let (after, action) = state.step(event, routes, home, connector);
    &&& action == Action::<Seq<u8>, Seq<char>>::Read { start: 0 }
    &&& after.phase == Phase::<Seq<char>>::Request
    &&& after.bytes_read == 0
}

/// A request for a path that starts with no name is for the proxy itself, and goes by its method:
/// the home page is sent, or the body is decoded to a site to be added or deleted, or the method is
/// not allowed. Without a body there is no site to add or delete.
#[verifier::rlimit(50)]
pub proof fn request_without_a_name_is_for_the_proxy(
    state: State,
    req: Seq<u8>,
    method: Seq<u8>,
    path: Seq<u8>,
    lead: Seq<u8>,
    slash: Seq<u8>,
    rest: Seq<u8>,
    version: Seq<u8>,
    headers: Seq<Seq<u8>>,
    body: Seq<u8>,
    routes: Map<Seq<char>, Server>,
    home: Seq<u8>,
    connector: bool,
)
    requires
        state.phase == Phase::<Seq<char>>::Request,
        state.req_buf.len() == BUFFER_SIZE,
        req.len() <= BUFFER_SIZE,
        is_request(req, method, path, version, headers, body),
        site::is_path(path, lead, Seq::empty(), slash, rest),
    ensures
        ({
            let (after, action) = state.step(Event::Read(req), routes, home, connector);
            let asks = |word: Seq<char>| text::all_alike(method, encode_utf8(word));
            &&& asks("GET"@) ==> action == Action::<Seq<u8>, Seq<char>>::Reply(home) && reads_on(
                after,
                Event::Replied,
                routes,
                home,
                connector,
            )
            &&& asks("POST"@) && body.len() > 0 ==> action == Action::<
                Seq<u8>,
                Seq<char>,
            >::Decode(body) && after.phase == Phase::<Seq<char>>::AddServer
            &&& asks("DELETE"@) && body.len() > 0 ==> action == Action::<
                Seq<u8>,
                Seq<char>,
            >::Decode(body) && after.phase == Phase::<Seq<char>>::DeleteServer
            &&& (asks("POST"@) || asks("DELETE"@)) && body.len() == 0 ==> action == Action::<
                Seq<u8>,
                Seq<char>,
            >::Reply(encode_utf8("HTTP/1.1 400 Bad Request\r\n\r\n"@)) && reads_on(
                after,
                Event::Replied,
                routes,
                home,
                connector,
            )
            &&& !asks("GET"@) && !asks("POST"@) && !asks("DELETE"@) ==> action == Action::<
                Seq<u8>,
                Seq<char>,
            >::Reply(encode_utf8("HTTP/1.1 405 Method Not Allowed\r\n\r\n"@)) && reads_on(
                after,
                Event::Replied,
                routes,
                home,
                connector,
            )
        }),
{
    let read = State {
        req_buf: session::written(state.req_buf, 0, req),
        bytes_read: req.len() as int,
        phase: Phase::Request,
    };
    let none = Seq::<u8>::empty();
    assert(read.request() =~= req);
    lemma_request(req, method, path, lead, none, slash, rest, version, headers, body);
    assert(decode_utf8(none).len() == 0) by {
        assert(encode_utf8(Seq::<char>::empty()) =~= none);
        encode_utf8_decode_utf8(Seq::<char>::empty());
    }
    let target = path + seq![SPACE] + version;
    assert(text::lacks(target, LF)) by {
        text::both_lack(path, seq![SPACE], LF);
        text::both_lack(path + seq![SPACE], version, LF);
    }
    assert forall|i: int| 0 <= i < headers.len() implies text::is_line(#[trigger] headers[i])
        && headers[i] != seq![CR, LF] by {
        assert(forward::is_other_line(headers[i]));
    }
    proxy::own_request_is_told_by_its_method(method, target, headers, body, home);
    assert(req =~= method + seq![SPACE] + target + seq![LF] + headers.flatten() + seq![CR, LF]
        + body);
    lemma_methods_differ(method);
}

/// Any request that names no site but has a path is the proxy's own: it is answered, or its body is
/// decoded, as its method says.
pub proof fn nameless_request_is_the_proxys_own(
    state: State,
    routes: Map<Seq<char>, Server>,
    home: Seq<u8>,
    connector: bool,
)
    requires
        site::names_site(state.request()),
        site::site_name(state.request()) == Seq::<u8>::empty(),
    ensures
        ({
            let (after, action) = state.route(routes, home);
            match proxy::base_request(state.request(), home) {
                Base::Reply(answer) => {
                    &&& action == Action::<Seq<u8>, Seq<char>>::Reply(answer)
                    &&& reads_on(after, Event::Replied, routes, home, connector)
                },
                Base::Add(body) => {
                    &&& action == Action::<Seq<u8>, Seq<char>>::Decode(body)
                    &&& after == State { phase: Phase::AddServer, ..state }
                },
                Base::Delete(body) => {
                    &&& action == Action::<Seq<u8>, Seq<char>>::Decode(body)
                    &&& after == State { phase: Phase::DeleteServer, ..state }
                },
            }
        }),
{
    assert(encode_utf8(Seq::<char>::empty()) =~= Seq::<u8>::empty());
    encode_utf8_decode_utf8(Seq::<char>::empty());
}

/// A word is one of the methods at most.
proof fn lemma_methods_differ(word: Seq<u8>)
    ensures
        ({
            let asks = |method: Seq<char>| text::all_alike(word, encode_utf8(method));
            &&& !(asks("GET"@) && asks("POST"@))
            &&& !(asks("GET"@) && asks("DELETE"@))
            &&& !(asks("POST"@) && asks("DELETE"@))
        }),
{
    reveal_strlit("GET");
    reveal_strlit("POST");
    reveal_strlit("DELETE");
    is_ascii_chars_encode_utf8("GET"@);
    is_ascii_chars_encode_utf8("POST"@);
    is_ascii_chars_encode_utf8("DELETE"@);
}

/// A site that was decoded for a deletion is deleted if it is served just so, and the answer says
/// what came of it; a site that was decoded to be added is answered only if it is not complete.
/// Either way the next request is read.
pub proof fn decoded_site_is_answered(
    state: State,
    decoded: Option<Server>,
    routes: Map<Seq<char>, Server>,
    home: Seq<u8>,
    connector: bool,
)
    ensures
        state.phase == Phase::<Seq<char>>::DeleteServer ==> {
            let (after, action) = state.step(Event::Decoded(decoded), routes, home, connector);
            let left = state.routes_after(Event::Decoded(decoded), routes);
            &&& reads_on(after, Event::Replied, left, home, connector)
            &&& match decoded {
                Some(s) => if s.name@.len() == 0 || s.path@.len() == 0 || s.addr@.len() == 0 {
                    &&& action == Action::<Seq<u8>, Seq<char>>::Reply(
                        encode_utf8("HTTP/1.1 400 Bad Request\r\n\r\n"@),
                    )
                    &&& left == routes
                } else if routes.contains_key(s.path@) && routes[s.path@].name@ == s.name@
                    && routes[s.path@].path@ == s.path@ && routes[s.path@].addr@ == s.addr@ {
                    &&& action == Action::<Seq<u8>, Seq<char>>::Reply(
                        encode_utf8("HTTP/1.1 200 OK\r\n\r\n"@),
                    )
                    &&& left == routes.remove(s.path@)
                } else {
                    &&& action == Action::<Seq<u8>, Seq<char>>::Reply(
                        encode_utf8("HTTP/1.1 404 Not Found\r\n\r\n"@),
                    )
                    &&& left == routes
                },
                None => {
                    &&& action == Action::<Seq<u8>, Seq<char>>::Reply(
                        encode_utf8("HTTP/1.1 400 Bad Request\r\n\r\n"@),
                    )
                    &&& left == routes
                },
            }
        },
        state.phase == Phase::<Seq<char>>::AddServer ==> {
            let (after, action) = state.step(Event::Decoded(decoded), routes, home, connector);
            let complete = decoded matches Some(s) && s.name@.len() > 0 && s.path@.len() > 0
                && s.addr@.len() > 0;
            &&& state.routes_after(Event::Decoded(decoded), routes) == routes
            &&& complete ==> reads_on(state, Event::Decoded(decoded), routes, home, connector)
            &&& !complete ==> action == Action::<Seq<u8>, Seq<char>>::Reply(
                encode_utf8("HTTP/1.1 400 Bad Request\r\n\r\n"@),
            ) && reads_on(after, Event::Replied, routes, home, connector)
        },
{
}

/// Bytes that hold no two spaces, or no line feed, are no request: the client is told so and the
/// connection is over.
pub proof fn no_request_is_refused(
    state: State,
    req: Seq<u8>,
    routes: Map<Seq<char>, Server>,
    home: Seq<u8>,
    connector: bool,
)
    requires
        state.phase == Phase::<Seq<char>>::Request,
        state.req_buf.len() == BUFFER_SIZE,
        req.len() <= BUFFER_SIZE,
        text::lacks(req, SPACE) || text::lacks(req, LF),
    ensures
        ({
            let (after, action) = state.step(Event::Read(req), routes, home, connector);
            &&& action == Action::<Seq<u8>, Seq<char>>::ReplyAndClose(
                encode_utf8("HTTP/1.1 400 Bad Request\r\n\r\n"@),
            )
            &&& after.phase == Phase::<Seq<char>>::Done
        }),
{
    let read = State {
        req_buf: session::written(state.req_buf, 0, req),
        bytes_read: req.len() as int,
        phase: Phase::Request,
    };
    assert(read.request() =~= req);
    site::no_path_names_no_site(req, req, req, req);
}

/// A failed or late read ends the connection; a site that cannot be reached or written to is
/// reported, and the next request is read.
pub proof fn failures_are_handled(
    state: State,
    routes: Map<Seq<char>, Server>,
    home: Seq<u8>,
    connector: bool,
)
    ensures
        state.phase is FirstRead || state.phase is Request ==> {
            &&& state.step(Event::ReadFailed, routes, home, connector) == (
                State { phase: Phase::Done, ..state },
                Action::<Seq<u8>, Seq<char>>::Close,
            )
            &&& state.step(Event::TimedOut, routes, home, connector) == (
                State { phase: Phase::Done, ..state },
                Action::<Seq<u8>, Seq<char>>::Close,
            )
        },
        state.phase is Connecting ==> {
            let (after, action) = state.step(Event::ConnectFailed, routes, home, connector);
            &&& action == Action::<Seq<u8>, Seq<char>>::Reply(
                encode_utf8("HTTP/1.1 500 Internal Server Error\r\n\r\n"@),
            )
            &&& reads_on(after, Event::Replied, routes, home, connector)
        },
        state.phase is Sending ==> {
            let (after, action) = state.step(Event::ForwardFailed, routes, home, connector);
            &&& action == Action::<Seq<u8>, Seq<char>>::Reply(
                encode_utf8("HTTP/1.1 500 Internal Server Error\r\n\r\n"@),
            )
            &&& reads_on(after, Event::Replied, routes, home, connector)
        },
{
}

/// How a session goes on after a client and a site were parted: it is over if the client is gone;
/// a lost site is reported, and the next request is read; a request that is left over is handled;
/// and if the client could not be written to, the last request is handled again.
pub proof fn parted_session_goes_on(
    state: State,
    n: usize,
    e: Failed,
    routes: Map<Seq<char>, Server>,
    home: Seq<u8>,
    connector: bool,
)
    requires
        state.phase is Piping,
        0 < n,
    ensures
        ({
            let after = |end: PipeEnd| state.step(Event::PipeEnded(end), routes, home, connector);
            let over = (State { phase: Phase::Done, ..state }, Action::<Seq<u8>, Seq<char>>::Close);
            let lost = |end: PipeEnd|
                {
                    &&& after(end).1 == Action::<Seq<u8>, Seq<char>>::Reply(
                        encode_utf8("HTTP/1.1 500 Internal Server Error\r\n\r\n"@),
                    )
                    &&& reads_on(after(end).0, Event::Replied, routes, home, connector)
                };
            let left = State { bytes_read: n as int, ..state };
            &&& after(PipeEnd::Client(Either::Left(Ok(0)))) == over
            &&& after(PipeEnd::Client(Either::Left(Err(e)))) == over
            &&& lost(PipeEnd::Client(Either::Right(Some(e))))
            &&& lost(PipeEnd::Server(Either::Right(Some(e))))
            &&& after(PipeEnd::Client(Either::Left(Ok(n)))) == left.route(routes, home)
            &&& after(PipeEnd::Server(Either::Left(Ok(n)))) == left.route(routes, home)
            &&& reads_on(
                state,
                Event::PipeEnded(PipeEnd::Server(Either::Left(Ok(0)))),
                routes,
                home,
                connector,
            )
            &&& state.bytes_read != 0 ==> after(PipeEnd::Server(Either::Left(Err(e))))
                == state.route(routes, home)
        }),
{
}

/// A client that is joined to a site has its requests for that site sent there: without the name
/// in the path, with a header more, and with everything else as it came. A request for another
/// site parts the two, and one for the icon is left to the other direction.
#[verifier::rlimit(50)]
pub proof fn joined_request_goes_to_its_site(
    state: State,
    site_name: Seq<char>,
    req: Seq<u8>,
    method: Seq<u8>,
    path: Seq<u8>,
    lead: Seq<u8>,
    name: Seq<u8>,
    slash: Seq<u8>,
    rest: Seq<u8>,
    version: Seq<u8>,
    headers: Seq<Seq<u8>>,
    body: Seq<u8>,
)
    requires
        state.phase == (Phase::<Seq<char>>::Piping { site_name }),
        req.len() <= BUFFER_SIZE,
        is_request(req, method, path, version, headers, body),
        site::is_path(path, lead, name, slash, rest),
    ensures
        ({
            let (after, action) = state.client_step(ClientEvent::Read(req));
            &&& after.phase == state.phase
            &&& if decode_utf8(name) == "favicon.ico"@ {
                action == ClientAction::<Seq<u8>>::Favicon
            } else if decode_utf8(name) == site_name {
                action == ClientAction::Forward(
                    method + seq![SPACE] + lead + rest + seq![SPACE] + version + seq![LF]
                        + headers.flatten() + encode_utf8("Rusty-Proxy-Path: "@) + name + seq![
                        CR,
                        LF,
                        CR,
                        LF,
                    ] + body,
                )
            } else {
                action == ClientAction::<Seq<u8>>::End(Either::Left(Ok(req.len() as usize)))
            }
        }),
{
    lemma_request(req, method, path, lead, name, slash, rest, version, headers, body);
}

/// What a site is sent of bytes that were read one after the other from a client that is joined
/// to it, if each of them is sent on and each write succeeds.
pub open spec fn site_gets(state: State, reads: Seq<Seq<u8>>) -> Option<Seq<u8>>
    decreases reads.len(),
{
    if reads.len() == 0 {
        Some(Seq::empty())
    } else {
        let (sending, action) = state.client_step(ClientEvent::Read(reads[0]));
        let (after, next) = sending.client_step(ClientEvent::Forwarded);
        match (action, next, site_gets(after, reads.drop_first())) {
            (ClientAction::Forward(out), ClientAction::Read, Some(more)) => Some(out + more),
            _ => None,
        }
    }
}

/// Bytes that name no site, such as those of a body, reach the site that the client is joined to:
/// all of them, as they came and in order.
pub proof fn bytes_without_a_site_reach_the_joined_one(state: State, reads: Seq<Seq<u8>>)
    requires
        state.phase is Piping,
        forall|i: int|
            0 <= i < reads.len() ==> (#[trigger] reads[i]).len() > 0 && !site::names_site(reads[i]),
    ensures
        site_gets(state, reads) == Some(reads.flatten()),
    decreases reads.len(),
{
    if reads.len() > 0 {
        let b = reads[0];
        let rest = reads.drop_first();
        assert(b.len() > 0 && !site::names_site(b));
        let (sending, _) = state.client_step(ClientEvent::Read(b));
        assert forall|i: int| 0 <= i < rest.len() implies (#[trigger] rest[i]).len() > 0
            && !site::names_site(rest[i]) by {
            assert(rest[i] == reads[i + 1]);
        }
        bytes_without_a_site_reach_the_joined_one(sending, rest);
    }
}

/// So do bytes that are no request, for want of a space or of a line feed.
pub proof fn plain_bytes_reach_the_site(state: State, reads: Seq<Seq<u8>>)
    requires
        state.phase is Piping,
        forall|i: int|
            0 <= i < reads.len() ==> (#[trigger] reads[i]).len() > 0 && (text::lacks(
                reads[i],
                SPACE,
            ) || text::lacks(reads[i], LF)),
    ensures
        site_gets(state, reads) == Some(reads.flatten()),
{
    assert forall|i: int| 0 <= i < reads.len() implies (#[trigger] reads[i]).len() > 0
        && !site::names_site(reads[i]) by {
        site::no_path_names_no_site(reads[i], reads[i], reads[i], reads[i]);
    }
    bytes_without_a_site_reach_the_joined_one(state, reads);
}

/// What a client is sent of bytes that were read one after the other from a site, if each write
/// succeeds.
pub open spec fn client_gets(reads: Seq<Seq<u8>>) -> Option<Seq<u8>>
    decreases reads.len(),
{
    if reads.len() == 0 {
        Some(Seq::empty())
    } else {
        let action = session::server_step(ServerEvent::Read(reads[0]));
        let next = session::server_step(ServerEvent::Written);
        match (action, next, client_gets(reads.drop_first())) {
            (ServerAction::Write(out), ServerAction::Listen, Some(more)) => Some(out + more),
            _ => None,
        }
    }
}

/// Whatever a site sends is what the client is sent: all of it, as it came and in order.
pub proof fn answer_reaches_the_client(reads: Seq<Seq<u8>>)
    ensures
        client_gets(reads) == Some(reads.flatten()),
    decreases reads.len(),
{
    if reads.len() > 0 {
        answer_reaches_the_client(reads.drop_first());
    }
}

/// How the two directions between a client and a site go on otherwise: a client that sends nothing
/// more, or that cannot be read from or written to, ends its direction on the left, a site that
/// cannot be read from or written to on the right; and a request for the icon is answered as not
/// found.
pub proof fn directions_end(state: State, e: Failed)
    ensures
        state.client_step(ClientEvent::Read(Seq::empty())) == (
            state,
            ClientAction::<Seq<u8>>::End(Either::Left(Ok(0))),
        ),
        state.client_step(ClientEvent::ReadFailed) == (
            state,
            ClientAction::<Seq<u8>>::End(Either::Left(Err(e))),
        ),
        state.client_step(ClientEvent::ForwardFailed) == (
            state,
            ClientAction::<Seq<u8>>::End(Either::Right(Some(e))),
        ),
        state.client_step(ClientEvent::FaviconAsked) == (state, ClientAction::<Seq<u8>>::Read),
        state.client_step(ClientEvent::Forwarded) == (state, ClientAction::<Seq<u8>>::Read),
        session::server_step(ServerEvent::ReadFailed) == ServerAction::<Seq<u8>>::End(
            Either::Right(Some(e)),
        ),
        session::server_step(ServerEvent::WriteFailed) == ServerAction::<Seq<u8>>::End(
            Either::Left(Err(e)),
        ),
        session::server_step(ServerEvent::FaviconAsked) == ServerAction::Write(
            encode_utf8("HTTP/1.1 404 Not Found\r\n\r\n"@),
        ),
{
}

} // verus!
