//! The proxy that takes the first part of a request's path for the name of a site.

pub mod forward;
pub mod laws;
pub mod session;
pub mod site;

use vstd::prelude::*;
use vstd::utf8::*;

use crate::req_header::SpecialReqHeader;
use crate::response::BAD_REQUEST_RESPONSE;
use crate::response::METHOD_NOT_ALLOWED_RESPONSE;
use crate::response::NOT_FOUND_RESPONSE;
use crate::response::OK_RESPONSE;
use crate::server;
use crate::server::Server;
use crate::sync_map::SyncMap;
use crate::text;
use crate::text::CR;
use crate::text::LF;
use crate::text::SPACE;

verus! {

/// How many bytes a request, or a piece of an answer, is read at a time.
pub const BUFFER_SIZE: usize = 1024;

/// How long a request is waited for, in milliseconds.
pub const STREAM_READ_TIMEOUT: u64 = 10000;

/// The proxy: the sites it serves and the page it answers with itself.
pub struct Proxy {
    /// The address the proxy runs at.
    pub addr: String,
    /// The sites, by the path they are served under.
    pub routes: SyncMap<Server>,
    /// The home page.
    pub home_html_bytes: Vec<u8>,
    /// Whether sites can be reached over TLS.
    pub connector: bool,
}

/// There is no address to run at.
#[derive(Debug, Clone, Copy, PartialEq, Eq, Structural)]
pub struct AddrNotAvailable;

/// What became of a read.
pub enum ReadOutcome {
    /// So many bytes were read.
    Bytes(usize),
    Failed,
    TimedOut,
}

/// Who takes a connection over.
#[derive(Debug, Clone, Copy, PartialEq, Eq, Structural)]
pub enum Handler {
    /// Nobody: the connection ends.
    Close,
    Connect,
    Tunnel,
    Http,
}

/// What a request without a site asks for: an answer, or a site to be added or deleted, which the
/// body describes.
pub enum Base<B> {
    Reply(B),
    Add(B),
    Delete(B),
}

impl View for Base<Vec<u8>> {
    type V = Base<Seq<u8>>;

    open spec fn view(&self) -> Base<Seq<u8>> {
        match self {
            Base::Reply(b) => Base::Reply(b@),
            Base::Add(b) => Base::Add(b@),
            Base::Delete(b) => Base::Delete(b@),
        }
    }
}

/// Who takes over a connection whose first bytes were read into `buf`.
pub open spec fn handler(outcome: ReadOutcome, buf: Seq<u8>) -> Handler {
    match outcome {
        ReadOutcome::Bytes(_) => match SpecialReqHeader::at_start(buf) {
            SpecialReqHeader::Connect => Handler::Connect,
            SpecialReqHeader::Tunnel => Handler::Tunnel,
            _ => Handler::Http,
        },
        _ => Handler::Close,
    }
}

/// A connection from which nothing could be read ends. Any other is taken for HTTP, unless it
/// starts with one of two marks of four bytes.
pub proof fn only_a_mark_keeps_a_connection_from_http(outcome: ReadOutcome, buf: Seq<u8>)
    ensures
        ({
            let marked = outcome is Bytes && buf.len() >= 4 && buf[0] == 0xff && buf[1] == 0xff
                && buf[2] == 0xff;
            &&& handler(outcome, buf) == Handler::Close <==> outcome is Failed
                || outcome is TimedOut
            &&& handler(outcome, buf) == Handler::Tunnel <==> marked && buf[3] == 0xff
            &&& handler(outcome, buf) == Handler::Connect <==> marked && buf[3] == 0xfe
        }),
{
    crate::req_header::mark_is_in_the_first_four_bytes(buf);
}

/// What a request without a site asks for.
pub open spec fn base_request(req: Seq<u8>, home: Seq<u8>) -> Base<Seq<u8>> {
    let m = forward::method(req);
    let body = forward::body_start(req, 0);
    if m == encode_utf8("GET"@) {
        Base::Reply(home)
    } else if m == encode_utf8("POST"@) {
        match body {
            Some(i) => Base::Add(req.skip(i)),
            None => Base::Reply(encode_utf8(BAD_REQUEST_RESPONSE@)),
        }
    } else if m == encode_utf8("DELETE"@) {
        match body {
            Some(i) => Base::Delete(req.skip(i)),
            None => Base::Reply(encode_utf8(BAD_REQUEST_RESPONSE@)),
        }
    } else {
        Base::Reply(encode_utf8(METHOD_NOT_ALLOWED_RESPONSE@))
    }
}

/// The answer to a request to add what the body was decoded to; a complete site gets none.
pub open spec fn add_answer(decoded: Option<Server>) -> Option<Seq<char>> {
    if decoded is Some && decoded->0.complete() {
        None
    } else {
        Some(BAD_REQUEST_RESPONSE@)
    }
}

/// The sites served have one like `s` under its path.
pub open spec fn serves(routes: Map<Seq<char>, Server>, s: Server) -> bool {
    routes.contains_key(s.path@) && routes[s.path@].same_site(s)
}

/// The answer to a request to delete what the body was decoded to.
pub open spec fn delete_answer(
    routes: Map<Seq<char>, Server>,
    decoded: Option<Server>,
) -> Seq<char> {
    if !(decoded is Some && decoded->0.complete()) {
        BAD_REQUEST_RESPONSE@
    } else if !serves(routes, decoded->0) {
        NOT_FOUND_RESPONSE@
    } else {
        OK_RESPONSE@
    }
}

/// The sites after a request to delete what the body was decoded to.
pub open spec fn after_delete(
    routes: Map<Seq<char>, Server>,
    decoded: Option<Server>,
) -> Map<Seq<char>, Server> {
    if decoded is Some && decoded->0.complete() && serves(routes, decoded->0) {
        routes.remove(decoded->0.path@)
    } else {
        routes
    }
}

/// A deletion that is answered with anything but success leaves the sites as they are, and one
/// that succeeds removes the site under the path it names and no other.
pub proof fn only_ok_deletes(
    routes: Map<Seq<char>, Server>,
    decoded: Option<Server>,
    path: Seq<char>,
)
    ensures
        delete_answer(routes, decoded) != OK_RESPONSE@ ==> after_delete(routes, decoded) == routes,
        delete_answer(routes, decoded) == OK_RESPONSE@ ==> {
            &&& decoded is Some
            &&& routes.contains_key(decoded->0.path@)
            &&& !after_delete(routes, decoded).contains_key(decoded->0.path@)
            &&& path != decoded->0.path@ ==> {
                &&& after_delete(routes, decoded).contains_key(path) == routes.contains_key(path)
                &&& routes.contains_key(path) ==> after_delete(routes, decoded)[path]
                    == routes[path]
            }
        },
{
    reveal_strlit("HTTP/1.1 200 OK\r\n\r\n");
    reveal_strlit("HTTP/1.1 400 Bad Request\r\n\r\n");
    reveal_strlit("HTTP/1.1 404 Not Found\r\n\r\n");
    assert(OK_RESPONSE@.len() != BAD_REQUEST_RESPONSE@.len());
    assert(OK_RESPONSE@.len() != NOT_FOUND_RESPONSE@.len());
}

/// What a request to the proxy itself asks for goes by its method, whatever the case of its
/// letters: the home page, or a site to be added or deleted, which is described by all that follows
/// the empty line after the headers, however many these are. Other methods are not allowed.
#[verifier::rlimit(50)]
pub proof fn own_request_is_told_by_its_method(
    word: Seq<u8>,
    target: Seq<u8>,
    headers: Seq<Seq<u8>>,
    body: Seq<u8>,
    home: Seq<u8>,
)
    requires
        text::lacks(word, SPACE) && text::lacks(word, LF),
        text::lacks(target, LF),
        forall|i: int|
            0 <= i < headers.len() ==> text::is_line(#[trigger] headers[i]) && headers[i] != seq![
                CR,
                LF,
            ],
    ensures
        ({
            let first = word + seq![SPACE] + target + seq![LF];
            let req = first + headers.flatten() + seq![CR, LF] + body;
            let bad = Base::Reply(encode_utf8("HTTP/1.1 400 Bad Request\r\n\r\n"@));
            let asks = |method: Seq<char>| text::all_alike(word, encode_utf8(method));
            &&& asks("GET"@) ==> base_request(req, home) == Base::Reply(home)
            &&& asks("POST"@) ==> base_request(req, home) == (if body.len() > 0 {
                Base::Add(body)
            } else {
                bad
            })
            &&& asks("DELETE"@) ==> base_request(req, home) == (if body.len() > 0 {
                Base::Delete(body)
            } else {
                bad
            })
            &&& !asks("GET"@) && !asks("POST"@) && !asks("DELETE"@) ==> base_request(req, home)
                == Base::Reply(encode_utf8("HTTP/1.1 405 Method Not Allowed\r\n\r\n"@))
            &&& text::lacks(body, LF) && (asks("POST"@) || asks("DELETE"@)) ==> base_request(
                first + headers.flatten() + body,
                home,
            ) == bad
        }),
{
    let first = word + seq![SPACE] + target + seq![LF];
    let req = first + headers.flatten() + seq![CR, LF] + body;
    let open = first + headers.flatten() + body;
    let lines = seq![first] + headers;
    assert(text::is_line(first)) by {
        let front = word + seq![SPACE] + target;
        assert(first.drop_last() =~= front);
        text::both_lack(word, seq![SPACE], LF);
        text::both_lack(word + seq![SPACE], target, LF);
    }
    assert(first != seq![CR, LF]) by {
        assert(first[word.len() as int] == SPACE);
    }
    assert forall|i: int| 0 <= i < lines.len() implies text::is_line(#[trigger] lines[i])
        && lines[i] != seq![CR, LF] by {
        if i > 0 {
            assert(lines[i] == headers[i - 1]);
        }
    }
    assert(lines.drop_first() =~= headers);
    assert(lines.flatten() =~= first + headers.flatten());
    forward::body_is_what_follows_the_empty_line(lines, body);
    lemma_method(word, target + seq![LF] + headers.flatten() + seq![CR, LF] + body);
    assert(req =~= word + seq![SPACE] + (target + seq![LF] + headers.flatten() + seq![CR, LF]
        + body));
    lemma_method(word, target + seq![LF] + headers.flatten() + body);
    assert(open =~= word + seq![SPACE] + (target + seq![LF] + headers.flatten() + body));
}

/// The methods are told apart whatever their case.
proof fn lemma_method(word: Seq<u8>, more: Seq<u8>)
    requires
        text::lacks(word, SPACE),
    ensures
        ({
            let m = forward::method(word + seq![SPACE] + more);
            &&& m == encode_utf8("GET"@) <==> text::all_alike(word, encode_utf8("GET"@))
            &&& m == encode_utf8("POST"@) <==> text::all_alike(word, encode_utf8("POST"@))
            &&& m == encode_utf8("DELETE"@) <==> text::all_alike(word, encode_utf8("DELETE"@))
            &&& encode_utf8("GET"@).len() == 3 && encode_utf8("POST"@).len() == 4 && encode_utf8(
                "DELETE"@,
            ).len() == 6
        }),
{
    let req = word + seq![SPACE] + more;
    text::found_past(Seq::empty(), word, SPACE, more);
    assert(Seq::<u8>::empty() + word + seq![SPACE] + more =~= req);
    assert(req.take(word.len() as int) =~= word);
    reveal_strlit("GET");
    reveal_strlit("POST");
    reveal_strlit("DELETE");
    is_ascii_chars_encode_utf8("GET"@);
    is_ascii_chars_encode_utf8("POST"@);
    is_ascii_chars_encode_utf8("DELETE"@);
    let (get, post, delete) = (
        encode_utf8("GET"@),
        encode_utf8("POST"@),
        encode_utf8("DELETE"@),
    );
    text::only_case_is_changed(word, get);
    text::only_case_is_changed(word, post);
    text::only_case_is_changed(word, delete);
    assert(text::uppercase(get) =~= get);
    assert(text::uppercase(post) =~= post);
    assert(text::uppercase(delete) =~= delete);
}

/// A site is accepted exactly if it was decoded and has a name, a path and an address; anything
/// else is answered as a bad request.
pub proof fn only_a_complete_site_is_accepted(decoded: Option<Server>)
    ensures
        match decoded {
            Some(s) => add_answer(decoded) == (if s.name@.len() > 0 && s.path@.len() > 0
                && s.addr@.len() > 0 {
                None
            } else {
                Some("HTTP/1.1 400 Bad Request\r\n\r\n"@)
            }),
            None => add_answer(decoded) == Some("HTTP/1.1 400 Bad Request\r\n\r\n"@),
        },
{
}

/// A site is deleted exactly if it was decoded, has a name, a path and an address, and one with
/// just these is served under that path. A site of which something is missing is answered as a bad
/// request, and one that is served otherwise, or not at all, as not found.
pub proof fn only_a_site_as_described_is_deleted(
    routes: Map<Seq<char>, Server>,
    decoded: Option<Server>,
)
    ensures
        match decoded {
            None => delete_answer(routes, decoded) == "HTTP/1.1 400 Bad Request\r\n\r\n"@
                && after_delete(routes, decoded) == routes,
            Some(s) => if s.name@.len() == 0 || s.path@.len() == 0 || s.addr@.len() == 0 {
                &&& delete_answer(routes, decoded) == "HTTP/1.1 400 Bad Request\r\n\r\n"@
                &&& after_delete(routes, decoded) == routes
            } else if routes.contains_key(s.path@) && routes[s.path@].name@ == s.name@
                && routes[s.path@].path@ == s.path@ && routes[s.path@].addr@ == s.addr@ {
                &&& delete_answer(routes, decoded) == "HTTP/1.1 200 OK\r\n\r\n"@
                &&& after_delete(routes, decoded) == routes.remove(s.path@)
            } else {
                &&& delete_answer(routes, decoded) == "HTTP/1.1 404 Not Found\r\n\r\n"@
                &&& after_delete(routes, decoded) == routes
            },
        },
{
}

impl Proxy {
    /// The proxy is as its operations leave it.
    pub open spec fn wf(&self) -> bool {
        self.routes.wf()
    }

    /// The two hold the same, though their sites may be laid out differently.
    pub open spec fn same_but_layout(self, other: Proxy) -> bool {
        &&& self.addr == other.addr
        &&& self.routes@ == other.routes@
        &&& self.home_html_bytes == other.home_html_bytes
        &&& self.connector == other.connector
    }

    /// A proxy without sites that runs at the first of the addresses that were found, if any.
    pub fn new(addr: Option<String>) -> (res: Result<Self, AddrNotAvailable>)
        ensures
            match res {
                Ok(p) => {
                    &&& addr == Some(p.addr)
                    &&& p.wf()
                    &&& p.routes@ == Map::<Seq<char>, Server>::empty()
                    &&& p.home_html_bytes@ == server::home_html(Seq::empty())
                    &&& !p.connector
                },
                Err(_) => addr is None,
            },
    {
        match addr {
            Some(addr) => {
                proof {
                    reveal_strlit("");
                    assert(""@ =~= Seq::<char>::empty());
                }
                Ok(
                    Proxy {
                        addr,
                        routes: SyncMap::new(),
                        home_html_bytes: server::home_html_bytes(""),
                        connector: false,
                    },
                )
            },
            None => Err(AddrNotAvailable),
        }
    }

    /// Who takes over a connection whose first bytes were read into `buf`.
    pub fn handle(outcome: ReadOutcome, buf: &[u8]) -> (res: Handler)
        ensures
            res == handler(outcome, buf@),
    {
        match outcome {
            ReadOutcome::Bytes(_) => match SpecialReqHeader::from(buf) {
                SpecialReqHeader::Connect => Handler::Connect,
                SpecialReqHeader::Tunnel => Handler::Tunnel,
                _ => Handler::Http,
            },
            _ => Handler::Close,
        }
    }

    /// What a request without a site asks for, by its method.
    pub fn serve_base(&self, req: &[u8]) -> (res: Base<Vec<u8>>)
        ensures
            res@ == base_request(req@, self.home_html_bytes@),
    {
        let method = Self::method(req);
        if text::same(method.as_slice(), "GET".as_bytes()) {
            Base::Reply(self.serve_home_page())
        } else if text::same(method.as_slice(), "POST".as_bytes()) {
            match Self::find_body_start(req) {
                Some(i) => Base::Add(text::to_vec(&req[i..req.len()])),
                None => Base::Reply(text::to_vec(BAD_REQUEST_RESPONSE.as_bytes())),
            }
        } else if text::same(method.as_slice(), "DELETE".as_bytes()) {
            match Self::find_body_start(req) {
                Some(i) => Base::Delete(text::to_vec(&req[i..req.len()])),
                None => Base::Reply(text::to_vec(BAD_REQUEST_RESPONSE.as_bytes())),
            }
        } else {
            Base::Reply(text::to_vec(METHOD_NOT_ALLOWED_RESPONSE.as_bytes()))
        }
    }

    /// The home page.
    pub fn serve_home_page(&self) -> (page: Vec<u8>)
        ensures
            page@ == self.home_html_bytes@,
    {
        text::to_vec(self.home_html_bytes.as_slice())
    }

    /// The answer to a request to add the site that its body was decoded to. A complete site is
    /// accepted without an answer; the sites served stay as they are.
    pub fn add_server(&self, decoded: &Option<Server>) -> (res: Option<&'static str>)
        ensures
            match res {
                Some(r) => add_answer(*decoded) == Some(r@),
                None => add_answer(*decoded) is None,
            },
    {
        match decoded {
            Some(s) => if s.is_complete() {
                None
            } else {
                Some(BAD_REQUEST_RESPONSE)
            },
            None => Some(BAD_REQUEST_RESPONSE),
        }
    }

    /// Deletes the site that the body of a request was decoded to, if it is served as described,
    /// and returns the answer.
    pub fn delete_server(&mut self, decoded: &Option<Server>) -> (res: &'static str)
        requires
            old(self).wf(),
        ensures
            final(self).wf(),
            res@ == delete_answer(old(self).routes@, *decoded),
            final(self).routes@ == after_delete(old(self).routes@, *decoded),
            final(self).addr == old(self).addr,
            final(self).home_html_bytes == old(self).home_html_bytes,
            final(self).connector == old(self).connector,
    {
        let server = match decoded {
            Some(s) => if s.is_complete() {
                s
            } else {
                return BAD_REQUEST_RESPONSE;
            },
            None => return BAD_REQUEST_RESPONSE,
        };
        let srvr = match self.routes.load(&server.path) {
            Some(srvr) => srvr,
            None => return NOT_FOUND_RESPONSE,
        };
        if !srvr.is_same_site(server) {
            return NOT_FOUND_RESPONSE;
        }
        self.routes.delete(&server.path);
        OK_RESPONSE
    }

    /// The answer to a request for the icon of the proxy itself.
    pub fn serve_favicon(&self) -> (res: &'static str)
        ensures
            res@ == NOT_FOUND_RESPONSE@,
    {
        NOT_FOUND_RESPONSE
    }
}

} // verus!
