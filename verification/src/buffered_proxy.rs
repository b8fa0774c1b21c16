//! The proxy that checks a request's headers one by one on their way to the site, and tells the
//! site whom the request comes from.

pub mod headers;
pub mod laws;
pub mod session;

use vstd::prelude::*;
use vstd::utf8::*;

use crate::named_sites;
use crate::named_sites::NamedSites;
use crate::proxy::site;
use crate::proxy::AddrNotAvailable;
use crate::response::BAD_REQUEST_RESPONSE;
use crate::text;
use crate::text::CR;
use crate::text::LF;
use crate::text::SLASH;
use crate::text::SPACE;

verus! {

/// How long more of a body is waited for, in milliseconds.
pub const BODY_READ_TIMEOUT: u64 = 100;

/// The proxy.
pub struct Proxy {
    pub sites: NamedSites,
}

/// The request has a first line, which is valid UTF-8.
pub open spec fn has_line(req: Seq<u8>) -> bool {
    let lf = text::find(req, LF, 0);
    lf < req.len() && valid_utf8(req.take(lf + 1))
}

/// The first line, line feed included.
pub open spec fn first_line(req: Seq<u8>) -> Seq<u8> {
    req.take(text::find(req, LF, 0) + 1)
}

/// Where the text of the first line ends: before its line feed, and before a carriage return that
/// stands there.
pub open spec fn line_text_end(req: Seq<u8>) -> int {
    let lf = text::find(req, LF, 0);
    if 0 < lf && req[lf - 1] == CR {
        lf - 1
    } else {
        lf
    }
}

/// Where the path lies: between the first two spaces of the first line, or between the first and
/// the end of the line.
pub open spec fn path_range(req: Seq<u8>) -> Option<(int, int)> {
    let head = req.take(line_text_end(req));
    let s1 = text::find(head, SPACE, 0);
    if s1 < head.len() {
        Some((s1 + 1, text::find(head, SPACE, s1 + 1)))
    } else {
        None
    }
}

/// Where the first part of the path lies, without slashes around it; nothing for an empty path.
pub open spec fn name_range(req: Seq<u8>) -> Option<(int, int)> {
    match path_range(req) {
        None => None,
        Some((start, end)) => if start == end {
            None
        } else {
            let i1 = if req[start] == SLASH {
                start + 1
            } else {
                start
            };
            Some((i1, text::find(req.take(end), SLASH, i1)))
        },
    }
}

/// Where the first line goes on after the name: right after it, and past the slash that follows an
/// empty name.
pub open spec fn name_cut(req: Seq<u8>) -> int {
    let (i1, i2) = name_range(req)->0;
    if i1 == i2 && req[i2] == SLASH {
        i2 + 1
    } else {
        i2
    }
}

/// The name of the site and the first line without it; nothing for a request that names no site.
pub open spec fn site_and_line(req: Seq<u8>) -> Option<(Seq<u8>, Seq<u8>)> {
    if !has_line(req) {
        None
    } else {
        match name_range(req) {
            None => None,
            Some((i1, i2)) => Some(
                (
                    req.subrange(i1, i2),
                    first_line(req).take(i1) + first_line(req).skip(name_cut(req)),
                ),
            ),
        }
    }
}

/// The bounds of the name, and what stands around it.
proof fn lemma_name_range(req: Seq<u8>)
    requires
        text::find(req, LF, 0) < req.len(),
        name_range(req) is Some,
    ensures
        ({
            let (i1, i2) = name_range(req)->0;
            &&& 0 < i1 <= i2 <= name_cut(req) <= text::find(req, LF, 0)
            &&& req[i1 - 1] == SPACE || req[i1 - 1] == SLASH
            &&& req[i2] == SLASH || req[i2] == SPACE || req[i2] == CR || req[i2] == LF
        }),
{
    text::find_is_first(req, LF, 0);
    let head = req.take(line_text_end(req));
    let s1 = text::find(head, SPACE, 0);
    text::find_is_first(head, SPACE, 0);
    text::find_is_first(head, SPACE, s1 + 1);
    let (_, end) = path_range(req)->0;
    let (i1, i2) = name_range(req)->0;
    let path = req.take(end);
    text::find_is_first(path, SLASH, i1);
}

/// The name of the site and the first line without it are valid UTF-8.
proof fn lemma_name_valid(req: Seq<u8>)
    requires
        has_line(req),
        name_range(req) is Some,
    ensures
        ({
            let (i1, i2) = name_range(req)->0;
            &&& valid_utf8(req.subrange(i1, i2))
            &&& valid_utf8(first_line(req).take(i1) + first_line(req).skip(name_cut(req)))
        }),
{
    lemma_name_range(req);
    text::find_is_first(req, LF, 0);
    let line = first_line(req);
    let (i1, i2) = name_range(req)->0;
    let cut = name_cut(req);
    assert(line[i1 - 1] == req[i1 - 1] && line[i2] == req[i2]);
    text::piece_is_valid(line, i1, i2);
    assert(line.subrange(i1, i2) =~= req.subrange(i1, i2));
    text::piece_is_valid(line, 0, i1);
    text::piece_is_valid(line, cut, line.len() as int);
    assert(line.subrange(0, i1) =~= line.take(i1));
    assert(line.subrange(cut, line.len() as int) =~= line.skip(cut));
    valid_utf8_concat(line.take(i1), line.skip(cut));
}

/// A request for `/name/rest` is one for the site `name`, which is taken out of the path; the
/// slashes around it stay.
#[verifier::rlimit(50)]
pub proof fn path_names_its_site(
    method: Seq<u8>,
    name: Seq<u8>,
    rest: Seq<u8>,
    version: Seq<u8>,
    more: Seq<u8>,
)
    requires
        text::lacks(method, SPACE) && text::lacks(method, LF),
        text::lacks(name, SPACE) && text::lacks(name, SLASH) && text::lacks(name, LF),
        text::lacks(rest, SPACE) && text::lacks(rest, LF),
        text::lacks(version, LF),
        name.len() > 0,
        valid_utf8(
            method + seq![SPACE, SLASH] + name + seq![SLASH] + rest + seq![SPACE] + version + seq![
                LF,
            ],
        ),
    ensures
        site_and_line(
            method + seq![SPACE, SLASH] + name + seq![SLASH] + rest + seq![SPACE] + version + seq![
                LF,
            ] + more,
        ) == Some(
            (
                name,
                method + seq![SPACE, SLASH] + seq![SLASH] + rest + seq![SPACE] + version + seq![LF],
            ),
        ),
{
    let line = method + seq![SPACE, SLASH] + name + seq![SLASH] + rest + seq![SPACE] + version
        + seq![LF];
    let req = line + more;
    let s1 = method.len() as int;
    let i1 = s1 + 2;
    let i2 = i1 + name.len();
    let s2 = i2 + 1 + rest.len();
    let lf = s2 + 1 + version.len();
    assert forall|j: int| 0 <= j < lf implies req[j] != LF by {
        if j < s1 {
            assert(req[j] == method[j]);
        } else if i1 <= j < i2 {
            assert(req[j] == name[j - i1]);
        } else if i2 < j < s2 {
            assert(req[j] == rest[j - i2 - 1]);
        } else if s2 < j {
            assert(req[j] == version[j - s2 - 1]);
        }
    }
    text::find_is(req, LF, 0, lf);
    assert(first_line(req) =~= line);
    assert(req[s2] == SPACE);
    let head = req.take(line_text_end(req));
    text::find_is(head, SPACE, 0, s1);
    assert forall|j: int| s1 + 1 <= j < s2 implies head[j] != SPACE by {
        if i1 <= j < i2 {
            assert(head[j] == name[j - i1]);
        } else if i2 < j {
            assert(head[j] == rest[j - i2 - 1]);
        }
    }
    text::find_is(head, SPACE, s1 + 1, s2);
    assert(path_range(req) == Some((s1 + 1, s2)));
    let path = req.take(s2);
    assert forall|j: int| i1 <= j < i2 implies path[j] != SLASH by {
        assert(path[j] == name[j - i1]);
    }
    text::find_is(path, SLASH, i1, i2);
    assert(name_range(req) == Some((i1, i2)));
    assert(req.subrange(i1, i2) =~= name);
    assert(line.take(i1) + line.skip(i2) =~= method + seq![SPACE, SLASH] + seq![SLASH] + rest
        + seq![SPACE] + version + seq![LF]);
}

/// Whatever the method, and whether or not something follows the path, a request names the site
/// that its path starts with. What is left of the first line is the line without that name; the
/// slashes stay, but for one after an empty name.
#[verifier::rlimit(50)]
pub proof fn any_path_names_its_site(
    method: Seq<u8>,
    path: Seq<u8>,
    lead: Seq<u8>,
    name: Seq<u8>,
    slash: Seq<u8>,
    rest: Seq<u8>,
    version: Seq<u8>,
    eol: Seq<u8>,
    more: Seq<u8>,
)
    requires
        text::lacks(method, SPACE) && text::lacks(method, LF),
        site::is_path(path, lead, name, slash, rest) && path.len() > 0,
        text::lacks(version, LF),
        version.len() > 0 ==> version[0] == SPACE,
        eol == seq![CR, LF] || eol == seq![LF] && (path + version).last() != CR,
        valid_utf8(method + seq![SPACE] + path + version + eol),
    ensures
        site_and_line(method + seq![SPACE] + path + version + eol + more) == Some(
            (
                name,
                if name.len() > 0 {
                    method + seq![SPACE] + lead + slash + rest + version + eol
                } else {
                    method + seq![SPACE] + lead + rest + version + eol
                },
            ),
        ),
{
    let head = method + seq![SPACE];
    let line = head + path + version + eol;
    let req = line + more;
    let i1 = (head + lead).len() as int;
    let i2 = i1 + name.len();
    lemma_ranges(method, path, lead, name, slash, rest, version, eol, more);
    lemma_name_taken_out(head, path, lead, name, slash, rest, version + eol);
    assert(line =~= head + path + (version + eol));
    assert(req.subrange(i1, i2) =~= line.subrange(i1, i2));
    lemma_regrouped(head + lead, slash, rest, version, eol);
    lemma_regrouped(head + lead, Seq::empty(), rest, version, eol);
    assert(head + lead + Seq::<u8>::empty() =~= head + lead);
    assert(Seq::<u8>::empty() + rest =~= rest);
    assert(slash.len() == 0 ==> slash =~= Seq::<u8>::empty());
}

proof fn lemma_regrouped(a: Seq<u8>, b: Seq<u8>, c: Seq<u8>, d: Seq<u8>, e: Seq<u8>)
    ensures
        a + (b + c + (d + e)) == a + b + c + d + e,
{
    assert(a + (b + c + (d + e)) =~= a + b + c + d + e);
}

/// Where the path and the name stand in a request.
#[verifier::rlimit(50)]
proof fn lemma_ranges(
    method: Seq<u8>,
    path: Seq<u8>,
    lead: Seq<u8>,
    name: Seq<u8>,
    slash: Seq<u8>,
    rest: Seq<u8>,
    version: Seq<u8>,
    eol: Seq<u8>,
    more: Seq<u8>,
)
    requires
        text::lacks(method, SPACE) && text::lacks(method, LF),
        site::is_path(path, lead, name, slash, rest) && path.len() > 0,
        text::lacks(version, LF),
        version.len() > 0 ==> version[0] == SPACE,
        eol == seq![CR, LF] || eol == seq![LF] && (path + version).last() != CR,
    ensures
        ({
            let line = method + seq![SPACE] + path + version + eol;
            let req = line + more;
            let i1 = (method + seq![SPACE] + lead).len() as int;
            let i2 = i1 + name.len();
            &&& first_line(req) == line && text::find(req, LF, 0) == line.len() - 1
            &&& name_range(req) == Some((i1, i2))
            &&& name_cut(req) == (if name.len() == 0 && slash.len() > 0 {
                i2 + 1
            } else {
                i2
            })
        }),
{
    let head = method + seq![SPACE];
    let text = head + path + version;
    let req = text + eol + more;
    let start = head.len() as int;
    let i1 = start + lead.len();
    let i2 = i1 + name.len();
    lemma_name_in_path(head, path, lead, name, slash, rest);
    assert(text.last() == (path + version).last());
    text::both_lack(method, seq![SPACE], LF);
    text::both_lack(head, path, LF);
    text::both_lack(head + path, version, LF);
    lemma_line_text(text, eol, more);
    lemma_path_end(method, path, version);
    assert(path_range(req) == Some((start, start + path.len())));
    assert(req.take(start + path.len()) =~= head + path);
    assert(req[start] == path[0]);
    if slash.len() == 0 {
        assert(req[i2] == (version + eol)[0]);
    } else {
        assert(req[i2] == (head + path)[i2]);
    }
}

/// Where a path ends: at the space after it, or with the text of its line.
proof fn lemma_path_end(method: Seq<u8>, path: Seq<u8>, version: Seq<u8>)
    requires
        text::lacks(method, SPACE) && text::lacks(path, SPACE),
        version.len() > 0 ==> version[0] == SPACE,
    ensures
        ({
            let text = method + seq![SPACE] + path + version;
            let start = method.len() as int + 1;
            &&& text::find(text, SPACE, 0) == method.len()
            &&& text::find(text, SPACE, start) == start + path.len()
        }),
{
    let head = method + seq![SPACE];
    let text = head + path + version;
    let start = head.len() as int;
    let none = Seq::<u8>::empty();
    text::found_past(none, method, SPACE, path + version);
    assert(none + method + seq![SPACE] + (path + version) =~= text);
    if version.len() > 0 {
        text::found_past(head, path, SPACE, version.drop_first());
        assert(head + path + seq![SPACE] + version.drop_first() =~= text);
    } else {
        text::find_is_first(text, SPACE, start);
        let i = text::find(text, SPACE, start);
        if i < text.len() {
            assert(text[i] == path[i - start]);
        }
    }
}

/// What is left of a line when a name is taken out of its path.
proof fn lemma_name_taken_out(
    head: Seq<u8>,
    path: Seq<u8>,
    lead: Seq<u8>,
    name: Seq<u8>,
    slash: Seq<u8>,
    rest: Seq<u8>,
    tail: Seq<u8>,
)
    requires
        path == lead + name + slash + rest,
    ensures
        ({
            let line = head + path + tail;
            let i1 = (head + lead).len() as int;
            let i2 = i1 + name.len();
            &&& line.take(i1) == head + lead
            &&& line.subrange(i1, i2) == name
            &&& line.skip(i2) == slash + rest + tail
            &&& line.skip(i2 + slash.len()) == rest + tail
        }),
{
    let line = head + path + tail;
    let i1 = (head + lead).len() as int;
    let i2 = i1 + name.len();
    assert(line =~= head + lead + name + slash + rest + tail);
    assert(line.take(i1) =~= head + lead);
    assert(line.subrange(i1, i2) =~= name);
    assert(line.skip(i2) =~= slash + rest + tail);
    assert(line.skip(i2 + slash.len()) =~= rest + tail);
}

/// Where the first line and its text end.
proof fn lemma_line_text(text: Seq<u8>, eol: Seq<u8>, more: Seq<u8>)
    requires
        text::lacks(text, LF),
        eol == seq![CR, LF] || eol == seq![LF] && (text.len() == 0 || text.last() != CR),
    ensures
        ({
            let req = text + eol + more;
            &&& text::find(req, LF, 0) == text.len() + eol.len() - 1
            &&& first_line(req) == text + eol
            &&& req.take(line_text_end(req)) == text
        }),
{
    let req = text + eol + more;
    let lf = text.len() + eol.len() - 1;
    assert forall|j: int| 0 <= j < lf implies req[j] != LF by {
        if j < text.len() {
            assert(req[j] == text[j]);
        } else {
            assert(req[j] == eol[j - text.len()]);
        }
    }
    assert(req[lf] == eol.last());
    text::find_is(req, LF, 0, lf);
    assert(first_line(req) =~= text + eol);
    if eol.len() == 2 {
        assert(req[lf - 1] == eol[0]);
    } else if text.len() > 0 {
        assert(req[lf - 1] == text.last());
    }
    assert(req.take(line_text_end(req)) =~= text);
}

/// Where the name stands in a path.
proof fn lemma_name_in_path(
    head: Seq<u8>,
    path: Seq<u8>,
    lead: Seq<u8>,
    name: Seq<u8>,
    slash: Seq<u8>,
    rest: Seq<u8>,
)
    requires
        site::is_path(path, lead, name, slash, rest) && path.len() > 0,
    ensures
        ({
            let s = head + path;
            let i1 = (head + lead).len() as int;
            let i2 = i1 + name.len();
            &&& path.len() > 0 && (path[0] == SLASH <==> lead.len() > 0)
            &&& text::find(s, SLASH, i1) == i2
            &&& slash.len() > 0 ==> s[i2] == SLASH
            &&& slash.len() == 0 ==> i2 == s.len()
        }),
{
    let s = head + path;
    let i1 = (head + lead).len() as int;
    let i2 = i1 + name.len();
    if lead.len() > 0 {
        assert(path[0] == lead[0]);
    } else {
        assert(path[0] == name[0]);
    }
    assert forall|j: int| i1 <= j < i2 implies s[j] != SLASH by {
        assert(path[j - head.len()] == name[j - i1]);
    }
    if slash.len() > 0 {
        assert(path[i2 - head.len()] == slash[0]);
        text::find_is(s, SLASH, i1, i2);
    } else {
        text::find_is_first(s, SLASH, i1);
    }
}

/// A request names no site without a line feed, with a first line that is not valid UTF-8, or
/// with a first line without a path after its first space.
#[verifier::rlimit(50)]
pub proof fn no_path_names_no_site(before: Seq<u8>, line: Seq<u8>, after: Seq<u8>, more: Seq<u8>)
    ensures
        text::lacks(before, LF) ==> site_and_line(before) is None,
        text::is_line(line) && !valid_utf8(line) ==> site_and_line(line + more) is None,
        text::is_line(line) && text::lacks(line, SPACE) ==> site_and_line(line + more) is None,
        text::lacks(before, SPACE) && text::lacks(before, LF) && text::lacks(after, LF)
            ==> site_and_line(before + seq![SPACE, SPACE] + after + seq![LF] + more) is None,
{
    text::find_is_first(before, LF, 0);
    let none = Seq::<u8>::empty();
    if text::is_line(line) {
        let req = line + more;
        text::line_feed_ends_line(none, line, more);
        assert(none + line + more =~= req);
        assert(req.take(line.len() as int) =~= line);
        if text::lacks(line, SPACE) {
            let head = req.take(line_text_end(req));
            text::find_is_first(head, SPACE, 0);
            let i = text::find(head, SPACE, 0);
            if i < head.len() {
                assert(head[i] == line[i]);
            }
        }
    }
    if text::lacks(before, SPACE) && text::lacks(before, LF) && text::lacks(after, LF) {
        let front = before + seq![SPACE, SPACE] + after;
        let req = front + seq![LF] + more;
        text::both_lack(before, seq![SPACE, SPACE], LF);
        text::both_lack(before + seq![SPACE, SPACE], after, LF);
        text::found_past(none, front, LF, more);
        assert(none + front + seq![LF] + more =~= req);
        let head = req.take(line_text_end(req));
        assert(req[front.len() - 1] == front.last());
        assert(after.len() == 0 ==> front.last() == SPACE);
        assert(before.len() + 2 <= head.len());
        assert forall|j: int| 0 <= j < before.len() implies head[j] != SPACE by {
            assert(head[j] == before[j]);
        }
        text::find_is(head, SPACE, 0, before.len() as int);
        text::find_is(head, SPACE, before.len() as int + 1, before.len() as int + 1);
    }
}

/// The name of a site, and what is left of the first line, are valid UTF-8.
pub proof fn site_and_line_are_text(req: Seq<u8>)
    requires
        site_and_line(req) is Some,
    ensures
        ({
            let (name, line) = site_and_line(req)->0;
            valid_utf8(name) && valid_utf8(line)
        }),
{
    lemma_name_valid(req);
}

/// Nothing but the name is taken out of the first line, and the name out of its path.
pub proof fn removed_name_goes_back(req: Seq<u8>)
    requires
        site_and_line(req) is Some,
    ensures
        ({
            let (i1, _) = name_range(req)->0;
            let (name, line) = site_and_line(req)->0;
            name.len() > 0 ==> line.take(i1) + name + line.skip(i1) == first_line(req)
        }),
{
    lemma_name_range(req);
    text::find_is_first(req, LF, 0);
    let (i1, i2) = name_range(req)->0;
    let (name, line) = site_and_line(req)->0;
    if name.len() > 0 {
        assert(line.take(i1) + name + line.skip(i1) =~= first_line(req));
    }
}

impl Proxy {
    /// The proxy is as its operations leave it.
    pub open spec fn wf(&self) -> bool {
        self.sites.wf()
    }

    /// A proxy with two sites that is yet to be started at the first of the addresses that were
    /// found, if any.
    pub fn new(addr: Option<String>) -> (res: Result<Self, AddrNotAvailable>)
        ensures
            match res {
                Ok(p) => {
                    &&& addr == Some(p.sites.addr)
                    &&& p.wf()
                    &&& p.sites.server_info_map@.dom() == set!["mbp"@, "rb15"@]
                    &&& named_sites::plain(
                        p.sites.server_info_map@["mbp"@],
                        "mbp"@,
                        "192.168.1.130:9000"@,
                    )
                    &&& named_sites::plain(
                        p.sites.server_info_map@["rb15"@],
                        "rb15"@,
                        "192.168.1.126:9000"@,
                    )
                    &&& p.sites.fresh()
                },
                Err(_) => addr is None,
            },
    {
        let sites = [("mbp", "192.168.1.130:9000"), ("rb15", "192.168.1.126:9000")];
        let ghost named = seq![
            ("mbp"@, "192.168.1.130:9000"@),
            ("rb15"@, "192.168.1.126:9000"@),
        ];
        assert(named_sites::chars(sites@) =~= named);
        match NamedSites::new(addr, &sites) {
            Ok(sites) => {
                proof {
                    reveal_strlit("mbp");
                    reveal_strlit("rb15");
                    assert("mbp"@.len() != "rb15"@.len());
                    let m = sites.server_info_map@;
                    named_sites::holds_each(m, named);
                    let names = named.map_values(|s: (Seq<char>, Seq<char>)| s.0);
                    assert(names =~= seq!["mbp"@, "rb15"@]);
                    assert(named[0] == ("mbp"@, "192.168.1.130:9000"@) && names[0] == "mbp"@);
                    assert(named[1] == ("rb15"@, "192.168.1.126:9000"@) && names[1] == "rb15"@);
                    assert(m.dom() =~= set!["mbp"@, "rb15"@]);
                }
                Ok(Proxy { sites })
            },
            Err(e) => Err(e),
        }
    }

    /// The first part of the request's path without slashes around it, and the first line without
    /// that part, line feed included; or the answer to a request from which they cannot be had.
    pub fn parse_site_name(req: &[u8]) -> (res: Result<(String, String), &'static [u8]>)
        ensures
            match res {
                Ok((name, line)) => site_and_line(req@) == Some(
                    (encode_utf8(name@), encode_utf8(line@)),
                ),
                Err(e) => site_and_line(req@) is None && e@ == encode_utf8(BAD_REQUEST_RESPONSE@),
            },
    {
        let lf: usize = text::position(req, LF, 0);
        if lf == req.len() {
            return Err(BAD_REQUEST_RESPONSE.as_bytes());
        }
        let line = &req[0..lf + 1];
        assert(line@ =~= first_line(req@));
        if text::decode(line).is_none() {
            return Err(BAD_REQUEST_RESPONSE.as_bytes());
        }
        let text_end: usize = if 0 < lf && req[lf - 1] == CR {
            lf - 1
        } else {
            lf
        };
        let head = &req[0..text_end];
        assert(head@ =~= req@.take(line_text_end(req@)));
        let s1: usize = text::position(head, SPACE, 0);
        if s1 == head.len() {
            return Err(BAD_REQUEST_RESPONSE.as_bytes());
        }
        let start: usize = s1 + 1;
        let end: usize = text::position(head, SPACE, start);
        assert(path_range(req@) == Some((start as int, end as int)));
        if start == end {
            return Err(BAD_REQUEST_RESPONSE.as_bytes());
        }
        let i1: usize = if req[start] == SLASH {
            start + 1
        } else {
            start
        };
        let path = &req[0..end];
        assert(path@ =~= req@.take(end as int));
        let i2: usize = text::position(path, SLASH, i1);
        proof {
            assert(name_range(req@) == Some((i1 as int, i2 as int)));
            lemma_name_range(req@);
            lemma_name_valid(req@);
        }
        let cut: usize = if i1 == i2 && req[i2] == SLASH {
            i2 + 1
        } else {
            i2
        };
        let mut rest: Vec<u8> = text::to_vec(&req[0..i1]);
        text::append(&mut rest, &req[cut..lf + 1]);
        assert(rest@ =~= first_line(req@).take(i1 as int) + first_line(req@).skip(cut as int));
        match (text::decode(&req[i1..i2]), text::decode(rest.as_slice())) {
            (Some(name), Some(line)) => Ok((name, line)),
            _ => Err(BAD_REQUEST_RESPONSE.as_bytes()),
        }
    }
}

} // verus!
