//! Finding and removing the name of the site that a request is for.

use vstd::prelude::*;
use vstd::utf8::*;

use crate::proxy::Proxy;
use crate::response::BAD_REQUEST_RESPONSE;
use crate::text;
use crate::text::LF;
use crate::text::SLASH;
use crate::text::SPACE;

verus! {

/// Where the first part of a request's path lies, without slashes around it.
///
/// The path is what stands between the first two spaces; its first part starts after a leading
/// slash and ends at the next slash or at the end of the path.
pub open spec fn site_range(req: Seq<u8>) -> Option<(int, int)> {
    let s1 = text::find(req, SPACE, 0);
    let s2 = text::find(req, SPACE, s1 + 1);
    if s1 >= req.len() || s2 >= req.len() {
        None
    } else {
        let i1 = if req[s1 + 1] == SLASH {
            s1 + 2
        } else {
            s1 + 1
        };
        let slash = text::find(req, SLASH, i1);
        Some(
            (
                i1,
                if slash < s2 {
                    slash
                } else {
                    s2
                },
            ),
        )
    }
}

/// Where the first line ends, its line feed included.
pub open spec fn first_line_end(req: Seq<u8>) -> int {
    text::find(req, LF, 0) + 1
}

/// Where the request goes on after the name of its site: past a slash that ends the name.
pub open spec fn site_cut(req: Seq<u8>) -> int
    recommends
        site_range(req) is Some,
{
    let (_, i2) = site_range(req)->0;
    if req[i2] == SLASH {
        i2 + 1
    } else {
        i2
    }
}

/// The request has a path, which ends within the first line, and that line is valid UTF-8.
pub open spec fn names_site(req: Seq<u8>) -> bool {
    &&& site_range(req) is Some
    &&& first_line_end(req) <= req.len()
    &&& valid_utf8(req.take(first_line_end(req)))
    &&& site_cut(req) <= first_line_end(req)
}

/// The name of the site.
pub open spec fn site_name(req: Seq<u8>) -> Seq<u8> {
    let (i1, i2) = site_range(req)->0;
    req.subrange(i1, i2)
}

/// The first line without the name of the site and without a slash that ends the name.
pub open spec fn line_without_site(req: Seq<u8>) -> Seq<u8> {
    let (i1, _) = site_range(req)->0;
    req.subrange(0, i1) + req.subrange(site_cut(req), first_line_end(req))
}

/// The bounds of what the definitions above speak of.
proof fn lemma_site_range(req: Seq<u8>)
    requires
        site_range(req) is Some,
    ensures
        ({
            let (i1, i2) = site_range(req)->0;
            &&& 0 < i1 <= i2 < req.len()
            &&& req[i1 - 1] == SPACE || req[i1 - 1] == SLASH
            &&& req[i2] == SPACE || req[i2] == SLASH
            &&& i2 <= site_cut(req) <= i2 + 1
        }),
{
    let s1 = text::find(req, SPACE, 0);
    text::find_is_first(req, SPACE, 0);
    text::find_is_first(req, SPACE, s1 + 1);
    let (i1, _) = site_range(req)->0;
    text::find_is_first(req, SLASH, i1);
}

/// What is left of a request line after its site's name was taken out, and that name, are valid
/// UTF-8.
pub proof fn site_and_line_are_text(req: Seq<u8>)
    requires
        names_site(req),
    ensures
        valid_utf8(site_name(req)),
        valid_utf8(line_without_site(req)),
{
    lemma_site_range(req);
    let (i1, i2) = site_range(req)->0;
    let cut = site_cut(req);
    let end = first_line_end(req);
    text::find_is_first(req, LF, 0);
    let line = req.take(end);
    assert(line[i1 - 1] == req[i1 - 1]);
    if i2 < end {
        assert(line[i2] == req[i2]);
    }
    text::piece_is_valid(line, i1, i2);
    assert(line.subrange(i1, i2) =~= site_name(req));
    text::piece_is_valid(line, 0, i1);
    text::piece_is_valid(line, cut, end);
    assert(line.subrange(0, i1) =~= req.subrange(0, i1));
    assert(line.subrange(cut, end) =~= req.subrange(cut, end));
    valid_utf8_concat(req.subrange(0, i1), req.subrange(cut, end));
}

/// The name of a site has neither a slash nor a space in it.
pub proof fn site_name_is_one_part(req: Seq<u8>, i: int)
    requires
        site_range(req) is Some,
        0 <= i < site_name(req).len(),
    ensures
        site_name(req)[i] != SLASH,
        site_name(req)[i] != SPACE,
{
    lemma_site_range(req);
    let (i1, _) = site_range(req)->0;
    let s1 = text::find(req, SPACE, 0);
    text::find_is_first(req, SPACE, 0);
    text::find_is_first(req, SPACE, s1 + 1);
    text::find_is_first(req, SLASH, i1);
    assert(site_name(req)[i] == req[i1 + i]);
}

/// What was taken out of the first line for the name of the site: the name, and a slash that ends
/// it.
pub open spec fn site_removed(req: Seq<u8>) -> Seq<u8> {
    let (_, i2) = site_range(req)->0;
    if req[i2] == SLASH {
        site_name(req).push(SLASH)
    } else {
        site_name(req)
    }
}

/// Nothing else is taken out of the first line: put back in its place, the name gives the first
/// line as it was.
pub proof fn removed_site_goes_back(req: Seq<u8>)
    requires
        names_site(req),
    ensures
        ({
            let (i1, _) = site_range(req)->0;
            let line = line_without_site(req);
            line.take(i1) + site_removed(req) + line.skip(i1) == req.take(first_line_end(req))
        }),
{
    lemma_site_range(req);
    let (i1, i2) = site_range(req)->0;
    let line = line_without_site(req);
    assert(site_removed(req) =~= req.subrange(i1, site_cut(req)));
    assert(line.take(i1) =~= req.subrange(0, i1));
    assert(line.skip(i1) =~= req.subrange(site_cut(req), first_line_end(req)));
    assert(line.take(i1) + site_removed(req) + line.skip(i1) =~= req.take(first_line_end(req)));
}

/// A request for `/name/rest` is one for the site `name`, which is then asked for `/rest`.
#[verifier::rlimit(50)]
pub proof fn path_names_its_site(
    method: Seq<u8>,
    name: Seq<u8>,
    rest: Seq<u8>,
    version: Seq<u8>,
    more: Seq<u8>,
)
    requires
        text::lacks(method, SPACE) && text::lacks(method, LF),
        text::lacks(name, SPACE) && text::lacks(name, SLASH) && text::lacks(name, LF),
        text::lacks(rest, SPACE) && text::lacks(rest, LF),
        text::lacks(version, LF),
    ensures
        ({
            let req = method + seq![SPACE, SLASH] + name + seq![SLASH] + rest + seq![SPACE]
                + version + seq![LF] + more;
            &&& site_range(req) is Some
            &&& site_cut(req) <= first_line_end(req) <= req.len()
            &&& valid_utf8(
                method + seq![SPACE, SLASH] + name + seq![SLASH] + rest + seq![SPACE] + version
                    + seq![LF],
            ) ==> names_site(req)
            &&& site_name(req) == name
            &&& line_without_site(req) == method + seq![SPACE, SLASH] + rest + seq![SPACE]
                + version + seq![LF]
        }),
{
    let req = method + seq![SPACE, SLASH] + name + seq![SLASH] + rest + seq![SPACE] + version
        + seq![LF] + more;
    let s1 = method.len() as int;
    let i1 = s1 + 2;
    let i2 = i1 + name.len();
    let s2 = i2 + 1 + rest.len();
    let end = s2 + 1 + version.len();
    text::find_is(req, SPACE, 0, s1);
    assert forall|j: int| s1 + 1 <= j < s2 implies req[j] != SPACE by {
        if i1 <= j < i2 {
            assert(req[j] == name[j - i1]);
        } else if i2 < j {
            assert(req[j] == rest[j - i2 - 1]);
        }
    }
    text::find_is(req, SPACE, s1 + 1, s2);
    assert forall|j: int| i1 <= j < i2 implies req[j] != SLASH by {
        assert(req[j] == name[j - i1]);
    }
    text::find_is(req, SLASH, i1, i2);
    assert(site_range(req) == Some((i1, i2)));
    assert forall|j: int| 0 <= j < end implies req[j] != LF by {
        if j < s1 {
            assert(req[j] == method[j]);
        } else if i1 <= j < i2 {
            assert(req[j] == name[j - i1]);
        } else if i2 < j < s2 {
            assert(req[j] == rest[j - i2 - 1]);
        } else if s2 < j {
            assert(req[j] == version[j - s2 - 1]);
        }
    }
    text::find_is(req, LF, 0, end);
    assert(site_name(req) =~= name);
    assert(line_without_site(req) =~= method + seq![SPACE, SLASH] + rest + seq![SPACE] + version
        + seq![LF]);
    assert(req.take(end + 1) =~= method + seq![SPACE, SLASH] + name + seq![SLASH] + rest + seq![
        SPACE,
    ] + version + seq![LF]);
}

/// A path: the name of a site, with or without a slash before it, and with or without a slash and
/// more after it. The name may be empty, and so may the path.
pub open spec fn is_path(
    path: Seq<u8>,
    lead: Seq<u8>,
    name: Seq<u8>,
    slash: Seq<u8>,
    rest: Seq<u8>,
) -> bool {
    &&& path == lead + name + slash + rest
    &&& text::lacks(path, SPACE) && text::lacks(path, LF)
    &&& text::lacks(name, SLASH)
    &&& lead == seq![SLASH] || lead.len() == 0 && (name.len() > 0 || slash.len() == 0)
    &&& slash == seq![SLASH] || slash.len() == 0 && rest.len() == 0
}

/// Whatever the method, a request names the site that its path starts with, and what is left of
/// the first line is the line without that name and without a slash that ends it.
#[verifier::rlimit(50)]
pub proof fn any_path_names_its_site(
    method: Seq<u8>,
    path: Seq<u8>,
    lead: Seq<u8>,
    name: Seq<u8>,
    slash: Seq<u8>,
    rest: Seq<u8>,
    version: Seq<u8>,
    more: Seq<u8>,
)
    requires
        text::lacks(method, SPACE) && text::lacks(method, LF),
        is_path(path, lead, name, slash, rest),
        text::lacks(version, LF),
        valid_utf8(method + seq![SPACE] + path + seq![SPACE] + version + seq![LF]),
    ensures
        ({
            let req = method + seq![SPACE] + path + seq![SPACE] + version + seq![LF] + more;
            &&& names_site(req)
            &&& site_name(req) == name
            &&& line_without_site(req) == method + seq![SPACE] + lead + rest + seq![SPACE]
                + version + seq![LF]
        }),
{
    let req = method + seq![SPACE] + path + seq![SPACE] + version + seq![LF] + more;
    let head = method + seq![SPACE];
    let tail = version + seq![LF] + more;
    let s1 = method.len() as int;
    let i1 = s1 + 1 + lead.len();
    let i2 = i1 + name.len();
    assert(req =~= head + path + seq![SPACE] + tail);
    lemma_spaces(method, path, tail);
    lemma_slug(head, path, lead, name, slash, rest, tail);
    assert(site_range(req) == Some((i1, i2)));
    lemma_first_line(method, path, version, more);
    assert(site_cut(req) == i2 + slash.len());
    lemma_pieces(head, path, lead, name, slash, rest, seq![SPACE] + version + seq![LF], more);
    assert(req =~= head + path + (seq![SPACE] + version + seq![LF]) + more);
    lemma_regrouped(head + lead, rest, seq![SPACE], version, seq![LF]);
}

proof fn lemma_regrouped(a: Seq<u8>, b: Seq<u8>, c: Seq<u8>, d: Seq<u8>, e: Seq<u8>)
    ensures
        a + (b + (c + d + e)) == a + b + c + d + e,
{
    assert(a + (b + (c + d + e)) =~= a + b + c + d + e);
}

/// The pieces of a first line around the name in its path.
proof fn lemma_pieces(
    head: Seq<u8>,
    path: Seq<u8>,
    lead: Seq<u8>,
    name: Seq<u8>,
    slash: Seq<u8>,
    rest: Seq<u8>,
    tail: Seq<u8>,
    more: Seq<u8>,
)
    requires
        path == lead + name + slash + rest,
    ensures
        ({
            let req = head + path + tail + more;
            let i1 = (head + lead).len() as int;
            let i2 = i1 + name.len();
            &&& req.subrange(0, i1) == head + lead
            &&& req.subrange(i1, i2) == name
            &&& req.subrange(i2 + slash.len(), (head + path + tail).len() as int) == rest + tail
        }),
{
    let req = head + path + tail + more;
    let i1 = (head + lead).len() as int;
    let i2 = i1 + name.len();
    assert(req =~= head + lead + name + slash + rest + tail + more);
    assert(req.subrange(0, i1) =~= head + lead);
    assert(req.subrange(i1, i2) =~= name);
    assert(req.subrange(i2 + slash.len(), (head + path + tail).len() as int) =~= rest + tail);
}

/// Where the two spaces around a path stand.
proof fn lemma_spaces(method: Seq<u8>, path: Seq<u8>, tail: Seq<u8>)
    requires
        text::lacks(method, SPACE) && text::lacks(path, SPACE),
    ensures
        ({
            let req = method + seq![SPACE] + path + seq![SPACE] + tail;
            &&& text::find(req, SPACE, 0) == method.len()
            &&& text::find(req, SPACE, method.len() as int + 1) == method.len() + 1 + path.len()
        }),
{
    let req = method + seq![SPACE] + path + seq![SPACE] + tail;
    let none = Seq::<u8>::empty();
    text::found_past(none, method, SPACE, path + seq![SPACE] + tail);
    assert(req =~= none + method + seq![SPACE] + (path + seq![SPACE] + tail));
    text::found_past(method + seq![SPACE], path, SPACE, tail);
}

/// Where the name stands in a path, and what stands around it.
proof fn lemma_slug(
    head: Seq<u8>,
    path: Seq<u8>,
    lead: Seq<u8>,
    name: Seq<u8>,
    slash: Seq<u8>,
    rest: Seq<u8>,
    tail: Seq<u8>,
)
    requires
        is_path(path, lead, name, slash, rest),
    ensures
        ({
            let req = head + path + seq![SPACE] + tail;
            let i1 = (head + lead).len() as int;
            let i2 = i1 + name.len();
            let found = text::find(req, SLASH, i1);
            &&& req[head.len() as int] == SLASH <==> lead.len() > 0
            &&& slash.len() > 0 ==> found == i2 && req[i2] == SLASH
            &&& slash.len() == 0 ==> i2 == head.len() + path.len() && found > i2 && req[i2] == SPACE
        }),
{
    let req = head + path + seq![SPACE] + tail;
    let i1 = (head + lead).len() as int;
    let i2 = i1 + name.len();
    if lead.len() > 0 {
        assert(path[0] == lead[0]);
        assert(req[head.len() as int] == path[0]);
    } else if name.len() > 0 {
        assert(path[0] == name[0]);
        assert(req[head.len() as int] == path[0]);
    }
    assert forall|j: int| i1 <= j < i2 implies req[j] != SLASH by {
        assert(path[j - head.len()] == name[j - i1]);
    }
    if slash.len() > 0 {
        assert(path[i2 - head.len()] == slash[0]);
        text::find_is(req, SLASH, i1, i2);
    } else {
        assert(req[i2] == SPACE);
        text::find_is_first(req, SLASH, i1);
    }
}

/// Where the first line ends.
proof fn lemma_first_line(method: Seq<u8>, path: Seq<u8>, version: Seq<u8>, more: Seq<u8>)
    requires
        text::lacks(method, LF) && text::lacks(path, LF) && text::lacks(version, LF),
    ensures
        ({
            let line = method + seq![SPACE] + path + seq![SPACE] + version + seq![LF];
            &&& first_line_end(line + more) == line.len()
            &&& (line + more).take(line.len() as int) == line
        }),
{
    let before = method + seq![SPACE] + path + seq![SPACE] + version;
    let none = Seq::<u8>::empty();
    text::both_lack(method, seq![SPACE], LF);
    text::both_lack(method + seq![SPACE], path, LF);
    text::both_lack(method + seq![SPACE] + path, seq![SPACE], LF);
    text::both_lack(method + seq![SPACE] + path + seq![SPACE], version, LF);
    text::found_past(none, before, LF, more);
    assert(none + before + seq![LF] + more =~= before + seq![LF] + more);
    assert((before + seq![LF] + more).take(before.len() as int + 1) =~= before + seq![LF]);
}

/// A first line that ends with its path names the site that the path starts with, if a slash ends
/// that name and a space follows further on.
#[verifier::rlimit(50)]
pub proof fn path_at_the_end_of_its_line_names_its_site(
    method: Seq<u8>,
    lead: Seq<u8>,
    name: Seq<u8>,
    rest: Seq<u8>,
    more: Seq<u8>,
)
    requires
        text::lacks(method, SPACE) && text::lacks(method, LF),
        lead == seq![SLASH] || lead.len() == 0 && name.len() > 0,
        text::lacks(name, SPACE) && text::lacks(name, SLASH) && text::lacks(name, LF),
        text::lacks(rest, SPACE) && text::lacks(rest, LF),
        !text::lacks(more, SPACE),
        valid_utf8(method + seq![SPACE] + lead + name + seq![SLASH] + rest + seq![LF]),
    ensures
        ({
            let req = method + seq![SPACE] + lead + name + seq![SLASH] + rest + seq![LF] + more;
            &&& names_site(req)
            &&& site_name(req) == name
            &&& line_without_site(req) == method + seq![SPACE] + lead + rest + seq![LF]
        }),
{
    let head = method + seq![SPACE];
    let path = lead + name + seq![SLASH] + rest;
    let line = head + path + seq![LF];
    let req = line + more;
    let s1 = method.len() as int;
    let i1 = s1 + 1 + lead.len();
    let i2 = i1 + name.len();
    let end = line.len() as int;
    let none = Seq::<u8>::empty();
    assert(method + seq![SPACE] + lead + name + seq![SLASH] + rest + seq![LF] =~= line);
    text::both_lack(lead, name, SPACE);
    text::both_lack(lead + name, seq![SLASH], SPACE);
    text::both_lack(lead + name + seq![SLASH], rest, SPACE);
    text::both_lack(lead, name, LF);
    text::both_lack(lead + name, seq![SLASH], LF);
    text::both_lack(lead + name + seq![SLASH], rest, LF);
    text::found_past(none, method, SPACE, path + seq![LF] + more);
    assert(none + method + seq![SPACE] + (path + seq![LF] + more) =~= req);
    text::find_is_first(req, SPACE, s1 + 1);
    let s2 = text::find(req, SPACE, s1 + 1);
    assert(s2 >= end) by {
        if s2 < end - 1 {
            assert(req[s2] == path[s2 - head.len()]);
        } else if s2 == end - 1 {
            assert(req[s2] == LF);
        }
    }
    let i = choose|i: int| 0 <= i < more.len() && more[i] == SPACE;
    assert(req[end + i] == SPACE);
    assert(s2 < req.len());
    assert(req[s1 + 1] == path[0]);
    assert(path[0] == (if lead.len() > 0 {
        SLASH
    } else {
        name[0]
    }));
    assert(head + lead + name + seq![SLASH] + (rest + seq![LF] + more) =~= req);
    text::found_past(head + lead, name, SLASH, rest + seq![LF] + more);
    assert(site_range(req) == Some((i1, i2)));
    text::both_lack(method, seq![SPACE], LF);
    text::both_lack(head, path, LF);
    text::found_past(none, head + path, LF, more);
    assert(none + (head + path) + seq![LF] + more =~= req);
    assert(req.take(end) =~= line);
    lemma_pieces(head, path, lead, name, seq![SLASH], rest, seq![LF], more);
    assert(method + seq![SPACE] + lead + (rest + seq![LF]) =~= method + seq![SPACE] + lead + rest
        + seq![LF]);
}

/// A request names no site without a line feed, without two spaces, with a first line that is not
/// valid UTF-8, or with a path that neither a space nor a slash ends on the first line.
#[verifier::rlimit(50)]
pub proof fn no_path_names_no_site(before: Seq<u8>, after: Seq<u8>, line: Seq<u8>, more: Seq<u8>)
    ensures
        text::lacks(before, LF) ==> !names_site(before),
        text::lacks(before, SPACE) ==> !names_site(before),
        text::lacks(before, SPACE) && text::lacks(after, SPACE) ==> !names_site(
            before + seq![SPACE] + after,
        ),
        text::is_line(line) && !valid_utf8(line) ==> !names_site(line + more),
        text::lacks(before, SPACE) && text::lacks(before, LF) && text::lacks(after, SPACE)
            && text::lacks(after, SLASH) && text::lacks(after, LF) && (more.len() == 0 || more[0]
            != SPACE) ==> {
            &&& !names_site(before + seq![SPACE] + after + seq![LF] + more)
            &&& !names_site(before + seq![SPACE, SLASH] + after + seq![LF] + more)
        },
{
    text::find_is_first(before, LF, 0);
    text::find_is_first(before, SPACE, 0);
    if text::lacks(before, SPACE) && text::lacks(after, SPACE) {
        let req = before + seq![SPACE] + after;
        let s1 = before.len() as int;
        text::find_is(req, SPACE, 0, s1);
        text::find_is_first(req, SPACE, s1 + 1);
        let s2 = text::find(req, SPACE, s1 + 1);
        if s2 < req.len() {
            assert(req[s2] == after[s2 - s1 - 1]);
        }
    }
    if text::is_line(line) {
        let none = Seq::<u8>::empty();
        text::line_feed_ends_line(none, line, more);
        assert(none + line + more =~= line + more);
        assert((line + more).take(line.len() as int) =~= line);
    }
    if text::lacks(before, SPACE) && text::lacks(before, LF) && text::lacks(after, SPACE)
        && text::lacks(after, SLASH) && text::lacks(after, LF) && (more.len() == 0 || more[0]
        != SPACE) {
        lemma_path_past_line(before, Seq::empty(), after, more);
        assert(before + seq![SPACE] + Seq::<u8>::empty() + after + seq![LF] + more =~= before
            + seq![SPACE] + after + seq![LF] + more);
        lemma_path_past_line(before, seq![SLASH], after, more);
        assert(before + seq![SPACE] + seq![SLASH] + after + seq![LF] + more =~= before + seq![
            SPACE,
            SLASH,
        ] + after + seq![LF] + more);
    }
}

#[verifier::rlimit(50)]
proof fn lemma_path_past_line(before: Seq<u8>, lead: Seq<u8>, after: Seq<u8>, more: Seq<u8>)
    requires
        text::lacks(before, SPACE) && text::lacks(before, LF),
        lead == seq![SLASH] || lead.len() == 0,
        text::lacks(after, SPACE) && text::lacks(after, SLASH) && text::lacks(after, LF),
        more.len() == 0 || more[0] != SPACE,
    ensures
        !names_site(before + seq![SPACE] + lead + after + seq![LF] + more),
{
    let req = before + seq![SPACE] + lead + after + seq![LF] + more;
    let s1 = before.len() as int;
    let p = s1 + 1 + lead.len();
    let lf = p + after.len();
    text::find_is(req, SPACE, 0, s1);
    assert forall|j: int| 0 <= j < lf implies req[j] != LF by {
        if j < s1 {
            assert(req[j] == before[j]);
        } else if s1 < j < p {
            assert(req[j] == lead[j - s1 - 1]);
        } else if p <= j {
            assert(req[j] == after[j - p]);
        }
    }
    assert(req[lf] == LF);
    text::find_is(req, LF, 0, lf);
    if names_site(req) {
        lemma_site_range(req);
        let s2 = text::find(req, SPACE, s1 + 1);
        text::find_is_first(req, SPACE, s1 + 1);
        assert forall|j: int| p <= j <= lf implies req[j] != SPACE && req[j] != SLASH by {
            if j < lf {
                assert(req[j] == after[j - p]);
            }
        }
        if lead.len() > 0 {
            assert(req[s1 + 1] == lead[0]);
        }
        assert(req[s1 + 1] == SLASH ==> lead.len() > 0);
        let (i1, i2) = site_range(req)->0;
        assert(i1 == p);
        text::find_is_first(req, SLASH, i1);
        assert(i2 > lf);
        assert(req[lf + 1] == more[0]);
    }
}

impl Proxy {
    /// Where the first part of the request's path lies, without slashes around it, or the answer
    /// to a request without a path.
    pub fn parse_site_name_indices(req: &[u8]) -> (res: Result<(usize, usize), &'static [u8]>)
        ensures
            match res {
                Ok((i1, i2)) => site_range(req@) == Some((i1 as int, i2 as int)),
                Err(e) => site_range(req@) is None && e@ == encode_utf8(BAD_REQUEST_RESPONSE@),
            },
    {
        let s1: usize = text::position(req, SPACE, 0);
        if s1 == req.len() {
            return Err(BAD_REQUEST_RESPONSE.as_bytes());
        }
        let mut i1: usize = s1 + 1;
        let s2: usize = text::position(req, SPACE, i1);
        if s2 == req.len() {
            return Err(BAD_REQUEST_RESPONSE.as_bytes());
        }
        proof {
            text::find_is_first(req@, SPACE, i1 as int);
        }
        if req[i1] == SLASH {
            i1 = i1 + 1;
        }
        let slash: usize = text::position(req, SLASH, i1);
        let i2: usize = if slash < s2 {
            slash
        } else {
            s2
        };
        Ok((i1, i2))
    }

    /// The first part of the request's path without slashes around it, and the first line without
    /// that part, line feed included; or the answer to a request from which they cannot be had.
    pub fn remove_site_name(req: &[u8]) -> (res: Result<(String, String), &'static [u8]>)
        ensures
            match res {
                Ok((name, line)) => names_site(req@) && encode_utf8(name@) == site_name(req@)
                    && encode_utf8(line@) == line_without_site(req@),
                Err(e) => !names_site(req@) && e@ == encode_utf8(BAD_REQUEST_RESPONSE@),
            },
    {
        let (i1, i2) = match Self::parse_site_name_indices(req) {
            Ok(range) => range,
            Err(e) => return Err(e),
        };
        let line_end: usize = text::position(req, LF, 0);
        if line_end == req.len() {
            return Err(BAD_REQUEST_RESPONSE.as_bytes());
        }
        let line_end: usize = line_end + 1;
        let line = &req[0..line_end];
        assert(line@ =~= req@.take(line_end as int));
        if text::decode(line).is_none() {
            return Err(BAD_REQUEST_RESPONSE.as_bytes());
        }
        proof {
            lemma_site_range(req@);
        }
        let cut: usize = if req[i2] == SLASH {
            i2 + 1
        } else {
            i2
        };
        if cut > line_end {
            return Err(BAD_REQUEST_RESPONSE.as_bytes());
        }
        let mut rest: Vec<u8> = text::to_vec(&req[0..i1]);
        text::append(&mut rest, &req[cut..line_end]);
        proof {
            site_and_line_are_text(req@);
        }
        match (text::decode(&req[i1..i2]), text::decode(rest.as_slice())) {
            (Some(name), Some(line)) => Ok((name, line)),
            _ => Err(BAD_REQUEST_RESPONSE.as_bytes()),
        }
    }
}

} // verus!
