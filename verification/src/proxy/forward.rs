//! Rewriting a request for the site that it is forwarded to.

use vstd::prelude::*;
use vstd::utf8::*;

use crate::proxy::Proxy;
use crate::text;
use crate::text::COLON;
use crate::text::CR;
use crate::text::LF;
use crate::text::SPACE;

verus! {

/// The header, in lower case, that names the paths a request came through.
pub const PATH_HEADER: &'static str = "rusty-proxy-path";

/// `have` is a line of the header `want`, whatever the case of its letters.
pub open spec fn is_header(have: Seq<u8>, want: Seq<u8>) -> bool {
    &&& have.len() > want.len()
    &&& text::uppercase(have.take(want.len() as int)) == text::uppercase(want)
    &&& have[want.len() as int] == COLON
}

/// The end of the line that starts at `start`, its line feed included.
pub open spec fn line_end(req: Seq<u8>, start: int) -> int {
    text::find(req, LF, start) + 1
}

/// Where the body starts, if a body follows the first empty line at or after `start`.
pub open spec fn body_start(req: Seq<u8>, start: int) -> Option<int>
    decreases req.len() - start,
{
    let end = line_end(req, start);
    if start < 0 || end <= start || end > req.len() {
        None
    } else if is_empty_line(req, start, end) {
        if end == req.len() {
            None
        } else {
            Some(end)
        }
    } else {
        body_start(req, end)
    }
}

/// The request's method in upper case: what stands before the first space.
pub open spec fn method(req: Seq<u8>) -> Seq<u8> {
    text::uppercase(req.take(text::find(req, SPACE, 0)))
}

/// The line at `start` is the first that names paths.
pub open spec fn names_paths(req: Seq<u8>, start: int, named: bool) -> bool {
    !named && is_header(req.subrange(start, line_end(req, start)), encode_utf8(PATH_HEADER@))
}

/// Where the text of the line at `start` ends: before its line feed, and before a carriage return
/// that stands there.
pub open spec fn text_end(req: Seq<u8>, start: int) -> int {
    let lf = line_end(req, start) - 1;
    if start < lf && req[lf - 1] == CR {
        lf - 1
    } else {
        lf
    }
}

/// The header at `start` without its line end.
pub open spec fn paths_before(req: Seq<u8>, start: int) -> Seq<u8> {
    req.subrange(start, text_end(req, start))
}

/// The line from `start` to `end` is empty: it is the one that ends the headers.
pub open spec fn is_empty_line(req: Seq<u8>, start: int, end: int) -> bool {
    req.subrange(start, end) == seq![CR, LF]
}

/// The text of a header as it is sent on: as it is, unless it is not valid UTF-8.
pub open spec fn header_text(before: Seq<u8>) -> Seq<u8> {
    if valid_utf8(before) {
        before
    } else {
        encode_utf8(text::lossy(before))
    }
}

/// The header that names the paths in `before` and the path of `site`.
pub open spec fn path_added(before: Seq<u8>, site: Seq<u8>) -> Seq<u8> {
    header_text(before) + encode_utf8(", "@) + site + encode_utf8("\r\n"@)
}

/// The end of the headers: with a header for the path of `site`, unless a header names it already.
pub open spec fn end_of_headers(site: Seq<u8>, named: bool) -> Seq<u8> {
    if named {
        encode_utf8("\r\n"@)
    } else {
        encode_utf8("Rusty-Proxy-Path: "@) + site + encode_utf8("\r\n\r\n"@)
    }
}

/// The rest of a request from the line at `start` on, as it is forwarded for `site`.
///
/// The path is added to the first header that names paths; without one, such a header is added
/// before the empty line that ends the headers. What follows that line stays as it is.
pub open spec fn forwarded_rest(req: Seq<u8>, start: int, named: bool, site: Seq<u8>) -> Seq<u8>
    decreases req.len() - start,
{
    let end = line_end(req, start);
    if start < 0 || end <= start || end > req.len() {
        req.skip(start)
    } else if is_empty_line(req, start, end) {
        end_of_headers(site, named) + req.skip(end)
    } else if names_paths(req, start, named) {
        path_added(paths_before(req, start), site) + forwarded_rest(req, end, true, site)
    } else {
        req.subrange(start, end) + forwarded_rest(req, end, named, site)
    }
}

/// Where the second line starts; the start of the request if it has one line only.
pub open spec fn second_line(req: Seq<u8>) -> int {
    if line_end(req, 0) <= req.len() {
        line_end(req, 0)
    } else {
        0
    }
}

/// The request as it is forwarded for `site` with another first line.
pub open spec fn forwarded(req: Seq<u8>, site: Seq<u8>, first_line: Seq<u8>) -> Seq<u8> {
    first_line + forwarded_rest(req, second_line(req), false, site)
}

/// Where the headers that start at `start` end: past the first empty line, if there is one.
pub open spec fn headers_stop(req: Seq<u8>, start: int) -> Option<int>
    decreases req.len() - start,
{
    let end = line_end(req, start);
    if start < 0 || end <= start || end > req.len() {
        None
    } else if is_empty_line(req, start, end) {
        Some(end)
    } else {
        headers_stop(req, end)
    }
}

/// None of the headers that start at `start` names paths.
pub open spec fn paths_unnamed(req: Seq<u8>, start: int) -> bool
    decreases req.len() - start,
{
    let end = line_end(req, start);
    if start < 0 || end <= start || end > req.len() || is_empty_line(req, start, end) {
        true
    } else {
        !names_paths(req, start, false) && paths_unnamed(req, end)
    }
}

/// What follows the headers is forwarded as it is.
pub proof fn body_is_forwarded_as_it_is(req: Seq<u8>, site: Seq<u8>, first_line: Seq<u8>)
    requires
        headers_stop(req, second_line(req)) is Some,
    ensures
        ({
            let body = req.skip(headers_stop(req, second_line(req))->0);
            let out = forwarded(req, site, first_line);
            &&& body.len() <= out.len()
            &&& out.skip(out.len() - body.len()) == body
        }),
{
    lemma_body_kept(req, second_line(req), false, site);
    let stop = headers_stop(req, second_line(req))->0;
    let rest = forwarded_rest(req, second_line(req), false, site);
    let out = forwarded(req, site, first_line);
    let body = req.skip(stop);
    assert(out.skip(out.len() - body.len()) =~= rest.skip(rest.len() - body.len()));
}

proof fn lemma_body_kept(req: Seq<u8>, start: int, named: bool, site: Seq<u8>)
    requires
        headers_stop(req, start) is Some,
    ensures
        ({
            let body = req.skip(headers_stop(req, start)->0);
            let out = forwarded_rest(req, start, named, site);
            &&& 0 <= headers_stop(req, start)->0 <= req.len()
            &&& body.len() <= out.len()
            &&& out.skip(out.len() - body.len()) == body
        }),
    decreases req.len() - start,
{
    let end = line_end(req, start);
    let out = forwarded_rest(req, start, named, site);
    if is_empty_line(req, start, end) {
        let body = req.skip(end);
        assert(out.skip(out.len() - body.len()) =~= body);
    } else {
        let after = named || names_paths(req, start, named);
        lemma_body_kept(req, end, after, site);
        let body = req.skip(headers_stop(req, end)->0);
        let rest = forwarded_rest(req, end, after, site);
        assert(out.skip(out.len() - body.len()) =~= rest.skip(rest.len() - body.len()));
    }
}

/// Where a body follows the headers, it starts right past them.
pub proof fn body_starts_past_headers(req: Seq<u8>, start: int)
    requires
        body_start(req, start) is Some,
    ensures
        headers_stop(req, start) == body_start(req, start),
    decreases req.len() - start,
{
    let end = line_end(req, start);
    if !is_empty_line(req, start, end) {
        body_starts_past_headers(req, end);
    }
}

/// A request whose headers name no paths gets one header more, the last, which names the site;
/// nothing else changes but the first line.
pub proof fn site_is_announced(req: Seq<u8>, site: Seq<u8>, first_line: Seq<u8>)
    requires
        headers_stop(req, second_line(req)) is Some,
        paths_unnamed(req, second_line(req)),
    ensures
        ({
            let stop = headers_stop(req, second_line(req))->0;
            forwarded(req, site, first_line) == first_line + req.subrange(
                second_line(req),
                stop - 2,
            ) + encode_utf8("Rusty-Proxy-Path: "@) + site + encode_utf8("\r\n\r\n"@) + req.skip(
                stop,
            )
        }),
{
    text::find_is_first(req, LF, 0);
    lemma_announced(req, second_line(req), site);
    let stop = headers_stop(req, second_line(req))->0;
    assert(forwarded(req, site, first_line) =~= first_line + req.subrange(
        second_line(req),
        stop - 2,
    ) + encode_utf8("Rusty-Proxy-Path: "@) + site + encode_utf8("\r\n\r\n"@) + req.skip(stop));
}

proof fn lemma_announced(req: Seq<u8>, start: int, site: Seq<u8>)
    requires
        headers_stop(req, start) is Some,
        paths_unnamed(req, start),
    ensures
        ({
            let stop = headers_stop(req, start)->0;
            &&& start + 2 <= stop <= req.len()
            &&& forwarded_rest(req, start, false, site) == req.subrange(start, stop - 2)
                + end_of_headers(site, false) + req.skip(stop)
        }),
    decreases req.len() - start,
{
    let end = line_end(req, start);
    let stop = headers_stop(req, start)->0;
    if is_empty_line(req, start, end) {
        assert(req.subrange(start, end).len() == 2);
    } else {
        lemma_announced(req, end, site);
        assert(req.subrange(start, stop - 2) =~= req.subrange(start, end) + req.subrange(
            end,
            stop - 2,
        ));
    }
    assert(forwarded_rest(req, start, false, site) =~= req.subrange(start, stop - 2)
        + end_of_headers(site, false) + req.skip(stop));
}

/// A request that already names paths gets the site added to the first header that does, after a
/// comma; nothing else changes but the first line.
pub proof fn site_is_added_to_paths(req: Seq<u8>, at: int, site: Seq<u8>, first_line: Seq<u8>)
    requires
        first_paths(req, second_line(req), at),
    ensures
        forwarded(req, site, first_line) == first_line + req.subrange(second_line(req), at)
            + path_added(paths_before(req, at), site) + req.skip(line_end(req, at)),
{
    text::find_is_first(req, LF, 0);
    lemma_added(req, second_line(req), at, site);
    assert(forwarded(req, site, first_line) =~= first_line + req.subrange(second_line(req), at)
        + path_added(paths_before(req, at), site) + req.skip(line_end(req, at)));
}

/// The first of the headers that start at `start` to name paths is the one at `at`.
pub open spec fn first_paths(req: Seq<u8>, start: int, at: int) -> bool
    decreases req.len() - start,
{
    let end = line_end(req, start);
    if start < 0 || end <= start || end > req.len() || is_empty_line(req, start, end) {
        false
    } else if names_paths(req, start, false) {
        at == start
    } else {
        first_paths(req, end, at)
    }
}

proof fn lemma_added(req: Seq<u8>, start: int, at: int, site: Seq<u8>)
    requires
        first_paths(req, start, at),
    ensures
        start <= at < line_end(req, at) <= req.len(),
        forwarded_rest(req, start, false, site) == req.subrange(start, at) + path_added(
            paths_before(req, at),
            site,
        ) + req.skip(line_end(req, at)),
    decreases req.len() - start,
{
    let end = line_end(req, start);
    if names_paths(req, start, false) {
        lemma_named_rest(req, end, site);
    } else {
        lemma_added(req, end, at, site);
        assert(req.subrange(start, at) =~= req.subrange(start, end) + req.subrange(end, at));
    }
    assert(forwarded_rest(req, start, false, site) =~= req.subrange(start, at) + path_added(
        paths_before(req, at),
        site,
    ) + req.skip(line_end(req, at)));
}

/// Once the site is added, the rest stays as it is.
proof fn lemma_named_rest(req: Seq<u8>, start: int, site: Seq<u8>)
    requires
        0 <= start <= req.len(),
    ensures
        forwarded_rest(req, start, true, site) == req.skip(start),
    decreases req.len() - start,
{
    let end = line_end(req, start);
    text::find_is_first(req, LF, start);
    if end <= req.len() {
        assert(req.skip(start) =~= req.subrange(start, end) + req.skip(end));
        if is_empty_line(req, start, end) {
            reveal_strlit("\r\n");
            is_ascii_chars_encode_utf8("\r\n"@);
            assert(encode_utf8("\r\n"@) =~= seq![CR, LF]);
        } else {
            lemma_named_rest(req, end, site);
        }
    }
}

/// A line is told to be of a header by its name, letter by letter and whatever the case: by what
/// stands before its first colon. A line without a colon is of no header.
pub proof fn header_is_told_by_its_name(name: Seq<u8>, value: Seq<u8>, want: Seq<u8>)
    requires
        text::lacks(name, COLON),
        text::lacks(want, COLON),
    ensures
        is_header(name + seq![COLON] + value, want) <==> text::all_alike(name, want),
        !is_header(name, want),
{
    let have = name + seq![COLON] + value;
    let n = want.len() as int;
    if have.len() > n {
        text::only_case_is_changed(have.take(n), want);
        if name.len() == n {
            assert(have.take(n) =~= name);
        } else if name.len() > n {
            assert(have[n] == name[n]);
        } else {
            assert(have.take(n)[name.len() as int] == COLON);
            assert(want[name.len() as int] != COLON);
        }
    }
}

/// The line is of the header that names paths: before its first colon stands that header's name,
/// whatever the case of its letters.
pub open spec fn is_path_line(l: Seq<u8>) -> bool {
    let name = encode_utf8("rusty-proxy-path"@);
    &&& l.len() > name.len()
    &&& text::all_alike(l.take(name.len() as int), name)
    &&& l[name.len() as int] == COLON
}

/// A line among the headers that neither ends them nor names paths.
pub open spec fn is_other_line(l: Seq<u8>) -> bool {
    text::is_line(l) && l != seq![CR, LF] && !is_path_line(l)
}

/// A header with another name than that of the header that names paths is among the other lines,
/// and one with that name is not.
pub proof fn other_line_has_another_name(name: Seq<u8>, value: Seq<u8>)
    requires
        text::lacks(name, COLON) && text::lacks(name, LF) && text::lacks(value, LF),
    ensures
        is_other_line(name + seq![COLON] + value + seq![LF]) <==> !text::all_alike(
            name,
            encode_utf8("rusty-proxy-path"@),
        ),
{
    let want = encode_utf8("rusty-proxy-path"@);
    reveal_strlit("rusty-proxy-path");
    is_ascii_chars_encode_utf8("rusty-proxy-path"@);
    let l = name + seq![COLON] + value + seq![LF];
    assert(l.drop_last() =~= name + seq![COLON] + value);
    assert(l =~= name + seq![COLON] + (value + seq![LF]));
    assert(l[name.len() as int] == COLON);
    header_is_told_by_its_name(name, value + seq![LF], want);
    lemma_path_line(l);
}

/// Lines of the header that names paths are exactly those that are taken for it.
proof fn lemma_path_line(l: Seq<u8>)
    ensures
        is_path_line(l) <==> is_header(l, encode_utf8(PATH_HEADER@)),
{
    let want = encode_utf8("rusty-proxy-path"@);
    if l.len() > want.len() {
        text::only_case_is_changed(l.take(want.len() as int), want);
    }
}

/// Other lines are forwarded byte for byte.
#[verifier::rlimit(50)]
proof fn lemma_other_lines(
    before: Seq<u8>,
    lines: Seq<Seq<u8>>,
    after: Seq<u8>,
    named: bool,
    site: Seq<u8>,
)
    requires
        forall|i: int| 0 <= i < lines.len() ==> is_other_line(#[trigger] lines[i]),
    ensures
        ({
            let req = before + lines.flatten() + after;
            forwarded_rest(req, before.len() as int, named, site) == lines.flatten()
                + forwarded_rest(
                req,
                (before.len() + lines.flatten().len()) as int,
                named,
                site,
            )
        }),
    decreases lines.len(),
{
    let req = before + lines.flatten() + after;
    if lines.len() == 0 {
        assert(forwarded_rest(req, before.len() as int, named, site) =~= lines.flatten()
            + forwarded_rest(req, before.len() as int, named, site));
    } else {
        let l = lines[0];
        let rest = lines.drop_first();
        assert(is_other_line(l));
        assert forall|i: int| 0 <= i < rest.len() implies is_other_line(#[trigger] rest[i]) by {
            assert(rest[i] == lines[i + 1]);
        }
        assert(req =~= before + l + (rest.flatten() + after));
        text::line_feed_ends_line(before, l, rest.flatten() + after);
        lemma_path_line(l);
        assert(req =~= (before + l) + rest.flatten() + after);
        lemma_other_lines(before + l, rest, after, named, site);
        assert(lines.flatten() =~= l + rest.flatten());
        let stop = (before.len() + lines.flatten().len()) as int;
        assert(l + (rest.flatten() + forwarded_rest(req, stop, named, site)) =~= lines.flatten()
            + forwarded_rest(req, stop, named, site));
    }
}

/// The second line starts after the first.
proof fn lemma_second_line(first: Seq<u8>, more: Seq<u8>)
    requires
        text::is_line(first),
    ensures
        second_line(first + more) == first.len(),
{
    text::line_feed_ends_line(Seq::empty(), first, more);
    assert(Seq::<u8>::empty() + first + more =~= first + more);
}

/// A request whose headers do not name paths is forwarded as it came, but for the first line and
/// for one more header, the last, which names the site.
#[verifier::rlimit(50)]
pub proof fn forwarded_request_announces_its_site(
    first: Seq<u8>,
    headers: Seq<Seq<u8>>,
    body: Seq<u8>,
    site: Seq<u8>,
    new_first: Seq<u8>,
)
    requires
        text::is_line(first),
        forall|i: int| 0 <= i < headers.len() ==> is_other_line(#[trigger] headers[i]),
    ensures
        forwarded(first + headers.flatten() + seq![CR, LF] + body, site, new_first) == new_first
            + headers.flatten() + encode_utf8("Rusty-Proxy-Path: "@) + site + seq![CR, LF, CR, LF]
            + body,
{
    let after = seq![CR, LF] + body;
    let req = first + headers.flatten() + seq![CR, LF] + body;
    assert(req =~= first + headers.flatten() + after);
    assert(req =~= first + (headers.flatten() + after));
    lemma_second_line(first, headers.flatten() + after);
    lemma_other_lines(first, headers, after, false, site);
    let top = first + headers.flatten();
    let at = top.len() as int;
    assert(req =~= top + seq![CR, LF] + body);
    text::line_feed_ends_line(top, seq![CR, LF], body);
    assert(req.skip(at + 2) =~= body);
    reveal_strlit("\r\n\r\n");
    is_ascii_chars_encode_utf8("\r\n\r\n"@);
    assert(encode_utf8("\r\n\r\n"@) =~= seq![CR, LF, CR, LF]);
    assert(forwarded(req, site, new_first) =~= new_first + headers.flatten() + encode_utf8(
        "Rusty-Proxy-Path: "@,
    ) + site + seq![CR, LF, CR, LF] + body);
}

/// A request whose headers name paths is forwarded as it came, but for the first line and for the
/// first header that names paths: that one ends with a comma and the site, and what is not valid
/// UTF-8 in it is replaced.
#[verifier::rlimit(50)]
pub proof fn forwarded_request_adds_its_site(
    first: Seq<u8>,
    headers: Seq<Seq<u8>>,
    paths: Seq<u8>,
    eol: Seq<u8>,
    more: Seq<u8>,
    site: Seq<u8>,
    new_first: Seq<u8>,
)
    requires
        text::is_line(first),
        forall|i: int| 0 <= i < headers.len() ==> is_other_line(#[trigger] headers[i]),
        is_path_line(paths),
        text::lacks(paths, LF),
        eol == seq![CR, LF] || eol == seq![LF] && paths.last() != CR,
    ensures
        ({
            let text = if valid_utf8(paths) {
                paths
            } else {
                encode_utf8(text::lossy(paths))
            };
            forwarded(first + headers.flatten() + paths + eol + more, site, new_first) == new_first
                + headers.flatten() + text + encode_utf8(", "@) + site + seq![CR, LF] + more
        }),
{
    let req = first + headers.flatten() + paths + eol + more;
    let after = paths + eol + more;
    let text = if valid_utf8(paths) {
        paths
    } else {
        encode_utf8(text::lossy(paths))
    };
    let top = first + headers.flatten();
    assert(req =~= first + headers.flatten() + after);
    assert(req =~= first + (headers.flatten() + after));
    lemma_second_line(first, headers.flatten() + after);
    lemma_other_lines(first, headers, after, false, site);
    lemma_path_rest(top, paths, eol, more, site);
    lemma_regrouped(new_first, headers.flatten(), text, encode_utf8(", "@), site, more);
}

proof fn lemma_regrouped(
    a: Seq<u8>,
    b: Seq<u8>,
    c: Seq<u8>,
    d: Seq<u8>,
    e: Seq<u8>,
    f: Seq<u8>,
)
    ensures
        a + (b + (c + d + e + seq![CR, LF] + f)) == a + b + c + d + e + seq![CR, LF] + f,
{
    assert(a + (b + (c + d + e + seq![CR, LF] + f)) =~= a + b + c + d + e + seq![CR, LF] + f);
}

/// How a request is forwarded from the first header that names paths on.
#[verifier::rlimit(50)]
proof fn lemma_path_rest(
    top: Seq<u8>,
    paths: Seq<u8>,
    eol: Seq<u8>,
    more: Seq<u8>,
    site: Seq<u8>,
)
    requires
        is_path_line(paths),
        text::lacks(paths, LF),
        eol == seq![CR, LF] || eol == seq![LF] && paths.last() != CR,
    ensures
        forwarded_rest(top + paths + eol + more, top.len() as int, false, site) == (if valid_utf8(
            paths,
        ) {
            paths
        } else {
            encode_utf8(text::lossy(paths))
        }) + encode_utf8(", "@) + site + seq![CR, LF] + more,
{
    let l = paths + eol;
    let req = top + paths + eol + more;
    let at = top.len() as int;
    assert(l.drop_last() =~= (if eol.len() == 2 {
        paths.push(CR)
    } else {
        paths
    }));
    assert(text::is_line(l));
    assert(req =~= top + l + more);
    text::line_feed_ends_line(top, l, more);
    let name = encode_utf8("rusty-proxy-path"@);
    reveal_strlit("rusty-proxy-path");
    is_ascii_chars_encode_utf8("rusty-proxy-path"@);
    assert(l.take(name.len() as int) =~= paths.take(name.len() as int));
    assert(is_path_line(l));
    lemma_path_line(l);
    assert(req[at + paths.len()] == eol[0]);
    assert(req[at + paths.len() - 1] == paths.last());
    assert(paths_before(req, at) =~= paths);
    lemma_named_rest(req, at + l.len(), site);
    assert(req.skip(at + l.len()) =~= more);
    reveal_strlit("\r\n");
    is_ascii_chars_encode_utf8("\r\n"@);
    assert(encode_utf8("\r\n"@) =~= seq![CR, LF]);
    assert(l.len() > 2);
    assert(!is_empty_line(req, at, at + l.len()));
}

/// A request whose headers do not end is forwarded as it came, but for the first line; and one
/// without a line end after the first line.
#[verifier::rlimit(50)]
pub proof fn endless_headers_are_forwarded(
    first: Seq<u8>,
    headers: Seq<Seq<u8>>,
    part: Seq<u8>,
    site: Seq<u8>,
    new_first: Seq<u8>,
)
    requires
        text::is_line(first),
        forall|i: int| 0 <= i < headers.len() ==> is_other_line(#[trigger] headers[i]),
        text::lacks(part, LF),
    ensures
        forwarded(first + headers.flatten() + part, site, new_first) == new_first
            + headers.flatten() + part,
        forwarded(part, site, new_first) == new_first + part,
{
    let req = first + headers.flatten() + part;
    assert(req =~= first + (headers.flatten() + part));
    lemma_second_line(first, headers.flatten() + part);
    lemma_other_lines(first, headers, part, false, site);
    let at = (first + headers.flatten()).len() as int;
    text::find_is_first(req, LF, at);
    if text::find(req, LF, at) < req.len() {
        assert(req[text::find(req, LF, at)] == part[text::find(req, LF, at) - at]);
    }
    assert(req.skip(at) =~= part);
    assert(forwarded(req, site, new_first) =~= new_first + headers.flatten() + part);
    text::find_is_first(part, LF, 0);
    assert(part.skip(0) =~= part);
    assert(forwarded(part, site, new_first) =~= new_first + part);
}

/// The body is all that follows the first empty line, whatever stands before that line; a request
/// without an empty line, or with nothing after it, has none.
pub proof fn body_is_what_follows_the_empty_line(lines: Seq<Seq<u8>>, body: Seq<u8>)
    requires
        forall|i: int|
            0 <= i < lines.len() ==> text::is_line(#[trigger] lines[i]) && lines[i] != seq![CR, LF],
    ensures
        ({
            let req = lines.flatten() + seq![CR, LF] + body;
            if body.len() > 0 {
                &&& body_start(req, 0) is Some
                &&& req.skip(body_start(req, 0)->0) == body
            } else {
                body_start(req, 0) is None
            }
        }),
        text::lacks(body, LF) ==> body_start(lines.flatten() + body, 0) is None,
{
    let req = lines.flatten() + seq![CR, LF] + body;
    let n = lines.flatten().len() as int;
    let none = Seq::<u8>::empty();
    lemma_lines_before_body(none, lines, seq![CR, LF] + body);
    assert(req =~= none + lines.flatten() + (seq![CR, LF] + body));
    text::line_feed_ends_line(lines.flatten(), seq![CR, LF], body);
    assert(req.skip(n + 2) =~= body);
    if text::lacks(body, LF) {
        let open = lines.flatten() + body;
        lemma_lines_before_body(none, lines, body);
        assert(open =~= none + lines.flatten() + body);
        text::find_is_first(open, LF, n);
        if text::find(open, LF, n) < open.len() {
            assert(open[text::find(open, LF, n)] == body[text::find(open, LF, n) - n]);
        }
    }
}

proof fn lemma_lines_before_body(before: Seq<u8>, lines: Seq<Seq<u8>>, after: Seq<u8>)
    requires
        forall|i: int|
            0 <= i < lines.len() ==> text::is_line(#[trigger] lines[i]) && lines[i] != seq![CR, LF],
    ensures
        ({
            let req = before + lines.flatten() + after;
            body_start(req, before.len() as int) == body_start(
                req,
                (before.len() + lines.flatten().len()) as int,
            )
        }),
    decreases lines.len(),
{
    if lines.len() > 0 {
        let req = before + lines.flatten() + after;
        let l = lines[0];
        let rest = lines.drop_first();
        assert(text::is_line(l) && l != seq![CR, LF]);
        assert forall|i: int| 0 <= i < rest.len() implies text::is_line(#[trigger] rest[i])
            && rest[i] != seq![CR, LF] by {
            assert(rest[i] == lines[i + 1]);
        }
        assert(req =~= before + l + (rest.flatten() + after));
        text::line_feed_ends_line(before, l, rest.flatten() + after);
        assert(req =~= (before + l) + rest.flatten() + after);
        lemma_lines_before_body(before + l, rest, after);
    }
}

/// The method is what stands before the first space, in upper case.
pub proof fn method_is_the_first_word(word: Seq<u8>, more: Seq<u8>)
    requires
        text::lacks(word, SPACE),
    ensures
        text::all_alike(method(word + seq![SPACE] + more), word),
        forall|i: int|
            0 <= i < word.len() ==> !(0x61 <= #[trigger] method(word + seq![SPACE] + more)[i]
                <= 0x7a),
        text::all_alike(method(word), word),
{
    let req = word + seq![SPACE] + more;
    text::find_is(req, SPACE, 0, word.len() as int);
    assert(req.take(word.len() as int) =~= word);
    text::only_case_is_changed(word, word);
    text::find_is_first(word, SPACE, 0);
    assert(word.take(word.len() as int) =~= word);
}

impl Proxy {
    /// Whether `have` is a line of the header `want`, whatever the case of its letters.
    pub fn is_http_header(have: &[u8], want: &[u8]) -> (res: bool)
        ensures
            res == is_header(have@, want@),
    {
        if have.len() <= want.len() {
            return false;
        }
        let ghost h = text::uppercase(have@.take(want@.len() as int));
        let ghost w = text::uppercase(want@);
        let mut i: usize = 0;
        while i < want.len()
            invariant
                i <= want@.len() < have@.len(),
                h == text::uppercase(have@.take(want@.len() as int)),
                w == text::uppercase(want@),
                forall|j: int| 0 <= j < i ==> h[j] == w[j],
            decreases want@.len() - i,
        {
            assert(h[i as int] == text::upper(have@[i as int]));
            assert(w[i as int] == text::upper(want@[i as int]));
            if text::to_upper(have[i]) != text::to_upper(want[i]) {
                return false;
            }
            i = i + 1;
        }
        assert(h =~= w);
        have[want.len()] == COLON
    }

    /// Where the first byte of the body is, if the request has a body.
    pub fn find_body_start(req: &[u8]) -> (res: Option<usize>)
        ensures
            match res {
                Some(i) => body_start(req@, 0) == Some(i as int) && i < req@.len(),
                None => body_start(req@, 0) is None,
            },
    {
        let mut start: usize = 0;
        loop
            invariant
                start <= req@.len(),
                body_start(req@, 0) == body_start(req@, start as int),
            decreases req@.len() - start,
        {
            let lf: usize = text::position(req, LF, start);
            if lf == req.len() {
                return None;
            }
            let end: usize = lf + 1;
            assert(end == line_end(req@, start as int));
            proof {
                text::find_is_first(req@, LF, start as int);
            }
            if Self::is_end_of_headers(req, start, end) {
                if end == req.len() {
                    return None;
                }
                return Some(end);
            }
            start = end;
        }
    }

    /// The request's method in upper case.
    pub fn method(req: &[u8]) -> (res: Vec<u8>)
        ensures
            res@ == method(req@),
    {
        let n: usize = text::position(req, SPACE, 0);
        let mut res: Vec<u8> = Vec::new();
        let mut i: usize = 0;
        while i < n
            invariant
                i <= n <= req@.len(),
                n == text::find(req@, SPACE, 0),
                res@ == text::uppercase(req@.take(i as int)),
            decreases n - i,
        {
            res.push(text::to_upper(req[i]));
            i = i + 1;
            assert(res@ =~= text::uppercase(req@.take(i as int)));
        }
        res
    }

    /// The request as it is forwarded to the site `site_name`: with the first line `first_line`
    /// and with the site's name among the paths it came through.
    pub fn write_req(req: &[u8], site_name: &str, first_line: &str) -> (out: Vec<u8>)
        ensures
            out@ == forwarded(req@, encode_utf8(site_name@), encode_utf8(first_line@)),
    {
        let ghost site = encode_utf8(site_name@);
        let ghost all = forwarded(req@, site, encode_utf8(first_line@));
        let mut out: Vec<u8> = text::to_vec(first_line.as_bytes());
        let lf: usize = text::position(req, LF, 0);
        let mut start: usize = if lf < req.len() {
            lf + 1
        } else {
            0
        };
        let mut added_header: bool = false;
        loop
            invariant
                start <= req@.len(),
                site == encode_utf8(site_name@),
                out@ + forwarded_rest(req@, start as int, added_header, site) == all,
                all == forwarded(req@, site, encode_utf8(first_line@)),
            decreases req@.len() - start,
        {
            let ghost before = out@;
            let lf: usize = text::position(req, LF, start);
            if lf == req.len() {
                text::append(&mut out, &req[start..req.len()]);
                return out;
            }
            let end: usize = lf + 1;
            assert(end == line_end(req@, start as int));
            proof {
                text::find_is_first(req@, LF, start as int);
            }
            if Self::is_end_of_headers(req, start, end) {
                let mut last: Vec<u8> = Self::headers_end(site_name, added_header);
                text::append(&mut last, &req[end..req.len()]);
                text::append(&mut out, last.as_slice());
                return out;
            }
            let line = &req[start..end];
            if !added_header && Self::is_http_header(line, PATH_HEADER.as_bytes()) {
                let stop: usize = if start < lf && req[lf - 1] == CR {
                    lf - 1
                } else {
                    lf
                };
                let paths = Self::add_path(&req[start..stop], site_name);
                text::append(&mut out, paths.as_slice());
                added_header = true;
                assert(before + (paths@ + forwarded_rest(req@, end as int, true, site)) =~= out@
                    + forwarded_rest(req@, end as int, true, site));
            } else {
                text::append(&mut out, line);
                assert(before + (line@ + forwarded_rest(req@, end as int, added_header, site))
                    =~= out@ + forwarded_rest(req@, end as int, added_header, site));
            }
            start = end;
        }
    }

    /// Whether the line from `start` to `end` is the empty one that ends the headers.
    fn is_end_of_headers(req: &[u8], start: usize, end: usize) -> (res: bool)
        requires
            start < end <= req@.len(),
            req@[end - 1] == LF,
        ensures
            res == is_empty_line(req@, start as int, end as int),
    {
        let res: bool = end - start == 2 && req[start] == CR;
        proof {
            let line = req@.subrange(start as int, end as int);
            if res {
                assert(line =~= seq![CR, LF]);
            } else if line == seq![CR, LF] {
                assert(line.len() == 2 && line[0] == req@[start as int]);
            }
        }
        res
    }

    /// The end of the headers: with a header for the path of `site_name`, unless a header names
    /// it already.
    fn headers_end(site_name: &str, named: bool) -> (out: Vec<u8>)
        ensures
            out@ == end_of_headers(encode_utf8(site_name@), named),
    {
        let mut out: Vec<u8> = Vec::new();
        if !named {
            text::append(&mut out, "Rusty-Proxy-Path: ".as_bytes());
            text::append(&mut out, site_name.as_bytes());
            text::append(&mut out, "\r\n\r\n".as_bytes());
        } else {
            text::append(&mut out, "\r\n".as_bytes());
        }
        assert(out@ =~= end_of_headers(encode_utf8(site_name@), named));
        out
    }

    /// The header that names the paths in `before` and the path of `site_name`.
    fn add_path(before: &[u8], site_name: &str) -> (out: Vec<u8>)
        ensures
            out@ == path_added(before@, encode_utf8(site_name@)),
    {
        proof {
            if valid_utf8(before@) {
                decode_utf8_encode_utf8(before@);
            }
        }
        let mut out: Vec<u8> = text::to_vec(
            text::string_from_utf8_lossy(before).as_str().as_bytes(),
        );
        text::append(&mut out, ", ".as_bytes());
        text::append(&mut out, site_name.as_bytes());
        text::append(&mut out, "\r\n".as_bytes());
        out
    }
}

} // verus!
