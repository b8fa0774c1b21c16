//! The headers of a request, line by line.

use vstd::prelude::*;
use vstd::utf8::*;

use crate::text;
use crate::text::COLON;
use crate::text::LF;

verus! {

/// The lower-case letter that the name of a length header starts with.
pub const LETTER_C: u8 = 0x63;

/// What a line among the headers is.
#[derive(Debug, Clone, Copy, PartialEq, Eq, Structural)]
pub enum HeaderLine {
    /// The line of two bytes that ends the headers.
    End,
    /// A header that is sent on as it is.
    Keep,
    /// The length of the body.
    Length(usize),
    /// A header that cannot be read.
    Bad,
}

/// Where the line that starts at `start` ends: past its line feed, or with the request.
pub open spec fn line_stop(req: Seq<u8>, start: int) -> int {
    let lf = text::find(req, LF, start);
    if lf < req.len() {
        lf + 1
    } else {
        req.len() as int
    }
}

/// What a line with a name that ends at `pos` tells of the length of the body.
pub open spec fn length_line(line: Seq<u8>, pos: int) -> HeaderLine {
    match text::number(text::trimmed(decode_utf8(line.skip(pos + 1)))) {
        Some(n) => if n <= usize::MAX {
            HeaderLine::Length(n as usize)
        } else {
            HeaderLine::Bad
        },
        None => HeaderLine::Bad,
    }
}

/// What a line among the headers is. Only lines that start with the letter C are looked into.
pub open spec fn header_line(line: Seq<u8>) -> HeaderLine {
    let pos = text::find(line, COLON, 0);
    if line.len() == 2 {
        HeaderLine::End
    } else if text::lower(line[0]) != LETTER_C {
        HeaderLine::Keep
    } else if pos >= line.len() || !valid_utf8(line) {
        HeaderLine::Bad
    } else if text::lowercase(line.take(pos)) == encode_utf8("content-length"@) {
        length_line(line, pos)
    } else {
        HeaderLine::Keep
    }
}

/// What a line among the headers is.
pub fn classify(line: &[u8]) -> (res: HeaderLine)
    requires
        line@.len() > 0,
    ensures
        res == header_line(line@),
{
    if line.len() == 2 {
        return HeaderLine::End;
    }
    if text::to_lower(line[0]) != LETTER_C {
        return HeaderLine::Keep;
    }
    let pos: usize = text::position(line, COLON, 0);
    if pos == line.len() {
        return HeaderLine::Bad;
    }
    if text::decode(line).is_none() {
        return HeaderLine::Bad;
    }
    let mut name: Vec<u8> = Vec::new();
    let mut i: usize = 0;
    while i < pos
        invariant
            i <= pos < line@.len(),
            name@ == text::lowercase(line@.take(i as int)),
        decreases pos - i,
    {
        name.push(text::to_lower(line[i]));
        i = i + 1;
        assert(name@ =~= text::lowercase(line@.take(i as int)));
    }
    if !text::same(name.as_slice(), "content-length".as_bytes()) {
        return HeaderLine::Keep;
    }
    let value = &line[pos + 1..line.len()];
    assert(value@ =~= line@.skip(pos + 1));
    proof {
        text::find_is_first(line@, COLON, 0);
        text::piece_is_valid(line@, pos + 1, line@.len() as int);
    }
    match text::decode(value) {
        Some(value) => {
            proof {
                encode_utf8_decode_utf8(value@);
            }
            match text::parse_usize(value.as_str()) {
                Some(n) => HeaderLine::Length(n),
                None => HeaderLine::Bad,
            }
        },
        None => HeaderLine::Bad,
    }
}

/// The line is of a length header: before its first colon stands that header's name, whatever the
/// case of its letters.
pub open spec fn is_length_line(l: Seq<u8>) -> bool {
    let name = encode_utf8("content-length"@);
    &&& l.len() > name.len()
    &&& text::all_alike(l.take(name.len() as int), name)
    &&& l[name.len() as int] == COLON
}

/// A header is looked into only if its name is that of the length header, whatever the case of its
/// letters: every other header is sent on as it is, whatever letter it starts with.
pub proof fn other_header_is_kept(name: Seq<u8>, value: Seq<u8>)
    requires
        text::lacks(name, COLON),
        valid_utf8(name + seq![COLON] + value),
        (name + seq![COLON] + value).len() != 2,
        !text::all_alike(name, encode_utf8("content-length"@)),
    ensures
        header_line(name + seq![COLON] + value) == HeaderLine::Keep,
{
    let line = name + seq![COLON] + value;
    text::found_past(Seq::empty(), name, COLON, value);
    assert(Seq::<u8>::empty() + name + seq![COLON] + value =~= line);
    assert(line.take(name.len() as int) =~= name);
    lemma_length_name(name);
}

/// The name of the length header is known whatever the case of its letters, and is ASCII.
proof fn lemma_length_name(name: Seq<u8>)
    ensures
        ({
            let want = encode_utf8("content-length"@);
            &&& text::lowercase(name) == want <==> text::all_alike(name, want)
            &&& want.len() == 14 && text::lacks(want, COLON) && want[0] == LETTER_C
            &&& text::all_alike(name, want) ==> text::lacks(name, COLON) && forall|i: int|
                0 <= i < name.len() ==> #[trigger] name[i] < 0x80
        }),
{
    let want = encode_utf8("content-length"@);
    reveal_strlit("content-length");
    is_ascii_chars_encode_utf8("content-length"@);
    text::only_case_is_changed(name, want);
    assert(text::lowercase(want) =~= want);
    if text::all_alike(name, want) {
        assert forall|i: int| 0 <= i < name.len() implies #[trigger] name[i] < 0x80 && name[i]
            != COLON by {
            assert(text::alike(name[i], want[i]));
            assert(want[i] == "content-length"@[i] as u8);
        }
    }
}

/// A length header gives the number that its value writes between white space, if it writes one
/// that fits, and is bad otherwise.
pub proof fn length_header_is_read(
    name: Seq<u8>,
    before: Seq<char>,
    number: Seq<char>,
    after: Seq<char>,
)
    requires
        text::all_alike(name, encode_utf8("content-length"@)),
        forall|i: int| 0 <= i < before.len() ==> text::white_space(#[trigger] before[i]),
        forall|i: int| 0 <= i < after.len() ==> text::white_space(#[trigger] after[i]),
        number.len() > 0 ==> !text::white_space(number[0]) && !text::white_space(number.last()),
    ensures
        header_line(name + seq![COLON] + encode_utf8(before + number + after)) == (
        match text::number(number) {
            Some(n) => if n <= usize::MAX {
                HeaderLine::Length(n as usize)
            } else {
                HeaderLine::Bad
            },
            None => HeaderLine::Bad,
        }),
{
    let chars = before + number + after;
    let value = encode_utf8(chars);
    let line = name + seq![COLON] + value;
    lemma_length_name(name);
    text::found_past(Seq::empty(), name, COLON, value);
    assert(Seq::<u8>::empty() + name + seq![COLON] + value =~= line);
    assert(line.take(name.len() as int) =~= name);
    assert(line.skip(name.len() as int + 1) =~= value);
    encode_utf8_valid_utf8(chars);
    encode_utf8_decode_utf8(chars);
    text::white_space_is_trimmed_off(before, number, after);
    let start = name + seq![COLON];
    text::ascii_is_valid(start);
    valid_utf8_concat(start, value);
    assert(text::alike(name[0], encode_utf8("content-length"@)[0]));
    assert(line[0] == name[0]);
}

/// A line of two bytes ends the headers. Any other line that does not start with the letter C is
/// sent on as it is, and one that does is bad without a colon, or if it is not valid UTF-8.
pub proof fn first_letter_is_looked_at(line: Seq<u8>)
    requires
        line.len() > 0,
    ensures
        header_line(line) == HeaderLine::End <==> line.len() == 2,
        line.len() != 2 && line[0] != 0x63 && line[0] != 0x43 ==> header_line(line)
            == HeaderLine::Keep,
        line.len() != 2 && (line[0] == 0x63 || line[0] == 0x43) && (text::lacks(line, COLON)
            || !valid_utf8(line)) ==> header_line(line) == HeaderLine::Bad,
{
    text::find_is_first(line, COLON, 0);
}

/// A line that neither ends the headers nor gives the body's length, and that can be read.
pub open spec fn is_kept_line(l: Seq<u8>) -> bool {
    &&& text::is_line(l)
    &&& l.len() != 2
    &&& l[0] != 0x63 && l[0] != 0x43 || {
        &&& valid_utf8(l)
        &&& !text::lacks(l, COLON)
        &&& !is_length_line(l)
    }
}

/// Such a line is sent on as it is.
pub proof fn kept_line_is_kept(l: Seq<u8>)
    requires
        is_kept_line(l),
    ensures
        header_line(l) == HeaderLine::Keep,
{
    first_letter_is_looked_at(l);
    if l[0] == 0x63 || l[0] == 0x43 {
        text::find_is_first(l, COLON, 0);
        let pos = text::find(l, COLON, 0);
        if pos >= l.len() {
            assert(text::lacks(l, COLON));
        }
        let name = l.take(pos);
        let value = l.skip(pos + 1);
        assert(l =~= name + seq![COLON] + value);
        lemma_length_name(name);
        other_header_is_kept(name, value);
    }
}

/// The header for a body of length `n`.
pub open spec fn length_header(n: nat) -> Seq<u8> {
    encode_utf8("Content-Length: "@) + text::decimal(n) + encode_utf8("\r\n"@)
}

/// Adds the header for a body of length `n` to `out`.
pub fn add_length_header(out: &mut Vec<u8>, n: usize)
    ensures
        final(out)@ == old(out)@ + length_header(n as nat),
{
    text::append(out, "Content-Length: ".as_bytes());
    text::append(out, text::to_decimal(n).as_slice());
    text::append(out, "\r\n".as_bytes());
    assert(out@ =~= old(out)@ + length_header(n as nat));
}

/// A header that is sent for a body's length is read as that length.
pub proof fn length_header_reads_back(n: usize)
    ensures
        header_line(length_header(n as nat)) == HeaderLine::Length(n),
{
    let start = "Content-Length: "@;
    let digits = text::decimal(n as nat).map_values(|b: u8| b as char);
    let chars = start + digits + "\r\n"@;
    let line = length_header(n as nat);
    reveal_strlit("Content-Length: ");
    reveal_strlit("content-length");
    reveal_strlit("\r\n");
    text::decimal_reads_back(n as nat);
    lemma_decimal_ascii(n as nat);
    is_ascii_chars_encode_utf8(start);
    is_ascii_chars_encode_utf8("content-length"@);
    is_ascii_chars_encode_utf8("\r\n"@);
    is_ascii_chars_encode_utf8(digits);
    is_ascii_chars_encode_utf8(chars);
    assert(encode_utf8(digits) =~= text::decimal(n as nat));
    assert(line =~= encode_utf8(chars));
    encode_utf8_valid_utf8(chars);
    text::find_is(line, COLON, 0, 14);
    assert(text::lowercase(line.take(14)) =~= encode_utf8("content-length"@));
    let value = chars.skip(15);
    is_ascii_chars_encode_utf8(value);
    assert(line.skip(15) =~= encode_utf8(value));
    encode_utf8_decode_utf8(value);
    assert(value.drop_first() =~= digits + "\r\n"@);
    assert(text::trimmed_start(digits + "\r\n"@) == digits + "\r\n"@);
    assert((digits + "\r\n"@).drop_last().drop_last() =~= digits);
    reveal_with_fuel(text::trimmed_end, 3);
    assert(text::trimmed(value) == digits);
}

/// Decimal digits are ASCII characters.
proof fn lemma_decimal_ascii(n: nat)
    ensures
        text::decimal(n).len() > 0,
        forall|i: int|
            0 <= i < text::decimal(n).len() ==> 0x30 <= #[trigger] text::decimal(n)[i] <= 0x39,
    decreases n,
{
    if n >= 10 {
        lemma_decimal_ascii(n / 10);
    }
}

/// What is written for a body's length and for the client's address.
pub proof fn written_headers(n: nat, ip: Seq<char>)
    ensures
        length_header(n) == encode_utf8("Content-Length: "@) + text::decimal(n) + seq![0x0du8, LF],
        forwarded_for(ip) == encode_utf8("Forwarded: for="@) + encode_utf8(ip) + seq![
            0x0du8,
            LF,
            0x0du8,
            LF,
        ],
{
    reveal_strlit("\r\n");
    reveal_strlit("\r\n\r\n");
    is_ascii_chars_encode_utf8("\r\n"@);
    is_ascii_chars_encode_utf8("\r\n\r\n"@);
    assert(encode_utf8("\r\n"@) =~= seq![0x0du8, LF]);
    assert(encode_utf8("\r\n\r\n"@) =~= seq![0x0du8, LF, 0x0du8, LF]);
}

/// The end of the headers, with one that tells the site whom a request comes from.
pub open spec fn forwarded_for(ip: Seq<char>) -> Seq<u8> {
    encode_utf8("Forwarded: for="@) + encode_utf8(ip) + encode_utf8("\r\n\r\n"@)
}

/// The end of the headers, with one that tells the site whom a request comes from.
pub fn forwarded_for_header(ip: &str) -> (out: Vec<u8>)
    ensures
        out@ == forwarded_for(ip@),
{
    let mut out: Vec<u8> = text::to_vec("Forwarded: for=".as_bytes());
    text::append(&mut out, ip.as_bytes());
    text::append(&mut out, "\r\n\r\n".as_bytes());
    out
}

} // verus!
