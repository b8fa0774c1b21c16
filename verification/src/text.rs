//! Byte strings and the text in them.

use vstd::prelude::*;
use vstd::utf8::*;

verus! {

/// The line feed, which ends a line.
pub const LF: u8 = 0x0a;

/// The carriage return, which stands before the line feed.
pub const CR: u8 = 0x0d;

/// The space.
pub const SPACE: u8 = 0x20;

/// The slash.
pub const SLASH: u8 = 0x2f;

/// The colon, which ends the name of a header.
pub const COLON: u8 = 0x3a;

/// The first place at or after `from` where `s` holds `c`; the length of `s` if there is none.
pub open spec fn find(s: Seq<u8>, c: u8, from: int) -> int
    decreases s.len() - from,
{
    if from >= s.len() {
        s.len() as int
    } else if s[from] == c {
        from
    } else {
        find(s, c, from + 1)
    }
}

/// `find` yields the first place: before it `c` does not occur, and at it `c` does.
pub proof fn find_is_first(s: Seq<u8>, c: u8, from: int)
    requires
        0 <= from <= s.len(),
    ensures
        from <= find(s, c, from) <= s.len(),
        find(s, c, from) < s.len() ==> s[find(s, c, from)] == c,
        forall|i: int| from <= i < find(s, c, from) ==> s[i] != c,
    decreases s.len() - from,
{
    if from < s.len() && s[from] != c {
        find_is_first(s, c, from + 1);
    }
}

/// `c` does not occur in `s`.
pub open spec fn lacks(s: Seq<u8>, c: u8) -> bool {
    forall|i: int| 0 <= i < s.len() ==> s[i] != c
}

/// Where `c` stands at `i` and at no place before it, `i` is what `find` yields.
pub proof fn find_is(s: Seq<u8>, c: u8, from: int, i: int)
    requires
        0 <= from <= i < s.len(),
        s[i] == c,
        forall|j: int| from <= j < i ==> s[j] != c,
    ensures
        find(s, c, from) == i,
{
    find_is_first(s, c, from);
    if find(s, c, from) < i {
        assert(s[find(s, c, from)] != c);
    }
}

/// A byte is found where it stands after a string that lacks it.
pub proof fn found_past(before: Seq<u8>, between: Seq<u8>, c: u8, after: Seq<u8>)
    requires
        lacks(between, c),
    ensures
        find(before + between + seq![c] + after, c, before.len() as int) == before.len()
            + between.len(),
{
    let s = before + between + seq![c] + after;
    let n = before.len() as int;
    let i = n + between.len();
    assert forall|j: int| n <= j < i implies s[j] != c by {
        assert(s[j] == between[j - n]);
    }
    assert(s[i] == c);
    find_is(s, c, n, i);
}

/// A string made of two lacks a byte exactly if both lack it.
pub proof fn both_lack(a: Seq<u8>, b: Seq<u8>, c: u8)
    ensures
        lacks(a + b, c) <==> lacks(a, c) && lacks(b, c),
{
    if lacks(a + b, c) {
        assert forall|i: int| 0 <= i < a.len() implies a[i] != c by {
            assert((a + b)[i] == a[i]);
        }
        assert forall|i: int| 0 <= i < b.len() implies b[i] != c by {
            assert((a + b)[a.len() + i] == b[i]);
        }
    }
}

/// The first place at or after `from` where `s` holds `c`; the length of `s` if there is none.
pub fn position(s: &[u8], c: u8, from: usize) -> (i: usize)
    requires
        from <= s@.len(),
    ensures
        i == find(s@, c, from as int),
        from <= i <= s@.len(),
{
    let mut i: usize = from;
    while i < s.len() && s[i] != c
        invariant
            from <= i <= s@.len(),
            find(s@, c, from as int) == find(s@, c, i as int),
        decreases s@.len() - i,
    {
        i = i + 1;
    }
    i
}

/// `t` occurs in `s` at `i`.
pub open spec fn occurs(s: Seq<u8>, t: Seq<u8>, i: int) -> bool {
    0 <= i && i + t.len() <= s.len() && s.subrange(i, i + t.len()) == t
}

/// The first place at or after `from` where `t` occurs in `s`.
pub open spec fn search(s: Seq<u8>, t: Seq<u8>, from: int) -> Option<int>
    decreases s.len() + 1 - from,
{
    if from + t.len() > s.len() {
        None
    } else if occurs(s, t, from) {
        Some(from)
    } else {
        search(s, t, from + 1)
    }
}

/// `search` yields the first place: before it `t` does not occur, and at it `t` does.
pub proof fn search_is_first(s: Seq<u8>, t: Seq<u8>, from: int)
    requires
        0 <= from,
    ensures
        match search(s, t, from) {
            Some(i) => from <= i && occurs(s, t, i) && forall|j: int|
                from <= j < i ==> !occurs(s, t, j),
            None => forall|j: int| from <= j ==> !occurs(s, t, j),
        },
    decreases s.len() + 1 - from,
{
    if from + t.len() <= s.len() && !occurs(s, t, from) {
        search_is_first(s, t, from + 1);
    }
}

/// ASCII bytes are valid UTF-8.
pub proof fn ascii_is_valid(b: Seq<u8>)
    requires
        forall|i: int| 0 <= i < b.len() ==> #[trigger] b[i] < 0x80,
    ensures
        valid_utf8(b),
{
    let chars = b.map_values(|x: u8| x as char);
    is_ascii_chars_encode_utf8(chars);
    assert(encode_utf8(chars) =~= b);
    encode_utf8_valid_utf8(chars);
}

/// Where `t` occurs in `s`, it stands between what comes before and after it; and where it stands
/// between two strings, it occurs.
pub proof fn occurrence_stands_in_between(a: Seq<u8>, t: Seq<u8>, b: Seq<u8>, s: Seq<u8>, i: int)
    ensures
        occurs(a + t + b, t, a.len() as int),
        occurs(s, t, i) ==> 0 <= i && s == s.take(i) + t + s.skip(i + t.len()),
{
    let s0 = a + t + b;
    assert(s0.subrange(a.len() as int, a.len() + t.len() as int) =~= t);
    if occurs(s, t, i) {
        assert(s =~= s.take(i) + s.subrange(i, i + t.len()) + s.skip(i + t.len()));
    }
}

/// `s` with the first occurrence of `t`, if there is one, replaced by `by`.
pub open spec fn replaced(s: Seq<u8>, t: Seq<u8>, by: Seq<u8>) -> Seq<u8> {
    match search(s, t, 0) {
        Some(i) => s.subrange(0, i) + by + s.subrange(i + t.len(), s.len() as int),
        None => s,
    }
}

/// What is replaced is the first occurrence; what stands around it stays.
pub proof fn first_occurrence_is_replaced(
    before: Seq<u8>,
    t: Seq<u8>,
    after: Seq<u8>,
    by: Seq<u8>,
)
    requires
        forall|i: int| 0 <= i < before.len() ==> !occurs(before + t + after, t, i),
    ensures
        replaced(before + t + after, t, by) == before + by + after,
{
    let s = before + t + after;
    let n = before.len() as int;
    assert(s.subrange(n, n + t.len()) =~= t);
    assert(occurs(s, t, n));
    search_is_first(s, t, 0);
    assert(search(s, t, 0) == Some(n));
    assert(s.subrange(0, n) =~= before);
    assert(s.subrange(n + t.len(), s.len() as int) =~= after);
}

/// Where `t` does not occur, nothing is replaced.
pub proof fn nothing_else_is_replaced(s: Seq<u8>, t: Seq<u8>, by: Seq<u8>)
    requires
        forall|i: int| !occurs(s, t, i),
    ensures
        replaced(s, t, by) == s,
{
    search_is_first(s, t, 0);
}

/// A line: it ends with its only line feed.
pub open spec fn is_line(l: Seq<u8>) -> bool {
    l.len() > 0 && l.last() == LF && lacks(l.drop_last(), LF)
}

/// The first line feed at or after the start of a line is the one that ends it.
pub proof fn line_feed_ends_line(before: Seq<u8>, l: Seq<u8>, after: Seq<u8>)
    requires
        is_line(l),
    ensures
        find(before + l + after, LF, before.len() as int) == before.len() + l.len() - 1,
        (before + l + after).subrange(before.len() as int, (before.len() + l.len()) as int) == l,
{
    let s = before + l + after;
    let n = before.len() as int;
    assert forall|j: int| n <= j < n + l.len() - 1 implies s[j] != LF by {
        assert(s[j] == l.drop_last()[j - n]);
    }
    assert(s[n + l.len() - 1] == l.last());
    find_is(s, LF, n, n + l.len() - 1);
    assert(s.subrange(n, n + l.len()) =~= l);
}

/// Whether the two byte strings are the same.
pub fn same(a: &[u8], b: &[u8]) -> (res: bool)
    ensures
        res == (a@ == b@),
{
    if a.len() != b.len() {
        return false;
    }
    let mut i: usize = 0;
    while i < a.len()
        invariant
            i <= a@.len(),
            a@.len() == b@.len(),
            forall|j: int| 0 <= j < i ==> a@[j] == b@[j],
        decreases a@.len() - i,
    {
        if a[i] != b[i] {
            return false;
        }
        i = i + 1;
    }
    assert(a@ =~= b@);
    true
}

/// Adds `b` at the end of `out`.
pub fn append(out: &mut Vec<u8>, b: &[u8])
    ensures
        final(out)@ == old(out)@ + b@,
{
    out.extend_from_slice(b);
    assert(out@ =~= old(out)@ + b@);
}

/// `s` with the first occurrence of `t`, if there is one, replaced by `by`.
pub fn replace_first(s: &[u8], t: &[u8], by: &[u8]) -> (out: Vec<u8>)
    ensures
        out@ == replaced(s@, t@, by@),
{
    let mut out: Vec<u8> = Vec::new();
    let mut i: usize = 0;
    while i <= s.len() && t.len() <= s.len() - i
        invariant
            i <= s@.len() + 1,
            i <= usize::MAX,
            out@ == Seq::<u8>::empty(),
            search(s@, t@, 0) == search(s@, t@, i as int),
        decreases s@.len() + 1 - i,
    {
        if same(&s[i..i + t.len()], t) {
            assert(occurs(s@, t@, i as int));
            append(&mut out, &s[0..i]);
            append(&mut out, by);
            append(&mut out, &s[i + t.len()..s.len()]);
            return out;
        }
        if i == s.len() {
            assert(t@.len() == 0);
            assert(s@.subrange(i as int, i + t@.len()) =~= t@);
        }
        i = i + 1;
    }
    append(&mut out, s);
    out
}

/// A byte with ASCII letters in upper case.
pub open spec fn upper(b: u8) -> u8 {
    if 0x61 <= b <= 0x7a {
        (b - 32) as u8
    } else {
        b
    }
}

/// A byte with ASCII letters in lower case.
pub open spec fn lower(b: u8) -> u8 {
    if 0x41 <= b <= 0x5a {
        (b + 32) as u8
    } else {
        b
    }
}

/// A byte string with ASCII letters in upper case.
pub open spec fn uppercase(s: Seq<u8>) -> Seq<u8> {
    s.map_values(|b: u8| upper(b))
}

/// A byte string with ASCII letters in lower case.
pub open spec fn lowercase(s: Seq<u8>) -> Seq<u8> {
    s.map_values(|b: u8| lower(b))
}

/// A byte with ASCII letters in upper case.
pub fn to_upper(b: u8) -> (u: u8)
    ensures
        u == upper(b),
{
    if 0x61 <= b && b <= 0x7a {
        b - 32
    } else {
        b
    }
}

/// A byte with ASCII letters in lower case.
pub fn to_lower(b: u8) -> (l: u8)
    ensures
        l == lower(b),
{
    if 0x41 <= b && b <= 0x5a {
        b + 32
    } else {
        b
    }
}

/// The two bytes are the same, or the same ASCII letter in two cases.
pub open spec fn alike(a: u8, b: u8) -> bool {
    ||| a == b
    ||| 0x61 <= a <= 0x7a && b == a - 32
    ||| 0x61 <= b <= 0x7a && a == b - 32
}

/// The two byte strings differ in the case of ASCII letters only.
pub open spec fn all_alike(s: Seq<u8>, t: Seq<u8>) -> bool {
    s.len() == t.len() && forall|i: int| 0 <= i < s.len() ==> alike(#[trigger] s[i], t[i])
}

/// Changing the case of a byte string changes the case of its letters and nothing else, leaves no
/// letter in the other case, and makes two strings one exactly if they differ in case only.
pub proof fn only_case_is_changed(s: Seq<u8>, t: Seq<u8>)
    ensures
        all_alike(s, uppercase(s)) && all_alike(s, lowercase(s)),
        forall|i: int| 0 <= i < s.len() ==> !(0x61 <= #[trigger] uppercase(s)[i] <= 0x7a),
        forall|i: int| 0 <= i < s.len() ==> !(0x41 <= #[trigger] lowercase(s)[i] <= 0x5a),
        uppercase(s) == uppercase(t) <==> all_alike(s, t),
        lowercase(s) == lowercase(t) <==> all_alike(s, t),
{
    let (us, ut) = (uppercase(s), uppercase(t));
    let (ls, lt) = (lowercase(s), lowercase(t));
    if us == ut {
        assert(us.len() == ut.len());
        assert forall|i: int| 0 <= i < s.len() implies alike(#[trigger] s[i], t[i]) by {
            assert(us[i] == upper(s[i]) && ut[i] == upper(t[i]));
        }
    }
    if ls == lt {
        assert(ls.len() == lt.len());
        assert forall|i: int| 0 <= i < s.len() implies alike(#[trigger] s[i], t[i]) by {
            assert(ls[i] == lower(s[i]) && lt[i] == lower(t[i]));
        }
    }
    if all_alike(s, t) {
        assert(us =~= ut);
        assert(ls =~= lt);
    }
}

/// The string whose UTF-8 encoding is `v`, if there is one.
///
/// Calls `String::from_utf8`, of which it claims that it succeeds exactly on valid UTF-8 and then
/// yields the characters encoded.
#[verifier::external_body]
pub(crate) fn string_from_utf8(v: Vec<u8>) -> (res: Option<String>)
    ensures
        match res {
            Some(s) => valid_utf8(v@) && s@ == decode_utf8(v@),
            None => !valid_utf8(v@),
        },
{
    String::from_utf8(v).ok()
}

/// The characters that `String::from_utf8_lossy` makes of `b`.
pub uninterp spec fn lossy(b: Seq<u8>) -> Seq<char>;

/// The text in `b`, with a replacement character for what is not valid UTF-8.
///
/// Calls `String::from_utf8_lossy`, of which it claims that the result depends on the bytes alone
/// and is what they encode if they are valid UTF-8. How invalid bytes are divided among
/// replacement characters is left unsaid.
#[verifier::external_body]
pub(crate) fn string_from_utf8_lossy(b: &[u8]) -> (s: String)
    ensures
        s@ == lossy(b@),
        valid_utf8(b@) ==> s@ == decode_utf8(b@),
{
    String::from_utf8_lossy(b).into_owned()
}

/// The bytes of `s` as a vector of their own.
pub fn to_vec(s: &[u8]) -> (v: Vec<u8>)
    ensures
        v@ == s@,
{
    let mut v: Vec<u8> = Vec::new();
    append(&mut v, s);
    assert(v@ =~= s@);
    v
}

/// The string whose UTF-8 encoding is `s`, if there is one.
pub fn decode(s: &[u8]) -> (res: Option<String>)
    ensures
        match res {
            Some(t) => valid_utf8(s@) && encode_utf8(t@) == s@,
            None => !valid_utf8(s@),
        },
{
    proof {
        if valid_utf8(s@) {
            decode_utf8_encode_utf8(s@);
        }
    }
    string_from_utf8(to_vec(s))
}

/// Right after an ASCII character that stands on a character boundary there is another boundary.
proof fn lemma_boundary_after_ascii(b: Seq<u8>, i: int)
    requires
        valid_utf8(b),
        0 <= i < b.len(),
        b[i] < 0x80,
    ensures
        is_char_boundary(b, i + 1),
    decreases b.len(),
{
    is_char_boundary_iff_not_is_continuation_byte(b, i);
    assert(b[i] < 0x80 ==> !is_continuation_byte(b[i]));
    let n = length_of_first_scalar(b);
    if i == 0 {
        reveal_with_fuel(is_char_boundary, 2);
    } else {
        reveal_with_fuel(is_char_boundary, 2);
        let rest = pop_first_scalar(b);
        assert(i >= n);
        assert(rest[i - n] == b[i]);
        lemma_boundary_after_ascii(rest, i - n);
    }
}

/// The bytes between two character boundaries are valid UTF-8.
proof fn lemma_valid_between(b: Seq<u8>, i: int, j: int)
    requires
        valid_utf8(b),
        0 <= i <= j <= b.len(),
        is_char_boundary(b, i),
        is_char_boundary(b, j),
    ensures
        valid_utf8(b.subrange(i, j)),
{
    valid_utf8_split(b, j);
    let head = b.subrange(0, j);
    if i < j {
        is_char_boundary_iff_not_is_continuation_byte(b, i);
        is_char_boundary_iff_not_is_continuation_byte(head, i);
        assert(head[i] == b[i]);
    } else {
        is_char_boundary_start_end_of_seq(head);
    }
    valid_utf8_split(head, i);
    assert(head.subrange(i, j) =~= b.subrange(i, j));
}

/// A place in valid UTF-8 that has an ASCII character at it or right before it, or nothing after
/// it, is a character boundary.
pub open spec fn next_to_ascii(b: Seq<u8>, i: int) -> bool {
    ||| i == 0
    ||| i == b.len()
    ||| 0 < i <= b.len() && b[i - 1] < 0x80
    ||| 0 <= i < b.len() && b[i] < 0x80
}

/// A piece of valid UTF-8 whose ends are next to ASCII characters is valid UTF-8.
pub proof fn piece_is_valid(b: Seq<u8>, i: int, j: int)
    requires
        valid_utf8(b),
        0 <= i <= j <= b.len(),
        next_to_ascii(b, i),
        next_to_ascii(b, j),
    ensures
        valid_utf8(b.subrange(i, j)),
{
    lemma_ascii_boundary(b, i);
    lemma_ascii_boundary(b, j);
    lemma_valid_between(b, i, j);
}

proof fn lemma_ascii_boundary(b: Seq<u8>, i: int)
    requires
        valid_utf8(b),
        next_to_ascii(b, i),
    ensures
        is_char_boundary(b, i),
{
    is_char_boundary_start_end_of_seq(b);
    if 0 < i <= b.len() && b[i - 1] < 0x80 {
        lemma_boundary_after_ascii(b, i - 1);
    } else if 0 <= i < b.len() && b[i] < 0x80 {
        is_char_boundary_iff_not_is_continuation_byte(b, i);
    }
}

/// The Unicode characters with the property White_Space.
pub open spec fn white_space(c: char) -> bool {
    ||| '\u{9}' <= c <= '\u{d}'
    ||| c == '\u{20}'
    ||| c == '\u{85}'
    ||| c == '\u{a0}'
    ||| c == '\u{1680}'
    ||| '\u{2000}' <= c <= '\u{200a}'
    ||| c == '\u{2028}'
    ||| c == '\u{2029}'
    ||| c == '\u{202f}'
    ||| c == '\u{205f}'
    ||| c == '\u{3000}'
}

/// Whether `c` has the property White_Space.
pub fn is_white_space(c: char) -> (res: bool)
    ensures
        res == white_space(c),
{
    ('\u{9}' <= c && c <= '\u{d}') || c == '\u{20}' || c == '\u{85}' || c == '\u{a0}' || c
        == '\u{1680}' || ('\u{2000}' <= c && c <= '\u{200a}') || c == '\u{2028}' || c == '\u{2029}'
        || c == '\u{202f}' || c == '\u{205f}' || c == '\u{3000}'
}

/// `s` without the white space at its start.
pub open spec fn trimmed_start(s: Seq<char>) -> Seq<char>
    decreases s.len(),
{
    if s.len() > 0 && white_space(s[0]) {
        trimmed_start(s.drop_first())
    } else {
        s
    }
}

/// `s` without the white space at its end.
pub open spec fn trimmed_end(s: Seq<char>) -> Seq<char>
    decreases s.len(),
{
    if s.len() > 0 && white_space(s.last()) {
        trimmed_end(s.drop_last())
    } else {
        s
    }
}

/// `s` without the white space at its start and at its end.
pub open spec fn trimmed(s: Seq<char>) -> Seq<char> {
    trimmed_end(trimmed_start(s))
}

/// Whether all characters are decimal digits.
pub open spec fn all_digits(s: Seq<char>) -> bool {
    forall|i: int| 0 <= i < s.len() ==> '0' <= #[trigger] s[i] <= '9'
}

/// The number that decimal digits write.
pub open spec fn digits_value(s: Seq<char>) -> nat
    decreases s.len(),
{
    if s.len() == 0 {
        0
    } else {
        digits_value(s.drop_last()) * 10 + (s.last() as nat - '0' as nat) as nat
    }
}

/// The digits of a number that may have a plus sign before them.
pub open spec fn unsigned(s: Seq<char>) -> Seq<char> {
    if s.len() > 0 && s[0] == '+' {
        s.drop_first()
    } else {
        s
    }
}

/// The number that `s` writes, if it is an optional plus sign and one or more digits.
pub open spec fn number(s: Seq<char>) -> Option<nat> {
    if unsigned(s).len() > 0 && all_digits(unsigned(s)) {
        Some(digits_value(unsigned(s)))
    } else {
        None
    }
}

/// White space around a text is what is trimmed off, and all of it.
pub proof fn white_space_is_trimmed_off(a: Seq<char>, t: Seq<char>, b: Seq<char>)
    requires
        forall|i: int| 0 <= i < a.len() ==> white_space(#[trigger] a[i]),
        forall|i: int| 0 <= i < b.len() ==> white_space(#[trigger] b[i]),
        t.len() > 0 ==> !white_space(t[0]) && !white_space(t.last()),
    ensures
        trimmed(a + t + b) == t,
{
    lemma_trimmed_start(a, t + b);
    assert(a + t + b =~= a + (t + b));
    if t.len() > 0 {
        assert((t + b)[0] == t[0]);
        assert(trimmed_start(t + b) == t + b);
        lemma_trimmed_end(t, b);
    } else {
        lemma_trimmed_start(b, Seq::empty());
        assert(t + b =~= b + Seq::<char>::empty());
        assert(trimmed_start(t + b) =~= t);
    }
}

proof fn lemma_trimmed_start(a: Seq<char>, t: Seq<char>)
    requires
        forall|i: int| 0 <= i < a.len() ==> white_space(#[trigger] a[i]),
    ensures
        trimmed_start(a + t) == trimmed_start(t),
    decreases a.len(),
{
    if a.len() > 0 {
        assert((a + t)[0] == a[0]);
        assert((a + t).drop_first() =~= a.drop_first() + t);
        lemma_trimmed_start(a.drop_first(), t);
    } else {
        assert(a + t =~= t);
    }
}

proof fn lemma_trimmed_end(t: Seq<char>, b: Seq<char>)
    requires
        forall|i: int| 0 <= i < b.len() ==> white_space(#[trigger] b[i]),
        t.len() > 0,
        !white_space(t.last()),
    ensures
        trimmed_end(t + b) == t,
    decreases b.len(),
{
    if b.len() > 0 {
        assert((t + b).last() == b.last());
        assert((t + b).drop_last() =~= t + b.drop_last());
        lemma_trimmed_end(t, b.drop_last());
    } else {
        assert(t + b =~= t);
    }
}

/// A number is written with decimal digits, the most significant one first, and with nothing but
/// at most one plus sign before them.
pub proof fn number_is_written_in_digits(s: Seq<char>, c: char)
    ensures
        '0' <= c <= '9' ==> number(seq![c]) == Some((c as nat - '0' as nat) as nat),
        !('0' <= c <= '9') ==> number(s.push(c)) is None,
        s.len() > 0 && s != seq!['+'] && '0' <= c <= '9' ==> match number(s) {
            Some(n) => number(s.push(c)) == Some(n * 10 + (c as nat - '0' as nat) as nat),
            None => number(s.push(c)) is None,
        },
        s.len() > 0 && s[0] != '+' ==> number(seq!['+'] + s) == number(s),
        s.len() > 0 && s[0] == '+' ==> number(seq!['+'] + s) is None,
        number(Seq::empty()) is None,
        number(seq!['+']) is None,
{
    let one = seq![c];
    assert(one.drop_last() =~= Seq::<char>::empty());
    reveal_with_fuel(digits_value, 2);
    let more = s.push(c);
    let u = unsigned(more);
    if s.len() > 0 {
        assert(more[0] == s[0]);
        assert(u =~= unsigned(s).push(c));
        assert(u.drop_last() =~= unsigned(s));
        assert(u.last() == c);
        if all_digits(u) {
            assert forall|i: int| 0 <= i < unsigned(s).len() implies '0' <= #[trigger] unsigned(
                s,
            )[i] <= '9' by {
                assert(u[i] == unsigned(s)[i]);
            }
        }
        if unsigned(s).len() == 0 {
            assert(s =~= seq!['+']);
        }
        let plus = seq!['+'] + s;
        assert(plus.drop_first() =~= s);
        if s[0] == '+' {
            assert(unsigned(plus)[0] == '+');
        }
    } else {
        assert(more =~= one);
        if c == '+' {
            assert(u.len() == 0);
        }
    }
    if !('0' <= c <= '9') {
        if u.len() > 0 {
            assert(u.last() == c);
        }
    }
}

/// More digits make no smaller number.
proof fn lemma_digits_value_grows(s: Seq<char>, n: int)
    requires
        0 <= n <= s.len(),
        all_digits(s),
    ensures
        digits_value(s.take(n)) <= digits_value(s),
    decreases s.len(),
{
    if n == s.len() {
        assert(s.take(n) =~= s);
    } else {
        assert(s.drop_last().take(n) =~= s.take(n));
        assert(all_digits(s.drop_last()));
        lemma_digits_value_grows(s.drop_last(), n);
    }
}

/// The characters of `s`.
fn chars_of(s: &str) -> (v: Vec<char>)
    ensures
        v@ == s@,
{
    let mut v: Vec<char> = Vec::new();
    for c in it: s.chars()
        invariant
            v@ == s@.take(it.index() as int),
            it.seq() == s@,
    {
        v.push(c);
        assert(s@.take(it.index() + 1) =~= s@.take(it.index() as int).push(c));
    }
    assert(s@.take(s@.len() as int) =~= s@);
    v
}

/// The number that `s` writes between white space, if it writes one that fits.
pub fn parse_usize(s: &str) -> (res: Option<usize>)
    ensures
        match res {
            Some(n) => number(trimmed(s@)) == Some(n as nat),
            None => number(trimmed(s@)) matches Some(n) ==> n > usize::MAX,
        },
{
    let v = chars_of(s);
    let mut i: usize = 0;
    assert(v@.skip(0) =~= v@);
    while i < v.len() && is_white_space(v[i])
        invariant
            i <= v@.len(),
            trimmed_start(v@) == trimmed_start(v@.skip(i as int)),
        decreases v@.len() - i,
    {
        assert(v@.skip(i as int).drop_first() =~= v@.skip(i + 1));
        i = i + 1;
    }
    let ghost rest = v@.skip(i as int);
    let mut j: usize = v.len();
    while j > i && is_white_space(v[j - 1])
        invariant
            i <= j <= v@.len(),
            rest == v@.skip(i as int),
            trimmed_end(rest) == trimmed_end(v@.subrange(i as int, j as int)),
        decreases j,
    {
        assert(v@.subrange(i as int, j as int).drop_last() =~= v@.subrange(i as int, j - 1));
        j = j - 1;
    }
    let ghost t = v@.subrange(i as int, j as int);
    assert(t == trimmed(s@));
    if i < j && v[i] == '+' {
        i = i + 1;
        assert(t.drop_first() =~= v@.subrange(i as int, j as int));
    }
    let ghost d = v@.subrange(i as int, j as int);
    assert(d == unsigned(t));
    if i == j {
        return None;
    }
    let mut n: usize = 0;
    let mut k: usize = i;
    while k < j
        invariant
            i <= k <= j <= v@.len(),
            d == v@.subrange(i as int, j as int),
            d == unsigned(trimmed(s@)),
            all_digits(d.take(k - i)),
            n == digits_value(d.take(k - i)),
        decreases j - k,
    {
        let c = v[k];
        assert(d[k - i] == c);
        assert(d.take(k - i + 1).drop_last() =~= d.take(k - i));
        if c < '0' || '9' < c {
            return None;
        }
        let x: usize = c as usize - '0' as usize;
        if n > (usize::MAX - x) / 10 {
            proof {
                if all_digits(d) {
                    lemma_digits_value_grows(d, k - i + 1);
                }
            }
            return None;
        }
        n = n * 10 + x;
        k = k + 1;
    }
    assert(d.take(j - i) =~= d);
    Some(n)
}

/// The decimal digits of `n`.
pub open spec fn decimal(n: nat) -> Seq<u8>
    decreases n,
{
    if n < 10 {
        seq![(0x30 + n) as u8]
    } else {
        decimal(n / 10).push((0x30 + n % 10) as u8)
    }
}

/// The decimal digits of `n`.
pub fn to_decimal(n: usize) -> (v: Vec<u8>)
    ensures
        v@ == decimal(n as nat),
    decreases n,
{
    if n < 10 {
        let mut v: Vec<u8> = Vec::new();
        v.push(0x30 + n as u8);
        assert(v@ =~= decimal(n as nat));
        v
    } else {
        let mut v = to_decimal(n / 10);
        v.push(0x30 + (n % 10) as u8);
        v
    }
}

/// The digits of a number read back as that number.
pub proof fn decimal_reads_back(n: nat)
    ensures
        number(decimal(n).map_values(|b: u8| b as char)) == Some(n),
{
    lemma_decimal_digits(n);
    let s = decimal(n).map_values(|b: u8| b as char);
    assert('0' <= s[0] <= '9');
    assert(unsigned(s) == s);
}

/// The digits of a number have no zero before them.
pub proof fn decimal_starts_with_no_zero(n: nat)
    ensures
        decimal(n).len() > 0,
        n > 0 ==> 0x31 <= decimal(n)[0] <= 0x39,
        n == 0 ==> decimal(n) == seq![0x30u8],
    decreases n,
{
    if n >= 10 {
        decimal_starts_with_no_zero(n / 10);
    }
}

proof fn lemma_decimal_digits(n: nat)
    ensures
        decimal(n).len() > 0,
        all_digits(decimal(n).map_values(|b: u8| b as char)),
        digits_value(decimal(n).map_values(|b: u8| b as char)) == n,
    decreases n,
{
    let s = decimal(n).map_values(|b: u8| b as char);
    if n >= 10 {
        lemma_decimal_digits(n / 10);
        let front = decimal(n / 10).map_values(|b: u8| b as char);
        assert(s =~= front.push((0x30 + n % 10) as u8 as char));
        assert(s.drop_last() =~= front);
    } else {
        assert(s.drop_last() =~= Seq::<char>::empty());
        assert(digits_value(s.drop_last()) == 0);
    }
}

} // verus!
