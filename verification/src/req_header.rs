//! The marks at the start of a connection that set it apart from plain HTTP.

use vstd::prelude::*;

verus! {

/// The first two bytes as a number, the first byte least significant.
pub open spec fn le16(b: Seq<u8>) -> int {
    b[1] * 0x100 + b[0]
}

/// The first four bytes as a number, the first byte most significant.
pub open spec fn be32(b: Seq<u8>) -> int {
    b[0] * 0x1000000 + b[1] * 0x10000 + b[2] * 0x100 + b[3]
}

/// Reads a number from two bytes, the first byte least significant.
pub fn from16(bytes: &[u8]) -> (n: u16)
    requires
        bytes@.len() >= 2,
    ensures
        n == le16(bytes@),
{
    let b0: u8 = bytes[0];
    let b1: u8 = bytes[1];
    assert((b1 as u16) << 8 | (b0 as u16) == b1 * 0x100 + b0) by (bit_vector);
    (b1 as u16) << 8 | (b0 as u16)
}

/// The two bytes of a number, the most significant one first.
pub fn to16(n: u16) -> (bytes: [u8; 2])
    ensures
        bytes@ == seq![(n / 0x100) as u8, (n % 0x100) as u8],
{
    assert((n >> 8) as u8 == (n / 0x100) as u8 && n as u8 == (n % 0x100) as u8) by (bit_vector);
    let bytes = [(n >> 8) as u8, n as u8];
    assert(bytes@ =~= seq![(n / 0x100) as u8, (n % 0x100) as u8]);
    bytes
}

/// Reads a number from four bytes, the first byte most significant.
pub fn from32(b: &[u8]) -> (n: u32)
    requires
        b@.len() >= 4,
    ensures
        n == be32(b@),
{
    let b0: u8 = b[0];
    let b1: u8 = b[1];
    let b2: u8 = b[2];
    let b3: u8 = b[3];
    assert((b0 as u32) << 24 | (b1 as u32) << 16 | (b2 as u32) << 8 | (b3 as u32) == b0 * 0x1000000
        + b1 * 0x10000 + b2 * 0x100 + b3) by (bit_vector);
    (b0 as u32) << 24 | (b1 as u32) << 16 | (b2 as u32) << 8 | (b3 as u32)
}

/// Writing a number and reading the bytes back exchanges its two bytes; doing so twice gives the
/// number back.
pub proof fn to16_from16_swaps(n: u16)
    ensures
        ({
            let once = le16(seq![(n / 0x100) as u8, (n % 0x100) as u8]);
            &&& once == (n % 0x100) * 0x100 + n / 0x100
            &&& 0 <= once <= u16::MAX
            &&& le16(seq![(once / 0x100) as u8, (once % 0x100) as u8]) == n
        }),
{
}

/// What a connection with a two-byte mark asks for.
#[derive(Clone, Copy, PartialEq, Eq, Structural)]
pub enum ReqHeader {
    Unknown,
    Command,
    Tunnel,
}

impl ReqHeader {
    /// The mark's number.
    pub open spec fn number(self) -> u16 {
        match self {
            ReqHeader::Unknown => 0,
            ReqHeader::Command => 3375,
            ReqHeader::Tunnel => 31623,
        }
    }

    /// The mark that a number stands for.
    pub open spec fn of(u: u16) -> ReqHeader {
        if u == ReqHeader::Command.number() {
            ReqHeader::Command
        } else if u == ReqHeader::Tunnel.number() {
            ReqHeader::Tunnel
        } else {
            ReqHeader::Unknown
        }
    }

    /// The mark's number.
    pub fn code(self) -> (u: u16)
        ensures
            u == self.number(),
    {
        match self {
            ReqHeader::Unknown => 0,
            ReqHeader::Command => 3375,
            ReqHeader::Tunnel => 31623,
        }
    }

    /// Whether `u` is the number of the tunnel mark.
    pub fn is_tunnel(u: u16) -> (res: bool)
        ensures
            res == (u == ReqHeader::Tunnel.number()),
    {
        ReqHeader::Tunnel.code() == u
    }

    /// Whether `u` is the number of the command mark.
    pub fn is_command(u: u16) -> (res: bool)
        ensures
            res == (u == ReqHeader::Command.number()),
    {
        ReqHeader::Command.code() == u
    }

    /// The mark's number in two bytes, the most significant one first.
    pub fn to_bytes(self) -> (bytes: [u8; 2])
        ensures
            bytes@ == seq![(self.number() / 0x100) as u8, (self.number() % 0x100) as u8],
    {
        to16(self.code())
    }

    /// The mark in the first two bytes, the first of them least significant.
    pub fn from_bytes(bytes: &[u8]) -> (h: ReqHeader)
        requires
            bytes@.len() >= 2,
        ensures
            h == ReqHeader::of(le16(bytes@) as u16),
    {
        ReqHeader::from(from16(bytes))
    }
}

impl From<u16> for ReqHeader {
    fn from(u: u16) -> (h: Self) {
        if ReqHeader::is_command(u) {
            ReqHeader::Command
        } else if ReqHeader::is_tunnel(u) {
            ReqHeader::Tunnel
        } else {
            ReqHeader::Unknown
        }
    }
}

impl vstd::std_specs::convert::FromSpecImpl<u16> for ReqHeader {
    open spec fn obeys_from_spec() -> bool {
        true
    }

    open spec fn from_spec(u: u16) -> Self {
        ReqHeader::of(u)
    }
}

/// A mark is found again from its number, and no other number stands for a mark that asks for
/// something.
pub proof fn req_header_of_number(h: ReqHeader, u: u16)
    ensures
        ReqHeader::of(h.number()) == h,
        ReqHeader::of(u) == h && h != ReqHeader::Unknown ==> u == h.number(),
{
}

/// What a connection with a four-byte mark asks for, or is answered.
#[derive(Clone, Copy, PartialEq, Eq, Structural)]
pub enum SpecialReqHeader {
    Nothing,
    Tunnel,
    Connect,
    Success,
    BadMessage,
    AlreadyExists,
}

impl SpecialReqHeader {
    /// The mark's number.
    pub open spec fn number(self) -> u32 {
        match self {
            SpecialReqHeader::Nothing => 0,
            SpecialReqHeader::Tunnel => 0xFFFFFFFF,
            SpecialReqHeader::Connect => 0xFFFFFFFE,
            SpecialReqHeader::Success => 0xFFFFFFFD,
            SpecialReqHeader::BadMessage => 0xFFFFFFFC,
            SpecialReqHeader::AlreadyExists => 0xFFFFFFFB,
        }
    }

    /// The mark that a number stands for.
    pub open spec fn of(u: u32) -> SpecialReqHeader {
        if u == SpecialReqHeader::Tunnel.number() {
            SpecialReqHeader::Tunnel
        } else if u == SpecialReqHeader::Connect.number() {
            SpecialReqHeader::Connect
        } else if u == SpecialReqHeader::Success.number() {
            SpecialReqHeader::Success
        } else if u == SpecialReqHeader::BadMessage.number() {
            SpecialReqHeader::BadMessage
        } else if u == SpecialReqHeader::AlreadyExists.number() {
            SpecialReqHeader::AlreadyExists
        } else {
            SpecialReqHeader::Nothing
        }
    }

    /// The mark at the start of `bytes`.
    pub open spec fn at_start(bytes: Seq<u8>) -> SpecialReqHeader {
        if bytes.len() < 4 {
            SpecialReqHeader::Nothing
        } else {
            SpecialReqHeader::of(be32(bytes) as u32)
        }
    }
}

impl From<u32> for SpecialReqHeader {
    fn from(u: u32) -> (h: Self) {
        match u {
            0xFFFFFFFF => SpecialReqHeader::Tunnel,
            0xFFFFFFFE => SpecialReqHeader::Connect,
            0xFFFFFFFD => SpecialReqHeader::Success,
            0xFFFFFFFC => SpecialReqHeader::BadMessage,
            0xFFFFFFFB => SpecialReqHeader::AlreadyExists,
            _ => SpecialReqHeader::Nothing,
        }
    }
}

impl vstd::std_specs::convert::FromSpecImpl<u32> for SpecialReqHeader {
    open spec fn obeys_from_spec() -> bool {
        true
    }

    open spec fn from_spec(u: u32) -> Self {
        SpecialReqHeader::of(u)
    }
}

impl From<&[u8]> for SpecialReqHeader {
    fn from(bytes: &[u8]) -> (h: Self) {
        if bytes.len() < 4 {
            return SpecialReqHeader::Nothing;
        }
        SpecialReqHeader::from(from32(bytes))
    }
}

impl vstd::std_specs::convert::FromSpecImpl<&[u8]> for SpecialReqHeader {
    open spec fn obeys_from_spec() -> bool {
        true
    }

    open spec fn from_spec(bytes: &[u8]) -> Self {
        SpecialReqHeader::at_start(bytes@)
    }
}

/// A mark is found again from its number, and no other number stands for a mark that says
/// something.
pub proof fn special_req_header_of_number(h: SpecialReqHeader, u: u32)
    ensures
        SpecialReqHeader::of(h.number()) == h,
        SpecialReqHeader::of(u) == h && h != SpecialReqHeader::Nothing ==> u == h.number(),
{
}

/// A mark says something exactly if it is one of five, which differ in their fourth byte only; a
/// start of fewer than four bytes has no mark, and what follows the four bytes does not matter.
pub proof fn mark_is_in_the_first_four_bytes(b: Seq<u8>)
    ensures
        ({
            let marked = b.len() >= 4 && b[0] == 0xff && b[1] == 0xff && b[2] == 0xff;
            let h = SpecialReqHeader::at_start(b);
            &&& h == SpecialReqHeader::Tunnel <==> marked && b[3] == 0xff
            &&& h == SpecialReqHeader::Connect <==> marked && b[3] == 0xfe
            &&& h == SpecialReqHeader::Success <==> marked && b[3] == 0xfd
            &&& h == SpecialReqHeader::BadMessage <==> marked && b[3] == 0xfc
            &&& h == SpecialReqHeader::AlreadyExists <==> marked && b[3] == 0xfb
        }),
{
}

/// A two-byte mark is read least significant byte first, and written most significant byte first.
pub proof fn two_byte_marks_are_known(b: Seq<u8>)
    requires
        b.len() >= 2,
    ensures
        ReqHeader::of(le16(b) as u16) == ReqHeader::Command <==> b[0] == 0x2f && b[1] == 0x0d,
        ReqHeader::of(le16(b) as u16) == ReqHeader::Tunnel <==> b[0] == 0x87 && b[1] == 0x7b,
        ReqHeader::Command.number() == 0x0d2f && ReqHeader::Tunnel.number() == 0x7b87
            && ReqHeader::Unknown.number() == 0,
{
}

} // verus!
