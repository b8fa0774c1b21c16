//! Marks at the start of a connection.

use rusty_proxy::proxy::Handler;
use rusty_proxy::proxy::Proxy;
use rusty_proxy::proxy::ReadOutcome;
use rusty_proxy::req_header::from16;
use rusty_proxy::req_header::from32;
use rusty_proxy::req_header::to16;
use rusty_proxy::req_header::ReqHeader;
use rusty_proxy::req_header::SpecialReqHeader;

#[test]
fn two_bytes_are_a_number() {
    assert_eq!(from16(&[0x34, 0x12]), 0x1234);
    assert_eq!(from16(&[0xff, 0x00, 0x77]), 0x00ff);
    assert_eq!(to16(0x1234), [0x12, 0x34]);
    assert_eq!(to16(0x00ff), [0x00, 0xff]);
}

#[test]
fn writing_and_reading_swaps_the_bytes() {
    assert_eq!(from16(&to16(0x1234)), 0x3412);
    assert_eq!(from16(&to16(from16(&to16(0x1234)))), 0x1234);
}

#[test]
fn four_bytes_are_a_number() {
    assert_eq!(from32(&[0x12, 0x34, 0x56, 0x78]), 0x12345678);
    assert_eq!(from32(&[0xff, 0xff, 0xff, 0xfe, 0x00]), 0xfffffffe);
}

#[test]
fn two_byte_marks_have_numbers() {
    assert!(ReqHeader::is_command(3375) && !ReqHeader::is_command(3376));
    assert!(ReqHeader::is_tunnel(31623) && !ReqHeader::is_tunnel(3375));
    assert!(ReqHeader::from(3375u16) == ReqHeader::Command);
    assert!(ReqHeader::from(31623u16) == ReqHeader::Tunnel);
    assert!(ReqHeader::from(0u16) == ReqHeader::Unknown);
    assert!(ReqHeader::from(1u16) == ReqHeader::Unknown);
    assert_eq!(ReqHeader::Unknown.code(), 0);
    assert_eq!(ReqHeader::Command.to_bytes(), [0x0d, 0x2f]);
    assert_eq!(ReqHeader::Tunnel.to_bytes(), [0x7b, 0x87]);
}

#[test]
fn two_byte_marks_are_read_least_significant_byte_first() {
    assert!(ReqHeader::from_bytes(&[0x2f, 0x0d]) == ReqHeader::Command);
    assert!(ReqHeader::from_bytes(&[0x87, 0x7b, 0x00]) == ReqHeader::Tunnel);
    assert!(ReqHeader::from_bytes(&ReqHeader::Command.to_bytes()) == ReqHeader::Unknown);
}

#[test]
fn four_byte_marks_have_numbers() {
    assert!(SpecialReqHeader::from(0xFFFFFFFFu32) == SpecialReqHeader::Tunnel);
    assert!(SpecialReqHeader::from(0xFFFFFFFEu32) == SpecialReqHeader::Connect);
    assert!(SpecialReqHeader::from(0xFFFFFFFDu32) == SpecialReqHeader::Success);
    assert!(SpecialReqHeader::from(0xFFFFFFFCu32) == SpecialReqHeader::BadMessage);
    assert!(SpecialReqHeader::from(0xFFFFFFFBu32) == SpecialReqHeader::AlreadyExists);
    assert!(SpecialReqHeader::from(0u32) == SpecialReqHeader::Nothing);
    assert!(SpecialReqHeader::from(0xFFFFFFFAu32) == SpecialReqHeader::Nothing);
}

#[test]
fn short_start_has_no_mark() {
    assert!(SpecialReqHeader::from(&[0xffu8, 0xff, 0xff][..]) == SpecialReqHeader::Nothing);
    assert!(SpecialReqHeader::from(&[0xffu8, 0xff, 0xff, 0xff][..]) == SpecialReqHeader::Tunnel);
}

#[test]
fn mark_decides_who_takes_over() {
    let bytes = || ReadOutcome::Bytes(4);
    assert_eq!(Proxy::handle(bytes(), &[0xff, 0xff, 0xff, 0xff]), Handler::Tunnel);
    assert_eq!(Proxy::handle(bytes(), &[0xff, 0xff, 0xff, 0xfe]), Handler::Connect);
    assert_eq!(Proxy::handle(bytes(), &[0xff, 0xff, 0xff, 0xfd]), Handler::Http);
    assert_eq!(Proxy::handle(bytes(), "GET ".as_bytes()), Handler::Http);
    assert_eq!(Proxy::handle(ReadOutcome::Bytes(0), &[0, 0, 0, 0]), Handler::Http);
    assert_eq!(Proxy::handle(ReadOutcome::Failed, &[0xff, 0xff, 0xff, 0xff]), Handler::Close);
    assert_eq!(Proxy::handle(ReadOutcome::TimedOut, &[0, 0, 0, 0]), Handler::Close);
}
