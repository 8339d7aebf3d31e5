//! Envelope framing: building message bytes and checking reply headers.

use haswaynav::messages::{
    encode_message, message_code, parse_header, MessageHeader, MessageKind, WireError,
};
use haswaynav::tree::FullScreenMode;

#[test]
fn message_codes() {
    assert_eq!(0, message_code(MessageKind::RunCommand));
    assert_eq!(4, message_code(MessageKind::GetTree));
}

#[test]
fn encode_run_command() {
    let payload = b"focus left";
    let bytes = encode_message(MessageKind::RunCommand, payload);
    let mut expected: Vec<u8> = Vec::new();
    expected.extend_from_slice(b"i3-ipc");
    expected.extend_from_slice(&[10, 0, 0, 0]);
    expected.extend_from_slice(&[0, 0, 0, 0]);
    expected.extend_from_slice(payload);
    assert_eq!(bytes, expected);
}

#[test]
fn encode_get_tree_is_empty_payload() {
    let bytes = encode_message(MessageKind::GetTree, &[]);
    let mut expected: Vec<u8> = Vec::new();
    expected.extend_from_slice(b"i3-ipc");
    expected.extend_from_slice(&[0, 0, 0, 0]);
    expected.extend_from_slice(&[4, 0, 0, 0]);
    assert_eq!(bytes, expected);
}

#[test]
fn parse_header_round_trip() {
    let bytes = encode_message(MessageKind::GetTree, &[1, 2, 3]);
    let header = parse_header(&bytes[0..14], MessageKind::GetTree);
    assert_eq!(
        header,
        Ok(MessageHeader { payload_length: 3, payload_type: 4 })
    );
}

#[test]
fn parse_header_large_length() {
    // 0x01020304 little-endian
    let h = [105, 51, 45, 105, 112, 99, 4, 3, 2, 1, 0, 0, 0, 0];
    let header = parse_header(&h, MessageKind::RunCommand);
    assert_eq!(
        header,
        Ok(MessageHeader { payload_length: 0x01020304, payload_type: 0 })
    );
}

#[test]
fn parse_header_rejects_bad_magic() {
    let h = [106, 51, 45, 105, 112, 99, 0, 0, 0, 0, 4, 0, 0, 0];
    assert_eq!(parse_header(&h, MessageKind::GetTree), Err(WireError::BadMagic));
}

#[test]
fn parse_header_rejects_wrong_type() {
    let bytes = encode_message(MessageKind::RunCommand, b"x");
    let header = parse_header(&bytes[0..14], MessageKind::GetTree);
    assert_eq!(header, Err(WireError::WrongType(0)));
}

#[test]
fn parse_header_rejects_negative_length() {
    // length field 0xffffffff would be negative as a signed 32-bit value
    let h = [105, 51, 45, 105, 112, 99, 255, 255, 255, 255, 4, 0, 0, 0];
    let header = parse_header(&h, MessageKind::GetTree);
    assert_eq!(header, Err(WireError::BadLength(0xffffffff)));
}

#[test]
fn full_screen_mode_codes() {
    assert_eq!(FullScreenMode::try_from(0), Ok(FullScreenMode::NoFullScreen));
    assert_eq!(FullScreenMode::try_from(1), Ok(FullScreenMode::FullWorkspace));
    assert_eq!(FullScreenMode::try_from(2), Ok(FullScreenMode::GlobalFullScreen));
    assert_eq!(FullScreenMode::try_from(3), Err(3));
    assert_eq!(FullScreenMode::try_from(-1), Err(-1));
}
