//! Framing of the window manager's IPC messages.
//!
//! Every message on the socket starts with a fixed six-byte magic string,
//! then the payload length and the message type as 32-bit little-endian
//! integers, then the payload itself. This module builds and checks those
//! envelopes on plain bytes; the caller moves them over the socket and
//! decodes payloads.

use vstd::prelude::*;

verus! {

/// The messages this tool sends: run a command batch, or fetch the layout
/// tree.
#[derive(Debug, PartialEq, Eq, Copy, Clone, Structural)]
pub enum MessageKind {
    RunCommand,
    GetTree,
}

/// The wire code of a message kind.
pub open spec fn message_code_spec(kind: MessageKind) -> u32 {
    match kind {
        MessageKind::RunCommand => 0,
        MessageKind::GetTree => 4,
    }
}

/// The wire code of a message kind.
pub fn message_code(kind: MessageKind) -> (r: u32)
    ensures
        r == message_code_spec(kind),
{
    match kind {
        MessageKind::RunCommand => 0,
        MessageKind::GetTree => 4,
    }
}

/// The six magic bytes that open every envelope: the string `i3-ipc`.
pub open spec fn magic() -> Seq<u8> {
    seq![105u8, 51u8, 45u8, 105u8, 112u8, 99u8]
}

/// A 32-bit value as four little-endian bytes.
pub open spec fn le32(v: u32) -> Seq<u8> {
    seq![
        (v % 256) as u8,
        ((v / 256) % 256) as u8,
        ((v / 65536) % 256) as u8,
        ((v / 16777216) % 256) as u8,
    ]
}

/// The 32-bit value of four little-endian bytes.
pub open spec fn le32_val(b0: u8, b1: u8, b2: u8, b3: u8) -> u32 {
    ((b0 as int) + 256 * (b1 as int) + 65536 * (b2 as int) + 16777216 * (b3 as int)) as u32
}

/// Law: reading back the four little-endian bytes of a value gives the
/// value.
pub proof fn lemma_le32_roundtrip(v: u32)
    ensures
        le32_val(le32(v)[0], le32(v)[1], le32(v)[2], le32(v)[3]) == v,
{
    assert(le32_val(
        (v % 256) as u8,
        ((v / 256) % 256) as u8,
        ((v / 65536) % 256) as u8,
        ((v / 16777216) % 256) as u8,
    ) == v) by (nonlinear_arith);
}

/// Build the envelope for sending `payload` as a message of kind `kind`:
/// magic bytes, payload length, message code, payload. The length must fit
/// the signed 32-bit field of the wire format; the caller checks it.
pub fn encode_message(kind: MessageKind, payload: &[u8]) -> (r: Vec<u8>)
    requires
        payload@.len() <= 0x7fffffff,
    ensures
        r@ == magic() + le32(payload@.len() as u32) + le32(message_code_spec(kind)) + payload@,
{
    let mut out: Vec<u8> = Vec::new();
    out.push(105);
    out.push(51);
    out.push(45);
    out.push(105);
    out.push(112);
    out.push(99);
    let len: u32 = payload.len() as u32;
    out.push((len % 256) as u8);
    out.push(((len / 256) % 256) as u8);
    out.push(((len / 65536) % 256) as u8);
    out.push(((len / 16777216) % 256) as u8);
    let code: u32 = message_code(kind);
    out.push((code % 256) as u8);
    out.push(((code / 256) % 256) as u8);
    out.push(((code / 65536) % 256) as u8);
    out.push(((code / 16777216) % 256) as u8);
    let ghost header = magic() + le32(len) + le32(code);
    proof {
        assert(out@ =~= header);
    }
    let mut i: usize = 0;
    while i < payload.len()
        invariant
            i <= payload@.len(),
            out@ == header + payload@.take(i as int),
        decreases payload@.len() - i,
    {
        out.push(payload[i]);
        proof {
            assert(out@ =~= header + payload@.take(i + 1 as int));
        }
        i += 1;
    }
    proof {
        assert(payload@.take(payload@.len() as int) =~= payload@);
    }
    out
}

/// A decoded envelope header: the payload length and the message type code,
/// both already known to be what the fields hold.
#[derive(Debug, PartialEq, Eq, Copy, Clone, Structural)]
pub struct MessageHeader {
    /// Length of the payload that follows the header.
    pub payload_length: u32,
    /// The wire code of the message the payload answers.
    pub payload_type: u32,
}

/// How an envelope header can be unacceptable.
#[derive(Debug, PartialEq, Eq, Copy, Clone, Structural)]
pub enum WireError {
    /// The first six bytes are not the magic string.
    BadMagic,
    /// The type field (carried here) is not the expected message code.
    WrongType(u32),
    /// The length field (carried here) does not fit the signed 32-bit range
    /// the wire format promises.
    BadLength(u32),
}

/// Check a fourteen-byte envelope header against the expected message kind
/// and decode its fields. Checks in order: magic bytes, type field, length
/// field.
pub fn parse_header(h: &[u8], expected: MessageKind) -> (r: Result<MessageHeader, WireError>)
    requires
        h@.len() == 14,
    ensures
        ({
            let len_v = le32_val(h@[6], h@[7], h@[8], h@[9]);
            let typ_v = le32_val(h@[10], h@[11], h@[12], h@[13]);
            match r {
                Ok(hd) => h@.subrange(0, 6) == magic() && typ_v == message_code_spec(expected)
                    && len_v <= 0x7fffffff && hd == (MessageHeader {
                    payload_length: len_v,
                    payload_type: typ_v,
                }),
                Err(WireError::BadMagic) => h@.subrange(0, 6) != magic(),
                Err(WireError::WrongType(t)) => h@.subrange(0, 6) == magic() && t == typ_v && typ_v
                    != message_code_spec(expected),
                Err(WireError::BadLength(l)) => h@.subrange(0, 6) == magic() && typ_v
                    == message_code_spec(expected) && l == len_v && len_v > 0x7fffffff,
            }
        }),
{
    let magic_ok = h[0] == 105 && h[1] == 51 && h[2] == 45 && h[3] == 105 && h[4] == 112 && h[5]
        == 99;
    if !magic_ok {
        proof {
            assert(h@.subrange(0, 6) != magic()) by {
                if h@.subrange(0, 6) == magic() {
                    assert(h@[0] == magic()[0]);
                    assert(h@[1] == magic()[1]);
                    assert(h@[2] == magic()[2]);
                    assert(h@[3] == magic()[3]);
                    assert(h@[4] == magic()[4]);
                    assert(h@[5] == magic()[5]);
                }
            }
        }
        return Err(WireError::BadMagic);
    }
    proof {
        assert(h@.subrange(0, 6) =~= magic());
    }
    let typ_v: u32 = (h[10] as u32) + 256 * (h[11] as u32) + 65536 * (h[12] as u32) + 16777216 * (
    h[13] as u32);
    if typ_v != message_code(expected) {
        return Err(WireError::WrongType(typ_v));
    }
    let len_v: u32 = (h[6] as u32) + 256 * (h[7] as u32) + 65536 * (h[8] as u32) + 16777216 * (
    h[9] as u32);
    if len_v > 0x7fffffff {
        return Err(WireError::BadLength(len_v));
    }
    Ok(MessageHeader { payload_length: len_v, payload_type: typ_v })
}

} // verus!
