//! Length-prefixed framing of the messages between the command line and the daemon.
//!
//! A frame is the payload's length as four little-endian bytes, followed by
//! the payload (the MessagePack encoding of a message, which the application
//! produces and reads).

use vstd::prelude::*;
use vstd::string::*;
use crate::error::DaemonError;
use crate::models::{join_component, join_path};
use crate::storage::le_u32;
use crate::text::{decimal, push_str_chars, push_decimal};

verus! {

/// Maximum message size (16 MB).
pub const MAX_MESSAGE_SIZE: usize = 16777216;

/// Errors that can occur during framing operations.
#[derive(Debug, Clone, PartialEq, Eq)]
pub enum FramingError {
    /// Encoding failed, with its message.
    Serialize(String),
    /// Decoding failed, with its message.
    Deserialize(String),
    /// The size of the message and the maximum.
    MessageTooLarge(usize, usize),
    /// The frame is malformed.
    InvalidFrame(String),
}

/// The four little-endian bytes of `n`.
pub open spec fn le_bytes(n: nat) -> Seq<u8> {
    seq![(n % 0x100) as u8, ((n / 0x100) % 0x100) as u8, ((n / 0x1_0000) % 0x100) as u8, ((n / 0x100_0000) % 0x100) as u8]
}

/// The frame of a payload: its length, then the payload.
pub open spec fn frame_of(payload: Seq<u8>) -> Seq<u8> {
    le_bytes(payload.len()) + payload
}

/// The four little-endian bytes of a length.
fn length_prefix(n: usize) -> (r: Vec<u8>)
    requires
        n <= MAX_MESSAGE_SIZE,
    ensures
        r@ == le_bytes(n as nat),
{
    let b0 = (n % 0x100) as u8;
    let b1 = ((n / 0x100) % 0x100) as u8;
    let b2 = ((n / 0x1_0000) % 0x100) as u8;
    let b3 = ((n / 0x100_0000) % 0x100) as u8;
    let r = vec![b0, b1, b2, b3];
    assert(r@ =~= le_bytes(n as nat));
    r
}

/// Reading back the bytes of a length gives the length.
pub proof fn lemma_le_roundtrip(n: nat)
    requires
        n < 0x1_0000_0000,
    ensures
        le_u32(le_bytes(n)) == n,
{
    let b = le_bytes(n);
    assert(b[0] as int + b[1] as int * 0x100 + b[2] as int * 0x1_0000 + b[3] as int * 0x100_0000 == n) by (nonlinear_arith)
        requires
            b[0] == (n % 0x100) as u8,
            b[1] == ((n / 0x100) % 0x100) as u8,
            b[2] == ((n / 0x1_0000) % 0x100) as u8,
            b[3] == ((n / 0x100_0000) % 0x100) as u8,
            n < 0x1_0000_0000,
    ;
}

/// Check a payload's size and frame it: a payload larger than the maximum
/// is refused with its size and the maximum.
pub fn frame_payload(payload: Vec<u8>) -> (r: Result<Vec<u8>, FramingError>)
    ensures
        payload@.len() > MAX_MESSAGE_SIZE ==> r == Err::<Vec<u8>, FramingError>(
            FramingError::MessageTooLarge(payload@.len() as usize, MAX_MESSAGE_SIZE),
        ),
        payload@.len() <= MAX_MESSAGE_SIZE ==> (r matches Ok(f) && f@ == frame_of(payload@)),
{
    let n = payload.len();
    if n > MAX_MESSAGE_SIZE {
        return Err(FramingError::MessageTooLarge(n, MAX_MESSAGE_SIZE));
    }
    let mut frame = length_prefix(n);
    let mut i: usize = 0;
    while i < n
        invariant
            n == payload@.len(),
            i <= n,
            frame@ == le_bytes(n as nat) + payload@.take(i as int),
        decreases n - i,
    {
        frame.push(payload[i]);
        assert(payload@.take(i + 1) =~= payload@.take(i as int).push(payload@[i as int]));
        i = i + 1;
    }
    assert(payload@.take(i as int) =~= payload@);
    Ok(frame)
}

/// Check a payload's size without framing it.
pub fn check_payload(payload: Vec<u8>) -> (r: Result<Vec<u8>, FramingError>)
    ensures
        payload@.len() > MAX_MESSAGE_SIZE ==> r == Err::<Vec<u8>, FramingError>(
            FramingError::MessageTooLarge(payload@.len() as usize, MAX_MESSAGE_SIZE),
        ),
        payload@.len() <= MAX_MESSAGE_SIZE ==> r == Ok::<Vec<u8>, FramingError>(payload),
{
    let n = payload.len();
    if n > MAX_MESSAGE_SIZE {
        return Err(FramingError::MessageTooLarge(n, MAX_MESSAGE_SIZE));
    }
    Ok(payload)
}

/// Parse a length-prefixed frame and return (length, payload offset): a
/// frame shorter than its header is invalid, and a length above the maximum
/// is refused.
pub fn parse_frame_header(data: &[u8]) -> (r: Result<(usize, usize), FramingError>)
    ensures
        data@.len() < 4 ==> (r matches Err(FramingError::InvalidFrame(m)) && m@
            == "Frame too short for header"@),
        data@.len() >= 4 && le_u32(data@) > MAX_MESSAGE_SIZE ==> r == Err::<(usize, usize), FramingError>(
            FramingError::MessageTooLarge(le_u32(data@) as usize, MAX_MESSAGE_SIZE),
        ),
        data@.len() >= 4 && le_u32(data@) <= MAX_MESSAGE_SIZE ==> r == Ok::<(usize, usize), FramingError>(
            (le_u32(data@) as usize, 4),
        ),
{
    if data.len() < 4 {
        return Err(FramingError::InvalidFrame(String::from_str("Frame too short for header")));
    }
    let len: u32 = data[0] as u32 + data[1] as u32 * 0x100 + data[2] as u32 * 0x1_0000 + data[3] as u32
        * 0x100_0000;
    let len = len as usize;
    if len > MAX_MESSAGE_SIZE {
        return Err(FramingError::MessageTooLarge(len, MAX_MESSAGE_SIZE));
    }
    Ok((len, 4))
}

/// A framed payload reads back: the header of the frame of a payload that
/// is not too large gives the payload's length and an offset of 4, and the
/// payload follows the header.
pub proof fn lemma_frame_roundtrip(payload: Seq<u8>)
    requires
        payload.len() <= MAX_MESSAGE_SIZE,
    ensures
        frame_of(payload).len() == payload.len() + 4,
        le_u32(frame_of(payload)) == payload.len(),
        frame_of(payload).subrange(4, frame_of(payload).len() as int) == payload,
{
    lemma_le_roundtrip(payload.len());
    let f = frame_of(payload);
    assert(f.subrange(0, 4) == le_bytes(payload.len()));
    assert(le_u32(f) == le_u32(le_bytes(payload.len())));
    assert(f.subrange(4, f.len() as int) =~= payload);
}

/// The message for a frame shorter than its header.
pub open spec fn too_short_message() -> Seq<char> {
    "Message too short for length prefix"@
}

/// The message for a frame shorter than its header announces.
pub open spec fn incomplete_message(expected: nat, got: nat) -> Seq<char> {
    "Message incomplete: expected "@ + decimal(expected) + " bytes, got "@ + decimal(got)
}

/// The payload of a received frame: the bytes after the header, as many as
/// the header announces (more bytes after them are ignored). A frame shorter
/// than its header, or than the header announces, is refused.
pub fn frame_contents(msg: &[u8]) -> (r: Result<Vec<u8>, DaemonError>)
    ensures
        msg@.len() < 4 ==> (r matches Err(DaemonError::Other(m)) && m@ == too_short_message()),
        msg@.len() >= 4 && msg@.len() < 4 + le_u32(msg@) ==> (r matches Err(DaemonError::Other(m))
            && m@ == incomplete_message((4 + le_u32(msg@)) as nat, msg@.len())),
        msg@.len() >= 4 + le_u32(msg@) ==> (r matches Ok(p) && p@ == msg@.subrange(
            4,
            4 + le_u32(msg@),
        )),
{
    if msg.len() < 4 {
        return Err(DaemonError::Other(String::from_str("Message too short for length prefix")));
    }
    let len: u32 = msg[0] as u32 + msg[1] as u32 * 0x100 + msg[2] as u32 * 0x1_0000 + msg[3] as u32
        * 0x100_0000;
    let total: u64 = 4 + len as u64;
    if (msg.len() as u64) < total {
        let mut m = String::new();
        push_str_chars(&mut m, "Message incomplete: expected ");
        push_decimal(&mut m, total);
        push_str_chars(&mut m, " bytes, got ");
        push_decimal(&mut m, msg.len() as u64);
        assert(m@ =~= incomplete_message((4 + le_u32(msg@)) as nat, msg@.len()));
        return Err(DaemonError::Other(m));
    }
    let end = total as usize;
    let mut p: Vec<u8> = Vec::new();
    let mut i: usize = 4;
    while i < end
        invariant
            4 <= i <= end <= msg@.len(),
            p@ == msg@.subrange(4, i as int),
        decreases end - i,
    {
        p.push(msg[i]);
        assert(msg@.subrange(4, i + 1) =~= msg@.subrange(4, i as int).push(msg@[i as int]));
        i = i + 1;
    }
    Ok(p)
}

/// Default socket path for the daemon: `rpytest.sock` in the runtime
/// directory, or in `/tmp` when none is set.
pub fn default_socket_path(runtime_dir: Option<&str>) -> (r: String)
    ensures
        r@ == join_component(
            match runtime_dir {
                Some(d) => d@,
                None => "/tmp"@,
            },
            "rpytest.sock"@,
        ),
{
    match runtime_dir {
        Some(d) => join_path(d, "rpytest.sock"),
        None => join_path("/tmp", "rpytest.sock"),
    }
}

} // verus!
