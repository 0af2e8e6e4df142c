//! Frames: a payload behind its length in four bytes, most significant first.

use crate::text::{decimal, decimal_text, lemma_decimal_int_stands, stands_for};
use vstd::prelude::*;
use vstd::string::*;

verus! {

/// The longest payload that is read: 16 MiB.
pub const MAX_FRAME: u32 = 16_777_216;

/// The four bytes of a number, most significant first.
pub open spec fn be_bytes(n: u32) -> Seq<u8> {
    seq![
        (n / 0x100_0000) as u8,
        (n / 0x1_0000 % 0x100) as u8,
        (n / 0x100 % 0x100) as u8,
        (n % 0x100) as u8,
    ]
}

/// The number that four bytes stand for, most significant first.
pub open spec fn be_value(b: Seq<u8>) -> int {
    b[0] * 0x100_0000 + b[1] * 0x1_0000 + b[2] * 0x100 + b[3]
}

/// A number is what its bytes stand for.
proof fn lemma_be_round_trip(n: u32)
    ensures
        be_value(be_bytes(n)) == n,
{
}

/// What came of reading the four bytes of a length.
pub enum HeaderRead {
    /// They were read.
    Full([u8; 4]),
    /// The peer closed the connection first.
    Eof,
    /// Reading failed, with this message.
    Failed(String),
}

/// The message for a payload that is too long.
pub open spec fn too_large(len: int) -> Seq<char> {
    "frame too large: "@ + decimal(len as nat) + " bytes"@
}

/// The length of the payload that follows, `None` where there is no further
/// frame, or why the connection has to end.
pub fn payload_len(read: HeaderRead) -> (result: Result<Option<u32>, String>)
    ensures
        match read {
            HeaderRead::Eof => result matches Ok(None),
            HeaderRead::Failed(m) => result matches Err(e) && e@ == m@,
            HeaderRead::Full(header) => if be_value(header@) <= MAX_FRAME {
                result matches Ok(Some(len)) && len == be_value(header@)
            } else {
                result matches Err(e) && e@ == too_large(be_value(header@))
            },
        },
{
    match read {
        HeaderRead::Eof => Ok(None),
        HeaderRead::Failed(m) => Err(m),
        HeaderRead::Full(h) => {
            let len: u32 = h[0] as u32 * 0x100_0000 + h[1] as u32 * 0x1_0000 + h[2] as u32 * 0x100
                + h[3] as u32;
            if len > MAX_FRAME {
                let mut text = "frame too large: ".to_string();
                text.append(decimal_text(len as u64).as_str());
                text.append(" bytes");
                return Err(text);
            }
            Ok(Some(len))
        },
    }
}

/// The four bytes that go before a payload of `len` bytes. Of a length past
/// 32 bits the lower 32 are kept.
pub fn header(len: usize) -> (bytes: [u8; 4])
    ensures
        bytes@ == be_bytes((len as int % 0x1_0000_0000) as u32),
{
    let n: u64 = len as u64 % 0x1_0000_0000;
    let a: u8 = (n / 0x100_0000) as u8;
    let b: u8 = (n / 0x1_0000 % 0x100) as u8;
    let c: u8 = (n / 0x100 % 0x100) as u8;
    let d: u8 = (n % 0x100) as u8;
    let bytes = [a, b, c, d];
    assert(bytes@ =~= be_bytes((len as int % 0x1_0000_0000) as u32));
    bytes
}

/// The frame around a payload.
pub open spec fn framed(payload: Seq<u8>) -> Seq<u8> {
    be_bytes((payload.len() as int % 0x1_0000_0000) as u32) + payload
}

/// The frame around a payload.
pub fn frame(payload: &Vec<u8>) -> (bytes: Vec<u8>)
    ensures
        bytes@ == framed(payload@),
{
    let head = header(payload.len());
    let mut bytes: Vec<u8> = Vec::new();
    bytes.push(head[0]);
    bytes.push(head[1]);
    bytes.push(head[2]);
    bytes.push(head[3]);
    let mut body = payload.clone();
    assert(body@ =~= payload@);
    bytes.append(&mut body);
    assert(bytes@ =~= framed(payload@));
    bytes
}

/// What is framed is read back: of a payload that is not too long, the first
/// four bytes of its frame give its length, and the rest is the payload.
pub proof fn law_frame_round_trip(payload: Seq<u8>)
    requires
        payload.len() <= MAX_FRAME,
    ensures
        framed(payload).len() == payload.len() + 4,
        be_value(framed(payload).take(4)) == payload.len(),
        framed(payload).skip(4) == payload,
{
    let n = (payload.len() as int % 0x1_0000_0000) as u32;
    lemma_be_round_trip(n);
    assert(framed(payload).take(4) =~= be_bytes(n));
    assert(framed(payload).skip(4) =~= payload);
}

/// A frame is four bytes with the length of the payload, the most significant
/// first, and the payload, byte for byte.
pub proof fn law_frame_layout(payload: &Vec<u8>, bytes: Vec<u8>)
    requires
        call_ensures(frame, (payload,), bytes),
        payload@.len() < 0x1_0000_0000,
    ensures
        bytes@.len() == 4 + payload@.len(),
        bytes@[0] * 256 * 256 * 256 + bytes@[1] * 256 * 256 + bytes@[2] * 256 + bytes@[3]
            == payload@.len(),
        forall|i: int| #![trigger payload@[i]]
            0 <= i < payload@.len() ==> bytes@[4 + i] == payload@[i],
{
    let n = (payload@.len() as int % 0x1_0000_0000) as u32;
    lemma_be_round_trip(n);
    assert(bytes@.take(4) =~= be_bytes(n));
    assert(bytes@[0] == be_bytes(n)[0] && bytes@[1] == be_bytes(n)[1]);
    assert(bytes@[2] == be_bytes(n)[2] && bytes@[3] == be_bytes(n)[3]);
}

/// The header of a payload is what its frame begins with.
pub proof fn law_header_is_the_length(len: usize, bytes: [u8; 4])
    requires
        call_ensures(header, (len,), bytes),
        len < 0x1_0000_0000,
    ensures
        bytes@.len() == 4,
        bytes@[0] * 256 * 256 * 256 + bytes@[1] * 256 * 256 + bytes@[2] * 256 + bytes@[3] == len,
{
    lemma_be_round_trip((len as int % 0x1_0000_0000) as u32);
}

/// Four bytes announce a payload of the number that they stand for, the most
/// significant first, unless that is more than 16 MiB: then they are refused with
/// the number in the message.
pub proof fn law_announced_length(head: [u8; 4], result: Result<Option<u32>, String>)
    requires
        call_ensures(payload_len, (HeaderRead::Full(head),), result),
    ensures
        ({
            let n = head@[0] * 256 * 256 * 256 + head@[1] * 256 * 256 + head@[2] * 256 + head@[3];
            if n <= 16 * 1024 * 1024 {
                result matches Ok(Some(len)) && len == n
            } else {
                result matches Err(m) && exists|digits: Seq<char>| #[trigger]
                    stands_for(digits, n) && m@ == "frame too large: "@ + digits + " bytes"@
            }
        }),
{
    lemma_decimal_int_stands(be_value(head@));
}

/// The end of a connection between frames is no error; a failure to read is, with
/// its own message.
pub proof fn law_end_of_frames(message: String, result: Result<Option<u32>, String>, failed: Result<
    Option<u32>,
    String,
>)
    requires
        call_ensures(payload_len, (HeaderRead::Eof,), result),
        call_ensures(payload_len, (HeaderRead::Failed(message),), failed),
    ensures
        result matches Ok(None),
        failed matches Err(m) && m@ == message@,
{
}

/// What was framed is announced with its own length.
pub proof fn law_framed_payload_is_announced(
    payload: &Vec<u8>,
    bytes: Vec<u8>,
    head: [u8; 4],
    result: Result<Option<u32>, String>,
)
    requires
        call_ensures(frame, (payload,), bytes),
        head@ == bytes@.take(4),
        call_ensures(payload_len, (HeaderRead::Full(head),), result),
        payload@.len() <= 16 * 1024 * 1024,
    ensures
        result matches Ok(Some(len)) && len == payload@.len() && bytes@.skip(4) == payload@,
{
    law_frame_round_trip(payload@);
}

} // verus!
