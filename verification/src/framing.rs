//! Frames on a stream connection: every message is a four-byte
//! little-endian length followed by that many bytes of body.

use vstd::prelude::*;

verus! {

/// Number of bytes of the length that precedes every body.
pub const FRAME_HEADER_LEN: usize = 4;

/// The four bytes of length `len`, least significant first.
pub open spec fn spec_header(len: int) -> Seq<u8> {
    seq![
        (len % 256) as u8,
        (len / 256 % 256) as u8,
        (len / 256 / 256 % 256) as u8,
        (len / 256 / 256 / 256 % 256) as u8,
    ]
}

/// The length that the first four bytes of `bytes` stand for.
pub open spec fn spec_length(bytes: Seq<u8>) -> int {
    bytes[0] + 256 * (bytes[1] + 256 * (bytes[2] + 256 * bytes[3]))
}

/// The frame around `body`.
pub open spec fn spec_frame(body: Seq<u8>) -> Seq<u8> {
    spec_header(body.len() as int) + body
}

/// The first frame of `bytes`: its body and the number of bytes it takes
/// up. There is none while `bytes` is shorter than a header, or shorter
/// than the header and the body it announces.
pub open spec fn spec_first_frame(bytes: Seq<u8>) -> Option<(Seq<u8>, int)> {
    if bytes.len() < 4 {
        None
    } else if bytes.len() < 4 + spec_length(bytes) {
        None
    } else {
        Some((bytes.subrange(4, 4 + spec_length(bytes)), 4 + spec_length(bytes)))
    }
}

/// Header and length are inverse to each other: the header of a length
/// that fits in four bytes stands for that length, and four bytes are the
/// header of the length they stand for.
pub proof fn header_round_trip(len: int, bytes: Seq<u8>)
    ensures
        0 <= len <= u32::MAX ==> spec_length(spec_header(len)) == len,
        bytes.len() == 4 ==> 0 <= spec_length(bytes) <= u32::MAX && spec_header(spec_length(bytes))
            == bytes,
{
    if 0 <= len <= u32::MAX {
        let q1 = len / 256;
        let q2 = q1 / 256;
        let q3 = q2 / 256;
        assert(len == 256 * q1 + len % 256);
        assert(q1 == 256 * q2 + q1 % 256);
        assert(q2 == 256 * q3 + q2 % 256);
        assert(0 <= q3 < 256);
        assert(q3 % 256 == q3);
        let h = spec_header(len);
        assert(h[0] == len % 256);
        assert(h[1] == q1 % 256);
        assert(h[2] == q2 % 256);
        assert(h[3] == q3);
    }
    if bytes.len() == 4 {
        let n = spec_length(bytes);
        let r2 = bytes[2] + 256 * bytes[3];
        let r1 = bytes[1] + 256 * r2;
        assert(n == bytes[0] + 256 * r1);
        assert(n % 256 == bytes[0] && n / 256 == r1);
        assert(r1 % 256 == bytes[1] && r1 / 256 == r2);
        assert(r2 % 256 == bytes[2] && r2 / 256 == bytes[3]);
        assert((bytes[3] as int) % 256 == bytes[3]);
        assert(spec_header(n) =~= bytes);
    }
}

/// Framing and reading back give the body again, whatever follows the frame
/// on the stream, and leave what follows for the next read.
pub proof fn frame_round_trip(body: Seq<u8>, rest: Seq<u8>)
    requires
        body.len() <= u32::MAX,
    ensures
        spec_first_frame(spec_frame(body) + rest) == Some((body, 4 + body.len() as int)),
        (spec_frame(body) + rest).skip(4 + body.len() as int) == rest,
{
    let stream = spec_frame(body) + rest;
    header_round_trip(body.len() as int, Seq::empty());
    assert(stream[0] == spec_header(body.len() as int)[0]);
    assert(stream[1] == spec_header(body.len() as int)[1]);
    assert(stream[2] == spec_header(body.len() as int)[2]);
    assert(stream[3] == spec_header(body.len() as int)[3]);
    assert(spec_length(stream) == body.len());
    assert(stream.subrange(4, 4 + body.len() as int) =~= body);
    assert(stream.skip(4 + body.len() as int) =~= rest);
}

/// The header for a body of `len` bytes.
pub fn frame_header(len: u32) -> (h: [u8; 4])
    ensures
        h@ == spec_header(len as int),
{
    let h: [u8; 4] = [
        (len % 256) as u8,
        (len / 256 % 256) as u8,
        (len / 256 / 256 % 256) as u8,
        (len / 256 / 256 / 256 % 256) as u8,
    ];
    assert(h@ =~= spec_header(len as int));
    h
}

/// The body length a header announces.
pub fn frame_length(header: &[u8; 4]) -> (len: u32)
    ensures
        len == spec_length(header@),
{
    let high: u32 = (header[2] as u32) + 256 * (header[3] as u32);
    let middle: u32 = (header[1] as u32) + 256 * high;
    (header[0] as u32) + 256 * middle
}

/// Puts `body` in a frame. A body too long for a four-byte length cannot be
/// framed.
pub fn encode_frame(body: &Vec<u8>) -> (r: Option<Vec<u8>>)
    ensures
        body@.len() <= u32::MAX ==> r.is_some() && r.unwrap()@ == spec_frame(body@),
        body@.len() > u32::MAX ==> r.is_none(),
{
    if body.len() > u32::MAX as usize {
        return None;
    }
    let header = frame_header(body.len() as u32);
    let mut frame: Vec<u8> = Vec::new();
    frame.push(header[0]);
    frame.push(header[1]);
    frame.push(header[2]);
    frame.push(header[3]);
    assert(frame@ =~= spec_header(body@.len() as int));
    let mut k: usize = 0;
    while k < body.len()
        invariant
            k <= body@.len(),
            frame@ == spec_header(body@.len() as int) + body@.take(k as int),
        decreases body@.len() - k,
    {
        frame.push(body[k]);
        assert(body@.take(k + 1) =~= body@.take(k as int).push(body@[k as int]));
        k = k + 1;
    }
    assert(body@.take(body@.len() as int) =~= body@);
    Some(frame)
}

/// Reads the first frame of `bytes`: its body, and how many bytes of
/// `bytes` it took. Nothing is read while the frame is not complete.
pub fn decode_frame(bytes: &Vec<u8>) -> (r: Option<(Vec<u8>, usize)>)
    ensures
        r.is_some() == spec_first_frame(bytes@).is_some(),
        r matches Some((body, used)) ==> spec_first_frame(bytes@) == Some((body@, used as int)),
{
    if bytes.len() < FRAME_HEADER_LEN {
        return None;
    }
    let header: [u8; 4] = [bytes[0], bytes[1], bytes[2], bytes[3]];
    let len: u32 = frame_length(&header);
    assert(spec_length(bytes@) == len);
    let available: u64 = (bytes.len() - FRAME_HEADER_LEN) as u64;
    if available < (len as u64) {
        return None;
    }
    let end: usize = FRAME_HEADER_LEN + len as usize;
    let mut body: Vec<u8> = Vec::new();
    let mut k: usize = FRAME_HEADER_LEN;
    while k < end
        invariant
            4 <= k <= end <= bytes@.len(),
            body@ == bytes@.subrange(4, k as int),
        decreases end - k,
    {
        body.push(bytes[k]);
        assert(bytes@.subrange(4, k + 1) =~= bytes@.subrange(4, k as int).push(bytes@[k as int]));
        k = k + 1;
    }
    Some((body, end))
}

} // verus!
