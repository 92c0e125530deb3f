//! Wire framing of one file packet, all integers big-endian:
//! `[u32 header_len][header][u32 filename_len][filename][u64 payload_len][payload]`.
use vstd::prelude::*;

verus! {

/// The four big-endian bytes of `n`.
pub open spec fn be32(n: u32) -> Seq<u8> {
    seq![
        ((n >> 24u32) & 0xffu32) as u8,
        ((n >> 16u32) & 0xffu32) as u8,
        ((n >> 8u32) & 0xffu32) as u8,
        (n & 0xffu32) as u8,
    ]
}

/// The eight big-endian bytes of `n`.
pub open spec fn be64(n: u64) -> Seq<u8> {
    seq![
        ((n >> 56u64) & 0xffu64) as u8,
        ((n >> 48u64) & 0xffu64) as u8,
        ((n >> 40u64) & 0xffu64) as u8,
        ((n >> 32u64) & 0xffu64) as u8,
        ((n >> 24u64) & 0xffu64) as u8,
        ((n >> 16u64) & 0xffu64) as u8,
        ((n >> 8u64) & 0xffu64) as u8,
        (n & 0xffu64) as u8,
    ]
}

/// The number that four big-endian bytes stand for.
pub open spec fn be32_value(b: Seq<u8>) -> u32 {
    ((b[0] as u32) << 24u32) | ((b[1] as u32) << 16u32) | ((b[2] as u32) << 8u32) | (b[3] as u32)
}

/// The number that eight big-endian bytes stand for.
pub open spec fn be64_value(b: Seq<u8>) -> u64 {
    ((b[0] as u64) << 56u64) | ((b[1] as u64) << 48u64) | ((b[2] as u64) << 40u64) | ((
    b[3] as u64) << 32u64) | ((b[4] as u64) << 24u64) | ((b[5] as u64) << 16u64) | ((
    b[6] as u64) << 8u64) | (b[7] as u64)
}

/// Reading back four big-endian bytes gives the number they were made from.
pub proof fn lemma_be32_round_trip(n: u32)
    ensures
        be32_value(be32(n)) == n,
{
    let b0 = ((n >> 24u32) & 0xffu32) as u8;
    let b1 = ((n >> 16u32) & 0xffu32) as u8;
    let b2 = ((n >> 8u32) & 0xffu32) as u8;
    let b3 = (n & 0xffu32) as u8;
    assert(((b0 as u32) << 24u32) | ((b1 as u32) << 16u32) | ((b2 as u32) << 8u32) | (b3 as u32)
        == n) by (bit_vector)
        requires
            b0 == ((n >> 24u32) & 0xffu32) as u8,
            b1 == ((n >> 16u32) & 0xffu32) as u8,
            b2 == ((n >> 8u32) & 0xffu32) as u8,
            b3 == (n & 0xffu32) as u8,
    ;
}

/// Reading back eight big-endian bytes gives the number they were made from.
pub proof fn lemma_be64_round_trip(n: u64)
    ensures
        be64_value(be64(n)) == n,
{
    let b0 = ((n >> 56u64) & 0xffu64) as u8;
    let b1 = ((n >> 48u64) & 0xffu64) as u8;
    let b2 = ((n >> 40u64) & 0xffu64) as u8;
    let b3 = ((n >> 32u64) & 0xffu64) as u8;
    let b4 = ((n >> 24u64) & 0xffu64) as u8;
    let b5 = ((n >> 16u64) & 0xffu64) as u8;
    let b6 = ((n >> 8u64) & 0xffu64) as u8;
    let b7 = (n & 0xffu64) as u8;
    assert(((b0 as u64) << 56u64) | ((b1 as u64) << 48u64) | ((b2 as u64) << 40u64) | ((
    b3 as u64) << 32u64) | ((b4 as u64) << 24u64) | ((b5 as u64) << 16u64) | ((b6 as u64)
        << 8u64) | (b7 as u64) == n) by (bit_vector)
        requires
            b0 == ((n >> 56u64) & 0xffu64) as u8,
            b1 == ((n >> 48u64) & 0xffu64) as u8,
            b2 == ((n >> 40u64) & 0xffu64) as u8,
            b3 == ((n >> 32u64) & 0xffu64) as u8,
            b4 == ((n >> 24u64) & 0xffu64) as u8,
            b5 == ((n >> 16u64) & 0xffu64) as u8,
            b6 == ((n >> 8u64) & 0xffu64) as u8,
            b7 == (n & 0xffu64) as u8,
    ;
}

/// Appends the four big-endian bytes of `n`.
pub fn push_be32(out: &mut Vec<u8>, n: u32)
    ensures
        final(out)@ == old(out)@ + be32(n),
{
    out.push(((n >> 24u32) & 0xffu32) as u8);
    out.push(((n >> 16u32) & 0xffu32) as u8);
    out.push(((n >> 8u32) & 0xffu32) as u8);
    out.push((n & 0xffu32) as u8);
    assert(final(out)@ =~= old(out)@ + be32(n));
}

/// Appends the eight big-endian bytes of `n`.
pub fn push_be64(out: &mut Vec<u8>, n: u64)
    ensures
        final(out)@ == old(out)@ + be64(n),
{
    out.push(((n >> 56u64) & 0xffu64) as u8);
    out.push(((n >> 48u64) & 0xffu64) as u8);
    out.push(((n >> 40u64) & 0xffu64) as u8);
    out.push(((n >> 32u64) & 0xffu64) as u8);
    out.push(((n >> 24u64) & 0xffu64) as u8);
    out.push(((n >> 16u64) & 0xffu64) as u8);
    out.push(((n >> 8u64) & 0xffu64) as u8);
    out.push((n & 0xffu64) as u8);
    assert(final(out)@ =~= old(out)@ + be64(n));
}

/// Reads a big-endian `u32` from the four bytes of `b` that start at `at`.
pub fn read_be32(b: &[u8], at: usize) -> (r: u32)
    requires
        at + 4 <= b@.len(),
    ensures
        r == be32_value(b@.subrange(at as int, at + 4)),
{
    ((b[at] as u32) << 24u32) | ((b[at + 1] as u32) << 16u32) | ((b[at + 2] as u32) << 8u32) | (
    b[at + 3] as u32)
}

/// Reads a big-endian `u64` from the eight bytes of `b` that start at `at`.
pub fn read_be64(b: &[u8], at: usize) -> (r: u64)
    requires
        at + 8 <= b@.len(),
    ensures
        r == be64_value(b@.subrange(at as int, at + 8)),
{
    ((b[at] as u64) << 56u64) | ((b[at + 1] as u64) << 48u64) | ((b[at + 2] as u64) << 40u64)
        | ((b[at + 3] as u64) << 32u64) | ((b[at + 4] as u64) << 24u64) | ((b[at + 5] as u64)
        << 16u64) | ((b[at + 6] as u64) << 8u64) | (b[at + 7] as u64)
}

/// Appends all of `src`.
pub fn push_all(out: &mut Vec<u8>, src: &[u8])
    ensures
        final(out)@ == old(out)@ + src@,
{
    let mut i: usize = 0;
    while i < src.len()
        invariant
            0 <= i <= src@.len(),
            out@ == old(out)@ + src@.subrange(0, i as int),
        decreases src@.len() - i,
    {
        out.push(src[i]);
        i = i + 1;
    }
    assert(src@.subrange(0, src@.len() as int) =~= src@);
}

/// The bytes of `b` in `start..end`.
pub fn copy_range(b: &[u8], start: usize, end: usize) -> (r: Vec<u8>)
    requires
        start <= end <= b@.len(),
    ensures
        r@ == b@.subrange(start as int, end as int),
{
    let mut out: Vec<u8> = Vec::new();
    let mut i: usize = start;
    while i < end
        invariant
            start <= i <= end <= b@.len(),
            out@ == b@.subrange(start as int, i as int),
        decreases end - i,
    {
        out.push(b[i]);
        i = i + 1;
    }
    out
}

/// Everything of a packet that comes before the payload.
pub open spec fn frame_prefix(header: Seq<u8>, filename: Seq<u8>, payload_len: u64) -> Seq<u8> {
    be32(header.len() as u32) + header + be32(filename.len() as u32) + filename + be64(
        payload_len,
    )
}

/// The bytes of a whole packet.
pub open spec fn frame_bytes(header: Seq<u8>, filename: Seq<u8>, payload: Seq<u8>) -> Seq<u8> {
    frame_prefix(header, filename, payload.len() as u64) + payload
}

/// What a reader takes from the front of `b`: header, filename and payload,
/// or nothing where `b` ends before the last field is complete. Bytes after the
/// payload are not read.
pub open spec fn parse_frame(b: Seq<u8>) -> Option<(Seq<u8>, Seq<u8>, Seq<u8>)> {
    if b.len() < 4 {
        None
    } else {
        let hl = be32_value(b.subrange(0, 4)) as int;
        if b.len() < 8 + hl {
            None
        } else {
            let fl = be32_value(b.subrange(4 + hl, 8 + hl)) as int;
            let o = 8 + hl + fl;
            if b.len() < o + 8 {
                None
            } else {
                let cl = be64_value(b.subrange(o, o + 8)) as int;
                if b.len() < o + 8 + cl {
                    None
                } else {
                    Some((b.subrange(4, 4 + hl), b.subrange(8 + hl, o), b.subrange(o + 8, o + 8 + cl)))
                }
            }
        }
    }
}

/// Encoding a packet and reading it back gives its header, filename and
/// payload exactly, whatever follows it in the stream.
pub proof fn lemma_frame_round_trip(
    header: Seq<u8>,
    filename: Seq<u8>,
    payload: Seq<u8>,
    rest: Seq<u8>,
)
    requires
        header.len() <= u32::MAX,
        filename.len() <= u32::MAX,
        payload.len() <= u64::MAX,
    ensures
        parse_frame(frame_bytes(header, filename, payload) + rest) == Some((header, filename, payload)),
{
    let b = frame_bytes(header, filename, payload) + rest;
    let hl = header.len() as int;
    let fl = filename.len() as int;
    let o = 8 + hl + fl;
    lemma_be32_round_trip(header.len() as u32);
    lemma_be32_round_trip(filename.len() as u32);
    lemma_be64_round_trip(payload.len() as u64);
    assert(b.subrange(0, 4) =~= be32(header.len() as u32));
    assert(b.subrange(4, 4 + hl) =~= header);
    assert(b.subrange(4 + hl, 8 + hl) =~= be32(filename.len() as u32));
    assert(b.subrange(8 + hl, o) =~= filename);
    assert(b.subrange(o, o + 8) =~= be64(payload.len() as u64));
    assert(b.subrange(o + 8, o + 8 + payload.len()) =~= payload);
}

/// The three variable fields of a packet.
pub struct Frame {
    /// The encoded packet header.
    pub header: Vec<u8>,
    /// The file's name, as UTF-8 bytes.
    pub filename: Vec<u8>,
    /// The encrypted payload.
    pub payload: Vec<u8>,
}

/// Why a byte stream is not a packet.
#[derive(Debug, Clone, Copy, PartialEq, Eq, Structural)]
pub enum FrameError {
    /// The stream ended before a field was complete.
    Truncated,
}

/// Writes the fields that come before the payload, for a payload of
/// `payload_len` bytes.
pub fn encode_frame_prefix(header: &[u8], filename: &[u8], payload_len: u64) -> (r: Vec<u8>)
    requires
        header@.len() <= u32::MAX,
        filename@.len() <= u32::MAX,
    ensures
        r@ == frame_prefix(header@, filename@, payload_len),
{
    let mut out: Vec<u8> = Vec::new();
    push_be32(&mut out, header.len() as u32);
    push_all(&mut out, header);
    push_be32(&mut out, filename.len() as u32);
    push_all(&mut out, filename);
    push_be64(&mut out, payload_len);
    assert(out@ =~= frame_prefix(header@, filename@, payload_len));
    out
}

/// Writes a whole packet.
pub fn encode_frame(header: &[u8], filename: &[u8], payload: &[u8]) -> (r: Vec<u8>)
    requires
        header@.len() <= u32::MAX,
        filename@.len() <= u32::MAX,
    ensures
        r@ == frame_bytes(header@, filename@, payload@),
{
    let mut out = encode_frame_prefix(header, filename, payload.len() as u64);
    push_all(&mut out, payload);
    out
}

/// Reads one packet from the front of `bytes`.
pub fn decode_frame(bytes: &[u8]) -> (r: Result<Frame, FrameError>)
    ensures
        match r {
            Ok(f) => parse_frame(bytes@) == Some((f.header@, f.filename@, f.payload@)),
            Err(e) => parse_frame(bytes@) is None && e == FrameError::Truncated,
        },
{
    let n = bytes.len();
    if n < 4 {
        return Err(FrameError::Truncated);
    }
    let hl = read_be32(bytes, 0) as usize;
    if n < 8 || n - 8 < hl {
        return Err(FrameError::Truncated);
    }
    let fl = read_be32(bytes, 4 + hl) as usize;
    if n - 8 - hl < 8 || n - 16 - hl < fl {
        return Err(FrameError::Truncated);
    }
    let o = 8 + hl + fl;
    let cl = read_be64(bytes, o);
    if ((n - o - 8) as u64) < cl {
        return Err(FrameError::Truncated);
    }
    let end = o + 8 + cl as usize;
    let header = copy_range(bytes, 4, 4 + hl);
    let filename = copy_range(bytes, 8 + hl, o);
    let payload = copy_range(bytes, o + 8, end);
    Ok(Frame { header, filename, payload })
}

/// Writes the packet `frame` under another header: what a relay sends on.
pub fn reframe(header: &[u8], frame: &Frame) -> (r: Vec<u8>)
    requires
        header@.len() <= u32::MAX,
        frame.filename@.len() <= u32::MAX,
    ensures
        r@ == frame_bytes(header@, frame.filename@, frame.payload@),
{
    encode_frame(header, &frame.filename, &frame.payload)
}

/// A relay changes only the header: reading a packet, writing its filename
/// and payload under a new header, and reading that back gives the new header
/// with the filename, size and payload of the packet that came in.
pub proof fn lemma_relay_keeps_payload(incoming: Seq<u8>, new_header: Seq<u8>)
    requires
        parse_frame(incoming) is Some,
        new_header.len() <= u32::MAX,
    ensures
        ({
            let (h, f, c) = parse_frame(incoming)->0;
            parse_frame(frame_bytes(new_header, f, c)) == Some((new_header, f, c))
        }),
{
    let (h, f, c) = parse_frame(incoming)->0;
    let hl = be32_value(incoming.subrange(0, 4)) as int;
    let fl = be32_value(incoming.subrange(4 + hl, 8 + hl)) as int;
    assert(f.len() == fl);
    assert(fl <= u32::MAX);
    assert(c.len() <= u64::MAX);
    lemma_frame_round_trip(new_header, f, c, Seq::empty());
    assert(frame_bytes(new_header, f, c) + Seq::<u8>::empty() =~= frame_bytes(new_header, f, c));
}

} // verus!
