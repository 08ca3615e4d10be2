//! The wire codec: a self-describing binary record for a frame (big-endian
//! width and height followed by the raw pixel bytes) and the length-prefix
//! framing envelope written to and read from the socket.

use vstd::prelude::*;

use crate::screen::Frame;

verus! {

/// The TCP port a stream server listens on and a client connects to: the
/// one externally meaningful constant, stable so that independently built
/// server and client instances interoperate.
pub const STREAM_PORT: u16 = 9041;

/// The unsigned 32-bit value four big-endian bytes spell.
pub open spec fn be32(b0: u8, b1: u8, b2: u8, b3: u8) -> u32 {
    ((b0 as u32) << 24) | ((b1 as u32) << 16) | ((b2 as u32) << 8) | (b3 as u32)
}

/// The four big-endian bytes of an unsigned 32-bit value.
pub open spec fn be_bytes(n: u32) -> Seq<u8> {
    seq![
        ((n >> 24) & 0xff) as u8,
        ((n >> 16) & 0xff) as u8,
        ((n >> 8) & 0xff) as u8,
        (n & 0xff) as u8,
    ]
}

/// Spelling a value in big-endian bytes and reading them back is the
/// identity.
pub proof fn lemma_be32_round_trip(n: u32)
    ensures
        be32(be_bytes(n)[0], be_bytes(n)[1], be_bytes(n)[2], be_bytes(n)[3]) == n,
{
    assert(((((n >> 24) & 0xff) as u8 as u32) << 24) | ((((n >> 16) & 0xff) as u8 as u32) << 16)
        | ((((n >> 8) & 0xff) as u8 as u32) << 8) | (((n & 0xff) as u8) as u32) == n)
        by (bit_vector);
}

/// The encoded form of a frame: width and height, each as four big-endian
/// bytes, followed by the pixel bytes.
pub open spec fn encode_bytes(width: u32, height: u32, data: Seq<u8>) -> Seq<u8> {
    be_bytes(width) + be_bytes(height) + data
}

/// What a byte string decodes to: the dimensions and pixel bytes, provided
/// the header is complete and the pixel section has exactly the byte count
/// the dimensions call for.
pub open spec fn decode_spec(b: Seq<u8>) -> Option<(u32, u32, Seq<u8>)> {
    if b.len() < 8 {
        None
    } else {
        let w = be32(b[0], b[1], b[2], b[3]);
        let h = be32(b[4], b[5], b[6], b[7]);
        if b.len() - 8 == w as int * h as int * 4 {
            Some((w, h, b.subrange(8, b.len() as int)))
        } else {
            None
        }
    }
}

/// Why a payload failed to decode: too short to hold the header, or a pixel
/// section whose length contradicts the dimensions in the header.
#[derive(Debug, Clone, Copy, PartialEq, Eq, Structural)]
pub enum DecodeError {
    Truncated,
    LengthMismatch,
}

/// Why a length-prefixed record failed to parse: fewer bytes than its
/// prefix announces (or no complete prefix at all), or a payload that does
/// not decode.
#[derive(Debug, Clone, Copy, PartialEq, Eq, Structural)]
pub enum RecordError {
    Truncated,
    Malformed,
}

/// Reads four big-endian bytes at `off`.
fn read_be32(b: &[u8], off: usize) -> (r: u32)
    requires
        off + 4 <= b@.len(),
    ensures
        r == be32(b@[off as int], b@[off as int + 1], b@[off as int + 2], b@[off as int + 3]),
{
    ((b[off] as u32) << 24) | ((b[off + 1] as u32) << 16) | ((b[off + 2] as u32) << 8)
        | (b[off + 3] as u32)
}

/// Appends the four big-endian bytes of `n`.
fn push_be32(out: &mut Vec<u8>, n: u32)
    ensures
        final(out)@ == old(out)@ + be_bytes(n),
{
    out.push(((n >> 24) & 0xff) as u8);
    out.push(((n >> 16) & 0xff) as u8);
    out.push(((n >> 8) & 0xff) as u8);
    out.push((n & 0xff) as u8);
    assert(final(out)@ =~= old(out)@ + be_bytes(n));
}

/// Serializes a frame into its self-describing record. Total: every frame
/// is representable, the zero-dimension end-of-stream sentinel included.
pub fn encode(frame: &Frame) -> (r: Vec<u8>)
    ensures
        r@ == encode_bytes(frame.width, frame.height, frame.data@),
{
    let mut out: Vec<u8> = Vec::new();
    push_be32(&mut out, frame.width);
    push_be32(&mut out, frame.height);
    let mut i: usize = 0;
    let n = frame.data.len();
    while i < n
        invariant
            n == frame.data@.len(),
            i <= n,
            out@ == be_bytes(frame.width) + be_bytes(frame.height) + frame.data@.take(i as int),
        decreases n - i,
    {
        out.push(frame.data[i]);
        assert(out@ =~= be_bytes(frame.width) + be_bytes(frame.height)
            + frame.data@.take(i as int + 1));
        i = i + 1;
    }
    assert(out@ =~= encode_bytes(frame.width, frame.height, frame.data@));
    out
}

/// Deserializes a record produced by `encode`, rejecting truncated or
/// malformed input instead of panicking. Succeeds exactly when the bytes
/// are a complete record, and then returns exactly the encoded frame.
pub fn decode(bytes: &[u8]) -> (r: Result<Frame, DecodeError>)
    ensures
        match r {
            Ok(f) => decode_spec(bytes@) == Some((f.width, f.height, f.data@)) && f.wf(),
            Err(DecodeError::Truncated) => bytes@.len() < 8,
            Err(DecodeError::LengthMismatch) => bytes@.len() >= 8 && decode_spec(bytes@) is None,
        },
        r is Ok <==> decode_spec(bytes@) is Some,
{
    if bytes.len() < 8 {
        return Err(DecodeError::Truncated);
    }
    let width = read_be32(bytes, 0);
    let height = read_be32(bytes, 4);
    proof {
        assert(width as int * height as int <= 0xffff_ffff * 0xffff_ffff) by (nonlinear_arith)
            requires
                0 <= width as int <= 0xffff_ffff,
                0 <= height as int <= 0xffff_ffff,
        ;
    }
    let expected: u128 = (width as u128) * (height as u128) * 4;
    if (bytes.len() - 8) as u128 != expected {
        return Err(DecodeError::LengthMismatch);
    }
    let mut data: Vec<u8> = Vec::new();
    let n = bytes.len();
    let mut i: usize = 8;
    while i < n
        invariant
            8 <= i <= n,
            n == bytes@.len(),
            data@ == bytes@.subrange(8, i as int),
        decreases n - i,
    {
        data.push(bytes[i]);
        assert(data@ =~= bytes@.subrange(8, i as int + 1));
        i = i + 1;
    }
    let f = Frame { data, width, height };
    assert(f.data@ =~= bytes@.subrange(8, bytes@.len() as int));
    Ok(f)
}

/// The full on-the-wire record: a four-byte big-endian length prefix equal
/// to the encoded payload's byte count, then the payload.
pub open spec fn record_bytes(width: u32, height: u32, data: Seq<u8>) -> Seq<u8> {
    be_bytes((8 + data.len()) as u32) + encode_bytes(width, height, data)
}

/// Wraps `encode` with the length-prefix envelope; this is the unit written
/// to the socket. The frame must fit a 32-bit length prefix.
pub fn frame_record(frame: &Frame) -> (r: Vec<u8>)
    requires
        8 + frame.data@.len() <= u32::MAX,
    ensures
        r@ == record_bytes(frame.width, frame.height, frame.data@),
{
    let payload = encode(frame);
    let mut out: Vec<u8> = Vec::new();
    push_be32(&mut out, payload.len() as u32);
    let mut i: usize = 0;
    let n = payload.len();
    while i < n
        invariant
            n == payload@.len(),
            i <= n,
            out@ == be_bytes(n as u32) + payload@.take(i as int),
        decreases n - i,
    {
        out.push(payload[i]);
        assert(out@ =~= be_bytes(n as u32) + payload@.take(i as int + 1));
        i = i + 1;
    }
    assert(out@ =~= record_bytes(frame.width, frame.height, frame.data@));
    out
}

/// Parses one length-prefixed record off the front of `bytes`: on success
/// the decoded frame and how many bytes the record occupied. A prefix that
/// announces more bytes than follow is reported as truncation, never a
/// panic.
pub fn decode_record(bytes: &[u8]) -> (r: Result<(Frame, usize), RecordError>)
    ensures
        match r {
            Ok((f, used)) => {
                &&& bytes@.len() >= 4
                &&& used == 4 + be32(bytes@[0], bytes@[1], bytes@[2], bytes@[3]) as int
                &&& used <= bytes@.len()
                &&& decode_spec(bytes@.subrange(4, used as int))
                    == Some((f.width, f.height, f.data@))
                &&& f.wf()
            },
            Err(RecordError::Truncated) => bytes@.len() < 4 || bytes@.len()
                < 4 + be32(bytes@[0], bytes@[1], bytes@[2], bytes@[3]) as int,
            Err(RecordError::Malformed) => {
                &&& bytes@.len() >= 4 + be32(bytes@[0], bytes@[1], bytes@[2], bytes@[3]) as int
                &&& decode_spec(bytes@.subrange(
                    4,
                    4 + be32(bytes@[0], bytes@[1], bytes@[2], bytes@[3]) as int,
                )) is None
            },
        },
{
    if bytes.len() < 4 {
        return Err(RecordError::Truncated);
    }
    let n = read_be32(bytes, 0) as usize;
    if bytes.len() - 4 < n {
        return Err(RecordError::Truncated);
    }
    let payload = &bytes[4..4 + n];
    match decode(payload) {
        Ok(f) => Ok((f, 4 + n)),
        Err(_) => Err(RecordError::Malformed),
    }
}

/// Wire round-trip: decoding an encoded frame yields exactly that frame,
/// the zero-dimension end-of-stream sentinel included.
pub proof fn lemma_wire_round_trip(width: u32, height: u32, data: Seq<u8>)
    requires
        data.len() == width as int * height as int * 4,
    ensures
        decode_spec(encode_bytes(width, height, data)) == Some((width, height, data)),
{
    let e = encode_bytes(width, height, data);
    lemma_be32_round_trip(width);
    lemma_be32_round_trip(height);
    assert(e[0] == be_bytes(width)[0] && e[1] == be_bytes(width)[1] && e[2] == be_bytes(width)[2]
        && e[3] == be_bytes(width)[3]);
    assert(e[4] == be_bytes(height)[0] && e[5] == be_bytes(height)[1]
        && e[6] == be_bytes(height)[2] && e[7] == be_bytes(height)[3]);
    assert(e.subrange(8, e.len() as int) =~= data);
}

/// Reading four bytes as a big-endian value and spelling that value back
/// yields the same four bytes.
pub proof fn lemma_be32_canonical(b0: u8, b1: u8, b2: u8, b3: u8)
    ensures
        be_bytes(be32(b0, b1, b2, b3)) == seq![b0, b1, b2, b3],
{
    assert(((((b0 as u32) << 24 | (b1 as u32) << 16 | (b2 as u32) << 8 | (b3 as u32)) >> 24)
        & 0xff) as u8 == b0) by (bit_vector);
    assert(((((b0 as u32) << 24 | (b1 as u32) << 16 | (b2 as u32) << 8 | (b3 as u32)) >> 16)
        & 0xff) as u8 == b1) by (bit_vector);
    assert(((((b0 as u32) << 24 | (b1 as u32) << 16 | (b2 as u32) << 8 | (b3 as u32)) >> 8)
        & 0xff) as u8 == b2) by (bit_vector);
    assert((((b0 as u32) << 24 | (b1 as u32) << 16 | (b2 as u32) << 8 | (b3 as u32)) & 0xff) as u8
        == b3) by (bit_vector);
    assert(be_bytes(be32(b0, b1, b2, b3)) =~= seq![b0, b1, b2, b3]);
}

/// The encoding is canonical: a byte string that decodes at all is exactly
/// the encoding of what it decodes to.
pub proof fn lemma_decode_canonical(w: u32, h: u32, d: Seq<u8>, b: Seq<u8>)
    requires
        decode_spec(b) == Some((w, h, d)),
    ensures
        b == encode_bytes(w, h, d),
{
    lemma_be32_canonical(b[0], b[1], b[2], b[3]);
    lemma_be32_canonical(b[4], b[5], b[6], b[7]);
    assert(b =~= encode_bytes(w, h, d));
}

/// Framing round-trip: a record built by `frame_record` parses back to the
/// frame it was built from and consumes exactly its own bytes.
pub proof fn lemma_record_round_trip(width: u32, height: u32, data: Seq<u8>)
    requires
        data.len() == width as int * height as int * 4,
        8 + data.len() <= u32::MAX,
    ensures
        ({
            let rec = record_bytes(width, height, data);
            &&& rec.len() == 12 + data.len()
            &&& be32(rec[0], rec[1], rec[2], rec[3]) == 8 + data.len()
            &&& decode_spec(rec.subrange(4, rec.len() as int)) == Some((width, height, data))
        }),
{
    let rec = record_bytes(width, height, data);
    let n = (8 + data.len()) as u32;
    lemma_be32_round_trip(n);
    assert(rec[0] == be_bytes(n)[0] && rec[1] == be_bytes(n)[1] && rec[2] == be_bytes(n)[2]
        && rec[3] == be_bytes(n)[3]);
    assert(rec.subrange(4, rec.len() as int) =~= encode_bytes(width, height, data));
    lemma_wire_round_trip(width, height, data);
}

} // verus!
