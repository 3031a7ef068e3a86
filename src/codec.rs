//! One message frame: a compression flag, a four-byte big-endian length, and
//! the serialized payload.
use vstd::prelude::*;

verus! {

/// Why a payload could not be framed.
#[derive(Clone, Copy, Debug, PartialEq, Eq, Structural)]
pub enum EncodeError {
    SerializationFailed,
    LengthExceeded,
}

/// Why no frame came out of a buffer. `Incomplete` only asks for more bytes.
#[derive(Clone, Copy, Debug, PartialEq, Eq, Structural)]
pub enum FrameDecodeError {
    Incomplete,
    Corrupt,
    LengthExceeded,
}

/// The number that four bytes write, most significant first.
pub open spec fn be32_value(b0: u8, b1: u8, b2: u8, b3: u8) -> int {
    b0 * 16777216 + b1 * 65536 + b2 * 256 + b3
}

/// The four bytes of `n`, most significant first.
#[verifier::opaque]
pub open spec fn be32_bytes(n: int) -> Seq<u8> {
    seq![
        (n / 16777216) as u8,
        ((n / 65536) % 256) as u8,
        ((n / 256) % 256) as u8,
        (n % 256) as u8,
    ]
}

/// The frame that carries `payload` uncompressed.
pub open spec fn frame_bytes(payload: Seq<u8>) -> Seq<u8> {
    seq![0u8] + be32_bytes(payload.len() as int) + payload
}

/// What the start of a buffer holds.
pub enum FrameParse {
    /// A whole frame, with its payload and the number of bytes it takes.
    Frame(Seq<u8>, nat),
    Error(FrameDecodeError),
}

/// The payload length that a buffer's header declares.
pub open spec fn declared_len(buf: Seq<u8>) -> int {
    be32_value(buf[1], buf[2], buf[3], buf[4])
}

/// How the first frame of `buf` reads, with payloads up to `max_len` bytes.
pub open spec fn parse_frame(buf: Seq<u8>, max_len: nat) -> FrameParse {
    if buf.len() < 5 {
        FrameParse::Error(FrameDecodeError::Incomplete)
    } else if buf[0] != 0 {
        FrameParse::Error(FrameDecodeError::Corrupt)
    } else if declared_len(buf) > max_len {
        FrameParse::Error(FrameDecodeError::LengthExceeded)
    } else if buf.len() < 5 + declared_len(buf) {
        FrameParse::Error(FrameDecodeError::Incomplete)
    } else {
        FrameParse::Frame(
            buf.subrange(5, 5 + declared_len(buf)),
            (5 + declared_len(buf)) as nat,
        )
    }
}

proof fn lemma_be32_round_trip(n: int)
    requires
        0 <= n < 0x1_0000_0000,
    ensures
        be32_value(be32_bytes(n)[0], be32_bytes(n)[1], be32_bytes(n)[2], be32_bytes(n)[3]) == n,
        be32_bytes(n).len() == 4,
{
    reveal(be32_bytes);
    let a = n / 16777216;
    let b = (n / 65536) % 256;
    let c = (n / 256) % 256;
    let d = n % 256;
    assert(n == a * 16777216 + b * 65536 + c * 256 + d) by (nonlinear_arith)
        requires
            0 <= n < 0x1_0000_0000,
            a == n / 16777216,
            b == (n / 65536) % 256,
            c == (n / 256) % 256,
            d == n % 256,
    ;
    assert(0 <= a < 256) by (nonlinear_arith)
        requires
            0 <= n < 0x1_0000_0000,
            a == n / 16777216,
    ;
}

/// Reading back a frame gives its payload, whatever follows it.
pub proof fn lemma_frame_round_trip(payload: Seq<u8>, rest: Seq<u8>, max_len: nat)
    requires
        payload.len() <= max_len,
        payload.len() < 0x1_0000_0000,
    ensures
        parse_frame(frame_bytes(payload) + rest, max_len) == FrameParse::Frame(
            payload,
            (5 + payload.len()) as nat,
        ),
        frame_bytes(payload).len() == 5 + payload.len(),
{
    let buf = frame_bytes(payload) + rest;
    lemma_be32_round_trip(payload.len() as int);
    assert(declared_len(buf) == payload.len());
    assert(buf.subrange(5, 5 + payload.len() as int) =~= payload);
}

/// A whole frame at the start of a buffer reads the same when more bytes follow.
pub proof fn lemma_parse_frame_extend(buf: Seq<u8>, more: Seq<u8>, max_len: nat)
    requires
        parse_frame(buf, max_len) is Frame,
    ensures
        parse_frame(buf + more, max_len) == parse_frame(buf, max_len),
{
    let x = buf + more;
    assert(x[0] == buf[0] && x[1] == buf[1] && x[2] == buf[2] && x[3] == buf[3] && x[4] == buf[4]);
    assert(x.subrange(5, 5 + declared_len(buf)) =~= buf.subrange(5, 5 + declared_len(buf)));
}

/// Frames `payload`, refusing payloads over `max_len` bytes or over what four
/// length bytes can write.
pub fn encode_frame(payload: &[u8], max_len: usize) -> (r: Result<Vec<u8>, EncodeError>)
    ensures
        payload@.len() <= max_len && payload@.len() < 0x1_0000_0000 ==> (r matches Ok(
            v,
        ) && v@ == frame_bytes(payload@)),
        !(payload@.len() <= max_len && payload@.len() < 0x1_0000_0000) ==> r == Err::<
            Vec<u8>,
            EncodeError,
        >(EncodeError::LengthExceeded),
{
    let n = payload.len();
    if n > max_len || n as u64 >= 0x1_0000_0000u64 {
        return Err(EncodeError::LengthExceeded);
    }
    let n64 = n as u64;
    proof {
        reveal(be32_bytes);
    }
    let mut out: Vec<u8> = Vec::new();
    out.push(0u8);
    out.push((n64 / 16777216) as u8);
    out.push(((n64 / 65536) % 256) as u8);
    out.push(((n64 / 256) % 256) as u8);
    out.push((n64 % 256) as u8);
    let mut i: usize = 0;
    while i < n
        invariant
            i <= n,
            n == payload.len(),
            out@ == seq![0u8] + be32_bytes(n as int) + payload@.subrange(0, i as int),
        decreases n - i,
    {
        out.push(payload[i]);
        assert(payload@.subrange(0, i + 1) =~= payload@.subrange(0, i as int).push(payload@[i as int]));
        assert(out@ =~= seq![0u8] + be32_bytes(n as int) + payload@.subrange(0, i + 1));
        i += 1;
    }
    assert(payload@.subrange(0, n as int) =~= payload@);
    Ok(out)
}

/// Reads the first frame of `buf`: its payload and the number of bytes it
/// takes, or why there is none yet.
pub fn decode_frame(buf: &[u8], max_len: usize) -> (r: Result<(Vec<u8>, usize), FrameDecodeError>)
    ensures
        match parse_frame(buf@, max_len as nat) {
            FrameParse::Frame(p, n) => r matches Ok((v, k)) && v@ == p && k == n,
            FrameParse::Error(e) => r == Err::<(Vec<u8>, usize), FrameDecodeError>(e),
        },
{
    if buf.len() < 5 {
        return Err(FrameDecodeError::Incomplete);
    }
    if buf[0] != 0 {
        return Err(FrameDecodeError::Corrupt);
    }
    let len: u64 = (buf[1] as u64) * 16777216 + (buf[2] as u64) * 65536 + (buf[3] as u64) * 256
        + (buf[4] as u64);
    if len > max_len as u64 {
        return Err(FrameDecodeError::LengthExceeded);
    }
    let len = len as usize;
    if buf.len() - 5 < len {
        return Err(FrameDecodeError::Incomplete);
    }
    let mut payload: Vec<u8> = Vec::new();
    let mut i: usize = 0;
    while i < len
        invariant
            i <= len,
            5 + len <= buf.len(),
            payload@ == buf@.subrange(5, 5 + i),
        decreases len - i,
    {
        payload.push(buf[5 + i]);
        assert(payload@ =~= buf@.subrange(5, 5 + i + 1));
        i += 1;
    }
    Ok((payload, 5 + len))
}

} // verus!

verus! {

/// A copy of `v[lo..hi]`.
pub(crate) fn copy_range(v: &[u8], lo: usize, hi: usize) -> (r: Vec<u8>)
    requires
        lo <= hi <= v@.len(),
    ensures
        r@ == v@.subrange(lo as int, hi as int),
{
    let mut out: Vec<u8> = Vec::new();
    let mut i: usize = lo;
    while i < hi
        invariant
            lo <= i <= hi,
            hi <= v@.len(),
            out@ == v@.subrange(lo as int, i as int),
        decreases hi - i,
    {
        out.push(v[i]);
        assert(out@ =~= v@.subrange(lo as int, i + 1));
        i += 1;
    }
    out
}

} // verus!
