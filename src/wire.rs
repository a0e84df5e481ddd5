//! Framing of messages between nodes: a 4-byte big-endian length, then the
//! payload.
use vstd::prelude::*;

verus! {

/// Largest payload a frame may carry.
pub const MAX_FRAME_LEN: usize = 1048576;

/// Bytes of the length prefix.
pub const HEADER_LEN: usize = 4;

/// The 4-byte big-endian form of `n`, for `n` below 2^32.
pub open spec fn be32(n: nat) -> Seq<u8> {
    seq![(n / 16777216) as u8, (n / 65536 % 256) as u8, (n / 256 % 256) as u8, (n % 256) as u8]
}

/// The value of a 4-byte big-endian prefix.
pub open spec fn be32_value(b: Seq<u8>) -> nat {
    (b[0] as nat) * 16777216 + (b[1] as nat) * 65536 + (b[2] as nat) * 256 + (b[3] as nat)
}

/// A frame around `payload`.
pub open spec fn framed(payload: Seq<u8>) -> Seq<u8> {
    be32(payload.len()) + payload
}

/// What a receive buffer holds, as far as framing goes.
pub enum FrameSpec {
    Incomplete,
    TooLarge,
    Complete(Seq<u8>),
}

/// Reads a receive buffer: fewer bytes than the prefix and its payload need is
/// incomplete; a prefix above `MAX_FRAME_LEN` is too large; else the payload
/// that the prefix announces (bytes after it are ignored).
pub open spec fn frame_spec(buf: Seq<u8>) -> FrameSpec {
    if buf.len() < HEADER_LEN {
        FrameSpec::Incomplete
    } else if be32_value(buf) > MAX_FRAME_LEN {
        FrameSpec::TooLarge
    } else if buf.len() < HEADER_LEN + be32_value(buf) {
        FrameSpec::Incomplete
    } else {
        FrameSpec::Complete(buf.subrange(HEADER_LEN as int, HEADER_LEN + be32_value(buf)))
    }
}

/// A receive buffer, read.
#[derive(Debug, PartialEq, Eq)]
pub enum FrameStatus {
    /// More bytes are needed.
    Incomplete,
    /// The announced payload is over `MAX_FRAME_LEN`: drop the connection.
    TooLarge,
    /// The payload of the first frame.
    Complete(Vec<u8>),
}

impl View for FrameStatus {
    type V = FrameSpec;

    open spec fn view(&self) -> FrameSpec {
        match self {
            FrameStatus::Incomplete => FrameSpec::Incomplete,
            FrameStatus::TooLarge => FrameSpec::TooLarge,
            FrameStatus::Complete(p) => FrameSpec::Complete(p@),
        }
    }
}

/// Frames `payload`; `None` when it is over `MAX_FRAME_LEN`.
pub fn frame(payload: &[u8]) -> (r: Option<Vec<u8>>)
    ensures
        payload@.len() <= MAX_FRAME_LEN <==> r is Some,
        r matches Some(v) ==> v@ == framed(payload@),
{
    let n = payload.len();
    if n > MAX_FRAME_LEN {
        return None;
    }
    let mut out: Vec<u8> = Vec::new();
    out.push((n / 16777216) as u8);
    out.push((n / 65536 % 256) as u8);
    out.push((n / 256 % 256) as u8);
    out.push((n % 256) as u8);
    let mut i: usize = 0;
    while i < n
        invariant
            n == payload@.len(),
            i <= n,
            out@ == be32(n as nat) + payload@.subrange(0, i as int),
        decreases n - i,
    {
        out.push(payload[i]);
        i = i + 1;
        assert(out@ =~= be32(n as nat) + payload@.subrange(0, i as int));
    }
    assert(payload@.subrange(0, n as int) =~= payload@);
    Some(out)
}

/// Reads the first frame of a receive buffer.
pub fn parse_frame(buf: &[u8]) -> (r: FrameStatus)
    ensures
        r@ == frame_spec(buf@),
{
    if buf.len() < HEADER_LEN {
        return FrameStatus::Incomplete;
    }
    let len: u64 = (buf[0] as u64) * 16777216 + (buf[1] as u64) * 65536 + (buf[2] as u64) * 256
        + (buf[3] as u64);
    assert(len == be32_value(buf@));
    if len > MAX_FRAME_LEN as u64 {
        return FrameStatus::TooLarge;
    }
    let n = len as usize;
    if buf.len() - HEADER_LEN < n {
        return FrameStatus::Incomplete;
    }
    let blen = buf.len();
    let mut payload: Vec<u8> = Vec::new();
    let mut i: usize = 0;
    while i < n
        invariant
            blen == buf@.len() >= HEADER_LEN,
            n <= buf@.len() - HEADER_LEN,
            i <= n,
            payload@ == buf@.subrange(HEADER_LEN as int, HEADER_LEN + i),
        decreases n - i,
    {
        payload.push(buf[HEADER_LEN + i]);
        i = i + 1;
        assert(payload@ =~= buf@.subrange(HEADER_LEN as int, HEADER_LEN + i));
    }
    FrameStatus::Complete(payload)
}

/// The prefix of a frame reads back as the payload's length.
pub proof fn lemma_be32_round_trip(n: nat)
    requires
        n < 4294967296,
    ensures
        be32_value(be32(n)) == n,
{
    let b = be32(n);
    assert(b[0] as nat == n / 16777216);
    assert(b[1] as nat == n / 65536 % 256);
    assert(b[2] as nat == n / 256 % 256);
    assert(b[3] as nat == n % 256);
    assert((n / 16777216) * 16777216 + (n / 65536 % 256) * 65536 + (n / 256 % 256) * 256 + n % 256
        == n) by (nonlinear_arith)
        requires
            n < 4294967296,
    ;
}

/// Framing round trip: a buffer that holds a frame around `payload`, followed by
/// any bytes, reads back as exactly `payload`.
pub proof fn lemma_frame_round_trip(payload: Seq<u8>, rest: Seq<u8>)
    requires
        payload.len() <= MAX_FRAME_LEN,
    ensures
        frame_spec(framed(payload) + rest) == FrameSpec::Complete(payload),
{
    lemma_be32_round_trip(payload.len());
    let buf = framed(payload) + rest;
    assert(be32_value(buf) == be32_value(be32(payload.len())));
    assert(buf.subrange(HEADER_LEN as int, HEADER_LEN + payload.len()) =~= payload);
}

} // verus!
