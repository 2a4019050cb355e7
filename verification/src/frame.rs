//! The framing of the wire protocol: every message is a four-byte big-endian
//! length followed by that many bytes of payload.

use vstd::prelude::*;
use vstd::slice::slice_subrange;

verus! {

/// The largest payload a frame may carry: 10 MiB.
pub const MAX_PAYLOAD: usize = 10_485_760;

/// The size of the length prefix.
pub const HEADER_LEN: usize = 4;

/// Why a frame was refused.
#[derive(Debug, Clone, Copy, PartialEq, Eq, Structural)]
pub enum FrameError {
    /// The payload, or the length a header announces, exceeds `MAX_PAYLOAD`.
    FrameTooLarge { len: u64 },
    /// The bytes end before the frame does.
    Incomplete,
}

impl FrameError {
    /// The one-line message of the error.
    pub open spec fn text(self) -> Seq<char> {
        match self {
            FrameError::FrameTooLarge { len } => "Frame too large: "@ + crate::number::decimal(
                len as nat,
            ) + " bytes"@,
            FrameError::Incomplete => "Frame incomplete"@,
        }
    }

    /// The one-line message of the error.
    pub fn message(&self) -> (s: String)
        ensures
            s@ == self.text(),
    {
        match self {
            FrameError::FrameTooLarge { len } => "Frame too large: ".to_string().concat(
                crate::number::format_u64(*len).as_str(),
            ).concat(" bytes"),
            FrameError::Incomplete => "Frame incomplete".to_string(),
        }
    }
}

/// The four bytes that stand for `n`, most significant first.
pub open spec fn be32(n: nat) -> Seq<u8> {
    seq![
        ((n / 0x100_0000) % 0x100) as u8,
        ((n / 0x1_0000) % 0x100) as u8,
        ((n / 0x100) % 0x100) as u8,
        (n % 0x100) as u8,
    ]
}

/// The number that four bytes stand for, most significant first.
pub open spec fn be32_value(header: Seq<u8>) -> nat {
    (header[0] as nat) * 0x100_0000 + (header[1] as nat) * 0x1_0000 + (header[2] as nat) * 0x100
        + (header[3] as nat)
}

/// The frame that carries `payload`.
pub open spec fn frame_of(payload: Seq<u8>) -> Seq<u8> {
    be32(payload.len()) + payload
}

/// Reading back the four bytes of a number below 2^32 gives the number.
pub proof fn lemma_be32_round_trip(n: nat)
    requires
        n < 0x1_0000_0000,
    ensures
        be32(n).len() == 4,
        be32_value(be32(n)) == n,
{
}

/// Writing out the number that four bytes stand for gives the four bytes.
pub proof fn lemma_be32_of_value(header: Seq<u8>)
    requires
        header.len() == 4,
    ensures
        be32_value(header) < 0x1_0000_0000,
        be32(be32_value(header)) == header,
{
    let a = header[0] as nat;
    let b = header[1] as nat;
    let c = header[2] as nat;
    let d = header[3] as nat;
    let v = be32_value(header);
    assert(v == (a * 0x1_0000 + b * 0x100 + c) * 0x100 + d);
    assert(v % 0x100 == d && v / 0x100 == a * 0x1_0000 + b * 0x100 + c);
    let v1 = a * 0x1_0000 + b * 0x100 + c;
    assert(v1 == (a * 0x100 + b) * 0x100 + c);
    assert(v1 % 0x100 == c && v1 / 0x100 == a * 0x100 + b);
    let v2 = a * 0x100 + b;
    assert(v2 % 0x100 == b && v2 / 0x100 == a);
    assert(v / 0x1_0000 == v1 / 0x100);
    assert(v / 0x100_0000 == v2 / 0x100);
    assert(be32(v) =~= header);
}

/// The length prefix for a payload of `len` bytes.
pub fn encode_header(len: usize) -> (r: Result<[u8; 4], FrameError>)
    ensures
        match r {
            Ok(header) => len <= MAX_PAYLOAD && header@ == be32(len as nat),
            Err(e) => len > MAX_PAYLOAD && e == (FrameError::FrameTooLarge { len: len as u64 }),
        },
{
    if len > MAX_PAYLOAD {
        return Err(FrameError::FrameTooLarge { len: len as u64 });
    }
    let header: [u8; 4] = [
        ((len / 0x100_0000) % 0x100) as u8,
        ((len / 0x1_0000) % 0x100) as u8,
        ((len / 0x100) % 0x100) as u8,
        (len % 0x100) as u8,
    ];
    assert(header@ =~= be32(len as nat));
    Ok(header)
}

/// The payload length that a length prefix announces. A reader fails here,
/// before reading any payload, on a length above the maximum.
pub fn decode_header(header: &[u8; 4]) -> (r: Result<usize, FrameError>)
    ensures
        match r {
            Ok(len) => len == be32_value(header@) && len <= MAX_PAYLOAD,
            Err(e) => be32_value(header@) > MAX_PAYLOAD && e == (FrameError::FrameTooLarge {
                len: be32_value(header@) as u64,
            }),
        },
{
    let len: u64 = (header[0] as u64) * 0x100_0000 + (header[1] as u64) * 0x1_0000 + (
    header[2] as u64) * 0x100 + (header[3] as u64);
    if len > MAX_PAYLOAD as u64 {
        Err(FrameError::FrameTooLarge { len })
    } else {
        Ok(len as usize)
    }
}

/// The frame that carries `payload`: its length, then the payload itself.
pub fn encode_frame(payload: &[u8]) -> (r: Result<Vec<u8>, FrameError>)
    ensures
        match r {
            Ok(frame) => payload@.len() <= MAX_PAYLOAD && frame@ == frame_of(payload@),
            Err(e) => payload@.len() > MAX_PAYLOAD && e == (FrameError::FrameTooLarge {
                len: payload@.len() as u64,
            }),
        },
{
    let header = match encode_header(payload.len()) {
        Ok(header) => header,
        Err(e) => {
            return Err(e);
        },
    };
    let mut frame: Vec<u8> = Vec::with_capacity(HEADER_LEN + payload.len());
    frame.push(header[0]);
    frame.push(header[1]);
    frame.push(header[2]);
    frame.push(header[3]);
    assert(frame@ =~= be32(payload@.len()));
    let mut i: usize = 0;
    while i < payload.len()
        invariant
            i <= payload.len(),
            frame@ == be32(payload@.len()) + payload@.take(i as int),
        decreases payload.len() - i,
    {
        frame.push(payload[i]);
        assert(payload@.take(i + 1) == payload@.take(i as int).push(payload@[i as int]));
        i += 1;
    }
    assert(payload@.take(payload.len() as int) == payload@);
    Ok(frame)
}

/// What reading one frame from the front of `bytes` yields: the payload and
/// the number of bytes the frame took.
pub open spec fn frame_read(bytes: Seq<u8>) -> Result<(Seq<u8>, nat), FrameError> {
    if bytes.len() < 4 {
        Err(FrameError::Incomplete)
    } else {
        let len = be32_value(bytes.subrange(0, 4));
        if len > MAX_PAYLOAD {
            Err(FrameError::FrameTooLarge { len: len as u64 })
        } else if bytes.len() < 4 + len {
            Err(FrameError::Incomplete)
        } else {
            Ok((bytes.subrange(4, 4 + len as int), 4 + len))
        }
    }
}

/// Reads one frame from the front of `bytes`: the payload and how many
/// bytes of `bytes` the frame took.
pub fn decode_frame(bytes: &[u8]) -> (r: Result<(Vec<u8>, usize), FrameError>)
    ensures
        match (r, frame_read(bytes@)) {
            (Ok((payload, used)), Ok((p, u))) => payload@ == p && used == u,
            (Err(e), Err(f)) => e == f,
            _ => false,
        },
{
    if bytes.len() < HEADER_LEN {
        return Err(FrameError::Incomplete);
    }
    let header: [u8; 4] = [bytes[0], bytes[1], bytes[2], bytes[3]];
    assert(header@ =~= bytes@.subrange(0, 4));
    let len = match decode_header(&header) {
        Ok(len) => len,
        Err(e) => {
            return Err(e);
        },
    };
    if bytes.len() - HEADER_LEN < len {
        return Err(FrameError::Incomplete);
    }
    let body = slice_subrange(bytes, HEADER_LEN, HEADER_LEN + len);
    let mut payload: Vec<u8> = Vec::with_capacity(len);
    let mut i: usize = 0;
    while i < len
        invariant
            i <= len,
            body@.len() == len,
            payload@ == body@.take(i as int),
        decreases len - i,
    {
        payload.push(body[i]);
        assert(body@.take(i + 1) == body@.take(i as int).push(body@[i as int]));
        i += 1;
    }
    assert(body@.take(len as int) == body@);
    Ok((payload, HEADER_LEN + len))
}

/// A frame reads back as the payload it was made of, whatever follows it.
pub proof fn lemma_frame_round_trip(payload: Seq<u8>, rest: Seq<u8>)
    requires
        payload.len() <= MAX_PAYLOAD,
    ensures
        frame_read(frame_of(payload) + rest) == Ok::<(Seq<u8>, nat), FrameError>(
            (payload, 4 + payload.len()),
        ),
{
    let bytes = frame_of(payload) + rest;
    lemma_be32_round_trip(payload.len());
    assert(bytes.subrange(0, 4) =~= be32(payload.len()));
    assert(bytes.subrange(4, 4 + payload.len() as int) =~= payload);
}

/// Of the payloads whose length four bytes can announce, a frame reads back
/// exactly when the payload is no longer than `MAX_PAYLOAD`, and is refused
/// as too large otherwise.
pub proof fn lemma_frame_limit(payload: Seq<u8>)
    requires
        payload.len() < 0x1_0000_0000,
    ensures
        payload.len() <= MAX_PAYLOAD <==> frame_read(frame_of(payload)) is Ok,
        payload.len() > MAX_PAYLOAD ==> frame_read(frame_of(payload)) == Err::<
            (Seq<u8>, nat),
            FrameError,
        >(FrameError::FrameTooLarge { len: payload.len() as u64 }),
{
    let bytes = frame_of(payload);
    assert(bytes.subrange(0, 4) =~= be32(payload.len()));
    lemma_be32_round_trip(payload.len());
    if payload.len() <= MAX_PAYLOAD {
        lemma_frame_round_trip(payload, Seq::empty());
        assert(frame_of(payload) + Seq::<u8>::empty() =~= frame_of(payload));
    }
}

} // verus!
