//! Length-prefixed frame codec.
//!
//! A frame is a 4-byte length followed by that many payload bytes.  Both
//! peers run on the same machine, so the length uses one fixed byte order
//! (little-endian, the host order everywhere this service runs); the
//! assumption is deliberate and documented rather than negotiated.  The
//! length prefix arrives from an untrusted peer, so a hard cap bounds the
//! allocation a declared length can cause.

use vstd::prelude::*;

verus! {

/// Largest payload a single frame may carry (64 MiB).
pub const MAX_FRAME_PAYLOAD: u32 = 0x4000000;

/// The little-endian bytes of a 32-bit length.
pub open spec fn len_bytes(n: u32) -> Seq<u8> {
    seq![
        (n % 256) as u8,
        ((n / 256) % 256) as u8,
        ((n / 65536) % 256) as u8,
        ((n / 16777216) % 256) as u8,
    ]
}

/// The value a 4-byte little-endian length prefix declares.
pub open spec fn len_value(b: Seq<u8>) -> int
    recommends
        b.len() == 4,
{
    b[0] + b[1] * 256 + b[2] * 65536 + b[3] * 16777216
}

/// The encoding of one whole frame: length prefix, then payload.
pub open spec fn frame_bytes(payload: Seq<u8>) -> Seq<u8>
    recommends
        payload.len() <= MAX_FRAME_PAYLOAD,
{
    len_bytes(payload.len() as u32) + payload
}

/// What a buffer of received bytes holds, seen as the start of a frame.
pub enum FrameView {
    /// Not enough bytes yet; reading must continue (never an error).
    Incomplete,
    /// The declared length exceeds [`MAX_FRAME_PAYLOAD`].
    Oversized,
    /// One whole frame: its payload and how many bytes of the buffer it used.
    Frame(Seq<u8>, int),
}

/// How a buffer of received bytes decodes: the first four bytes declare the
/// payload length, the payload follows.
pub open spec fn decode_spec(b: Seq<u8>) -> FrameView {
    if b.len() < 4 {
        FrameView::Incomplete
    } else {
        let n = len_value(b.subrange(0, 4));
        if n > MAX_FRAME_PAYLOAD {
            FrameView::Oversized
        } else if b.len() < 4 + n {
            FrameView::Incomplete
        } else {
            FrameView::Frame(b.subrange(4, 4 + n), 4 + n)
        }
    }
}

/// Outcome of one decoding attempt on a buffer of received bytes.
pub enum DecodeOutcome {
    /// Fewer bytes than one whole frame: wait for more input.  A stream that
    /// ends cleanly before the first length byte is a normal end; one that
    /// ends with a frame still incomplete is a framing error.  That decision
    /// belongs to the caller holding the stream.
    Incomplete,
    /// The peer declared a payload larger than [`MAX_FRAME_PAYLOAD`]; the
    /// connection must be dropped before any allocation is attempted.
    Oversized,
    /// One whole frame: the payload, and the number of buffer bytes consumed.
    Frame { payload: Vec<u8>, consumed: usize },
}

/// Encodes one payload as a frame, refusing payloads over the cap.
pub fn encode_frame(payload: &Vec<u8>) -> (r: Option<Vec<u8>>)
    ensures
        match r {
            Some(f) => payload@.len() <= MAX_FRAME_PAYLOAD && f@ == frame_bytes(payload@),
            None => payload@.len() > MAX_FRAME_PAYLOAD,
        },
{
    if payload.len() > MAX_FRAME_PAYLOAD as usize {
        return None;
    }
    let n = payload.len() as u32;
    let mut f: Vec<u8> = Vec::new();
    f.push((n % 256) as u8);
    f.push(((n / 256) % 256) as u8);
    f.push(((n / 65536) % 256) as u8);
    f.push(((n / 16777216) % 256) as u8);
    assert(f@ =~= len_bytes(n));
    let mut i: usize = 0;
    while i < payload.len()
        invariant
            i <= payload@.len(),
            f@ == len_bytes(n) + payload@.subrange(0, i as int),
        decreases payload@.len() - i,
    {
        f.push(payload[i]);
        i = i + 1;
        assert(f@ =~= len_bytes(n) + payload@.subrange(0, i as int));
    }
    assert(f@ =~= frame_bytes(payload@));
    Some(f)
}

/// Decodes the first frame held in `buf`, if one is complete.
pub fn decode_frame(buf: &Vec<u8>) -> (r: DecodeOutcome)
    ensures
        match r {
            DecodeOutcome::Incomplete => decode_spec(buf@) is Incomplete,
            DecodeOutcome::Oversized => decode_spec(buf@) is Oversized,
            DecodeOutcome::Frame { payload, consumed } => decode_spec(buf@) == FrameView::Frame(
                payload@,
                consumed as int,
            ),
        },
{
    if buf.len() < 4 {
        return DecodeOutcome::Incomplete;
    }
    let n: u32 = buf[0] as u32 + buf[1] as u32 * 256 + buf[2] as u32 * 65536 + buf[3] as u32
        * 16777216;
    assert(n == len_value(buf@.subrange(0, 4)));
    if n > MAX_FRAME_PAYLOAD {
        return DecodeOutcome::Oversized;
    }
    if buf.len() < 4 + n as usize {
        return DecodeOutcome::Incomplete;
    }
    let mut payload: Vec<u8> = Vec::new();
    let end: usize = n as usize + 4;
    let mut i: usize = 4;
    while i < end
        invariant
            4 <= i <= end,
            end == 4 + n,
            n <= MAX_FRAME_PAYLOAD,
            buf@.len() >= 4 + n,
            payload@ == buf@.subrange(4, i as int),
        decreases end - i,
    {
        payload.push(buf[i]);
        i = i + 1;
        assert(payload@ =~= buf@.subrange(4, i as int));
    }
    DecodeOutcome::Frame { payload, consumed: 4 + n as usize }
}

/// Law: framing is lossless.  Decoding a buffer that starts with an encoded
/// frame yields exactly that frame's payload, whatever bytes follow, and
/// consumes exactly the frame's bytes.
pub proof fn lemma_frame_round_trip(payload: Seq<u8>, extra: Seq<u8>)
    requires
        payload.len() <= MAX_FRAME_PAYLOAD,
    ensures
        decode_spec(frame_bytes(payload) + extra) == FrameView::Frame(
            payload,
            4 + payload.len() as int,
        ),
{
    let n = payload.len() as u32;
    let b = frame_bytes(payload) + extra;
    lemma_len_round_trip(n);
    assert(b.subrange(0, 4) =~= len_bytes(n));
    assert(len_value(b.subrange(0, 4)) == n);
    assert(b.subrange(4, 4 + n) =~= payload);
}

/// Law: a buffer shorter than one whole frame never decodes to a frame nor
/// to an error; the codec waits for more bytes.
pub proof fn lemma_decode_waits(payload: Seq<u8>, cut: int)
    requires
        payload.len() <= MAX_FRAME_PAYLOAD,
        0 <= cut < frame_bytes(payload).len(),
    ensures
        decode_spec(frame_bytes(payload).subrange(0, cut)) is Incomplete,
{
    let n = payload.len() as u32;
    let whole = frame_bytes(payload);
    let b = whole.subrange(0, cut);
    if b.len() >= 4 {
        lemma_len_round_trip(n);
        assert(b.subrange(0, 4) =~= len_bytes(n));
        assert(len_value(b.subrange(0, 4)) == n);
        assert(b.len() < 4 + n);
    }
}

/// The length prefix reads back as the length it was built from.
proof fn lemma_len_round_trip(n: u32)
    ensures
        len_value(len_bytes(n)) == n,
{
    let x = n as int;
    vstd::arithmetic::div_mod::lemma_fundamental_div_mod(x, 256);
    vstd::arithmetic::div_mod::lemma_fundamental_div_mod(x / 256, 256);
    vstd::arithmetic::div_mod::lemma_fundamental_div_mod(x / 65536, 256);
    vstd::arithmetic::div_mod::lemma_div_denominator(x, 256, 256);
    vstd::arithmetic::div_mod::lemma_div_denominator(x, 65536, 256);
    assert(x / 16777216 < 256) by {
        vstd::arithmetic::div_mod::lemma_div_is_ordered(x, 0xffffffff, 16777216);
    }
    vstd::arithmetic::div_mod::lemma_small_mod((x / 16777216) as nat, 256);
}

} // verus!
