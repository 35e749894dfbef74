//! Frame codec for the control channel.
//!
//! A frame is `[tag][len_lo][len_hi][payload...]`: one tag byte, a 16-bit
//! little-endian payload length, then exactly that many payload bytes.
//! Decoding is incremental: bytes may arrive in arbitrary chunks, and a frame
//! is recognized as soon as its header and full payload are available.

use vstd::prelude::*;

verus! {

/// Tag of a frame whose payload is destined to the monitored application:
/// ASCII 'R'.
pub const TAG_TO_APP: u8 = 82;

/// Tag of a frame whose payload is destined to the real downstream peer:
/// ASCII 'S'.
pub const TAG_TO_PEER: u8 = 83;

/// Tag of a keep-alive frame; its payload is empty: ASCII 'K'.
pub const TAG_KEEPALIVE: u8 = 75;

/// Largest payload a single frame can carry: the length field is 16 bits.
pub const MAX_PAYLOAD: usize = 0xFFFF;

/// The wire bytes of one frame: tag, little-endian 16-bit length, payload.
pub open spec fn spec_encode(tag: u8, payload: Seq<u8>) -> Seq<u8>
    recommends
        payload.len() <= MAX_PAYLOAD,
{
    seq![tag, (payload.len() % 256) as u8, (payload.len() / 256) as u8] + payload
}

/// The payload length a buffer's header declares (meaningful when `s.len() >= 3`).
pub open spec fn spec_declared_len(s: Seq<u8>) -> int {
    s[1] + 256 * s[2]
}

/// Whether the buffer starts with one complete frame: a full header whose
/// declared payload is entirely available.
pub open spec fn spec_has_frame(s: Seq<u8>) -> bool {
    s.len() >= 3 && s.len() >= 3 + spec_declared_len(s)
}

/// The tag of the buffer's first frame.
pub open spec fn spec_tag(s: Seq<u8>) -> u8 {
    s[0]
}

/// The payload of the buffer's first frame.
pub open spec fn spec_payload(s: Seq<u8>) -> Seq<u8> {
    s.subrange(3, 3 + spec_declared_len(s))
}

/// The number of bytes the buffer's first frame occupies.
pub open spec fn spec_consumed(s: Seq<u8>) -> int {
    3 + spec_declared_len(s)
}

/// All complete frames at the front of the buffer, in order, as (tag, payload).
pub open spec fn spec_frames(s: Seq<u8>) -> Seq<(u8, Seq<u8>)>
    decreases s.len(),
{
    if spec_has_frame(s) {
        seq![(spec_tag(s), spec_payload(s))] + spec_frames(s.skip(spec_consumed(s)))
    } else {
        seq![]
    }
}

/// The bytes left after every complete frame at the front has been taken:
/// at most a partial frame, to be completed by later chunks.
pub open spec fn spec_remainder(s: Seq<u8>) -> Seq<u8>
    decreases s.len(),
{
    if spec_has_frame(s) {
        spec_remainder(s.skip(spec_consumed(s)))
    } else {
        s
    }
}

/// Appends all of `src` to `dst`.
pub fn push_all(dst: &mut Vec<u8>, src: &Vec<u8>)
    ensures
        final(dst)@ == old(dst)@ + src@,
{
    let mut i: usize = 0;
    while i < src.len()
        invariant
            i <= src.len(),
            dst@ == old(dst)@ + src@.subrange(0, i as int),
        decreases src.len() - i,
    {
        dst.push(src[i]);
        assert(old(dst)@ + src@.subrange(0, i as int) + seq![src@[i as int]] =~= old(
            dst,
        )@ + src@.subrange(0, i + 1));
        i = i + 1;
    }
    assert(src@.subrange(0, src@.len() as int) =~= src@);
}

/// Copies `src[from..to]` into a fresh vector.
pub fn copy_range(src: &Vec<u8>, from: usize, to: usize) -> (out: Vec<u8>)
    requires
        from <= to <= src.len(),
    ensures
        out@ == src@.subrange(from as int, to as int),
{
    let mut out: Vec<u8> = Vec::new();
    let mut i: usize = from;
    while i < to
        invariant
            from <= i <= to <= src.len(),
            out@ == src@.subrange(from as int, i as int),
        decreases to - i,
    {
        out.push(src[i]);
        assert(src@.subrange(from as int, i as int) + seq![src@[i as int]] =~= src@.subrange(
            from as int,
            i + 1,
        ));
        i = i + 1;
    }
    out
}

/// Decodes the first frame of `buf[start..]`, if one is complete there.
/// Returns the tag, the payload and the number of bytes the frame occupies;
/// `None` means "incomplete": fewer than 3 bytes are available, or the
/// declared payload length exceeds what has arrived so far.
pub fn decode_at(buf: &Vec<u8>, start: usize) -> (r: Option<(u8, Vec<u8>, usize)>)
    requires
        start <= buf@.len(),
    ensures
        ({
            let s = buf@.skip(start as int);
            match r {
                None => !spec_has_frame(s),
                Some(f) => {
                    &&& spec_has_frame(s)
                    &&& f.0 == spec_tag(s)
                    &&& f.1@ == spec_payload(s)
                    &&& f.2 == spec_consumed(s)
                    &&& 3 <= f.2
                    &&& start + f.2 <= buf@.len()
                },
            }
        }),
{
    let ghost s = buf@.skip(start as int);
    let n = buf.len();
    if n - start < 3 {
        return None;
    }
    let tag = buf[start];
    let lo = buf[start + 1] as usize;
    let hi = buf[start + 2] as usize;
    let len: usize = lo + 256 * hi;
    assert(len == spec_declared_len(s));
    if n - start - 3 < len {
        return None;
    }
    let payload = copy_range(buf, start + 3, start + 3 + len);
    assert(payload@ =~= spec_payload(s));
    Some((tag, payload, 3 + len))
}

/// Law: decoding what `spec_encode` produced yields the same tag and payload
/// and consumes the whole encoding.
pub proof fn lemma_round_trip(tag: u8, payload: Seq<u8>)
    requires
        payload.len() <= MAX_PAYLOAD,
    ensures
        spec_encode(tag, payload).len() == 3 + payload.len(),
        spec_has_frame(spec_encode(tag, payload)),
        spec_tag(spec_encode(tag, payload)) == tag,
        spec_payload(spec_encode(tag, payload)) == payload,
        spec_consumed(spec_encode(tag, payload)) == 3 + payload.len(),
{
    let e = spec_encode(tag, payload);
    let l = payload.len() as int;
    assert(l % 256 + 256 * (l / 256) == l) by (nonlinear_arith)
        requires
            0 <= l,
    ;
    assert(0 <= l % 256 < 256);
    assert(0 <= l / 256 <= 255) by (nonlinear_arith)
        requires
            0 <= l <= 0xFFFF,
    ;
    assert(e[1] == l % 256 && e[2] == l / 256);
    assert(spec_declared_len(e) == l);
    assert(spec_payload(e) =~= payload);
}

/// Law: one encoded frame standing alone is recognized as exactly that frame,
/// with nothing left over.
pub proof fn lemma_frames_single(tag: u8, payload: Seq<u8>)
    requires
        payload.len() <= MAX_PAYLOAD,
    ensures
        spec_frames(spec_encode(tag, payload)) == seq![(tag, payload)],
        spec_remainder(spec_encode(tag, payload)) == Seq::<u8>::empty(),
{
    let e = spec_encode(tag, payload);
    lemma_round_trip(tag, payload);
    let c = spec_consumed(e);
    assert(e.skip(c) =~= Seq::<u8>::empty());
    assert(!spec_has_frame(e.skip(c)));
    assert(spec_frames(e.skip(c)) =~= Seq::<(u8, Seq<u8>)>::empty());
    assert(spec_remainder(e.skip(c)) == e.skip(c));
    assert(spec_frames(e) =~= seq![(tag, payload)]);
    assert(spec_remainder(e) == spec_remainder(e.skip(c)));
}

/// The remainder never holds a complete frame: it is always a strict prefix
/// of some frame still in flight.
pub proof fn lemma_remainder_incomplete(s: Seq<u8>)
    ensures
        !spec_has_frame(spec_remainder(s)),
    decreases s.len(),
{
    if spec_has_frame(s) {
        lemma_remainder_incomplete(s.skip(spec_consumed(s)));
    }
}

/// Law: feeding `s` and then `t` recognizes the frames of `s`, then the
/// frames that complete once `t` follows the leftover of `s` — decoding does
/// not depend on where the stream was split.
pub proof fn lemma_frames_append(s: Seq<u8>, t: Seq<u8>)
    ensures
        spec_frames(s + t) == spec_frames(s) + spec_frames(spec_remainder(s) + t),
        spec_remainder(s + t) == spec_remainder(spec_remainder(s) + t),
    decreases s.len(),
{
    if spec_has_frame(s) {
        let c = spec_consumed(s);
        assert((s + t)[0] == s[0] && (s + t)[1] == s[1] && (s + t)[2] == s[2]);
        assert(spec_declared_len(s + t) == spec_declared_len(s));
        assert(spec_has_frame(s + t));
        assert(spec_payload(s + t) =~= spec_payload(s));
        assert((s + t).skip(c) =~= s.skip(c) + t);
        lemma_frames_append(s.skip(c), t);
        assert(spec_frames(s + t) =~= spec_frames(s) + spec_frames(spec_remainder(s) + t));
    } else {
        assert(spec_remainder(s) + t =~= s + t);
        assert(spec_frames(s) + spec_frames(s + t) =~= spec_frames(s + t));
    }
}

/// Law: appending one encoded frame to a fully-decoded byte stream adds
/// exactly that frame, after all earlier ones — queued frames keep their
/// submission order on the wire.
pub proof fn lemma_append_frame(q: Seq<u8>, tag: u8, payload: Seq<u8>)
    requires
        spec_remainder(q) == Seq::<u8>::empty(),
        payload.len() <= MAX_PAYLOAD,
    ensures
        spec_frames(q + spec_encode(tag, payload)) == spec_frames(q).push((tag, payload)),
        spec_remainder(q + spec_encode(tag, payload)) == Seq::<u8>::empty(),
{
    let e = spec_encode(tag, payload);
    lemma_frames_append(q, e);
    lemma_frames_single(tag, payload);
    assert(spec_remainder(q) + e =~= e);
    assert(spec_frames(q) + seq![(tag, payload)] =~= spec_frames(q).push((tag, payload)));
}

/// The frames recognized when `chunks` are fed one after another into a
/// decoder whose buffer still holds `residual`.
pub open spec fn spec_feed(residual: Seq<u8>, chunks: Seq<Seq<u8>>) -> Seq<(u8, Seq<u8>)>
    decreases chunks.len(),
{
    if chunks.len() == 0 {
        seq![]
    } else {
        spec_frames(residual + chunks[0]) + spec_feed(
            spec_remainder(residual + chunks[0]),
            chunks.skip(1),
        )
    }
}

proof fn lemma_feed_equals_block(residual: Seq<u8>, chunks: Seq<Seq<u8>>)
    requires
        !spec_has_frame(residual),
    ensures
        spec_feed(residual, chunks) == spec_frames(residual + chunks.flatten()),
    decreases chunks.len(),
{
    if chunks.len() == 0 {
        assert(chunks.flatten() =~= Seq::<u8>::empty());
        assert(residual + chunks.flatten() =~= residual);
    } else {
        let b = residual + chunks[0];
        let rest = chunks.skip(1);
        lemma_remainder_incomplete(b);
        lemma_feed_equals_block(spec_remainder(b), rest);
        lemma_frames_append(b, rest.flatten());
        assert(chunks.drop_first() =~= rest);
        assert(residual + chunks.flatten() =~= b + rest.flatten());
        assert(spec_feed(residual, chunks) =~= spec_frames(residual + chunks.flatten()));
    }
}

/// Law: the frames recognized when a byte stream is fed to the decoder in
/// arbitrary chunks — one byte at a time included — are exactly the frames
/// recognized when the same bytes arrive as one block.
pub proof fn lemma_incremental_decode(chunks: Seq<Seq<u8>>)
    ensures
        spec_feed(Seq::<u8>::empty(), chunks) == spec_frames(chunks.flatten()),
{
    lemma_feed_equals_block(Seq::<u8>::empty(), chunks);
    assert(Seq::<u8>::empty() + chunks.flatten() =~= chunks.flatten());
}

/// Encodes one frame: the tag, the payload length in two little-endian bytes,
/// then the payload itself.
pub fn encode(tag: u8, payload: &Vec<u8>) -> (out: Vec<u8>)
    requires
        payload@.len() <= MAX_PAYLOAD,
    ensures
        out@ == spec_encode(tag, payload@),
        out@.len() == 3 + payload@.len(),
{
    let len: usize = payload.len();
    let mut out: Vec<u8> = Vec::new();
    out.push(tag);
    out.push((len % 256) as u8);
    out.push((len / 256) as u8);
    push_all(&mut out, payload);
    assert(out@ =~= spec_encode(tag, payload@));
    out
}

} // verus!

