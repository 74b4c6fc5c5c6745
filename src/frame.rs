use vstd::prelude::*;
use vstd::arithmetic::div_mod::lemma_fundamental_div_mod;

verus! {

/// The unsigned integer that four bytes encode, least significant byte first.
pub open spec fn le_value(b: Seq<u8>) -> nat {
    b[0] as nat + 256 * (b[1] as nat) + 65536 * (b[2] as nat) + 16777216 * (b[3] as nat)
}

/// Reads the first four bytes of `ar` as a little-endian `u32`.
pub fn bytes_to_u32(ar: &[u8]) -> (r: u32)
    requires
        ar@.len() >= 4,
    ensures
        r as nat == le_value(ar@),
{
    let b0 = ar[0] as u32;
    let b1 = ar[1] as u32;
    let b2 = ar[2] as u32;
    let b3 = ar[3] as u32;
    assert((b1 << 8u32) == 256 * b1 && (b2 << 16u32) == 65536 * b2 && (b3 << 24u32) == 16777216 * b3
        && (b0 << 0u32) == b0) by (bit_vector)
        requires
            b0 < 256,
            b1 < 256,
            b2 < 256,
            b3 < 256,
    ;
    (b0 << 0u32) + (b1 << 8u32) + (b2 << 16u32) + (b3 << 24u32)
}

/// Length of the header: two little-endian `u32` length fields.
pub const HEADER_LEN: usize = 8;

/// Total length that the header at the front of `s` declares: the header plus
/// both bodies.
pub open spec fn declared_len(s: Seq<u8>) -> nat {
    8 + le_value(s.subrange(0, 4)) + le_value(s.subrange(4, 8))
}

/// `s` starts with a whole frame.
pub open spec fn has_frame(s: Seq<u8>) -> bool {
    s.len() >= 8 && declared_len(s) <= s.len()
}

/// Takes every whole frame off the front of `s`, in order: the frames, and the
/// bytes that are left.
pub open spec fn drain(s: Seq<u8>) -> (Seq<Seq<u8>>, Seq<u8>)
    decreases s.len(),
{
    if has_frame(s) {
        let n = declared_len(s) as int;
        let rest = drain(s.subrange(n, s.len() as int));
        (seq![s.subrange(0, n)] + rest.0, rest.1)
    } else {
        (seq![], s)
    }
}

/// The four little-endian bytes of `n`.
pub open spec fn le_bytes(n: nat) -> Seq<u8> {
    seq![
        (n % 256) as u8,
        ((n / 256) % 256) as u8,
        ((n / 256 / 256) % 256) as u8,
        ((n / 256 / 256 / 256) % 256) as u8,
    ]
}

/// The frame with bodies `a` and `b`.
pub open spec fn encode(a: Seq<u8>, b: Seq<u8>) -> Seq<u8> {
    le_bytes(a.len()) + le_bytes(b.len()) + a + b
}

/// A body length that the header can carry.
pub open spec fn fits_u32(s: Seq<u8>) -> bool {
    s.len() <= u32::MAX
}

/// Takes the frame at the front of `buf` if it is whole. Gives its routing key
/// (the first four header bytes as they stand, which are also the bytes of the
/// first length field) and the frame, header included;
/// the bytes after it stay in `buf` in their order. A partial frame is left as
/// it is.
pub fn try_extract_frame(buf: &mut Vec<u8>) -> (r: Option<(Vec<u8>, Vec<u8>)>)
    ensures
        r is Some <==> has_frame(old(buf)@),
        match r {
            Some((key, frame)) => {
                &&& key@ == old(buf)@.subrange(0, 4)
                &&& frame@ == old(buf)@.subrange(0, declared_len(old(buf)@) as int)
                &&& final(buf)@ == old(buf)@.subrange(
                    declared_len(old(buf)@) as int,
                    old(buf)@.len() as int,
                )
            },
            None => final(buf)@ == old(buf)@,
        },
{
    if buf.len() < HEADER_LEN {
        return None;
    }
    let a = bytes_to_u32(&buf.as_slice()[0..4]);
    let b = bytes_to_u32(&buf.as_slice()[4..8]);
    let total: u64 = 8 + a as u64 + b as u64;
    if (buf.len() as u64) < total {
        return None;
    }
    let n = total as usize;
    let mut frame = buf.split_off(n);
    std::mem::swap(buf, &mut frame);
    let key = vec![frame[0], frame[1], frame[2], frame[3]];
    assert(key@ =~= old(buf)@.subrange(0, 4));
    Some((key, frame))
}

/// Appends `payload` to `out` as it stands; it frames nothing.
pub fn append_bytes(out: &mut Vec<u8>, payload: &[u8])
    ensures
        final(out)@ == old(out)@ + payload@,
{
    out.extend_from_slice(payload);
}

fn push_le_u32(out: &mut Vec<u8>, n: u32)
    ensures
        final(out)@ == old(out)@ + le_bytes(n as nat),
{
    let q1 = n / 256;
    let q2 = q1 / 256;
    let q3 = q2 / 256;
    out.push((n % 256) as u8);
    out.push((q1 % 256) as u8);
    out.push((q2 % 256) as u8);
    out.push((q3 % 256) as u8);
    assert(out@ =~= old(out)@ + le_bytes(n as nat));
}

/// Builds the frame with bodies `a` and `b`.
pub fn encode_frame(a: &[u8], b: &[u8]) -> (r: Vec<u8>)
    requires
        fits_u32(a@),
        fits_u32(b@),
    ensures
        r@ == encode(a@, b@),
{
    let mut r: Vec<u8> = Vec::new();
    push_le_u32(&mut r, a.len() as u32);
    push_le_u32(&mut r, b.len() as u32);
    r.extend_from_slice(a);
    r.extend_from_slice(b);
    r
}

/// Takes every whole frame off the front of `buf`, in order of arrival; a
/// trailing partial frame stays in `buf`.
pub fn drain_frames(buf: &mut Vec<u8>) -> (r: Vec<(Vec<u8>, Vec<u8>)>)
    ensures
        r@.len() == drain(old(buf)@).0.len(),
        forall|i: int|
            0 <= i < r@.len() ==> {
                &&& (#[trigger] r@[i]).1@ == drain(old(buf)@).0[i]
                &&& r@[i].0@ == r@[i].1@.subrange(0, 4)
            },
        final(buf)@ == drain(old(buf)@).1,
{
    let mut r: Vec<(Vec<u8>, Vec<u8>)> = Vec::new();
    loop
        invariant
            drain(old(buf)@).0 == r@.map_values(|p: (Vec<u8>, Vec<u8>)| p.1@) + drain(buf@).0,
            drain(old(buf)@).1 == drain(buf@).1,
            forall|i: int| 0 <= i < r@.len() ==> (#[trigger] r@[i]).0@ == r@[i].1@.subrange(0, 4),
        decreases buf@.len(),
    {
        let ghost before = buf@;
        match try_extract_frame(buf) {
            Some(p) => {
                let ghost prev = r@;
                r.push(p);
                assert(r@.map_values(|p: (Vec<u8>, Vec<u8>)| p.1@) =~= prev.map_values(
                    |p: (Vec<u8>, Vec<u8>)| p.1@,
                ).push(p.1@));
                assert(drain(before).0 =~= seq![p.1@] + drain(buf@).0);
                assert(drain(old(buf)@).0 =~= r@.map_values(|p: (Vec<u8>, Vec<u8>)| p.1@) + drain(
                    buf@,
                ).0);
            },
            None => {
                assert(drain(old(buf)@).0 =~= r@.map_values(|p: (Vec<u8>, Vec<u8>)| p.1@));
                return r;
            },
        }
    }
}

/// Reading the four bytes that `le_bytes` writes gives the number back.
pub proof fn lemma_le_round_trip(n: nat)
    requires
        n <= u32::MAX,
    ensures
        le_value(le_bytes(n)) == n,
{
    let q1 = n / 256;
    let q2 = q1 / 256;
    let q3 = q2 / 256;
    lemma_fundamental_div_mod(n as int, 256);
    lemma_fundamental_div_mod(q1 as int, 256);
    lemma_fundamental_div_mod(q2 as int, 256);
    lemma_fundamental_div_mod(q3 as int, 256);
    assert(q3 < 256) by {
        assert(n == 16777216 * q3 + 65536 * (q2 % 256) + 256 * (q1 % 256) + n % 256)
            by (nonlinear_arith)
            requires
                n == 256 * q1 + n % 256,
                q1 == 256 * q2 + q1 % 256,
                q2 == 256 * q3 + q2 % 256,
        ;
    }
    assert(le_value(le_bytes(n)) == n) by (nonlinear_arith)
        requires
            n == 256 * q1 + n % 256,
            q1 == 256 * q2 + q1 % 256,
            q2 == 256 * q3 + q2 % 256,
            q3 < 256,
            le_value(le_bytes(n)) == n % 256 + 256 * (q1 % 256) + 65536 * (q2 % 256) + 16777216 * (q3 % 256),
            q3 % 256 == q3,
    ;
}

/// Any stretch of bytes that begins with the whole header of `encode(a, b)`
/// declares the length of that frame.
pub proof fn lemma_header_declares(a: Seq<u8>, b: Seq<u8>, s: Seq<u8>)
    requires
        fits_u32(a),
        fits_u32(b),
        s.len() >= 8,
        s.subrange(0, 8) == encode(a, b).subrange(0, 8),
    ensures
        declared_len(s) == encode(a, b).len(),
{
    let e = encode(a, b);
    lemma_le_round_trip(a.len());
    lemma_le_round_trip(b.len());
    assert(s.subrange(0, 4) =~= le_bytes(a.len())) by {
        assert(s.subrange(0, 4) =~= s.subrange(0, 8).subrange(0, 4));
    }
    assert(s.subrange(4, 8) =~= le_bytes(b.len())) by {
        assert(s.subrange(4, 8) =~= s.subrange(0, 8).subrange(4, 8));
    }
}

/// A frame followed by more bytes: the frame comes off first, whole, and the
/// rest drains as it would alone.
pub proof fn lemma_drain_frame_then(a: Seq<u8>, b: Seq<u8>, rest: Seq<u8>)
    requires
        fits_u32(a),
        fits_u32(b),
    ensures
        drain(encode(a, b) + rest) == (seq![encode(a, b)] + drain(rest).0, drain(rest).1),
{
    let e = encode(a, b);
    let s = e + rest;
    assert(s.subrange(0, 8) =~= e.subrange(0, 8));
    lemma_header_declares(a, b, s);
    assert(s.subrange(0, e.len() as int) =~= e);
    assert(s.subrange(e.len() as int, s.len() as int) =~= rest);
}

/// Partial frame stability: fewer bytes than a whole frame never give an
/// extraction.
pub proof fn lemma_partial_frame_not_extracted(a: Seq<u8>, b: Seq<u8>, k: nat)
    requires
        fits_u32(a),
        fits_u32(b),
        k < encode(a, b).len(),
    ensures
        !has_frame(encode(a, b).subrange(0, k as int)),
        drain(encode(a, b).subrange(0, k as int)) == (Seq::<Seq<u8>>::empty(), encode(a, b).subrange(0, k as int)),
{
    let e = encode(a, b);
    let s = e.subrange(0, k as int);
    if k >= 8 {
        assert(s.subrange(0, 8) =~= e.subrange(0, 8));
        lemma_header_declares(a, b, s);
    }
}

/// The frames with the bodies of `parts`, one after another.
pub open spec fn encode_all(parts: Seq<(Seq<u8>, Seq<u8>)>) -> Seq<u8>
    decreases parts.len(),
{
    if parts.len() == 0 {
        seq![]
    } else {
        encode(parts[0].0, parts[0].1) + encode_all(parts.drop_first())
    }
}

/// Every body of `parts` has a length that the header can carry.
pub open spec fn all_fit(parts: Seq<(Seq<u8>, Seq<u8>)>) -> bool {
    forall|i: int| 0 <= i < parts.len() ==> fits_u32(#[trigger] parts[i].0) && fits_u32(parts[i].1)
}

/// Bytes that arrive in `chunks` onto an inbound buffer holding `buf`, with every
/// whole frame taken off after each chunk: the frames taken, in order, and what
/// is left in the buffer.
pub open spec fn feed(buf: Seq<u8>, chunks: Seq<Seq<u8>>) -> (Seq<Seq<u8>>, Seq<u8>)
    decreases chunks.len(),
{
    if chunks.len() == 0 {
        (seq![], buf)
    } else {
        let d = drain(buf + chunks[0]);
        let r = feed(d.1, chunks.drop_first());
        (d.0 + r.0, r.1)
    }
}

/// Multi-frame buffer: frames written back to back drain as exactly those
/// frames, in their order, with nothing left over.
pub proof fn lemma_multi_frame(parts: Seq<(Seq<u8>, Seq<u8>)>)
    requires
        all_fit(parts),
    ensures
        drain(encode_all(parts)) == (
            parts.map_values(|p: (Seq<u8>, Seq<u8>)| encode(p.0, p.1)),
            Seq::<u8>::empty(),
        ),
    decreases parts.len(),
{
    if parts.len() == 0 {
        assert(parts.map_values(|p: (Seq<u8>, Seq<u8>)| encode(p.0, p.1)) =~= seq![]);
    } else {
        let tail = parts.drop_first();
        assert(all_fit(tail)) by {
            assert forall|i: int| 0 <= i < tail.len() implies fits_u32(#[trigger] tail[i].0)
                && fits_u32(tail[i].1) by {
                assert(tail[i] == parts[i + 1]);
            }
        }
        assert(fits_u32(parts[0].0) && fits_u32(parts[0].1));
        lemma_multi_frame(tail);
        lemma_drain_frame_then(parts[0].0, parts[0].1, encode_all(tail));
        assert(parts.map_values(|p: (Seq<u8>, Seq<u8>)| encode(p.0, p.1)) =~= seq![
            encode(parts[0].0, parts[0].1),
        ] + tail.map_values(|p: (Seq<u8>, Seq<u8>)| encode(p.0, p.1)));
    }
}

proof fn lemma_feed_nothing(chunks: Seq<Seq<u8>>)
    requires
        chunks.flatten() == Seq::<u8>::empty(),
    ensures
        feed(seq![], chunks) == (Seq::<Seq<u8>>::empty(), Seq::<u8>::empty()),
    decreases chunks.len(),
{
    if chunks.len() > 0 {
        assert(chunks.flatten() == chunks[0] + chunks.drop_first().flatten());
        assert(chunks[0].len() == 0);
        assert(chunks.drop_first().flatten().len() == 0);
        assert(Seq::<u8>::empty() + chunks[0] =~= Seq::<u8>::empty());
        lemma_feed_nothing(chunks.drop_first());
        assert(Seq::<Seq<u8>>::empty() + Seq::<Seq<u8>>::empty() =~= Seq::<Seq<u8>>::empty());
    }
}

proof fn lemma_feed_rest_of_frame(a: Seq<u8>, b: Seq<u8>, buf: Seq<u8>, chunks: Seq<Seq<u8>>)
    requires
        fits_u32(a),
        fits_u32(b),
        buf + chunks.flatten() == encode(a, b),
        buf.len() < encode(a, b).len(),
    ensures
        feed(buf, chunks) == (seq![encode(a, b)], Seq::<u8>::empty()),
    decreases chunks.len(),
{
    let e = encode(a, b);
    if chunks.len() == 0 {
        assert(buf + chunks.flatten() =~= buf);
    } else {
        let c = chunks[0];
        let more = chunks.drop_first();
        assert(chunks.flatten() == c + more.flatten());
        let s = buf + c;
        assert(s + more.flatten() =~= e);
        if s.len() < e.len() {
            assert(s =~= e.subrange(0, s.len() as int));
            lemma_partial_frame_not_extracted(a, b, s.len());
            lemma_feed_rest_of_frame(a, b, s, more);
            assert(Seq::<Seq<u8>>::empty() + seq![e] =~= seq![e]);
        } else {
            assert(more.flatten().len() == 0);
            assert(more.flatten() =~= Seq::<u8>::empty());
            assert(s =~= e + Seq::<u8>::empty());
            lemma_drain_frame_then(a, b, Seq::<u8>::empty());
            assert(drain(Seq::<u8>::empty()) == (Seq::<Seq<u8>>::empty(), Seq::<u8>::empty()));
            lemma_feed_nothing(more);
            assert(seq![e] + Seq::<Seq<u8>>::empty() =~= seq![e]);
        }
    }
}

/// Framing round trip: a frame that arrives on an empty inbound buffer in any
/// chunks, with every whole frame taken off after each chunk, comes off once,
/// equal to what was sent, and leaves nothing behind.
pub proof fn lemma_round_trip_chunked(a: Seq<u8>, b: Seq<u8>, chunks: Seq<Seq<u8>>)
    requires
        fits_u32(a),
        fits_u32(b),
        chunks.flatten() == encode(a, b),
    ensures
        feed(seq![], chunks) == (seq![encode(a, b)], Seq::<u8>::empty()),
{
    assert(Seq::<u8>::empty() + chunks.flatten() =~= chunks.flatten());
    lemma_feed_rest_of_frame(a, b, seq![], chunks);
}

} // verus!
