//! The mathematical model of the QOI byte stream.
//!
//! Everything the encoder emits is described here: the 14-byte header, the
//! five per-pixel operations in their fixed priority order (run, index,
//! diff, luma, raw RGB), the run flush rules, and the 8-byte terminator.
//! The executable encoder in `qoi` is proved to produce exactly
//! `qoi_stream` of its input.
use vstd::prelude::*;

verus! {

/// Tag byte of a raw RGB operation (a full one-pixel fallback).
pub const QOI_OP_RGB: u8 = 0xfe;
/// Tag bits of an index (cache hit) operation.
pub const QOI_OP_INDEX: u8 = 0x00;
/// Tag bits of a small per-channel delta operation.
pub const QOI_OP_DIFF: u8 = 0x40;
/// Tag bits of a green-biased delta operation.
pub const QOI_OP_LUMA: u8 = 0x80;
/// Tag bits of a run-length operation.
pub const QOI_OP_RUN: u8 = 0xc0;

/// One pixel: four 8-bit channels.  The encoder always synthesizes
/// `a == 255`; the source alpha, if any, is never read.
#[derive(Clone, Copy, Debug, PartialEq, Eq, Structural)]
pub struct QoiPixel {
    pub r: u8,
    pub g: u8,
    pub b: u8,
    pub a: u8,
}

/// 8-bit wrapped subtraction, as the encoder's delta arithmetic uses it.
pub open spec fn wsub(a: u8, b: u8) -> u8 {
    vstd::wrapping::u8_specs::wrapping_sub(a, b)
}

/// 8-bit wrapped addition.
pub open spec fn wadd(a: u8, b: u8) -> u8 {
    vstd::wrapping::u8_specs::wrapping_add(a, b)
}

/// The cache slot of a pixel: `(r*3 + g*5 + b*7 + a*11) mod 64`.
pub open spec fn px_index(p: QoiPixel) -> int {
    (p.r as int * 3 + p.g as int * 5 + p.b as int * 7 + p.a as int * 11) % 64
}

/// The cache slot every pixel starts from.
pub open spec fn zero_pixel() -> QoiPixel {
    QoiPixel { r: 0, g: 0, b: 0, a: 0 }
}

/// The encoder's per-call state: the 64-slot pixel cache, the previous
/// pixel (none before the first pixel), and the pending run length.
pub struct EncState {
    pub cache: Seq<QoiPixel>,
    pub prev: Option<QoiPixel>,
    pub run: nat,
}

/// The fresh state at the start of one encode call.
pub open spec fn init_state() -> EncState {
    EncState { cache: Seq::new(64, |i: int| zero_pixel()), prev: None, run: 0 }
}

/// What always holds of the encoder state: 64 cache slots, a run of at
/// most 62 pixels, and a run only once a previous pixel exists.
pub open spec fn enc_wf(st: EncState) -> bool {
    &&& st.cache.len() == 64
    &&& st.run <= 62
    &&& st.run > 0 ==> st.prev is Some
}

// ---- DIFF: all three channel deltas, biased by 2, fit in [0, 3] ----

/// The biased wrapped delta of one channel, as packed into a DIFF byte.
pub open spec fn diff_term(cur: u8, prev: u8) -> u8 {
    wadd(wsub(cur, prev), 2)
}

/// Whether a DIFF operation can encode `p` after `q`.
pub open spec fn diff_fits(p: QoiPixel, q: QoiPixel) -> bool {
    &&& diff_term(p.r, q.r) <= 3
    &&& diff_term(p.g, q.g) <= 3
    &&& diff_term(p.b, q.b) <= 3
}

/// The single DIFF byte: tag plus the three biased deltas, packed 2 bits each.
pub open spec fn diff_byte(p: QoiPixel, q: QoiPixel) -> u8 {
    (QOI_OP_DIFF + diff_term(p.r, q.r) * 16 + diff_term(p.g, q.g) * 4 + diff_term(p.b, q.b)) as u8
}

// ---- LUMA: a green delta in [-32, 31] with red/blue terms in [0, 15] ----

/// The wrapped green delta (the u8 bit pattern of the signed delta).
pub open spec fn luma_green(p: QoiPixel, q: QoiPixel) -> u8 {
    wsub(p.g, q.g)
}

/// The red term: red delta minus green delta, biased by 8.
pub open spec fn luma_red(p: QoiPixel, q: QoiPixel) -> u8 {
    wadd(wsub(wsub(p.r, q.r), luma_green(p, q)), 8)
}

/// The blue term: blue delta minus green delta, biased by 8.
pub open spec fn luma_blue(p: QoiPixel, q: QoiPixel) -> u8 {
    wadd(wsub(wsub(p.b, q.b), luma_green(p, q)), 8)
}

/// Whether a LUMA operation can encode `p` after `q`: the green delta is a
/// signed value in [-32, 31] (bit patterns 0..=31 and 224..=255) and both
/// side terms fall in [0, 15].
pub open spec fn luma_fits(p: QoiPixel, q: QoiPixel) -> bool {
    &&& luma_green(p, q) <= 31 || luma_green(p, q) >= 224
    &&& luma_red(p, q) <= 15
    &&& luma_blue(p, q) <= 15
}

/// The first LUMA byte: tag plus the green delta re-biased into [0, 63].
pub open spec fn luma_byte0(p: QoiPixel, q: QoiPixel) -> u8 {
    (QOI_OP_LUMA + wadd(luma_green(p, q), 32)) as u8
}

/// The second LUMA byte: red term in the high nibble, blue term in the low.
pub open spec fn luma_byte1(p: QoiPixel, q: QoiPixel) -> u8 {
    (luma_red(p, q) * 16 + luma_blue(p, q)) as u8
}

// ---- RUN: flushes and continuations ----

/// Whether processing `p` with previous pixel `q` first flushes the
/// pending run: the run must be broken (`p != q`) or full (62), and nonempty.
pub open spec fn run_flushes(run: nat, p: QoiPixel, q: QoiPixel) -> bool {
    (p != q || run >= 62) && run > 0
}

/// The byte of an interior run flush: tag plus the counter less one.
pub open spec fn flush_byte(run: nat) -> u8
    recommends
        1 <= run <= 62,
{
    (QOI_OP_RUN + run - 1) as u8
}

/// The run counter after processing `p` with previous pixel `q`.
pub open spec fn run_after(run: nat, p: QoiPixel, q: QoiPixel) -> nat {
    if p == q {
        if run >= 62 {
            1
        } else {
            run + 1
        }
    } else {
        0
    }
}

// ---- the operation chain for one pixel ----

/// The bytes of the operation that encodes a pixel that did not extend a
/// run: index on a cache hit, else diff, else luma (both only when a
/// previous pixel exists), else raw RGB.
pub open spec fn fresh_bytes(cache: Seq<QoiPixel>, prev: Option<QoiPixel>, p: QoiPixel) -> Seq<
    u8,
>
    recommends
        cache.len() == 64,
{
    if cache[px_index(p)] == p {
        seq![px_index(p) as u8]
    } else {
        match prev {
            Some(q) => if diff_fits(p, q) {
                seq![diff_byte(p, q)]
            } else if luma_fits(p, q) {
                seq![luma_byte0(p, q), luma_byte1(p, q)]
            } else {
                seq![QOI_OP_RGB, p.r, p.g, p.b]
            },
            None => seq![QOI_OP_RGB, p.r, p.g, p.b],
        }
    }
}

/// The bytes emitted while processing one pixel: at most one run flush,
/// then nothing when the pixel extends a run, else a fresh operation.
pub open spec fn step_bytes(st: EncState, p: QoiPixel) -> Seq<u8>
    recommends
        enc_wf(st),
{
    match st.prev {
        Some(q) => {
            let flushed: Seq<u8> = if run_flushes(st.run, p, q) {
                seq![flush_byte(st.run)]
            } else {
                Seq::empty()
            };
            if p == q {
                flushed
            } else {
                flushed + fresh_bytes(st.cache, st.prev, p)
            }
        },
        None => fresh_bytes(st.cache, st.prev, p),
    }
}

/// The state after processing one pixel: the cache slot of `p` is
/// overwritten with `p`, `p` becomes the previous pixel, and the run
/// counter is advanced, whichever operation fired.
pub open spec fn step_state(st: EncState, p: QoiPixel) -> EncState {
    EncState {
        cache: st.cache.update(px_index(p), p),
        prev: Some(p),
        run: match st.prev {
            Some(q) => run_after(st.run, p, q),
            None => 0,
        },
    }
}

/// The bytes emitted for a whole pixel sequence, starting from `st`.
/// Bytes of a still-pending run are not included: they are emitted by a
/// later flush or by `final_flush`.
pub open spec fn encode_bytes_from(st: EncState, ps: Seq<QoiPixel>) -> Seq<u8>
    decreases ps.len(),
{
    if ps.len() == 0 {
        Seq::empty()
    } else {
        step_bytes(st, ps[0]) + encode_bytes_from(step_state(st, ps[0]), ps.skip(1))
    }
}

/// The encoder state after a whole pixel sequence.
pub open spec fn state_after(st: EncState, ps: Seq<QoiPixel>) -> EncState
    decreases ps.len(),
{
    if ps.len() == 0 {
        st
    } else {
        state_after(step_state(st, ps[0]), ps.skip(1))
    }
}

/// The bytes of the end-of-stream run flush.  Unlike an interior flush it
/// emits the counter unbiased; that asymmetry is the observed behaviour of
/// the encoder and is kept as it stands.
pub open spec fn final_flush_bytes(run: nat) -> Seq<u8> {
    if run > 0 {
        seq![(QOI_OP_RUN + run) as u8]
    } else {
        Seq::empty()
    }
}

/// The end-of-stream flush of a whole encoder state.
pub open spec fn final_flush(st: EncState) -> Seq<u8> {
    final_flush_bytes(st.run)
}

// ---- pixels, header, terminator, the whole stream ----

/// The pixel sequence read from a raw byte buffer: strides of three bytes
/// (r, g, b) with alpha synthesized as 255.  A trailing fragment shorter
/// than three bytes is dropped.
pub open spec fn pixels_of(buf: Seq<u8>) -> Seq<QoiPixel> {
    Seq::new(
        (buf.len() / 3) as nat,
        |i: int| QoiPixel { r: buf[3 * i], g: buf[3 * i + 1], b: buf[3 * i + 2], a: 255 },
    )
}

/// The four bytes of a 32-bit value in big-endian order.
pub open spec fn be32(v: u32) -> Seq<u8> {
    seq![
        (v / 0x1000000) as u8,
        ((v / 0x10000) % 0x100) as u8,
        ((v / 0x100) % 0x100) as u8,
        (v % 0x100) as u8,
    ]
}

/// The 14-byte header: magic "qoif", width and height big-endian, a fixed
/// channel count of 3 and a fixed colorspace byte of 1.
pub open spec fn header_bytes(width: u32, height: u32) -> Seq<u8> {
    seq![0x71u8, 0x6fu8, 0x69u8, 0x66u8] + be32(width) + be32(height) + seq![3u8, 1u8]
}

/// The fixed 8-byte end-of-stream marker.
pub open spec fn terminator() -> Seq<u8> {
    seq![0u8, 0u8, 0u8, 0u8, 0u8, 0u8, 0u8, 1u8]
}

/// The operation stream of a raw buffer: every per-pixel operation, then
/// the final run flush.
pub open spec fn qoi_ops(buf: Seq<u8>) -> Seq<u8> {
    encode_bytes_from(init_state(), pixels_of(buf)) + final_flush(
        state_after(init_state(), pixels_of(buf)),
    )
}

/// The complete encoded stream: header, operations, terminator.
pub open spec fn qoi_stream(width: u32, height: u32, buf: Seq<u8>) -> Seq<u8> {
    header_bytes(width, height) + qoi_ops(buf) + terminator()
}

/// Whether a buffer is small enough to encode: the stream can never
/// outgrow five bytes per pixel plus header, final flush and terminator,
/// and the byte buffer the encoder fills refuses to hold more than
/// `usize::MAX / 2` bytes.
pub open spec fn encodable(buf: Seq<u8>) -> bool {
    23 + 5 * (buf.len() / 3) <= usize::MAX / 2
}

// ---- basic facts the encoder proof leans on ----

/// A well-formed state stays well-formed across one pixel.
pub proof fn lemma_step_wf(st: EncState, p: QoiPixel)
    requires
        enc_wf(st),
    ensures
        enc_wf(step_state(st, p)),
{
}

/// One pixel emits at most five bytes (a flush byte plus a raw RGB).
pub proof fn lemma_step_bytes_len(st: EncState, p: QoiPixel)
    requires
        enc_wf(st),
    ensures
        step_bytes(st, p).len() <= 5,
{
}

/// Law: the four big-endian bytes of a stored dimension recombine to the
/// value itself: the header loses nothing of a 32-bit width or height.
pub proof fn lemma_be32_recovers(v: u32)
    ensures
        be32(v).len() == 4,
        be32(v)[0] * 0x1000000 + be32(v)[1] * 0x10000 + be32(v)[2] * 0x100 + be32(v)[3] == v,
{
    assert(((v / 0x1000000) as u8) * 0x1000000 + (((v / 0x10000) % 0x100) as u8) * 0x10000 + (((v
        / 0x100) % 0x100) as u8) * 0x100 + ((v % 0x100) as u8) == v) by (bit_vector);
}

/// Law: the last eight bytes of every encoded stream are the terminator,
/// seven zero bytes and a one.
pub proof fn lemma_terminator_exactness(width: u32, height: u32, buf: Seq<u8>)
    ensures
        qoi_stream(width, height, buf).len() >= 8,
        qoi_stream(width, height, buf).skip(qoi_stream(width, height, buf).len() - 8)
            == terminator(),
{
    let s = qoi_stream(width, height, buf);
    let front = header_bytes(width, height) + qoi_ops(buf);
    assert(s == front + terminator());
    assert(s.skip(s.len() - 8) =~= terminator());
}

/// Law: a pixel whose wrapped channel deltas from its predecessor are
/// exactly (+1, 0, -2), alpha unchanged, fits DIFF; when its cache slot
/// misses, its operation is the single DIFF byte — never LUMA or RGB.
pub proof fn lemma_diff_boundary(st: EncState, p: QoiPixel, q: QoiPixel)
    requires
        enc_wf(st),
        st.prev == Some(q),
        wsub(p.r, q.r) == 1,
        wsub(p.g, q.g) == 0,
        wsub(p.b, q.b) == 254,
        p.a == q.a,
        st.cache[px_index(p)] != p,
    ensures
        diff_fits(p, q),
        fresh_bytes(st.cache, st.prev, p) == seq![diff_byte(p, q)],
        QOI_OP_DIFF <= diff_byte(p, q) < QOI_OP_LUMA,
{
}

/// Law: a green delta of exactly +31 whose red and blue terms land in
/// [0, 15] selects the two-byte LUMA form (on a cache miss); DIFF can
/// never fit such a pixel.
pub proof fn lemma_luma_boundary(st: EncState, p: QoiPixel, q: QoiPixel)
    requires
        enc_wf(st),
        st.prev == Some(q),
        luma_green(p, q) == 31,
        luma_red(p, q) <= 15,
        luma_blue(p, q) <= 15,
        st.cache[px_index(p)] != p,
    ensures
        luma_fits(p, q),
        !diff_fits(p, q),
        fresh_bytes(st.cache, st.prev, p) == seq![luma_byte0(p, q), luma_byte1(p, q)],
        QOI_OP_LUMA <= luma_byte0(p, q) < QOI_OP_RUN,
{
}

/// Law: a green delta of exactly +32 never selects LUMA, and cannot fit
/// DIFF either: the pixel falls through to INDEX on a cache hit, else to
/// the raw RGB fallback.
pub proof fn lemma_luma_green_32(st: EncState, p: QoiPixel, q: QoiPixel)
    requires
        enc_wf(st),
        st.prev == Some(q),
        luma_green(p, q) == 32,
    ensures
        !luma_fits(p, q),
        !diff_fits(p, q),
        fresh_bytes(st.cache, st.prev, p) == if st.cache[px_index(p)] == p {
            seq![px_index(p) as u8]
        } else {
            seq![QOI_OP_RGB, p.r, p.g, p.b]
        },
{
}

/// Law: a pixel equal to the pixel cached at its own slot — and not
/// extending a run — encodes as the single INDEX byte, whatever else
/// might have fit.
pub proof fn lemma_index_hit(st: EncState, p: QoiPixel)
    requires
        enc_wf(st),
        st.cache[px_index(p)] == p,
    ensures
        fresh_bytes(st.cache, st.prev, p) == seq![px_index(p) as u8],
        0 <= px_index(p) < 64,
{
}

/// Appending one pixel appends that pixel's bytes.
pub proof fn lemma_encode_snoc(st: EncState, ps: Seq<QoiPixel>, p: QoiPixel)
    ensures
        encode_bytes_from(st, ps.push(p)) == encode_bytes_from(st, ps) + step_bytes(
            state_after(st, ps),
            p,
        ),
        state_after(st, ps.push(p)) == step_state(state_after(st, ps), p),
    decreases ps.len(),
{
    if ps.len() == 0 {
        reveal_with_fuel(encode_bytes_from, 2);
        reveal_with_fuel(state_after, 2);
        assert(ps.push(p)[0] == p);
        assert(ps.push(p).skip(1) =~= Seq::<QoiPixel>::empty());
        assert(step_bytes(st, p) + Seq::<u8>::empty() =~= step_bytes(st, p));
        assert(Seq::<u8>::empty() + step_bytes(st, p) =~= step_bytes(st, p));
    } else {
        let q = ps[0];
        let st1 = step_state(st, q);
        assert(ps.push(p)[0] == q);
        assert(ps.push(p).skip(1) =~= ps.skip(1).push(p));
        lemma_encode_snoc(st1, ps.skip(1), p);
        assert(step_bytes(st, q) + (encode_bytes_from(st1, ps.skip(1)) + step_bytes(
            state_after(st1, ps.skip(1)),
            p,
        )) =~= (step_bytes(st, q) + encode_bytes_from(st1, ps.skip(1))) + step_bytes(
            state_after(st1, ps.skip(1)),
            p,
        ));
    }
}

} // verus!
