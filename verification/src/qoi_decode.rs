//! A specification-level QOI decoder, and the laws it supports.
//!
//! No executable decoder exists here; this one reads an operation stream
//! back into pixels so that the encoder can be held to it: every stream
//! the encoder emits reads back to its input, except that a run still
//! pending at end of stream reads back one pixel long (the final flush
//! emits its counter unbiased, where the format biases it by one), and a
//! pending run of exactly 62 leaves a stream whose last operation cannot
//! be read at all (its flush byte collides with the raw RGB tag).
use vstd::prelude::*;

use crate::qoi_spec::{
    diff_byte, diff_fits, diff_term, enc_wf, encode_bytes_from, final_flush, final_flush_bytes,
    flush_byte, fresh_bytes, init_state, luma_byte0, luma_byte1, luma_fits, luma_green, luma_red,
    luma_blue, pixels_of, px_index, qoi_ops, run_flushes, state_after, step_bytes, step_state,
    wadd, wsub, zero_pixel, EncState, QoiPixel,
};

verus! {

/// The decoder's state: the same 64-slot cache, and the previous pixel,
/// which starts opaque black with full alpha.
pub struct DecState {
    pub cache: Seq<QoiPixel>,
    pub prev: QoiPixel,
}

/// The decoder's starting state.
pub open spec fn dec_init() -> DecState {
    DecState {
        cache: Seq::new(64, |i: int| zero_pixel()),
        prev: QoiPixel { r: 0, g: 0, b: 0, a: 255 },
    }
}

/// The decoder after producing one pixel: the same unconditional cache
/// write the encoder performs.
pub open spec fn dec_upd(st: DecState, p: QoiPixel) -> DecState {
    DecState { cache: st.cache.update(px_index(p), p), prev: p }
}

/// Reads an operation stream back into pixels; `None` on a truncated
/// stream.  Runs repeat the previous pixel with the counter biased by
/// one, as the format prescribes.
pub open spec fn decode_ops(st: DecState, s: Seq<u8>) -> Option<Seq<QoiPixel>>
    decreases s.len(),
{
    if s.len() == 0 {
        Some(Seq::empty())
    } else {
        let b0 = s[0];
        if b0 == 0xfe {
            // raw RGB; alpha carried over
            if s.len() >= 4 {
                let p = QoiPixel { r: s[1], g: s[2], b: s[3], a: st.prev.a };
                match decode_ops(dec_upd(st, p), s.skip(4)) {
                    Some(rest) => Some(seq![p] + rest),
                    None => None,
                }
            } else {
                None
            }
        } else if b0 == 0xff {
            // raw RGBA; never emitted by this encoder, read for completeness
            if s.len() >= 5 {
                let p = QoiPixel { r: s[1], g: s[2], b: s[3], a: s[4] };
                match decode_ops(dec_upd(st, p), s.skip(5)) {
                    Some(rest) => Some(seq![p] + rest),
                    None => None,
                }
            } else {
                None
            }
        } else if b0 < 0x40 {
            // INDEX: the cached pixel
            let p = st.cache[b0 as int];
            match decode_ops(dec_upd(st, p), s.skip(1)) {
                Some(rest) => Some(seq![p] + rest),
                None => None,
            }
        } else if b0 < 0x80 {
            // DIFF: three biased two-bit deltas
            let p = QoiPixel {
                r: wadd(st.prev.r, wsub(((b0 as int / 16) % 4) as u8, 2)),
                g: wadd(st.prev.g, wsub(((b0 as int / 4) % 4) as u8, 2)),
                b: wadd(st.prev.b, wsub((b0 as int % 4) as u8, 2)),
                a: st.prev.a,
            };
            match decode_ops(dec_upd(st, p), s.skip(1)) {
                Some(rest) => Some(seq![p] + rest),
                None => None,
            }
        } else if b0 < 0xc0 {
            // LUMA: a biased green delta, then red and blue terms
            if s.len() >= 2 {
                let dg = wsub((b0 - 0x80) as u8, 32);
                let p = QoiPixel {
                    r: wadd(st.prev.r, wadd(dg, wsub((s[1] as int / 16) as u8, 8))),
                    g: wadd(st.prev.g, dg),
                    b: wadd(st.prev.b, wadd(dg, wsub((s[1] as int % 16) as u8, 8))),
                    a: st.prev.a,
                };
                match decode_ops(dec_upd(st, p), s.skip(2)) {
                    Some(rest) => Some(seq![p] + rest),
                    None => None,
                }
            } else {
                None
            }
        } else {
            // RUN: the counter is biased by one
            let reps = (b0 - 0xc0) + 1;
            let st2 = dec_upd(st, st.prev);
            match decode_ops(st2, s.skip(1)) {
                Some(rest) => Some(Seq::new(reps as nat, |i: int| st.prev) + rest),
                None => None,
            }
        }
    }
}

/// The pixels of a run the encoder has consumed but not yet flushed.
pub open spec fn pending(e: EncState) -> Seq<QoiPixel> {
    match e.prev {
        Some(q) => Seq::new(e.run, |i: int| q),
        None => Seq::empty(),
    }
}

/// The previous pixel of a state, where one exists.
pub open spec fn prev_of(e: EncState) -> QoiPixel {
    match e.prev {
        Some(q) => q,
        None => zero_pixel(),
    }
}

/// How the decoder's state tracks the encoder's between operations: the
/// same cache; the previous pixel agrees and its own cache slot holds it;
/// alpha stays 255 throughout.
pub open spec fn corresponds(e: EncState, d: DecState) -> bool {
    &&& d.cache == e.cache
    &&& d.prev.a == 255
    &&& match e.prev {
        Some(q) => d.prev == q && e.cache[px_index(q)] == q,
        None => e.run == 0,
    }
}

/// What reading back the stream for `ps`, started in state `e`, yields:
/// the pixels of the still-pending run, then `ps`; one extra copy of the
/// last pixel when a run is still pending at the end (the unbiased final
/// flush); nothing readable when that pending run is exactly 62.
pub open spec fn read_back(e: EncState, ps: Seq<QoiPixel>) -> Option<Seq<QoiPixel>> {
    let fs = state_after(e, ps);
    if fs.run == 62 {
        None
    } else if fs.run > 0 {
        Some(pending(e) + ps + seq![prev_of(fs)])
    } else {
        Some(pending(e) + ps)
    }
}

// ---- wrapped-arithmetic inverses ----

/// Adding then subtracting the same byte cancels, modulo 256.
proof fn lemma_wsub_wadd_cancel(x: u8, k: u8)
    ensures
        wsub(wadd(x, k), k) == x,
{
}

/// The delta from `b` to `x`, added back to `b`, is `x`, modulo 256.
proof fn lemma_wadd_wsub_cancel(b: u8, x: u8)
    ensures
        wadd(b, wsub(x, b)) == x,
{
}

/// The prefix of the first pixel's bytes drops off the stream.
proof fn lemma_skip_of_add(a: Seq<u8>, b: Seq<u8>)
    ensures
        (a + b).skip(a.len() as int) =~= b,
        forall|j: int| 0 <= j < a.len() ==> #[trigger] (a + b)[j] == a[j],
{
}

/// The pixels a single step's bytes read back to: the pixels of a flushed
/// run, then the pixel itself unless it only extended the run.
pub open spec fn step_pixels(e: EncState, p: QoiPixel) -> Seq<QoiPixel> {
    match e.prev {
        Some(q) => {
            let flushed: Seq<QoiPixel> = if run_flushes(e.run, p, q) {
                Seq::new(e.run, |i: int| q)
            } else {
                Seq::empty()
            };
            if p == q {
                flushed
            } else {
                flushed + seq![p]
            }
        },
        None => seq![p],
    }
}

/// Across one step, the pixels read back so far plus those still pending
/// always account for exactly the pixels consumed.
proof fn lemma_step_pixels_pending(e: EncState, p: QoiPixel)
    requires
        enc_wf(e),
    ensures
        step_pixels(e, p) + pending(step_state(e, p)) == pending(e) + seq![p],
{
    assert(step_pixels(e, p) + pending(step_state(e, p)) =~= pending(e) + seq![p]);
}

/// A fresh operation's bytes read back to exactly its pixel: the index
/// byte looks the pixel up in the agreeing cache, and the diff, luma and
/// raw RGB bytes rebuild it from the agreeing previous pixel.
proof fn lemma_decode_fresh(e: EncState, d: DecState, p: QoiPixel, tail: Seq<u8>)
    requires
        enc_wf(e),
        corresponds(e, d),
        p.a == 255,
    ensures
        decode_ops(d, fresh_bytes(e.cache, e.prev, p) + tail) == (match decode_ops(
            dec_upd(d, p),
            tail,
        ) {
            Some(rest) => Some(seq![p] + rest),
            None => None::<Seq<QoiPixel>>,
        }),
{
    let fb = fresh_bytes(e.cache, e.prev, p);
    let s = fb + tail;
    lemma_skip_of_add(fb, tail);
    if e.cache[px_index(p)] == p {
        // INDEX
        assert(s[0] == px_index(p) as u8);
        assert(s[0] < 0x40);
        assert(s[0] as int == px_index(p));
        assert(d.cache[s[0] as int] == p);
        assert(s.skip(1) == tail);
    } else {
        match e.prev {
            Some(q) => {
                if diff_fits(p, q) {
                    // DIFF
                    let rd = diff_term(p.r, q.r);
                    let gd = diff_term(p.g, q.g);
                    let bd = diff_term(p.b, q.b);
                    let b0 = diff_byte(p, q);
                    assert(b0 == 0x40 + rd * 16 + gd * 4 + bd);
                    assert(0x40 <= b0 < 0x80);
                    assert((b0 / 16) % 4 == rd && (b0 / 4) % 4 == gd && b0 % 4 == bd)
                        by (bit_vector)
                        requires
                            b0 == (0x40 + rd * 16 + gd * 4 + bd) as u8 && rd <= 3 && gd <= 3 && bd
                                <= 3,
                    ;
                    assert(s[0] == b0);
                    lemma_wsub_wadd_cancel(wsub(p.r, q.r), 2);
                    lemma_wsub_wadd_cancel(wsub(p.g, q.g), 2);
                    lemma_wsub_wadd_cancel(wsub(p.b, q.b), 2);
                    lemma_wadd_wsub_cancel(q.r, p.r);
                    lemma_wadd_wsub_cancel(q.g, p.g);
                    lemma_wadd_wsub_cancel(q.b, p.b);
                    assert(wadd(d.prev.r, wsub(((b0 as int / 16) % 4) as u8, 2)) == p.r);
                    assert(wadd(d.prev.g, wsub(((b0 as int / 4) % 4) as u8, 2)) == p.g);
                    assert(wadd(d.prev.b, wsub((b0 as int % 4) as u8, 2)) == p.b);
                    assert(s.skip(1) == tail);
                } else if luma_fits(p, q) {
                    // LUMA
                    let dg = luma_green(p, q);
                    let rt = luma_red(p, q);
                    let bt = luma_blue(p, q);
                    let b0 = luma_byte0(p, q);
                    let b1 = luma_byte1(p, q);
                    assert(wadd(dg, 32) <= 63);
                    assert(b0 == 0x80 + wadd(dg, 32));
                    assert(0x80 <= b0 < 0xc0);
                    assert(s[0] == b0 && s[1] == b1);
                    assert(s.len() >= 2);
                    assert((b0 - 0x80) as u8 == wadd(dg, 32));
                    lemma_wsub_wadd_cancel(dg, 32);
                    assert(b1 == rt * 16 + bt);
                    assert(b1 / 16 == rt && b1 % 16 == bt) by (bit_vector)
                        requires
                            b1 == (rt * 16 + bt) as u8 && rt <= 15 && bt <= 15,
                    ;
                    lemma_wsub_wadd_cancel(wsub(wsub(p.r, q.r), dg), 8);
                    lemma_wsub_wadd_cancel(wsub(wsub(p.b, q.b), dg), 8);
                    lemma_wadd_wsub_cancel(dg, wsub(p.r, q.r));
                    lemma_wadd_wsub_cancel(dg, wsub(p.b, q.b));
                    lemma_wadd_wsub_cancel(q.r, p.r);
                    lemma_wadd_wsub_cancel(q.g, p.g);
                    lemma_wadd_wsub_cancel(q.b, p.b);
                    assert(wadd(d.prev.g, wsub((b0 - 0x80) as u8, 32)) == p.g);
                    assert(wadd(d.prev.r, wadd(wsub((b0 - 0x80) as u8, 32), wsub((b1 as int
                        / 16) as u8, 8))) == p.r);
                    assert(wadd(d.prev.b, wadd(wsub((b0 - 0x80) as u8, 32), wsub((b1 as int
                        % 16) as u8, 8))) == p.b);
                    assert(s.skip(2) == tail) by {
                        assert(s.skip(2) =~= tail);
                    };
                } else {
                    // raw RGB
                    assert(s[0] == 0xfe && s[1] == p.r && s[2] == p.g && s[3] == p.b);
                    assert(s.len() >= 4);
                    assert(s.skip(4) == tail) by {
                        assert(s.skip(4) =~= tail);
                    };
                }
            },
            None => {
                // raw RGB
                assert(s[0] == 0xfe && s[1] == p.r && s[2] == p.g && s[3] == p.b);
                assert(s.len() >= 4);
                assert(s.skip(4) == tail) by {
                    assert(s.skip(4) =~= tail);
                };
            },
        }
    }
}

/// The encoder's previous pixel after a sequence is its last pixel.
proof fn lemma_state_after_prev(e: EncState, ps: Seq<QoiPixel>)
    ensures
        ps.len() > 0 ==> state_after(e, ps).prev == Some(ps.last()),
        ps.len() == 0 ==> state_after(e, ps) == e,
    decreases ps.len(),
{
    if ps.len() > 0 {
        lemma_state_after_prev(step_state(e, ps[0]), ps.skip(1));
        if ps.len() == 1 {
            assert(ps.skip(1).len() == 0);
            assert(state_after(e, ps) == state_after(step_state(e, ps[0]), ps.skip(1)));
        } else {
            assert(ps.skip(1).last() == ps.last());
        }
    }
}

/// One step's bytes read back to `step_pixels`, leaving the decoder
/// tracking the stepped encoder.
proof fn lemma_decode_step(e: EncState, d: DecState, p: QoiPixel, tail: Seq<u8>)
    requires
        enc_wf(e),
        corresponds(e, d),
        p.a == 255,
    ensures
        corresponds(step_state(e, p), dec_upd(d, p)),
        decode_ops(d, step_bytes(e, p) + tail) == (match decode_ops(dec_upd(d, p), tail) {
            Some(rest) => Some(step_pixels(e, p) + rest),
            None => None::<Seq<QoiPixel>>,
        }),
{
    match e.prev {
        None => {
            assert(step_bytes(e, p) == fresh_bytes(e.cache, e.prev, p));
            lemma_decode_fresh(e, d, p, tail);
            match decode_ops(dec_upd(d, p), tail) {
                Some(rest) => {
                    assert(seq![p] + rest == step_pixels(e, p) + rest);
                },
                None => {},
            }
        },
        Some(q) => {
            if p == q {
                assert(dec_upd(d, p) == d) by {
                    assert(d.cache.update(px_index(q), q) =~= d.cache);
                };
                if run_flushes(e.run, p, q) {
                    // the run is full: one flush byte, nothing else
                    let fb = flush_byte(e.run);
                    let s = step_bytes(e, p) + tail;
                    assert(step_bytes(e, p) =~= seq![fb]);
                    lemma_skip_of_add(seq![fb], tail);
                    assert(s[0] == fb);
                    assert(0xc0 <= fb < 0xfe);
                    assert(s.skip(1) == tail);
                    assert((fb - 0xc0) + 1 == e.run);
                    match decode_ops(d, tail) {
                        Some(rest) => {
                            assert(Seq::new(e.run, |i: int| d.prev) + rest =~= step_pixels(e, p)
                                + rest);
                        },
                        None => {},
                    }
                } else {
                    // the pixel only extends the run: no bytes at all
                    assert(step_bytes(e, p) + tail =~= tail);
                    match decode_ops(d, tail) {
                        Some(rest) => {
                            assert(step_pixels(e, p) + rest =~= rest);
                        },
                        None => {},
                    }
                }
            } else {
                if run_flushes(e.run, p, q) {
                    // a flush byte, then the fresh operation
                    let fb = flush_byte(e.run);
                    let fresh = fresh_bytes(e.cache, e.prev, p);
                    let s = step_bytes(e, p) + tail;
                    assert(step_bytes(e, p) =~= seq![fb] + fresh);
                    assert(s =~= seq![fb] + (fresh + tail));
                    lemma_skip_of_add(seq![fb], fresh + tail);
                    assert(s[0] == fb);
                    assert(0xc0 <= fb < 0xfe);
                    assert(s.skip(1) == fresh + tail);
                    assert((fb - 0xc0) + 1 == e.run);
                    assert(dec_upd(d, d.prev) == d) by {
                        assert(d.cache.update(px_index(q), q) =~= d.cache);
                    };
                    lemma_decode_fresh(e, d, p, tail);
                    match decode_ops(dec_upd(d, p), tail) {
                        Some(rest) => {
                            assert(Seq::new(e.run, |i: int| d.prev) + (seq![p] + rest)
                                =~= step_pixels(e, p) + rest);
                        },
                        None => {},
                    }
                } else {
                    assert(step_bytes(e, p) == fresh_bytes(e.cache, e.prev, p));
                    lemma_decode_fresh(e, d, p, tail);
                    match decode_ops(dec_upd(d, p), tail) {
                        Some(rest) => {
                            assert(seq![p] + rest =~= step_pixels(e, p) + rest);
                        },
                        None => {},
                    }
                }
            }
        },
    }
}

/// The final flush alone reads back to the pending run, one long.
#[verifier::rlimit(100)]
proof fn lemma_final_flush_reads_back(e: EncState, d: DecState, ps: Seq<QoiPixel>)
    requires
        enc_wf(e),
        corresponds(e, d),
        ps.len() == 0,
    ensures
        decode_ops(d, encode_bytes_from(e, ps) + final_flush(state_after(e, ps))) == read_back(
            e,
            ps,
        ),
{
    let fs = state_after(e, ps);
    let s = encode_bytes_from(e, ps) + final_flush(fs);
    reveal_with_fuel(decode_ops, 2);
    assert(s =~= final_flush_bytes(e.run));
    if e.run == 0 {
        assert(s.len() == 0);
        assert(pending(e) + ps =~= Seq::<QoiPixel>::empty());
    } else if e.run == 62 {
        assert(s.len() == 1 && s[0] == 0xfe);
    } else {
        assert(s.len() == 1 && s[0] == (0xc0 + e.run) as u8);
        assert(0xc0 < s[0] < 0xfe);
        assert((s[0] - 0xc0) + 1 == e.run + 1);
        assert(s.skip(1) =~= Seq::<u8>::empty());
        assert(Seq::new((e.run + 1) as nat, |i: int| d.prev) + Seq::<QoiPixel>::empty()
            =~= pending(e) + ps + seq![prev_of(fs)]);
    }
}

/// The whole stream for `ps`, final flush included, reads back to
/// `read_back(e, ps)`.
#[verifier::rlimit(100)]
proof fn lemma_stream_reads_back(e: EncState, d: DecState, ps: Seq<QoiPixel>)
    requires
        enc_wf(e),
        corresponds(e, d),
        forall|i: int| 0 <= i < ps.len() ==> ps[i].a == 255,
    ensures
        decode_ops(d, encode_bytes_from(e, ps) + final_flush(state_after(e, ps))) == read_back(
            e,
            ps,
        ),
    decreases ps.len(),
{
    let fs = state_after(e, ps);
    if ps.len() == 0 {
        lemma_final_flush_reads_back(e, d, ps);
    } else {
        let p = ps[0];
        let e2 = step_state(e, p);
        let d2 = dec_upd(d, p);
        let rest_stream = encode_bytes_from(e2, ps.skip(1)) + final_flush(fs);
        assert(state_after(e2, ps.skip(1)) == fs);
        assert(encode_bytes_from(e, ps) + final_flush(fs) =~= step_bytes(e, p) + rest_stream);
        lemma_decode_step(e, d, p, rest_stream);
        crate::qoi_spec::lemma_step_wf(e, p);
        assert(forall|i: int| 0 <= i < ps.skip(1).len() ==> ps.skip(1)[i].a == 255);
        lemma_stream_reads_back(e2, d2, ps.skip(1));
        lemma_step_pixels_pending(e, p);
        if fs.run == 62 {
            assert(decode_ops(d2, rest_stream) is None);
        } else if fs.run > 0 {
            let rest = pending(e2) + ps.skip(1) + seq![prev_of(fs)];
            assert(decode_ops(d2, rest_stream) == Some(rest));
            assert(step_pixels(e, p) + rest =~= pending(e) + ps + seq![prev_of(fs)]);
        } else {
            let rest = pending(e2) + ps.skip(1);
            assert(decode_ops(d2, rest_stream) == Some(rest));
            assert(step_pixels(e, p) + rest =~= pending(e) + ps);
        }
    }
}

/// Law: any operation stream whose encoding ends with no pending run
/// reads back to exactly the pixels that were encoded — the round trip —
/// and in particular every decoded alpha is 255.
pub proof fn lemma_round_trip(buf: Seq<u8>)
    requires
        state_after(init_state(), pixels_of(buf)).run == 0,
    ensures
        decode_ops(dec_init(), qoi_ops(buf)) == Some(pixels_of(buf)),
{
    let ps = pixels_of(buf);
    assert(dec_init().cache =~= init_state().cache);
    lemma_stream_reads_back(init_state(), dec_init(), ps);
    assert(pending(init_state()) + ps =~= ps);
}

/// Law: whatever buffer is encoded, every pixel a decoder can read back
/// carries an alpha of 255: the source alpha channel is lost.
pub proof fn lemma_alpha_always_255(buf: Seq<u8>)
    ensures
        (match decode_ops(dec_init(), qoi_ops(buf)) {
            Some(ds) => forall|i: int| 0 <= i < ds.len() ==> ds[i].a == 255,
            None => true,
        }),
{
    let ps = pixels_of(buf);
    let fs = state_after(init_state(), ps);
    assert(dec_init().cache =~= init_state().cache);
    lemma_stream_reads_back(init_state(), dec_init(), ps);
    lemma_state_after_prev(init_state(), ps);
    if fs.run == 62 {
    } else if fs.run > 0 {
        assert(ps.len() > 0);
        assert(prev_of(fs).a == 255);
        assert(forall|i: int|
            0 <= i < (pending(init_state()) + ps + seq![prev_of(fs)]).len()
                ==> (pending(init_state()) + ps + seq![prev_of(fs)])[i].a == 255);
    } else {
        assert(forall|i: int|
            0 <= i < (pending(init_state()) + ps).len() ==> (pending(init_state()) + ps)[i].a
                == 255);
    }
}

} // verus!
