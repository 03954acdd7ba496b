//! The QOI encoder.
//!
//! For each pixel the encoder tries five operations in a fixed priority
//! order — run, index, diff, luma, raw RGB — and stops at the first that
//! succeeds.  Every function is proved to append to the output buffer
//! exactly the bytes the model in `qoi_spec` prescribes.
use vstd::prelude::*;

use crate::bytebuf::{buf_bytes, buf_put_u8, buf_to_vec, buf_with_capacity};
use crate::image::{Image, ImageCodec, ImageFormat};
use crate::qoi_spec::{
    diff_byte, diff_fits, diff_term, enc_wf, encodable, encode_bytes_from, final_flush_bytes,
    flush_byte, header_bytes, init_state, lemma_encode_snoc, lemma_step_bytes_len, lemma_step_wf,
    luma_byte0, luma_byte1, luma_fits, pixels_of, px_index, qoi_ops, qoi_stream, run_after,
    run_flushes, state_after, step_bytes, step_state, terminator, wadd, zero_pixel, EncState,
    QoiPixel, QOI_OP_DIFF, QOI_OP_INDEX, QOI_OP_LUMA, QOI_OP_RGB, QOI_OP_RUN,
};

verus! {

/// The QOI format bound to a pixel source.
pub struct Qoi<'a> {
    image: &'a Image,
}

impl<'a> Qoi<'a> {
    /// Binds the format to a pixel source.
    pub fn from_image(image: &'a Image) -> (r: Qoi<'a>)
        ensures
            r.spec_image() == *image,
    {
        Qoi { image }
    }

    /// The cache slot of a pixel.
    fn index_position(pixel: &QoiPixel) -> (r: usize)
        ensures
            r as int == px_index(*pixel),
            r < 64,
    {
        ((pixel.r as u32 * 3 + pixel.g as u32 * 5 + pixel.b as u32 * 7 + pixel.a as u32 * 11)
            % 64) as usize
    }

    /// One channel's DIFF term: the wrapped delta biased by 2, if it
    /// lands in [0, 3].
    fn channel_diff(cur: u8, prev: u8) -> (r: Option<u8>)
        ensures
            r == if diff_term(cur, prev) <= 3 {
                Some(diff_term(cur, prev))
            } else {
                None::<u8>
            },
    {
        let d = cur.wrapping_sub(prev).wrapping_add(2);
        if d <= 3 {
            Some(d)
        } else {
            None
        }
    }

    /// Emits the 14-byte header: magic, big-endian width and height
    /// (truncated to 32 bits, unchecked, as the format stores them), a
    /// channel count of 3 and a colorspace byte of 1.
    fn qoi_header(&self, contents: &mut bytes::BytesMut)
        requires
            buf_bytes(*old(contents)).len() + 14 <= usize::MAX / 2,
        ensures
            buf_bytes(*final(contents)) == buf_bytes(*old(contents)) + header_bytes(
                self.spec_image().spec_width() as u32,
                self.spec_image().spec_height() as u32,
            ),
    {
        buf_put_u8(contents, 0x71);  // 'q'
        buf_put_u8(contents, 0x6f);  // 'o'
        buf_put_u8(contents, 0x69);  // 'i'
        buf_put_u8(contents, 0x66);  // 'f'
        crate::bytebuf::buf_put_u32(contents, #[verifier::truncate] (self.image.width() as u32));
        crate::bytebuf::buf_put_u32(contents, #[verifier::truncate] (self.image.height() as u32));
        buf_put_u8(contents, 3);
        buf_put_u8(contents, 1);
        proof {
            assert(buf_bytes(*contents) =~= buf_bytes(*old(contents)) + header_bytes(
                self.spec_image().spec_width() as u32,
                self.spec_image().spec_height() as u32,
            ));
        }
    }

    /// INDEX: one byte referencing the cache slot of the pixel, emitted
    /// exactly when that slot already holds the pixel.
    fn encode_op_index(
        contents: &mut bytes::BytesMut,
        pixel: &QoiPixel,
        prev_array: &Vec<QoiPixel>,
        pixel_idx: usize,
    ) -> (consumed: bool)
        requires
            prev_array@.len() == 64,
            pixel_idx as int == px_index(*pixel),
            buf_bytes(*old(contents)).len() + 1 <= usize::MAX / 2,
        ensures
            consumed == (prev_array@[pixel_idx as int] == *pixel),
            buf_bytes(*final(contents)) == if consumed {
                buf_bytes(*old(contents)).push(pixel_idx as u8)
            } else {
                buf_bytes(*old(contents))
            },
    {
        if *pixel == prev_array[pixel_idx] {
            let idx8 = pixel_idx as u8;
            proof {
                assert((QOI_OP_INDEX | idx8) == idx8) by (bit_vector);
            }
            buf_put_u8(contents, QOI_OP_INDEX | idx8);
            true
        } else {
            false
        }
    }

    /// DIFF: one byte holding all three channel deltas, emitted exactly
    /// when each biased delta fits in two bits.
    fn encode_op_diff(
        contents: &mut bytes::BytesMut,
        pixel: &QoiPixel,
        prev_pixel: &QoiPixel,
    ) -> (consumed: bool)
        requires
            buf_bytes(*old(contents)).len() + 1 <= usize::MAX / 2,
        ensures
            consumed == diff_fits(*pixel, *prev_pixel),
            buf_bytes(*final(contents)) == if consumed {
                buf_bytes(*old(contents)).push(diff_byte(*pixel, *prev_pixel))
            } else {
                buf_bytes(*old(contents))
            },
    {
        let rd = Self::channel_diff(pixel.r, prev_pixel.r);
        let gd = Self::channel_diff(pixel.g, prev_pixel.g);
        let bd = Self::channel_diff(pixel.b, prev_pixel.b);

        if let (Some(rd), Some(gd), Some(bd)) = (rd, gd, bd) {
            proof {
                assert((QOI_OP_DIFF | (rd << 4) | (gd << 2) | bd) == (0x40 + rd * 16 + gd * 4
                    + bd) as u8) by (bit_vector)
                    requires
                        rd <= 3 && gd <= 3 && bd <= 3,
                ;
            }
            buf_put_u8(contents, QOI_OP_DIFF | (rd << 4) | (gd << 2) | bd);
            return true;
        }
        false
    }

    /// LUMA: two bytes, emitted exactly when the green delta is a signed
    /// value in [-32, 31] and the red and blue terms fit in [0, 15].
    fn encode_op_luma(
        contents: &mut bytes::BytesMut,
        pixel: &QoiPixel,
        prev_pixel: &QoiPixel,
    ) -> (consumed: bool)
        requires
            buf_bytes(*old(contents)).len() + 2 <= usize::MAX / 2,
        ensures
            consumed == luma_fits(*pixel, *prev_pixel),
            buf_bytes(*final(contents)) == if consumed {
                buf_bytes(*old(contents)).push(luma_byte0(*pixel, *prev_pixel)).push(
                    luma_byte1(*pixel, *prev_pixel),
                )
            } else {
                buf_bytes(*old(contents))
            },
    {
        let green_diff = pixel.g.wrapping_sub(prev_pixel.g);
        if green_diff <= 31 || green_diff >= 224 {
            let rdiff = pixel.r.wrapping_sub(prev_pixel.r).wrapping_sub(green_diff).wrapping_add(
                8,
            );
            let bdiff = pixel.b.wrapping_sub(prev_pixel.b).wrapping_sub(green_diff).wrapping_add(
                8,
            );
            if rdiff <= 15 && bdiff <= 15 {
                let green_biased = green_diff.wrapping_add(32);
                proof {
                    assert(wadd(green_diff, 32) <= 63);
                    assert((QOI_OP_LUMA | green_biased) == (0x80 + green_biased) as u8)
                        by (bit_vector)
                        requires
                            green_biased <= 63,
                    ;
                    assert(((rdiff << 4) | bdiff) == (rdiff * 16 + bdiff) as u8) by (bit_vector)
                        requires
                            rdiff <= 15 && bdiff <= 15,
                    ;
                }
                buf_put_u8(contents, QOI_OP_LUMA | green_biased);
                buf_put_u8(contents, (rdiff << 4) | bdiff);
                return true;
            }
        }
        false
    }

    /// RUN: flushes the pending run when the pixel breaks it or the
    /// counter is full, then extends the run exactly when the pixel
    /// repeats the previous one.  A continued run emits nothing yet.
    fn encode_op_run(
        contents: &mut bytes::BytesMut,
        pixel: &QoiPixel,
        prev_pixel: &QoiPixel,
        prev_pixel_run_cnt: &mut u8,
    ) -> (consumed: bool)
        requires
            *old(prev_pixel_run_cnt) <= 62,
            buf_bytes(*old(contents)).len() + 1 <= usize::MAX / 2,
        ensures
            consumed == (*pixel == *prev_pixel),
            *final(prev_pixel_run_cnt) as nat == run_after(
                *old(prev_pixel_run_cnt) as nat,
                *pixel,
                *prev_pixel,
            ),
            buf_bytes(*final(contents)) == if run_flushes(
                *old(prev_pixel_run_cnt) as nat,
                *pixel,
                *prev_pixel,
            ) {
                buf_bytes(*old(contents)).push(flush_byte(*old(prev_pixel_run_cnt) as nat))
            } else {
                buf_bytes(*old(contents))
            },
    {
        let cnt = *prev_pixel_run_cnt;
        if (*pixel != *prev_pixel || cnt >= 62) && cnt > 0 {
            let biased = cnt - 1;
            proof {
                assert((QOI_OP_RUN | biased) == (0xc0 + biased) as u8) by (bit_vector)
                    requires
                        biased <= 61,
                ;
            }
            buf_put_u8(contents, QOI_OP_RUN | biased);
            *prev_pixel_run_cnt = 0;
        }
        if *pixel == *prev_pixel {
            *prev_pixel_run_cnt = *prev_pixel_run_cnt + 1;
            return true;
        }
        false
    }

    /// The end-of-stream run flush: emits the unbiased counter, an
    /// asymmetry with the interior flush kept as observed behaviour.
    fn encode_op_run_final(contents: &mut bytes::BytesMut, prev_pixel_run_cnt: &mut u8)
        requires
            *old(prev_pixel_run_cnt) <= 62,
            buf_bytes(*old(contents)).len() + 1 <= usize::MAX / 2,
        ensures
            buf_bytes(*final(contents)) == buf_bytes(*old(contents)) + final_flush_bytes(
                *old(prev_pixel_run_cnt) as nat,
            ),
            *final(prev_pixel_run_cnt) == 0,
    {
        let cnt = *prev_pixel_run_cnt;
        if cnt > 0 {
            proof {
                assert((QOI_OP_RUN | cnt) == (0xc0 + cnt) as u8) by (bit_vector)
                    requires
                        cnt <= 62,
                ;
                assert(buf_bytes(*old(contents)).push((0xc0 + cnt) as u8) =~= buf_bytes(
                    *old(contents),
                ) + final_flush_bytes(cnt as nat));
            }
            buf_put_u8(contents, QOI_OP_RUN | cnt);
            *prev_pixel_run_cnt = 0;
        } else {
            proof {
                assert(buf_bytes(*old(contents)) + final_flush_bytes(cnt as nat) =~= buf_bytes(
                    *old(contents),
                ));
            }
            *prev_pixel_run_cnt = 0;
        }
    }

    /// RGB: the unconditional four-byte fallback.
    fn encode_op_rgb(contents: &mut bytes::BytesMut, pixel: &QoiPixel) -> (consumed: bool)
        requires
            buf_bytes(*old(contents)).len() + 4 <= usize::MAX / 2,
        ensures
            consumed,
            buf_bytes(*final(contents)) == buf_bytes(*old(contents)) + seq![
                QOI_OP_RGB,
                pixel.r,
                pixel.g,
                pixel.b,
            ],
    {
        buf_put_u8(contents, QOI_OP_RGB);
        buf_put_u8(contents, pixel.r);
        buf_put_u8(contents, pixel.g);
        buf_put_u8(contents, pixel.b);
        proof {
            assert(buf_bytes(*contents) =~= buf_bytes(*old(contents)) + seq![
                QOI_OP_RGB,
                pixel.r,
                pixel.g,
                pixel.b,
            ]);
        }
        true
    }

    /// Consumes the pixel buffer in strides of three bytes (a shorter
    /// trailing fragment is dropped), runs the operation chain on every
    /// pixel, then appends the final run flush and the terminator.
    fn qoi_encode(&self, contents: &mut bytes::BytesMut)
        requires
            buf_bytes(*old(contents)).len() + 5 * (self.spec_image().spec_pixels().len() / 3) + 9
                <= usize::MAX / 2,
        ensures
            buf_bytes(*final(contents)) == buf_bytes(*old(contents)) + qoi_ops(
                self.spec_image().spec_pixels(),
            ) + terminator(),
    {
        let ghost buf: Seq<u8> = self.spec_image().spec_pixels();
        let ghost ps: Seq<QoiPixel> = pixels_of(buf);
        let ghost start: Seq<u8> = buf_bytes(*contents);

        let zero = QoiPixel { r: 0, g: 0, b: 0, a: 0 };
        let mut prev_array: Vec<QoiPixel> = Vec::new();
        let mut k: usize = 0;
        while k < 64
            invariant
                k <= 64,
                zero == zero_pixel(),
                prev_array@ == Seq::new(k as nat, |j: int| zero_pixel()),
                buf_bytes(*contents) == start,
            decreases 64 - k,
        {
            let ghost before: Seq<QoiPixel> = prev_array@;
            prev_array.push(zero);
            k += 1;
            proof {
                assert(before.push(zero) =~= Seq::new(k as nat, |j: int| zero_pixel()));
            }
        }

        let pixel_buffer = self.image.pixels();
        let n_bytes = pixel_buffer.len();
        let mut i: usize = 0;
        let mut prev_pixel_ref: Option<QoiPixel> = None;
        let mut prev_pixel_run_cnt: u8 = 0;
        let ghost mut n: int = 0;

        proof {
            assert(prev_array@ =~= init_state().cache);
            assert(ps.take(0) =~= Seq::<QoiPixel>::empty());
        }

        while n_bytes - i >= 3
            invariant
                n_bytes == buf.len(),
                buf == self.spec_image().spec_pixels(),
                pixel_buffer@ == buf,
                ps == pixels_of(buf),
                i as int == 3 * n,
                0 <= n <= ps.len(),
                i <= n_bytes,
                prev_array@.len() == 64,
                prev_array@ == state_after(init_state(), ps.take(n)).cache,
                prev_pixel_ref == state_after(init_state(), ps.take(n)).prev,
                prev_pixel_run_cnt as nat == state_after(init_state(), ps.take(n)).run,
                enc_wf(state_after(init_state(), ps.take(n))),
                buf_bytes(*contents) == start + encode_bytes_from(init_state(), ps.take(n)),
                buf_bytes(*contents).len() <= start.len() + 5 * n,
                start.len() + 5 * (buf.len() / 3) + 9 <= usize::MAX / 2,
            decreases n_bytes - i,
        {
            proof {
                vstd::arithmetic::div_mod::lemma_div_is_ordered(
                    3 * (n + 1),
                    buf.len() as int,
                    3,
                );
                vstd::arithmetic::div_mod::lemma_div_by_multiple(n + 1, 3);
                assert(n + 1 <= buf.len() as int / 3);
            }
            let r = pixel_buffer[i];
            let g = pixel_buffer[i + 1];
            let b = pixel_buffer[i + 2];
            let pixel = QoiPixel { r, g, b, a: 255 };
            let ghost st: EncState = state_after(init_state(), ps.take(n));
            proof {
                assert(ps[n] == pixel);
                lemma_step_bytes_len(st, pixel);
                lemma_step_wf(st, pixel);
            }
            let pixel_idx = Self::index_position(&pixel);
            let ghost pre: Seq<u8> = buf_bytes(*contents);

            let mut consumed = false;
            if let Some(prev_pixel) = prev_pixel_ref {
                if Self::encode_op_run(contents, &pixel, &prev_pixel, &mut prev_pixel_run_cnt) {
                    consumed = true;
                }
            }
            if !consumed {
                if Self::encode_op_index(contents, &pixel, &prev_array, pixel_idx) {
                    consumed = true;
                }
            }
            if !consumed {
                if let Some(prev_pixel) = prev_pixel_ref {
                    if Self::encode_op_diff(contents, &pixel, &prev_pixel) {
                        consumed = true;
                    }
                }
            }
            if !consumed {
                if let Some(prev_pixel) = prev_pixel_ref {
                    if Self::encode_op_luma(contents, &pixel, &prev_pixel) {
                        consumed = true;
                    }
                }
            }
            if !consumed {
                Self::encode_op_rgb(contents, &pixel);
            }

            prev_array[pixel_idx] = pixel;
            prev_pixel_ref = Some(pixel);
            i = i + 3;
            proof {
                assert(buf_bytes(*contents) =~= pre + step_bytes(st, pixel));
                assert(ps.take(n + 1) =~= ps.take(n).push(pixel));
                lemma_encode_snoc(init_state(), ps.take(n), pixel);
                assert((start + encode_bytes_from(init_state(), ps.take(n))) + step_bytes(
                    st,
                    pixel,
                ) =~= start + (encode_bytes_from(init_state(), ps.take(n)) + step_bytes(
                    st,
                    pixel,
                )));
                n = n + 1;
            }
        }

        proof {
            vstd::arithmetic::div_mod::lemma_fundamental_div_mod_converse_div(
                buf.len() as int,
                3,
                n,
                buf.len() - 3 * n,
            );
            assert(n == ps.len());
            assert(ps.take(n) =~= ps);
        }

        Self::encode_op_run_final(contents, &mut prev_pixel_run_cnt);
        proof {
            assert(buf_bytes(*contents) =~= start + qoi_ops(buf));
        }
        let ghost with_ops: Seq<u8> = buf_bytes(*contents);
        buf_put_u8(contents, 0);
        buf_put_u8(contents, 0);
        buf_put_u8(contents, 0);
        buf_put_u8(contents, 0);
        buf_put_u8(contents, 0);
        buf_put_u8(contents, 0);
        buf_put_u8(contents, 0);
        buf_put_u8(contents, 1);
        proof {
            assert(buf_bytes(*contents) =~= with_ops + terminator());
            assert(with_ops + terminator() =~= (start + qoi_ops(buf)) + terminator());
        }
    }
}

impl<'a> ImageFormat for Qoi<'a> {
    open spec fn spec_name() -> Seq<char> {
        "Qoi"@
    }

    closed spec fn spec_image(&self) -> Image {
        *self.image
    }

    fn format_name() -> (r: &'static str) {
        "Qoi"
    }

    fn get_raw_image(&self) -> (r: &Image) {
        self.image
    }
}

impl<'a> ImageCodec for Qoi<'a> {
    open spec fn serialized_bytes(&self) -> Seq<u8> {
        qoi_stream(
            self.spec_image().spec_width() as u32,
            self.spec_image().spec_height() as u32,
            self.spec_image().spec_pixels(),
        )
    }

    open spec fn can_serialize(&self) -> bool {
        encodable(self.spec_image().spec_pixels())
    }

    fn serialize(&self) -> (r: Vec<u8>) {
        let mut contents = buf_with_capacity(1024);
        self.qoi_header(&mut contents);
        self.qoi_encode(&mut contents);
        proof {
            let width = self.spec_image().spec_width() as u32;
            let height = self.spec_image().spec_height() as u32;
            let pixels = self.spec_image().spec_pixels();
            assert(buf_bytes(contents) =~= qoi_stream(width, height, pixels));
        }
        buf_to_vec(&contents)
    }
}

} // verus!
