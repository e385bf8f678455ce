//! The template frame processor: the host-side model of the GPU path.  At
//! construction it renders a command-buffer template — every visible pixel's
//! `PX x y ` header followed by a placeholder color and a newline, after an
//! eight-byte sacrificial region — and a map from each pixel's linear index
//! to the byte offset of its color field (clipped pixels map to the
//! sacrificial region at offset zero).  Processing a frame overwrites each
//! color field with the pixel's eight hex digits and discards the
//! sacrificial bytes, which is exactly the per-pixel work the device kernels
//! perform.

use vstd::prelude::*;
use vstd::pervasive::VecAdditionalExecFns;

use crate::draw_strategy::DrawStrategy;
use crate::frame_processing::{spec_channels, FrameProcessor};
use crate::frame_source::Frame;
use crate::text::{hex_digit, push_dec_u16, spec_dec, spec_hex_digit};
use crate::SourceError;

verus! {

/// The lookup table the kernels index with a nibble: the sixteen lowercase
/// hex digit bytes.
pub fn digit_lookup() -> (r: Vec<u8>)
    ensures
        r@.len() == 16,
        forall|i: int| 0 <= i < 16 ==> r@[i] == spec_hex_digit(i as nat),
{
    let mut r: Vec<u8> = Vec::new();
    let mut d: u8 = 0;
    while d < 16
        invariant
            0 <= d <= 16,
            r@.len() == d,
            forall|i: int| 0 <= i < d ==> r@[i] == spec_hex_digit(i as nat),
        decreases 16 - d,
    {
        r.push(hex_digit(d));
        d += 1;
    }
    r
}

/// The placeholder color field: eight `X` bytes.
pub open spec fn spec_placeholder() -> Seq<u8> {
    seq![88u8, 88u8, 88u8, 88u8, 88u8, 88u8, 88u8, 88u8]
}

/// The eight-byte sacrificial region at the head of the template.
pub open spec fn spec_sacrificial() -> Seq<u8> {
    seq![0u8, 0u8, 0u8, 0u8, 0u8, 0u8, 0u8, 0u8]
}

/// The template bytes one draw-order entry contributes: nothing when
/// clipped, else `PX <x> <y> XXXXXXXX\n`.
pub open spec fn spec_template_entry(p: (u16, u16), offset: (u16, u16), canvas: (u16, u16)) -> Seq<
    u8,
> {
    if p.0 + offset.0 >= canvas.0 || p.1 + offset.1 >= canvas.1 {
        Seq::empty()
    } else {
        seq![80u8, 88u8, 32u8] + spec_dec((p.0 + offset.0) as nat) + seq![32u8] + spec_dec(
            (p.1 + offset.1) as nat,
        ) + seq![32u8] + spec_placeholder() + seq![10u8]
    }
}

/// The template after the first `k` draw-order entries.
pub open spec fn spec_template(
    draw: Seq<(u16, u16)>,
    offset: (u16, u16),
    canvas: (u16, u16),
    k: int,
) -> Seq<u8>
    decreases k,
{
    if k <= 0 {
        spec_sacrificial()
    } else {
        spec_template(draw, offset, canvas, k - 1) + spec_template_entry(draw[k - 1], offset, canvas)
    }
}

/// The byte offset of entry `k`'s color field within the full template:
/// everything before the entry, then its `PX <x> <y> ` header.
pub open spec fn spec_color_pos(
    draw: Seq<(u16, u16)>,
    offset: (u16, u16),
    canvas: (u16, u16),
    k: int,
) -> int {
    spec_template(draw, offset, canvas, k).len() as int + 3 + spec_dec(
        (draw[k].0 + offset.0) as nat,
    ).len() as int + 1 + spec_dec((draw[k].1 + offset.1) as nat).len() as int + 1
}

/// A buffer with the eight hex digits of an `(r, g, b, a)` pixel written at
/// `pos`.
pub open spec fn spec_patch8(t: Seq<u8>, pos: int, c: (u8, u8, u8, u8)) -> Seq<u8> {
    t.update(pos, spec_hex_digit(c.0 as nat / 16)).update(pos + 1, spec_hex_digit(c.0 as nat % 16))
        .update(pos + 2, spec_hex_digit(c.1 as nat / 16)).update(
        pos + 3,
        spec_hex_digit(c.1 as nat % 16),
    ).update(pos + 4, spec_hex_digit(c.2 as nat / 16)).update(
        pos + 5,
        spec_hex_digit(c.2 as nat % 16),
    ).update(pos + 6, spec_hex_digit(c.3 as nat / 16)).update(
        pos + 7,
        spec_hex_digit(c.3 as nat % 16),
    )
}

/// The template after the first `k` pixels (by linear index) have written
/// their hex digits at their color offsets.
pub open spec fn spec_fill(
    t: Seq<u8>,
    idx: Seq<usize>,
    pixels: Seq<[u8; 4]>,
    bgra: bool,
    k: int,
) -> Seq<u8>
    decreases k,
{
    if k <= 0 {
        t
    } else {
        spec_patch8(
            spec_fill(t, idx, pixels, bgra, k - 1),
            idx[k - 1] as int,
            spec_channels(pixels[k - 1], bgra),
        )
    }
}

/// A coordinate inside the rectangle has its linear index inside the grid.
pub proof fn lemma_lin_range(p: (u16, u16), w: u16, h: u16)
    requires
        p.0 < w,
        p.1 < h,
    ensures
        0 <= p.1 * w + p.0 < w * h,
{
    assert(p.1 * w + p.0 < w * h) by (nonlinear_arith)
        requires
            p.0 < w,
            p.1 < h,
    ;
}

/// How a finished template and color-offset map relate to the draw order
/// they were built over.
pub open spec fn spec_template_layout(
    template: Seq<u8>,
    color_idx: Seq<usize>,
    strategy: DrawStrategy,
    size: (u16, u16),
    offset: (u16, u16),
    canvas: (u16, u16),
    draw: Seq<(u16, u16)>,
) -> bool {
    &&& draw.len() == size.0 * size.1
    &&& draw.no_duplicates()
    &&& forall|k: int| 0 <= k < draw.len() ==> (#[trigger] draw[k]).0 < size.0 && draw[k].1 < size.1
    &&& crate::draw_strategy::spec_strategy_order(strategy, size.0, size.1, draw)
    &&& template == spec_template(draw, offset, canvas, draw.len() as int)
    &&& forall|k: int|
        0 <= k < draw.len() && !((#[trigger] draw[k]).0 + offset.0 >= canvas.0 || draw[k].1
            + offset.1 >= canvas.1) ==> color_idx[draw[k].1 * size.0 + draw[k].0] == spec_color_pos(
            draw,
            offset,
            canvas,
            k,
        )
    &&& forall|k: int|
        0 <= k < draw.len() && ((#[trigger] draw[k]).0 + offset.0 >= canvas.0 || draw[k].1
            + offset.1 >= canvas.1) ==> color_idx[draw[k].1 * size.0 + draw[k].0] == 0
}

/// The host-side GPU model: template, color offsets, and the geometry they
/// were built from.
#[derive(Debug)]
pub struct TemplateProcessor {
    pub size: (u16, u16),
    pub offset: (u16, u16),
    pub canvas_size: (u16, u16),
    pub template: Vec<u8>,
    pub color_idx: Vec<usize>,
}

impl TemplateProcessor {
    pub open spec fn spec_wf(&self) -> bool {
        &&& self.color_idx@.len() == self.size.0 * self.size.1
        &&& self.template@.len() >= 8
        &&& forall|i: int|
            0 <= i < self.color_idx@.len() ==> (#[trigger] self.color_idx@[i]) + 8
                <= self.template@.len()
    }

    /// Builds the template and color-offset map over the draw order that
    /// `draw_strategy` fixes for `size`: some full traversal `draw` of the
    /// rectangle such that the template lists the visible entries' lines in
    /// that order, every visible pixel's offset points at its own color
    /// field, and every clipped pixel's offset is zero.
    #[verifier::rlimit(60)]
    pub fn new(
        size: (u16, u16),
        offset: (u16, u16),
        canvas_size: (u16, u16),
        draw_strategy: DrawStrategy,
    ) -> (r: Self)
        ensures
            r.size == size,
            r.offset == offset,
            r.canvas_size == canvas_size,
            r.spec_wf(),
            exists|draw: Seq<(u16, u16)>|
                spec_template_layout(
                    r.template@,
                    r.color_idx@,
                    draw_strategy,
                    size,
                    offset,
                    canvas_size,
                    draw,
                ),
    {
        let draw = draw_strategy.draw_order(size);
        let n = draw.len();
        let mut template: Vec<u8> = Vec::new();
        let mut b: usize = 0;
        while b < 8
            invariant
                0 <= b <= 8,
                template@ =~= spec_sacrificial().take(b as int),
            decreases 8 - b,
        {
            template.push(0u8);
            assert(template@ =~= spec_sacrificial().take(b + 1));
            b += 1;
        }
        assert(template@ =~= spec_sacrificial());
        proof {
            assert((size.0 as int) * (size.1 as int) <= 0xffff * 0xffff) by (nonlinear_arith)
                requires
                    size.0 <= 0xffff,
                    size.1 <= 0xffff,
            ;
        }
        let mut color_idx: Vec<usize> = Vec::new();
        let total: usize = (size.0 as usize) * (size.1 as usize);
        let mut z: usize = 0;
        while z < total
            invariant
                0 <= z <= total,
                color_idx@.len() == z,
                forall|i: int| 0 <= i < z ==> color_idx@[i] == 0,
            decreases total - z,
        {
            color_idx.push(0usize);
            z += 1;
        }
        proof {
            assert forall|j: int| 0 <= j < draw@.len() implies 0 <= (#[trigger] draw@[j]).1 * size.0
                + draw@[j].0 < size.0 * size.1 by {
                lemma_lin_range(draw@[j], size.0, size.1);
            }
        }
        let mut k: usize = 0;
        while k < n
            invariant
                0 <= k <= n,
                n == draw@.len(),
                forall|j: int|
                    0 <= j < draw@.len() ==> 0 <= (#[trigger] draw@[j]).1 * size.0 + draw@[j].0
                        < size.0 * size.1,
                draw@.len() == size.0 * size.1,
                draw@.no_duplicates(),
                forall|i: int|
                    0 <= i < draw@.len() ==> (#[trigger] draw@[i]).0 < size.0 && draw@[i].1
                        < size.1,
                color_idx@.len() == size.0 * size.1,
                template@.len() >= 8,
                template@ == spec_template(draw@, offset, canvas_size, k as int),
                forall|i: int|
                    0 <= i < color_idx@.len() ==> (#[trigger] color_idx@[i]) + 8
                        <= template@.len(),
                forall|j: int|
                    0 <= j < k && !((#[trigger] draw@[j]).0 + offset.0 >= canvas_size.0
                        || draw@[j].1 + offset.1 >= canvas_size.1) ==> color_idx@[draw@[j].1
                        * size.0 + draw@[j].0] == spec_color_pos(draw@, offset, canvas_size, j),
                forall|j: int|
                    0 <= j < draw@.len() && (j >= k || ((#[trigger] draw@[j]).0 + offset.0
                        >= canvas_size.0 || draw@[j].1 + offset.1 >= canvas_size.1))
                        ==> color_idx@[draw@[j].1 * size.0 + draw@[j].0] == 0,
            decreases n - k,
        {
            let ghost tpl0 = template@;
            let ghost entry = spec_template_entry(draw@[k as int], offset, canvas_size);
            let (x, y) = draw[k];
            proof {
                assert(y * size.0 + x < size.0 * size.1) by (nonlinear_arith)
                    requires
                        x < size.0,
                        y < size.1,
                ;
                assert((y as usize) * (size.0 as usize) + (x as usize) == y * size.0 + x)
                    by (nonlinear_arith);
            }
            let lin: usize = (y as usize) * (size.0 as usize) + (x as usize);
            if (x as u32) + (offset.0 as u32) < (canvas_size.0 as u32) && (y as u32) + (offset.1
                as u32) < (canvas_size.1 as u32) {
                let xx: u16 = x + offset.0;
                let yy: u16 = y + offset.1;
                template.push(80u8);
                template.push(88u8);
                template.push(32u8);
                push_dec_u16(&mut template, xx);
                template.push(32u8);
                push_dec_u16(&mut template, yy);
                template.push(32u8);
                let pos: usize = template.len();
                let mut w: usize = 0;
                while w < 8
                    invariant
                        0 <= w <= 8,
                        template@ =~= tpl0 + seq![80u8, 88u8, 32u8] + spec_dec(xx as nat)
                            + seq![32u8] + spec_dec(yy as nat) + seq![32u8] + spec_placeholder().take(
                            w as int,
                        ),
                        pos == tpl0.len() + 3 + spec_dec(xx as nat).len() + 1 + spec_dec(
                            yy as nat,
                        ).len() + 1,
                        pos + w == template@.len(),
                    decreases 8 - w,
                {
                    template.push(88u8);
                    assert(template@ =~= tpl0 + seq![80u8, 88u8, 32u8] + spec_dec(xx as nat)
                        + seq![32u8] + spec_dec(yy as nat) + seq![32u8] + spec_placeholder().take(
                        w + 1,
                    ));
                    w += 1;
                }
                template.push(10u8);
                assert(template@ =~= tpl0 + entry);
                proof {
                    assert(spec_color_pos(draw@, offset, canvas_size, k as int) == pos);
                    if exists|j: int|
                        0 <= j < draw@.len() && j != k && draw@[j].1 * size.0 + draw@[j].0
                            == lin as int {
                        let j = choose|j: int|
                            0 <= j < draw@.len() && j != k && draw@[j].1 * size.0 + draw@[j].0
                                == lin as int;
                        lemma_lin_injective(draw@[j], draw@[k as int], size.0);
                        assert(false);
                    }
                }
                color_idx.set(lin, pos);
            } else {
                assert(entry =~= Seq::<u8>::empty());
                assert(template@ =~= tpl0 + entry);
            }
            k += 1;
            assert(template@ == spec_template(draw@, offset, canvas_size, k as int));
        }
        let r = TemplateProcessor { size, offset, canvas_size, template, color_idx };
        proof {
            assert(spec_template_layout(
                r.template@,
                r.color_idx@,
                draw_strategy,
                size,
                offset,
                canvas_size,
                draw@,
            ));
        }
        r
    }
}

/// Distinct in-range coordinates have distinct linear indices.
pub proof fn lemma_lin_injective(p1: (u16, u16), p2: (u16, u16), w: u16)
    requires
        p1.0 < w,
        p2.0 < w,
        p1 != p2,
    ensures
        p1.1 * w + p1.0 != p2.1 * w + p2.0,
{
    assert(p1.1 * w + p1.0 != p2.1 * w + p2.0) by (nonlinear_arith)
        requires
            p1.0 < w,
            p2.0 < w,
            p1.0 != p2.0 || p1.1 != p2.1,
    ;
}

impl FrameProcessor for TemplateProcessor {
    open spec fn wf(&self) -> bool {
        self.spec_wf()
    }

    open spec fn spec_size(&self) -> (u16, u16) {
        self.size
    }

    open spec fn spec_process(&self, frame: &Frame) -> Result<Seq<u8>, SourceError> {
        Ok(
            spec_fill(
                self.template@,
                self.color_idx@,
                frame.pixels(),
                frame is Bgra,
                frame.pixels().len() as int,
            ).skip(8),
        )
    }

    #[verifier::rlimit(60)]
    fn process(&self, frame: &Frame) -> (r: Result<Vec<u8>, SourceError>) {
        let (pixels, bgra): (&Vec<[u8; 4]>, bool) = match frame {
            Frame::Rgba(b) => (b, false),
            Frame::Bgra(b) => (b, true),
        };
        let mut buf: Vec<u8> = Vec::new();
        let mut t: usize = 0;
        let tlen = self.template.len();
        while t < tlen
            invariant
                0 <= t <= tlen,
                tlen == self.template@.len(),
                buf@ =~= self.template@.take(t as int),
            decreases tlen - t,
        {
            let byte = self.template[t];
            buf.push(byte);
            assert(buf@ =~= self.template@.take(t + 1));
            t += 1;
        }
        assert(buf@ =~= self.template@);
        let n = pixels.len();
        let mut i: usize = 0;
        while i < n
            invariant
                self.spec_wf(),
                tlen == self.template@.len(),
                n == pixels@.len(),
                pixels@ == frame.pixels(),
                bgra == (frame is Bgra),
                frame.pixels().len() == self.size.0 * self.size.1,
                0 <= i <= n,
                buf@ == spec_fill(self.template@, self.color_idx@, pixels@, bgra, i as int),
                buf@.len() == self.template@.len(),
            decreases n - i,
        {
            let pos = self.color_idx[i];
            let p = pixels[i];
            let (cr, cg, cb, ca) = if bgra {
                (p[2], p[1], p[0], p[3])
            } else {
                (p[0], p[1], p[2], p[3])
            };
            assert((cr, cg, cb, ca) == spec_channels(pixels@[i as int], bgra));
            buf.set(pos, hex_digit(cr / 16));
            buf.set(pos + 1, hex_digit(cr % 16));
            buf.set(pos + 2, hex_digit(cg / 16));
            buf.set(pos + 3, hex_digit(cg % 16));
            buf.set(pos + 4, hex_digit(cb / 16));
            buf.set(pos + 5, hex_digit(cb % 16));
            buf.set(pos + 6, hex_digit(ca / 16));
            buf.set(pos + 7, hex_digit(ca % 16));
            i += 1;
            assert(buf@ == spec_fill(self.template@, self.color_idx@, pixels@, bgra, i as int));
        }
        let out = vec_skip8(buf);
        Ok(out)
    }
}

/// The vector without its first eight bytes.
fn vec_skip8(v: Vec<u8>) -> (r: Vec<u8>)
    requires
        v@.len() >= 8,
    ensures
        r@ == v@.skip(8),
{
    let ghost v0 = v@;
    let mut v = v;
    let r = v.split_off(8);
    assert(r@ =~= v0.skip(8));
    r
}

} // verus!
