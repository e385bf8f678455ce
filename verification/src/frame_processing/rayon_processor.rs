//! The CPU frame processor.  It walks the precomputed draw order, clips
//! against the canvas, and emits one `PX` line per visible pixel with the
//! shortest legal hex rendering.  Each pixel's line depends on that pixel
//! alone, so a host may fan the per-pixel work out to worker threads and
//! concatenate in draw order; this verified form does the same work in one
//! pass.

use vstd::prelude::*;

use crate::draw_strategy::{spec_strategy_order, DrawStrategy};
use crate::frame_processing::{push_px_line, spec_emit, spec_entry, spec_channels, FrameProcessor};
use crate::frame_source::Frame;
use crate::SourceError;

verus! {

/// Draw order, placement offset and canvas bounds, fixed at construction.
#[derive(Debug)]
pub struct RayonProcessor {
    pub size: (u16, u16),
    pub draw_order: Vec<(u16, u16)>,
    pub offset: (u16, u16),
    pub canvas_size: (u16, u16),
}

impl RayonProcessor {
    pub open spec fn spec_wf(&self) -> bool {
        forall|i: int|
            0 <= i < self.draw_order@.len() ==> (#[trigger] self.draw_order@[i]).0 < self.size.0
                && self.draw_order@[i].1 < self.size.1
    }

    /// Fixes the draw order for `size` under `draw_strategy`, along with
    /// the placement and clip bounds.
    pub fn new(
        size: (u16, u16),
        offset: (u16, u16),
        canvas_size: (u16, u16),
        draw_strategy: DrawStrategy,
    ) -> (r: Self)
        ensures
            r.size == size,
            r.offset == offset,
            r.canvas_size == canvas_size,
            r.spec_wf(),
            r.draw_order@.len() == size.0 * size.1,
            r.draw_order@.no_duplicates(),
            spec_strategy_order(draw_strategy, size.0, size.1, r.draw_order@),
    {
        RayonProcessor { draw_order: draw_strategy.draw_order(size), size, offset, canvas_size }
    }
}

impl FrameProcessor for RayonProcessor {
    open spec fn wf(&self) -> bool {
        self.spec_wf()
    }

    open spec fn spec_size(&self) -> (u16, u16) {
        self.size
    }

    open spec fn spec_process(&self, frame: &Frame) -> Result<Seq<u8>, SourceError> {
        Ok(
            spec_emit(
                self.draw_order@,
                frame.pixels(),
                self.size.0,
                self.offset,
                self.canvas_size,
                frame is Bgra,
                false,
                self.draw_order@.len() as int,
            ),
        )
    }

    #[verifier::rlimit(60)]
    fn process(&self, frame: &Frame) -> (r: Result<Vec<u8>, SourceError>) {
        let (pixels, bgra): (&Vec<[u8; 4]>, bool) = match frame {
            Frame::Rgba(b) => (b, false),
            Frame::Bgra(b) => (b, true),
        };
        let plen = pixels.len();
        let mut out: Vec<u8> = Vec::new();
        let n = self.draw_order.len();
        let mut k: usize = 0;
        while k < n
            invariant
                self.spec_wf(),
                n == self.draw_order@.len(),
                0 <= k <= n,
                frame.pixels().len() == self.size.0 * self.size.1,
                pixels@ == frame.pixels(),
                plen == pixels@.len(),
                bgra == (frame is Bgra),
                out@ == spec_emit(
                    self.draw_order@,
                    pixels@,
                    self.size.0,
                    self.offset,
                    self.canvas_size,
                    bgra,
                    false,
                    k as int,
                ),
            decreases n - k,
        {
            let ghost out0 = out@;
            let ghost entry = spec_entry(
                self.draw_order@[k as int],
                pixels@,
                self.size.0,
                self.offset,
                self.canvas_size,
                bgra,
                false,
            );
            let (x, y) = self.draw_order[k];
            if (x as u32) + (self.offset.0 as u32) < (self.canvas_size.0 as u32) && (y as u32)
                + (self.offset.1 as u32) < (self.canvas_size.1 as u32) {
                let xx: u16 = x + self.offset.0;
                let yy: u16 = y + self.offset.1;
                proof {
                    assert(y * self.size.0 + x < self.size.0 * self.size.1) by (nonlinear_arith)
                        requires
                            x < self.size.0,
                            y < self.size.1,
                    ;
                    assert((y as usize) * (self.size.0 as usize) + (x as usize) == y * self.size.0
                        + x) by (nonlinear_arith);
                }
                let idx: usize = (y as usize) * (self.size.0 as usize) + (x as usize);
                let p = pixels[idx];
                let (cr, cg, cb, ca) = if bgra {
                    (p[2], p[1], p[0], p[3])
                } else {
                    (p[0], p[1], p[2], p[3])
                };
                assert((cr, cg, cb, ca) == spec_channels(pixels@[y * self.size.0 + x], bgra));
                push_px_line(&mut out, xx, yy, (cr, cg, cb, ca), false);
                assert(out@ == out0 + entry);
            } else {
                assert(entry =~= Seq::<u8>::empty());
                assert(out@ =~= out0 + entry);
            }
            k += 1;
            assert(out@ == spec_emit(
                self.draw_order@,
                pixels@,
                self.size.0,
                self.offset,
                self.canvas_size,
                bgra,
                false,
                k as int,
            ));
        }
        Ok(out)
    }
}

} // verus!
