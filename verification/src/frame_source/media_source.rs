//! The concrete frame source: a decoded animation held in memory.  Media
//! decoding itself happens outside the library; the constructor receives
//! the decoded frames with their display durations and validates them, and
//! the lookup walks the timeline as the `FrameSource` contract describes.

use vstd::prelude::*;

use crate::frame_source::{
    lemma_prefix_monotone, lemma_prefix_shift, lemma_prefix_total, lemma_walk_props, spec_prefix,
    spec_total, spec_walk, Frame, FrameSource, Timing,
};

verus! {

/// Why a frame list cannot become a source.
#[derive(Debug, Copy, Clone, PartialEq, Eq, Structural)]
pub enum MediaSourceError {
    /// No frames were decoded, so no size is known.
    UnknownSize,
    /// A frame's pixel count does not match the stated size.
    SizeMismatch,
    /// The durations sum to zero or do not fit the nanosecond range.
    InvalidTiming,
}

/// An animation: its frame size, its frames with display durations in
/// nanoseconds, and the cached total cycle time.
#[derive(Debug)]
pub struct MediaSource {
    pub size: (u16, u16),
    pub frames: Vec<(Frame, u64)>,
    pub time: u64,
}

impl MediaSource {
    pub open spec fn spec_wf(&self) -> bool {
        &&& self.frames@.len() > 0
        &&& self.time == spec_total(self.frames@)
        &&& self.time > 0
        &&& forall|i: int|
            0 <= i < self.frames@.len() ==> (#[trigger] self.frames@[i]).0.pixels().len()
                == self.size.0 * self.size.1
    }

    /// Builds a source from decoded frames, rejecting exactly the lists
    /// the lookup could not serve, each under its own error: an empty list
    /// has no size; otherwise a frame whose pixel count is not
    /// `size.0 * size.1` is a size mismatch; otherwise durations that sum
    /// to zero or beyond the nanosecond range are invalid timing.
    pub fn new(size: (u16, u16), frames: Vec<(Frame, u64)>) -> (r: Result<
        MediaSource,
        MediaSourceError,
    >)
        ensures
            r matches Ok(m) ==> m.spec_wf() && m.frames@ == frames@ && m.size == size,
            r is Ok <==> frames@.len() > 0 && (forall|i: int|
                0 <= i < frames@.len() ==> (#[trigger] frames@[i]).0.pixels().len() == size.0
                    * size.1) && 0 < spec_total(frames@) <= u64::MAX,
            r == Err::<MediaSource, MediaSourceError>(MediaSourceError::UnknownSize)
                <==> frames@.len() == 0,
            r == Err::<MediaSource, MediaSourceError>(MediaSourceError::SizeMismatch)
                <==> frames@.len() > 0 && (exists|i: int|
                0 <= i < frames@.len() && (#[trigger] frames@[i]).0.pixels().len() != size.0
                    * size.1),
            r == Err::<MediaSource, MediaSourceError>(MediaSourceError::InvalidTiming)
                <==> frames@.len() > 0 && (forall|i: int|
                0 <= i < frames@.len() ==> (#[trigger] frames@[i]).0.pixels().len() == size.0
                    * size.1) && (spec_total(frames@) == 0 || spec_total(frames@) > u64::MAX),
    {
        if frames.len() == 0 {
            return Err(MediaSourceError::UnknownSize);
        }
        proof {
            assert((size.0 as int) * (size.1 as int) <= 0xffff * 0xffff) by (nonlinear_arith)
                requires
                    size.0 <= 0xffff,
                    size.1 <= 0xffff,
            ;
        }
        let expected: usize = (size.0 as usize) * (size.1 as usize);
        let mut i: usize = 0;
        while i < frames.len()
            invariant
                0 <= i <= frames@.len(),
                expected == size.0 * size.1,
                forall|j: int|
                    0 <= j < i ==> (#[trigger] frames@[j]).0.pixels().len() == size.0 * size.1,
            decreases frames@.len() - i,
        {
            let n = match &frames[i].0 {
                Frame::Rgba(v) => v.len(),
                Frame::Bgra(v) => v.len(),
            };
            if n != expected {
                return Err(MediaSourceError::SizeMismatch);
            }
            i += 1;
        }
        let mut total: u64 = 0;
        let mut k: usize = 0;
        proof {
            lemma_prefix_total(frames@, 0);
            assert(frames@.skip(0) =~= frames@);
        }
        while k < frames.len()
            invariant
                0 <= k <= frames@.len(),
                frames@.len() > 0,
                total == spec_prefix(frames@, k as int),
                spec_prefix(frames@, frames@.len() as int) == spec_total(frames@),
                forall|j: int|
                    0 <= j < frames@.len() ==> (#[trigger] frames@[j]).0.pixels().len() == size.0
                        * size.1,
            decreases frames@.len() - k,
        {
            let d = frames[k].1;
            if d > u64::MAX - total {
                proof {
                    lemma_prefix_monotone(frames@, k + 1, frames@.len() as int);
                }
                return Err(MediaSourceError::InvalidTiming);
            }
            total = total + d;
            k += 1;
        }
        if total == 0 {
            return Err(MediaSourceError::InvalidTiming);
        }
        Ok(MediaSource { size, frames, time: total })
    }
}

impl FrameSource for MediaSource {
    open spec fn wf(&self) -> bool {
        self.spec_wf()
    }

    open spec fn spec_size(&self) -> (u16, u16) {
        self.size
    }

    open spec fn spec_cycle(&self) -> u64 {
        self.time
    }

    open spec fn spec_frames(&self) -> Seq<(Frame, u64)> {
        self.frames@
    }

    proof fn lemma_wf(&self) {
    }

    fn size(&self) -> (s: (u16, u16)) {
        self.size
    }

    fn cycle_time(&self) -> (t: u64) {
        self.time
    }

    fn frame(&self, delta: u64) -> (r: Timing<&Frame>) {
        let d: u64 = delta % self.time;
        proof {
            lemma_walk_props(self.frames@, d as int);
        }
        let ghost wi = spec_walk(self.frames@, d as int).0;
        let ghost wtl = spec_walk(self.frames@, d as int).1;
        let n: usize = self.frames.len();
        let mut i: usize = 0;
        let mut accu: u64 = 0;
        proof {
            lemma_prefix_total(self.frames@, 0);
            assert(self.frames@.skip(0) =~= self.frames@);
        }
        loop
            invariant
                self.spec_wf(),
                n == self.frames@.len(),
                d == delta as int % self.time as int,
                0 <= i < self.frames@.len(),
                accu == spec_prefix(self.frames@, i as int),
                accu <= d,
                wi == spec_walk(self.frames@, d as int).0,
                wtl == spec_walk(self.frames@, d as int).1,
                0 <= wi < self.frames@.len(),
                wtl + d == spec_prefix(self.frames@, wi + 1),
                0 <= wtl <= self.frames@[wi].1,
                d < self.time,
                spec_walk(self.frames@.skip(i as int), d - accu).0 == wi - i,
                spec_walk(self.frames@.skip(i as int), d - accu).1 == wtl,
                d - accu <= spec_total(self.frames@.skip(i as int)),
            decreases self.frames@.len() - i,
        {
            proof {
                lemma_prefix_total(self.frames@, i as int);
                lemma_prefix_total(self.frames@, 0);
                assert(self.frames@.skip(0) =~= self.frames@);
                lemma_prefix_monotone(self.frames@, i as int, i + 1);
                lemma_prefix_monotone(self.frames@, i + 1, self.frames@.len() as int);
                assert(self.frames@.skip(i as int).drop_first() =~= self.frames@.skip(i + 1));
            }
            let ft = self.frames[i].1;
            assert(accu + ft == spec_prefix(self.frames@, i + 1));
            assert(spec_prefix(self.frames@, i + 1) <= self.time);
            let next: u64 = accu + ft;
            if next >= d {
                assert(self.frames@.skip(i as int)[0] == self.frames@[i as int]);
                assert(spec_walk(self.frames@.skip(i as int), d - accu).0 == 0);
                assert(spec_walk(self.frames@.skip(i as int), d - accu).1 == ft - (d - accu));
                assert(wi == i && wtl == next - d);
                return Timing { frame: &self.frames[i].0, frame_time: ft, time_left: next - d };
            }
            assert(spec_walk(self.frames@.skip(i as int), d - accu).0 == spec_walk(
                self.frames@.skip(i + 1),
                d - next,
            ).0 + 1);
            assert(spec_walk(self.frames@.skip(i as int), d - accu).1 == spec_walk(
                self.frames@.skip(i + 1),
                d - next,
            ).1);
            proof {
                if i + 1 == self.frames@.len() {
                    lemma_prefix_total(self.frames@, 0);
                    assert(self.frames@.skip(0) =~= self.frames@);
                    assert(spec_prefix(self.frames@, i + 1) == spec_total(self.frames@));
                    assert(false);
                }
            }
            accu = next;
            proof {
                assert(i + 1 < self.frames@.len());
            }
            i += 1;
        }
    }
}

} // verus!
