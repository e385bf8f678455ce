//! Time-indexed frame lookup.  An animation is a non-empty list of frames
//! with display durations; a query at time `delta` reduces modulo the total
//! cycle time and walks the list to the active frame.  All durations are in
//! nanoseconds.

use vstd::prelude::*;

pub mod media_source;

verus! {

/// A value together with its animation timing: the full display duration of
/// the source frame, and how long the value remains valid relative to the
/// query time.
#[derive(Debug, Clone)]
pub struct Timing<F> {
    pub frame: F,
    pub frame_time: u64,
    pub time_left: u64,
}

/// A decoded raster frame: tightly packed row-major four-byte pixels, in
/// one of two channel orders.
#[derive(Debug, Clone)]
pub enum Frame {
    Rgba(Vec<[u8; 4]>),
    Bgra(Vec<[u8; 4]>),
}

impl Frame {
    /// The packed pixels, whatever the channel order.
    pub open spec fn pixels(&self) -> Seq<[u8; 4]> {
        match self {
            Frame::Rgba(v) => v@,
            Frame::Bgra(v) => v@,
        }
    }
}

/// The total duration of a frame list.
pub open spec fn spec_total(frames: Seq<(Frame, u64)>) -> int
    decreases frames.len(),
{
    if frames.len() == 0 {
        0
    } else {
        frames[0].1 + spec_total(frames.drop_first())
    }
}

/// The summed durations of the first `i` frames.
pub open spec fn spec_prefix(frames: Seq<(Frame, u64)>, i: int) -> int
    decreases i,
{
    if i <= 0 {
        0
    } else {
        spec_prefix(frames, i - 1) + frames[i - 1].1
    }
}

/// The walk the lookup performs: accumulate durations until the running sum
/// reaches `d`; the result is the index stopped at and the remainder of
/// that frame's display time.
pub open spec fn spec_walk(frames: Seq<(Frame, u64)>, d: int) -> (int, int)
    decreases frames.len(),
{
    if frames.len() == 0 {
        (0, 0)
    } else if frames[0].1 >= d {
        (0, frames[0].1 - d)
    } else {
        let r = spec_walk(frames.drop_first(), d - frames[0].1);
        (r.0 + 1, r.1)
    }
}

/// Prefix sums never decrease.
pub proof fn lemma_prefix_monotone(frames: Seq<(Frame, u64)>, i: int, j: int)
    requires
        0 <= i <= j <= frames.len(),
    ensures
        spec_prefix(frames, i) <= spec_prefix(frames, j),
    decreases j - i,
{
    if i < j {
        lemma_prefix_monotone(frames, i, j - 1);
    }
}

/// The full prefix sum is the total.
pub proof fn lemma_prefix_total(frames: Seq<(Frame, u64)>, i: int)
    requires
        0 <= i <= frames.len(),
    ensures
        spec_prefix(frames, frames.len() as int) - spec_prefix(frames, i) == spec_total(
            frames.skip(i),
        ),
    decreases frames.len() - i,
{
    if i < frames.len() {
        lemma_prefix_total(frames, i + 1);
        assert(frames.skip(i).drop_first() =~= frames.skip(i + 1));
        assert(spec_total(frames.skip(i)) == frames[i].1 + spec_total(frames.skip(i + 1)));
    } else {
        assert(frames.skip(i) =~= Seq::<(Frame, u64)>::empty());
    }
}

/// Where the walk stops for an in-cycle query: a valid index, a remainder
/// no larger than that frame's duration, and the query plus remainder
/// landing on the frame's end boundary.
pub proof fn lemma_walk_props(frames: Seq<(Frame, u64)>, d: int)
    requires
        frames.len() > 0,
        0 <= d < spec_total(frames),
    ensures
        ({
            let (i, tl) = spec_walk(frames, d);
            &&& 0 <= i < frames.len()
            &&& 0 <= tl <= frames[i].1
            &&& d + tl == spec_prefix(frames, i + 1)
        }),
    decreases frames.len(),
{
    assert(spec_prefix(frames, 0) == 0);
    if frames[0].1 >= d {
        assert(spec_prefix(frames, 1) == spec_prefix(frames, 0) + frames[0].1);
    } else {
        let rest = frames.drop_first();
        assert(spec_total(frames) == frames[0].1 + spec_total(rest));
        lemma_walk_props(rest, d - frames[0].1);
        let (i2, tl) = spec_walk(rest, d - frames[0].1);
        lemma_prefix_shift(frames, i2 + 1);
    }
}

/// Prefix sums of a list and of its tail line up.
pub proof fn lemma_prefix_shift(frames: Seq<(Frame, u64)>, i: int)
    requires
        frames.len() > 0,
        0 <= i <= frames.len() - 1,
    ensures
        spec_prefix(frames, i + 1) == frames[0].1 + spec_prefix(frames.drop_first(), i),
    decreases i,
{
    assert(spec_prefix(frames, 0) == 0);
    assert(spec_prefix(frames.drop_first(), 0) == 0);
    if i > 0 {
        lemma_prefix_shift(frames, i - 1);
        assert(frames.drop_first()[i - 1] == frames[i]);
        assert(spec_prefix(frames, i + 1) == spec_prefix(frames, i) + frames[i].1);
        assert(spec_prefix(frames.drop_first(), i) == spec_prefix(frames.drop_first(), i - 1)
            + frames.drop_first()[i - 1].1);
    } else {
        assert(spec_prefix(frames, 1) == spec_prefix(frames, 0) + frames[0].1);
    }
}

/// A supplier of decoded frames along a cyclic timeline.
pub trait FrameSource: Sized {
    /// The representation invariant.
    spec fn wf(&self) -> bool;

    /// Frame width and height.
    spec fn spec_size(&self) -> (u16, u16);

    /// Total cycle duration in nanoseconds.
    spec fn spec_cycle(&self) -> u64;

    /// The timeline: frames with their display durations.
    spec fn spec_frames(&self) -> Seq<(Frame, u64)>;

    /// What well-formedness guarantees about the timeline.
    proof fn lemma_wf(&self)
        requires
            self.wf(),
        ensures
            self.spec_frames().len() > 0,
            self.spec_cycle() > 0,
            self.spec_cycle() == spec_total(self.spec_frames()),
            forall|i: int|
                0 <= i < self.spec_frames().len() ==> (#[trigger] self.spec_frames()[i]).0.pixels().len()
                    == self.spec_size().0 * self.spec_size().1,
    ;

    fn size(&self) -> (s: (u16, u16))
        requires
            self.wf(),
        ensures
            s == self.spec_size(),
    ;

    fn cycle_time(&self) -> (t: u64)
        requires
            self.wf(),
        ensures
            t == self.spec_cycle(),
            t > 0,
    ;

    /// The frame active at `delta` (reduced modulo the cycle), its full
    /// display duration, and how long it remains active.
    fn frame(&self, delta: u64) -> (r: Timing<&Frame>)
        requires
            self.wf(),
        ensures
            ({
                let d = delta as int % self.spec_cycle() as int;
                let i = spec_walk(self.spec_frames(), d).0;
                let tl = spec_walk(self.spec_frames(), d).1;
                &&& 0 <= i < self.spec_frames().len()
                &&& *r.frame == self.spec_frames()[i].0
                &&& r.frame_time == self.spec_frames()[i].1
                &&& r.time_left == tl
            }),
    ;
}

/// Looking up any time shifted by whole cycles lands on the same frame with
/// the same remainder.
pub proof fn lemma_frame_lookup_periodic(frames: Seq<(Frame, u64)>, cycle: int, t: int, k: int)
    requires
        cycle > 0,
        t >= 0,
        k >= 0,
    ensures
        spec_walk(frames, (t + k * cycle) % cycle) == spec_walk(frames, t % cycle),
{
    vstd::arithmetic::div_mod::lemma_mod_multiples_vanish(k, t, cycle);
}

} // verus!
