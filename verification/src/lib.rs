//! Client-side core for text-protocol pixel canvases.
//!
//! The library renders animated media into ready-to-send command buffers
//! (`PX x y <hex>\n` lines) and models the connection engine that streams
//! them through a kernel submission/completion queue.  All decisions — draw
//! order, pixel formatting, frame timing, caching, and the per-completion
//! engine transitions — live here; the surrounding binary performs the
//! actual socket, timer and media-file work.
//!
//! Durations and wall-clock instants are nanosecond counts (`u64`); the
//! binary measures them and passes them in, so that every decision taken on
//! them is verified for every clock value.

use vstd::prelude::*;

pub mod breadth_flatten;
pub mod cli;
pub mod draw_strategy;
pub mod flut_op;
pub mod handshake;
pub mod frame_processing;
pub mod frame_source;
pub mod text;

use std::rc::Rc;

verus! {

use crate::frame_processing::{FrameProcessor, rayon_processor::RayonProcessor, template_processor::TemplateProcessor};
use crate::frame_source::{spec_walk, FrameSource, Timing};

/// An error surfaced by a command-buffer source or a frame processor while
/// producing a buffer.
#[derive(Debug, Copy, Clone, PartialEq, Eq, Structural)]
pub enum SourceError {
    /// The underlying producer failed.
    Failed,
}

/// Relies on `Rc::clone`: a second handle to the same allocation, equal to
/// the first.
#[verifier::external_body]
pub fn rc_clone(b: &Rc<Vec<u8>>) -> (r: Rc<Vec<u8>>)
    ensures
        r == *b,
{
    Rc::clone(b)
}

/// A supplier of ready-to-send command buffers along a cyclic timeline.
///
/// `post` is each implementation's exact account of one `command_buffer`
/// call: how the state steps and what comes back, as a relation over the
/// old state, the arguments, the new state and the result.
pub trait CommandBufferSource: Sized {
    /// The representation invariant.
    spec fn inv(&self) -> bool;

    /// Total cycle duration in nanoseconds.
    spec fn spec_cycle(&self) -> u64;

    /// The implementation's exact postcondition for `command_buffer`.
    spec fn post(
        &self,
        delta: u64,
        now: u64,
        new_self: &Self,
        r: &Result<Timing<Rc<Vec<u8>>>, SourceError>,
    ) -> bool;

    /// A well-formed source has a positive cycle.
    proof fn lemma_inv_cycle(&self)
        requires
            self.inv(),
        ensures
            self.spec_cycle() > 0,
    ;

    fn cycle_time(&self) -> (t: u64)
        requires
            self.inv(),
        ensures
            t == self.spec_cycle(),
    ;

    /// The buffer active at `delta` on the animation timeline, queried at
    /// wall-clock `now`, with its timing envelope.
    fn command_buffer(&mut self, delta: u64, now: u64) -> (r: Result<
        Timing<Rc<Vec<u8>>>,
        SourceError,
    >)
        requires
            old(self).inv(),
        ensures
            final(self).inv(),
            final(self).spec_cycle() == old(self).spec_cycle(),
            old(self).post(delta, now, final(self), &r),
    ;
}

/// A frame source composed with a frame processor: the raw, uncached
/// pipeline from time to command bytes.
#[derive(Debug)]
pub struct CompositeBufferSource<Src: FrameSource, Proc: FrameProcessor> {
    pub source: Src,
    pub processor: Proc,
}

impl<Src: FrameSource, Proc: FrameProcessor> CommandBufferSource for CompositeBufferSource<
    Src,
    Proc,
> {
    open spec fn inv(&self) -> bool {
        &&& self.source.wf()
        &&& self.processor.wf()
        &&& self.processor.spec_size() == self.source.spec_size()
    }

    open spec fn spec_cycle(&self) -> u64 {
        self.source.spec_cycle()
    }

    /// The frame the source holds at the reduced time, processed; the state
    /// never changes.
    open spec fn post(
        &self,
        delta: u64,
        now: u64,
        new_self: &Self,
        r: &Result<Timing<Rc<Vec<u8>>>, SourceError>,
    ) -> bool {
        let d = delta as int % self.source.spec_cycle() as int;
        let i = spec_walk(self.source.spec_frames(), d).0;
        let tl = spec_walk(self.source.spec_frames(), d).1;
        let pr = self.processor.spec_process(&self.source.spec_frames()[i].0);
        &&& *new_self == *self
        &&& match *r {
            Ok(t) => {
                &&& pr is Ok
                &&& t.frame@ == pr->Ok_0
                &&& t.frame_time == self.source.spec_frames()[i].1
                &&& t.time_left == tl
            },
            Err(e) => pr matches Err(e2) && e == e2,
        }
    }

    proof fn lemma_inv_cycle(&self) {
        self.source.lemma_wf();
    }

    fn cycle_time(&self) -> (t: u64) {
        self.source.cycle_time()
    }

    fn command_buffer(&mut self, delta: u64, now: u64) -> (r: Result<
        Timing<Rc<Vec<u8>>>,
        SourceError,
    >) {
        proof {
            self.source.lemma_wf();
        }
        let timing = self.source.frame(delta);
        match self.processor.process(timing.frame) {
            Ok(bytes) => Ok(
                Timing {
                    frame: Rc::new(bytes),
                    frame_time: timing.frame_time,
                    time_left: timing.time_left,
                },
            ),
            Err(e) => Err(e),
        }
    }
}

/// The keep-last cache: at most one buffer, valid until a wall-clock
/// expiry.  Polling faster than the frame rate then recomputes only when a
/// frame's display time has elapsed.
#[derive(Debug)]
pub struct SingleFrameCache<Src: CommandBufferSource> {
    pub cache: Option<(u64, u64, Rc<Vec<u8>>)>,
    pub src: Src,
}

impl<Src: CommandBufferSource> SingleFrameCache<Src> {
    pub fn new(src: Src) -> (r: Self)
        ensures
            r.src == src,
            r.cache is None,
    {
        SingleFrameCache { src, cache: None }
    }

    /// What a query does when the stored buffer is absent or expired: the
    /// inner source answers, and its result (with a fresh expiry) is
    /// stored — unless it failed, which leaves the store untouched.
    pub open spec fn spec_miss_post(
        &self,
        delta: u64,
        now: u64,
        new_self: &Self,
        r: &Result<Timing<Rc<Vec<u8>>>, SourceError>,
    ) -> bool {
        let d = (delta as int % self.src.spec_cycle() as int) as u64;
        exists|src2: Src, r2: Result<Timing<Rc<Vec<u8>>>, SourceError>|
            {
                &&& #[trigger] self.src.post(d, now, &src2, &r2)
                &&& new_self.src == src2
                &&& match r2 {
                    Ok(t) => {
                        &&& *r == Ok::<Timing<Rc<Vec<u8>>>, SourceError>(t)
                        &&& new_self.cache matches Some((expiry, ft, buf))
                        &&& expiry == if now + t.time_left > u64::MAX {
                            u64::MAX as int
                        } else {
                            now + t.time_left
                        }
                        &&& ft == t.frame_time
                        &&& buf == t.frame
                    },
                    Err(e) => *r == Err::<Timing<Rc<Vec<u8>>>, SourceError>(e)
                        && new_self.cache == self.cache,
                }
            }
    }
}

impl<Src: CommandBufferSource> CommandBufferSource for SingleFrameCache<Src> {
    open spec fn inv(&self) -> bool {
        self.src.inv()
    }

    open spec fn spec_cycle(&self) -> u64 {
        self.src.spec_cycle()
    }

    /// A stored, unexpired buffer answers the query with the time to its
    /// expiry and touches nothing — in particular not the inner source;
    /// otherwise the miss relation holds.
    open spec fn post(
        &self,
        delta: u64,
        now: u64,
        new_self: &Self,
        r: &Result<Timing<Rc<Vec<u8>>>, SourceError>,
    ) -> bool {
        match self.cache {
            Some((expiry, ft, buf)) => if now <= expiry {
                &&& *new_self == *self
                &&& *r matches Ok(t) && t.frame == buf && t.frame_time == ft && t.time_left
                    == expiry - now
            } else {
                self.spec_miss_post(delta, now, new_self, r)
            },
            None => self.spec_miss_post(delta, now, new_self, r),
        }
    }

    proof fn lemma_inv_cycle(&self) {
        self.src.lemma_inv_cycle();
    }

    fn cycle_time(&self) -> (t: u64) {
        self.src.cycle_time()
    }

    fn command_buffer(&mut self, delta: u64, now: u64) -> (r: Result<
        Timing<Rc<Vec<u8>>>,
        SourceError,
    >) {
        proof {
            self.src.lemma_inv_cycle();
        }
        let cycle = self.src.cycle_time();
        let d = delta % cycle;
        match &self.cache {
            Some((expiry, ft, buf)) => {
                if now <= *expiry {
                    return Ok(
                        Timing { frame: rc_clone(buf), frame_time: *ft, time_left: *expiry - now },
                    );
                }
            },
            None => {},
        }
        match self.src.command_buffer(d, now) {
            Ok(t) => {
                let expiry = if now > u64::MAX - t.time_left {
                    u64::MAX
                } else {
                    now + t.time_left
                };
                self.cache = Some((expiry, t.frame_time, rc_clone(&t.frame)));
                Ok(t)
            },
            Err(e) => Err(e),
        }
    }
}

/// Within a stored buffer's validity window, a query leaves the whole
/// cache — inner source included — untouched and answers from the store:
/// the inner source computes at most once per window.
pub proof fn lemma_keep_last_single_computation<Src: CommandBufferSource>(
    s: SingleFrameCache<Src>,
    delta: u64,
    now: u64,
    s2: SingleFrameCache<Src>,
    r: Result<Timing<Rc<Vec<u8>>>, SourceError>,
    expiry: u64,
    ft: u64,
    buf: Rc<Vec<u8>>,
)
    requires
        s.cache == Some((expiry, ft, buf)),
        now <= expiry,
        s.post(delta, now, &s2, &r),
    ensures
        s2 == s,
        r matches Ok(t) && t.frame == buf && t.frame_time == ft && t.time_left == expiry - now,
{
}

/// Along a whole run of queries whose wall clocks stay within a stored
/// buffer's validity window, the cache — inner source included — never
/// changes, and every query returns the stored buffer with the time to
/// its expiry: the inner source computes at most once per window.
pub proof fn lemma_keep_last_window<Src: CommandBufferSource>(
    states: Seq<SingleFrameCache<Src>>,
    queries: Seq<(u64, u64)>,
    results: Seq<Result<Timing<Rc<Vec<u8>>>, SourceError>>,
    expiry: u64,
    ft: u64,
    buf: Rc<Vec<u8>>,
    k: int,
)
    requires
        states.len() == queries.len() + 1,
        results.len() == queries.len(),
        states[0].cache == Some((expiry, ft, buf)),
        forall|i: int| 0 <= i < queries.len() ==> (#[trigger] queries[i]).1 <= expiry,
        forall|i: int|
            0 <= i < queries.len() ==> #[trigger] states[i].post(
                queries[i].0,
                queries[i].1,
                &states[i + 1],
                &results[i],
            ),
        0 <= k <= queries.len(),
    ensures
        forall|i: int| 0 <= i <= k ==> #[trigger] states[i] == states[0],
        forall|i: int|
            0 <= i < k ==> (#[trigger] results[i] matches Ok(t) && t.frame == buf && t.frame_time
                == ft && t.time_left == expiry - queries[i].1),
    decreases k,
{
    if k > 0 {
        lemma_keep_last_window(states, queries, results, expiry, ft, buf, k - 1);
        assert(states[k - 1].post(
            queries[k - 1].0,
            queries[k - 1].1,
            &states[k - 1 + 1],
            &results[k - 1],
        ));
        assert(states[k - 1 + 1] == states[k]);
        lemma_keep_last_single_computation(
            states[k - 1],
            queries[k - 1].0,
            queries[k - 1].1,
            states[k],
            results[k - 1],
            expiry,
            ft,
            buf,
        );
    }
}

/// The compute-once cache: buffers memoized against the animation
/// timeline as sorted, pairwise-disjoint intervals `[start, end)` whose
/// union only ever grows.
#[derive(Debug)]
pub struct ComputeOnceCache<Src: CommandBufferSource> {
    pub cache: Vec<((u64, u64), Rc<Vec<u8>>)>,
    pub src: Src,
}

/// The cache-layer invariant: every interval is non-empty and inside the
/// cycle, and the list is sorted with no overlap.
pub open spec fn spec_intervals_wf(c: Seq<((u64, u64), Rc<Vec<u8>>)>, cycle: u64) -> bool {
    &&& forall|i: int| 0 <= i < c.len() ==> (#[trigger] c[i]).0.0 < c[i].0.1 <= cycle
    &&& forall|i: int| 0 <= i < c.len() - 1 ==> (#[trigger] c[i]).0.1 <= c[i + 1].0.0
}

/// In a well-formed interval list, every earlier interval ends before a
/// later one starts.
pub proof fn lemma_intervals_ordered(c: Seq<((u64, u64), Rc<Vec<u8>>)>, cycle: u64, i: int, j: int)
    requires
        spec_intervals_wf(c, cycle),
        0 <= i < j < c.len(),
    ensures
        c[i].0.1 <= c[j].0.0,
    decreases j - i,
{
    if i + 1 < j {
        lemma_intervals_ordered(c, cycle, i + 1, j);
    }
}

/// The position where a query past every stored end would be inserted:
/// the first interval whose end lies beyond `d`.
pub open spec fn spec_ipos(c: Seq<((u64, u64), Rc<Vec<u8>>)>, d: int) -> int
    decreases c.len(),
{
    if c.len() == 0 {
        0
    } else if c[0].0.1 <= d {
        1 + spec_ipos(c.drop_first(), d)
    } else {
        0
    }
}

/// Where the insertion position lies and what is true on each side of it.
pub proof fn lemma_ipos_props(c: Seq<((u64, u64), Rc<Vec<u8>>)>, d: int)
    ensures
        0 <= spec_ipos(c, d) <= c.len(),
        forall|i: int| 0 <= i < spec_ipos(c, d) ==> (#[trigger] c[i]).0.1 <= d,
        spec_ipos(c, d) < c.len() ==> c[spec_ipos(c, d)].0.1 > d,
    decreases c.len(),
{
    if c.len() > 0 && c[0].0.1 <= d {
        lemma_ipos_props(c.drop_first(), d);
        assert forall|i: int| 0 <= i < spec_ipos(c, d) implies (#[trigger] c[i]).0.1 <= d by {
            if i > 0 {
                assert(c.drop_first()[i - 1] == c[i]);
            }
        }
    }
}

/// Whether the derived interval can be stored without breaking the
/// invariant: inside the cycle, containing the query, and clear of both
/// neighbours at its insertion position.
pub open spec fn spec_insertable(
    c: Seq<((u64, u64), Rc<Vec<u8>>)>,
    cycle: u64,
    d: int,
    start: int,
    end: int,
) -> bool {
    let p = spec_ipos(c, d);
    &&& 0 <= start <= d < end <= cycle
    &&& (p == 0 || c[p - 1].0.1 <= start)
    &&& (p == c.len() || end <= c[p].0.0)
}

impl<Src: CommandBufferSource> ComputeOnceCache<Src> {
    pub fn new(src: Src) -> (r: Self)
        ensures
            r.src == src,
            r.cache@.len() == 0,
    {
        ComputeOnceCache { src, cache: Vec::new() }
    }

    /// What a query does when no stored interval contains it: the inner
    /// source answers; the result is returned as is, and — when its timing
    /// yields a storable interval `[end − frame_time, delta + time_left)` —
    /// remembered at its sorted position.
    pub open spec fn spec_miss_post(
        &self,
        delta: u64,
        now: u64,
        new_self: &Self,
        r: &Result<Timing<Rc<Vec<u8>>>, SourceError>,
    ) -> bool {
        let d = (delta as int % self.src.spec_cycle() as int) as u64;
        let cycle = self.src.spec_cycle();
        exists|src2: Src, r2: Result<Timing<Rc<Vec<u8>>>, SourceError>|
            {
                &&& #[trigger] self.src.post(d, now, &src2, &r2)
                &&& new_self.src == src2
                &&& match r2 {
                    Ok(t) => {
                        let end = d + t.time_left;
                        let start = end - t.frame_time;
                        &&& *r == Ok::<Timing<Rc<Vec<u8>>>, SourceError>(t)
                        &&& if spec_insertable(self.cache@, cycle, d as int, start, end) {
                            new_self.cache@ == self.cache@.insert(
                                spec_ipos(self.cache@, d as int),
                                ((start as u64, end as u64), t.frame),
                            )
                        } else {
                            new_self.cache@ == self.cache@
                        }
                    },
                    Err(e) => *r == Err::<Timing<Rc<Vec<u8>>>, SourceError>(e)
                        && new_self.cache@ == self.cache@,
                }
            }
    }
}

impl<Src: CommandBufferSource> CommandBufferSource for ComputeOnceCache<Src> {
    open spec fn inv(&self) -> bool {
        &&& self.src.inv()
        &&& spec_intervals_wf(self.cache@, self.src.spec_cycle())
    }

    open spec fn spec_cycle(&self) -> u64 {
        self.src.spec_cycle()
    }

    /// A query inside a stored interval answers from the store — start,
    /// end and buffer exactly as remembered — and touches nothing; any
    /// other query follows the miss relation.
    open spec fn post(
        &self,
        delta: u64,
        now: u64,
        new_self: &Self,
        r: &Result<Timing<Rc<Vec<u8>>>, SourceError>,
    ) -> bool {
        let d = (delta as int % self.src.spec_cycle() as int) as u64;
        if exists|i: int|
            0 <= i < self.cache@.len() && (#[trigger] self.cache@[i]).0.0 <= d
                < self.cache@[i].0.1 {
            let i = choose|i: int|
                0 <= i < self.cache@.len() && (#[trigger] self.cache@[i]).0.0 <= d
                    < self.cache@[i].0.1;
            &&& *new_self == *self
            &&& *r matches Ok(t) && t.frame == self.cache@[i].1 && t.frame_time
                == self.cache@[i].0.1 - self.cache@[i].0.0 && t.time_left == self.cache@[i].0.1 - d
        } else {
            self.spec_miss_post(delta, now, new_self, r)
        }
    }

    proof fn lemma_inv_cycle(&self) {
        self.src.lemma_inv_cycle();
    }

    fn cycle_time(&self) -> (t: u64) {
        self.src.cycle_time()
    }

    #[verifier::rlimit(100)]
    fn command_buffer(&mut self, delta: u64, now: u64) -> (r: Result<
        Timing<Rc<Vec<u8>>>,
        SourceError,
    >) {
        proof {
            self.src.lemma_inv_cycle();
        }
        let cycle = self.src.cycle_time();
        let d = delta % cycle;
        let (pos, hit) = interval_search(&self.cache, d, cycle);
        if hit {
            proof {
                let i = choose|i: int|
                    0 <= i < self.cache@.len() && (#[trigger] self.cache@[i]).0.0 <= d
                        < self.cache@[i].0.1;
                if i < pos {
                    lemma_intervals_ordered(self.cache@, cycle, i, pos as int);
                    assert(false);
                } else if i > pos {
                    lemma_intervals_ordered(self.cache@, cycle, pos as int, i);
                    assert(false);
                }
            }
            let start = self.cache[pos].0.0;
            let end = self.cache[pos].0.1;
            let buf = rc_clone(&self.cache[pos].1);
            return Ok(Timing { frame: buf, frame_time: end - start, time_left: end - d });
        }
        let ghost self0 = *self;
        proof {
            lemma_ipos_props(self.cache@, d as int);
        }
        let res = self.src.command_buffer(d, now);
        let ghost src2 = self.src;
        match res {
            Ok(t) => {
                let ghost iend = d + t.time_left;
                let ghost istart = iend - t.frame_time;
                if t.time_left > 0 && t.time_left <= t.frame_time && d <= u64::MAX - t.time_left
                    && d + t.time_left <= cycle && t.frame_time <= d + t.time_left {
                    let end: u64 = d + t.time_left;
                    let start: u64 = end - t.frame_time;
                    let fits_left = pos == 0 || self.cache[pos - 1].0.1 <= start;
                    let fits_right = pos == self.cache.len() || end <= self.cache[pos].0.0;
                    if fits_left && fits_right {
                        let buf = rc_clone(&t.frame);
                        self.cache.insert(pos, ((start, end), buf));
                        proof {
                            lemma_insert_keeps_wf(
                                self0.cache@,
                                cycle,
                                pos as int,
                                start,
                                end,
                                t.frame,
                            );
                            assert(spec_insertable(self0.cache@, cycle, d as int, istart, iend));
                            assert(self0.src.post(d, now, &src2, &res));
                            assert(self0.spec_miss_post(delta, now, self, &Ok(t)));
                        }
                    } else {
                        proof {
                            assert(!spec_insertable(self0.cache@, cycle, d as int, istart, iend));
                            assert(self0.src.post(d, now, &src2, &res));
                            assert(self0.spec_miss_post(delta, now, self, &Ok(t)));
                        }
                    }
                    Ok(t)
                } else {
                    proof {
                        assert(!spec_insertable(self0.cache@, cycle, d as int, istart, iend));
                        assert(self0.src.post(d, now, &src2, &res));
                        assert(self0.spec_miss_post(delta, now, self, &Ok(t)));
                    }
                    Ok(t)
                }
            },
            Err(e) => {
                proof {
                    assert(self0.src.post(d, now, &src2, &res));
                    assert(self0.spec_miss_post(delta, now, self, &Err(e)));
                }
                Err(e)
            },
        }
    }
}

/// One query grows the stored timeline by at most one interval and never
/// shrinks or reorders it: a hit changes nothing at all, and a miss adds
/// at most the one interval derived from the inner source's answer.
pub proof fn lemma_compute_once_step_growth<Src: CommandBufferSource>(
    s: ComputeOnceCache<Src>,
    delta: u64,
    now: u64,
    s2: ComputeOnceCache<Src>,
    r: Result<Timing<Rc<Vec<u8>>>, SourceError>,
)
    requires
        s.post(delta, now, &s2, &r),
    ensures
        s.cache@.len() <= s2.cache@.len() <= s.cache@.len() + 1,
        s2.cache@.len() == s.cache@.len() ==> s2.cache@ == s.cache@,
{
    let d = (delta as int % s.src.spec_cycle() as int) as u64;
    let cycle = s.src.spec_cycle();
    if exists|i: int|
        0 <= i < s.cache@.len() && (#[trigger] s.cache@[i]).0.0 <= d < s.cache@[i].0.1 {
        assert(s2 == s);
    } else {
        assert(s.spec_miss_post(delta, now, &s2, &r));
        let (src2, r2) = choose|src2: Src, r2: Result<Timing<Rc<Vec<u8>>>, SourceError>|
            {
                &&& #[trigger] s.src.post(d, now, &src2, &r2)
                &&& s2.src == src2
                &&& match r2 {
                    Ok(t) => {
                        let end = d + t.time_left;
                        let start = end - t.frame_time;
                        &&& r == Ok::<Timing<Rc<Vec<u8>>>, SourceError>(t)
                        &&& if spec_insertable(s.cache@, cycle, d as int, start, end) {
                            s2.cache@ == s.cache@.insert(
                                spec_ipos(s.cache@, d as int),
                                ((start as u64, end as u64), t.frame),
                            )
                        } else {
                            s2.cache@ == s.cache@
                        }
                    },
                    Err(e) => r == Err::<Timing<Rc<Vec<u8>>>, SourceError>(e) && s2.cache@
                        == s.cache@,
                }
            };
        match r2 {
            Ok(t) => {
                if spec_insertable(
                    s.cache@,
                    cycle,
                    d as int,
                    d + t.time_left - t.frame_time,
                    d + t.time_left,
                ) {
                    lemma_ipos_props(s.cache@, d as int);
                } else {
                }
            },
            Err(_) => {},
        }
    }
}

/// Along a whole run of queries, the stored timeline only ever grows, one
/// interval per query at most.  Together with the invariant and
/// `lemma_interval_count_bound`, at most `cycle / m` queries can ever add
/// an interval once every stored interval spans at least `m`.
pub proof fn lemma_compute_once_growth_bound<Src: CommandBufferSource>(
    states: Seq<ComputeOnceCache<Src>>,
    queries: Seq<(u64, u64)>,
    results: Seq<Result<Timing<Rc<Vec<u8>>>, SourceError>>,
    k: int,
)
    requires
        states.len() == queries.len() + 1,
        results.len() == queries.len(),
        forall|i: int|
            0 <= i < queries.len() ==> #[trigger] states[i].post(
                queries[i].0,
                queries[i].1,
                &states[i + 1],
                &results[i],
            ),
        0 <= k <= queries.len(),
    ensures
        states[0].cache@.len() <= states[k].cache@.len() <= states[0].cache@.len() + k,
    decreases k,
{
    if k > 0 {
        lemma_compute_once_growth_bound(states, queries, results, k - 1);
        assert(states[k - 1].post(
            queries[k - 1].0,
            queries[k - 1].1,
            &states[k - 1 + 1],
            &results[k - 1],
        ));
        assert(states[k - 1 + 1] == states[k]);
        lemma_compute_once_step_growth(
            states[k - 1],
            queries[k - 1].0,
            queries[k - 1].1,
            states[k],
            results[k - 1],
        );
    }
}

/// Inserting a storable interval at its position keeps the list sorted,
/// disjoint and inside the cycle.
pub proof fn lemma_insert_keeps_wf(
    c: Seq<((u64, u64), Rc<Vec<u8>>)>,
    cycle: u64,
    p: int,
    start: u64,
    end: u64,
    buf: Rc<Vec<u8>>,
)
    requires
        spec_intervals_wf(c, cycle),
        0 <= p <= c.len(),
        start < end <= cycle,
        p > 0 ==> c[p - 1].0.1 <= start,
        p < c.len() ==> end <= c[p].0.0,
    ensures
        spec_intervals_wf(c.insert(p, ((start, end), buf)), cycle),
{
    let c2 = c.insert(p, ((start, end), buf));
    assert forall|i: int| 0 <= i < c2.len() implies (#[trigger] c2[i]).0.0 < c2[i].0.1 <= cycle by {
        if i < p {
            assert(c2[i] == c[i]);
        } else if i > p {
            assert(c2[i] == c[i - 1]);
        }
    }
    assert forall|i: int| 0 <= i < c2.len() - 1 implies (#[trigger] c2[i]).0.1 <= c2[i + 1].0.0 by {
        if i + 1 < p {
            assert(c2[i] == c[i] && c2[i + 1] == c[i + 1]);
        } else if i + 1 == p {
            assert(c2[i] == c[i]);
        } else if i == p {
            assert(c2[i + 1] == c[i]);
        } else {
            assert(c2[i] == c[i - 1] && c2[i + 1] == c[i]);
        }
    }
}

/// Finds the stored interval containing `d`, or where one would go:
/// `hit` says whether `cache[pos]` contains `d`; on a miss, `pos` is the
/// sorted insertion position.
fn interval_search(cache: &Vec<((u64, u64), Rc<Vec<u8>>)>, d: u64, cycle: u64) -> (r: (usize, bool))
    requires
        spec_intervals_wf(cache@, cycle),
    ensures
        ({
            let (pos, hit) = r;
            &&& (hit <==> exists|i: int|
                0 <= i < cache@.len() && (#[trigger] cache@[i]).0.0 <= d < cache@[i].0.1)
            &&& (hit ==> 0 <= pos < cache@.len() && cache@[pos as int].0.0 <= d
                < cache@[pos as int].0.1)
            &&& (!hit ==> pos == spec_ipos(cache@, d as int))
        }),
{
    let mut lo: usize = 0;
    let mut hi: usize = cache.len();
    while lo < hi
        invariant
            spec_intervals_wf(cache@, cycle),
            0 <= lo <= hi <= cache@.len(),
            forall|i: int| 0 <= i < lo ==> (#[trigger] cache@[i]).0.1 <= d,
            forall|i: int| hi <= i < cache@.len() ==> d < (#[trigger] cache@[i]).0.0,
        decreases hi - lo,
    {
        let mid = lo + (hi - lo) / 2;
        let start = cache[mid].0.0;
        let end = cache[mid].0.1;
        if d < start {
            proof {
                assert forall|i: int| mid <= i < cache@.len() implies d
                    < (#[trigger] cache@[i]).0.0 by {
                    if i > mid {
                        lemma_intervals_ordered(cache@, cycle, mid as int, i);
                    }
                }
            }
            hi = mid;
        } else if d >= end {
            proof {
                assert forall|i: int| 0 <= i < mid + 1 implies (#[trigger] cache@[i]).0.1 <= d by {
                    if i < mid {
                        lemma_intervals_ordered(cache@, cycle, i, mid as int);
                    }
                }
            }
            lo = mid + 1;
        } else {
            return (mid, true);
        }
    }
    proof {
        lemma_ipos_props(cache@, d as int);
        if spec_ipos(cache@, d as int) < lo {
            assert(cache@[spec_ipos(cache@, d as int)].0.1 <= d);
            assert(cache@[spec_ipos(cache@, d as int)].0.1 > d);
        }
        if lo < spec_ipos(cache@, d as int) {
            assert(cache@[lo as int].0.1 <= d);
            assert(d < cache@[lo as int].0.0);
        }
    }
    (lo, false)
}

/// Disjoint sorted intervals of length at least `m` inside `[0, cycle]`
/// cannot number more than `cycle / m`: the compute-once cache stops
/// growing once the timeline is covered.
pub proof fn lemma_interval_count_bound(c: Seq<((u64, u64), Rc<Vec<u8>>)>, cycle: u64, m: u64)
    requires
        spec_intervals_wf(c, cycle),
        m > 0,
        forall|i: int| 0 <= i < c.len() ==> (#[trigger] c[i]).0.1 - c[i].0.0 >= m,
    ensures
        c.len() * m <= cycle,
{
    lemma_interval_count_bound_rec(c, cycle, m, c.len() as int);
}

/// Each of the first `k` intervals pushes the covered span up by at least
/// `m`.
proof fn lemma_interval_count_bound_rec(
    c: Seq<((u64, u64), Rc<Vec<u8>>)>,
    cycle: u64,
    m: u64,
    k: int,
)
    requires
        spec_intervals_wf(c, cycle),
        m > 0,
        forall|i: int| 0 <= i < c.len() ==> (#[trigger] c[i]).0.1 - c[i].0.0 >= m,
        0 <= k <= c.len(),
    ensures
        k > 0 ==> k * m <= c[k - 1].0.1,
        k * m <= cycle,
    decreases k,
{
    if k > 0 {
        lemma_interval_count_bound_rec(c, cycle, m, k - 1);
        assert(c[k - 1].0.1 - c[k - 1].0.0 >= m);
        assert(c[k - 1].0.0 < c[k - 1].0.1 <= cycle);
        if k >= 2 {
            assert(c[k - 2].0.1 <= c[k - 1].0.0);
            assert((k - 1) * m <= c[k - 2].0.1);
        }
        assert(k * m == (k - 1) * m + m) by (nonlinear_arith);
        assert(k * m <= c[k - 1].0.1);
    } else {
        assert(k * m == 0) by (nonlinear_arith)
            requires
                k == 0,
        ;
    }
}

/// Either frame processor, dispatched by variant.
#[derive(Debug)]
pub enum ProcessorKind {
    Cpu(RayonProcessor),
    Gpu(TemplateProcessor),
}

impl FrameProcessor for ProcessorKind {
    open spec fn wf(&self) -> bool {
        match self {
            ProcessorKind::Cpu(p) => p.wf(),
            ProcessorKind::Gpu(p) => p.wf(),
        }
    }

    open spec fn spec_size(&self) -> (u16, u16) {
        match self {
            ProcessorKind::Cpu(p) => p.spec_size(),
            ProcessorKind::Gpu(p) => p.spec_size(),
        }
    }

    open spec fn spec_process(&self, frame: &crate::frame_source::Frame) -> Result<
        Seq<u8>,
        SourceError,
    > {
        match self {
            ProcessorKind::Cpu(p) => p.spec_process(frame),
            ProcessorKind::Gpu(p) => p.spec_process(frame),
        }
    }

    fn process(&self, frame: &crate::frame_source::Frame) -> (r: Result<Vec<u8>, SourceError>) {
        match self {
            ProcessorKind::Cpu(p) => p.process(frame),
            ProcessorKind::Gpu(p) => p.process(frame),
        }
    }
}

/// The pipeline behind one media object, under its chosen caching policy.
#[derive(Debug)]
pub enum BufferSource {
    Raw(CompositeBufferSource<crate::frame_source::media_source::MediaSource, ProcessorKind>),
    ComputeOnce(
        ComputeOnceCache<
            CompositeBufferSource<crate::frame_source::media_source::MediaSource, ProcessorKind>,
        >,
    ),
    KeepLast(
        SingleFrameCache<
            CompositeBufferSource<crate::frame_source::media_source::MediaSource, ProcessorKind>,
        >,
    ),
}

impl CommandBufferSource for BufferSource {
    open spec fn inv(&self) -> bool {
        match self {
            BufferSource::Raw(s) => s.inv(),
            BufferSource::ComputeOnce(s) => s.inv(),
            BufferSource::KeepLast(s) => s.inv(),
        }
    }

    open spec fn spec_cycle(&self) -> u64 {
        match self {
            BufferSource::Raw(s) => s.spec_cycle(),
            BufferSource::ComputeOnce(s) => s.spec_cycle(),
            BufferSource::KeepLast(s) => s.spec_cycle(),
        }
    }

    /// Each policy's own relation, and the policy itself never changes.
    open spec fn post(
        &self,
        delta: u64,
        now: u64,
        new_self: &Self,
        r: &Result<Timing<Rc<Vec<u8>>>, SourceError>,
    ) -> bool {
        match (self, new_self) {
            (BufferSource::Raw(s), BufferSource::Raw(s2)) => s.post(delta, now, s2, r),
            (BufferSource::ComputeOnce(s), BufferSource::ComputeOnce(s2)) => s.post(
                delta,
                now,
                s2,
                r,
            ),
            (BufferSource::KeepLast(s), BufferSource::KeepLast(s2)) => s.post(delta, now, s2, r),
            _ => false,
        }
    }

    proof fn lemma_inv_cycle(&self) {
        match self {
            BufferSource::Raw(s) => s.lemma_inv_cycle(),
            BufferSource::ComputeOnce(s) => s.lemma_inv_cycle(),
            BufferSource::KeepLast(s) => s.lemma_inv_cycle(),
        }
    }

    fn cycle_time(&self) -> (t: u64) {
        match self {
            BufferSource::Raw(s) => s.cycle_time(),
            BufferSource::ComputeOnce(s) => s.cycle_time(),
            BufferSource::KeepLast(s) => s.cycle_time(),
        }
    }

    fn command_buffer(&mut self, delta: u64, now: u64) -> (r: Result<
        Timing<Rc<Vec<u8>>>,
        SourceError,
    >) {
        match self {
            BufferSource::Raw(s) => s.command_buffer(delta, now),
            BufferSource::ComputeOnce(s) => s.command_buffer(delta, now),
            BufferSource::KeepLast(s) => s.command_buffer(delta, now),
        }
    }
}

/// Queries source `i` of a round-robin list, stepping only that source.
pub fn source_at<S: CommandBufferSource>(
    sources: &mut Vec<S>,
    i: usize,
    delta: u64,
    now: u64,
) -> (r: Result<Timing<Rc<Vec<u8>>>, SourceError>)
    requires
        i < old(sources)@.len(),
        old(sources)@[i as int].inv(),
    ensures
        final(sources)@.len() == old(sources)@.len(),
        forall|j: int|
            0 <= j < old(sources)@.len() && j != i ==> final(sources)@[j] == old(sources)@[j],
        final(sources)@[i as int].inv(),
        final(sources)@[i as int].spec_cycle() == old(sources)@[i as int].spec_cycle(),
        old(sources)@[i as int].post(delta, now, &final(sources)@[i as int], &r),
{
    let s = &mut sources[i];
    s.command_buffer(delta, now)
}

/// Failures while the engine starts up.
#[derive(Debug, Copy, Clone, PartialEq, Eq, Structural)]
pub enum SetupError {
    /// The submission queue refused an entry.
    SqeSubmission,
    /// A command-buffer source failed.
    Any(SourceError),
}

/// Failures while the engine tears down.  None exist.
#[derive(Debug, Copy, Clone, PartialEq, Eq, Structural)]
pub enum TeardownError {
    Never,
}

/// Warnings the running engine can raise.  None exist.
#[derive(Debug, Copy, Clone, PartialEq, Eq, Structural)]
pub enum ControlFlowWarn {
    Never,
}

/// Failures that stop the running engine.
#[derive(Debug, Copy, Clone, PartialEq, Eq, Structural)]
pub enum ControlFlowError {
    /// The submission queue refused an entry.
    SqeSubmission,
    /// A socket could not be created for a reconnect.
    Io,
    /// A command-buffer source failed.
    Any(SourceError),
}

} // verus!
