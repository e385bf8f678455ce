//! The connection engine, as a verified state machine.  Each in-flight
//! kernel operation carries a `FlutOpData` tag; when the kernel reports a
//! completion, `on_completion` decides — from the tag, the kernel result
//! and the clock — the next operation to submit and how the engine state
//! changes.  The host event loop performs the submissions and socket work
//! the decisions call for: it owns the ring, creates sockets, and hands
//! every completion back here.

use vstd::prelude::*;

use std::rc::Rc;

verus! {

use crate::frame_source::Timing;
use crate::{CommandBufferSource, ControlFlowError, ControlFlowWarn, SetupError, SourceError, TeardownError};

/// The initial reconnect backoff: one second.
pub const INITIAL_BACKOFF_NANOS: u64 = 1000000000;

/// A plain wrapper around a payload carried through ring data, with
/// accessors for borrowing and unwrapping it.  Its derived debug rendering
/// prints the payload itself.
#[derive(Debug)]
pub struct DebugShield<T>(pub T);

impl<T> From<T> for DebugShield<T> {
    fn from(value: T) -> (r: Self) {
        DebugShield(value)
    }
}

impl<T> vstd::std_specs::convert::FromSpecImpl<T> for DebugShield<T> {
    open spec fn obeys_from_spec() -> bool {
        true
    }

    open spec fn from_spec(t: T) -> Self {
        DebugShield(t)
    }
}

impl<T> DebugShield<T> {
    pub fn get(&self) -> (r: &T)
        ensures
            *r == self.0,
    {
        &self.0
    }

    pub fn get_mut(&mut self) -> (r: &mut T)
        ensures
            *r == old(self).0,
            *final(self) == DebugShield(*final(r)),
    {
        &mut self.0
    }

    pub fn take(self) -> (r: T)
        ensures
            r == self.0,
    {
        self.0
    }
}

/// A peer or interface address, as plain values; the host converts to and
/// from its socket address types.
#[derive(Debug, Copy, Clone, PartialEq, Eq, Structural)]
pub enum PeerAddr {
    V4 { ip: u32, port: u16 },
    V6 { ip_hi: u64, ip_lo: u64, port: u16 },
}

/// One kernel operation the engine asks the host to submit.
#[derive(Debug)]
pub enum Op {
    /// Write `len` bytes of `buf` starting at `offset` to `fd`.
    Write { fd: i32, buf: DebugShield<Rc<Vec<u8>>>, offset: usize, len: usize },
    /// Connect `fd` to `addr`.
    Connect { fd: i32, addr: PeerAddr },
    /// A timer for `nanos` nanoseconds.
    Timeout { nanos: u64 },
}

/// The tag carried by each in-flight operation.
#[derive(Debug)]
pub enum FlutOpData {
    /// A `write` is outstanding on a live connection.
    ConnectionEstablished {
        connection_id: usize,
        fd: i32,
        addr: PeerAddr,
        source_index: usize,
        last_buffer: Option<(DebugShield<Rc<Vec<u8>>>, usize)>,
    },
    /// A `connect` is outstanding.
    Reconnecting {
        connection_id: usize,
        fd: i32,
        addr: PeerAddr,
        source_index: usize,
        backoff: u64,
        reconnects: usize,
    },
    /// A timer is outstanding; on completion, submit the carried operation
    /// with the carried tag.
    Backoff(Op, Box<FlutOpData>),
}

/// What the engine decides after a completion.
#[derive(Debug)]
pub enum ControlFlow {
    Continue,
    Warn(ControlFlowWarn),
    Error(ControlFlowError),
    Exit,
}

/// What the host must do next.
#[derive(Debug)]
pub enum Submission {
    /// Push this operation with this tag onto the submission queue.
    Push { op: Op, data: FlutOpData },
    /// Create a fresh stream socket for `addr`'s family, then push the pair
    /// that `FlutOp::first_reconnect` builds from its descriptor.
    OpenSocket { connection_id: usize, addr: PeerAddr, source_index: usize },
}

/// The engine: the live-connection counter, the reconnect policy, and the
/// round-robin command-buffer sources.
pub struct FlutOp<S: CommandBufferSource> {
    pub connections: usize,
    pub connection_limit: Option<usize>,
    pub reconnect_backoff_limit: Option<u64>,
    pub reconnect_limit: Option<usize>,
    pub sources: Vec<S>,
}

/// The reconnect count after one more failure, saturating at the type's
/// limit.
pub open spec fn spec_inc_reconnects(reconnects: usize) -> usize {
    if reconnects == usize::MAX {
        usize::MAX
    } else {
        (reconnects + 1) as usize
    }
}

/// The successor index modulo a positive count agrees with incrementing
/// before reducing.
pub proof fn lemma_mod_succ(i: int, n: int)
    requires
        n > 0,
        0 <= i,
    ensures
        ((i % n) + 1) % n == (i + 1) % n,
{
    vstd::arithmetic::div_mod::lemma_add_mod_noop(i, 1, n);
    if n == 1 {
        vstd::arithmetic::div_mod::lemma_mod_bound(i, n);
    } else {
        vstd::arithmetic::div_mod::lemma_small_mod(1nat, n as nat);
    }
}

/// The backoff that follows `backoff`: doubled, saturating, and clamped to
/// the configured limit.
pub open spec fn spec_next_backoff(backoff: u64, limit: Option<u64>) -> u64 {
    let doubled: u64 = if backoff > u64::MAX / 2 {
        u64::MAX
    } else {
        (backoff * 2) as u64
    };
    match limit {
        None => doubled,
        Some(l) => if doubled > l {
            l
        } else {
            doubled
        },
    }
}

/// Well-formedness of a ring-data tag against an engine with `n` sources.
pub open spec fn spec_data_wf(data: FlutOpData, n: int) -> bool
    decreases data,
{
    match data {
        FlutOpData::ConnectionEstablished { source_index, last_buffer, .. } => {
            &&& source_index < n
            &&& (last_buffer matches Some((b, w)) ==> w <= b.0@.len())
        },
        FlutOpData::Reconnecting { source_index, .. } => source_index < n,
        FlutOpData::Backoff(_, next) => spec_data_wf(*next, n),
    }
}

/// Which kernel results a tag can see: a write completes with at most the
/// submitted byte count, a connect with a status at most zero, and a write
/// tag without a buffer only reports closure or error.
pub open spec fn spec_result_wf(data: FlutOpData, result: i32) -> bool {
    match data {
        FlutOpData::ConnectionEstablished { last_buffer, .. } => match last_buffer {
            Some((b, w)) => result > 0 ==> w + result <= b.0@.len(),
            None => result <= 0,
        },
        FlutOpData::Reconnecting { .. } => result <= 0,
        FlutOpData::Backoff(..) => true,
    }
}

/// How a shaped first write relates to the source's answer: the whole
/// returned buffer is written from offset zero, tagged for the same
/// connection with the round-robin advanced past `source_index`; a source
/// error is handed through unchanged.
pub open spec fn spec_shaped_write(
    answer: Result<Timing<Rc<Vec<u8>>>, SourceError>,
    r: Result<(Op, FlutOpData), SourceError>,
    source_index: int,
    connection_id: usize,
    fd: i32,
    addr: PeerAddr,
    n: int,
) -> bool {
    match answer {
        Ok(t) => r matches Ok((op, data)) && (op matches Op::Write {
            fd: ofd,
            buf,
            offset,
            len,
        } && ofd == fd && buf.0 == t.frame && offset == 0 && len == t.frame@.len()) && (
        data matches FlutOpData::ConnectionEstablished {
            connection_id: cid,
            fd: dfd,
            addr: daddr,
            source_index: dsi,
            last_buffer,
        } && cid == connection_id && dfd == fd && daddr == addr && dsi == (source_index + 1) % n
            && (last_buffer matches Some((b, w)) && b.0 == t.frame && w == 0)),
        Err(e) => r == Err::<(Op, FlutOpData), SourceError>(e),
    }
}

/// How many of the offered connections setup takes: all of them, capped
/// at the configured limit.
pub open spec fn spec_take_limit(limit: Option<usize>, available: int) -> int {
    match limit {
        None => available,
        Some(l) => if available > l {
            l as int
        } else {
            available
        },
    }
}

/// One step of `setup`: connection `j` queried source `j` modulo the
/// count `n` — stepping exactly that source, as its own `post` relation
/// says — and its whole answer became submission `sub`.
pub open spec fn spec_setup_step<S: CommandBufferSource>(
    pre: Seq<S>,
    post: Seq<S>,
    conn: (i32, PeerAddr),
    sub: (Op, FlutOpData),
    j: int,
    n: int,
    delta: u64,
    now: u64,
) -> bool {
    exists|t: Timing<Rc<Vec<u8>>>|
        {
            &&& #[trigger] pre[j % n].post(delta, now, &post[j % n], &Ok(t))
            &&& post == pre.update(j % n, post[j % n])
            &&& spec_shaped_write(Ok(t), Ok(sub), j % n, j as usize, conn.0, conn.1, n)
        }
}

impl<S: CommandBufferSource> FlutOp<S> {
    pub open spec fn inv(&self) -> bool {
        &&& self.sources@.len() > 0
        &&& forall|i: int| 0 <= i < self.sources@.len() ==> (#[trigger] self.sources@[i]).inv()
    }

    pub fn new(
        sources: Vec<S>,
        connection_limit: Option<usize>,
        reconnect_backoff_limit: Option<u64>,
        reconnect_limit: Option<usize>,
    ) -> (r: Self)
        requires
            sources@.len() > 0,
            forall|i: int| 0 <= i < sources@.len() ==> (#[trigger] sources@[i]).inv(),
        ensures
            r.inv(),
            r.connections == 0,
            r.connection_limit == connection_limit,
            r.reconnect_backoff_limit == reconnect_backoff_limit,
            r.reconnect_limit == reconnect_limit,
            r.sources == sources,
    {
        FlutOp {
            connections: 0,
            connection_limit,
            reconnect_backoff_limit,
            reconnect_limit,
            sources,
        }
    }

    /// Pulls the next buffer from source `source_index` and shapes the
    /// write that streams it from the start, with the tag a completed
    /// write of it will carry: the same connection, the next source in the
    /// round-robin, and a cursor at zero.
    fn next_write(
        &mut self,
        source_index: usize,
        connection_id: usize,
        fd: i32,
        addr: PeerAddr,
        delta: u64,
        now: u64,
    ) -> (r: (Result<(Op, FlutOpData), SourceError>, Ghost<
        Result<Timing<Rc<Vec<u8>>>, SourceError>,
    >))
        requires
            old(self).inv(),
            source_index < old(self).sources@.len(),
        ensures
            final(self).inv(),
            final(self).connections == old(self).connections,
            final(self).connection_limit == old(self).connection_limit,
            final(self).reconnect_backoff_limit == old(self).reconnect_backoff_limit,
            final(self).reconnect_limit == old(self).reconnect_limit,
            final(self).sources@.len() == old(self).sources@.len(),
            forall|j: int|
                0 <= j < old(self).sources@.len() && j != source_index
                    ==> final(self).sources@[j] == old(self).sources@[j],
            old(self).sources@[source_index as int].post(
                delta,
                now,
                &final(self).sources@[source_index as int],
                &r.1@,
            ),
            spec_shaped_write(
                r.1@,
                r.0,
                source_index as int,
                connection_id,
                fd,
                addr,
                old(self).sources@.len() as int,
            ),
    {
        let n = self.sources.len();
        let res = crate::source_at(&mut self.sources, source_index, delta, now);
        let ghost resg = res;
        proof {
            assert(old(self).sources@[source_index as int].post(
                delta,
                now,
                &self.sources@[source_index as int],
                &resg,
            ));
        }
        match res {
            Ok(t) => {
                let len = t.frame.len();
                let buf2 = crate::rc_clone(&t.frame);
                let out = (
                    Op::Write { fd, buf: DebugShield(t.frame), offset: 0, len },
                    FlutOpData::ConnectionEstablished {
                        connection_id,
                        fd,
                        addr,
                        source_index: (source_index + 1) % n,
                        last_buffer: Some((DebugShield(buf2), 0)),
                    },
                );
                (Ok(out), Ghost(resg))
            },
            Err(e) => (Err(e), Ghost(resg)),
        }
    }

    /// The engine's start: for each established connection `i`, pull an
    /// initial buffer from source `i` modulo the source count and shape its
    /// first write.  At most `connection_limit` connections are taken.  On
    /// success there is exactly one submission per live connection.
    pub fn setup(&mut self, conns: Vec<(i32, PeerAddr)>, delta: u64, now: u64) -> (r: Result<
        Vec<(Op, FlutOpData)>,
        SetupError,
    >)
        requires
            old(self).inv(),
            old(self).connections == 0,
        ensures
            final(self).inv(),
            final(self).sources@.len() == old(self).sources@.len(),
            final(self).connection_limit == old(self).connection_limit,
            final(self).reconnect_backoff_limit == old(self).reconnect_backoff_limit,
            final(self).reconnect_limit == old(self).reconnect_limit,
            final(self).connections <= conns@.len(),
            r matches Ok(subs) ==> {
                &&& subs@.len() == final(self).connections
                &&& final(self).connections == spec_take_limit(
                    old(self).connection_limit,
                    conns@.len() as int,
                )
                &&& forall|i: int|
                    0 <= i < subs@.len() ==> spec_initial_submission(
                        #[trigger] subs@[i],
                        i,
                        conns@[i],
                        old(self).sources@.len() as int,
                    )
                &&& exists|trace: Seq<Seq<S>>|
                    #![trigger trace.len()]
                    {
                        &&& trace.len() == subs@.len() + 1
                        &&& trace[0] == old(self).sources@
                        &&& trace[subs@.len() as int] == final(self).sources@
                        &&& forall|j: int|
                            0 <= j < subs@.len() ==> spec_setup_step(
                                #[trigger] trace[j],
                                trace[j + 1],
                                conns@[j],
                                subs@[j],
                                j,
                                old(self).sources@.len() as int,
                                delta,
                                now,
                            )
                    }
            },
            r matches Err(e) ==> {
                let k = final(self).connections as int;
                let si = k % (old(self).sources@.len() as int);
                &&& k < spec_take_limit(old(self).connection_limit, conns@.len() as int)
                &&& exists|shaped: Seq<(Op, FlutOpData)>, trace: Seq<Seq<S>>, e2: SourceError|
                    #![trigger shaped.len(), trace[final(self).connections as int][(
                    final(self).connections as int) % (old(self).sources@.len() as int)].post(
                        delta,
                        now,
                        &final(self).sources@[(final(self).connections as int) % (
                        old(self).sources@.len() as int)],
                        &Err(e2),
                    )]
                    {
                        &&& shaped.len() == k
                        &&& trace.len() == k + 1
                        &&& trace[0] == old(self).sources@
                        &&& forall|j: int|
                            0 <= j < k ==> spec_setup_step(
                                #[trigger] trace[j],
                                trace[j + 1],
                                conns@[j],
                                shaped[j],
                                j,
                                old(self).sources@.len() as int,
                                delta,
                                now,
                            )
                        &&& trace[k][si].post(delta, now, &final(self).sources@[si], &Err(e2))
                        &&& final(self).sources@ == trace[k].update(si, final(self).sources@[si])
                        &&& e == SetupError::Any(e2)
                    }
            },
    {
        let n = self.sources.len();
        let mut m = conns.len();
        match self.connection_limit {
            Some(limit) => {
                if m > limit {
                    m = limit;
                }
            },
            None => {},
        }
        let mut out: Vec<(Op, FlutOpData)> = Vec::new();
        let ghost mut trace: Seq<Seq<S>> = seq![old(self).sources@];
        let mut i: usize = 0;
        while i < m
            invariant
                self.inv(),
                n == self.sources@.len(),
                n == old(self).sources@.len(),
                self.connection_limit == old(self).connection_limit,
                self.reconnect_backoff_limit == old(self).reconnect_backoff_limit,
                self.reconnect_limit == old(self).reconnect_limit,
                0 <= i <= m,
                m <= conns@.len(),
                self.connections == i,
                out@.len() == i,
                m == spec_take_limit(old(self).connection_limit, conns@.len() as int),
                forall|j: int|
                    0 <= j < i ==> spec_initial_submission(
                        #[trigger] out@[j],
                        j,
                        conns@[j],
                        n as int,
                    ),
                trace.len() == i + 1,
                trace[0] == old(self).sources@,
                trace[i as int] == self.sources@,
                forall|j: int|
                    0 <= j < i ==> spec_setup_step(
                        #[trigger] trace[j],
                        trace[j + 1],
                        conns@[j],
                        out@[j],
                        j,
                        old(self).sources@.len() as int,
                        delta,
                        now,
                    ),
            decreases m - i,
        {
            let (fd, addr) = conns[i];
            proof {
                lemma_mod_succ(i as int, n as int);
            }
            let ghost pre_srcs = self.sources@;
            let (res, answer) = self.next_write(i % n, i, fd, addr, delta, now);
            proof {
                assert(self.sources@ =~= pre_srcs.update(
                    (i as int) % (n as int),
                    self.sources@[(i as int) % (n as int)],
                ));
            }
            match res {
                Ok(sub) => {
                    out.push(sub);
                    self.connections = self.connections + 1;
                    assert(spec_initial_submission(out@[i as int], i as int, conns@[i as int], n as int));
                    proof {
                        assert(answer@ is Ok);
                        let t = answer@->Ok_0;
                        assert(pre_srcs[(i as int) % (old(self).sources@.len() as int)].post(
                            delta,
                            now,
                            &self.sources@[(i as int) % (old(self).sources@.len() as int)],
                            &Ok(t),
                        ));
                        assert(spec_shaped_write(
                            Ok(t),
                            Ok(out@[i as int]),
                            (i as int) % (old(self).sources@.len() as int),
                            i,
                            conns@[i as int].0,
                            conns@[i as int].1,
                            old(self).sources@.len() as int,
                        ));
                        assert(self.sources@ == pre_srcs.update(
                            (i as int) % (old(self).sources@.len() as int),
                            self.sources@[(i as int) % (old(self).sources@.len() as int)],
                        ));
                        assert(spec_setup_step(
                            pre_srcs,
                            self.sources@,
                            conns@[i as int],
                            out@[i as int],
                            i as int,
                            old(self).sources@.len() as int,
                            delta,
                            now,
                        ));
                        trace = trace.push(self.sources@);
                        assert(trace[i + 1] == self.sources@);
                        assert(forall|j: int|
                            0 <= j < i + 1 ==> spec_setup_step(
                                #[trigger] trace[j],
                                trace[j + 1],
                                conns@[j],
                                out@[j],
                                j,
                                old(self).sources@.len() as int,
                                delta,
                                now,
                            ));
                    }
                },
                Err(e) => {
                    proof {
                        assert(answer@ is Err);
                        let e2 = answer@->Err_0;
                        assert(e2 == e);
                        assert(trace[i as int][(i as int) % (old(self).sources@.len() as int)].post(
                            delta,
                            now,
                            &self.sources@[(i as int) % (old(self).sources@.len() as int)],
                            &Err(e2),
                        ));
                        assert(out@.len() == i as int);
                        assert(trace.len() == i + 1);
                        assert(SetupError::Any(e2) == SetupError::Any(e));
                    }
                    return Err(SetupError::Any(e));
                },
            }
            i += 1;
        }
        Ok(out)
    }

    /// The first reconnect of a dead connection, once the host has a fresh
    /// socket: a one-second timer whose completion submits the connect.
    pub fn first_reconnect(connection_id: usize, fd: i32, addr: PeerAddr, source_index: usize) -> (r:
        (Op, FlutOpData))
        ensures
            r.0 == (Op::Timeout { nanos: INITIAL_BACKOFF_NANOS }),
            r.1 == (FlutOpData::Backoff(
                Op::Connect { fd, addr },
                Box::new(
                    FlutOpData::Reconnecting {
                        connection_id,
                        fd,
                        addr,
                        source_index,
                        backoff: INITIAL_BACKOFF_NANOS,
                        reconnects: 1,
                    },
                ),
            )),
    {
        (
            Op::Timeout { nanos: INITIAL_BACKOFF_NANOS },
            FlutOpData::Backoff(
                Op::Connect { fd, addr },
                Box::new(
                    FlutOpData::Reconnecting {
                        connection_id,
                        fd,
                        addr,
                        source_index,
                        backoff: INITIAL_BACKOFF_NANOS,
                        reconnects: 1,
                    },
                ),
            ),
        )
    }

    /// One completion, one decision.  `result` is the kernel's report for
    /// the operation that carried `data`; `delta` and `now` are the
    /// animation time and wall clock at which any fresh buffer is pulled.
    pub fn on_completion(&mut self, data: FlutOpData, result: i32, delta: u64, now: u64) -> (r: (
        ControlFlow,
        Option<Submission>,
    ))
        requires
            old(self).inv(),
            old(self).connections > 0,
            spec_data_wf(data, old(self).sources@.len() as int),
            spec_result_wf(data, result),
        ensures
            final(self).inv(),
            final(self).sources@.len() == old(self).sources@.len(),
            spec_completion_post(*old(self), data, result, delta, now, *final(self), r.0, r.1),
    {
        match data {
            FlutOpData::ConnectionEstablished { connection_id, fd, addr, source_index, last_buffer } => {
                if result <= 0 {
                    let retire = match self.reconnect_limit {
                        Some(limit) => limit == 0,
                        None => false,
                    };
                    if retire {
                        self.connections = self.connections - 1;
                        if self.connections == 0 {
                            return (ControlFlow::Exit, None);
                        }
                        return (ControlFlow::Continue, None);
                    }
                    return (
                        ControlFlow::Continue,
                        Some(Submission::OpenSocket { connection_id, addr, source_index }),
                    );
                }
                match last_buffer {
                    Some((buf, written)) => {
                        let blen = buf.get().len();
                        let sent = written + (result as usize);
                        if sent == blen {
                            let (res, _answer) = self.next_write(
                                source_index,
                                connection_id,
                                fd,
                                addr,
                                delta,
                                now,
                            );
                            match res {
                                Ok((op, data2)) => (
                                    ControlFlow::Continue,
                                    Some(Submission::Push { op, data: data2 }),
                                ),
                                Err(e) => (
                                    ControlFlow::Error(ControlFlowError::Any(e)),
                                    None,
                                ),
                            }
                        } else {
                            let rest = blen - sent;
                            let buf2 = crate::rc_clone(buf.get());
                            (
                                ControlFlow::Continue,
                                Some(
                                    Submission::Push {
                                        op: Op::Write { fd, buf, offset: sent, len: rest },
                                        data: FlutOpData::ConnectionEstablished {
                                            connection_id,
                                            fd,
                                            addr,
                                            source_index,
                                            last_buffer: Some((DebugShield(buf2), sent)),
                                        },
                                    },
                                ),
                            )
                        }
                    },
                    None => {
                        (ControlFlow::Continue, None)
                    },
                }
            },
            FlutOpData::Reconnecting { connection_id, fd, addr, source_index, backoff, reconnects } => {
                if result < 0 {
                    let retire = match self.reconnect_limit {
                        Some(limit) => reconnects >= limit,
                        None => false,
                    };
                    if retire {
                        self.connections = self.connections - 1;
                        if self.connections == 0 {
                            return (ControlFlow::Exit, None);
                        }
                        return (ControlFlow::Continue, None);
                    }
                    let doubled = if backoff > u64::MAX / 2 {
                        u64::MAX
                    } else {
                        backoff * 2
                    };
                    let next_backoff = match self.reconnect_backoff_limit {
                        None => doubled,
                        Some(l) => if doubled > l {
                            l
                        } else {
                            doubled
                        },
                    };
                    (
                        ControlFlow::Continue,
                        Some(
                            Submission::Push {
                                op: Op::Timeout { nanos: next_backoff },
                                data: FlutOpData::Backoff(
                                    Op::Connect { fd, addr },
                                    Box::new(
                                        FlutOpData::Reconnecting {
                                            connection_id,
                                            fd,
                                            addr,
                                            source_index,
                                            backoff: next_backoff,
                                            reconnects: if reconnects == usize::MAX {
                                                usize::MAX
                                            } else {
                                                reconnects + 1
                                            },
                                        },
                                    ),
                                ),
                            },
                        ),
                    )
                } else {
                    let (res, _answer) = self.next_write(source_index, connection_id, fd, addr, delta, now);
                    match res {
                        Ok((op, data2)) => (
                            ControlFlow::Continue,
                            Some(Submission::Push { op, data: data2 }),
                        ),
                        Err(e) => (ControlFlow::Error(ControlFlowError::Any(e)), None),
                    }
                }
            },
            FlutOpData::Backoff(op, next) => {
                (ControlFlow::Continue, Some(Submission::Push { op, data: *next }))
            },
        }
    }

    /// A completion consumed during teardown releases its connection.
    pub fn on_teardown_completion(&mut self, data: FlutOpData) -> (r: Result<(), TeardownError>)
        requires
            old(self).connections > 0,
        ensures
            final(self).connections == old(self).connections - 1,
            final(self).sources == old(self).sources,
            final(self).connection_limit == old(self).connection_limit,
            final(self).reconnect_backoff_limit == old(self).reconnect_backoff_limit,
            final(self).reconnect_limit == old(self).reconnect_limit,
            r is Ok,
    {
        match data {
            FlutOpData::ConnectionEstablished { .. } => self.connections = self.connections - 1,
            FlutOpData::Reconnecting { .. } => self.connections = self.connections - 1,
            FlutOpData::Backoff(..) => self.connections = self.connections - 1,
        }
        Ok(())
    }
}

/// One of the submissions `setup` returns: connection `i`'s first write,
/// streaming a whole buffer from source `i` modulo the source count, tagged
/// to continue the round-robin at the next source.
pub open spec fn spec_initial_submission(
    sub: (Op, FlutOpData),
    i: int,
    conn: (i32, PeerAddr),
    n: int,
) -> bool {
    &&& sub.0 matches Op::Write { fd, buf, offset, len } && fd == conn.0 && offset == 0 && len
        == buf.0@.len()
    &&& sub.1 matches FlutOpData::ConnectionEstablished {
        connection_id,
        fd,
        addr,
        source_index,
        last_buffer,
    } && connection_id == i && fd == conn.0 && addr == conn.1 && source_index == (i + 1) % n
        && (last_buffer matches Some((b, w)) && w == 0 && (sub.0 matches Op::Write { buf, .. }
        ==> b.0 == buf.0))
}

/// The engine's decision relation, case by case over the consumed tag.
pub open spec fn spec_completion_post<S: CommandBufferSource>(
    pre: FlutOp<S>,
    data: FlutOpData,
    result: i32,
    delta: u64,
    now: u64,
    post: FlutOp<S>,
    flow: ControlFlow,
    sub: Option<Submission>,
) -> bool {
    match data {
        FlutOpData::ConnectionEstablished { connection_id, fd, addr, source_index, last_buffer } => {
            if result <= 0 {
                // The connection closed or failed.
                if pre.reconnect_limit == Some(0usize) {
                    // No reconnects allowed: the connection retires.
                    &&& post == FlutOp { connections: (pre.connections - 1) as usize, ..pre }
                    &&& sub is None
                    &&& flow == if pre.connections == 1 {
                        ControlFlow::Exit
                    } else {
                        ControlFlow::Continue
                    }
                } else {
                    // Ask the host for a fresh socket; the one-second
                    // backoff follows through `first_reconnect`.
                    &&& post == pre
                    &&& flow == ControlFlow::Continue
                    &&& sub == Some(
                        Submission::OpenSocket { connection_id, addr, source_index },
                    )
                }
            } else {
                match last_buffer {
                    Some((buf, written)) => {
                        if written + result == buf.0@.len() {
                            // The buffer is fully on the wire: stream the
                            // next one and advance the round-robin.
                            spec_refill_post(
                                pre,
                                source_index as int,
                                connection_id,
                                fd,
                                addr,
                                delta,
                                now,
                                post,
                                flow,
                                sub,
                            )
                        } else {
                            // A partial write: resubmit exactly the unsent
                            // tail of the same buffer, same source index.
                            &&& post == pre
                            &&& flow == ControlFlow::Continue
                            &&& sub matches Some(Submission::Push { op, data: d2 })
                            &&& op matches Op::Write { fd: ofd, buf: obuf, offset, len } && ofd
                                == fd && obuf.0 == buf.0 && offset == written + result && len
                                == buf.0@.len() - written - result
                            &&& d2 matches FlutOpData::ConnectionEstablished {
                                connection_id: cid2,
                                fd: fd2,
                                addr: addr2,
                                source_index: si2,
                                last_buffer: lb2,
                            } && cid2 == connection_id && fd2 == fd && addr2 == addr && si2
                                == source_index && (lb2 matches Some((b2, w2)) && b2.0 == buf.0
                                && w2 == written + result)
                        }
                    },
                    None => {
                        &&& post == pre
                        &&& flow == ControlFlow::Continue
                        &&& sub is None
                    },
                }
            }
        },
        FlutOpData::Reconnecting { connection_id, fd, addr, source_index, backoff, reconnects } => {
            if result < 0 {
                // The connect failed.
                if pre.reconnect_limit matches Some(limit) && reconnects >= limit {
                    // Out of attempts: the connection retires.
                    &&& post == FlutOp { connections: (pre.connections - 1) as usize, ..pre }
                    &&& sub is None
                    &&& flow == if pre.connections == 1 {
                        ControlFlow::Exit
                    } else {
                        ControlFlow::Continue
                    }
                } else {
                    // Back off — doubled, clamped — and try the same socket
                    // again.
                    let nb = spec_next_backoff(backoff, pre.reconnect_backoff_limit);
                    &&& post == pre
                    &&& flow == ControlFlow::Continue
                    &&& sub == Some(
                        Submission::Push {
                            op: Op::Timeout { nanos: nb },
                            data: FlutOpData::Backoff(
                                Op::Connect { fd, addr },
                                Box::new(
                                    FlutOpData::Reconnecting {
                                        connection_id,
                                        fd,
                                        addr,
                                        source_index,
                                        backoff: nb,
                                        reconnects: spec_inc_reconnects(reconnects),
                                    },
                                ),
                            ),
                        },
                    )
                }
            } else {
                // Connected: stream a fresh buffer, as after a full write.
                spec_refill_post(
                    pre,
                    source_index as int,
                    connection_id,
                    fd,
                    addr,
                    delta,
                    now,
                    post,
                    flow,
                    sub,
                )
            }
        },
        FlutOpData::Backoff(op, next) => {
            // The timer fired: submit the carried operation unchanged.
            &&& post == pre
            &&& flow == ControlFlow::Continue
            &&& sub == Some(Submission::Push { op, data: *next })
        },
    }
}

/// The refill relation: source `si` answers at `(delta, now)` as its own
/// contract says; on a buffer, the whole of it is submitted as a write
/// tagged with the advanced round-robin index, and on a source error the
/// engine stops with that error.
pub open spec fn spec_refill_post<S: CommandBufferSource>(
    pre: FlutOp<S>,
    si: int,
    connection_id: usize,
    fd: i32,
    addr: PeerAddr,
    delta: u64,
    now: u64,
    post: FlutOp<S>,
    flow: ControlFlow,
    sub: Option<Submission>,
) -> bool {
    &&& post.connections == pre.connections
    &&& post.connection_limit == pre.connection_limit
    &&& post.reconnect_backoff_limit == pre.reconnect_backoff_limit
    &&& post.reconnect_limit == pre.reconnect_limit
    &&& post.sources@.len() == pre.sources@.len()
    &&& forall|j: int|
        0 <= j < pre.sources@.len() && j != si ==> post.sources@[j] == pre.sources@[j]
    &&& exists|r2: Result<Timing<Rc<Vec<u8>>>, SourceError>|
        {
            &&& #[trigger] pre.sources@[si].post(delta, now, &post.sources@[si], &r2)
            &&& match r2 {
                Ok(t) => {
                    &&& flow == ControlFlow::Continue
                    &&& sub matches Some(Submission::Push { op, data: d2 })
                    &&& op matches Op::Write { fd: ofd, buf, offset, len } && ofd == fd && buf.0
                        == t.frame && offset == 0 && len == t.frame@.len()
                    &&& d2 matches FlutOpData::ConnectionEstablished {
                        connection_id: cid2,
                        fd: fd2,
                        addr: addr2,
                        source_index: si2,
                        last_buffer: lb2,
                    } && cid2 == connection_id && fd2 == fd && addr2 == addr && si2 == (si + 1)
                        % (pre.sources@.len() as int) && (lb2 matches Some((b2, w2)) && b2.0
                        == t.frame && w2 == 0)
                },
                Err(e) => {
                    &&& flow == ControlFlow::Error(ControlFlowError::Any(e))
                    &&& sub is None
                },
            }
        }
}

} // verus!
