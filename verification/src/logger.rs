//! The logging pipeline as a deterministic state machine: a bounded queue
//! of control messages, a pre-transport buffer, the effective-severity
//! cache, and the per-record filter, format selection and dispatch.
//!
//! Every method's contract equates the new state with a specification
//! function over the state's view, so the whole pipeline is pinned down;
//! the outward work (handing records to transports, flushing them,
//! writing diagnostics) is recorded as [`Action`]s for the caller to
//! drain and perform.

use vstd::prelude::*;
use crate::assoc::assoc_find;
use crate::message::Action;
use crate::message::ActionV;
use crate::message::DiagKind;
use crate::message::LogMessage;
use crate::message::LogMessageV;
use crate::message::actions_view;
use crate::message::messages_view;
use crate::options::BackpressureStrategy;
use crate::options::LoggerOptions;
use crate::options::LoggerOptionsV;
use crate::options::LoggerTransport;
use crate::options::TransportHandle;
use crate::options::TransportV;
use crate::options::transports_view;
use crate::levels::LoggerLevels;
use crate::query::LogQuery;
use crate::query::filter_matching;
use crate::query::run_query;
use crate::query::spec_filter_matching;
use crate::query::spec_run_query;
use crate::record::LogInfo;
use crate::record::LogInfoV;
use crate::record::entries_view;

verus! {

/// The severity a transport's override resolves to, if it has one that
/// the registry knows.
pub open spec fn override_severity(levels: Seq<(Seq<char>, u8)>, t: TransportV) -> Option<u8> {
    match t.level {
        Some(name) => assoc_find(levels, name),
        None => None,
    }
}

/// Raise `acc` to `s` when `s` resolves and is larger (more permissive).
pub open spec fn bump(acc: Option<u8>, s: Option<u8>) -> Option<u8> {
    match s {
        None => acc,
        Some(v) => match acc {
            None => Some(v),
            Some(a) => Some(if v > a {
                v
            } else {
                a
            }),
        },
    }
}

/// Fold the transports' resolved level overrides into the accumulator.
pub open spec fn min_over_transports(
    levels: Seq<(Seq<char>, u8)>,
    ts: Seq<(TransportHandle, TransportV)>,
    acc: Option<u8>,
) -> Option<u8>
    decreases ts.len(),
{
    if ts.len() == 0 {
        acc
    } else {
        bump(min_over_transports(levels, ts.drop_last(), acc), override_severity(
            levels,
            ts.last().1,
        ))
    }
}

/// The effective-severity cache: the largest (most permissive) severity
/// among the global level and every transport's resolved override, or
/// nothing when the registry is absent.
pub open spec fn spec_compute_min_severity(o: LoggerOptionsV) -> Option<u8> {
    match o.levels {
        None => None,
        Some(levels) => min_over_transports(
            levels,
            o.transport_list(),
            match o.level {
                Some(g) => assoc_find(levels, g),
                None => None,
            },
        ),
    }
}

/// The level a transport is held to: its own override, else the global.
pub open spec fn effective_level(o: LoggerOptionsV, t: TransportV) -> Option<Seq<char>> {
    match t.level {
        Some(l) => Some(l),
        None => o.level,
    }
}

/// Whether a record passes one transport's level filter: with a registry
/// and an effective level, both severities must resolve and the record's
/// must not exceed the threshold; a failed lookup skips the transport;
/// without a registry or an effective level there is nothing to hold the
/// record to.
pub open spec fn transport_accepts(o: LoggerOptionsV, t: TransportV, e: LogInfoV) -> bool {
    match (o.levels, effective_level(o, t)) {
        (Some(levels), Some(eff)) => match (assoc_find(levels, e.level), assoc_find(
            levels,
            eff,
        )) {
            (Some(es), Some(rs)) => es <= rs,
            _ => false,
        },
        _ => true,
    }
}

/// The format a record is transformed with for one transport: the
/// transport's override, else the global format, else none.
pub open spec fn effective_format(o: LoggerOptionsV, t: TransportV) -> Option<u64> {
    match t.format {
        Some(f) => Some(f),
        None => o.format,
    }
}

/// The deliveries that one record produces over a transport list, in
/// configured order.
pub open spec fn deliver_actions(
    o: LoggerOptionsV,
    ts: Seq<(TransportHandle, TransportV)>,
    e: LogInfoV,
) -> Seq<ActionV>
    decreases ts.len(),
{
    if ts.len() == 0 {
        Seq::empty()
    } else {
        let rest = deliver_actions(o, ts.drop_last(), e);
        if transport_accepts(o, ts.last().1, e) {
            rest.push(
                ActionV::Deliver {
                    handle: ts.last().0,
                    format: effective_format(o, ts.last().1),
                    entry: e,
                },
            )
        } else {
            rest
        }
    }
}

/// The dispatch sub-step for one record: nothing for a degenerate record,
/// else one delivery per transport that accepts it.
pub open spec fn dispatch_actions(o: LoggerOptionsV, e: LogInfoV) -> Seq<ActionV> {
    if e.degenerate() {
        Seq::empty()
    } else {
        deliver_actions(o, o.transport_list(), e)
    }
}

/// Draining the pre-transport buffer: the dispatches of its records, in
/// first-in-first-out order.
pub open spec fn drain_actions(o: LoggerOptionsV, buf: Seq<LogInfoV>) -> Seq<ActionV>
    decreases buf.len(),
{
    if buf.len() == 0 {
        Seq::empty()
    } else {
        drain_actions(o, buf.drop_last()) + dispatch_actions(o, buf.last())
    }
}

/// One flush action per transport, in configured order.
pub open spec fn flush_transport_actions(ts: Seq<(TransportHandle, TransportV)>) -> Seq<ActionV> {
    Seq::new(ts.len(), |i: int| ActionV::FlushTransport { handle: ts[i].0 })
}

/// Transport descriptors renumbered with fresh handles from `base`.
pub open spec fn renumber(ts: Seq<(TransportHandle, TransportV)>, base: u64) -> Seq<
    (TransportHandle, TransportV),
> {
    Seq::new(ts.len(), |i: int| (TransportHandle((base + i) as u64), ts[i].1))
}

/// The mathematical state of a [`Logger`].
#[verifier::ext_equal]
pub struct LoggerV {
    /// The current configuration, transports included.
    pub options: LoggerOptionsV,
    /// Records accepted while no transport was attached.
    pub buffer: Seq<LogInfoV>,
    /// The effective-severity cache; see [`spec_compute_min_severity`].
    pub min_required_severity: Option<u8>,
    /// The bounded queue's contents, oldest first.
    pub queue: Seq<LogMessageV>,
    /// The queue bound, fixed at construction.
    pub capacity: usize,
    /// The backpressure policy, fixed at construction.
    pub policy: BackpressureStrategy,
    /// Set once by `close`.
    pub closed: bool,
    /// Set when the worker has observed `Shutdown`.
    pub stopped: bool,
    /// The flush barrier's completion flag.
    pub flush_completed: bool,
    /// The next fresh transport handle.
    pub next_handle: u64,
    /// The outward actions produced so far and not yet drained.
    pub actions: Seq<ActionV>,
}

impl LoggerV {
    /// The well-formed states: the queue respects its bound and holds
    /// only records and flush barriers; the cache matches the
    /// configuration; transport handles are pairwise distinct and below
    /// the fresh-handle counter; and a stopped worker means a closed
    /// logger.
    pub open spec fn wf(self) -> bool {
        &&& self.queue.len() <= self.capacity
        &&& forall|i: int|
            0 <= i < self.queue.len() ==> (self.queue[i] is Entry || self.queue[i] is Flush)
        &&& self.min_required_severity == spec_compute_min_severity(self.options)
        &&& forall|i: int, j: int|
            0 <= i < j < self.options.transport_list().len()
                ==> (#[trigger] self.options.transport_list()[i]).0 != (
            #[trigger] self.options.transport_list()[j]).0
        &&& forall|i: int|
            0 <= i < self.options.transport_list().len()
                ==> (#[trigger] self.options.transport_list()[i]).0.0 < self.next_handle
        &&& (self.stopped ==> self.closed)
    }

    /// A record with the given level and message and no metadata.
    pub open spec fn plain_record(level: Seq<char>, message: Seq<char>) -> LogInfoV {
        LogInfoV { level, message, meta: Seq::empty() }
    }

    /// Everything but the buffer, the action log and the flush flag
    /// agrees: the frame that per-message work leaves untouched.
    pub open spec fn core_same(self, other: LoggerV) -> bool {
        &&& self.options == other.options
        &&& self.min_required_severity == other.min_required_severity
        &&& self.queue == other.queue
        &&& self.capacity == other.capacity
        &&& self.policy == other.policy
        &&& self.closed == other.closed
        &&& self.stopped == other.stopped
        &&& self.next_handle == other.next_handle
    }

    /// The worker's handling of one record; see the dispatch sub-step.
    pub open spec fn worker_entry(self, e: LogInfoV) -> LoggerV {
        if self.options.transport_list().len() == 0 {
            LoggerV {
                buffer: self.buffer.push(e),
                actions: self.actions.push(ActionV::Diagnostic(DiagKind::NoTransports)),
                ..self
            }
        } else {
            LoggerV {
                buffer: Seq::empty(),
                actions: self.actions + drain_actions(self.options, self.buffer)
                    + dispatch_actions(self.options, e),
                ..self
            }
        }
    }

    /// The worker's handling of a configuration message: merge the
    /// present fields, adopt supplied transports under fresh handles,
    /// recompute the cache, and drain the buffer under the new
    /// configuration.
    pub open spec fn worker_configure(self, o: LoggerOptionsV) -> LoggerV {
        let merged = LoggerOptionsV {
            level: if o.level is Some {
                o.level
            } else {
                self.options.level
            },
            levels: if o.levels is Some {
                o.levels
            } else {
                self.options.levels
            },
            format: if o.format is Some {
                o.format
            } else {
                self.options.format
            },
            transports: match o.transports {
                Some(ts) => Some(renumber(ts, self.next_handle)),
                None => self.options.transports,
            },
            ..self.options
        };
        let next = match o.transports {
            Some(ts) => (self.next_handle + ts.len()) as u64,
            None => self.next_handle,
        };
        LoggerV {
            options: merged,
            min_required_severity: spec_compute_min_severity(merged),
            buffer: Seq::empty(),
            actions: self.actions + drain_actions(merged, self.buffer),
            next_handle: next,
            ..self
        }
    }

    /// The worker's handling of a flush barrier: with transports
    /// attached, drain the buffer and flush each transport; either way,
    /// complete the barrier.
    pub open spec fn worker_flush(self) -> LoggerV {
        let mid = if self.options.transport_list().len() > 0 {
            LoggerV {
                buffer: Seq::empty(),
                actions: self.actions + drain_actions(self.options, self.buffer)
                    + flush_transport_actions(self.options.transport_list()),
                ..self
            }
        } else {
            self
        };
        LoggerV {
            flush_completed: true,
            actions: mid.actions.push(ActionV::FlushCompleted),
            ..mid
        }
    }

    /// The worker's handling of a shutdown: drain the buffer and stop.
    /// Only `close` sends a shutdown, so the logger counts as closed from
    /// here on.
    pub open spec fn worker_shutdown(self) -> LoggerV {
        LoggerV {
            buffer: Seq::empty(),
            actions: self.actions + drain_actions(self.options, self.buffer),
            stopped: true,
            closed: true,
            ..self
        }
    }

    /// Process one message, as the worker does; a stopped worker does
    /// nothing.
    pub open spec fn handle(self, m: LogMessageV) -> LoggerV {
        if self.stopped {
            self
        } else {
            match m {
                LogMessageV::Entry(e) => self.worker_entry(e),
                LogMessageV::Configure(o) => self.worker_configure(o),
                LogMessageV::Shutdown => self.worker_shutdown(),
                LogMessageV::Flush => self.worker_flush(),
            }
        }
    }

    /// Take the oldest message off the queue and process it.
    pub open spec fn step(self) -> LoggerV {
        if self.queue.len() == 0 || self.stopped {
            self
        } else {
            LoggerV { queue: self.queue.drop_first(), ..self }.handle(self.queue.first())
        }
    }

    /// Run the worker until the queue is empty or it stops.
    pub open spec fn run(self) -> LoggerV
        decreases self.queue.len(),
    {
        if self.queue.len() == 0 || self.stopped {
            self
        } else {
            self.step().run()
        }
    }

    /// Enqueue a message as a blocking send would: wait for room by
    /// letting the worker process the oldest message first; a queue of
    /// capacity zero hands the message to the worker directly.
    pub open spec fn enqueue_blocking(self, m: LogMessageV) -> LoggerV {
        if self.capacity == 0 {
            self.handle(m)
        } else if self.queue.len() < self.capacity {
            LoggerV { queue: self.queue.push(m), ..self }
        } else {
            let s1 = self.step();
            LoggerV { queue: s1.queue.push(m), ..s1 }
        }
    }

    /// Submit one record without blocking: drop it with a diagnostic when
    /// the logger is closed; enqueue it when there is room; apply the
    /// backpressure policy when there is none.
    pub open spec fn submit(self, e: LogInfoV) -> LoggerV {
        if self.closed {
            LoggerV {
                actions: self.actions.push(ActionV::Diagnostic(DiagKind::Disconnected)),
                ..self
            }
        } else if self.queue.len() < self.capacity {
            LoggerV { queue: self.queue.push(LogMessageV::Entry(e)), ..self }
        } else {
            match self.policy {
                BackpressureStrategy::Block => self.enqueue_blocking(LogMessageV::Entry(e)),
                BackpressureStrategy::DropCurrent => LoggerV {
                    actions: self.actions.push(ActionV::Diagnostic(DiagKind::DroppedCurrent)),
                    ..self
                },
                BackpressureStrategy::DropOldest => self.drop_oldest_and_retry(e),
            }
        }
    }

    /// Reclaim the oldest queued message and retry: a stolen record is
    /// discarded; a stolen control message is re-sent (it must never be
    /// dropped), which leaves the queue full, so the incoming record is
    /// dropped instead.
    pub open spec fn drop_oldest_and_retry(self, e: LogInfoV) -> LoggerV {
        if self.capacity == 0 {
            LoggerV {
                actions: self.actions.push(ActionV::Diagnostic(DiagKind::DropRetryFailed)),
                ..self
            }
        } else if self.queue.first() is Entry {
            LoggerV {
                queue: self.queue.drop_first().push(LogMessageV::Entry(e)),
                actions: self.actions.push(ActionV::Diagnostic(DiagKind::DroppedOldest)),
                ..self
            }
        } else {
            LoggerV {
                queue: self.queue.drop_first().push(self.queue.first()),
                actions: self.actions.push(ActionV::Diagnostic(DiagKind::DropRetryFailed)),
                ..self
            }
        }
    }

    /// Submit one record, blocking until it is queued.
    pub open spec fn submit_blocking(self, e: LogInfoV) -> LoggerV {
        if self.closed {
            LoggerV {
                actions: self.actions.push(ActionV::Diagnostic(DiagKind::Disconnected)),
                ..self
            }
        } else {
            self.enqueue_blocking(LogMessageV::Entry(e))
        }
    }

    /// The flush protocol: short-circuit when closed; else enqueue a
    /// barrier and wait until the worker has processed everything up to
    /// and including it.
    pub open spec fn flush_state(self) -> LoggerV {
        if self.closed {
            self
        } else {
            LoggerV { flush_completed: false, ..self }.enqueue_blocking(
                LogMessageV::Flush,
            ).run()
        }
    }

    /// The close protocol: idempotent; flush, hand the worker a shutdown
    /// (the queue is already drained), and wake every flush waiter.
    pub open spec fn close_state(self) -> LoggerV {
        if self.closed {
            self
        } else {
            let s1 = self.flush_state().handle(LogMessageV::Shutdown);
            LoggerV { closed: true, flush_completed: true, ..s1 }
        }
    }
}

/// The logging pipeline. Producers submit records with [`Logger::log`];
/// the worker side is driven by [`Logger::handle_message`] (or, in the
/// single-threaded discipline, by [`Logger::flush`], which runs the queue
/// down); outward work accumulates as actions, drained with
/// [`Logger::take_actions`].
#[derive(Debug)]
pub struct Logger {
    options: LoggerOptions,
    buffer: Vec<LogInfo>,
    min_required_severity: Option<u8>,
    queue: Vec<LogMessage>,
    capacity: usize,
    policy: BackpressureStrategy,
    closed: bool,
    stopped: bool,
    flush_completed: bool,
    next_handle: u64,
    actions: Vec<Action>,
}

impl View for Logger {
    type V = LoggerV;

    closed spec fn view(&self) -> LoggerV {
        LoggerV {
            options: self.options@,
            buffer: entries_view(self.buffer@),
            min_required_severity: self.min_required_severity,
            queue: messages_view(self.queue@),
            capacity: self.capacity,
            policy: self.policy,
            closed: self.closed,
            stopped: self.stopped,
            flush_completed: self.flush_completed,
            next_handle: self.next_handle,
            actions: actions_view(self.actions@),
        }
    }
}

/// The effective-severity cache for a configuration; see
/// [`spec_compute_min_severity`].
#[verifier::loop_isolation(false)]
pub fn compute_min_severity(options: &LoggerOptions) -> (r: Option<u8>)
    ensures
        r == spec_compute_min_severity(options@),
{
    let levels = match &options.levels {
        Some(levels) => levels,
        None => {
            return None;
        },
    };
    let mut acc: Option<u8> = match &options.level {
        Some(g) => levels.get_severity(g.as_str()),
        None => None,
    };
    let ghost list = options@.transport_list();
    match &options.transports {
        None => {
            proof {
                assert(list =~= Seq::<(TransportHandle, TransportV)>::empty());
            }
            acc
        },
        Some(ts) => {
            let mut i: usize = 0;
            proof {
                assert(list.subrange(0, 0) =~= Seq::<(TransportHandle, TransportV)>::empty());
            }
            while i < ts.len()
                invariant
                    i <= ts.len(),
                    list == transports_view(ts@),
                    options@.levels == Some(levels@),
                    acc == min_over_transports(
                        levels@,
                        list.subrange(0, i as int),
                        spec_compute_min_severity_start(options@),
                    ),
                decreases ts.len() - i,
            {
                proof {
                    assert(list.subrange(0, i + 1 as int).drop_last() =~= list.subrange(
                        0,
                        i as int,
                    ));
                    assert(list.subrange(0, i + 1 as int).last() == list[i as int]);
                    assert(list[i as int].1 == ts@[i as int].1@);
                }
                match ts[i].1.get_level() {
                    Some(name) => {
                        match levels.get_severity(name.as_str()) {
                            Some(v) => {
                                acc = match acc {
                                    Some(a) => Some(
                                        if v > a {
                                            v
                                        } else {
                                            a
                                        },
                                    ),
                                    None => Some(v),
                                };
                            },
                            None => {},
                        }
                    },
                    None => {},
                }
                i = i + 1;
            }
            proof {
                assert(list.subrange(0, list.len() as int) =~= list);
            }
            acc
        },
    }
}

/// The accumulator the cache computation starts from: the global level's
/// severity, when it resolves.
pub open spec fn spec_compute_min_severity_start(o: LoggerOptionsV) -> Option<u8> {
    match (o.levels, o.level) {
        (Some(levels), Some(g)) => assoc_find(levels, g),
        _ => None,
    }
}

/// Whether a record passes one transport's filter; see
/// [`transport_accepts`].
fn transport_accepts_exec(options: &LoggerOptions, t: &LoggerTransport, e: &LogInfo) -> (r: bool)
    ensures
        r == transport_accepts(options@, t@, e@),
{
    let eff: &String = match &t.level {
        Some(l) => l,
        None => match &options.level {
            Some(g) => g,
            None => {
                return true;
            },
        },
    };
    match &options.levels {
        Some(levels) => {
            match (levels.get_severity(e.level.as_str()), levels.get_severity(eff.as_str())) {
                (Some(es), Some(rs)) => es <= rs,
                _ => false,
            }
        },
        None => true,
    }
}

/// Append the dispatch actions of one record; see [`dispatch_actions`].
#[verifier::loop_isolation(false)]
fn dispatch_into(options: &LoggerOptions, e: &LogInfo, actions: &mut Vec<Action>)
    ensures
        actions_view(final(actions)@) == actions_view(old(actions)@) + dispatch_actions(
            options@,
            e@,
        ),
{
    let ghost base = actions_view(actions@);
    if e.is_degenerate() {
        proof {
            assert(actions_view(actions@) =~= base + dispatch_actions(options@, e@));
        }
        return ;
    }
    let ghost list = options@.transport_list();
    match &options.transports {
        None => {
            proof {
                assert(list =~= Seq::<(TransportHandle, TransportV)>::empty());
                assert(actions_view(actions@) =~= base + dispatch_actions(options@, e@));
            }
        },
        Some(ts) => {
            let mut i: usize = 0;
            proof {
                assert(list.subrange(0, 0) =~= Seq::<(TransportHandle, TransportV)>::empty());
                assert(actions_view(actions@) =~= base + deliver_actions(
                    options@,
                    list.subrange(0, 0),
                    e@,
                ));
            }
            while i < ts.len()
                invariant
                    i <= ts.len(),
                    list == transports_view(ts@),
                    !e@.degenerate(),
                    actions_view(actions@) == base + deliver_actions(
                        options@,
                        list.subrange(0, i as int),
                        e@,
                    ),
                decreases ts.len() - i,
            {
                proof {
                    assert(list.subrange(0, i + 1 as int).drop_last() =~= list.subrange(
                        0,
                        i as int,
                    ));
                    assert(list.subrange(0, i + 1 as int).last() == list[i as int]);
                    assert(list[i as int].1 == ts@[i as int].1@);
                    assert(list[i as int].0 == ts@[i as int].0);
                }
                if transport_accepts_exec(options, &ts[i].1, e) {
                    let format = match ts[i].1.get_format() {
                        Some(f) => Some(f),
                        None => options.format,
                    };
                    let ghost before = actions_view(actions@);
                    actions.push(
                        Action::Deliver { handle: ts[i].0, format, entry: e.clone() },
                    );
                    proof {
                        let ghost target = base + deliver_actions(
                            options@,
                            list.subrange(0, i + 1 as int),
                            e@,
                        );
                        assert forall|w: int|
                            0 <= w < actions@.len() implies actions_view(actions@)[w]
                            == target[w] by {
                            assert(actions_view(actions@)[w] == actions@[w]@);
                            if w < before.len() {
                                assert(actions_view(actions@)[w] == before[w]);
                            }
                        }
                        assert(actions_view(actions@) =~= base + deliver_actions(
                            options@,
                            list.subrange(0, i + 1 as int),
                            e@,
                        ));
                    }
                } else {
                    proof {
                        assert(actions_view(actions@) =~= base + deliver_actions(
                            options@,
                            list.subrange(0, i + 1 as int),
                            e@,
                        ));
                    }
                }
                i = i + 1;
            }
            proof {
                assert(list.subrange(0, list.len() as int) =~= list);
            }
        },
    }
}

proof fn lemma_entries_view_push(v: Seq<LogInfo>, x: LogInfo)
    ensures
        entries_view(v.push(x)) =~= entries_view(v).push(x@),
{
    assert forall|i: int|
        0 <= i < v.len() + 1 implies entries_view(v.push(x))[i] == entries_view(v).push(
        x@,
    )[i] by {
        assert(entries_view(v.push(x))[i] == v.push(x)[i]@);
        if i < v.len() {
            assert(entries_view(v)[i] == v[i]@);
        }
    }
}

proof fn lemma_actions_view_push(v: Seq<Action>, x: Action)
    ensures
        actions_view(v.push(x)) =~= actions_view(v).push(x@),
{
    assert forall|i: int|
        0 <= i < v.len() + 1 implies actions_view(v.push(x))[i] == actions_view(v).push(
        x@,
    )[i] by {
        assert(actions_view(v.push(x))[i] == v.push(x)[i]@);
        if i < v.len() {
            assert(actions_view(v)[i] == v[i]@);
        }
    }
}

proof fn lemma_messages_view_push(v: Seq<LogMessage>, x: LogMessage)
    ensures
        messages_view(v.push(x)) =~= messages_view(v).push(x@),
{
    assert forall|i: int|
        0 <= i < v.len() + 1 implies messages_view(v.push(x))[i] == messages_view(v).push(
        x@,
    )[i] by {
        assert(messages_view(v.push(x))[i] == v.push(x)[i]@);
        if i < v.len() {
            assert(messages_view(v)[i] == v[i]@);
        }
    }
}

proof fn lemma_messages_view_remove0(v: Seq<LogMessage>)
    requires
        v.len() > 0,
    ensures
        messages_view(v.remove(0)) =~= messages_view(v).drop_first(),
{
    assert forall|i: int|
        0 <= i < v.len() - 1 implies messages_view(v.remove(0))[i] == messages_view(
        v,
    ).drop_first()[i] by {
        assert(messages_view(v.remove(0))[i] == v.remove(0)[i]@);
        assert(v.remove(0)[i] == v[i + 1]);
        assert(messages_view(v)[i + 1] == v[i + 1]@);
    }
}

/// Drain the buffer through dispatch; see [`drain_actions`].
#[verifier::loop_isolation(false)]
fn drain_into(options: &LoggerOptions, buffer: &mut Vec<LogInfo>, actions: &mut Vec<Action>)
    ensures
        final(buffer)@.len() == 0,
        actions_view(final(actions)@) == actions_view(old(actions)@) + drain_actions(
            options@,
            entries_view(old(buffer)@),
        ),
{
    let ghost base = actions_view(actions@);
    let ghost buf = entries_view(buffer@);
    let mut i: usize = 0;
    proof {
        assert(buf.subrange(0, 0) =~= Seq::<LogInfoV>::empty());
        assert(actions_view(actions@) =~= base + drain_actions(options@, buf.subrange(0, 0)));
    }
    while i < buffer.len()
        invariant
            i <= buffer.len(),
            buf == entries_view(buffer@),
            actions_view(actions@) == base + drain_actions(options@, buf.subrange(0, i as int)),
        decreases buffer.len() - i,
    {
        proof {
            assert(buf.subrange(0, i + 1 as int).drop_last() =~= buf.subrange(0, i as int));
            assert(buf.subrange(0, i + 1 as int).last() == buf[i as int]);
            assert(buf[i as int] == buffer@[i as int]@);
        }
        dispatch_into(options, &buffer[i], actions);
        i = i + 1;
    }
    proof {
        assert(buf.subrange(0, buf.len() as int) =~= buf);
    }
    buffer.clear();
    proof {
        assert(entries_view(buffer@) =~= Seq::<LogInfoV>::empty());
    }
}

/// Give every descriptor a fresh handle, counting up from `base`.
#[verifier::loop_isolation(false)]
fn assign_handles(ts: &Vec<(TransportHandle, LoggerTransport)>, base: u64) -> (r: Vec<
    (TransportHandle, LoggerTransport),
>)
    requires
        base + ts@.len() <= u64::MAX,
    ensures
        transports_view(r@) == renumber(transports_view(ts@), base),
{
    let mut out: Vec<(TransportHandle, LoggerTransport)> = Vec::new();
    let mut i: usize = 0;
    while i < ts.len()
        invariant
            i <= ts.len(),
            out@.len() == i,
            forall|j: int|
                0 <= j < i ==> (#[trigger] out@[j]).0 == TransportHandle((base + j) as u64)
                    && out@[j].1@ == ts@[j].1@,
        decreases ts.len() - i,
    {
        let descriptor = ts[i].1.clone();
        out.push((TransportHandle(base + i as u64), descriptor));
        i = i + 1;
    }
    proof {
        assert(transports_view(out@) =~= renumber(transports_view(ts@), base));
    }
    out
}

impl Logger {
    /// Process one control message under the state lock, exactly as the
    /// worker does for each message it takes off the queue. A message
    /// processed after shutdown is ignored.
    pub fn handle_message(&mut self, msg: LogMessage)
        requires
            old(self)@.wf(),
            match msg@ {
                LogMessageV::Configure(o) => old(self)@.next_handle + o.transport_list().len()
                    <= u64::MAX,
                _ => true,
            },
        ensures
            final(self)@ == old(self)@.handle(msg@),
            final(self)@.wf(),
    {
        let ghost s0 = self@;
        let ghost msgv = msg@;
        if self.stopped {
            return ;
        }
        match msg {
            LogMessage::Entry(e) => {
                let ghost ev = e@;
                let no_transports = match &self.options.transports {
                    None => true,
                    Some(ts) => ts.len() == 0,
                };
                if no_transports {
                    proof {
                        lemma_entries_view_push(self.buffer@, e);
                        lemma_actions_view_push(
                            self.actions@,
                            Action::Diagnostic(DiagKind::NoTransports),
                        );
                    }
                    self.buffer.push(e);
                    self.actions.push(Action::Diagnostic(DiagKind::NoTransports));
                    proof {
                        assert(self@ =~= s0.handle(msgv));
                    }
                } else {
                    drain_into(&self.options, &mut self.buffer, &mut self.actions);
                    dispatch_into(&self.options, &e, &mut self.actions);
                    proof {
                        assert(actions_view(self.actions@) =~= s0.actions + drain_actions(
                            s0.options,
                            s0.buffer,
                        ) + dispatch_actions(s0.options, ev));
                        assert(self@ =~= s0.handle(msgv));
                    }
                }
            },
            LogMessage::Configure(o) => {
                let ghost ov = o@;
                let LoggerOptions { levels, format, level, transports, .. } = o;
                if let Some(l) = level {
                    self.options.level = Some(l);
                }
                if let Some(ls) = levels {
                    self.options.levels = Some(ls);
                }
                if let Some(f) = format {
                    self.options.format = Some(f);
                }
                if let Some(ts) = transports {
                    let fresh = assign_handles(&ts, self.next_handle);
                    self.options.transports = Some(fresh);
                    self.next_handle = self.next_handle + ts.len() as u64;
                }
                self.min_required_severity = compute_min_severity(&self.options);
                proof {
                    assert(self.options@ =~= s0.worker_configure(ov).options);
                }
                drain_into(&self.options, &mut self.buffer, &mut self.actions);
                proof {
                    assert(self@ =~= s0.handle(msgv));
                    assert(self@.wf()) by {
                        lemma_wf_after_configure(s0, ov);
                    }
                }
            },
            LogMessage::Shutdown => {
                drain_into(&self.options, &mut self.buffer, &mut self.actions);
                self.stopped = true;
                self.closed = true;
                proof {
                    assert(self@ =~= s0.handle(msgv));
                }
            },
            LogMessage::Flush => {
                let no_transports = match &self.options.transports {
                    None => true,
                    Some(ts) => ts.len() == 0,
                };
                if !no_transports {
                    drain_into(&self.options, &mut self.buffer, &mut self.actions);
                    let ghost drained = actions_view(self.actions@);
                    let ghost list = self@.options.transport_list();
                    let n = match &self.options.transports {
                        Some(ts) => ts.len(),
                        None => 0,
                    };
                    let mut i: usize = 0;
                    proof {
                        assert(drained + flush_transport_actions(list).subrange(0, 0)
                            =~= drained);
                    }
                    while i < n
                        invariant
                            i <= n,
                            n == list.len(),
                            list == self@.options.transport_list(),
                            self.options.transports is Some,
                            self@.core_same(s0),
                            self@.flush_completed == s0.flush_completed,
                            self@.buffer == Seq::<LogInfoV>::empty(),
                            actions_view(self.actions@) == drained + flush_transport_actions(
                                list,
                            ).subrange(0, i as int),
                        decreases n - i,
                    {
                        let handle = match &self.options.transports {
                            Some(ts) => ts[i].0,
                            None => TransportHandle(0),
                        };
                        proof {
                            lemma_actions_view_push(
                                self.actions@,
                                Action::FlushTransport { handle },
                            );
                            assert(handle == list[i as int].0);
                        }
                        self.actions.push(Action::FlushTransport { handle });
                        proof {
                            assert(flush_transport_actions(list).subrange(0, i + 1 as int)
                                =~= flush_transport_actions(list).subrange(0, i as int).push(
                                ActionV::FlushTransport { handle: list[i as int].0 },
                            ));
                        }
                        i = i + 1;
                    }
                    proof {
                        assert(flush_transport_actions(list).subrange(0, list.len() as int)
                            =~= flush_transport_actions(list));
                    }
                }
                proof {
                    lemma_actions_view_push(self.actions@, Action::FlushCompleted);
                }
                self.flush_completed = true;
                self.actions.push(Action::FlushCompleted);
                proof {
                    assert(self@ =~= s0.handle(msgv));
                }
            },
        }
    }
}

/// Freshly renumbered descriptors carry pairwise-distinct handles, all
/// below the advanced counter.
proof fn lemma_renumber_wf(ts: Seq<(TransportHandle, TransportV)>, base: u64, next: u64)
    requires
        base + ts.len() <= u64::MAX,
        next == base + ts.len(),
    ensures
        forall|i: int, j: int|
            0 <= i < j < renumber(ts, base).len() ==> (#[trigger] renumber(ts, base)[i]).0 != (
            #[trigger] renumber(ts, base)[j]).0,
        forall|i: int|
            0 <= i < renumber(ts, base).len() ==> (#[trigger] renumber(ts, base)[i]).0.0 < next,
{
    let list = renumber(ts, base);
    assert forall|i: int, j: int| 0 <= i < j < list.len() implies (#[trigger] list[i]).0 != (
    #[trigger] list[j]).0 by {
        assert(list[i].0.0 == base + i);
        assert(list[j].0.0 == base + j);
    }
    assert forall|i: int| 0 <= i < list.len() implies (#[trigger] list[i]).0.0 < next by {
        assert(list[i].0.0 == base + i);
    }
}

/// Reconfiguration through the worker keeps the state well-formed.
proof fn lemma_wf_after_configure(s: LoggerV, o: LoggerOptionsV)
    requires
        s.wf(),
        !s.stopped,
        s.next_handle + o.transport_list().len() <= u64::MAX,
    ensures
        s.worker_configure(o).wf(),
{
    let s1 = s.worker_configure(o);
    match o.transports {
        Some(ts) => {
            lemma_renumber_wf(ts, s.next_handle, s1.next_handle);
        },
        None => {},
    }
}

/// The view of an optional configuration.
pub open spec fn opts_view(o: Option<LoggerOptions>) -> Option<LoggerOptionsV> {
    match o {
        Some(x) => Some(x@),
        None => None,
    }
}

/// The state a fresh logger starts in: the given (or default) options
/// with transports renumbered from zero, the cache precomputed, capacity
/// and backpressure policy read once, and everything else empty.
pub open spec fn spec_new(o: Option<LoggerOptionsV>) -> LoggerV {
    let given = match o {
        Some(v) => v,
        None => LoggerOptionsV::spec_default(),
    };
    let normalized = LoggerOptionsV {
        transports: match given.transports {
            Some(ts) => Some(renumber(ts, 0)),
            None => None,
        },
        ..given
    };
    LoggerV {
        options: normalized,
        buffer: Seq::empty(),
        min_required_severity: spec_compute_min_severity(normalized),
        queue: Seq::empty(),
        capacity: match given.channel_capacity {
            Some(c) => c,
            None => 1024,
        },
        policy: match given.backpressure_strategy {
            Some(p) => p,
            None => BackpressureStrategy::Block,
        },
        closed: false,
        stopped: false,
        flush_completed: false,
        next_handle: match given.transports {
            Some(ts) => ts.len() as u64,
            None => 0,
        },
        actions: Seq::empty(),
    }
}

/// What `configure` does; see [`Logger::configure`].
pub open spec fn spec_configure(s: LoggerV, o: Option<LoggerOptionsV>) -> LoggerV {
    match o {
        None => s,
        Some(o) => {
            let cleared: Option<Seq<(TransportHandle, TransportV)>> = match s.options.transports {
                Some(_) => Some(Seq::empty()),
                None => None,
            };
            let merged = LoggerOptionsV {
                level: if o.level is Some {
                    o.level
                } else if s.options.level is Some {
                    s.options.level
                } else {
                    LoggerOptionsV::spec_default().level
                },
                levels: if o.levels is Some {
                    o.levels
                } else if s.options.levels is Some {
                    s.options.levels
                } else {
                    LoggerOptionsV::spec_default().levels
                },
                format: if o.format is Some {
                    o.format
                } else if s.options.format is Some {
                    s.options.format
                } else {
                    LoggerOptionsV::spec_default().format
                },
                transports: match o.transports {
                    Some(ts) => Some(renumber(ts, s.next_handle)),
                    None => cleared,
                },
                ..s.options
            };
            let next = match o.transports {
                Some(ts) => (s.next_handle + ts.len()) as u64,
                None => s.next_handle,
            };
            LoggerV {
                options: merged,
                min_required_severity: spec_compute_min_severity(merged),
                buffer: Seq::empty(),
                actions: s.actions + drain_actions(merged, s.buffer),
                next_handle: next,
                ..s
            }
        },
    }
}

/// What `add_transport` does: the descriptor is appended under a fresh
/// handle and the cache is recomputed.
pub open spec fn spec_add_transport(s: LoggerV, t: TransportV) -> (LoggerV, TransportHandle) {
    let h = TransportHandle(s.next_handle);
    let merged = LoggerOptionsV {
        transports: Some(s.options.transport_list().push((h, t))),
        ..s.options
    };
    (
        LoggerV {
            options: merged,
            min_required_severity: spec_compute_min_severity(merged),
            next_handle: (s.next_handle + 1) as u64,
            ..s
        },
        h,
    )
}

/// What `remove_transport` does: the wrapper with the matching handle
/// leaves the list and the cache is recomputed; without a match nothing
/// changes.
pub open spec fn spec_remove_transport(s: LoggerV, h: TransportHandle) -> (LoggerV, bool) {
    let list = s.options.transport_list();
    if exists|i: int| 0 <= i < list.len() && (#[trigger] list[i]).0 == h {
        let i = choose|i: int| 0 <= i < list.len() && (#[trigger] list[i]).0 == h;
        let merged = LoggerOptionsV { transports: Some(list.remove(i)), ..s.options };
        (
            LoggerV {
                options: merged,
                min_required_severity: spec_compute_min_severity(merged),
                ..s
            },
            true,
        )
    } else {
        (s, false)
    }
}

/// The cache-based fast pre-filter: a record's level is enabled when the
/// registry resolves it to a severity no larger than the cached most
/// permissive threshold.
pub open spec fn spec_is_level_enabled(s: LoggerV, level: Seq<char>) -> bool {
    match (s.min_required_severity, s.options.levels) {
        (Some(m), Some(levels)) => match assoc_find(levels, level) {
            Some(es) => es <= m,
            _ => false,
        },
        _ => false,
    }
}

impl Logger {
    /// Build a logger from the given options, or from the defaults.
    pub fn new(options: Option<LoggerOptions>) -> (r: Logger)
        ensures
            r@ == spec_new(opts_view(options)),
            r@.wf(),
    {
        let ghost ov = opts_view(options);
        let mut opts = match options {
            Some(o) => o,
            None => LoggerOptions::default(),
        };
        let capacity = match opts.channel_capacity {
            Some(c) => c,
            None => 1024,
        };
        let policy = match opts.backpressure_strategy {
            Some(p) => p,
            None => BackpressureStrategy::Block,
        };
        let mut next_handle: u64 = 0;
        let fresh = match &opts.transports {
            Some(ts) => {
                let k = ts.len();
                let renumbered = assign_handles(ts, 0);
                next_handle = k as u64;
                Some(renumbered)
            },
            None => None,
        };
        opts.transports = fresh;
        let min_required_severity = compute_min_severity(&opts);
        let r = Logger {
            options: opts,
            buffer: Vec::new(),
            min_required_severity,
            queue: Vec::new(),
            capacity,
            policy,
            closed: false,
            stopped: false,
            flush_completed: false,
            next_handle,
            actions: Vec::new(),
        };
        proof {
            assert(r@.options =~= spec_new(ov).options);
            assert(r@ =~= spec_new(ov));
            match spec_new(ov).options.transports {
                Some(ts0) => {
                    match ov {
                        Some(given) => {
                            lemma_renumber_wf(
                                given.transport_list(),
                                0,
                                r@.next_handle,
                            );
                        },
                        None => {},
                    }
                },
                None => {},
            }
            assert(r@.buffer =~= Seq::<LogInfoV>::empty());
            assert(r@.queue =~= Seq::<LogMessageV>::empty());
            assert(r@.wf());
        }
        r
    }

    /// Start building a logger from the default options.
    pub fn builder() -> (r: crate::builder::LoggerBuilder)
        ensures
            r@ =~= LoggerOptionsV::spec_default(),
    {
        crate::builder::LoggerBuilder::new()
    }

    /// Take the oldest message off the queue and process it.
    fn worker_step(&mut self)
        requires
            old(self)@.wf(),
        ensures
            final(self)@ == old(self)@.step(),
            final(self)@.wf(),
    {
        let ghost s0 = self@;
        if self.stopped {
            return ;
        }
        if self.queue.len() == 0 {
            return ;
        }
        let ghost q0 = self.queue@;
        let msg = self.queue.remove(0);
        proof {
            lemma_messages_view_remove0(q0);
            assert(msg@ == messages_view(q0)[0]);
            assert(self@ =~= (LoggerV { queue: s0.queue.drop_first(), ..s0 }));
            assert(self@.wf());
        }
        self.handle_message(msg);
    }

    /// Run the worker until the queue is empty or it stops.
    fn run_queue(&mut self)
        requires
            old(self)@.wf(),
        ensures
            final(self)@ == old(self)@.run(),
            final(self)@.wf(),
    {
        while !self.stopped && self.queue.len() > 0
            invariant
                self@.wf(),
                old(self)@.run() == self@.run(),
            decreases self@.queue.len(),
        {
            self.worker_step();
        }
    }

    /// Enqueue a message as a blocking send would; see
    /// [`LoggerV::enqueue_blocking`].
    fn enqueue_blocking(&mut self, msg: LogMessage)
        requires
            old(self)@.wf(),
            !old(self)@.stopped,
            msg@ is Entry || msg@ is Flush,
        ensures
            final(self)@ == old(self)@.enqueue_blocking(msg@),
            final(self)@.wf(),
    {
        let ghost s0 = self@;
        if self.capacity == 0 {
            self.handle_message(msg);
        } else if self.queue.len() < self.capacity {
            proof {
                lemma_messages_view_push(self.queue@, msg);
            }
            self.queue.push(msg);
            proof {
                assert(self@ =~= (LoggerV { queue: s0.queue.push(msg@), ..s0 }));
            }
        } else {
            self.worker_step();
            let ghost s1 = self@;
            proof {
                lemma_messages_view_push(self.queue@, msg);
            }
            self.queue.push(msg);
            proof {
                assert(self@ =~= (LoggerV { queue: s1.queue.push(msg@), ..s1 }));
                assert(s1.queue.len() < s0.capacity);
            }
        }
    }

    /// Submit one record without blocking; on a full queue the configured
    /// backpressure policy decides, and on a closed logger the record is
    /// dropped with a diagnostic. The caller never fails.
    pub fn log(&mut self, entry: LogInfo)
        requires
            old(self)@.wf(),
        ensures
            final(self)@ == old(self)@.submit(entry@),
            final(self)@.wf(),
    {
        let ghost s0 = self@;
        if self.closed {
            proof {
                lemma_actions_view_push(self.actions@, Action::Diagnostic(DiagKind::Disconnected));
            }
            self.actions.push(Action::Diagnostic(DiagKind::Disconnected));
            proof {
                assert(self@ =~= s0.submit(entry@));
            }
            return ;
        }
        if self.queue.len() < self.capacity {
            let ghost q0 = self.queue@;
            let ghost ev = entry@;
            let m = LogMessage::Entry(entry);
            proof {
                lemma_messages_view_push(q0, m);
            }
            self.queue.push(m);
            proof {
                assert(self@ =~= s0.submit(ev));
            }
            return ;
        }
        match self.policy {
            BackpressureStrategy::Block => {
                self.enqueue_blocking(LogMessage::Entry(entry));
            },
            BackpressureStrategy::DropCurrent => {
                proof {
                    lemma_actions_view_push(
                        self.actions@,
                        Action::Diagnostic(DiagKind::DroppedCurrent),
                    );
                }
                self.actions.push(Action::Diagnostic(DiagKind::DroppedCurrent));
                proof {
                    assert(self@ =~= s0.submit(entry@));
                }
            },
            BackpressureStrategy::DropOldest => {
                if self.capacity == 0 {
                    proof {
                        lemma_actions_view_push(
                            self.actions@,
                            Action::Diagnostic(DiagKind::DropRetryFailed),
                        );
                    }
                    self.actions.push(Action::Diagnostic(DiagKind::DropRetryFailed));
                    proof {
                        assert(self@ =~= s0.submit(entry@));
                    }
                } else {
                    let ghost q0 = self.queue@;
                    let front = self.queue.remove(0);
                    proof {
                        lemma_messages_view_remove0(q0);
                        assert(front@ == messages_view(q0)[0]);
                    }
                    match front {
                        LogMessage::Entry(_) => {
                            let ghost ev = entry@;
                            let m = LogMessage::Entry(entry);
                            proof {
                                lemma_messages_view_push(self.queue@, m);
                            }
                            self.queue.push(m);
                            proof {
                                lemma_actions_view_push(
                                    self.actions@,
                                    Action::Diagnostic(DiagKind::DroppedOldest),
                                );
                            }
                            self.actions.push(Action::Diagnostic(DiagKind::DroppedOldest));
                            proof {
                                assert(self@ =~= s0.submit(ev));
                            }
                        },
                        other => {
                            proof {
                                lemma_messages_view_push(self.queue@, other);
                            }
                            let ghost otherv = other@;
                            self.queue.push(other);
                            proof {
                                lemma_actions_view_push(
                                    self.actions@,
                                    Action::Diagnostic(DiagKind::DropRetryFailed),
                                );
                            }
                            self.actions.push(Action::Diagnostic(DiagKind::DropRetryFailed));
                            proof {
                                assert(self@ =~= s0.submit(entry@));
                            }
                        },
                    }
                }
            },
        }
    }

    /// Submit a record at level `info`.
    pub fn info(&mut self, message: &str)
        requires
            old(self)@.wf(),
        ensures
            final(self)@ == old(self)@.submit(
                LoggerV::plain_record("info"@, message@),
            ),
            final(self)@.wf(),
    {
        let e = LogInfo::new("info", message);
        proof {
            assert(e@ =~= LoggerV::plain_record("info"@, message@));
        }
        self.log(e);
    }

    /// Submit a record at level `warn`.
    pub fn warn(&mut self, message: &str)
        requires
            old(self)@.wf(),
        ensures
            final(self)@ == old(self)@.submit(
                LoggerV::plain_record("warn"@, message@),
            ),
            final(self)@.wf(),
    {
        let e = LogInfo::new("warn", message);
        proof {
            assert(e@ =~= LoggerV::plain_record("warn"@, message@));
        }
        self.log(e);
    }

    /// Submit a record at level `error`.
    pub fn error(&mut self, message: &str)
        requires
            old(self)@.wf(),
        ensures
            final(self)@ == old(self)@.submit(
                LoggerV::plain_record("error"@, message@),
            ),
            final(self)@.wf(),
    {
        let e = LogInfo::new("error", message);
        proof {
            assert(e@ =~= LoggerV::plain_record("error"@, message@));
        }
        self.log(e);
    }

    /// Submit a record at level `debug`.
    pub fn debug(&mut self, message: &str)
        requires
            old(self)@.wf(),
        ensures
            final(self)@ == old(self)@.submit(
                LoggerV::plain_record("debug"@, message@),
            ),
            final(self)@.wf(),
    {
        let e = LogInfo::new("debug", message);
        proof {
            assert(e@ =~= LoggerV::plain_record("debug"@, message@));
        }
        self.log(e);
    }

    /// Submit a record at level `trace`.
    pub fn trace(&mut self, message: &str)
        requires
            old(self)@.wf(),
        ensures
            final(self)@ == old(self)@.submit(
                LoggerV::plain_record("trace"@, message@),
            ),
            final(self)@.wf(),
    {
        let e = LogInfo::new("trace", message);
        proof {
            assert(e@ =~= LoggerV::plain_record("trace"@, message@));
        }
        self.log(e);
    }

    /// Submit one record, blocking until it is queued; a closed logger
    /// drops it with a diagnostic.
    pub fn logi(&mut self, entry: LogInfo)
        requires
            old(self)@.wf(),
        ensures
            final(self)@ == old(self)@.submit_blocking(entry@),
            final(self)@.wf(),
    {
        let ghost s0 = self@;
        if self.closed {
            proof {
                lemma_actions_view_push(self.actions@, Action::Diagnostic(DiagKind::Disconnected));
            }
            self.actions.push(Action::Diagnostic(DiagKind::Disconnected));
            proof {
                assert(self@ =~= s0.submit_blocking(entry@));
            }
        } else {
            self.enqueue_blocking(LogMessage::Entry(entry));
        }
    }

    /// The flush barrier: returns once the worker has processed every
    /// message enqueued before the call, each attached transport has been
    /// told to flush, and the completion flag is set. Always succeeds; a
    /// closed logger short-circuits.
    pub fn flush(&mut self) -> (r: Result<(), String>)
        requires
            old(self)@.wf(),
        ensures
            final(self)@ == old(self)@.flush_state(),
            final(self)@.wf(),
            r is Ok,
    {
        if self.closed {
            return Ok(());
        }
        self.flush_completed = false;
        self.enqueue_blocking(LogMessage::Flush);
        self.run_queue();
        Ok(())
    }

    /// Close the logger: idempotent; flushes, shuts the worker down, and
    /// wakes every flush waiter.
    pub fn close(&mut self)
        requires
            old(self)@.wf(),
        ensures
            final(self)@ == old(self)@.close_state(),
            final(self)@.wf(),
    {
        if self.closed {
            return ;
        }
        let ghost s0 = self@;
        let _ = self.flush();
        self.handle_message(LogMessage::Shutdown);
        self.closed = true;
        self.flush_completed = true;
        proof {
            assert(self@ =~= s0.close_state());
        }
    }

    /// Merge the given options into the configuration: each present field
    /// replaces the current value, absent fields keep it (or fall back to
    /// the default); the transport list is first cleared and then, when
    /// supplied, replaced under fresh handles; the cache is recomputed and
    /// the buffer drained under the new configuration. `configure(None)`
    /// does nothing.
    pub fn configure(&mut self, new_options: Option<LoggerOptions>)
        requires
            old(self)@.wf(),
            match opts_view(new_options) {
                Some(o) => old(self)@.next_handle + o.transport_list().len() <= u64::MAX,
                None => true,
            },
        ensures
            final(self)@ == spec_configure(old(self)@, opts_view(new_options)),
            final(self)@.wf(),
    {
        let ghost s0 = self@;
        let ghost ov = opts_view(new_options);
        let o = match new_options {
            Some(o) => o,
            None => {
                return ;
            },
        };
        if self.options.transports.is_some() {
            self.options.transports = Some(Vec::new());
        }
        let LoggerOptions { levels, format, level, transports, .. } = o;
        match level {
            Some(l) => {
                self.options.level = Some(l);
            },
            None => {
                if self.options.level.is_none() {
                    self.options.level = Some("info".to_owned());
                }
            },
        }
        match levels {
            Some(ls) => {
                self.options.levels = Some(ls);
            },
            None => {
                if self.options.levels.is_none() {
                    self.options.levels = Some(LoggerLevels::default());
                }
            },
        }
        match format {
            Some(f) => {
                self.options.format = Some(f);
            },
            None => {
                if self.options.format.is_none() {
                    self.options.format = Some(crate::options::JSON_FORMAT);
                }
            },
        }
        if let Some(ts) = transports {
            let k = ts.len();
            let fresh = assign_handles(&ts, self.next_handle);
            self.options.transports = Some(fresh);
            self.next_handle = self.next_handle + k as u64;
        }
        self.min_required_severity = compute_min_severity(&self.options);
        proof {
            assert(self.options@ =~= spec_configure(s0, ov).options);
        }
        drain_into(&self.options, &mut self.buffer, &mut self.actions);
        proof {
            assert(self@ =~= spec_configure(s0, ov));
            match ov {
                Some(o) => {
                    match o.transports {
                        Some(ts) => {
                            lemma_renumber_wf(ts, s0.next_handle, self@.next_handle);
                        },
                        None => {},
                    }
                },
                None => {},
            }
            assert(self@.wf());
        }
    }

    /// Attach a transport under a fresh handle, unique for this logger's
    /// lifetime, and recompute the cache. Returns the handle.
    pub fn add_transport(&mut self, transport: LoggerTransport) -> (h: TransportHandle)
        requires
            old(self)@.wf(),
            old(self)@.next_handle < u64::MAX,
        ensures
            final(self)@ == spec_add_transport(old(self)@, transport@).0,
            h == spec_add_transport(old(self)@, transport@).1,
            final(self)@.wf(),
            h.0 == old(self)@.next_handle,
            final(self)@.options.transport_list() == old(self)@.options.transport_list().push(
                (h, transport@),
            ),
    {
        let ghost s0 = self@;
        let h = TransportHandle(self.next_handle);
        self.next_handle = self.next_handle + 1;
        let ghost list0 = s0.options.transport_list();
        match &mut self.options.transports {
            Some(ts) => {
                let ghost t0 = ts@;
                ts.push((h, transport));
                proof {
                    assert forall|i: int|
                        0 <= i < transports_view(ts@).len() implies transports_view(ts@)[i]
                        == list0.push((h, transport@))[i] by {
                        if i < t0.len() {
                            assert(transports_view(t0)[i] == (t0[i].0, t0[i].1@));
                        }
                    }
                    assert(transports_view(ts@) =~= list0.push((h, transport@)));
                }
            },
            None => {
                let mut ts: Vec<(TransportHandle, LoggerTransport)> = Vec::new();
                ts.push((h, transport));
                proof {
                    assert(transports_view(ts@) =~= list0.push((h, transport@)));
                }
                self.options.transports = Some(ts);
            },
        }
        self.min_required_severity = compute_min_severity(&self.options);
        proof {
            assert(self@.options =~= spec_add_transport(s0, transport@).0.options);
            assert(self@ =~= spec_add_transport(s0, transport@).0);
            assert(self@.wf());
        }
        h
    }

    /// Detach the transport with the given handle. Returns whether it was
    /// found; a handle removed once is never found again.
    #[verifier::loop_isolation(false)]
    pub fn remove_transport(&mut self, handle: TransportHandle) -> (r: bool)
        requires
            old(self)@.wf(),
        ensures
            final(self)@ == spec_remove_transport(old(self)@, handle).0,
            r == spec_remove_transport(old(self)@, handle).1,
            final(self)@.wf(),
            r == exists|i: int|
                0 <= i < old(self)@.options.transport_list().len() && (
                #[trigger] old(self)@.options.transport_list()[i]).0 == handle,
    {
        let ghost s0 = self@;
        let ghost list0 = s0.options.transport_list();
        let n = match &self.options.transports {
            Some(ts) => ts.len(),
            None => 0,
        };
        proof {
            if self.options.transports is None {
                assert(list0 =~= Seq::<(TransportHandle, TransportV)>::empty());
            }
        }
        let mut i: usize = 0;
        let mut found = false;
        while i < n && !found
            invariant
                i <= n,
                n == list0.len(),
                self@ == s0,
                found ==> i < n && list0[i as int].0 == handle,
                forall|j: int| 0 <= j < i ==> (#[trigger] list0[j]).0 != handle,
            decreases n - i + (if found {
                0int
            } else {
                1int
            }),
        {
            let hit = match &self.options.transports {
                Some(ts) => {
                    proof {
                        assert(transports_view(ts@) == list0);
                        assert(transports_view(ts@)[i as int] == (ts@[i as int].0, ts@[
                            i as int
                        ].1@));
                    }
                    ts[i].0 == handle
                },
                None => false,
            };
            if hit {
                found = true;
            } else {
                i = i + 1;
            }
        }
        if !found {
            proof {
                assert(!(exists|c: int|
                    0 <= c < list0.len() && (#[trigger] list0[c]).0 == handle));
            }
            return false;
        }
        let ghost w = i as int;
        match &mut self.options.transports {
            Some(ts) => {
                let ghost t0 = ts@;
                let _ = ts.remove(i);
                proof {
                    assert forall|k: int|
                        0 <= k < transports_view(ts@).len() implies transports_view(ts@)[k]
                        == list0.remove(w)[k] by {
                        if k < w {
                            assert(ts@[k] == t0[k]);
                            assert(transports_view(t0)[k] == (t0[k].0, t0[k].1@));
                        } else {
                            assert(ts@[k] == t0[k + 1]);
                            assert(transports_view(t0)[k + 1] == (t0[k + 1].0, t0[k + 1].1@));
                        }
                    }
                    assert(transports_view(ts@) =~= list0.remove(w));
                }
            },
            None => {},
        }
        self.min_required_severity = compute_min_severity(&self.options);
        proof {
            let c = choose|c: int| 0 <= c < list0.len() && (#[trigger] list0[c]).0 == handle;
            assert(c == w) by {
                if c != w {
                    assert(list0[c].0 != list0[w].0);
                }
            }
            assert(self@.options =~= spec_remove_transport(s0, handle).0.options);
            assert(self@ =~= spec_remove_transport(s0, handle).0);
            assert(self@.wf()) by {
                assert forall|a: int, b: int|
                    0 <= a < b < list0.remove(w).len() implies (#[trigger] list0.remove(
                    w,
                )[a]).0 != (#[trigger] list0.remove(w)[b]).0 by {
                    if b < w {
                    } else if a < w {
                        assert(list0.remove(w)[b] == list0[b + 1]);
                    } else {
                        assert(list0.remove(w)[a] == list0[a + 1]);
                        assert(list0.remove(w)[b] == list0[b + 1]);
                    }
                }
            }
        }
        true
    }

    /// The records in the pre-transport buffer that satisfy the query.
    pub fn query_buffered(&self, options: &LogQuery) -> (r: Vec<LogInfo>)
        ensures
            entries_view(r@) == spec_filter_matching(self@.buffer, options@),
    {
        filter_matching(&self.buffer, options)
    }

    /// Query the pipeline's own buffered records: filter, sort, paginate
    /// and project them. Transport-side results join in through
    /// [`run_query`].
    pub fn query(&self, options: &LogQuery) -> (r: Result<Vec<LogInfo>, String>)
        ensures
            match r {
                Ok(out) => spec_run_query(
                    options@,
                    spec_filter_matching(self@.buffer, options@),
                    Seq::empty(),
                ) == Ok::<Seq<LogInfoV>, Seq<char>>(entries_view(out@)),
                Err(e) => spec_run_query(
                    options@,
                    spec_filter_matching(self@.buffer, options@),
                    Seq::empty(),
                ) == Err::<Seq<LogInfoV>, Seq<char>>(e@),
            },
    {
        let buffered = self.query_buffered(options);
        let empty_results: Vec<Result<Vec<LogInfo>, String>> = Vec::new();
        proof {
            assert(crate::query::results_view(empty_results@) =~= Seq::<
                Result<Seq<LogInfoV>, Seq<char>>,
            >::empty());
        }
        run_query(options, buffered, empty_results)
    }

    /// The cache-based fast pre-filter on a level name; see
    /// [`spec_is_level_enabled`].
    pub fn is_level_enabled(&self, level: &str) -> (r: bool)
        ensures
            r == spec_is_level_enabled(self@, level@),
    {
        match (self.min_required_severity, &self.options.levels) {
            (Some(m), Some(levels)) => match levels.get_severity(level) {
                Some(es) => es <= m,
                None => false,
            },
            _ => false,
        }
    }

    /// Hand over the outward actions produced so far, oldest first, and
    /// start afresh.
    pub fn take_actions(&mut self) -> (r: Vec<Action>)
        ensures
            actions_view(r@) == old(self)@.actions,
            final(self)@ == (LoggerV { actions: Seq::empty(), ..old(self)@ }),
            old(self)@.wf() ==> final(self)@.wf(),
    {
        let mut out: Vec<Action> = Vec::new();
        core::mem::swap(&mut out, &mut self.actions);
        proof {
            assert(actions_view(self.actions@) =~= Seq::<ActionV>::empty());
            assert(self@ =~= (LoggerV { actions: Seq::empty(), ..old(self)@ }));
        }
        out
    }

    /// The current global level name.
    pub fn level(&self) -> (r: &Option<String>)
        ensures
            crate::options::view_opt_string(*r) == self@.options.level,
    {
        &self.options.level
    }

    /// The current configuration.
    pub fn options(&self) -> (r: &LoggerOptions)
        ensures
            r@ == self@.options,
    {
        &self.options
    }

    /// The effective-severity cache.
    pub fn min_required_severity(&self) -> (r: Option<u8>)
        ensures
            r == self@.min_required_severity,
    {
        self.min_required_severity
    }

    /// The next fresh transport handle; handles never repeat below it.
    pub fn next_handle(&self) -> (r: u64)
        ensures
            r == self@.next_handle,
    {
        self.next_handle
    }

    /// Whether `close` has run.
    pub fn is_closed(&self) -> (r: bool)
        ensures
            r == self@.closed,
    {
        self.closed
    }

    /// How many records sit in the pre-transport buffer.
    pub fn buffer_len(&self) -> (r: usize)
        ensures
            r == self@.buffer.len(),
    {
        self.buffer.len()
    }

    /// How many messages sit in the queue.
    pub fn queue_len(&self) -> (r: usize)
        ensures
            r == self@.queue.len(),
    {
        self.queue.len()
    }
}

} // verus!
