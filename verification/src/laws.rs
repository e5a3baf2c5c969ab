//! The pipeline's quantified laws, proved over the state-machine model:
//! what the effective-severity cache guarantees, how deliveries relate to
//! submissions, what the flush barrier observes, and how handles,
//! backpressure and reconfiguration behave.

use vstd::prelude::*;
use crate::assoc::assoc_find;
use crate::logger::LoggerV;
use crate::logger::bump;
use crate::logger::deliver_actions;
use crate::logger::dispatch_actions;
use crate::logger::drain_actions;
use crate::logger::min_over_transports;
use crate::logger::override_severity;
use crate::logger::spec_add_transport;
use crate::logger::spec_compute_min_severity;
use crate::logger::spec_configure;
use crate::logger::spec_remove_transport;
use crate::logger::transport_accepts;
use crate::message::ActionV;
use crate::message::DiagKind;
use crate::message::LogMessageV;
use crate::options::LoggerOptionsV;
use crate::options::BackpressureStrategy;
use crate::options::TransportHandle;
use crate::options::TransportV;
use crate::record::LogInfoV;

verus! {

/// The records handed to the transport behind `h`, in order.
pub open spec fn deliveries_to(actions: Seq<ActionV>, h: TransportHandle) -> Seq<LogInfoV>
    decreases actions.len(),
{
    if actions.len() == 0 {
        Seq::empty()
    } else {
        let rest = deliveries_to(actions.drop_last(), h);
        match actions.last() {
            ActionV::Deliver { handle, entry, .. } => if handle == h {
                rest.push(entry)
            } else {
                rest
            },
            _ => rest,
        }
    }
}

/// Whether the transport behind `h` accepts the record under the given
/// configuration.
pub open spec fn accepted_by(
    o: LoggerOptionsV,
    ts: Seq<(TransportHandle, TransportV)>,
    h: TransportHandle,
    e: LogInfoV,
) -> bool {
    exists|k: int|
        0 <= k < ts.len() && (#[trigger] ts[k]).0 == h && transport_accepts(o, ts[k].1, e)
}

/// The records of a sequence that the transport behind `h` receives:
/// the non-degenerate ones it accepts, in their given order.
pub open spec fn delivered_filter(
    o: LoggerOptionsV,
    buf: Seq<LogInfoV>,
    h: TransportHandle,
) -> Seq<LogInfoV>
    decreases buf.len(),
{
    if buf.len() == 0 {
        Seq::empty()
    } else {
        let rest = delivered_filter(o, buf.drop_last(), h);
        if !buf.last().degenerate() && accepted_by(o, o.transport_list(), h, buf.last()) {
            rest.push(buf.last())
        } else {
            rest
        }
    }
}

/// Deliveries distribute over concatenation of action logs.
pub proof fn lemma_deliveries_concat(a: Seq<ActionV>, b: Seq<ActionV>, h: TransportHandle)
    ensures
        deliveries_to(a + b, h) == deliveries_to(a, h) + deliveries_to(b, h),
    decreases b.len(),
{
    if b.len() == 0 {
        assert(a + b =~= a);
        assert(deliveries_to(b, h) =~= Seq::<LogInfoV>::empty());
        assert(deliveries_to(a, h) + deliveries_to(b, h) =~= deliveries_to(a, h));
    } else {
        lemma_deliveries_concat(a, b.drop_last(), h);
        assert((a + b).drop_last() =~= a + b.drop_last());
        assert((a + b).last() == b.last());
    }
}

/// A pushed non-delivery action leaves the deliveries unchanged.
pub proof fn lemma_deliveries_push_other(a: Seq<ActionV>, x: ActionV, h: TransportHandle)
    requires
        !(x is Deliver),
    ensures
        deliveries_to(a.push(x), h) == deliveries_to(a, h),
{
    assert(a.push(x).drop_last() =~= a);
}

/// What one record's dispatch delivers to the transport at index `k`:
/// the record itself when it passes, nothing otherwise.
pub proof fn lemma_deliver_actions_to(
    o: LoggerOptionsV,
    ts: Seq<(TransportHandle, TransportV)>,
    e: LogInfoV,
    h: TransportHandle,
)
    requires
        forall|i: int, j: int|
            0 <= i < j < ts.len() ==> (#[trigger] ts[i]).0 != (#[trigger] ts[j]).0,
    ensures
        deliveries_to(deliver_actions(o, ts, e), h) == if accepted_by(o, ts, h, e) {
            seq![e]
        } else {
            Seq::<LogInfoV>::empty()
        },
    decreases ts.len(),
{
    if ts.len() == 0 {
        assert(!accepted_by(o, ts, h, e));
    } else {
        let d = ts.drop_last();
        lemma_deliver_actions_to(o, d, e, h);
        let rest = deliver_actions(o, d, e);
        if transport_accepts(o, ts.last().1, e) {
            assert(deliver_actions(o, ts, e) == rest.push(
                ActionV::Deliver {
                    handle: ts.last().0,
                    format: crate::logger::effective_format(o, ts.last().1),
                    entry: e,
                },
            ));
            assert(deliver_actions(o, ts, e).drop_last() =~= rest);
            if ts.last().0 == h {
                assert(ts[ts.len() - 1].0 == h);
                assert(accepted_by(o, ts, h, e));
                assert(!accepted_by(o, d, h, e)) by {
                    if accepted_by(o, d, h, e) {
                        let k = choose|k: int|
                            0 <= k < d.len() && (#[trigger] d[k]).0 == h && transport_accepts(
                                o,
                                d[k].1,
                                e,
                            );
                        assert(ts[k].0 == ts[ts.len() - 1].0);
                    }
                }
            } else {
                lemma_accepted_by_drop(o, ts, h, e);
            }
        } else {
            assert(deliver_actions(o, ts, e) == rest);
            if accepted_by(o, ts, h, e) {
                let k = choose|k: int|
                    0 <= k < ts.len() && (#[trigger] ts[k]).0 == h && transport_accepts(
                        o,
                        ts[k].1,
                        e,
                    );
                assert(k < ts.len() - 1);
                assert(d[k] == ts[k]);
                assert(accepted_by(o, d, h, e));
            } else {
                assert(!accepted_by(o, d, h, e)) by {
                    if accepted_by(o, d, h, e) {
                        let k = choose|k: int|
                            0 <= k < d.len() && (#[trigger] d[k]).0 == h && transport_accepts(
                                o,
                                d[k].1,
                                e,
                            );
                        assert(ts[k] == d[k]);
                    }
                }
            }
        }
    }
}

/// When the last transport's handle differs, acceptance is decided by
/// the front of the list.
proof fn lemma_accepted_by_drop(
    o: LoggerOptionsV,
    ts: Seq<(TransportHandle, TransportV)>,
    h: TransportHandle,
    e: LogInfoV,
)
    requires
        ts.len() > 0,
        ts.last().0 != h,
    ensures
        accepted_by(o, ts, h, e) == accepted_by(o, ts.drop_last(), h, e),
{
    let d = ts.drop_last();
    if accepted_by(o, ts, h, e) {
        let k = choose|k: int|
            0 <= k < ts.len() && (#[trigger] ts[k]).0 == h && transport_accepts(o, ts[k].1, e);
        assert(k < ts.len() - 1);
        assert(d[k] == ts[k]);
        assert(accepted_by(o, d, h, e));
    }
    if accepted_by(o, d, h, e) {
        let k = choose|k: int|
            0 <= k < d.len() && (#[trigger] d[k]).0 == h && transport_accepts(o, d[k].1, e);
        assert(ts[k] == d[k]);
        assert(accepted_by(o, ts, h, e));
    }
}

/// What one record's dispatch delivers to the transport behind `h`.
pub proof fn lemma_dispatch_deliveries(o: LoggerOptionsV, e: LogInfoV, h: TransportHandle)
    requires
        forall|i: int, j: int|
            0 <= i < j < o.transport_list().len() ==> (#[trigger] o.transport_list()[i]).0 != (
            #[trigger] o.transport_list()[j]).0,
    ensures
        deliveries_to(dispatch_actions(o, e), h) == if !e.degenerate() && accepted_by(
            o,
            o.transport_list(),
            h,
            e,
        ) {
            seq![e]
        } else {
            Seq::<LogInfoV>::empty()
        },
{
    if e.degenerate() {
    } else {
        lemma_deliver_actions_to(o, o.transport_list(), e, h);
    }
}

/// What draining a buffer delivers to the transport behind `h`: exactly
/// the records it accepts, in buffer order.
pub proof fn lemma_drain_deliveries(
    o: LoggerOptionsV,
    buf: Seq<LogInfoV>,
    h: TransportHandle,
)
    requires
        forall|i: int, j: int|
            0 <= i < j < o.transport_list().len() ==> (#[trigger] o.transport_list()[i]).0 != (
            #[trigger] o.transport_list()[j]).0,
    ensures
        deliveries_to(drain_actions(o, buf), h) == delivered_filter(o, buf, h),
    decreases buf.len(),
{
    if buf.len() == 0 {
    } else {
        lemma_drain_deliveries(o, buf.drop_last(), h);
        lemma_deliveries_concat(
            drain_actions(o, buf.drop_last()),
            dispatch_actions(o, buf.last()),
            h,
        );
        lemma_dispatch_deliveries(o, buf.last(), h);
    }
}

/// The sequence of records carried by a queue of record messages.
pub open spec fn queue_entries(q: Seq<LogMessageV>) -> Seq<LogInfoV>
    decreases q.len(),
{
    if q.len() == 0 {
        Seq::empty()
    } else {
        match q.first() {
            LogMessageV::Entry(e) => seq![e] + queue_entries(q.drop_first()),
            _ => queue_entries(q.drop_first()),
        }
    }
}

/// The accepted-record filter distributes over concatenation.
pub proof fn lemma_delivered_filter_concat(
    o: LoggerOptionsV,
    a: Seq<LogInfoV>,
    b: Seq<LogInfoV>,
    h: TransportHandle,
)
    ensures
        delivered_filter(o, a + b, h) == delivered_filter(o, a, h) + delivered_filter(o, b, h),
    decreases b.len(),
{
    if b.len() == 0 {
        assert(a + b =~= a);
        assert(delivered_filter(o, a, h) + delivered_filter(o, b, h) =~= delivered_filter(
            o,
            a,
            h,
        ));
    } else {
        lemma_delivered_filter_concat(o, a, b.drop_last(), h);
        assert((a + b).drop_last() =~= a + b.drop_last());
        assert((a + b).last() == b.last());
    }
}

/// Running the worker over a queue of records, with transports attached,
/// delivers to each transport exactly the records it accepts — buffered
/// ones first, then the queued ones, each group in submission order.
///
/// This is the per-producer ordering guarantee: a transport receives the
/// records of one producer in the order they were submitted, because the
/// queue preserves submission order and this run delivers the queue's
/// records in queue order.
pub proof fn lemma_run_delivers_in_order(s: LoggerV, h: TransportHandle)
    requires
        s.wf(),
        !s.stopped,
        s.options.transport_list().len() > 0,
        forall|i: int| 0 <= i < s.queue.len() ==> (#[trigger] s.queue[i]) is Entry,
    ensures
        deliveries_to(s.run().actions, h) == deliveries_to(s.actions, h) + (if s.queue.len()
            == 0 {
            Seq::<LogInfoV>::empty()
        } else {
            delivered_filter(s.options, s.buffer + queue_entries(s.queue), h)
        }),
        s.run().options == s.options,
        s.run().buffer.len() == 0 || s.queue.len() == 0,
        !s.run().stopped,
        s.run().queue.len() == 0,
    decreases s.queue.len(),
{
    let list = s.options.transport_list();
    if s.queue.len() == 0 {
        assert(s.run() == s);
        assert(deliveries_to(s.actions, h) + Seq::<LogInfoV>::empty() =~= deliveries_to(
            s.actions,
            h,
        ));
    } else {
        let m = s.queue.first();
        let e = m->Entry_0;
        let popped = LoggerV { queue: s.queue.drop_first(), ..s };
        let s1 = popped.handle(m);
        assert(s.step() == s1);
        assert(s1.options == s.options);
        assert(!s1.stopped);
        assert(s1.queue == s.queue.drop_first());
        assert(forall|i: int| 0 <= i < s1.queue.len() ==> (#[trigger] s1.queue[i]) is Entry);
        assert(s1.wf());
        lemma_run_delivers_in_order(s1, h);
        if s1.queue.len() == 0 {
            assert(queue_entries(s1.queue) =~= Seq::<LogInfoV>::empty());
            assert(delivered_filter(s.options, s1.buffer + queue_entries(s1.queue), h) =~= Seq::<
                LogInfoV,
            >::empty());
        }
        assert(deliveries_to(s1.run().actions, h) == deliveries_to(s1.actions, h)
            + delivered_filter(s.options, s1.buffer + queue_entries(s1.queue), h));
        // the worker dispatched the drained buffer and then `e`
        assert(s1.buffer =~= Seq::<LogInfoV>::empty());
        assert(s1.actions == s.actions + drain_actions(s.options, s.buffer) + dispatch_actions(
            s.options,
            e,
        ));
        lemma_deliveries_concat(
            s.actions + drain_actions(s.options, s.buffer),
            dispatch_actions(s.options, e),
            h,
        );
        lemma_deliveries_concat(s.actions, drain_actions(s.options, s.buffer), h);
        lemma_drain_deliveries(s.options, s.buffer, h);
        lemma_dispatch_deliveries(s.options, e, h);
        assert(s1.buffer + queue_entries(s1.queue) =~= queue_entries(s1.queue));
        assert(queue_entries(s.queue) == seq![e] + queue_entries(s.queue.drop_first()));
        lemma_delivered_filter_concat(
            s.options,
            s.buffer,
            seq![e] + queue_entries(s1.queue),
            h,
        );
        lemma_delivered_filter_concat(s.options, seq![e], queue_entries(s1.queue), h);
        assert(s.buffer + (seq![e] + queue_entries(s1.queue)) =~= s.buffer + queue_entries(
            s.queue,
        ));
        assert(delivered_filter(s.options, seq![e], h) == if !e.degenerate() && accepted_by(
            s.options,
            list,
            h,
            e,
        ) {
            seq![e]
        } else {
            Seq::<LogInfoV>::empty()
        }) by {
            assert(seq![e].drop_last() =~= Seq::<LogInfoV>::empty());
            assert(seq![e].last() == e);
            assert(delivered_filter(s.options, Seq::<LogInfoV>::empty(), h) =~= Seq::<
                LogInfoV,
            >::empty());
            assert(Seq::<LogInfoV>::empty().push(e) =~= seq![e]);
        }
        assert(deliveries_to(s.run().actions, h) =~= deliveries_to(s.actions, h)
            + delivered_filter(s.options, s.buffer + queue_entries(s.queue), h));
    }
}

/// The flush barrier guarantee: when a flush of a logger whose queue
/// holds records returns, every one of those records that a transport
/// accepts has been handed to it, buffered records first, all in
/// submission order, and the barrier is complete.
pub proof fn lemma_flush_observes_all(s: LoggerV, h: TransportHandle)
    requires
        s.wf(),
        !s.closed,
        s.options.transport_list().len() > 0,
        forall|i: int| 0 <= i < s.queue.len() ==> (#[trigger] s.queue[i]) is Entry,
        s.queue.len() < s.capacity,
    ensures
        deliveries_to(s.flush_state().actions, h) == deliveries_to(s.actions, h)
            + delivered_filter(s.options, s.buffer + queue_entries(s.queue), h),
        s.flush_state().flush_completed,
    decreases s.queue.len(),
{
    let s0 = LoggerV { flush_completed: false, ..s };
    let s1 = s0.enqueue_blocking(LogMessageV::Flush);
    if s.capacity == 0 {
        assert(s.queue.len() == 0);
        assert(s1 == s0.worker_flush());
        assert(s1.queue.len() == 0);
        assert(s.flush_state() == s1.run());
        assert(s1.run() == s1);
        let drained = drain_actions(s.options, s.buffer);
        lemma_deliveries_concat(s.actions + drained, crate::logger::flush_transport_actions(
            s.options.transport_list(),
        ), h);
        lemma_deliveries_concat(s.actions, drained, h);
        lemma_drain_deliveries(s.options, s.buffer, h);
        lemma_flush_actions_no_deliveries(s.options.transport_list(), h);
        lemma_deliveries_push_other(s1.actions.drop_last(), ActionV::FlushCompleted, h);
        assert(s1.actions.drop_last() =~= s.actions + drained
            + crate::logger::flush_transport_actions(s.options.transport_list()));
        assert(s.buffer + queue_entries(s.queue) =~= s.buffer);
    } else {
        assert(s1 == (LoggerV { queue: s0.queue.push(LogMessageV::Flush), ..s0 }));
        lemma_run_flush_tail(s1, h);
        assert(queue_entries(s1.queue) =~= queue_entries(s.queue)) by {
            lemma_queue_entries_flush_tail(s.queue);
        }
    }
}

/// Flush actions deliver nothing.
proof fn lemma_flush_actions_no_deliveries(
    ts: Seq<(TransportHandle, TransportV)>,
    h: TransportHandle,
)
    ensures
        deliveries_to(crate::logger::flush_transport_actions(ts), h) == Seq::<LogInfoV>::empty(),
    decreases ts.len(),
{
    let fa = crate::logger::flush_transport_actions(ts);
    if ts.len() == 0 {
        assert(fa.len() == 0);
    } else {
        lemma_flush_actions_no_deliveries(ts.drop_last(), h);
        assert(fa.drop_last() =~= crate::logger::flush_transport_actions(ts.drop_last()));
        assert(fa.last() == ActionV::FlushTransport { handle: ts[ts.len() - 1].0 });
    }
}

/// Records in a queue that ends in a flush barrier.
proof fn lemma_queue_entries_flush_tail(q: Seq<LogMessageV>)
    ensures
        queue_entries(q.push(LogMessageV::Flush)) == queue_entries(q),
    decreases q.len(),
{
    let p = q.push(LogMessageV::Flush);
    if q.len() == 0 {
        assert(p.first() == LogMessageV::Flush);
        assert(p.drop_first() =~= Seq::<LogMessageV>::empty());
        assert(queue_entries(Seq::<LogMessageV>::empty()) =~= Seq::<LogInfoV>::empty());
        assert(queue_entries(p) =~= Seq::<LogInfoV>::empty());
    } else {
        assert(p.first() == q.first());
        assert(p.drop_first() =~= q.drop_first().push(LogMessageV::Flush));
        lemma_queue_entries_flush_tail(q.drop_first());
    }
}

/// Running a queue of records that ends in one flush barrier delivers
/// the records in order and completes the barrier.
proof fn lemma_run_flush_tail(s: LoggerV, h: TransportHandle)
    requires
        s.wf(),
        !s.stopped,
        s.options.transport_list().len() > 0,
        s.queue.len() > 0,
        s.queue.last() == LogMessageV::Flush,
        forall|i: int| 0 <= i < s.queue.len() - 1 ==> (#[trigger] s.queue[i]) is Entry,
    ensures
        deliveries_to(s.run().actions, h) == deliveries_to(s.actions, h) + delivered_filter(
            s.options,
            s.buffer + queue_entries(s.queue),
            h,
        ),
        s.run().flush_completed,
    decreases s.queue.len(),
{
    let list = s.options.transport_list();
    let m = s.queue.first();
    let popped = LoggerV { queue: s.queue.drop_first(), ..s };
    let s1 = popped.handle(m);
    assert(s.step() == s1);
    if s.queue.len() == 1 {
        // the only message is the flush barrier itself
        assert(m == LogMessageV::Flush);
        assert(s1 == popped.worker_flush());
        assert(s1.queue.len() == 0);
        assert(s.run() == s1.run());
        assert(s1.run() == s1);
        let drained = drain_actions(s.options, s.buffer);
        lemma_deliveries_concat(s.actions + drained, crate::logger::flush_transport_actions(
            list,
        ), h);
        lemma_deliveries_concat(s.actions, drained, h);
        lemma_drain_deliveries(s.options, s.buffer, h);
        lemma_flush_actions_no_deliveries(list, h);
        lemma_deliveries_push_other(s1.actions.drop_last(), ActionV::FlushCompleted, h);
        assert(s1.actions.drop_last() =~= s.actions + drained
            + crate::logger::flush_transport_actions(list));
        assert(queue_entries(s.queue) =~= Seq::<LogInfoV>::empty()) by {
            assert(s.queue.drop_first() =~= Seq::<LogMessageV>::empty());
        }
        assert(s.buffer + queue_entries(s.queue) =~= s.buffer);
        assert(deliveries_to(s.run().actions, h) =~= deliveries_to(s.actions, h)
            + delivered_filter(s.options, s.buffer + queue_entries(s.queue), h));
    } else {
        assert(s.queue[0] is Entry);
        let e = m->Entry_0;
        assert(s1.options == s.options);
        assert(!s1.stopped);
        assert(s1.queue == s.queue.drop_first());
        assert(s1.queue.last() == LogMessageV::Flush) by {
            assert(s.queue.drop_first()[s.queue.len() - 2] == s.queue[s.queue.len() - 1]);
        }
        assert(forall|i: int|
            0 <= i < s1.queue.len() - 1 ==> (#[trigger] s1.queue[i]) is Entry);
        assert(s1.wf());
        lemma_run_flush_tail(s1, h);
        assert(s1.buffer =~= Seq::<LogInfoV>::empty());
        assert(s1.actions == s.actions + drain_actions(s.options, s.buffer) + dispatch_actions(
            s.options,
            e,
        ));
        lemma_deliveries_concat(
            s.actions + drain_actions(s.options, s.buffer),
            dispatch_actions(s.options, e),
            h,
        );
        lemma_deliveries_concat(s.actions, drain_actions(s.options, s.buffer), h);
        lemma_drain_deliveries(s.options, s.buffer, h);
        lemma_dispatch_deliveries(s.options, e, h);
        assert(s1.buffer + queue_entries(s1.queue) =~= queue_entries(s1.queue));
        assert(queue_entries(s.queue) == seq![e] + queue_entries(s.queue.drop_first()));
        lemma_delivered_filter_concat(
            s.options,
            s.buffer,
            seq![e] + queue_entries(s1.queue),
            h,
        );
        lemma_delivered_filter_concat(s.options, seq![e], queue_entries(s1.queue), h);
        assert(s.buffer + (seq![e] + queue_entries(s1.queue)) =~= s.buffer + queue_entries(
            s.queue,
        ));
        assert(delivered_filter(s.options, seq![e], h) == if !e.degenerate() && accepted_by(
            s.options,
            list,
            h,
            e,
        ) {
            seq![e]
        } else {
            Seq::<LogInfoV>::empty()
        }) by {
            assert(seq![e].drop_last() =~= Seq::<LogInfoV>::empty());
            assert(seq![e].last() == e);
            assert(delivered_filter(s.options, Seq::<LogInfoV>::empty(), h) =~= Seq::<
                LogInfoV,
            >::empty());
            assert(Seq::<LogInfoV>::empty().push(e) =~= seq![e]);
        }
        assert(s.run() == s1.run());
        assert(deliveries_to(s.run().actions, h) =~= deliveries_to(s.actions, h)
            + delivered_filter(s.options, s.buffer + queue_entries(s.queue), h));
    }
}

/// The cache's fold only raises the accumulator and bounds every
/// transport's resolved override.
proof fn lemma_min_fold_bounds(
    levels: Seq<(Seq<char>, u8)>,
    ts: Seq<(TransportHandle, TransportV)>,
    acc: Option<u8>,
)
    ensures
        acc is Some ==> min_over_transports(levels, ts, acc) is Some && min_over_transports(
            levels,
            ts,
            acc,
        )->Some_0 >= acc->Some_0,
        forall|i: int|
            0 <= i < ts.len() ==> match override_severity(levels, (#[trigger] ts[i]).1) {
                Some(v) => min_over_transports(levels, ts, acc) is Some && v
                    <= min_over_transports(levels, ts, acc)->Some_0,
                None => true,
            },
    decreases ts.len(),
{
    if ts.len() == 0 {
    } else {
        let d = ts.drop_last();
        lemma_min_fold_bounds(levels, d, acc);
        assert(forall|i: int| 0 <= i < d.len() ==> d[i] == ts[i]);
    }
}

/// A record whose severity exceeds the cached most permissive threshold
/// is delivered to no transport. This needs the global level to be set:
/// with no global level, a transport without an override is not filtered
/// at all.
pub proof fn lemma_severity_above_cache_not_delivered(o: LoggerOptionsV, e: LogInfoV, m: u8)
    requires
        o.level is Some,
        spec_compute_min_severity(o) == Some(m),
        match o.levels {
            Some(levels) => match assoc_find(levels, e.level) {
                Some(s) => s > m,
                None => false,
            },
            None => false,
        },
    ensures
        dispatch_actions(o, e).len() == 0,
{
    let levels = o.levels->Some_0;
    let list = o.transport_list();
    let start = crate::logger::spec_compute_min_severity_start(o);
    lemma_min_fold_bounds(levels, list, start);
    assert forall|i: int| 0 <= i < list.len() implies !transport_accepts(
        o,
        (#[trigger] list[i]).1,
        e,
    ) by {
        let t = list[i].1;
        match t.level {
            Some(n) => {
                match assoc_find(levels, n) {
                    Some(v) => {
                        assert(override_severity(levels, t) == Some(v));
                    },
                    None => {},
                }
            },
            None => {
                match assoc_find(levels, o.level->Some_0) {
                    Some(gs) => {},
                    None => {},
                }
            },
        }
    }
    lemma_deliver_none(o, list, e);
}

/// The fast pre-filter is sound: a record that it rejects, although its
/// level resolves, is one that the full dispatch delivers to no
/// transport. The global level must be set: without one, a transport
/// without an override is not filtered at all.
pub proof fn lemma_prefilter_sound(s: LoggerV, e: LogInfoV)
    requires
        s.wf(),
        s.options.level is Some,
        s.options.levels is Some,
        assoc_find(s.options.levels->Some_0, e.level) is Some,
        !crate::logger::spec_is_level_enabled(s, e.level),
    ensures
        dispatch_actions(s.options, e).len() == 0,
{
    let o = s.options;
    let levels = o.levels->Some_0;
    let start = crate::logger::spec_compute_min_severity_start(o);
    match s.min_required_severity {
        Some(m) => {
            lemma_severity_above_cache_not_delivered(o, e, m);
        },
        None => {
            lemma_min_fold_bounds(levels, o.transport_list(), start);
            assert forall|i: int|
                0 <= i < o.transport_list().len() implies !transport_accepts(
                o,
                (#[trigger] o.transport_list()[i]).1,
                e,
            ) by {
                let t = o.transport_list()[i].1;
                match t.level {
                    Some(n) => {},
                    None => {},
                }
            }
            lemma_deliver_none(o, o.transport_list(), e);
        },
    }
}

/// A record whose level the registry does not know is delivered to no
/// transport, provided the global level is set.
pub proof fn lemma_unknown_level_not_delivered(o: LoggerOptionsV, e: LogInfoV)
    requires
        o.level is Some,
        o.levels is Some,
        assoc_find(o.levels->Some_0, e.level) is None,
    ensures
        dispatch_actions(o, e).len() == 0,
{
    let list = o.transport_list();
    assert forall|i: int| 0 <= i < list.len() implies !transport_accepts(
        o,
        (#[trigger] list[i]).1,
        e,
    ) by {}
    lemma_deliver_none(o, list, e);
}

/// A degenerate record (empty message and empty metadata) is delivered
/// to no transport.
pub proof fn lemma_degenerate_not_delivered(o: LoggerOptionsV, e: LogInfoV)
    requires
        e.degenerate(),
    ensures
        dispatch_actions(o, e).len() == 0,
{
}

/// When no transport accepts a record, its dispatch is empty.
proof fn lemma_deliver_none(
    o: LoggerOptionsV,
    ts: Seq<(TransportHandle, TransportV)>,
    e: LogInfoV,
)
    requires
        forall|i: int| 0 <= i < ts.len() ==> !transport_accepts(o, (#[trigger] ts[i]).1, e),
    ensures
        deliver_actions(o, ts, e).len() == 0,
    decreases ts.len(),
{
    if ts.len() == 0 {
    } else {
        assert(!transport_accepts(o, ts[ts.len() - 1].1, e));
        let d = ts.drop_last();
        assert(forall|i: int| 0 <= i < d.len() ==> d[i] == ts[i]);
        lemma_deliver_none(o, d, e);
    }
}

/// Every handle returned by `add_transport` removes successfully exactly
/// once: the first removal returns true, any further one false.
pub proof fn lemma_handle_removed_once(s: LoggerV, t: TransportV)
    requires
        s.wf(),
        s.next_handle < u64::MAX,
    ensures
        ({
            let (s1, h) = spec_add_transport(s, t);
            let (s2, r1) = spec_remove_transport(s1, h);
            let (s3, r2) = spec_remove_transport(s2, h);
            r1 && !r2
        }),
{
    let (s1, h) = spec_add_transport(s, t);
    let list0 = s.options.transport_list();
    let list1 = s1.options.transport_list();
    assert(list1 == list0.push((h, t)));
    assert(list1[list0.len() as int].0 == h);
    assert(exists|i: int| 0 <= i < list1.len() && (#[trigger] list1[i]).0 == h);
    let (s2, r1) = spec_remove_transport(s1, h);
    assert(r1);
    let c = choose|i: int| 0 <= i < list1.len() && (#[trigger] list1[i]).0 == h;
    assert(c == list0.len()) by {
        if c < list0.len() {
            assert(list1[c] == list0[c]);
            assert(list0[c].0.0 < s.next_handle);
        }
    }
    let list2 = s2.options.transport_list();
    assert(list2 == list1.remove(c));
    assert(list2 =~= list0);
    assert(!(exists|i: int| 0 <= i < list2.len() && (#[trigger] list2[i]).0 == h)) by {
        if exists|i: int| 0 <= i < list2.len() && (#[trigger] list2[i]).0 == h {
            let w = choose|i: int| 0 <= i < list2.len() && (#[trigger] list2[i]).0 == h;
            assert(list0[w].0.0 < s.next_handle);
        }
    }
}

/// Adding a transport and removing it by its handle leaves the transport
/// list unchanged in contents, while the handle counter only grows.
pub proof fn lemma_add_remove_roundtrip(s: LoggerV, t: TransportV)
    requires
        s.wf(),
        s.next_handle < u64::MAX,
    ensures
        ({
            let (s1, h) = spec_add_transport(s, t);
            let (s2, r) = spec_remove_transport(s1, h);
            r && s2.options.transport_list() =~= s.options.transport_list()
                && s2.next_handle == s.next_handle + 1
        }),
{
    lemma_handle_removed_once(s, t);
    let (s1, h) = spec_add_transport(s, t);
    let list0 = s.options.transport_list();
    let list1 = s1.options.transport_list();
    let c = choose|i: int| 0 <= i < list1.len() && (#[trigger] list1[i]).0 == h;
    assert(c == list0.len()) by {
        if c < list0.len() {
            assert(list1[c] == list0[c]);
            assert(list0[c].0.0 < s.next_handle);
        }
    }
    assert(list1.remove(c) =~= list0);
}

/// Closing twice (or more) has the same effect as closing once.
pub proof fn lemma_close_idempotent(s: LoggerV)
    ensures
        s.close_state().close_state() == s.close_state(),
{
    assert(s.close_state().closed);
}

/// Reconfiguring with fully populated options makes the level, registry
/// and format exactly the supplied ones, and the threshold cache is the
/// one computed from them.
pub proof fn lemma_configure_reflects(s: LoggerV, o: LoggerOptionsV)
    requires
        o.level is Some,
        o.levels is Some,
        o.format is Some,
    ensures
        ({
            let s1 = spec_configure(s, Some(o));
            &&& s1.options.level == o.level
            &&& s1.options.levels == o.levels
            &&& s1.options.format == o.format
            &&& s1.min_required_severity == spec_compute_min_severity(s1.options)
        }),
{
}

/// Under the blocking policy, a submit against a full queue completes
/// only after the worker has processed the oldest message: its
/// processing is in the action log before the record is queued.
pub proof fn lemma_block_policy_waits(s: LoggerV, e: LogInfoV)
    requires
        s.wf(),
        !s.closed,
        s.policy == BackpressureStrategy::Block,
        s.capacity >= 1,
        s.queue.len() == s.capacity,
    ensures
        s.submit(e) == (LoggerV { queue: s.step().queue.push(LogMessageV::Entry(e)), ..s.step() }),
        s.submit(e).queue.len() == s.capacity,
        s.submit(e).queue.last() == LogMessageV::Entry(e),
{
    assert(s.step().queue == s.queue.drop_first());
}

/// Under `DropCurrent`, a full queue keeps the earliest records: the
/// queue is untouched and the incoming record is dropped with a
/// diagnostic.
pub proof fn lemma_drop_current_keeps_earliest(s: LoggerV, e: LogInfoV)
    requires
        s.wf(),
        !s.closed,
        s.policy == BackpressureStrategy::DropCurrent,
        s.queue.len() == s.capacity,
    ensures
        s.submit(e).queue == s.queue,
        s.submit(e).actions == s.actions.push(ActionV::Diagnostic(DiagKind::DroppedCurrent)),
{
}

/// Under `DropOldest`, a full queue keeps the most recent records: the
/// oldest queued record leaves and the incoming one enters at the back.
pub proof fn lemma_drop_oldest_keeps_latest(s: LoggerV, e: LogInfoV)
    requires
        s.wf(),
        !s.closed,
        s.policy == BackpressureStrategy::DropOldest,
        s.capacity >= 1,
        s.queue.len() == s.capacity,
        s.queue.first() is Entry,
    ensures
        s.submit(e).queue == s.queue.drop_first().push(LogMessageV::Entry(e)),
        s.submit(e).actions == s.actions.push(ActionV::Diagnostic(DiagKind::DroppedOldest)),
{
}

/// Records logged before any transport is attached are buffered, and a
/// later flush (once a transport is attached) delivers the buffered
/// records first, in submission order.
pub proof fn lemma_buffered_then_delivered(s: LoggerV, h: TransportHandle)
    requires
        s.wf(),
        !s.closed,
        s.options.transport_list().len() > 0,
        s.queue.len() == 0,
        s.capacity >= 1,
    ensures
        deliveries_to(s.flush_state().actions, h) == deliveries_to(s.actions, h)
            + delivered_filter(s.options, s.buffer, h),
        s.flush_state().flush_completed,
{
    lemma_flush_observes_all(s, h);
    assert(queue_entries(s.queue) =~= Seq::<LogInfoV>::empty());
    assert(s.buffer + queue_entries(s.queue) =~= s.buffer);
}

} // verus!
