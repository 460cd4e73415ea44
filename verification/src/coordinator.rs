//! The commit-ordering coordinator.
//!
//! Workers draw strictly increasing work indices from a shared counter and
//! report completions in arbitrary order. A completion may advance the
//! durable resume point (the watermark) exactly when its index is the
//! minimum of the in-flight set: then every smaller index has already
//! completed, so the prefix below it is contiguous and safe to record.
//!
//! The in-flight set is kept as a strictly sorted vector. Allocation only
//! ever appends a fresh maximum, so sortedness is preserved by a plain push,
//! and the minimum is the first element.

use vstd::prelude::*;

verus! {

/// True when the sequence is strictly increasing. It orders the in-flight
/// vector, and it is what the laws state of the streams of watermark
/// signals and of allocated indices.
pub open spec fn strictly_increasing(s: Seq<u64>) -> bool {
    forall|a: int, b: int| 0 <= a < b < s.len() ==> s[a] < s[b]
}

/// Hands out unique, strictly increasing work indices and tracks which of
/// them are still in flight.
pub struct Coorinator {
    /// The next index to allocate.
    pub next: u64,
    /// Indices allocated but not yet successfully completed,
    /// kept strictly sorted in ascending order.
    pub transactions: Vec<u64>,
}

impl Coorinator {
    /// Internal consistency: the in-flight vector is strictly sorted and
    /// every member was allocated before `next`.
    pub open spec fn wf(&self) -> bool {
        &&& strictly_increasing(self.transactions@)
        &&& forall|k: int|
            0 <= k < self.transactions@.len() ==> self.transactions@[k] < self.next
    }

    /// The protocol-level abstraction of this state.
    pub open spec fn abs(&self) -> ProtocolState {
        ProtocolState { next: self.next, inflight: self.transactions@.to_set() }
    }

    /// Creates a coordinator that will allocate `index` first.
    pub fn with_index(index: u64) -> (c: Self)
        ensures
            c.wf(),
            c.next == index,
            c.transactions@ == Seq::<u64>::empty(),
            state_wf(c.abs()),
    {
        let c = Coorinator { next: index, transactions: Vec::new() };
        proof {
            broadcast use vstd::seq_lib::seq_to_set_is_finite;

            assert(c.abs().inflight =~= c.transactions@.to_set());
        }
        c
    }

    /// Allocates the next work index and marks it in flight. The index is
    /// exclusively owned by the caller: no other call ever returns it again.
    pub fn begin(&mut self) -> (i: u64)
        requires
            old(self).wf(),
            old(self).next < u64::MAX,
        ensures
            final(self).wf(),
            i == old(self).next,
            final(self).next == old(self).next + 1,
            final(self).transactions@ == old(self).transactions@.push(i),
            final(self).abs() == step_state(old(self).abs(), WorkEvent::Begin),
            state_wf(old(self).abs()) ==> state_wf(final(self).abs()),
    {
        let i = self.next;
        self.next = self.next + 1;
        self.transactions.push(i);
        proof {
            broadcast use vstd::seq_lib::group_seq_properties;

            assert(self.transactions@ == old(self).transactions@.push(i));
            assert(self.transactions@.to_set() =~= old(self).transactions@.to_set().insert(i));
            assert(self.abs() == step_state(old(self).abs(), WorkEvent::Begin));
        }
        i
    }

    /// Records the successful completion of in-flight index `i` and reports
    /// whether the watermark may advance: the signal is `Some(i)` exactly
    /// when `i` was the minimum in-flight index, i.e. when every smaller
    /// index has already completed. The check and the removal happen under
    /// one exclusive borrow, so no other completion can interleave.
    pub fn complete(&mut self, i: u64) -> (signal: Option<u64>)
        requires
            old(self).wf(),
            old(self).transactions@.contains(i),
        ensures
            final(self).wf(),
            final(self).next == old(self).next,
            final(self).transactions@.len() == old(self).transactions@.len() - 1,
            !final(self).transactions@.contains(i),
            forall|j: u64|
                j != i ==> (final(self).transactions@.contains(j) <==> old(
                    self,
                ).transactions@.contains(j)),
            (signal == Some::<u64>(i)) <==> (forall|k: int|
                0 <= k < old(self).transactions@.len() ==> i <= old(self).transactions@[k]),
            signal is Some ==> signal == Some::<u64>(i),
            final(self).abs() == step_state(old(self).abs(), WorkEvent::Complete { i }),
            signal == step_signal(old(self).abs(), WorkEvent::Complete { i }),
            state_wf(old(self).abs()) ==> state_wf(final(self).abs()),
    {
        let ghost old_seq = self.transactions@;
        let n = self.transactions.len();
        let mut pos: usize = 0;
        loop
            invariant
                self == old(self),
                n == self.transactions@.len(),
                0 <= pos < n,
                self.transactions@.contains(i),
                forall|k: int| 0 <= k < pos ==> self.transactions@[k] != i,
            ensures
                self == old(self),
                0 <= pos < n,
                self.transactions@[pos as int] == i,
                forall|k: int| 0 <= k < pos ==> self.transactions@[k] != i,
            decreases n - pos,
        {
            if self.transactions[pos] == i {
                break ;
            }
            proof {
                let w = choose|w: int|
                    0 <= w < self.transactions@.len() && self.transactions@[w] == i;
                assert(w > pos);
            }
            pos = pos + 1;
        }
        let signal = if pos == 0 {
            Some(i)
        } else {
            None
        };
        self.transactions.remove(pos);
        proof {
            assert(self.transactions@ == old_seq.remove(pos as int));
            assert forall|k: int|
                0 <= k < self.transactions@.len() implies self.transactions@[k] != i by {
                if k < pos {
                    assert(self.transactions@[k] == old_seq[k]);
                } else {
                    assert(self.transactions@[k] == old_seq[k + 1]);
                    assert(old_seq[pos as int] < old_seq[k + 1]);
                }
            }
            assert(self.wf()) by {
                assert forall|a: int, b: int|
                    0 <= a < b < self.transactions@.len() implies self.transactions@[a]
                    < self.transactions@[b] by {
                    let a0 = if a < pos { a } else { a + 1 };
                    let b0 = if b < pos { b } else { b + 1 };
                    assert(self.transactions@[a] == old_seq[a0]);
                    assert(self.transactions@[b] == old_seq[b0]);
                }
            }
            assert forall|j: u64|
                j != i implies (self.transactions@.contains(j) <==> old_seq.contains(j)) by {
                if old_seq.contains(j) {
                    let w = choose|w: int| 0 <= w < old_seq.len() && old_seq[w] == j;
                    if w < pos {
                        assert(self.transactions@[w] == j);
                    } else {
                        assert(w > pos);
                        assert(self.transactions@[w - 1] == j);
                    }
                }
                if self.transactions@.contains(j) {
                    let w = choose|w: int|
                        0 <= w < self.transactions@.len() && self.transactions@[w] == j;
                    if w < pos {
                        assert(old_seq[w] == j);
                    } else {
                        assert(old_seq[w + 1] == j);
                    }
                }
            }
            assert(self.transactions@.to_set() =~= old_seq.to_set().remove(i));
            assert((signal == Some::<u64>(i)) <==> is_min(old_seq.to_set(), i)) by {
                if pos == 0 {
                    assert(old_seq.to_set().contains(i));
                    assert forall|j: u64| old_seq.to_set().contains(j) implies i <= j by {
                        let w = choose|w: int| 0 <= w < old_seq.len() && old_seq[w] == j;
                        if w > 0 {
                            assert(old_seq[0] < old_seq[w]);
                        }
                    }
                    assert(is_min(old_seq.to_set(), i));
                } else {
                    assert(old_seq.contains(old_seq[0]));
                    assert(old_seq.to_set().contains(old_seq[0]));
                    assert(old_seq[0] < old_seq[pos as int]);
                    assert(!is_min(old_seq.to_set(), i));
                }
            }
            assert((signal == Some::<u64>(i)) <==> (forall|k: int|
                0 <= k < old_seq.len() ==> i <= old_seq[k])) by {
                if forall|k: int| 0 <= k < old_seq.len() ==> i <= old_seq[k] {
                    assert(is_min(old_seq.to_set(), i));
                }
                if is_min(old_seq.to_set(), i) {
                    assert forall|k: int| 0 <= k < old_seq.len() implies i <= old_seq[k] by {
                        assert(old_seq.to_set().contains(old_seq[k]));
                    }
                }
            }
        }
        signal
    }
}

/// One protocol event: a worker allocates an index, or reports that the
/// task under an in-flight index finished successfully.
pub enum WorkEvent {
    Begin,
    Complete { i: u64 },
}

/// The protocol-level state: the allocation counter and the set of
/// in-flight indices.
pub struct ProtocolState {
    pub next: u64,
    pub inflight: Set<u64>,
}

/// Protocol-level consistency: the in-flight set is finite and every member
/// was allocated before `next`.
pub open spec fn state_wf(s: ProtocolState) -> bool {
    &&& s.inflight.finite()
    &&& forall|j: u64| s.inflight.contains(j) ==> j < s.next
}

/// True when `i` is the minimum member of `s`.
pub open spec fn is_min(s: Set<u64>, i: u64) -> bool {
    &&& s.contains(i)
    &&& forall|j: u64| s.contains(j) ==> i <= j
}

/// Whether the event can occur in state `s`: allocation must not exhaust
/// the counter, and only an in-flight index can complete.
pub open spec fn event_enabled(s: ProtocolState, e: WorkEvent) -> bool {
    match e {
        WorkEvent::Begin => s.next < u64::MAX,
        WorkEvent::Complete { i } => s.inflight.contains(i),
    }
}

/// The state after one event.
pub open spec fn step_state(s: ProtocolState, e: WorkEvent) -> ProtocolState {
    match e {
        WorkEvent::Begin => ProtocolState {
            next: (s.next + 1) as u64,
            inflight: s.inflight.insert(s.next),
        },
        WorkEvent::Complete { i } => ProtocolState { next: s.next, inflight: s.inflight.remove(i) },
    }
}

/// The commit signal one event produces: a completion of the minimum
/// in-flight index advances the watermark to that index.
pub open spec fn step_signal(s: ProtocolState, e: WorkEvent) -> Option<u64> {
    match e {
        WorkEvent::Begin => None,
        WorkEvent::Complete { i } => if is_min(s.inflight, i) {
            Some(i)
        } else {
            None
        },
    }
}

/// True when every event of the trace is enabled in the state it meets.
pub open spec fn valid_trace(s: ProtocolState, events: Seq<WorkEvent>) -> bool
    decreases events.len(),
{
    events.len() == 0 || (event_enabled(s, events[0]) && valid_trace(
        step_state(s, events[0]),
        events.drop_first(),
    ))
}

/// The state after the whole trace.
pub open spec fn run_state(s: ProtocolState, events: Seq<WorkEvent>) -> ProtocolState
    decreases events.len(),
{
    if events.len() == 0 {
        s
    } else {
        run_state(step_state(s, events[0]), events.drop_first())
    }
}

/// The non-`None` commit signals the trace produces, in order.
pub open spec fn trace_signals(s: ProtocolState, events: Seq<WorkEvent>) -> Seq<u64>
    decreases events.len(),
{
    if events.len() == 0 {
        Seq::empty()
    } else {
        let rest = trace_signals(step_state(s, events[0]), events.drop_first());
        match step_signal(s, events[0]) {
            Some(w) => seq![w] + rest,
            None => rest,
        }
    }
}

/// The indices the trace allocates, in order.
pub open spec fn trace_allocations(s: ProtocolState, events: Seq<WorkEvent>) -> Seq<u64>
    decreases events.len(),
{
    if events.len() == 0 {
        Seq::empty()
    } else {
        let rest = trace_allocations(step_state(s, events[0]), events.drop_first());
        match events[0] {
            WorkEvent::Begin => seq![s.next] + rest,
            WorkEvent::Complete { .. } => rest,
        }
    }
}

/// Every commit signal of a trace exceeds a bound that is below the counter
/// and below every in-flight index; and the signals are strictly increasing.
/// This is the inductive core of the monotonic-watermark law.
proof fn lemma_signals_above(s: ProtocolState, events: Seq<WorkEvent>, lb: int)
    requires
        state_wf(s),
        valid_trace(s, events),
        lb < s.next,
        forall|j: u64| s.inflight.contains(j) ==> lb < j,
    ensures
        strictly_increasing(trace_signals(s, events)),
        forall|k: int| 0 <= k < trace_signals(s, events).len() ==> lb < trace_signals(s, events)[k],
    decreases events.len(),
{
    if events.len() > 0 {
        let e = events[0];
        let s2 = step_state(s, e);
        let rest = events.drop_first();
        match e {
            WorkEvent::Begin => {
                assert(state_wf(s2));
                lemma_signals_above(s2, rest, lb);
            },
            WorkEvent::Complete { i } => {
                assert(state_wf(s2));
                if is_min(s.inflight, i) {
                    assert(forall|j: u64| s2.inflight.contains(j) ==> i < j);
                    lemma_signals_above(s2, rest, i as int);
                    let sig = trace_signals(s, events);
                    let sigrest = trace_signals(s2, rest);
                    assert(sig == seq![i] + sigrest);
                    assert forall|a: int, b: int| 0 <= a < b < sig.len() implies sig[a]
                        < sig[b] by {
                        if a == 0 {
                            assert(sig[b] == sigrest[b - 1]);
                        } else {
                            assert(sig[a] == sigrest[a - 1]);
                            assert(sig[b] == sigrest[b - 1]);
                        }
                    }
                } else {
                    lemma_signals_above(s2, rest, lb);
                }
            },
        }
    }
}

/// Monotonic watermark: over any valid interleaving of allocations and
/// completions, the non-`None` commit signals form a strictly increasing
/// sequence.
pub proof fn lemma_watermark_monotonic(s: ProtocolState, events: Seq<WorkEvent>)
    requires
        state_wf(s),
        valid_trace(s, events),
    ensures
        strictly_increasing(trace_signals(s, events)),
{
    lemma_signals_above(s, events, -1);
}

/// Every index a trace allocates is at least the starting counter value.
proof fn lemma_allocations_from(s: ProtocolState, events: Seq<WorkEvent>)
    requires
        valid_trace(s, events),
    ensures
        forall|k: int|
            0 <= k < trace_allocations(s, events).len() ==> s.next <= trace_allocations(
                s,
                events,
            )[k],
    decreases events.len(),
{
    if events.len() > 0 {
        let e = events[0];
        let s2 = step_state(s, e);
        let rest = events.drop_first();
        lemma_allocations_from(s2, rest);
        let al = trace_allocations(s, events);
        let alr = trace_allocations(s2, rest);
        match e {
            WorkEvent::Begin => {
                assert(al == seq![s.next] + alr);
                assert forall|k: int| 0 <= k < al.len() implies s.next <= al[k] by {
                    if k > 0 {
                        assert(al[k] == alr[k - 1]);
                        assert(s2.next <= alr[k - 1]);
                    }
                }
            },
            WorkEvent::Complete { .. } => {
                assert(al == alr);
            },
        }
    }
}

/// Uniqueness: the indices allocated over any valid interleaving are
/// strictly increasing, so no index is ever handed out twice.
pub proof fn lemma_allocation_unique(s: ProtocolState, events: Seq<WorkEvent>)
    requires
        valid_trace(s, events),
    ensures
        strictly_increasing(trace_allocations(s, events)),
    decreases events.len(),
{
    if events.len() > 0 {
        let e = events[0];
        let s2 = step_state(s, e);
        let rest = events.drop_first();
        lemma_allocation_unique(s2, rest);
        lemma_allocations_from(s2, rest);
        match e {
            WorkEvent::Begin => {
                let alloc = trace_allocations(s, events);
                let allocrest = trace_allocations(s2, rest);
                assert(alloc == seq![s.next] + allocrest);
                assert forall|a: int, b: int| 0 <= a < b < alloc.len() implies alloc[a]
                    < alloc[b] by {
                    if a == 0 {
                        assert(alloc[b] == allocrest[b - 1]);
                    } else {
                        assert(alloc[a] == allocrest[a - 1]);
                        assert(alloc[b] == allocrest[b - 1]);
                    }
                }
            },
            WorkEvent::Complete { .. } => {},
        }
    }
}

/// A permanently failing unit of work is a floor on the watermark: while an
/// in-flight index `i` never completes, every commit signal the rest of the
/// run produces stays below `i` — no later, larger index can ever advance
/// the watermark past the stuck one.
pub proof fn lemma_stuck_index_blocks(s: ProtocolState, events: Seq<WorkEvent>, i: u64)
    requires
        state_wf(s),
        valid_trace(s, events),
        s.inflight.contains(i),
        forall|k: int| 0 <= k < events.len() ==> events[k] != (WorkEvent::Complete { i }),
    ensures
        forall|k: int| 0 <= k < trace_signals(s, events).len() ==> trace_signals(s, events)[k] < i,
    decreases events.len(),
{
    if events.len() > 0 {
        let e = events[0];
        let s2 = step_state(s, e);
        let rest = events.drop_first();
        assert(forall|k: int| 0 <= k < rest.len() ==> rest[k] == events[k + 1]);
        let sig = trace_signals(s, events);
        let sigrest = trace_signals(s2, rest);
        match e {
            WorkEvent::Begin => {
                assert(state_wf(s2));
                assert(s2.inflight.contains(i));
                lemma_stuck_index_blocks(s2, rest, i);
                assert(sig == sigrest);
            },
            WorkEvent::Complete { i: j } => {
                assert(state_wf(s2));
                assert(j != i);
                assert(s2.inflight.contains(i));
                lemma_stuck_index_blocks(s2, rest, i);
                if is_min(s.inflight, j) {
                    assert(j <= i);
                    assert(j < i);
                    assert(sig == seq![j] + sigrest);
                    assert forall|k: int| 0 <= k < sig.len() implies sig[k] < i by {
                        if k > 0 {
                            assert(sig[k] == sigrest[k - 1]);
                        }
                    }
                } else {
                    assert(sig == sigrest);
                }
            },
        }
    }
}

} // verus!
