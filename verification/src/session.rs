//! The output pump of a session: bytes from the transport are coalesced
//! into batches before they reach the taps and the UI. Without coalescing a
//! fast producer makes thousands of tiny UI messages per second; with an
//! upper bound on a batch, a flood still yields to the event loop.
//!
//! The pump is a state machine: the caller waits as told (for the first
//! chunk or a flush tick, or for more output within the coalescing window),
//! reports what happened, and performs the action it gets back.

use vstd::prelude::*;

verus! {

/// A batch is handed on once it reaches this size.
pub const MAX_BATCH: usize = 262144;
/// How long the pump waits for more output before handing a batch on.
pub const COALESCE_WINDOW_MS: u64 = 8;
/// How often buffered taps are flushed while a session is idle.
pub const FLUSH_TICK_MS: u64 = 400;

/// What the caller observed.
pub enum PumpEvent {
    /// The transport produced bytes.
    Chunk(Vec<u8>),
    /// The coalescing window passed without more output.
    WindowElapsed,
    /// The flush timer fired while waiting for output.
    Tick,
    /// The transport closed.
    Closed,
}

/// What the caller does next.
pub enum PumpAction {
    /// Wait for output or the flush timer.
    AwaitFirst,
    /// Wait for more output, at most the coalescing window.
    AwaitMore,
    /// Flush the taps, then wait for output or the flush timer.
    FlushTaps,
    /// Hand the batch to the taps and the UI, then wait for output or the
    /// flush timer.
    Deliver(Vec<u8>),
    /// Hand the batch on, flush the taps, and stop.
    DeliverAndStop(Vec<u8>),
    /// Flush the taps and stop.
    Stop,
}

/// The bytes an event brings in.
pub open spec fn arrived(e: PumpEvent) -> Seq<u8> {
    match e {
        PumpEvent::Chunk(c) => c@,
        _ => Seq::empty(),
    }
}

/// The bytes an action hands on.
pub open spec fn handed_on(a: PumpAction) -> Seq<u8> {
    match a {
        PumpAction::Deliver(b) => b@,
        PumpAction::DeliverAndStop(b) => b@,
        _ => Seq::empty(),
    }
}

pub struct Pump {
    batch: Vec<u8>,
    collecting: bool,
}

pub struct PumpView {
    /// Bytes received but not yet handed on.
    pub pending: Seq<u8>,
    /// Whether a batch is open and the coalescing window applies. A batch
    /// opens with the first chunk, even an empty one.
    pub collecting: bool,
}

impl View for Pump {
    type V = PumpView;

    closed spec fn view(&self) -> PumpView {
        PumpView { pending: self.batch@, collecting: self.collecting }
    }
}

impl Pump {
    #[verifier::type_invariant]
    closed spec fn shape(self) -> bool {
        &&& self.collecting ==> self.batch@.len() < MAX_BATCH
        &&& !self.collecting ==> self.batch@.len() == 0
    }

    /// A pump that has seen nothing yet.
    pub fn new() -> (r: Pump)
        ensures
            r@.pending.len() == 0,
            !r@.collecting,
    {
        Pump { batch: Vec::new(), collecting: false }
    }

    /// The first action: wait for output.
    pub fn start(&self) -> (r: PumpAction)
        ensures
            r is AwaitFirst,
    {
        PumpAction::AwaitFirst
    }

    /// Advances on what the caller observed. Every byte received is handed
    /// on exactly once, in order: what this step hands on followed by what
    /// stays pending is what was pending followed by what arrived.
    pub fn step(&mut self, event: PumpEvent) -> (r: PumpAction)
        requires
            old(self)@.pending.len() + arrived(event).len() <= usize::MAX,
        ensures
            handed_on(r) + final(self)@.pending == old(self)@.pending + arrived(event),
            final(self)@.collecting ==> final(self)@.pending.len() < MAX_BATCH,
            !final(self)@.collecting ==> final(self)@.pending.len() == 0,
            r is AwaitMore <==> final(self)@.collecting,
            match event {
                PumpEvent::Chunk(c) => if old(self)@.pending.len() + c@.len() >= MAX_BATCH {
                    r is Deliver
                } else {
                    r is AwaitMore
                },
                PumpEvent::WindowElapsed => if old(self)@.collecting {
                    r is Deliver
                } else {
                    r is AwaitFirst
                },
                PumpEvent::Tick => if old(self)@.collecting {
                    r is AwaitMore
                } else {
                    r is FlushTaps
                },
                PumpEvent::Closed => if old(self)@.collecting {
                    r is DeliverAndStop
                } else {
                    r is Stop
                },
            },
    {
        let mut cur = Pump::new();
        std::mem::swap(self, &mut cur);
        proof {
            use_type_invariant(&cur);
        }
        let ghost before = cur.batch@;
        let Pump { batch: mut batch, collecting } = cur;
        match event {
            PumpEvent::Chunk(c) => {
                crate::text::append_bytes(&mut batch, c.as_slice());
                if batch.len() >= MAX_BATCH {
                    assert(batch@ + self.batch@ =~= batch@);
                    PumpAction::Deliver(batch)
                } else {
                    *self = Pump { batch, collecting: true };
                    assert(Seq::<u8>::empty() + self.batch@ =~= self.batch@);
                    PumpAction::AwaitMore
                }
            },
            PumpEvent::WindowElapsed => {
                if collecting {
                    assert(batch@ + self.batch@ =~= before + Seq::<u8>::empty());
                    PumpAction::Deliver(batch)
                } else {
                    assert(Seq::<u8>::empty() + self.batch@ =~= before + Seq::<u8>::empty());
                    PumpAction::AwaitFirst
                }
            },
            PumpEvent::Tick => {
                if collecting {
                    *self = Pump { batch, collecting: true };
                    assert(Seq::<u8>::empty() + self.batch@ =~= before + Seq::<u8>::empty());
                    PumpAction::AwaitMore
                } else {
                    assert(Seq::<u8>::empty() + self.batch@ =~= before + Seq::<u8>::empty());
                    PumpAction::FlushTaps
                }
            },
            PumpEvent::Closed => {
                if collecting {
                    assert(batch@ + self.batch@ =~= before + Seq::<u8>::empty());
                    PumpAction::DeliverAndStop(batch)
                } else {
                    assert(Seq::<u8>::empty() + self.batch@ =~= before + Seq::<u8>::empty());
                    PumpAction::Stop
                }
            },
        }
    }
}

/// The bytes of a run of events, end to end.
pub open spec fn all_arrived(es: Seq<PumpEvent>) -> Seq<u8>
    decreases es.len(),
{
    if es.len() == 0 {
        Seq::empty()
    } else {
        all_arrived(es.drop_last()) + arrived(es.last())
    }
}

/// The bytes a run of actions hands on, end to end.
pub open spec fn all_handed_on(acts: Seq<PumpAction>) -> Seq<u8>
    decreases acts.len(),
{
    if acts.len() == 0 {
        Seq::empty()
    } else {
        all_handed_on(acts.drop_last()) + handed_on(acts.last())
    }
}

/// Over any run of steps, nothing is lost, duplicated or reordered: what
/// was handed on, followed by what is still pending, is exactly the output
/// received. `pending[k]` is what was pending before step `k`.
pub proof fn output_is_conserved(pending: Seq<Seq<u8>>, events: Seq<PumpEvent>, actions: Seq<PumpAction>)
    requires
        pending.len() == events.len() + 1,
        actions.len() == events.len(),
        pending[0].len() == 0,
        forall|k: int|
            0 <= k < events.len() ==> handed_on(#[trigger] actions[k]) + pending[k + 1] == pending[k] + arrived(
                events[k],
            ),
    ensures
        all_handed_on(actions) + pending.last() == all_arrived(events),
    decreases events.len(),
{
    if events.len() == 0 {
        assert(pending.last() == pending[0]);
        assert(pending[0] =~= Seq::<u8>::empty());
    } else {
        let n = events.len() - 1;
        let ps = pending.drop_last();
        let es = events.drop_last();
        let acts = actions.drop_last();
        assert forall|k: int| 0 <= k < es.len() implies handed_on(#[trigger] acts[k]) + ps[k + 1] == ps[k] + arrived(
            es[k],
        ) by {
            assert(acts[k] == actions[k] && es[k] == events[k] && ps[k] == pending[k] && ps[k + 1] == pending[k + 1]);
        }
        output_is_conserved(ps, es, acts);
        let h = all_handed_on(acts);
        assert(handed_on(actions[n]) + pending[n + 1] == pending[n] + arrived(events[n]));
        assert(all_handed_on(actions) == h + handed_on(actions[n]));
        assert(all_arrived(events) == all_arrived(es) + arrived(events[n]));
        assert(ps.last() == pending[n]);
        assert(h + pending[n] == all_arrived(es));
        assert((h + handed_on(actions[n])) + pending[n + 1] =~= h + (handed_on(actions[n]) + pending[n + 1]));
        assert(h + (pending[n] + arrived(events[n])) =~= (h + pending[n]) + arrived(events[n]));
    }
}

} // verus!
