//! The buffering loop's flush policy, as a pure step function.
//!
//! On each tick the loop drains newly arrived events into the batch and
//! evaluates two independent triggers: the elapsed-time threshold and the
//! batch-length threshold. When a trigger fires and no flush is in progress,
//! the whole batch is handed off for flushing and the clock is reset; when a
//! flush is still in progress, the opportunity is skipped entirely and the
//! batch keeps growing. An empty batch is never dispatched, though a trigger
//! firing on it still resets the clock.
//!
//! The caller owns the socket, the channel, the clock and the flush guard;
//! it hands their observations in as plain values and performs the returned
//! dispatch.

use crate::message::Message;
use vstd::prelude::*;

verus! {

/// What one tick decided: the batch to flush, if any, and whether the
/// elapsed-time clock starts over.
pub struct TickOutcome {
    pub dispatch: Option<Vec<Message>>,
    pub reset_clock: bool,
}

/// True when a flush trigger fires: the elapsed-time threshold was passed,
/// or the batch has grown past `count_threshold` events.
pub open spec fn tick_triggered(batch_len: nat, count_threshold: nat, time_elapsed: bool) -> bool {
    time_elapsed || batch_len > count_threshold
}

/// One tick of the buffering loop over mathematical state: from the batch,
/// the drained arrivals and the two observations (trigger clock, flush
/// guard) to the new batch, the dispatched batch if any, and whether the
/// clock resets.
pub open spec fn spec_tick(
    batch: Seq<Message>,
    arrived: Seq<Message>,
    count_threshold: nat,
    time_elapsed: bool,
    flush_busy: bool,
) -> (Seq<Message>, Option<Seq<Message>>, bool) {
    let grown = batch + arrived;
    if tick_triggered(grown.len(), count_threshold, time_elapsed) && !flush_busy {
        if grown.len() > 0 {
            (Seq::empty(), Some(grown), true)
        } else {
            (grown, None, true)
        }
    } else {
        (grown, None, false)
    }
}

/// One tick of the buffering loop: drain `arrived` into the batch, then
/// dispatch the whole batch exactly when a trigger fires, no flush is in
/// progress and the batch is non-empty.
pub fn buffer_tick(
    batch: &mut Vec<Message>,
    arrived: Vec<Message>,
    count_threshold: usize,
    time_elapsed: bool,
    flush_busy: bool,
) -> (r: TickOutcome)
    ensures
        ({
            let step = spec_tick(
                old(batch)@,
                arrived@,
                count_threshold as nat,
                time_elapsed,
                flush_busy,
            );
            &&& final(batch)@ == step.0
            &&& (match (r.dispatch, step.1) {
                (Some(d), Some(s)) => d@ == s,
                (None, None) => true,
                _ => false,
            })
            &&& r.reset_clock == step.2
        }),
        r.dispatch is Some ==> r.dispatch->0@.len() > 0,
{
    let mut arrived = arrived;
    batch.append(&mut arrived);
    let fire = time_elapsed || batch.len() > count_threshold;
    if fire && !flush_busy {
        if batch.len() > 0 {
            let mut dispatched: Vec<Message> = Vec::new();
            core::mem::swap(batch, &mut dispatched);
            TickOutcome { dispatch: Some(dispatched), reset_clock: true }
        } else {
            TickOutcome { dispatch: None, reset_clock: true }
        }
    } else {
        TickOutcome { dispatch: None, reset_clock: false }
    }
}

/// Law: a batch of size 0 is never dispatched, whatever the trigger
/// conditions and the guard say.
pub proof fn lemma_empty_batch_never_dispatched(
    batch: Seq<Message>,
    arrived: Seq<Message>,
    count_threshold: nat,
    time_elapsed: bool,
    flush_busy: bool,
)
    requires
        batch.len() + arrived.len() == 0,
    ensures
        spec_tick(batch, arrived, count_threshold, time_elapsed, flush_busy).1 is None,
{
}

/// Law: when a trigger fires while a flush is in progress, the batch is
/// neither dispatched, cleared nor split — it keeps the arrivals — and the
/// clock is not reset; a later tick that finds the guard clear while a
/// trigger fires dispatches the full accumulated batch.
pub proof fn lemma_busy_guard_defers_flush(
    batch: Seq<Message>,
    arrived1: Seq<Message>,
    arrived2: Seq<Message>,
    count_threshold: nat,
    time_elapsed1: bool,
    time_elapsed2: bool,
)
    requires
        tick_triggered((batch + arrived1).len(), count_threshold, time_elapsed1),
        tick_triggered((batch + arrived1 + arrived2).len(), count_threshold, time_elapsed2),
        (batch + arrived1 + arrived2).len() > 0,
    ensures
        ({
            let skipped = spec_tick(batch, arrived1, count_threshold, time_elapsed1, true);
            &&& skipped.0 == batch + arrived1
            &&& skipped.1 is None
            &&& skipped.2 == false
        }),
        ({
            let skipped = spec_tick(batch, arrived1, count_threshold, time_elapsed1, true);
            let flushed = spec_tick(skipped.0, arrived2, count_threshold, time_elapsed2, false);
            &&& flushed.0 == Seq::<Message>::empty()
            &&& flushed.1 == Some(batch + arrived1 + arrived2)
            &&& flushed.2 == true
        }),
{
}

} // verus!
