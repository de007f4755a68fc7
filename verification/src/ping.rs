use crate::outbound::enqueue;
use tokio::sync::mpsc::UnboundedSender;
use vstd::prelude::*;

verus! {

/// What the ping scheduler does after a tick.
#[derive(Clone, Copy, Debug, PartialEq, Eq, Structural)]
pub enum PingDecision {
    /// Wait for the next tick.
    Continue,
    /// End the task: nothing receives from the queue any more.
    Stop,
}

/// The custom ping policy of an exchange: the time between two pings, and the
/// function that makes the payload of each.
pub struct PingInterval<F> {
    pub interval_millis: u64,
    pub ping: F,
}

/// What a run of the scheduler did.
#[derive(Debug, PartialEq, Eq)]
pub struct PingRun<M> {
    /// The payloads that the queue took, in the order of their ticks.
    pub enqueued: Vec<M>,
    /// The payload that the queue refused, which ended the run.
    pub refused: Option<M>,
}

pub open spec fn decision_after(accepted: bool) -> PingDecision {
    if accepted {
        PingDecision::Continue
    } else {
        PingDecision::Stop
    }
}

/// Whether the queue takes the payload offered at tick `k`, where `accepts`
/// says so for each tick. Ticks past the end of `accepts` are taken.
pub open spec fn accepted_at(accepts: Seq<bool>, k: int) -> bool {
    if 0 <= k < accepts.len() {
        accepts[k]
    } else {
        true
    }
}

/// The number of payloads that the queue takes in `ticks` ticks, counted from
/// tick `k`: at each tick one payload is offered, and the scheduler goes on or
/// stops as it decides after the queue's answer.
pub open spec fn enqueued_from(accepts: Seq<bool>, k: nat, ticks: nat) -> nat
    decreases ticks - k,
{
    if k >= ticks {
        ticks
    } else if decision_after(accepted_at(accepts, k as int)) == PingDecision::Stop {
        k
    } else {
        enqueued_from(accepts, k + 1, ticks)
    }
}

/// The number of payloads that the queue takes in `ticks` ticks.
pub open spec fn enqueued(accepts: Seq<bool>, ticks: nat) -> nat {
    enqueued_from(accepts, 0, ticks)
}

/// The scheduler's decision once the queue has answered.
pub fn after_enqueue(accepted: bool) -> (decision: PingDecision)
    ensures
        decision == decision_after(accepted),
{
    if accepted {
        PingDecision::Continue
    } else {
        PingDecision::Stop
    }
}

/// One tick of the scheduler: makes the payload by a call of `ping`, now, and
/// offers it to the queue. Whether the queue takes it is the channel's to say;
/// the payload that comes back refused is the one that `ping` made.
pub fn ping_on_tick<M, F: Fn() -> M>(queue: &UnboundedSender<M>, ping: &F) -> (refused: Option<M>)
    requires
        ping.requires(()),
    ensures
        refused is Some ==> ping.ensures((), refused->0),
{
    let payload = ping();
    refused_payload(enqueue(queue, payload))
}

/// What a tick hands back for each answer of the queue: nothing where the
/// queue took the payload, and the payload itself where the queue refused it.
pub fn refused_payload<M>(answer: Result<(), M>) -> (refused: Option<M>)
    ensures
        refused == match answer {
            Ok(_) => None::<M>,
            Err(payload) => Some(payload),
        },
{
    match answer {
        Ok(_) => None,
        Err(payload) => Some(payload),
    }
}

/// Runs the scheduler for `ticks` ticks against a queue that answers as
/// `accepts` says, without waiting between the ticks. At each tick one
/// payload is made by a call of the policy's generator and offered to the
/// queue; the first refusal ends the run. Every payload that the queue took,
/// and the one that it refused, is what the generator made.
pub fn schedule_pings_to_exchange<M, F: Fn() -> M>(
    policy: &PingInterval<F>,
    accepts: &Vec<bool>,
    ticks: usize,
) -> (run: PingRun<M>)
    requires
        policy.ping.requires(()),
    ensures
        run.enqueued@.len() == enqueued(accepts@, ticks as nat),
        forall|i: int|
            0 <= i < run.enqueued@.len() ==> policy.ping.ensures((), #[trigger] run.enqueued@[i]),
        run.refused is Some <==> run.enqueued@.len() < ticks,
        run.refused is Some ==> policy.ping.ensures((), run.refused->0),
{
    let mut taken: Vec<M> = Vec::new();
    let mut refused: Option<M> = None;
    while refused.is_none() && taken.len() < ticks
        invariant
            policy.ping.requires(()),
            taken@.len() <= ticks,
            forall|i: int| 0 <= i < taken@.len() ==> policy.ping.ensures((), #[trigger] taken@[i]),
            refused is Some ==> policy.ping.ensures((), refused->0),
            refused is Some ==> taken@.len() < ticks && enqueued(accepts@, ticks as nat)
                == taken@.len(),
            refused is None ==> enqueued(accepts@, ticks as nat) == enqueued_from(
                accepts@,
                taken@.len(),
                ticks as nat,
            ),
        decreases ticks - taken.len() + if refused is Some { 0int } else { 1int },
    {
        let payload = (policy.ping)();
        let accepted = if taken.len() < accepts.len() {
            accepts[taken.len()]
        } else {
            true
        };
        match after_enqueue(accepted) {
            PingDecision::Continue => {
                taken.push(payload);
            },
            PingDecision::Stop => {
                refused = Some(payload);
            },
        }
    }
    PingRun { enqueued: taken, refused }
}

/// While the queue takes every payload, each tick enqueues one: after `ticks`
/// ticks exactly `ticks` payloads are enqueued.
pub proof fn lemma_one_ping_per_tick(accepts: Seq<bool>, ticks: nat)
    requires
        forall|k: int| 0 <= k < ticks ==> accepted_at(accepts, k),
    ensures
        enqueued(accepts, ticks) == ticks,
{
    lemma_enqueued_all(accepts, 0, ticks);
}

/// Once the queue has refused a payload, nothing more is enqueued.
pub proof fn lemma_no_ping_after_refusal(accepts: Seq<bool>, ticks: nat, k: nat)
    requires
        k < ticks,
        !accepted_at(accepts, k as int),
    ensures
        enqueued(accepts, ticks) <= k,
        (forall|j: int| 0 <= j < k ==> accepted_at(accepts, j)) ==> enqueued(accepts, ticks) == k,
{
    lemma_enqueued_bound(accepts, 0, ticks, k);
}

proof fn lemma_enqueued_all(accepts: Seq<bool>, from: nat, ticks: nat)
    requires
        forall|k: int| from <= k < ticks ==> accepted_at(accepts, k),
    ensures
        enqueued_from(accepts, from, ticks) == ticks,
    decreases ticks - from,
{
    if from < ticks {
        lemma_enqueued_all(accepts, from + 1, ticks);
    }
}

proof fn lemma_enqueued_bound(accepts: Seq<bool>, from: nat, ticks: nat, k: nat)
    requires
        from <= k < ticks,
        !accepted_at(accepts, k as int),
    ensures
        enqueued_from(accepts, from, ticks) <= k,
        (forall|j: int| from <= j < k ==> accepted_at(accepts, j)) ==> enqueued_from(
            accepts,
            from,
            ticks,
        ) == k,
    decreases k - from,
{
    if from < k && accepted_at(accepts, from as int) {
        lemma_enqueued_bound(accepts, from + 1, ticks, k);
    }
}

} // verus!
