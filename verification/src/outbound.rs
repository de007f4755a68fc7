use barter_integration::protocol::websocket::{is_websocket_disconnected, WsError};
use std::collections::VecDeque;
use tokio::sync::mpsc::UnboundedSender;
use vstd::prelude::*;

verus! {

/// The transport's send error. Nothing inside it is visible to the proofs.
#[verifier::external_type_specification]
#[verifier::external_body]
pub struct ExWsError(WsError);

/// Whether a send error means that the connection is gone, as
/// `barter_integration::protocol::websocket::is_websocket_disconnected` says
/// of it.
pub uninterp spec fn disconnected_of(error: WsError) -> bool;

/// Asks `barter_integration::protocol::websocket::is_websocket_disconnected`
/// whether a send error means that the connection is gone. The answer
/// depends on the error alone; it is named, not described.
#[verifier::external_body]
fn transport_disconnected(error: &WsError) -> (gone: bool)
    ensures
        gone == disconnected_of(*error),
{
    is_websocket_disconnected(error)
}

/// The sending end of the outbound queue. Nothing inside it is visible to the
/// proofs: what it holds changes under other tasks.
#[verifier::external_type_specification]
#[verifier::external_body]
#[verifier::reject_recursive_types(T)]
pub struct ExUnboundedSender<T>(UnboundedSender<T>);

/// Puts a message on the outbound queue with
/// `tokio::sync::mpsc::UnboundedSender::send`, which never waits. Whether the
/// queue takes the message depends on whether its receiving end still exists,
/// so nothing is claimed of that; a message that is refused comes back as it
/// was handed in.
#[verifier::external_body]
pub(crate) fn enqueue<M>(queue: &UnboundedSender<M>, message: M) -> (result: Result<(), M>)
    ensures
        result is Err ==> result->Err_0 == message,
{
    queue.send(message).map_err(|refused| refused.0)
}

/// What became of one message handed to the transport.
#[derive(Clone, Copy, Debug, PartialEq, Eq, Structural)]
pub enum SendOutcome {
    /// The transport took the message.
    Delivered,
    /// The send failed on a connection that is still open: the message is lost.
    Failed,
    /// The send failed because the connection is closed.
    Disconnected,
}

/// What the distributor does after a send.
#[derive(Clone, Copy, Debug, PartialEq, Eq, Structural)]
pub enum DistributorAction {
    /// Wait for the next queued message.
    Continue,
    /// Report the failure, then wait for the next queued message.
    LogAndContinue,
    /// End the task without a report.
    Terminate,
}

pub open spec fn failure_outcome(disconnected: bool) -> SendOutcome {
    if disconnected {
        SendOutcome::Disconnected
    } else {
        SendOutcome::Failed
    }
}

pub open spec fn action_after(outcome: SendOutcome) -> DistributorAction {
    match outcome {
        SendOutcome::Delivered => DistributorAction::Continue,
        SendOutcome::Failed => DistributorAction::LogAndContinue,
        SendOutcome::Disconnected => DistributorAction::Terminate,
    }
}

/// The outcome of a failed send, given whether the failure shows a closed
/// connection.
pub fn classify_failure(disconnected: bool) -> (outcome: SendOutcome)
    ensures
        outcome == failure_outcome(disconnected),
{
    if disconnected {
        SendOutcome::Disconnected
    } else {
        SendOutcome::Failed
    }
}

/// The outcome of one send over the transport. A success is `Delivered`; an
/// error is `Disconnected` where it means that the connection is gone, and
/// `Failed` otherwise.
pub fn classify_send(result: &Result<(), WsError>) -> (outcome: SendOutcome)
    ensures
        result is Ok <==> outcome == SendOutcome::Delivered,
        result is Err ==> outcome == failure_outcome(disconnected_of(result->Err_0)),
{
    match result {
        Ok(_) => SendOutcome::Delivered,
        Err(error) => classify_failure(transport_disconnected(error)),
    }
}

/// The distributor's decision after a send.
pub fn next_action(outcome: SendOutcome) -> (action: DistributorAction)
    ensures
        action == action_after(outcome),
{
    match outcome {
        SendOutcome::Delivered => DistributorAction::Continue,
        SendOutcome::Failed => DistributorAction::LogAndContinue,
        SendOutcome::Disconnected => DistributorAction::Terminate,
    }
}

/// The outcome of the send numbered `k` under a transport script. Sends past
/// the end of the script are delivered.
pub open spec fn outcome_at(script: Seq<SendOutcome>, k: int) -> SendOutcome {
    if 0 <= k < script.len() {
        script[k]
    } else {
        SendOutcome::Delivered
    }
}

/// How many of `queued` messages the distributor takes off the queue when it
/// has already taken `k`: all of them, or up to and including the first after
/// whose send it decides to end.
pub open spec fn attempts_from(script: Seq<SendOutcome>, k: nat, queued: nat) -> nat
    decreases queued - k,
{
    if k >= queued {
        queued
    } else if action_after(outcome_at(script, k as int)) == DistributorAction::Terminate {
        k + 1
    } else {
        attempts_from(script, k + 1, queued)
    }
}

/// How many of `queued` messages the distributor takes off the queue.
pub open spec fn attempts(script: Seq<SendOutcome>, queued: nat) -> nat {
    attempts_from(script, 0, queued)
}

/// Of the first `k` messages, in queue order, those whose send had the outcome
/// `wanted`.
pub open spec fn with_outcome<M>(
    messages: Seq<M>,
    script: Seq<SendOutcome>,
    wanted: SendOutcome,
    k: nat,
) -> Seq<M>
    decreases k,
{
    if k == 0 || k > messages.len() {
        Seq::empty()
    } else {
        let before = with_outcome(messages, script, wanted, (k - 1) as nat);
        if outcome_at(script, k - 1) == wanted {
            before.push(messages[k - 1])
        } else {
            before
        }
    }
}

/// What a run of the distributor did with a queue of messages.
pub struct Distribution<M> {
    /// The messages that reached the transport, in the order sent.
    pub delivered: Vec<M>,
    /// The messages lost to a failed send on an open connection.
    pub dropped: Vec<M>,
    /// The messages still queued when the distributor ended.
    pub unsent: VecDeque<M>,
    /// The number of messages taken off the queue.
    pub attempts: usize,
    /// Whether the distributor ended on a closed connection.
    pub disconnected: bool,
}

/// Runs the distributor over a queue of messages against a transport whose
/// sends end as `script` says: each message is taken off the queue in turn and
/// sent; a failed send on an open connection loses that message and nothing
/// more; a send that finds the connection closed ends the run.
pub fn distribute_messages_to_exchange<M>(
    queue: VecDeque<M>,
    script: &Vec<SendOutcome>,
) -> (run: Distribution<M>)
    ensures
        run.attempts == attempts(script@, queue@.len()),
        run.delivered@ == with_outcome(
            queue@,
            script@,
            SendOutcome::Delivered,
            run.attempts as nat,
        ),
        run.dropped@ == with_outcome(queue@, script@, SendOutcome::Failed, run.attempts as nat),
        run.unsent@ == queue@.subrange(run.attempts as int, queue@.len() as int),
        run.disconnected <==> run.attempts > 0 && outcome_at(script@, run.attempts - 1)
            == SendOutcome::Disconnected,
{
    let ghost all = queue@;
    let mut queue = queue;
    let mut delivered: Vec<M> = Vec::new();
    let mut dropped: Vec<M> = Vec::new();
    let mut taken: usize = 0;
    let mut disconnected = false;
    let queued = queue.len();
    while !disconnected && taken < queued
        invariant
            queued == all.len(),
            taken <= all.len(),
            queue@ == all.subrange(taken as int, all.len() as int),
            delivered@ == with_outcome(all, script@, SendOutcome::Delivered, taken as nat),
            dropped@ == with_outcome(all, script@, SendOutcome::Failed, taken as nat),
            disconnected <==> taken > 0 && outcome_at(script@, taken - 1)
                == SendOutcome::Disconnected,
            !disconnected ==> attempts(script@, all.len()) == attempts_from(
                script@,
                taken as nat,
                all.len(),
            ),
            disconnected ==> attempts(script@, all.len()) == taken,
        decreases all.len() - taken + if disconnected { 0int } else { 1int },
    {
        assert(queue@.len() == all.len() - taken);
        if let Some(message) = queue.pop_front() {
            let outcome = if taken < script.len() {
                script[taken]
            } else {
                SendOutcome::Delivered
            };
            taken = taken + 1;
            match next_action(outcome) {
                DistributorAction::Continue => {
                    delivered.push(message);
                },
                DistributorAction::LogAndContinue => {
                    dropped.push(message);
                },
                DistributorAction::Terminate => {
                    disconnected = true;
                },
            }
        }
    }
    Distribution { delivered, dropped, unsent: queue, attempts: taken, disconnected }
}

/// Over a transport on which every send succeeds, the distributor sends every
/// queued message, in queue order.
pub proof fn lemma_all_sent_in_order<M>(messages: Seq<M>, script: Seq<SendOutcome>)
    requires
        forall|k: int| 0 <= k < messages.len() ==> outcome_at(script, k) == SendOutcome::Delivered,
    ensures
        attempts(script, messages.len()) == messages.len(),
        with_outcome(messages, script, SendOutcome::Delivered, messages.len()) == messages,
        with_outcome(messages, script, SendOutcome::Failed, messages.len()) == Seq::<M>::empty(),
{
    lemma_attempts_without_disconnect(script, 0, messages.len());
    lemma_delivered_prefix(messages, script, messages.len());
    assert(messages.take(messages.len() as int) == messages);
}

/// Once a send has found the connection closed, no later message is taken off
/// the queue.
pub proof fn lemma_nothing_after_disconnect(script: Seq<SendOutcome>, queued: nat, k: nat)
    requires
        k < queued,
        outcome_at(script, k as int) == SendOutcome::Disconnected,
    ensures
        attempts(script, queued) <= k + 1,
        (forall|j: int| 0 <= j < k ==> outcome_at(script, j) != SendOutcome::Disconnected)
            ==> attempts(script, queued) == k + 1,
{
    lemma_attempts_bound(script, 0, queued, k);
}

proof fn lemma_attempts_bound(script: Seq<SendOutcome>, from: nat, queued: nat, k: nat)
    requires
        from <= k < queued,
        outcome_at(script, k as int) == SendOutcome::Disconnected,
    ensures
        attempts_from(script, from, queued) <= k + 1,
        (forall|j: int| from <= j < k ==> outcome_at(script, j) != SendOutcome::Disconnected)
            ==> attempts_from(script, from, queued) == k + 1,
    decreases k - from,
{
    if from < k && outcome_at(script, from as int) != SendOutcome::Disconnected {
        lemma_attempts_bound(script, from + 1, queued, k);
    }
}

proof fn lemma_attempts_without_disconnect(script: Seq<SendOutcome>, from: nat, queued: nat)
    requires
        forall|k: int| from <= k < queued ==> outcome_at(script, k) != SendOutcome::Disconnected,
    ensures
        attempts_from(script, from, queued) == queued,
    decreases queued - from,
{
    if from < queued {
        lemma_attempts_without_disconnect(script, from + 1, queued);
    }
}

proof fn lemma_delivered_prefix<M>(messages: Seq<M>, script: Seq<SendOutcome>, k: nat)
    requires
        k <= messages.len(),
        forall|j: int| 0 <= j < k ==> outcome_at(script, j) == SendOutcome::Delivered,
    ensures
        with_outcome(messages, script, SendOutcome::Delivered, k) == messages.take(k as int),
        with_outcome(messages, script, SendOutcome::Failed, k) == Seq::<M>::empty(),
    decreases k,
{
    if k > 0 {
        lemma_delivered_prefix(messages, script, (k - 1) as nat);
        assert(messages.take(k as int) == messages.take(k - 1).push(messages[k - 1]));
    } else {
        assert(messages.take(0) == Seq::<M>::empty());
    }
}

} // verus!
