use crate::error::{DataError, RejectionReason};
use crate::subscription::{ResolutionMap, SubscriptionId};
use vstd::prelude::*;

verus! {

/// What a validator makes of one response of the exchange.
#[derive(Clone, Copy, Debug, PartialEq, Eq, Structural)]
pub enum Validation {
    /// The exchange acknowledged the request.
    Confirmed,
    /// The exchange sends no acknowledgement: the request counts as accepted.
    Optimistic,
    /// The exchange turned the request down.
    Rejected(RejectionReason),
}

/// Where a handshake stands.
#[derive(Clone, Copy, Debug, PartialEq, Eq, Structural)]
pub enum Handshake {
    /// `remaining` requests are still to be answered.
    Awaiting { remaining: usize },
    /// Every request was accepted.
    Complete,
    /// A request was turned down: the handshake as a whole has failed.
    Failed(RejectionReason),
}

/// What the caller of the handshake has to do next.
#[derive(Clone, Copy, Debug, PartialEq, Eq, Structural)]
pub enum HandshakeAction {
    /// Wait for the next response and have it validated.
    AwaitResponse,
    /// Build the resolution map: the subscriptions stand.
    Resolve,
    /// Close the transport and report the rejection.
    CloseAndFail(RejectionReason),
}

/// The state of a handshake that has sent `requests` requests.
pub open spec fn begun(requests: usize) -> Handshake {
    if requests == 0 {
        Handshake::Complete
    } else {
        Handshake::Awaiting { remaining: requests }
    }
}

/// The state after one validated response. A rejection fails the handshake;
/// a state that is complete or failed stays as it is.
pub open spec fn after_response(state: Handshake, verdict: Validation) -> Handshake {
    match state {
        Handshake::Awaiting { remaining } => match verdict {
            Validation::Rejected(reason) => Handshake::Failed(reason),
            _ => if remaining <= 1 {
                Handshake::Complete
            } else {
                Handshake::Awaiting { remaining: (remaining - 1) as usize }
            },
        },
        _ => state,
    }
}

/// The state after a list of validated responses, first to last.
pub open spec fn after_responses(state: Handshake, verdicts: Seq<Validation>) -> Handshake
    decreases verdicts.len(),
{
    if verdicts.len() == 0 {
        state
    } else {
        after_response(after_responses(state, verdicts.drop_last()), verdicts.last())
    }
}

pub open spec fn action_for(state: Handshake) -> HandshakeAction {
    match state {
        Handshake::Awaiting { .. } => HandshakeAction::AwaitResponse,
        Handshake::Complete => HandshakeAction::Resolve,
        Handshake::Failed(reason) => HandshakeAction::CloseAndFail(reason),
    }
}

impl Handshake {
    /// The handshake after `requests` subscribe requests were sent.
    pub fn begin(requests: usize) -> (state: Handshake)
        ensures
            state == begun(requests),
    {
        if requests == 0 {
            Handshake::Complete
        } else {
            Handshake::Awaiting { remaining: requests }
        }
    }

    /// Takes the validator's verdict on the next response.
    pub fn on_response(&mut self, verdict: Validation) -> (action: HandshakeAction)
        ensures
            *final(self) == after_response(*old(self), verdict),
            action == action_for(*final(self)),
    {
        if let Handshake::Awaiting { remaining } = *self {
            match verdict {
                Validation::Rejected(reason) => {
                    *self = Handshake::Failed(reason);
                },
                _ => {
                    if remaining <= 1 {
                        *self = Handshake::Complete;
                    } else {
                        *self = Handshake::Awaiting { remaining: remaining - 1 };
                    }
                },
            }
        }
        self.action()
    }

    /// What the caller has to do in this state.
    pub fn action(&self) -> (action: HandshakeAction)
        ensures
            action == action_for(*self),
    {
        match self {
            Handshake::Awaiting { .. } => HandshakeAction::AwaitResponse,
            Handshake::Complete => HandshakeAction::Resolve,
            Handshake::Failed(reason) => HandshakeAction::CloseAndFail(*reason),
        }
    }

    /// The result of the handshake: the resolution map of the subscribed
    /// names where every request was accepted, the rejection where one was
    /// turned down, and a connection error where responses are still missing.
    pub fn conclude(&self, ids: &Vec<SubscriptionId>) -> (result: Result<ResolutionMap, DataError>)
        ensures
            result is Ok <==> *self == Handshake::Complete,
            result is Ok ==> resolves(result->Ok_0, ids@),
            *self matches Handshake::Failed(reason) ==> result == Err::<ResolutionMap, DataError>(
                DataError::Subscription(reason),
            ),
            self is Awaiting ==> result == Err::<ResolutionMap, DataError>(DataError::Connection),
    {
        match self {
            Handshake::Complete => Ok(ResolutionMap::build(ids)),
            Handshake::Failed(reason) => Err(DataError::Subscription(*reason)),
            Handshake::Awaiting { .. } => Err(DataError::Connection),
        }
    }
}

/// The map resolves exactly the names in `ids`, each to the first position at
/// which it stands there.
pub open spec fn resolves(map: ResolutionMap, ids: Seq<SubscriptionId>) -> bool {
    &&& map.wf()
    &&& map.subscribed_of() == ids.len()
    &&& crate::subscription::unique_keys(map.entries_of())
    &&& forall|key: (Seq<char>, Seq<char>)|
        map@.dom().contains(key) <==> crate::subscription::has_key(map.entries_of(), key)
    &&& forall|key: (Seq<char>, Seq<char>)|
        map@.dom().contains(key) <==> crate::subscription::names(ids, key)
    &&& forall|key: (Seq<char>, Seq<char>)| #[trigger]
        map@.dom().contains(key) ==> crate::subscription::first_named(ids, key, map@[key] as int)
}

pub open spec fn rejected(verdict: Validation) -> bool {
    verdict is Rejected
}

/// The handshake is all or nothing. It is complete exactly when each of the
/// requests has its response and none of these is a rejection; one rejection
/// among them fails it, whatever the other responses are.
pub proof fn lemma_all_or_nothing(requests: usize, verdicts: Seq<Validation>)
    ensures
        after_responses(begun(requests), verdicts) == Handshake::Complete <==> verdicts.len()
            >= requests && forall|i: int| 0 <= i < requests ==> !rejected(#[trigger] verdicts[i]),
        (exists|i: int| 0 <= i < requests && i < verdicts.len() && rejected(#[trigger] verdicts[i]))
            ==> after_responses(begun(requests), verdicts) is Failed,
{
    lemma_progress(requests, verdicts);
}

proof fn lemma_progress(requests: usize, verdicts: Seq<Validation>)
    ensures
        ({
            let state = after_responses(begun(requests), verdicts);
            let clean = forall|i: int|
                0 <= i < requests && i < verdicts.len() ==> !rejected(#[trigger] verdicts[i]);
            &&& clean && verdicts.len() >= requests ==> state == Handshake::Complete
            &&& clean && verdicts.len() < requests ==> state == (Handshake::Awaiting {
                remaining: (requests - verdicts.len()) as usize,
            })
            &&& !clean ==> state is Failed
        }),
    decreases verdicts.len(),
{
    if verdicts.len() > 0 {
        let earlier = verdicts.drop_last();
        lemma_progress(requests, earlier);
        let clean_before = forall|i: int|
            0 <= i < requests && i < earlier.len() ==> !rejected(#[trigger] earlier[i]);
        let clean = forall|i: int|
            0 <= i < requests && i < verdicts.len() ==> !rejected(#[trigger] verdicts[i]);
        assert forall|i: int| 0 <= i < earlier.len() implies earlier[i] == verdicts[i] by {}
        if clean {
            assert forall|i: int| 0 <= i < requests && i < earlier.len() implies !rejected(
                #[trigger] earlier[i],
            ) by {
                assert(earlier[i] == verdicts[i]);
            }
            if earlier.len() < requests {
                assert(!rejected(verdicts[earlier.len() as int]));
            }
        } else {
            if clean_before {
                let i = choose|i: int|
                    0 <= i < requests && i < verdicts.len() && rejected(#[trigger] verdicts[i]);
                if i < earlier.len() {
                    assert(earlier[i] == verdicts[i]);
                }
                assert(i == earlier.len());
            }
        }
    }
}

} // verus!
