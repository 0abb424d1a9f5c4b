//! The protocol of a subscriber connection: read the one subscription
//! request, announce it to the broker, then relay what the broker sends
//! until told to stop.

use vstd::prelude::*;

verus! {

/// How long one wait for the next message may last, in milliseconds.
pub const RECEIVE_MESSAGE_TIMEOUT_MS: u64 = 300;

/// Where a subscriber handler stands: what it last asked for.
#[derive(Clone, Copy, Debug, PartialEq, Eq, Structural)]
pub enum SubscriberPhase {
    Starting,
    ReadingRequest,
    Announcing,
    Receiving,
    Writing,
    Stopped,
}

/// What happened to what the handler last asked for.
#[derive(Clone, Copy, Debug, PartialEq, Eq, Structural)]
pub enum SubscriberInput {
    /// The handler's thread has started.
    Start,
    /// The subscription request was decoded from the socket, or not.
    RequestRead(bool),
    /// The request reached the broker's channel, or not.
    Announced(bool),
    /// A message came out of the queue, or the wait ended without one.
    Received(bool),
    /// The message was written to the socket, or not.
    Written(bool),
}

/// What the handler asks for next.
#[derive(Clone, Copy, Debug, PartialEq, Eq, Structural)]
pub enum SubscriberAction {
    /// Decode the subscription request from the socket, with no limit of
    /// time, then report `RequestRead`.
    ReadRequest,
    /// Send the request to the broker under this identity, then report
    /// `Announced`.
    Announce { id: u128 },
    /// Wait for the next message of the queue, then report `Received`.
    Receive { timeout_ms: u64 },
    /// Encode the message just received and write it to the socket, then
    /// report `Written`.
    WriteMessage,
    /// Leave the loop: the connection is closed.
    Stop,
}

/// The head of the delivery loop: stop if asked to, else wait for the next
/// message.
pub open spec fn spec_subscriber_loop(terminate: bool) -> (SubscriberPhase, SubscriberAction) {
    if terminate {
        (SubscriberPhase::Stopped, SubscriberAction::Stop)
    } else {
        (
            SubscriberPhase::Receiving,
            SubscriberAction::Receive { timeout_ms: RECEIVE_MESSAGE_TIMEOUT_MS },
        )
    }
}

/// The handler's next phase and what it asks for, given what happened and
/// whether its owner has asked it to stop. A request that cannot be read or
/// announced and a message that cannot be written end the handler; a wait
/// that brings no message does not.
pub open spec fn spec_subscriber_step(
    id: u128,
    phase: SubscriberPhase,
    input: SubscriberInput,
    terminate: bool,
) -> (SubscriberPhase, SubscriberAction) {
    match (phase, input) {
        (SubscriberPhase::Starting, SubscriberInput::Start) => (
            SubscriberPhase::ReadingRequest,
            SubscriberAction::ReadRequest,
        ),
        (SubscriberPhase::ReadingRequest, SubscriberInput::RequestRead(true)) => (
            SubscriberPhase::Announcing,
            SubscriberAction::Announce { id },
        ),
        (SubscriberPhase::Announcing, SubscriberInput::Announced(true)) => spec_subscriber_loop(
            terminate,
        ),
        (SubscriberPhase::Receiving, SubscriberInput::Received(true)) => (
            SubscriberPhase::Writing,
            SubscriberAction::WriteMessage,
        ),
        (SubscriberPhase::Receiving, SubscriberInput::Received(false)) => spec_subscriber_loop(
            terminate,
        ),
        (SubscriberPhase::Writing, SubscriberInput::Written(true)) => spec_subscriber_loop(
            terminate,
        ),
        _ => (SubscriberPhase::Stopped, SubscriberAction::Stop),
    }
}

/// How many steps a handler that is asked to stop can still take.
pub open spec fn spec_subscriber_steps_left(phase: SubscriberPhase) -> nat {
    match phase {
        SubscriberPhase::Stopped => 0,
        SubscriberPhase::Writing => 1,
        SubscriberPhase::Receiving => 2,
        SubscriberPhase::Announcing => 1,
        SubscriberPhase::ReadingRequest => 2,
        SubscriberPhase::Starting => 3,
    }
}

/// Once its owner asks it to stop, a handler stops after a bounded number
/// of steps, whatever happens on the socket and in the queue: each step
/// brings it closer. A stopped handler stays stopped, and exactly one
/// request is read: none after the first.
pub proof fn lemma_subscriber_stops(
    id: u128,
    phase: SubscriberPhase,
    input: SubscriberInput,
    terminate: bool,
)
    ensures
        phase is Stopped ==> spec_subscriber_step(id, phase, input, terminate) == (
            SubscriberPhase::Stopped,
            SubscriberAction::Stop,
        ),
        terminate && !(phase is Stopped) ==> spec_subscriber_steps_left(
            spec_subscriber_step(id, phase, input, terminate).0,
        ) < spec_subscriber_steps_left(phase),
        spec_subscriber_step(id, phase, input, terminate).1 is Stop <==> spec_subscriber_step(
            id,
            phase,
            input,
            terminate,
        ).0 is Stopped,
        spec_subscriber_step(id, phase, input, terminate).1 is ReadRequest ==> phase is Starting,
{
}

/// The state of one subscriber connection.
#[derive(Clone, Copy, Debug, PartialEq, Eq, Structural)]
pub struct SubscriberHandler {
    id: u128,
    phase: SubscriberPhase,
}

impl SubscriberHandler {
    /// The identity the broker gave the subscriber.
    pub closed spec fn spec_id(&self) -> u128 {
        self.id
    }

    /// Where the handler stands.
    pub closed spec fn spec_phase(&self) -> SubscriberPhase {
        self.phase
    }

    /// A handler for the subscriber `id` that has not started.
    pub fn new(id: u128) -> (handler: Self)
        ensures
            handler.spec_id() == id,
            handler.spec_phase() == SubscriberPhase::Starting,
    {
        Self { id, phase: SubscriberPhase::Starting }
    }

    /// The identity the broker gave the subscriber.
    #[verifier::when_used_as_spec(spec_id)]
    pub fn id(&self) -> (id: u128)
        ensures
            id == self.spec_id(),
    {
        self.id
    }

    /// Where the handler stands.
    #[verifier::when_used_as_spec(spec_phase)]
    pub fn phase(&self) -> (phase: SubscriberPhase)
        ensures
            phase == self.spec_phase(),
    {
        self.phase
    }

    /// The head of the delivery loop.
    fn next_round(terminate: bool) -> (next: (SubscriberPhase, SubscriberAction))
        ensures
            next == spec_subscriber_loop(terminate),
    {
        if terminate {
            (SubscriberPhase::Stopped, SubscriberAction::Stop)
        } else {
            (
                SubscriberPhase::Receiving,
                SubscriberAction::Receive { timeout_ms: RECEIVE_MESSAGE_TIMEOUT_MS },
            )
        }
    }

    /// Takes what happened and says what to do next. `terminate` is the
    /// owner's stop flag as it stands now.
    pub fn handle_subscriber(
        &mut self,
        input: SubscriberInput,
        terminate: bool,
    ) -> (action: SubscriberAction)
        ensures
            final(self).spec_id() == old(self).spec_id(),
            (final(self).spec_phase(), action) == spec_subscriber_step(
                old(self).spec_id(),
                old(self).spec_phase(),
                input,
                terminate,
            ),
    {
        let stop = (SubscriberPhase::Stopped, SubscriberAction::Stop);
        let (phase, action) = match self.phase {
            SubscriberPhase::Starting => match input {
                SubscriberInput::Start => (
                    SubscriberPhase::ReadingRequest,
                    SubscriberAction::ReadRequest,
                ),
                _ => stop,
            },
            SubscriberPhase::ReadingRequest => match input {
                SubscriberInput::RequestRead(true) => (
                    SubscriberPhase::Announcing,
                    SubscriberAction::Announce { id: self.id },
                ),
                _ => stop,
            },
            SubscriberPhase::Announcing => match input {
                SubscriberInput::Announced(true) => Self::next_round(terminate),
                _ => stop,
            },
            SubscriberPhase::Receiving => match input {
                SubscriberInput::Received(true) => (
                    SubscriberPhase::Writing,
                    SubscriberAction::WriteMessage,
                ),
                SubscriberInput::Received(false) => Self::next_round(terminate),
                _ => stop,
            },
            SubscriberPhase::Writing => match input {
                SubscriberInput::Written(true) => Self::next_round(terminate),
                _ => stop,
            },
            SubscriberPhase::Stopped => stop,
        };
        self.phase = phase;
        action
    }
}

} // verus!
