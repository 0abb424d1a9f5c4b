//! The protocol of a publisher connection: wait for the socket to become
//! readable, decode one message, hand it to the broker, and look at the
//! stop flag between waits.

use vstd::prelude::*;

verus! {

/// The key under which the publisher's socket is known to the poller.
pub const PUBLISHER_STREAM_POLL_KEY: usize = 0;

/// How long one wait for the socket may last, in milliseconds.
pub const POLL_TIMEOUT_MS: u64 = 300;

/// Where a publisher handler stands: what it last asked for.
#[derive(Clone, Copy, Debug, PartialEq, Eq, Structural)]
pub enum PublisherPhase {
    Starting,
    CreatingPoller,
    Registering,
    Arming,
    Waiting,
    Reading,
    Emitting,
    Stopped,
}

/// What happened to what the handler last asked for.
#[derive(Clone, Copy, Debug, PartialEq, Eq, Structural)]
pub enum PublisherInput {
    /// The handler's thread has started.
    Start,
    /// The poller was created, or not.
    PollerCreated(bool),
    /// The socket was added to the poller, or not.
    Registered(bool),
    /// The interest in the socket was renewed, or not.
    Armed(bool),
    /// The wait ended with this many sockets ready, or failed.
    Waited(Option<usize>),
    /// A message was decoded from the socket, or decoding failed.
    MessageRead(bool),
    /// The publish event reached the broker's channel, or not.
    EventSent(bool),
}

/// What the handler asks for next.
#[derive(Clone, Copy, Debug, PartialEq, Eq, Structural)]
pub enum PublisherAction {
    /// Create the poller, then report `PollerCreated`.
    CreatePoller,
    /// Add the socket to the poller under `key`, for reading, then report
    /// `Registered`.
    Register { key: usize },
    /// Renew the interest in reading the socket, then report `Armed`.
    Arm { key: usize },
    /// Wait until the socket is readable or the time is over, then report
    /// `Waited`.
    Wait { timeout_ms: u64 },
    /// Decode one message from the socket, then report `MessageRead`.
    ReadMessage,
    /// Send the message just read to the broker as a publish event, then
    /// report `EventSent`.
    EmitPublish,
    /// Leave the loop: the connection is closed.
    Stop,
}

/// The head of the loop: stop if asked to, else renew the interest in the
/// socket.
pub open spec fn spec_publisher_loop(terminate: bool) -> (PublisherPhase, PublisherAction) {
    if terminate {
        (PublisherPhase::Stopped, PublisherAction::Stop)
    } else {
        (PublisherPhase::Arming, PublisherAction::Arm { key: PUBLISHER_STREAM_POLL_KEY })
    }
}

/// The handler's next phase and what it asks for, given what happened and
/// whether its owner has asked it to stop. A poller that cannot be set up
/// or renewed and a message that cannot be decoded end the handler; a
/// failed or empty wait and an event that could not be sent do not.
pub open spec fn spec_publisher_step(
    phase: PublisherPhase,
    input: PublisherInput,
    terminate: bool,
) -> (PublisherPhase, PublisherAction) {
    match (phase, input) {
        (PublisherPhase::Starting, PublisherInput::Start) => (
            PublisherPhase::CreatingPoller,
            PublisherAction::CreatePoller,
        ),
        (PublisherPhase::CreatingPoller, PublisherInput::PollerCreated(true)) => (
            PublisherPhase::Registering,
            PublisherAction::Register { key: PUBLISHER_STREAM_POLL_KEY },
        ),
        (PublisherPhase::Registering, PublisherInput::Registered(true)) => spec_publisher_loop(
            terminate,
        ),
        (PublisherPhase::Arming, PublisherInput::Armed(true)) => (
            PublisherPhase::Waiting,
            PublisherAction::Wait { timeout_ms: POLL_TIMEOUT_MS },
        ),
        (PublisherPhase::Waiting, PublisherInput::Waited(Some(ready))) => if ready == 0 {
            spec_publisher_loop(terminate)
        } else {
            (PublisherPhase::Reading, PublisherAction::ReadMessage)
        },
        (PublisherPhase::Waiting, PublisherInput::Waited(None)) => spec_publisher_loop(terminate),
        (PublisherPhase::Reading, PublisherInput::MessageRead(true)) => (
            PublisherPhase::Emitting,
            PublisherAction::EmitPublish,
        ),
        (PublisherPhase::Emitting, PublisherInput::EventSent(_)) => spec_publisher_loop(terminate),
        _ => (PublisherPhase::Stopped, PublisherAction::Stop),
    }
}

/// How many steps a handler that is asked to stop can still take.
pub open spec fn spec_publisher_steps_left(phase: PublisherPhase) -> nat {
    match phase {
        PublisherPhase::Stopped => 0,
        PublisherPhase::Emitting => 1,
        PublisherPhase::Reading => 2,
        PublisherPhase::Waiting => 3,
        PublisherPhase::Arming => 4,
        PublisherPhase::Registering => 1,
        PublisherPhase::CreatingPoller => 2,
        PublisherPhase::Starting => 3,
    }
}

/// Once its owner asks it to stop, a handler stops after a bounded number
/// of steps, whatever happens on the socket: each step brings it closer.
/// A stopped handler stays stopped, and a message goes to the broker only
/// after it has been decoded.
pub proof fn lemma_publisher_stops(phase: PublisherPhase, input: PublisherInput, terminate: bool)
    ensures
        phase is Stopped ==> spec_publisher_step(phase, input, terminate) == (
            PublisherPhase::Stopped,
            PublisherAction::Stop,
        ),
        terminate && !(phase is Stopped) ==> spec_publisher_steps_left(
            spec_publisher_step(phase, input, terminate).0,
        ) < spec_publisher_steps_left(phase),
        spec_publisher_step(phase, input, terminate).1 is Stop <==> spec_publisher_step(
            phase,
            input,
            terminate,
        ).0 is Stopped,
        spec_publisher_step(phase, input, terminate).1 is EmitPublish ==> phase is Reading && input
            == PublisherInput::MessageRead(true),
{
}

/// The state of one publisher connection.
#[derive(Clone, Copy, Debug, PartialEq, Eq, Structural)]
pub struct PublisherHandler {
    phase: PublisherPhase,
}

impl PublisherHandler {
    /// Where the handler stands.
    pub closed spec fn spec_phase(&self) -> PublisherPhase {
        self.phase
    }

    /// A handler that has not started.
    pub fn new() -> (handler: Self)
        ensures
            handler.spec_phase() == PublisherPhase::Starting,
    {
        Self { phase: PublisherPhase::Starting }
    }

    /// Where the handler stands.
    #[verifier::when_used_as_spec(spec_phase)]
    pub fn phase(&self) -> (phase: PublisherPhase)
        ensures
            phase == self.spec_phase(),
    {
        self.phase
    }

    /// The head of the loop.
    fn next_round(terminate: bool) -> (next: (PublisherPhase, PublisherAction))
        ensures
            next == spec_publisher_loop(terminate),
    {
        if terminate {
            (PublisherPhase::Stopped, PublisherAction::Stop)
        } else {
            (PublisherPhase::Arming, PublisherAction::Arm { key: PUBLISHER_STREAM_POLL_KEY })
        }
    }

    /// Takes what happened and says what to do next. `terminate` is the
    /// owner's stop flag as it stands now.
    pub fn handle_publisher(
        &mut self,
        input: PublisherInput,
        terminate: bool,
    ) -> (action: PublisherAction)
        ensures
            (final(self).spec_phase(), action) == spec_publisher_step(
                old(self).spec_phase(),
                input,
                terminate,
            ),
    {
        let stop = (PublisherPhase::Stopped, PublisherAction::Stop);
        let (phase, action) = match self.phase {
            PublisherPhase::Starting => match input {
                PublisherInput::Start => (
                    PublisherPhase::CreatingPoller,
                    PublisherAction::CreatePoller,
                ),
                _ => stop,
            },
            PublisherPhase::CreatingPoller => match input {
                PublisherInput::PollerCreated(true) => (
                    PublisherPhase::Registering,
                    PublisherAction::Register { key: PUBLISHER_STREAM_POLL_KEY },
                ),
                _ => stop,
            },
            PublisherPhase::Registering => match input {
                PublisherInput::Registered(true) => Self::next_round(terminate),
                _ => stop,
            },
            PublisherPhase::Arming => match input {
                PublisherInput::Armed(true) => (
                    PublisherPhase::Waiting,
                    PublisherAction::Wait { timeout_ms: POLL_TIMEOUT_MS },
                ),
                _ => stop,
            },
            PublisherPhase::Waiting => match input {
                PublisherInput::Waited(Some(ready)) => {
                    if ready == 0 {
                        Self::next_round(terminate)
                    } else {
                        (PublisherPhase::Reading, PublisherAction::ReadMessage)
                    }
                },
                PublisherInput::Waited(None) => Self::next_round(terminate),
                _ => stop,
            },
            PublisherPhase::Reading => match input {
                PublisherInput::MessageRead(true) => (
                    PublisherPhase::Emitting,
                    PublisherAction::EmitPublish,
                ),
                _ => stop,
            },
            PublisherPhase::Emitting => match input {
                PublisherInput::EventSent(_) => Self::next_round(terminate),
                _ => stop,
            },
            PublisherPhase::Stopped => stop,
        };
        self.phase = phase;
        action
    }
}

} // verus!
