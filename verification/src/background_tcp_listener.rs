//! The protocol of a listener: bind once, then forward each accepted
//! connection until it is told to stop.

use vstd::prelude::*;

use crate::connection_kind::ConnectionKind;

verus! {

/// Where a listener stands.
#[derive(Clone, Copy, Debug, PartialEq, Eq, Structural)]
pub enum ListenerPhase {
    /// Not yet asked for anything.
    Starting,
    /// Waiting to learn whether its address could be bound.
    Binding,
    /// Waiting for the next connection.
    Accepting,
    /// Done: it accepts nothing more.
    Stopped,
}

/// What happened to what the listener last asked for.
#[derive(Clone, Copy, Debug, PartialEq, Eq, Structural)]
pub enum ListenerInput {
    /// The listener's thread has started.
    Start,
    /// Binding the address went well, or not.
    Bound(bool),
    /// A connection was accepted, or accepting failed.
    Accepted(bool),
}

/// What the listener asks for next.
#[derive(Clone, Copy, Debug, PartialEq, Eq, Structural)]
pub enum ListenerAction {
    /// Bind the address, then report `Bound`.
    Bind,
    /// Wait for a connection, then report `Accepted`.
    Accept,
    /// Send the accepted connection to the broker as a connection of this
    /// kind, then wait for the next one.
    Forward(ConnectionKind),
    /// Drop the failed connection, then wait for the next one.
    Skip,
    /// Leave the loop.
    Stop,
}

/// The listener's next phase and what it asks for, given what happened
/// and whether its owner has asked it to stop. A listener that could not
/// bind stops without forwarding anything; one that is asked to stop
/// forwards nothing more, not even the connection that woke it.
pub open spec fn spec_listener_step(
    kind: ConnectionKind,
    phase: ListenerPhase,
    input: ListenerInput,
    terminate: bool,
) -> (ListenerPhase, ListenerAction) {
    match (phase, input) {
        (ListenerPhase::Starting, ListenerInput::Start) => (
            ListenerPhase::Binding,
            ListenerAction::Bind,
        ),
        (ListenerPhase::Binding, ListenerInput::Bound(true)) => (
            ListenerPhase::Accepting,
            ListenerAction::Accept,
        ),
        (ListenerPhase::Accepting, ListenerInput::Accepted(ok)) => if terminate {
            (ListenerPhase::Stopped, ListenerAction::Stop)
        } else if ok {
            (ListenerPhase::Accepting, ListenerAction::Forward(kind))
        } else {
            (ListenerPhase::Accepting, ListenerAction::Skip)
        },
        _ => (ListenerPhase::Stopped, ListenerAction::Stop),
    }
}

/// A listener that is asked to stop does so at the next connection, and a
/// stopped one stays stopped.
pub proof fn lemma_listener_stops(
    kind: ConnectionKind,
    phase: ListenerPhase,
    input: ListenerInput,
    terminate: bool,
)
    ensures
        phase is Stopped ==> spec_listener_step(kind, phase, input, terminate) == (
            ListenerPhase::Stopped,
            ListenerAction::Stop,
        ),
        terminate && phase is Accepting ==> spec_listener_step(kind, phase, input, terminate) == (
            ListenerPhase::Stopped,
            ListenerAction::Stop,
        ),
        spec_listener_step(kind, phase, input, terminate).1 is Forward ==> !terminate
            && input == ListenerInput::Accepted(true),
{
}

/// The state of one listener: the kind of connection its port takes, and
/// where it stands.
#[derive(Clone, Copy, Debug, PartialEq, Eq, Structural)]
pub struct BackgroundTcpListener {
    kind: ConnectionKind,
    phase: ListenerPhase,
}

impl BackgroundTcpListener {
    /// The kind of connection this listener takes.
    pub closed spec fn spec_kind(&self) -> ConnectionKind {
        self.kind
    }

    /// Where the listener stands.
    pub closed spec fn spec_phase(&self) -> ListenerPhase {
        self.phase
    }

    /// A listener for connections of `connection_kind`, not yet started.
    pub fn new(connection_kind: ConnectionKind) -> (listener: Self)
        ensures
            listener.spec_kind() == connection_kind,
            listener.spec_phase() == ListenerPhase::Starting,
    {
        Self { kind: connection_kind, phase: ListenerPhase::Starting }
    }

    /// The kind of connection this listener takes.
    #[verifier::when_used_as_spec(spec_kind)]
    pub fn kind(&self) -> (kind: ConnectionKind)
        ensures
            kind == self.spec_kind(),
    {
        self.kind
    }

    /// Where the listener stands.
    #[verifier::when_used_as_spec(spec_phase)]
    pub fn phase(&self) -> (phase: ListenerPhase)
        ensures
            phase == self.spec_phase(),
    {
        self.phase
    }

    /// Takes what happened and says what to do next. `terminate` is the
    /// owner's stop flag as it stands now.
    pub fn listen(&mut self, input: ListenerInput, terminate: bool) -> (action: ListenerAction)
        ensures
            final(self).spec_kind() == old(self).spec_kind(),
            (final(self).spec_phase(), action) == spec_listener_step(
                old(self).spec_kind(),
                old(self).spec_phase(),
                input,
                terminate,
            ),
    {
        let (phase, action) = match (self.phase, input) {
            (ListenerPhase::Starting, ListenerInput::Start) => (
                ListenerPhase::Binding,
                ListenerAction::Bind,
            ),
            (ListenerPhase::Binding, ListenerInput::Bound(true)) => (
                ListenerPhase::Accepting,
                ListenerAction::Accept,
            ),
            (ListenerPhase::Accepting, ListenerInput::Accepted(ok)) => {
                if terminate {
                    (ListenerPhase::Stopped, ListenerAction::Stop)
                } else {
                    (ListenerPhase::Accepting, Self::send_connection_event(self.kind, ok))
                }
            },
            _ => (ListenerPhase::Stopped, ListenerAction::Stop),
        };
        self.phase = phase;
        action
    }

    /// What to do with the outcome of one accept: a connection goes to the
    /// broker under the listener's kind, a failure is dropped.
    pub fn send_connection_event(
        connection_kind: ConnectionKind,
        accepted: bool,
    ) -> (action: ListenerAction)
        ensures
            action == if accepted {
                ListenerAction::Forward(connection_kind)
            } else {
                ListenerAction::Skip
            },
    {
        if accepted {
            ListenerAction::Forward(connection_kind)
        } else {
            ListenerAction::Skip
        }
    }
}

} // verus!
