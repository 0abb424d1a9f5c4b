//! What the broker reacts to.

use vstd::prelude::*;

use crate::connection_kind::ConnectionKind;
use crate::error::IoFailure;
use crate::message::{Message, MessageView};
use crate::subscription_request::SubscriptionRequest;

verus! {

/// What an event is, each part taken by its view.
pub enum EventView {
    Connection(ConnectionKind, Result<(), IoFailure>),
    Publish(MessageView),
    SubscriptionRequest(u128, Seq<Seq<char>>),
    Termination,
}

/// One unit of work for the broker. Listeners and connection handlers
/// produce events; the broker alone consumes them.
#[derive(Debug, PartialEq, Eq)]
pub enum Event {
    /// A listener accepted a connection of this kind, or failed to.
    Connection(ConnectionKind, Result<(), IoFailure>),
    /// A publisher sent this message.
    Publish(Message),
    /// The subscriber with this identity asked for these topics.
    SubscriptionRequest(u128, SubscriptionRequest),
    /// The process was asked to stop.
    Termination,
}

impl View for Event {
    type V = EventView;

    open spec fn view(&self) -> EventView {
        match self {
            Event::Connection(kind, accepted) => EventView::Connection(*kind, *accepted),
            Event::Publish(message) => EventView::Publish(message@),
            Event::SubscriptionRequest(id, request) => EventView::SubscriptionRequest(
                *id,
                request@,
            ),
            Event::Termination => EventView::Termination,
        }
    }
}

impl Event {
    /// The text that `name` yields for an event.
    pub open spec fn spec_name(self) -> Seq<char> {
        match self {
            Event::Connection(_, _) => "Connection"@,
            Event::Publish(_) => "Publish"@,
            Event::SubscriptionRequest(_, _) => "SubscriptionRequest"@,
            Event::Termination => "Termination"@,
        }
    }

    /// The variant's name, for log lines.
    pub fn name(&self) -> (text: String)
        ensures
            text@ == self.spec_name(),
    {
        match self {
            Event::Connection(_, _) => "Connection".to_owned(),
            Event::Publish(_) => "Publish".to_owned(),
            Event::SubscriptionRequest(_, _) => "SubscriptionRequest".to_owned(),
            Event::Termination => "Termination".to_owned(),
        }
    }
}

} // verus!
