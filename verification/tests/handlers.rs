use pubsub::background_tcp_listener::{
    BackgroundTcpListener, ListenerAction, ListenerInput, ListenerPhase,
};
use pubsub::publisher_handler::{
    PublisherAction, PublisherHandler, PublisherInput, PublisherPhase, POLL_TIMEOUT_MS,
    PUBLISHER_STREAM_POLL_KEY,
};
use pubsub::subscriber_handler::{
    SubscriberAction, SubscriberHandler, SubscriberInput, SubscriberPhase,
    RECEIVE_MESSAGE_TIMEOUT_MS,
};
use pubsub::ConnectionKind;

#[test]
fn timeouts_and_poll_key() {
    assert_eq!(POLL_TIMEOUT_MS, 300);
    assert_eq!(RECEIVE_MESSAGE_TIMEOUT_MS, 300);
    assert_eq!(PUBLISHER_STREAM_POLL_KEY, 0);
}

#[test]
fn listener_binds_then_forwards_each_connection() {
    let mut listener = BackgroundTcpListener::new(ConnectionKind::Subscriber);
    assert_eq!(listener.kind(), ConnectionKind::Subscriber);
    assert_eq!(listener.phase(), ListenerPhase::Starting);
    assert_eq!(listener.listen(ListenerInput::Start, false), ListenerAction::Bind);
    assert_eq!(
        listener.listen(ListenerInput::Bound(true), false),
        ListenerAction::Accept
    );
    assert_eq!(
        listener.listen(ListenerInput::Accepted(true), false),
        ListenerAction::Forward(ConnectionKind::Subscriber)
    );
    assert_eq!(
        listener.listen(ListenerInput::Accepted(true), false),
        ListenerAction::Forward(ConnectionKind::Subscriber)
    );
    assert_eq!(listener.phase(), ListenerPhase::Accepting);
}

#[test]
fn listener_survives_a_failed_accept() {
    let mut listener = BackgroundTcpListener::new(ConnectionKind::Publisher);
    listener.listen(ListenerInput::Start, false);
    listener.listen(ListenerInput::Bound(true), false);
    assert_eq!(
        listener.listen(ListenerInput::Accepted(false), false),
        ListenerAction::Skip
    );
    assert_eq!(
        listener.listen(ListenerInput::Accepted(true), false),
        ListenerAction::Forward(ConnectionKind::Publisher)
    );
}

#[test]
fn listener_that_cannot_bind_stops_without_forwarding() {
    let mut listener = BackgroundTcpListener::new(ConnectionKind::Publisher);
    listener.listen(ListenerInput::Start, false);
    assert_eq!(
        listener.listen(ListenerInput::Bound(false), false),
        ListenerAction::Stop
    );
    assert_eq!(listener.phase(), ListenerPhase::Stopped);
    assert_eq!(
        listener.listen(ListenerInput::Accepted(true), false),
        ListenerAction::Stop
    );
}

#[test]
fn listener_told_to_stop_drops_the_connection_that_woke_it() {
    let mut listener = BackgroundTcpListener::new(ConnectionKind::Subscriber);
    listener.listen(ListenerInput::Start, false);
    listener.listen(ListenerInput::Bound(true), false);
    assert_eq!(
        listener.listen(ListenerInput::Accepted(true), true),
        ListenerAction::Stop
    );
    assert_eq!(listener.phase(), ListenerPhase::Stopped);
}

#[test]
fn listener_send_connection_event() {
    assert_eq!(
        BackgroundTcpListener::send_connection_event(ConnectionKind::Publisher, true),
        ListenerAction::Forward(ConnectionKind::Publisher)
    );
    assert_eq!(
        BackgroundTcpListener::send_connection_event(ConnectionKind::Publisher, false),
        ListenerAction::Skip
    );
}

fn started_publisher() -> PublisherHandler {
    let mut handler = PublisherHandler::new();
    assert_eq!(handler.phase(), PublisherPhase::Starting);
    assert_eq!(
        handler.handle_publisher(PublisherInput::Start, false),
        PublisherAction::CreatePoller
    );
    assert_eq!(
        handler.handle_publisher(PublisherInput::PollerCreated(true), false),
        PublisherAction::Register { key: 0 }
    );
    assert_eq!(
        handler.handle_publisher(PublisherInput::Registered(true), false),
        PublisherAction::Arm { key: 0 }
    );
    handler
}

#[test]
fn publisher_reads_one_message_per_wake() {
    let mut handler = started_publisher();
    for _ in 0..3 {
        assert_eq!(
            handler.handle_publisher(PublisherInput::Armed(true), false),
            PublisherAction::Wait { timeout_ms: 300 }
        );
        assert_eq!(
            handler.handle_publisher(PublisherInput::Waited(Some(1)), false),
            PublisherAction::ReadMessage
        );
        assert_eq!(
            handler.handle_publisher(PublisherInput::MessageRead(true), false),
            PublisherAction::EmitPublish
        );
        assert_eq!(
            handler.handle_publisher(PublisherInput::EventSent(true), false),
            PublisherAction::Arm { key: 0 }
        );
    }
}

#[test]
fn publisher_waits_again_after_a_timeout_or_a_failed_wait() {
    let mut handler = started_publisher();
    handler.handle_publisher(PublisherInput::Armed(true), false);
    assert_eq!(
        handler.handle_publisher(PublisherInput::Waited(Some(0)), false),
        PublisherAction::Arm { key: 0 }
    );
    handler.handle_publisher(PublisherInput::Armed(true), false);
    assert_eq!(
        handler.handle_publisher(PublisherInput::Waited(None), false),
        PublisherAction::Arm { key: 0 }
    );
}

#[test]
fn publisher_goes_on_when_the_event_could_not_be_sent() {
    let mut handler = started_publisher();
    handler.handle_publisher(PublisherInput::Armed(true), false);
    handler.handle_publisher(PublisherInput::Waited(Some(2)), false);
    handler.handle_publisher(PublisherInput::MessageRead(true), false);
    assert_eq!(
        handler.handle_publisher(PublisherInput::EventSent(false), false),
        PublisherAction::Arm { key: 0 }
    );
}

#[test]
fn publisher_stops_on_a_message_that_cannot_be_decoded() {
    let mut handler = started_publisher();
    handler.handle_publisher(PublisherInput::Armed(true), false);
    handler.handle_publisher(PublisherInput::Waited(Some(1)), false);
    assert_eq!(
        handler.handle_publisher(PublisherInput::MessageRead(false), false),
        PublisherAction::Stop
    );
    assert_eq!(handler.phase(), PublisherPhase::Stopped);
    assert_eq!(
        handler.handle_publisher(PublisherInput::Armed(true), false),
        PublisherAction::Stop
    );
}

#[test]
fn publisher_stops_when_the_poller_fails() {
    let mut handler = PublisherHandler::new();
    handler.handle_publisher(PublisherInput::Start, false);
    assert_eq!(
        handler.handle_publisher(PublisherInput::PollerCreated(false), false),
        PublisherAction::Stop
    );
    let mut handler = PublisherHandler::new();
    handler.handle_publisher(PublisherInput::Start, false);
    handler.handle_publisher(PublisherInput::PollerCreated(true), false);
    assert_eq!(
        handler.handle_publisher(PublisherInput::Registered(false), false),
        PublisherAction::Stop
    );
    let mut handler = started_publisher();
    assert_eq!(
        handler.handle_publisher(PublisherInput::Armed(false), false),
        PublisherAction::Stop
    );
}

#[test]
fn publisher_told_to_stop_does_so_at_the_head_of_the_loop() {
    let mut handler = started_publisher();
    handler.handle_publisher(PublisherInput::Armed(true), false);
    assert_eq!(
        handler.handle_publisher(PublisherInput::Waited(Some(0)), true),
        PublisherAction::Stop
    );
    let mut handler = started_publisher();
    handler.handle_publisher(PublisherInput::Armed(true), true);
    handler.handle_publisher(PublisherInput::Waited(Some(1)), true);
    handler.handle_publisher(PublisherInput::MessageRead(true), true);
    assert_eq!(
        handler.handle_publisher(PublisherInput::EventSent(true), true),
        PublisherAction::Stop
    );
    assert_eq!(handler.phase(), PublisherPhase::Stopped);
}

#[test]
fn publisher_stops_on_an_answer_it_did_not_ask_for() {
    let mut handler = started_publisher();
    assert_eq!(
        handler.handle_publisher(PublisherInput::MessageRead(true), false),
        PublisherAction::Stop
    );
}

fn announced_subscriber(id: u128) -> SubscriberHandler {
    let mut handler = SubscriberHandler::new(id);
    assert_eq!(handler.id(), id);
    assert_eq!(handler.phase(), SubscriberPhase::Starting);
    assert_eq!(
        handler.handle_subscriber(SubscriberInput::Start, false),
        SubscriberAction::ReadRequest
    );
    assert_eq!(
        handler.handle_subscriber(SubscriberInput::RequestRead(true), false),
        SubscriberAction::Announce { id }
    );
    assert_eq!(
        handler.handle_subscriber(SubscriberInput::Announced(true), false),
        SubscriberAction::Receive { timeout_ms: 300 }
    );
    handler
}

#[test]
fn subscriber_relays_each_message() {
    let mut handler = announced_subscriber(42);
    for _ in 0..3 {
        assert_eq!(
            handler.handle_subscriber(SubscriberInput::Received(true), false),
            SubscriberAction::WriteMessage
        );
        assert_eq!(
            handler.handle_subscriber(SubscriberInput::Written(true), false),
            SubscriberAction::Receive { timeout_ms: 300 }
        );
    }
    assert_eq!(handler.id(), 42);
}

#[test]
fn subscriber_waits_again_after_a_timeout() {
    let mut handler = announced_subscriber(1);
    assert_eq!(
        handler.handle_subscriber(SubscriberInput::Received(false), false),
        SubscriberAction::Receive { timeout_ms: 300 }
    );
}

#[test]
fn subscriber_without_a_request_never_registers() {
    let mut handler = SubscriberHandler::new(5);
    handler.handle_subscriber(SubscriberInput::Start, false);
    assert_eq!(
        handler.handle_subscriber(SubscriberInput::RequestRead(false), false),
        SubscriberAction::Stop
    );
    assert_eq!(handler.phase(), SubscriberPhase::Stopped);
}

#[test]
fn subscriber_stops_when_the_broker_is_gone_or_the_peer_left() {
    let mut handler = SubscriberHandler::new(5);
    handler.handle_subscriber(SubscriberInput::Start, false);
    handler.handle_subscriber(SubscriberInput::RequestRead(true), false);
    assert_eq!(
        handler.handle_subscriber(SubscriberInput::Announced(false), false),
        SubscriberAction::Stop
    );
    let mut handler = announced_subscriber(5);
    handler.handle_subscriber(SubscriberInput::Received(true), false);
    assert_eq!(
        handler.handle_subscriber(SubscriberInput::Written(false), false),
        SubscriberAction::Stop
    );
    assert_eq!(
        handler.handle_subscriber(SubscriberInput::Received(true), false),
        SubscriberAction::Stop
    );
}

#[test]
fn subscriber_told_to_stop_does_so_at_the_head_of_the_loop() {
    let mut handler = announced_subscriber(5);
    assert_eq!(
        handler.handle_subscriber(SubscriberInput::Received(false), true),
        SubscriberAction::Stop
    );
    let mut handler = announced_subscriber(5);
    assert_eq!(
        handler.handle_subscriber(SubscriberInput::Received(true), true),
        SubscriberAction::WriteMessage
    );
    assert_eq!(
        handler.handle_subscriber(SubscriberInput::Written(true), true),
        SubscriberAction::Stop
    );
}

#[test]
fn subscriber_reads_its_request_once() {
    let mut handler = announced_subscriber(5);
    assert_eq!(
        handler.handle_subscriber(SubscriberInput::RequestRead(true), false),
        SubscriberAction::Stop
    );
}
