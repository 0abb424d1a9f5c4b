//! Core of a topic-based publish/subscribe broker: the wire codec, the
//! routing state of the broker and the protocol each connection follows.

pub mod background_tcp_listener;
pub mod connection_kind;
pub mod error;
pub mod event;
pub mod laws;
pub mod message;
pub mod publisher_handler;
pub mod pubsub;
pub mod subscriber_handler;
pub mod subscription_request;
pub mod wire;

pub use connection_kind::ConnectionKind;
pub use error::Error;
pub use event::Event;
pub use message::Message;
pub use pubsub::PubSub;
pub use subscription_request::SubscriptionRequest;
