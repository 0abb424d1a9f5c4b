//! The failures that the broker and its connections can meet.

use vstd::prelude::*;

use crate::message::Message;

verus! {

/// How a transport failed.
#[derive(Clone, Copy, Debug, PartialEq, Eq, Structural)]
pub enum IoFailure {
    /// The stream ended before a declared length was satisfied.
    UnexpectedEof,
    /// Any other failure of the underlying transport.
    Other,
}

/// Everything that can go wrong between a peer and the broker.
#[derive(Debug, PartialEq, Eq)]
pub enum Error {
    /// Receiving from a channel whose senders are gone.
    ChannelReceive,
    /// Sending to a channel whose receiver is gone; the message comes back.
    ChannelSendMessage(Message),
    /// The transport failed.
    Io(IoFailure),
    /// Topic bytes that are not UTF-8; the bytes come back.
    FromUtf8(Vec<u8>),
}

impl Error {
    /// The text that `description` yields for an error.
    pub open spec fn spec_description(self) -> Seq<char> {
        match self {
            Error::ChannelReceive => "failed receiving from channel"@,
            Error::ChannelSendMessage(_) => "failed sending Message to channel"@,
            Error::Io(IoFailure::UnexpectedEof) => "I/O error: failed to fill whole buffer"@,
            Error::Io(IoFailure::Other) => "I/O error"@,
            Error::FromUtf8(_) => "failed converting byte vector to UTF-8 String"@,
        }
    }

    /// What went wrong, in words, for log lines.
    pub fn description(&self) -> (text: String)
        ensures
            text@ == self.spec_description(),
    {
        match self {
            Error::ChannelReceive => "failed receiving from channel".to_owned(),
            Error::ChannelSendMessage(_) => "failed sending Message to channel".to_owned(),
            Error::Io(IoFailure::UnexpectedEof) => {
                "I/O error: failed to fill whole buffer".to_owned()
            },
            Error::Io(IoFailure::Other) => "I/O error".to_owned(),
            Error::FromUtf8(_) => "failed converting byte vector to UTF-8 String".to_owned(),
        }
    }
}

} // verus!
