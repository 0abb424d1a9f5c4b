//! Which of the two listening ports a connection arrived on.

use vstd::prelude::*;

verus! {

/// The role of a peer, decided by the port it connected to.
#[derive(Clone, Copy, Debug, PartialEq, Eq, Structural)]
pub enum ConnectionKind {
    Publisher,
    Subscriber,
}

impl ConnectionKind {
    /// The text that `name` yields for a kind.
    pub open spec fn spec_name(self) -> Seq<char> {
        match self {
            ConnectionKind::Publisher => "Publisher"@,
            ConnectionKind::Subscriber => "Subscriber"@,
        }
    }

    /// The variant's name, for log lines.
    pub fn name(&self) -> (text: String)
        ensures
            text@ == self.spec_name(),
    {
        match self {
            ConnectionKind::Publisher => "Publisher".to_owned(),
            ConnectionKind::Subscriber => "Subscriber".to_owned(),
        }
    }
}

} // verus!
