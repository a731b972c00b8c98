use vstd::prelude::*;
use crate::text::same_text;

verus! {

/// An inbound message on a connection's socket, once decoded.
pub enum UpdateRequest {
    /// Join a space.
    SpaceSet { space_code: String },
    /// Adjust the counter of the connection's space: `mode` is `relative` or `absolute`.
    CountUpdate { mode: String, value: isize },
}

/// The liveness probes a client may send in place of a request.
pub open spec fn ping_text(message: Seq<char>) -> bool {
    message == "ping"@ || message == "ping\n"@
}

/// Whether a message is a liveness probe, to be answered by nothing.
pub fn is_ping(message: &str) -> (r: bool)
    ensures
        r == ping_text(message@),
{
    same_text(message, "ping") || same_text(message, "ping\n")
}

/// What handling one inbound message led to.
pub enum Outcome {
    /// Nothing changed and nothing is sent.
    Ignored,
    /// The connection moved to another space; nothing is sent.
    Joined,
    /// A counter changed: `text` goes to each connection in `recipients`.
    Broadcast { space_code: String, count: isize, text: String, recipients: Vec<String> },
}

} // verus!
