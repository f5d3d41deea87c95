//! The messages exchanged between sessions and the authority, and the
//! generic wire envelope.

use vstd::prelude::*;

verus! {

/// A broadcast-ready text payload handed to a session's transport.
pub struct MyMessage(pub String);

/// A session announcing itself to the authority; the authority answers
/// by inserting a `Player` keyed by `id` and registering the session.
pub struct Connect {
    pub id: u128,
}

/// A session leaving; the authority drops its registry entry and its
/// `Player` entity.
pub struct Disconnect {
    pub id: u128,
}

/// The generic wire envelope: `kind` selects the meaning of `data`.
#[derive(Debug, Clone)]
pub struct Conversation<T> {
    pub kind: String,
    pub data: T,
}

impl<T> Conversation<T> {
    /// An envelope from its tag and payload.
    pub fn new(kind: String, data: T) -> (c: Conversation<T>)
        ensures
            c.kind == kind,
            c.data == data,
    {
        Conversation { kind, data }
    }
}

/// A command envelope tagged with the sending session's identifier.
pub struct WrappedConversation<T>(pub u128, pub Conversation<T>);

} // verus!
