//! The requests of the message inbox.
use vstd::prelude::*;

verus! {

/// Identifies a message of the inbox.
pub type MessageId = i32;

/// Asks for the messages of the signed-in user.
#[derive(Clone, Copy, Debug, PartialEq, Eq)]
pub struct LoadMessages;

/// Marks one message of the signed-in user as seen.
#[derive(Clone, Copy, Debug, PartialEq, Eq)]
pub struct MarkMessageSeen {
    pub id: MessageId,
}

} // verus!
