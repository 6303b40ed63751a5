use vstd::prelude::*;

verus! {

/// What happened on the game server: the event's name and its status.
pub struct OdinEventType {
    pub name: String,
    pub status: String,
}

/// A notice from the game server's webhook.
pub struct OdinBody {
    pub event_type: OdinEventType,
    pub event_message: String,
    pub timestamp: String,
}

} // verus!
