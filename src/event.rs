use vstd::prelude::*;

verus! {

/// Local join-state of a room, as the session client reports it.
#[derive(PartialEq, Eq, Structural, Clone, Copy, Debug)]
pub enum RoomState {
    Invited,
    Joined,
    Left,
}

/// The kind of a membership change.
#[derive(PartialEq, Eq, Structural, Clone, Copy, Debug)]
pub enum Membership {
    Invite,
    Join,
    Leave,
}

/// A conversational channel and its local join-state.
#[derive(Clone, Debug)]
pub struct Room {
    pub room_id: String,
    pub state: RoomState,
}

/// An event delivered by the server.
#[derive(Clone, Debug)]
pub enum Event {
    /// A message in a room; `body` is `None` when it has no plain-text form.
    Message { room: Room, sender: String, body: Option<String> },
    /// A membership change of `target` in a room.
    Member { room: Room, target: String, change: Membership },
}

impl Room {
    /// A copy of this room reference.
    pub fn duplicate(&self) -> (r: Room)
        ensures
            r == *self,
    {
        Room { room_id: self.room_id.clone(), state: self.state }
    }
}

impl Event {
    pub open spec fn room_of(&self) -> Room {
        match self {
            Event::Message { room, .. } => *room,
            Event::Member { room, .. } => *room,
        }
    }

    pub fn room(&self) -> (r: &Room)
        ensures
            *r == self.room_of(),
    {
        match self {
            Event::Message { room, .. } => room,
            Event::Member { room, .. } => room,
        }
    }
}

} // verus!
