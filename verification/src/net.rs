//! The events that players send to the simulation.

use vstd::prelude::*;
use crate::snake::Direction;

verus! {

/// A change of a player's presence in the game.
#[derive(Debug, Clone, Copy, PartialEq, Eq, Structural)]
pub enum Signal {
    Disconnect,
    Connect,
}

/// What a player asks for.
#[derive(Debug, Clone, Copy, PartialEq, Eq, Structural)]
pub enum SnakeEventType {
    Movement(Direction),
    Signal(Signal),
}

/// One request, with the name of the player that it belongs to.
#[derive(Debug)]
pub struct SnakeEvent {
    pub event_type: SnakeEventType,
    pub event_owner: String,
}

/// What a [`SnakeEvent`] holds, as plain mathematical values.
pub struct EventModel {
    pub event_type: SnakeEventType,
    pub owner: Seq<char>,
}

impl View for SnakeEvent {
    type V = EventModel;

    open spec fn view(&self) -> EventModel {
        EventModel { event_type: self.event_type, owner: self.event_owner@ }
    }
}

impl Clone for SnakeEvent {
    fn clone(&self) -> (r: Self)
        ensures
            r@ == self@,
    {
        Self { event_type: self.event_type, event_owner: self.event_owner.clone() }
    }
}

} // verus!
