//! The events that the server sends to a client, and the frames that carry
//! them.

use crate::message::{
    encode_despawn, encode_location, encode_message, encode_spawn, Despawn, Location, Message,
    MessageType, MessageView, Spawn, SpawnView,
};
use vstd::prelude::*;

verus! {

/// What the server has to tell a client.
#[derive(Clone, Debug, PartialEq, Eq)]
pub enum OutboundEvent {
    /// A member's cursor has moved.
    LocationUpdate(Location),
    /// A member has entered the room.
    SpawnEntity(Spawn),
    /// A member has left the room.
    DespawnEntity(Despawn),
}

/// What an `OutboundEvent` holds.
pub enum EventView {
    LocationUpdate(Location),
    SpawnEntity(SpawnView),
    DespawnEntity(Despawn),
}

impl View for OutboundEvent {
    type V = EventView;

    open spec fn view(&self) -> EventView {
        match *self {
            OutboundEvent::LocationUpdate(location) => EventView::LocationUpdate(location),
            OutboundEvent::SpawnEntity(spawn) => EventView::SpawnEntity(spawn@),
            OutboundEvent::DespawnEntity(despawn) => EventView::DespawnEntity(despawn),
        }
    }
}

impl OutboundEvent {
    /// A second event that says the same.
    pub fn duplicate(&self) -> (copy: OutboundEvent)
        ensures
            copy@ == self@,
    {
        match self {
            OutboundEvent::LocationUpdate(location) => OutboundEvent::LocationUpdate(*location),
            OutboundEvent::SpawnEntity(spawn) => OutboundEvent::SpawnEntity(
                Spawn { id: spawn.id, icon: spawn.icon.clone() },
            ),
            OutboundEvent::DespawnEntity(despawn) => OutboundEvent::DespawnEntity(*despawn),
        }
    }

    /// The frame that tells a client of this event.
    pub fn to_frame(&self) -> (frame: Vec<u8>)
        ensures
            frame@ == event_frame(self@),
    {
        let message = match self {
            OutboundEvent::LocationUpdate(location) => Message {
                message_type: MessageType::UserLocation,
                data: location.to_bytes(),
            },
            OutboundEvent::SpawnEntity(spawn) => Message {
                message_type: MessageType::Spawn,
                data: spawn.to_bytes(),
            },
            OutboundEvent::DespawnEntity(despawn) => Message {
                message_type: MessageType::Despawn,
                data: despawn.to_bytes(),
            },
        };
        message.to_bytes()
    }
}

/// The frame that tells a client of `event`.
pub open spec fn event_frame(event: EventView) -> Seq<u8> {
    encode_message(
        match event {
            EventView::LocationUpdate(location) => MessageView {
                message_type: MessageType::UserLocation,
                data: encode_location(location),
            },
            EventView::SpawnEntity(spawn) => MessageView {
                message_type: MessageType::Spawn,
                data: encode_spawn(spawn),
            },
            EventView::DespawnEntity(despawn) => MessageView {
                message_type: MessageType::Despawn,
                data: encode_despawn(despawn),
            },
        },
    )
}

/// What a sequence of events holds.
pub open spec fn events_view(events: Seq<OutboundEvent>) -> Seq<EventView> {
    events.map_values(|event: OutboundEvent| event@)
}

} // verus!
