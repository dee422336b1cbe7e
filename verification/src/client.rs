//! The browser's side of the protocol: the two frames that a client sends,
//! and what it reads out of the frames that the server sends.

use crate::event::{event_frame, EventView, OutboundEvent};
use crate::message::{
    decode_despawn, decode_location, decode_message, decode_spawn, encode_auth, encode_despawn,
    encode_location, encode_message, encode_spawn, lemma_auth_round_trip,
    lemma_despawn_round_trip, lemma_location_round_trip, lemma_message_round_trip,
    lemma_spawn_round_trip, Auth, AuthView, Despawn, Location, Message, MessageType, MessageView,
    Spawn,
};
use crate::presence::rooms_arrive;
use crate::registry::{rooms_broadcast, Rooms};
use crate::session::{next_rooms, next_state, request_of, InboundView, RequestView, SessionState};
use rand::Rng;
use vstd::prelude::*;
use vstd::utf8::encode_utf8;

verus! {

/// The id that a client writes into the positions it reports. The server puts
/// the sender's own id in its place.
pub const UNSET_ID: u64 = 123;

/// The frame with which the client `id` asks to be let into the room `url`.
pub open spec fn auth_frame(id: u64, url: Seq<char>) -> Seq<u8> {
    encode_message(
        MessageView { message_type: MessageType::Auth, data: encode_auth(AuthView { id, url }) },
    )
}

/// The frame with which a client reports that its cursor is at `x`, `y`.
pub open spec fn location_frame(x: u32, y: u32) -> Seq<u8> {
    encode_message(
        MessageView {
            message_type: MessageType::MyLocation,
            data: encode_location(Location { id: UNSET_ID, x, y }),
        },
    )
}

/// What the frame `bytes` tells a client: the event that it carries, and
/// nothing where it cannot be read or is of a kind that only a client sends.
pub open spec fn event_of(bytes: Seq<u8>) -> Option<EventView> {
    match decode_message(bytes) {
        Err(_) => None,
        Ok(message) => match message.message_type {
            MessageType::UserLocation => match decode_location(message.data) {
                Ok(location) => Some(EventView::LocationUpdate(location)),
                Err(_) => None,
            },
            MessageType::Spawn => match decode_spawn(message.data) {
                Ok(spawn) => Some(EventView::SpawnEntity(spawn)),
                Err(_) => None,
            },
            MessageType::Despawn => match decode_despawn(message.data) {
                Ok(despawn) => Some(EventView::DespawnEntity(despawn)),
                Err(_) => None,
            },
            _ => None,
        },
    }
}

/// Builds the frame with which the client `id` asks to be let into the room
/// `url`.
pub fn auth_request(id: u64, url: &String) -> (frame: Vec<u8>)
    ensures
        frame@ == auth_frame(id, url@),
{
    let auth = Auth { id, url: url.clone() };
    let message = Message { message_type: MessageType::Auth, data: auth.to_bytes() };
    message.to_bytes()
}

/// Builds the frame with which a client reports that its cursor is at `x`,
/// `y`, each given by the bits of a single-precision number.
pub fn location_request(x: u32, y: u32) -> (frame: Vec<u8>)
    ensures
        frame@ == location_frame(x, y),
{
    let location = Location { id: UNSET_ID, x, y };
    let message = Message { message_type: MessageType::MyLocation, data: location.to_bytes() };
    message.to_bytes()
}

/// The random number generator of rand that belongs to a thread.
#[verifier::external_type_specification]
#[verifier::external_body]
pub struct ExThreadRng(rand::rngs::ThreadRng);

/// `thread_rng` of rand: the generator of the thread that calls. Nothing is
/// said of it.
#[verifier::external_body]
fn thread_generator() -> (generator: rand::rngs::ThreadRng) {
    rand::thread_rng()
}

/// `gen_range` of rand's `Rng`, on a half-open range of `u64`: a number that
/// is at least `low` and less than `high`. Which one is open. An empty range
/// makes it panic, so none is let in.
#[verifier::external_body]
fn random_in(generator: &mut rand::rngs::ThreadRng, low: u64, high: u64) -> (number: u64)
    requires
        low < high,
    ensures
        low <= number < high,
{
    generator.gen_range(low..high)
}

/// Picks an id at random and builds the frame with which a client of that id
/// asks to be let into the room `url`. Returns both.
pub fn introduce(url: &String) -> (chosen: (u64, Vec<u8>))
    ensures
        chosen.0 < u64::MAX,
        chosen.1@ == auth_frame(chosen.0, url@),
{
    let mut generator = thread_generator();
    let id = random_in(&mut generator, u64::MIN, u64::MAX);
    (id, auth_request(id, url))
}

/// Reads what the frame `bytes` tells a client.
pub fn read_event(bytes: &[u8]) -> (event: Option<OutboundEvent>)
    ensures
        event matches Some(e) ==> event_of(bytes@) == Some(e@),
        event is None ==> event_of(bytes@) is None,
{
    match Message::deserialize(bytes) {
        Err(_) => None,
        Ok(message) => match message.message_type {
            MessageType::UserLocation => match Location::deserialize(message.data.as_slice()) {
                Ok(location) => Some(OutboundEvent::LocationUpdate(location)),
                Err(_) => None,
            },
            MessageType::Spawn => match Spawn::deserialize(message.data.as_slice()) {
                Ok(spawn) => Some(OutboundEvent::SpawnEntity(spawn)),
                Err(_) => None,
            },
            MessageType::Despawn => match Despawn::deserialize(message.data.as_slice()) {
                Ok(despawn) => Some(OutboundEvent::DespawnEntity(despawn)),
                Err(_) => None,
            },
            _ => None,
        },
    }
}

/// The server reads a client's request to enter as it was meant.
pub proof fn lemma_auth_frame_read(id: u64, url: Seq<char>)
    requires
        encode_utf8(url).len() + 16 <= u64::MAX,
    ensures
        request_of(auth_frame(id, url)) == RequestView::Auth(AuthView { id, url }),
{
    let auth = AuthView { id, url };
    crate::wire::lemma_u64_round_trip(id, crate::wire::encode_text(url));
    crate::wire::lemma_u64_round_trip(encode_utf8(url).len() as u64, encode_utf8(url));
    assert(encode_auth(auth).len() == 16 + encode_utf8(url).len());
    lemma_auth_round_trip(auth);
    lemma_message_round_trip(
        MessageView { message_type: MessageType::Auth, data: encode_auth(auth) },
    );
}

/// The server reads a client's report of its position as it was meant.
pub proof fn lemma_location_frame_read(x: u32, y: u32)
    ensures
        request_of(location_frame(x, y)) == RequestView::MyLocation(
            Location { id: UNSET_ID, x, y },
        ),
{
    let location = Location { id: UNSET_ID, x, y };
    lemma_location_round_trip(location);
    lemma_location_length(location);
    lemma_message_round_trip(
        MessageView { message_type: MessageType::MyLocation, data: encode_location(location) },
    );
}

/// A `Location` takes sixteen bytes.
proof fn lemma_location_length(location: Location)
    ensures
        encode_location(location).len() == 16,
{
    crate::wire::lemma_u64_round_trip(location.id, Seq::empty());
    crate::wire::lemma_u32_round_trip(location.x, Seq::empty());
    crate::wire::lemma_u32_round_trip(location.y, Seq::empty());
}

/// The bytes that an event takes fit behind a 64-bit length.
pub open spec fn fits(event: EventView) -> bool {
    match event {
        EventView::SpawnEntity(spawn) => encode_utf8(spawn.icon).len() + 16 <= u64::MAX,
        _ => true,
    }
}

/// A client reads every event out of its frame as the server meant it.
pub proof fn lemma_event_frame_read(event: EventView)
    requires
        fits(event),
    ensures
        event_of(event_frame(event)) == Some(event),
{
    match event {
        EventView::LocationUpdate(location) => {
            lemma_location_round_trip(location);
            lemma_location_length(location);
            lemma_message_round_trip(
                MessageView {
                    message_type: MessageType::UserLocation,
                    data: encode_location(location),
                },
            );
        },
        EventView::SpawnEntity(spawn) => {
            crate::wire::lemma_u64_round_trip(spawn.id, crate::wire::encode_text(spawn.icon));
            crate::wire::lemma_u64_round_trip(
                encode_utf8(spawn.icon).len() as u64,
                encode_utf8(spawn.icon),
            );
            assert(encode_spawn(spawn).len() == 16 + encode_utf8(spawn.icon).len());
            lemma_spawn_round_trip(spawn);
            lemma_message_round_trip(
                MessageView { message_type: MessageType::Spawn, data: encode_spawn(spawn) },
            );
        },
        EventView::DespawnEntity(despawn) => {
            lemma_despawn_round_trip(despawn);
            crate::wire::lemma_u64_round_trip(despawn.id, Seq::empty());
            lemma_message_round_trip(
                MessageView { message_type: MessageType::Despawn, data: encode_despawn(despawn) },
            );
        },
    }
}

/// What a client asks for is what happens: its request to enter gives the
/// connection its name and lets it into the room, and its report of a position
/// goes to the whole room under the name of the connection.
pub proof fn lemma_requests_take_effect(
    rooms: Rooms,
    id: u64,
    url: Seq<char>,
    x: u32,
    y: u32,
)
    requires
        encode_utf8(url).len() + 16 <= u64::MAX,
    ensures
        next_state(SessionState::Unauthenticated, InboundView::Binary(auth_frame(id, url))) == (
        SessionState::Authenticated { id, url }),
        next_rooms(SessionState::Unauthenticated, rooms, InboundView::Binary(auth_frame(id, url)))
            == rooms_arrive(rooms, url, id),
        next_rooms(
            SessionState::Authenticated { id, url },
            rooms,
            InboundView::Binary(location_frame(x, y)),
        ) == rooms_broadcast(
            rooms,
            url,
            EventView::LocationUpdate(Location { id, x, y }),
            None,
        ),
{
    lemma_auth_frame_read(id, url);
    lemma_location_frame_read(x, y);
}

} // verus!
