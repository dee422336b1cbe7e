//! One connection, from the moment the socket is accepted until it closes.
//!
//! A connection starts without a name. The first `Auth` frame that can be read
//! gives it an id and a room, for good: a later one changes nothing. From then
//! on each `MyLocation` frame is passed on to the whole room, the sender
//! included, under the sender's own id, whatever id the frame carried. When
//! the socket closes, the connection leaves its room and the others are told.
//! Every other frame, and every frame that cannot be read, is dropped without
//! an answer.

use crate::event::{event_frame, events_view, EventView, OutboundEvent};
use crate::message::{
    decode_auth, decode_location, decode_message, Auth, AuthView, Location, Message, MessageType,
};
use crate::presence::{arrive, depart, lemma_presence_valid, rooms_arrive, rooms_depart};
use crate::registry::{
    has_member, ids_of, lemma_delivered_queue, lemma_delivered_valid, lemma_drained_queue,
    lemma_drained_valid, members_of, queue_in, rooms_broadcast, rooms_drain, rooms_valid,
    QueueHandle, Registry, Rooms,
};
use vstd::prelude::*;

verus! {

/// What the socket hands to its connection.
#[derive(Clone, Debug, PartialEq, Eq)]
pub enum Inbound {
    /// A binary frame.
    Binary(Vec<u8>),
    /// The socket has closed, or has failed.
    Close,
    /// Anything else, a text frame for one.
    Other,
}

/// What an `Inbound` holds.
pub enum InboundView {
    Binary(Seq<u8>),
    Close,
    Other,
}

impl View for Inbound {
    type V = InboundView;

    open spec fn view(&self) -> InboundView {
        match *self {
            Inbound::Binary(bytes) => InboundView::Binary(bytes@),
            Inbound::Close => InboundView::Close,
            Inbound::Other => InboundView::Other,
        }
    }
}

/// What a frame asks of the server.
#[derive(Clone, Debug, PartialEq, Eq)]
pub enum Request {
    /// To be let into a room.
    Auth(Auth),
    /// To pass a position on to the room.
    MyLocation(Location),
    /// Nothing: the frame cannot be read, or is of a kind that only the
    /// server sends.
    Nothing,
}

/// What a `Request` holds.
pub enum RequestView {
    Auth(AuthView),
    MyLocation(Location),
    Nothing,
}

impl View for Request {
    type V = RequestView;

    open spec fn view(&self) -> RequestView {
        match *self {
            Request::Auth(auth) => RequestView::Auth(auth@),
            Request::MyLocation(location) => RequestView::MyLocation(location),
            Request::Nothing => RequestView::Nothing,
        }
    }
}

/// What the frame `bytes` asks of the server.
pub open spec fn request_of(bytes: Seq<u8>) -> RequestView {
    match decode_message(bytes) {
        Err(_) => RequestView::Nothing,
        Ok(message) => match message.message_type {
            MessageType::Auth => match decode_auth(message.data) {
                Ok(auth) => RequestView::Auth(auth),
                Err(_) => RequestView::Nothing,
            },
            MessageType::MyLocation => match decode_location(message.data) {
                Ok(location) => RequestView::MyLocation(location),
                Err(_) => RequestView::Nothing,
            },
            _ => RequestView::Nothing,
        },
    }
}

/// Reads what the frame `bytes` asks of the server.
pub fn read_request(bytes: &[u8]) -> (request: Request)
    ensures
        request@ == request_of(bytes@),
{
    match Message::deserialize(bytes) {
        Err(_) => Request::Nothing,
        Ok(message) => match message.message_type {
            MessageType::Auth => match Auth::deserialize(message.data.as_slice()) {
                Ok(auth) => Request::Auth(auth),
                Err(_) => Request::Nothing,
            },
            MessageType::MyLocation => match Location::deserialize(message.data.as_slice()) {
                Ok(location) => Request::MyLocation(location),
                Err(_) => Request::Nothing,
            },
            _ => Request::Nothing,
        },
    }
}

/// Where a connection stands.
pub enum SessionState {
    /// No `Auth` frame has been read yet.
    Unauthenticated,
    /// The connection is the member `id` of the room `url`.
    Authenticated { id: u64, url: Seq<char> },
    /// The socket has closed.
    Closed,
}

/// The position that the member `id` reports with `location`.
pub open spec fn location_of(id: u64, location: Location) -> EventView {
    EventView::LocationUpdate(Location { id, x: location.x, y: location.y })
}

/// Where a connection stands after `inbound`.
pub open spec fn next_state(state: SessionState, inbound: InboundView) -> SessionState {
    match (state, inbound) {
        (SessionState::Closed, _) => SessionState::Closed,
        (_, InboundView::Close) => SessionState::Closed,
        (SessionState::Unauthenticated, InboundView::Binary(bytes)) => match request_of(bytes) {
            RequestView::Auth(auth) => SessionState::Authenticated { id: auth.id, url: auth.url },
            _ => SessionState::Unauthenticated,
        },
        _ => state,
    }
}

/// The rooms after a connection that stood at `state` was handed `inbound`.
pub open spec fn next_rooms(state: SessionState, rooms: Rooms, inbound: InboundView) -> Rooms {
    match (state, inbound) {
        (SessionState::Unauthenticated, InboundView::Binary(bytes)) => match request_of(bytes) {
            RequestView::Auth(auth) => rooms_arrive(rooms, auth.url, auth.id),
            _ => rooms,
        },
        (SessionState::Authenticated { id, url }, InboundView::Binary(bytes)) => match request_of(
            bytes,
        ) {
            RequestView::MyLocation(location) => rooms_broadcast(
                rooms,
                url,
                location_of(id, location),
                None,
            ),
            _ => rooms,
        },
        (SessionState::Authenticated { id, url }, InboundView::Close) => rooms_depart(
            rooms,
            url,
            id,
        ),
        _ => rooms,
    }
}

/// The events that wait for a connection that stands at `state`.
pub open spec fn waiting(state: SessionState, rooms: Rooms) -> Seq<EventView> {
    match state {
        SessionState::Authenticated { id, url } => queue_in(members_of(rooms, url), id),
        _ => Seq::empty(),
    }
}

/// The rooms after all that waited for a connection at `state` was taken.
pub open spec fn flushed(state: SessionState, rooms: Rooms) -> Rooms {
    match state {
        SessionState::Authenticated { id, url } => rooms_drain(rooms, url, id),
        _ => rooms,
    }
}

/// The frames that carry `events`, one for each, in their order.
pub open spec fn frames_of(events: Seq<EventView>) -> Seq<Seq<u8>> {
    events.map_values(|event: EventView| event_frame(event))
}

/// What a sequence of frames holds.
pub open spec fn frames_view(frames: Seq<Vec<u8>>) -> Seq<Seq<u8>> {
    frames.map_values(|frame: Vec<u8>| frame@)
}

/// One connection.
pub struct Session {
    queue: Option<QueueHandle>,
    closed: bool,
}

impl View for Session {
    type V = SessionState;

    closed spec fn view(&self) -> SessionState {
        if self.closed {
            SessionState::Closed
        } else {
            match self.queue {
                Some(handle) => SessionState::Authenticated { id: handle.id, url: handle.url@ },
                None => SessionState::Unauthenticated,
            }
        }
    }
}

impl Session {
    /// The connection of a socket that was just accepted.
    pub fn new() -> (session: Session)
        ensures
            session@ == SessionState::Unauthenticated,
    {
        Session { queue: None, closed: false }
    }

    /// The room and the id of this connection, while it has them.
    pub fn identity(&self) -> (who: Option<QueueHandle>)
        ensures
            match self@ {
                SessionState::Authenticated { id, url } => who matches Some(handle) && handle.id
                    == id && handle.url@ == url,
                _ => who is None,
            },
    {
        if self.closed {
            return None;
        }
        match &self.queue {
            Some(handle) => Some(QueueHandle { url: handle.url.clone(), id: handle.id }),
            None => None,
        }
    }

    /// Whether the socket of this connection has closed.
    pub fn is_closed(&self) -> (closed: bool)
        ensures
            closed == (self@ is Closed),
    {
        self.closed
    }

    /// Takes what the socket hands over, and does to the rooms what it asks.
    pub fn handle(&mut self, registry: &mut Registry, inbound: &Inbound)
        requires
            old(registry).wf(),
        ensures
            final(registry).wf(),
            final(self)@ == next_state(old(self)@, inbound@),
            final(registry)@ == next_rooms(old(self)@, old(registry)@, inbound@),
    {
        if self.closed {
            return ;
        }
        match inbound {
            Inbound::Other => {},
            Inbound::Close => {
                match &self.queue {
                    Some(handle) => {
                        depart(registry, handle);
                    },
                    None => {},
                }
                self.closed = true;
            },
            Inbound::Binary(bytes) => {
                match read_request(bytes.as_slice()) {
                    Request::Nothing => {},
                    Request::Auth(auth) => {
                        if self.queue.is_none() {
                            let handle = arrive(registry, &auth.url, auth.id);
                            self.queue = Some(handle);
                        }
                    },
                    Request::MyLocation(location) => {
                        match &self.queue {
                            Some(handle) => {
                                let event = OutboundEvent::LocationUpdate(
                                    Location { id: handle.id, x: location.x, y: location.y },
                                );
                                registry.broadcast(&handle.url, &event, None);
                            },
                            None => {},
                        }
                    },
                }
            },
        }
    }

    /// Takes the events that wait for this connection and returns the frames
    /// to write to its socket, oldest first.
    pub fn flush(&self, registry: &mut Registry) -> (frames: Vec<Vec<u8>>)
        requires
            old(registry).wf(),
        ensures
            final(registry).wf(),
            frames@.len() == waiting(self@, old(registry)@).len(),
            frames_view(frames@) == frames_of(waiting(self@, old(registry)@)),
            final(registry)@ == flushed(self@, old(registry)@),
    {
        let mut frames: Vec<Vec<u8>> = Vec::new();
        if self.closed {
            assert(frames_view(frames@) =~= frames_of(Seq::empty()));
            return frames;
        }
        match &self.queue {
            None => {
                assert(frames_view(frames@) =~= frames_of(Seq::empty()));
            },
            Some(handle) => {
                let events = registry.drain(handle);
                let mut k: usize = 0;
                while k < events.len()
                    invariant
                        k <= events.len(),
                        frames@.len() == k,
                        forall|i: int|
                            0 <= i < k ==> (#[trigger] frames@[i])@ == event_frame(events@[i]@),
                    decreases events.len() - k,
                {
                    frames.push(events[k].to_frame());
                    k += 1;
                }
                assert(frames_view(frames@) =~= frames_of(events_view(events@)));
            },
        }
        frames
    }
}

/// The room in which a connection that stands at `state` acts when it is
/// handed `inbound`, if it acts at all.
pub open spec fn acts_in(state: SessionState, inbound: InboundView) -> Option<Seq<char>> {
    match (state, inbound) {
        (SessionState::Authenticated { id, url }, _) => Some(url),
        (SessionState::Unauthenticated, InboundView::Binary(bytes)) => match request_of(bytes) {
            RequestView::Auth(auth) => Some(auth.url),
            _ => None,
        },
        _ => None,
    }
}

/// Whatever a connection is handed, no room but the one it acts in changes:
/// none comes or goes, none gains or loses a member, and what waits for the
/// members of another room is what waited before.
pub proof fn lemma_rooms_apart(
    state: SessionState,
    rooms: Rooms,
    inbound: InboundView,
    elsewhere: Seq<char>,
)
    requires
        acts_in(state, inbound) != Some(elsewhere),
    ensures
        next_rooms(state, rooms, inbound).contains_key(elsewhere) == rooms.contains_key(elsewhere),
        members_of(next_rooms(state, rooms, inbound), elsewhere) == members_of(rooms, elsewhere),
        forall|watcher: u64|
            waiting(
                SessionState::Authenticated { id: watcher, url: elsewhere },
                next_rooms(state, rooms, inbound),
            ) == waiting(SessionState::Authenticated { id: watcher, url: elsewhere }, rooms),
{
}

/// Writing out what waits for one connection takes nothing from another:
/// not from a member of another room, and not from another member of the same
/// room.
pub proof fn lemma_flush_apart(state: SessionState, rooms: Rooms, url: Seq<char>, id: u64)
    requires
        rooms_valid(rooms),
        state != (SessionState::Authenticated { id, url }),
    ensures
        waiting(SessionState::Authenticated { id, url }, flushed(state, rooms)) == waiting(
            SessionState::Authenticated { id, url },
            rooms,
        ),
{
    match state {
        SessionState::Authenticated { id: own, url: room } => {
            if room == url && rooms.contains_key(url) {
                lemma_drained_queue(rooms[url], own, id);
            }
        },
        _ => {},
    }
}

/// A position that a member reports reaches every member of its room, the
/// sender included: it is the last of what waits for each of them, under the
/// sender's id, whatever id the frame carried.
pub proof fn lemma_location_reaches_all(
    rooms: Rooms,
    id: u64,
    url: Seq<char>,
    bytes: Seq<u8>,
    member: u64,
)
    requires
        rooms_valid(rooms),
        request_of(bytes) is MyLocation,
        has_member(members_of(rooms, url), member),
    ensures
        has_member(
            members_of(
                next_rooms(SessionState::Authenticated { id, url }, rooms, InboundView::Binary(bytes)),
                url,
            ),
            member,
        ),
        waiting(
            SessionState::Authenticated { id: member, url },
            next_rooms(SessionState::Authenticated { id, url }, rooms, InboundView::Binary(bytes)),
        ) == waiting(SessionState::Authenticated { id: member, url }, rooms).push(
            location_of(id, request_of(bytes)->MyLocation_0),
        ),
{
    let event = location_of(id, request_of(bytes)->MyLocation_0);
    lemma_delivered_queue(rooms[url], event, None, member);
}

/// A connection authenticates once: an `Auth` frame that reaches a connection
/// which has a name already changes neither that name nor any room.
pub proof fn lemma_auth_only_once(id: u64, url: Seq<char>, rooms: Rooms, bytes: Seq<u8>)
    requires
        request_of(bytes) is Auth,
    ensures
        next_state(SessionState::Authenticated { id, url }, InboundView::Binary(bytes)) == (
        SessionState::Authenticated { id, url }),
        next_rooms(SessionState::Authenticated { id, url }, rooms, InboundView::Binary(bytes))
            == rooms,
{
}

/// There is no way back: a closed connection stays closed and touches no
/// room, and a connection that has a name keeps it until it closes.
pub proof fn lemma_no_way_back(state: SessionState, rooms: Rooms, inbound: InboundView)
    ensures
        state is Closed ==> next_state(state, inbound) is Closed && next_rooms(
            state,
            rooms,
            inbound,
        ) == rooms,
        state is Authenticated ==> next_state(state, inbound) == state || next_state(
            state,
            inbound,
        ) is Closed,
        inbound is Close ==> next_state(state, inbound) is Closed,
{
}

/// Whatever a connection is handed, and whenever what waits for it is
/// written out, every room keeps one member for an id.
pub proof fn lemma_rooms_stay_valid(state: SessionState, rooms: Rooms, inbound: InboundView)
    requires
        rooms_valid(rooms),
    ensures
        rooms_valid(next_rooms(state, rooms, inbound)),
        rooms_valid(flushed(state, rooms)),
{
    match state {
        SessionState::Authenticated { id, url } => {
            lemma_presence_valid(rooms, url, id);
            if rooms.contains_key(url) {
                lemma_drained_valid(rooms[url], id);
                match inbound {
                    InboundView::Binary(bytes) => match request_of(bytes) {
                        RequestView::MyLocation(location) => {
                            lemma_delivered_valid(rooms[url], location_of(id, location), None);
                        },
                        _ => {},
                    },
                    _ => {},
                }
            }
        },
        SessionState::Unauthenticated => match inbound {
            InboundView::Binary(bytes) => match request_of(bytes) {
                RequestView::Auth(auth) => {
                    lemma_presence_valid(rooms, auth.url, auth.id);
                },
                _ => {},
            },
            _ => {},
        },
        SessionState::Closed => {},
    }
}

/// A room, once made, stays, with or without members.
pub proof fn lemma_rooms_stay(
    state: SessionState,
    rooms: Rooms,
    inbound: InboundView,
    url: Seq<char>,
)
    requires
        rooms.contains_key(url),
    ensures
        next_rooms(state, rooms, inbound).contains_key(url),
        flushed(state, rooms).contains_key(url),
{
}

/// Members come with the first `Auth` frame of a connection and go when its
/// socket closes, and at no other time.
pub proof fn lemma_members_stay(
    state: SessionState,
    rooms: Rooms,
    inbound: InboundView,
    url: Seq<char>,
)
    requires
        rooms_valid(rooms),
        !(state is Authenticated && inbound is Close),
        !(state is Unauthenticated && inbound is Binary && request_of(inbound->Binary_0) is Auth),
    ensures
        ids_of(members_of(next_rooms(state, rooms, inbound), url)) == ids_of(
            members_of(rooms, url),
        ),
        ids_of(members_of(flushed(state, rooms), url)) == ids_of(members_of(rooms, url)),
{
    match state {
        SessionState::Authenticated { id, url: own } => {
            if rooms.contains_key(own) {
                lemma_drained_valid(rooms[own], id);
                match inbound {
                    InboundView::Binary(bytes) => match request_of(bytes) {
                        RequestView::MyLocation(location) => {
                            lemma_delivered_valid(rooms[own], location_of(id, location), None);
                        },
                        _ => {},
                    },
                    _ => {},
                }
            }
        },
        _ => {},
    }
}

} // verus!
