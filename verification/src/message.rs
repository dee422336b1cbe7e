//! The records that travel between browser and server, and their byte layout.
//!
//! A record is its fields one after the other, in the order in which they are
//! declared. An integer is little-endian. A string or a byte sequence follows
//! its own length in bytes, written as a 64-bit integer. A frame is the kind of
//! the record it carries, as a 32-bit ordinal, and then the record's bytes as a
//! byte sequence. Whatever follows a complete record is not looked at.

use crate::wire::{
    decode_text, encode_text, get_prefixed, get_text, get_u32, get_u64, lemma_prefixed_round_trip,
    lemma_text_round_trip, lemma_u32_round_trip, lemma_u64_round_trip, length_prefixed,
    put_prefixed, put_u32, put_u64, take_prefixed, u32_from_le, u32_le, u64_from_le, u64_le,
    CodecError,
};
use vstd::prelude::*;
use vstd::utf8::encode_utf8;

verus! {

/// What a frame carries.
#[derive(Clone, Copy, Debug, PartialEq, Eq, Structural)]
pub enum MessageType {
    Auth,
    UserLocation,
    MyLocation,
    Spawn,
    Despawn,
}

impl MessageType {
    /// The number that stands for the kind on the wire.
    pub open spec fn ordinal(self) -> u32 {
        match self {
            MessageType::Auth => 0,
            MessageType::UserLocation => 1,
            MessageType::MyLocation => 2,
            MessageType::Spawn => 3,
            MessageType::Despawn => 4,
        }
    }

    /// The kind that `ordinal` stands for, if any.
    pub open spec fn from_ordinal(ordinal: u32) -> Option<MessageType> {
        if ordinal == 0 {
            Some(MessageType::Auth)
        } else if ordinal == 1 {
            Some(MessageType::UserLocation)
        } else if ordinal == 2 {
            Some(MessageType::MyLocation)
        } else if ordinal == 3 {
            Some(MessageType::Spawn)
        } else if ordinal == 4 {
            Some(MessageType::Despawn)
        } else {
            None
        }
    }

    /// The number that stands for the kind on the wire.
    pub fn to_ordinal(self) -> (ordinal: u32)
        ensures
            ordinal == self.ordinal(),
    {
        match self {
            MessageType::Auth => 0,
            MessageType::UserLocation => 1,
            MessageType::MyLocation => 2,
            MessageType::Spawn => 3,
            MessageType::Despawn => 4,
        }
    }

    /// The kind that `ordinal` stands for, if any.
    pub fn of_ordinal(ordinal: u32) -> (kind: Option<MessageType>)
        ensures
            kind == MessageType::from_ordinal(ordinal),
    {
        if ordinal == 0 {
            Some(MessageType::Auth)
        } else if ordinal == 1 {
            Some(MessageType::UserLocation)
        } else if ordinal == 2 {
            Some(MessageType::MyLocation)
        } else if ordinal == 3 {
            Some(MessageType::Spawn)
        } else if ordinal == 4 {
            Some(MessageType::Despawn)
        } else {
            None
        }
    }
}

/// A frame: the kind of a record, and the record's bytes.
#[derive(Clone, Debug, PartialEq, Eq)]
pub struct Message {
    pub message_type: MessageType,
    pub data: Vec<u8>,
}

/// What a `Message` holds.
pub struct MessageView {
    pub message_type: MessageType,
    pub data: Seq<u8>,
}

impl View for Message {
    type V = MessageView;

    open spec fn view(&self) -> MessageView {
        MessageView { message_type: self.message_type, data: self.data@ }
    }
}

/// The bytes of a frame: the kind's ordinal, then the payload behind its length.
pub open spec fn encode_message(message: MessageView) -> Seq<u8> {
    u32_le(message.message_type.ordinal()) + length_prefixed(message.data)
}

/// The frame that `bytes` starts with.
pub open spec fn decode_message(bytes: Seq<u8>) -> Result<MessageView, CodecError> {
    if bytes.len() < 4 {
        Err(CodecError::UnexpectedEnd)
    } else {
        match MessageType::from_ordinal(u32_from_le(bytes)) {
            None => Err(CodecError::UnknownKind),
            Some(kind) => match take_prefixed(bytes.skip(4)) {
                Err(e) => Err(e),
                Ok(data) => Ok(MessageView { message_type: kind, data }),
            },
        }
    }
}

impl Message {
    /// The bytes of this frame.
    pub fn to_bytes(&self) -> (bytes: Vec<u8>)
        ensures
            bytes@ == encode_message(self@),
    {
        let mut out: Vec<u8> = Vec::new();
        put_u32(&mut out, self.message_type.to_ordinal());
        put_prefixed(&mut out, self.data.as_slice());
        assert(out@ =~= encode_message(self@));
        out
    }

    /// The bytes of this frame. Never fails.
    pub fn serialize(&self) -> (r: Result<Vec<u8>, CodecError>)
        ensures
            r matches Ok(bytes) && bytes@ == encode_message(self@),
    {
        Ok(self.to_bytes())
    }

    /// The frame that `bytes` starts with, or why there is none.
    pub fn deserialize(bytes: &[u8]) -> (r: Result<Message, CodecError>)
        ensures
            r matches Ok(message) ==> decode_message(bytes@) == Ok::<MessageView, CodecError>(
                message@,
            ),
            r matches Err(e) ==> decode_message(bytes@) == Err::<MessageView, CodecError>(e),
    {
        if bytes.len() < 4 {
            return Err(CodecError::UnexpectedEnd);
        }
        assert(bytes@.skip(0) =~= bytes@);
        match MessageType::of_ordinal(get_u32(bytes, 0)) {
            None => Err(CodecError::UnknownKind),
            Some(message_type) => match get_prefixed(bytes, 4) {
                Err(e) => Err(e),
                Ok(data) => Ok(Message { message_type, data }),
            },
        }
    }
}

/// The first record of a connection: who the client is and which page it looks at.
#[derive(Clone, Debug, PartialEq, Eq)]
pub struct Auth {
    pub id: u64,
    pub url: String,
}

/// What an `Auth` holds.
pub struct AuthView {
    pub id: u64,
    pub url: Seq<char>,
}

impl View for Auth {
    type V = AuthView;

    open spec fn view(&self) -> AuthView {
        AuthView { id: self.id, url: self.url@ }
    }
}

/// The bytes of an `Auth`.
pub open spec fn encode_auth(auth: AuthView) -> Seq<u8> {
    u64_le(auth.id) + encode_text(auth.url)
}

/// The `Auth` that `bytes` starts with.
pub open spec fn decode_auth(bytes: Seq<u8>) -> Result<AuthView, CodecError> {
    if bytes.len() < 8 {
        Err(CodecError::UnexpectedEnd)
    } else {
        match decode_text(bytes.skip(8)) {
            Err(e) => Err(e),
            Ok(url) => Ok(AuthView { id: u64_from_le(bytes), url }),
        }
    }
}

impl Auth {
    /// The bytes of this record.
    pub fn to_bytes(&self) -> (bytes: Vec<u8>)
        ensures
            bytes@ == encode_auth(self@),
    {
        let mut out: Vec<u8> = Vec::new();
        put_u64(&mut out, self.id);
        put_prefixed(&mut out, self.url.as_str().as_bytes());
        assert(out@ =~= encode_auth(self@));
        out
    }

    /// The bytes of this record. Never fails.
    pub fn serialize(&self) -> (r: Result<Vec<u8>, CodecError>)
        ensures
            r matches Ok(bytes) && bytes@ == encode_auth(self@),
    {
        Ok(self.to_bytes())
    }

    /// The record that `bytes` starts with, or why there is none.
    pub fn deserialize(bytes: &[u8]) -> (r: Result<Auth, CodecError>)
        ensures
            r matches Ok(auth) ==> decode_auth(bytes@) == Ok::<AuthView, CodecError>(auth@),
            r matches Err(e) ==> decode_auth(bytes@) == Err::<AuthView, CodecError>(e),
    {
        if bytes.len() < 8 {
            return Err(CodecError::UnexpectedEnd);
        }
        assert(bytes@.skip(0) =~= bytes@);
        let id = get_u64(bytes, 0);
        match get_text(bytes, 8) {
            Err(e) => Err(e),
            Ok(url) => Ok(Auth { id, url }),
        }
    }
}

/// Where a cursor is. `x` and `y` hold the bits of two single-precision
/// numbers, which is how they travel.
#[derive(Clone, Copy, Debug, PartialEq, Eq, Structural)]
pub struct Location {
    pub id: u64,
    pub x: u32,
    pub y: u32,
}

/// The bytes of a `Location`.
pub open spec fn encode_location(location: Location) -> Seq<u8> {
    u64_le(location.id) + u32_le(location.x) + u32_le(location.y)
}

/// The `Location` that `bytes` starts with.
pub open spec fn decode_location(bytes: Seq<u8>) -> Result<Location, CodecError> {
    if bytes.len() < 16 {
        Err(CodecError::UnexpectedEnd)
    } else {
        Ok(
            Location {
                id: u64_from_le(bytes),
                x: u32_from_le(bytes.skip(8)),
                y: u32_from_le(bytes.skip(12)),
            },
        )
    }
}

impl Location {
    /// The bytes of this record.
    pub fn to_bytes(&self) -> (bytes: Vec<u8>)
        ensures
            bytes@ == encode_location(*self),
    {
        let mut out: Vec<u8> = Vec::new();
        put_u64(&mut out, self.id);
        put_u32(&mut out, self.x);
        put_u32(&mut out, self.y);
        assert(out@ =~= encode_location(*self));
        out
    }

    /// The bytes of this record. Never fails.
    pub fn serialize(&self) -> (r: Result<Vec<u8>, CodecError>)
        ensures
            r matches Ok(bytes) && bytes@ == encode_location(*self),
    {
        Ok(self.to_bytes())
    }

    /// The record that `bytes` starts with, or why there is none.
    pub fn deserialize(bytes: &[u8]) -> (r: Result<Location, CodecError>)
        ensures
            r == decode_location(bytes@),
    {
        if bytes.len() < 16 {
            return Err(CodecError::UnexpectedEnd);
        }
        assert(bytes@.skip(0) =~= bytes@);
        Ok(Location { id: get_u64(bytes, 0), x: get_u32(bytes, 8), y: get_u32(bytes, 12) })
    }
}

/// The position of another member of the room. It travels as the `Location`
/// it holds.
#[derive(Clone, Copy, Debug, PartialEq, Eq, Structural)]
pub struct UserLocation {
    pub location: Location,
}

/// The bytes of a `UserLocation`.
pub open spec fn encode_user_location(user_location: UserLocation) -> Seq<u8> {
    encode_location(user_location.location)
}

/// The `UserLocation` that `bytes` starts with.
pub open spec fn decode_user_location(bytes: Seq<u8>) -> Result<UserLocation, CodecError> {
    match decode_location(bytes) {
        Err(e) => Err(e),
        Ok(location) => Ok(UserLocation { location }),
    }
}

impl UserLocation {
    /// The bytes of this record.
    pub fn to_bytes(&self) -> (bytes: Vec<u8>)
        ensures
            bytes@ == encode_user_location(*self),
    {
        self.location.to_bytes()
    }

    /// The bytes of this record. Never fails.
    pub fn serialize(&self) -> (r: Result<Vec<u8>, CodecError>)
        ensures
            r matches Ok(bytes) && bytes@ == encode_user_location(*self),
    {
        Ok(self.to_bytes())
    }

    /// The record that `bytes` starts with, or why there is none.
    pub fn deserialize(bytes: &[u8]) -> (r: Result<UserLocation, CodecError>)
        ensures
            r == decode_user_location(bytes@),
    {
        match Location::deserialize(bytes) {
            Err(e) => Err(e),
            Ok(location) => Ok(UserLocation { location }),
        }
    }
}

/// A member has entered the room.
#[derive(Clone, Debug, PartialEq, Eq)]
pub struct Spawn {
    pub id: u64,
    pub icon: String,
}

/// What a `Spawn` holds.
pub struct SpawnView {
    pub id: u64,
    pub icon: Seq<char>,
}

impl View for Spawn {
    type V = SpawnView;

    open spec fn view(&self) -> SpawnView {
        SpawnView { id: self.id, icon: self.icon@ }
    }
}

/// The bytes of a `Spawn`.
pub open spec fn encode_spawn(spawn: SpawnView) -> Seq<u8> {
    u64_le(spawn.id) + encode_text(spawn.icon)
}

/// The `Spawn` that `bytes` starts with.
pub open spec fn decode_spawn(bytes: Seq<u8>) -> Result<SpawnView, CodecError> {
    if bytes.len() < 8 {
        Err(CodecError::UnexpectedEnd)
    } else {
        match decode_text(bytes.skip(8)) {
            Err(e) => Err(e),
            Ok(icon) => Ok(SpawnView { id: u64_from_le(bytes), icon }),
        }
    }
}

impl Spawn {
    /// The bytes of this record.
    pub fn to_bytes(&self) -> (bytes: Vec<u8>)
        ensures
            bytes@ == encode_spawn(self@),
    {
        let mut out: Vec<u8> = Vec::new();
        put_u64(&mut out, self.id);
        put_prefixed(&mut out, self.icon.as_str().as_bytes());
        assert(out@ =~= encode_spawn(self@));
        out
    }

    /// The bytes of this record. Never fails.
    pub fn serialize(&self) -> (r: Result<Vec<u8>, CodecError>)
        ensures
            r matches Ok(bytes) && bytes@ == encode_spawn(self@),
    {
        Ok(self.to_bytes())
    }

    /// The record that `bytes` starts with, or why there is none.
    pub fn deserialize(bytes: &[u8]) -> (r: Result<Spawn, CodecError>)
        ensures
            r matches Ok(spawn) ==> decode_spawn(bytes@) == Ok::<SpawnView, CodecError>(spawn@),
            r matches Err(e) ==> decode_spawn(bytes@) == Err::<SpawnView, CodecError>(e),
    {
        if bytes.len() < 8 {
            return Err(CodecError::UnexpectedEnd);
        }
        assert(bytes@.skip(0) =~= bytes@);
        let id = get_u64(bytes, 0);
        match get_text(bytes, 8) {
            Err(e) => Err(e),
            Ok(icon) => Ok(Spawn { id, icon }),
        }
    }
}

/// A member has left the room.
#[derive(Clone, Copy, Debug, PartialEq, Eq, Structural)]
pub struct Despawn {
    pub id: u64,
}

/// The bytes of a `Despawn`.
pub open spec fn encode_despawn(despawn: Despawn) -> Seq<u8> {
    u64_le(despawn.id)
}

/// The `Despawn` that `bytes` starts with.
pub open spec fn decode_despawn(bytes: Seq<u8>) -> Result<Despawn, CodecError> {
    if bytes.len() < 8 {
        Err(CodecError::UnexpectedEnd)
    } else {
        Ok(Despawn { id: u64_from_le(bytes) })
    }
}

impl Despawn {
    /// The bytes of this record.
    pub fn to_bytes(&self) -> (bytes: Vec<u8>)
        ensures
            bytes@ == encode_despawn(*self),
    {
        let mut out: Vec<u8> = Vec::new();
        put_u64(&mut out, self.id);
        assert(out@ =~= encode_despawn(*self));
        out
    }

    /// The bytes of this record. Never fails.
    pub fn serialize(&self) -> (r: Result<Vec<u8>, CodecError>)
        ensures
            r matches Ok(bytes) && bytes@ == encode_despawn(*self),
    {
        Ok(self.to_bytes())
    }

    /// The record that `bytes` starts with, or why there is none.
    pub fn deserialize(bytes: &[u8]) -> (r: Result<Despawn, CodecError>)
        ensures
            r == decode_despawn(bytes@),
    {
        if bytes.len() < 8 {
            return Err(CodecError::UnexpectedEnd);
        }
        assert(bytes@.skip(0) =~= bytes@);
        Ok(Despawn { id: get_u64(bytes, 0) })
    }
}

/// A frame that was written is read back as it was.
pub proof fn lemma_message_round_trip(message: MessageView)
    requires
        message.data.len() <= u64::MAX,
    ensures
        decode_message(encode_message(message)) == Ok::<MessageView, CodecError>(message),
{
    let payload = length_prefixed(message.data);
    lemma_u32_round_trip(message.message_type.ordinal(), payload);
    lemma_prefixed_round_trip(message.data, Seq::empty());
    assert(payload + Seq::<u8>::empty() =~= payload);
}

/// An `Auth` that was written is read back as it was.
pub proof fn lemma_auth_round_trip(auth: AuthView)
    requires
        encode_utf8(auth.url).len() <= u64::MAX,
    ensures
        decode_auth(encode_auth(auth)) == Ok::<AuthView, CodecError>(auth),
{
    let text = encode_text(auth.url);
    lemma_u64_round_trip(auth.id, text);
    lemma_text_round_trip(auth.url, Seq::empty());
    assert(text + Seq::<u8>::empty() =~= text);
}

/// A `Location` that was written is read back as it was.
pub proof fn lemma_location_round_trip(location: Location)
    ensures
        decode_location(encode_location(location)) == Ok::<Location, CodecError>(location),
{
    let tail = u32_le(location.x) + u32_le(location.y);
    let all = encode_location(location);
    assert(all =~= u64_le(location.id) + tail);
    lemma_u64_round_trip(location.id, tail);
    lemma_u32_round_trip(location.x, u32_le(location.y));
    lemma_u32_round_trip(location.y, Seq::empty());
    assert(all.skip(8) =~= tail);
    assert(all.skip(12) =~= tail.skip(4));
    assert(u32_le(location.y) + Seq::<u8>::empty() =~= u32_le(location.y));
}

/// A `UserLocation` that was written is read back as it was.
pub proof fn lemma_user_location_round_trip(user_location: UserLocation)
    ensures
        decode_user_location(encode_user_location(user_location)) == Ok::<
            UserLocation,
            CodecError,
        >(user_location),
{
    lemma_location_round_trip(user_location.location);
}

/// A `Spawn` that was written is read back as it was.
pub proof fn lemma_spawn_round_trip(spawn: SpawnView)
    requires
        encode_utf8(spawn.icon).len() <= u64::MAX,
    ensures
        decode_spawn(encode_spawn(spawn)) == Ok::<SpawnView, CodecError>(spawn),
{
    let text = encode_text(spawn.icon);
    lemma_u64_round_trip(spawn.id, text);
    lemma_text_round_trip(spawn.icon, Seq::empty());
    assert(text + Seq::<u8>::empty() =~= text);
}

/// A `Despawn` that was written is read back as it was.
pub proof fn lemma_despawn_round_trip(despawn: Despawn)
    ensures
        decode_despawn(encode_despawn(despawn)) == Ok::<Despawn, CodecError>(despawn),
{
    lemma_u64_round_trip(despawn.id, Seq::empty());
    assert(u64_le(despawn.id) + Seq::<u8>::empty() =~= u64_le(despawn.id));
}

} // verus!
