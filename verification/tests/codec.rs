use multiplayer_web::message::{Auth, Despawn, Location, Message, MessageType, Spawn, UserLocation};
use multiplayer_web::wire::CodecError;

#[test]
fn auth_deserialize() {
    let auth = Auth {
        id: 123,
        url: String::from("https://google.com/"),
    };

    let message = Message {
        message_type: MessageType::Auth,
        data: auth.serialize().unwrap(),
    };

    let bytes: Vec<u8> = message.serialize().unwrap();

    let decoded_message: Message = Message::deserialize(&bytes).unwrap();

    assert_eq!(message, decoded_message);

    let decoded_auth: Auth = Auth::deserialize(&decoded_message.data).unwrap();

    assert_eq!(auth, decoded_auth);
}

#[test]
fn my_location_deserialize() {
    let my_location = Location {
        id: 123,
        x: 69.0f32.to_bits(),
        y: 420.0f32.to_bits(),
    };

    let message = Message {
        message_type: MessageType::Auth,
        data: my_location.serialize().unwrap(),
    };

    let bytes: Vec<u8> = message.serialize().unwrap();

    let decoded_message: Message = Message::deserialize(&bytes).unwrap();

    assert_eq!(message, decoded_message);

    let decoded_my_location: Location = Location::deserialize(&decoded_message.data).unwrap();

    assert_eq!(my_location, decoded_my_location);
    assert_eq!(f32::from_bits(decoded_my_location.x), 69.0);
    assert_eq!(f32::from_bits(decoded_my_location.y), 420.0);
}

#[test]
fn user_locations_deserialize() {
    let external_locations = UserLocation {
        location: Location {
            id: 123,
            x: 69.0f32.to_bits(),
            y: 420.0f32.to_bits(),
        },
    };

    let message = Message {
        message_type: MessageType::Auth,
        data: external_locations.serialize().unwrap(),
    };

    let bytes: Vec<u8> = message.serialize().unwrap();

    let decoded_message: Message = Message::deserialize(&bytes).unwrap();

    assert_eq!(message, decoded_message);

    let decoded_external_locations: UserLocation =
        UserLocation::deserialize(&decoded_message.data).unwrap();

    assert_eq!(external_locations, decoded_external_locations);
}

#[test]
fn auth_bytes_are_id_then_length_then_text() {
    let auth = Auth {
        id: 123,
        url: String::from("https://google.com/"),
    };
    let mut expected: Vec<u8> = vec![123, 0, 0, 0, 0, 0, 0, 0, 19, 0, 0, 0, 0, 0, 0, 0];
    expected.extend_from_slice(b"https://google.com/");
    assert_eq!(auth.serialize().unwrap(), expected);
    assert_eq!(auth.to_bytes(), expected);
}

#[test]
fn message_bytes_are_ordinal_then_length_then_payload() {
    let message = Message {
        message_type: MessageType::Spawn,
        data: vec![9, 8, 7],
    };
    assert_eq!(
        message.serialize().unwrap(),
        vec![3, 0, 0, 0, 3, 0, 0, 0, 0, 0, 0, 0, 9, 8, 7]
    );
}

#[test]
fn every_kind_has_its_ordinal() {
    let kinds = [
        (MessageType::Auth, 0u8),
        (MessageType::UserLocation, 1),
        (MessageType::MyLocation, 2),
        (MessageType::Spawn, 3),
        (MessageType::Despawn, 4),
    ];
    for (kind, ordinal) in kinds {
        assert_eq!(kind.to_ordinal(), ordinal as u32);
        assert_eq!(MessageType::of_ordinal(ordinal as u32), Some(kind));
        let bytes = Message {
            message_type: kind,
            data: Vec::new(),
        }
        .serialize()
        .unwrap();
        assert_eq!(bytes, vec![ordinal, 0, 0, 0, 0, 0, 0, 0, 0, 0, 0, 0]);
        assert_eq!(Message::deserialize(&bytes).unwrap().message_type, kind);
    }
    assert_eq!(MessageType::of_ordinal(5), None);
}

#[test]
fn location_bytes_are_little_endian() {
    let location = Location {
        id: 0x0102_0304_0506_0708,
        x: 69.0f32.to_bits(),
        y: 420.0f32.to_bits(),
    };
    assert_eq!(
        location.serialize().unwrap(),
        vec![8, 7, 6, 5, 4, 3, 2, 1, 0x00, 0x00, 0x8A, 0x42, 0x00, 0x00, 0xD2, 0x43]
    );
    let user_location = UserLocation { location };
    assert_eq!(
        user_location.serialize().unwrap(),
        location.serialize().unwrap()
    );
}

#[test]
fn spawn_and_despawn_bytes() {
    let spawn = Spawn {
        id: 2,
        icon: String::from("a"),
    };
    assert_eq!(
        spawn.serialize().unwrap(),
        vec![2, 0, 0, 0, 0, 0, 0, 0, 1, 0, 0, 0, 0, 0, 0, 0, b'a']
    );
    assert_eq!(Spawn::deserialize(&spawn.to_bytes()).unwrap(), spawn);
    let despawn = Despawn { id: u64::MAX };
    assert_eq!(despawn.serialize().unwrap(), vec![0xFF; 8]);
    assert_eq!(Despawn::deserialize(&[0xFF; 8]).unwrap(), despawn);
}

#[test]
fn bytes_agree_with_bincode() {
    let url = String::from("https://example.org/p\u{e4}ge?\u{1F600}");
    let auth = Auth {
        id: 0xDEAD_BEEF_0000_0001,
        url: url.clone(),
    };
    assert_eq!(
        auth.to_bytes(),
        bincode::serialize(&(auth.id, url.clone())).unwrap()
    );
    let spawn = Spawn {
        id: 77,
        icon: url.clone(),
    };
    assert_eq!(
        spawn.to_bytes(),
        bincode::serialize(&(77u64, url.clone())).unwrap()
    );
    let location = Location {
        id: 123,
        x: 3.5f32.to_bits(),
        y: (-2.0f32).to_bits(),
    };
    assert_eq!(
        location.to_bytes(),
        bincode::serialize(&(123u64, 3.5f32, -2.0f32)).unwrap()
    );
    assert_eq!(
        Despawn { id: 5 }.to_bytes(),
        bincode::serialize(&5u64).unwrap()
    );
    let message = Message {
        message_type: MessageType::MyLocation,
        data: location.to_bytes(),
    };
    assert_eq!(
        message.to_bytes(),
        bincode::serialize(&(2u32, location.to_bytes())).unwrap()
    );
}

#[test]
fn bincode_reads_what_was_written() {
    let auth = Auth {
        id: 42,
        url: String::from("r\u{f6}\u{f6}m"),
    };
    let read: (u64, String) = bincode::deserialize(&auth.to_bytes()).unwrap();
    assert_eq!(read, (42, String::from("r\u{f6}\u{f6}m")));
    let written = bincode::serialize(&(9u64, String::from("icon"))).unwrap();
    assert_eq!(
        Spawn::deserialize(&written).unwrap(),
        Spawn {
            id: 9,
            icon: String::from("icon")
        }
    );
    let written = bincode::serialize(&(4u32, vec![1u8, 2, 3])).unwrap();
    assert_eq!(
        Message::deserialize(&written).unwrap(),
        Message {
            message_type: MessageType::Despawn,
            data: vec![1, 2, 3]
        }
    );
}

#[test]
fn every_kind_round_trips() {
    let auth = Auth {
        id: u64::MAX,
        url: String::new(),
    };
    assert_eq!(Auth::deserialize(&auth.serialize().unwrap()).unwrap(), auth);
    let location = Location {
        id: 0,
        x: u32::MAX,
        y: 0,
    };
    assert_eq!(
        Location::deserialize(&location.serialize().unwrap()).unwrap(),
        location
    );
    let user_location = UserLocation { location };
    assert_eq!(
        UserLocation::deserialize(&user_location.serialize().unwrap()).unwrap(),
        user_location
    );
    let spawn = Spawn {
        id: 1,
        icon: String::from("\u{4e16}\u{754c}"),
    };
    assert_eq!(
        Spawn::deserialize(&spawn.serialize().unwrap()).unwrap(),
        spawn
    );
    let despawn = Despawn { id: 1 << 63 };
    assert_eq!(
        Despawn::deserialize(&despawn.serialize().unwrap()).unwrap(),
        despawn
    );
    for kind in [
        MessageType::Auth,
        MessageType::UserLocation,
        MessageType::MyLocation,
        MessageType::Spawn,
        MessageType::Despawn,
    ] {
        let message = Message {
            message_type: kind,
            data: vec![0, 255, 1, 254],
        };
        assert_eq!(
            Message::deserialize(&message.serialize().unwrap()).unwrap(),
            message
        );
    }
}

#[test]
fn truncated_bytes_are_an_error() {
    let auth = Auth {
        id: 123,
        url: String::from("https://google.com/"),
    };
    let message = Message {
        message_type: MessageType::Auth,
        data: auth.to_bytes(),
    };
    let bytes = message.to_bytes();
    for cut in 0..bytes.len() {
        assert_eq!(
            Message::deserialize(&bytes[..cut]),
            Err(CodecError::UnexpectedEnd)
        );
    }
    let payload = auth.to_bytes();
    for cut in 0..payload.len() {
        assert_eq!(
            Auth::deserialize(&payload[..cut]),
            Err(CodecError::UnexpectedEnd)
        );
        assert_eq!(
            Spawn::deserialize(&payload[..cut]),
            Err(CodecError::UnexpectedEnd)
        );
    }
    for cut in 0..16 {
        assert_eq!(
            Location::deserialize(&[0u8; 16][..cut]),
            Err(CodecError::UnexpectedEnd)
        );
        assert_eq!(
            UserLocation::deserialize(&[0u8; 16][..cut]),
            Err(CodecError::UnexpectedEnd)
        );
    }
    for cut in 0..8 {
        assert_eq!(
            Despawn::deserialize(&[0u8; 8][..cut]),
            Err(CodecError::UnexpectedEnd)
        );
    }
}

#[test]
fn a_length_beyond_the_bytes_is_an_error() {
    let mut bytes: Vec<u8> = vec![0, 0, 0, 0];
    bytes.extend_from_slice(&[0xFF; 8]);
    bytes.extend_from_slice(&[1, 2, 3]);
    assert_eq!(
        Message::deserialize(&bytes),
        Err(CodecError::UnexpectedEnd)
    );
    let mut bytes: Vec<u8> = vec![1, 0, 0, 0, 0, 0, 0, 0];
    bytes.extend_from_slice(&[4, 0, 0, 0, 0, 0, 0, 0]);
    bytes.extend_from_slice(b"abc");
    assert_eq!(Auth::deserialize(&bytes), Err(CodecError::UnexpectedEnd));
}

#[test]
fn an_unknown_kind_is_an_error() {
    let bytes: Vec<u8> = vec![5, 0, 0, 0, 0, 0, 0, 0, 0, 0, 0, 0];
    assert_eq!(Message::deserialize(&bytes), Err(CodecError::UnknownKind));
    let bytes: Vec<u8> = vec![0, 1, 0, 0, 0, 0, 0, 0, 0, 0, 0, 0];
    assert_eq!(Message::deserialize(&bytes), Err(CodecError::UnknownKind));
    let bytes: Vec<u8> = vec![255, 255, 255, 255];
    assert_eq!(Message::deserialize(&bytes), Err(CodecError::UnknownKind));
}

#[test]
fn text_that_is_not_utf8_is_an_error() {
    let mut bytes: Vec<u8> = vec![1, 0, 0, 0, 0, 0, 0, 0, 2, 0, 0, 0, 0, 0, 0, 0];
    bytes.extend_from_slice(&[0xC3, 0x28]);
    assert_eq!(Auth::deserialize(&bytes), Err(CodecError::InvalidUtf8));
    assert_eq!(Spawn::deserialize(&bytes), Err(CodecError::InvalidUtf8));
    let mut bytes: Vec<u8> = vec![1, 0, 0, 0, 0, 0, 0, 0, 1, 0, 0, 0, 0, 0, 0, 0];
    bytes.push(0xFF);
    assert_eq!(Auth::deserialize(&bytes), Err(CodecError::InvalidUtf8));
}

#[test]
fn what_follows_a_record_is_not_looked_at() {
    let despawn = Despawn { id: 6 };
    let mut bytes = despawn.to_bytes();
    bytes.extend_from_slice(&[1, 2, 3]);
    assert_eq!(Despawn::deserialize(&bytes).unwrap(), despawn);
    let message = Message {
        message_type: MessageType::Despawn,
        data: despawn.to_bytes(),
    };
    let mut bytes = message.to_bytes();
    bytes.push(0);
    assert_eq!(Message::deserialize(&bytes).unwrap(), message);
    assert_eq!(
        bincode::deserialize::<(u32, Vec<u8>)>(&bytes).unwrap(),
        (4, despawn.to_bytes())
    );
}
