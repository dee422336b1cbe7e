use multiplayer_web::client::{auth_request, introduce, location_request, read_event, UNSET_ID};
use multiplayer_web::event::OutboundEvent;
use multiplayer_web::message::{Auth, Despawn, Location, Message, MessageType, Spawn};

#[test]
fn the_auth_request_carries_id_and_url() {
    let frame = auth_request(123, &String::from("https://google.com/"));
    let message = Message::deserialize(&frame).unwrap();
    assert_eq!(message.message_type, MessageType::Auth);
    assert_eq!(
        Auth::deserialize(&message.data).unwrap(),
        Auth {
            id: 123,
            url: String::from("https://google.com/")
        }
    );
}

#[test]
fn the_location_request_carries_the_unset_id() {
    assert_eq!(UNSET_ID, 123);
    let frame = location_request(69.0f32.to_bits(), 420.0f32.to_bits());
    let mut expected: Vec<u8> = vec![2, 0, 0, 0, 16, 0, 0, 0, 0, 0, 0, 0];
    expected.extend_from_slice(&[123, 0, 0, 0, 0, 0, 0, 0]);
    expected.extend_from_slice(&[0x00, 0x00, 0x8A, 0x42, 0x00, 0x00, 0xD2, 0x43]);
    assert_eq!(frame, expected);
}

#[test]
fn introduce_picks_an_id_and_asks_with_it() {
    let room = String::from("https://example.org/");
    let mut seen: Vec<u64> = Vec::new();
    for _ in 0..16 {
        let (id, frame) = introduce(&room);
        assert!(id < u64::MAX);
        assert_eq!(frame, auth_request(id, &room));
        let message = Message::deserialize(&frame).unwrap();
        assert_eq!(Auth::deserialize(&message.data).unwrap().id, id);
        seen.push(id);
    }
    seen.sort();
    seen.dedup();
    assert!(seen.len() > 1);
}

#[test]
fn the_client_reads_what_the_server_sends() {
    let events = [
        OutboundEvent::LocationUpdate(Location {
            id: 7,
            x: 3.5f32.to_bits(),
            y: (-2.0f32).to_bits(),
        }),
        OutboundEvent::SpawnEntity(Spawn {
            id: 2,
            icon: String::from("a"),
        }),
        OutboundEvent::DespawnEntity(Despawn { id: 2 }),
    ];
    for event in events {
        assert_eq!(read_event(&event.to_frame()), Some(event));
    }
}

#[test]
fn the_client_drops_what_it_cannot_read() {
    assert_eq!(read_event(&[]), None);
    assert_eq!(read_event(&[1, 0, 0, 0]), None);
    assert_eq!(read_event(&auth_request(1, &String::from("a"))), None);
    assert_eq!(read_event(&location_request(1, 2)), None);
    let short = Message {
        message_type: MessageType::Spawn,
        data: vec![1, 0, 0, 0, 0, 0, 0, 0],
    };
    assert_eq!(read_event(&short.to_bytes()), None);
    let short = Message {
        message_type: MessageType::UserLocation,
        data: vec![0; 15],
    };
    assert_eq!(read_event(&short.to_bytes()), None);
    let short = Message {
        message_type: MessageType::Despawn,
        data: vec![0; 7],
    };
    assert_eq!(read_event(&short.to_bytes()), None);
}
