use multiplayer_web::client::{auth_request, location_request, read_event};
use multiplayer_web::event::OutboundEvent;
use multiplayer_web::message::{Auth, Despawn, Location, Message, MessageType, Spawn};
use multiplayer_web::presence::{arrive, depart, PLACEHOLDER_ICON};
use multiplayer_web::registry::{QueueHandle, Registry};
use multiplayer_web::session::{read_request, Inbound, Request, Session};

fn url(text: &str) -> String {
    String::from(text)
}

fn spawn(id: u64, icon: &str) -> OutboundEvent {
    OutboundEvent::SpawnEntity(Spawn {
        id,
        icon: String::from(icon),
    })
}

fn despawn(id: u64) -> OutboundEvent {
    OutboundEvent::DespawnEntity(Despawn { id })
}

fn location(id: u64, x: f32, y: f32) -> OutboundEvent {
    OutboundEvent::LocationUpdate(Location {
        id,
        x: x.to_bits(),
        y: y.to_bits(),
    })
}

fn handle(room: &str, id: u64) -> QueueHandle {
    QueueHandle { url: url(room), id }
}

fn connect(registry: &mut Registry, room: &str, id: u64) -> Session {
    let mut session = Session::new();
    session.handle(registry, &Inbound::Binary(auth_request(id, &url(room))));
    session
}

fn received(session: &Session, registry: &mut Registry) -> Vec<OutboundEvent> {
    session
        .flush(registry)
        .iter()
        .map(|frame| read_event(frame).unwrap())
        .collect()
}

#[test]
fn a_new_registry_has_no_room() {
    let mut registry = Registry::new();
    assert!(!registry.has_room(&url("a")));
    assert_eq!(registry.members(&url("a")), Vec::<u64>::new());
    assert_eq!(registry.drain(&handle("a", 1)), Vec::new());
    registry.leave(&url("a"), 1);
    registry.broadcast(&url("a"), &despawn(1), None);
    registry.send_to(&url("a"), 1, vec![despawn(2)]);
    assert!(!registry.has_room(&url("a")));
}

#[test]
fn join_makes_the_room_and_the_member() {
    let mut registry = Registry::new();
    let first = registry.join(&url("a"), 5);
    assert_eq!(first, handle("a", 5));
    assert!(registry.has_room(&url("a")));
    assert!(!registry.has_room(&url("b")));
    registry.join(&url("a"), 3);
    registry.join(&url("b"), 5);
    assert_eq!(registry.members(&url("a")), vec![5, 3]);
    assert_eq!(registry.members(&url("b")), vec![5]);
    assert_eq!(registry.drain(&first), Vec::new());
}

#[test]
fn join_again_gives_a_fresh_queue_and_no_second_entry() {
    let mut registry = Registry::new();
    registry.join(&url("a"), 1);
    registry.join(&url("a"), 2);
    registry.broadcast(&url("a"), &despawn(9), None);
    registry.join(&url("a"), 1);
    assert_eq!(registry.members(&url("a")), vec![2, 1]);
    assert_eq!(registry.drain(&handle("a", 1)), Vec::new());
    assert_eq!(registry.drain(&handle("a", 2)), vec![despawn(9)]);
}

#[test]
fn leave_takes_the_member_and_keeps_the_room() {
    let mut registry = Registry::new();
    registry.join(&url("a"), 1);
    registry.join(&url("a"), 2);
    registry.join(&url("a"), 3);
    registry.leave(&url("a"), 2);
    assert_eq!(registry.members(&url("a")), vec![1, 3]);
    registry.leave(&url("a"), 2);
    registry.leave(&url("b"), 1);
    assert_eq!(registry.members(&url("a")), vec![1, 3]);
    registry.leave(&url("a"), 1);
    registry.leave(&url("a"), 3);
    assert_eq!(registry.members(&url("a")), Vec::<u64>::new());
    assert!(registry.has_room(&url("a")));
    assert!(!registry.has_room(&url("b")));
}

#[test]
fn broadcast_reaches_all_but_the_excluded() {
    let mut registry = Registry::new();
    registry.join(&url("a"), 1);
    registry.join(&url("a"), 2);
    registry.join(&url("a"), 3);
    registry.join(&url("b"), 4);
    registry.broadcast(&url("a"), &despawn(7), Some(2));
    registry.broadcast(&url("a"), &spawn(8, "i"), None);
    registry.broadcast(&url("a"), &despawn(9), Some(99));
    assert_eq!(
        registry.drain(&handle("a", 1)),
        vec![despawn(7), spawn(8, "i"), despawn(9)]
    );
    assert_eq!(
        registry.drain(&handle("a", 2)),
        vec![spawn(8, "i"), despawn(9)]
    );
    assert_eq!(
        registry.drain(&handle("a", 3)),
        vec![despawn(7), spawn(8, "i"), despawn(9)]
    );
    assert_eq!(registry.drain(&handle("b", 4)), Vec::new());
}

#[test]
fn send_to_reaches_one_member_only() {
    let mut registry = Registry::new();
    registry.join(&url("a"), 1);
    registry.join(&url("a"), 2);
    registry.send_to(&url("a"), 2, vec![despawn(5), despawn(6)]);
    registry.send_to(&url("a"), 3, vec![despawn(7)]);
    registry.send_to(&url("a"), 2, vec![despawn(8)]);
    assert_eq!(registry.drain(&handle("a", 1)), Vec::new());
    assert_eq!(
        registry.drain(&handle("a", 2)),
        vec![despawn(5), despawn(6), despawn(8)]
    );
    assert_eq!(registry.members(&url("a")), vec![1, 2]);
}

#[test]
fn drain_empties_the_queue_in_order() {
    let mut registry = Registry::new();
    let own = registry.join(&url("a"), 1);
    for n in 0..5 {
        registry.broadcast(&url("a"), &despawn(n), None);
    }
    assert_eq!(
        registry.drain(&own),
        vec![despawn(0), despawn(1), despawn(2), despawn(3), despawn(4)]
    );
    assert_eq!(registry.drain(&own), Vec::new());
    registry.broadcast(&url("a"), &despawn(5), None);
    assert_eq!(registry.drain(&own), vec![despawn(5)]);
    assert_eq!(registry.members(&url("a")), vec![1]);
}

#[test]
fn arrive_tells_both_sides() {
    let mut registry = Registry::new();
    assert_eq!(arrive(&mut registry, &url("a"), 1), handle("a", 1));
    arrive(&mut registry, &url("a"), 2);
    arrive(&mut registry, &url("a"), 3);
    assert_eq!(PLACEHOLDER_ICON, "test");
    assert_eq!(
        registry.drain(&handle("a", 1)),
        vec![spawn(2, "a"), spawn(3, "a")]
    );
    assert_eq!(
        registry.drain(&handle("a", 2)),
        vec![spawn(1, "test"), spawn(3, "a")]
    );
    assert_eq!(
        registry.drain(&handle("a", 3)),
        vec![spawn(1, "test"), spawn(2, "test")]
    );
    depart(&mut registry, &handle("a", 2));
    assert_eq!(registry.members(&url("a")), vec![1, 3]);
    assert_eq!(registry.drain(&handle("a", 1)), vec![despawn(2)]);
    assert_eq!(registry.drain(&handle("a", 3)), vec![despawn(2)]);
    assert_eq!(registry.drain(&handle("a", 2)), Vec::new());
}

#[test]
fn each_newcomer_hears_of_those_before_it_and_they_of_it() {
    let mut registry = Registry::new();
    let room = "https://example.org/";
    let ids: Vec<u64> = vec![10, 4, 77, 1, 30, 8];
    let mut sessions: Vec<Session> = Vec::new();
    for k in 0..ids.len() {
        let newcomer = connect(&mut registry, room, ids[k]);
        let heard = received(&newcomer, &mut registry);
        let expected: Vec<OutboundEvent> = ids[..k].iter().map(|j| spawn(*j, "test")).collect();
        assert_eq!(heard.len(), k);
        assert_eq!(heard, expected);
        for earlier in sessions.iter() {
            assert_eq!(received(earlier, &mut registry), vec![spawn(ids[k], room)]);
        }
        sessions.push(newcomer);
    }
    assert_eq!(registry.members(&url(room)), ids);
}

#[test]
fn those_that_stay_hear_of_the_one_that_leaves() {
    let mut registry = Registry::new();
    let mut sessions: Vec<Session> = (1..=5).map(|id| connect(&mut registry, "a", id)).collect();
    let elsewhere = connect(&mut registry, "b", 3);
    let other = connect(&mut registry, "b", 9);
    for session in sessions.iter() {
        session.flush(&mut registry);
    }
    elsewhere.flush(&mut registry);
    other.flush(&mut registry);
    sessions[2].handle(&mut registry, &Inbound::Close);
    assert!(sessions[2].is_closed());
    assert_eq!(registry.members(&url("a")), vec![1, 2, 4, 5]);
    for (k, session) in sessions.iter().enumerate() {
        let heard = received(session, &mut registry);
        if k == 2 {
            assert_eq!(heard, Vec::new());
        } else {
            assert_eq!(heard, vec![despawn(3)]);
        }
    }
    assert_eq!(received(&elsewhere, &mut registry), Vec::new());
    assert_eq!(received(&other, &mut registry), Vec::new());
    assert_eq!(registry.members(&url("b")), vec![3, 9]);
}

#[test]
fn rooms_do_not_hear_each_other() {
    let mut registry = Registry::new();
    let mut a1 = connect(&mut registry, "a", 1);
    let b1 = connect(&mut registry, "b", 1);
    let b2 = connect(&mut registry, "b", 2);
    assert_eq!(received(&b1, &mut registry), vec![spawn(2, "b")]);
    assert_eq!(received(&b2, &mut registry), vec![spawn(1, "test")]);
    let mut a2 = connect(&mut registry, "a", 2);
    a1.handle(
        &mut registry,
        &Inbound::Binary(location_request(1.0f32.to_bits(), 2.0f32.to_bits())),
    );
    a2.handle(&mut registry, &Inbound::Close);
    assert_eq!(received(&b1, &mut registry), Vec::new());
    assert_eq!(received(&b2, &mut registry), Vec::new());
    assert_eq!(registry.members(&url("b")), vec![1, 2]);
    assert_eq!(
        received(&a1, &mut registry),
        vec![spawn(2, "a"), location(1, 1.0, 2.0), despawn(2)]
    );
}

#[test]
fn a_position_reaches_the_whole_room_under_the_senders_id() {
    let mut registry = Registry::new();
    let mut seven = connect(&mut registry, "a", 7);
    let eight = connect(&mut registry, "a", 8);
    let nine = connect(&mut registry, "a", 9);
    for session in [&seven, &eight, &nine] {
        session.flush(&mut registry);
    }
    let frame = location_request(3.5f32.to_bits(), (-2.0f32).to_bits());
    seven.handle(&mut registry, &Inbound::Binary(frame));
    let expected = Message {
        message_type: MessageType::UserLocation,
        data: Location {
            id: 7,
            x: 3.5f32.to_bits(),
            y: (-2.0f32).to_bits(),
        }
        .to_bytes(),
    }
    .to_bytes();
    for session in [&seven, &eight, &nine] {
        let frames = session.flush(&mut registry);
        assert_eq!(frames, vec![expected.clone()]);
        let message = Message::deserialize(&frames[0]).unwrap();
        assert_eq!(message.message_type, MessageType::UserLocation);
        let read = Location::deserialize(&message.data).unwrap();
        assert_eq!(read.id, 7);
        assert_eq!(f32::from_bits(read.x), 3.5);
        assert_eq!(f32::from_bits(read.y), -2.0);
    }
}

#[test]
fn the_id_in_a_position_is_not_trusted() {
    let mut registry = Registry::new();
    let mut session = connect(&mut registry, "a", 7);
    let forged = Message {
        message_type: MessageType::MyLocation,
        data: Location {
            id: 8,
            x: 1,
            y: 2,
        }
        .to_bytes(),
    };
    session.handle(&mut registry, &Inbound::Binary(forged.to_bytes()));
    assert_eq!(
        received(&session, &mut registry),
        vec![OutboundEvent::LocationUpdate(Location { id: 7, x: 1, y: 2 })]
    );
}

#[test]
fn a_second_auth_changes_nothing() {
    let mut registry = Registry::new();
    let watcher = connect(&mut registry, "a", 1);
    let bystander = connect(&mut registry, "b", 5);
    let mut session = connect(&mut registry, "a", 2);
    assert_eq!(received(&watcher, &mut registry), vec![spawn(2, "a")]);
    assert_eq!(received(&session, &mut registry), vec![spawn(1, "test")]);
    session.handle(&mut registry, &Inbound::Binary(auth_request(2, &url("a"))));
    session.handle(&mut registry, &Inbound::Binary(auth_request(3, &url("a"))));
    session.handle(&mut registry, &Inbound::Binary(auth_request(2, &url("b"))));
    assert_eq!(session.identity(), Some(handle("a", 2)));
    assert_eq!(registry.members(&url("a")), vec![1, 2]);
    assert_eq!(registry.members(&url("b")), vec![5]);
    assert_eq!(received(&watcher, &mut registry), Vec::new());
    assert_eq!(received(&session, &mut registry), Vec::new());
    assert_eq!(received(&bystander, &mut registry), Vec::new());
}

#[test]
fn two_clients_meet_and_one_leaves() {
    let mut registry = Registry::new();
    let c1 = connect(&mut registry, "a", 1);
    let mut c2 = connect(&mut registry, "a", 2);
    assert_eq!(received(&c1, &mut registry), vec![spawn(2, "a")]);
    assert_eq!(received(&c2, &mut registry), vec![spawn(1, "test")]);
    c2.handle(&mut registry, &Inbound::Close);
    assert_eq!(received(&c1, &mut registry), vec![despawn(2)]);
    c2.handle(
        &mut registry,
        &Inbound::Binary(location_request(1, 1)),
    );
    c2.handle(&mut registry, &Inbound::Binary(auth_request(2, &url("a"))));
    c2.handle(&mut registry, &Inbound::Close);
    assert_eq!(received(&c1, &mut registry), Vec::new());
    assert_eq!(received(&c2, &mut registry), Vec::new());
    assert_eq!(registry.members(&url("a")), vec![1]);
}

#[test]
fn a_connection_without_a_name_does_nothing() {
    let mut registry = Registry::new();
    let watcher = connect(&mut registry, "a", 1);
    let mut session = Session::new();
    assert_eq!(session.identity(), None);
    assert!(!session.is_closed());
    session.handle(&mut registry, &Inbound::Binary(location_request(1, 2)));
    session.handle(&mut registry, &Inbound::Other);
    for kind in [
        MessageType::UserLocation,
        MessageType::Spawn,
        MessageType::Despawn,
    ] {
        let frame = Message {
            message_type: kind,
            data: spawn(1, "x").to_frame(),
        };
        session.handle(&mut registry, &Inbound::Binary(frame.to_bytes()));
    }
    session.handle(&mut registry, &Inbound::Binary(vec![1, 2, 3]));
    session.handle(&mut registry, &Inbound::Binary(Vec::new()));
    assert_eq!(session.identity(), None);
    assert_eq!(session.flush(&mut registry), Vec::<Vec<u8>>::new());
    session.handle(&mut registry, &Inbound::Close);
    assert!(session.is_closed());
    assert_eq!(registry.members(&url("a")), vec![1]);
    assert_eq!(received(&watcher, &mut registry), Vec::new());
    session.handle(&mut registry, &Inbound::Binary(auth_request(2, &url("a"))));
    assert_eq!(session.identity(), None);
    assert!(session.is_closed());
    assert_eq!(registry.members(&url("a")), vec![1]);
}

#[test]
fn an_auth_that_cannot_be_read_is_dropped() {
    let mut registry = Registry::new();
    let mut session = Session::new();
    let whole = Auth {
        id: 1,
        url: url("a"),
    }
    .to_bytes();
    let broken = Message {
        message_type: MessageType::Auth,
        data: whole[..whole.len() - 1].to_vec(),
    };
    session.handle(&mut registry, &Inbound::Binary(broken.to_bytes()));
    assert_eq!(session.identity(), None);
    assert!(!registry.has_room(&url("a")));
    session.handle(&mut registry, &Inbound::Binary(auth_request(1, &url("a"))));
    assert_eq!(session.identity(), Some(handle("a", 1)));
    assert_eq!(registry.members(&url("a")), vec![1]);
}

#[test]
fn frames_sent_by_the_server_are_ignored_when_they_come_in() {
    let mut registry = Registry::new();
    let mut session = connect(&mut registry, "a", 1);
    let watcher = connect(&mut registry, "a", 2);
    session.flush(&mut registry);
    watcher.flush(&mut registry);
    for event in [location(5, 1.0, 1.0), spawn(5, "x"), despawn(2)] {
        session.handle(&mut registry, &Inbound::Binary(event.to_frame()));
    }
    session.handle(&mut registry, &Inbound::Other);
    let short = Message {
        message_type: MessageType::MyLocation,
        data: vec![0; 15],
    };
    session.handle(&mut registry, &Inbound::Binary(short.to_bytes()));
    assert_eq!(registry.members(&url("a")), vec![1, 2]);
    assert_eq!(received(&session, &mut registry), Vec::new());
    assert_eq!(received(&watcher, &mut registry), Vec::new());
}

#[test]
fn flush_writes_each_event_as_its_frame_in_order() {
    let mut registry = Registry::new();
    let session = connect(&mut registry, "a", 1);
    let events = vec![location(2, 0.5, -0.5), spawn(3, "a"), despawn(3)];
    for event in events.iter() {
        registry.broadcast(&url("a"), event, None);
    }
    let frames = session.flush(&mut registry);
    let expected: Vec<Vec<u8>> = events.iter().map(|event| event.to_frame()).collect();
    assert_eq!(frames, expected);
    assert_eq!(
        frames[1],
        Message {
            message_type: MessageType::Spawn,
            data: Spawn {
                id: 3,
                icon: url("a")
            }
            .to_bytes()
        }
        .to_bytes()
    );
    assert_eq!(session.flush(&mut registry), Vec::<Vec<u8>>::new());
}

#[test]
fn a_request_is_read_out_of_its_frame() {
    assert_eq!(
        read_request(&auth_request(5, &url("a"))),
        Request::Auth(Auth {
            id: 5,
            url: url("a")
        })
    );
    assert_eq!(
        read_request(&location_request(3, 4)),
        Request::MyLocation(Location {
            id: 123,
            x: 3,
            y: 4
        })
    );
    assert_eq!(read_request(&despawn(1).to_frame()), Request::Nothing);
    assert_eq!(read_request(&[]), Request::Nothing);
    assert_eq!(read_request(&[9, 0, 0, 0, 0, 0, 0, 0, 0, 0, 0, 0]), Request::Nothing);
}

#[test]
fn an_event_is_a_copy_of_itself() {
    for event in [location(1, 1.5, 2.5), spawn(2, "icon"), despawn(3)] {
        assert_eq!(event.duplicate(), event);
    }
}
