//! What the members of a room hear of each other's coming and going.
//!
//! When a client enters a room, every member that was there is told of it,
//! with the URL that the newcomer reported as its icon, and the newcomer is
//! told of every member that was there. No icon of a member is kept, so the
//! newcomer is shown the same fixed one for each. When a client goes, every
//! member that stays is told of it.

use crate::message::{Despawn, Spawn, SpawnView};
use crate::event::{events_view, EventView, OutboundEvent};
use crate::registry::{
    delivered, distinct_ids, entered, has_member, ids_of, lemma_delivered_valid,
    lemma_entered_valid, lemma_queue_in_at, lemma_without_absent, lemma_without_valid, members_of,
    queue_in, rooms_valid, sent_to, without, MemberView, QueueHandle, Registry, Rooms,
};
use vstd::prelude::*;

verus! {

/// The icon under which a newcomer is shown the members it finds.
pub const PLACEHOLDER_ICON: &'static str = "test";

/// The news that `id` has entered, with `icon` to show for it.
pub open spec fn spawn_of(id: u64, icon: Seq<char>) -> EventView {
    EventView::SpawnEntity(SpawnView { id, icon })
}

/// The news that `id` has left.
pub open spec fn despawn_of(id: u64) -> EventView {
    EventView::DespawnEntity(Despawn { id })
}

/// What a newcomer is told of the members `ids` that it finds: one event for
/// each, in their order.
pub open spec fn greetings(ids: Seq<u64>) -> Seq<EventView> {
    ids.map_values(|id: u64| spawn_of(id, PLACEHOLDER_ICON@))
}

/// `members` after `id` has entered with the URL `url`: each of the others
/// has one more event waiting, the news of `id`; `id` stands last, and what
/// waits for it is the news of each of the others.
pub open spec fn arrived(members: Seq<MemberView>, id: u64, url: Seq<char>) -> Seq<MemberView> {
    let peers = without(members, id);
    delivered(peers, spawn_of(id, url), None).push(
        MemberView { id, queue: greetings(ids_of(peers)) },
    )
}

/// The rooms after `id` has entered the room `url`.
pub open spec fn rooms_arrive(rooms: Rooms, url: Seq<char>, id: u64) -> Rooms {
    rooms.insert(url, arrived(members_of(rooms, url), id, url))
}

/// `members` after `id` has left: it is gone, and each of the others has one
/// more event waiting, the news of that.
pub open spec fn departed(members: Seq<MemberView>, id: u64) -> Seq<MemberView> {
    delivered(without(members, id), despawn_of(id), None)
}

/// The rooms after `id` has left the room `url`.
pub open spec fn rooms_depart(rooms: Rooms, url: Seq<char>, id: u64) -> Rooms {
    if rooms.contains_key(url) {
        rooms.insert(url, departed(rooms[url], id))
    } else {
        rooms
    }
}

/// Lets `id` into the room `url` and spreads the news.
pub fn arrive(registry: &mut Registry, url: &String, id: u64) -> (handle: QueueHandle)
    requires
        old(registry).wf(),
    ensures
        final(registry).wf(),
        final(registry)@ == rooms_arrive(old(registry)@, url@, id),
        handle.url@ == url@,
        handle.id == id,
{
    let ghost before = members_of(registry@, url@);
    let ghost peers = without(before, id);
    let ghost news = spawn_of(id, url@);
    proof {
        lemma_without_valid(before, id);
    }
    let handle = registry.join(url, id);
    let snapshot = registry.members(url);
    assert(snapshot@ =~= ids_of(peers).push(id));
    let event = OutboundEvent::SpawnEntity(Spawn { id, icon: url.clone() });
    registry.broadcast(url, &event, Some(id));
    let mut told: Vec<OutboundEvent> = Vec::new();
    let mut k: usize = 0;
    while k < snapshot.len()
        invariant
            k <= snapshot.len(),
            snapshot@ == ids_of(peers).push(id),
            !has_member(peers, id),
            events_view(told@) == greetings(
                ids_of(peers).take(if k < peers.len() { k as int } else { peers.len() as int }),
            ),
        decreases snapshot.len() - k,
    {
        let peer = snapshot[k];
        if peer != id {
            assert(k < peers.len());
            let ghost so_far = told@;
            let greeting = OutboundEvent::SpawnEntity(
                Spawn { id: peer, icon: PLACEHOLDER_ICON.to_owned() },
            );
            told.push(greeting);
            assert(events_view(told@) =~= events_view(so_far).push(greeting@));
            assert(ids_of(peers).take(k + 1) =~= ids_of(peers).take(k as int).push(peer));
            assert(events_view(told@) =~= greetings(ids_of(peers).take(k + 1)));
        } else {
            assert(k == peers.len()) by {
                if k < peers.len() {
                    assert(peers[k as int].id == id);
                }
            }
        }
        k += 1;
    }
    assert(ids_of(peers).take(peers.len() as int) =~= ids_of(peers));
    let ghost joined = entered(before, id);
    let ghost heard = delivered(joined, news, Some(id));
    proof {
        lemma_entered_valid(before, id);
        lemma_delivered_valid(joined, news, Some(id));
        assert forall|i: int| 0 <= i < peers.len() implies (#[trigger] peers[i]).id != id by {}
        assert(sent_to(heard, id, events_view(told@)) =~= arrived(before, id, url@));
    }
    registry.send_to(url, id, told);
    assert(registry@ =~= rooms_arrive(old(registry)@, url@, id));
    handle
}

/// Takes `handle` out of its room and spreads the news among those that stay.
pub fn depart(registry: &mut Registry, handle: &QueueHandle)
    requires
        old(registry).wf(),
    ensures
        final(registry).wf(),
        final(registry)@ == rooms_depart(old(registry)@, handle.url@, handle.id),
{
    registry.leave(&handle.url, handle.id);
    let event = OutboundEvent::DespawnEntity(Despawn { id: handle.id });
    registry.broadcast(&handle.url, &event, None);
    assert(registry@ =~= rooms_depart(old(registry)@, handle.url@, handle.id));
}

/// What the members of a room are told when `ids` enter it with the URL
/// `url`: one event for each, in their order.
pub open spec fn arrivals(ids: Seq<u64>, url: Seq<char>) -> Seq<EventView> {
    ids.map_values(|id: u64| spawn_of(id, url))
}

/// The members of the room `url` after `ids` have entered it one after the
/// other, when it had no member before.
pub open spec fn arrived_all(ids: Seq<u64>, url: Seq<char>) -> Seq<MemberView>
    decreases ids.len(),
{
    if ids.len() == 0 {
        Seq::empty()
    } else {
        arrived(arrived_all(ids.drop_last(), url), ids.last(), url)
    }
}

/// The rooms after `ids` have entered the room `url` one after the other.
pub open spec fn rooms_arrive_all(rooms: Rooms, url: Seq<char>, ids: Seq<u64>) -> Rooms
    decreases ids.len(),
{
    if ids.len() == 0 {
        rooms
    } else {
        rooms_arrive(rooms_arrive_all(rooms, url, ids.drop_last()), url, ids.last())
    }
}

/// When a client enters a room in which it is not yet, each member that was
/// there is told of it once, and of nothing else; the newcomer is told of each
/// of them once, in their order, and of nothing else.
pub proof fn lemma_arrival_fan_out(members: Seq<MemberView>, id: u64, url: Seq<char>)
    requires
        distinct_ids(members),
        !has_member(members, id),
    ensures
        distinct_ids(arrived(members, id, url)),
        arrived(members, id, url).len() == members.len() + 1,
        arrived(members, id, url).last().id == id,
        arrived(members, id, url).last().queue == greetings(ids_of(members)),
        arrived(members, id, url).last().queue.len() == members.len(),
        forall|i: int|
            0 <= i < members.len() ==> (#[trigger] arrived(members, id, url)[i]).id
                == members[i].id && arrived(members, id, url)[i].queue == members[i].queue.push(
                spawn_of(id, url),
            ),
{
    lemma_without_absent(members, id);
    let after = arrived(members, id, url);
    assert forall|i: int, j: int| 0 <= i < j < after.len() implies (#[trigger] after[i]).id != (
    #[trigger] after[j]).id by {
        if j < members.len() {
            assert(members[i].id != members[j].id);
        } else {
            assert(members[i].id != id);
        }
    }
}

/// When clients with different ids enter an empty room one after the other,
/// then in the end what waits for each of them is: the news of each of those
/// that were there before it, in their order, and then the news of each of
/// those that came after it, in their order.
pub proof fn lemma_arrivals_in_sequence(ids: Seq<u64>, url: Seq<char>)
    requires
        ids.no_duplicates(),
    ensures
        arrived_all(ids, url).len() == ids.len(),
        distinct_ids(arrived_all(ids, url)),
        ids_of(arrived_all(ids, url)) == ids,
        forall|k: int|
            0 <= k < ids.len() ==> (#[trigger] arrived_all(ids, url)[k]).queue == greetings(
                ids.take(k),
            ) + arrivals(ids.skip(k + 1), url),
    decreases ids.len(),
{
    let room = arrived_all(ids, url);
    if ids.len() == 0 {
        assert(ids_of(room) =~= ids);
    } else {
        let front = ids.drop_last();
        let last = ids.last();
        let before = arrived_all(front, url);
        lemma_arrivals_in_sequence(front, url);
        assert(!has_member(before, last)) by {
            if has_member(before, last) {
                let i = choose|i: int| 0 <= i < before.len() && (#[trigger] before[i]).id == last;
                assert(ids_of(before)[i] == last);
                assert(ids[i] == ids[ids.len() - 1]);
            }
        }
        lemma_arrival_fan_out(before, last, url);
        assert(ids_of(room) =~= ids) by {
            assert forall|k: int| 0 <= k < ids.len() implies ids_of(room)[k] == ids[k] by {
                if k < front.len() {
                    assert(ids_of(before)[k] == front[k]);
                }
            }
        }
        assert forall|k: int| 0 <= k < ids.len() implies (#[trigger] room[k]).queue == greetings(
            ids.take(k),
        ) + arrivals(ids.skip(k + 1), url) by {
            if k < front.len() {
                assert(before[k].queue == greetings(front.take(k)) + arrivals(
                    front.skip(k + 1),
                    url,
                ));
                assert(front.take(k) =~= ids.take(k));
                assert(ids.skip(k + 1) =~= front.skip(k + 1).push(last));
                assert(room[k].queue =~= greetings(ids.take(k)) + arrivals(ids.skip(k + 1), url));
            } else {
                assert(ids.take(k) =~= ids_of(before));
                assert(room[k].queue =~= greetings(ids.take(k)) + arrivals(ids.skip(k + 1), url));
            }
        }
    }
}

/// The same of the rooms: when clients with different ids enter a room
/// without members one after the other, the room holds them as
/// `arrived_all` says, and every other room is as it was.
pub proof fn lemma_rooms_arrive_all(rooms: Rooms, url: Seq<char>, ids: Seq<u64>)
    requires
        members_of(rooms, url).len() == 0,
        ids.no_duplicates(),
        ids.len() > 0,
    ensures
        rooms_arrive_all(rooms, url, ids) == rooms.insert(url, arrived_all(ids, url)),
    decreases ids.len(),
{
    let front = ids.drop_last();
    let before = rooms_arrive_all(rooms, url, front);
    if front.len() == 0 {
        assert(members_of(rooms, url) =~= arrived_all(front, url));
    } else {
        lemma_rooms_arrive_all(rooms, url, front);
    }
    assert(rooms_arrive(before, url, ids.last()) =~= rooms.insert(url, arrived_all(ids, url)));
}

/// When a member leaves its room, it is gone from it, each member that stays
/// is told of it once and of nothing else, and every other room is as it was.
pub proof fn lemma_departure_fan_out(rooms: Rooms, url: Seq<char>, id: u64)
    requires
        rooms_valid(rooms),
        rooms.contains_key(url),
        has_member(rooms[url], id),
    ensures
        rooms_valid(rooms_depart(rooms, url, id)),
        rooms_depart(rooms, url, id)[url].len() == rooms[url].len() - 1,
        !has_member(rooms_depart(rooms, url, id)[url], id),
        forall|other: u64|
            other != id && has_member(rooms[url], other) ==> has_member(
                rooms_depart(rooms, url, id)[url],
                other,
            ) && queue_in(rooms_depart(rooms, url, id)[url], other) == queue_in(
                rooms[url],
                other,
            ).push(despawn_of(id)),
        forall|elsewhere: Seq<char>|
            elsewhere != url ==> rooms_depart(rooms, url, id).contains_key(elsewhere)
                == rooms.contains_key(elsewhere) && rooms_depart(rooms, url, id)[elsewhere]
                == rooms[elsewhere],
{
    let members = rooms[url];
    let stay = without(members, id);
    let after = departed(members, id);
    lemma_without_valid(members, id);
    lemma_delivered_valid(stay, despawn_of(id), None);
    let at = choose|i: int| 0 <= i < members.len() && (#[trigger] members[i]).id == id;
    crate::registry::lemma_without_present(members, id, at);
    assert forall|other: u64| other != id && has_member(members, other) implies has_member(
        after,
        other,
    ) && queue_in(after, other) == queue_in(members, other).push(despawn_of(id)) by {
        let i = choose|i: int| 0 <= i < stay.len() && (#[trigger] stay[i]).id == other;
        lemma_queue_in_at(stay, i);
        assert(after[i].id == other);
        lemma_queue_in_at(after, i);
    }
    assert forall|i: int| 0 <= i < after.len() implies (#[trigger] after[i]).id != id by {
        assert(stay[i].id != id);
    }
}

/// Coming and going leave every room with one member for an id.
pub proof fn lemma_presence_valid(rooms: Rooms, url: Seq<char>, id: u64)
    requires
        rooms_valid(rooms),
    ensures
        rooms_valid(rooms_arrive(rooms, url, id)),
        rooms_valid(rooms_depart(rooms, url, id)),
{
    let members = members_of(rooms, url);
    let peers = without(members, id);
    lemma_without_valid(members, id);
    lemma_without_absent(peers, id);
    lemma_arrival_fan_out(peers, id, url);
    lemma_delivered_valid(peers, despawn_of(id), None);
}

} // verus!
