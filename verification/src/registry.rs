//! The rooms, their members, and the events that wait for each member.
//!
//! A room is the set of connections that reported the same URL. It comes into
//! being when the first of them authenticates and stays for good, empty or not.
//! Each member has a queue of events that the server has yet to write to its
//! socket. An event sent to a room is appended to the queues of its members; no
//! queue of another room is touched.

use crate::event::{events_view, EventView, OutboundEvent};
use vstd::prelude::*;

verus! {

/// One member of a room: its id, and the events that wait for it, oldest first.
pub struct MemberView {
    pub id: u64,
    pub queue: Seq<EventView>,
}

/// The rooms by their URL, each with its members in the order in which they
/// entered.
pub type Rooms = Map<Seq<char>, Seq<MemberView>>;

/// No two of the members have the same id.
pub open spec fn distinct_ids(members: Seq<MemberView>) -> bool {
    forall|i: int, j: int|
        0 <= i < j < members.len() ==> (#[trigger] members[i]).id != (#[trigger] members[j]).id
}

/// No room has two members with the same id.
pub open spec fn rooms_valid(rooms: Rooms) -> bool {
    forall|url: Seq<char>| #[trigger] rooms.contains_key(url) ==> distinct_ids(rooms[url])
}

/// The members of the room `url`; none where there is no such room.
pub open spec fn members_of(rooms: Rooms, url: Seq<char>) -> Seq<MemberView> {
    if rooms.contains_key(url) {
        rooms[url]
    } else {
        Seq::empty()
    }
}

/// The ids of `members`, in their order.
pub open spec fn ids_of(members: Seq<MemberView>) -> Seq<u64> {
    members.map_values(|member: MemberView| member.id)
}

/// Whether one of `members` has the id `id`.
pub open spec fn has_member(members: Seq<MemberView>, id: u64) -> bool {
    exists|i: int| 0 <= i < members.len() && (#[trigger] members[i]).id == id
}

/// The events that wait for `id` in `members`; none where it is no member.
pub open spec fn queue_in(members: Seq<MemberView>, id: u64) -> Seq<EventView> {
    if has_member(members, id) {
        let i = choose|i: int| 0 <= i < members.len() && (#[trigger] members[i]).id == id;
        members[i].queue
    } else {
        Seq::empty()
    }
}

/// The test for a member to be another than `id`.
pub open spec fn is_other(id: u64) -> spec_fn(MemberView) -> bool {
    |member: MemberView| member.id != id
}

/// `members` but the one with the id `id`.
pub open spec fn without(members: Seq<MemberView>, id: u64) -> Seq<MemberView> {
    members.filter(is_other(id))
}

/// `members` after `id` has entered: it stands last, with nothing waiting for
/// it, and an earlier member with the same id is gone.
pub open spec fn entered(members: Seq<MemberView>, id: u64) -> Seq<MemberView> {
    without(members, id).push(MemberView { id, queue: Seq::empty() })
}

/// `member` after `event` was sent to all but `exclude`.
pub open spec fn received(member: MemberView, event: EventView, exclude: Option<u64>) -> MemberView {
    if exclude == Some(member.id) {
        member
    } else {
        MemberView { id: member.id, queue: member.queue.push(event) }
    }
}

/// `members` after `event` was sent to each of them but `exclude`.
pub open spec fn delivered(
    members: Seq<MemberView>,
    event: EventView,
    exclude: Option<u64>,
) -> Seq<MemberView> {
    members.map_values(|member: MemberView| received(member, event, exclude))
}

/// `member` after `events` were sent to `id` alone.
pub open spec fn given(member: MemberView, id: u64, events: Seq<EventView>) -> MemberView {
    if member.id == id {
        MemberView { id: member.id, queue: member.queue + events }
    } else {
        member
    }
}

/// `members` after `events` were sent to `id` alone.
pub open spec fn sent_to(members: Seq<MemberView>, id: u64, events: Seq<EventView>) -> Seq<
    MemberView,
> {
    members.map_values(|member: MemberView| given(member, id, events))
}

/// `member` after all that waited for `id` was taken.
pub open spec fn emptied(member: MemberView, id: u64) -> MemberView {
    if member.id == id {
        MemberView { id: member.id, queue: Seq::empty() }
    } else {
        member
    }
}

/// `members` after all that waited for `id` was taken.
pub open spec fn drained(members: Seq<MemberView>, id: u64) -> Seq<MemberView> {
    members.map_values(|member: MemberView| emptied(member, id))
}

/// The rooms after `id` has entered the room `url`, which now exists.
pub open spec fn rooms_join(rooms: Rooms, url: Seq<char>, id: u64) -> Rooms {
    rooms.insert(url, entered(members_of(rooms, url), id))
}

/// The rooms after `id` has left the room `url`.
pub open spec fn rooms_leave(rooms: Rooms, url: Seq<char>, id: u64) -> Rooms {
    if rooms.contains_key(url) {
        rooms.insert(url, without(rooms[url], id))
    } else {
        rooms
    }
}

/// The rooms after `event` was sent to every member of the room `url` but
/// `exclude`.
pub open spec fn rooms_broadcast(
    rooms: Rooms,
    url: Seq<char>,
    event: EventView,
    exclude: Option<u64>,
) -> Rooms {
    if rooms.contains_key(url) {
        rooms.insert(url, delivered(rooms[url], event, exclude))
    } else {
        rooms
    }
}

/// The rooms after `events` were sent to the member `id` of the room `url`.
pub open spec fn rooms_send_to(
    rooms: Rooms,
    url: Seq<char>,
    id: u64,
    events: Seq<EventView>,
) -> Rooms {
    if rooms.contains_key(url) {
        rooms.insert(url, sent_to(rooms[url], id, events))
    } else {
        rooms
    }
}

/// The rooms after all that waited for the member `id` of the room `url` was
/// taken.
pub open spec fn rooms_drain(rooms: Rooms, url: Seq<char>, id: u64) -> Rooms {
    if rooms.contains_key(url) {
        rooms.insert(url, drained(rooms[url], id))
    } else {
        rooms
    }
}

/// Where no member has the id, none is taken away.
pub proof fn lemma_without_absent(members: Seq<MemberView>, id: u64)
    requires
        !has_member(members, id),
    ensures
        without(members, id) == members,
    decreases members.len(),
{
    reveal(Seq::filter);
    if members.len() > 0 {
        let front = members.drop_last();
        assert forall|i: int| 0 <= i < front.len() implies (#[trigger] front[i]).id != id by {
            assert(members[i].id != id);
        }
        lemma_without_absent(front, id);
        assert(members[members.len() - 1].id != id);
        assert(front.push(members.last()) =~= members);
    }
}

/// Where the ids are distinct, the member with the id is taken away and the
/// others stay as they stand.
pub proof fn lemma_without_present(members: Seq<MemberView>, id: u64, at: int)
    requires
        distinct_ids(members),
        0 <= at < members.len(),
        members[at].id == id,
    ensures
        without(members, id) == members.remove(at),
{
    let front = members.take(at);
    let one = seq![members[at]];
    let back = members.skip(at + 1);
    assert(members =~= front + one + back);
    Seq::filter_distributes_over_add(front + one, back, is_other(id));
    Seq::filter_distributes_over_add(front, one, is_other(id));
    assert forall|i: int| 0 <= i < front.len() implies (#[trigger] front[i]).id != id by {
        assert(members[i].id != members[at].id);
    }
    assert forall|i: int| 0 <= i < back.len() implies (#[trigger] back[i]).id != id by {
        assert(members[at].id != members[at + 1 + i].id);
    }
    lemma_without_absent(front, id);
    lemma_without_absent(back, id);
    assert(one.filter(is_other(id)) =~= Seq::<MemberView>::empty()) by {
        reveal_with_fuel(Seq::filter, 2);
        assert(one.drop_last() =~= Seq::<MemberView>::empty());
    }
    assert(members.remove(at) =~= front + back);
}

/// Taking a member away leaves distinct ids distinct, and none with the id.
pub proof fn lemma_without_valid(members: Seq<MemberView>, id: u64)
    requires
        distinct_ids(members),
    ensures
        distinct_ids(without(members, id)),
        !has_member(without(members, id), id),
        forall|other: u64|
            other != id ==> queue_in(without(members, id), other) == queue_in(members, other)
                && has_member(without(members, id), other) == has_member(members, other),
{
    if has_member(members, id) {
        let at = choose|i: int| 0 <= i < members.len() && (#[trigger] members[i]).id == id;
        lemma_without_present(members, id, at);
        let rest = members.remove(at);
        assert forall|i: int| 0 <= i < rest.len() implies (#[trigger] rest[i]).id != id by {
            if i < at {
                assert(members[i].id != members[at].id);
            } else {
                assert(members[at].id != members[i + 1].id);
            }
        }
        assert forall|other: u64| other != id implies queue_in(rest, other) == queue_in(
            members,
            other,
        ) && has_member(rest, other) == has_member(members, other) by {
            lemma_queue_in_remove(members, at, other);
        }
    } else {
        lemma_without_absent(members, id);
    }
}

/// The queue of a member is found under its id.
pub proof fn lemma_queue_in_at(members: Seq<MemberView>, at: int)
    requires
        distinct_ids(members),
        0 <= at < members.len(),
    ensures
        has_member(members, members[at].id),
        queue_in(members, members[at].id) == members[at].queue,
{
    let id = members[at].id;
    let i = choose|i: int| 0 <= i < members.len() && (#[trigger] members[i]).id == id;
    assert(i == at) by {
        if i < at {
            assert(members[i].id != members[at].id);
        }
        if at < i {
            assert(members[at].id != members[i].id);
        }
    }
}

/// Taking one member away changes nothing for another.
pub proof fn lemma_queue_in_remove(members: Seq<MemberView>, at: int, other: u64)
    requires
        distinct_ids(members),
        0 <= at < members.len(),
        members[at].id != other,
    ensures
        distinct_ids(members.remove(at)),
        has_member(members.remove(at), other) == has_member(members, other),
        queue_in(members.remove(at), other) == queue_in(members, other),
{
    let rest = members.remove(at);
    assert forall|i: int, j: int| 0 <= i < j < rest.len() implies (#[trigger] rest[i]).id != (
    #[trigger] rest[j]).id by {
        let a = if i < at { i } else { i + 1 };
        let b = if j < at { j } else { j + 1 };
        assert(members[a].id != members[b].id);
    }
    if has_member(members, other) {
        let i = choose|i: int| 0 <= i < members.len() && (#[trigger] members[i]).id == other;
        let k = if i < at { i } else { i - 1 };
        assert(rest[k] == members[i]);
        lemma_queue_in_at(members, i);
        lemma_queue_in_at(rest, k);
    } else {
        if has_member(rest, other) {
            let k = choose|k: int| 0 <= k < rest.len() && (#[trigger] rest[k]).id == other;
            let i = if k < at { k } else { k + 1 };
            assert(members[i].id == other);
        }
    }
}

/// Entering keeps the ids of a room distinct.
pub proof fn lemma_entered_valid(members: Seq<MemberView>, id: u64)
    requires
        distinct_ids(members),
    ensures
        distinct_ids(entered(members, id)),
{
    lemma_without_valid(members, id);
    let rest = without(members, id);
    let all = entered(members, id);
    assert forall|i: int, j: int| 0 <= i < j < all.len() implies (#[trigger] all[i]).id != (
    #[trigger] all[j]).id by {
        if j < rest.len() {
            assert(rest[i].id != rest[j].id);
        } else {
            assert(rest[i].id != id);
        }
    }
}

/// Sending an event to a room leaves its ids as they are.
pub proof fn lemma_delivered_valid(members: Seq<MemberView>, event: EventView, exclude: Option<u64>)
    requires
        distinct_ids(members),
    ensures
        distinct_ids(delivered(members, event, exclude)),
        ids_of(delivered(members, event, exclude)) == ids_of(members),
{
    let after = delivered(members, event, exclude);
    assert forall|i: int, j: int| 0 <= i < j < after.len() implies (#[trigger] after[i]).id != (
    #[trigger] after[j]).id by {
        assert(members[i].id != members[j].id);
    }
    assert(ids_of(after) =~= ids_of(members));
}

/// Sending events to a member leaves the ids of its room as they are.
pub proof fn lemma_sent_to_valid(members: Seq<MemberView>, id: u64, events: Seq<EventView>)
    requires
        distinct_ids(members),
    ensures
        distinct_ids(sent_to(members, id, events)),
        ids_of(sent_to(members, id, events)) == ids_of(members),
{
    let after = sent_to(members, id, events);
    assert forall|i: int, j: int| 0 <= i < j < after.len() implies (#[trigger] after[i]).id != (
    #[trigger] after[j]).id by {
        assert(members[i].id != members[j].id);
    }
    assert(ids_of(after) =~= ids_of(members));
}

/// Taking what waits for a member leaves the ids of its room as they are.
pub proof fn lemma_drained_valid(members: Seq<MemberView>, id: u64)
    requires
        distinct_ids(members),
    ensures
        distinct_ids(drained(members, id)),
        ids_of(drained(members, id)) == ids_of(members),
{
    let after = drained(members, id);
    assert forall|i: int, j: int| 0 <= i < j < after.len() implies (#[trigger] after[i]).id != (
    #[trigger] after[j]).id by {
        assert(members[i].id != members[j].id);
    }
    assert(ids_of(after) =~= ids_of(members));
}

/// What waits for a member after an event was sent to its room: the event
/// behind what waited before, unless the member was left out.
pub proof fn lemma_delivered_queue(
    members: Seq<MemberView>,
    event: EventView,
    exclude: Option<u64>,
    id: u64,
)
    requires
        distinct_ids(members),
    ensures
        has_member(delivered(members, event, exclude), id) == has_member(members, id),
        has_member(members, id) && exclude != Some(id) ==> queue_in(
            delivered(members, event, exclude),
            id,
        ) == queue_in(members, id).push(event),
        !has_member(members, id) || exclude == Some(id) ==> queue_in(
            delivered(members, event, exclude),
            id,
        ) == queue_in(members, id),
{
    let after = delivered(members, event, exclude);
    lemma_delivered_valid(members, event, exclude);
    if has_member(members, id) {
        let i = choose|i: int| 0 <= i < members.len() && (#[trigger] members[i]).id == id;
        assert(after[i].id == id);
        lemma_queue_in_at(members, i);
        lemma_queue_in_at(after, i);
    } else {
        if has_member(after, id) {
            let i = choose|i: int| 0 <= i < after.len() && (#[trigger] after[i]).id == id;
            assert(members[i].id == id);
        }
    }
}

/// Taking what waits for one member changes nothing for another.
pub proof fn lemma_drained_queue(members: Seq<MemberView>, id: u64, other: u64)
    requires
        distinct_ids(members),
        other != id,
    ensures
        has_member(drained(members, id), other) == has_member(members, other),
        queue_in(drained(members, id), other) == queue_in(members, other),
        queue_in(drained(members, id), id) == Seq::<EventView>::empty(),
{
    let after = drained(members, id);
    lemma_drained_valid(members, id);
    if has_member(members, other) {
        let i = choose|i: int| 0 <= i < members.len() && (#[trigger] members[i]).id == other;
        assert(after[i].id == other);
        lemma_queue_in_at(members, i);
        lemma_queue_in_at(after, i);
    } else {
        if has_member(after, other) {
            let i = choose|i: int| 0 <= i < after.len() && (#[trigger] after[i]).id == other;
            assert(members[i].id == other);
        }
    }
    if has_member(after, id) {
        let i = choose|i: int| 0 <= i < after.len() && (#[trigger] after[i]).id == id;
        assert(members[i].id == id);
        lemma_queue_in_at(after, i);
    }
}

struct Member {
    id: u64,
    queue: Vec<OutboundEvent>,
}

impl View for Member {
    type V = MemberView;

    closed spec fn view(&self) -> MemberView {
        MemberView { id: self.id, queue: events_view(self.queue@) }
    }
}

struct Room {
    key: String,
    members: Vec<Member>,
}

impl View for Room {
    type V = Seq<MemberView>;

    closed spec fn view(&self) -> Seq<MemberView> {
        self.members@.map_values(|member: Member| member@)
    }
}

/// What a connection holds of the registry once it has authenticated: the
/// room it is in and the id it has there, under which its events wait.
#[derive(Clone, Debug, PartialEq, Eq)]
pub struct QueueHandle {
    pub url: String,
    pub id: u64,
}

/// The rooms of one server.
pub struct Registry {
    rooms: Vec<Room>,
}

impl View for Registry {
    type V = Rooms;

    closed spec fn view(&self) -> Rooms {
        Map::new(
            |url: Seq<char>| exists|i: int| self.holds(url, i),
            |url: Seq<char>| self.rooms[choose|i: int| self.holds(url, i)]@,
        )
    }
}

impl Registry {
    /// The room at `i` has the key `url`.
    closed spec fn holds(&self, url: Seq<char>, i: int) -> bool {
        0 <= i < self.rooms.len() && self.rooms[i].key@ == url
    }

    /// No two rooms have the same key.
    pub closed spec fn inv(&self) -> bool {
        forall|i: int, j: int|
            0 <= i < j < self.rooms.len() ==> (#[trigger] self.rooms[i]).key@ != (
            #[trigger] self.rooms[j]).key@
    }

    /// What every registry is: one room for a URL, one member for an id.
    pub open spec fn wf(&self) -> bool {
        self.inv() && rooms_valid(self@)
    }

    proof fn lemma_view_at(&self, i: int)
        requires
            self.inv(),
            0 <= i < self.rooms.len(),
        ensures
            self@.contains_key(self.rooms[i].key@),
            self@[self.rooms[i].key@] == self.rooms[i]@,
    {
        let url = self.rooms[i].key@;
        assert(self.holds(url, i));
        let k = choose|k: int| self.holds(url, k);
        assert(k == i) by {
            if k < i {
                assert(self.rooms[k].key@ != self.rooms[i].key@);
            }
            if i < k {
                assert(self.rooms[i].key@ != self.rooms[k].key@);
            }
        }
    }

    proof fn lemma_view_absent(&self, url: Seq<char>)
        requires
            forall|i: int| 0 <= i < self.rooms.len() ==> (#[trigger] self.rooms[i]).key@ != url,
        ensures
            !self@.contains_key(url),
    {
        if self@.contains_key(url) {
            let k = choose|k: int| self.holds(url, k);
            assert(self.rooms[k].key@ == url);
        }
    }

    /// One room has other members, and all else is as it was.
    proof fn lemma_room_changed(&self, after: &Registry, at: int)
        requires
            self.inv(),
            0 <= at < self.rooms.len(),
            after.rooms.len() == self.rooms.len(),
            forall|i: int|
                0 <= i < self.rooms.len() ==> (#[trigger] after.rooms[i]).key@
                    == self.rooms[i].key@,
            forall|i: int|
                0 <= i < self.rooms.len() && i != at ==> (#[trigger] after.rooms[i])@
                    == self.rooms[i]@,
        ensures
            after.inv(),
            after@ == self@.insert(self.rooms[at].key@, after.rooms[at]@),
    {
        assert(after.inv()) by {
            assert forall|i: int, j: int| 0 <= i < j < after.rooms.len() implies (
            #[trigger] after.rooms[i]).key@ != (#[trigger] after.rooms[j]).key@ by {
                assert(self.rooms[i].key@ != self.rooms[j].key@);
            }
        }
        let want = self@.insert(self.rooms[at].key@, after.rooms[at]@);
        assert forall|url: Seq<char>| after@.contains_key(url) <==> want.contains_key(url) by {
            if after@.contains_key(url) {
                let k = choose|k: int| after.holds(url, k);
                assert(self.holds(url, k));
            }
            if self@.contains_key(url) {
                let k = choose|k: int| self.holds(url, k);
                assert(after.rooms[k].key@ == self.rooms[k].key@);
                assert(after.holds(url, k));
            }
            if url == self.rooms[at].key@ {
                assert(after.rooms[at].key@ == self.rooms[at].key@);
                assert(after.holds(url, at));
            }
        }
        assert forall|url: Seq<char>| after@.contains_key(url) implies after@[url] == want[url] by {
            let k = choose|k: int| after.holds(url, k);
            assert(after.rooms[k].key@ == self.rooms[k].key@);
            after.lemma_view_at(k);
            self.lemma_view_at(k);
            if k != at {
                assert(self.rooms[k].key@ != self.rooms[at].key@) by {
                    if k < at {
                        assert(self.rooms[k].key@ != self.rooms[at].key@);
                    } else {
                        assert(self.rooms[at].key@ != self.rooms[k].key@);
                    }
                }
            }
        }
        assert(after@ =~= want);
    }

    /// One room was added, and all else is as it was.
    proof fn lemma_room_added(&self, after: &Registry)
        requires
            self.inv(),
            after.rooms.len() == self.rooms.len() + 1,
            forall|i: int|
                0 <= i < self.rooms.len() ==> (#[trigger] after.rooms[i]).key@
                    == self.rooms[i].key@ && after.rooms[i]@ == self.rooms[i]@,
            forall|i: int|
                0 <= i < self.rooms.len() ==> (#[trigger] self.rooms[i]).key@
                    != after.rooms[self.rooms.len() as int].key@,
        ensures
            after.inv(),
            after@ == self@.insert(
                after.rooms[self.rooms.len() as int].key@,
                after.rooms[self.rooms.len() as int]@,
            ),
    {
        let last = self.rooms.len() as int;
        assert(after.inv()) by {
            assert forall|i: int, j: int| 0 <= i < j < after.rooms.len() implies (
            #[trigger] after.rooms[i]).key@ != (#[trigger] after.rooms[j]).key@ by {
                if j < last {
                    assert(self.rooms[i].key@ != self.rooms[j].key@);
                } else {
                    assert(self.rooms[i].key@ != after.rooms[last].key@);
                }
            }
        }
        let want = self@.insert(after.rooms[last].key@, after.rooms[last]@);
        assert forall|url: Seq<char>| after@.contains_key(url) <==> want.contains_key(url) by {
            if after@.contains_key(url) {
                let k = choose|k: int| after.holds(url, k);
                if k < last {
                    assert(after.rooms[k].key@ == self.rooms[k].key@);
                    assert(self.holds(url, k));
                }
            }
            if self@.contains_key(url) {
                let k = choose|k: int| self.holds(url, k);
                assert(after.rooms[k].key@ == self.rooms[k].key@);
                assert(after.holds(url, k));
            }
            if url == after.rooms[last].key@ {
                assert(after.holds(url, last));
            }
        }
        assert forall|url: Seq<char>| after@.contains_key(url) implies after@[url] == want[url] by {
            let k = choose|k: int| after.holds(url, k);
            after.lemma_view_at(k);
            if k < last {
                assert(after.rooms[k].key@ == self.rooms[k].key@);
                self.lemma_view_at(k);
                assert(self.rooms[k].key@ != after.rooms[last].key@);
            }
        }
        assert(after@ =~= want);
    }

    /// A registry without rooms.
    pub fn new() -> (registry: Registry)
        ensures
            registry.wf(),
            registry@ == Map::<Seq<char>, Seq<MemberView>>::empty(),
    {
        let registry = Registry { rooms: Vec::new() };
        assert(registry@ =~= Map::<Seq<char>, Seq<MemberView>>::empty()) by {
            assert forall|url: Seq<char>| !registry@.contains_key(url) by {
                registry.lemma_view_absent(url);
            }
        }
        registry
    }

    /// Whether there is a room `url`.
    pub fn has_room(&self, url: &String) -> (found: bool)
        requires
            self.wf(),
        ensures
            found == self@.contains_key(url@),
    {
        match self.find_room(url) {
            Some(at) => {
                proof {
                    self.lemma_view_at(at as int);
                }
                true
            },
            None => {
                proof {
                    self.lemma_view_absent(url@);
                }
                false
            },
        }
    }

    /// The room `url` now has the member `id`, with nothing waiting for it: the
    /// room is made if there was none, and what an earlier member with this id
    /// had waiting is dropped. Returns the handle of the new queue.
    pub fn join(&mut self, url: &String, id: u64) -> (handle: QueueHandle)
        requires
            old(self).wf(),
        ensures
            final(self).wf(),
            final(self)@ == rooms_join(old(self)@, url@, id),
            handle.url@ == url@,
            handle.id == id,
    {
        let at = match self.find_room(url) {
            Some(at) => {
                proof {
                    self.lemma_view_at(at as int);
                    assert(self@.insert(url@, self.rooms[at as int]@) =~= self@);
                }
                at
            },
            None => {
                self.rooms.push(Room { key: url.clone(), members: Vec::new() });
                proof {
                    old(self).lemma_view_absent(url@);
                    old(self).lemma_room_added(self);
                    assert(self.rooms[self.rooms.len() - 1]@ =~= Seq::<MemberView>::empty());
                }
                self.rooms.len() - 1
            },
        };
        let ghost mid = *self;
        assert(mid@ == old(self)@.insert(url@, members_of(old(self)@, url@)));
        assert(mid.rooms[at as int]@ == members_of(old(self)@, url@));
        match find_member(&self.rooms[at].members, id) {
            Some(j) => {
                self.rooms[at].members.remove(j);
                proof {
                    assert(self.rooms[at as int]@ =~= mid.rooms[at as int]@.remove(j as int));
                    assert(mid.rooms[at as int]@[j as int].id == id);
                    assert(distinct_ids(mid.rooms[at as int]@));
                    lemma_without_present(mid.rooms[at as int]@, id, j as int);
                }
            },
            None => {
                proof {
                    assert forall|i: int| 0 <= i < mid.rooms[at as int]@.len() implies (
                    #[trigger] mid.rooms[at as int]@[i]).id != id by {
                        assert(mid.rooms[at as int].members[i].id != id);
                    }
                    lemma_without_absent(mid.rooms[at as int]@, id);
                }
            },
        }
        assert(self.rooms[at as int]@ == without(mid.rooms[at as int]@, id));
        self.rooms[at].members.push(Member { id, queue: Vec::new() });
        proof {
            assert(events_view(Seq::<OutboundEvent>::empty()) =~= Seq::<EventView>::empty());
            assert(self.rooms[at as int]@ =~= entered(mid.rooms[at as int]@, id));
            mid.lemma_room_changed(self, at as int);
            assert(self@ =~= rooms_join(old(self)@, url@, id));
            lemma_entered_valid(members_of(old(self)@, url@), id);
        }
        QueueHandle { url: url.clone(), id }
    }

    /// The room `url` no longer has a member `id`. Without such a room or
    /// such a member nothing changes.
    pub fn leave(&mut self, url: &String, id: u64)
        requires
            old(self).wf(),
        ensures
            final(self).wf(),
            final(self)@ == rooms_leave(old(self)@, url@, id),
    {
        match self.find_room(url) {
            None => {
                proof {
                    self.lemma_view_absent(url@);
                }
            },
            Some(at) => {
                proof {
                    self.lemma_view_at(at as int);
                    lemma_without_valid(self@[url@], id);
                }
                match find_member(&self.rooms[at].members, id) {
                    Some(j) => {
                        self.rooms[at].members.remove(j);
                        proof {
                            let before = old(self).rooms[at as int]@;
                            assert(self.rooms[at as int]@ =~= before.remove(j as int));
                            assert(before[j as int].id == id);
                            lemma_without_present(before, id, j as int);
                            old(self).lemma_room_changed(self, at as int);
                        }
                    },
                    None => {
                        proof {
                            let before = self.rooms[at as int]@;
                            assert forall|i: int| 0 <= i < before.len() implies (
                            #[trigger] before[i]).id != id by {
                                assert(self.rooms[at as int].members[i].id != id);
                            }
                            lemma_without_absent(before, id);
                            assert(self@.insert(url@, before) =~= self@);
                        }
                    },
                }
            },
        }
    }

    /// Appends `event` to the queue of every member of the room `url` but
    /// `exclude`. Without such a room nothing changes.
    pub fn broadcast(&mut self, url: &String, event: &OutboundEvent, exclude: Option<u64>)
        requires
            old(self).wf(),
        ensures
            final(self).wf(),
            final(self)@ == rooms_broadcast(old(self)@, url@, event@, exclude),
    {
        match self.find_room(url) {
            None => {
                proof {
                    self.lemma_view_absent(url@);
                }
            },
            Some(at) => {
                let ghost before = *self;
                let count = self.rooms[at].members.len();
                let mut j: usize = 0;
                while j < count
                    invariant
                        j <= count,
                        at < self.rooms.len(),
                        self.rooms.len() == before.rooms.len(),
                        forall|i: int|
                            0 <= i < self.rooms.len() && i != at ==> self.rooms[i]
                                == before.rooms[i],
                        self.rooms[at as int].key == before.rooms[at as int].key,
                        self.rooms[at as int].members.len() == count,
                        before.rooms[at as int].members.len() == count,
                        forall|k: int|
                            0 <= k < j ==> (#[trigger] self.rooms[at as int].members[k])@
                                == received(before.rooms[at as int].members[k]@, event@, exclude),
                        forall|k: int|
                            j <= k < count ==> (#[trigger] self.rooms[at as int].members[k])
                                == before.rooms[at as int].members[k],
                    decreases count - j,
                {
                    let skip = match exclude {
                        Some(excluded) => excluded == self.rooms[at].members[j].id,
                        None => false,
                    };
                    if !skip {
                        let copy = event.duplicate();
                        let ghost queue = self.rooms[at as int].members[j as int].queue@;
                        self.rooms[at].members[j].queue.push(copy);
                        assert(events_view(queue.push(copy)) =~= events_view(queue).push(copy@));
                    }
                    j += 1;
                }
                proof {
                    assert(self.rooms[at as int]@ =~= delivered(
                        before.rooms[at as int]@,
                        event@,
                        exclude,
                    ));
                    before.lemma_view_at(at as int);
                    before.lemma_room_changed(self, at as int);
                    lemma_delivered_valid(before@[url@], event@, exclude);
                }
            },
        }
    }

    /// The ids of the members of the room `url`, in the order in which they
    /// entered.
    pub fn members(&self, url: &String) -> (ids: Vec<u64>)
        requires
            self.wf(),
        ensures
            ids@ == ids_of(members_of(self@, url@)),
    {
        let mut ids: Vec<u64> = Vec::new();
        match self.find_room(url) {
            None => {
                proof {
                    self.lemma_view_absent(url@);
                    assert(ids@ =~= ids_of(members_of(self@, url@)));
                }
            },
            Some(at) => {
                let count = self.rooms[at].members.len();
                let mut j: usize = 0;
                while j < count
                    invariant
                        j <= count,
                        at < self.rooms.len(),
                        self.rooms[at as int].members.len() == count,
                        ids@.len() == j,
                        forall|k: int|
                            0 <= k < j ==> #[trigger] ids@[k] == self.rooms[at as int].members[k].id,
                    decreases count - j,
                {
                    ids.push(self.rooms[at].members[j].id);
                    j += 1;
                }
                proof {
                    self.lemma_view_at(at as int);
                    assert(ids@ =~= ids_of(self.rooms[at as int]@));
                }
            },
        }
        ids
    }

    /// Appends `events` to the queue of the member `id` of the room `url`.
    /// Without such a room or such a member nothing changes.
    pub fn send_to(&mut self, url: &String, id: u64, events: Vec<OutboundEvent>)
        requires
            old(self).wf(),
        ensures
            final(self).wf(),
            final(self)@ == rooms_send_to(old(self)@, url@, id, events_view(events@)),
    {
        let ghost sent = events_view(events@);
        let ghost fresh = events@;
        let mut pending = events;
        match self.find_room(url) {
            None => {
                proof {
                    self.lemma_view_absent(url@);
                }
            },
            Some(at) => {
                proof {
                    self.lemma_view_at(at as int);
                    lemma_sent_to_valid(self@[url@], id, sent);
                }
                match find_member(&self.rooms[at].members, id) {
                    Some(j) => {
                        let ghost queue = self.rooms[at as int].members[j as int].queue@;
                        self.rooms[at].members[j].queue.append(&mut pending);
                        proof {
                            let before = old(self).rooms[at as int]@;
                            assert(events_view(queue + fresh) =~= events_view(queue) + sent);
                            assert forall|k: int| 0 <= k < before.len() implies given(
                                #[trigger] before[k],
                                id,
                                sent,
                            ) == self.rooms[at as int]@[k] by {
                                if k < j {
                                    assert(before[k].id != before[j as int].id);
                                }
                                if j < k {
                                    assert(before[j as int].id != before[k].id);
                                }
                            }
                            assert(self.rooms[at as int]@ =~= sent_to(before, id, sent));
                            old(self).lemma_room_changed(self, at as int);
                        }
                    },
                    None => {
                        proof {
                            let before = self.rooms[at as int]@;
                            assert forall|k: int| 0 <= k < before.len() implies (
                            #[trigger] before[k]).id != id by {
                                assert(self.rooms[at as int].members[k].id != id);
                            }
                            assert(sent_to(before, id, sent) =~= before);
                            assert(self@.insert(url@, before) =~= self@);
                        }
                    },
                }
            },
        }
    }

    /// Takes all that waits for `handle`, oldest first. Without such a room or
    /// such a member there is nothing to take.
    pub fn drain(&mut self, handle: &QueueHandle) -> (events: Vec<OutboundEvent>)
        requires
            old(self).wf(),
        ensures
            final(self).wf(),
            events_view(events@) == queue_in(members_of(old(self)@, handle.url@), handle.id),
            final(self)@ == rooms_drain(old(self)@, handle.url@, handle.id),
    {
        let mut events: Vec<OutboundEvent> = Vec::new();
        match self.find_room(&handle.url) {
            None => {
                proof {
                    self.lemma_view_absent(handle.url@);
                    assert(events_view(events@) =~= Seq::<EventView>::empty());
                }
            },
            Some(at) => {
                proof {
                    self.lemma_view_at(at as int);
                    lemma_drained_valid(self@[handle.url@], handle.id);
                }
                match find_member(&self.rooms[at].members, handle.id) {
                    Some(j) => {
                        events.append(&mut self.rooms[at].members[j].queue);
                        proof {
                            let before = old(self).rooms[at as int]@;
                            let id = handle.id;
                            assert(events@ =~= old(self).rooms[at as int].members[j as int].queue@);
                            assert(before[j as int].id == id);
                            lemma_queue_in_at(before, j as int);
                            assert(events_view(Seq::<OutboundEvent>::empty()) =~= Seq::<
                                EventView,
                            >::empty());
                            assert forall|k: int| 0 <= k < before.len() implies emptied(
                                #[trigger] before[k],
                                id,
                            ) == self.rooms[at as int]@[k] by {
                                if k < j {
                                    assert(before[k].id != before[j as int].id);
                                }
                                if j < k {
                                    assert(before[j as int].id != before[k].id);
                                }
                            }
                            assert(self.rooms[at as int]@ =~= drained(before, id));
                            old(self).lemma_room_changed(self, at as int);
                        }
                    },
                    None => {
                        proof {
                            let before = self.rooms[at as int]@;
                            assert forall|k: int| 0 <= k < before.len() implies (
                            #[trigger] before[k]).id != handle.id by {
                                assert(self.rooms[at as int].members[k].id != handle.id);
                            }
                            assert(!has_member(before, handle.id));
                            assert(events_view(events@) =~= Seq::<EventView>::empty());
                            assert(drained(before, handle.id) =~= before);
                            assert(self@.insert(handle.url@, before) =~= self@);
                        }
                    },
                }
            },
        }
        events
    }

    /// Where the room `url` stands.
    fn find_room(&self, url: &String) -> (found: Option<usize>)
        ensures
            match found {
                Some(at) => at < self.rooms.len() && self.rooms[at as int].key@ == url@,
                None => forall|i: int|
                    0 <= i < self.rooms.len() ==> (#[trigger] self.rooms[i]).key@ != url@,
            },
    {
        let mut at: usize = 0;
        while at < self.rooms.len()
            invariant
                at <= self.rooms.len(),
                forall|i: int| 0 <= i < at ==> (#[trigger] self.rooms[i]).key@ != url@,
            decreases self.rooms.len() - at,
        {
            if self.rooms[at].key == *url {
                return Some(at);
            }
            at += 1;
        }
        None
    }
}

/// Where the member `id` stands among `members`.
fn find_member(members: &Vec<Member>, id: u64) -> (found: Option<usize>)
    ensures
        match found {
            Some(at) => at < members.len() && members[at as int].id == id,
            None => forall|i: int| 0 <= i < members.len() ==> (#[trigger] members[i]).id != id,
        },
{
    let mut at: usize = 0;
    while at < members.len()
        invariant
            at <= members.len(),
            forall|i: int| 0 <= i < at ==> (#[trigger] members[i]).id != id,
        decreases members.len() - at,
    {
        if members[at].id == id {
            return Some(at);
        }
        at += 1;
    }
    None
}

} // verus!
