//! The room registry: creates rooms and resolves joins and multicasts
//! against them.
//!
//! Room identifiers come from their own monotone counter — a namespace
//! distinct from connection identifiers. Rooms are never deleted; an empty
//! room persists as an abandoned shell.

use vstd::prelude::*;

use crate::registry::WsConnections;
use crate::responses::{all_carry, targets_of, Outbound, Response};
use crate::room::{present_members, without_failed, Room, RoomInfo};
use crate::types::ChatError;

verus! {

/// Does some room of `s` carry the identifier `id`?
pub open spec fn contains_room(s: Seq<Room>, id: u64) -> bool {
    exists|i: int| 0 <= i < s.len() && s[i].id == id
}

/// The index of the room carrying `id`; meaningful only when `contains_room`
/// holds, and unique once identifiers are distinct.
pub open spec fn room_idx(s: Seq<Room>, id: u64) -> int {
    choose|i: int| 0 <= i < s.len() && s[i].id == id
}

/// No room identifier occurs twice.
pub open spec fn rooms_distinct(s: Seq<Room>) -> bool {
    forall|i: int, j: int| 0 <= i < j < s.len() ==> s[i].id != s[j].id
}

/// With distinct identifiers, `room_idx` finds exactly the index one exhibits.
pub proof fn lemma_room_idx(s: Seq<Room>, id: u64, i: int)
    requires
        rooms_distinct(s),
        0 <= i < s.len(),
        s[i].id == id,
    ensures
        contains_room(s, id),
        room_idx(s, id) == i,
{
    assert(contains_room(s, id));
    let j = room_idx(s, id);
    if j != i {
        if j < i {
            assert(s[j].id != s[i].id);
        } else {
            assert(s[i].id != s[j].id);
        }
        assert(false);
    }
}

/// The room registry. The view is the sequence of rooms in creation order.
pub struct RoomManager {
    rooms: Vec<Room>,
    next_id: u64,
}

impl View for RoomManager {
    type V = Seq<Room>;

    closed spec fn view(&self) -> Seq<Room> {
        self.rooms@
    }
}

impl RoomManager {
    /// The next room identifier the manager would hand out.
    pub closed spec fn next_room_id(self) -> u64 {
        self.next_id
    }

    /// Manager invariant: distinct, already-allocated identifiers; every room
    /// well formed.
    pub open spec fn wf(self) -> bool {
        &&& rooms_distinct(self@)
        &&& forall|i: int| 0 <= i < self@.len() ==> (#[trigger] self@[i]).id < self.next_room_id()
        &&& forall|i: int| 0 <= i < self@.len() ==> (#[trigger] self@[i]).wf()
    }

    /// An empty room registry.
    pub fn new() -> (r: Self)
        ensures
            r.wf(),
            r@ == Seq::<Room>::empty(),
            r.next_room_id() == 0,
    {
        RoomManager { rooms: Vec::new(), next_id: 0 }
    }

    /// The identifier the next created room would get; the caller checks it
    /// is not exhausted before creating.
    pub fn peek_next_room_id(&self) -> (r: u64)
        ensures
            r == self.next_room_id(),
    {
        self.next_id
    }

    /// Creates a room under a fresh identifier with `conn_id` as its sole
    /// member, and returns that identifier.
    pub fn create(&mut self, conn_id: u64, name: String) -> (room_id: u64)
        requires
            old(self).wf(),
            old(self).next_room_id() < u64::MAX,
        ensures
            final(self).wf(),
            room_id == old(self).next_room_id(),
            !contains_room(old(self)@, room_id),
            final(self)@.len() == old(self)@.len() + 1,
            forall|i: int| 0 <= i < old(self)@.len() ==> final(self)@[i] == old(self)@[i],
            final(self)@.last().id == room_id,
            final(self)@.last().name@ == name@,
            final(self)@.last().members() == seq![conn_id],
            contains_room(final(self)@, room_id),
            final(self).next_room_id() == room_id + 1,
    {
        let room_id = self.next_id;
        let room = Room::new(room_id, name, conn_id);
        self.rooms.push(room);
        self.next_id = self.next_id + 1;
        proof {
            assert forall|i: int, j: int| 0 <= i < j < self@.len() implies self@[i].id
                != self@[j].id by {
                if j == self@.len() - 1 {
                    assert(self@[i].id < room_id);
                }
            }
            assert(self@[self@.len() - 1].id == room_id);
        }
        room_id
    }

    /// Resolves a join: adds `conn_id` to the room's membership (idempotent)
    /// and returns the room's identity, or `RoomNotFound` when no room
    /// carries `room_id`, leaving everything untouched.
    pub fn join(&mut self, room_id: u64, conn_id: u64) -> (r: Result<RoomInfo, ChatError>)
        requires
            old(self).wf(),
        ensures
            final(self).wf(),
            final(self).next_room_id() == old(self).next_room_id(),
            r is Ok <==> contains_room(old(self)@, room_id),
            r is Err ==> r == Err::<RoomInfo, ChatError>(ChatError::RoomNotFound)
                && final(self)@ == old(self)@,
            r matches Ok(info) ==> {
                let k = room_idx(old(self)@, room_id);
                &&& info.id == room_id
                &&& info.name@ == old(self)@[k].name@
                &&& final(self)@.len() == old(self)@.len()
                &&& forall|i: int|
                    0 <= i < old(self)@.len() && i != k ==> final(self)@[i] == old(self)@[i]
                &&& final(self)@[k].id == old(self)@[k].id
                &&& final(self)@[k].name == old(self)@[k].name
                &&& (old(self)@[k].members().contains(conn_id) ==> final(self)@[k].members()
                    == old(self)@[k].members())
                &&& (!old(self)@[k].members().contains(conn_id) ==> final(self)@[k].members()
                    == old(self)@[k].members().push(conn_id))
                &&& final(self)@[k].members().contains(conn_id)
            },
    {
        let n = self.rooms.len();
        let mut i: usize = 0;
        while i < n
            invariant
                old(self).wf(),
                n == self@.len(),
                i <= n,
                *self == *old(self),
                forall|j: int| 0 <= j < i ==> self@[j].id != room_id,
            decreases n - i,
        {
            if self.rooms[i].id == room_id {
                proof {
                    lemma_room_idx(self@, room_id, i as int);
                }
                let room = &mut self.rooms[i];
                room.add_client(conn_id);
                let info = self.rooms[i].room_info();
                proof {
                    assert forall|a: int, b: int| 0 <= a < b < self@.len() implies self@[a].id
                        != self@[b].id by {
                        assert(old(self)@[a].id != old(self)@[b].id);
                    }
                }
                return Ok(info);
            }
            i = i + 1;
        }
        Err(ChatError::RoomNotFound)
    }

    /// Plans a multicast of `resp` to the room carrying `id`: the room's lazy
    /// sweep runs and one delivery per reachable member comes back, or
    /// `RoomNotFound` when no such room exists.
    pub fn all(&mut self, id: u64, clients: &WsConnections, resp: &Response) -> (r: Result<
        Vec<Outbound>,
        ChatError,
    >)
        requires
            old(self).wf(),
            resp.wf(),
        ensures
            final(self).wf(),
            final(self).next_room_id() == old(self).next_room_id(),
            r is Ok <==> contains_room(old(self)@, id),
            r is Err ==> r == Err::<Vec<Outbound>, ChatError>(ChatError::RoomNotFound)
                && final(self)@ == old(self)@,
            r matches Ok(sends) ==> {
                let k = room_idx(old(self)@, id);
                &&& final(self)@.len() == old(self)@.len()
                &&& forall|i: int|
                    0 <= i < old(self)@.len() && i != k ==> final(self)@[i] == old(self)@[i]
                &&& final(self)@[k].id == old(self)@[k].id
                &&& final(self)@[k].name == old(self)@[k].name
                &&& final(self)@[k].members() == present_members(
                    old(self)@[k].members(),
                    clients@,
                )
                &&& targets_of(sends@) == final(self)@[k].members()
                &&& all_carry(sends@, resp.model())
            },
    {
        let n = self.rooms.len();
        let mut i: usize = 0;
        while i < n
            invariant
                old(self).wf(),
                resp.wf(),
                n == self@.len(),
                i <= n,
                *self == *old(self),
                forall|j: int| 0 <= j < i ==> self@[j].id != id,
            decreases n - i,
        {
            if self.rooms[i].id == id {
                proof {
                    lemma_room_idx(self@, id, i as int);
                }
                let room = &mut self.rooms[i];
                let sends = room.send(clients, resp);
                proof {
                    assert forall|a: int, b: int| 0 <= a < b < self@.len() implies self@[a].id
                        != self@[b].id by {
                        assert(old(self)@[a].id != old(self)@[b].id);
                    }
                }
                return Ok(sends);
            }
            i = i + 1;
        }
        Err(ChatError::RoomNotFound)
    }

    /// Sweeps members whose delivery failed out of the room carrying
    /// `room_id`; a vanished room is a no-op.
    pub fn remove_failed(&mut self, room_id: u64, failed: &Vec<u64>)
        requires
            old(self).wf(),
        ensures
            final(self).wf(),
            final(self).next_room_id() == old(self).next_room_id(),
            !contains_room(old(self)@, room_id) ==> final(self)@ == old(self)@,
            contains_room(old(self)@, room_id) ==> {
                let k = room_idx(old(self)@, room_id);
                &&& final(self)@.len() == old(self)@.len()
                &&& forall|i: int|
                    0 <= i < old(self)@.len() && i != k ==> final(self)@[i] == old(self)@[i]
                &&& final(self)@[k].id == old(self)@[k].id
                &&& final(self)@[k].name == old(self)@[k].name
                &&& final(self)@[k].members() == without_failed(old(self)@[k].members(), failed@)
            },
    {
        let n = self.rooms.len();
        let mut i: usize = 0;
        while i < n
            invariant
                old(self).wf(),
                n == self@.len(),
                i <= n,
                *self == *old(self),
                forall|j: int| 0 <= j < i ==> self@[j].id != room_id,
            decreases n - i,
        {
            if self.rooms[i].id == room_id {
                proof {
                    lemma_room_idx(self@, room_id, i as int);
                }
                let room = &mut self.rooms[i];
                room.remove_failed(failed);
                proof {
                    assert forall|a: int, b: int| 0 <= a < b < self@.len() implies self@[a].id
                        != self@[b].id by {
                        assert(old(self)@[a].id != old(self)@[b].id);
                    }
                }
                return;
            }
            i = i + 1;
        }
    }

    /// The current membership of the room carrying `room_id`, as a snapshot
    /// copy, or `None` when no such room exists.
    pub fn members_of(&self, room_id: u64) -> (r: Option<Vec<u64>>)
        requires
            self.wf(),
        ensures
            match r {
                Some(v) => contains_room(self@, room_id) && v@ == self@[room_idx(
                    self@,
                    room_id,
                )].members(),
                None => !contains_room(self@, room_id),
            },
    {
        let n = self.rooms.len();
        let mut i: usize = 0;
        while i < n
            invariant
                self.wf(),
                n == self@.len(),
                i <= n,
                forall|j: int| 0 <= j < i ==> self@[j].id != room_id,
            decreases n - i,
        {
            if self.rooms[i].id == room_id {
                proof {
                    lemma_room_idx(self@, room_id, i as int);
                }
                let room = &self.rooms[i];
                let m = room.room_clients.len();
                let mut v: Vec<u64> = Vec::new();
                let mut j: usize = 0;
                while j < m
                    invariant
                        m == room.room_clients@.len(),
                        j <= m,
                        v@ == room.room_clients@.take(j as int),
                    decreases m - j,
                {
                    v.push(room.room_clients[j]);
                    proof {
                        assert(room.room_clients@.take(j + 1) =~= room.room_clients@.take(
                            j as int,
                        ).push(room.room_clients@[j as int]));
                    }
                    j = j + 1;
                }
                proof {
                    assert(room.room_clients@.take(m as int) =~= room.room_clients@);
                }
                return Some(v);
            }
            i = i + 1;
        }
        None
    }
}

} // verus!
