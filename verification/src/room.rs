//! A room: a named multicast group of connection identifiers.
//!
//! Membership is a set (no duplicates). A member that disconnected is not
//! removed proactively; the next multicast that cannot resolve it against the
//! registry drops it, and a delivery failure the transport reports sweeps it
//! the same way — membership is swept lazily by the multicast step.

use vstd::prelude::*;

use crate::registry::{contains_id, WsClientConnection, WsConnections};
use crate::responses::{targets_of, all_carry, Outbound, Response};

verus! {

/// No identifier occurs twice in `s`.
pub open spec fn u64s_distinct(s: Seq<u64>) -> bool {
    forall|i: int, j: int| 0 <= i < j < s.len() ==> s[i] != s[j]
}

/// Does `v` hold `x`? Plain linear scan over a set of identifiers.
pub fn vec_contains(v: &Vec<u64>, x: u64) -> (r: bool)
    ensures
        r == v@.contains(x),
{
    let n = v.len();
    let mut i: usize = 0;
    while i < n
        invariant
            n == v@.len(),
            i <= n,
            forall|j: int| 0 <= j < i ==> v@[j] != x,
        decreases n - i,
    {
        if v[i] == x {
            return true;
        }
        i = i + 1;
    }
    false
}

/// The members of `members` still present in the registry snapshot `conns`,
/// in membership order: what one multicast attempt can actually reach.
pub open spec fn present_members(members: Seq<u64>, conns: Seq<WsClientConnection>) -> Seq<u64>
    decreases members.len(),
{
    if members.len() == 0 {
        Seq::empty()
    } else {
        let rest = present_members(members.drop_last(), conns);
        if contains_id(conns, members.last()) {
            rest.push(members.last())
        } else {
            rest
        }
    }
}

/// `members` with every identifier of `failed` taken out.
pub open spec fn without_failed(members: Seq<u64>, failed: Seq<u64>) -> Seq<u64>
    decreases members.len(),
{
    if members.len() == 0 {
        Seq::empty()
    } else {
        let rest = without_failed(members.drop_last(), failed);
        if failed.contains(members.last()) {
            rest
        } else {
            rest.push(members.last())
        }
    }
}

/// What `present_members` keeps: exactly the members the registry still holds,
/// without duplicates when membership had none.
pub proof fn lemma_present_members(members: Seq<u64>, conns: Seq<WsClientConnection>)
    ensures
        forall|m: u64| #[trigger] present_members(members, conns).contains(m) <==> (
        members.contains(m) && contains_id(conns, m)),
        u64s_distinct(members) ==> u64s_distinct(present_members(members, conns)),
    decreases members.len(),
{
    let p = present_members(members, conns);
    if members.len() == 0 {
        assert forall|m: u64| #[trigger] p.contains(m) implies false by {
            let i = choose|i: int| 0 <= i < p.len() && p[i] == m;
        }
        assert forall|m: u64| #[trigger] members.contains(m) implies false by {
            let i = choose|i: int| 0 <= i < members.len() && members[i] == m;
        }
    } else {
        let head = members.drop_last();
        let last = members.last();
        let rest = present_members(head, conns);
        lemma_present_members(head, conns);
        assert forall|m: u64| #[trigger] p.contains(m) implies members.contains(m)
            && contains_id(conns, m) by {
            let i = choose|i: int| 0 <= i < p.len() && p[i] == m;
            if contains_id(conns, last) && i == p.len() - 1 {
                assert(members[members.len() - 1] == m);
            } else {
                assert(rest[i] == m);
                assert(rest.contains(m));
                let j = choose|j: int| 0 <= j < head.len() && head[j] == m;
                assert(members[j] == m);
            }
        }
        assert forall|m: u64| members.contains(m) && contains_id(conns, m) implies #[trigger] p
            .contains(m) by {
            let i = choose|i: int| 0 <= i < members.len() && members[i] == m;
            if i == members.len() - 1 {
                assert(p[p.len() - 1] == m);
            } else {
                assert(head[i] == m);
                assert(head.contains(m));
                assert(rest.contains(m));
                let j = choose|j: int| 0 <= j < rest.len() && rest[j] == m;
                assert(p[j] == m);
            }
        }
        if u64s_distinct(members) {
            assert forall|i: int, j: int|
                0 <= i < j < head.len() implies head[i] != head[j] by {
                assert(members[i] == head[i] && members[j] == head[j]);
            }
            if contains_id(conns, last) {
                assert forall|i: int|
                    0 <= i < head.len() implies head[i] != last by {
                    assert(members[i] == head[i]);
                }
                assert forall|i: int, j: int| 0 <= i < j < p.len() implies p[i] != p[j] by {
                    if j < p.len() - 1 {
                        assert(p[i] == rest[i] && p[j] == rest[j]);
                    } else {
                        assert(p[i] == rest[i]);
                        assert(rest.contains(rest[i]));
                        let a = choose|a: int| 0 <= a < head.len() && head[a] == rest[i];
                        assert(head[a] != last);
                    }
                }
            }
        }
    }
}

/// What the failure sweep keeps: the members not reported failed, in order,
/// still without duplicates when membership had none.
pub proof fn lemma_without_failed(members: Seq<u64>, failed: Seq<u64>)
    ensures
        forall|m: u64| #[trigger] without_failed(members, failed).contains(m) <==> (
        members.contains(m) && !failed.contains(m)),
        u64s_distinct(members) ==> u64s_distinct(without_failed(members, failed)),
    decreases members.len(),
{
    let p = without_failed(members, failed);
    if members.len() == 0 {
        assert forall|m: u64| #[trigger] p.contains(m) implies false by {
            let i = choose|i: int| 0 <= i < p.len() && p[i] == m;
        }
        assert forall|m: u64| #[trigger] members.contains(m) implies false by {
            let i = choose|i: int| 0 <= i < members.len() && members[i] == m;
        }
    } else {
        let head = members.drop_last();
        let last = members.last();
        let rest = without_failed(head, failed);
        lemma_without_failed(head, failed);
        assert forall|m: u64| #[trigger] p.contains(m) implies members.contains(m)
            && !failed.contains(m) by {
            let i = choose|i: int| 0 <= i < p.len() && p[i] == m;
            if !failed.contains(last) && i == p.len() - 1 {
                assert(members[members.len() - 1] == m);
            } else {
                assert(rest[i] == m);
                assert(rest.contains(m));
                let j = choose|j: int| 0 <= j < head.len() && head[j] == m;
                assert(members[j] == m);
            }
        }
        assert forall|m: u64| members.contains(m) && !failed.contains(m) implies #[trigger] p
            .contains(m) by {
            let i = choose|i: int| 0 <= i < members.len() && members[i] == m;
            if i == members.len() - 1 {
                assert(p[p.len() - 1] == m);
            } else {
                assert(head[i] == m);
                assert(head.contains(m));
                assert(rest.contains(m));
                let j = choose|j: int| 0 <= j < rest.len() && rest[j] == m;
                assert(p[j] == m);
            }
        }
        if u64s_distinct(members) {
            assert forall|i: int, j: int|
                0 <= i < j < head.len() implies head[i] != head[j] by {
                assert(members[i] == head[i] && members[j] == head[j]);
            }
            if !failed.contains(last) {
                assert forall|i: int|
                    0 <= i < head.len() implies head[i] != last by {
                    assert(members[i] == head[i]);
                }
                assert forall|i: int, j: int| 0 <= i < j < p.len() implies p[i] != p[j] by {
                    if j < p.len() - 1 {
                        assert(p[i] == rest[i] && p[j] == rest[j]);
                    } else {
                        assert(p[i] == rest[i]);
                        assert(rest.contains(rest[i]));
                        let a = choose|a: int| 0 <= a < head.len() && head[a] == rest[i];
                        assert(head[a] != last);
                    }
                }
            }
        }
    }
}

/// A named multicast group. `id` and `name` are set at creation and immutable;
/// the membership set changes by joins and by the lazy sweep.
#[derive(Debug)]
pub struct Room {
    pub id: u64,
    pub name: String,
    pub room_clients: Vec<u64>,
}

/// What a client is told about a room it created or joined.
#[derive(Debug)]
pub struct RoomInfo {
    pub id: u64,
    pub name: String,
}

impl Room {
    /// The membership set, in join order.
    pub open spec fn members(self) -> Seq<u64> {
        self.room_clients@
    }

    /// Room invariant: no member occurs twice.
    pub open spec fn wf(self) -> bool {
        u64s_distinct(self.members())
    }

    /// A fresh room whose sole member is its creator.
    pub fn new(id: u64, name: String, creator: u64) -> (r: Room)
        ensures
            r.wf(),
            r.id == id,
            r.name@ == name@,
            r.members() == seq![creator],
    {
        let mut room_clients: Vec<u64> = Vec::new();
        room_clients.push(creator);
        proof {
            assert(room_clients@ =~= seq![creator]);
        }
        Room { id, name, room_clients }
    }

    /// Adds a member. Idempotent: joining a room one is already in changes
    /// nothing, so membership never holds duplicates.
    pub fn add_client(&mut self, conn_id: u64)
        requires
            old(self).wf(),
        ensures
            final(self).wf(),
            final(self).id == old(self).id,
            final(self).name == old(self).name,
            old(self).members().contains(conn_id) ==> final(self).members() == old(
                self,
            ).members(),
            !old(self).members().contains(conn_id) ==> final(self).members() == old(
                self,
            ).members().push(conn_id),
            final(self).members().contains(conn_id),
    {
        if !vec_contains(&self.room_clients, conn_id) {
            self.room_clients.push(conn_id);
            proof {
                let s = self.room_clients@;
                assert forall|i: int, j: int| 0 <= i < j < s.len() implies s[i] != s[j] by {
                    if j == s.len() - 1 {
                        assert(old(self).members().contains(old(self).members()[i]));
                    }
                }
            }
        }
        proof {
            if !old(self).members().contains(conn_id) {
                assert(self.members()[self.members().len() - 1] == conn_id);
            }
        }
    }

    /// Removes a member; absent identifiers are a no-op.
    pub fn remove_client(&mut self, client_id: u64)
        requires
            old(self).wf(),
        ensures
            final(self).wf(),
            final(self).id == old(self).id,
            final(self).name == old(self).name,
            final(self).members() == without_failed(old(self).members(), seq![client_id]),
            !final(self).members().contains(client_id),
    {
        let mut failed: Vec<u64> = Vec::new();
        failed.push(client_id);
        proof {
            assert(failed@ =~= seq![client_id]);
        }
        self.remove_failed(&failed);
        proof {
            lemma_without_failed(old(self).members(), seq![client_id]);
            assert(seq![client_id][0] == client_id);
            assert(seq![client_id].contains(client_id));
        }
    }

    /// The identity a client is told on create or join.
    pub fn room_info(&self) -> (r: RoomInfo)
        ensures
            r.id == self.id,
            r.name@ == self.name@,
    {
        RoomInfo { id: self.id, name: self.name.clone() }
    }

    /// Plans one multicast of `resp` to this room: one delivery per member
    /// still present in the registry snapshot, in membership order. Members
    /// the registry no longer holds are dropped from membership here — the
    /// lazy sweep — and get no delivery.
    pub fn send(&mut self, clients: &WsConnections, resp: &Response) -> (sends: Vec<Outbound>)
        requires
            old(self).wf(),
            resp.wf(),
        ensures
            final(self).wf(),
            final(self).id == old(self).id,
            final(self).name == old(self).name,
            final(self).members() == present_members(old(self).members(), clients@),
            targets_of(sends@) == final(self).members(),
            all_carry(sends@, resp.model()),
    {
        let ghost ms = self.room_clients@;
        let n = self.room_clients.len();
        let mut survivors: Vec<u64> = Vec::new();
        let mut sends: Vec<Outbound> = Vec::new();
        let mut i: usize = 0;
        while i < n
            invariant
                n == ms.len(),
                i <= n,
                self.room_clients@ == ms,
                resp.wf(),
                survivors@ == present_members(ms.take(i as int), clients@),
                sends@.len() == survivors@.len(),
                forall|j: int| 0 <= j < sends@.len() ==> (#[trigger] sends@[j]).to
                    == survivors@[j],
                forall|j: int| 0 <= j < sends@.len() ==> (#[trigger] sends@[j]).response.wf()
                    && sends@[j].response.model() == resp.model(),
            decreases n - i,
        {
            let m = self.room_clients[i];
            proof {
                assert(ms.take(i + 1).drop_last() =~= ms.take(i as int));
                assert(ms.take(i + 1).last() == ms[i as int]);
            }
            if clients.contains(m) {
                survivors.push(m);
                sends.push(Outbound { to: m, response: resp.duplicate() });
            }
            i = i + 1;
        }
        proof {
            assert(ms.take(n as int) =~= ms);
        }
        self.room_clients = survivors;
        proof {
            lemma_present_members(ms, clients@);
            assert(targets_of(sends@) =~= self.members());
        }
        sends
    }

    /// Multicasts to every member, like the underlying send path with no
    /// extra filtering.
    pub fn all(&mut self, clients: &WsConnections, resp: &Response) -> (sends: Vec<Outbound>)
        requires
            old(self).wf(),
            resp.wf(),
        ensures
            final(self).wf(),
            final(self).id == old(self).id,
            final(self).name == old(self).name,
            final(self).members() == present_members(old(self).members(), clients@),
            targets_of(sends@) == final(self).members(),
            all_carry(sends@, resp.model()),
    {
        self.send(clients, resp)
    }

    /// Sweeps members whose delivery the transport reported failed. No
    /// cascade follows from a room sweep; the member merely leaves the room.
    pub fn remove_failed(&mut self, failed: &Vec<u64>)
        requires
            old(self).wf(),
        ensures
            final(self).wf(),
            final(self).id == old(self).id,
            final(self).name == old(self).name,
            final(self).members() == without_failed(old(self).members(), failed@),
    {
        let ghost ms = self.room_clients@;
        let n = self.room_clients.len();
        let mut survivors: Vec<u64> = Vec::new();
        let mut i: usize = 0;
        while i < n
            invariant
                n == ms.len(),
                i <= n,
                self.room_clients@ == ms,
                survivors@ == without_failed(ms.take(i as int), failed@),
            decreases n - i,
        {
            let m = self.room_clients[i];
            proof {
                assert(ms.take(i + 1).drop_last() =~= ms.take(i as int));
                assert(ms.take(i + 1).last() == ms[i as int]);
            }
            if !vec_contains(failed, m) {
                survivors.push(m);
            }
            i = i + 1;
        }
        proof {
            assert(ms.take(n as int) =~= ms);
        }
        self.room_clients = survivors;
        proof {
            lemma_without_failed(ms, failed@);
        }
    }
}

} // verus!
