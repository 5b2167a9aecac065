//! Laws of the service: properties that relate several operations, proved
//! once and for all from the contracts those operations state themselves.

use vstd::prelude::*;
use vstd::arithmetic::div_mod::{lemma_fundamental_div_mod, lemma_mod_division_less_than_divisor};

use crate::registry::{contains_id, idx_of, ids_distinct, name_of, WsClientConnection};
use crate::requests;
use crate::responses::{targets_of, Outbound, RespModel};
use crate::room::{lemma_present_members, present_members, u64s_distinct, Room};
use crate::room_manager::{contains_room, lemma_room_idx, room_idx, rooms_distinct};
use crate::service::{
    cascade_shape, dispatch_post, ok_disconnected, ok_join_room, ok_online, ok_room_message,
    ok_set_nickname, ok_user_message, recipients, FanoutScope, SendFilter,
};

verus! {

/// What one can observe of a registry entry: its identifier and its display
/// name as text.
pub open spec fn conn_models(s: Seq<WsClientConnection>) -> Seq<(u64, Option<Seq<char>>)> {
    s.map(
        |i: int, c: WsClientConnection|
            (
                c.id,
                match c.name {
                    Some(n) => Some(n@),
                    None => None,
                },
            ),
    )
}

/// What one can observe of a room: its identifier, its name as text, and its
/// membership.
pub open spec fn room_models(s: Seq<Room>) -> Seq<(u64, Seq<char>, Seq<u64>)> {
    s.map(|i: int, r: Room| (r.id, r.name@, r.members()))
}

/// `SetNickname` followed immediately by `Online` from the same connection
/// always broadcasts under the new name, never a stale one: the dispatcher
/// handles one event to completion before the next, so `Online` reads the
/// registry state the rename just produced.
pub proof fn lemma_nickname_then_online(
    pre: Seq<WsClientConnection>,
    mid: Seq<WsClientConnection>,
    conn_id: u64,
    name: String,
    sends1: Seq<Outbound>,
    sends2: Seq<Outbound>,
)
    requires
        ids_distinct(pre),
        contains_id(pre, conn_id),
        ok_set_nickname(pre, mid, conn_id, name, sends1),
        ok_online(mid, conn_id, sends2),
    ensures
        name_of(mid, conn_id) == Some(name),
        forall|i: int| 0 <= i < sends2.len() ==> (#[trigger] sends2[i]).response.model() == (
        RespModel::Online { id: conn_id, name: name@ }),
{
    let k = idx_of(pre, conn_id);
    assert(0 <= k < pre.len() && pre[k].id == conn_id);
    assert forall|a: int, b: int| 0 <= a < b < mid.len() implies mid[a].id != mid[b].id by {
        assert(pre[a].id != pre[b].id);
    }
    crate::registry::lemma_idx_of(mid, conn_id, k);
}

/// Broadcasting under a rule no registered connection matches is a no-op:
/// the planner selects nobody and plans nothing (and, taking the registry
/// immutably, cannot change it).
pub proof fn lemma_broadcast_empty(conns: Seq<WsClientConnection>, f: SendFilter)
    requires
        forall|i: int| 0 <= i < conns.len() ==> !crate::service::filter_matches(
            f,
            (#[trigger] conns[i]).id,
        ),
    ensures
        recipients(conns, f).len() == 0,
    decreases conns.len(),
{
    if conns.len() > 0 {
        let head = conns.drop_last();
        assert forall|i: int|
            0 <= i < head.len() implies !crate::service::filter_matches(
            f,
            (#[trigger] head[i]).id,
        ) by {
            assert(head[i] == conns[i]);
        }
        assert(!crate::service::filter_matches(f, conns[conns.len() - 1].id));
        lemma_broadcast_empty(head, f);
    }
}

/// Every entry of a well-shaped cascade, located: entry `k` is the offline
/// notice about the `k / survivors.len()`-th failed identifier, addressed to
/// the `k % survivors.len()`-th survivor.
pub proof fn lemma_cascade_index(
    cascade: Seq<Outbound>,
    survivors: Seq<WsClientConnection>,
    failed: Seq<u64>,
    k: int,
)
    requires
        cascade_shape(cascade, survivors, failed),
        0 <= k < cascade.len(),
        survivors.len() > 0,
    ensures
        ({
            let n = survivors.len() as int;
            let a = k / n;
            let b = k % n;
            &&& 0 <= a < failed.len()
            &&& 0 <= b < n
            &&& k == a * n + b
            &&& cascade[k].to == survivors[b].id
            &&& cascade[k].response.wf()
            &&& cascade[k].response.model() == (RespModel::Offline { id: failed[a] })
        }),
{
    let n = survivors.len() as int;
    let a = k / n;
    let b = k % n;
    lemma_fundamental_div_mod(k, n);
    lemma_mod_division_less_than_divisor(k, n);
    assert(k == n * a + b);
    assert(0 <= b < n);
    assert(0 <= a && a < failed.len()) by (nonlinear_arith)
        requires
            k == n * a + b,
            0 <= b < n,
            0 <= k,
            k < failed.len() * n,
    ;
    assert(cascade[a * n + b].to == survivors[b].id);
    assert(cascade[a * n + b].response.wf());
    assert(cascade[a * n + b].response.model() == (RespModel::Offline { id: failed[a] }));
    assert(a * n + b == k) by (nonlinear_arith)
        requires
            k == n * a + b,
    ;
}

/// After a fan-out in which some deliveries failed, every surviving
/// connection observes exactly one offline notice about each removed
/// connection: at least one, and never two.
pub proof fn lemma_cascade_exactly_once(
    cascade: Seq<Outbound>,
    survivors: Seq<WsClientConnection>,
    failed: Seq<u64>,
    x: u64,
    c: u64,
)
    requires
        cascade_shape(cascade, survivors, failed),
        u64s_distinct(failed),
        ids_distinct(survivors),
        failed.contains(x),
        contains_id(survivors, c),
    ensures
        exists|k: int|
            0 <= k < cascade.len() && (#[trigger] cascade[k]).to == c && cascade[k].response.model()
                == (RespModel::Offline { id: x }),
        forall|k1: int, k2: int|
            #![trigger cascade[k1], cascade[k2]]
            0 <= k1 < cascade.len() && 0 <= k2 < cascade.len() && cascade[k1].to == c
                && cascade[k1].response.model() == (RespModel::Offline { id: x })
                && cascade[k2].to == c && cascade[k2].response.model() == (RespModel::Offline {
                id: x,
            }) ==> k1 == k2,
{
    let n = survivors.len() as int;
    let j = choose|j: int| 0 <= j < failed.len() && failed[j] == x;
    let i = choose|i: int| 0 <= i < survivors.len() && survivors[i].id == c;
    let k = j * n + i;
    assert(0 <= k && k < failed.len() * n) by (nonlinear_arith)
        requires
            k == j * n + i,
            0 <= j < failed.len(),
            0 <= i < n,
    ;
    assert(cascade[j * n + i].to == survivors[i].id);
    assert(cascade[j * n + i].response.model() == (RespModel::Offline { id: failed[j] }));
    assert(0 <= k < cascade.len() && cascade[k].to == c && cascade[k].response.model() == (
    RespModel::Offline { id: x }));
    assert forall|k1: int, k2: int|
        #![trigger cascade[k1], cascade[k2]]
        0 <= k1 < cascade.len() && 0 <= k2 < cascade.len() && cascade[k1].to == c
            && cascade[k1].response.model() == (RespModel::Offline { id: x }) && cascade[k2].to
            == c && cascade[k2].response.model() == (RespModel::Offline { id: x }) implies k1
        == k2 by {
        lemma_cascade_index(cascade, survivors, failed, k1);
        lemma_cascade_index(cascade, survivors, failed, k2);
        let a1 = k1 / n;
        let b1 = k1 % n;
        let a2 = k2 / n;
        let b2 = k2 % n;
        if b1 != b2 {
            if b1 < b2 {
                assert(survivors[b1].id != survivors[b2].id);
            } else {
                assert(survivors[b2].id != survivors[b1].id);
            }
            assert(false);
        }
        if a1 != a2 {
            if a1 < a2 {
                assert(failed[a1] != failed[a2]);
            } else {
                assert(failed[a2] != failed[a1]);
            }
            assert(false);
        }
    }
}

/// A cascade says nothing about a connection that did not fail, and delivers
/// nothing to a connection that did not survive: in particular, once a
/// removed connection's notice has gone out, a later sweep can never repeat
/// it.
pub proof fn lemma_cascade_observed(
    cascade: Seq<Outbound>,
    survivors: Seq<WsClientConnection>,
    failed: Seq<u64>,
    x: u64,
)
    requires
        cascade_shape(cascade, survivors, failed),
    ensures
        !failed.contains(x) ==> forall|k: int|
            0 <= k < cascade.len() ==> (#[trigger] cascade[k]).response.model() != (
            RespModel::Offline { id: x }),
        !contains_id(survivors, x) ==> forall|k: int|
            0 <= k < cascade.len() ==> (#[trigger] cascade[k]).to != x,
{
    if cascade.len() > 0 {
        assert(survivors.len() > 0) by (nonlinear_arith)
            requires
                cascade.len() == failed.len() * survivors.len(),
                cascade.len() > 0,
        ;
        if !failed.contains(x) {
            assert forall|k: int|
                0 <= k < cascade.len() implies (#[trigger] cascade[k]).response.model() != (
            RespModel::Offline { id: x }) by {
                lemma_cascade_index(cascade, survivors, failed, k);
                let a = k / (survivors.len() as int);
                assert(failed[a] != x);
            }
        }
        if !contains_id(survivors, x) {
            assert forall|k: int| 0 <= k < cascade.len() implies (#[trigger] cascade[k]).to
                != x by {
                lemma_cascade_index(cascade, survivors, failed, k);
                let b = k % (survivors.len() as int);
                assert(survivors[b].id != x);
            }
        }
    }
}

/// No handled request other than a disconnect of `x` itself ever emits an
/// offline notice about `x`: offline notices come only from processing a
/// disconnect event or from the failure sweep.
pub proof fn lemma_no_spurious_offline(
    pre_ws: Seq<WsClientConnection>,
    post_ws: Seq<WsClientConnection>,
    pre_rooms: Seq<Room>,
    post_rooms: Seq<Room>,
    pre_next_room: u64,
    conn_id: u64,
    req: requests::Request,
    sends: Seq<Outbound>,
    scope: FanoutScope,
    x: u64,
)
    requires
        dispatch_post(
            pre_ws,
            post_ws,
            pre_rooms,
            post_rooms,
            pre_next_room,
            conn_id,
            req,
            sends,
            scope,
        ),
        req is Disconnected ==> conn_id != x,
    ensures
        forall|i: int| 0 <= i < sends.len() ==> (#[trigger] sends[i]).response.model() != (
        RespModel::Offline { id: x }),
{
    match req {
        requests::Request::Message(m) => match m.message_type {
            requests::MessageType::User => {
                if contains_id(pre_ws, conn_id) && name_of(pre_ws, conn_id) is Some
                    && contains_id(pre_ws, m.receiver_id) {
                    let t = choose|t: i64|
                        ok_user_message(pre_ws, conn_id, m.receiver_id, m.message@, t, sends);
                    assert(ok_user_message(
                        pre_ws,
                        conn_id,
                        m.receiver_id,
                        m.message@,
                        t,
                        sends,
                    ));
                }
            },
            requests::MessageType::Room => {
                if contains_id(pre_ws, conn_id) && name_of(pre_ws, conn_id) is Some
                    && contains_room(pre_rooms, m.receiver_id) {
                    let t = choose|t: i64|
                        ok_room_message(
                            pre_ws,
                            pre_rooms,
                            post_rooms,
                            conn_id,
                            m.receiver_id,
                            m.message@,
                            t,
                            sends,
                        );
                    assert(ok_room_message(
                        pre_ws,
                        pre_rooms,
                        post_rooms,
                        conn_id,
                        m.receiver_id,
                        m.message@,
                        t,
                        sends,
                    ));
                }
            },
        },
        _ => {},
    }
}

/// Joining a room one is already a member of changes no observable room
/// state: membership is a set, never duplicated.
pub proof fn lemma_join_idempotent(
    pre: Seq<Room>,
    mid: Seq<Room>,
    post: Seq<Room>,
    room_id: u64,
    conn_id: u64,
    sends1: Seq<Outbound>,
    sends2: Seq<Outbound>,
)
    requires
        rooms_distinct(pre),
        contains_room(pre, room_id),
        ok_join_room(pre, mid, room_id, conn_id, sends1),
        ok_join_room(mid, post, room_id, conn_id, sends2),
    ensures
        room_models(post) == room_models(mid),
{
    let k = room_idx(pre, room_id);
    assert(0 <= k < pre.len() && pre[k].id == room_id);
    assert forall|a: int, b: int| 0 <= a < b < mid.len() implies mid[a].id != mid[b].id by {
        assert(pre[a].id != pre[b].id);
    }
    lemma_room_idx(mid, room_id, k);
    assert(mid[k].members().contains(conn_id));
    assert(post[k].members() == mid[k].members());
    assert forall|i: int|
        0 <= i < mid.len() implies room_models(post)[i] == room_models(mid)[i] by {
        if i != k {
            assert(post[i] == mid[i]);
        }
    }
    assert(room_models(post) =~= room_models(mid));
}

/// One multicast, one delivery: a member of the room that is still
/// registered receives the message exactly once, and nobody outside the
/// membership receives it at all — joins being idempotent, membership never
/// holds a member twice.
pub proof fn lemma_multicast_exactly_once(
    ws: Seq<WsClientConnection>,
    pre_rooms: Seq<Room>,
    post_rooms: Seq<Room>,
    conn_id: u64,
    room_id: u64,
    message: Seq<char>,
    created_at: i64,
    sends: Seq<Outbound>,
    m: u64,
)
    requires
        rooms_distinct(pre_rooms),
        contains_room(pre_rooms, room_id),
        u64s_distinct(pre_rooms[room_idx(pre_rooms, room_id)].members()),
        ok_room_message(
            ws,
            pre_rooms,
            post_rooms,
            conn_id,
            room_id,
            message,
            created_at,
            sends,
        ),
    ensures
        pre_rooms[room_idx(pre_rooms, room_id)].members().contains(m) && contains_id(ws, m)
            ==> exists|i: int| 0 <= i < sends.len() && (#[trigger] sends[i]).to == m,
        forall|i: int, j: int|
            #![trigger sends[i], sends[j]]
            0 <= i < sends.len() && 0 <= j < sends.len() && sends[i].to == sends[j].to ==> i == j,
        forall|i: int| 0 <= i < sends.len() ==> pre_rooms[room_idx(
            pre_rooms,
            room_id,
        )].members().contains((#[trigger] sends[i]).to) && contains_id(ws, sends[i].to),
{
    let k = room_idx(pre_rooms, room_id);
    let members = pre_rooms[k].members();
    let reach = present_members(members, ws);
    lemma_present_members(members, ws);
    assert(targets_of(sends) == reach);
    assert(sends.len() == reach.len());
    if members.contains(m) && contains_id(ws, m) {
        assert(reach.contains(m));
        let i = choose|i: int| 0 <= i < reach.len() && reach[i] == m;
        assert(targets_of(sends)[i] == sends[i].to);
        assert(sends[i].to == m);
    }
    assert forall|i: int, j: int|
        #![trigger sends[i], sends[j]]
        0 <= i < sends.len() && 0 <= j < sends.len() && sends[i].to == sends[j].to implies i
        == j by {
        assert(targets_of(sends)[i] == sends[i].to);
        assert(targets_of(sends)[j] == sends[j].to);
        if i != j {
            if i < j {
                assert(reach[i] != reach[j]);
            } else {
                assert(reach[j] != reach[i]);
            }
            assert(false);
        }
    }
    assert forall|i: int| 0 <= i < sends.len() implies members.contains(
        (#[trigger] sends[i]).to,
    ) && contains_id(ws, sends[i].to) by {
        assert(targets_of(sends)[i] == sends[i].to);
        assert(reach.contains(reach[i]));
    }
}

/// A disconnect removes the connection from the registry but from no room's
/// membership; the next multicast of any room that still lists it simply
/// cannot reach it any more — the planner drops it, exactly as it drops any
/// other unreachable member.
pub proof fn lemma_disconnect_then_multicast(
    pre_ws: Seq<WsClientConnection>,
    post_ws: Seq<WsClientConnection>,
    conn_id: u64,
    dsends: Seq<Outbound>,
    members: Seq<u64>,
)
    requires
        ok_disconnected(pre_ws, post_ws, conn_id, dsends),
    ensures
        !present_members(members, post_ws).contains(conn_id),
{
    lemma_present_members(members, post_ws);
}

/// The dispatcher is a function of the state and the event: from one state,
/// one event leads to one observable next state, one set of recipients, and
/// one failure scope (only a message's timestamp comes from the clock).
/// With the dispatcher handling one event to completion before the next,
/// this is why effects are observed in the order the requests arrived.
pub proof fn lemma_dispatch_deterministic(
    pre_ws: Seq<WsClientConnection>,
    ws_a: Seq<WsClientConnection>,
    ws_b: Seq<WsClientConnection>,
    pre_rooms: Seq<Room>,
    rooms_a: Seq<Room>,
    rooms_b: Seq<Room>,
    pre_next_room: u64,
    conn_id: u64,
    req: requests::Request,
    sends_a: Seq<Outbound>,
    sends_b: Seq<Outbound>,
    scope_a: FanoutScope,
    scope_b: FanoutScope,
)
    requires
        rooms_distinct(pre_rooms),
        dispatch_post(
            pre_ws,
            ws_a,
            pre_rooms,
            rooms_a,
            pre_next_room,
            conn_id,
            req,
            sends_a,
            scope_a,
        ),
        dispatch_post(
            pre_ws,
            ws_b,
            pre_rooms,
            rooms_b,
            pre_next_room,
            conn_id,
            req,
            sends_b,
            scope_b,
        ),
    ensures
        ws_a == ws_b,
        room_models(rooms_a) == room_models(rooms_b),
        targets_of(sends_a) == targets_of(sends_b),
        scope_a == scope_b,
{
    match req {
        requests::Request::GetId => {
            assert(targets_of(sends_a) =~= targets_of(sends_b));
            assert(room_models(rooms_a) =~= room_models(rooms_b));
        },
        requests::Request::SetNickname(_) => {
            assert(targets_of(sends_a) =~= targets_of(sends_b));
            assert(room_models(rooms_a) =~= room_models(rooms_b));
        },
        requests::Request::Online => {
            assert(targets_of(sends_a) =~= targets_of(sends_b));
            assert(room_models(rooms_a) =~= room_models(rooms_b));
        },
        requests::Request::Message(m) => match m.message_type {
            requests::MessageType::User => {
                if contains_id(pre_ws, conn_id) && name_of(pre_ws, conn_id) is Some
                    && contains_id(pre_ws, m.receiver_id) {
                    let ta = choose|t: i64|
                        ok_user_message(pre_ws, conn_id, m.receiver_id, m.message@, t, sends_a);
                    let tb = choose|t: i64|
                        ok_user_message(pre_ws, conn_id, m.receiver_id, m.message@, t, sends_b);
                    assert(ok_user_message(
                        pre_ws,
                        conn_id,
                        m.receiver_id,
                        m.message@,
                        ta,
                        sends_a,
                    ));
                    assert(ok_user_message(
                        pre_ws,
                        conn_id,
                        m.receiver_id,
                        m.message@,
                        tb,
                        sends_b,
                    ));
                }
                assert(targets_of(sends_a) =~= targets_of(sends_b));
                assert(room_models(rooms_a) =~= room_models(rooms_b));
            },
            requests::MessageType::Room => {
                if contains_id(pre_ws, conn_id) && name_of(pre_ws, conn_id) is Some
                    && contains_room(pre_rooms, m.receiver_id) {
                    let ta = choose|t: i64|
                        ok_room_message(
                            pre_ws,
                            pre_rooms,
                            rooms_a,
                            conn_id,
                            m.receiver_id,
                            m.message@,
                            t,
                            sends_a,
                        );
                    let tb = choose|t: i64|
                        ok_room_message(
                            pre_ws,
                            pre_rooms,
                            rooms_b,
                            conn_id,
                            m.receiver_id,
                            m.message@,
                            t,
                            sends_b,
                        );
                    assert(ok_room_message(
                        pre_ws,
                        pre_rooms,
                        rooms_a,
                        conn_id,
                        m.receiver_id,
                        m.message@,
                        ta,
                        sends_a,
                    ));
                    assert(ok_room_message(
                        pre_ws,
                        pre_rooms,
                        rooms_b,
                        conn_id,
                        m.receiver_id,
                        m.message@,
                        tb,
                        sends_b,
                    ));
                    let k = room_idx(pre_rooms, m.receiver_id);
                    assert forall|i: int|
                        0 <= i < rooms_a.len() implies room_models(rooms_a)[i] == room_models(
                        rooms_b,
                    )[i] by {
                        if i != k {
                            assert(rooms_a[i] == pre_rooms[i]);
                            assert(rooms_b[i] == pre_rooms[i]);
                        }
                    }
                    assert(room_models(rooms_a) =~= room_models(rooms_b));
                    assert(targets_of(sends_a) == rooms_a[k].members());
                    assert(targets_of(sends_b) == rooms_b[k].members());
                } else {
                    assert(room_models(rooms_a) =~= room_models(rooms_b));
                }
                assert(targets_of(sends_a) =~= targets_of(sends_b));
            },
        },
        requests::Request::CreateRoom(_) => {
            if contains_id(pre_ws, conn_id) {
                assert forall|i: int|
                    0 <= i < rooms_a.len() implies room_models(rooms_a)[i] == room_models(
                    rooms_b,
                )[i] by {
                    if i < pre_rooms.len() {
                        assert(rooms_a[i] == pre_rooms[i]);
                        assert(rooms_b[i] == pre_rooms[i]);
                    } else {
                        assert(rooms_a[i] == rooms_a.last());
                        assert(rooms_b[i] == rooms_b.last());
                    }
                }
            }
            assert(room_models(rooms_a) =~= room_models(rooms_b));
            assert(targets_of(sends_a) =~= targets_of(sends_b));
        },
        requests::Request::JoinRoom(jr) => {
            if contains_id(pre_ws, conn_id) && contains_room(pre_rooms, jr.id) {
                let k = room_idx(pre_rooms, jr.id);
                assert forall|i: int|
                    0 <= i < rooms_a.len() implies room_models(rooms_a)[i] == room_models(
                    rooms_b,
                )[i] by {
                    if i != k {
                        assert(rooms_a[i] == pre_rooms[i]);
                        assert(rooms_b[i] == pre_rooms[i]);
                    }
                }
            }
            assert(room_models(rooms_a) =~= room_models(rooms_b));
            assert(targets_of(sends_a) =~= targets_of(sends_b));
        },
        requests::Request::Disconnected => {
            assert(room_models(rooms_a) =~= room_models(rooms_b));
            assert(targets_of(sends_a) =~= targets_of(sends_b));
        },
        requests::Request::GlobalOnline => {
            assert(room_models(rooms_a) =~= room_models(rooms_b));
            assert(targets_of(sends_a) =~= targets_of(sends_b));
        },
    }
}

} // verus!
