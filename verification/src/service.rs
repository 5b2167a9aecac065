//! The broadcast engine and the dispatcher.
//!
//! Every state change of the service happens here, one inbound event at a
//! time: the dispatcher decodes nothing and sends nothing itself — it mutates
//! the registries and returns the batch of deliveries the transport must
//! attempt. When the transport reports which deliveries failed, the sweep
//! functions remove the dead connections and plan the one-level offline
//! cascade; the cascade's own failures are dropped, never cascaded again.

use vstd::prelude::*;

use crate::registry::{contains_id, idx_of, ids_distinct, name_of, WsClientConnection, WsConnections};
use crate::requests;
use crate::responses::{
    all_carry, targets_of, GetId, GlobalOnline, Message, Offline, Online, Outbound, Response,
    ResponseData, ResponseError, ResponseType, RespModel, SetNickname, UserInfo,
};
use crate::room::u64s_distinct;
use crate::room_manager::RoomManager;
use crate::types::ChatError;

verus! {

/// The enumerated targeting rule of the broadcast engine: everyone, one
/// connection, or everyone but the originator.
#[derive(Debug, Clone, Copy, PartialEq, Eq, Structural)]
pub enum SendFilter {
    All,
    ById(u64),
    ExcludingSelf(u64),
}

/// Does the rule select the connection carrying `id`?
pub open spec fn filter_matches(f: SendFilter, id: u64) -> bool {
    match f {
        SendFilter::All => true,
        SendFilter::ById(target) => id == target,
        SendFilter::ExcludingSelf(origin) => id != origin,
    }
}

/// The identifiers a fan-out under rule `f` delivers to, in registry order.
pub open spec fn recipients(conns: Seq<WsClientConnection>, f: SendFilter) -> Seq<u64>
    decreases conns.len(),
{
    if conns.len() == 0 {
        Seq::empty()
    } else {
        let rest = recipients(conns.drop_last(), f);
        if filter_matches(f, conns.last().id) {
            rest.push(conns.last().id)
        } else {
            rest
        }
    }
}

/// Who a fan-out reaches: exactly the registered identifiers the rule
/// selects, each at most once when the registry is well formed.
pub proof fn lemma_recipients(conns: Seq<WsClientConnection>, f: SendFilter)
    ensures
        forall|m: u64| #[trigger] recipients(conns, f).contains(m) <==> (contains_id(conns, m)
            && filter_matches(f, m)),
        ids_distinct(conns) ==> u64s_distinct(recipients(conns, f)),
    decreases conns.len(),
{
    let p = recipients(conns, f);
    if conns.len() == 0 {
        assert forall|m: u64| #[trigger] p.contains(m) implies false by {
            let i = choose|i: int| 0 <= i < p.len() && p[i] == m;
        }
    } else {
        let head = conns.drop_last();
        let last = conns.last();
        let rest = recipients(head, f);
        lemma_recipients(head, f);
        assert forall|m: u64| #[trigger] p.contains(m) implies contains_id(conns, m)
            && filter_matches(f, m) by {
            let i = choose|i: int| 0 <= i < p.len() && p[i] == m;
            if filter_matches(f, last.id) && i == p.len() - 1 {
                assert(conns[conns.len() - 1].id == m);
            } else {
                assert(rest[i] == m);
                assert(rest.contains(m));
                let j = choose|j: int| 0 <= j < head.len() && head[j].id == m;
                assert(conns[j].id == m);
            }
        }
        assert forall|m: u64| contains_id(conns, m) && filter_matches(f, m) implies #[trigger] p
            .contains(m) by {
            let i = choose|i: int| 0 <= i < conns.len() && conns[i].id == m;
            if i == conns.len() - 1 {
                assert(p[p.len() - 1] == m);
            } else {
                assert(head[i].id == m);
                assert(contains_id(head, m));
                assert(rest.contains(m));
                let j = choose|j: int| 0 <= j < rest.len() && rest[j] == m;
                assert(p[j] == m);
            }
        }
        if ids_distinct(conns) {
            assert forall|i: int, j: int|
                0 <= i < j < head.len() implies head[i].id != head[j].id by {
                assert(conns[i].id != conns[j].id);
            }
            if filter_matches(f, last.id) {
                assert forall|i: int|
                    0 <= i < head.len() implies head[i].id != last.id by {
                    assert(conns[i].id != conns[conns.len() - 1].id);
                }
                assert(!contains_id(head, last.id));
                assert(!rest.contains(last.id));
                assert forall|i: int, j: int| 0 <= i < j < p.len() implies p[i] != p[j] by {
                    if j < p.len() - 1 {
                        assert(p[i] == rest[i] && p[j] == rest[j]);
                    } else {
                        assert(p[i] == rest[i]);
                        assert(rest.contains(rest[i]));
                    }
                }
            }
        }
    }
}

/// Fans `resp` out to every connection the rule selects, against a snapshot
/// of the registry taken at the start of the call: one planned delivery per
/// selected connection, in registry order. Selecting nobody plans nothing.
pub fn send(ws_connections: &WsConnections, predicate: SendFilter, resp: &Response) -> (sends: Vec<
    Outbound,
>)
    requires
        resp.wf(),
    ensures
        targets_of(sends@) == recipients(ws_connections@, predicate),
        all_carry(sends@, resp.model()),
{
    let ghost cs = ws_connections@;
    let n = ws_connections.len();
    let mut sends: Vec<Outbound> = Vec::new();
    let mut i: usize = 0;
    while i < n
        invariant
            resp.wf(),
            n == cs.len(),
            i <= n,
            ws_connections@ == cs,
            targets_of(sends@) == recipients(cs.take(i as int), predicate),
            all_carry(sends@, resp.model()),
        decreases n - i,
    {
        let c = ws_connections.at(i);
        proof {
            assert(cs.take(i + 1).drop_last() =~= cs.take(i as int));
            assert(cs.take(i + 1).last() == cs[i as int]);
        }
        let matched = match predicate {
            SendFilter::All => true,
            SendFilter::ById(target) => c.id == target,
            SendFilter::ExcludingSelf(origin) => c.id != origin,
        };
        if matched {
            sends.push(Outbound { to: c.id, response: resp.duplicate() });
            proof {
                assert(targets_of(sends@) =~= recipients(cs.take(i + 1), predicate));
            }
        } else {
            proof {
                assert(targets_of(sends@) =~= recipients(cs.take(i + 1), predicate));
            }
        }
        i = i + 1;
    }
    proof {
        assert(cs.take(n as int) =~= cs);
    }
    sends
}

/// Fans out to everyone.
pub fn all(ws_connections: &WsConnections, resp: &Response) -> (sends: Vec<Outbound>)
    requires
        resp.wf(),
    ensures
        targets_of(sends@) == recipients(ws_connections@, SendFilter::All),
        all_carry(sends@, resp.model()),
{
    send(ws_connections, SendFilter::All, resp)
}

/// Sends to exactly one connection. A target the registry does not currently
/// hold is `ClientNotFound` — the target left before the attempt even
/// started, which is distinct from a mid-broadcast transport failure — and
/// nothing is planned or changed.
pub fn direct(ws_connections: &WsConnections, receiver_id: u64, resp: &Response) -> (r: Result<
    Vec<Outbound>,
    ChatError,
>)
    requires
        ws_connections.wf(),
        resp.wf(),
    ensures
        r is Ok <==> contains_id(ws_connections@, receiver_id),
        r is Err ==> r == Err::<Vec<Outbound>, ChatError>(ChatError::ClientNotFound),
        r matches Ok(sends) ==> sends@.len() == 1 && sends@[0].to == receiver_id && all_carry(
            sends@,
            resp.model(),
        ),
{
    if !ws_connections.contains(receiver_id) {
        return Err(ChatError::ClientNotFound);
    }
    let mut sends: Vec<Outbound> = Vec::new();
    sends.push(Outbound { to: receiver_id, response: resp.duplicate() });
    Ok(sends)
}

/// Fans out to everyone but the originator.
pub fn other(client_id: u64, ws_connections: &WsConnections, resp: &Response) -> (sends: Vec<
    Outbound,
>)
    requires
        resp.wf(),
    ensures
        targets_of(sends@) == recipients(ws_connections@, SendFilter::ExcludingSelf(client_id)),
        all_carry(sends@, resp.model()),
{
    send(ws_connections, SendFilter::ExcludingSelf(client_id), resp)
}

/// Relies on chrono::Utc::now for the clock reading behind message
/// timestamps, reduced to milliseconds since the Unix epoch. Nothing is
/// assumed of the value: the clock may read anything.
#[verifier::external_body]
fn now_unix_millis() -> (t: i64) {
    chrono::Utc::now().timestamp_millis()
}

/// The identity response a present requester is owed.
pub open spec fn ok_get_id(conn_id: u64, sends: Seq<Outbound>) -> bool {
    &&& sends.len() == 1
    &&& sends[0].to == conn_id
    &&& all_carry(sends, RespModel::GetId { id: conn_id })
}

/// The presence-online broadcast a named requester triggers: everyone hears
/// it, under the name the registry holds right now.
pub open spec fn ok_online(ws: Seq<WsClientConnection>, conn_id: u64, sends: Seq<Outbound>) -> bool {
    &&& targets_of(sends) == recipients(ws, SendFilter::All)
    &&& all_carry(
        sends,
        RespModel::Online { id: conn_id, name: name_of(ws, conn_id).unwrap()@ },
    )
}

/// The effect of a processed set-nickname event: the one registry entry is
/// renamed, and everyone hears the nickname-changed broadcast with the new
/// name.
pub open spec fn ok_set_nickname(
    pre: Seq<WsClientConnection>,
    post: Seq<WsClientConnection>,
    conn_id: u64,
    name: String,
    sends: Seq<Outbound>,
) -> bool {
    &&& post == pre.update(
        idx_of(pre, conn_id),
        (WsClientConnection { id: conn_id, name: Some(name) }),
    )
    &&& targets_of(sends) == recipients(post, SendFilter::All)
    &&& all_carry(sends, RespModel::SetNickname { id: conn_id, name: name@ })
}

/// The one delivery a direct message becomes: to the receiver, carrying the
/// sender's identity, current name, body text and timestamp.
pub open spec fn ok_user_message(
    ws: Seq<WsClientConnection>,
    conn_id: u64,
    receiver_id: u64,
    message: Seq<char>,
    created_at: i64,
    sends: Seq<Outbound>,
) -> bool {
    &&& sends.len() == 1
    &&& sends[0].to == receiver_id
    &&& all_carry(
        sends,
        RespModel::Message {
            id: conn_id,
            name: name_of(ws, conn_id).unwrap()@,
            message,
            created_at,
        },
    )
}

/// A direct message delivery as above, stamped with some clock reading.
pub open spec fn ok_user_message_stamped(
    ws: Seq<WsClientConnection>,
    conn_id: u64,
    receiver_id: u64,
    message: Seq<char>,
    sends: Seq<Outbound>,
) -> bool {
    exists|t: i64| ok_user_message(ws, conn_id, receiver_id, message, t, sends)
}

/// The named connections of the registry, in registry order: the global
/// presence snapshot.
pub open spec fn named_pairs(conns: Seq<WsClientConnection>) -> Seq<(u64, Seq<char>)>
    decreases conns.len(),
{
    if conns.len() == 0 {
        Seq::empty()
    } else {
        let rest = named_pairs(conns.drop_last());
        if conns.last().name is Some {
            rest.push((conns.last().id, conns.last().name.unwrap()@))
        } else {
            rest
        }
    }
}

/// The snapshot delivery a present requester is owed: all named connections,
/// privately.
pub open spec fn ok_global_online(
    ws: Seq<WsClientConnection>,
    conn_id: u64,
    sends: Seq<Outbound>,
) -> bool {
    &&& sends.len() == 1
    &&& sends[0].to == conn_id
    &&& all_carry(sends, RespModel::GlobalOnline { users: named_pairs(ws) })
}

/// Tells a present requester its own identifier; an absent requester is
/// `ClientNotFound` (nothing is planned — there is nowhere to answer).
pub fn get_id(conn_id: u64, ws_connections: &WsConnections) -> (r: Result<Vec<Outbound>, ChatError>)
    requires
        ws_connections.wf(),
    ensures
        r is Ok <==> contains_id(ws_connections@, conn_id),
        r is Err ==> r == Err::<Vec<Outbound>, ChatError>(ChatError::ClientNotFound),
        r matches Ok(sends) ==> ok_get_id(conn_id, sends@),
{
    let resp = Response {
        response_type: ResponseType::GetId,
        data: ResponseData::GetId(GetId { id: conn_id }),
    };
    direct(ws_connections, conn_id, &resp)
}

/// Broadcasts the requester's presence to everyone, under its current name.
/// An absent requester is `ClientNotFound`; one that never set a name is
/// `NameNotSet`.
pub fn online(conn_id: u64, ws_connections: &WsConnections) -> (r: Result<Vec<Outbound>, ChatError>)
    requires
        ws_connections.wf(),
    ensures
        r is Ok <==> (contains_id(ws_connections@, conn_id) && name_of(ws_connections@, conn_id)
            is Some),
        !contains_id(ws_connections@, conn_id) ==> r == Err::<Vec<Outbound>, ChatError>(
            ChatError::ClientNotFound,
        ),
        contains_id(ws_connections@, conn_id) && name_of(ws_connections@, conn_id) is None ==> r
            == Err::<Vec<Outbound>, ChatError>(ChatError::NameNotSet),
        r matches Ok(sends) ==> ok_online(ws_connections@, conn_id, sends@),
{
    let name = match ws_connections.get(conn_id) {
        None => {
            return Err(ChatError::ClientNotFound);
        },
        Some(c) => match &c.name {
            None => {
                return Err(ChatError::NameNotSet);
            },
            Some(nm) => nm.clone(),
        },
    };
    let resp = Response {
        response_type: ResponseType::Online,
        data: ResponseData::Online(Online { id: conn_id, name }),
    };
    Ok(all(ws_connections, &resp))
}

/// Records the requested nickname for the requester and broadcasts the
/// change to everyone. An absent requester is `ClientNotFound` and nothing
/// changes.
pub fn set_nickname(
    client_id: u64,
    req: &requests::SetNickname,
    ws_connections: &mut WsConnections,
) -> (r: Result<Vec<Outbound>, ChatError>)
    requires
        old(ws_connections).wf(),
    ensures
        final(ws_connections).wf(),
        final(ws_connections).next_id() == old(ws_connections).next_id(),
        r is Ok <==> contains_id(old(ws_connections)@, client_id),
        r is Err ==> r == Err::<Vec<Outbound>, ChatError>(ChatError::ClientNotFound)
            && final(ws_connections)@ == old(ws_connections)@,
        r matches Ok(sends) ==> ok_set_nickname(
            old(ws_connections)@,
            final(ws_connections)@,
            client_id,
            req.name,
            sends@,
        ),
{
    if !ws_connections.set_name(client_id, req.name.clone()) {
        return Err(ChatError::ClientNotFound);
    }
    let resp = Response {
        response_type: ResponseType::SetNickname,
        data: ResponseData::SetNickname(SetNickname { id: client_id, name: req.name.clone() }),
    };
    Ok(all(ws_connections, &resp))
}

/// Builds the direct message delivery for a given clock reading. The sender
/// must be present and named, and the receiver present — the receiver check
/// is the `NotFound` of a direct send whose target already left.
pub fn user_message_at(
    conn_id: u64,
    receiver_id: u64,
    message: &str,
    created_at: i64,
    ws_connections: &WsConnections,
) -> (r: Result<Vec<Outbound>, ChatError>)
    requires
        ws_connections.wf(),
    ensures
        r is Ok <==> (contains_id(ws_connections@, conn_id) && name_of(ws_connections@, conn_id)
            is Some && contains_id(ws_connections@, receiver_id)),
        !contains_id(ws_connections@, conn_id) ==> r == Err::<Vec<Outbound>, ChatError>(
            ChatError::ClientNotFound,
        ),
        contains_id(ws_connections@, conn_id) && name_of(ws_connections@, conn_id) is None ==> r
            == Err::<Vec<Outbound>, ChatError>(ChatError::NameNotSet),
        contains_id(ws_connections@, conn_id) && name_of(ws_connections@, conn_id) is Some
            && !contains_id(ws_connections@, receiver_id) ==> r == Err::<Vec<Outbound>, ChatError>(
            ChatError::ClientNotFound,
        ),
        r matches Ok(sends) ==> ok_user_message(
            ws_connections@,
            conn_id,
            receiver_id,
            message@,
            created_at,
            sends@,
        ),
{
    let name = match ws_connections.get(conn_id) {
        None => {
            return Err(ChatError::ClientNotFound);
        },
        Some(c) => match &c.name {
            None => {
                return Err(ChatError::NameNotSet);
            },
            Some(nm) => nm.clone(),
        },
    };
    let resp = Response {
        response_type: ResponseType::Message,
        data: ResponseData::Message(Message {
            id: conn_id,
            name,
            message: String::from_str(message),
            created_at,
        }),
    };
    direct(ws_connections, receiver_id, &resp)
}

/// Sends a direct message stamped with the clock as it reads now. The
/// timestamp is whatever the clock said; everything else is as
/// [`user_message_at`] pins it.
pub fn user_message(
    conn_id: u64,
    receiver_id: u64,
    message: &str,
    ws_connections: &WsConnections,
) -> (r: Result<Vec<Outbound>, ChatError>)
    requires
        ws_connections.wf(),
    ensures
        r is Ok <==> (contains_id(ws_connections@, conn_id) && name_of(ws_connections@, conn_id)
            is Some && contains_id(ws_connections@, receiver_id)),
        !contains_id(ws_connections@, conn_id) ==> r == Err::<Vec<Outbound>, ChatError>(
            ChatError::ClientNotFound,
        ),
        contains_id(ws_connections@, conn_id) && name_of(ws_connections@, conn_id) is None ==> r
            == Err::<Vec<Outbound>, ChatError>(ChatError::NameNotSet),
        contains_id(ws_connections@, conn_id) && name_of(ws_connections@, conn_id) is Some
            && !contains_id(ws_connections@, receiver_id) ==> r == Err::<Vec<Outbound>, ChatError>(
            ChatError::ClientNotFound,
        ),
        r matches Ok(sends) ==> ok_user_message_stamped(
            ws_connections@,
            conn_id,
            receiver_id,
            message@,
            sends@,
        ),
{
    let t = now_unix_millis();
    let r = user_message_at(conn_id, receiver_id, message, t, ws_connections);
    proof {
        if r is Ok {
            assert(ok_user_message(
                ws_connections@,
                conn_id,
                receiver_id,
                message@,
                t,
                r.unwrap()@,
            ));
            assert(ok_user_message_stamped(
                ws_connections@,
                conn_id,
                receiver_id,
                message@,
                r.unwrap()@,
            ));
        }
    }
    r
}

/// Answers a present requester with the snapshot of all named connections.
/// An absent requester is `ClientNotFound`.
pub fn global_online(conn_id: u64, ws_connections: &WsConnections) -> (r: Result<
    Vec<Outbound>,
    ChatError,
>)
    requires
        ws_connections.wf(),
    ensures
        r is Ok <==> contains_id(ws_connections@, conn_id),
        r is Err ==> r == Err::<Vec<Outbound>, ChatError>(ChatError::ClientNotFound),
        r matches Ok(sends) ==> ok_global_online(ws_connections@, conn_id, sends@),
{
    if !ws_connections.contains(conn_id) {
        return Err(ChatError::ClientNotFound);
    }
    let ghost cs = ws_connections@;
    let n = ws_connections.len();
    let mut users: Vec<UserInfo> = Vec::new();
    let mut i: usize = 0;
    while i < n
        invariant
            n == cs.len(),
            i <= n,
            ws_connections@ == cs,
            crate::responses::user_models(users@) == named_pairs(cs.take(i as int)),
        decreases n - i,
    {
        let c = ws_connections.at(i);
        proof {
            assert(cs.take(i + 1).drop_last() =~= cs.take(i as int));
            assert(cs.take(i + 1).last() == cs[i as int]);
        }
        match &c.name {
            Some(nm) => {
                users.push(UserInfo { id: c.id, name: nm.clone() });
                proof {
                    assert(crate::responses::user_models(users@) =~= named_pairs(
                        cs.take(i + 1),
                    ));
                }
            },
            None => {
                proof {
                    assert(crate::responses::user_models(users@) =~= named_pairs(
                        cs.take(i + 1),
                    ));
                }
            },
        }
        i = i + 1;
    }
    proof {
        assert(cs.take(n as int) =~= cs);
    }
    let resp = Response {
        response_type: ResponseType::GlobalOnline,
        data: ResponseData::GlobalOnline(GlobalOnline { users }),
    };
    let mut sends: Vec<Outbound> = Vec::new();
    sends.push(Outbound { to: conn_id, response: resp });
    Ok(sends)
}


/// One delivery per reachable room member, carrying the sender's message;
/// the room's membership is swept of unreachable members on the way.
pub open spec fn ok_room_message(
    ws: Seq<WsClientConnection>,
    pre_rooms: Seq<crate::room::Room>,
    post_rooms: Seq<crate::room::Room>,
    conn_id: u64,
    room_id: u64,
    message: Seq<char>,
    created_at: i64,
    sends: Seq<Outbound>,
) -> bool {
    let k = crate::room_manager::room_idx(pre_rooms, room_id);
    &&& post_rooms.len() == pre_rooms.len()
    &&& forall|i: int| 0 <= i < pre_rooms.len() && i != k ==> post_rooms[i] == pre_rooms[i]
    &&& post_rooms[k].id == pre_rooms[k].id
    &&& post_rooms[k].name == pre_rooms[k].name
    &&& post_rooms[k].members() == crate::room::present_members(pre_rooms[k].members(), ws)
    &&& targets_of(sends) == post_rooms[k].members()
    &&& all_carry(
        sends,
        RespModel::Message {
            id: conn_id,
            name: name_of(ws, conn_id).unwrap()@,
            message,
            created_at,
        },
    )
}

/// A room multicast as above, stamped with some clock reading.
pub open spec fn ok_room_message_stamped(
    ws: Seq<WsClientConnection>,
    pre_rooms: Seq<crate::room::Room>,
    post_rooms: Seq<crate::room::Room>,
    conn_id: u64,
    room_id: u64,
    message: Seq<char>,
    sends: Seq<Outbound>,
) -> bool {
    exists|t: i64|
        ok_room_message(ws, pre_rooms, post_rooms, conn_id, room_id, message, t, sends)
}

/// A fresh room holding exactly its creator, confirmed privately.
pub open spec fn ok_create_room(
    pre_rooms: Seq<crate::room::Room>,
    post_rooms: Seq<crate::room::Room>,
    new_id: u64,
    conn_id: u64,
    name: String,
    sends: Seq<Outbound>,
) -> bool {
    &&& post_rooms.len() == pre_rooms.len() + 1
    &&& forall|i: int| 0 <= i < pre_rooms.len() ==> post_rooms[i] == pre_rooms[i]
    &&& post_rooms.last().id == new_id
    &&& post_rooms.last().name@ == name@
    &&& post_rooms.last().members() == seq![conn_id]
    &&& sends.len() == 1
    &&& sends[0].to == conn_id
    &&& all_carry(sends, RespModel::RoomCreated { id: new_id, name: name@ })
}

/// Membership extended idempotently, confirmed privately to the joiner only.
pub open spec fn ok_join_room(
    pre_rooms: Seq<crate::room::Room>,
    post_rooms: Seq<crate::room::Room>,
    room_id: u64,
    conn_id: u64,
    sends: Seq<Outbound>,
) -> bool {
    let k = crate::room_manager::room_idx(pre_rooms, room_id);
    &&& post_rooms.len() == pre_rooms.len()
    &&& forall|i: int| 0 <= i < pre_rooms.len() && i != k ==> post_rooms[i] == pre_rooms[i]
    &&& post_rooms[k].id == pre_rooms[k].id
    &&& post_rooms[k].name == pre_rooms[k].name
    &&& (pre_rooms[k].members().contains(conn_id) ==> post_rooms[k].members() == pre_rooms[k].members())
    &&& (!pre_rooms[k].members().contains(conn_id) ==> post_rooms[k].members() == pre_rooms[k].members().push(conn_id))
    &&& post_rooms[k].members().contains(conn_id)
    &&& sends.len() == 1
    &&& sends[0].to == conn_id
    &&& all_carry(sends, RespModel::RoomJoined { id: room_id, name: pre_rooms[k].name@ })
}

/// The requester is gone from the registry and everyone else hears exactly
/// one offline notice about it.
pub open spec fn ok_disconnected(
    pre: Seq<WsClientConnection>,
    post: Seq<WsClientConnection>,
    conn_id: u64,
    sends: Seq<Outbound>,
) -> bool {
    &&& (contains_id(pre, conn_id) ==> post == pre.remove(idx_of(pre, conn_id)))
    &&& (!contains_id(pre, conn_id) ==> post == pre)
    &&& !contains_id(post, conn_id)
    &&& targets_of(sends) == recipients(post, SendFilter::ExcludingSelf(conn_id))
    &&& all_carry(sends, RespModel::Offline { id: conn_id })
}

/// The private error response a failed request becomes: to the requester
/// alone, and to nobody when the requester itself is already gone.
pub open spec fn errored(
    ws: Seq<WsClientConnection>,
    conn_id: u64,
    e: ChatError,
    sends: Seq<Outbound>,
) -> bool {
    &&& targets_of(sends) == recipients(ws, SendFilter::ById(conn_id))
    &&& all_carry(sends, RespModel::Error { message: e.text() })
}

/// A by-identifier fan-out reaches its target exactly once when present, and
/// nobody otherwise.
pub proof fn lemma_recipients_by_id(conns: Seq<WsClientConnection>, target: u64)
    requires
        ids_distinct(conns),
    ensures
        contains_id(conns, target) ==> recipients(conns, SendFilter::ById(target)) == seq![target],
        !contains_id(conns, target) ==> recipients(conns, SendFilter::ById(target)).len() == 0,
    decreases conns.len(),
{
    let p = recipients(conns, SendFilter::ById(target));
    if conns.len() == 0 {
        if contains_id(conns, target) {
            let i = choose|i: int| 0 <= i < conns.len() && conns[i].id == target;
            assert(false);
        }
    } else {
        let head = conns.drop_last();
        let last = conns.last();
        assert forall|i: int, j: int|
            0 <= i < j < head.len() implies head[i].id != head[j].id by {
            assert(conns[i].id != conns[j].id);
        }
        lemma_recipients_by_id(head, target);
        if last.id == target {
            assert forall|i: int| 0 <= i < head.len() implies head[i].id != target by {
                assert(conns[i].id != conns[conns.len() - 1].id);
            }
            if contains_id(head, target) {
                let i = choose|i: int| 0 <= i < head.len() && head[i].id == target;
                assert(false);
            }
            assert(p =~= seq![target]);
            assert(conns[conns.len() - 1].id == target);
        } else {
            if contains_id(conns, target) {
                let i = choose|i: int| 0 <= i < conns.len() && conns[i].id == target;
                assert(head[i].id == target);
                assert(contains_id(head, target));
                assert(p =~= seq![target]);
            } else {
                if contains_id(head, target) {
                    let i = choose|i: int| 0 <= i < head.len() && head[i].id == target;
                    assert(conns[i].id == target);
                    assert(false);
                }
            }
        }
    }
}

/// Builds the room multicast for a given clock reading. The sender must be
/// present and named, and the room must exist; the room's lazy sweep runs as
/// part of planning.
pub fn room_message_at(
    conn_id: u64,
    room_id: u64,
    message: &str,
    created_at: i64,
    ws_connections: &WsConnections,
    room_manager: &mut RoomManager,
) -> (r: Result<Vec<Outbound>, ChatError>)
    requires
        ws_connections.wf(),
        old(room_manager).wf(),
    ensures
        final(room_manager).wf(),
        final(room_manager).next_room_id() == old(room_manager).next_room_id(),
        r is Ok <==> (contains_id(ws_connections@, conn_id) && name_of(ws_connections@, conn_id)
            is Some && crate::room_manager::contains_room(old(room_manager)@, room_id)),
        r is Err ==> final(room_manager)@ == old(room_manager)@,
        !contains_id(ws_connections@, conn_id) ==> r == Err::<Vec<Outbound>, ChatError>(
            ChatError::ClientNotFound,
        ),
        contains_id(ws_connections@, conn_id) && name_of(ws_connections@, conn_id) is None ==> r
            == Err::<Vec<Outbound>, ChatError>(ChatError::NameNotSet),
        contains_id(ws_connections@, conn_id) && name_of(ws_connections@, conn_id) is Some
            && !crate::room_manager::contains_room(old(room_manager)@, room_id) ==> r == Err::<
            Vec<Outbound>,
            ChatError,
        >(ChatError::RoomNotFound),
        r matches Ok(sends) ==> ok_room_message(
            ws_connections@,
            old(room_manager)@,
            final(room_manager)@,
            conn_id,
            room_id,
            message@,
            created_at,
            sends@,
        ),
{
    let name = match ws_connections.get(conn_id) {
        None => {
            return Err(ChatError::ClientNotFound);
        },
        Some(c) => match &c.name {
            None => {
                return Err(ChatError::NameNotSet);
            },
            Some(nm) => nm.clone(),
        },
    };
    let resp = Response {
        response_type: ResponseType::Message,
        data: ResponseData::Message(Message {
            id: conn_id,
            name,
            message: String::from_str(message),
            created_at,
        }),
    };
    room_manager.all(room_id, ws_connections, &resp)
}

/// Multicasts to a room, stamped with the clock as it reads now. The
/// timestamp is whatever the clock said; everything else is as
/// [`room_message_at`] pins it.
pub fn room_message(
    conn_id: u64,
    room_id: u64,
    message: &str,
    ws_connections: &WsConnections,
    room_manager: &mut RoomManager,
) -> (r: Result<Vec<Outbound>, ChatError>)
    requires
        ws_connections.wf(),
        old(room_manager).wf(),
    ensures
        final(room_manager).wf(),
        final(room_manager).next_room_id() == old(room_manager).next_room_id(),
        r is Ok <==> (contains_id(ws_connections@, conn_id) && name_of(ws_connections@, conn_id)
            is Some && crate::room_manager::contains_room(old(room_manager)@, room_id)),
        r is Err ==> final(room_manager)@ == old(room_manager)@,
        !contains_id(ws_connections@, conn_id) ==> r == Err::<Vec<Outbound>, ChatError>(
            ChatError::ClientNotFound,
        ),
        contains_id(ws_connections@, conn_id) && name_of(ws_connections@, conn_id) is None ==> r
            == Err::<Vec<Outbound>, ChatError>(ChatError::NameNotSet),
        contains_id(ws_connections@, conn_id) && name_of(ws_connections@, conn_id) is Some
            && !crate::room_manager::contains_room(old(room_manager)@, room_id) ==> r == Err::<
            Vec<Outbound>,
            ChatError,
        >(ChatError::RoomNotFound),
        r matches Ok(sends) ==> ok_room_message_stamped(
            ws_connections@,
            old(room_manager)@,
            final(room_manager)@,
            conn_id,
            room_id,
            message@,
            sends@,
        ),
{
    let t = now_unix_millis();
    let r = room_message_at(conn_id, room_id, message, t, ws_connections, room_manager);
    proof {
        if r is Ok {
            assert(ok_room_message(
                ws_connections@,
                old(room_manager)@,
                room_manager@,
                conn_id,
                room_id,
                message@,
                t,
                r.unwrap()@,
            ));
            assert(ok_room_message_stamped(
                ws_connections@,
                old(room_manager)@,
                room_manager@,
                conn_id,
                room_id,
                message@,
                r.unwrap()@,
            ));
        }
    }
    r
}

/// Creates a room under a fresh identifier, auto-joins the creator, and
/// confirms privately. An absent requester is `ClientNotFound` and no room
/// is created.
pub fn create_room(
    conn_id: u64,
    req: &requests::CreateRoom,
    ws_connections: &WsConnections,
    room_manager: &mut RoomManager,
) -> (r: Result<Vec<Outbound>, ChatError>)
    requires
        ws_connections.wf(),
        old(room_manager).wf(),
        old(room_manager).next_room_id() < u64::MAX,
    ensures
        final(room_manager).wf(),
        r is Ok <==> contains_id(ws_connections@, conn_id),
        r is Err ==> r == Err::<Vec<Outbound>, ChatError>(ChatError::ClientNotFound)
            && final(room_manager)@ == old(room_manager)@ && final(room_manager).next_room_id()
            == old(room_manager).next_room_id(),
        r matches Ok(sends) ==> ok_create_room(
            old(room_manager)@,
            final(room_manager)@,
            old(room_manager).next_room_id(),
            conn_id,
            req.name,
            sends@,
        ) && final(room_manager).next_room_id() == old(room_manager).next_room_id() + 1,
{
    if !ws_connections.contains(conn_id) {
        return Err(ChatError::ClientNotFound);
    }
    let room_id = room_manager.create(conn_id, req.name.clone());
    let resp = Response {
        response_type: ResponseType::RoomCreated,
        data: ResponseData::RoomCreated(crate::responses::RoomCreated {
            id: room_id,
            name: req.name.clone(),
        }),
    };
    let mut sends: Vec<Outbound> = Vec::new();
    sends.push(Outbound { to: conn_id, response: resp });
    Ok(sends)
}

/// Adds the requester to an existing room (idempotently) and confirms
/// privately to the requester only. An absent requester is `ClientNotFound`;
/// an unknown room is `RoomNotFound`; neither changes anything.
pub fn join_room(
    conn_id: u64,
    req: &requests::JoinRoom,
    ws_connections: &WsConnections,
    room_manager: &mut RoomManager,
) -> (r: Result<Vec<Outbound>, ChatError>)
    requires
        ws_connections.wf(),
        old(room_manager).wf(),
    ensures
        final(room_manager).wf(),
        final(room_manager).next_room_id() == old(room_manager).next_room_id(),
        r is Ok <==> (contains_id(ws_connections@, conn_id) && crate::room_manager::contains_room(
            old(room_manager)@,
            req.id,
        )),
        r is Err ==> final(room_manager)@ == old(room_manager)@,
        !contains_id(ws_connections@, conn_id) ==> r == Err::<Vec<Outbound>, ChatError>(
            ChatError::ClientNotFound,
        ),
        contains_id(ws_connections@, conn_id) && !crate::room_manager::contains_room(
            old(room_manager)@,
            req.id,
        ) ==> r == Err::<Vec<Outbound>, ChatError>(ChatError::RoomNotFound),
        r matches Ok(sends) ==> ok_join_room(
            old(room_manager)@,
            final(room_manager)@,
            req.id,
            conn_id,
            sends@,
        ),
{
    if !ws_connections.contains(conn_id) {
        return Err(ChatError::ClientNotFound);
    }
    let info = match room_manager.join(req.id, conn_id) {
        Err(e) => {
            return Err(e);
        },
        Ok(info) => info,
    };
    let resp = Response {
        response_type: ResponseType::RoomJoined,
        data: ResponseData::RoomJoined(crate::responses::RoomJoined {
            id: info.id,
            name: info.name,
        }),
    };
    let mut sends: Vec<Outbound> = Vec::new();
    sends.push(Outbound { to: conn_id, response: resp });
    Ok(sends)
}

/// Processes a disconnect event: the connection leaves the registry at once
/// — and leaves no room proactively — and everyone else is told it went
/// offline. A connection already gone just triggers the notice to the rest.
pub fn disconnected(conn_id: u64, ws_connections: &mut WsConnections) -> (sends: Vec<Outbound>)
    requires
        old(ws_connections).wf(),
    ensures
        final(ws_connections).wf(),
        final(ws_connections).next_id() == old(ws_connections).next_id(),
        ok_disconnected(old(ws_connections)@, final(ws_connections)@, conn_id, sends@),
{
    ws_connections.remove(conn_id);
    let resp = Response {
        response_type: ResponseType::Offline,
        data: ResponseData::Offline(Offline { id: conn_id }),
    };
    other(conn_id, ws_connections, &resp)
}

/// Sends a private error response toward the requester: one delivery when
/// the requester is still registered, none when it already left.
pub fn send_error(conn_id: u64, error_message: &str, ws_connections: &WsConnections) -> (sends: Vec<
    Outbound,
>)
    requires
        ws_connections.wf(),
    ensures
        targets_of(sends@) == recipients(ws_connections@, SendFilter::ById(conn_id)),
        all_carry(sends@, RespModel::Error { message: error_message@ }),
        contains_id(ws_connections@, conn_id) ==> sends@.len() == 1 && sends@[0].to == conn_id,
        !contains_id(ws_connections@, conn_id) ==> sends@.len() == 0,
{
    let resp = Response {
        response_type: ResponseType::Error,
        data: ResponseData::Error(ResponseError { message: String::from_str(error_message) }),
    };
    let sends = send(ws_connections, SendFilter::ById(conn_id), &resp);
    proof {
        lemma_recipients_by_id(ws_connections@, conn_id);
        if contains_id(ws_connections@, conn_id) {
            assert(targets_of(sends@) == seq![conn_id]);
            assert(targets_of(sends@).len() == 1);
            assert(targets_of(sends@)[0] == conn_id);
        }
    }
    sends
}


/// The shape of an offline cascade: for each reported-failed identifier, in
/// report order, one offline notice about it to each surviving connection,
/// in registry order — and nothing else.
pub open spec fn cascade_shape(
    cascade: Seq<Outbound>,
    survivors: Seq<WsClientConnection>,
    failed: Seq<u64>,
) -> bool {
    &&& cascade.len() == failed.len() * survivors.len()
    &&& forall|j: int, i: int|
        #![trigger cascade[j * survivors.len() + i]]
        0 <= j < failed.len() && 0 <= i < survivors.len() ==> {
            let o = cascade[j * survivors.len() + i];
            &&& o.to == survivors[i].id
            &&& o.response.wf()
            &&& o.response.model() == (RespModel::Offline { id: failed[j] })
        }
}

/// After a registry-level fan-out, removes every connection whose delivery
/// failed — each exactly once — and plans the one-level offline cascade: for
/// each removed connection, every connection that remains after all removals
/// hears exactly one offline notice about it. Failures of the cascade itself
/// are never cascaded further.
pub fn sweep_failed(ws_connections: &mut WsConnections, failed: &Vec<u64>) -> (cascade: Vec<
    Outbound,
>)
    requires
        old(ws_connections).wf(),
        u64s_distinct(failed@),
    ensures
        final(ws_connections).wf(),
        final(ws_connections).next_id() == old(ws_connections).next_id(),
        final(ws_connections)@ == crate::registry::remove_ids(old(ws_connections)@, failed@),
        forall|m: u64| failed@.contains(m) ==> !contains_id(final(ws_connections)@, m),
        cascade@.len() == failed@.len() * final(ws_connections)@.len(),
        forall|j: int, i: int|
            #![trigger cascade@[j * final(ws_connections)@.len() + i]]
            0 <= j < failed@.len() && 0 <= i < final(ws_connections)@.len() ==> {
                let o = cascade@[j * final(ws_connections)@.len() + i];
                &&& o.to == final(ws_connections)@[i].id
                &&& o.response.wf()
                &&& o.response.model() == (RespModel::Offline { id: failed@[j] })
            },
{
    ws_connections.remove_all(failed);
    let ghost survivors = ws_connections@;
    let n = ws_connections.len();
    let ghost nn = n as int;
    let nf = failed.len();
    let mut cascade: Vec<Outbound> = Vec::new();
    let mut j: usize = 0;
    while j < nf
        invariant
            nf == failed@.len(),
            j <= nf,
            ws_connections@ == survivors,
            nn == survivors.len(),
            nn == n as int,
            cascade@.len() == j * nn,
            forall|a: int, b: int|
                #![trigger cascade@[a * nn + b]]
                0 <= a < j && 0 <= b < nn ==> {
                    let o = cascade@[a * nn + b];
                    &&& o.to == survivors[b].id
                    &&& o.response.wf()
                    &&& o.response.model() == (RespModel::Offline { id: failed@[a] })
                },
        decreases nf - j,
    {
        let about = failed[j];
        let resp = Response {
            response_type: ResponseType::Offline,
            data: ResponseData::Offline(Offline { id: about }),
        };
        let mut i: usize = 0;
        while i < n
            invariant
                nf == failed@.len(),
                j < nf,
                about == failed@[j as int],
                resp.wf(),
                resp.model() == (RespModel::Offline { id: about }),
                ws_connections@ == survivors,
                nn == survivors.len(),
                nn == n as int,
                n == ws_connections@.len(),
                i <= n,
                cascade@.len() == j * nn + i,
                forall|a: int, b: int|
                    #![trigger cascade@[a * nn + b]]
                    0 <= a < j && 0 <= b < nn ==> {
                        let o = cascade@[a * nn + b];
                        &&& o.to == survivors[b].id
                        &&& o.response.wf()
                        &&& o.response.model() == (RespModel::Offline { id: failed@[a] })
                    },
                forall|b: int|
                    #![trigger cascade@[j * nn + b]]
                    0 <= b < i ==> {
                        let o = cascade@[j * nn + b];
                        &&& o.to == survivors[b].id
                        &&& o.response.wf()
                        &&& o.response.model() == (RespModel::Offline { id: failed@[j as int] })
                    },
            decreases n - i,
        {
            let c = ws_connections.at(i);
            cascade.push(Outbound { to: c.id, response: resp.duplicate() });
            proof {
                assert forall|a: int, b: int|
                    #![trigger cascade@[a * nn + b]]
                    0 <= a < j && 0 <= b < nn implies {
                    let o = cascade@[a * nn + b];
                    &&& o.to == survivors[b].id
                    &&& o.response.wf()
                    &&& o.response.model() == (RespModel::Offline { id: failed@[a] })
                } by {
                    assert(a * nn + b < j * nn + i) by (nonlinear_arith)
                        requires
                            0 <= a < j,
                            0 <= b < nn,
                            0 <= i,
                    ;
                    assert(cascade@[a * nn + b] == cascade@.drop_last()[a * nn + b]);
                }
            }
            i = i + 1;
        }
        proof {
            assert(j * nn + nn == (j + 1) * nn) by (nonlinear_arith);
        }
        j = j + 1;
    }
    cascade
}


/// The full effect of handling one inbound event, per the request handling
/// table: which registry states may follow, what is sent, and under which
/// failure scope. This is the dispatcher's whole contract as one predicate,
/// so that laws about sequences of events can be stated over it.
pub open spec fn dispatch_post(
    pre_ws: Seq<WsClientConnection>,
    post_ws: Seq<WsClientConnection>,
    pre_rooms: Seq<crate::room::Room>,
    post_rooms: Seq<crate::room::Room>,
    pre_next_room: u64,
    conn_id: u64,
    req: requests::Request,
    sends: Seq<Outbound>,
    scope: FanoutScope,
) -> bool {
    match req {
        requests::Request::GetId => {
            &&& post_ws == pre_ws
            &&& post_rooms == pre_rooms
            &&& scope is Registry
            &&& if contains_id(pre_ws, conn_id) {
                ok_get_id(conn_id, sends)
            } else {
                errored(pre_ws, conn_id, ChatError::ClientNotFound, sends)
            }
        },
        requests::Request::SetNickname(req) => {
            &&& post_rooms == pre_rooms
            &&& scope is Registry
            &&& if contains_id(pre_ws, conn_id) {
                ok_set_nickname(
                    pre_ws,
                    post_ws,
                    conn_id,
                    req.name,
                    sends,
                )
            } else {
                &&& post_ws == pre_ws
                &&& errored(
                    pre_ws,
                    conn_id,
                    ChatError::ClientNotFound,
                    sends,
                )
            }
        },
        requests::Request::Online => {
            &&& post_ws == pre_ws
            &&& post_rooms == pre_rooms
            &&& scope is Registry
            &&& if contains_id(pre_ws, conn_id) && name_of(
                pre_ws,
                conn_id,
            ) is Some {
                ok_online(pre_ws, conn_id, sends)
            } else {
                errored(
                    pre_ws,
                    conn_id,
                    if !contains_id(pre_ws, conn_id) {
                        ChatError::ClientNotFound
                    } else {
                        ChatError::NameNotSet
                    },
                    sends,
                )
            }
        },
        requests::Request::Message(req) => match req.message_type {
            requests::MessageType::User => {
                &&& post_ws == pre_ws
                &&& post_rooms == pre_rooms
                &&& scope is Registry
                &&& if contains_id(pre_ws, conn_id) && name_of(
                    pre_ws,
                    conn_id,
                ) is Some && contains_id(pre_ws, req.receiver_id) {
                    ok_user_message_stamped(
                        pre_ws,
                        conn_id,
                        req.receiver_id,
                        req.message@,
                        sends,
                    )
                } else {
                    errored(
                        pre_ws,
                        conn_id,
                        if !contains_id(pre_ws, conn_id) {
                            ChatError::ClientNotFound
                        } else if name_of(pre_ws, conn_id) is None {
                            ChatError::NameNotSet
                        } else {
                            ChatError::ClientNotFound
                        },
                        sends,
                    )
                }
            },
            requests::MessageType::Room => {
                &&& post_ws == pre_ws
                &&& if contains_id(pre_ws, conn_id) && name_of(
                    pre_ws,
                    conn_id,
                ) is Some && crate::room_manager::contains_room(
                    pre_rooms,
                    req.receiver_id,
                ) {
                    &&& scope == FanoutScope::Room(req.receiver_id)
                    &&& ok_room_message_stamped(
                        pre_ws,
                        pre_rooms,
                        post_rooms,
                        conn_id,
                        req.receiver_id,
                        req.message@,
                        sends,
                    )
                } else {
                    &&& post_rooms == pre_rooms
                    &&& scope is Registry
                    &&& errored(
                        pre_ws,
                        conn_id,
                        if !contains_id(pre_ws, conn_id) {
                            ChatError::ClientNotFound
                        } else if name_of(pre_ws, conn_id) is None {
                            ChatError::NameNotSet
                        } else {
                            ChatError::RoomNotFound
                        },
                        sends,
                    )
                }
            },
        },
        requests::Request::CreateRoom(req) => {
            &&& post_ws == pre_ws
            &&& scope is Registry
            &&& if contains_id(pre_ws, conn_id) {
                ok_create_room(
                    pre_rooms,
                    post_rooms,
                    pre_next_room,
                    conn_id,
                    req.name,
                    sends,
                )
            } else {
                &&& post_rooms == pre_rooms
                &&& errored(
                    pre_ws,
                    conn_id,
                    ChatError::ClientNotFound,
                    sends,
                )
            }
        },
        requests::Request::JoinRoom(req) => {
            &&& post_ws == pre_ws
            &&& scope is Registry
            &&& if contains_id(pre_ws, conn_id)
                && crate::room_manager::contains_room(pre_rooms, req.id) {
                ok_join_room(
                    pre_rooms,
                    post_rooms,
                    req.id,
                    conn_id,
                    sends,
                )
            } else {
                &&& post_rooms == pre_rooms
                &&& errored(
                    pre_ws,
                    conn_id,
                    if !contains_id(pre_ws, conn_id) {
                        ChatError::ClientNotFound
                    } else {
                        ChatError::RoomNotFound
                    },
                    sends,
                )
            }
        },
        requests::Request::Disconnected => {
            &&& post_rooms == pre_rooms
            &&& scope is Registry
            &&& ok_disconnected(
                pre_ws,
                post_ws,
                conn_id,
                sends,
            )
        },
        requests::Request::GlobalOnline => {
            &&& post_ws == pre_ws
            &&& post_rooms == pre_rooms
            &&& scope is Registry
            &&& if contains_id(pre_ws, conn_id) {
                ok_global_online(pre_ws, conn_id, sends)
            } else {
                errored(pre_ws, conn_id, ChatError::ClientNotFound, sends)
            }
        },
    }
}

/// How the transport must treat failures of this batch of deliveries:
/// registry-level failures feed [`sweep_failed`]; failures of a room
/// multicast feed the room's own sweep.
#[derive(Debug, Clone, Copy, PartialEq, Eq, Structural)]
pub enum FanoutScope {
    Registry,
    Room(u64),
}

/// What handling one inbound event produced: the planned deliveries and the
/// failure scope they belong to.
#[derive(Debug)]
pub struct DispatchOutcome {
    pub sends: Vec<Outbound>,
    pub scope: FanoutScope,
}

/// Handles one inbound event to completion: decodes nothing, sends nothing —
/// mutates the registries per the request handling table and returns the
/// deliveries to attempt. A precondition failure becomes a private error
/// response to the requester and touches nothing else; it never aborts
/// dispatching.
pub fn switch_request(
    conn_id: u64,
    request: &requests::Request,
    ws_connections: &mut WsConnections,
    room_manager: &mut RoomManager,
) -> (out: DispatchOutcome)
    requires
        old(ws_connections).wf(),
        old(room_manager).wf(),
        old(room_manager).next_room_id() < u64::MAX,
    ensures
        final(ws_connections).wf(),
        final(room_manager).wf(),
        final(ws_connections).next_id() == old(ws_connections).next_id(),
        dispatch_post(
            old(ws_connections)@,
            final(ws_connections)@,
            old(room_manager)@,
            final(room_manager)@,
            old(room_manager).next_room_id(),
            conn_id,
            *request,
            out.sends@,
            out.scope,
        ),
        final(room_manager).next_room_id() as int == (match *request {
            requests::Request::CreateRoom(_) => if contains_id(old(ws_connections)@, conn_id) {
                old(room_manager).next_room_id() + 1
            } else {
                old(room_manager).next_room_id() as int
            },
            _ => old(room_manager).next_room_id() as int,
        }),{
    let (r, scope): (Result<Vec<Outbound>, ChatError>, FanoutScope) = match request {
        requests::Request::GetId => (get_id(conn_id, ws_connections), FanoutScope::Registry),
        requests::Request::SetNickname(req) => (
            set_nickname(conn_id, req, ws_connections),
            FanoutScope::Registry,
        ),
        requests::Request::Online => (online(conn_id, ws_connections), FanoutScope::Registry),
        requests::Request::Message(req) => match req.message_type {
            requests::MessageType::User => (
                user_message(conn_id, req.receiver_id, req.message.as_str(), ws_connections),
                FanoutScope::Registry,
            ),
            requests::MessageType::Room => {
                let rr = room_message(
                    conn_id,
                    req.receiver_id,
                    req.message.as_str(),
                    ws_connections,
                    room_manager,
                );
                let scope = if rr.is_ok() {
                    FanoutScope::Room(req.receiver_id)
                } else {
                    FanoutScope::Registry
                };
                (rr, scope)
            },
        },
        requests::Request::CreateRoom(req) => (
            create_room(conn_id, req, ws_connections, room_manager),
            FanoutScope::Registry,
        ),
        requests::Request::JoinRoom(req) => (
            join_room(conn_id, req, ws_connections, room_manager),
            FanoutScope::Registry,
        ),
        requests::Request::Disconnected => (
            Ok(disconnected(conn_id, ws_connections)),
            FanoutScope::Registry,
        ),
        requests::Request::GlobalOnline => (
            global_online(conn_id, ws_connections),
            FanoutScope::Registry,
        ),
    };
    match r {
        Ok(sends) => DispatchOutcome { sends, scope },
        Err(e) => {
            let msg = e.message();
            DispatchOutcome {
                sends: send_error(conn_id, msg.as_str(), ws_connections),
                scope: FanoutScope::Registry,
            }
        },
    }
}

} // verus!
