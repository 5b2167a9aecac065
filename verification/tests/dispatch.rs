//! End-to-end flows through the dispatcher, one event at a time, the way the
//! transport drives the core.

use chat_core::registry::WsConnections;
use chat_core::requests::{
    CreateRoom, JoinRoom, Message, MessageType, Request, SetNickname,
};
use chat_core::responses::{ResponseData, ResponseType};
use chat_core::room_manager::RoomManager;
use chat_core::service::{
    switch_request, user_message_at, DispatchOutcome, FanoutScope,
};
use chat_core::types::ChatError;

fn dispatch(
    conn: u64,
    req: Request,
    ws: &mut WsConnections,
    rm: &mut RoomManager,
) -> DispatchOutcome {
    switch_request(conn, &req, ws, rm)
}

fn set_name(conn: u64, name: &str, ws: &mut WsConnections, rm: &mut RoomManager) {
    let out = dispatch(
        conn,
        Request::SetNickname(SetNickname { name: String::from(name) }),
        ws,
        rm,
    );
    assert!(out
        .sends
        .iter()
        .all(|o| o.response.response_type == ResponseType::SetNickname));
}

#[test]
fn get_id_answers_the_requester_privately() {
    let mut ws = WsConnections::new();
    let mut rm = RoomManager::new();
    let a = ws.accept();
    let b = ws.accept();
    let out = dispatch(a, Request::GetId, &mut ws, &mut rm);
    assert_eq!(out.scope, FanoutScope::Registry);
    assert_eq!(out.sends.len(), 1);
    assert_eq!(out.sends[0].to, a);
    match &out.sends[0].response.data {
        ResponseData::GetId(p) => assert_eq!(p.id, a),
        other => panic!("expected an identity payload, got {:?}", other),
    }
    let _ = b;
}

#[test]
fn error_response_goes_to_the_requester_only() {
    let mut ws = WsConnections::new();
    let mut rm = RoomManager::new();
    let a = ws.accept();
    let _b = ws.accept();
    // Online before any nickname: a precondition failure, answered privately.
    let out = dispatch(a, Request::Online, &mut ws, &mut rm);
    assert_eq!(out.sends.len(), 1);
    assert_eq!(out.sends[0].to, a);
    assert_eq!(out.sends[0].response.response_type, ResponseType::Error);
    match &out.sends[0].response.data {
        ResponseData::Error(p) => assert_eq!(p.message, "Nickname not set"),
        other => panic!("expected an error payload, got {:?}", other),
    }
}

#[test]
fn request_from_a_vanished_connection_answers_nobody() {
    let mut ws = WsConnections::new();
    let mut rm = RoomManager::new();
    let a = ws.accept();
    ws.remove(a);
    let out = dispatch(a, Request::GetId, &mut ws, &mut rm);
    assert!(out.sends.is_empty(), "there is nowhere left to answer");
}

#[test]
fn nickname_then_online_broadcasts_the_new_name() {
    let mut ws = WsConnections::new();
    let mut rm = RoomManager::new();
    let a = ws.accept();
    let b = ws.accept();
    set_name(a, "alice", &mut ws, &mut rm);
    set_name(a, "bob", &mut ws, &mut rm);
    let out = dispatch(a, Request::Online, &mut ws, &mut rm);
    assert_eq!(out.sends.len(), 2, "presence goes to everyone");
    let mut tos: Vec<u64> = out.sends.iter().map(|o| o.to).collect();
    tos.sort();
    assert_eq!(tos, vec![a, b]);
    for o in &out.sends {
        match &o.response.data {
            ResponseData::Online(p) => {
                assert_eq!(p.id, a);
                assert_eq!(p.name, "bob", "never a stale name");
            },
            other => panic!("expected a presence payload, got {:?}", other),
        }
    }
}

#[test]
fn effects_follow_request_order() {
    let mut ws = WsConnections::new();
    let mut rm = RoomManager::new();
    let a = ws.accept();
    let mut observed: Vec<ResponseType> = Vec::new();
    for req in [
        Request::SetNickname(SetNickname { name: String::from("alice") }),
        Request::Online,
        Request::GetId,
    ] {
        let out = dispatch(a, req, &mut ws, &mut rm);
        for o in out.sends {
            observed.push(o.response.response_type);
        }
    }
    assert_eq!(
        observed,
        vec![ResponseType::SetNickname, ResponseType::Online, ResponseType::GetId],
        "one event is handled to completion before the next"
    );
}

#[test]
fn direct_message_carries_name_text_and_timestamp() {
    let mut ws = WsConnections::new();
    let mut rm = RoomManager::new();
    let a = ws.accept();
    let b = ws.accept();
    set_name(a, "alice", &mut ws, &mut rm);
    let sends = user_message_at(a, b, "hi there", 42, &ws).unwrap();
    assert_eq!(sends.len(), 1);
    assert_eq!(sends[0].to, b);
    match &sends[0].response.data {
        ResponseData::Message(p) => {
            assert_eq!(p.id, a);
            assert_eq!(p.name, "alice");
            assert_eq!(p.message, "hi there");
            assert_eq!(p.created_at, 42);
        },
        other => panic!("expected a message payload, got {:?}", other),
    }
}

#[test]
fn direct_message_to_absent_receiver_is_not_found() {
    let mut ws = WsConnections::new();
    let mut rm = RoomManager::new();
    let a = ws.accept();
    set_name(a, "alice", &mut ws, &mut rm);
    let r = user_message_at(a, a + 100, "hi", 0, &ws);
    assert_eq!(r.unwrap_err(), ChatError::ClientNotFound);
    assert!(ws.contains(a), "a failed direct send mutates nothing");
    let out = dispatch(
        a,
        Request::Message(Message {
            message_type: MessageType::User,
            receiver_id: a + 100,
            message: String::from("hi"),
        }),
        &mut ws,
        &mut rm,
    );
    assert_eq!(out.sends.len(), 1);
    assert_eq!(out.sends[0].to, a);
    match &out.sends[0].response.data {
        ResponseData::Error(p) => assert_eq!(p.message, "Client not found"),
        other => panic!("expected an error payload, got {:?}", other),
    }
}

#[test]
fn create_then_join_builds_membership_in_order() {
    let mut ws = WsConnections::new();
    let mut rm = RoomManager::new();
    let a = ws.accept();
    let b = ws.accept();
    let out = dispatch(
        a,
        Request::CreateRoom(CreateRoom { name: String::from("lobby") }),
        &mut ws,
        &mut rm,
    );
    assert_eq!(out.sends.len(), 1);
    assert_eq!(out.sends[0].to, a, "creation is confirmed privately");
    let room_id = match &out.sends[0].response.data {
        ResponseData::RoomCreated(p) => {
            assert_eq!(p.name, "lobby");
            p.id
        },
        other => panic!("expected a room-created payload, got {:?}", other),
    };
    assert_eq!(rm.members_of(room_id).unwrap(), vec![a], "the creator is the sole member");

    let out = dispatch(b, Request::JoinRoom(JoinRoom { id: room_id }), &mut ws, &mut rm);
    assert_eq!(out.sends.len(), 1);
    assert_eq!(out.sends[0].to, b, "joining is confirmed to the joiner only");
    match &out.sends[0].response.data {
        ResponseData::RoomJoined(p) => {
            assert_eq!(p.id, room_id);
            assert_eq!(p.name, "lobby");
        },
        other => panic!("expected a room-joined payload, got {:?}", other),
    }
    assert_eq!(rm.members_of(room_id).unwrap(), vec![a, b]);
}

#[test]
fn join_is_idempotent_and_delivery_stays_exactly_once() {
    let mut ws = WsConnections::new();
    let mut rm = RoomManager::new();
    let a = ws.accept();
    let b = ws.accept();
    set_name(a, "alice", &mut ws, &mut rm);
    let room_id = rm.create(a, String::from("lobby"));
    rm.join(room_id, b).unwrap();
    rm.join(room_id, b).unwrap();
    assert_eq!(rm.members_of(room_id).unwrap(), vec![a, b], "no duplicate membership");
    let out = dispatch(
        a,
        Request::Message(Message {
            message_type: MessageType::Room,
            receiver_id: room_id,
            message: String::from("hi"),
        }),
        &mut ws,
        &mut rm,
    );
    assert_eq!(out.scope, FanoutScope::Room(room_id));
    let mut tos: Vec<u64> = out.sends.iter().map(|o| o.to).collect();
    tos.sort();
    assert_eq!(tos, vec![a, b], "each member exactly once");
}

#[test]
fn room_message_reaches_members_and_no_one_else() {
    let mut ws = WsConnections::new();
    let mut rm = RoomManager::new();
    let a = ws.accept();
    let b = ws.accept();
    let c = ws.accept();
    set_name(a, "alice", &mut ws, &mut rm);
    let room_id = rm.create(a, String::from("lobby"));
    rm.join(room_id, b).unwrap();
    let out = dispatch(
        a,
        Request::Message(Message {
            message_type: MessageType::Room,
            receiver_id: room_id,
            message: String::from("hi"),
        }),
        &mut ws,
        &mut rm,
    );
    let tos: Vec<u64> = out.sends.iter().map(|o| o.to).collect();
    assert!(tos.contains(&a) && tos.contains(&b));
    assert!(!tos.contains(&c), "a non-member never hears a room message");
    for o in &out.sends {
        match &o.response.data {
            ResponseData::Message(p) => {
                assert_eq!(p.name, "alice");
                assert_eq!(p.message, "hi");
            },
            other => panic!("expected a message payload, got {:?}", other),
        }
    }
}

#[test]
fn room_message_to_unknown_room_is_not_found() {
    let mut ws = WsConnections::new();
    let mut rm = RoomManager::new();
    let a = ws.accept();
    set_name(a, "alice", &mut ws, &mut rm);
    let out = dispatch(
        a,
        Request::Message(Message {
            message_type: MessageType::Room,
            receiver_id: 77,
            message: String::from("hi"),
        }),
        &mut ws,
        &mut rm,
    );
    assert_eq!(out.scope, FanoutScope::Registry);
    assert_eq!(out.sends.len(), 1);
    assert_eq!(out.sends[0].to, a);
    match &out.sends[0].response.data {
        ResponseData::Error(p) => assert_eq!(p.message, "Room not found"),
        other => panic!("expected an error payload, got {:?}", other),
    }
}

#[test]
fn disconnect_tells_the_others_and_spares_the_rooms() {
    let mut ws = WsConnections::new();
    let mut rm = RoomManager::new();
    let a = ws.accept();
    let b = ws.accept();
    set_name(a, "alice", &mut ws, &mut rm);
    let room_id = rm.create(a, String::from("lobby"));
    rm.join(room_id, b).unwrap();

    let out = dispatch(b, Request::Disconnected, &mut ws, &mut rm);
    assert!(!ws.contains(b), "removal is immediate and final");
    assert_eq!(out.sends.len(), 1);
    assert_eq!(out.sends[0].to, a, "only the others are told");
    match &out.sends[0].response.data {
        ResponseData::Offline(p) => assert_eq!(p.id, b),
        other => panic!("expected an offline payload, got {:?}", other),
    }
    assert_eq!(
        rm.members_of(room_id).unwrap(),
        vec![a, b],
        "no room membership is touched proactively"
    );

    // The next room multicast degrades gracefully: it reaches the remaining
    // member and lazily sweeps the vanished one.
    let out = dispatch(
        a,
        Request::Message(Message {
            message_type: MessageType::Room,
            receiver_id: room_id,
            message: String::from("hi"),
        }),
        &mut ws,
        &mut rm,
    );
    let tos: Vec<u64> = out.sends.iter().map(|o| o.to).collect();
    assert_eq!(tos, vec![a]);
    assert_eq!(rm.members_of(room_id).unwrap(), vec![a]);
}

#[test]
fn global_online_lists_only_named_connections() {
    let mut ws = WsConnections::new();
    let mut rm = RoomManager::new();
    let a = ws.accept();
    let b = ws.accept();
    let _anon = ws.accept();
    set_name(a, "alice", &mut ws, &mut rm);
    set_name(b, "bob", &mut ws, &mut rm);
    let out = dispatch(a, Request::GlobalOnline, &mut ws, &mut rm);
    assert_eq!(out.sends.len(), 1);
    assert_eq!(out.sends[0].to, a);
    match &out.sends[0].response.data {
        ResponseData::GlobalOnline(p) => {
            let names: Vec<&str> = p.users.iter().map(|u| u.name.as_str()).collect();
            assert_eq!(names, vec!["alice", "bob"]);
            assert_eq!(p.users[0].id, a);
            assert_eq!(p.users[1].id, b);
        },
        other => panic!("expected a snapshot payload, got {:?}", other),
    }
}
