//! Unit tests of the registry, the rooms, and the broadcast planner.

use chat_core::registry::WsConnections;
use chat_core::responses::{Response, ResponseData, ResponseType, Offline};
use chat_core::room::Room;
use chat_core::room_manager::RoomManager;
use chat_core::service::{direct, online, send, send_error, sweep_failed, SendFilter};
use chat_core::types::ChatError;

fn offline_response(id: u64) -> Response {
    Response {
        response_type: ResponseType::Offline,
        data: ResponseData::Offline(Offline { id }),
    }
}

#[test]
fn accept_hands_out_fresh_distinct_ids() {
    let mut ws = WsConnections::new();
    let a = ws.accept();
    let b = ws.accept();
    let c = ws.accept();
    assert_ne!(a, b);
    assert_ne!(b, c);
    assert_ne!(a, c);
    assert_eq!(ws.len(), 3);
    assert!(ws.contains(a));
    assert!(ws.contains(b));
    assert!(ws.contains(c));
}

#[test]
fn removed_id_is_never_reused() {
    let mut ws = WsConnections::new();
    let a = ws.accept();
    assert!(ws.remove(a));
    assert!(!ws.contains(a));
    let b = ws.accept();
    assert_ne!(a, b, "an identifier must never be reused while the service runs");
    assert!(!ws.contains(a));
}

#[test]
fn set_name_on_absent_id_reports_not_found() {
    let mut ws = WsConnections::new();
    let a = ws.accept();
    assert!(!ws.set_name(a + 1, String::from("ghost")));
    assert!(ws.set_name(a, String::from("alice")));
    let conn = ws.get(a).expect("present");
    assert_eq!(conn.name.as_deref(), Some("alice"));
}

#[test]
fn remove_of_absent_id_is_a_no_op() {
    let mut ws = WsConnections::new();
    let a = ws.accept();
    assert!(!ws.remove(a + 7));
    assert_eq!(ws.len(), 1);
    assert!(ws.contains(a));
}

#[test]
fn broadcast_to_nobody_is_a_no_op() {
    let ws = WsConnections::new();
    let sends = send(&ws, SendFilter::All, &offline_response(0));
    assert!(sends.is_empty());

    let mut ws = WsConnections::new();
    let a = ws.accept();
    // A by-identifier rule that matches no registered connection.
    let sends = send(&ws, SendFilter::ById(a + 1), &offline_response(0));
    assert!(sends.is_empty());
    // Excluding the only connection matches nobody either.
    let sends = send(&ws, SendFilter::ExcludingSelf(a), &offline_response(0));
    assert!(sends.is_empty());
}

#[test]
fn direct_to_absent_target_is_not_found_and_mutates_nothing() {
    let mut ws = WsConnections::new();
    let a = ws.accept();
    let r = direct(&ws, a + 1, &offline_response(0));
    assert_eq!(r.unwrap_err(), ChatError::ClientNotFound);
    assert_eq!(ws.len(), 1);
    assert!(ws.contains(a));
}

#[test]
fn sweep_removes_failed_and_cascades_one_offline_each() {
    let mut ws = WsConnections::new();
    let a = ws.accept();
    let b = ws.accept();
    let x = ws.accept();
    let cascade = sweep_failed(&mut ws, &vec![x]);
    assert!(!ws.contains(x), "the failed connection must be gone");
    assert!(ws.contains(a) && ws.contains(b));
    assert_eq!(cascade.len(), 2, "one notice per surviving connection");
    let mut tos: Vec<u64> = cascade.iter().map(|o| o.to).collect();
    tos.sort();
    assert_eq!(tos, vec![a, b]);
    for o in &cascade {
        assert_eq!(o.response.response_type, ResponseType::Offline);
        match &o.response.data {
            ResponseData::Offline(p) => assert_eq!(p.id, x),
            other => panic!("expected an offline payload, got {:?}", other),
        }
    }
}

#[test]
fn sweep_of_two_failures_notifies_about_each_exactly_once() {
    let mut ws = WsConnections::new();
    let a = ws.accept();
    let x = ws.accept();
    let y = ws.accept();
    let cascade = sweep_failed(&mut ws, &vec![x, y]);
    assert_eq!(ws.len(), 1);
    assert_eq!(cascade.len(), 2, "two failed times one survivor");
    let mut about: Vec<u64> = cascade
        .iter()
        .map(|o| match &o.response.data {
            ResponseData::Offline(p) => p.id,
            other => panic!("expected an offline payload, got {:?}", other),
        })
        .collect();
    about.sort();
    assert_eq!(about, vec![x, y]);
    assert!(cascade.iter().all(|o| o.to == a));
}

#[test]
fn room_membership_is_idempotent() {
    let mut room = Room::new(7, String::from("lobby"), 1);
    room.add_client(2);
    room.add_client(2);
    room.add_client(1);
    let ws = WsConnections::new();
    // Nobody is registered, so the multicast reaches nobody and sweeps all.
    let sends = room.send(&ws, &offline_response(0));
    assert!(sends.is_empty());
}

#[test]
fn room_manager_creates_with_creator_as_sole_member() {
    let mut rm = RoomManager::new();
    let rid = rm.create(5, String::from("lobby"));
    assert_eq!(rm.members_of(rid).unwrap(), vec![5]);
    let other = rm.create(6, String::from("den"));
    assert_ne!(rid, other, "room identifiers come from their own namespace, never reused");
}

#[test]
fn room_manager_join_unknown_room_is_not_found() {
    let mut rm = RoomManager::new();
    let rid = rm.create(5, String::from("lobby"));
    let r = rm.join(rid + 1, 6);
    assert_eq!(r.unwrap_err(), ChatError::RoomNotFound);
    assert_eq!(rm.members_of(rid).unwrap(), vec![5]);
}

#[test]
fn room_manager_sweep_removes_only_reported_members() {
    let mut rm = RoomManager::new();
    let rid = rm.create(5, String::from("lobby"));
    rm.join(rid, 6).unwrap();
    rm.join(rid, 7).unwrap();
    rm.remove_failed(rid, &vec![6]);
    assert_eq!(rm.members_of(rid).unwrap(), vec![5, 7]);
    // Sweeping a vanished room changes nothing.
    rm.remove_failed(rid + 9, &vec![5]);
    assert_eq!(rm.members_of(rid).unwrap(), vec![5, 7]);
}

#[test]
fn room_remove_client_leaves_the_rest() {
    let mut room = Room::new(3, String::from("den"), 1);
    room.add_client(2);
    room.add_client(4);
    room.remove_client(2);
    assert_eq!(room.room_clients, vec![1, 4]);
    // Removing an absent member is a no-op.
    room.remove_client(9);
    assert_eq!(room.room_clients, vec![1, 4]);
}

#[test]
fn send_error_reaches_a_present_requester_only() {
    let mut ws = WsConnections::new();
    let a = ws.accept();
    let sends = send_error(a, "Room not found", &ws);
    assert_eq!(sends.len(), 1);
    assert_eq!(sends[0].to, a);
    assert_eq!(sends[0].response.response_type, ResponseType::Error);
    let sends = send_error(a + 5, "Room not found", &ws);
    assert!(sends.is_empty(), "a vanished requester gets nothing");
}

#[test]
fn online_broadcast_carries_id_and_name() {
    let mut ws = WsConnections::new();
    let a = ws.accept();
    let b = ws.accept();
    assert!(ws.set_name(a, String::from("alice")));
    let sends = online(a, &ws).unwrap();
    assert_eq!(sends.len(), 2);
    assert_eq!(sends[0].to, a);
    assert_eq!(sends[1].to, b);
    for o in &sends {
        match &o.response.data {
            ResponseData::Online(p) => {
                assert_eq!(p.id, a);
                assert_eq!(p.name, "alice");
            }
            other => panic!("expected a presence payload, got {:?}", other),
        }
    }
    // Without a name, presence is refused.
    assert_eq!(online(b, &ws).unwrap_err(), ChatError::NameNotSet);
}

#[test]
fn chat_error_wire_texts() {
    assert_eq!(ChatError::ClientNotFound.message(), "Client not found");
    assert_eq!(ChatError::RoomNotFound.message(), "Room not found");
    assert_eq!(ChatError::NameNotSet.message(), "Nickname not set");
}
