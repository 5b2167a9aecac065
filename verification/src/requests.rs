//! Inbound request envelope: the tagged union of everything a client can ask.
//!
//! Each request arrives tagged with the originating connection identifier by
//! the transport boundary; the payload never declares it itself.

use vstd::prelude::*;

verus! {

/// Payload of a set-nickname request.
#[derive(Debug, Clone)]
pub struct SetNickname {
    pub name: String,
}

/// Whether a message targets a single user or a room.
#[derive(Debug, Clone, Copy, PartialEq, Eq, Structural)]
pub enum MessageType {
    User,
    Room,
}

/// Payload of a message request: target kind, target identifier, body text.
#[derive(Debug, Clone)]
pub struct Message {
    pub message_type: MessageType,
    pub receiver_id: u64,
    pub message: String,
}

/// Payload of a create-room request.
#[derive(Debug, Clone)]
pub struct CreateRoom {
    pub name: String,
}

/// Payload of a join-room request.
#[derive(Debug, Clone, Copy, PartialEq, Eq, Structural)]
pub struct JoinRoom {
    pub id: u64,
}

/// The tag carried by the wire envelope, before the payload is decoded.
#[derive(Debug, Clone, Copy, PartialEq, Eq, Structural)]
pub enum RequestType {
    GetId,
    SetNickname,
    Online,
    Message,
    Disconnected,
    GlobalOnline,
    CreateRoom,
    JoinRoom,
}

/// A fully decoded client request.
#[derive(Debug, Clone)]
pub enum Request {
    GetId,
    SetNickname(SetNickname),
    Online,
    Message(Message),
    CreateRoom(CreateRoom),
    JoinRoom(JoinRoom),
    Disconnected,
    GlobalOnline,
}

/// The wire envelope as it arrives: a tag and the still-encoded payload.
#[derive(Debug)]
pub struct RawRequest {
    pub request_type: RequestType,
    pub data: String,
}

} // verus!
