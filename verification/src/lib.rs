//! Core of a real-time presence-and-messaging service.
//!
//! Clients connect over a duplex channel, acquire an identity, set a display
//! name, exchange direct messages, and create or join named rooms for
//! multicast messaging. This crate holds the verified state core: the
//! connection registry, the room registry, the broadcast planner that
//! tolerates partial send failures, and the dispatcher that turns one inbound
//! request into registry mutations and a batch of outbound responses. The
//! transport (sockets, wire encoding) lives outside and drives this core one
//! event at a time.

pub mod properties;
pub mod registry;
pub mod requests;
pub mod responses;
pub mod room;
pub mod room_manager;
pub mod service;
pub mod types;
