//! Signaling handshake and room-scoped chat routing for peer-to-peer data
//! sessions.
//!
//! A client and a server exchange one session description each, as base64
//! of JSON ([`codec`]), each complete with its candidates ([`gate`]). The
//! client's decisions are in [`signaling`], the server's in [`handshake`].
//! Once connected, the server keeps the sessions, their channels and the
//! rooms in a [`hub`], which interprets what comes in on the channels
//! ([`router`]) and tears a session down when its connection ends
//! ([`session`], [`supervisor`]).
//!
//! Nothing here touches a network: the library is handed what happened and
//! says what to do.

pub mod error;
pub mod text;
pub mod base64;
pub mod json;
pub mod description;
pub mod codec;
pub mod identity;
pub mod registry;
pub mod rooms;
pub mod sessions;
pub mod session;
pub mod router;
pub mod hub;
pub mod gate;
pub mod supervisor;
pub mod signaling;
pub mod handshake;
