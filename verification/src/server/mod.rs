//! The multiplayer room logic: seats, hosts, lobby settings, turn timers
//! and the messages exchanged with clients. Transport (HTTP, WebSocket,
//! timers and channels) is the embedding program's job; every decision it
//! needs is made here.

pub mod dispatch;
pub mod lobby;
pub mod messages;
pub mod room;
pub mod session;
