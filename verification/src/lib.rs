//! Rooms, messages and files shared between the devices of one person.
//!
//! A device can host a room on the local network, or take part in a relayed
//! room whose contents are encrypted end to end. This crate holds the rules of
//! both: who may read a room, what a message and a stored file look like, how
//! content is framed, encrypted and named, and how rooms find one another.
//! Sockets, files and windows are left to the program around it.
pub mod api;
pub mod cleanup;
pub mod clock;
pub mod conversations;
pub mod crypto;
pub mod discovery;
pub mod encoding;
pub mod files;
pub mod frame;
pub mod messages;
pub mod naming;
pub mod remote;
pub mod room;
pub mod startup;
pub mod text;
