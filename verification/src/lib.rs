//! The core of a room-based message broker: which sessions exist, which rooms
//! each has joined, how one line of client text is understood, and to whom a
//! message for a room goes.
pub mod broadcaster;
pub mod command;
pub mod dispatcher;
pub mod error;
pub mod laws;
pub mod lists;
pub mod list_map;
pub mod membership;
pub mod registry;
pub mod room_index;
pub mod service;
pub mod session_id;
pub mod text;
