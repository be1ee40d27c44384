//! Core of a real-time fan-out relay: a registry of live connections, each
//! with an ordered outbound queue, and the dispatch rules that route every
//! inbound frame to the right recipients.

pub mod dispatch;
pub mod laws;
pub mod messages;
pub mod registry;
