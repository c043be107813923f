//! Core of a session-oriented reliable datagram protocol layered over UDP.
//!
//! The library is organised around the per-session `Channel`: the state
//! machine that parses inbound wire packets, enforces sequence ordering with
//! a bounded reorder window, emits and consumes acknowledgements, reassembles
//! fragmented payloads, unbundles multi-payload bundles, fragments outbound
//! payloads, and drives the session handshake.

pub mod channel;
pub mod client_update_packet;
pub mod command;
pub mod codec;
pub mod crc;
pub mod game_packet;
pub mod mount;
pub mod packets;
pub mod player_update_packet;
pub mod reliable_data;
pub mod wire;
