//! Verified core of a rendezvous and relay server for browser-to-browser
//! chat: a signaling hub that registers peers and routes session-description
//! envelopes between them, the JSON wire codec for those envelopes, the TURN
//! long-term-credential store, and the small pure computations around them
//! (connection descriptor, asset lookup, listener lifecycle).
//!
//! Everything that touches sockets, tasks or the filesystem lives outside
//! this crate; the functions here are pure state transitions and codecs with
//! contracts over mathematical models of their data.

pub mod assets;
pub mod bytes;
pub mod codec;
pub mod credentials;
pub mod envelope;
pub mod hub;
pub mod json;
pub mod laws;
pub mod session;
pub mod supervisor;
pub mod turn;
