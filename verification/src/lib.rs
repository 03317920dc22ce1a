//! Network orchestration core for a peer-to-peer terminal chat application.
//!
//! The crate verifies the layers that sit between an asynchronous networking
//! substrate and a synchronous presentation loop:
//!
//! - [`envelope`]: the binary wire format carrying chat and presence payloads
//!   over the shared pub/sub topic, with a proved encode/decode round trip.
//! - [`bridge`]: the command and event vocabulary exchanged between the two
//!   loops, and the bounded queue semantics of the channel pair.
//! - [`engine`]: the translation step of the network engine, from substrate
//!   events and queued commands to bridge events and substrate actions.
//! - [`sequencer`]: the timed state machine that orders relay bootstrap
//!   (dial first, reserve a circuit only after the handshake grace period).
//! - [`app_state`]: the presentation-side state, rebuilt purely from drained
//!   bridge events, and the auto-dial policy for discovered peers.
//! - [`hud`]: small pure helpers behind the status display.

pub mod app_state;
pub mod bridge;
pub mod engine;
pub mod envelope;
pub mod hud;
pub mod sequencer;
