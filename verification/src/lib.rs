//! Encoder for the PosiStageNet (PSN) chunk wire format.
//!
//! A tracking-system snapshot — an info packet (system name and tracker
//! names) or a data packet (per-tracker kinematic state) — is turned into a
//! tree of tag-length-value chunks and flattened, depth first, into one byte
//! buffer ready for transport.

pub mod packets;
pub mod serialize;
