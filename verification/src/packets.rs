//! The domain data model: plain value types describing one tracking-system
//! snapshot, together with the chunk identifiers fixed by the PSN protocol.

use vstd::prelude::*;

verus! {

// Chunk identifiers fixed by the PSN protocol specification. Tracker
// container chunks are the one exception: they use the tracker's own
// numeric id as their chunk id instead of a fixed constant.
pub const PSN_PACKET_HEADER: u16 = 0x0000;

pub const PSN_INFO_PACKET: u16 = 0x6576;

pub const PSN_INFO_SYSTEM_NAME: u16 = 0x0001;

pub const PSN_INFO_TRACKER_LIST: u16 = 0x0002;

pub const PSN_INFO_TRACKER_NAME: u16 = 0x0000;

pub const PSN_DATA_PACKET: u16 = 0x6755;

pub const PSN_DATA_TRACKER_LIST: u16 = 0x0001;

pub const PSN_DATA_TRACKER_POS: u16 = 0x0000;

pub const PSN_DATA_TRACKER_SPEED: u16 = 0x0001;

pub const PSN_DATA_TRACKER_ORI: u16 = 0x0002;

pub const PSN_DATA_TRACKER_STATUS: u16 = 0x0003;

pub const PSN_DATA_TRACKER_ACCEL: u16 = 0x0004;

pub const PSN_DATA_TRACKER_TRGTPOS: u16 = 0x0005;

pub const PSN_DATA_TRACKER_TIMESTAMP: u16 = 0x0006;

/// One packet of either kind; the tagged union on which encoding is invoked.
pub enum Packet {
    Info(InfoPacket),
    Data(DataPacket),
}

/// An "info" packet: the system name and the list of known trackers.
pub struct InfoPacket {
    pub header: PacketHeader,
    pub system_name: String,
    pub tracker_list: Vec<TrackerInfo>,
}

/// The header present inside both packet kinds.
pub struct PacketHeader {
    /// Microseconds elapsed since the PSN server was started, at the moment
    /// the packet was sent by the server.
    pub timestamp: u64,
    /// High version number of the protocol. All systems sharing the same
    /// high version number are compatible with the sent binary packet.
    pub version_high: u8,
    /// Low version number of the protocol.
    pub version_low: u8,
    pub frame_id: u8,
    pub frame_packet_count: u8,
}

/// One tracker's description inside an info packet. The `tracker_id` doubles
/// as the tracker's chunk identifier on the wire, so it must be unique within
/// a packet; the encoder leaves that to the caller and encodes duplicates
/// as given.
pub struct TrackerInfo {
    pub tracker_id: u16,
    pub name: Option<String>,
}

/// A "data" packet: the per-tracker kinematic state.
pub struct DataPacket {
    pub header: PacketHeader,
    pub tracker_list: Vec<TrackerData>,
}

/// One tracker's kinematic state. As with [`TrackerInfo`], `tracker_id` is
/// used as the chunk identifier and must be unique within a packet.
pub struct TrackerData {
    pub tracker_id: u16,
    pub position: TrackerPosition,
    pub speed: TrackerSpeed,
    pub orientation: TrackerOrientation,
    pub status: TrackerStatus,
    pub acceleration: TrackerAcceleration,
    pub target_position: TrackerTargetPosition,
    pub timestamp: u64,
}

/// A tracker's position. Each coordinate carries the bit pattern of an
/// IEEE-754 single-precision value (as produced by `f32::to_bits`); the
/// encoder emits those 32 bits little-endian, which are exactly the wire
/// bytes of the float itself.
#[derive(Clone, Copy, PartialEq, Eq, Structural)]
pub struct TrackerPosition {
    pub x: u32,
    pub y: u32,
    pub z: u32,
}

/// A tracker's speed; coordinates are IEEE-754 bit patterns as in
/// [`TrackerPosition`].
#[derive(Clone, Copy, PartialEq, Eq, Structural)]
pub struct TrackerSpeed {
    pub x: u32,
    pub y: u32,
    pub z: u32,
}

/// A tracker's orientation; coordinates are IEEE-754 bit patterns as in
/// [`TrackerPosition`].
#[derive(Clone, Copy, PartialEq, Eq, Structural)]
pub struct TrackerOrientation {
    pub x: u32,
    pub y: u32,
    pub z: u32,
}

/// A tracker's status: the bit pattern of the `validity` single-precision
/// value, as in [`TrackerPosition`].
#[derive(Clone, Copy, PartialEq, Eq, Structural)]
pub struct TrackerStatus {
    pub validity: u32,
}

/// A tracker's acceleration; coordinates are IEEE-754 bit patterns as in
/// [`TrackerPosition`].
#[derive(Clone, Copy, PartialEq, Eq, Structural)]
pub struct TrackerAcceleration {
    pub x: u32,
    pub y: u32,
    pub z: u32,
}

/// A tracker's target position; coordinates are IEEE-754 bit patterns as in
/// [`TrackerPosition`].
#[derive(Clone, Copy, PartialEq, Eq, Structural)]
pub struct TrackerTargetPosition {
    pub x: u32,
    pub y: u32,
    pub z: u32,
}

} // verus!
