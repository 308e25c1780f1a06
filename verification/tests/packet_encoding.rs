//! End-to-end tests of the packet encoder: the concrete info and data
//! scenarios, list ordering, UTF-8 name handling, and the error path.

use psn_encoder::packets::{
    DataPacket, InfoPacket, Packet, PacketHeader, TrackerAcceleration, TrackerData, TrackerInfo,
    TrackerOrientation, TrackerPosition, TrackerSpeed, TrackerStatus, TrackerTargetPosition,
};
use psn_encoder::serialize::EncodeError;

fn le32(word: u32) -> Vec<u8> {
    word.to_le_bytes().to_vec()
}

fn header(timestamp: u64, vh: u8, vl: u8, fid: u8, fpc: u8) -> PacketHeader {
    PacketHeader {
        timestamp,
        version_high: vh,
        version_low: vl,
        frame_id: fid,
        frame_packet_count: fpc,
    }
}

fn zero_tracker_data(tracker_id: u16) -> TrackerData {
    TrackerData {
        tracker_id,
        position: TrackerPosition { x: 0, y: 0, z: 0 },
        speed: TrackerSpeed { x: 0, y: 0, z: 0 },
        orientation: TrackerOrientation { x: 0, y: 0, z: 0 },
        status: TrackerStatus { validity: 0 },
        acceleration: TrackerAcceleration { x: 0, y: 0, z: 0 },
        target_position: TrackerTargetPosition { x: 0, y: 0, z: 0 },
        timestamp: 0,
    }
}

#[test]
fn info_packet_concrete_scenario() {
    let packet = Packet::Info(InfoPacket {
        header: header(0, 2, 0, 0, 1),
        system_name: "A".to_string(),
        tracker_list: vec![TrackerInfo { tracker_id: 1, name: None }],
    });
    let buf = packet.to_buffer().unwrap();

    let mut expected = le32(0x0000_6576); // info container, 3 children
    expected.extend_from_slice(&le32(0x0000 | (12 << 16) | (1 << 31))); // header leaf
    expected.extend_from_slice(&[0, 0, 0, 0, 0, 0, 0, 0]); // timestamp
    expected.extend_from_slice(&[0x02, 0x00, 0x00, 0x01]); // versions, frame id, count
    expected.extend_from_slice(&le32(0x0001 | (1 << 16) | (1 << 31))); // system name leaf
    expected.push(0x41); // "A"
    expected.extend_from_slice(&le32(0x0000_0002)); // tracker list, 1 child
    expected.extend_from_slice(&le32(0x8000_0001)); // childless tracker container
    assert_eq!(buf, expected);
}

#[test]
fn data_packet_concrete_scenario() {
    let packet = Packet::Data(DataPacket {
        header: header(0, 0, 0, 0, 0),
        tracker_list: vec![zero_tracker_data(1)],
    });
    let buf = packet.to_buffer().unwrap();

    let mut expected = le32(0x0000_6755); // data container, 2 children
    expected.extend_from_slice(&le32(0x0000 | (12 << 16) | (1 << 31))); // header leaf
    expected.extend_from_slice(&[0u8; 12]);
    expected.extend_from_slice(&le32(0x0000_0001)); // tracker list, 1 child
    expected.extend_from_slice(&le32(0x0000_0001)); // tracker container, 7 children
    // Position, speed and orientation leaves: 12 zero bytes each.
    expected.extend_from_slice(&le32(0x0000 | (12 << 16) | (1 << 31)));
    expected.extend_from_slice(&[0u8; 12]);
    expected.extend_from_slice(&le32(0x0001 | (12 << 16) | (1 << 31)));
    expected.extend_from_slice(&[0u8; 12]);
    expected.extend_from_slice(&le32(0x0002 | (12 << 16) | (1 << 31)));
    expected.extend_from_slice(&[0u8; 12]);
    // Status leaf: a single 4-byte validity value.
    expected.extend_from_slice(&le32(0x0003 | (4 << 16) | (1 << 31)));
    expected.extend_from_slice(&[0u8; 4]);
    // Acceleration and target position leaves.
    expected.extend_from_slice(&le32(0x0004 | (12 << 16) | (1 << 31)));
    expected.extend_from_slice(&[0u8; 12]);
    expected.extend_from_slice(&le32(0x0005 | (12 << 16) | (1 << 31)));
    expected.extend_from_slice(&[0u8; 12]);
    // Timestamp leaf: 8 zero bytes.
    expected.extend_from_slice(&le32(0x0006 | (8 << 16) | (1 << 31)));
    expected.extend_from_slice(&[0u8; 8]);
    assert_eq!(buf, expected);
}

#[test]
fn data_packet_floats_are_bit_exact() {
    let mut tracker = zero_tracker_data(3);
    tracker.position = TrackerPosition {
        x: 1.5f32.to_bits(),
        y: (-2.25f32).to_bits(),
        z: 0.1f32.to_bits(),
    };
    let packet = Packet::Data(DataPacket { header: header(7, 2, 0, 1, 1), tracker_list: vec![tracker] });
    let buf = packet.to_buffer().unwrap();
    // data header (4) + header chunk (16) + list header (4) + tracker header (4)
    // + position leaf header (4) puts the position payload at offset 32.
    let x = f32::from_bits(u32::from_le_bytes(buf[32..36].try_into().unwrap()));
    let y = f32::from_bits(u32::from_le_bytes(buf[36..40].try_into().unwrap()));
    let z = f32::from_bits(u32::from_le_bytes(buf[40..44].try_into().unwrap()));
    assert_eq!(x.to_bits(), 1.5f32.to_bits());
    assert_eq!(y.to_bits(), (-2.25f32).to_bits());
    assert_eq!(z.to_bits(), 0.1f32.to_bits());
}

#[test]
fn empty_tracker_list_container_is_childless() {
    let packet = Packet::Info(InfoPacket {
        header: header(0, 2, 0, 0, 1),
        system_name: "S".to_string(),
        tracker_list: vec![],
    });
    let buf = packet.to_buffer().unwrap();
    // The tracker-list container is the last chunk and has no children, so
    // its flag bit is set even though it is a container by role.
    let tail: [u8; 4] = buf[buf.len() - 4..].try_into().unwrap();
    assert_eq!(u32::from_le_bytes(tail), 0x8000_0002);
}

#[test]
fn tracker_name_becomes_child_leaf() {
    let packet = Packet::Info(InfoPacket {
        header: header(0, 2, 0, 0, 1),
        system_name: "S".to_string(),
        tracker_list: vec![TrackerInfo { tracker_id: 9, name: Some("cam".to_string()) }],
    });
    let buf = packet.to_buffer().unwrap();
    let mut tail = le32(0x0000_0002); // tracker list, 1 child
    tail.extend_from_slice(&le32(0x0000_0009)); // tracker container, 1 child
    tail.extend_from_slice(&le32(0x0000 | (3 << 16) | (1 << 31))); // name leaf
    tail.extend_from_slice(b"cam");
    assert_eq!(&buf[buf.len() - tail.len()..], &tail[..]);
}

#[test]
fn tracker_list_keeps_input_order() {
    let packet = Packet::Info(InfoPacket {
        header: header(0, 2, 0, 0, 1),
        system_name: "S".to_string(),
        tracker_list: vec![
            TrackerInfo { tracker_id: 5, name: None },
            TrackerInfo { tracker_id: 3, name: None },
        ],
    });
    let buf = packet.to_buffer().unwrap();
    let mut tail = le32(0x0000_0002); // tracker list, 2 children
    tail.extend_from_slice(&le32(0x8000_0005));
    tail.extend_from_slice(&le32(0x8000_0003));
    assert_eq!(&buf[buf.len() - tail.len()..], &tail[..]);
}

#[test]
fn duplicate_tracker_ids_encode_as_given() {
    // Uniqueness of tracker ids is the caller's responsibility: the encoder
    // reproduces duplicates verbatim, in input order.
    let packet = Packet::Info(InfoPacket {
        header: header(0, 2, 0, 0, 1),
        system_name: "S".to_string(),
        tracker_list: vec![
            TrackerInfo { tracker_id: 4, name: None },
            TrackerInfo { tracker_id: 4, name: None },
        ],
    });
    let buf = packet.to_buffer().unwrap();
    let mut tail = le32(0x0000_0002);
    tail.extend_from_slice(&le32(0x8000_0004));
    tail.extend_from_slice(&le32(0x8000_0004));
    assert_eq!(&buf[buf.len() - tail.len()..], &tail[..]);
}

#[test]
fn multibyte_name_length_counts_utf8_bytes() {
    let packet = Packet::Info(InfoPacket {
        header: header(0, 2, 0, 0, 1),
        system_name: "\u{e9}".to_string(), // "é": two UTF-8 bytes
        tracker_list: vec![],
    });
    let buf = packet.to_buffer().unwrap();
    let mut name_chunk = le32(0x0001 | (2 << 16) | (1 << 31));
    name_chunk.extend_from_slice(&[0xC3, 0xA9]);
    // The system-name leaf sits between the header chunk and the list chunk.
    assert_eq!(&buf[20..26], &name_chunk[..]);
}

#[test]
fn system_name_of_32767_bytes_encodes() {
    let packet = Packet::Info(InfoPacket {
        header: header(0, 2, 0, 0, 1),
        system_name: "x".repeat(32767),
        tracker_list: vec![],
    });
    let buf = packet.to_buffer().unwrap();
    // info header + header chunk + name chunk + empty list chunk
    assert_eq!(buf.len(), 4 + 16 + (4 + 32767) + 4);
}

#[test]
fn system_name_of_32768_bytes_fails() {
    let packet = Packet::Info(InfoPacket {
        header: header(0, 2, 0, 0, 1),
        system_name: "x".repeat(32768),
        tracker_list: vec![],
    });
    assert_eq!(packet.to_buffer(), Err(EncodeError::PayloadTooLarge));
}

#[test]
fn oversized_tracker_name_fails() {
    let packet = Packet::Info(InfoPacket {
        header: header(0, 2, 0, 0, 1),
        system_name: "S".to_string(),
        tracker_list: vec![TrackerInfo { tracker_id: 1, name: Some("n".repeat(32768)) }],
    });
    assert_eq!(packet.to_buffer(), Err(EncodeError::PayloadTooLarge));
}

#[test]
fn tracker_name_of_32767_bytes_encodes() {
    let packet = Packet::Info(InfoPacket {
        header: header(0, 2, 0, 0, 1),
        system_name: "S".to_string(),
        tracker_list: vec![TrackerInfo { tracker_id: 1, name: Some("n".repeat(32767)) }],
    });
    let buf = packet.to_buffer().unwrap();
    // info header + header chunk + name chunk (4 + 1) + list header
    // + tracker header + tracker-name chunk
    assert_eq!(buf.len(), 4 + 16 + 5 + 4 + 4 + (4 + 32767));
}
