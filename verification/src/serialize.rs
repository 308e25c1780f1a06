//! The chunk tree encoder: a generic nested tag-length-value node, its
//! flattening into wire bytes, and the mapping from each domain type to its
//! protocol-mandated chunk shape.
//!
//! Wire format: every chunk starts with a 32-bit little-endian header packing
//! its 16-bit id in bits 0–15, its payload length in bits 16–30, and a
//! "has no sub-chunks" flag in bit 31. The header is followed by the raw
//! payload bytes and then by the encodings of the sub-chunks, depth first,
//! in list order. A payload longer than 32767 bytes cannot be represented
//! without corrupting the flag bit, so flattening rejects it.

use vstd::prelude::*;

verus! {

use vstd::bytes::lemma_auto_spec_u32_to_from_le_bytes;
use vstd::bytes::lemma_auto_spec_u64_to_from_le_bytes;
use vstd::bytes::spec_u32_from_le_bytes;
use vstd::bytes::spec_u32_to_le_bytes;
use vstd::bytes::spec_u64_from_le_bytes;
use vstd::bytes::spec_u64_to_le_bytes;
use vstd::bytes::u32_to_le_bytes;
use vstd::bytes::u64_to_le_bytes;
use vstd::string::StrSliceExecFns;
use vstd::utf8::encode_utf8;

use crate::packets::PSN_PACKET_HEADER;
use crate::packets::PSN_INFO_PACKET;
use crate::packets::PSN_INFO_SYSTEM_NAME;
use crate::packets::PSN_INFO_TRACKER_LIST;
use crate::packets::PSN_INFO_TRACKER_NAME;
use crate::packets::PSN_DATA_PACKET;
use crate::packets::PSN_DATA_TRACKER_LIST;
use crate::packets::PSN_DATA_TRACKER_POS;
use crate::packets::PSN_DATA_TRACKER_SPEED;
use crate::packets::PSN_DATA_TRACKER_ORI;
use crate::packets::PSN_DATA_TRACKER_STATUS;
use crate::packets::PSN_DATA_TRACKER_ACCEL;
use crate::packets::PSN_DATA_TRACKER_TRGTPOS;
use crate::packets::PSN_DATA_TRACKER_TIMESTAMP;
use crate::packets::Packet;
use crate::packets::InfoPacket;
use crate::packets::PacketHeader;
use crate::packets::TrackerInfo;
use crate::packets::DataPacket;
use crate::packets::TrackerData;
use crate::packets::TrackerPosition;
use crate::packets::TrackerSpeed;
use crate::packets::TrackerOrientation;
use crate::packets::TrackerStatus;
use crate::packets::TrackerAcceleration;
use crate::packets::TrackerTargetPosition;

/// The largest payload a chunk header can describe: its length field is
/// 15 bits wide.
pub const MAX_CHUNK_DATA_LEN: usize = 0x7FFF;

/// A failure surfaced by flattening instead of a corrupted buffer.
#[derive(Clone, Copy, Debug, PartialEq, Eq, Structural)]
pub enum EncodeError {
    /// Some chunk's payload exceeds [`MAX_CHUNK_DATA_LEN`] bytes, which the
    /// header's 15-bit length field cannot represent.
    PayloadTooLarge,
}

/// One node of the chunk tree: a 16-bit identifier, a raw byte payload, and
/// an ordered list of child chunks. A chunk is either a data leaf (payload,
/// no children) or a container (children, empty payload); the structure
/// permits both fields to be set, but the mapping below never does so.
pub struct Chunk {
    pub id: u16,
    pub data: Vec<u8>,
    pub sub_chunks: Vec<Chunk>,
}

/// The 32-bit header word: `id` in bits 0–15, the payload length in bits
/// 16–30, and in bit 31 a flag set exactly when the chunk has no sub-chunks.
/// Faithful to the wire only when `data_len <= MAX_CHUNK_DATA_LEN`.
pub open spec fn spec_header_word(id: u16, data_len: u32, childless: bool) -> u32 {
    if childless {
        (id as u32) | (data_len << 16) | (1u32 << 31)
    } else {
        (id as u32) | (data_len << 16)
    }
}

/// A chunk tree the wire format can represent: every payload in it fits the
/// header's 15-bit length field.
pub open spec fn chunk_wf(c: Chunk) -> bool
    decreases c,
{
    &&& c.data@.len() <= MAX_CHUNK_DATA_LEN
    &&& forall|i: int|
        0 <= i < c.sub_chunks@.len() ==> chunk_wf(#[trigger] c.sub_chunks@[i])
}

/// The flattened encoding of a chunk: its little-endian header word, its raw
/// payload, then each sub-chunk's encoding in list order, depth first.
pub open spec fn chunk_bytes(c: Chunk) -> Seq<u8>
    decreases c,
{
    spec_u32_to_le_bytes(
        spec_header_word(c.id, c.data@.len() as u32, c.sub_chunks@.len() == 0),
    ) + c.data@ + chunk_seq_bytes(c.sub_chunks@)
}

/// The concatenation, in order, of the encodings of a list of chunks.
pub open spec fn chunk_seq_bytes(s: Seq<Chunk>) -> Seq<u8>
    decreases s,
{
    if s.len() == 0 {
        Seq::empty()
    } else {
        chunk_bytes(s[0]) + chunk_seq_bytes(s.subrange(1, s.len() as int))
    }
}

impl Chunk {
    /// The packed 32-bit header word for this chunk's current state.
    pub fn header(&self) -> (h: u32)
        requires
            self.data@.len() <= MAX_CHUNK_DATA_LEN,
        ensures
            h == spec_header_word(self.id, self.data@.len() as u32, self.sub_chunks@.len() == 0),
    {
        let mut h: u32 = self.id as u32;
        h = h | ((self.data.len() as u32) << 16);
        if self.sub_chunks.len() == 0 {
            h = h | (1u32 << 31);
        }
        h
    }

    /// Flattens the chunk tree into one byte buffer: this chunk's header and
    /// payload, then every descendant, depth first, children in list order.
    /// Fails — instead of emitting a corrupting header — exactly when some
    /// payload in the tree exceeds [`MAX_CHUNK_DATA_LEN`] bytes.
    pub fn to_buffer(self) -> (r: Result<Vec<u8>, EncodeError>)
        ensures
            r is Ok <==> chunk_wf(self),
            r matches Ok(buf) ==> buf@ == chunk_bytes(self),
            r matches Err(e) ==> e == EncodeError::PayloadTooLarge,
    {
        let mut buf: Vec<u8> = Vec::new();
        match Chunk::encode_into(&self, &mut buf) {
            Ok(()) => Ok(buf),
            Err(e) => Err(e),
        }
    }

    /// Appends the flattened encoding of `c` to `buf`; on failure `buf` is
    /// discarded by the caller.
    fn encode_into(c: &Chunk, buf: &mut Vec<u8>) -> (r: Result<(), EncodeError>)
        ensures
            r is Ok <==> chunk_wf(*c),
            r is Ok ==> final(buf)@ == old(buf)@ + chunk_bytes(*c),
            r matches Err(e) ==> e == EncodeError::PayloadTooLarge,
        decreases *c,
    {
        let ghost buf0 = old(buf)@;
        if c.data.len() > MAX_CHUNK_DATA_LEN {
            return Err(EncodeError::PayloadTooLarge);
        }
        let word = c.header();
        let mut hbytes = u32_to_le_bytes(word);
        buf.append(&mut hbytes);
        let ghost buf1 = buf@;
        let mut k: usize = 0;
        while k < c.data.len()
            invariant
                k <= c.data@.len(),
                buf@ == buf1 + c.data@.take(k as int),
            decreases c.data@.len() - k,
        {
            buf.push(c.data[k]);
            proof {
                assert(buf1 + c.data@.take(k as int) + seq![c.data@[k as int]]
                    =~= buf1 + c.data@.take(k as int + 1));
            }
            k = k + 1;
        }
        let ghost subs = c.sub_chunks@;
        proof {
            assert(c.data@.take(c.data@.len() as int) =~= c.data@);
            assert(subs.subrange(0, subs.len() as int) =~= subs);
            assert(buf@ + chunk_seq_bytes(subs) =~= buf0 + chunk_bytes(*c));
        }
        let mut i: usize = 0;
        while i < c.sub_chunks.len()
            invariant
                i <= subs.len(),
                subs == c.sub_chunks@,
                c.data@.len() <= MAX_CHUNK_DATA_LEN,
                forall|j: int| 0 <= j < i ==> chunk_wf(#[trigger] subs[j]),
                buf@ + chunk_seq_bytes(subs.subrange(i as int, subs.len() as int))
                    == buf0 + chunk_bytes(*c),
            decreases subs.len() - i,
        {
            let ghost pre = buf@;
            match Chunk::encode_into(&c.sub_chunks[i], buf) {
                Ok(()) => {
                    proof {
                        let rest = subs.subrange(i as int, subs.len() as int);
                        let rest1 = subs.subrange(i as int + 1, subs.len() as int);
                        assert(rest[0] == subs[i as int]);
                        assert(rest.subrange(1, rest.len() as int) =~= rest1);
                        assert(chunk_seq_bytes(rest) == chunk_bytes(subs[i as int])
                            + chunk_seq_bytes(rest1));
                        assert(pre + chunk_bytes(subs[i as int]) + chunk_seq_bytes(rest1)
                            =~= pre + (chunk_bytes(subs[i as int]) + chunk_seq_bytes(rest1)));
                    }
                }
                Err(e) => {
                    proof {
                        assert(!chunk_wf(subs[i as int]));
                    }
                    return Err(e);
                }
            }
            i = i + 1;
        }
        proof {
            let rest = subs.subrange(subs.len() as int, subs.len() as int);
            assert(rest.len() == 0);
            assert(buf@ + chunk_seq_bytes(rest) =~= buf@);
            assert(chunk_wf(*c));
        }
        Ok(())
    }

    /// A leaf chunk whose payload is the text's raw UTF-8 bytes — no length
    /// prefix or terminator; the length is carried by the chunk header.
    pub fn from_string(id: u16, string: String) -> (c: Chunk)
        ensures
            c.id == id,
            c.data@ == encode_utf8(string@),
            c.sub_chunks@.len() == 0,
            chunk_wf(c) <==> encode_utf8(string@).len() <= MAX_CHUNK_DATA_LEN,
    {
        let c = Chunk { id, data: string.as_str().as_bytes_vec(), sub_chunks: Vec::new() };
        c
    }

    /// A leaf chunk whose payload is the 8-byte little-endian encoding of
    /// the value.
    pub fn from_u64(id: u16, data: u64) -> (c: Chunk)
        ensures
            c.id == id,
            c.data@ == spec_u64_to_le_bytes(data),
            c.sub_chunks@.len() == 0,
            chunk_wf(c),
    {
        let c = Chunk { id, data: u64_to_le_bytes(data), sub_chunks: Vec::new() };
        c
    }
}

/// The size the flattened encoding of a chunk must have: 4 header bytes,
/// its payload, and the recursively computed sizes of its children.
pub open spec fn spec_encoded_len(c: Chunk) -> nat
    decreases c,
{
    4 + c.data@.len() + spec_children_len(c.sub_chunks@)
}

/// The sum of the encoded sizes of a list of chunks.
pub open spec fn spec_children_len(s: Seq<Chunk>) -> nat
    decreases s,
{
    if s.len() == 0 {
        0
    } else {
        spec_encoded_len(s[0]) + spec_children_len(s.subrange(1, s.len() as int))
    }
}

/// Flattening is compositional and length-additive: a chunk's encoding is
/// exactly as long as its 4-byte header plus its payload plus the recursively
/// computed lengths of its children.
pub proof fn lemma_flatten_length(c: Chunk)
    ensures
        chunk_bytes(c).len() == spec_encoded_len(c),
    decreases c,
{
    lemma_auto_spec_u32_to_from_le_bytes();
    lemma_children_flatten_length(c.sub_chunks@);
}

proof fn lemma_children_flatten_length(s: Seq<Chunk>)
    ensures
        chunk_seq_bytes(s).len() == spec_children_len(s),
    decreases s,
{
    if s.len() > 0 {
        lemma_flatten_length(s[0]);
        lemma_children_flatten_length(s.subrange(1, s.len() as int));
    }
}

/// Children are never reordered: the encoding of two lists of chunks laid
/// end to end is the two lists' encodings laid end to end.
pub proof fn lemma_chunk_seq_bytes_concat(s1: Seq<Chunk>, s2: Seq<Chunk>)
    ensures
        chunk_seq_bytes(s1 + s2) == chunk_seq_bytes(s1) + chunk_seq_bytes(s2),
    decreases s1.len(),
{
    let s = s1 + s2;
    if s1.len() == 0 {
        assert(s =~= s2);
        assert(chunk_seq_bytes(s1) + chunk_seq_bytes(s2) =~= chunk_seq_bytes(s2));
    } else {
        let s1t = s1.subrange(1, s1.len() as int);
        assert(s[0] == s1[0]);
        assert(s.subrange(1, s.len() as int) =~= s1t + s2);
        lemma_chunk_seq_bytes_concat(s1t, s2);
        assert(chunk_bytes(s1[0]) + (chunk_seq_bytes(s1t) + chunk_seq_bytes(s2))
            =~= (chunk_bytes(s1[0]) + chunk_seq_bytes(s1t)) + chunk_seq_bytes(s2));
    }
}

proof fn lemma_chunk_seq_bytes_snoc(s: Seq<Chunk>, c: Chunk)
    ensures
        chunk_seq_bytes(s.push(c)) == chunk_seq_bytes(s) + chunk_bytes(c),
{
    let single = seq![c];
    assert(s.push(c) =~= s + single);
    lemma_chunk_seq_bytes_concat(s, single);
    assert(single[0] == c);
    assert(single.subrange(1, 1).len() == 0);
    assert(chunk_seq_bytes(single.subrange(1, 1)) =~= Seq::<u8>::empty());
    assert(chunk_seq_bytes(single) == chunk_bytes(c) + chunk_seq_bytes(single.subrange(1, 1)));
    assert(chunk_bytes(c) + Seq::<u8>::empty() =~= chunk_bytes(c));
}

/// Header bit-exactness for leaves: the first four bytes of a leaf chunk's
/// encoding are the little-endian bytes of `id | (len << 16) | (1 << 31)`.
pub proof fn lemma_leaf_header_bit_exact(c: Chunk)
    requires
        c.sub_chunks@.len() == 0,
        c.data@.len() <= MAX_CHUNK_DATA_LEN,
    ensures
        chunk_bytes(c).take(4) == spec_u32_to_le_bytes(
            (c.id as u32) | ((c.data@.len() as u32) << 16) | (1u32 << 31),
        ),
{
    lemma_auto_spec_u32_to_from_le_bytes();
    assert(chunk_bytes(c).take(4) =~= spec_u32_to_le_bytes(
        spec_header_word(c.id, c.data@.len() as u32, true),
    ));
}

/// Header bit-exactness for containers: a chunk with at least one child has
/// bit 31 of its header word clear.
pub proof fn lemma_container_header_flag_clear(c: Chunk)
    requires
        c.sub_chunks@.len() > 0,
        c.data@.len() <= MAX_CHUNK_DATA_LEN,
    ensures
        spec_u32_from_le_bytes(chunk_bytes(c).take(4)) & (1u32 << 31) == 0,
{
    lemma_auto_spec_u32_to_from_le_bytes();
    let idw = c.id as u32;
    let lenw = c.data@.len() as u32;
    assert(chunk_bytes(c).take(4) =~= spec_u32_to_le_bytes(
        spec_header_word(c.id, lenw, false),
    ));
    assert((idw | (lenw << 16)) & (1u32 << 31) == 0) by (bit_vector)
        requires
            idw < 0x10000u32,
            lenw <= 0x7FFFu32,
    ;
}

/// The wire bytes of a leaf chunk: header word (childless flag set), then
/// the payload verbatim.
pub open spec fn spec_leaf_bytes(id: u16, payload: Seq<u8>) -> Seq<u8> {
    spec_u32_to_le_bytes(spec_header_word(id, payload.len() as u32, true)) + payload
}

/// The wire bytes of a container chunk: header word with an empty payload —
/// the childless flag is set only for a container without children — then
/// the children's encodings in order.
pub open spec fn spec_container_bytes(id: u16, child_count: nat, children: Seq<u8>) -> Seq<u8> {
    spec_u32_to_le_bytes(spec_header_word(id, 0, child_count == 0)) + children
}

/// The packet header's leaf payload: timestamp (8 bytes little-endian), then
/// `version_high`, `version_low`, `frame_id` and `frame_packet_count`, one
/// byte each, in that order.
pub open spec fn spec_packet_header_payload(h: PacketHeader) -> Seq<u8> {
    spec_u64_to_le_bytes(h.timestamp)
        + seq![h.version_high, h.version_low, h.frame_id, h.frame_packet_count]
}

/// The wire bytes of a packet header chunk.
pub open spec fn spec_packet_header_bytes(h: PacketHeader) -> Seq<u8> {
    spec_leaf_bytes(PSN_PACKET_HEADER, spec_packet_header_payload(h))
}

/// Whether one tracker description fits the wire format: its name, if any,
/// must fit the header's length field once UTF-8 encoded.
pub open spec fn spec_tracker_info_encodable(t: TrackerInfo) -> bool {
    match t.name {
        Some(n) => encode_utf8(n@).len() <= MAX_CHUNK_DATA_LEN,
        None => true,
    }
}

/// The wire bytes of one tracker description: a container under the
/// tracker's own id, holding one name leaf when a name is present and
/// nothing otherwise.
pub open spec fn spec_tracker_info_bytes(t: TrackerInfo) -> Seq<u8> {
    match t.name {
        Some(n) => spec_container_bytes(
            t.tracker_id,
            1,
            spec_leaf_bytes(PSN_INFO_TRACKER_NAME, encode_utf8(n@)),
        ),
        None => spec_container_bytes(t.tracker_id, 0, Seq::empty()),
    }
}

/// Whether every tracker description in a list fits the wire format.
pub open spec fn spec_info_list_encodable(ts: Seq<TrackerInfo>) -> bool {
    forall|j: int| 0 <= j < ts.len() ==> spec_tracker_info_encodable(#[trigger] ts[j])
}

/// The concatenated wire bytes of a list of tracker descriptions, in input
/// order.
pub open spec fn spec_info_list_children(ts: Seq<TrackerInfo>) -> Seq<u8>
    decreases ts.len(),
{
    if ts.len() == 0 {
        Seq::empty()
    } else {
        spec_tracker_info_bytes(ts[0]) + spec_info_list_children(ts.subrange(1, ts.len() as int))
    }
}

/// The wire bytes of an info packet's tracker-list container.
pub open spec fn spec_info_tracker_list_bytes(ts: Seq<TrackerInfo>) -> Seq<u8> {
    spec_container_bytes(PSN_INFO_TRACKER_LIST, ts.len(), spec_info_list_children(ts))
}

/// Whether an info packet fits the wire format: the system name and every
/// tracker name must fit the header's length field once UTF-8 encoded.
pub open spec fn spec_info_packet_encodable(p: InfoPacket) -> bool {
    &&& encode_utf8(p.system_name@).len() <= MAX_CHUNK_DATA_LEN
    &&& spec_info_list_encodable(p.tracker_list@)
}

/// The wire bytes of an info packet: a container holding the header chunk,
/// the system-name leaf, and the tracker-list container, in that order.
pub open spec fn spec_info_packet_bytes(p: InfoPacket) -> Seq<u8> {
    spec_container_bytes(
        PSN_INFO_PACKET,
        3,
        spec_packet_header_bytes(p.header)
            + spec_leaf_bytes(PSN_INFO_SYSTEM_NAME, encode_utf8(p.system_name@))
            + spec_info_tracker_list_bytes(p.tracker_list@),
    )
}

/// A three-coordinate leaf payload: x, y and z bit patterns, each 4 bytes
/// little-endian, in that order.
pub open spec fn spec_xyz_payload(x: u32, y: u32, z: u32) -> Seq<u8> {
    spec_u32_to_le_bytes(x) + spec_u32_to_le_bytes(y) + spec_u32_to_le_bytes(z)
}

/// The wire bytes of one tracker's kinematic state: a container under the
/// tracker's own id holding the position, speed, orientation, status,
/// acceleration, target-position and timestamp leaves, in that fixed order.
pub open spec fn spec_tracker_data_bytes(t: TrackerData) -> Seq<u8> {
    spec_container_bytes(
        t.tracker_id,
        7,
        spec_leaf_bytes(
            PSN_DATA_TRACKER_POS,
            spec_xyz_payload(t.position.x, t.position.y, t.position.z),
        ) + spec_leaf_bytes(
            PSN_DATA_TRACKER_SPEED,
            spec_xyz_payload(t.speed.x, t.speed.y, t.speed.z),
        ) + spec_leaf_bytes(
            PSN_DATA_TRACKER_ORI,
            spec_xyz_payload(t.orientation.x, t.orientation.y, t.orientation.z),
        ) + spec_leaf_bytes(
            PSN_DATA_TRACKER_STATUS,
            spec_u32_to_le_bytes(t.status.validity),
        ) + spec_leaf_bytes(
            PSN_DATA_TRACKER_ACCEL,
            spec_xyz_payload(t.acceleration.x, t.acceleration.y, t.acceleration.z),
        ) + spec_leaf_bytes(
            PSN_DATA_TRACKER_TRGTPOS,
            spec_xyz_payload(t.target_position.x, t.target_position.y, t.target_position.z),
        ) + spec_leaf_bytes(PSN_DATA_TRACKER_TIMESTAMP, spec_u64_to_le_bytes(t.timestamp)),
    )
}

/// The concatenated wire bytes of a list of tracker states, in input order.
pub open spec fn spec_data_list_children(ts: Seq<TrackerData>) -> Seq<u8>
    decreases ts.len(),
{
    if ts.len() == 0 {
        Seq::empty()
    } else {
        spec_tracker_data_bytes(ts[0]) + spec_data_list_children(ts.subrange(1, ts.len() as int))
    }
}

/// The wire bytes of a data packet's tracker-list container.
pub open spec fn spec_data_tracker_list_bytes(ts: Seq<TrackerData>) -> Seq<u8> {
    spec_container_bytes(PSN_DATA_TRACKER_LIST, ts.len(), spec_data_list_children(ts))
}

/// The wire bytes of a data packet: a container holding the header chunk and
/// the tracker-list container, in that order.
pub open spec fn spec_data_packet_bytes(p: DataPacket) -> Seq<u8> {
    spec_container_bytes(
        PSN_DATA_PACKET,
        2,
        spec_packet_header_bytes(p.header) + spec_data_tracker_list_bytes(p.tracker_list@),
    )
}

/// Whether a packet fits the wire format. Data packets always do: all their
/// leaf payloads are of fixed size.
pub open spec fn spec_packet_encodable(p: Packet) -> bool {
    match p {
        Packet::Info(ip) => spec_info_packet_encodable(ip),
        Packet::Data(_) => true,
    }
}

/// The wire bytes of a packet of either kind.
pub open spec fn spec_packet_bytes(p: Packet) -> Seq<u8> {
    match p {
        Packet::Info(ip) => spec_info_packet_bytes(ip),
        Packet::Data(dp) => spec_data_packet_bytes(dp),
    }
}

proof fn lemma_leaf_chunk_bytes(c: Chunk)
    requires
        c.sub_chunks@.len() == 0,
    ensures
        chunk_bytes(c) == spec_leaf_bytes(c.id, c.data@),
{
    assert(chunk_seq_bytes(c.sub_chunks@) =~= Seq::<u8>::empty());
    assert(chunk_bytes(c) =~= spec_leaf_bytes(c.id, c.data@));
}

proof fn lemma_container_chunk_bytes(c: Chunk)
    requires
        c.data@.len() == 0,
    ensures
        chunk_bytes(c) == spec_container_bytes(
            c.id,
            c.sub_chunks@.len(),
            chunk_seq_bytes(c.sub_chunks@),
        ),
{
    assert(chunk_bytes(c) =~= spec_container_bytes(
        c.id,
        c.sub_chunks@.len(),
        chunk_seq_bytes(c.sub_chunks@),
    ));
}

proof fn lemma_csb1(s: Seq<Chunk>)
    requires
        s.len() == 1,
    ensures
        chunk_seq_bytes(s) == chunk_bytes(s[0]),
{
    assert(s.take(0).len() == 0);
    lemma_chunk_seq_bytes_snoc(s.take(0), s[0]);
    assert(s =~= s.take(0).push(s[0]));
    assert(Seq::<u8>::empty() + chunk_bytes(s[0]) =~= chunk_bytes(s[0]));
}

proof fn lemma_csb2(s: Seq<Chunk>)
    requires
        s.len() == 2,
    ensures
        chunk_seq_bytes(s) == chunk_bytes(s[0]) + chunk_bytes(s[1]),
{
    lemma_csb1(s.take(1));
    lemma_chunk_seq_bytes_snoc(s.take(1), s[1]);
    assert(s =~= s.take(1).push(s[1]));
    assert(s.take(1)[0] == s[0]);
}

proof fn lemma_csb3(s: Seq<Chunk>)
    requires
        s.len() == 3,
    ensures
        chunk_seq_bytes(s) == chunk_bytes(s[0]) + chunk_bytes(s[1]) + chunk_bytes(s[2]),
{
    lemma_csb2(s.take(2));
    lemma_chunk_seq_bytes_snoc(s.take(2), s[2]);
    assert(s =~= s.take(2).push(s[2]));
    assert(s.take(2)[0] == s[0] && s.take(2)[1] == s[1]);
}

proof fn lemma_csb7(s: Seq<Chunk>)
    requires
        s.len() == 7,
    ensures
        chunk_seq_bytes(s) == chunk_bytes(s[0]) + chunk_bytes(s[1]) + chunk_bytes(s[2])
            + chunk_bytes(s[3]) + chunk_bytes(s[4]) + chunk_bytes(s[5]) + chunk_bytes(s[6]),
{
    lemma_csb3(s.take(3));
    lemma_chunk_seq_bytes_snoc(s.take(3), s[3]);
    assert(s.take(4) =~= s.take(3).push(s[3]));
    lemma_chunk_seq_bytes_snoc(s.take(4), s[4]);
    assert(s.take(5) =~= s.take(4).push(s[4]));
    lemma_chunk_seq_bytes_snoc(s.take(5), s[5]);
    assert(s.take(6) =~= s.take(5).push(s[5]));
    lemma_chunk_seq_bytes_snoc(s.take(6), s[6]);
    assert(s =~= s.take(6).push(s[6]));
    assert(s.take(3)[0] == s[0] && s.take(3)[1] == s[1] && s.take(3)[2] == s[2]);
    assert(s.take(4)[3] == s[3] && s.take(5)[4] == s[4] && s.take(6)[5] == s[5]);
}

/// Round trip of the timestamp payload: decoding the 8 little-endian bytes
/// of any 64-bit value reproduces that value exactly.
pub proof fn lemma_u64_payload_round_trip(v: u64)
    ensures
        spec_u64_to_le_bytes(v).len() == 8,
        spec_u64_from_le_bytes(spec_u64_to_le_bytes(v)) == v,
{
    lemma_auto_spec_u64_to_from_le_bytes();
}

/// Round trip of a three-coordinate payload: decoding each 4-byte
/// little-endian slice reproduces the x, y and z bit patterns exactly — and
/// with them, bit-exactly, the IEEE-754 values they carry.
pub proof fn lemma_xyz_payload_round_trip(x: u32, y: u32, z: u32)
    ensures
        spec_xyz_payload(x, y, z).len() == 12,
        spec_u32_from_le_bytes(spec_xyz_payload(x, y, z).subrange(0, 4)) == x,
        spec_u32_from_le_bytes(spec_xyz_payload(x, y, z).subrange(4, 8)) == y,
        spec_u32_from_le_bytes(spec_xyz_payload(x, y, z).subrange(8, 12)) == z,
{
    lemma_auto_spec_u32_to_from_le_bytes();
    let p = spec_xyz_payload(x, y, z);
    assert(p.subrange(0, 4) =~= spec_u32_to_le_bytes(x));
    assert(p.subrange(4, 8) =~= spec_u32_to_le_bytes(y));
    assert(p.subrange(8, 12) =~= spec_u32_to_le_bytes(z));
}

impl PacketHeader {
    /// The header's leaf chunk: fixed id, 12-byte payload in the mandated
    /// field order.
    pub fn to_chunk(self) -> (c: Chunk)
        ensures
            chunk_wf(c),
            c.sub_chunks@.len() == 0,
            chunk_bytes(c) == spec_packet_header_bytes(self),
    {
        let mut data = u64_to_le_bytes(self.timestamp);
        data.push(self.version_high);
        data.push(self.version_low);
        data.push(self.frame_id);
        data.push(self.frame_packet_count);
        let c = Chunk { id: PSN_PACKET_HEADER, data, sub_chunks: Vec::new() };
        proof {
            lemma_leaf_chunk_bytes(c);
            assert(c.data@ =~= spec_packet_header_payload(self));
        }
        c
    }
}

/// A three-coordinate leaf chunk shared by every kinematic field.
fn xyz_leaf(id: u16, x: u32, y: u32, z: u32) -> (c: Chunk)
    ensures
        chunk_wf(c),
        c.sub_chunks@.len() == 0,
        chunk_bytes(c) == spec_leaf_bytes(id, spec_xyz_payload(x, y, z)),
{
    let mut data = u32_to_le_bytes(x);
    let mut dy = u32_to_le_bytes(y);
    let mut dz = u32_to_le_bytes(z);
    data.append(&mut dy);
    data.append(&mut dz);
    let c = Chunk { id, data, sub_chunks: Vec::new() };
    proof {
        lemma_leaf_chunk_bytes(c);
        assert(c.data@ =~= spec_xyz_payload(x, y, z));
    }
    c
}

impl TrackerPosition {
    /// The position leaf chunk.
    pub fn to_chunk(self) -> (c: Chunk)
        ensures
            chunk_wf(c),
            c.sub_chunks@.len() == 0,
            chunk_bytes(c) == spec_leaf_bytes(
                PSN_DATA_TRACKER_POS,
                spec_xyz_payload(self.x, self.y, self.z),
            ),
    {
        xyz_leaf(PSN_DATA_TRACKER_POS, self.x, self.y, self.z)
    }
}

impl TrackerSpeed {
    /// The speed leaf chunk.
    pub fn to_chunk(self) -> (c: Chunk)
        ensures
            chunk_wf(c),
            c.sub_chunks@.len() == 0,
            chunk_bytes(c) == spec_leaf_bytes(
                PSN_DATA_TRACKER_SPEED,
                spec_xyz_payload(self.x, self.y, self.z),
            ),
    {
        xyz_leaf(PSN_DATA_TRACKER_SPEED, self.x, self.y, self.z)
    }
}

impl TrackerOrientation {
    /// The orientation leaf chunk.
    pub fn to_chunk(self) -> (c: Chunk)
        ensures
            chunk_wf(c),
            c.sub_chunks@.len() == 0,
            chunk_bytes(c) == spec_leaf_bytes(
                PSN_DATA_TRACKER_ORI,
                spec_xyz_payload(self.x, self.y, self.z),
            ),
    {
        xyz_leaf(PSN_DATA_TRACKER_ORI, self.x, self.y, self.z)
    }
}

impl TrackerStatus {
    /// The status leaf chunk: a single 4-byte little-endian validity value.
    pub fn to_chunk(self) -> (c: Chunk)
        ensures
            chunk_wf(c),
            c.sub_chunks@.len() == 0,
            chunk_bytes(c) == spec_leaf_bytes(
                PSN_DATA_TRACKER_STATUS,
                spec_u32_to_le_bytes(self.validity),
            ),
    {
        let c = Chunk {
            id: PSN_DATA_TRACKER_STATUS,
            data: u32_to_le_bytes(self.validity),
            sub_chunks: Vec::new(),
        };
        proof {
            lemma_leaf_chunk_bytes(c);
        }
        c
    }
}

impl TrackerAcceleration {
    /// The acceleration leaf chunk.
    pub fn to_chunk(self) -> (c: Chunk)
        ensures
            chunk_wf(c),
            c.sub_chunks@.len() == 0,
            chunk_bytes(c) == spec_leaf_bytes(
                PSN_DATA_TRACKER_ACCEL,
                spec_xyz_payload(self.x, self.y, self.z),
            ),
    {
        xyz_leaf(PSN_DATA_TRACKER_ACCEL, self.x, self.y, self.z)
    }
}

impl TrackerTargetPosition {
    /// The target-position leaf chunk.
    pub fn to_chunk(self) -> (c: Chunk)
        ensures
            chunk_wf(c),
            c.sub_chunks@.len() == 0,
            chunk_bytes(c) == spec_leaf_bytes(
                PSN_DATA_TRACKER_TRGTPOS,
                spec_xyz_payload(self.x, self.y, self.z),
            ),
    {
        xyz_leaf(PSN_DATA_TRACKER_TRGTPOS, self.x, self.y, self.z)
    }
}

impl TrackerInfo {
    /// One tracker's chunk inside an info packet: a container under the
    /// tracker's own id, holding one name leaf when a name is present and
    /// nothing otherwise.
    pub fn to_chunk(self) -> (c: Chunk)
        ensures
            chunk_wf(c) <==> spec_tracker_info_encodable(self),
            chunk_bytes(c) == spec_tracker_info_bytes(self),
    {
        match self.name {
            Some(name) => {
                let ghost name_bytes = encode_utf8(name@);
                let leaf = Chunk::from_string(PSN_INFO_TRACKER_NAME, name);
                let ghost leaf_ghost = leaf;
                let mut subs: Vec<Chunk> = Vec::new();
                subs.push(leaf);
                let c = Chunk { id: self.tracker_id, data: Vec::new(), sub_chunks: subs };
                proof {
                    lemma_leaf_chunk_bytes(leaf_ghost);
                    lemma_container_chunk_bytes(c);
                    lemma_csb1(c.sub_chunks@);
                    assert(chunk_wf(c) <==> chunk_wf(leaf_ghost));
                }
                c
            }
            None => {
                let c = Chunk {
                    id: self.tracker_id,
                    data: Vec::new(),
                    sub_chunks: Vec::new(),
                };
                proof {
                    lemma_container_chunk_bytes(c);
                    assert(chunk_seq_bytes(c.sub_chunks@) =~= Seq::<u8>::empty());
                }
                c
            }
        }
    }
}

proof fn lemma_info_children_bridge(cs: Seq<Chunk>, ts: Seq<TrackerInfo>)
    requires
        cs.len() == ts.len(),
        forall|j: int|
            0 <= j < cs.len() ==> chunk_bytes(#[trigger] cs[j]) == spec_tracker_info_bytes(ts[j]),
    ensures
        chunk_seq_bytes(cs) == spec_info_list_children(ts),
    decreases cs.len(),
{
    if cs.len() > 0 {
        let cs1 = cs.subrange(1, cs.len() as int);
        let ts1 = ts.subrange(1, ts.len() as int);
        assert forall|j: int|
            0 <= j < cs1.len() implies chunk_bytes(#[trigger] cs1[j])
            == spec_tracker_info_bytes(ts1[j]) by {
            assert(cs1[j] == cs[j + 1]);
            assert(ts1[j] == ts[j + 1]);
        }
        lemma_info_children_bridge(cs1, ts1);
        assert(chunk_bytes(cs[0]) == spec_tracker_info_bytes(ts[0]));
    }
}

/// The info packet's tracker-list container: one child per tracker, in
/// input order.
pub fn info_tracker_list_to_chunk(list: Vec<TrackerInfo>) -> (c: Chunk)
    ensures
        chunk_wf(c) <==> spec_info_list_encodable(list@),
        chunk_bytes(c) == spec_info_tracker_list_bytes(list@),
{
    let ghost orig = list@;
    let mut rest = list;
    let mut subs: Vec<Chunk> = Vec::new();
    while rest.len() > 0
        invariant
            subs@.len() + rest@.len() == orig.len(),
            rest@ == orig.subrange(subs@.len() as int, orig.len() as int),
            forall|j: int|
                0 <= j < subs@.len() ==> (chunk_bytes(#[trigger] subs@[j])
                    == spec_tracker_info_bytes(orig[j]) && (chunk_wf(subs@[j])
                    <==> spec_tracker_info_encodable(orig[j]))),
        decreases rest@.len(),
    {
        let ghost k = subs@.len() as int;
        proof {
            assert(rest@[0] == orig[k]);
        }
        let t = rest.remove(0);
        let ch = t.to_chunk();
        subs.push(ch);
        proof {
            assert(rest@ =~= orig.subrange(k + 1, orig.len() as int));
        }
    }
    let c = Chunk { id: PSN_INFO_TRACKER_LIST, data: Vec::new(), sub_chunks: subs };
    proof {
        let s = c.sub_chunks@;
        assert(s.len() == orig.len());
        lemma_container_chunk_bytes(c);
        lemma_info_children_bridge(s, orig);
        assert(chunk_wf(c) <==> spec_info_list_encodable(orig)) by {
            if chunk_wf(c) {
                assert forall|j: int|
                    0 <= j < orig.len() implies spec_tracker_info_encodable(
                    #[trigger] orig[j],
                ) by {
                    assert(chunk_wf(s[j]));
                }
            }
            if spec_info_list_encodable(orig) {
                assert forall|j: int| 0 <= j < s.len() implies chunk_wf(#[trigger] s[j]) by {
                    assert(spec_tracker_info_encodable(orig[j]));
                }
            }
        }
    }
    c
}

impl InfoPacket {
    /// The info packet's container chunk: the header chunk, the system-name
    /// leaf, and the tracker-list container, in that order.
    pub fn to_chunk(self) -> (c: Chunk)
        ensures
            chunk_wf(c) <==> spec_info_packet_encodable(self),
            chunk_bytes(c) == spec_info_packet_bytes(self),
    {
        let mut subs: Vec<Chunk> = Vec::new();
        subs.push(self.header.to_chunk());
        subs.push(Chunk::from_string(PSN_INFO_SYSTEM_NAME, self.system_name));
        subs.push(info_tracker_list_to_chunk(self.tracker_list));
        let c = Chunk { id: PSN_INFO_PACKET, data: Vec::new(), sub_chunks: subs };
        proof {
            let s = c.sub_chunks@;
            lemma_container_chunk_bytes(c);
            lemma_csb3(s);
            lemma_leaf_chunk_bytes(s[1]);
            assert(chunk_wf(c) <==> spec_info_packet_encodable(self)) by {
                if chunk_wf(s[0]) && chunk_wf(s[1]) && chunk_wf(s[2]) {
                    assert forall|j: int| 0 <= j < s.len() implies chunk_wf(#[trigger] s[j]) by {}
                }
            }
        }
        c
    }
}

proof fn lemma_data_children_bridge(cs: Seq<Chunk>, ts: Seq<TrackerData>)
    requires
        cs.len() == ts.len(),
        forall|j: int|
            0 <= j < cs.len() ==> chunk_bytes(#[trigger] cs[j]) == spec_tracker_data_bytes(ts[j]),
    ensures
        chunk_seq_bytes(cs) == spec_data_list_children(ts),
    decreases cs.len(),
{
    if cs.len() > 0 {
        let cs1 = cs.subrange(1, cs.len() as int);
        let ts1 = ts.subrange(1, ts.len() as int);
        assert forall|j: int|
            0 <= j < cs1.len() implies chunk_bytes(#[trigger] cs1[j])
            == spec_tracker_data_bytes(ts1[j]) by {
            assert(cs1[j] == cs[j + 1]);
            assert(ts1[j] == ts[j + 1]);
        }
        lemma_data_children_bridge(cs1, ts1);
        assert(chunk_bytes(cs[0]) == spec_tracker_data_bytes(ts[0]));
    }
}

impl TrackerData {
    /// One tracker's chunk inside a data packet: a container under the
    /// tracker's own id, holding the seven kinematic leaves in the mandated
    /// order.
    pub fn to_chunk(self) -> (c: Chunk)
        ensures
            chunk_wf(c),
            chunk_bytes(c) == spec_tracker_data_bytes(self),
    {
        let mut subs: Vec<Chunk> = Vec::new();
        subs.push(self.position.to_chunk());
        subs.push(self.speed.to_chunk());
        subs.push(self.orientation.to_chunk());
        subs.push(self.status.to_chunk());
        subs.push(self.acceleration.to_chunk());
        subs.push(self.target_position.to_chunk());
        subs.push(Chunk::from_u64(PSN_DATA_TRACKER_TIMESTAMP, self.timestamp));
        let c = Chunk { id: self.tracker_id, data: Vec::new(), sub_chunks: subs };
        proof {
            let s = c.sub_chunks@;
            lemma_container_chunk_bytes(c);
            lemma_csb7(s);
            lemma_leaf_chunk_bytes(s[6]);
            assert forall|j: int| 0 <= j < s.len() implies chunk_wf(#[trigger] s[j]) by {}
        }
        c
    }
}

/// The data packet's tracker-list container: one child per tracker, in
/// input order.
pub fn data_tracker_list_to_chunk(list: Vec<TrackerData>) -> (c: Chunk)
    ensures
        chunk_wf(c),
        chunk_bytes(c) == spec_data_tracker_list_bytes(list@),
{
    let ghost orig = list@;
    let mut rest = list;
    let mut subs: Vec<Chunk> = Vec::new();
    while rest.len() > 0
        invariant
            subs@.len() + rest@.len() == orig.len(),
            rest@ == orig.subrange(subs@.len() as int, orig.len() as int),
            forall|j: int|
                0 <= j < subs@.len() ==> (chunk_bytes(#[trigger] subs@[j])
                    == spec_tracker_data_bytes(orig[j]) && chunk_wf(subs@[j])),
        decreases rest@.len(),
    {
        let ghost k = subs@.len() as int;
        proof {
            assert(rest@[0] == orig[k]);
        }
        let t = rest.remove(0);
        let ch = t.to_chunk();
        subs.push(ch);
        proof {
            assert(rest@ =~= orig.subrange(k + 1, orig.len() as int));
        }
    }
    let c = Chunk { id: PSN_DATA_TRACKER_LIST, data: Vec::new(), sub_chunks: subs };
    proof {
        let s = c.sub_chunks@;
        assert(s.len() == orig.len());
        lemma_container_chunk_bytes(c);
        lemma_data_children_bridge(s, orig);
    }
    c
}

impl DataPacket {
    /// The data packet's container chunk: the header chunk and the
    /// tracker-list container, in that order.
    pub fn to_chunk(self) -> (c: Chunk)
        ensures
            chunk_wf(c),
            chunk_bytes(c) == spec_data_packet_bytes(self),
    {
        let mut subs: Vec<Chunk> = Vec::new();
        subs.push(self.header.to_chunk());
        subs.push(data_tracker_list_to_chunk(self.tracker_list));
        let c = Chunk { id: PSN_DATA_PACKET, data: Vec::new(), sub_chunks: subs };
        proof {
            let s = c.sub_chunks@;
            lemma_container_chunk_bytes(c);
            lemma_csb2(s);
            assert forall|j: int| 0 <= j < s.len() implies chunk_wf(#[trigger] s[j]) by {}
        }
        c
    }
}

impl Packet {
    /// The single entry point: builds the packet's chunk tree and flattens
    /// it into the PSN wire bytes. Fails — with no partial buffer handed
    /// out — exactly when a system name or tracker name exceeds
    /// [`MAX_CHUNK_DATA_LEN`] UTF-8 bytes; data packets always encode.
    pub fn to_buffer(self) -> (r: Result<Vec<u8>, EncodeError>)
        ensures
            r is Ok <==> spec_packet_encodable(self),
            r matches Ok(buf) ==> buf@ == spec_packet_bytes(self),
            r matches Err(e) ==> e == EncodeError::PayloadTooLarge,
    {
        let chunk = match self {
            Packet::Info(packet) => packet.to_chunk(),
            Packet::Data(packet) => packet.to_chunk(),
        };
        chunk.to_buffer()
    }
}

} // verus!
