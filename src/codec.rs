use vstd::prelude::*;

use crate::error::RconError;

verus! {

/// Packet type of a login request.
pub const TYPE_AUTH: i32 = 3;

/// Packet type of a command request (and of a login answer).
pub const TYPE_EXEC_COMMAND: i32 = 2;

/// Packet type of a command answer.
pub const TYPE_RESPONSE_VALUE: i32 = 0;

/// Bytes of the three header fields: length, id and type.
pub const HEADER_LEN: usize = 12;

/// Bytes that the length field counts besides the payload: id, type and the
/// two terminators.
pub const LENGTH_OVERHEAD: usize = 10;

/// Longest payload whose length field still fits a signed 32-bit integer.
pub const MAX_PAYLOAD: usize = 2147483637;

/// The three header fields of a packet.
#[derive(PartialEq, Eq, Structural, Debug, Clone, Copy)]
pub struct Header {
    pub length: i32,
    pub id: i32,
    pub kind: i32,
}

/// A decoded packet.
pub struct Packet {
    pub id: i32,
    pub kind: i32,
    pub payload: Vec<u8>,
}

/// Little-endian two's-complement bytes of `x`.
pub open spec fn le_bytes(x: i32) -> Seq<u8> {
    let u = x as u32;
    seq![u as u8, (u >> 8u32) as u8, (u >> 16u32) as u8, (u >> 24u32) as u8]
}

/// The signed 32-bit integer whose little-endian bytes are `b0 .. b3`.
pub open spec fn le_value(b0: u8, b1: u8, b2: u8, b3: u8) -> i32 {
    ((b0 as u32) | ((b1 as u32) << 8u32) | ((b2 as u32) << 16u32) | ((b3 as u32) << 24u32)) as i32
}

/// The integer stored at `b[at .. at + 4]`.
pub open spec fn le_at(b: Seq<u8>, at: int) -> i32 {
    le_value(b[at], b[at + 1], b[at + 2], b[at + 3])
}

/// Wire bytes of the packet `(id, kind, payload)`.
pub open spec fn packet_bytes(id: i32, kind: i32, payload: Seq<u8>) -> Seq<u8> {
    le_bytes((payload.len() + LENGTH_OVERHEAD) as i32) + le_bytes(id) + le_bytes(kind) + payload
        + seq![0u8, 0u8]
}

/// Header read from the first twelve bytes of `b`.
pub open spec fn header_of(b: Seq<u8>) -> Header {
    Header { length: le_at(b, 0), id: le_at(b, 4), kind: le_at(b, 8) }
}

/// Payload length that the header of `b` declares.
pub open spec fn declared_payload_len(b: Seq<u8>) -> int {
    le_at(b, 0) - LENGTH_OVERHEAD
}

/// `b` holds a header and the whole payload that it declares.
pub open spec fn frame_fits(b: Seq<u8>) -> bool {
    &&& b.len() >= HEADER_LEN
    &&& declared_payload_len(b) >= 0
    &&& HEADER_LEN + declared_payload_len(b) <= b.len()
}

/// The payload bytes that the header of `b` declares.
pub open spec fn frame_payload(b: Seq<u8>) -> Seq<u8> {
    b.subrange(HEADER_LEN as int, HEADER_LEN + declared_payload_len(b))
}

/// What decoding `b` yields: id, type and payload, if the frame fits.
pub open spec fn decoded(b: Seq<u8>) -> Option<(i32, i32, Seq<u8>)> {
    if frame_fits(b) {
        Some((le_at(b, 4), le_at(b, 8), frame_payload(b)))
    } else {
        None
    }
}

/// Bytes to integer and back are inverse.
pub proof fn lemma_le_round_trip(x: i32)
    ensures
        le_value(le_bytes(x)[0], le_bytes(x)[1], le_bytes(x)[2], le_bytes(x)[3]) == x,
{
    let u = x as u32;
    assert(((((u as u8) as u32) | ((((u >> 8u32) as u8) as u32) << 8u32) | ((((u >> 16u32) as u8)
        as u32) << 16u32) | ((((u >> 24u32) as u8) as u32) << 24u32)) as i32) == x) by (bit_vector)
        requires
            u == x as u32,
    ;
}

/// Appends the little-endian bytes of `x`.
fn push_le(buf: &mut Vec<u8>, x: i32)
    ensures
        final(buf)@ == old(buf)@ + le_bytes(x),
{
    let u = x as u32;
    buf.push(u as u8);
    buf.push((u >> 8u32) as u8);
    buf.push((u >> 16u32) as u8);
    buf.push((u >> 24u32) as u8);
    assert(final(buf)@ =~= old(buf)@ + le_bytes(x));
}

/// Reads the little-endian integer at `b[at .. at + 4]`.
pub fn read_le(b: &[u8], at: usize) -> (r: i32)
    requires
        at + 4 <= b@.len(),
    ensures
        r == le_at(b@, at as int),
{
    let w: u32 = (b[at] as u32) | ((b[at + 1] as u32) << 8u32) | ((b[at + 2] as u32) << 16u32)
        | ((b[at + 3] as u32) << 24u32);
    w as i32
}

/// Encodes a packet: length, id and type as little-endian 32-bit integers, the
/// payload, then two zero bytes. The length field counts every byte after it.
pub fn encode_packet(id: i32, kind: i32, payload: &[u8]) -> (r: Vec<u8>)
    requires
        payload@.len() <= MAX_PAYLOAD,
    ensures
        r@ == packet_bytes(id, kind, payload@),
{
    let length = (payload.len() + LENGTH_OVERHEAD) as i32;
    let mut buf: Vec<u8> = Vec::with_capacity(payload.len() + 14);
    push_le(&mut buf, length);
    push_le(&mut buf, id);
    push_le(&mut buf, kind);
    buf.extend_from_slice(payload);
    buf.push(0u8);
    buf.push(0u8);
    assert(buf@ =~= packet_bytes(id, kind, payload@));
    buf
}

/// Reads the three header fields from the first twelve bytes.
pub fn decode_header(bytes: &[u8]) -> (r: Result<Header, RconError>)
    ensures
        bytes@.len() >= HEADER_LEN ==> r == Ok::<Header, RconError>(header_of(bytes@)),
        bytes@.len() < HEADER_LEN ==> r == Err::<Header, RconError>(RconError::MalformedHeader),
{
    if bytes.len() < HEADER_LEN {
        return Err(RconError::MalformedHeader);
    }
    Ok(Header { length: read_le(bytes, 0), id: read_le(bytes, 4), kind: read_le(bytes, 8) })
}

/// Decodes a packet whose header and declared payload are all in `bytes`.
pub fn decode_packet(bytes: &[u8]) -> (r: Result<Packet, RconError>)
    ensures
        match r {
            Ok(p) => decoded(bytes@) == Some((p.id, p.kind, p.payload@)),
            Err(e) => decoded(bytes@) is None && e == RconError::MalformedHeader,
        },
{
    let header = decode_header(bytes)?;
    if header.length < LENGTH_OVERHEAD as i32 {
        return Err(RconError::MalformedHeader);
    }
    let payload_len = (header.length - LENGTH_OVERHEAD as i32) as usize;
    if payload_len > bytes.len() - HEADER_LEN {
        return Err(RconError::MalformedHeader);
    }
    let payload = vstd::slice::slice_subrange(bytes, HEADER_LEN, HEADER_LEN + payload_len);
    let mut out: Vec<u8> = Vec::new();
    out.extend_from_slice(payload);
    assert(out@ =~= frame_payload(bytes@));
    Ok(Packet { id: header.id, kind: header.kind, payload: out })
}

/// Decoding an encoded packet gives back its id, type and payload.
pub proof fn lemma_decode_encode(id: i32, kind: i32, payload: Seq<u8>)
    requires
        payload.len() <= MAX_PAYLOAD,
    ensures
        decoded(packet_bytes(id, kind, payload)) == Some((id, kind, payload)),
{
    let b = packet_bytes(id, kind, payload);
    let n = (payload.len() + LENGTH_OVERHEAD) as i32;
    lemma_le_round_trip(n);
    lemma_le_round_trip(id);
    lemma_le_round_trip(kind);
    assert(le_at(b, 0) == n);
    assert(le_at(b, 4) == id);
    assert(le_at(b, 8) == kind);
    assert(n == payload.len() + LENGTH_OVERHEAD);
    assert(frame_payload(b) =~= payload);
}

/// The length field of an encoded packet equals the number of bytes that follow
/// it: id, type, payload and the two terminators.
pub proof fn lemma_length_field(id: i32, kind: i32, payload: Seq<u8>)
    requires
        payload.len() <= MAX_PAYLOAD,
    ensures
        le_at(packet_bytes(id, kind, payload), 0) == 4 + 4 + payload.len() + 2,
        packet_bytes(id, kind, payload).len() == 4 + le_at(packet_bytes(id, kind, payload), 0),
{
    let n = (payload.len() + LENGTH_OVERHEAD) as i32;
    lemma_le_round_trip(n);
    assert(n == payload.len() + LENGTH_OVERHEAD);
}

} // verus!
