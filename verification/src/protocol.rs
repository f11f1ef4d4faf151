//! The wire protocol: the join handshake, the direction command, and the
//! length prefix that frames a variable-length snapshot on the stream.
//! The two fixed-size messages are encoded as little-endian 32-bit words;
//! the snapshot length prefix is a big-endian unsigned 64-bit value.

use vstd::prelude::*;

use crate::snakes::Direction;
use crate::snakes::Snake;
use crate::snakes::SnakeID;
use crate::world::Point;

verus! {

/// The one-time join handshake sent to a client right after accept: the
/// grid dimensions and the client's assigned identifier.
#[derive(Clone, Copy, PartialEq, Eq, Structural, Debug)]
pub struct JoinPacket {
    pub width: u32,
    pub height: u32,
    pub id: SnakeID,
}

/// A snapshot of the world sent to every client each tick: all live
/// snakes, keyed by identifier, and the fruit cells.
pub struct StatePacket {
    pub snakes: Vec<(SnakeID, Snake)>,
    pub fruits: Vec<Point>,
}

/// The four little-endian bytes of a 32-bit word.
pub open spec fn u32_le_bytes(x: u32) -> Seq<u8> {
    seq![
        (x & 0xff) as u8,
        ((x >> 8) & 0xff) as u8,
        ((x >> 16) & 0xff) as u8,
        ((x >> 24) & 0xff) as u8,
    ]
}

/// The 32-bit word read from four little-endian bytes.
pub open spec fn u32_from_le(b0: u8, b1: u8, b2: u8, b3: u8) -> u32 {
    (b0 as u32) | ((b1 as u32) << 8) | ((b2 as u32) << 16) | ((b3 as u32) << 24)
}

/// Reading the four little-endian bytes of a word gives the word back.
pub proof fn lemma_u32_le_round_trip(x: u32)
    ensures
        u32_from_le(
            (x & 0xff) as u8,
            ((x >> 8) & 0xff) as u8,
            ((x >> 16) & 0xff) as u8,
            ((x >> 24) & 0xff) as u8,
        ) == x,
{
    assert(((x & 0xff) as u8 as u32) | ((((x >> 8) & 0xff) as u8 as u32) << 8) | ((((x >> 16)
        & 0xff) as u8 as u32) << 16) | ((((x >> 24) & 0xff) as u8 as u32) << 24) == x)
        by (bit_vector);
}

/// The wire form of the join handshake: width, height and identifier as
/// little-endian 32-bit words.
pub open spec fn join_bytes(p: JoinPacket) -> Seq<u8> {
    u32_le_bytes(p.width) + u32_le_bytes(p.height) + u32_le_bytes(p.id.value())
}

/// The join packet read back from a frame: twelve bytes exactly, else
/// nothing.
pub open spec fn parse_join(b: Seq<u8>) -> Option<JoinPacket> {
    if b.len() == 12 {
        Some(
            JoinPacket {
                width: u32_from_le(b[0], b[1], b[2], b[3]),
                height: u32_from_le(b[4], b[5], b[6], b[7]),
                id: SnakeID::from_value(u32_from_le(b[8], b[9], b[10], b[11])),
            },
        )
    } else {
        None
    }
}

/// Decoding an encoded join handshake gives the packet back.
pub proof fn lemma_join_round_trip(p: JoinPacket)
    ensures
        parse_join(join_bytes(p)) == Some(p),
{
    lemma_u32_le_round_trip(p.width);
    lemma_u32_le_round_trip(p.height);
    lemma_u32_le_round_trip(p.id.value());
    crate::snakes::lemma_id_from_value(p.id.value());
    crate::snakes::lemma_id_value_injective(
        SnakeID::from_value(p.id.value()),
        p.id,
    );
}

/// Encodes the join handshake: a fixed-size frame of twelve bytes.
pub fn encode_join(p: &JoinPacket) -> (r: Vec<u8>)
    ensures
        r@ == join_bytes(*p),
{
    let mut out: Vec<u8> = Vec::new();
    push_u32_le(&mut out, p.width);
    push_u32_le(&mut out, p.height);
    push_u32_le(&mut out, p.id.as_u32());
    proof {
        assert(out@ =~= join_bytes(*p));
    }
    out
}

/// Decodes a join handshake frame; a frame of the wrong size yields
/// nothing.
pub fn decode_join(bytes: &Vec<u8>) -> (r: Option<JoinPacket>)
    ensures
        r == parse_join(bytes@),
{
    if bytes.len() != 12 {
        return None;
    }
    let width = read_u32_le(bytes, 0);
    let height = read_u32_le(bytes, 4);
    let id_value = read_u32_le(bytes, 8);
    Some(JoinPacket { width, height, id: SnakeID::make(id_value) })
}

/// The wire tag of a direction, in declaration order.
pub open spec fn direction_tag(d: Direction) -> u32 {
    match d {
        Direction::Up => 0,
        Direction::Down => 1,
        Direction::Left => 2,
        Direction::Right => 3,
    }
}

/// The wire form of a direction command: its tag as a little-endian
/// 32-bit word.
pub open spec fn direction_bytes(d: Direction) -> Seq<u8> {
    u32_le_bytes(direction_tag(d))
}

/// The direction read back from a frame: four bytes holding a tag below
/// four, else nothing.
pub open spec fn parse_direction(b: Seq<u8>) -> Option<Direction> {
    if b.len() == 4 {
        let v = u32_from_le(b[0], b[1], b[2], b[3]);
        if v == 0 {
            Some(Direction::Up)
        } else if v == 1 {
            Some(Direction::Down)
        } else if v == 2 {
            Some(Direction::Left)
        } else if v == 3 {
            Some(Direction::Right)
        } else {
            None
        }
    } else {
        None
    }
}

/// Decoding an encoded direction command gives the direction back.
pub proof fn lemma_direction_round_trip(d: Direction)
    ensures
        parse_direction(direction_bytes(d)) == Some(d),
{
    lemma_u32_le_round_trip(direction_tag(d));
}

/// Encodes a direction command: a fixed-size frame of four bytes.
pub fn encode_direction(d: Direction) -> (r: Vec<u8>)
    ensures
        r@ == direction_bytes(d),
{
    let tag: u32 = match d {
        Direction::Up => 0,
        Direction::Down => 1,
        Direction::Left => 2,
        Direction::Right => 3,
    };
    let mut out: Vec<u8> = Vec::new();
    push_u32_le(&mut out, tag);
    proof {
        assert(out@ =~= direction_bytes(d));
    }
    out
}

/// Decodes a direction command frame; a malformed frame yields nothing,
/// which a reader treats as a failure of that connection alone.
pub fn decode_direction(bytes: &Vec<u8>) -> (r: Option<Direction>)
    ensures
        r == parse_direction(bytes@),
{
    if bytes.len() != 4 {
        return None;
    }
    let v = read_u32_le(bytes, 0);
    if v == 0 {
        Some(Direction::Up)
    } else if v == 1 {
        Some(Direction::Down)
    } else if v == 2 {
        Some(Direction::Left)
    } else if v == 3 {
        Some(Direction::Right)
    } else {
        None
    }
}

/// The eight big-endian bytes of the 64-bit length that prefixes a
/// snapshot frame.
pub open spec fn frame_len_bytes(n: u64) -> Seq<u8> {
    seq![
        ((n >> 56) & 0xff) as u8,
        ((n >> 48) & 0xff) as u8,
        ((n >> 40) & 0xff) as u8,
        ((n >> 32) & 0xff) as u8,
        ((n >> 24) & 0xff) as u8,
        ((n >> 16) & 0xff) as u8,
        ((n >> 8) & 0xff) as u8,
        (n & 0xff) as u8,
    ]
}

/// The 64-bit length read from eight big-endian bytes.
pub open spec fn frame_len_from(b: Seq<u8>) -> u64 {
    ((b[0] as u64) << 56) | ((b[1] as u64) << 48) | ((b[2] as u64) << 40) | ((b[3] as u64) << 32)
        | ((b[4] as u64) << 24) | ((b[5] as u64) << 16) | ((b[6] as u64) << 8) | (b[7] as u64)
}

/// Reading the eight big-endian bytes of a length gives the length back.
pub proof fn lemma_frame_len_round_trip(n: u64)
    ensures
        frame_len_from(frame_len_bytes(n)) == n,
{
    assert(((((n >> 56) & 0xff) as u8 as u64) << 56) | ((((n >> 48) & 0xff) as u8 as u64) << 48)
        | ((((n >> 40) & 0xff) as u8 as u64) << 40) | ((((n >> 32) & 0xff) as u8 as u64) << 32) | (
    (((n >> 24) & 0xff) as u8 as u64) << 24) | ((((n >> 16) & 0xff) as u8 as u64) << 16) | ((((n
        >> 8) & 0xff) as u8 as u64) << 8) | ((n & 0xff) as u8 as u64) == n) by (bit_vector);
}

/// Encodes the eight-byte big-endian length prefix of a snapshot frame.
pub fn encode_frame_len(n: u64) -> (r: Vec<u8>)
    ensures
        r@ == frame_len_bytes(n),
{
    let mut out: Vec<u8> = Vec::new();
    out.push(((n >> 56) & 0xff) as u8);
    out.push(((n >> 48) & 0xff) as u8);
    out.push(((n >> 40) & 0xff) as u8);
    out.push(((n >> 32) & 0xff) as u8);
    out.push(((n >> 24) & 0xff) as u8);
    out.push(((n >> 16) & 0xff) as u8);
    out.push(((n >> 8) & 0xff) as u8);
    out.push((n & 0xff) as u8);
    proof {
        assert(out@ =~= frame_len_bytes(n));
    }
    out
}

/// Decodes the length prefix of a snapshot frame; a prefix of the wrong
/// size yields nothing.
pub fn decode_frame_len(bytes: &Vec<u8>) -> (r: Option<u64>)
    ensures
        bytes@.len() == 8 ==> r == Some(frame_len_from(bytes@)),
        bytes@.len() != 8 ==> r is None,
{
    if bytes.len() != 8 {
        return None;
    }
    let n = ((bytes[0] as u64) << 56) | ((bytes[1] as u64) << 48) | ((bytes[2] as u64) << 40) | ((
    bytes[3] as u64) << 32) | ((bytes[4] as u64) << 24) | ((bytes[5] as u64) << 16) | ((
    bytes[6] as u64) << 8) | (bytes[7] as u64);
    Some(n)
}

/// Appends the four little-endian bytes of a 32-bit word.
fn push_u32_le(out: &mut Vec<u8>, x: u32)
    ensures
        final(out)@ == old(out)@ + u32_le_bytes(x),
{
    out.push((x & 0xff) as u8);
    out.push(((x >> 8) & 0xff) as u8);
    out.push(((x >> 16) & 0xff) as u8);
    out.push(((x >> 24) & 0xff) as u8);
    proof {
        assert(out@ =~= old(out)@ + u32_le_bytes(x));
    }
}

/// Reads the little-endian 32-bit word at `at`.
fn read_u32_le(bytes: &Vec<u8>, at: usize) -> (r: u32)
    requires
        at + 4 <= bytes@.len(),
    ensures
        r == u32_from_le(
            bytes@[at as int],
            bytes@[at as int + 1],
            bytes@[at as int + 2],
            bytes@[at as int + 3],
        ),
{
    let n = bytes.len();
    proof {
        assert(at + 4 <= n);
    }
    (bytes[at] as u32) | ((bytes[at + 1] as u32) << 8) | ((bytes[at + 2] as u32) << 16) | ((
    bytes[at + 3] as u32) << 24)
}

} // verus!
