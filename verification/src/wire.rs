use vstd::prelude::*;

verus! {

/// Message type byte: echo the datagram back to its sender.
pub const PING: u8 = 0x01;
/// Message type byte: a client position update, also used for entity movement.
pub const MOVE: u8 = 0x02;
/// Message type byte: a client asks an entity to follow it.
pub const FOLLOW: u8 = 0x03;
/// Message type byte: an entity stops following a client.
pub const UNFOLLOW: u8 = 0x04;
/// Message type byte: attack animation (accepted, no effect yet).
pub const ATTACK: u8 = 0x05;
/// Message type byte: hit (accepted, no effect yet).
pub const HIT: u8 = 0x06;
/// Message type byte: death (accepted, no effect yet).
pub const DIE: u8 = 0x07;

/// The four little-endian bytes of `v`, least significant first.
pub open spec fn le_bytes(v: u32) -> Seq<u8> {
    seq![(v % 256) as u8, ((v / 256) % 256) as u8, ((v / 65536) % 256) as u8, (v / 16777216) as u8]
}

/// The four big-endian bytes of `v`, most significant first.
pub open spec fn be_bytes(v: u32) -> Seq<u8> {
    seq![(v / 16777216) as u8, ((v / 65536) % 256) as u8, ((v / 256) % 256) as u8, (v % 256) as u8]
}

/// The number whose little-endian bytes are `b0 b1 b2 b3`.
pub open spec fn le_value(b0: u8, b1: u8, b2: u8, b3: u8) -> u32 {
    (b0 + 256 * b1 + 65536 * b2 + 16777216 * b3) as u32
}

/// Decoding the little-endian bytes of a number gives the number back.
pub proof fn lemma_le_value_of_bytes(v: u32)
    ensures
        le_value(le_bytes(v)[0], le_bytes(v)[1], le_bytes(v)[2], le_bytes(v)[3]) == v,
{
    let q1 = v / 256;
    let q2 = v / 65536;
    assert(q2 == q1 / 256);
    assert(v / 16777216 == q2 / 256);
    assert(v == (v % 256) + 256 * q1);
    assert(q1 == (q1 % 256) + 256 * q2);
    assert(q2 == (q2 % 256) + 256 * (q2 / 256));
}

/// Encoding the number decoded from four bytes gives the bytes back.
pub proof fn lemma_le_bytes_of_value(b0: u8, b1: u8, b2: u8, b3: u8)
    ensures
        le_bytes(le_value(b0, b1, b2, b3)) == seq![b0, b1, b2, b3],
{
    let v = le_value(b0, b1, b2, b3);
    assert(v == b0 + 256 * (b1 + 256 * (b2 + 256 * b3)));
    assert(v % 256 == b0 && v / 256 == b1 + 256 * (b2 + 256 * b3)) by {
        vstd::arithmetic::div_mod::lemma_fundamental_div_mod_converse(
            v as int, 256, (b1 + 256 * (b2 + 256 * b3)) as int, b0 as int);
    }
    let w = b1 + 256 * (b2 + 256 * b3);
    assert(w % 256 == b1 && w / 256 == b2 + 256 * b3) by {
        vstd::arithmetic::div_mod::lemma_fundamental_div_mod_converse(
            w as int, 256, (b2 + 256 * b3) as int, b1 as int);
    }
    let x = b2 + 256 * b3;
    assert(x % 256 == b2 && x / 256 == b3) by {
        vstd::arithmetic::div_mod::lemma_fundamental_div_mod_converse(x as int, 256, b3 as int, b2 as int);
    }
    assert(v / 65536 == x) by {
        vstd::arithmetic::div_mod::lemma_div_denominator(v as int, 256, 256);
    }
    assert(v / 16777216 == b3) by {
        vstd::arithmetic::div_mod::lemma_div_denominator(v as int, 65536, 256);
    }
    assert(le_bytes(v) =~= seq![b0, b1, b2, b3]);
}

/// The little-endian bytes of `v`.
pub fn u32_to_le(v: u32) -> (r: [u8; 4])
    ensures
        r@ == le_bytes(v),
{
    let r = [(v % 256) as u8, ((v / 256) % 256) as u8, ((v / 65536) % 256) as u8, (v / 16777216) as u8];
    assert(r@ =~= le_bytes(v));
    r
}

/// The big-endian bytes of `v`.
pub fn u32_to_be(v: u32) -> (r: [u8; 4])
    ensures
        r@ == be_bytes(v),
{
    let r = [(v / 16777216) as u8, ((v / 65536) % 256) as u8, ((v / 256) % 256) as u8, (v % 256) as u8];
    assert(r@ =~= be_bytes(v));
    r
}

/// The number whose little-endian bytes are `b0 b1 b2 b3`.
pub fn u32_from_le(b0: u8, b1: u8, b2: u8, b3: u8) -> (r: u32)
    ensures
        r == le_value(b0, b1, b2, b3),
        r == b0 + 256 * b1 + 65536 * b2 + 16777216 * b3,
{
    b0 as u32 + 256 * (b1 as u32) + 65536 * (b2 as u32) + 16777216 * (b3 as u32)
}


/// The movement message: the MOVE byte, then the little-endian bytes of the
/// two coordinate bit patterns and of the user id.
pub open spec fn movement_packet(pos_x: u32, pos_y: u32, user_id: u32) -> Seq<u8> {
    seq![MOVE] + le_bytes(pos_x) + le_bytes(pos_y) + le_bytes(user_id)
}

/// Builds the movement message.
pub fn movement_packet_bytes(pos_x: u32, pos_y: u32, user_id: u32) -> (r: [u8; 13])
    ensures
        r@ == movement_packet(pos_x, pos_y, user_id),
{
    let x = u32_to_le(pos_x);
    let y = u32_to_le(pos_y);
    let u = u32_to_le(user_id);
    let r = [MOVE, x[0], x[1], x[2], x[3], y[0], y[1], y[2], y[3], u[0], u[1], u[2], u[3]];
    assert(r@ =~= movement_packet(pos_x, pos_y, user_id));
    r
}


/// The number whose big-endian bytes are `b0 b1 b2 b3`.
pub open spec fn be_value(b0: u8, b1: u8, b2: u8, b3: u8) -> u32 {
    le_value(b3, b2, b1, b0)
}

/// The number whose big-endian bytes are `b0 b1 b2 b3`.
pub fn u32_from_be(b0: u8, b1: u8, b2: u8, b3: u8) -> (r: u32)
    ensures
        r == be_value(b0, b1, b2, b3),
{
    u32_from_le(b3, b2, b1, b0)
}

/// The 6-byte follow or unfollow message: the type byte, the big-endian
/// bytes of the entity id, and a zero byte.
pub open spec fn follow_packet(kind: u8, entity_id: u32) -> Seq<u8> {
    seq![kind] + be_bytes(entity_id) + seq![0u8]
}

/// Builds the follow or unfollow message.
pub fn follow_packet_bytes(kind: u8, entity_id: u32) -> (r: [u8; 6])
    ensures
        r@ == follow_packet(kind, entity_id),
{
    let b = u32_to_be(entity_id);
    let r = [kind, b[0], b[1], b[2], b[3], 0];
    assert(r@ =~= follow_packet(kind, entity_id));
    r
}

/// The position message that a client sends: the MOVE byte, the
/// little-endian bytes of its two coordinate bit patterns, and its level.
pub open spec fn position_request(pos_x: u32, pos_y: u32, level: u8) -> Seq<u8> {
    seq![MOVE] + le_bytes(pos_x) + le_bytes(pos_y) + seq![level]
}

/// Builds the 10-byte position message of a client.
pub fn encode_position_request(pos_x: u32, pos_y: u32, level: u8) -> (r: [u8; 10])
    ensures
        r@ == position_request(pos_x, pos_y, level),
{
    let x = u32_to_le(pos_x);
    let y = u32_to_le(pos_y);
    let r = [MOVE, x[0], x[1], x[2], x[3], y[0], y[1], y[2], y[3], level];
    assert(r@ =~= position_request(pos_x, pos_y, level));
    r
}

/// What the server reads from a position message.
#[derive(Clone, Copy, Debug, PartialEq, Eq, Structural)]
pub struct PositionRequest {
    pub pos_x: u32,
    pub pos_y: u32,
    pub level: u8,
}

/// The fields of a position message held in a receive buffer: bytes 1 to 4
/// and 5 to 8 as little-endian coordinate bit patterns, byte 9 as the level.
pub open spec fn parse_position_spec(buf: Seq<u8>) -> PositionRequest {
    PositionRequest {
        pos_x: le_value(buf[1], buf[2], buf[3], buf[4]),
        pos_y: le_value(buf[5], buf[6], buf[7], buf[8]),
        level: buf[9],
    }
}

/// Reads the fields of a position message from the receive buffer.
pub fn parse_position_request(buf: &[u8; 1024]) -> (r: PositionRequest)
    ensures
        r == parse_position_spec(buf@),
{
    PositionRequest {
        pos_x: u32_from_le(buf[1], buf[2], buf[3], buf[4]),
        pos_y: u32_from_le(buf[5], buf[6], buf[7], buf[8]),
        level: buf[9],
    }
}

/// The entity id of a follow message: bytes 1 to 4 of the receive buffer,
/// big-endian.
pub open spec fn follow_entity_spec(buf: Seq<u8>) -> u32 {
    be_value(buf[1], buf[2], buf[3], buf[4])
}

/// Reads the entity id of a follow message from the receive buffer.
pub fn follow_entity_id(buf: &[u8; 1024]) -> (r: u32)
    ensures
        r == follow_entity_spec(buf@),
{
    u32_from_be(buf[1], buf[2], buf[3], buf[4])
}

/// What a client reads from a movement message: the coordinate bit
/// patterns and the id of the client or entity that moved.
#[derive(Clone, Copy, Debug, PartialEq, Eq, Structural)]
pub struct PositionUpdate {
    pub pos_x: u32,
    pub pos_y: u32,
    pub client_id: u32,
}

/// A client's reading of its receive buffer after receiving `n` bytes: a
/// movement message when the first byte is MOVE and at least 13 bytes came.
pub open spec fn decode_position_update_spec(buf: Seq<u8>, n: nat) -> Option<PositionUpdate> {
    if buf[0] == MOVE && n >= 13 {
        Some(
            PositionUpdate {
                pos_x: le_value(buf[1], buf[2], buf[3], buf[4]),
                pos_y: le_value(buf[5], buf[6], buf[7], buf[8]),
                client_id: le_value(buf[9], buf[10], buf[11], buf[12]),
            },
        )
    } else {
        None
    }
}

/// Reads a movement message from a client's receive buffer holding `n`
/// received bytes.
pub fn decode_position_update(buf: &[u8; 1024], n: usize) -> (r: Option<PositionUpdate>)
    ensures
        r == decode_position_update_spec(buf@, n as nat),
{
    if buf[0] == MOVE && n >= 13 {
        Some(
            PositionUpdate {
                pos_x: u32_from_le(buf[1], buf[2], buf[3], buf[4]),
                pos_y: u32_from_le(buf[5], buf[6], buf[7], buf[8]),
                client_id: u32_from_le(buf[9], buf[10], buf[11], buf[12]),
            },
        )
    } else {
        None
    }
}


/// A vector holding the first `n` bytes of `b`.
pub fn prefix_to_vec(b: &[u8], n: usize) -> (r: Vec<u8>)
    requires
        n <= b@.len(),
    ensures
        r@ == b@.take(n as int),
{
    let mut r: Vec<u8> = Vec::new();
    let mut i: usize = 0;
    while i < n
        invariant
            n <= b@.len(),
            i <= n,
            r@ == b@.take(i as int),
        decreases n - i,
    {
        r.push(b[i]);
        assert(b@.take(i + 1) =~= b@.take(i as int).push(b@[i as int]));
        i = i + 1;
    }
    r
}

/// A vector holding the bytes of `b`.
pub fn bytes_to_vec(b: &[u8]) -> (r: Vec<u8>)
    ensures
        r@ == b@,
{
    let r = prefix_to_vec(b, b.len());
    assert(b@.take(b@.len() as int) =~= b@);
    r
}

} // verus!
