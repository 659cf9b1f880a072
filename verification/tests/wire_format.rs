use udp_server::float_bits::int_to_f32_bits;
use udp_server::structs::entities::Entity;
use udp_server::wire::{
    decode_position_update, encode_position_request, follow_entity_id, follow_packet_bytes,
    movement_packet_bytes, parse_position_request, u32_from_be, u32_from_le, u32_to_be, u32_to_le,
    PositionRequest, PositionUpdate, FOLLOW, MOVE, UNFOLLOW,
};

#[test]
fn little_and_big_endian_bytes() {
    assert_eq!(u32_to_le(0x12345678), [0x78, 0x56, 0x34, 0x12]);
    assert_eq!(u32_to_be(0x12345678), [0x12, 0x34, 0x56, 0x78]);
    assert_eq!(u32_from_le(0x78, 0x56, 0x34, 0x12), 0x12345678);
    assert_eq!(u32_from_be(0x12, 0x34, 0x56, 0x78), 0x12345678);
    assert_eq!(u32_to_le(u32::MAX), [0xff; 4]);
    assert_eq!(u32_to_le(0), [0; 4]);
}

#[test]
fn endian_bytes_match_std() {
    for v in [0u32, 1, 255, 256, 65535, 65536, 0xdeadbeef, u32::MAX, 1234567] {
        assert_eq!(u32_to_le(v), v.to_le_bytes());
        assert_eq!(u32_to_be(v), v.to_be_bytes());
        let b = v.to_le_bytes();
        assert_eq!(u32_from_le(b[0], b[1], b[2], b[3]), v);
        let b = v.to_be_bytes();
        assert_eq!(u32_from_be(b[0], b[1], b[2], b[3]), v);
    }
}

#[test]
fn small_integers_as_f32_bits() {
    for v in -100i32..100 {
        assert_eq!(int_to_f32_bits(v), (v as f32).to_bits(), "value {}", v);
    }
    for v in [1000i32, -1000, 4096, 65537, 16777215, -16777215, 8388608, 8388609] {
        assert_eq!(int_to_f32_bits(v), (v as f32).to_bits(), "value {}", v);
    }
    assert_eq!(int_to_f32_bits(0), 0);
    assert_eq!(int_to_f32_bits(1), 0x3f80_0000);
    assert_eq!(int_to_f32_bits(-2), 0xc000_0000);
}

#[test]
fn position_request_layout_and_round_trip() {
    let x = 1.5f32.to_bits();
    let y = (-2.25f32).to_bits();
    let req = encode_position_request(x, y, 7);
    let mut expected = [0u8; 10];
    expected[0] = MOVE;
    expected[1..5].copy_from_slice(&1.5f32.to_le_bytes());
    expected[5..9].copy_from_slice(&(-2.25f32).to_le_bytes());
    expected[9] = 7;
    assert_eq!(req, expected);

    let mut buf = [0u8; 1024];
    buf[0..10].copy_from_slice(&req);
    assert_eq!(parse_position_request(&buf), PositionRequest { pos_x: x, pos_y: y, level: 7 });
    assert_eq!(f32::from_bits(parse_position_request(&buf).pos_x), 1.5);
}

#[test]
fn movement_packet_layout() {
    let p = movement_packet_bytes(3.0f32.to_bits(), (-4.0f32).to_bits(), 0x01020304);
    assert_eq!(p[0], MOVE);
    assert_eq!(&p[1..5], &3.0f32.to_le_bytes());
    assert_eq!(&p[5..9], &(-4.0f32).to_le_bytes());
    assert_eq!(&p[9..13], &[4, 3, 2, 1]);
}

#[test]
fn entity_movement_message_overwrites_level_and_health() {
    let e = Entity {
        pos_x: 10.0f32.to_bits(),
        pos_y: (-20.0f32).to_bits(),
        level: 5,
        id: 9,
        user_id: 0x0a0b0c0d,
        health: 100,
    };
    let p = e.format_message_packet_movement();
    let mut expected = [MOVE, 0, 0, 0, 0, 0, 0, 0, 0, 0, 0, 0, 0];
    expected[1..5].copy_from_slice(&10.0f32.to_le_bytes());
    expected[5..9].copy_from_slice(&(-20.0f32).to_le_bytes());
    expected[9..13].copy_from_slice(&0x0a0b0c0du32.to_le_bytes());
    assert_eq!(p, expected);
}

#[test]
fn client_reads_movement_message() {
    let p = movement_packet_bytes(0.5f32.to_bits(), 8.0f32.to_bits(), 42);
    let mut buf = [0u8; 1024];
    buf[0..13].copy_from_slice(&p);
    assert_eq!(
        decode_position_update(&buf, 13),
        Some(PositionUpdate { pos_x: 0.5f32.to_bits(), pos_y: 8.0f32.to_bits(), client_id: 42 })
    );
    assert_eq!(decode_position_update(&buf, 12), None);
    buf[0] = UNFOLLOW;
    assert_eq!(decode_position_update(&buf, 13), None);
}

#[test]
fn follow_packets_carry_entity_id_big_endian() {
    assert_eq!(follow_packet_bytes(FOLLOW, 0x01020304), [FOLLOW, 1, 2, 3, 4, 0]);
    assert_eq!(follow_packet_bytes(UNFOLLOW, 7), [UNFOLLOW, 0, 0, 0, 7, 0]);
    let mut buf = [0u8; 1024];
    buf[0] = FOLLOW;
    buf[1..5].copy_from_slice(&300u32.to_be_bytes());
    assert_eq!(follow_entity_id(&buf), 300);
}
