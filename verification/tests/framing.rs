use udp_server::framing::{frame_request, message_kind, store_message, MessageKind};

fn request(first: u8, announced: u32, payload: &[u8]) -> ([u8; 1024], usize) {
    let mut buf = [0u8; 1024];
    buf[0] = first;
    buf[1..5].copy_from_slice(&announced.to_be_bytes());
    buf[5..5 + payload.len()].copy_from_slice(payload);
    (buf, 5 + payload.len())
}

#[test]
fn kinds_by_first_byte() {
    assert_eq!(message_kind(0x01), MessageKind::Type01);
    assert_eq!(message_kind(0x02), MessageKind::Type02);
    assert_eq!(message_kind(0x7f), MessageKind::Unknown(0x7f));
}

#[test]
fn framed_payload_is_extracted() {
    let (buf, n) = request(0x02, 3, b"abc");
    assert_eq!(frame_request(&buf, n), Some((MessageKind::Type02, b"abc".to_vec())));
    let (buf, n) = request(0x09, 2, b"abc");
    assert_eq!(frame_request(&buf, n), Some((MessageKind::Unknown(0x09), b"ab".to_vec())));
}

#[test]
fn unframed_requests_are_not_dispatched() {
    let (buf, n) = request(0x01, 4, b"abc");
    assert_eq!(frame_request(&buf, n), None);
    let (buf, n) = request(0x01, 0, b"abc");
    assert_eq!(frame_request(&buf, n), None);
    let (buf, _) = request(0x01, 3, b"abc");
    assert_eq!(frame_request(&buf, 0), None);
    let (buf, n) = request(0x01, u32::MAX, b"abc");
    assert_eq!(frame_request(&buf, n), None);
}

#[test]
fn messages_are_appended_to_the_store() {
    let mut shared = vec![1u8, 2];
    store_message(&mut shared, &[3, 4, 5]);
    assert_eq!(shared, vec![1, 2, 3, 4, 5]);
    store_message(&mut shared, &[]);
    assert_eq!(shared, vec![1, 2, 3, 4, 5]);
}
