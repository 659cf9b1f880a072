use udp_server::handler::Action;
use udp_server::messages::ping::handle_ping;
use udp_server::peer::{Datagram, PeerAddr};
use udp_server::server::Server;
use udp_server::spawner::shift_pos_to_inbound;
use udp_server::structs::clients::Client;
use udp_server::structs::entities::Entity;
use udp_server::wire::{encode_position_request, movement_packet_bytes, FOLLOW, MOVE, PING, UNFOLLOW};

const SECOND: u64 = 1_000_000_000;

fn peer(port: u16) -> PeerAddr {
    PeerAddr { v6: false, ip: 0x7f00_0001, port, flowinfo: 0, scope_id: 0 }
}

fn position(x: f32, y: f32, level: u8) -> [u8; 1024] {
    let mut buf = [0u8; 1024];
    buf[0..10].copy_from_slice(&encode_position_request(x.to_bits(), y.to_bits(), level));
    buf
}

fn follow(entity_id: u32) -> [u8; 1024] {
    let mut buf = [0u8; 1024];
    buf[0] = FOLLOW;
    buf[1..5].copy_from_slice(&entity_id.to_be_bytes());
    buf
}

fn sends(action: Action) -> Vec<Datagram> {
    match action {
        Action::Send(out) => out,
        other => panic!("expected datagrams to send, got {:?}", other),
    }
}

fn targets(out: &[Datagram]) -> Vec<PeerAddr> {
    out.iter().map(|d| d.to).collect()
}

#[test]
fn new_server_is_empty() {
    let s = Server::new();
    assert!(s.clients.is_empty());
    assert!(s.entities.is_empty());
    assert_eq!(s.next_user_id, 1);
    assert_eq!(s.next_entity_id, 1);
}

#[test]
fn ping_is_echoed_and_registers_nobody() {
    let mut s = Server::new();
    let mut buf = [0u8; 1024];
    buf[0] = PING;
    buf[1] = 0xaa;
    buf[2] = 0xbb;
    let out = sends(s.handle_message(&buf, 3, peer(1), 0));
    assert_eq!(out.len(), 1);
    assert_eq!(out[0].to, peer(1));
    assert_eq!(out[0].payload, vec![PING, 0xaa, 0xbb]);
    assert!(s.clients.is_empty());
    let direct = handle_ping(&buf, 2, peer(4));
    assert_eq!(direct.payload, vec![PING, 0xaa]);
    assert_eq!(direct.to, peer(4));
}

#[test]
fn ping_does_not_refresh_timeout() {
    let mut s = Server::new();
    sends(s.handle_message(&position(1.0, 2.0, 0), 10, peer(1), 0));
    let mut buf = [0u8; 1024];
    buf[0] = PING;
    sends(s.handle_message(&buf, 1, peer(1), 4 * SECOND));
    assert_eq!(s.clients[0].last_message, 0);
    assert!(s.remove_inactive_clients(5 * SECOND));
    assert!(s.clients.is_empty());
}

#[test]
fn position_registers_new_clients_with_fresh_ids() {
    let mut s = Server::new();
    let out = sends(s.handle_message(&position(1.5, -2.0, 3), 10, peer(1), 10));
    assert!(out.is_empty());
    assert_eq!(
        s.clients,
        vec![Client {
            addr: peer(1),
            pos_x: 1.5f32.to_bits(),
            pos_y: (-2.0f32).to_bits(),
            level: 3,
            user_id: 1,
            last_message: 10,
        }]
    );
    assert_eq!(s.next_user_id, 2);
    sends(s.handle_message(&position(0.0, 0.0, 3), 10, peer(2), 20));
    assert_eq!(s.clients[1].user_id, 2);
    assert_eq!(s.next_user_id, 3);
}

#[test]
fn known_client_keeps_its_id() {
    let mut s = Server::new();
    sends(s.handle_message(&position(1.0, 1.0, 0), 10, peer(1), 0));
    sends(s.handle_message(&position(7.0, 8.0, 2), 10, peer(1), 99));
    assert_eq!(s.clients.len(), 1);
    assert_eq!(s.clients[0].user_id, 1);
    assert_eq!(s.clients[0].pos_x, 7.0f32.to_bits());
    assert_eq!(s.clients[0].pos_y, 8.0f32.to_bits());
    assert_eq!(s.clients[0].level, 2);
    assert_eq!(s.clients[0].last_message, 99);
    assert_eq!(s.next_user_id, 2);
}

#[test]
fn position_forwarded_to_other_clients_on_the_same_level() {
    let mut s = Server::new();
    sends(s.handle_message(&position(0.0, 0.0, 1), 10, peer(1), 0));
    sends(s.handle_message(&position(0.0, 0.0, 2), 10, peer(2), 0));
    sends(s.handle_message(&position(0.0, 0.0, 1), 10, peer(3), 0));
    let out = sends(s.handle_message(&position(4.0, 5.0, 1), 10, peer(4), 0));
    assert_eq!(targets(&out), vec![peer(1), peer(3)]);
    let expected = movement_packet_bytes(4.0f32.to_bits(), 5.0f32.to_bits(), 4);
    for d in &out {
        assert_eq!(d.payload, expected.to_vec());
    }
    // client 1 moves to level 2: now only client 2 hears it
    let out = sends(s.handle_message(&position(6.0, 6.0, 2), 10, peer(1), 0));
    assert_eq!(targets(&out), vec![peer(2)]);
    assert_eq!(out[0].payload, movement_packet_bytes(6.0f32.to_bits(), 6.0f32.to_bits(), 1).to_vec());
}

#[test]
fn short_position_message_reads_zero_padding() {
    let mut s = Server::new();
    let mut buf = [0u8; 1024];
    buf[0] = MOVE;
    sends(s.handle_message(&buf, 1, peer(1), 0));
    assert_eq!(s.clients[0].pos_x, 0);
    assert_eq!(s.clients[0].pos_y, 0);
    assert_eq!(s.clients[0].level, 0);
}

#[test]
fn new_client_refused_when_ids_run_out() {
    let mut s = Server::new();
    sends(s.handle_message(&position(0.0, 0.0, 0), 10, peer(1), 0));
    s.next_user_id = u32::MAX;
    assert!(!s.can_update_position(peer(2)));
    assert!(matches!(s.handle_message(&position(0.0, 0.0, 0), 10, peer(2), 0), Action::Refused));
    assert_eq!(s.clients.len(), 1);
    assert!(s.can_update_position(peer(1)));
    assert!(matches!(s.handle_message(&position(1.0, 0.0, 0), 10, peer(1), 0), Action::Send(_)));
}

#[test]
fn unknown_and_reserved_types_are_ignored() {
    let mut s = Server::new();
    for kind in [0u8, 5, 6, 7, 0x42] {
        let mut buf = [0u8; 1024];
        buf[0] = kind;
        let out = sends(s.handle_message(&buf, 4, peer(1), 0));
        assert!(out.is_empty());
        assert!(s.clients.is_empty());
    }
}

#[test]
fn cleanup_drops_clients_silent_for_five_seconds() {
    let mut s = Server::new();
    sends(s.handle_message(&position(0.0, 0.0, 0), 10, peer(1), 0));
    sends(s.handle_message(&position(0.0, 0.0, 0), 10, peer(2), 3 * SECOND));
    assert!(!s.remove_inactive_clients(5 * SECOND - 1));
    assert_eq!(s.clients.len(), 2);
    assert!(s.remove_inactive_clients(5 * SECOND));
    assert_eq!(targets_of(&s), vec![peer(2)]);
    assert!(!s.remove_inactive_clients(5 * SECOND));
    assert!(s.remove_inactive_clients(8 * SECOND));
    assert!(s.clients.is_empty());
}

#[test]
fn cleanup_with_clock_behind_keeps_clients() {
    let mut s = Server::new();
    sends(s.handle_message(&position(0.0, 0.0, 0), 10, peer(1), 10 * SECOND));
    assert!(!s.remove_inactive_clients(0));
    assert_eq!(s.clients.len(), 1);
}

fn targets_of(s: &Server) -> Vec<PeerAddr> {
    s.clients.iter().map(|c| c.addr).collect()
}

#[test]
fn removed_client_comes_back_with_a_new_id() {
    let mut s = Server::new();
    sends(s.handle_message(&position(0.0, 0.0, 0), 10, peer(1), 0));
    s.remove_inactive_clients(6 * SECOND);
    sends(s.handle_message(&position(0.0, 0.0, 0), 10, peer(1), 6 * SECOND));
    assert_eq!(s.clients[0].user_id, 2);
}

#[test]
fn spawn_at_position_broadcasts_to_every_client() {
    let mut s = Server::new();
    sends(s.handle_message(&position(0.0, 0.0, 0), 10, peer(1), 0));
    sends(s.handle_message(&position(0.0, 0.0, 4), 10, peer(2), 0));
    let out = s.spawn_entity_at(3, -7);
    assert_eq!(s.entities.len(), 1);
    let e = s.entities[&1];
    assert_eq!(e.pos_x, 3.0f32.to_bits());
    assert_eq!(e.pos_y, (-7.0f32).to_bits());
    assert_eq!((e.level, e.id, e.user_id, e.health), (0, 1, 0, 100));
    assert_eq!(s.next_entity_id, 2);
    assert_eq!(targets(&out), vec![peer(1), peer(2)]);
    for d in &out {
        assert_eq!(d.payload, e.format_message_packet_movement().to_vec());
    }
}

#[test]
fn spawner_stops_at_one_hundred_entities() {
    let mut s = Server::new();
    sends(s.handle_message(&position(0.0, 0.0, 0), 10, peer(1), 0));
    for i in 0..100u32 {
        let out = s.spawn_tick().expect("room for another entity");
        assert_eq!(out.len(), 1);
        let e = s.entities[&(i + 1)];
        assert_eq!(e.id, i + 1);
        for bits in [e.pos_x, e.pos_y] {
            let v = f32::from_bits(bits);
            assert!(v >= -100.0 && v < 100.0 && v.fract() == 0.0, "coordinate {}", v);
        }
    }
    assert_eq!(s.entities.len(), 100);
    assert!(s.spawn_tick().is_none());
    assert_eq!(s.entities.len(), 100);
    assert_eq!(s.next_entity_id, 101);
}

#[test]
fn shift_keeps_position() {
    assert_eq!(shift_pos_to_inbound(-100, 99, 0), (-100, 99));
    assert_eq!(shift_pos_to_inbound(5, 6, 3), (5, 6));
}

#[test]
fn follow_of_fresh_entity_is_refused() {
    let mut s = Server::new();
    sends(s.handle_message(&position(0.0, 0.0, 0), 10, peer(1), 0));
    s.spawn_entity_at(1, 1);
    assert!(!s.can_follow(1, peer(1)));
    assert!(matches!(s.handle_message(&follow(1), 5, peer(1), 0), Action::Refused));
    assert_eq!(s.entities[&1].user_id, 0);
}

#[test]
fn follow_refused_for_unknown_entity_or_sender() {
    let mut s = Server::new();
    sends(s.handle_message(&position(0.0, 0.0, 0), 10, peer(1), 0));
    s.spawn_entity_at(1, 1);
    s.entities.get_mut(&1).unwrap().user_id = 1;
    assert!(matches!(s.handle_message(&follow(2), 5, peer(1), 0), Action::Refused));
    assert!(matches!(s.handle_message(&follow(0), 5, peer(1), 0), Action::Refused));
    assert!(matches!(s.handle_message(&follow(1), 5, peer(9), 0), Action::Refused));
    assert!(s.can_follow(1, peer(1)));
}

#[test]
fn follow_hands_entity_over() {
    let mut s = Server::new();
    sends(s.handle_message(&position(0.0, 0.0, 0), 10, peer(1), 0));
    sends(s.handle_message(&position(0.0, 0.0, 0), 10, peer(2), 0));
    s.spawn_entity_at(1, 1);
    s.spawn_entity_at(2, 2);
    s.entities.get_mut(&2).unwrap().user_id = 1;
    let before = s.entities.clone();
    let unfollow = match s.handle_message(&follow(2), 5, peer(2), 0) {
        Action::Unfollow(d) => d,
        other => panic!("expected an unfollow message, got {:?}", other),
    };
    assert_eq!(unfollow.to, peer(1));
    assert_eq!(unfollow.payload, vec![UNFOLLOW, 0, 0, 0, 2, 0]);
    // nothing is handed over before the unfollow message is delivered
    assert_eq!(s.entities, before);
    let follow_msg = s.finish_follow(&follow(2), peer(2));
    assert_eq!(follow_msg.to, peer(2));
    assert_eq!(follow_msg.payload, vec![FOLLOW, 0, 0, 0, 2, 0]);
    assert_eq!(s.entities[&2].user_id, 2);
    assert_eq!(s.entities[&1].user_id, 0);
    let back = s.handle_follow(&follow(2), peer(1));
    assert_eq!(back.to, peer(2));
    assert_eq!(back.payload, vec![UNFOLLOW, 0, 0, 0, 2, 0]);
    assert_eq!(s.entities[&2].user_id, 2);
    s.finish_follow(&follow(2), peer(1));
    assert_eq!(s.entities[&2].user_id, 1);
}

#[test]
fn find_client_and_user() {
    let mut s = Server::new();
    sends(s.handle_message(&position(0.0, 0.0, 0), 10, peer(1), 0));
    sends(s.handle_message(&position(0.0, 0.0, 0), 10, peer(2), 0));
    assert_eq!(s.find_client(peer(2)), Some(1));
    assert_eq!(s.find_client(peer(3)), None);
    assert_eq!(s.find_user(1), Some(0));
    assert_eq!(s.find_user(7), None);
}

#[test]
fn handle_update_position_direct_call() {
    let mut s = Server::new();
    s.handle_update_position(&position(1.0, 1.0, 0), peer(1), 0);
    let out = s.handle_update_position(&position(2.0, 2.0, 0), peer(2), 0);
    assert_eq!(targets(&out), vec![peer(1)]);
    assert_eq!(out[0].payload, movement_packet_bytes(2.0f32.to_bits(), 2.0f32.to_bits(), 2).to_vec());
    let entity = Entity { pos_x: 0, pos_y: 0, level: 0, id: 1, user_id: 0, health: 100 };
    let sent = s.send_entity_to_clients(&entity);
    assert_eq!(targets(&sent), vec![peer(1), peer(2)]);
    for d in &sent {
        assert_eq!(d.payload, entity.format_message_packet_movement().to_vec());
    }
}

#[test]
fn send_update_position_skips_sender_and_other_levels() {
    let mut s = Server::new();
    sends(s.handle_message(&position(0.0, 0.0, 1), 10, peer(1), 0));
    sends(s.handle_message(&position(0.0, 0.0, 1), 10, peer(2), 0));
    sends(s.handle_message(&position(0.0, 0.0, 0), 10, peer(3), 0));
    let out = s.send_update_position(peer(2), 9, 10, 1, 77);
    assert_eq!(targets(&out), vec![peer(1)]);
    assert_eq!(out[0].payload, movement_packet_bytes(9, 10, 77).to_vec());
    let out = s.send_update_position(peer(9), 9, 10, 0, 77);
    assert_eq!(targets(&out), vec![peer(3)]);
}
