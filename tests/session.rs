use brick_server::buffer::{self, Buffer};
use brick_server::game::{self, Delivery, Game, Identity};
use brick_server::packet_builder::{build_auth_packet, build_message_packet};
use brick_server::player::{self, Player};

fn entry(p: &Player) -> Vec<u8> {
    let mut b = buffer::new(None);
    b.write_uint32(p.net_id);
    b.write_string(p.username.clone());
    b.write_uint32(p.user_id);
    b.write_byte(p.admin as u8);
    b.write_byte(p.membership);
    b.data
}

fn framed(mut payload: Vec<u8>) -> Vec<u8> {
    let mut b = Buffer { data: std::mem::take(&mut payload) };
    b.write_uint_v();
    b.data
}

fn login(g: &mut Game) -> Vec<Delivery> {
    let mut token = buffer::new(None);
    g.authenticate(&mut token, None).expect("local mode admits every connection")
}

fn targets(d: &[Delivery]) -> Vec<u32> {
    d.iter().map(|x| x.to).collect()
}

#[test]
fn identities_unique_and_increasing() {
    let mut g = game::new();
    for _ in 0..5 {
        login(&mut g);
    }
    assert_eq!(g.players.len(), 5);
    let ids: Vec<u32> = g.players.iter().map(|p| p.net_id).collect();
    assert_eq!(ids, vec![0, 1, 2, 3, 4]);
    assert!(ids.windows(2).all(|w| w[0] < w[1]));
    assert_eq!(g.last_net_id, 5);
    let names: Vec<&str> = g.players.iter().map(|p| p.username.as_str()).collect();
    assert_eq!(names, vec!["Player 1", "Player 2", "Player 3", "Player 4", "Player 5"]);
}

#[test]
fn first_login_gets_only_its_reply() {
    let mut g = game::new();
    g.brick_count = 12;
    let out = login(&mut g);
    assert_eq!(out.len(), 1);
    assert_eq!(out[0].to, 0);
    assert_eq!(out[0].packet.data, build_auth_packet(0, "Player 1".to_string(), false, 0, 0, 12).data);
}

#[test]
fn join_announcement_fan_out() {
    let mut g = game::new();
    login(&mut g);
    let out = login(&mut g);
    let a = &g.players[0];
    let b = &g.players[1];
    assert_eq!(targets(&out), vec![1, 0, 1]);
    assert_eq!(out[0].packet.data, build_auth_packet(0, "Player 2".to_string(), false, 0, 1, 0).data);
    let mut notice = vec![3, 1];
    notice.extend(entry(b));
    assert_eq!(out[1].packet.data, framed(notice));
    let mut batch = vec![3, 1];
    batch.extend(entry(a));
    assert_eq!(out[2].packet.data, framed(batch));
}

#[test]
fn add_player_batches_all_others() {
    let mut g = game::new();
    login(&mut g);
    login(&mut g);
    let mut p = player::new();
    p.net_id = g.new_net_object();
    p.username = "Cy".to_string();
    let out = g.add_player(p);
    assert_eq!(targets(&out), vec![0, 1, 2]);
    let mut batch = vec![3, 2];
    batch.extend(entry(&g.players[0]));
    batch.extend(entry(&g.players[1]));
    assert_eq!(out[2].packet.data, framed(batch));
    assert_eq!(g.players.len(), 3);
}

#[test]
fn broadcast_except_skips_only_that_player() {
    let mut g = game::new();
    for _ in 0..3 {
        login(&mut g);
    }
    let pkt = Buffer { data: vec![1, 2, 3] };
    let out = g.broadcast_packet_except(pkt.clone(), 1);
    assert_eq!(targets(&out), vec![0, 2]);
    assert!(out.iter().all(|d| d.packet.data == vec![1, 2, 3]));
    let out = g.broadcast_packet_except(pkt, 99);
    assert_eq!(targets(&out), vec![0, 1, 2]);
}

#[test]
fn broadcast_reaches_everyone() {
    let mut g = game::new();
    login(&mut g);
    login(&mut g);
    let out = g.broadcast_packet(&Buffer { data: vec![4] });
    assert_eq!(targets(&out), vec![0, 1]);
    assert!(out.iter().all(|d| d.packet.data == vec![4]));
}

#[test]
fn chat_other_command_sends_nothing() {
    let mut g = game::new();
    login(&mut g);
    login(&mut g);
    let out = g.chatted(0, "move".to_string(), "1 2 3".to_string());
    assert!(out.is_empty());
}

#[test]
fn chat_relayed_to_everyone() {
    let mut g = game::new();
    login(&mut g);
    login(&mut g);
    g.players[0].username = "Alice".to_string();
    let a = g.players[0].net_id;
    let out = g.chatted(a, "chat".to_string(), "hi".to_string());
    assert_eq!(targets(&out), vec![0, 1]);
    let expected = build_message_packet("\\c6 Alice: \\c0hi".to_string()).data;
    for d in &out {
        assert_eq!(d.packet.data, expected);
        assert_eq!(d.packet.data[1], 6);
        assert_eq!(&d.packet.data[2..d.packet.data.len() - 1], "\\c6 Alice: \\c0hi".as_bytes());
    }
}

#[test]
fn chat_with_empty_registry_sends_nothing() {
    let g = game::new();
    assert!(g.chatted(0, "chat".to_string(), "hi".to_string()).is_empty());
}

#[test]
fn find_player_falls_back_to_first() {
    let mut g = game::new();
    login(&mut g);
    login(&mut g);
    assert_eq!(g.find_player(1).net_id, 1);
    assert_eq!(g.find_player(42).net_id, 0);
}

#[test]
fn remove_player_on_disconnect() {
    let mut g = game::new();
    for _ in 0..3 {
        login(&mut g);
    }
    assert!(g.remove_player(1));
    assert_eq!(targets(&g.broadcast_packet(&Buffer { data: vec![] })), vec![0, 2]);
    assert!(!g.remove_player(1));
    assert_eq!(g.players.len(), 2);
    let out = login(&mut g);
    assert_eq!(out[0].to, 3);
    assert_eq!(g.players[2].username, "Player 4");
    let names: Vec<&str> = g.players.iter().map(|p| p.username.as_str()).collect();
    assert_eq!(names, vec!["Player 1", "Player 3", "Player 4"]);
}

#[test]
fn networked_mode_needs_verification() {
    let mut g = game::new();
    g.is_local = false;
    let mut token = buffer::new(None);
    assert!(g.authenticate(&mut token, None).is_none());
    assert!(g.players.is_empty());
    assert_eq!(g.last_net_id, 0);
    let id = Identity { user_id: 77, username: "Dana".to_string(), admin: true, membership: 2 };
    let out = g.authenticate(&mut token, Some(id)).unwrap();
    assert_eq!(out.len(), 1);
    assert_eq!(out[0].packet.data, build_auth_packet(77, "Dana".to_string(), true, 2, 0, 0).data);
    assert_eq!(g.players[0].username, "Dana");
    assert!(g.players[0].admin);
}

#[test]
fn identities_exhausted_refuses_login() {
    let mut g = game::new();
    g.last_net_id = u32::MAX;
    let mut token = buffer::new(None);
    assert!(g.authenticate(&mut token, None).is_none());
    assert!(g.players.is_empty());
}

#[test]
fn new_net_object_counts_up() {
    let mut g = game::new();
    assert_eq!(g.new_net_object(), 0);
    assert_eq!(g.new_net_object(), 1);
    assert_eq!(g.last_net_id, 2);
}

#[test]
fn check_auth_names_by_join_order() {
    let mut g = game::new();
    login(&mut g);
    g.brick_count = 5;
    let mut p = player::new();
    p.net_id = 9;
    let mut token = buffer::new(None);
    let reply = p.check_auth(&mut token, &g).unwrap();
    assert_eq!(p.username, "Player 10");
    assert_eq!(reply.data, p.build_auth_packet(5).data);
    assert_eq!(reply.data, build_auth_packet(0, "Player 10".to_string(), false, 0, 9, 5).data);
}

#[test]
fn check_auth_networked_does_nothing() {
    let mut g = game::new();
    g.is_local = false;
    let mut p = player::new();
    let mut token = buffer::new(None);
    assert!(p.check_auth(&mut token, &g).is_none());
    assert_eq!(p.username, "Player");
}
