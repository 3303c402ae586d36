use brick_server::buffer::{Buffer, CHUNK_SIZE};
use brick_server::game::{self, Delivery, Game, Identity, Step};
use brick_server::packet_builder::{build_auth_packet, build_message_packet};
use flate2::write::ZlibEncoder;
use flate2::Compression;
use std::io::Write;

fn chunk_of(payload: &[u8]) -> [u8; CHUNK_SIZE] {
    let mut b = Buffer { data: payload.to_vec() };
    b.write_uint_v();
    let mut chunk = [0u8; CHUNK_SIZE];
    chunk[..b.data.len()].copy_from_slice(&b.data);
    chunk
}

fn sent(step: Step) -> (Option<u32>, Vec<Delivery>) {
    match step {
        Step::Send { joined, out } => (joined, out),
        Step::Close => panic!("expected messages, got Close"),
        Step::Ignore => panic!("expected messages, got Ignore"),
    }
}

fn is_ignore(step: &Step) -> bool {
    matches!(step, Step::Ignore)
}

fn join(g: &mut Game) -> u32 {
    let (joined, _) = sent(g.handle_chunk(None, chunk_of(&[1]), None));
    joined.unwrap()
}

const CHAT_HI: [u8; 9] = [3, b'c', b'h', b'a', b't', 0, b'h', b'i', 0];

#[test]
fn chunk_without_whole_frame_closes() {
    let mut g = game::new();
    assert!(matches!(g.handle_chunk(None, [0u8; CHUNK_SIZE], None), Step::Close));
    let mut chunk = [0u8; CHUNK_SIZE];
    chunk[0] = 0xFF;
    assert!(matches!(g.handle_chunk(None, chunk, None), Step::Close));
    assert!(g.players.is_empty());
}

#[test]
fn heartbeat_is_ignored() {
    let mut g = game::new();
    let id = join(&mut g);
    assert!(is_ignore(&g.handle_chunk(Some(id), chunk_of(&[18]), None)));
    assert!(is_ignore(&g.handle_chunk(None, chunk_of(&[18]), None)));
    assert_eq!(g.players.len(), 1);
    assert_eq!(g.last_net_id, 1);
}

#[test]
fn empty_and_unknown_messages_are_ignored() {
    let mut g = game::new();
    assert!(is_ignore(&g.handle_chunk(None, chunk_of(&[]), None)));
    assert!(is_ignore(&g.handle_chunk(None, chunk_of(&[7, 1, 2]), None)));
    assert!(g.players.is_empty());
}

#[test]
fn auth_request_admits_once() {
    let mut g = game::new();
    g.brick_count = 4;
    let (joined, out) = sent(g.handle_chunk(None, chunk_of(&[1, 9, 9]), None));
    assert_eq!(joined, Some(0));
    assert_eq!(out.len(), 1);
    assert_eq!(out[0].to, 0);
    assert_eq!(out[0].packet.data, build_auth_packet(0, "Player 1".to_string(), false, 0, 0, 4).data);
    assert!(is_ignore(&g.handle_chunk(Some(0), chunk_of(&[1]), None)));
    assert_eq!(g.players.len(), 1);
}

#[test]
fn networked_auth_without_verification_is_ignored() {
    let mut g = game::new();
    g.is_local = false;
    assert!(is_ignore(&g.handle_chunk(None, chunk_of(&[1]), None)));
    assert!(g.players.is_empty());
    let id = Identity { user_id: 5, username: "Eve".to_string(), admin: false, membership: 1 };
    let (joined, out) = sent(g.handle_chunk(None, chunk_of(&[1]), Some(id)));
    assert_eq!(joined, Some(0));
    assert_eq!(out[0].packet.data, build_auth_packet(5, "Eve".to_string(), false, 1, 0, 0).data);
}

#[test]
fn chat_command_is_relayed() {
    let mut g = game::new();
    let a = join(&mut g);
    join(&mut g);
    let (joined, out) = sent(g.handle_chunk(Some(a), chunk_of(&CHAT_HI), None));
    assert_eq!(joined, None);
    let expected = build_message_packet("\\c6 Player 1: \\c0hi".to_string()).data;
    assert_eq!(out.iter().map(|d| d.to).collect::<Vec<_>>(), vec![0, 1]);
    assert!(out.iter().all(|d| d.packet.data == expected));
}

#[test]
fn compressed_chat_command_is_relayed() {
    let mut g = game::new();
    let a = join(&mut g);
    let mut enc = ZlibEncoder::new(Vec::new(), Compression::default());
    enc.write_all(&CHAT_HI).unwrap();
    let compressed = enc.finish().unwrap();
    let (_, out) = sent(g.handle_chunk(Some(a), chunk_of(&compressed), None));
    assert_eq!(out.len(), 1);
    assert_eq!(out[0].packet.data, build_message_packet("\\c6 Player 1: \\c0hi".to_string()).data);
}

#[test]
fn other_command_sends_nothing() {
    let mut g = game::new();
    let a = join(&mut g);
    let payload = [3, b'm', b'o', b'v', b'e', 0, b'1', 0];
    let (joined, out) = sent(g.handle_chunk(Some(a), chunk_of(&payload), None));
    assert_eq!(joined, None);
    assert!(out.is_empty());
}

#[test]
fn command_before_admission_is_ignored() {
    let mut g = game::new();
    join(&mut g);
    assert!(is_ignore(&g.handle_chunk(None, chunk_of(&CHAT_HI), None)));
}
