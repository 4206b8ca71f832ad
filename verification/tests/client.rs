use game_server_sample::client::{parse_handshake_ack, ClientSession, RemotePlayers, WorldEvent};
use game_server_sample::message::Message;
use game_server_sample::{Color, Player, Vec2, CONNECTION_TIMEOUT_MS};

fn player(id: u64, x: i32, y: i32) -> Player {
    Player {
        id,
        pos: Vec2 { x, y },
        velocity: Vec2 { x: 0, y: 0 },
        color: Color { r: 1, g: 2, b: 3 },
    }
}

#[test]
fn handshake_ack_is_the_only_joining_reply() {
    let joined = parse_handshake_ack(b"ACK:3:#102030").unwrap();
    assert_eq!(joined.id, 3);
    assert_eq!(joined.color, Color { r: 0x10, g: 0x20, b: 0x30 });
    assert_eq!(joined.pos, Vec2 { x: 0, y: 0 });

    assert!(parse_handshake_ack(b"PING").is_none());
    assert!(parse_handshake_ack(b"LEAVE:3").is_none());
    assert!(parse_handshake_ack(b"ACK:x:#102030").is_none());
    assert!(parse_handshake_ack(b"garbage").is_none());
}

#[test]
fn liveness_expires_without_ping_and_one_ping_resets_it() {
    let mut session = ClientSession::new(player(1, 0, 0), 1_000);
    assert!(session.is_server_alive(1_000));
    assert!(session.is_server_alive(1_000 + CONNECTION_TIMEOUT_MS - 1));
    // At and beyond the threshold the connection counts as lost.
    assert!(!session.is_server_alive(1_000 + CONNECTION_TIMEOUT_MS));
    assert!(!session.is_server_alive(1_000 + 10 * CONNECTION_TIMEOUT_MS));

    // One ping resets liveness.
    let later = 1_000 + 10 * CONNECTION_TIMEOUT_MS;
    session.receive_server_response(b"PING", later);
    assert!(session.is_server_alive(later));
    assert!(session.is_server_alive(later + CONNECTION_TIMEOUT_MS - 1));
    assert!(!session.is_server_alive(later + CONNECTION_TIMEOUT_MS));
}

#[test]
fn only_a_ping_refreshes_liveness() {
    let mut session = ClientSession::new(player(1, 0, 0), 0);
    let later = 2 * CONNECTION_TIMEOUT_MS;
    session.receive_server_response(b"LEAVE:2", later);
    session.receive_server_response(b"REPL:2:1,1,#000000", later);
    session.receive_server_response(b"PING:extra", later);
    session.receive_server_response(b"junk", later);
    assert!(!session.is_server_alive(later));
}

#[test]
fn session_keeps_its_assigned_player() {
    let p = player(9, 4, 5);
    let session = ClientSession::new(p, 0);
    assert_eq!(session.get_session_player_data(), p);
}

#[test]
fn outbound_payloads_encode_the_session_state() {
    let p = player(6, -3, 14);
    let session = ClientSession::new(p, 0);
    assert_eq!(session.send_pos(&p).as_slice(), b"POS:6:-3,14");
    assert_eq!(session.leave_server(6).as_slice(), b"LEAVE:6");
}

#[test]
fn replication_creates_updates_and_removes_remote_players() {
    let mut world = RemotePlayers::new();

    // First sight of a player creates it.
    let p2 = player(2, 10, 20);
    let ev = world.apply_server_message(&Message::Replicate(p2));
    assert_eq!(ev, WorldEvent::Joined(2));
    assert_eq!(world.len(), 1);
    assert_eq!(world.find(2), Some(p2));

    // A later snapshot only moves it.
    let moved = player(2, 30, 40);
    let ev = world.apply_server_message(&Message::Replicate(moved));
    assert_eq!(ev, WorldEvent::NoChange);
    assert_eq!(world.len(), 1);
    assert_eq!(world.find(2).unwrap().pos, Vec2 { x: 30, y: 40 });

    // A second player joins alongside.
    let p7 = player(7, 0, 0);
    assert_eq!(
        world.apply_server_message(&Message::Replicate(p7)),
        WorldEvent::Joined(7)
    );
    assert_eq!(world.len(), 2);

    // Entries can be walked in insertion order, as a renderer would.
    assert_eq!(world.player_at(0).id, 2);
    assert_eq!(world.player_at(1).id, 7);

    // Leave removes exactly the named player.
    assert_eq!(
        world.apply_server_message(&Message::Leave(2)),
        WorldEvent::Left(2)
    );
    assert_eq!(world.len(), 1);
    assert_eq!(world.find(2), None);
    assert_eq!(world.find(7), Some(p7));

    // A leave for an unknown player changes nothing.
    assert_eq!(
        world.apply_server_message(&Message::Leave(99)),
        WorldEvent::Left(99)
    );
    assert_eq!(world.len(), 1);
}

#[test]
fn foreign_messages_leave_the_world_alone() {
    let mut world = RemotePlayers::new();
    world.apply_server_message(&Message::Replicate(player(1, 0, 0)));
    for m in [
        Message::Ping,
        Message::Handshake,
        Message::Ack(1, Color { r: 0, g: 0, b: 0 }),
        Message::Position(1, Vec2 { x: 5, y: 5 }),
    ] {
        assert_eq!(world.apply_server_message(&m), WorldEvent::NoChange);
        assert_eq!(world.len(), 1);
    }
}
