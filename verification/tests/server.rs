use game_server_sample::message::Message;
use game_server_sample::server::{ping_envelope, ServerContext};
use game_server_sample::{Color, Vec2, PLAYER_MAX_X, PLAYER_MIN_Y};

fn ack_fields(payload: &[u8]) -> (u64, Color) {
    match Message::deserialize(payload).unwrap() {
        Message::Ack(id, c) => (id, c),
        other => panic!("expected an Ack, got {:?}", other),
    }
}

#[test]
fn handshake_is_idempotent() {
    let mut server = ServerContext::new();
    let first = server.process_client_message(10, b"HANDSHAKE");
    let again = server.process_client_message(10, b"HANDSHAKE");
    let (id1, c1) = ack_fields(&first.reply.unwrap());
    let (id2, c2) = ack_fields(&again.reply.unwrap());
    assert_eq!(id1, id2);
    assert_eq!(c1, c2);
    assert_eq!(server.player_count(), 1);
    assert!(first.start_tasks);
    assert!(!again.start_tasks);
}

#[test]
fn identities_are_distinct_and_strictly_increasing() {
    let mut server = ServerContext::new();
    let mut ids = Vec::new();
    for addr in 0..8u64 {
        let acts = server.process_client_message(addr, b"HANDSHAKE");
        let (id, _) = ack_fields(&acts.reply.unwrap());
        ids.push(id);
    }
    for w in ids.windows(2) {
        assert!(w[0] < w[1]);
    }
    assert_eq!(ids, vec![1, 2, 3, 4, 5, 6, 7, 8]);
    assert_eq!(server.player_count(), 8);
}

#[test]
fn assigned_colors_are_never_pure_white() {
    let mut server = ServerContext::new();
    for addr in 0..32u64 {
        let acts = server.process_client_message(addr, b"HANDSHAKE");
        let (_, c) = ack_fields(&acts.reply.unwrap());
        assert!(!(c.r == 255 && c.g == 255 && c.b == 255));
    }
}

#[test]
fn broadcast_excludes_exactly_the_excluded_address() {
    let mut server = ServerContext::new();
    for addr in [5u64, 6, 7] {
        server.process_client_message(addr, b"HANDSHAKE");
    }
    let targets = server.broadcast_targets(Some(6));
    assert!(!targets.contains(&6));
    assert!(targets.contains(&5));
    assert!(targets.contains(&7));
    assert_eq!(targets.len(), 2);
    let everyone = server.broadcast_targets(None);
    assert_eq!(everyone.len(), 3);
}

#[test]
fn position_report_needs_matching_identity() {
    let mut server = ServerContext::new();
    let acts = server.process_client_message(10, b"HANDSHAKE");
    let (id, _) = ack_fields(&acts.reply.unwrap());
    assert_eq!(id, 1);

    // A mismatched identity is silently ignored.
    server.process_client_message(10, b"POS:99:50,60");
    let (_, p) = server.entry_at(0);
    assert_eq!(p.pos, Vec2 { x: 0, y: 0 });

    // The registered identity is accepted verbatim.
    server.process_client_message(10, b"POS:1:50,60");
    let (_, p) = server.entry_at(0);
    assert_eq!(p.pos, Vec2 { x: 50, y: 60 });

    // A report from an unregistered address changes nothing.
    server.process_client_message(11, b"POS:1:7,8");
    let (_, p) = server.entry_at(0);
    assert_eq!(p.pos, Vec2 { x: 50, y: 60 });
}

#[test]
fn simulation_tick_clamps_and_replicates_to_all_others() {
    let mut server = ServerContext::new();
    server.process_client_message(1, b"HANDSHAKE");
    server.process_client_message(2, b"HANDSHAKE");
    server.process_client_message(1, b"POS:1:9999,-9999");
    server.process_client_message(2, b"POS:2:10,20");

    let envelopes = server.simulation_tick();
    assert_eq!(envelopes.len(), 2);

    // Each envelope excludes its own player's address.
    assert_eq!(envelopes[0].excluded_address, Some(1));
    assert_eq!(envelopes[1].excluded_address, Some(2));

    // The runaway position was clamped into the world bounds.
    match Message::deserialize(&envelopes[0].payload).unwrap() {
        Message::Replicate(p) => {
            assert_eq!(p.id, 1);
            assert_eq!(p.pos, Vec2 { x: PLAYER_MAX_X, y: PLAYER_MIN_Y });
        }
        other => panic!("expected a Replicate, got {:?}", other),
    }
    match Message::deserialize(&envelopes[1].payload).unwrap() {
        Message::Replicate(p) => {
            assert_eq!(p.id, 2);
            assert_eq!(p.pos, Vec2 { x: 10, y: 20 });
        }
        other => panic!("expected a Replicate, got {:?}", other),
    }
}

#[test]
fn leave_removes_the_sender_and_notifies_the_rest() {
    let mut server = ServerContext::new();
    server.process_client_message(1, b"HANDSHAKE");
    server.process_client_message(2, b"HANDSHAKE");
    let acts = server.process_client_message(1, b"LEAVE:1");
    assert_eq!(server.player_count(), 1);
    let env = acts.broadcast.unwrap();
    assert_eq!(env.excluded_address, Some(1));
    assert_eq!(
        Message::deserialize(&env.payload).unwrap(),
        Message::Leave(1)
    );
}

#[test]
fn malformed_and_foreign_messages_change_nothing() {
    let mut server = ServerContext::new();
    server.process_client_message(1, b"HANDSHAKE");
    for junk in [
        b"REPL:abc:1,2,#ZZZZZZ".as_slice(),
        b"PING".as_slice(),
        b"ACK:1:#000000".as_slice(),
        b"".as_slice(),
        b"garbage".as_slice(),
    ] {
        let acts = server.process_client_message(1, junk);
        assert!(acts.reply.is_none());
        assert!(acts.broadcast.is_none());
        assert!(!acts.start_tasks);
        assert_eq!(server.player_count(), 1);
    }
}

#[test]
fn ping_envelope_reaches_everyone() {
    let env = ping_envelope();
    assert_eq!(env.payload.as_slice(), b"PING");
    assert_eq!(env.excluded_address, None);
}

#[test]
fn end_to_end_scenario() {
    let mut server = ServerContext::new();

    // Client joins an empty registry: the first identity is 1.
    let acts = server.process_client_message(1, b"HANDSHAKE");
    let reply = acts.reply.unwrap();
    let (id, color) = ack_fields(&reply);
    assert_eq!(id, 1);
    assert!(reply.starts_with(b"ACK:1:#"));
    assert!(acts.start_tasks);

    // A second peer, so the broadcasts have somewhere to go.
    server.process_client_message(2, b"HANDSHAKE");

    // Client reports a position; the next tick replicates it to everyone
    // but the originator.
    server.process_client_message(1, b"POS:1:10,20");
    let envelopes = server.simulation_tick();
    let own = envelopes
        .iter()
        .find(|e| e.excluded_address == Some(1))
        .unwrap();
    let mut expected = Vec::new();
    expected.extend_from_slice(b"REPL:1:10,20,");
    expected.extend_from_slice(format!("#{:02X}{:02X}{:02X}", color.r, color.g, color.b).as_bytes());
    assert_eq!(own.payload, expected);
    let targets = server.broadcast_targets(own.excluded_address);
    assert_eq!(targets, vec![2]);

    // Client leaves: the rest are told, and once the peer leaves too the
    // registry is empty.
    let acts = server.process_client_message(1, b"LEAVE:1");
    assert_eq!(server.player_count(), 1);
    let env = acts.broadcast.unwrap();
    assert_eq!(
        Message::deserialize(&env.payload).unwrap(),
        Message::Leave(1)
    );
    assert_eq!(env.excluded_address, Some(1));
    server.process_client_message(2, b"LEAVE:2");
    assert_eq!(server.player_count(), 0);
}
