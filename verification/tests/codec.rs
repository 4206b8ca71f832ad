use game_server_sample::message::{MalformedMessage, Message};
use game_server_sample::{Color, Player, Vec2};

fn replicate(id: u64, x: i32, y: i32, color: Color) -> Message {
    Message::Replicate(Player {
        id,
        pos: Vec2 { x, y },
        velocity: Vec2 { x: 0, y: 0 },
        color,
    })
}

#[test]
fn encodes_every_variant() {
    assert_eq!(Message::Ping.serialize().as_slice(), b"PING");
    assert_eq!(Message::Handshake.serialize().as_slice(), b"HANDSHAKE");
    let ack = Message::Ack(7, Color { r: 0x12, g: 0xAB, b: 0x00 });
    assert_eq!(ack.serialize().as_slice(), b"ACK:7:#12AB00");
    assert_eq!(Message::Leave(42).serialize().as_slice(), b"LEAVE:42");
    let repl = replicate(3, -15, 1188, Color { r: 255, g: 0, b: 128 });
    assert_eq!(repl.serialize().as_slice(), b"REPL:3:-15,1188,#FF0080");
    let pos = Message::Position(9, Vec2 { x: 10, y: 20 });
    assert_eq!(pos.serialize().as_slice(), b"POS:9:10,20");
}

#[test]
fn round_trips_every_variant() {
    let samples = vec![
        Message::Ping,
        Message::Handshake,
        Message::Ack(1, Color { r: 0, g: 0, b: 0 }),
        Message::Ack(u64::MAX, Color { r: 255, g: 255, b: 255 }),
        Message::Leave(0),
        Message::Leave(u64::MAX),
        replicate(17, i32::MIN, i32::MAX, Color { r: 1, g: 2, b: 3 }),
        replicate(1, 0, 0, Color { r: 128, g: 128, b: 128 }),
        Message::Position(5, Vec2 { x: -1, y: 1 }),
        Message::Position(123456789, Vec2 { x: 2147483647, y: -2147483648 }),
    ];
    for m in samples {
        let decoded = Message::deserialize(&m.serialize()).unwrap();
        assert_eq!(decoded, m);
    }
}

#[test]
fn replicate_round_trip_zeroes_velocity() {
    let m = Message::Replicate(Player {
        id: 4,
        pos: Vec2 { x: 8, y: -8 },
        velocity: Vec2 { x: 5, y: -5 },
        color: Color { r: 9, g: 9, b: 9 },
    });
    match Message::deserialize(&m.serialize()).unwrap() {
        Message::Replicate(p) => {
            assert_eq!(p.id, 4);
            assert_eq!(p.pos, Vec2 { x: 8, y: -8 });
            assert_eq!(p.velocity, Vec2 { x: 0, y: 0 });
            assert_eq!(p.color, Color { r: 9, g: 9, b: 9 });
        }
        other => panic!("expected a Replicate, got {:?}", other),
    }
}

#[test]
fn position_truncation_is_bounded_and_deterministic() {
    // Positions are truncated to whole units before they reach the wire.
    let x = 1.999f32 as i32;
    let y = -0.001f32 as i32;
    assert_eq!((x, y), (1, 0));
    let m = Message::Position(1, Vec2 { x, y });
    assert_eq!(m.serialize().as_slice(), b"POS:1:1,0");
    assert_eq!(Message::deserialize(b"POS:1:1,0").unwrap(), m);
}

#[test]
fn color_quantization_is_bounded_and_deterministic() {
    // Unit-cube channels are scaled by 255 and rounded to one byte each.
    let quantize = |c: f32| (c * 255.0).round() as u8;
    let color = Color {
        r: quantize(0.501),
        g: quantize(0.502),
        b: quantize(0.503),
    };
    assert_eq!(color, Color { r: 0x80, g: 0x80, b: 0x80 });
    let m = Message::Ack(1, color);
    assert_eq!(m.serialize().as_slice(), b"ACK:1:#808080");
    assert_eq!(Message::deserialize(b"ACK:1:#808080").unwrap(), m);
}

#[test]
fn malformed_replicate_is_rejected_not_a_panic() {
    let r = Message::deserialize(b"REPL:abc:1,2,#ZZZZZZ");
    assert_eq!(r, Err(MalformedMessage::InvalidId));
}

#[test]
fn unknown_name_is_rejected() {
    assert_eq!(
        Message::deserialize(b"NOPE:1:2"),
        Err(MalformedMessage::UnknownName)
    );
    assert_eq!(Message::deserialize(b""), Err(MalformedMessage::UnknownName));
    assert_eq!(
        Message::deserialize(b"ping"),
        Err(MalformedMessage::UnknownName)
    );
}

#[test]
fn wrong_field_count_is_rejected() {
    assert_eq!(
        Message::deserialize(b"PING:extra"),
        Err(MalformedMessage::WrongFieldCount)
    );
    assert_eq!(
        Message::deserialize(b"ACK:5"),
        Err(MalformedMessage::WrongFieldCount)
    );
    assert_eq!(
        Message::deserialize(b"LEAVE:1:2"),
        Err(MalformedMessage::WrongFieldCount)
    );
    assert_eq!(
        Message::deserialize(b"POS:1:2"),
        Err(MalformedMessage::WrongFieldCount)
    );
    assert_eq!(
        Message::deserialize(b"REPL:1:2,3"),
        Err(MalformedMessage::WrongFieldCount)
    );
}

#[test]
fn invalid_id_is_rejected() {
    assert_eq!(
        Message::deserialize(b"LEAVE:x"),
        Err(MalformedMessage::InvalidId)
    );
    assert_eq!(
        Message::deserialize(b"LEAVE:"),
        Err(MalformedMessage::InvalidId)
    );
    // One past u64::MAX does not fit.
    assert_eq!(
        Message::deserialize(b"ACK:18446744073709551616:#FFFFFF"),
        Err(MalformedMessage::InvalidId)
    );
    // u64::MAX itself does.
    assert_eq!(
        Message::deserialize(b"LEAVE:18446744073709551615"),
        Ok(Message::Leave(u64::MAX))
    );
}

#[test]
fn invalid_coordinate_is_rejected() {
    assert_eq!(
        Message::deserialize(b"POS:1:a,2"),
        Err(MalformedMessage::InvalidCoordinate)
    );
    assert_eq!(
        Message::deserialize(b"POS:1:1,-"),
        Err(MalformedMessage::InvalidCoordinate)
    );
    // One past i32::MAX does not fit.
    assert_eq!(
        Message::deserialize(b"POS:1:2147483648,0"),
        Err(MalformedMessage::InvalidCoordinate)
    );
    // i32::MIN itself does.
    assert_eq!(
        Message::deserialize(b"POS:1:-2147483648,0"),
        Ok(Message::Position(1, Vec2 { x: i32::MIN, y: 0 }))
    );
}

#[test]
fn invalid_color_is_rejected() {
    assert_eq!(
        Message::deserialize(b"ACK:1:#GGGGGG"),
        Err(MalformedMessage::InvalidColor)
    );
    assert_eq!(
        Message::deserialize(b"ACK:1:#FFF"),
        Err(MalformedMessage::InvalidColor)
    );
    assert_eq!(
        Message::deserialize(b"ACK:1:##ABCDEF"),
        Err(MalformedMessage::InvalidColor)
    );
}

#[test]
fn color_parses_without_hash_and_either_case() {
    assert_eq!(
        Message::deserialize(b"ACK:1:aabbcc"),
        Ok(Message::Ack(1, Color { r: 0xAA, g: 0xBB, b: 0xCC }))
    );
    assert_eq!(
        Message::deserialize(b"ACK:1:#AaBbCc"),
        Ok(Message::Ack(1, Color { r: 0xAA, g: 0xBB, b: 0xCC }))
    );
}

#[test]
fn describe_names_each_fault() {
    assert_eq!(
        MalformedMessage::UnknownName.describe(),
        "unknown or invalid message format"
    );
    assert_eq!(
        MalformedMessage::InvalidColor.describe(),
        "invalid hex color format"
    );
}
