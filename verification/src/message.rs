//! The wire codec: the closed set of protocol messages, their colon-delimited
//! ASCII encoding, the total decoder, and the proof that decoding an encoded
//! message gives the message back.

use vstd::prelude::*;

use crate::bytes::{
    lemma_sep_free_concat, lemma_split_len, lemma_split_sep_free, lemma_split_three,
    lemma_split_two, sep_free, spec_split, split_bytes,
};
use crate::numbers::{
    lemma_color_hex_sep_free, lemma_color_round_trip, lemma_dec_digits_val, lemma_dec_digits_wf,
    lemma_digits_sep_free, lemma_i32_digits_sep_free, lemma_i32_round_trip, parse_color, parse_i32,
    parse_u64, push_color_hex, push_i32_dec, push_u64_dec, spec_color_hex, spec_dec_digits,
    spec_i32_digits, spec_parse_color, spec_parse_i32, spec_parse_u64,
};
use crate::{Color, Player, PlayerId, Vec2};

verus! {

/// One protocol message, one datagram on the wire.
#[derive(Clone, Copy, Debug, PartialEq, Eq, Structural)]
pub enum Message {
    /// Periodic server heartbeat; also the client's liveness signal.
    Ping,
    /// Client join request, retried until acknowledged or timed out.
    Handshake,
    /// Server handshake reply carrying the assigned identity and color.
    Ack(PlayerId, Color),
    /// Disconnect notice, in either direction.
    Leave(PlayerId),
    /// Authoritative snapshot of one player, pushed by the server.
    Replicate(Player),
    /// Client-reported position for the given player.
    Position(PlayerId, Vec2),
}

/// Why a datagram was rejected; the message is dropped, never a panic.
#[derive(Clone, Copy, Debug, PartialEq, Eq, Structural)]
pub enum MalformedMessage {
    UnknownName,
    WrongFieldCount,
    InvalidId,
    InvalidCoordinate,
    InvalidColor,
}

impl MalformedMessage {
    /// A human-readable cause for logs and error surfaces.
    pub fn describe(&self) -> &'static str {
        match self {
            MalformedMessage::UnknownName => "unknown or invalid message format",
            MalformedMessage::WrongFieldCount => "wrong number of fields",
            MalformedMessage::InvalidId => "invalid player id",
            MalformedMessage::InvalidCoordinate => "invalid coordinate",
            MalformedMessage::InvalidColor => "invalid hex color format",
        }
    }
}

/// Whether protocol traffic is traced: an explicit configuration value held
/// by whoever logs, in place of ambient global state.
#[derive(Clone, Copy, Debug, PartialEq, Eq, Structural)]
pub struct TraceConfig {
    pub enabled: bool,
}

impl TraceConfig {
    pub fn new() -> (t: TraceConfig)
        ensures
            !t.enabled,
    {
        TraceConfig { enabled: false }
    }
}

/// Turns message tracing on or off.
pub fn set_trace(config: &mut TraceConfig, enabled: bool)
    ensures
        final(config).enabled == enabled,
{
    config.enabled = enabled;
}

pub open spec fn kw_ping() -> Seq<u8> {
    seq![80u8, 73u8, 78u8, 71u8]
}

pub open spec fn kw_handshake() -> Seq<u8> {
    seq![72u8, 65u8, 78u8, 68u8, 83u8, 72u8, 65u8, 75u8, 69u8]
}

pub open spec fn kw_ack() -> Seq<u8> {
    seq![65u8, 67u8, 75u8]
}

pub open spec fn kw_leave() -> Seq<u8> {
    seq![76u8, 69u8, 65u8, 86u8, 69u8]
}

pub open spec fn kw_repl() -> Seq<u8> {
    seq![82u8, 69u8, 80u8, 76u8]
}

pub open spec fn kw_pos() -> Seq<u8> {
    seq![80u8, 79u8, 83u8]
}

/// The byte string a message is sent as.
pub open spec fn spec_encode(m: Message) -> Seq<u8> {
    match m {
        Message::Ping => kw_ping(),
        Message::Handshake => kw_handshake(),
        Message::Ack(id, c) => kw_ack() + seq![58u8] + spec_dec_digits(id as nat) + seq![58u8]
            + spec_color_hex(c),
        Message::Leave(id) => kw_leave() + seq![58u8] + spec_dec_digits(id as nat),
        Message::Replicate(p) => kw_repl() + seq![58u8] + spec_dec_digits(p.id as nat) + seq![58u8]
            + (spec_i32_digits(p.pos.x) + seq![44u8] + spec_i32_digits(p.pos.y) + seq![44u8]
            + spec_color_hex(p.color)),
        Message::Position(id, pos) => kw_pos() + seq![58u8] + spec_dec_digits(id as nat)
            + seq![58u8] + (spec_i32_digits(pos.x) + seq![44u8] + spec_i32_digits(pos.y)),
    }
}

/// The message a byte string decodes to, or exactly why it is rejected:
/// an unknown leading name, a wrong field count for a known name, or a
/// sub-field that fails to parse.
pub open spec fn spec_decode(s: Seq<u8>) -> Result<Message, MalformedMessage> {
    let parts = spec_split(s, 58);
    let head = parts[0];
    if head == kw_ping() {
        if parts.len() == 1 {
            Ok(Message::Ping)
        } else {
            Err(MalformedMessage::WrongFieldCount)
        }
    } else if head == kw_handshake() {
        if parts.len() == 1 {
            Ok(Message::Handshake)
        } else {
            Err(MalformedMessage::WrongFieldCount)
        }
    } else if head == kw_ack() {
        if parts.len() != 3 {
            Err(MalformedMessage::WrongFieldCount)
        } else {
            match spec_parse_u64(parts[1]) {
                None => Err(MalformedMessage::InvalidId),
                Some(id) => match spec_parse_color(parts[2]) {
                    None => Err(MalformedMessage::InvalidColor),
                    Some(c) => Ok(Message::Ack(id, c)),
                },
            }
        }
    } else if head == kw_leave() {
        if parts.len() != 2 {
            Err(MalformedMessage::WrongFieldCount)
        } else {
            match spec_parse_u64(parts[1]) {
                None => Err(MalformedMessage::InvalidId),
                Some(id) => Ok(Message::Leave(id)),
            }
        }
    } else if head == kw_repl() {
        if parts.len() != 3 {
            Err(MalformedMessage::WrongFieldCount)
        } else {
            match spec_parse_u64(parts[1]) {
                None => Err(MalformedMessage::InvalidId),
                Some(id) => {
                    let sub = spec_split(parts[2], 44);
                    if sub.len() != 3 {
                        Err(MalformedMessage::WrongFieldCount)
                    } else {
                        match spec_parse_i32(sub[0]) {
                            None => Err(MalformedMessage::InvalidCoordinate),
                            Some(x) => match spec_parse_i32(sub[1]) {
                                None => Err(MalformedMessage::InvalidCoordinate),
                                Some(y) => match spec_parse_color(sub[2]) {
                                    None => Err(MalformedMessage::InvalidColor),
                                    Some(c) => Ok(
                                        Message::Replicate(
                                            Player {
                                                id,
                                                pos: Vec2 { x, y },
                                                velocity: Vec2 { x: 0, y: 0 },
                                                color: c,
                                            },
                                        ),
                                    ),
                                },
                            },
                        }
                    }
                },
            }
        }
    } else if head == kw_pos() {
        if parts.len() != 3 {
            Err(MalformedMessage::WrongFieldCount)
        } else {
            match spec_parse_u64(parts[1]) {
                None => Err(MalformedMessage::InvalidId),
                Some(id) => {
                    let sub = spec_split(parts[2], 44);
                    if sub.len() != 2 {
                        Err(MalformedMessage::WrongFieldCount)
                    } else {
                        match spec_parse_i32(sub[0]) {
                            None => Err(MalformedMessage::InvalidCoordinate),
                            Some(x) => match spec_parse_i32(sub[1]) {
                                None => Err(MalformedMessage::InvalidCoordinate),
                                Some(y) => Ok(Message::Position(id, Vec2 { x, y })),
                            },
                        }
                    }
                },
            }
        }
    } else {
        Err(MalformedMessage::UnknownName)
    }
}

/// Lengths, delimiter-freedom and pairwise distinctness of the six names.
pub proof fn lemma_keywords()
    ensures
        kw_ping().len() == 4,
        kw_handshake().len() == 9,
        kw_ack().len() == 3,
        kw_leave().len() == 5,
        kw_repl().len() == 4,
        kw_pos().len() == 3,
        sep_free(kw_ping(), 58),
        sep_free(kw_handshake(), 58),
        sep_free(kw_ack(), 58),
        sep_free(kw_leave(), 58),
        sep_free(kw_repl(), 58),
        sep_free(kw_pos(), 58),
        kw_handshake() != kw_ping(),
        kw_ack() != kw_ping(),
        kw_ack() != kw_handshake(),
        kw_leave() != kw_ping(),
        kw_leave() != kw_handshake(),
        kw_leave() != kw_ack(),
        kw_repl() != kw_ping(),
        kw_repl() != kw_handshake(),
        kw_repl() != kw_ack(),
        kw_repl() != kw_leave(),
        kw_pos() != kw_ping(),
        kw_pos() != kw_handshake(),
        kw_pos() != kw_ack(),
        kw_pos() != kw_leave(),
        kw_pos() != kw_repl(),
{
    assert(kw_ping()[0] == 80 && kw_ping()[1] == 73 && kw_ping()[2] == 78 && kw_ping()[3] == 71);
    assert(kw_handshake()[0] == 72);
    assert(kw_ack()[0] == 65 && kw_ack()[1] == 67 && kw_ack()[2] == 75);
    assert(kw_leave()[0] == 76);
    assert(kw_repl()[0] == 82 && kw_repl()[1] == 69 && kw_repl()[2] == 80 && kw_repl()[3] == 76);
    assert(kw_pos()[0] == 80 && kw_pos()[1] == 79 && kw_pos()[2] == 83);
}

fn is_kw_ping(v: &Vec<u8>) -> (r: bool)
    ensures
        r == (v@ == kw_ping()),
{
    let r = v.len() == 4 && v[0] == 80 && v[1] == 73 && v[2] == 78 && v[3] == 71;
    proof {
        lemma_keywords();
        if r {
            assert(v@ =~= kw_ping());
        }
    }
    r
}

fn is_kw_handshake(v: &Vec<u8>) -> (r: bool)
    ensures
        r == (v@ == kw_handshake()),
{
    let r = v.len() == 9 && v[0] == 72 && v[1] == 65 && v[2] == 78 && v[3] == 68 && v[4] == 83
        && v[5] == 72 && v[6] == 65 && v[7] == 75 && v[8] == 69;
    proof {
        if r {
            assert(v@ =~= kw_handshake());
        } else {
            if v@ == kw_handshake() {
                assert(v@[0] == 72 && v@[1] == 65 && v@[2] == 78 && v@[3] == 68 && v@[4] == 83
                    && v@[5] == 72 && v@[6] == 65 && v@[7] == 75 && v@[8] == 69);
            }
        }
    }
    r
}

fn is_kw_ack(v: &Vec<u8>) -> (r: bool)
    ensures
        r == (v@ == kw_ack()),
{
    let r = v.len() == 3 && v[0] == 65 && v[1] == 67 && v[2] == 75;
    proof {
        if r {
            assert(v@ =~= kw_ack());
        } else {
            if v@ == kw_ack() {
                assert(v@[0] == 65 && v@[1] == 67 && v@[2] == 75);
            }
        }
    }
    r
}

fn is_kw_leave(v: &Vec<u8>) -> (r: bool)
    ensures
        r == (v@ == kw_leave()),
{
    let r = v.len() == 5 && v[0] == 76 && v[1] == 69 && v[2] == 65 && v[3] == 86 && v[4] == 69;
    proof {
        if r {
            assert(v@ =~= kw_leave());
        } else {
            if v@ == kw_leave() {
                assert(v@[0] == 76 && v@[1] == 69 && v@[2] == 65 && v@[3] == 86 && v@[4] == 69);
            }
        }
    }
    r
}

fn is_kw_repl(v: &Vec<u8>) -> (r: bool)
    ensures
        r == (v@ == kw_repl()),
{
    let r = v.len() == 4 && v[0] == 82 && v[1] == 69 && v[2] == 80 && v[3] == 76;
    proof {
        if r {
            assert(v@ =~= kw_repl());
        } else {
            if v@ == kw_repl() {
                assert(v@[0] == 82 && v@[1] == 69 && v@[2] == 80 && v@[3] == 76);
            }
        }
    }
    r
}

fn is_kw_pos(v: &Vec<u8>) -> (r: bool)
    ensures
        r == (v@ == kw_pos()),
{
    let r = v.len() == 3 && v[0] == 80 && v[1] == 79 && v[2] == 83;
    proof {
        if r {
            assert(v@ =~= kw_pos());
        } else {
            if v@ == kw_pos() {
                assert(v@[0] == 80 && v@[1] == 79 && v@[2] == 83);
            }
        }
    }
    r
}

impl Message {
    /// Encodes the message as its colon-delimited ASCII datagram.
    pub fn serialize(&self) -> (out: Vec<u8>)
        ensures
            out@ == spec_encode(*self),
    {
        let mut out: Vec<u8> = Vec::new();
        match self {
            Message::Ping => {
                out.push(80);
                out.push(73);
                out.push(78);
                out.push(71);
                proof {
                    assert(out@ =~= kw_ping());
                }
            },
            Message::Handshake => {
                out.push(72);
                out.push(65);
                out.push(78);
                out.push(68);
                out.push(83);
                out.push(72);
                out.push(65);
                out.push(75);
                out.push(69);
                proof {
                    assert(out@ =~= kw_handshake());
                }
            },
            Message::Ack(id, c) => {
                out.push(65);
                out.push(67);
                out.push(75);
                out.push(58);
                push_u64_dec(&mut out, *id);
                out.push(58);
                push_color_hex(&mut out, *c);
                proof {
                    assert(out@ =~= spec_encode(*self));
                }
            },
            Message::Leave(id) => {
                out.push(76);
                out.push(69);
                out.push(65);
                out.push(86);
                out.push(69);
                out.push(58);
                push_u64_dec(&mut out, *id);
                proof {
                    assert(out@ =~= spec_encode(*self));
                }
            },
            Message::Replicate(p) => {
                out.push(82);
                out.push(69);
                out.push(80);
                out.push(76);
                out.push(58);
                push_u64_dec(&mut out, p.id);
                out.push(58);
                push_i32_dec(&mut out, p.pos.x);
                out.push(44);
                push_i32_dec(&mut out, p.pos.y);
                out.push(44);
                push_color_hex(&mut out, p.color);
                proof {
                    assert(out@ =~= spec_encode(*self));
                }
            },
            Message::Position(id, pos) => {
                out.push(80);
                out.push(79);
                out.push(83);
                out.push(58);
                push_u64_dec(&mut out, *id);
                out.push(58);
                push_i32_dec(&mut out, pos.x);
                out.push(44);
                push_i32_dec(&mut out, pos.y);
                proof {
                    assert(out@ =~= spec_encode(*self));
                }
            },
        }
        out
    }

    /// Decodes one datagram; total on arbitrary bytes, never panics.
    pub fn deserialize(msg: &[u8]) -> (r: Result<Message, MalformedMessage>)
        ensures
            r == spec_decode(msg@),
    {
        let parts = split_bytes(msg, 58);
        proof {
            lemma_split_len(msg@, 58);
        }
        if is_kw_ping(&parts[0]) {
            if parts.len() == 1 {
                Ok(Message::Ping)
            } else {
                Err(MalformedMessage::WrongFieldCount)
            }
        } else if is_kw_handshake(&parts[0]) {
            if parts.len() == 1 {
                Ok(Message::Handshake)
            } else {
                Err(MalformedMessage::WrongFieldCount)
            }
        } else if is_kw_ack(&parts[0]) {
            if parts.len() != 3 {
                return Err(MalformedMessage::WrongFieldCount);
            }
            match parse_u64(&parts[1]) {
                None => Err(MalformedMessage::InvalidId),
                Some(id) => match parse_color(&parts[2]) {
                    None => Err(MalformedMessage::InvalidColor),
                    Some(c) => Ok(Message::Ack(id, c)),
                },
            }
        } else if is_kw_leave(&parts[0]) {
            if parts.len() != 2 {
                return Err(MalformedMessage::WrongFieldCount);
            }
            match parse_u64(&parts[1]) {
                None => Err(MalformedMessage::InvalidId),
                Some(id) => Ok(Message::Leave(id)),
            }
        } else if is_kw_repl(&parts[0]) {
            if parts.len() != 3 {
                return Err(MalformedMessage::WrongFieldCount);
            }
            match parse_u64(&parts[1]) {
                None => Err(MalformedMessage::InvalidId),
                Some(id) => {
                    let sub = split_bytes(parts[2].as_slice(), 44);
                    if sub.len() != 3 {
                        return Err(MalformedMessage::WrongFieldCount);
                    }
                    match parse_i32(&sub[0]) {
                        None => Err(MalformedMessage::InvalidCoordinate),
                        Some(x) => match parse_i32(&sub[1]) {
                            None => Err(MalformedMessage::InvalidCoordinate),
                            Some(y) => match parse_color(&sub[2]) {
                                None => Err(MalformedMessage::InvalidColor),
                                Some(c) => Ok(
                                    Message::Replicate(
                                        Player {
                                            id,
                                            pos: Vec2 { x, y },
                                            velocity: Vec2 { x: 0, y: 0 },
                                            color: c,
                                        },
                                    ),
                                ),
                            },
                        },
                    }
                },
            }
        } else if is_kw_pos(&parts[0]) {
            if parts.len() != 3 {
                return Err(MalformedMessage::WrongFieldCount);
            }
            match parse_u64(&parts[1]) {
                None => Err(MalformedMessage::InvalidId),
                Some(id) => {
                    let sub = split_bytes(parts[2].as_slice(), 44);
                    if sub.len() != 2 {
                        return Err(MalformedMessage::WrongFieldCount);
                    }
                    match parse_i32(&sub[0]) {
                        None => Err(MalformedMessage::InvalidCoordinate),
                        Some(x) => match parse_i32(&sub[1]) {
                            None => Err(MalformedMessage::InvalidCoordinate),
                            Some(y) => Ok(Message::Position(id, Vec2 { x, y })),
                        },
                    }
                },
            }
        } else {
            Err(MalformedMessage::UnknownName)
        }
    }
}

/// What survives the wire: everything except a `Replicate` velocity, which
/// is not encoded and decodes as zero.
pub open spec fn wire_image(m: Message) -> Message {
    match m {
        Message::Replicate(p) => Message::Replicate(
            Player { id: p.id, pos: p.pos, velocity: Vec2 { x: 0, y: 0 }, color: p.color },
        ),
        _ => m,
    }
}

proof fn lemma_rt_ack(id: PlayerId, c: Color)
    ensures
        spec_decode(spec_encode(Message::Ack(id, c))) == Ok::<Message, MalformedMessage>(
            Message::Ack(id, c),
        ),
{
    lemma_keywords();
    let f1 = spec_dec_digits(id as nat);
    let f2 = spec_color_hex(c);
    lemma_dec_digits_wf(id as nat);
    lemma_dec_digits_val(id as nat);
    lemma_digits_sep_free(f1);
    lemma_color_hex_sep_free(c);
    lemma_color_round_trip(c);
    lemma_split_three(kw_ack(), f1, f2, 58);
}

proof fn lemma_rt_leave(id: PlayerId)
    ensures
        spec_decode(spec_encode(Message::Leave(id))) == Ok::<Message, MalformedMessage>(
            Message::Leave(id),
        ),
{
    lemma_keywords();
    let f1 = spec_dec_digits(id as nat);
    lemma_dec_digits_wf(id as nat);
    lemma_dec_digits_val(id as nat);
    lemma_digits_sep_free(f1);
    lemma_split_two(kw_leave(), f1, 58);
}

proof fn lemma_decode_repl_parts(
    s: Seq<u8>,
    f1: Seq<u8>,
    f2: Seq<u8>,
    gx: Seq<u8>,
    gy: Seq<u8>,
    gc: Seq<u8>,
    p: Player,
)
    requires
        spec_split(s, 58) == seq![kw_repl(), f1, f2],
        spec_split(f2, 44) == seq![gx, gy, gc],
        spec_parse_u64(f1) == Some(p.id),
        spec_parse_i32(gx) == Some(p.pos.x),
        spec_parse_i32(gy) == Some(p.pos.y),
        spec_parse_color(gc) == Some(p.color),
        p.velocity == (Vec2 { x: 0, y: 0 }),
    ensures
        spec_decode(s) == Ok::<Message, MalformedMessage>(Message::Replicate(p)),
{
    lemma_keywords();
}

proof fn lemma_decode_pos_parts(
    s: Seq<u8>,
    f1: Seq<u8>,
    f2: Seq<u8>,
    gx: Seq<u8>,
    gy: Seq<u8>,
    id: PlayerId,
    pos: Vec2,
)
    requires
        spec_split(s, 58) == seq![kw_pos(), f1, f2],
        spec_split(f2, 44) == seq![gx, gy],
        spec_parse_u64(f1) == Some(id),
        spec_parse_i32(gx) == Some(pos.x),
        spec_parse_i32(gy) == Some(pos.y),
    ensures
        spec_decode(s) == Ok::<Message, MalformedMessage>(Message::Position(id, pos)),
{
    lemma_keywords();
}

proof fn lemma_rt_replicate(p: Player)
    ensures
        spec_decode(spec_encode(Message::Replicate(p))) == Ok::<Message, MalformedMessage>(
            wire_image(Message::Replicate(p)),
        ),
{
    let f1 = spec_dec_digits(p.id as nat);
    let gx = spec_i32_digits(p.pos.x);
    let gy = spec_i32_digits(p.pos.y);
    let gc = spec_color_hex(p.color);
    let f2 = gx + seq![44u8] + gy + seq![44u8] + gc;
    let img = Player { id: p.id, pos: p.pos, velocity: Vec2 { x: 0, y: 0 }, color: p.color };
    lemma_dec_digits_wf(p.id as nat);
    lemma_dec_digits_val(p.id as nat);
    lemma_digits_sep_free(f1);
    lemma_i32_digits_sep_free(p.pos.x);
    lemma_i32_digits_sep_free(p.pos.y);
    lemma_i32_round_trip(p.pos.x);
    lemma_i32_round_trip(p.pos.y);
    lemma_color_hex_sep_free(p.color);
    lemma_color_round_trip(p.color);
    lemma_keywords();
    assert(sep_free(seq![44u8], 58));
    lemma_sep_free_concat(gx, seq![44u8], 58);
    lemma_sep_free_concat(gx + seq![44u8], gy, 58);
    lemma_sep_free_concat(gx + seq![44u8] + gy, seq![44u8], 58);
    lemma_sep_free_concat(gx + seq![44u8] + gy + seq![44u8], gc, 58);
    lemma_split_three(kw_repl(), f1, f2, 58);
    lemma_split_three(gx, gy, gc, 44);
    lemma_decode_repl_parts(spec_encode(Message::Replicate(p)), f1, f2, gx, gy, gc, img);
}

proof fn lemma_rt_position(id: PlayerId, pos: Vec2)
    ensures
        spec_decode(spec_encode(Message::Position(id, pos))) == Ok::<Message, MalformedMessage>(
            Message::Position(id, pos),
        ),
{
    let f1 = spec_dec_digits(id as nat);
    let gx = spec_i32_digits(pos.x);
    let gy = spec_i32_digits(pos.y);
    let f2 = gx + seq![44u8] + gy;
    lemma_dec_digits_wf(id as nat);
    lemma_dec_digits_val(id as nat);
    lemma_digits_sep_free(f1);
    lemma_i32_digits_sep_free(pos.x);
    lemma_i32_digits_sep_free(pos.y);
    lemma_i32_round_trip(pos.x);
    lemma_i32_round_trip(pos.y);
    lemma_keywords();
    assert(sep_free(seq![44u8], 58));
    lemma_sep_free_concat(gx, seq![44u8], 58);
    lemma_sep_free_concat(gx + seq![44u8], gy, 58);
    lemma_split_three(kw_pos(), f1, f2, 58);
    lemma_split_two(gx, gy, 44);
    lemma_decode_pos_parts(spec_encode(Message::Position(id, pos)), f1, f2, gx, gy, id, pos);
}

/// Round trip: decoding an encoded message yields the message back, save
/// that a `Replicate` velocity is not carried and comes back zero.
pub proof fn lemma_encode_decode(m: Message)
    ensures
        spec_decode(spec_encode(m)) == Ok::<Message, MalformedMessage>(wire_image(m)),
{
    match m {
        Message::Ping => {
            lemma_keywords();
            lemma_split_sep_free(kw_ping(), 58);
        },
        Message::Handshake => {
            lemma_keywords();
            lemma_split_sep_free(kw_handshake(), 58);
        },
        Message::Ack(id, c) => {
            lemma_rt_ack(id, c);
        },
        Message::Leave(id) => {
            lemma_rt_leave(id);
        },
        Message::Replicate(p) => {
            lemma_rt_replicate(p);
        },
        Message::Position(id, pos) => {
            lemma_rt_position(id, pos);
        },
    }
}

} // verus!
