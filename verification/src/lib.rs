//! Authoritative UDP client-server session protocol for a small real-time
//! multiplayer world: a text-framed wire codec, a connection state machine,
//! the client session bookkeeping, and the server's registry, dispatch and
//! fixed-timestep replication logic.
//!
//! Positions travel on the wire as whole units and colors as 8-bit channels,
//! so the library models both with integers throughout.

use vstd::prelude::*;

pub mod bytes;
pub mod numbers;
pub mod message;
pub mod fsm;
pub mod client;
pub mod server;

verus! {

pub type PlayerId = u64;

/// One world-space coordinate pair, in whole units as carried on the wire.
#[derive(Clone, Copy, Debug, PartialEq, Eq, Structural)]
pub struct Vec2 {
    pub x: i32,
    pub y: i32,
}

impl Vec2 {
    pub fn new(x: i32, y: i32) -> (v: Vec2)
        ensures
            v.x == x,
            v.y == y,
    {
        Vec2 { x, y }
    }

    pub open spec fn zero() -> Vec2 {
        Vec2 { x: 0, y: 0 }
    }
}

/// An RGB color with 8-bit channels, as carried in the `#RRGGBB` wire form.
#[derive(Clone, Copy, Debug, PartialEq, Eq, Structural)]
pub struct Color {
    pub r: u8,
    pub g: u8,
    pub b: u8,
}

impl Color {
    pub fn new(r: u8, g: u8, b: u8) -> (c: Color)
        ensures
            c.r == r,
            c.g == g,
            c.b == b,
    {
        Color { r, g, b }
    }

    pub open spec fn is_white(self) -> bool {
        self.r == 255 && self.g == 255 && self.b == 255
    }
}

/// A player snapshot: a stable identity, an authoritative position, the last
/// reported velocity, and the color assigned at handshake.
#[derive(Clone, Copy, Debug, PartialEq, Eq, Structural)]
pub struct Player {
    pub id: PlayerId,
    pub pos: Vec2,
    pub velocity: Vec2,
    pub color: Color,
}

impl Default for Player {
    fn default() -> (p: Player)
        ensures
            p.id == 0,
            p.pos == Vec2::zero(),
            p.velocity == Vec2::zero(),
            p.color == (Color { r: 0, g: 0, b: 0 }),
    {
        Player { id: 0, pos: Vec2 { x: 0, y: 0 }, velocity: Vec2 { x: 0, y: 0 }, color: Color {
            r: 0,
            g: 0,
            b: 0,
        } }
    }
}

impl Player {
    pub fn new(id: PlayerId, color: Color) -> (p: Player)
        ensures
            p.id == id,
            p.color == color,
            p.pos == Vec2::zero(),
            p.velocity == Vec2::zero(),
    {
        let mut player = Player::default();
        player.id = id;
        player.color = color;
        player
    }
}

/// The whole handshake, and the liveness window, in milliseconds.
pub const CONNECTION_TIMEOUT_MS: u64 = 5000;

/// One handshake attempt's wait for a reply, in milliseconds.
pub const HANDSHAKE_RETRY_MS: u64 = 300;

/// The server heartbeat interval, in milliseconds.
pub const PING_INTERVAL_MS: u64 = 20;

/// The authoritative simulation rate, in ticks per second.
pub const MAX_LOGIC_UPDATE_PER_SEC: u64 = 60;

pub const WORLD_MIN_X: i32 = -1200;

pub const WORLD_MIN_Y: i32 = -1200;

pub const WORLD_MAX_X: i32 = 1200;

pub const WORLD_MAX_Y: i32 = 1200;

pub const PLAYER_QUAD_SIZE: i32 = 24;

/// The range player centers may occupy: the world, less half a quad of
/// margin on every side.
pub const PLAYER_MIN_X: i32 = WORLD_MIN_X + 12;

pub const PLAYER_MAX_X: i32 = WORLD_MAX_X - 12;

pub const PLAYER_MIN_Y: i32 = WORLD_MIN_Y + 12;

pub const PLAYER_MAX_Y: i32 = WORLD_MAX_Y - 12;

/// The playable world rectangle.
#[derive(Clone, Copy, Debug, PartialEq, Eq, Structural)]
pub struct WorldBounds {
    pub min_x: i32,
    pub min_y: i32,
    pub max_x: i32,
    pub max_y: i32,
}

pub fn world_bounds() -> (b: WorldBounds)
    ensures
        b.min_x == WORLD_MIN_X,
        b.min_y == WORLD_MIN_Y,
        b.max_x == WORLD_MAX_X,
        b.max_y == WORLD_MAX_Y,
{
    WorldBounds { min_x: WORLD_MIN_X, min_y: WORLD_MIN_Y, max_x: WORLD_MAX_X, max_y: WORLD_MAX_Y }
}

pub open spec fn spec_clamp_i32(v: i32, lo: i32, hi: i32) -> i32 {
    if v < lo {
        lo
    } else if v > hi {
        hi
    } else {
        v
    }
}

/// `p` with its position clamped into the world, leaving half a player quad
/// of margin on every side; everything else unchanged.
pub open spec fn spec_clamp_player(p: Player) -> Player {
    Player {
        id: p.id,
        pos: Vec2 {
            x: spec_clamp_i32(p.pos.x, PLAYER_MIN_X, PLAYER_MAX_X),
            y: spec_clamp_i32(p.pos.y, PLAYER_MIN_Y, PLAYER_MAX_Y),
        },
        velocity: p.velocity,
        color: p.color,
    }
}

fn clamp_i32(v: i32, lo: i32, hi: i32) -> (r: i32)
    ensures
        r == spec_clamp_i32(v, lo, hi),
{
    if v < lo {
        lo
    } else if v > hi {
        hi
    } else {
        v
    }
}

/// Clamps the player's position into the world bounds.
pub fn clamp_player_to_bounds(player: &mut Player)
    ensures
        *final(player) == spec_clamp_player(*old(player)),
{
    player.pos.x = clamp_i32(player.pos.x, PLAYER_MIN_X, PLAYER_MAX_X);
    player.pos.y = clamp_i32(player.pos.y, PLAYER_MIN_Y, PLAYER_MAX_Y);
}

/// Relies on rand::random::<u8>: one independently drawn byte; nothing is
/// assumed of its value.
#[verifier::external_body]
fn random_byte() -> u8 {
    rand::random::<u8>()
}

/// Draws a color uniformly from the 8-bit cube, redrawing when it comes out
/// pure white; after improbably many white draws, darkens the last one.
pub fn generate_color() -> (c: Color)
    ensures
        !c.is_white(),
{
    let mut tries: u32 = 0;
    while tries < 64
        decreases 64 - tries,
    {
        let r = random_byte();
        let g = random_byte();
        let b = random_byte();
        if r < 255 || g < 255 || b < 255 {
            return Color { r, g, b };
        }
        tries = tries + 1;
    }
    Color { r: 255, g: 255, b: 254 }
}

} // verus!
