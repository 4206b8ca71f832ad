//! The client side of the session: the bookkeeping behind a connection —
//! the assigned player, ping-driven liveness, outbound payloads — and the
//! replicated view of the other players. The socket, the channels and the
//! background tasks that carry these values live outside the library.

use vstd::pervasive::VecAdditionalExecFns;
use vstd::prelude::*;

use crate::message::{spec_decode, spec_encode, MalformedMessage, Message};
use crate::{Player, PlayerId, Vec2, CONNECTION_TIMEOUT_MS};

verus! {

/// The session-local state of a connected client: the player the server
/// assigned at handshake, and the time the last `Ping` arrived.
pub struct ClientSession {
    session_player: Player,
    last_ping_ms: u64,
}

/// What a handshake reply decodes to, if it joins: the assigned player.
/// `Some` exactly when the payload is a well-formed `Ack`; any other or
/// malformed reply is no acknowledgement and the handshake is retried.
pub fn parse_handshake_ack(response: &[u8]) -> (r: Option<Player>)
    ensures
        match spec_decode(response@) {
            Ok(Message::Ack(id, c)) => (r matches Some(p) && p.id == id && p.color == c && p.pos
                == Vec2::zero() && p.velocity == Vec2::zero()),
            _ => r is None,
        },
{
    match Message::deserialize(response) {
        Ok(Message::Ack(id, c)) => Some(Player::new(id, c)),
        _ => None,
    }
}

impl ClientSession {
    pub closed spec fn spec_player(&self) -> Player {
        self.session_player
    }

    pub closed spec fn spec_last_ping(&self) -> u64 {
        self.last_ping_ms
    }

    /// A session begins once the handshake assigned `session_player`;
    /// `now_ms` is the creation time on the caller's monotonic clock.
    pub fn new(session_player: Player, now_ms: u64) -> (s: ClientSession)
        ensures
            s.spec_player() == session_player,
            s.spec_last_ping() == now_ms,
    {
        ClientSession { session_player, last_ping_ms: now_ms }
    }

    pub fn get_session_player_data(&self) -> (p: Player)
        ensures
            p == self.spec_player(),
    {
        self.session_player
    }

    /// Notes one inbound payload: exactly a well-formed `Ping` refreshes the
    /// liveness clock to `now_ms`; everything else leaves it alone.
    pub fn receive_server_response(&mut self, response: &[u8], now_ms: u64)
        ensures
            final(self).spec_player() == old(self).spec_player(),
            final(self).spec_last_ping() == if spec_decode(response@) == Ok::<
                Message,
                MalformedMessage,
            >(Message::Ping) {
                now_ms
            } else {
                old(self).spec_last_ping()
            },
    {
        if let Ok(Message::Ping) = Message::deserialize(response) {
            self.last_ping_ms = now_ms;
        }
    }

    /// The time the last `Ping` arrived, on the caller's clock.
    pub fn last_ping_ms(&self) -> (t: u64)
        ensures
            t == self.spec_last_ping(),
    {
        self.last_ping_ms
    }

    /// Liveness: true exactly while the last `Ping` is younger than the
    /// connection timeout. `now_ms` must not run behind the recorded time,
    /// which a monotonic clock guarantees.
    pub fn is_server_alive(&self, now_ms: u64) -> (alive: bool)
        requires
            now_ms >= self.spec_last_ping(),
        ensures
            alive == (now_ms - self.spec_last_ping() < CONNECTION_TIMEOUT_MS),
    {
        now_ms - self.last_ping_ms < CONNECTION_TIMEOUT_MS
    }

    /// The payload reporting this player's position; fire-and-forget.
    pub fn send_pos(&self, player: &Player) -> (payload: Vec<u8>)
        ensures
            payload@ == spec_encode(Message::Position(player.id, player.pos)),
    {
        Message::Position(player.id, player.pos).serialize()
    }

    /// The payload announcing departure; sent without waiting for delivery.
    pub fn leave_server(&self, player_id: PlayerId) -> (payload: Vec<u8>)
        ensures
            payload@ == spec_encode(Message::Leave(player_id)),
    {
        Message::Leave(player_id).serialize()
    }
}

/// What applying one server message did to the replicated world.
#[derive(Clone, Copy, Debug, PartialEq, Eq, Structural)]
pub enum WorldEvent {
    /// A player not seen before appeared in a `Replicate`.
    Joined(PlayerId),
    /// A `Leave` removed the player, had it been seen or not.
    Left(PlayerId),
    NoChange,
}

pub open spec fn has_player(ps: Seq<Player>, id: PlayerId) -> bool {
    exists|i: int| 0 <= i < ps.len() && ps[i].id == id
}

pub open spec fn player_index(ps: Seq<Player>, id: PlayerId) -> int {
    choose|i: int| 0 <= i < ps.len() && ps[i].id == id
}

/// The client's replicated view of the other players, keyed by identity.
pub struct RemotePlayers {
    entries: Vec<Player>,
}

impl View for RemotePlayers {
    type V = Seq<Player>;

    closed spec fn view(&self) -> Seq<Player> {
        self.entries@
    }
}

impl RemotePlayers {
    /// Identities are unique: one entry per remote player.
    pub open spec fn wf(&self) -> bool {
        forall|i: int, j: int|
            0 <= i < j < self@.len() ==> self@[i].id != self@[j].id
    }

    pub fn new() -> (r: RemotePlayers)
        ensures
            r@ == Seq::<Player>::empty(),
            r.wf(),
    {
        RemotePlayers { entries: Vec::new() }
    }

    pub fn len(&self) -> (n: usize)
        ensures
            n == self@.len(),
    {
        self.entries.len()
    }

    pub fn player_at(&self, i: usize) -> (p: Player)
        requires
            i < self@.len(),
        ensures
            p == self@[i as int],
    {
        self.entries[i]
    }

    /// The remote player with this identity, if one is known.
    pub fn find(&self, id: PlayerId) -> (r: Option<Player>)
        requires
            self.wf(),
        ensures
            has_player(self@, id) ==> (r matches Some(p) && p == self@[player_index(self@, id)]),
            !has_player(self@, id) ==> r is None,
    {
        match self.index_of(id) {
            Some(i) => Some(self.entries[i]),
            None => None,
        }
    }

    /// Folds one decoded server message into the replicated world: a
    /// `Replicate` of a known player overwrites that player's position, a
    /// `Replicate` of an unknown one adds it, a `Leave` removes it; every
    /// other message leaves the world untouched.
    pub fn apply_server_message(&mut self, msg: &Message) -> (ev: WorldEvent)
        requires
            old(self).wf(),
        ensures
            final(self).wf(),
            match *msg {
                Message::Replicate(p) => if has_player(old(self)@, p.id) {
                    {
                        let k = player_index(old(self)@, p.id);
                        &&& final(self)@ == old(self)@.update(
                            k,
                            (Player {
                                id: old(self)@[k].id,
                                pos: p.pos,
                                velocity: old(self)@[k].velocity,
                                color: old(self)@[k].color,
                            }),
                        )
                        &&& ev == WorldEvent::NoChange
                    }
                } else {
                    final(self)@ == old(self)@.push(p) && ev == WorldEvent::Joined(p.id)
                },
                Message::Leave(id) => {
                    &&& final(self)@ == if has_player(old(self)@, id) {
                        old(self)@.remove(player_index(old(self)@, id))
                    } else {
                        old(self)@
                    }
                    &&& ev == WorldEvent::Left(id)
                },
                _ => final(self)@ == old(self)@ && ev == WorldEvent::NoChange,
            },
    {
        match msg {
            Message::Replicate(p) => {
                match self.index_of(p.id) {
                    Some(i) => {
                        let mut known = self.entries[i];
                        known.pos = p.pos;
                        self.entries.set(i, known);
                        proof {
                            lemma_unique_ids_update(old(self)@, i as int, self@[i as int]);
                        }
                        WorldEvent::NoChange
                    },
                    None => {
                        self.entries.push(*p);
                        WorldEvent::Joined(p.id)
                    },
                }
            },
            Message::Leave(id) => {
                match self.index_of(*id) {
                    Some(i) => {
                        let _ = self.entries.remove(i);
                        proof {
                            lemma_unique_ids_remove(old(self)@, i as int);
                        }
                    },
                    None => {},
                }
                WorldEvent::Left(*id)
            },
            _ => WorldEvent::NoChange,
        }
    }

    /// The position of the entry with this identity, if any; with unique
    /// identities it is the entry `player_index` names.
    fn index_of(&self, id: PlayerId) -> (r: Option<usize>)
        requires
            self.wf(),
        ensures
            has_player(self@, id) ==> (r matches Some(i) && i == player_index(self@, id)
                && 0 <= i < self@.len() && self@[i as int].id == id),
            !has_player(self@, id) ==> r is None,
    {
        let mut i: usize = 0;
        while i < self.entries.len()
            invariant
                0 <= i <= self@.len(),
                self.wf(),
                forall|j: int| 0 <= j < i ==> self@[j].id != id,
            decreases self@.len() - i,
        {
            if self.entries[i].id == id {
                proof {
                    assert(has_player(self@, id));
                    let k = player_index(self@, id);
                    assert(0 <= k < self@.len() && self@[k].id == id);
                    if k < i {
                        assert(self@[k].id != self@[i as int].id);
                    } else if k > i {
                        assert(self@[i as int].id != self@[k].id);
                    }
                }
                return Some(i);
            }
            i = i + 1;
        }
        None
    }
}

/// Updating an entry without changing its identity keeps identities unique.
proof fn lemma_unique_ids_update(ps: Seq<Player>, k: int, p: Player)
    requires
        0 <= k < ps.len(),
        p.id == ps[k].id,
        forall|i: int, j: int| 0 <= i < j < ps.len() ==> ps[i].id != ps[j].id,
    ensures
        forall|i: int, j: int|
            0 <= i < j < ps.update(k, p).len() ==> ps.update(k, p)[i].id != ps.update(k, p)[j].id,
{
}

/// Removing an entry keeps identities unique.
proof fn lemma_unique_ids_remove(ps: Seq<Player>, k: int)
    requires
        0 <= k < ps.len(),
        forall|i: int, j: int| 0 <= i < j < ps.len() ==> ps[i].id != ps[j].id,
    ensures
        forall|i: int, j: int|
            0 <= i < j < ps.remove(k).len() ==> ps.remove(k)[i].id != ps.remove(k)[j].id,
{
    let q = ps.remove(k);
    assert forall|i: int, j: int| 0 <= i < j < q.len() implies q[i].id != q[j].id by {
        let i0 = if i < k {
            i
        } else {
            i + 1
        };
        let j0 = if j < k {
            j
        } else {
            j + 1
        };
        assert(q[i] == ps[i0]);
        assert(q[j] == ps[j0]);
    }
}

} // verus!
