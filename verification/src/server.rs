//! The server side of the session: the authoritative player registry keyed
//! by network address, dispatch of inbound datagrams, the fixed-timestep
//! replication tick, and fan-out target selection. The socket, the tasks
//! and the timers that drive these transitions live outside the library.

use vstd::pervasive::VecAdditionalExecFns;
use vstd::prelude::*;

use crate::message::{spec_decode, spec_encode, Message};
use crate::{clamp_player_to_bounds, generate_color, spec_clamp_player, Color, Player, PlayerId,
    Vec2};

verus! {

/// A network address, reduced to the opaque key the registry needs; the
/// caller maps real socket addresses to these values one-to-one.
pub type Address = u64;

/// A fan-out unit: one payload owed to every registered address except the
/// excluded one, which must never receive it.
pub struct BroadcastEnvelope {
    pub payload: Vec<u8>,
    pub excluded_address: Option<Address>,
}

/// What dispatching one datagram asks the transport to do.
pub struct ServerActions {
    /// A payload owed to the sender alone (the handshake `Ack`).
    pub reply: Option<Vec<u8>>,
    /// A payload owed to everyone else (the `Leave` notice).
    pub broadcast: Option<BroadcastEnvelope>,
    /// True when the first player just joined and the heartbeat and
    /// simulation loops are to be started.
    pub start_tasks: bool,
}

pub open spec fn has_addr(es: Seq<(Address, Player)>, a: Address) -> bool {
    exists|i: int| 0 <= i < es.len() && es[i].0 == a
}

pub open spec fn addr_index(es: Seq<(Address, Player)>, a: Address) -> int {
    choose|i: int| 0 <= i < es.len() && es[i].0 == a
}

pub open spec fn player_of(es: Seq<(Address, Player)>, a: Address) -> Player {
    es[addr_index(es, a)].1
}

/// The registry invariant: one entry per address, one identity per player,
/// and every identity was drawn from the counter, which started at 1.
pub open spec fn wf_entries(es: Seq<(Address, Player)>, counter: u64) -> bool {
    &&& forall|i: int, j: int| 0 <= i < j < es.len() ==> es[i].0 != es[j].0
    &&& forall|i: int, j: int| 0 <= i < j < es.len() ==> es[i].1.id != es[j].1.id
    &&& forall|i: int| 0 <= i < es.len() ==> 1 <= (#[trigger] es[i]).1.id < counter
    &&& counter >= 1
}

/// With distinct addresses, the index an address occurs at is unique.
proof fn lemma_addr_index_of(es: Seq<(Address, Player)>, a: Address, i: int)
    requires
        forall|p: int, q: int| 0 <= p < q < es.len() ==> es[p].0 != es[q].0,
        0 <= i < es.len(),
        es[i].0 == a,
    ensures
        has_addr(es, a),
        addr_index(es, a) == i,
{
    assert(has_addr(es, a));
    let k = addr_index(es, a);
    assert(0 <= k < es.len() && es[k].0 == a);
    if k < i {
        assert(es[k].0 != es[i].0);
    } else if k > i {
        assert(es[i].0 != es[k].0);
    }
}

/// The authoritative server state: the registry of connected players and
/// the monotonically increasing identity counter, seeded at 1.
pub struct ServerContext {
    players: Vec<(Address, Player)>,
    player_id_counter: u64,
}

impl ServerContext {
    pub closed spec fn spec_players(&self) -> Seq<(Address, Player)> {
        self.players@
    }

    pub closed spec fn spec_counter(&self) -> u64 {
        self.player_id_counter
    }

    pub open spec fn wf(&self) -> bool {
        wf_entries(self.spec_players(), self.spec_counter())
    }

    pub fn new() -> (s: ServerContext)
        ensures
            s.spec_players() == Seq::<(Address, Player)>::empty(),
            s.spec_counter() == 1,
            s.wf(),
    {
        ServerContext { players: Vec::new(), player_id_counter: 1 }
    }

    pub fn player_count(&self) -> (n: usize)
        ensures
            n == self.spec_players().len(),
    {
        self.players.len()
    }

    /// Whether another identity can still be allocated.
    pub fn has_capacity(&self) -> (r: bool)
        ensures
            r == (self.spec_counter() < u64::MAX),
    {
        self.player_id_counter < u64::MAX
    }

    pub fn entry_at(&self, i: usize) -> (e: (Address, Player))
        requires
            i < self.spec_players().len(),
        ensures
            e == self.spec_players()[i as int],
    {
        self.players[i]
    }

    /// The index of this address's entry, if it is registered.
    fn index_of_addr(&self, a: Address) -> (r: Option<usize>)
        requires
            self.wf(),
        ensures
            has_addr(self.spec_players(), a) ==> (r matches Some(i) && i == addr_index(
                self.spec_players(),
                a,
            ) && 0 <= i < self.spec_players().len() && self.spec_players()[i as int].0 == a),
            !has_addr(self.spec_players(), a) ==> r is None,
    {
        let mut i: usize = 0;
        while i < self.players.len()
            invariant
                0 <= i <= self.spec_players().len(),
                self.wf(),
                forall|j: int| 0 <= j < i ==> self.spec_players()[j].0 != a,
            decreases self.spec_players().len() - i,
        {
            if self.players[i].0 == a {
                proof {
                    lemma_addr_index_of(self.spec_players(), a, i as int);
                }
                return Some(i);
            }
            i = i + 1;
        }
        None
    }

    /// Accepts a handshake. A known address is acknowledged again with its
    /// existing identity and color and nothing changes; a new address is
    /// registered under the next identity and a freshly generated, never
    /// pure-white color. The flag is true when this was the first player.
    pub fn accept_client(&mut self, client: Address) -> (r: (Message, bool))
        requires
            old(self).wf(),
            old(self).spec_counter() < u64::MAX,
        ensures
            final(self).wf(),
            has_addr(old(self).spec_players(), client) ==> {
                &&& final(self).spec_players() == old(self).spec_players()
                &&& final(self).spec_counter() == old(self).spec_counter()
                &&& r.0 == Message::Ack(
                    player_of(old(self).spec_players(), client).id,
                    player_of(old(self).spec_players(), client).color,
                )
                &&& r.1 == false
            },
            !has_addr(old(self).spec_players(), client) ==> {
                &&& (r.0 matches Message::Ack(id, c) && id == old(self).spec_counter()
                    && !c.is_white() && final(self).spec_players() == old(
                    self,
                ).spec_players().push(
                    (
                        client,
                        (Player {
                            id: old(self).spec_counter(),
                            pos: Vec2 { x: 0, y: 0 },
                            velocity: Vec2 { x: 0, y: 0 },
                            color: c,
                        }),
                    ),
                ))
                &&& final(self).spec_counter() == old(self).spec_counter() + 1
                &&& r.1 == (old(self).spec_players().len() == 0)
            },
            exists|c: Color|
                #![auto]
                !c.is_white() && (final(self).spec_players(), final(self).spec_counter(), r.0)
                    == spec_accept(
                    old(self).spec_players(),
                    old(self).spec_counter(),
                    client,
                    c,
                ),
    {
        match self.index_of_addr(client) {
            Some(i) => {
                let existing = self.players[i].1;
                proof {
                    let black = Color { r: 0, g: 0, b: 0 };
                    assert(!black.is_white() && (
                        self.spec_players(),
                        self.spec_counter(),
                        Message::Ack(existing.id, existing.color),
                    ) == spec_accept(
                        old(self).spec_players(),
                        old(self).spec_counter(),
                        client,
                        black,
                    ));
                }
                (Message::Ack(existing.id, existing.color), false)
            },
            None => {
                let color = generate_color();
                let id = self.player_id_counter;
                self.player_id_counter = id + 1;
                let new_player = Player::new(id, color);
                let first = self.players.len() == 0;
                self.players.push((client, new_player));
                proof {
                    let prev = old(self).spec_players();
                    let now = self.spec_players();
                    assert forall|p: int, q: int| 0 <= p < q < now.len() implies now[p].0
                        != now[q].0 by {
                        if q < prev.len() {
                            assert(now[p] == prev[p] && now[q] == prev[q]);
                        } else {
                            assert(now[q].0 == client && now[p] == prev[p]);
                            assert(!has_addr(prev, client));
                        }
                    }
                    assert forall|p: int, q: int| 0 <= p < q < now.len() implies now[p].1.id
                        != now[q].1.id by {
                        if q < prev.len() {
                            assert(now[p] == prev[p] && now[q] == prev[q]);
                        } else {
                            assert(now[q].1.id == id && now[p] == prev[p]);
                        }
                    }
                }
                (Message::Ack(id, color), first)
            },
        }
    }

    /// Applies a reported position. The report counts only when the sender's
    /// address is registered and the claimed identity matches the registered
    /// one; a mismatched or unknown report is silently dropped.
    pub fn update_position(&mut self, client: Address, player_id: PlayerId, pos: Vec2)
        requires
            old(self).wf(),
        ensures
            final(self).wf(),
            final(self).spec_counter() == old(self).spec_counter(),
            (has_addr(old(self).spec_players(), client) && player_of(
                old(self).spec_players(),
                client,
            ).id == player_id) ==> {
                let k = addr_index(old(self).spec_players(), client);
                final(self).spec_players() == old(self).spec_players().update(
                    k,
                    (
                        client,
                        (Player {
                            id: old(self).spec_players()[k].1.id,
                            pos,
                            velocity: old(self).spec_players()[k].1.velocity,
                            color: old(self).spec_players()[k].1.color,
                        }),
                    ),
                )
            },
            !(has_addr(old(self).spec_players(), client) && player_of(
                old(self).spec_players(),
                client,
            ).id == player_id) ==> final(self).spec_players() == old(self).spec_players(),
    {
        match self.index_of_addr(client) {
            Some(i) => {
                let entry = self.players[i];
                if entry.1.id == player_id {
                    let mut p = entry.1;
                    p.pos = pos;
                    self.players.set(i, (entry.0, p));
                    proof {
                        let prev = old(self).spec_players();
                        let now = self.spec_players();
                        assert forall|a: int, b: int| 0 <= a < b < now.len() implies now[a].0
                            != now[b].0 by {
                            assert(now[a].0 == prev[a].0 && now[b].0 == prev[b].0);
                        }
                        assert forall|a: int, b: int| 0 <= a < b < now.len() implies now[a].1.id
                            != now[b].1.id by {
                            assert(now[a].1.id == prev[a].1.id && now[b].1.id == prev[b].1.id);
                        }
                        assert forall|a: int| 0 <= a < now.len() implies 1 <= (
                        #[trigger] now[a]).1.id < self.spec_counter() by {
                            assert(now[a].1.id == prev[a].1.id);
                        }
                    }
                }
            },
            None => {},
        }
    }

    /// Removes the sender's registry entry, whatever identity the notice
    /// claims, and hands back the `Leave` broadcast for the others.
    pub fn drop_player(&mut self, client: Address, player_id: PlayerId) -> (env: BroadcastEnvelope)
        requires
            old(self).wf(),
        ensures
            final(self).wf(),
            final(self).spec_counter() == old(self).spec_counter(),
            has_addr(old(self).spec_players(), client) ==> final(self).spec_players() == old(
                self,
            ).spec_players().remove(addr_index(old(self).spec_players(), client)),
            !has_addr(old(self).spec_players(), client) ==> final(self).spec_players() == old(
                self,
            ).spec_players(),
            env.payload@ == spec_encode(Message::Leave(player_id)),
            env.excluded_address == Some(client),
    {
        match self.index_of_addr(client) {
            Some(i) => {
                let _ = self.players.remove(i);
                proof {
                    let prev = old(self).spec_players();
                    let now = self.spec_players();
                    assert forall|a: int, b: int| 0 <= a < b < now.len() implies now[a].0
                        != now[b].0 && now[a].1.id != now[b].1.id by {
                        let a0 = if a < i as int {
                            a
                        } else {
                            a + 1
                        };
                        let b0 = if b < i as int {
                            b
                        } else {
                            b + 1
                        };
                        assert(now[a] == prev[a0]);
                        assert(now[b] == prev[b0]);
                    }
                    assert forall|a: int| 0 <= a < now.len() implies 1 <= (
                    #[trigger] now[a]).1.id < self.spec_counter() by {
                        let a0 = if a < i as int {
                            a
                        } else {
                            a + 1
                        };
                        assert(now[a] == prev[a0]);
                    }
                }
            },
            None => {},
        }
        BroadcastEnvelope {
            payload: Message::Leave(player_id).serialize(),
            excluded_address: Some(client),
        }
    }

    /// One fixed-timestep tick: clamps every player into the world bounds
    /// and emits one `Replicate` per player, each excluding its own address
    /// so that nobody hears an echo of their own state.
    pub fn simulation_tick(&mut self) -> (out: Vec<BroadcastEnvelope>)
        requires
            old(self).wf(),
        ensures
            final(self).wf(),
            final(self).spec_counter() == old(self).spec_counter(),
            final(self).spec_players().len() == old(self).spec_players().len(),
            forall|i: int|
                0 <= i < old(self).spec_players().len() ==> final(self).spec_players()[i] == (
                    old(self).spec_players()[i].0,
                    spec_clamp_player(old(self).spec_players()[i].1),
                ),
            out@.len() == old(self).spec_players().len(),
            forall|i: int|
                0 <= i < out@.len() ==> out@[i].payload@ == spec_encode(
                    Message::Replicate(spec_clamp_player(old(self).spec_players()[i].1)),
                ) && out@[i].excluded_address == Some(old(self).spec_players()[i].0),
    {
        let ghost orig = self.players@;
        let mut out: Vec<BroadcastEnvelope> = Vec::new();
        let mut i: usize = 0;
        while i < self.players.len()
            invariant
                0 <= i <= orig.len(),
                self.spec_players().len() == orig.len(),
                self.spec_counter() == old(self).spec_counter(),
                forall|j: int| i <= j < orig.len() ==> self.spec_players()[j] == orig[j],
                forall|j: int|
                    0 <= j < i ==> self.spec_players()[j] == (
                        orig[j].0,
                        spec_clamp_player(orig[j].1),
                    ),
                out@.len() == i,
                forall|j: int|
                    0 <= j < i ==> out@[j].payload@ == spec_encode(
                        Message::Replicate(spec_clamp_player(orig[j].1)),
                    ) && out@[j].excluded_address == Some(orig[j].0),
            decreases orig.len() - i,
        {
            let entry = self.players[i];
            let mut p = entry.1;
            clamp_player_to_bounds(&mut p);
            let payload = Message::Replicate(p).serialize();
            self.players.set(i, (entry.0, p));
            out.push(BroadcastEnvelope { payload, excluded_address: Some(entry.0) });
            i = i + 1;
        }
        proof {
            let prev = old(self).spec_players();
            let now = self.spec_players();
            assert forall|a: int, b: int| 0 <= a < b < now.len() implies now[a].0 != now[b].0
                && now[a].1.id != now[b].1.id by {
                assert(now[a] == (prev[a].0, spec_clamp_player(prev[a].1)));
                assert(now[b] == (prev[b].0, spec_clamp_player(prev[b].1)));
            }
            assert forall|a: int| 0 <= a < now.len() implies 1 <= (#[trigger] now[a]).1.id < self
                .spec_counter() by {
                assert(now[a] == (prev[a].0, spec_clamp_player(prev[a].1)));
            }
        }
        out
    }

    /// The addresses a broadcast goes to: every registered address except
    /// the excluded one — which never receives it — each exactly once, and
    /// nobody else.
    pub fn broadcast_targets(&self, excluded: Option<Address>) -> (targets: Vec<Address>)
        requires
            self.wf(),
        ensures
            forall|i: int|
                0 <= i < targets@.len() ==> has_addr(self.spec_players(), targets@[i]) && Some(
                    targets@[i],
                ) != excluded,
            forall|i: int|
                0 <= i < self.spec_players().len() && Some(self.spec_players()[i].0) != excluded
                    ==> targets@.contains(self.spec_players()[i].0),
            forall|i: int, j: int| 0 <= i < j < targets@.len() ==> targets@[i] != targets@[j],
    {
        let mut targets: Vec<Address> = Vec::new();
        let mut i: usize = 0;
        while i < self.players.len()
            invariant
                0 <= i <= self.spec_players().len(),
                self.wf(),
                forall|j: int|
                    0 <= j < targets@.len() ==> exists|k: int|
                        #![auto]
                        0 <= k < i && self.spec_players()[k].0 == (#[trigger] targets@[j]),
                forall|j: int|
                    0 <= j < targets@.len() ==> has_addr(self.spec_players(), targets@[j]) && Some(
                        targets@[j],
                    ) != excluded,
                forall|j: int|
                    0 <= j < i && Some(self.spec_players()[j].0) != excluded ==> targets@.contains(
                        self.spec_players()[j].0,
                    ),
                forall|p: int, q: int| 0 <= p < q < targets@.len() ==> targets@[p] != targets@[q],
            decreases self.spec_players().len() - i,
        {
            let a = self.players[i].0;
            let keep = match excluded {
                Some(e) => a != e,
                None => true,
            };
            if keep {
                let ghost before = targets@;
                targets.push(a);
                proof {
                    assert(self.spec_players()[i as int].0 == a);
                    assert(targets@.last() == a);
                    assert forall|j: int|
                        0 <= j < i + 1 && Some(self.spec_players()[j].0)
                            != excluded implies targets@.contains(self.spec_players()[j].0) by {
                        if j < i {
                            let k = choose|k: int|
                                0 <= k < before.len() && before[k] == self.spec_players()[j].0;
                            assert(targets@[k] == self.spec_players()[j].0);
                        } else {
                            assert(targets@[targets@.len() - 1] == self.spec_players()[j].0);
                        }
                    }
                    assert forall|p: int, q: int|
                        0 <= p < q < targets@.len() implies targets@[p] != targets@[q] by {
                        if q == targets@.len() - 1 {
                            // An earlier target came from an earlier entry,
                            // whose address differs from this one's.
                            let k = choose|k: int|
                                #![auto]
                                0 <= k < i && self.spec_players()[k].0 == before[p];
                            assert(self.spec_players()[k].0 != self.spec_players()[i as int].0);
                        } else {
                            assert(targets@[p] == before[p] && targets@[q] == before[q]);
                        }
                    }
                }
            }
            i = i + 1;
        }
        targets
    }

    /// Decodes and dispatches one datagram from `client`: a `Handshake` is
    /// acknowledged to the sender, a `Position` report is applied, a `Leave`
    /// removes the sender and is broadcast to the others; anything else —
    /// malformed bytes included — is dropped without effect.
    pub fn process_client_message(&mut self, client: Address, msg: &[u8]) -> (acts: ServerActions)
        requires
            old(self).wf(),
            old(self).spec_counter() < u64::MAX,
        ensures
            final(self).wf(),
            match spec_decode(msg@) {
                Ok(Message::Handshake) => {
                    &&& acts.broadcast is None
                    &&& acts.start_tasks == (!has_addr(old(self).spec_players(), client) && old(
                        self,
                    ).spec_players().len() == 0)
                    &&& has_addr(old(self).spec_players(), client) ==> {
                        &&& final(self).spec_players() == old(self).spec_players()
                        &&& final(self).spec_counter() == old(self).spec_counter()
                        &&& (acts.reply matches Some(payload) && payload@ == spec_encode(
                            Message::Ack(
                                player_of(old(self).spec_players(), client).id,
                                player_of(old(self).spec_players(), client).color,
                            ),
                        ))
                    }
                    &&& !has_addr(old(self).spec_players(), client) ==> {
                        &&& final(self).spec_counter() == old(self).spec_counter() + 1
                        &&& exists|c: Color|
                            #![auto]
                            !c.is_white() && final(self).spec_players() == old(
                                self,
                            ).spec_players().push(
                                (
                                    client,
                                    (Player {
                                        id: old(self).spec_counter(),
                                        pos: Vec2 { x: 0, y: 0 },
                                        velocity: Vec2 { x: 0, y: 0 },
                                        color: c,
                                    }),
                                ),
                            ) && (acts.reply matches Some(payload) && payload@ == spec_encode(
                                Message::Ack(old(self).spec_counter(), c),
                            ))
                    }
                },
                Ok(Message::Position(pid, pos)) => {
                    &&& acts.reply is None
                    &&& acts.broadcast is None
                    &&& !acts.start_tasks
                    &&& final(self).spec_counter() == old(self).spec_counter()
                    &&& (has_addr(old(self).spec_players(), client) && player_of(
                        old(self).spec_players(),
                        client,
                    ).id == pid) ==> {
                        let k = addr_index(old(self).spec_players(), client);
                        final(self).spec_players() == old(self).spec_players().update(
                            k,
                            (
                                client,
                                (Player {
                                    id: old(self).spec_players()[k].1.id,
                                    pos,
                                    velocity: old(self).spec_players()[k].1.velocity,
                                    color: old(self).spec_players()[k].1.color,
                                }),
                            ),
                        )
                    }
                    &&& !(has_addr(old(self).spec_players(), client) && player_of(
                        old(self).spec_players(),
                        client,
                    ).id == pid) ==> final(self).spec_players() == old(self).spec_players()
                },
                Ok(Message::Leave(pid)) => {
                    &&& acts.reply is None
                    &&& !acts.start_tasks
                    &&& final(self).spec_counter() == old(self).spec_counter()
                    &&& has_addr(old(self).spec_players(), client) ==> final(self).spec_players()
                        == old(self).spec_players().remove(
                        addr_index(old(self).spec_players(), client),
                    )
                    &&& !has_addr(old(self).spec_players(), client) ==> final(self).spec_players()
                        == old(self).spec_players()
                    &&& (acts.broadcast matches Some(env) && env.payload@ == spec_encode(
                        Message::Leave(pid),
                    ) && env.excluded_address == Some(client))
                },
                _ => {
                    &&& final(self).spec_players() == old(self).spec_players()
                    &&& final(self).spec_counter() == old(self).spec_counter()
                    &&& acts.reply is None
                    &&& acts.broadcast is None
                    &&& !acts.start_tasks
                },
            },
    {
        match Message::deserialize(msg) {
            Ok(Message::Handshake) => {
                let (ack, first) = self.accept_client(client);
                let payload = ack.serialize();
                proof {
                    if !has_addr(old(self).spec_players(), client) {
                        match ack {
                            Message::Ack(aid, ac) => {
                                assert(!ac.is_white());
                            },
                            _ => {
                                assert(false);
                            },
                        }
                    }
                }
                ServerActions { reply: Some(payload), broadcast: None, start_tasks: first }
            },
            Ok(Message::Position(pid, pos)) => {
                self.update_position(client, pid, pos);
                ServerActions { reply: None, broadcast: None, start_tasks: false }
            },
            Ok(Message::Leave(pid)) => {
                let env = self.drop_player(client, pid);
                ServerActions { reply: None, broadcast: Some(env), start_tasks: false }
            },
            _ => ServerActions { reply: None, broadcast: None, start_tasks: false },
        }
    }
}

/// The handshake transition on the registry alone, with the drawn color as
/// an argument: exactly what `accept_client` ensures, up to the color draw.
pub open spec fn spec_accept(
    es: Seq<(Address, Player)>,
    counter: u64,
    client: Address,
    color: Color,
) -> (Seq<(Address, Player)>, u64, Message) {
    if has_addr(es, client) {
        (es, counter, Message::Ack(player_of(es, client).id, player_of(es, client).color))
    } else {
        (
            es.push(
                (
                    client,
                    Player {
                        id: counter,
                        pos: Vec2 { x: 0, y: 0 },
                        velocity: Vec2 { x: 0, y: 0 },
                        color,
                    },
                ),
            ),
            (counter + 1) as u64,
            Message::Ack(counter, color),
        )
    }
}

/// Registering a fresh address under the next identity keeps the registry
/// invariant, with the counter advanced past the new identity.
proof fn lemma_wf_push(es: Seq<(Address, Player)>, counter: u64, client: Address, color: Color)
    requires
        wf_entries(es, counter),
        !has_addr(es, client),
        counter < u64::MAX,
    ensures
        wf_entries(
            es.push(
                (
                    client,
                    Player {
                        id: counter,
                        pos: Vec2 { x: 0, y: 0 },
                        velocity: Vec2 { x: 0, y: 0 },
                        color,
                    },
                ),
            ),
            (counter + 1) as u64,
        ),
{
    let now = es.push(
        (
            client,
            Player { id: counter, pos: Vec2 { x: 0, y: 0 }, velocity: Vec2 { x: 0, y: 0 }, color },
        ),
    );
    assert forall|p: int, q: int| 0 <= p < q < now.len() implies now[p].0 != now[q].0 by {
        if q < es.len() {
            assert(now[p] == es[p] && now[q] == es[q]);
        } else {
            assert(now[q].0 == client && now[p] == es[p]);
        }
    }
    assert forall|p: int, q: int| 0 <= p < q < now.len() implies now[p].1.id != now[q].1.id by {
        if q < es.len() {
            assert(now[p] == es[p] && now[q] == es[q]);
        } else {
            assert(now[q].1.id == counter && now[p] == es[p]);
        }
    }
    assert forall|p: int| 0 <= p < now.len() implies 1 <= (#[trigger] now[p]).1.id < counter
        + 1 by {
        if p < es.len() {
            assert(now[p] == es[p]);
        }
    }
}

/// An address is in the grown registry exactly when it is the new one or
/// was already there.
proof fn lemma_has_addr_push(es: Seq<(Address, Player)>, entry: (Address, Player), a: Address)
    ensures
        has_addr(es.push(entry), a) == (has_addr(es, a) || a == entry.0),
{
    let now = es.push(entry);
    if has_addr(es, a) {
        let i = addr_index(es, a);
        assert(now[i].0 == a);
        assert(has_addr(now, a));
    }
    if a == entry.0 {
        assert(now[es.len() as int].0 == a);
        assert(has_addr(now, a));
    }
    if has_addr(now, a) {
        let i = choose|i: int| 0 <= i < now.len() && now[i].0 == a;
        if i < es.len() {
            assert(es[i].0 == a);
            assert(has_addr(es, a));
        } else {
            assert(a == entry.0);
        }
    }
}

/// Idempotent handshake: after a fresh address was registered, a repeated
/// handshake from it finds the same entry again, so it is acknowledged with
/// the identical identity and color, the registry is left untouched, and
/// its size has grown by one, not two.
pub proof fn lemma_handshake_idempotent(
    es: Seq<(Address, Player)>,
    counter: u64,
    client: Address,
    c1: Color,
    c2: Color,
)
    requires
        wf_entries(es, counter),
        !has_addr(es, client),
        counter < u64::MAX,
    ensures
        ({
            let first = spec_accept(es, counter, client, c1);
            let second = spec_accept(first.0, first.1, client, c2);
            &&& first.2 == Message::Ack(counter, c1)
            &&& second.2 == first.2
            &&& second.0 == first.0
            &&& second.1 == first.1
            &&& first.0.len() == es.len() + 1
        }),
{
    let entry = (
        client,
        Player { id: counter, pos: Vec2 { x: 0, y: 0 }, velocity: Vec2 { x: 0, y: 0 }, color: c1 },
    );
    let es1 = es.push(entry);
    lemma_has_addr_push(es, entry, client);
    lemma_wf_push(es, counter, client, c1);
    lemma_addr_index_of(es1, client, es.len() as int);
    assert(player_of(es1, client) == entry.1);
}

/// The registry and counter after a run of handshakes, each drawing the
/// matching color.
pub open spec fn spec_accept_all(
    es: Seq<(Address, Player)>,
    counter: u64,
    addrs: Seq<Address>,
    colors: Seq<Color>,
) -> (Seq<(Address, Player)>, u64)
    decreases addrs.len(),
{
    if addrs.len() == 0 {
        (es, counter)
    } else {
        let step = spec_accept(es, counter, addrs[0], colors[0]);
        spec_accept_all(step.0, step.1, addrs.skip(1), colors.skip(1))
    }
}

/// Identity uniqueness: handshakes from pairwise distinct, previously
/// unknown addresses are assigned the identities counter, counter + 1, ...
/// in join order — pairwise distinct and strictly increasing — while every
/// earlier entry stays exactly as it was.
pub proof fn lemma_identity_uniqueness(
    es: Seq<(Address, Player)>,
    counter: u64,
    addrs: Seq<Address>,
    colors: Seq<Color>,
)
    requires
        wf_entries(es, counter),
        colors.len() == addrs.len(),
        forall|i: int, j: int| 0 <= i < j < addrs.len() ==> addrs[i] != addrs[j],
        forall|i: int| 0 <= i < addrs.len() ==> !has_addr(es, #[trigger] addrs[i]),
        counter + addrs.len() <= u64::MAX,
    ensures
        ({
            let end = spec_accept_all(es, counter, addrs, colors);
            &&& end.1 == counter + addrs.len()
            &&& end.0.len() == es.len() + addrs.len()
            &&& wf_entries(end.0, end.1)
            &&& forall|i: int| 0 <= i < es.len() ==> end.0[i] == es[i]
            &&& forall|i: int|
                0 <= i < addrs.len() ==> has_addr(end.0, #[trigger] addrs[i]) && player_of(
                    end.0,
                    addrs[i],
                ).id == counter + i
        }),
    decreases addrs.len(),
{
    if addrs.len() == 0 {
    } else {
        let client = addrs[0];
        let entry = (
            client,
            Player {
                id: counter,
                pos: Vec2 { x: 0, y: 0 },
                velocity: Vec2 { x: 0, y: 0 },
                color: colors[0],
            },
        );
        let es1 = es.push(entry);
        let k1 = (counter + 1) as u64;
        lemma_wf_push(es, counter, client, colors[0]);
        assert forall|i: int, j: int|
            0 <= i < j < addrs.skip(1).len() implies addrs.skip(1)[i] != addrs.skip(1)[j] by {
            assert(addrs.skip(1)[i] == addrs[i + 1]);
            assert(addrs.skip(1)[j] == addrs[j + 1]);
        }
        assert forall|i: int| 0 <= i < addrs.skip(1).len() implies !has_addr(
            es1,
            #[trigger] addrs.skip(1)[i],
        ) by {
            assert(addrs.skip(1)[i] == addrs[i + 1]);
            assert(addrs[i + 1] != addrs[0]);
            assert(!has_addr(es, addrs[i + 1]));
            lemma_has_addr_push(es, entry, addrs[i + 1]);
        }
        lemma_identity_uniqueness(es1, k1, addrs.skip(1), colors.skip(1));
        let end = spec_accept_all(es, counter, addrs, colors);
        assert(end == spec_accept_all(es1, k1, addrs.skip(1), colors.skip(1)));
        assert forall|i: int| 0 <= i < es.len() implies end.0[i] == es[i] by {
            assert(end.0[i] == es1[i]);
            assert(es1[i] == es[i]);
        }
        assert(end.0[es.len() as int] == es1[es.len() as int]);
        lemma_addr_index_of(end.0, client, es.len() as int);
        assert(player_of(end.0, client).id == counter);
        assert forall|i: int| 0 <= i < addrs.len() implies has_addr(end.0, #[trigger] addrs[i])
            && player_of(end.0, addrs[i]).id == counter + i by {
            if i > 0 {
                assert(addrs.skip(1)[i - 1] == addrs[i]);
                assert(has_addr(end.0, addrs.skip(1)[i - 1]));
                assert(player_of(end.0, addrs.skip(1)[i - 1]).id == k1 + (i - 1));
            }
        }
    }
}

/// The heartbeat the server owes every connected address, excluding nobody.
pub fn ping_envelope() -> (env: BroadcastEnvelope)
    ensures
        env.payload@ == spec_encode(Message::Ping),
        env.excluded_address is None,
{
    BroadcastEnvelope { payload: Message::Ping.serialize(), excluded_address: None }
}

} // verus!
