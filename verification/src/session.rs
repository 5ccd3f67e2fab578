//! Per-connection session state and the server's bookkeeping: packet
//! dispatch, piece ownership, liveness, and the turn scheduler's glue.
//!
//! Sockets never appear here: the edge reads raw bytes into a session's
//! receiver and writes its sender's bytes out. Everything between those
//! two buffers — framing, decoding, dispatch, the scheduler — is the
//! library's logic.

use vstd::prelude::*;
use crate::character::Action;
use crate::consider::{
    chosen_action, lemma_best_index_in_range, lemma_choose_by_model, models_of, Considerations,
};
use crate::protocol::{
    dec_cpkt, enc_spkt, wf_spkt, CPkt, ClientAuthentication, ClientPacket, PieceSnapshot, SPkt,
    ServerPacket, SnapModel, WorldSnapshot,
};
use crate::resources::Catalog;
use crate::transport::{enc_frame, frame_ready, frames_of, residue, PacketReceiver, PacketSender};
use crate::protocol::piece_width;
use crate::world::{
    action_applied, action_legal, considered_spec, lemma_applied_congruent,
    lemma_considered_congruent, lemma_ready_props, ready_index, world_view_eq, World,
};
use crate::Error;
use crate::TIMEOUT_MS;

verus! {

/// Per-connection state. A session is created on accept and destroyed on
/// an I/O error, a decode error, or a liveness timeout; nothing survives a
/// reconnect.
#[derive(Debug)]
pub struct Session {
    /// Present once an `Authenticate` packet arrives; anonymous sessions
    /// still observe the world but own no pieces.
    pub authentication: Option<ClientAuthentication>,
    /// The pieces this session may issue actions for.
    pub owned_pieces: Vec<u64>,
    /// When the last packet arrived, in milliseconds.
    pub last_ping: u64,
    pub receiver: PacketReceiver,
    pub sender: PacketSender,
}

/// A session is stale when more than the timeout has passed since its
/// last packet.
pub open spec fn timed_out_spec(last_ping: u64, now: u64) -> bool {
    now > last_ping && now - last_ping > TIMEOUT_MS
}

impl Session {
    /// A fresh, unauthenticated session, live as of `now`.
    pub fn new(now: u64) -> (r: Session)
        ensures
            r.authentication is None,
            r.owned_pieces@ == Seq::<u64>::empty(),
            r.last_ping == now,
            r.receiver.buf@ == Seq::<u8>::empty(),
            r.sender.buf@ == Seq::<u8>::empty(),
    {
        Session {
            authentication: None,
            owned_pieces: Vec::new(),
            last_ping: now,
            receiver: PacketReceiver::default(),
            sender: PacketSender::default(),
        }
    }

    /// Whether this session owns the piece.
    pub fn owns(&self, piece: u64) -> (r: bool)
        ensures
            r == self.owned_pieces@.contains(piece),
    {
        let mut i: usize = 0;
        while i < self.owned_pieces.len()
            invariant
                i <= self.owned_pieces@.len(),
                forall|j: int| 0 <= j < i ==> self.owned_pieces@[j] != piece,
            decreases self.owned_pieces@.len() - i,
        {
            if self.owned_pieces[i] == piece {
                return true;
            }
            i = i + 1;
        }
        false
    }

    /// Grants this session a piece to act for.
    pub fn grant(&mut self, piece: u64)
        ensures
            final(self).owned_pieces@ == old(self).owned_pieces@.push(piece),
            final(self).authentication == old(self).authentication,
            final(self).last_ping == old(self).last_ping,
            final(self).receiver.buf@ == old(self).receiver.buf@,
            final(self).sender.buf@ == old(self).sender.buf@,
    {
        self.owned_pieces.push(piece);
    }

    /// Whether the session's liveness window has lapsed.
    pub fn timed_out(&self, now: u64) -> (r: bool)
        ensures
            r == timed_out_spec(self.last_ping, now),
    {
        now > self.last_ping && now - self.last_ping > TIMEOUT_MS
    }
}

/// Which of the scheduler's two states the server is in: idling until the
/// ready, player-controlled piece receives an action, or resolving
/// non-player turns itself.
#[derive(Clone, Copy, Debug, PartialEq, Eq, Structural)]
pub enum SchedulerState {
    AwaitingInput,
    Resolving,
}

/// The piece records of a world's snapshot.
pub open spec fn snapshot_pieces_spec(w: World) -> Seq<PieceSnapshot> {
    Seq::new(
        w.characters@.len(),
        |i: int|
            PieceSnapshot {
                id: i as u64,
                x: w.characters@[i].x,
                y: w.characters@[i].y,
                hp: w.characters@[i].hp,
                sp: w.characters@[i].sp,
                action_delay: w.characters@[i].action_delay,
                player_controlled: w.characters@[i].player_controlled,
                alliance: w.characters@[i].alliance,
            },
    )
}

/// The snapshot of a world: every piece's observable state and the board.
pub open spec fn snapshot_spec(w: World) -> SnapModel {
    SnapModel {
        pieces: snapshot_pieces_spec(w),
        width: w.floor.width as u32,
        height: w.floor.height as u32,
        tiles: w.floor.tiles@,
    }
}

/// The world is small enough to snapshot onto the wire: its board size
/// fits the snapshot's fields and one frame can carry the whole encoding.
pub open spec fn snapshot_wf(w: World) -> bool {
    &&& w.floor.width <= u32::MAX
    &&& w.floor.height <= u32::MAX
    &&& w.characters@.len() * piece_width() + w.floor.tiles@.len() + 21 <= u32::MAX
}

/// The single simulation authority: the world, the read-only catalog it
/// is played with, and the scheduler's state.
#[derive(Debug)]
pub struct Server {
    pub resources: Catalog,
    pub world: World,
    pub state: SchedulerState,
}

impl Server {
    /// A server over a freshly generated world.
    pub fn new(resources: Catalog, world: World) -> (r: Server)
        ensures
            r.resources == resources,
            r.world == world,
            r.state == SchedulerState::Resolving,
    {
        Server { resources, world, state: SchedulerState::Resolving }
    }

    /// The read-only projection of the world sent to clients.
    pub fn snapshot(&self) -> (r: WorldSnapshot)
        requires
            self.world.floor.width <= u32::MAX,
            self.world.floor.height <= u32::MAX,
        ensures
            r@ == snapshot_spec(self.world),
    {
        let mut pieces: Vec<PieceSnapshot> = Vec::new();
        let mut i: usize = 0;
        while i < self.world.characters.len()
            invariant
                i <= self.world.characters@.len(),
                pieces@.len() == i,
                forall|j: int|
                    0 <= j < i ==> pieces@[j] == snapshot_pieces_spec(self.world)[j],
            decreases self.world.characters@.len() - i,
        {
            let c = &self.world.characters[i];
            pieces.push(
                PieceSnapshot {
                    id: i as u64,
                    x: c.x,
                    y: c.y,
                    hp: c.hp,
                    sp: c.sp,
                    action_delay: c.action_delay,
                    player_controlled: c.player_controlled,
                    alliance: c.alliance,
                },
            );
            i = i + 1;
        }
        assert(pieces@ =~= snapshot_pieces_spec(self.world));
        let mut tiles: Vec<crate::world::Tile> = Vec::new();
        let mut i: usize = 0;
        while i < self.world.floor.tiles.len()
            invariant
                i <= self.world.floor.tiles@.len(),
                tiles@ == self.world.floor.tiles@.take(i as int),
            decreases self.world.floor.tiles@.len() - i,
        {
            tiles.push(self.world.floor.tiles[i]);
            assert(tiles@ =~= self.world.floor.tiles@.take(i + 1));
            i = i + 1;
        }
        assert(tiles@ =~= self.world.floor.tiles@);
        WorldSnapshot {
            pieces,
            width: self.world.floor.width as u32,
            height: self.world.floor.height as u32,
            tiles,
        }
    }

    /// The world state to send a client, as the snapshot projection.
    pub fn send_world(&self) -> (r: Option<WorldSnapshot>)
        requires
            self.world.floor.width <= u32::MAX,
            self.world.floor.height <= u32::MAX,
        ensures
            r matches Some(w) && w@ == snapshot_spec(self.world),
    {
        Some(self.snapshot())
    }

    /// Marks the moment a ping was sent to this client.
    pub fn send_ping(&mut self, client: &mut Session, now: u64) -> (r: Option<()>)
        ensures
            r is Some,
            final(client).last_ping == now,
            final(client).authentication == old(client).authentication,
            final(client).owned_pieces == old(client).owned_pieces,
            final(client).receiver.buf@ == old(client).receiver.buf@,
            final(client).sender.buf@ == old(client).sender.buf@,
            *final(self) == *old(self),
    {
        client.last_ping = now;
        Some(())
    }

    /// Notes an inbound ping: the client is alive as of `now`.
    pub fn recv_ping(&self, client: &mut Session, now: u64)
        ensures
            final(client).last_ping == now,
            final(client).authentication == old(client).authentication,
            final(client).owned_pieces == old(client).owned_pieces,
            final(client).receiver.buf@ == old(client).receiver.buf@,
            final(client).sender.buf@ == old(client).sender.buf@,
    {
        client.last_ping = now;
    }

    /// Applies a player action when the ready piece is player-controlled;
    /// anything else leaves the world untouched.
    pub fn recv_action(&mut self, action: Action) -> (r: Result<(), Error>)
        requires
            old(self).world.wf(old(self).resources),
        ensures
            final(self).resources == old(self).resources,
            final(self).state == old(self).state,
            final(self).world.wf(final(self).resources),
            final(self).world.floor == old(self).world.floor,
            final(self).world.characters@.len() == old(self).world.characters@.len(),
            match ready_index(old(self).world) {
                Some(i) => if old(self).world.characters@[i].player_controlled {
                    if action_legal(old(self).world, old(self).resources, i, action) {
                        r is Ok && action_applied(
                            old(self).world,
                            final(self).world,
                            old(self).resources,
                            i,
                            action,
                        )
                    } else {
                        (r matches Err(e) && e == Error::Policy) && final(self).world == old(self).world
                    }
                } else {
                    r is Ok && final(self).world == old(self).world
                },
                None => r is Ok && final(self).world == old(self).world,
            },
    {
        let ready = self.world.next_character();
        match ready {
            Some(i) => {
                proof {
                    lemma_ready_props(
                        self.world.characters@,
                        self.world.characters@.len() as int,
                    );
                }
                if self.world.characters[i].player_controlled {
                    let resources = &self.resources;
                    self.world.perform_action(resources, i, action)
                } else {
                    Ok(())
                }
            },
            None => Ok(()),
        }
    }

    /// One scheduler step. When the ready piece is player-controlled the
    /// loop idles awaiting input and nothing changes; otherwise the
    /// consideration engine scores candidates, the piece's decision policy
    /// picks one, and the action resolves through the same application
    /// path player actions use. Yields whether observable state changed.
    pub fn tick(&mut self) -> (r: Result<bool, Error>)
        requires
            old(self).world.wf(old(self).resources),
        ensures
            final(self).resources == old(self).resources,
            final(self).world.wf(final(self).resources),
            final(self).world.floor == old(self).world.floor,
            final(self).world.characters@.len() == old(self).world.characters@.len(),
            match ready_index(old(self).world) {
                Some(i) => if old(self).world.characters@[i].player_controlled {
                    (r matches Ok(b) && b == false) && final(self).world == old(self).world
                        && final(self).state == SchedulerState::AwaitingInput
                } else {
                    (r matches Ok(b) && b == true) && final(self).state
                        == SchedulerState::Resolving && turn_resolved(
                        old(self).world,
                        final(self).world,
                        old(self).resources,
                        i,
                    )
                },
                None => (r matches Ok(b) && b == false) && final(self).world == old(self).world
                    && final(self).state == old(self).state,
            },
    {
        let ready = self.world.next_character();
        let i = match ready {
            Some(i) => i,
            None => {
                return Ok(false);
            },
        };
        proof {
            lemma_ready_props(self.world.characters@, self.world.characters@.len() as int);
        }
        if self.world.characters[i].player_controlled {
            self.state = SchedulerState::AwaitingInput;
            return Ok(false);
        }
        self.state = SchedulerState::Resolving;
        {
            let piece = &mut self.world.characters[i];
            piece.new_turn();
        }
        assert(self.world.wf(self.resources));
        let policy = self.world.characters[i].sheet.on_consider;
        let resources = &self.resources;
        let scored = self.world.consider_turn(resources, i);
        let ghost scored_view = scored@;
        let mut considerations = Considerations::new(scored);
        let action = self.world.consider_action(policy, &mut considerations);
        proof {
            if scored_view.len() > 0 {
                lemma_best_index_in_range(scored_view);
            }
            assert(action_legal(self.world, self.resources, i as int, action));
        }
        let ghost mid = self.world;
        proof {
            lemma_choose_by_model(policy, scored_view);
            assert(models_of(scored_view) == considered_spec(mid, self.resources, i as int));
            assert(action == chosen_action(
                mid.characters@[i as int].sheet.on_consider,
                considered_spec(mid, old(self).resources, i as int),
            ));
        }
        let outcome = self.world.perform_action(resources, i, action);
        assert(outcome is Ok);
        proof {
            assert(turn_started(old(self).world, mid, i as int));
            assert(action_legal(mid, old(self).resources, i as int, action));
            assert(action_applied(mid, self.world, old(self).resources, i as int, action));
            assert(turn_resolved(old(self).world, self.world, old(self).resources, i as int));
        }
        Ok(true)
    }
}

/// Whether an inbound action packet is honored: it must name exactly the
/// currently-ready piece, that piece must be player-controlled, and the
/// sending session must own it.
pub open spec fn action_legit(w: World, owned: Seq<u64>, actor: u64) -> bool {
    match ready_index(w) {
        Some(i) => actor == i as u64 && w.characters@[i].player_controlled && owned.contains(
            actor,
        ),
        None => false,
    }
}

/// The set of live connections of one server instance.
#[derive(Debug)]
pub struct Lobby {
    pub sessions: Vec<Session>,
}

impl Lobby {
    /// An empty lobby.
    pub fn new() -> (r: Lobby)
        ensures
            r.sessions@.len() == 0,
    {
        Lobby { sessions: Vec::new() }
    }

    /// Admits a freshly accepted connection: a new session, live as of
    /// `now`, with a keepalive and an unsolicited initial world snapshot
    /// already queued — the client hears the world before it says
    /// anything.
    pub fn accept(&mut self, server: &Server, now: u64) -> (r: usize)
        requires
            snapshot_wf(server.world),
        ensures
            r == old(self).sessions@.len(),
            final(self).sessions@.len() == old(self).sessions@.len() + 1,
            forall|j: int|
                0 <= j < old(self).sessions@.len() ==> final(self).sessions@[j]
                    == old(self).sessions@[j],
            final(self).sessions@[r as int].authentication is None,
            final(self).sessions@[r as int].owned_pieces@ == Seq::<u64>::empty(),
            final(self).sessions@[r as int].last_ping == now,
            final(self).sessions@[r as int].receiver.buf@ == Seq::<u8>::empty(),
            final(self).sessions@[r as int].sender.buf@ == enc_frame(enc_spkt(SPkt::Ping))
                + enc_frame(enc_spkt(SPkt::World(snapshot_spec(server.world)))),
    {
        let idx = self.sessions.len();
        self.sessions.push(Session::new(now));
        let snapshot = server.snapshot();
        let world_packet = ServerPacket::World(snapshot);
        let session = &mut self.sessions[idx];
        let ping_packet = ServerPacket::Ping;
        let queued_ping = session.sender.queue_server(&ping_packet);
        let queued_world = session.sender.queue_server(&world_packet);
        proof {
            assert(wf_spkt(world_packet@));
            assert(queued_ping is Ok);
            assert(queued_world is Ok);
        }
        idx
    }

    /// Queues the current world snapshot to every session: the broadcast
    /// after observable state changes.
    pub fn broadcast_world(&mut self, server: &Server)
        requires
            snapshot_wf(server.world),
        ensures
            final(self).sessions@.len() == old(self).sessions@.len(),
            forall|j: int|
                0 <= j < old(self).sessions@.len() ==> {
                    &&& (#[trigger] final(self).sessions@[j]).sender.buf@ == old(self).sessions@[j].sender.buf@ + enc_frame(
                        enc_spkt(SPkt::World(snapshot_spec(server.world))),
                    )
                    &&& final(self).sessions@[j].authentication == old(self).sessions@[j].authentication
                    &&& final(self).sessions@[j].owned_pieces == old(self).sessions@[j].owned_pieces
                    &&& final(self).sessions@[j].last_ping == old(self).sessions@[j].last_ping
                    &&& final(self).sessions@[j].receiver.buf@ == old(self).sessions@[j].receiver.buf@
                },
    {
        let snapshot = server.snapshot();
        let world_packet = ServerPacket::World(snapshot);
        let mut j: usize = 0;
        while j < self.sessions.len()
            invariant
                j <= self.sessions@.len(),
                self.sessions@.len() == old(self).sessions@.len(),
                world_packet@ == SPkt::World(snapshot_spec(server.world)),
                wf_spkt(world_packet@),
                forall|k: int|
                    j <= k < self.sessions@.len() ==> #[trigger] self.sessions@[k] == old(self).sessions@[k],
                forall|k: int|
                    0 <= k < j ==> {
                        &&& (#[trigger] self.sessions@[k]).sender.buf@ == old(self).sessions@[k].sender.buf@ + enc_frame(enc_spkt(world_packet@))
                        &&& self.sessions@[k].authentication == old(self).sessions@[k].authentication
                        &&& self.sessions@[k].owned_pieces == old(self).sessions@[k].owned_pieces
                        &&& self.sessions@[k].last_ping == old(self).sessions@[k].last_ping
                        &&& self.sessions@[k].receiver.buf@ == old(self).sessions@[k].receiver.buf@
                    },
            decreases self.sessions@.len() - j,
        {
            let session = &mut self.sessions[j];
            let queued = session.sender.queue_server(&world_packet);
            proof {
                assert(queued is Ok);
            }
            j = j + 1;
        }
    }

    /// Drops every session that has sent nothing for longer than the
    /// liveness timeout, keeping the others in order. The world is not in
    /// reach from here: a dropped session's pieces stay on the board,
    /// merely unowned.
    pub fn remove_timed_out(&mut self, now: u64)
        ensures
            final(self).sessions@ == live_sessions(old(self).sessions@, now),
    {
        let mut all: Vec<Session> = Vec::new();
        core::mem::swap(&mut all, &mut self.sessions);
        let total = all.len();
        let ghost entries = all@;
        let mut kept: Vec<Session> = Vec::new();
        let mut i: usize = 0;
        proof {
            reveal_with_fuel(Seq::<Session>::filter, 1);
            assert(entries.take(0) =~= Seq::<Session>::empty());
            assert(kept@ =~= live_sessions(entries.take(0), now));
            assert(all@ =~= entries.skip(0));
        }
        while all.len() > 0
            invariant
                i <= entries.len(),
                entries.len() == total as int,
                all@ == entries.skip(i as int),
                kept@ == live_sessions(entries.take(i as int), now),
            decreases all@.len(),
        {
            let s = all.remove(0);
            proof {
                reveal_with_fuel(Seq::<Session>::filter, 2);
                let prefix = entries.take(i + 1);
                assert(prefix.drop_last() =~= entries.take(i as int));
                assert(entries.skip(i as int)[0] == entries[i as int]);
                assert(prefix.last() == entries[i as int]);
                assert(live_sessions(prefix, now) == if !timed_out_spec(
                    entries[i as int].last_ping,
                    now,
                ) {
                    live_sessions(entries.take(i as int), now).push(entries[i as int])
                } else {
                    live_sessions(entries.take(i as int), now)
                });
                assert(entries.skip(i as int).remove(0) =~= entries.skip(i + 1));
            }
            if !s.timed_out(now) {
                kept.push(s);
            }
            i = i + 1;
        }
        proof {
            assert(entries.take(i as int) =~= entries);
        }
        self.sessions = kept;
    }
}

/// The sessions that stay after a liveness sweep at `now`.
pub open spec fn live_sessions(entries: Seq<Session>, now: u64) -> Seq<Session> {
    entries.filter(|s: Session| !timed_out_spec(s.last_ping, now))
}

/// How the world stands after one non-player turn: the acting piece's
/// turn began (its one-turn statuses wore off), and then exactly the
/// action its decision policy picks from the engine's scored candidates
/// — both functions of the intermediate world alone — resolved through
/// the single application path.
pub open spec fn turn_resolved(w0: World, w1: World, catalog: Catalog, i: int) -> bool {
    exists|mid: World|
        {
            let action = chosen_action(
                mid.characters@[i].sheet.on_consider,
                considered_spec(mid, catalog, i),
            );
            &&& #[trigger] turn_started(w0, mid, i)
            &&& action_legal(mid, catalog, i, action)
            &&& action_applied(mid, w1, catalog, i, action)
        }
}

/// `mid` is `w0` with piece `i` at the start of its turn: its statuses
/// that last one turn wore off, and nothing else moved.
pub open spec fn turn_started(w0: World, mid: World, i: int) -> bool {
    &&& mid.floor == w0.floor
    &&& mid.characters@.len() == w0.characters@.len()
    &&& forall|j: int|
        0 <= j < w0.characters@.len() && j != i ==> mid.characters@[j] == w0.characters@[j]
    &&& 0 <= i < w0.characters@.len()
    &&& mid.characters@[i].statuses@ == crate::character::retain_non_turn(
        w0.characters@[i].statuses@,
    )
    &&& mid.characters@[i].hp == w0.characters@[i].hp
    &&& mid.characters@[i].sp == w0.characters@[i].sp
    &&& crate::character::same_but_pools_and_statuses(mid.characters@[i], w0.characters@[i])
}

/// The two sessions differ at most in their read buffer.
pub open spec fn session_same_but_receiver(a: Session, b: Session) -> bool {
    &&& b.authentication == a.authentication
    &&& b.owned_pieces == a.owned_pieces
    &&& b.last_ping == a.last_ping
    &&& b.sender.buf@ == a.sender.buf@
}

/// The two session lists agree everywhere, except that session `s` may
/// differ in its read buffer. Dispatch never reads that buffer, so states
/// related this way dispatch alike.
pub open spec fn sessions_eq_mod_receiver(a: Seq<Session>, b: Seq<Session>, s: int) -> bool {
    &&& a.len() == b.len()
    &&& forall|j: int| 0 <= j < a.len() && j != s ==> a[j] == b[j]
    &&& (0 <= s < a.len() ==> session_same_but_receiver(a[s], b[s]))
}

/// What dispatching one packet from session `s` does, as a relation
/// between the lobby's sessions and the server before and after. The
/// read buffer of session `s` is deliberately unconstrained: dispatch
/// never touches it, and the dispatch loop drains it in between.
///
/// A keepalive resets the session's liveness and is answered in kind.
/// Authentication stores the identity; no rejection logic exists, this is
/// presence, not a security boundary. A routing token is a no-op at this
/// layer. An action is honored only when it names exactly the
/// currently-ready piece, that piece is player-controlled, and this
/// session owns it; an honored, legal action resolves through the single
/// application path and the new world is broadcast to every session.
/// Anything else never mutates the world: the sender is resynchronised
/// with an authoritative snapshot instead, and the connection stays up.
pub open spec fn handle_packet_rel(
    ss0: Seq<Session>,
    sv0: Server,
    ss1: Seq<Session>,
    sv1: Server,
    s: int,
    p: crate::protocol::CPkt,
    now: u64,
) -> bool {
    &&& 0 <= s < ss0.len()
    &&& ss1.len() == ss0.len()
    &&& sv1.resources == sv0.resources
    &&& sv1.world.wf(sv1.resources)
    &&& sv1.world.floor == sv0.world.floor
    &&& sv1.world.characters@.len() == sv0.world.characters@.len()
    &&& snapshot_wf(sv1.world)
    &&& ss1[s].last_ping == now
    &&& ss1[s].owned_pieces == ss0[s].owned_pieces
    &&& match p {
        crate::protocol::CPkt::Ping => {
            &&& sv1 == sv0
            &&& ss1[s].authentication == ss0[s].authentication
            &&& ss1[s].sender.buf@ == ss0[s].sender.buf@ + enc_frame(enc_spkt(SPkt::Ping))
            &&& forall|j: int| 0 <= j < ss0.len() && j != s ==> #[trigger] ss1[j] == ss0[j]
        },
        crate::protocol::CPkt::Authenticate(u) => {
            &&& sv1 == sv0
            &&& ss1[s].authentication matches Some(a) && a.username@ == u
            &&& ss1[s].sender.buf@ == ss0[s].sender.buf@
            &&& forall|j: int| 0 <= j < ss0.len() && j != s ==> #[trigger] ss1[j] == ss0[j]
        },
        crate::protocol::CPkt::Route(_) => {
            &&& sv1 == sv0
            &&& ss1[s].authentication == ss0[s].authentication
            &&& ss1[s].sender.buf@ == ss0[s].sender.buf@
            &&& forall|j: int| 0 <= j < ss0.len() && j != s ==> #[trigger] ss1[j] == ss0[j]
        },
        crate::protocol::CPkt::Action(actor, action) => {
            &&& ss1[s].authentication == ss0[s].authentication
            &&& if action_legit(sv0.world, ss0[s].owned_pieces@, actor) && action_legal(
                sv0.world,
                sv0.resources,
                actor as int,
                action,
            ) {
                &&& action_applied(sv0.world, sv1.world, sv0.resources, actor as int, action)
                &&& sv1.state == SchedulerState::Resolving
                &&& ss1[s].sender.buf@ == ss0[s].sender.buf@ + enc_frame(
                    enc_spkt(SPkt::World(snapshot_spec(sv1.world))),
                )
                &&& forall|j: int|
                    0 <= j < ss0.len() && j != s ==> {
                        &&& (#[trigger] ss1[j]).sender.buf@ == ss0[j].sender.buf@ + enc_frame(
                            enc_spkt(SPkt::World(snapshot_spec(sv1.world))),
                        )
                        &&& ss1[j].authentication == ss0[j].authentication
                        &&& ss1[j].owned_pieces == ss0[j].owned_pieces
                        &&& ss1[j].last_ping == ss0[j].last_ping
                        &&& ss1[j].receiver.buf@ == ss0[j].receiver.buf@
                    }
            } else {
                &&& sv1.world == sv0.world
                &&& sv1.state == sv0.state
                &&& ss1[s].sender.buf@ == ss0[s].sender.buf@ + enc_frame(
                    enc_spkt(SPkt::World(snapshot_spec(sv0.world))),
                )
                &&& forall|j: int| 0 <= j < ss0.len() && j != s ==> #[trigger] ss1[j] == ss0[j]
            }
        },
    }
}

/// The packets a list of frames decodes to, frame by frame.
pub open spec fn decodes_to(frames: Seq<Seq<u8>>, ps: Seq<CPkt>) -> bool {
    &&& ps.len() == frames.len()
    &&& forall|k: int| 0 <= k < frames.len() ==> dec_cpkt(#[trigger] frames[k]) == Some(ps[k])
}

/// The final state is the old state with the packets dispatched from
/// session `s`, one after the other, in order: the left fold of
/// [`handle_packet_rel`]. The chain ignores session `s`'s read buffer,
/// which the dispatch loop drains in between.
pub open spec fn dispatched(
    ss0: Seq<Session>,
    sv0: Server,
    ss1: Seq<Session>,
    sv1: Server,
    s: int,
    ps: Seq<CPkt>,
    now: u64,
) -> bool
    decreases ps.len(),
{
    if ps.len() == 0 {
        sessions_eq_mod_receiver(ss0, ss1, s) && sv1 == sv0
    } else {
        exists|ssm: Seq<Session>, svm: Server|
            {
                &&& dispatched(ss0, sv0, ssm, svm, s, ps.drop_last(), now)
                &&& #[trigger] handle_packet_rel(ssm, svm, ss1, sv1, s, ps.last(), now)
            }
    }
}

/// Dispatch never reads the dispatching session's read buffer, so the
/// relation is insensitive to it on the output side.
proof fn lemma_rel_receiver_irrelevant(
    ssm: Seq<Session>,
    svm: Server,
    a: Seq<Session>,
    b: Seq<Session>,
    sv1: Server,
    s: int,
    p: CPkt,
    now: u64,
)
    requires
        handle_packet_rel(ssm, svm, a, sv1, s, p, now),
        sessions_eq_mod_receiver(a, b, s),
    ensures
        handle_packet_rel(ssm, svm, b, sv1, s, p, now),
{
}

/// Neither is the dispatch chain.
proof fn lemma_dispatched_receiver_irrelevant(
    ss0: Seq<Session>,
    sv0: Server,
    a: Seq<Session>,
    b: Seq<Session>,
    sv: Server,
    s: int,
    ps: Seq<CPkt>,
    now: u64,
)
    requires
        dispatched(ss0, sv0, a, sv, s, ps, now),
        sessions_eq_mod_receiver(a, b, s),
    ensures
        dispatched(ss0, sv0, b, sv, s, ps, now),
    decreases ps.len(),
{
    if ps.len() == 0 {
        assert(sessions_eq_mod_receiver(ss0, b, s));
    } else {
        let (ssm, svm) = choose|ssm: Seq<Session>, svm: Server|
            {
                &&& dispatched(ss0, sv0, ssm, svm, s, ps.drop_last(), now)
                &&& #[trigger] handle_packet_rel(ssm, svm, a, sv, s, ps.last(), now)
            };
        lemma_rel_receiver_irrelevant(ssm, svm, a, b, sv, s, ps.last(), now);
        assert(dispatched(ss0, sv0, b, sv, s, ps, now));
    }
}

impl Lobby {
    /// Dispatches one decoded packet from session `s`: see
    /// [`handle_packet_rel`], which this function establishes between its
    /// old and new states; the read buffers of every session are left
    /// untouched.
    ///
    /// A keepalive resets the session's liveness and is answered in kind.
    /// Authentication stores the identity; no rejection logic exists, this
    /// is presence, not a security boundary. A routing token is a no-op at
    /// this layer. An action is honored only when it names exactly the
    /// currently-ready piece, that piece is player-controlled, and this
    /// session owns it; an honored, legal action resolves through the
    /// single application path and the new world is broadcast to every
    /// session. Anything else never mutates the world: the sender is
    /// resynchronised with an authoritative snapshot instead, and the
    /// connection stays up.
    pub fn handle_packet(
        &mut self,
        server: &mut Server,
        s: usize,
        packet: ClientPacket,
        now: u64,
    )
        requires
            s < old(self).sessions@.len(),
            old(server).world.wf(old(server).resources),
            snapshot_wf(old(server).world),
        ensures
            handle_packet_rel(
                old(self).sessions@,
                *old(server),
                final(self).sessions@,
                *final(server),
                s as int,
                packet@,
                now,
            ),
            forall|j: int|
                0 <= j < old(self).sessions@.len() ==> (#[trigger] final(self).sessions@[j]).receiver.buf@
                    == old(self).sessions@[j].receiver.buf@,
    {
        match packet {
            ClientPacket::Ping => {
                let session = &mut self.sessions[s];
                session.last_ping = now;
                let ping_packet = ServerPacket::Ping;
                let queued = session.sender.queue_server(&ping_packet);
                proof {
                    assert(queued is Ok);
                }
            },
            ClientPacket::Authenticate(a) => {
                let session = &mut self.sessions[s];
                session.last_ping = now;
                session.authentication = Some(a);
            },
            ClientPacket::Route(_) => {
                let session = &mut self.sessions[s];
                session.last_ping = now;
            },
            ClientPacket::Action { actor, action } => {
                {
                    let session = &mut self.sessions[s];
                    session.last_ping = now;
                }
                let owned = self.sessions[s].owns(actor);
                let ready = server.world.next_character();
                proof {
                    lemma_ready_props(
                        server.world.characters@,
                        server.world.characters@.len() as int,
                    );
                }
                let legit = match ready {
                    Some(i) => actor == i as u64 && server.world.characters[i].player_controlled
                        && owned,
                    None => false,
                };
                let applied = if legit {
                    let i = match ready {
                        Some(i) => i,
                        None => {
                            proof {
                                assert(false);
                            }
                            vstd::pervasive::unreached()
                        },
                    };
                    let resources = &server.resources;
                    match server.world.perform_action(resources, i, action) {
                        Ok(()) => true,
                        Err(_) => false,
                    }
                } else {
                    false
                };
                if applied {
                    server.state = SchedulerState::Resolving;
                    self.broadcast_world(server);
                } else {
                    let snapshot = server.snapshot();
                    let world_packet = ServerPacket::World(snapshot);
                    let session = &mut self.sessions[s];
                    let queued = session.sender.queue_server(&world_packet);
                    proof {
                        assert(queued is Ok);
                    }
                }
            },
        }
    }

    /// One tick of a session: consumes every complete inbound frame,
    /// decodes it, and dispatches it, in arrival order — the final state
    /// is the left fold of the dispatch relation over exactly the packets
    /// the buffered frames decode to, and the read buffer keeps exactly
    /// the bytes of a frame still in flight. The first frame that does not
    /// decode is fatal to the connection; after all inbound traffic the
    /// liveness window is checked — after, to be as charitable to the
    /// client as possible — so the result is a timeout exactly when the
    /// frames all decoded and the session is stale.
    #[verifier::loop_isolation(false)]
    pub fn session_tick(&mut self, server: &mut Server, s: usize, now: u64) -> (r: Result<
        (),
        Error,
    >)
        requires
            s < old(self).sessions@.len(),
            old(server).world.wf(old(server).resources),
            snapshot_wf(old(server).world),
        ensures
            final(self).sessions@.len() == old(self).sessions@.len(),
            final(server).resources == old(server).resources,
            final(server).world.wf(final(server).resources),
            final(server).world.floor == old(server).world.floor,
            final(server).world.characters@.len() == old(server).world.characters@.len(),
            snapshot_wf(final(server).world),
            forall|j: int|
                0 <= j < old(self).sessions@.len() && j != s ==> (#[trigger] final(self).sessions@[j]).receiver.buf@
                    == old(self).sessions@[j].receiver.buf@,
            match r {
                Ok(()) => {
                    &&& exists|ps: Seq<CPkt>|
                        #[trigger] decodes_to(
                            frames_of(old(self).sessions@[s as int].receiver.buf@),
                            ps,
                        ) && dispatched(
                            old(self).sessions@,
                            *old(server),
                            final(self).sessions@,
                            *final(server),
                            s as int,
                            ps,
                            now,
                        )
                    &&& final(self).sessions@[s as int].receiver.buf@ == residue(
                        old(self).sessions@[s as int].receiver.buf@,
                    )
                    &&& !timed_out_spec(final(self).sessions@[s as int].last_ping, now)
                },
                Err(e) => if e == Error::Timeout {
                    &&& exists|ps: Seq<CPkt>|
                        #[trigger] decodes_to(
                            frames_of(old(self).sessions@[s as int].receiver.buf@),
                            ps,
                        ) && dispatched(
                            old(self).sessions@,
                            *old(server),
                            final(self).sessions@,
                            *final(server),
                            s as int,
                            ps,
                            now,
                        )
                    &&& final(self).sessions@[s as int].receiver.buf@ == residue(
                        old(self).sessions@[s as int].receiver.buf@,
                    )
                    &&& timed_out_spec(final(self).sessions@[s as int].last_ping, now)
                } else {
                    &&& e == Error::Malformed
                    &&& exists|k: int, ps: Seq<CPkt>|
                        {
                            &&& 0 <= k < frames_of(old(self).sessions@[s as int].receiver.buf@).len()
                            &&& dec_cpkt(
                                frames_of(old(self).sessions@[s as int].receiver.buf@)[k],
                            ) is None
                            &&& #[trigger] decodes_to(
                                frames_of(old(self).sessions@[s as int].receiver.buf@).take(k),
                                ps,
                            )
                            &&& dispatched(
                                old(self).sessions@,
                                *old(server),
                                final(self).sessions@,
                                *final(server),
                                s as int,
                                ps,
                                now,
                            )
                            &&& frames_of(final(self).sessions@[s as int].receiver.buf@)
                                == frames_of(old(self).sessions@[s as int].receiver.buf@).skip(
                                k + 1,
                            )
                            &&& residue(final(self).sessions@[s as int].receiver.buf@) == residue(
                                old(self).sessions@[s as int].receiver.buf@,
                            )
                        }
                },
            },
    {
        let ghost ss0 = old(self).sessions@;
        let ghost sv0 = *old(server);
        let ghost buf0 = old(self).sessions@[s as int].receiver.buf@;
        let ghost mut ps: Seq<CPkt> = Seq::empty();
        let ghost mut k: int = 0;
        proof {
            assert(frames_of(buf0).take(0) =~= Seq::<Seq<u8>>::empty());
            assert(decodes_to(frames_of(buf0).take(0), ps));
            assert(sessions_eq_mod_receiver(ss0, ss0, s as int));
            assert(dispatched(ss0, sv0, self.sessions@, *server, s as int, ps, now));
            assert(frames_of(buf0).skip(0) =~= frames_of(buf0));
        }
        let mut done = false;
        while !done
            invariant
                self.sessions@.len() == ss0.len(),
                server.resources == sv0.resources,
                server.world.wf(server.resources),
                server.world.floor == sv0.world.floor,
                server.world.characters@.len() == sv0.world.characters@.len(),
                snapshot_wf(server.world),
                0 <= k <= frames_of(buf0).len(),
                ps.len() == k,
                decodes_to(frames_of(buf0).take(k), ps),
                frames_of(self.sessions@[s as int].receiver.buf@) == frames_of(buf0).skip(k),
                residue(self.sessions@[s as int].receiver.buf@) == residue(buf0),
                dispatched(ss0, sv0, self.sessions@, *server, s as int, ps, now),
                forall|j: int|
                    0 <= j < ss0.len() && j != s ==> (#[trigger] self.sessions@[j]).receiver.buf@
                        == ss0[j].receiver.buf@,
                done ==> !frame_ready(self.sessions@[s as int].receiver.buf@),
            decreases self.sessions@[s as int].receiver.buf@.len() + (if done {
                0int
            } else {
                1int
            }),
        {
            let ghost pre_ss = self.sessions@;
            let ghost cur_buf = self.sessions@[s as int].receiver.buf@;
            let frame = {
                let session = &mut self.sessions[s];
                session.receiver.next_frame()
            };
            proof {
                assert(sessions_eq_mod_receiver(pre_ss, self.sessions@, s as int));
                lemma_dispatched_receiver_irrelevant(
                    ss0,
                    sv0,
                    pre_ss,
                    self.sessions@,
                    *server,
                    s as int,
                    ps,
                    now,
                );
            }
            match frame {
                None => {
                    done = true;
                },
                Some(payload) => {
                    proof {
                        assert(frame_ready(cur_buf));
                        let rest = cur_buf.skip(4 + crate::transport::frame_len(cur_buf));
                        assert(frames_of(cur_buf) == seq![
                            cur_buf.subrange(4, 4 + crate::transport::frame_len(cur_buf)),
                        ] + frames_of(rest));
                        assert(payload@ == frames_of(buf0).skip(k)[0]);
                        assert(payload@ == frames_of(buf0)[k]);
                        assert(self.sessions@[s as int].receiver.buf@ == rest);
                        assert(frames_of(rest) =~= frames_of(cur_buf).skip(1));
                        assert(frames_of(cur_buf).skip(1) =~= frames_of(buf0).skip(k).skip(1));
                        assert(frames_of(buf0).skip(k).skip(1) =~= frames_of(buf0).skip(k + 1));
                        assert(frames_of(self.sessions@[s as int].receiver.buf@) =~= frames_of(
                            buf0,
                        ).skip(k + 1));
                        assert(residue(self.sessions@[s as int].receiver.buf@) == residue(buf0));
                        assert(k < frames_of(buf0).len());
                    }
                    match crate::protocol::decode_client(&payload) {
                        Ok(packet) => {
                            let ghost mid_ss = self.sessions@;
                            let ghost mid_sv = *server;
                            self.handle_packet(server, s, packet, now);
                            proof {
                                let ps2 = ps.push(packet@);
                                assert(ps2.drop_last() =~= ps);
                                assert(ps2.last() == packet@);
                                assert(handle_packet_rel(
                                    mid_ss,
                                    mid_sv,
                                    self.sessions@,
                                    *server,
                                    s as int,
                                    ps2.last(),
                                    now,
                                ));
                                assert(dispatched(
                                    ss0,
                                    sv0,
                                    self.sessions@,
                                    *server,
                                    s as int,
                                    ps2,
                                    now,
                                ));
                                assert(dec_cpkt(payload@) == Some(packet@));
                                assert(frames_of(buf0).take(k + 1) =~= frames_of(buf0).take(
                                    k,
                                ).push(frames_of(buf0)[k]));
                                assert(decodes_to(frames_of(buf0).take(k + 1), ps2));
                                ps = ps2;
                                k = k + 1;
                            }
                        },
                        Err(_) => {
                            proof {
                                assert(dec_cpkt(frames_of(buf0)[k]) is None);
                            }
                            return Err(Error::Malformed);
                        },
                    }
                },
            }
        }
        proof {
            let cur = self.sessions@[s as int].receiver.buf@;
            assert(frames_of(cur) =~= Seq::<Seq<u8>>::empty());
            assert(frames_of(buf0).skip(k) =~= Seq::<Seq<u8>>::empty());
            assert(k == frames_of(buf0).len());
            assert(frames_of(buf0).take(k) =~= frames_of(buf0));
            assert(residue(cur) == cur);
            assert(cur == residue(buf0));
        }
        if self.sessions[s].timed_out(now) {
            return Err(Error::Timeout);
        }
        Ok(())
    }
}

} // verus!
