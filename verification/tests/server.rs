//! Sessions, dispatch, liveness, and the end-to-end connection scenario.

use esprit2::character::{Action, Alliance, Piece, Sheet, Stats};
use esprit2::consider::DecisionPolicy;
use esprit2::protocol::{decode_client, decode_server, ClientAuthentication, ClientPacket, ServerPacket};
use esprit2::resources::{Attack, Catalog};
use esprit2::session::{Lobby, Server, Session};
use esprit2::transport::PacketSender;
use esprit2::world::{Floor, Tile, World};
use esprit2::Error;
use esprit2::TIMEOUT_MS;

fn sheet() -> Sheet {
    Sheet {
        icon: String::from("@"),
        nouns: String::from("piece"),
        level: 0,
        experience: 0,
        bases: Stats { heart: 20, soul: 10, power: 5, defense: 2, magic: 4, resistance: 1 },
        growths: Stats::default(),
        growth_bonuses: Stats::default(),
        skillset: esprit2::spell::Skillset::EnergyMajor {
            major: esprit2::spell::Energy::Positive,
            minor: None,
        },
        speed: 12,
        attacks: vec![String::from("bite")],
        spells: Vec::new(),
        on_consider: DecisionPolicy::Greedy,
    }
}

fn catalog() -> Catalog {
    Catalog {
        attacks: vec![(String::from("bite"), Attack { magnitude: 6, inflicts: None })],
        spells: Vec::new(),
        statuses: Vec::new(),
    }
}

/// Piece 0 is the player's, ready first; piece 1 is a far-away enemy.
fn server() -> Server {
    let c = catalog();
    let mut a = Piece::new(sheet(), &c).unwrap();
    a.alliance = Alliance::Friendly;
    a.player_controlled = true;
    let mut b = Piece::new(sheet(), &c).unwrap();
    b.x = 3;
    b.y = 3;
    b.action_delay = 50;
    let floor = Floor { width: 6, height: 6, tiles: vec![Tile::Floor; 36] };
    Server::new(c, World::new(vec![a, b], floor))
}

/// Splits a byte queue into its framed payloads.
fn frames(buf: &[u8]) -> Vec<Vec<u8>> {
    let mut out = Vec::new();
    let mut i = 0;
    while i + 4 <= buf.len() {
        let len = u32::from_le_bytes([buf[i], buf[i + 1], buf[i + 2], buf[i + 3]]) as usize;
        assert!(i + 4 + len <= buf.len(), "truncated frame in queue");
        out.push(buf[i + 4..i + 4 + len].to_vec());
        i += 4 + len;
    }
    assert_eq!(i, buf.len(), "trailing bytes in queue");
    out
}

/// Frames one client packet as it would travel the wire.
fn framed(p: &ClientPacket) -> Vec<u8> {
    let mut sender = PacketSender::default();
    sender.queue_client(p).unwrap();
    sender.buf
}

#[test]
fn accepting_queues_an_initial_world_before_anything_is_received() {
    let server = server();
    let mut lobby = Lobby::new();
    let s = lobby.accept(&server, 0);
    let queued = frames(&lobby.sessions[s].sender.buf);
    assert_eq!(queued.len(), 2);
    assert_eq!(decode_server(&queued[0]), Ok(ServerPacket::Ping));
    match decode_server(&queued[1]) {
        Ok(ServerPacket::World(w)) => {
            assert_eq!(w.pieces.len(), 2);
            assert_eq!(w.width, 6);
            assert_eq!(w.tiles.len(), 36);
            assert!(w.pieces[0].player_controlled);
        },
        other => panic!("expected an initial world snapshot, got {:?}", other),
    }
}

#[test]
fn pings_are_answered_and_reset_liveness() {
    let mut server = server();
    let mut lobby = Lobby::new();
    let s = lobby.accept(&server, 0);
    let already_queued = lobby.sessions[s].sender.buf.len();
    lobby.sessions[s].receiver.push_bytes(&framed(&ClientPacket::Ping));
    lobby.session_tick(&mut server, s, 9_000).unwrap();
    assert_eq!(lobby.sessions[s].last_ping, 9_000);
    let queued = frames(&lobby.sessions[s].sender.buf[already_queued..]);
    assert_eq!(queued.len(), 1);
    assert_eq!(decode_server(&queued[0]), Ok(ServerPacket::Ping));
}

#[test]
fn authentication_is_presence_only() {
    let mut server = server();
    let mut lobby = Lobby::new();
    let s = lobby.accept(&server, 0);
    lobby.sessions[s].receiver.push_bytes(&framed(&ClientPacket::Authenticate(
        ClientAuthentication { username: b"a".to_vec() },
    )));
    lobby.session_tick(&mut server, s, 5).unwrap();
    assert_eq!(
        lobby.sessions[s].authentication,
        Some(ClientAuthentication { username: b"a".to_vec() })
    );
}

#[test]
fn a_malformed_frame_is_fatal_to_the_connection() {
    let mut server = server();
    let mut lobby = Lobby::new();
    let s = lobby.accept(&server, 0);
    // A framed payload with an unknown tag.
    lobby.sessions[s].receiver.push_bytes(&[1, 0, 0, 0, 99]);
    assert_eq!(lobby.session_tick(&mut server, s, 5), Err(Error::Malformed));
}

#[test]
fn unowned_actions_are_rejected_with_a_resync_and_mutate_nothing() {
    let mut server = server();
    let mut lobby = Lobby::new();
    let s = lobby.accept(&server, 0);
    let before = server.snapshot();
    let already_queued = lobby.sessions[s].sender.buf.len();

    // The session does not own piece 0: rejected, resynced, unchanged.
    lobby.sessions[s].receiver.push_bytes(&framed(&ClientPacket::Action {
        actor: 0,
        action: Action::Move(3, 4),
    }));
    lobby.session_tick(&mut server, s, 5).unwrap();
    assert_eq!(server.snapshot(), before);
    let queued = frames(&lobby.sessions[s].sender.buf[already_queued..]);
    assert_eq!(queued.len(), 1);
    assert!(matches!(decode_server(&queued[0]), Ok(ServerPacket::World(_))));

    // Naming the wrong piece is rejected the same way, even when owned.
    lobby.sessions[s].grant(1);
    let already_queued = lobby.sessions[s].sender.buf.len();
    lobby.sessions[s].receiver.push_bytes(&framed(&ClientPacket::Action {
        actor: 1,
        action: Action::Move(3, 4),
    }));
    lobby.session_tick(&mut server, s, 6).unwrap();
    assert_eq!(server.snapshot(), before);
    let queued = frames(&lobby.sessions[s].sender.buf[already_queued..]);
    assert_eq!(queued.len(), 1);
    assert!(matches!(decode_server(&queued[0]), Ok(ServerPacket::World(_))));
}

#[test]
fn owned_actions_apply_and_broadcast_the_new_world() {
    let mut server = server();
    let mut lobby = Lobby::new();
    let s = lobby.accept(&server, 0);
    let spectator = lobby.accept(&server, 0);
    lobby.sessions[s].grant(0);
    let queued_s = lobby.sessions[s].sender.buf.len();
    let queued_spectator = lobby.sessions[spectator].sender.buf.len();

    lobby.sessions[s].receiver.push_bytes(&framed(&ClientPacket::Action {
        actor: 0,
        action: Action::Move(3, 4),
    }));
    lobby.session_tick(&mut server, s, 5).unwrap();

    // One step toward (3, 4), and the actor paid its speed.
    assert_eq!((server.world.characters[0].x, server.world.characters[0].y), (1, 1));
    assert_eq!(server.world.characters[0].action_delay, 12);
    // Both sessions hear the new world.
    for (idx, base) in [(s, queued_s), (spectator, queued_spectator)] {
        let queued = frames(&lobby.sessions[idx].sender.buf[base..]);
        assert_eq!(queued.len(), 1);
        match decode_server(&queued[0]) {
            Ok(ServerPacket::World(w)) => {
                assert_eq!((w.pieces[0].x, w.pieces[0].y), (1, 1));
            },
            other => panic!("expected a world broadcast, got {:?}", other),
        }
    }
}

#[test]
fn silent_sessions_are_dropped_and_their_pieces_survive() {
    let mut server = server();
    let mut lobby = Lobby::new();
    let quiet = lobby.accept(&server, 0);
    let lively = lobby.accept(&server, 0);
    lobby.sessions[quiet].grant(0);
    assert_eq!(lobby.sessions.len(), 2);

    // Just inside the window nothing happens.
    let now = TIMEOUT_MS;
    assert_eq!(lobby.session_tick(&mut server, quiet, now), Ok(()));

    // One millisecond past it, the tick reports the timeout...
    let now = TIMEOUT_MS + 1;
    assert_eq!(lobby.session_tick(&mut server, quiet, now), Err(Error::Timeout));
    // ...but only a packet keeps the lively session alive.
    lobby.sessions[lively].receiver.push_bytes(&framed(&ClientPacket::Ping));
    lobby.session_tick(&mut server, lively, now).unwrap();

    // The sweep removes exactly the stale session; the world and its
    // pieces are untouched, merely unowned.
    let pieces_before = server.world.characters.len();
    lobby.remove_timed_out(now);
    assert_eq!(lobby.sessions.len(), 1);
    assert_eq!(lobby.sessions[0].last_ping, now);
    assert_eq!(server.world.characters.len(), pieces_before);
    assert!(server.world.characters[0].hp > 0);
}

#[test]
fn route_packets_are_a_no_op_at_this_layer() {
    let mut server = server();
    let mut lobby = Lobby::new();
    let s = lobby.accept(&server, 0);
    let before = server.snapshot();
    let already_queued = lobby.sessions[s].sender.buf.len();
    lobby.sessions[s].receiver.push_bytes(&framed(&ClientPacket::Route(b"elsewhere".to_vec())));
    lobby.session_tick(&mut server, s, 5).unwrap();
    assert_eq!(server.snapshot(), before);
    assert_eq!(lobby.sessions[s].sender.buf.len(), already_queued);
    assert_eq!(lobby.sessions[s].last_ping, 5);
}

#[test]
fn fresh_connections_play_out_the_whole_exchange() {
    let mut server = server();
    let mut lobby = Lobby::new();
    let s = lobby.accept(&server, 0);

    // The client hears an initial world before sending anything.
    let greeting = frames(&lobby.sessions[s].sender.buf);
    assert!(greeting.iter().any(|p| matches!(decode_server(p), Ok(ServerPacket::World(_)))));

    // It authenticates, then moves a piece it does not own: the move is
    // ignored and an authoritative snapshot comes back instead.
    let mut consumed = lobby.sessions[s].sender.buf.len();
    let before = server.snapshot();
    lobby.sessions[s].receiver.push_bytes(&framed(&ClientPacket::Authenticate(
        ClientAuthentication { username: b"a".to_vec() },
    )));
    lobby.sessions[s].receiver.push_bytes(&framed(&ClientPacket::Action {
        actor: 0,
        action: Action::Move(3, 4),
    }));
    lobby.session_tick(&mut server, s, 10).unwrap();
    assert!(lobby.sessions[s].authentication.is_some());
    assert_eq!(server.snapshot(), before);
    let replies = frames(&lobby.sessions[s].sender.buf[consumed..]);
    assert_eq!(replies.len(), 1);
    assert!(matches!(decode_server(&replies[0]), Ok(ServerPacket::World(_))));

    // Legitimately owning the ready piece, the same move is applied, the
    // new world is broadcast, and the scheduler advances past the player.
    lobby.sessions[s].grant(0);
    consumed = lobby.sessions[s].sender.buf.len();
    lobby.sessions[s].receiver.push_bytes(&framed(&ClientPacket::Action {
        actor: 0,
        action: Action::Move(3, 4),
    }));
    lobby.session_tick(&mut server, s, 20).unwrap();
    assert_eq!((server.world.characters[0].x, server.world.characters[0].y), (1, 1));
    let replies = frames(&lobby.sessions[s].sender.buf[consumed..]);
    assert_eq!(replies.len(), 1);
    match decode_server(&replies[0]) {
        Ok(ServerPacket::World(w)) => assert_eq!((w.pieces[0].x, w.pieces[0].y), (1, 1)),
        other => panic!("expected the applied move to broadcast, got {:?}", other),
    }
    // With the player's piece delayed, the scheduler resolves the enemy's
    // turn on its own.
    assert_eq!(server.world.next_character(), Some(0));
    server.world.characters[0].action_delay = 100;
    assert_eq!(server.tick().unwrap(), true);
}

#[test]
fn send_ping_and_recv_ping_stamp_liveness() {
    let mut server = server();
    let mut session = Session::new(0);
    assert_eq!(server.send_ping(&mut session, 7), Some(()));
    assert_eq!(session.last_ping, 7);
    server.recv_ping(&mut session, 11);
    assert_eq!(session.last_ping, 11);
    assert!(!session.timed_out(11 + TIMEOUT_MS));
    assert!(session.timed_out(12 + TIMEOUT_MS));
    let snapshot = server.send_world().unwrap();
    assert_eq!(snapshot.pieces.len(), 2);
}

#[test]
fn recv_action_applies_only_on_player_turns() {
    let mut server = server();
    // Ready piece is player-controlled: a legal wait applies.
    server.recv_action(Action::Wait(4)).unwrap();
    assert_eq!(server.world.characters[0].action_delay, 4);
    // When the ready piece is not player-controlled, actions are ignored.
    server.world.characters[0].action_delay = 100;
    server.recv_action(Action::Wait(4)).unwrap();
    assert_eq!(server.world.characters[1].action_delay, 50);
}
