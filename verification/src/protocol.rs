//! The two packet families of the wire protocol and their binary form.
//!
//! A payload is the self-describing encoding of exactly one packet: a tag
//! byte, then the variant's fields. Decoding accepts exactly the buffers
//! encoding produces — anything else, including a truncated or trailing
//! byte, is malformed — and never panics or reads out of bounds.

use vstd::prelude::*;
use crate::character::{Action, Alliance};
use crate::codec::{
    can_read, enc_bool, enc_bytes, enc_i32, enc_u32, enc_u64, lemma_rd_i32, lemma_rd_u32,
    lemma_rd_u64, put_bool, put_bytes, put_i32, put_u32, put_u64, rd_i32, rd_u32, rd_u64, take_i32,
    take_raw, take_u32, take_u64, take_u8,
};
use crate::world::Tile;
use crate::Error;

verus! {

/// What a client may authenticate as: presence, not a security boundary.
/// The username travels as UTF-8 bytes; presentation happens at the edge.
#[derive(Clone, Debug, PartialEq, Eq)]
pub struct ClientAuthentication {
    pub username: Vec<u8>,
}

/// A packet a client sends to the server.
#[derive(Clone, Debug, PartialEq, Eq)]
pub enum ClientPacket {
    /// Keepalive; the server replies in kind.
    Ping,
    /// An intent: the named piece should take this action.
    Action { actor: u64, action: Action },
    /// Presence authentication.
    Authenticate(ClientAuthentication),
    /// A routing token, reserved for multi-instance dispatch; unused here.
    Route(Vec<u8>),
}

/// The mathematical value of a client packet.
pub enum CPkt {
    Ping,
    Action(u64, Action),
    Authenticate(Seq<u8>),
    Route(Seq<u8>),
}

impl View for ClientPacket {
    type V = CPkt;

    open spec fn view(&self) -> CPkt {
        match self {
            ClientPacket::Ping => CPkt::Ping,
            ClientPacket::Action { actor, action } => CPkt::Action(*actor, *action),
            ClientPacket::Authenticate(a) => CPkt::Authenticate(a.username@),
            ClientPacket::Route(t) => CPkt::Route(t@),
        }
    }
}

/// One piece as a client sees it.
#[derive(Clone, Copy, Debug, PartialEq, Eq, Structural)]
pub struct PieceSnapshot {
    /// The piece's identity: its index in the world's arena.
    pub id: u64,
    pub x: i32,
    pub y: i32,
    pub hp: i32,
    pub sp: i32,
    pub action_delay: u64,
    pub player_controlled: bool,
    pub alliance: Alliance,
}

/// The read-only projection of the full simulation state sent to clients.
#[derive(Clone, Debug, PartialEq, Eq)]
pub struct WorldSnapshot {
    pub pieces: Vec<PieceSnapshot>,
    pub width: u32,
    pub height: u32,
    pub tiles: Vec<Tile>,
}

/// The mathematical value of a snapshot.
pub struct SnapModel {
    pub pieces: Seq<PieceSnapshot>,
    pub width: u32,
    pub height: u32,
    pub tiles: Seq<Tile>,
}

impl View for WorldSnapshot {
    type V = SnapModel;

    open spec fn view(&self) -> SnapModel {
        SnapModel { pieces: self.pieces@, width: self.width, height: self.height, tiles: self.tiles@ }
    }
}

/// A packet the server sends to a client.
#[derive(Clone, Debug, PartialEq, Eq)]
pub enum ServerPacket {
    /// Keepalive; the client replies in kind.
    Ping,
    /// A console line, as UTF-8 bytes.
    Message(Vec<u8>),
    /// A full world snapshot.
    World(WorldSnapshot),
}

/// The mathematical value of a server packet.
pub enum SPkt {
    Ping,
    Message(Seq<u8>),
    World(SnapModel),
}

impl View for ServerPacket {
    type V = SPkt;

    open spec fn view(&self) -> SPkt {
        match self {
            ServerPacket::Ping => SPkt::Ping,
            ServerPacket::Message(m) => SPkt::Message(m@),
            ServerPacket::World(w) => SPkt::World(w@),
        }
    }
}

// ---------------------------------------------------------------- encoders
/// One byte for which side a piece fights for.
pub open spec fn enc_alliance(a: Alliance) -> Seq<u8> {
    match a {
        Alliance::Friendly => seq![0u8],
        Alliance::Enemy => seq![1u8],
    }
}

/// The bytes of one action: a tag, then the variant's fields.
pub open spec fn enc_action(a: Action) -> Seq<u8> {
    match a {
        Action::Wait(t) => seq![0u8] + enc_u64(t),
        Action::Move(x, y) => seq![1u8] + enc_i32(x) + enc_i32(y),
        Action::Attack(i, x, y) => seq![2u8] + enc_u32(i) + enc_i32(x) + enc_i32(y),
        Action::Cast(i, x, y) => seq![3u8] + enc_u32(i) + enc_i32(x) + enc_i32(y),
    }
}

/// The bytes of one piece snapshot: a fixed-width record.
pub open spec fn enc_piece(p: PieceSnapshot) -> Seq<u8> {
    enc_u64(p.id) + enc_i32(p.x) + enc_i32(p.y) + enc_i32(p.hp) + enc_i32(p.sp) + enc_u64(
        p.action_delay,
    ) + enc_bool(p.player_controlled) + enc_alliance(p.alliance)
}

/// The width of one encoded piece record.
pub open spec fn piece_width() -> int {
    34
}

/// The bytes of a list of piece records, in order.
pub open spec fn enc_pieces(ps: Seq<PieceSnapshot>) -> Seq<u8>
    decreases ps.len(),
{
    if ps.len() == 0 {
        Seq::empty()
    } else {
        enc_piece(ps[0]) + enc_pieces(ps.skip(1))
    }
}

/// One byte for a tile.
pub open spec fn enc_tile(t: Tile) -> Seq<u8> {
    match t {
        Tile::Floor => seq![0u8],
        Tile::Wall => seq![1u8],
        Tile::Exit => seq![2u8],
    }
}

/// The bytes of a list of tiles, in order.
pub open spec fn enc_tiles(ts: Seq<Tile>) -> Seq<u8>
    decreases ts.len(),
{
    if ts.len() == 0 {
        Seq::empty()
    } else {
        enc_tile(ts[0]) + enc_tiles(ts.skip(1))
    }
}

/// The bytes of a snapshot: board size, then both counted lists.
pub open spec fn enc_snapshot(m: SnapModel) -> Seq<u8> {
    enc_u32(m.width) + enc_u32(m.height) + enc_u32(m.pieces.len() as u32) + enc_pieces(m.pieces)
        + enc_u32(m.tiles.len() as u32) + enc_tiles(m.tiles)
}

/// The payload bytes of a client packet.
pub open spec fn enc_cpkt(p: CPkt) -> Seq<u8> {
    match p {
        CPkt::Ping => seq![0u8],
        CPkt::Action(actor, a) => seq![1u8] + enc_u64(actor) + enc_action(a),
        CPkt::Authenticate(u) => seq![2u8] + enc_bytes(u),
        CPkt::Route(t) => seq![3u8] + enc_bytes(t),
    }
}

/// The payload bytes of a server packet.
pub open spec fn enc_spkt(p: SPkt) -> Seq<u8> {
    match p {
        SPkt::Ping => seq![0u8],
        SPkt::Message(m) => seq![1u8] + enc_bytes(m),
        SPkt::World(w) => seq![2u8] + enc_snapshot(w),
    }
}

/// The counted parts of a client packet fit their length prefixes, and
/// the whole payload fits a frame's length prefix.
pub open spec fn wf_cpkt(p: CPkt) -> bool {
    match p {
        CPkt::Ping => true,
        CPkt::Action(_, _) => true,
        CPkt::Authenticate(u) => u.len() + 5 <= u32::MAX,
        CPkt::Route(t) => t.len() + 5 <= u32::MAX,
    }
}

/// The counted parts of a server packet fit their length prefixes, and
/// the whole payload fits a frame's length prefix.
pub open spec fn wf_spkt(p: SPkt) -> bool {
    match p {
        SPkt::Ping => true,
        SPkt::Message(m) => m.len() + 5 <= u32::MAX,
        SPkt::World(w) => w.pieces.len() * piece_width() + w.tiles.len() + 21 <= u32::MAX,
    }
}

// ---------------------------------------------------------------- decoders
/// The action read at position `i`, with the next position.
pub open spec fn dp_action(s: Seq<u8>, i: int) -> Option<(Action, int)> {
    if !can_read(s, i, 1) {
        None
    } else {
        let tag = s[i];
        if tag == 0 {
            if can_read(s, i + 1, 8) {
                Some((Action::Wait(rd_u64(s, i + 1)), i + 9))
            } else {
                None
            }
        } else if tag == 1 {
            if can_read(s, i + 1, 8) {
                Some((Action::Move(rd_i32(s, i + 1), rd_i32(s, i + 5)), i + 9))
            } else {
                None
            }
        } else if tag == 2 {
            if can_read(s, i + 1, 12) {
                Some(
                    (Action::Attack(rd_u32(s, i + 1), rd_i32(s, i + 5), rd_i32(s, i + 9)), i + 13),
                )
            } else {
                None
            }
        } else if tag == 3 {
            if can_read(s, i + 1, 12) {
                Some((Action::Cast(rd_u32(s, i + 1), rd_i32(s, i + 5), rd_i32(s, i + 9)), i + 13))
            } else {
                None
            }
        } else {
            None
        }
    }
}

/// The counted byte string read at position `i`, with the next position.
pub open spec fn dp_bytes(s: Seq<u8>, i: int) -> Option<(Seq<u8>, int)> {
    if can_read(s, i, 4) {
        let n = rd_u32(s, i) as int;
        if can_read(s, i + 4, n) {
            Some((s.subrange(i + 4, i + 4 + n), i + 4 + n))
        } else {
            None
        }
    } else {
        None
    }
}

/// The flag read at position `i`; only the two flag bytes are accepted.
pub open spec fn dp_bool(s: Seq<u8>, i: int) -> Option<(bool, int)> {
    if can_read(s, i, 1) {
        if s[i] == 0 {
            Some((false, i + 1))
        } else if s[i] == 1 {
            Some((true, i + 1))
        } else {
            None
        }
    } else {
        None
    }
}

/// The alliance read at position `i`.
pub open spec fn dp_alliance(s: Seq<u8>, i: int) -> Option<(Alliance, int)> {
    if can_read(s, i, 1) {
        if s[i] == 0 {
            Some((Alliance::Friendly, i + 1))
        } else if s[i] == 1 {
            Some((Alliance::Enemy, i + 1))
        } else {
            None
        }
    } else {
        None
    }
}

/// The piece record read at position `i`.
pub open spec fn dp_piece(s: Seq<u8>, i: int) -> Option<(PieceSnapshot, int)> {
    if !can_read(s, i, piece_width()) {
        None
    } else {
        match dp_bool(s, i + 32) {
            Some((pc, _)) => match dp_alliance(s, i + 33) {
                Some((al, _)) => Some(
                    (
                        PieceSnapshot {
                            id: rd_u64(s, i),
                            x: rd_i32(s, i + 8),
                            y: rd_i32(s, i + 12),
                            hp: rd_i32(s, i + 16),
                            sp: rd_i32(s, i + 20),
                            action_delay: rd_u64(s, i + 24),
                            player_controlled: pc,
                            alliance: al,
                        },
                        i + piece_width(),
                    ),
                ),
                None => None,
            },
            None => None,
        }
    }
}

/// `n` piece records read at position `i`.
pub open spec fn dp_pieces(s: Seq<u8>, i: int, n: int) -> Option<(Seq<PieceSnapshot>, int)>
    decreases n,
{
    if n <= 0 {
        Some((Seq::empty(), i))
    } else {
        match dp_piece(s, i) {
            Some((p, j)) => match dp_pieces(s, j, n - 1) {
                Some((ps, end)) => Some((seq![p] + ps, end)),
                None => None,
            },
            None => None,
        }
    }
}

/// The tile read at position `i`.
pub open spec fn dp_tile(s: Seq<u8>, i: int) -> Option<(Tile, int)> {
    if can_read(s, i, 1) {
        if s[i] == 0 {
            Some((Tile::Floor, i + 1))
        } else if s[i] == 1 {
            Some((Tile::Wall, i + 1))
        } else if s[i] == 2 {
            Some((Tile::Exit, i + 1))
        } else {
            None
        }
    } else {
        None
    }
}

/// `n` tiles read at position `i`.
pub open spec fn dp_tiles(s: Seq<u8>, i: int, n: int) -> Option<(Seq<Tile>, int)>
    decreases n,
{
    if n <= 0 {
        Some((Seq::empty(), i))
    } else {
        match dp_tile(s, i) {
            Some((t, j)) => match dp_tiles(s, j, n - 1) {
                Some((ts, end)) => Some((seq![t] + ts, end)),
                None => None,
            },
            None => None,
        }
    }
}

/// The snapshot read at position `i`.
pub open spec fn dp_snapshot(s: Seq<u8>, i: int) -> Option<(SnapModel, int)> {
    if !can_read(s, i, 12) {
        None
    } else {
        let width = rd_u32(s, i);
        let height = rd_u32(s, i + 4);
        let n_pieces = rd_u32(s, i + 8) as int;
        match dp_pieces(s, i + 12, n_pieces) {
            Some((pieces, j)) => if can_read(s, j, 4) {
                let n_tiles = rd_u32(s, j) as int;
                match dp_tiles(s, j + 4, n_tiles) {
                    Some((tiles, end)) => Some((SnapModel { pieces, width, height, tiles }, end)),
                    None => None,
                }
            } else {
                None
            },
            None => None,
        }
    }
}

/// The client packet a whole payload holds, if it holds exactly one.
pub open spec fn dec_cpkt(s: Seq<u8>) -> Option<CPkt> {
    if s.len() < 1 {
        None
    } else {
        let tag = s[0];
        if tag == 0 {
            if s.len() == 1 {
                Some(CPkt::Ping)
            } else {
                None
            }
        } else if tag == 1 {
            if can_read(s, 1, 8) {
                match dp_action(s, 9) {
                    Some((a, end)) => if end == s.len() {
                        Some(CPkt::Action(rd_u64(s, 1), a))
                    } else {
                        None
                    },
                    None => None,
                }
            } else {
                None
            }
        } else if tag == 2 {
            match dp_bytes(s, 1) {
                Some((u, end)) => if end == s.len() {
                    Some(CPkt::Authenticate(u))
                } else {
                    None
                },
                None => None,
            }
        } else if tag == 3 {
            match dp_bytes(s, 1) {
                Some((t, end)) => if end == s.len() {
                    Some(CPkt::Route(t))
                } else {
                    None
                },
                None => None,
            }
        } else {
            None
        }
    }
}

/// The server packet a whole payload holds, if it holds exactly one.
pub open spec fn dec_spkt(s: Seq<u8>) -> Option<SPkt> {
    if s.len() < 1 {
        None
    } else {
        let tag = s[0];
        if tag == 0 {
            if s.len() == 1 {
                Some(SPkt::Ping)
            } else {
                None
            }
        } else if tag == 1 {
            match dp_bytes(s, 1) {
                Some((m, end)) => if end == s.len() {
                    Some(SPkt::Message(m))
                } else {
                    None
                },
                None => None,
            }
        } else if tag == 2 {
            match dp_snapshot(s, 1) {
                Some((w, end)) => if end == s.len() {
                    Some(SPkt::World(w))
                } else {
                    None
                },
                None => None,
            }
        } else {
            None
        }
    }
}

// ------------------------------------------------------------- round trips
/// Reading an action where its encoding was written yields it back.
pub proof fn lemma_dp_action_at(s: Seq<u8>, i: int, a: Action)
    requires
        0 <= i,
        i + enc_action(a).len() <= s.len(),
        s.subrange(i, i + enc_action(a).len()) == enc_action(a),
    ensures
        dp_action(s, i) == Some((a, i + enc_action(a).len())),
{
    let e = enc_action(a);
    let w = s.subrange(i, i + e.len());
    match a {
        Action::Wait(t) => {
            assert(s[i] == w[0]);
            assert(s.subrange(i + 1, i + 9) =~= w.subrange(1, 9));
            assert(w.subrange(1, 9) =~= enc_u64(t));
            lemma_rd_u64(s, i + 1, t);
        },
        Action::Move(x, y) => {
            assert(s[i] == w[0]);
            assert(s.subrange(i + 1, i + 5) =~= w.subrange(1, 5));
            assert(w.subrange(1, 5) =~= enc_i32(x));
            assert(s.subrange(i + 5, i + 9) =~= w.subrange(5, 9));
            assert(w.subrange(5, 9) =~= enc_i32(y));
            lemma_rd_i32(s, i + 1, x);
            lemma_rd_i32(s, i + 5, y);
        },
        Action::Attack(idx, x, y) => {
            assert(s[i] == w[0]);
            assert(s.subrange(i + 1, i + 5) =~= w.subrange(1, 5));
            assert(w.subrange(1, 5) =~= enc_u32(idx));
            assert(s.subrange(i + 5, i + 9) =~= w.subrange(5, 9));
            assert(w.subrange(5, 9) =~= enc_i32(x));
            assert(s.subrange(i + 9, i + 13) =~= w.subrange(9, 13));
            assert(w.subrange(9, 13) =~= enc_i32(y));
            lemma_rd_u32(s, i + 1, idx);
            lemma_rd_i32(s, i + 5, x);
            lemma_rd_i32(s, i + 9, y);
        },
        Action::Cast(idx, x, y) => {
            assert(s[i] == w[0]);
            assert(s.subrange(i + 1, i + 5) =~= w.subrange(1, 5));
            assert(w.subrange(1, 5) =~= enc_u32(idx));
            assert(s.subrange(i + 5, i + 9) =~= w.subrange(5, 9));
            assert(w.subrange(5, 9) =~= enc_i32(x));
            assert(s.subrange(i + 9, i + 13) =~= w.subrange(9, 13));
            assert(w.subrange(9, 13) =~= enc_i32(y));
            lemma_rd_u32(s, i + 1, idx);
            lemma_rd_i32(s, i + 5, x);
            lemma_rd_i32(s, i + 9, y);
        },
    }
}

/// Reading a counted byte string where its encoding was written yields it
/// back.
pub proof fn lemma_dp_bytes_at(s: Seq<u8>, i: int, b: Seq<u8>)
    requires
        0 <= i,
        b.len() <= u32::MAX,
        i + 4 + b.len() <= s.len(),
        s.subrange(i, i + 4 + b.len()) == enc_bytes(b),
    ensures
        dp_bytes(s, i) == Some((b, i + 4 + b.len())),
{
    let w = s.subrange(i, i + 4 + b.len());
    assert(s.subrange(i, i + 4) =~= w.subrange(0, 4));
    assert(w.subrange(0, 4) =~= enc_u32(b.len() as u32));
    lemma_rd_u32(s, i, b.len() as u32);
    assert(s.subrange(i + 4, i + 4 + b.len()) =~= w.subrange(4, 4 + b.len() as int));
    assert(w.subrange(4, 4 + b.len() as int) =~= b);
}

/// Reading a piece record where its encoding was written yields it back.
pub proof fn lemma_dp_piece_at(s: Seq<u8>, i: int, p: PieceSnapshot)
    requires
        0 <= i,
        i + piece_width() <= s.len(),
        s.subrange(i, i + piece_width()) == enc_piece(p),
    ensures
        dp_piece(s, i) == Some((p, i + piece_width())),
{
    let w = s.subrange(i, i + piece_width());
    assert(s.subrange(i, i + 8) =~= w.subrange(0, 8));
    assert(w.subrange(0, 8) =~= enc_u64(p.id));
    lemma_rd_u64(s, i, p.id);
    assert(s.subrange(i + 8, i + 12) =~= w.subrange(8, 12));
    assert(w.subrange(8, 12) =~= enc_i32(p.x));
    lemma_rd_i32(s, i + 8, p.x);
    assert(s.subrange(i + 12, i + 16) =~= w.subrange(12, 16));
    assert(w.subrange(12, 16) =~= enc_i32(p.y));
    lemma_rd_i32(s, i + 12, p.y);
    assert(s.subrange(i + 16, i + 20) =~= w.subrange(16, 20));
    assert(w.subrange(16, 20) =~= enc_i32(p.hp));
    lemma_rd_i32(s, i + 16, p.hp);
    assert(s.subrange(i + 20, i + 24) =~= w.subrange(20, 24));
    assert(w.subrange(20, 24) =~= enc_i32(p.sp));
    lemma_rd_i32(s, i + 20, p.sp);
    assert(s.subrange(i + 24, i + 32) =~= w.subrange(24, 32));
    assert(w.subrange(24, 32) =~= enc_u64(p.action_delay));
    lemma_rd_u64(s, i + 24, p.action_delay);
    assert(s[i + 32] == w[32]);
    assert(s[i + 33] == w[33]);
}

/// The length of an encoded piece list.
pub proof fn lemma_enc_pieces_len(ps: Seq<PieceSnapshot>)
    ensures
        enc_pieces(ps).len() == piece_width() * ps.len(),
    decreases ps.len(),
{
    if ps.len() == 0 {
    } else {
        lemma_enc_pieces_len(ps.skip(1));
    }
}

/// Reading `n` piece records where their encoding was written yields them
/// back.
pub proof fn lemma_dp_pieces_at(s: Seq<u8>, i: int, ps: Seq<PieceSnapshot>)
    requires
        0 <= i,
        i + piece_width() * ps.len() <= s.len(),
        s.subrange(i, i + piece_width() * ps.len()) == enc_pieces(ps),
    ensures
        dp_pieces(s, i, ps.len() as int) == Some((ps, i + piece_width() * ps.len())),
    decreases ps.len(),
{
    if ps.len() == 0 {
        assert(dp_pieces(s, i, 0) == Some((Seq::<PieceSnapshot>::empty(), i)));
        assert(ps =~= Seq::<PieceSnapshot>::empty());
    } else {
        let rest = ps.skip(1);
        lemma_enc_pieces_len(rest);
        let w = s.subrange(i, i + piece_width() * ps.len());
        assert(w == enc_piece(ps[0]) + enc_pieces(rest));
        assert(s.subrange(i, i + piece_width()) =~= w.subrange(0, piece_width()));
        assert(w.subrange(0, piece_width()) =~= enc_piece(ps[0]));
        lemma_dp_piece_at(s, i, ps[0]);
        assert(s.subrange(i + piece_width(), i + piece_width() * ps.len()) =~= w.subrange(
            piece_width(),
            piece_width() * ps.len(),
        ));
        assert(w.subrange(piece_width(), piece_width() * ps.len()) =~= enc_pieces(rest));
        lemma_dp_pieces_at(s, i + piece_width(), rest);
        assert(seq![ps[0]] + rest =~= ps);
    }
}

/// The length of an encoded tile list.
pub proof fn lemma_enc_tiles_len(ts: Seq<Tile>)
    ensures
        enc_tiles(ts).len() == ts.len(),
    decreases ts.len(),
{
    if ts.len() == 0 {
    } else {
        lemma_enc_tiles_len(ts.skip(1));
    }
}

/// Reading `n` tiles where their encoding was written yields them back.
pub proof fn lemma_dp_tiles_at(s: Seq<u8>, i: int, ts: Seq<Tile>)
    requires
        0 <= i,
        i + ts.len() <= s.len(),
        s.subrange(i, i + ts.len()) == enc_tiles(ts),
    ensures
        dp_tiles(s, i, ts.len() as int) == Some((ts, i + ts.len())),
    decreases ts.len(),
{
    if ts.len() == 0 {
        assert(ts =~= Seq::<Tile>::empty());
    } else {
        let rest = ts.skip(1);
        lemma_enc_tiles_len(rest);
        let w = s.subrange(i, i + ts.len());
        assert(w == enc_tile(ts[0]) + enc_tiles(rest));
        assert(s[i] == w[0]);
        assert(s.subrange(i + 1, i + ts.len()) =~= w.subrange(1, ts.len() as int));
        assert(w.subrange(1, ts.len() as int) =~= enc_tiles(rest));
        lemma_dp_tiles_at(s, i + 1, rest);
        assert(seq![ts[0]] + rest =~= ts);
    }
}

/// Reading a snapshot where its encoding was written yields it back.
pub proof fn lemma_dp_snapshot_at(s: Seq<u8>, i: int, m: SnapModel)
    requires
        0 <= i,
        m.pieces.len() * piece_width() + m.tiles.len() + 20 <= u32::MAX,
        i + enc_snapshot(m).len() <= s.len(),
        s.subrange(i, i + enc_snapshot(m).len()) == enc_snapshot(m),
    ensures
        dp_snapshot(s, i) == Some((m, i + enc_snapshot(m).len())),
{
    lemma_enc_pieces_len(m.pieces);
    lemma_enc_tiles_len(m.tiles);
    let e = enc_snapshot(m);
    let w = s.subrange(i, i + e.len());
    let np = m.pieces.len() as int;
    let nt = m.tiles.len() as int;
    let pw = piece_width();
    assert(e.len() == 12 + pw * np + 4 + nt);
    assert(s.subrange(i, i + 4) =~= w.subrange(0, 4));
    assert(w.subrange(0, 4) =~= enc_u32(m.width));
    lemma_rd_u32(s, i, m.width);
    assert(s.subrange(i + 4, i + 8) =~= w.subrange(4, 8));
    assert(w.subrange(4, 8) =~= enc_u32(m.height));
    lemma_rd_u32(s, i + 4, m.height);
    assert(s.subrange(i + 8, i + 12) =~= w.subrange(8, 12));
    assert(w.subrange(8, 12) =~= enc_u32(m.pieces.len() as u32));
    lemma_rd_u32(s, i + 8, m.pieces.len() as u32);
    assert(s.subrange(i + 12, i + 12 + pw * np) =~= w.subrange(12, 12 + pw * np));
    assert(w.subrange(12, 12 + pw * np) =~= enc_pieces(m.pieces));
    lemma_dp_pieces_at(s, i + 12, m.pieces);
    let j = i + 12 + pw * np;
    assert(s.subrange(j, j + 4) =~= w.subrange(12 + pw * np, 16 + pw * np));
    assert(w.subrange(12 + pw * np, 16 + pw * np) =~= enc_u32(m.tiles.len() as u32));
    lemma_rd_u32(s, j, m.tiles.len() as u32);
    assert(s.subrange(j + 4, j + 4 + nt) =~= w.subrange(16 + pw * np, 16 + pw * np + nt));
    assert(w.subrange(16 + pw * np, 16 + pw * np + nt) =~= enc_tiles(m.tiles));
    lemma_dp_tiles_at(s, j + 4, m.tiles);
}

// ------------------------------------------------------------------- exec
/// Appends the bytes of one action.
fn encode_action(out: &mut Vec<u8>, a: &Action)
    ensures
        final(out)@ == old(out)@ + enc_action(*a),
{
    match a {
        Action::Wait(t) => {
            out.push(0);
            put_u64(out, *t);
        },
        Action::Move(x, y) => {
            out.push(1);
            put_i32(out, *x);
            put_i32(out, *y);
        },
        Action::Attack(i, x, y) => {
            out.push(2);
            put_u32(out, *i);
            put_i32(out, *x);
            put_i32(out, *y);
        },
        Action::Cast(i, x, y) => {
            out.push(3);
            put_u32(out, *i);
            put_i32(out, *x);
            put_i32(out, *y);
        },
    }
    assert(out@ =~= old(out)@ + enc_action(*a));
}

/// Encodes one client packet into a self-contained payload, with no
/// framing.
pub fn encode_client(p: &ClientPacket) -> (r: Vec<u8>)
    requires
        wf_cpkt(p@),
    ensures
        r@ == enc_cpkt(p@),
{
    let mut out: Vec<u8> = Vec::new();
    match p {
        ClientPacket::Ping => {
            out.push(0);
        },
        ClientPacket::Action { actor, action } => {
            out.push(1);
            put_u64(&mut out, *actor);
            encode_action(&mut out, action);
        },
        ClientPacket::Authenticate(a) => {
            out.push(2);
            put_bytes(&mut out, &a.username);
        },
        ClientPacket::Route(t) => {
            out.push(3);
            put_bytes(&mut out, t);
        },
    }
    assert(out@ =~= enc_cpkt(p@));
    out
}

/// Appends the fixed-width record of one piece snapshot.
fn encode_piece(out: &mut Vec<u8>, p: &PieceSnapshot)
    ensures
        final(out)@ == old(out)@ + enc_piece(*p),
{
    put_u64(out, p.id);
    put_i32(out, p.x);
    put_i32(out, p.y);
    put_i32(out, p.hp);
    put_i32(out, p.sp);
    put_u64(out, p.action_delay);
    put_bool(out, p.player_controlled);
    out.push(match p.alliance {
        Alliance::Friendly => 0,
        Alliance::Enemy => 1,
    });
    assert(out@ =~= old(out)@ + enc_piece(*p));
}

/// Every piece list prefix encodes as the shorter prefix plus one record.
proof fn lemma_enc_pieces_push(ps: Seq<PieceSnapshot>, p: PieceSnapshot)
    ensures
        enc_pieces(ps.push(p)) == enc_pieces(ps) + enc_piece(p),
    decreases ps.len(),
{
    if ps.len() == 0 {
        assert(ps.push(p).skip(1) =~= Seq::<PieceSnapshot>::empty());
        assert(enc_pieces(ps.push(p)) == enc_piece(ps.push(p)[0]) + enc_pieces(
            ps.push(p).skip(1),
        ));
        assert(enc_pieces(Seq::<PieceSnapshot>::empty()) == Seq::<u8>::empty());
        assert(enc_pieces(ps.push(p)) =~= enc_pieces(ps) + enc_piece(p));
    } else {
        assert(ps.push(p).skip(1) =~= ps.skip(1).push(p));
        lemma_enc_pieces_push(ps.skip(1), p);
        assert(enc_pieces(ps.push(p)) =~= enc_pieces(ps) + enc_piece(p));
    }
}

/// Every tile list prefix encodes as the shorter prefix plus one byte.
proof fn lemma_enc_tiles_push(ts: Seq<Tile>, t: Tile)
    ensures
        enc_tiles(ts.push(t)) == enc_tiles(ts) + enc_tile(t),
    decreases ts.len(),
{
    if ts.len() == 0 {
        assert(ts.push(t).skip(1) =~= Seq::<Tile>::empty());
        assert(enc_tiles(ts.push(t)) == enc_tile(ts.push(t)[0]) + enc_tiles(ts.push(t).skip(1)));
        assert(enc_tiles(Seq::<Tile>::empty()) == Seq::<u8>::empty());
        assert(enc_tiles(ts.push(t)) =~= enc_tiles(ts) + enc_tile(t));
    } else {
        assert(ts.push(t).skip(1) =~= ts.skip(1).push(t));
        lemma_enc_tiles_push(ts.skip(1), t);
        assert(enc_tiles(ts.push(t)) =~= enc_tiles(ts) + enc_tile(t));
    }
}

/// Appends the bytes of a snapshot.
fn encode_snapshot(out: &mut Vec<u8>, w: &WorldSnapshot)
    requires
        w.pieces@.len() <= u32::MAX,
        w.tiles@.len() <= u32::MAX,
    ensures
        final(out)@ == old(out)@ + enc_snapshot(w@),
{
    put_u32(out, w.width);
    put_u32(out, w.height);
    put_u32(out, w.pieces.len() as u32);
    let mut k: usize = 0;
    assert(w.pieces@.take(0) =~= Seq::<PieceSnapshot>::empty());
    while k < w.pieces.len()
        invariant
            k <= w.pieces@.len(),
            out@ == old(out)@ + enc_u32(w@.width) + enc_u32(w@.height) + enc_u32(
                w.pieces@.len() as u32,
            ) + enc_pieces(w.pieces@.take(k as int)),
        decreases w.pieces@.len() - k,
    {
        proof {
            lemma_enc_pieces_push(w.pieces@.take(k as int), w.pieces@[k as int]);
            assert(w.pieces@.take(k + 1) =~= w.pieces@.take(k as int).push(w.pieces@[k as int]));
        }
        let piece = w.pieces[k];
        encode_piece(out, &piece);
        k = k + 1;
    }
    assert(w.pieces@.take(k as int) =~= w.pieces@);
    put_u32(out, w.tiles.len() as u32);
    let ghost mid = out@;
    let mut k: usize = 0;
    assert(w.tiles@.take(0) =~= Seq::<Tile>::empty());
    while k < w.tiles.len()
        invariant
            k <= w.tiles@.len(),
            out@ == mid + enc_tiles(w.tiles@.take(k as int)),
        decreases w.tiles@.len() - k,
    {
        proof {
            lemma_enc_tiles_push(w.tiles@.take(k as int), w.tiles@[k as int]);
            assert(w.tiles@.take(k + 1) =~= w.tiles@.take(k as int).push(w.tiles@[k as int]));
        }
        let tile = w.tiles[k];
        out.push(
            match tile {
                Tile::Floor => 0,
                Tile::Wall => 1,
                Tile::Exit => 2,
            },
        );
        assert(out@ =~= mid + enc_tiles(w.tiles@.take(k as int)) + enc_tile(w.tiles@[k as int]));
        assert(out@ =~= mid + enc_tiles(w.tiles@.take(k + 1)));
        k = k + 1;
    }
    assert(w.tiles@.take(k as int) =~= w.tiles@);
    assert(out@ =~= old(out)@ + enc_snapshot(w@));
}

/// Encodes one server packet into a self-contained payload, with no
/// framing.
pub fn encode_server(p: &ServerPacket) -> (r: Vec<u8>)
    requires
        wf_spkt(p@),
    ensures
        r@ == enc_spkt(p@),
{
    let mut out: Vec<u8> = Vec::new();
    match p {
        ServerPacket::Ping => {
            out.push(0);
        },
        ServerPacket::Message(m) => {
            out.push(1);
            put_bytes(&mut out, m);
        },
        ServerPacket::World(w) => {
            out.push(2);
            proof {
                lemma_enc_pieces_len(w.pieces@);
                lemma_enc_tiles_len(w.tiles@);
            }
            encode_snapshot(&mut out, w);
        },
    }
    assert(out@ =~= enc_spkt(p@));
    out
}

/// Reads the action at `i`, handing back the next position.
fn take_action(buf: &Vec<u8>, i: usize) -> (r: Option<(Action, usize)>)
    ensures
        match r {
            Some((a, next)) => dp_action(buf@, i as int) == Some((a, next as int)),
            None => dp_action(buf@, i as int) is None,
        },
{
    let (tag, next) = match take_u8(buf, i) {
        Some(v) => v,
        None => {
            return None;
        },
    };
    if tag == 0 {
        match take_u64(buf, next) {
            Some((t, end)) => Some((Action::Wait(t), end)),
            None => None,
        }
    } else if tag == 1 {
        let (x, j) = match take_i32(buf, next) {
            Some(v) => v,
            None => {
                return None;
            },
        };
        match take_i32(buf, j) {
            Some((y, end)) => Some((Action::Move(x, y), end)),
            None => None,
        }
    } else if tag == 2 {
        let (idx, j) = match take_u32(buf, next) {
            Some(v) => v,
            None => {
                return None;
            },
        };
        let (x, j2) = match take_i32(buf, j) {
            Some(v) => v,
            None => {
                return None;
            },
        };
        match take_i32(buf, j2) {
            Some((y, end)) => Some((Action::Attack(idx, x, y), end)),
            None => None,
        }
    } else if tag == 3 {
        let (idx, j) = match take_u32(buf, next) {
            Some(v) => v,
            None => {
                return None;
            },
        };
        let (x, j2) = match take_i32(buf, j) {
            Some(v) => v,
            None => {
                return None;
            },
        };
        match take_i32(buf, j2) {
            Some((y, end)) => Some((Action::Cast(idx, x, y), end)),
            None => None,
        }
    } else {
        None
    }
}

/// Reads the counted byte string at `i`, handing back the next position.
fn take_bytes(buf: &Vec<u8>, i: usize) -> (r: Option<(Vec<u8>, usize)>)
    ensures
        match r {
            Some((b, next)) => dp_bytes(buf@, i as int) == Some((b@, next as int)),
            None => dp_bytes(buf@, i as int) is None,
        },
{
    let (n, j) = match take_u32(buf, i) {
        Some(v) => v,
        None => {
            return None;
        },
    };
    match take_raw(buf, j, n as usize) {
        Some((b, end)) => Some((b, end)),
        None => None,
    }
}

/// Decodes a whole payload as one client packet. Fails with
/// [`Error::Malformed`] on every buffer `encode_client` cannot produce,
/// including truncated, oversized, corrupted, or trailing-byte buffers.
pub fn decode_client(buf: &Vec<u8>) -> (r: Result<ClientPacket, Error>)
    ensures
        match dec_cpkt(buf@) {
            Some(m) => r matches Ok(p) && p@ == m,
            None => r matches Err(e) && e == Error::Malformed,
        },
{
    let (tag, next) = match take_u8(buf, 0) {
        Some(v) => v,
        None => {
            return Err(Error::Malformed);
        },
    };
    if tag == 0 {
        if buf.len() == 1 {
            Ok(ClientPacket::Ping)
        } else {
            Err(Error::Malformed)
        }
    } else if tag == 1 {
        let (actor, j) = match take_u64(buf, next) {
            Some(v) => v,
            None => {
                return Err(Error::Malformed);
            },
        };
        match take_action(buf, j) {
            Some((action, end)) => {
                if end == buf.len() {
                    Ok(ClientPacket::Action { actor, action })
                } else {
                    Err(Error::Malformed)
                }
            },
            None => Err(Error::Malformed),
        }
    } else if tag == 2 {
        match take_bytes(buf, next) {
            Some((username, end)) => {
                if end == buf.len() {
                    Ok(ClientPacket::Authenticate(ClientAuthentication { username }))
                } else {
                    Err(Error::Malformed)
                }
            },
            None => Err(Error::Malformed),
        }
    } else if tag == 3 {
        match take_bytes(buf, next) {
            Some((token, end)) => {
                if end == buf.len() {
                    Ok(ClientPacket::Route(token))
                } else {
                    Err(Error::Malformed)
                }
            },
            None => Err(Error::Malformed),
        }
    } else {
        Err(Error::Malformed)
    }
}

/// Reads the piece record at `i`, handing back the next position.
fn take_piece(buf: &Vec<u8>, i: usize) -> (r: Option<(PieceSnapshot, usize)>)
    ensures
        match r {
            Some((p, next)) => dp_piece(buf@, i as int) == Some((p, next as int)),
            None => dp_piece(buf@, i as int) is None,
        },
{
    if buf.len() < 34 || i > buf.len() - 34 {
        return None;
    }
    let (id, j) = match take_u64(buf, i) {
        Some(v) => v,
        None => {
            return None;
        },
    };
    let (x, j) = match take_i32(buf, j) {
        Some(v) => v,
        None => {
            return None;
        },
    };
    let (y, j) = match take_i32(buf, j) {
        Some(v) => v,
        None => {
            return None;
        },
    };
    let (hp, j) = match take_i32(buf, j) {
        Some(v) => v,
        None => {
            return None;
        },
    };
    let (sp, j) = match take_i32(buf, j) {
        Some(v) => v,
        None => {
            return None;
        },
    };
    let (action_delay, j) = match take_u64(buf, j) {
        Some(v) => v,
        None => {
            return None;
        },
    };
    let (pc_byte, j) = match take_u8(buf, j) {
        Some(v) => v,
        None => {
            return None;
        },
    };
    let player_controlled = if pc_byte == 0 {
        false
    } else if pc_byte == 1 {
        true
    } else {
        return None;
    };
    let (al_byte, j) = match take_u8(buf, j) {
        Some(v) => v,
        None => {
            return None;
        },
    };
    let alliance = if al_byte == 0 {
        Alliance::Friendly
    } else if al_byte == 1 {
        Alliance::Enemy
    } else {
        return None;
    };
    Some((PieceSnapshot { id, x, y, hp, sp, action_delay, player_controlled, alliance }, j))
}

/// Reads the snapshot at `i`, handing back the next position.
#[verifier::loop_isolation(false)]
fn take_snapshot(buf: &Vec<u8>, i: usize) -> (r: Option<(WorldSnapshot, usize)>)
    ensures
        match r {
            Some((w, next)) => dp_snapshot(buf@, i as int) == Some((w@, next as int)),
            None => dp_snapshot(buf@, i as int) is None,
        },
{
    let (width, j) = match take_u32(buf, i) {
        Some(v) => v,
        None => {
            return None;
        },
    };
    let (height, j) = match take_u32(buf, j) {
        Some(v) => v,
        None => {
            return None;
        },
    };
    let (n_pieces, j) = match take_u32(buf, j) {
        Some(v) => v,
        None => {
            return None;
        },
    };
    let ghost start = j as int;
    let ghost n = n_pieces as int;
    let mut pieces: Vec<PieceSnapshot> = Vec::new();
    let mut cur: usize = j;
    let mut k: usize = 0;
    while k < n_pieces as usize
        invariant
            k <= n,
            n == n_pieces as int,
            dp_pieces(buf@, start, n) == match dp_pieces(buf@, cur as int, n - k) {
                Some((rest, end)) => Some((pieces@ + rest, end)),
                None => None::<(Seq<PieceSnapshot>, int)>,
            },
            pieces@.len() == k,
        decreases n - k,
    {
        match take_piece(buf, cur) {
            Some((p, next)) => {
                proof {
                    let m = n - k;
                    assert(dp_pieces(buf@, cur as int, m) == match dp_pieces(
                        buf@,
                        next as int,
                        m - 1,
                    ) {
                        Some((ps, end)) => Some((seq![p] + ps, end)),
                        None => None::<(Seq<PieceSnapshot>, int)>,
                    });
                    if dp_pieces(buf@, next as int, m - 1) is Some {
                        let (rest, end) = dp_pieces(buf@, next as int, m - 1).unwrap();
                        assert(pieces@ + (seq![p] + rest) =~= pieces@.push(p) + rest);
                    }
                }
                pieces.push(p);
                cur = next;
            },
            None => {
                proof {
                    assert(dp_pieces(buf@, cur as int, n - k) is None);
                    assert(dp_pieces(buf@, start, n) is None);
                    assert(dp_snapshot(buf@, i as int) is None);
                }
                return None;
            },
        }
        k = k + 1;
    }
    proof {
        assert(dp_pieces(buf@, cur as int, 0) == Some((Seq::<PieceSnapshot>::empty(), cur as int)));
        assert(pieces@ + Seq::<PieceSnapshot>::empty() =~= pieces@);
    }
    let (n_tiles, j2) = match take_u32(buf, cur) {
        Some(v) => v,
        None => {
            proof {
                assert(dp_snapshot(buf@, i as int) is None);
            }
            return None;
        },
    };
    let ghost tstart = j2 as int;
    let ghost tn = n_tiles as int;
    let mut tiles: Vec<Tile> = Vec::new();
    let mut tcur: usize = j2;
    let mut k2: usize = 0;
    while k2 < n_tiles as usize
        invariant
            k2 <= tn,
            tn == n_tiles as int,
            dp_tiles(buf@, tstart, tn) == match dp_tiles(buf@, tcur as int, tn - k2) {
                Some((rest, end)) => Some((tiles@ + rest, end)),
                None => None::<(Seq<Tile>, int)>,
            },
            tiles@.len() == k2,
        decreases tn - k2,
    {
        let (b, next) = match take_u8(buf, tcur) {
            Some(v) => v,
            None => {
                proof {
                    assert(dp_tile(buf@, tcur as int) is None);
                    assert(dp_tiles(buf@, tcur as int, tn - k2) is None);
                    assert(dp_tiles(buf@, tstart, tn) is None);
                    assert(dp_snapshot(buf@, i as int) is None);
                }
                return None;
            },
        };
        let t = if b == 0 {
            Tile::Floor
        } else if b == 1 {
            Tile::Wall
        } else if b == 2 {
            Tile::Exit
        } else {
            proof {
                assert(dp_tile(buf@, tcur as int) is None);
                assert(dp_tiles(buf@, tcur as int, tn - k2) is None);
                assert(dp_tiles(buf@, tstart, tn) is None);
                assert(dp_snapshot(buf@, i as int) is None);
            }
            return None;
        };
        proof {
            let m = tn - k2;
            assert(dp_tiles(buf@, tcur as int, m) == match dp_tiles(buf@, tcur + 1, m - 1) {
                Some((ts, end)) => Some((seq![t] + ts, end)),
                None => None::<(Seq<Tile>, int)>,
            });
            if dp_tiles(buf@, tcur + 1, m - 1) is Some {
                let (rest, end) = dp_tiles(buf@, tcur + 1, m - 1).unwrap();
                assert(tiles@ + (seq![t] + rest) =~= tiles@.push(t) + rest);
            }
        }
        tiles.push(t);
        tcur = next;
        k2 = k2 + 1;
    }
    proof {
        assert(dp_tiles(buf@, tcur as int, 0) == Some((Seq::<Tile>::empty(), tcur as int)));
        assert(tiles@ + Seq::<Tile>::empty() =~= tiles@);
    }
    Some((WorldSnapshot { pieces, width, height, tiles }, tcur))
}

/// Decodes a whole payload as one server packet. Fails with
/// [`Error::Malformed`] on every buffer `encode_server` cannot produce.
pub fn decode_server(buf: &Vec<u8>) -> (r: Result<ServerPacket, Error>)
    ensures
        match dec_spkt(buf@) {
            Some(m) => r matches Ok(p) && p@ == m,
            None => r matches Err(e) && e == Error::Malformed,
        },
{
    let (tag, next) = match take_u8(buf, 0) {
        Some(v) => v,
        None => {
            return Err(Error::Malformed);
        },
    };
    if tag == 0 {
        if buf.len() == 1 {
            Ok(ServerPacket::Ping)
        } else {
            Err(Error::Malformed)
        }
    } else if tag == 1 {
        match take_bytes(buf, next) {
            Some((m, end)) => {
                if end == buf.len() {
                    Ok(ServerPacket::Message(m))
                } else {
                    Err(Error::Malformed)
                }
            },
            None => Err(Error::Malformed),
        }
    } else if tag == 2 {
        match take_snapshot(buf, next) {
            Some((w, end)) => {
                if end == buf.len() {
                    Ok(ServerPacket::World(w))
                } else {
                    Err(Error::Malformed)
                }
            },
            None => Err(Error::Malformed),
        }
    } else {
        Err(Error::Malformed)
    }
}

/// Decoding undoes encoding, for every client packet.
pub proof fn lemma_client_round_trip(p: CPkt)
    requires
        wf_cpkt(p),
    ensures
        dec_cpkt(enc_cpkt(p)) == Some(p),
{
    let s = enc_cpkt(p);
    match p {
        CPkt::Ping => {},
        CPkt::Action(actor, a) => {
            assert(s.subrange(1, 9) =~= enc_u64(actor));
            lemma_rd_u64(s, 1, actor);
            assert(s.subrange(9, 9 + enc_action(a).len() as int) =~= enc_action(a));
            lemma_dp_action_at(s, 9, a);
        },
        CPkt::Authenticate(u) => {
            assert(s.subrange(1, 5 + u.len() as int) =~= enc_bytes(u));
            lemma_dp_bytes_at(s, 1, u);
        },
        CPkt::Route(t) => {
            assert(s.subrange(1, 5 + t.len() as int) =~= enc_bytes(t));
            lemma_dp_bytes_at(s, 1, t);
        },
    }
}

/// Decoding undoes encoding, for every server packet.
pub proof fn lemma_server_round_trip(p: SPkt)
    requires
        wf_spkt(p),
    ensures
        dec_spkt(enc_spkt(p)) == Some(p),
{
    let s = enc_spkt(p);
    match p {
        SPkt::Ping => {},
        SPkt::Message(m) => {
            assert(s.subrange(1, 5 + m.len() as int) =~= enc_bytes(m));
            lemma_dp_bytes_at(s, 1, m);
        },
        SPkt::World(w) => {
            assert(s.subrange(1, 1 + enc_snapshot(w).len() as int) =~= enc_snapshot(w));
            lemma_dp_snapshot_at(s, 1, w);
        },
    }
}

} // verus!
