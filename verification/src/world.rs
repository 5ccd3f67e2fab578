//! The simulation: the board, the arena of pieces, the turn scheduler,
//! and the consideration engine for non-player turns.
//!
//! The world alone owns piece storage; every cross-reference is an index
//! into its arena. All mutation flows through [`World::perform_action`],
//! one single application path shared by player actions and synthesized
//! ones.

use vstd::prelude::*;
use crate::character::{
    find_entry, piece_scope_spec, piece_stats_spec, sat_add_u32, same_but_pools_and_statuses,
    sheet_stats_ok, sheet_stats_spec, Action, Piece, StatusEntry,
};
use crate::consider::{
    choose_spec, consider_model, lemma_models_push, models_of, Consider, Considerations,
    DecisionPolicy, Heuristic,
};
use crate::expression::eval_spec;
use crate::resources::{Attack, Catalog};
use crate::spell::{affinity_spec, Affinity, Parameters, Spell};
use crate::status::{clamp_u32, Duration, Effect};
use crate::Error;
use crate::TURN;

verus! {

/// One square of the board.
#[derive(Clone, Copy, Debug, PartialEq, Eq, Structural)]
pub enum Tile {
    Floor,
    Wall,
    Exit,
}

impl Tile {
    /// Whether a piece may stand on this square.
    pub open spec fn walkable(self) -> bool {
        self !== Tile::Wall
    }
}

/// The board: a rectangle of tiles, row by row.
#[derive(Clone, Debug)]
pub struct Floor {
    pub width: usize,
    pub height: usize,
    pub tiles: Vec<Tile>,
}

impl Floor {
    pub open spec fn wf(self) -> bool {
        self.tiles@.len() == self.width * self.height
    }

    pub open spec fn in_bounds(self, x: int, y: int) -> bool {
        0 <= x < self.width && 0 <= y < self.height
    }

    /// The tile at `(x, y)`.
    pub open spec fn tile_spec(self, x: int, y: int) -> Tile
        recommends
            self.wf(),
            self.in_bounds(x, y),
    {
        self.tiles@[y * self.width + x]
    }

    /// The tile at `(x, y)`, or nothing outside the board.
    pub fn get(&self, x: i32, y: i32) -> (r: Option<Tile>)
        requires
            self.wf(),
        ensures
            match r {
                Some(t) => self.in_bounds(x as int, y as int) && t == self.tile_spec(
                    x as int,
                    y as int,
                ),
                None => !self.in_bounds(x as int, y as int),
            },
    {
        if x < 0 || y < 0 {
            return None;
        }
        let xu = x as usize;
        let yu = y as usize;
        if xu >= self.width || yu >= self.height {
            return None;
        }
        let n = self.tiles.len();
        proof {
            assert((yu as int) * (self.width as int) + xu < (self.width as int) * (self.height
                as int)) by (nonlinear_arith)
                requires
                    0 <= xu < self.width,
                    0 <= yu < self.height,
            ;
            assert((yu as int) * (self.width as int) >= 0) by (nonlinear_arith)
                requires
                    yu >= 0,
                    self.width >= 0,
            ;
            assert((yu as int) * (self.width as int) + xu < n);
        }
        Some(self.tiles[yu * self.width + xu])
    }
}

/// Saturating addition on `u64`.
pub open spec fn sat_add_u64(a: u64, b: u64) -> u64 {
    if a + b > u64::MAX {
        u64::MAX
    } else {
        (a + b) as u64
    }
}

/// The sign of `a`, as a step of at most one square.
pub open spec fn sgn(a: int) -> int {
    if a > 0 {
        1
    } else if a < 0 {
        -1
    } else {
        0
    }
}

/// Chebyshev adjacency: the two squares differ and are within one step.
pub open spec fn adjacent(x: int, y: int, tx: int, ty: int) -> bool {
    &&& !(x == tx && y == ty)
    &&& -1 <= tx - x <= 1
    &&& -1 <= ty - y <= 1
}

/// Index of the first living piece other than `actor` standing on
/// `(x, y)`, if any.
pub open spec fn target_at(chars: Seq<Piece>, actor: int, x: int, y: int) -> Option<int>
    decreases chars.len(),
{
    if chars.len() == 0 {
        None
    } else if actor != 0 && chars[0].hp > 0 && chars[0].x == x && chars[0].y == y {
        Some(0int)
    } else {
        match target_at(chars.skip(1), actor - 1, x, y) {
            Some(i) => Some(i + 1),
            None => None,
        }
    }
}

/// When the first `i` pieces are no target and piece `i` is one, the
/// search finds `i`.
proof fn lemma_target_at_found(chars: Seq<Piece>, actor: int, x: int, y: int, i: int)
    requires
        0 <= i < chars.len(),
        forall|j: int|
            0 <= j < i ==> !(j != actor && chars[j].hp > 0 && chars[j].x == x && chars[j].y == y),
        i != actor && chars[i].hp > 0 && chars[i].x == x && chars[i].y == y,
    ensures
        target_at(chars, actor, x, y) == Some(i),
    decreases i,
{
    if i == 0 {
    } else {
        assert(chars.skip(1)[i - 1] == chars[i]);
        assert(forall|j: int| 0 <= j < i - 1 ==> chars.skip(1)[j] == chars[j + 1]);
        lemma_target_at_found(chars.skip(1), actor - 1, x, y, i - 1);
    }
}

/// When no piece qualifies, the search misses.
proof fn lemma_target_at_missing(chars: Seq<Piece>, actor: int, x: int, y: int)
    requires
        forall|j: int|
            0 <= j < chars.len() ==> !(j != actor && chars[j].hp > 0 && chars[j].x == x
                && chars[j].y == y),
    ensures
        target_at(chars, actor, x, y) is None,
    decreases chars.len(),
{
    if chars.len() == 0 {
    } else {
        assert(forall|j: int| 0 <= j < chars.len() - 1 ==> chars.skip(1)[j] == chars[j + 1]);
        lemma_target_at_missing(chars.skip(1), actor - 1, x, y);
    }
}

/// A found target is a real index.
pub proof fn lemma_target_at_in_range(chars: Seq<Piece>, actor: int, x: int, y: int)
    ensures
        match target_at(chars, actor, x, y) {
            Some(k) => 0 <= k < chars.len(),
            None => true,
        },
    decreases chars.len(),
{
    if chars.len() > 0 {
        lemma_target_at_in_range(chars.skip(1), actor - 1, x, y);
    }
}

/// The piece the scheduler grants the next turn in the first `n` pieces:
/// the living piece with minimal `action_delay`, the earliest on a tie, so
/// replays are reproducible.
pub open spec fn ready_in_prefix(chars: Seq<Piece>, n: int) -> Option<int>
    decreases n,
{
    if n <= 0 {
        None
    } else {
        let prev = ready_in_prefix(chars, n - 1);
        let i = n - 1;
        if chars[i].hp > 0 {
            match prev {
                None => Some(i),
                Some(b) => if chars[i].action_delay < chars[b].action_delay {
                    Some(i)
                } else {
                    Some(b)
                },
            }
        } else {
            prev
        }
    }
}

/// The ready piece of the whole arena.
pub open spec fn ready_index(w: World) -> Option<int> {
    ready_in_prefix(w.characters@, w.characters@.len() as int)
}

/// What being the ready piece means: it is alive, no living piece has a
/// smaller delay, and no earlier living piece ties with it. When no piece
/// is ready, none is alive.
pub proof fn lemma_ready_props(chars: Seq<Piece>, n: int)
    requires
        0 <= n <= chars.len(),
    ensures
        match ready_in_prefix(chars, n) {
            Some(i) => {
                &&& 0 <= i < n
                &&& chars[i].hp > 0
                &&& forall|j: int|
                    0 <= j < n && (#[trigger] chars[j]).hp > 0 ==> chars[i].action_delay
                        <= chars[j].action_delay
                &&& forall|j: int|
                    0 <= j < i && (#[trigger] chars[j]).hp > 0 ==> chars[i].action_delay
                        < chars[j].action_delay
            },
            None => forall|j: int| 0 <= j < n ==> (#[trigger] chars[j]).hp <= 0,
        },
    decreases n,
{
    if n > 0 {
        lemma_ready_props(chars, n - 1);
    }
}

/// The scheduler is a function of the observable world alone: worlds that
/// agree on every piece's observable state agree on whose turn it is, so
/// replays are reproducible.
pub proof fn lemma_turn_order_deterministic(w1: World, w2: World)
    requires
        world_view_eq(w1, w2),
    ensures
        ready_index(w1) == ready_index(w2),
{
    lemma_ready_congruent(w1.characters@, w2.characters@, w1.characters@.len() as int);
}

/// A piece one world function may reference: its statistic formulas stay
/// in range, its pools fit their fields and never go negative, its speed
/// fits a formula variable, and its repertoire indices point into the
/// catalog.
pub open spec fn piece_ok(p: Piece, catalog: Catalog) -> bool {
    &&& sheet_stats_ok(p.sheet)
    &&& sheet_stats_spec(p.sheet).heart <= i32::MAX
    &&& sheet_stats_spec(p.sheet).soul <= i32::MAX
    &&& p.sheet.speed <= i64::MAX
    &&& p.hp >= 0
    &&& p.sp >= 0
    &&& p.attacks@.len() <= u32::MAX
    &&& p.spells@.len() <= u32::MAX
    &&& forall|j: int| 0 <= j < p.attacks@.len() ==> #[trigger] p.attacks@[j] < catalog.attacks@.len()
    &&& forall|j: int| 0 <= j < p.spells@.len() ==> #[trigger] p.spells@[j] < catalog.spells@.len()
}

/// Every infliction an attack definition carries names a status the
/// catalog defines.
pub open spec fn catalog_inflicts_ok(catalog: Catalog) -> bool {
    forall|a: int|
        0 <= a < catalog.attacks@.len() ==> match (#[trigger] catalog.attacks@[a]).1.inflicts {
            Some(inf) => inf.status < catalog.statuses@.len(),
            None => true,
        }
}

/// Damage one attack deals: its magnitude plus the attacker's power,
/// less the defender's defense, floored at nothing.
pub open spec fn attack_damage_spec(attacker: Piece, target: Piece, att: Attack, catalog: Catalog) -> u32 {
    clamp_u32(
        att.magnitude + piece_stats_spec(attacker, catalog).power - piece_stats_spec(
            target,
            catalog,
        ).defense,
    )
}

/// Hit points left after taking `dmg`: pools never go below zero.
pub open spec fn hp_after(hp: i32, dmg: u32) -> i32 {
    if dmg >= hp {
        0i32
    } else {
        (hp - dmg) as i32
    }
}

/// The value of a spell's magnitude formula for this caster; nothing when
/// the formula fails to evaluate. A spell without a formula has magnitude
/// zero.
pub open spec fn spell_value_spec(caster: Piece, spell: Spell) -> Option<int> {
    match spell.parameters {
        Parameters::Target { magnitude, .. } => match magnitude {
            None => Some(0int),
            Some(e) => match eval_spec(e, piece_scope_spec(caster)) {
                Ok(v) => Some(v),
                Err(_) => None,
            },
        },
    }
}

/// A spell's pierce threshold.
pub open spec fn pierce_spec(spell: Spell) -> i32 {
    match spell.parameters {
        Parameters::Target { pierce_threshold, .. } => pierce_threshold,
    }
}

/// Damage one cast deals: the formula value scaled by the caster's
/// affinity, plus the caster's magic, less the target's resistance; the
/// spell lands only when that beats the pierce threshold.
pub open spec fn cast_damage_spec(caster: Piece, target: Piece, spell: Spell, catalog: Catalog) -> u32 {
    let value = match spell_value_spec(caster, spell) {
        Some(v) => v,
        None => 0int,
    };
    let aff = affinity_spec(caster.sheet.skillset, spell.energy, spell.harmony);
    let base = aff.magnitude_spec(clamp_u32(value));
    let after = base + piece_stats_spec(caster, catalog).magic - piece_stats_spec(
        target,
        catalog,
    ).resistance;
    if after >= pierce_spec(spell) {
        clamp_u32(after)
    } else {
        0u32
    }
}

/// The square one step from the piece toward `(tx, ty)`.
pub open spec fn move_dest_spec(p: Piece, tx: int, ty: int) -> (int, int) {
    (p.x + sgn(tx - p.x), p.y + sgn(ty - p.y))
}

/// A piece's status entries after one infliction: accumulate onto an
/// existing entry, or start a fresh one from the definition's base
/// magnitude.
pub open spec fn inflict_result(
    entries: Seq<StatusEntry>,
    status: usize,
    duration: Duration,
    base: u32,
    amount: u32,
) -> Seq<StatusEntry> {
    match find_entry(entries, status) {
        Some(j) => entries.update(
            j,
            StatusEntry { magnitude: sat_add_u32(entries[j].magnitude, amount), ..entries[j] },
        ),
        None => entries.push(
            StatusEntry { status, magnitude: sat_add_u32(base, amount), duration },
        ),
    }
}

/// The target's status entries after being hit by `att`; an attack whose
/// infliction names a missing definition inflicts nothing.
pub open spec fn attacked_statuses_spec(target: Piece, att: Attack, catalog: Catalog) -> Seq<
    StatusEntry,
> {
    match att.inflicts {
        Some(inf) => if inf.status < catalog.statuses@.len() {
            let def = catalog.statuses@[inf.status as int].1;
            let base = match def.effect {
                Effect::Debuff(d) => d.magnitude,
                Effect::StaticDebuff(_) => 0u32,
            };
            inflict_result(target.statuses@, inf.status, def.duration, base, inf.magnitude)
        } else {
            target.statuses@
        },
        None => target.statuses@,
    }
}

/// Whether `action` may be applied by `actor` right now. A syntactically
/// valid action that fails this test violates a turn rule and is refused
/// without touching the world.
pub open spec fn action_legal(w: World, catalog: Catalog, actor: int, action: Action) -> bool
    recommends
        0 <= actor < w.characters@.len(),
        w.wf(catalog),
{
    let p = w.characters@[actor];
    match action {
        Action::Wait(_) => true,
        Action::Move(tx, ty) => {
            let (nx, ny) = move_dest_spec(p, tx as int, ty as int);
            &&& !(nx == p.x && ny == p.y)
            &&& w.floor.in_bounds(nx, ny)
            &&& w.floor.tile_spec(nx, ny).walkable()
            &&& target_at(w.characters@, actor, nx, ny) is None
        },
        Action::Attack(idx, tx, ty) => {
            &&& idx < p.attacks@.len()
            &&& adjacent(p.x as int, p.y as int, tx as int, ty as int)
            &&& target_at(w.characters@, actor, tx as int, ty as int) is Some
        },
        Action::Cast(idx, tx, ty) => {
            &&& idx < p.spells@.len()
            &&& {
                let spell = catalog.spells@[p.spells@[idx as int] as int].1;
                &&& p.sp >= spell.level
                &&& affinity_spec(p.sheet.skillset, spell.energy, spell.harmony).castable()
                &&& spell_value_spec(p, spell) is Some
            }
            &&& target_at(w.characters@, actor, tx as int, ty as int) is Some
        },
    }
}

/// How the world after a legal action relates to the world before it:
/// the acting piece pays the action's time cost (waits pay their own,
/// everything else costs the actor's speed), effects land on the target,
/// and nothing else moves.
pub open spec fn action_applied(
    w0: World,
    w1: World,
    catalog: Catalog,
    actor: int,
    action: Action,
) -> bool
    recommends
        0 <= actor < w0.characters@.len(),
{
    let p0 = w0.characters@[actor];
    match action {
        Action::Wait(t) => w1.characters@ == w0.characters@.update(
            actor,
            Piece { action_delay: sat_add_u64(p0.action_delay, t), ..p0 },
        ),
        Action::Move(tx, ty) => {
            let (nx, ny) = move_dest_spec(p0, tx as int, ty as int);
            w1.characters@ == w0.characters@.update(
                actor,
                Piece {
                    x: nx as i32,
                    y: ny as i32,
                    action_delay: sat_add_u64(p0.action_delay, p0.sheet.speed),
                    ..p0
                },
            )
        },
        Action::Attack(idx, tx, ty) => match target_at(w0.characters@, actor, tx as int, ty as int) {
            Some(t) => {
                let att = catalog.attacks@[p0.attacks@[idx as int] as int].1;
                let t0 = w0.characters@[t];
                let dmg = attack_damage_spec(p0, t0, att, catalog);
                &&& w1.characters@.len() == w0.characters@.len()
                &&& forall|j: int|
                    0 <= j < w0.characters@.len() && j != actor && j != t
                        ==> w1.characters@[j] == w0.characters@[j]
                &&& w1.characters@[actor] == Piece {
                    action_delay: sat_add_u64(p0.action_delay, p0.sheet.speed),
                    ..p0
                }
                &&& w1.characters@[t].hp == hp_after(t0.hp, dmg)
                &&& w1.characters@[t].sp == t0.sp
                &&& w1.characters@[t].statuses@ == attacked_statuses_spec(t0, att, catalog)
                &&& same_but_pools_and_statuses(w1.characters@[t], t0)
            },
            None => false,
        },
        Action::Cast(idx, tx, ty) => match target_at(w0.characters@, actor, tx as int, ty as int) {
            Some(t) => {
                let spell = catalog.spells@[p0.spells@[idx as int] as int].1;
                let t0 = w0.characters@[t];
                let dmg = cast_damage_spec(p0, t0, spell, catalog);
                &&& w1.characters@ == w0.characters@.update(
                    actor,
                    Piece {
                        sp: (p0.sp - spell.level) as i32,
                        action_delay: sat_add_u64(p0.action_delay, p0.sheet.speed),
                        ..p0
                    },
                ).update(t, Piece { hp: hp_after(t0.hp, dmg), ..t0 })
            },
            None => false,
        },
    }
}

/// A living piece other than `actor` qualifies as a target at its square.
pub open spec fn is_target(chars: Seq<Piece>, actor: int, j: int, x: int, y: int) -> bool {
    &&& 0 <= j < chars.len()
    &&& j != actor
    &&& chars[j].hp > 0
    &&& chars[j].x == x
    &&& chars[j].y == y
}

/// A qualifying piece exists, so the position search cannot miss.
proof fn lemma_target_at_some_of_witness(chars: Seq<Piece>, actor: int, x: int, y: int, j: int)
    requires
        is_target(chars, actor, j, x, y),
    ensures
        target_at(chars, actor, x, y) is Some,
    decreases j,
{
    if !(actor != 0 && chars[0].hp > 0 && chars[0].x == x && chars[0].y == y) {
        assert(j != 0);
        assert(chars.skip(1)[j - 1] == chars[j]);
        lemma_target_at_some_of_witness(chars.skip(1), actor - 1, x, y, j - 1);
    }
}

/// There is a living piece other than `actor` standing next to it.
pub open spec fn exists_adjacent_target(w: World, actor: int) -> bool {
    let p = w.characters@[actor];
    exists|t: int|
        0 <= t < w.characters@.len() && t != actor && (#[trigger] w.characters@[t]).hp > 0
            && adjacent(p.x as int, p.y as int, w.characters@[t].x as int, w.characters@[t].y as int)
}

/// There is a living piece other than `actor` anywhere on the board.
pub open spec fn exists_other_alive(w: World, actor: int) -> bool {
    exists|t: int|
        0 <= t < w.characters@.len() && t != actor && (#[trigger] w.characters@[t]).hp > 0
}

/// The spell at repertoire position `s` can be cast by `actor` right now:
/// the cost is payable, the skillset grants an affinity, and the magnitude
/// formula evaluates.
pub open spec fn spell_castable(w: World, catalog: Catalog, actor: int, s: int) -> bool {
    let p = w.characters@[actor];
    let spell = catalog.spells@[p.spells@[s] as int].1;
    &&& p.sp >= spell.level
    &&& affinity_spec(p.sheet.skillset, spell.energy, spell.harmony).castable()
    &&& spell_value_spec(p, spell) is Some
}

/// How many of the first `n` spells in the repertoire are castable.
pub open spec fn n_castable(w: World, catalog: Catalog, actor: int, n: int) -> int
    decreases n,
{
    if n <= 0 {
        0
    } else {
        n_castable(w, catalog, actor, n - 1) + if spell_castable(w, catalog, actor, n - 1) {
            1int
        } else {
            0int
        }
    }
}

/// How many action sources are feasible for `actor` right now: the innate
/// wait, every attack when an adjacent target exists, and every castable
/// spell when any target exists.
pub open spec fn feasible_sources(w: World, catalog: Catalog, actor: int) -> int {
    1 + (if exists_adjacent_target(w, actor) {
        w.characters@[actor].attacks@.len() as int
    } else {
        0int
    }) + (if exists_other_alive(w, actor) {
        n_castable(w, catalog, actor, w.characters@[actor].spells@.len() as int)
    } else {
        0int
    })
}

/// A sequence of zero or one candidate values.
pub open spec fn opt_cand(c: Option<(Action, Seq<Heuristic>)>) -> Seq<(Action, Seq<Heuristic>)> {
    match c {
        Some(m) => seq![m],
        None => Seq::empty(),
    }
}

/// The move candidate for one step direction, when that step is legal and
/// its square has coordinates an action can carry.
pub open spec fn move_cand(w: World, actor: int, dx: int, dy: int) -> Option<
    (Action, Seq<Heuristic>),
> {
    let p = w.characters@[actor];
    let nx = p.x + dx;
    let ny = p.y + dy;
    if i32::MIN <= nx <= i32::MAX && i32::MIN <= ny <= i32::MAX && w.floor.in_bounds(nx, ny)
        && w.floor.tile_spec(nx, ny).walkable() && target_at(w.characters@, actor, nx, ny)
        is None {
        Some(
            (
                Action::Move(nx as i32, ny as i32),
                seq![Heuristic::Move { x: nx as i32, y: ny as i32 }],
            ),
        )
    } else {
        None
    }
}

/// The step candidates, in the engine's fixed direction order: north,
/// south, west, east.
pub open spec fn moves_spec(w: World, actor: int) -> Seq<(Action, Seq<Heuristic>)> {
    opt_cand(move_cand(w, actor, 0, -1)) + opt_cand(move_cand(w, actor, 0, 1)) + opt_cand(
        move_cand(w, actor, -1, 0),
    ) + opt_cand(move_cand(w, actor, 1, 0))
}

/// The candidate for attack `a` against piece `t`, when `t` is a living
/// adjacent target.
pub open spec fn attack_cand(w: World, catalog: Catalog, actor: int, a: int, t: int) -> Option<
    (Action, Seq<Heuristic>),
> {
    let p = w.characters@[actor];
    let c = w.characters@[t];
    if t != actor && c.hp > 0 && adjacent(p.x as int, p.y as int, c.x as int, c.y as int) {
        match target_at(w.characters@, actor, c.x as int, c.y as int) {
            Some(k) => {
                let att = catalog.attacks@[p.attacks@[a] as int].1;
                let dmg = attack_damage_spec(p, w.characters@[k], att, catalog);
                let heuristics = match att.inflicts {
                    Some(inf) => seq![
                        Heuristic::Damage { target: k as usize, amount: dmg },
                        Heuristic::Debuff { target: k as usize, amount: inf.magnitude },
                    ],
                    None => seq![Heuristic::Damage { target: k as usize, amount: dmg }],
                };
                Some((Action::Attack(a as u32, c.x, c.y), heuristics))
            },
            None => None,
        }
    } else {
        None
    }
}

/// Attack `a`'s candidates against the first `t` pieces, in piece order.
pub open spec fn attack_targets_spec(
    w: World,
    catalog: Catalog,
    actor: int,
    a: int,
    t: int,
) -> Seq<(Action, Seq<Heuristic>)>
    decreases t,
{
    if t <= 0 {
        Seq::empty()
    } else {
        attack_targets_spec(w, catalog, actor, a, t - 1) + opt_cand(
            attack_cand(w, catalog, actor, a, t - 1),
        )
    }
}

/// The candidates of the first `a` attacks, in repertoire order.
pub open spec fn attacks_spec(w: World, catalog: Catalog, actor: int, a: int) -> Seq<
    (Action, Seq<Heuristic>),
>
    decreases a,
{
    if a <= 0 {
        Seq::empty()
    } else {
        attacks_spec(w, catalog, actor, a - 1) + attack_targets_spec(
            w,
            catalog,
            actor,
            a - 1,
            w.characters@.len() as int,
        )
    }
}

/// The candidate for casting spell `s` at piece `t`, when the spell is
/// castable and `t` is a living target.
pub open spec fn cast_cand(w: World, catalog: Catalog, actor: int, s: int, t: int) -> Option<
    (Action, Seq<Heuristic>),
> {
    let p = w.characters@[actor];
    let c = w.characters@[t];
    if spell_castable(w, catalog, actor, s) && t != actor && c.hp > 0 {
        match target_at(w.characters@, actor, c.x as int, c.y as int) {
            Some(k) => {
                let spell = catalog.spells@[p.spells@[s] as int].1;
                let dmg = cast_damage_spec(p, w.characters@[k], spell, catalog);
                Some(
                    (
                        Action::Cast(s as u32, c.x, c.y),
                        seq![Heuristic::Damage { target: k as usize, amount: dmg }],
                    ),
                )
            },
            None => None,
        }
    } else {
        None
    }
}

/// Spell `s`'s candidates against the first `t` pieces, in piece order.
pub open spec fn spell_targets_spec(
    w: World,
    catalog: Catalog,
    actor: int,
    s: int,
    t: int,
) -> Seq<(Action, Seq<Heuristic>)>
    decreases t,
{
    if t <= 0 {
        Seq::empty()
    } else {
        spell_targets_spec(w, catalog, actor, s, t - 1) + opt_cand(
            cast_cand(w, catalog, actor, s, t - 1),
        )
    }
}

/// The candidates of the first `s` spells, in repertoire order.
pub open spec fn spells_spec(w: World, catalog: Catalog, actor: int, s: int) -> Seq<
    (Action, Seq<Heuristic>),
>
    decreases s,
{
    if s <= 0 {
        Seq::empty()
    } else {
        spells_spec(w, catalog, actor, s - 1) + spell_targets_spec(
            w,
            catalog,
            actor,
            s - 1,
            w.characters@.len() as int,
        )
    }
}

/// Exactly what the consideration engine scores, in its fixed order: the
/// four step directions, every attack by target, every castable spell by
/// target, and the one-turn wait.
pub open spec fn considered_spec(w: World, catalog: Catalog, actor: int) -> Seq<
    (Action, Seq<Heuristic>),
> {
    moves_spec(w, actor) + attacks_spec(w, catalog, actor, w.characters@[actor].attacks@.len() as int)
        + spells_spec(w, catalog, actor, w.characters@[actor].spells@.len() as int) + seq![
        (Action::Wait(TURN), Seq::<Heuristic>::empty()),
    ]
}

/// An uncastable spell contributes no candidate at all.
proof fn lemma_spell_targets_empty(w: World, catalog: Catalog, actor: int, s: int, t: int)
    requires
        !spell_castable(w, catalog, actor, s),
        t >= 0,
    ensures
        spell_targets_spec(w, catalog, actor, s, t) == Seq::<(Action, Seq<Heuristic>)>::empty(),
    decreases t,
{
    if t > 0 {
        lemma_spell_targets_empty(w, catalog, actor, s, t - 1);
        assert(spell_targets_spec(w, catalog, actor, s, t) =~= Seq::<
            (Action, Seq<Heuristic>),
        >::empty());
    }
}

/// The two pieces agree on everything observable: every scalar field, and
/// the values (not the storage) of their statuses and repertoires.
pub open spec fn piece_view_eq(a: Piece, b: Piece) -> bool {
    &&& a.sheet == b.sheet
    &&& a.hp == b.hp
    &&& a.sp == b.sp
    &&& a.statuses@ == b.statuses@
    &&& a.attacks@ == b.attacks@
    &&& a.spells@ == b.spells@
    &&& a.x == b.x
    &&& a.y == b.y
    &&& a.action_delay == b.action_delay
    &&& a.player_controlled == b.player_controlled
    &&& a.alliance == b.alliance
}

/// The two worlds agree on everything observable.
pub open spec fn world_view_eq(a: World, b: World) -> bool {
    &&& a.floor == b.floor
    &&& a.characters@.len() == b.characters@.len()
    &&& forall|j: int|
        0 <= j < a.characters@.len() ==> piece_view_eq(
            #[trigger] a.characters@[j],
            b.characters@[j],
        )
}

/// Pieces that agree observably have the same effective statistics.
pub proof fn lemma_stats_congruent(a: Piece, b: Piece, catalog: Catalog)
    requires
        piece_view_eq(a, b),
    ensures
        piece_stats_spec(a, catalog) == piece_stats_spec(b, catalog),
        piece_scope_spec(a) == piece_scope_spec(b),
{
}

/// Worlds that agree observably find the same target on every square.
pub proof fn lemma_target_at_congruent(a: Seq<Piece>, b: Seq<Piece>, actor: int, x: int, y: int)
    requires
        a.len() == b.len(),
        forall|j: int| 0 <= j < a.len() ==> piece_view_eq(#[trigger] a[j], b[j]),
    ensures
        target_at(a, actor, x, y) == target_at(b, actor, x, y),
    decreases a.len(),
{
    if a.len() > 0 {
        assert(forall|j: int| 0 <= j < a.len() - 1 ==> a.skip(1)[j] == a[j + 1]);
        assert(forall|j: int| 0 <= j < b.len() - 1 ==> b.skip(1)[j] == b[j + 1]);
        lemma_target_at_congruent(a.skip(1), b.skip(1), actor - 1, x, y);
    }
}

/// Worlds that agree observably grant the same piece the next turn.
pub proof fn lemma_ready_congruent(a: Seq<Piece>, b: Seq<Piece>, n: int)
    requires
        a.len() == b.len(),
        0 <= n <= a.len(),
        forall|j: int| 0 <= j < a.len() ==> piece_view_eq(#[trigger] a[j], b[j]),
    ensures
        ready_in_prefix(a, n) == ready_in_prefix(b, n),
    decreases n,
{
    if n > 0 {
        lemma_ready_congruent(a, b, n - 1);
        lemma_ready_props(a, n - 1);
        lemma_ready_props(b, n - 1);
    }
}

/// Worlds that agree observably score the same candidates for an attack's
/// first `t` targets.
proof fn lemma_attack_targets_congruent(a: World, b: World, catalog: Catalog, actor: int, ai: int, t: int)
    requires
        world_view_eq(a, b),
        0 <= actor < a.characters@.len(),
        t <= a.characters@.len(),
    ensures
        attack_targets_spec(a, catalog, actor, ai, t) == attack_targets_spec(
            b,
            catalog,
            actor,
            ai,
            t,
        ),
    decreases t,
{
    if t > 0 {
        lemma_attack_targets_congruent(a, b, catalog, actor, ai, t - 1);
        if 0 <= t - 1 < a.characters@.len() {
            let tx = a.characters@[t - 1].x as int;
            let ty = a.characters@[t - 1].y as int;
            lemma_target_at_congruent(a.characters@, b.characters@, actor, tx, ty);
            lemma_target_at_in_range(a.characters@, actor, tx, ty);
            match target_at(a.characters@, actor, tx, ty) {
                Some(k) => {
                    lemma_stats_congruent(a.characters@[k], b.characters@[k], catalog);
                    lemma_stats_congruent(a.characters@[actor], b.characters@[actor], catalog);
                },
                None => {},
            }
        }
        assert(opt_cand(attack_cand(a, catalog, actor, ai, t - 1)) == opt_cand(
            attack_cand(b, catalog, actor, ai, t - 1),
        ));
    }
}

/// And for the first `ai` attacks of the repertoire.
proof fn lemma_attacks_congruent(a: World, b: World, catalog: Catalog, actor: int, ai: int)
    requires
        world_view_eq(a, b),
        0 <= actor < a.characters@.len(),
    ensures
        attacks_spec(a, catalog, actor, ai) == attacks_spec(b, catalog, actor, ai),
    decreases ai,
{
    if ai > 0 {
        lemma_attacks_congruent(a, b, catalog, actor, ai - 1);
        lemma_attack_targets_congruent(
            a,
            b,
            catalog,
            actor,
            ai - 1,
            a.characters@.len() as int,
        );
    }
}

/// Worlds that agree observably score the same candidates for a spell's
/// first `t` targets.
proof fn lemma_spell_targets_congruent(a: World, b: World, catalog: Catalog, actor: int, si: int, t: int)
    requires
        world_view_eq(a, b),
        0 <= actor < a.characters@.len(),
        t <= a.characters@.len(),
    ensures
        spell_targets_spec(a, catalog, actor, si, t) == spell_targets_spec(
            b,
            catalog,
            actor,
            si,
            t,
        ),
    decreases t,
{
    if t > 0 {
        lemma_spell_targets_congruent(a, b, catalog, actor, si, t - 1);
        lemma_stats_congruent(a.characters@[actor], b.characters@[actor], catalog);
        if 0 <= t - 1 < a.characters@.len() {
            let tx = a.characters@[t - 1].x as int;
            let ty = a.characters@[t - 1].y as int;
            lemma_target_at_congruent(a.characters@, b.characters@, actor, tx, ty);
            lemma_target_at_in_range(a.characters@, actor, tx, ty);
            match target_at(a.characters@, actor, tx, ty) {
                Some(k) => {
                    lemma_stats_congruent(a.characters@[k], b.characters@[k], catalog);
                },
                None => {},
            }
        }
        assert(opt_cand(cast_cand(a, catalog, actor, si, t - 1)) == opt_cand(
            cast_cand(b, catalog, actor, si, t - 1),
        ));
    }
}

/// And for the first `si` spells of the repertoire.
proof fn lemma_spells_congruent(a: World, b: World, catalog: Catalog, actor: int, si: int)
    requires
        world_view_eq(a, b),
        0 <= actor < a.characters@.len(),
    ensures
        spells_spec(a, catalog, actor, si) == spells_spec(b, catalog, actor, si),
    decreases si,
{
    if si > 0 {
        lemma_spells_congruent(a, b, catalog, actor, si - 1);
        lemma_stats_congruent(a.characters@[actor], b.characters@[actor], catalog);
        lemma_spell_targets_congruent(a, b, catalog, actor, si - 1, a.characters@.len() as int);
    }
}

/// The consideration engine is a function of the observable world alone:
/// worlds that agree observably are scored identically.
pub proof fn lemma_considered_congruent(a: World, b: World, catalog: Catalog, actor: int)
    requires
        world_view_eq(a, b),
        0 <= actor < a.characters@.len(),
    ensures
        considered_spec(a, catalog, actor) == considered_spec(b, catalog, actor),
{
    lemma_target_at_congruent(
        a.characters@,
        b.characters@,
        actor,
        a.characters@[actor].x + 0,
        a.characters@[actor].y - 1,
    );
    lemma_target_at_congruent(
        a.characters@,
        b.characters@,
        actor,
        a.characters@[actor].x + 0,
        a.characters@[actor].y + 1,
    );
    lemma_target_at_congruent(
        a.characters@,
        b.characters@,
        actor,
        a.characters@[actor].x - 1,
        a.characters@[actor].y + 0,
    );
    lemma_target_at_congruent(
        a.characters@,
        b.characters@,
        actor,
        a.characters@[actor].x + 1,
        a.characters@[actor].y + 0,
    );
    lemma_attacks_congruent(a, b, catalog, actor, a.characters@[actor].attacks@.len() as int);
    lemma_spells_congruent(a, b, catalog, actor, a.characters@[actor].spells@.len() as int);
    assert(moves_spec(a, actor) == moves_spec(b, actor));
    assert(considered_spec(a, catalog, actor) == considered_spec(b, catalog, actor));
}

/// Applying the same action to worlds that agree observably yields worlds
/// that agree observably.
pub proof fn lemma_applied_congruent(
    a0: World,
    a1: World,
    b0: World,
    b1: World,
    catalog: Catalog,
    actor: int,
    action: Action,
)
    requires
        world_view_eq(a0, b0),
        0 <= actor < a0.characters@.len(),
        a1.floor == a0.floor,
        b1.floor == b0.floor,
        action_applied(a0, a1, catalog, actor, action),
        action_applied(b0, b1, catalog, actor, action),
    ensures
        world_view_eq(a1, b1),
    {
    match action {
        Action::Wait(_) => {
            assert forall|j: int|
                0 <= j < a1.characters@.len() implies piece_view_eq(
                #[trigger] a1.characters@[j],
                b1.characters@[j],
            ) by {}
        },
        Action::Move(_, _) => {
            assert forall|j: int|
                0 <= j < a1.characters@.len() implies piece_view_eq(
                #[trigger] a1.characters@[j],
                b1.characters@[j],
            ) by {}
        },
        Action::Attack(idx, tx, ty) => {
            lemma_target_at_congruent(a0.characters@, b0.characters@, actor, tx as int, ty as int);
            lemma_target_at_in_range(a0.characters@, actor, tx as int, ty as int);
            match target_at(a0.characters@, actor, tx as int, ty as int) {
                Some(t) => {
                    lemma_stats_congruent(a0.characters@[t], b0.characters@[t], catalog);
                    lemma_stats_congruent(a0.characters@[actor], b0.characters@[actor], catalog);
                    let t0a = a0.characters@[t];
                    let t0b = b0.characters@[t];
                    let atta = catalog.attacks@[a0.characters@[actor].attacks@[idx as int] as int].1;
                    let attb = catalog.attacks@[b0.characters@[actor].attacks@[idx as int] as int].1;
                    assert(atta == attb);
                    assert(attack_damage_spec(a0.characters@[actor], t0a, atta, catalog)
                        == attack_damage_spec(b0.characters@[actor], t0b, attb, catalog));
                    assert(attacked_statuses_spec(t0a, atta, catalog) == attacked_statuses_spec(
                        t0b,
                        attb,
                        catalog,
                    ));
                    assert(piece_view_eq(a1.characters@[t], b1.characters@[t]));
                    assert(piece_view_eq(a1.characters@[actor], b1.characters@[actor]));
                    assert forall|j: int|
                        0 <= j < a1.characters@.len() implies piece_view_eq(
                        #[trigger] a1.characters@[j],
                        b1.characters@[j],
                    ) by {
                        if j != actor && j != t {
                            assert(a1.characters@[j] == a0.characters@[j]);
                            assert(b1.characters@[j] == b0.characters@[j]);
                            assert(piece_view_eq(a0.characters@[j], b0.characters@[j]));
                        }
                    }
                },
                None => {},
            }
        },
        Action::Cast(idx, tx, ty) => {
            lemma_target_at_congruent(a0.characters@, b0.characters@, actor, tx as int, ty as int);
            lemma_target_at_in_range(a0.characters@, actor, tx as int, ty as int);
            match target_at(a0.characters@, actor, tx as int, ty as int) {
                Some(t) => {
                    lemma_stats_congruent(a0.characters@[t], b0.characters@[t], catalog);
                    lemma_stats_congruent(a0.characters@[actor], b0.characters@[actor], catalog);
                    assert forall|j: int|
                        0 <= j < a1.characters@.len() implies piece_view_eq(
                        #[trigger] a1.characters@[j],
                        b1.characters@[j],
                    ) by {}
                },
                None => {},
            }
        },
    }
}

/// The heuristics carried by a candidate are the engine's own estimates
/// for its action: a move names its square, an attack or cast estimates
/// the damage dealt to the target the action would hit, and an attack
/// that inflicts a status adds the infliction's magnitude as a debuff
/// estimate.
pub open spec fn consider_matches(w: World, catalog: Catalog, actor: int, c: Consider) -> bool {
    let p = w.characters@[actor];
    match c.action {
        Action::Wait(t) => t == TURN && c.heuristics@ == Seq::<Heuristic>::empty(),
        Action::Move(tx, ty) => c.heuristics@ == seq![Heuristic::Move { x: tx, y: ty }],
        Action::Attack(idx, tx, ty) => match target_at(w.characters@, actor, tx as int, ty as int) {
            Some(t) => {
                let att = catalog.attacks@[p.attacks@[idx as int] as int].1;
                let dmg = attack_damage_spec(p, w.characters@[t], att, catalog);
                match att.inflicts {
                    Some(inf) => c.heuristics@ == seq![
                        Heuristic::Damage { target: t as usize, amount: dmg },
                        Heuristic::Debuff { target: t as usize, amount: inf.magnitude },
                    ],
                    None => c.heuristics@ == seq![
                        Heuristic::Damage { target: t as usize, amount: dmg },
                    ],
                }
            },
            None => false,
        },
        Action::Cast(idx, tx, ty) => match target_at(w.characters@, actor, tx as int, ty as int) {
            Some(t) => {
                let spell = catalog.spells@[p.spells@[idx as int] as int].1;
                let dmg = cast_damage_spec(p, w.characters@[t], spell, catalog);
                c.heuristics@ == seq![Heuristic::Damage { target: t as usize, amount: dmg }]
            },
            None => false,
        },
    }
}

/// The world: the single authoritative simulation state.
#[derive(Clone, Debug)]
pub struct World {
    /// The arena of pieces; an index into it is a piece's identity.
    pub characters: Vec<Piece>,
    pub floor: Floor,
}

impl World {
    /// Well-formedness against the catalog the world is played with: the
    /// board is rectangular, every piece stays inside the machine's
    /// limits and names only existing definitions, and every attack's
    /// infliction names an existing status, so no hit can silently
    /// inflict nothing.
    pub open spec fn wf(self, catalog: Catalog) -> bool {
        &&& self.floor.wf()
        &&& forall|i: int|
            0 <= i < self.characters@.len() ==> piece_ok(#[trigger] self.characters@[i], catalog)
        &&& catalog_inflicts_ok(catalog)
    }

    /// Builds a world from its initial pieces and board.
    pub fn new(characters: Vec<Piece>, floor: Floor) -> (r: World)
        ensures
            r.characters == characters,
            r.floor == floor,
    {
        World { characters, floor }
    }

    /// The piece whose turn it is: alive, minimal delay, earliest on a
    /// tie; nothing when no piece is alive.
    pub fn next_character(&self) -> (r: Option<usize>)
        ensures
            match r {
                Some(i) => ready_index(*self) == Some(i as int),
                None => ready_index(*self) is None,
            },
    {
        let mut best: Option<usize> = None;
        let mut i: usize = 0;
        while i < self.characters.len()
            invariant
                i <= self.characters@.len(),
                match best {
                    Some(b) => b < i && ready_in_prefix(self.characters@, i as int) == Some(
                        b as int,
                    ),
                    None => ready_in_prefix(self.characters@, i as int) is None,
                },
            decreases self.characters@.len() - i,
        {
            if self.characters[i].hp > 0 {
                best = match best {
                    None => Some(i),
                    Some(b) => {
                        if self.characters[i].action_delay < self.characters[b].action_delay {
                            Some(i)
                        } else {
                            Some(b)
                        }
                    },
                };
            }
            i = i + 1;
        }
        best
    }

    /// The first living piece other than `actor` standing on `(x, y)`.
    pub fn find_target(&self, actor: usize, x: i32, y: i32) -> (r: Option<usize>)
        ensures
            match r {
                Some(t) => {
                    &&& target_at(self.characters@, actor as int, x as int, y as int) == Some(
                        t as int,
                    )
                    &&& t < self.characters@.len()
                    &&& t != actor
                    &&& self.characters@[t as int].hp > 0
                    &&& self.characters@[t as int].x == x
                    &&& self.characters@[t as int].y == y
                },
                None => target_at(self.characters@, actor as int, x as int, y as int) is None,
            },
    {
        let mut i: usize = 0;
        while i < self.characters.len()
            invariant
                i <= self.characters@.len(),
                forall|j: int|
                    0 <= j < i ==> !(j != actor && self.characters@[j].hp > 0
                        && self.characters@[j].x == x && self.characters@[j].y == y),
            decreases self.characters@.len() - i,
        {
            let c = &self.characters[i];
            if i != actor && c.hp > 0 && c.x == x && c.y == y {
                proof {
                    lemma_target_at_found(
                        self.characters@,
                        actor as int,
                        x as int,
                        y as int,
                        i as int,
                    );
                }
                return Some(i);
            }
            i = i + 1;
        }
        proof {
            lemma_target_at_missing(self.characters@, actor as int, x as int, y as int);
        }
        None
    }

    /// Applies one action through the single application path: validates
    /// it, debits the actor's readiness by the action's time cost, and
    /// applies every direct effect. An action that violates a turn rule is
    /// refused with [`Error::Policy`] and the world is untouched.
    #[verifier::rlimit(100)]
    pub fn perform_action(&mut self, catalog: &Catalog, actor: usize, action: Action) -> (r:
        Result<(), Error>)
        requires
            old(self).wf(*catalog),
            actor < old(self).characters@.len(),
            old(self).characters@[actor as int].hp > 0,
        ensures
            final(self).wf(*catalog),
            final(self).floor == old(self).floor,
            final(self).characters@.len() == old(self).characters@.len(),
            r is Ok <==> action_legal(*old(self), *catalog, actor as int, action),
            r is Err ==> *final(self) == *old(self) && (r matches Err(e) && e == Error::Policy),
            r is Ok ==> action_applied(*old(self), *final(self), *catalog, actor as int, action),
    {
        let ghost w0 = *self;
        match action {
            Action::Wait(t) => {
                let p = &mut self.characters[actor];
                p.action_delay = p.action_delay.saturating_add(t);
                proof {
                    assert(self.characters@ =~= w0.characters@.update(
                        actor as int,
                        Piece {
                            action_delay: sat_add_u64(
                                w0.characters@[actor as int].action_delay,
                                t,
                            ),
                            ..w0.characters@[actor as int]
                        },
                    ));
                    assert(action_applied(w0, *self, *catalog, actor as int, action));
                }
                Ok(())
            },
            Action::Move(tx, ty) => {
                let (x, y) = {
                    let p = &self.characters[actor];
                    (p.x, p.y)
                };
                let dx64: i64 = tx as i64 - x as i64;
                let dy64: i64 = ty as i64 - y as i64;
                let sx: i32 = if dx64 > 0 {
                    1
                } else if dx64 < 0 {
                    -1
                } else {
                    0
                };
                let sy: i32 = if dy64 > 0 {
                    1
                } else if dy64 < 0 {
                    -1
                } else {
                    0
                };
                let nx = x + sx;
                let ny = y + sy;
                if sx == 0 && sy == 0 {
                    return Err(Error::Policy);
                }
                let walkable = match self.floor.get(nx, ny) {
                    Some(Tile::Wall) => false,
                    Some(_) => true,
                    None => false,
                };
                if !walkable {
                    return Err(Error::Policy);
                }
                if self.find_target(actor, nx, ny).is_some() {
                    return Err(Error::Policy);
                }
                let speed = self.characters[actor].sheet.speed;
                let p = &mut self.characters[actor];
                p.x = nx;
                p.y = ny;
                p.action_delay = p.action_delay.saturating_add(speed);
                proof {
                    let p0 = w0.characters@[actor as int];
                    assert(self.characters@ =~= w0.characters@.update(
                        actor as int,
                        Piece {
                            x: nx,
                            y: ny,
                            action_delay: sat_add_u64(p0.action_delay, p0.sheet.speed),
                            ..p0
                        },
                    ));
                }
                Ok(())
            },
            Action::Attack(idx, tx, ty) => {
                let n_attacks = self.characters[actor].attacks.len();
                if idx as usize >= n_attacks {
                    return Err(Error::Policy);
                }
                let (x, y) = {
                    let p = &self.characters[actor];
                    (p.x, p.y)
                };
                let dx64: i64 = tx as i64 - x as i64;
                let dy64: i64 = ty as i64 - y as i64;
                let is_adjacent = !(dx64 == 0 && dy64 == 0) && -1 <= dx64 && dx64 <= 1 && -1
                    <= dy64 && dy64 <= 1;
                if !is_adjacent {
                    return Err(Error::Policy);
                }
                let t = match self.find_target(actor, tx, ty) {
                    Some(t) => t,
                    None => {
                        return Err(Error::Policy);
                    },
                };
                let att_index = self.characters[actor].attacks[idx as usize];
                let att = catalog.attacks[att_index].1;
                let power = self.characters[actor].stat_outcomes(catalog).stats.power;
                let defense = self.characters[t].stat_outcomes(catalog).stats.defense;
                let raw: i64 = att.magnitude as i64 + power as i64 - defense as i64;
                let dmg: u32 = if raw < 0 {
                    0
                } else if raw > u32::MAX as i64 {
                    u32::MAX
                } else {
                    raw as u32
                };
                let speed = self.characters[actor].sheet.speed;
                {
                    let p = &mut self.characters[actor];
                    p.action_delay = p.action_delay.saturating_add(speed);
                }
                {
                    let target = &mut self.characters[t];
                    target.hp = if dmg as i64 >= target.hp as i64 {
                        0
                    } else {
                        target.hp - dmg as i32
                    };
                }
                match att.inflicts {
                    Some(inf) => {
                        if inf.status < catalog.statuses.len() {
                            let def = &catalog.statuses[inf.status].1;
                            let base = match &def.effect {
                                Effect::Debuff(d) => d.magnitude,
                                Effect::StaticDebuff(_) => 0u32,
                            };
                            let duration = def.duration;
                            let target = &mut self.characters[t];
                            target.inflict(inf.status, duration, base, Some(inf.magnitude));
                        }
                    },
                    None => {},
                }
                proof {
                    let p0 = w0.characters@[actor as int];
                    let t0 = w0.characters@[t as int];
                    let att_s = catalog.attacks@[p0.attacks@[idx as int] as int].1;
                    let d = attack_damage_spec(p0, t0, att_s, *catalog);
                    assert(att_s == att);
                    assert(dmg == d);
                    assert(target_at(w0.characters@, actor as int, tx as int, ty as int) == Some(
                        t as int,
                    ));
                    assert(forall|j: int|
                        0 <= j < w0.characters@.len() && j != actor as int && j != t as int
                            ==> self.characters@[j] == w0.characters@[j]);
                    assert(self.characters@[actor as int] == Piece {
                        action_delay: sat_add_u64(p0.action_delay, p0.sheet.speed),
                        ..p0
                    });
                    assert(self.characters@[t as int].hp == hp_after(t0.hp, d));
                    assert(self.characters@[t as int].sp == t0.sp);
                    assert(self.characters@[t as int].statuses@ == attacked_statuses_spec(
                        t0,
                        att_s,
                        *catalog,
                    ));
                    assert(same_but_pools_and_statuses(self.characters@[t as int], t0));
                }
                Ok(())
            },
            Action::Cast(idx, tx, ty) => {
                let n_spells = self.characters[actor].spells.len();
                if idx as usize >= n_spells {
                    return Err(Error::Policy);
                }
                let spell_index = self.characters[actor].spells[idx as usize];
                let level = catalog.spells[spell_index].1.level;
                if self.characters[actor].sp < level as i32 {
                    return Err(Error::Policy);
                }
                let aff = {
                    let spell = &catalog.spells[spell_index].1;
                    spell.affinity(&self.characters[actor])
                };
                if matches!(aff, Affinity::Uncastable) {
                    return Err(Error::Policy);
                }
                let value: i64 = {
                    let scope = self.characters[actor].scope();
                    match &catalog.spells[spell_index].1.parameters {
                        Parameters::Target { magnitude, .. } => match magnitude {
                            None => 0,
                            Some(e) => match e.eval(&scope) {
                                Ok(v) => v,
                                Err(_) => {
                                    return Err(Error::Policy);
                                },
                            },
                        },
                    }
                };
                let t = match self.find_target(actor, tx, ty) {
                    Some(t) => t,
                    None => {
                        return Err(Error::Policy);
                    },
                };
                let mv: u32 = if value < 0 {
                    0
                } else if value > u32::MAX as i64 {
                    u32::MAX
                } else {
                    value as u32
                };
                let base = aff.magnitude(mv);
                let magic = self.characters[actor].stat_outcomes(catalog).stats.magic;
                let resistance = self.characters[t].stat_outcomes(catalog).stats.resistance;
                let pierce = match &catalog.spells[spell_index].1.parameters {
                    Parameters::Target { pierce_threshold, .. } => *pierce_threshold,
                };
                let after: i64 = base as i64 + magic as i64 - resistance as i64;
                let dmg: u32 = if after >= pierce as i64 {
                    if after < 0 {
                        0
                    } else if after > u32::MAX as i64 {
                        u32::MAX
                    } else {
                        after as u32
                    }
                } else {
                    0
                };
                let speed = self.characters[actor].sheet.speed;
                {
                    let p = &mut self.characters[actor];
                    p.sp = p.sp - level as i32;
                    p.action_delay = p.action_delay.saturating_add(speed);
                }
                {
                    let target = &mut self.characters[t];
                    target.hp = if dmg as i64 >= target.hp as i64 {
                        0
                    } else {
                        target.hp - dmg as i32
                    };
                }
                proof {
                    let p0 = w0.characters@[actor as int];
                    let t0 = w0.characters@[t as int];
                    let spell = catalog.spells@[p0.spells@[idx as int] as int].1;
                    let d = cast_damage_spec(p0, t0, spell, *catalog);
                    assert(self.characters@ =~= w0.characters@.update(
                        actor as int,
                        Piece {
                            sp: (p0.sp - spell.level) as i32,
                            action_delay: sat_add_u64(p0.action_delay, p0.sheet.speed),
                            ..p0
                        },
                    ).update(t as int, Piece { hp: hp_after(t0.hp, d), ..t0 }));
                }
                Ok(())
            },
        }
    }

    /// Pushes a move candidate for one step direction, when that step is
    /// legal.
    fn consider_move_dir(&self, catalog: &Catalog, actor: usize, dx: i32, dy: i32, result: &mut Vec<Consider>)
        requires
            self.floor.wf(),
            actor < self.characters@.len(),
            -1 <= dx <= 1,
            -1 <= dy <= 1,
            !(dx == 0 && dy == 0),
        ensures
            final(result)@.len() >= old(result)@.len(),
            forall|k: int| 0 <= k < old(result)@.len() ==> final(result)@[k] == old(result)@[k],
            forall|k: int|
                old(result)@.len() <= k < final(result)@.len() ==> action_legal(
                    *self,
                    *catalog,
                    actor as int,
                    (#[trigger] final(result)@[k]).action,
                ) && consider_matches(*self, *catalog, actor as int, final(result)@[k]),
            models_of(final(result)@) == models_of(old(result)@) + opt_cand(
                move_cand(*self, actor as int, dx as int, dy as int),
            ),
    {
        let ghost cand = move_cand(*self, actor as int, dx as int, dy as int);
        let (x, y) = {
            let p = &self.characters[actor];
            (p.x, p.y)
        };
        let nx64: i64 = x as i64 + dx as i64;
        let ny64: i64 = y as i64 + dy as i64;
        if nx64 > i32::MAX as i64 || nx64 < i32::MIN as i64 || ny64 > i32::MAX as i64 || ny64
            < i32::MIN as i64 {
            proof {
                assert(cand is None);
                assert(models_of(result@) =~= models_of(result@) + opt_cand(cand));
            }
            return ;
        }
        let nx = nx64 as i32;
        let ny = ny64 as i32;
        let walkable = match self.floor.get(nx, ny) {
            Some(Tile::Wall) => false,
            Some(_) => true,
            None => false,
        };
        if !walkable {
            proof {
                assert(cand is None);
                assert(models_of(result@) =~= models_of(result@) + opt_cand(cand));
            }
            return ;
        }
        if self.find_target(actor, nx, ny).is_some() {
            proof {
                assert(cand is None);
                assert(models_of(result@) =~= models_of(result@) + opt_cand(cand));
            }
            return ;
        }
        let heuristics = vec![Heuristic::Move { x: nx, y: ny }];
        assert(heuristics@ =~= seq![Heuristic::Move { x: nx, y: ny }]);
        let ghost before = result@;
        result.push(Consider { action: Action::Move(nx, ny), heuristics });
        proof {
            lemma_models_push(before, result@.last());
            assert(cand == Some((Action::Move(nx, ny), seq![Heuristic::Move { x: nx, y: ny }])));
            assert(models_of(result@) =~= models_of(before) + opt_cand(cand));
        }
    }

    /// Pushes an attack candidate for every attack in the repertoire and
    /// every adjacent living target.
    fn consider_attacks(&self, catalog: &Catalog, actor: usize, result: &mut Vec<Consider>) -> (pushed: usize)
        requires
            self.wf(*catalog),
            actor < self.characters@.len(),
        ensures
            final(result)@.len() == old(result)@.len() + pushed,
            forall|k: int| 0 <= k < old(result)@.len() ==> final(result)@[k] == old(result)@[k],
            forall|k: int|
                old(result)@.len() <= k < final(result)@.len() ==> action_legal(
                    *self,
                    *catalog,
                    actor as int,
                    (#[trigger] final(result)@[k]).action,
                ) && consider_matches(*self, *catalog, actor as int, final(result)@[k]),
            exists_adjacent_target(*self, actor as int) ==> pushed >= self.characters@[actor as int].attacks@.len(),
            models_of(final(result)@) == models_of(old(result)@) + attacks_spec(
                *self,
                *catalog,
                actor as int,
                self.characters@[actor as int].attacks@.len() as int,
            ),
    {
        let base_len = result.len();
        let ghost base = result@.len() as int;
        let n_attacks = self.characters[actor].attacks.len();
        let n_chars = self.characters.len();
        let (x, y) = {
            let p = &self.characters[actor];
            (p.x, p.y)
        };
        let mut a: usize = 0;
        while a < n_attacks
            invariant
                self.wf(*catalog),
                actor < self.characters@.len(),
                x == self.characters@[actor as int].x,
                y == self.characters@[actor as int].y,
                n_attacks == self.characters@[actor as int].attacks@.len(),
                n_chars == self.characters@.len(),
                a <= n_attacks,
                base_len == base,
                result@.len() >= base,
                forall|k: int| 0 <= k < base ==> result@[k] == old(result)@[k],
                forall|k: int|
                    base <= k < result@.len() ==> action_legal(
                        *self,
                        *catalog,
                        actor as int,
                        (#[trigger] result@[k]).action,
                    ) && consider_matches(*self, *catalog, actor as int, result@[k]),
                exists_adjacent_target(*self, actor as int) ==> result@.len() >= base + a,
                models_of(result@) == models_of(old(result)@) + attacks_spec(
                    *self,
                    *catalog,
                    actor as int,
                    a as int,
                ),
            decreases n_attacks - a,
        {
            let ghost inner_base = result@.len() as int;
            let mut t: usize = 0;
            while t < n_chars
                invariant
                    self.wf(*catalog),
                    actor < self.characters@.len(),
                    x == self.characters@[actor as int].x,
                    y == self.characters@[actor as int].y,
                    n_attacks == self.characters@[actor as int].attacks@.len(),
                    n_chars == self.characters@.len(),
                    a < n_attacks,
                    t <= n_chars,
                    base_len == base,
                    result@.len() >= inner_base >= base,
                    forall|k: int| 0 <= k < base ==> result@[k] == old(result)@[k],
                    forall|k: int|
                        base <= k < result@.len() ==> action_legal(
                            *self,
                            *catalog,
                            actor as int,
                            (#[trigger] result@[k]).action,
                        ) && consider_matches(*self, *catalog, actor as int, result@[k]),
                    (exists|j: int|
                        0 <= j < t && j != actor as int && (#[trigger] self.characters@[j]).hp > 0
                            && adjacent(
                            x as int,
                            y as int,
                            self.characters@[j].x as int,
                            self.characters@[j].y as int,
                        )) ==> result@.len() > inner_base,
                    models_of(result@) == models_of(old(result)@) + attacks_spec(
                        *self,
                        *catalog,
                        actor as int,
                        a as int,
                    ) + attack_targets_spec(*self, *catalog, actor as int, a as int, t as int),
                decreases n_chars - t,
            {
                let c = &self.characters[t];
                let dx64: i64 = c.x as i64 - x as i64;
                let dy64: i64 = c.y as i64 - y as i64;
                let is_adjacent = !(dx64 == 0 && dy64 == 0) && -1 <= dx64 && dx64 <= 1 && -1
                    <= dy64 && dy64 <= 1;
                if t != actor && c.hp > 0 && is_adjacent {
                    let tx = c.x;
                    let ty = c.y;
                    let canonical = match self.find_target(actor, tx, ty) {
                        Some(canonical) => canonical,
                        None => {
                            proof {
                                lemma_target_at_some_of_witness(
                                    self.characters@,
                                    actor as int,
                                    tx as int,
                                    ty as int,
                                    t as int,
                                );
                            }
                            vstd::pervasive::unreached()
                        },
                    };
                    let att_index = self.characters[actor].attacks[a];
                    let att = catalog.attacks[att_index].1;
                    let power = self.characters[actor].stat_outcomes(catalog).stats.power;
                    let defense = self.characters[canonical].stat_outcomes(catalog).stats.defense;
                    let raw: i64 = att.magnitude as i64 + power as i64 - defense as i64;
                    let dmg: u32 = if raw < 0 {
                        0
                    } else if raw > u32::MAX as i64 {
                        u32::MAX
                    } else {
                        raw as u32
                    };
                    let mut heuristics = vec![
                        Heuristic::Damage { target: canonical, amount: dmg },
                    ];
                    match att.inflicts {
                        Some(inf) => {
                            heuristics.push(
                                Heuristic::Debuff { target: canonical, amount: inf.magnitude },
                            );
                            assert(heuristics@ =~= seq![
                                Heuristic::Damage { target: canonical, amount: dmg },
                                Heuristic::Debuff { target: canonical, amount: inf.magnitude },
                            ]);
                        },
                        None => {
                            assert(heuristics@ =~= seq![
                                Heuristic::Damage { target: canonical, amount: dmg },
                            ]);
                        },
                    }
                    let ghost before = result@;
                    result.push(Consider { action: Action::Attack(a as u32, tx, ty), heuristics });
                    proof {
                        let k = result@.len() - 1;
                        assert((a as u32) as int == a as int);
                        assert(result@[k].action == Action::Attack(a as u32, tx, ty));
                        assert(target_at(self.characters@, actor as int, tx as int, ty as int)
                            == Some(canonical as int));
                        assert(action_legal(*self, *catalog, actor as int, result@[k].action));
                        assert(consider_matches(*self, *catalog, actor as int, result@[k]));
                        lemma_models_push(before, result@[k]);
                        assert(attack_cand(*self, *catalog, actor as int, a as int, t as int)
                            == Some((result@[k].action, result@[k].heuristics@)));
                    }
                }
                proof {
                    assert(attack_targets_spec(*self, *catalog, actor as int, a as int, t + 1)
                        == attack_targets_spec(*self, *catalog, actor as int, a as int, t as int)
                        + opt_cand(attack_cand(*self, *catalog, actor as int, a as int, t as int)));
                    assert(models_of(result@) =~= models_of(old(result)@) + attacks_spec(
                        *self,
                        *catalog,
                        actor as int,
                        a as int,
                    ) + attack_targets_spec(*self, *catalog, actor as int, a as int, t + 1));
                }
                t = t + 1;
            }
            proof {
                if exists_adjacent_target(*self, actor as int) {
                    let j = choose|j: int|
                        0 <= j < self.characters@.len() && j != actor as int && (
                        #[trigger] self.characters@[j]).hp > 0 && adjacent(
                            x as int,
                            y as int,
                            self.characters@[j].x as int,
                            self.characters@[j].y as int,
                        );
                    assert(0 <= j < n_chars);
                }
                assert(attacks_spec(*self, *catalog, actor as int, a + 1) == attacks_spec(
                    *self,
                    *catalog,
                    actor as int,
                    a as int,
                ) + attack_targets_spec(*self, *catalog, actor as int, a as int, n_chars as int));
                assert(models_of(result@) =~= models_of(old(result)@) + attacks_spec(
                    *self,
                    *catalog,
                    actor as int,
                    a + 1,
                ));
            }
            a = a + 1;
        }
        result.len() - base_len
    }

    /// Pushes a cast candidate for every castable spell in the repertoire
    /// and every living target.
    fn consider_spells(&self, catalog: &Catalog, actor: usize, result: &mut Vec<Consider>) -> (pushed: usize)
        requires
            self.wf(*catalog),
            actor < self.characters@.len(),
        ensures
            final(result)@.len() == old(result)@.len() + pushed,
            forall|k: int| 0 <= k < old(result)@.len() ==> final(result)@[k] == old(result)@[k],
            forall|k: int|
                old(result)@.len() <= k < final(result)@.len() ==> action_legal(
                    *self,
                    *catalog,
                    actor as int,
                    (#[trigger] final(result)@[k]).action,
                ) && consider_matches(*self, *catalog, actor as int, final(result)@[k]),
            exists_other_alive(*self, actor as int) ==> pushed >= n_castable(
                *self,
                *catalog,
                actor as int,
                self.characters@[actor as int].spells@.len() as int,
            ),
            models_of(final(result)@) == models_of(old(result)@) + spells_spec(
                *self,
                *catalog,
                actor as int,
                self.characters@[actor as int].spells@.len() as int,
            ),
    {
        let base_len = result.len();
        let ghost base = result@.len() as int;
        let n_spells = self.characters[actor].spells.len();
        let n_chars = self.characters.len();
        let mut s: usize = 0;
        while s < n_spells
            invariant
                self.wf(*catalog),
                actor < self.characters@.len(),
                n_spells == self.characters@[actor as int].spells@.len(),
                n_chars == self.characters@.len(),
                s <= n_spells,
                base_len == base,
                result@.len() >= base,
                forall|k: int| 0 <= k < base ==> result@[k] == old(result)@[k],
                forall|k: int|
                    base <= k < result@.len() ==> action_legal(
                        *self,
                        *catalog,
                        actor as int,
                        (#[trigger] result@[k]).action,
                    ) && consider_matches(*self, *catalog, actor as int, result@[k]),
                exists_other_alive(*self, actor as int) ==> result@.len() >= base + n_castable(
                    *self,
                    *catalog,
                    actor as int,
                    s as int,
                ),
                models_of(result@) == models_of(old(result)@) + spells_spec(
                    *self,
                    *catalog,
                    actor as int,
                    s as int,
                ),
            decreases n_spells - s,
        {
            let ghost inner_base = result@.len() as int;
            let spell_index = self.characters[actor].spells[s];
            let level = catalog.spells[spell_index].1.level;
            let castable = self.characters[actor].sp >= level as i32;
            let aff = {
                let spell = &catalog.spells[spell_index].1;
                spell.affinity(&self.characters[actor])
            };
            let castable = castable && !matches!(aff, Affinity::Uncastable);
            let mut value: i64 = 0;
            let mut castable = castable;
            if castable {
                let scope = self.characters[actor].scope();
                match &catalog.spells[spell_index].1.parameters {
                    Parameters::Target { magnitude, .. } => match magnitude {
                        None => {},
                        Some(e) => match e.eval(&scope) {
                            Ok(v) => {
                                value = v;
                            },
                            Err(_) => {
                                castable = false;
                            },
                        },
                    },
                }
            }
            assert(castable == spell_castable(*self, *catalog, actor as int, s as int));
            if castable {
                let mv: u32 = if value < 0 {
                    0
                } else if value > u32::MAX as i64 {
                    u32::MAX
                } else {
                    value as u32
                };
                let base_dmg = aff.magnitude(mv);
                let magic = self.characters[actor].stat_outcomes(catalog).stats.magic;
                let pierce = match &catalog.spells[spell_index].1.parameters {
                    Parameters::Target { pierce_threshold, .. } => *pierce_threshold,
                };
                let mut t: usize = 0;
                while t < n_chars
                    invariant
                        self.wf(*catalog),
                        actor < self.characters@.len(),
                        n_spells == self.characters@[actor as int].spells@.len(),
                        n_chars == self.characters@.len(),
                        s < n_spells,
                        t <= n_chars,
                        base_len == base,
                        result@.len() >= inner_base >= base,
                        spell_index == self.characters@[actor as int].spells@[s as int],
                        spell_castable(*self, *catalog, actor as int, s as int),
                        mv == clamp_u32(
                            match spell_value_spec(
                                self.characters@[actor as int],
                                catalog.spells@[spell_index as int].1,
                            ) {
                                Some(v) => v,
                                None => 0int,
                            },
                        ),
                        aff == affinity_spec(
                            self.characters@[actor as int].sheet.skillset,
                            catalog.spells@[spell_index as int].1.energy,
                            catalog.spells@[spell_index as int].1.harmony,
                        ),
                        base_dmg == aff.magnitude_spec(mv),
                        magic == piece_stats_spec(self.characters@[actor as int], *catalog).magic,
                        pierce == pierce_spec(catalog.spells@[spell_index as int].1),
                        forall|k: int| 0 <= k < base ==> result@[k] == old(result)@[k],
                        forall|k: int|
                            base <= k < result@.len() ==> action_legal(
                                *self,
                                *catalog,
                                actor as int,
                                (#[trigger] result@[k]).action,
                            ) && consider_matches(*self, *catalog, actor as int, result@[k]),
                        (exists|j: int|
                            0 <= j < t && j != actor as int && (
                            #[trigger] self.characters@[j]).hp > 0) ==> result@.len() > inner_base,
                        models_of(result@) == models_of(old(result)@) + spells_spec(
                            *self,
                            *catalog,
                            actor as int,
                            s as int,
                        ) + spell_targets_spec(*self, *catalog, actor as int, s as int, t as int),
                    decreases n_chars - t,
                {
                    let c = &self.characters[t];
                    if t != actor && c.hp > 0 {
                        let tx = c.x;
                        let ty = c.y;
                        let canonical = match self.find_target(actor, tx, ty) {
                            Some(canonical) => canonical,
                            None => {
                                proof {
                                    lemma_target_at_some_of_witness(
                                        self.characters@,
                                        actor as int,
                                        tx as int,
                                        ty as int,
                                        t as int,
                                    );
                                }
                                vstd::pervasive::unreached()
                            },
                        };
                        let resistance = self.characters[canonical].stat_outcomes(
                            catalog,
                        ).stats.resistance;
                        let after: i64 = base_dmg as i64 + magic as i64 - resistance as i64;
                        let dmg: u32 = if after >= pierce as i64 {
                            if after < 0 {
                                0
                            } else if after > u32::MAX as i64 {
                                u32::MAX
                            } else {
                                after as u32
                            }
                        } else {
                            0
                        };
                        let heuristics = vec![
                            Heuristic::Damage { target: canonical, amount: dmg },
                        ];
                        assert(heuristics@ =~= seq![
                            Heuristic::Damage { target: canonical, amount: dmg },
                        ]);
                        let ghost before = result@;
                        result.push(
                            Consider { action: Action::Cast(s as u32, tx, ty), heuristics },
                        );
                        proof {
                            let k = result@.len() - 1;
                            assert((s as u32) as int == s as int);
                            assert(result@[k].action == Action::Cast(s as u32, tx, ty));
                            assert(target_at(self.characters@, actor as int, tx as int, ty as int)
                                == Some(canonical as int));
                            assert(action_legal(*self, *catalog, actor as int, result@[k].action));
                            assert(consider_matches(*self, *catalog, actor as int, result@[k]));
                            lemma_models_push(before, result@[k]);
                            assert(cast_cand(*self, *catalog, actor as int, s as int, t as int)
                                == Some((result@[k].action, result@[k].heuristics@)));
                        }
                    }
                    proof {
                        assert(spell_targets_spec(*self, *catalog, actor as int, s as int, t + 1)
                            == spell_targets_spec(*self, *catalog, actor as int, s as int, t as int)
                            + opt_cand(cast_cand(*self, *catalog, actor as int, s as int, t as int)));
                        assert(models_of(result@) =~= models_of(old(result)@) + spells_spec(
                            *self,
                            *catalog,
                            actor as int,
                            s as int,
                        ) + spell_targets_spec(*self, *catalog, actor as int, s as int, t + 1));
                    }
                    t = t + 1;
                }
                proof {
                    if exists_other_alive(*self, actor as int) {
                        let j = choose|j: int|
                            0 <= j < self.characters@.len() && j != actor as int && (
                            #[trigger] self.characters@[j]).hp > 0;
                        assert(0 <= j < n_chars);
                    }
                }
            }
            proof {
                assert(spells_spec(*self, *catalog, actor as int, s + 1) == spells_spec(
                    *self,
                    *catalog,
                    actor as int,
                    s as int,
                ) + spell_targets_spec(*self, *catalog, actor as int, s as int, n_chars as int));
                if !spell_castable(*self, *catalog, actor as int, s as int) {
                    lemma_spell_targets_empty(
                        *self,
                        *catalog,
                        actor as int,
                        s as int,
                        n_chars as int,
                    );
                }
                assert(models_of(result@) =~= models_of(old(result)@) + spells_spec(
                    *self,
                    *catalog,
                    actor as int,
                    s + 1,
                ));
            }
            s = s + 1;
        }
        result.len() - base_len
    }

    /// Scores the candidate actions for `actor`: every legal step, every
    /// attack against an adjacent living target, every castable spell
    /// against any living target, and waiting out one turn, exactly in
    /// that order — the scored list's value is [`considered_spec`], so
    /// scoring is a function of the world alone. Every candidate is legal
    /// to apply immediately, and each feasible action source contributes
    /// at least one candidate.
    pub fn consider_turn(&self, catalog: &Catalog, actor: usize) -> (r: Vec<Consider>)
        requires
            self.wf(*catalog),
            actor < self.characters@.len(),
        ensures
            forall|k: int|
                0 <= k < r@.len() ==> action_legal(
                    *self,
                    *catalog,
                    actor as int,
                    (#[trigger] r@[k]).action,
                ) && consider_matches(*self, *catalog, actor as int, r@[k]),
            r@.len() >= feasible_sources(*self, *catalog, actor as int),
            models_of(r@) == considered_spec(*self, *catalog, actor as int),
    {
        let mut result: Vec<Consider> = Vec::new();
        assert(models_of(result@) =~= Seq::<(Action, Seq<Heuristic>)>::empty());
        self.consider_move_dir(catalog, actor, 0, -1, &mut result);
        self.consider_move_dir(catalog, actor, 0, 1, &mut result);
        self.consider_move_dir(catalog, actor, -1, 0, &mut result);
        self.consider_move_dir(catalog, actor, 1, 0, &mut result);
        assert(models_of(result@) =~= moves_spec(*self, actor as int));
        self.consider_attacks(catalog, actor, &mut result);
        self.consider_spells(catalog, actor, &mut result);
        let ghost before = result@;
        result.push(Consider { action: Action::Wait(TURN), heuristics: Vec::new() });
        proof {
            lemma_models_push(before, result@.last());
            assert(result@.last().heuristics@ =~= Seq::<Heuristic>::empty());
            assert(models_of(result@) =~= considered_spec(*self, *catalog, actor as int));
        }
        result
    }

    /// Hands the one-shot candidate list to the actor's decision policy
    /// and extracts the chosen action. A list consumed before — a
    /// programmer error — falls back to waiting out one turn instead of
    /// stalling the scheduler.
    pub fn consider_action(&self, policy: DecisionPolicy, considerations: &mut Considerations) -> (r: Action)
        ensures
            final(considerations).items_spec() is None,
            match old(considerations).items_spec() {
                Some(l) => r == choose_spec(policy, l),
                None => r == Action::Wait(TURN),
            },
    {
        match considerations.take() {
            Ok(list) => crate::consider::decide(policy, &list),
            Err(_) => Action::Wait(TURN),
        }
    }
}

} // verus!
