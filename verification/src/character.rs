//! Character pieces: statistics, sheets, and the actions a piece can take.

use vstd::prelude::*;
use vstd::pervasive::VecAdditionalExecFns;
use crate::consider::DecisionPolicy;
use crate::expression::{Error as ExprError, Scope, Variable};
use crate::resources::{index_of_key, Catalog};
use crate::spell::{Energy, Harmony, Skillset};
use crate::status::{on_debuff_at_spec, Duration, Status};
use crate::Error;

verus! {

/// A character's six base statistics.
#[derive(Clone, Copy, Debug, PartialEq, Eq, Structural)]
pub struct Stats {
    /// Health, or HP; Heart Points.
    pub heart: u32,
    /// Magic, or SP; Soul Points.
    pub soul: u32,
    /// Bonus damage applied to physical attacks.
    pub power: u32,
    /// Damage reduction when receiving physical attacks.
    pub defense: u32,
    /// Bonus damage applied to magical attacks.
    pub magic: u32,
    /// Damage reduction when receiving magical attacks.
    /// Also makes harmful spells more likely to fail.
    pub resistance: u32,
}

impl Default for Stats {
    /// All six statistics zero.
    fn default() -> (r: Stats)
        ensures
            r == Stats::zero(),
    {
        Stats { heart: 0, soul: 0, power: 0, defense: 0, magic: 0, resistance: 0 }
    }
}

/// Saturating addition on `u32`, as a mathematical function.
pub open spec fn sat_add_u32(a: u32, b: u32) -> u32 {
    if a + b > u32::MAX {
        u32::MAX
    } else {
        (a + b) as u32
    }
}

impl Stats {
    pub open spec fn zero() -> Stats {
        Stats { heart: 0, soul: 0, power: 0, defense: 0, magic: 0, resistance: 0 }
    }

    /// Field-wise sum; every field must fit in `u32`.
    pub fn add(self, rhs: Stats) -> (r: Stats)
        requires
            self.heart + rhs.heart <= u32::MAX,
            self.soul + rhs.soul <= u32::MAX,
            self.power + rhs.power <= u32::MAX,
            self.defense + rhs.defense <= u32::MAX,
            self.magic + rhs.magic <= u32::MAX,
            self.resistance + rhs.resistance <= u32::MAX,
        ensures
            r.heart == self.heart + rhs.heart,
            r.soul == self.soul + rhs.soul,
            r.power == self.power + rhs.power,
            r.defense == self.defense + rhs.defense,
            r.magic == self.magic + rhs.magic,
            r.resistance == self.resistance + rhs.resistance,
    {
        Stats {
            heart: self.heart + rhs.heart,
            soul: self.soul + rhs.soul,
            power: self.power + rhs.power,
            defense: self.defense + rhs.defense,
            magic: self.magic + rhs.magic,
            resistance: self.resistance + rhs.resistance,
        }
    }

    /// Field-wise sum that clamps at `u32::MAX` instead of overflowing;
    /// used where the summands are data-driven and unbounded.
    pub fn saturating_add(self, rhs: Stats) -> (r: Stats)
        ensures
            r == self.sat_add_spec(rhs),
    {
        Stats {
            heart: self.heart.saturating_add(rhs.heart),
            soul: self.soul.saturating_add(rhs.soul),
            power: self.power.saturating_add(rhs.power),
            defense: self.defense.saturating_add(rhs.defense),
            magic: self.magic.saturating_add(rhs.magic),
            resistance: self.resistance.saturating_add(rhs.resistance),
        }
    }

    pub open spec fn sat_add_spec(self, rhs: Stats) -> Stats {
        Stats {
            heart: sat_add_u32(self.heart, rhs.heart),
            soul: sat_add_u32(self.soul, rhs.soul),
            power: sat_add_u32(self.power, rhs.power),
            defense: sat_add_u32(self.defense, rhs.defense),
            magic: sat_add_u32(self.magic, rhs.magic),
            resistance: sat_add_u32(self.resistance, rhs.resistance),
        }
    }

    /// Field-wise difference; no field may underflow.
    pub fn sub(self, rhs: Stats) -> (r: Stats)
        requires
            rhs.heart <= self.heart,
            rhs.soul <= self.soul,
            rhs.power <= self.power,
            rhs.defense <= self.defense,
            rhs.magic <= self.magic,
            rhs.resistance <= self.resistance,
        ensures
            r.heart == self.heart - rhs.heart,
            r.soul == self.soul - rhs.soul,
            r.power == self.power - rhs.power,
            r.defense == self.defense - rhs.defense,
            r.magic == self.magic - rhs.magic,
            r.resistance == self.resistance - rhs.resistance,
    {
        Stats {
            heart: self.heart - rhs.heart,
            soul: self.soul - rhs.soul,
            power: self.power - rhs.power,
            defense: self.defense - rhs.defense,
            magic: self.magic - rhs.magic,
            resistance: self.resistance - rhs.resistance,
        }
    }

    /// Field-wise product; every product must fit in `u32`.
    pub fn mul(self, rhs: Stats) -> (r: Stats)
        requires
            self.heart * rhs.heart <= u32::MAX,
            self.soul * rhs.soul <= u32::MAX,
            self.power * rhs.power <= u32::MAX,
            self.defense * rhs.defense <= u32::MAX,
            self.magic * rhs.magic <= u32::MAX,
            self.resistance * rhs.resistance <= u32::MAX,
        ensures
            r.heart == self.heart * rhs.heart,
            r.soul == self.soul * rhs.soul,
            r.power == self.power * rhs.power,
            r.defense == self.defense * rhs.defense,
            r.magic == self.magic * rhs.magic,
            r.resistance == self.resistance * rhs.resistance,
    {
        Stats {
            heart: self.heart * rhs.heart,
            soul: self.soul * rhs.soul,
            power: self.power * rhs.power,
            defense: self.defense * rhs.defense,
            magic: self.magic * rhs.magic,
            resistance: self.resistance * rhs.resistance,
        }
    }

    /// Every field scaled by `rhs`; every product must fit in `u32`.
    pub fn scale(self, rhs: u32) -> (r: Stats)
        requires
            self.heart * rhs <= u32::MAX,
            self.soul * rhs <= u32::MAX,
            self.power * rhs <= u32::MAX,
            self.defense * rhs <= u32::MAX,
            self.magic * rhs <= u32::MAX,
            self.resistance * rhs <= u32::MAX,
        ensures
            r.heart == self.heart * rhs,
            r.soul == self.soul * rhs,
            r.power == self.power * rhs,
            r.defense == self.defense * rhs,
            r.magic == self.magic * rhs,
            r.resistance == self.resistance * rhs,
    {
        Stats {
            heart: self.heart * rhs,
            soul: self.soul * rhs,
            power: self.power * rhs,
            defense: self.defense * rhs,
            magic: self.magic * rhs,
            resistance: self.resistance * rhs,
        }
    }

    /// Every field divided by `rhs`, rounding down.
    pub fn div(self, rhs: u32) -> (r: Stats)
        requires
            rhs != 0,
        ensures
            r.heart == self.heart / rhs,
            r.soul == self.soul / rhs,
            r.power == self.power / rhs,
            r.defense == self.defense / rhs,
            r.magic == self.magic / rhs,
            r.resistance == self.resistance / rhs,
    {
        Stats {
            heart: self.heart / rhs,
            soul: self.soul / rhs,
            power: self.power / rhs,
            defense: self.defense / rhs,
            magic: self.magic / rhs,
            resistance: self.resistance / rhs,
        }
    }

    /// The value of the statistic named by `var`, for formulas.
    pub fn get(&self, var: Variable) -> (r: Result<i64, ExprError>)
        ensures
            r == self.get_spec(var),
    {
        match var {
            Variable::Heart => Ok(self.heart as i64),
            Variable::Soul => Ok(self.soul as i64),
            Variable::Power => Ok(self.power as i64),
            Variable::Defense => Ok(self.defense as i64),
            Variable::Magic => Ok(self.magic as i64),
            Variable::Resistance => Ok(self.resistance as i64),
            _ => Err(ExprError::MissingVariable(var)),
        }
    }

    pub open spec fn get_spec(self, var: Variable) -> Result<i64, ExprError> {
        match var {
            Variable::Heart => Ok(self.heart as i64),
            Variable::Soul => Ok(self.soul as i64),
            Variable::Power => Ok(self.power as i64),
            Variable::Defense => Ok(self.defense as i64),
            Variable::Magic => Ok(self.magic as i64),
            Variable::Resistance => Ok(self.resistance as i64),
            _ => Err(ExprError::MissingVariable(var)),
        }
    }

    /// Sum of all six fields, for stating distribution laws.
    pub open spec fn total(self) -> int {
        self.heart + self.soul + self.power + self.defense + self.magic + self.resistance
    }
}

/// Which side a piece fights for.
#[derive(Clone, Copy, Debug, PartialEq, Eq, Structural)]
pub enum Alliance {
    Friendly,
    Enemy,
}

impl Default for Alliance {
    /// Pieces are hostile unless a sheet says otherwise.
    fn default() -> (r: Alliance)
        ensures
            r == Alliance::Enemy,
    {
        Alliance::Enemy
    }
}

/// Anything a character piece can "do".
///
/// This is the only way character logic or player input communicates with
/// pieces. Attacks and spells are named by their index into the acting
/// piece's repertoire, with the target square alongside.
#[derive(Clone, Copy, Debug, PartialEq, Eq, Structural)]
pub enum Action {
    /// Stand still for the given number of time units.
    Wait(u64),
    /// Step toward the given square.
    Move(i32, i32),
    /// Use the attack at this index on the piece at the given square.
    Attack(u32, i32, i32),
    /// Cast the spell at this index on the piece at the given square.
    Cast(u32, i32, i32),
}

/// One statistic of a character sheet:
/// `base + (growth + bonus * weight) * level / 100`,
/// exactly as `u32` arithmetic computes it when nothing overflows.
pub open spec fn stat_field_spec(base: u32, growth: u32, bonus: u32, weight: u32, level: u32) -> int {
    base + (growth + bonus * weight) * level / 100
}

/// The intermediate values of [`stat_field_spec`] all fit in `u32`.
pub open spec fn stat_field_ok(base: u32, growth: u32, bonus: u32, weight: u32, level: u32) -> bool {
    &&& growth + bonus * weight <= u32::MAX
    &&& (growth + bonus * weight) * level <= u32::MAX
    &&& stat_field_spec(base, growth, bonus, weight, level) <= u32::MAX
}

/// Computes one sheet statistic.
fn stat_field(base: u32, growth: u32, bonus: u32, weight: u32, level: u32) -> (r: u32)
    requires
        stat_field_ok(base, growth, bonus, weight, level),
    ensures
        r == stat_field_spec(base, growth, bonus, weight, level),
{
    proof {
        assert((bonus as int) * (weight as int) <= 0xffff_ffff * 0xffff_ffff) by (nonlinear_arith)
            requires
                bonus <= 0xffff_ffffu32,
                weight <= 0xffff_ffffu32,
        ;
        assert((growth + bonus * weight) * (level as int) <= 0xffff_ffff * 0xffff_ffff)
            by (nonlinear_arith)
            requires
                growth + bonus * weight <= 0xffff_ffffu32,
                level <= 0xffff_ffffu32,
        ;
    }
    let bw: u64 = (bonus as u64) * (weight as u64);
    let gbw: u64 = (growth as u64) + bw;
    let m: u64 = gbw * (level as u64);
    let r64: u64 = (base as u64) + m / 100;
    r64 as u32
}

/// Weights that scale random growth bonuses per statistic: the two
/// resource pools grow twice as fast as the four combat statistics.
pub open spec fn bonus_weights() -> Stats {
    Stats { heart: 20, soul: 20, power: 10, defense: 10, magic: 10, resistance: 10 }
}

/// All six statistic formulas of a sheet stay inside `u32`.
pub open spec fn sheet_stats_ok(s: Sheet) -> bool {
    &&& stat_field_ok(s.bases.heart, s.growths.heart, s.growth_bonuses.heart, 20, s.level)
    &&& stat_field_ok(s.bases.soul, s.growths.soul, s.growth_bonuses.soul, 20, s.level)
    &&& stat_field_ok(s.bases.power, s.growths.power, s.growth_bonuses.power, 10, s.level)
    &&& stat_field_ok(s.bases.defense, s.growths.defense, s.growth_bonuses.defense, 10, s.level)
    &&& stat_field_ok(s.bases.magic, s.growths.magic, s.growth_bonuses.magic, 10, s.level)
    &&& stat_field_ok(
        s.bases.resistance,
        s.growths.resistance,
        s.growth_bonuses.resistance,
        10,
        s.level,
    )
}

/// The derived statistics of a sheet at its current level.
pub open spec fn sheet_stats_spec(s: Sheet) -> Stats {
    Stats {
        heart: stat_field_spec(
            s.bases.heart,
            s.growths.heart,
            s.growth_bonuses.heart,
            20,
            s.level,
        ) as u32,
        soul: stat_field_spec(s.bases.soul, s.growths.soul, s.growth_bonuses.soul, 20, s.level)
            as u32,
        power: stat_field_spec(
            s.bases.power,
            s.growths.power,
            s.growth_bonuses.power,
            10,
            s.level,
        ) as u32,
        defense: stat_field_spec(
            s.bases.defense,
            s.growths.defense,
            s.growth_bonuses.defense,
            10,
            s.level,
        ) as u32,
        magic: stat_field_spec(
            s.bases.magic,
            s.growths.magic,
            s.growth_bonuses.magic,
            10,
            s.level,
        ) as u32,
        resistance: stat_field_spec(
            s.bases.resistance,
            s.growths.resistance,
            s.growth_bonuses.resistance,
            10,
            s.level,
        ) as u32,
    }
}

/// A character sheet: the data a piece is built from.
#[derive(Clone, Debug)]
pub struct Sheet {
    pub icon: String,
    /// The character's name.
    pub nouns: String,
    pub level: u32,
    pub experience: u32,
    pub bases: Stats,
    pub growths: Stats,
    pub growth_bonuses: Stats,
    pub skillset: Skillset,
    /// Time units one of this character's turns costs.
    pub speed: u64,
    /// Names of attack definitions in the catalog.
    pub attacks: Vec<String>,
    /// Names of spell definitions in the catalog.
    pub spells: Vec<String>,
    /// Policy that decides on an action from a list of considerations.
    pub on_consider: DecisionPolicy,
}

impl Sheet {
    /// The derived statistics at the sheet's current level: each base plus
    /// its weighted growth.
    pub fn stats(&self) -> (r: Stats)
        requires
            sheet_stats_ok(*self),
        ensures
            r == sheet_stats_spec(*self),
    {
        Stats {
            heart: stat_field(
                self.bases.heart,
                self.growths.heart,
                self.growth_bonuses.heart,
                20,
                self.level,
            ),
            soul: stat_field(
                self.bases.soul,
                self.growths.soul,
                self.growth_bonuses.soul,
                20,
                self.level,
            ),
            power: stat_field(
                self.bases.power,
                self.growths.power,
                self.growth_bonuses.power,
                10,
                self.level,
            ),
            defense: stat_field(
                self.bases.defense,
                self.growths.defense,
                self.growth_bonuses.defense,
                10,
                self.level,
            ),
            magic: stat_field(
                self.bases.magic,
                self.growths.magic,
                self.growth_bonuses.magic,
                10,
                self.level,
            ),
            resistance: stat_field(
                self.bases.resistance,
                self.growths.resistance,
                self.growth_bonuses.resistance,
                10,
                self.level,
            ),
        }
    }

    /// The value of a sheet-level variable, for formulas.
    pub fn get(&self, var: Variable) -> (r: Result<i64, ExprError>)
        requires
            sheet_stats_ok(*self),
        ensures
            r == sheet_get_spec(*self, var),
    {
        match var {
            Variable::Level => Ok(self.level as i64),
            Variable::Speed => {
                if self.speed > i64::MAX as u64 {
                    Err(ExprError::Overflow)
                } else {
                    Ok(self.speed as i64)
                }
            },
            _ => self.stats().get(var),
        }
    }
}

/// The value of a sheet-level variable: its level, its speed, or one of
/// its derived statistics.
pub open spec fn sheet_get_spec(s: Sheet, var: Variable) -> Result<i64, ExprError> {
    match var {
        Variable::Level => Ok(s.level as i64),
        Variable::Speed => if s.speed > i64::MAX {
            Err(ExprError::Overflow)
        } else {
            Ok(s.speed as i64)
        },
        _ => sheet_stats_spec(s).get_spec(var),
    }
}

/// Relies on rand's `Rng::gen_range` over `0..n`: a draw from that range,
/// which panics only when the range is empty.
#[verifier::external_body]
fn pick_slot(n: usize) -> (r: usize)
    requires
        n > 0,
    ensures
        r < n,
{
    rand::Rng::gen_range(&mut rand::thread_rng(), 0..n)
}

/// Distributes ten random bonus points over the six statistics, preferring
/// to re-roll once when the first choice lands on a statistic that is
/// still zero.
pub fn growth_bonuses() -> (r: Stats)
    ensures
        r.total() == 10,
{
    let mut heart: u32 = 0;
    let mut soul: u32 = 0;
    let mut power: u32 = 0;
    let mut defense: u32 = 0;
    let mut magic: u32 = 0;
    let mut resistance: u32 = 0;
    let mut i: u32 = 0;
    while i < 10
        invariant
            i <= 10,
            heart + soul + power + defense + magic + resistance == i,
        decreases 10 - i,
    {
        let first = pick_slot(6);
        let current: u32 = match first {
            0 => heart,
            1 => soul,
            2 => power,
            3 => defense,
            4 => magic,
            _ => resistance,
        };
        // Prefer skipping statistics that are still zero.
        let slot = if current == 0 {
            pick_slot(6)
        } else {
            first
        };
        match slot {
            0 => heart = heart + 1,
            1 => soul = soul + 1,
            2 => power = power + 1,
            3 => defense = defense + 1,
            4 => magic = magic + 1,
            _ => resistance = resistance + 1,
        }
        i = i + 1;
    }
    Stats { heart, soul, power, defense, magic, resistance }
}

/// A cheap handle naming a piece: its index in the world's arena.
/// Pieces are owned by the world alone; every cross-reference goes
/// through such an index.
#[derive(Clone, Copy, Debug, PartialEq, Eq, Structural)]
pub struct Ref(pub usize);

impl Ref {
    pub fn new(index: usize) -> (r: Ref)
        ensures
            r.0 == index,
    {
        Ref(index)
    }
}

/// One status effect as it rests on a piece: which catalog definition it
/// is, how much magnitude it has accumulated, and how long it lasts.
/// Effects are merged by accumulating magnitude, never duplicated.
#[derive(Clone, Copy, Debug, PartialEq, Eq, Structural)]
pub struct StatusEntry {
    /// Index into the catalog's status table.
    pub status: usize,
    pub magnitude: u32,
    pub duration: Duration,
}

/// A piece's statistics together with what moved them off the sheet.
#[derive(Clone, Copy, Debug, PartialEq, Eq, Structural)]
pub struct StatOutcomes {
    pub stats: Stats,
    pub buffs: Stats,
    pub debuffs: Stats,
}

/// Saturating subtraction on `u32`.
pub open spec fn sat_sub_u32(a: u32, b: u32) -> u32 {
    if a >= b {
        (a - b) as u32
    } else {
        0u32
    }
}

/// The statistic loss one status entry contributes; an entry naming a
/// missing catalog definition contributes nothing.
pub open spec fn entry_debuff_spec(e: StatusEntry, statuses: Seq<(String, Status)>) -> Stats {
    if e.status < statuses.len() {
        on_debuff_at_spec(statuses[e.status as int].1, e.magnitude)
    } else {
        Stats::zero()
    }
}

/// Saturating sum of all entries' losses, folded front to back.
pub open spec fn debuff_fold(
    entries: Seq<StatusEntry>,
    statuses: Seq<(String, Status)>,
    acc: Stats,
) -> Stats
    decreases entries.len(),
{
    if entries.len() == 0 {
        acc
    } else {
        debuff_fold(
            entries.skip(1),
            statuses,
            acc.sat_add_spec(entry_debuff_spec(entries[0], statuses)),
        )
    }
}

/// The status entries that survive the start of a turn.
pub open spec fn retain_non_turn(entries: Seq<StatusEntry>) -> Seq<StatusEntry> {
    entries.filter(|e: StatusEntry| e.duration !== Duration::Turn)
}

/// The status entries that survive a rest.
pub open spec fn retain_non_rest(entries: Seq<StatusEntry>) -> Seq<StatusEntry> {
    entries.filter(|e: StatusEntry| e.duration !== Duration::Rest)
}

/// A mutable simulation entity: one character piece on the board.
#[derive(Clone, Debug)]
pub struct Piece {
    pub sheet: Sheet,
    pub hp: i32,
    pub sp: i32,
    /// Active status effects, at most one entry per catalog status.
    pub statuses: Vec<StatusEntry>,
    /// Catalog indices of the attacks this piece knows.
    pub attacks: Vec<usize>,
    /// Catalog indices of the spells this piece knows.
    pub spells: Vec<usize>,
    pub x: i32,
    pub y: i32,
    /// Time units until this piece may act again; lower is sooner.
    pub action_delay: u64,
    pub player_controlled: bool,
    pub alliance: Alliance,
    /// Transient storage used only while an action is being resolved.
    pub next_action: Option<Action>,
}

/// Everything but hit points, soul points and statuses is the same.
pub open spec fn same_but_pools_and_statuses(a: Piece, b: Piece) -> bool {
    &&& a.sheet == b.sheet
    &&& a.attacks == b.attacks
    &&& a.spells == b.spells
    &&& a.x == b.x
    &&& a.y == b.y
    &&& a.action_delay == b.action_delay
    &&& a.player_controlled == b.player_controlled
    &&& a.alliance == b.alliance
    &&& a.next_action == b.next_action
}

/// What the piece's statistics come to once every active debuff is
/// subtracted (saturating at zero) and every buff added; buffs are not
/// modelled yet and stay zero.
pub open spec fn stat_outcomes_spec(p: Piece, catalog: Catalog) -> StatOutcomes {
    let debuffs = debuff_fold(p.statuses@, catalog.statuses@, Stats::zero());
    let base = sheet_stats_spec(p.sheet);
    StatOutcomes {
        stats: Stats {
            heart: sat_sub_u32(base.heart, debuffs.heart),
            soul: sat_sub_u32(base.soul, debuffs.soul),
            power: sat_sub_u32(base.power, debuffs.power),
            defense: sat_sub_u32(base.defense, debuffs.defense),
            magic: sat_sub_u32(base.magic, debuffs.magic),
            resistance: sat_sub_u32(base.resistance, debuffs.resistance),
        },
        buffs: Stats::zero(),
        debuffs,
    }
}

/// The piece's effective statistics.
pub open spec fn piece_stats_spec(p: Piece, catalog: Catalog) -> Stats {
    stat_outcomes_spec(p, catalog).stats
}

/// A restored pool: the old value plus the restored amount, clamped at
/// the pool's maximum.
pub open spec fn restore_spec(pool: i32, amount: u32, max: u32) -> int {
    if pool + amount > max {
        max as int
    } else {
        pool + amount
    }
}

/// Index of the first status entry for catalog status `status`, if any.
pub open spec fn find_entry(entries: Seq<StatusEntry>, status: usize) -> Option<int>
    decreases entries.len(),
{
    if entries.len() == 0 {
        None
    } else if entries[0].status == status {
        Some(0int)
    } else {
        match find_entry(entries.skip(1), status) {
            Some(i) => Some(i + 1),
            None => None,
        }
    }
}

/// When the first `i` entries miss and entry `i` matches, the search finds `i`.
proof fn lemma_find_entry_found(entries: Seq<StatusEntry>, status: usize, i: int)
    requires
        0 <= i < entries.len(),
        forall|j: int| 0 <= j < i ==> entries[j].status != status,
        entries[i].status == status,
    ensures
        find_entry(entries, status) == Some(i),
    decreases i,
{
    if i == 0 {
    } else {
        assert(entries.skip(1)[i - 1] == entries[i]);
        assert(forall|j: int| 0 <= j < i - 1 ==> entries.skip(1)[j] == entries[j + 1]);
        lemma_find_entry_found(entries.skip(1), status, i - 1);
    }
}

/// When no entry matches at all, the search misses.
proof fn lemma_find_entry_missing(entries: Seq<StatusEntry>, status: usize)
    requires
        forall|j: int| 0 <= j < entries.len() ==> entries[j].status != status,
    ensures
        find_entry(entries, status) is None,
    decreases entries.len(),
{
    if entries.len() == 0 {
    } else {
        assert(forall|j: int| 0 <= j < entries.len() - 1 ==> entries.skip(1)[j] == entries[j + 1]);
        lemma_find_entry_missing(entries.skip(1), status);
    }
}

/// The sheet's statistic formulas stay in range and the two pools fit the
/// signed fields that hold them.
pub open spec fn piece_new_ok(sheet: Sheet) -> bool {
    &&& sheet_stats_ok(sheet)
    &&& sheet_stats_spec(sheet).heart <= i32::MAX
    &&& sheet_stats_spec(sheet).soul <= i32::MAX
}

impl Piece {
    /// Builds a fresh piece from a sheet, resolving every attack and spell
    /// name against the catalog. Fails with [`Error::NotFound`] exactly
    /// when a name has no definition.
    pub fn new(sheet: Sheet, resources: &Catalog) -> (r: Result<Piece, Error>)
        requires
            piece_new_ok(sheet),
        ensures
            match r {
                Ok(p) => {
                    &&& p.sheet == sheet
                    &&& p.hp == sheet_stats_spec(sheet).heart as i32
                    &&& p.sp == sheet_stats_spec(sheet).soul as i32
                    &&& p.statuses@ == Seq::<StatusEntry>::empty()
                    &&& p.attacks@.len() == sheet.attacks@.len()
                    &&& forall|i: int|
                        0 <= i < sheet.attacks@.len() ==> index_of_key(
                            resources.attacks@,
                            sheet.attacks@[i]@,
                        ) == Some(#[trigger] p.attacks@[i] as int)
                    &&& p.spells@.len() == sheet.spells@.len()
                    &&& forall|i: int|
                        0 <= i < sheet.spells@.len() ==> index_of_key(
                            resources.spells@,
                            sheet.spells@[i]@,
                        ) == Some(#[trigger] p.spells@[i] as int)
                    &&& p.x == 0 && p.y == 0
                    &&& p.action_delay == 0
                    &&& !p.player_controlled
                    &&& p.alliance == Alliance::Enemy
                    &&& p.next_action is None
                },
                Err(e) => {
                    &&& e matches Error::NotFound(n)
                    &&& (index_of_key(resources.attacks@, n@) is None || index_of_key(
                        resources.spells@,
                        n@,
                    ) is None)
                },
            },
    {
        let stats = sheet.stats();
        let hp = stats.heart as i32;
        let sp = stats.soul as i32;
        let mut attacks: Vec<usize> = Vec::new();
        let mut i: usize = 0;
        while i < sheet.attacks.len()
            invariant
                i <= sheet.attacks@.len(),
                attacks@.len() == i,
                forall|j: int|
                    0 <= j < i ==> index_of_key(resources.attacks@, sheet.attacks@[j]@) == Some(
                        #[trigger] attacks@[j] as int,
                    ),
            decreases sheet.attacks@.len() - i,
        {
            match resources.find_attack(&sheet.attacks[i]) {
                Some(idx) => attacks.push(idx),
                None => {
                    return Err(Error::NotFound(sheet.attacks[i].clone()));
                },
            }
            i = i + 1;
        }
        let mut spells: Vec<usize> = Vec::new();
        let mut i: usize = 0;
        while i < sheet.spells.len()
            invariant
                i <= sheet.spells@.len(),
                spells@.len() == i,
                forall|j: int|
                    0 <= j < i ==> index_of_key(resources.spells@, sheet.spells@[j]@) == Some(
                        #[trigger] spells@[j] as int,
                    ),
            decreases sheet.spells@.len() - i,
        {
            match resources.find_spell(&sheet.spells[i]) {
                Some(idx) => spells.push(idx),
                None => {
                    return Err(Error::NotFound(sheet.spells[i].clone()));
                },
            }
            i = i + 1;
        }
        Ok(
            Piece {
                sheet,
                hp,
                sp,
                statuses: Vec::new(),
                attacks,
                spells,
                x: 0,
                y: 0,
                action_delay: 0,
                player_controlled: false,
                alliance: Alliance::Enemy,
                next_action: None,
            },
        )
    }

    /// Starts the piece's turn: status effects that last one turn wear off.
    pub fn new_turn(&mut self)
        ensures
            final(self).statuses@ == retain_non_turn(old(self).statuses@),
            final(self).hp == old(self).hp,
            final(self).sp == old(self).sp,
            same_but_pools_and_statuses(*final(self), *old(self)),
    {
        let mut kept: Vec<StatusEntry> = Vec::new();
        let mut i: usize = 0;
        proof {
            reveal_with_fuel(Seq::<StatusEntry>::filter, 1);
            assert(old(self).statuses@.take(0) =~= Seq::<StatusEntry>::empty());
            assert(kept@ =~= retain_non_turn(old(self).statuses@.take(0)));
        }
        while i < self.statuses.len()
            invariant
                i <= self.statuses@.len(),
                self == old(self),
                kept@ == retain_non_turn(old(self).statuses@.take(i as int)),
            decreases self.statuses@.len() - i,
        {
            let e = self.statuses[i];
            proof {
                reveal_with_fuel(Seq::<StatusEntry>::filter, 2);
                let entries = old(self).statuses@;
                let prefix = entries.take(i + 1);
                assert(prefix.drop_last() =~= entries.take(i as int));
                assert(prefix.last() == entries[i as int]);
                assert(retain_non_turn(prefix) == if entries[i as int].duration
                    !== Duration::Turn {
                    retain_non_turn(entries.take(i as int)).push(entries[i as int])
                } else {
                    retain_non_turn(entries.take(i as int))
                });
            }
            match e.duration {
                Duration::Turn => {},
                Duration::Rest => kept.push(e),
            }
            i = i + 1;
        }
        assert(old(self).statuses@.take(i as int) =~= old(self).statuses@);
        self.statuses = kept;
    }

    /// Restores up to `amount` hit points, clamped at the piece's
    /// effective maximum.
    pub fn restore_hp(&mut self, amount: u32, catalog: &Catalog)
        requires
            sheet_stats_ok(old(self).sheet),
            piece_stats_spec(*old(self), *catalog).heart <= i32::MAX,
        ensures
            final(self).hp == restore_spec(
                old(self).hp,
                amount,
                piece_stats_spec(*old(self), *catalog).heart,
            ),
            final(self).sp == old(self).sp,
            final(self).statuses == old(self).statuses,
            same_but_pools_and_statuses(*final(self), *old(self)),
    {
        let max = self.stats(catalog).heart;
        let candidate: i64 = self.hp as i64 + amount as i64;
        self.hp = if candidate > max as i64 {
            max as i32
        } else {
            candidate as i32
        };
    }

    /// Restores up to `amount` soul points, clamped at the piece's
    /// effective maximum.
    pub fn restore_sp(&mut self, amount: u32, catalog: &Catalog)
        requires
            sheet_stats_ok(old(self).sheet),
            piece_stats_spec(*old(self), *catalog).soul <= i32::MAX,
        ensures
            final(self).sp == restore_spec(
                old(self).sp,
                amount,
                piece_stats_spec(*old(self), *catalog).soul,
            ),
            final(self).hp == old(self).hp,
            final(self).statuses == old(self).statuses,
            same_but_pools_and_statuses(*final(self), *old(self)),
    {
        let max = self.stats(catalog).soul;
        let candidate: i64 = self.sp as i64 + amount as i64;
        self.sp = if candidate > max as i64 {
            max as i32
        } else {
            candidate as i32
        };
    }

    /// Rests: half the piece's heart in hit points and all of its soul in
    /// soul points come back, then every effect lasting until a rest wears
    /// off. The pools are measured before any effect is removed.
    pub fn rest(&mut self, catalog: &Catalog)
        requires
            sheet_stats_ok(old(self).sheet),
            piece_stats_spec(*old(self), *catalog).heart <= i32::MAX,
            piece_stats_spec(*old(self), *catalog).soul <= i32::MAX,
        ensures
            final(self).hp == restore_spec(
                old(self).hp,
                (piece_stats_spec(*old(self), *catalog).heart / 2) as u32,
                piece_stats_spec(*old(self), *catalog).heart,
            ),
            final(self).sp == restore_spec(
                old(self).sp,
                piece_stats_spec(*old(self), *catalog).soul,
                piece_stats_spec(*old(self), *catalog).soul,
            ),
            final(self).statuses@ == retain_non_rest(old(self).statuses@),
            same_but_pools_and_statuses(*final(self), *old(self)),
    {
        let stats = self.stats(catalog);
        self.restore_hp(stats.heart / 2, catalog);
        self.restore_sp(stats.soul, catalog);
        let mut kept: Vec<StatusEntry> = Vec::new();
        let mut i: usize = 0;
        let ghost entries = self.statuses@;
        proof {
            reveal_with_fuel(Seq::<StatusEntry>::filter, 1);
            assert(entries.take(0) =~= Seq::<StatusEntry>::empty());
            assert(kept@ =~= retain_non_rest(entries.take(0)));
        }
        while i < self.statuses.len()
            invariant
                i <= entries.len(),
                self.statuses@ == entries,
                kept@ == retain_non_rest(entries.take(i as int)),
            decreases entries.len() - i,
        {
            let e = self.statuses[i];
            proof {
                reveal_with_fuel(Seq::<StatusEntry>::filter, 2);
                let prefix = entries.take(i + 1);
                assert(prefix.drop_last() =~= entries.take(i as int));
                assert(prefix.last() == entries[i as int]);
                assert(retain_non_rest(prefix) == if entries[i as int].duration
                    !== Duration::Rest {
                    retain_non_rest(entries.take(i as int)).push(entries[i as int])
                } else {
                    retain_non_rest(entries.take(i as int))
                });
            }
            match e.duration {
                Duration::Rest => {},
                Duration::Turn => kept.push(e),
            }
            i = i + 1;
        }
        assert(entries.take(i as int) =~= entries);
        self.statuses = kept;
    }

    /// The piece's effective statistics: sheet statistics minus debuffs.
    pub fn stats(&self, catalog: &Catalog) -> (r: Stats)
        requires
            sheet_stats_ok(self.sheet),
        ensures
            r == piece_stats_spec(*self, *catalog),
    {
        self.stat_outcomes(catalog).stats
    }

    /// The piece's statistics together with the buffs and debuffs that
    /// moved them.
    pub fn stat_outcomes(&self, catalog: &Catalog) -> (r: StatOutcomes)
        requires
            sheet_stats_ok(self.sheet),
        ensures
            r == stat_outcomes_spec(*self, *catalog),
    {
        let buffs = Stats::default();
        let mut debuffs = Stats::default();
        let mut i: usize = 0;
        assert(self.statuses@.skip(0) =~= self.statuses@);
        while i < self.statuses.len()
            invariant
                i <= self.statuses@.len(),
                debuff_fold(self.statuses@, catalog.statuses@, Stats::zero()) == debuff_fold(
                    self.statuses@.skip(i as int),
                    catalog.statuses@,
                    debuffs,
                ),
            decreases self.statuses@.len() - i,
        {
            let e = self.statuses[i];
            assert(self.statuses@.skip(i as int)[0] == self.statuses@[i as int]);
            let loss = if e.status < catalog.statuses.len() {
                catalog.statuses[e.status].1.on_debuff_at(e.magnitude)
            } else {
                Stats::default()
            };
            assert(self.statuses@.skip(i as int).skip(1) =~= self.statuses@.skip(i + 1));
            debuffs = debuffs.saturating_add(loss);
            i = i + 1;
        }
        assert(self.statuses@.skip(i as int) =~= Seq::<StatusEntry>::empty());
        let base = self.sheet.stats();
        let stats = Stats {
            heart: base.heart.saturating_sub(debuffs.heart) + buffs.heart,
            soul: base.soul.saturating_sub(debuffs.soul) + buffs.soul,
            power: base.power.saturating_sub(debuffs.power) + buffs.power,
            defense: base.defense.saturating_sub(debuffs.defense) + buffs.defense,
            magic: base.magic.saturating_sub(debuffs.magic) + buffs.magic,
            resistance: base.resistance.saturating_sub(debuffs.resistance) + buffs.resistance,
        };
        StatOutcomes { stats, buffs, debuffs }
    }

    /// The value of a piece-level variable, for formulas: its pools, or a
    /// sheet-level variable.
    pub fn get(&self, var: Variable) -> (r: Result<i64, ExprError>)
        requires
            sheet_stats_ok(self.sheet),
        ensures
            r == piece_get_spec(*self, var),
    {
        match var {
            Variable::Hp => Ok(self.hp as i64),
            Variable::Sp => Ok(self.sp as i64),
            _ => self.sheet.get(var),
        }
    }

    /// The scope a formula is evaluated under for this piece: both pools,
    /// level and speed, and the sheet's derived statistics.
    pub fn scope(&self) -> (r: Scope)
        requires
            sheet_stats_ok(self.sheet),
            self.sheet.speed <= i64::MAX,
        ensures
            r.entries@ == piece_scope_spec(*self),
    {
        let stats = self.sheet.stats();
        let mut scope = Scope::new();
        scope.bind(Variable::Hp, self.hp as i64);
        scope.bind(Variable::Sp, self.sp as i64);
        scope.bind(Variable::Level, self.sheet.level as i64);
        scope.bind(Variable::Speed, self.sheet.speed as i64);
        scope.bind(Variable::Heart, stats.heart as i64);
        scope.bind(Variable::Soul, stats.soul as i64);
        scope.bind(Variable::Power, stats.power as i64);
        scope.bind(Variable::Defense, stats.defense as i64);
        scope.bind(Variable::Magic, stats.magic as i64);
        scope.bind(Variable::Resistance, stats.resistance as i64);
        assert(scope.entries@ =~= piece_scope_spec(*self));
        scope
    }

    /// Initialises a status effect on the piece, or accumulates `amount`
    /// onto it if it is already active. A fresh effect starts from the
    /// definition's base magnitude and keeps the given duration.
    pub fn inflict(
        &mut self,
        status: usize,
        duration: Duration,
        base_magnitude: u32,
        amount: Option<u32>,
    )
        ensures
            final(self).hp == old(self).hp,
            final(self).sp == old(self).sp,
            same_but_pools_and_statuses(*final(self), *old(self)),
            match find_entry(old(self).statuses@, status) {
                Some(j) => final(self).statuses@ == match amount {
                    Some(a) => old(self).statuses@.update(
                        j,
                        StatusEntry {
                            magnitude: sat_add_u32(old(self).statuses@[j].magnitude, a),
                            ..old(self).statuses@[j]
                        },
                    ),
                    None => old(self).statuses@,
                },
                None => final(self).statuses@ == old(self).statuses@.push(
                    StatusEntry {
                        status,
                        magnitude: match amount {
                            Some(a) => sat_add_u32(base_magnitude, a),
                            None => base_magnitude,
                        },
                        duration,
                    },
                ),
            },
    {
        let mut i: usize = 0;
        while i < self.statuses.len()
            invariant
                i <= self.statuses@.len(),
                self == old(self),
                forall|j: int| 0 <= j < i ==> self.statuses@[j].status != status,
            decreases self.statuses@.len() - i,
        {
            let e = self.statuses[i];
            if e.status == status {
                proof {
                    lemma_find_entry_found(self.statuses@, status, i as int);
                }
                match amount {
                    Some(a) => {
                        let updated = StatusEntry {
                            magnitude: e.magnitude.saturating_add(a),
                            ..e
                        };
                        self.statuses.set(i, updated);
                    },
                    None => {},
                }
                return ;
            }
            i = i + 1;
        }
        proof {
            lemma_find_entry_missing(self.statuses@, status);
        }
        let magnitude = match amount {
            Some(a) => base_magnitude.saturating_add(a),
            None => base_magnitude,
        };
        self.statuses.push(StatusEntry { status, magnitude, duration });
    }

    /// Overrides the sheet's skillset by a numbered affinity, for
    /// debugging; indices beyond the twelve skillsets are rejected.
    pub fn force_affinity(&mut self, index: u32) -> (r: Result<(), Error>)
        ensures
            match skillset_of_index(index) {
                Some(s) => r is Ok && final(self).sheet.skillset == s,
                None => r matches Err(e) && e == Error::Policy && *final(self) == *old(self),
            },
            index <= 11 <==> r is Ok,
            final(self).hp == old(self).hp,
            final(self).sp == old(self).sp,
            final(self).statuses == old(self).statuses,
            final(self).sheet.bases == old(self).sheet.bases,
            final(self).sheet.level == old(self).sheet.level,
            final(self).x == old(self).x,
            final(self).y == old(self).y,
            final(self).action_delay == old(self).action_delay,
    {
        let skillset = match index {
            0 => Skillset::EnergyMajor { major: Energy::Positive, minor: None },
            1 => Skillset::EnergyMajor { major: Energy::Positive, minor: Some(Harmony::Chaos) },
            2 => Skillset::EnergyMajor { major: Energy::Positive, minor: Some(Harmony::Order) },
            3 => Skillset::EnergyMajor { major: Energy::Negative, minor: None },
            4 => Skillset::EnergyMajor { major: Energy::Negative, minor: Some(Harmony::Chaos) },
            5 => Skillset::EnergyMajor { major: Energy::Negative, minor: Some(Harmony::Order) },
            6 => Skillset::HarmonyMajor { major: Harmony::Chaos, minor: None },
            7 => Skillset::HarmonyMajor { major: Harmony::Chaos, minor: Some(Energy::Positive) },
            8 => Skillset::HarmonyMajor { major: Harmony::Chaos, minor: Some(Energy::Negative) },
            9 => Skillset::HarmonyMajor { major: Harmony::Order, minor: None },
            10 => Skillset::HarmonyMajor { major: Harmony::Order, minor: Some(Energy::Positive) },
            11 => Skillset::HarmonyMajor { major: Harmony::Order, minor: Some(Energy::Negative) },
            _ => {
                return Err(Error::Policy);
            },
        };
        self.sheet.skillset = skillset;
        Ok(())
    }
}

/// The value of a piece-level variable: a pool, or a sheet variable.
pub open spec fn piece_get_spec(p: Piece, var: Variable) -> Result<i64, ExprError> {
    match var {
        Variable::Hp => Ok(p.hp as i64),
        Variable::Sp => Ok(p.sp as i64),
        _ => sheet_get_spec(p.sheet, var),
    }
}

/// The bindings a formula sees when evaluated for a piece.
pub open spec fn piece_scope_spec(p: Piece) -> Seq<(Variable, i64)> {
    seq![
        (Variable::Hp, p.hp as i64),
        (Variable::Sp, p.sp as i64),
        (Variable::Level, p.sheet.level as i64),
        (Variable::Speed, p.sheet.speed as i64),
        (Variable::Heart, sheet_stats_spec(p.sheet).heart as i64),
        (Variable::Soul, sheet_stats_spec(p.sheet).soul as i64),
        (Variable::Power, sheet_stats_spec(p.sheet).power as i64),
        (Variable::Defense, sheet_stats_spec(p.sheet).defense as i64),
        (Variable::Magic, sheet_stats_spec(p.sheet).magic as i64),
        (Variable::Resistance, sheet_stats_spec(p.sheet).resistance as i64),
    ]
}

/// The numbered skillsets [`Piece::force_affinity`] can force.
pub open spec fn skillset_of_index(index: u32) -> Option<Skillset> {
    match index {
        0u32 => Some(Skillset::EnergyMajor { major: Energy::Positive, minor: None }),
        1u32 => Some(Skillset::EnergyMajor { major: Energy::Positive, minor: Some(Harmony::Chaos) }),
        2u32 => Some(Skillset::EnergyMajor { major: Energy::Positive, minor: Some(Harmony::Order) }),
        3u32 => Some(Skillset::EnergyMajor { major: Energy::Negative, minor: None }),
        4u32 => Some(Skillset::EnergyMajor { major: Energy::Negative, minor: Some(Harmony::Chaos) }),
        5u32 => Some(Skillset::EnergyMajor { major: Energy::Negative, minor: Some(Harmony::Order) }),
        6u32 => Some(Skillset::HarmonyMajor { major: Harmony::Chaos, minor: None }),
        7u32 => Some(Skillset::HarmonyMajor { major: Harmony::Chaos, minor: Some(Energy::Positive) }),
        8u32 => Some(Skillset::HarmonyMajor { major: Harmony::Chaos, minor: Some(Energy::Negative) }),
        9u32 => Some(Skillset::HarmonyMajor { major: Harmony::Order, minor: None }),
        10u32 => Some(Skillset::HarmonyMajor { major: Harmony::Order, minor: Some(Energy::Positive) }),
        11u32 => Some(Skillset::HarmonyMajor { major: Harmony::Order, minor: Some(Energy::Negative) }),
        _ => None,
    }
}

} // verus!
