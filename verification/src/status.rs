//! Status effects: lasting debuffs a piece accumulates.

use vstd::prelude::*;
use crate::character::Stats;
use crate::expression::{eval_spec, Expression, Scope, Variable};

verus! {

/// How long a status effect lasts.
#[derive(Clone, Copy, Debug, PartialEq, Eq, Structural)]
pub enum Duration {
    /// Until the afflicted piece rests.
    Rest,
    /// Until the afflicted piece's next turn.
    Turn,
}

/// A debuff whose strength is a formula over its accumulated magnitude.
///
/// Each entry names a statistic and the formula for how much of it is
/// lost; the formula may mention [`Variable::Magnitude`].
#[derive(Clone, Debug)]
pub struct Debuff {
    pub magnitude: u32,
    pub on_debuff: Vec<(Variable, Expression)>,
}

/// Clamps a formula value into a `u32` statistic.
pub open spec fn clamp_u32(v: int) -> u32 {
    if v < 0 {
        0u32
    } else if v > u32::MAX {
        u32::MAX
    } else {
        v as u32
    }
}

/// Sets the statistic named by `var` to `v`; entries naming anything other
/// than one of the six statistics leave the record unchanged.
pub open spec fn set_stat_spec(acc: Stats, var: Variable, v: u32) -> Stats {
    match var {
        Variable::Heart => Stats { heart: v, ..acc },
        Variable::Soul => Stats { soul: v, ..acc },
        Variable::Power => Stats { power: v, ..acc },
        Variable::Defense => Stats { defense: v, ..acc },
        Variable::Magic => Stats { magic: v, ..acc },
        Variable::Resistance => Stats { resistance: v, ..acc },
        _ => acc,
    }
}

/// The scope a debuff formula is evaluated under: only `Magnitude` is bound.
pub open spec fn magnitude_scope(magnitude: u32) -> Seq<(Variable, i64)> {
    seq![(Variable::Magnitude, magnitude as i64)]
}

/// Folds the formula entries front to back over an accumulator;
/// `None` when any formula fails to evaluate.
pub open spec fn apply_entries_spec(
    entries: Seq<(Variable, Expression)>,
    magnitude: u32,
    acc: Stats,
) -> Option<Stats>
    decreases entries.len(),
{
    if entries.len() == 0 {
        Some(acc)
    } else {
        match eval_spec(entries[0].1, magnitude_scope(magnitude)) {
            Ok(v) => apply_entries_spec(
                entries.skip(1),
                magnitude,
                set_stat_spec(acc, entries[0].0, clamp_u32(v)),
            ),
            Err(_) => None,
        }
    }
}

/// The statistic loss a debuff's formulas yield at the given magnitude,
/// or no loss at all when any formula fails.
pub open spec fn debuff_stats_at_spec(d: Debuff, magnitude: u32) -> Stats {
    match apply_entries_spec(d.on_debuff@, magnitude, Stats::zero()) {
        Some(s) => s,
        None => Stats::zero(),
    }
}

/// The loss at the debuff's own accumulated magnitude.
pub open spec fn debuff_stats_spec(d: Debuff) -> Stats {
    debuff_stats_at_spec(d, d.magnitude)
}

impl Debuff {
    /// Evaluates the debuff's formulas at its own magnitude. A formula
    /// that fails leaves the whole debuff without effect rather than
    /// aborting the turn.
    pub fn get(&self) -> (r: Option<Stats>)
        ensures
            r == Some(debuff_stats_spec(*self)),
    {
        self.get_at(self.magnitude)
    }

    /// Evaluates the debuff's formulas at an externally accumulated
    /// magnitude, as a piece's own status state requires.
    pub fn get_at(&self, magnitude: u32) -> (r: Option<Stats>)
        ensures
            r == Some(debuff_stats_at_spec(*self, magnitude)),
    {
        let mut scope = Scope::new();
        scope.bind(Variable::Magnitude, magnitude as i64);
        assert(scope.entries@ =~= magnitude_scope(magnitude));
        let mut acc = Stats::default();
        let mut i: usize = 0;
        assert(self.on_debuff@.skip(0) =~= self.on_debuff@);
        while i < self.on_debuff.len()
            invariant
                i <= self.on_debuff.len(),
                scope.entries@ == magnitude_scope(magnitude),
                apply_entries_spec(self.on_debuff@, magnitude, Stats::zero())
                    == apply_entries_spec(self.on_debuff@.skip(i as int), magnitude, acc),
            decreases self.on_debuff.len() - i,
        {
            let entry = &self.on_debuff[i];
            let var = entry.0;
            assert(self.on_debuff@.skip(i as int)[0] == self.on_debuff@[i as int]);
            let v = match entry.1.eval(&scope) {
                Ok(v) => v,
                Err(_) => {
                    return Some(Stats::default());
                },
            };
            let clamped: u32 = if v < 0 {
                0
            } else if v > u32::MAX as i64 {
                u32::MAX
            } else {
                v as u32
            };
            acc = match var {
                Variable::Heart => Stats { heart: clamped, ..acc },
                Variable::Soul => Stats { soul: clamped, ..acc },
                Variable::Power => Stats { power: clamped, ..acc },
                Variable::Defense => Stats { defense: clamped, ..acc },
                Variable::Magic => Stats { magic: clamped, ..acc },
                Variable::Resistance => Stats { resistance: clamped, ..acc },
                _ => acc,
            };
            assert(self.on_debuff@.skip(i as int).skip(1) =~= self.on_debuff@.skip(i + 1));
            i = i + 1;
        }
        assert(self.on_debuff@.skip(i as int) =~= Seq::<(Variable, Expression)>::empty());
        Some(acc)
    }
}

/// What a status effect does to its bearer.
#[derive(Clone, Debug)]
pub enum Effect {
    /// A fixed statistic loss.
    StaticDebuff(Stats),
    /// A loss that grows with accumulated magnitude.
    Debuff(Debuff),
}

/// A named, lasting effect on a piece.
#[derive(Clone, Debug)]
pub struct Status {
    pub name: String,
    pub icon: String,
    pub duration: Duration,
    pub effect: Effect,
}

/// The statistic loss a status inflicts right now.
pub open spec fn on_debuff_spec(s: Status) -> Stats {
    match s.effect {
        Effect::Debuff(d) => debuff_stats_spec(d),
        Effect::StaticDebuff(stats) => stats,
    }
}

/// The loss a status inflicts at an externally accumulated magnitude,
/// as a piece's own status state requires.
pub open spec fn on_debuff_at_spec(s: Status, magnitude: u32) -> Stats {
    match s.effect {
        Effect::Debuff(d) => debuff_stats_at_spec(d, magnitude),
        Effect::StaticDebuff(stats) => stats,
    }
}

impl Status {
    /// Accumulates `amount` onto a growing debuff, clamping at `u32::MAX`;
    /// a fixed debuff has no magnitude and is left unchanged.
    pub fn add_magnitude(&mut self, amount: u32)
        ensures
            match old(self).effect {
                Effect::Debuff(d) => final(self).effect matches Effect::Debuff(d2)
                    && d2.magnitude == crate::character::sat_add_u32(d.magnitude, amount)
                    && d2.on_debuff == d.on_debuff,
                Effect::StaticDebuff(_) => final(self).effect == old(self).effect,
            },
            final(self).name == old(self).name,
            final(self).icon == old(self).icon,
            final(self).duration == old(self).duration,
    {
        match &mut self.effect {
            Effect::Debuff(d) => {
                d.magnitude = d.magnitude.saturating_add(amount);
            },
            Effect::StaticDebuff(_) => {},
        }
    }

    /// The statistic loss this status inflicts right now.
    pub fn on_debuff(&self) -> (r: Option<Stats>)
        ensures
            r == Some(on_debuff_spec(*self)),
    {
        match &self.effect {
            Effect::Debuff(d) => d.get(),
            Effect::StaticDebuff(stats) => Some(*stats),
        }
    }

    /// The loss at an externally accumulated magnitude.
    pub fn on_debuff_at(&self, magnitude: u32) -> (r: Stats)
        ensures
            r == on_debuff_at_spec(*self, magnitude),
    {
        match &self.effect {
            Effect::Debuff(d) => match d.get_at(magnitude) {
                Some(s) => s,
                None => Stats::default(),
            },
            Effect::StaticDebuff(stats) => *stats,
        }
    }
}

} // verus!
