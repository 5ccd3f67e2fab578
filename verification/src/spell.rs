//! Spells, magical skillsets, and casting affinity.

use vstd::prelude::*;
use crate::character::Piece;
use crate::expression::Expression;

verus! {

/// Whether a spell concentrates or disperses energy.
#[derive(Clone, Copy, Debug, PartialEq, Eq, Structural)]
pub enum Energy {
    /// Positive energy, like heat.
    Positive,
    /// Negative energy, like cold.
    Negative,
}

/// Whether a spell is ordered or chaotic.
#[derive(Clone, Copy, Debug, PartialEq, Eq, Structural)]
pub enum Harmony {
    /// Spells with unconventional, unpredictable effects.
    Chaos,
    /// Simple spells with predictable effects.
    Order,
}

/// A character's magical skills.
///
/// Only one skill from each axis may be chosen, and the minor skill is
/// optional.
#[derive(Clone, Copy, Debug)]
pub enum Skillset {
    EnergyMajor { major: Energy, minor: Option<Harmony> },
    HarmonyMajor { major: Harmony, minor: Option<Energy> },
}

/// How well a character's skillset matches a spell.
#[derive(Clone, Copy, Debug, PartialEq, Eq, Structural)]
pub enum Affinity {
    /// No skillset matches; the spell is not castable.
    Uncastable,
    /// Only a minor skill matches; the spell is difficult to cast.
    Weak,
    /// Only a major skill matches; the spell is slightly more difficult to cast.
    Average,
    /// Both skills match; the spell is easy to cast.
    Strong,
}

impl Affinity {
    /// Scales a spell's base magnitude by the caster's affinity:
    /// none, half, three quarters, or all of it.
    pub fn magnitude(self, magnitude: u32) -> (r: u32)
        ensures
            r == self.magnitude_spec(magnitude),
    {
        match self {
            Affinity::Uncastable => 0,
            Affinity::Weak => magnitude / 2,
            Affinity::Average => {
                let scaled: u64 = (magnitude as u64) * 3 / 4;
                assert(scaled <= u32::MAX);
                scaled as u32
            },
            Affinity::Strong => magnitude,
        }
    }

    /// Mathematical value of [`Affinity::magnitude`]: the scaling is
    /// computed without intermediate truncation.
    pub open spec fn magnitude_spec(self, magnitude: u32) -> u32 {
        match self {
            Affinity::Uncastable => 0u32,
            Affinity::Weak => (magnitude / 2) as u32,
            Affinity::Average => (magnitude * 3 / 4) as u32,
            Affinity::Strong => magnitude,
        }
    }

    /// True for every affinity under which the spell may be cast at all.
    pub open spec fn castable(self) -> bool {
        self !== Affinity::Uncastable
    }
}

/// Parameters to a spell's effect.
#[derive(Clone, Debug)]
pub enum Parameters {
    Target {
        /// Optional formula for magnitude calculation. This could easily be
        /// part of the effect itself, but a formula lets the magnitude be
        /// displayed.
        magnitude: Option<Expression>,
        /// Amount by which defense must be beaten for damage to be dealt.
        /// Positive values filter out small spell magnitudes, whereas
        /// negative values counteract the target's resistance.
        ///
        /// For example, a pierce threshold of 4 means that at least 4
        /// damage must be dealt (after resistance) for the spell to land.
        /// A pierce threshold of -2 reduces the enemy's resistance by 2.
        pierce_threshold: i32,
    },
}

/// A spell definition.
#[derive(Clone, Debug)]
pub struct Spell {
    pub name: String,
    pub icon: String,
    /// Whether the spell concentrates or disperses energy.
    pub energy: Energy,
    /// Whether the spell is ordered or chaotic.
    pub harmony: Harmony,
    /// This is also the cost of the spell.
    pub level: u8,
    /// Parameters to the spell's effect.
    pub parameters: Parameters,
}

/// The affinity a skillset grants over a spell's energy and harmony axes.
pub open spec fn affinity_spec(skillset: Skillset, energy: Energy, harmony: Harmony) -> Affinity {
    match skillset {
        Skillset::EnergyMajor { major, minor } => {
            let minor_affinity = minor matches Some(m) && m == harmony;
            if major == energy {
                if minor_affinity {
                    Affinity::Strong
                } else {
                    Affinity::Average
                }
            } else if minor_affinity {
                Affinity::Weak
            } else {
                Affinity::Uncastable
            }
        },
        Skillset::HarmonyMajor { major, minor } => {
            let minor_affinity = minor matches Some(m) && m == energy;
            if major == harmony {
                if minor_affinity {
                    Affinity::Strong
                } else {
                    Affinity::Average
                }
            } else if minor_affinity {
                Affinity::Weak
            } else {
                Affinity::Uncastable
            }
        },
    }
}

impl Spell {
    /// Whether the character has the soul points to pay the spell's cost.
    pub fn castable_by(&self, character: &Piece) -> (r: bool)
        ensures
            r == (character.sp >= self.level as i32),
    {
        character.sp >= self.level as i32
    }

    /// How well the character's skillset matches this spell.
    pub fn affinity(&self, character: &Piece) -> (r: Affinity)
        ensures
            r == affinity_spec(character.sheet.skillset, self.energy, self.harmony),
    {
        match character.sheet.skillset {
            Skillset::EnergyMajor { major, minor } => {
                let minor_affinity = match minor {
                    Some(m) => m == self.harmony,
                    None => false,
                };
                if major == self.energy {
                    if minor_affinity {
                        Affinity::Strong
                    } else {
                        Affinity::Average
                    }
                } else if minor_affinity {
                    Affinity::Weak
                } else {
                    Affinity::Uncastable
                }
            },
            Skillset::HarmonyMajor { major, minor } => {
                let minor_affinity = match minor {
                    Some(m) => m == self.energy,
                    None => false,
                };
                if major == self.harmony {
                    if minor_affinity {
                        Affinity::Strong
                    } else {
                        Affinity::Average
                    }
                } else if minor_affinity {
                    Affinity::Weak
                } else {
                    Affinity::Uncastable
                }
            },
        }
    }
}

} // verus!
