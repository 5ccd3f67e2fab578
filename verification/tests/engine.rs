//! Character statistics, spells, statuses, and formula evaluation.

use esprit2::character::{growth_bonuses, Alliance, Piece, Ref, Sheet, Stats};
use esprit2::consider::DecisionPolicy;
use esprit2::expression::{Error as ExprError, Expression, Scope, Variable};
use esprit2::resources::{Attack, Catalog, Inflict};
use esprit2::spell::{Affinity, Energy, Harmony, Parameters, Skillset, Spell};
use esprit2::status::{Debuff, Duration, Effect, Status};

fn sheet(level: u32) -> Sheet {
    Sheet {
        icon: String::from("@"),
        nouns: String::from("Luvui"),
        level,
        experience: 0,
        bases: Stats { heart: 20, soul: 10, power: 5, defense: 4, magic: 3, resistance: 2 },
        growths: Stats { heart: 40, soul: 20, power: 10, defense: 10, magic: 10, resistance: 10 },
        growth_bonuses: Stats { heart: 2, soul: 2, power: 2, defense: 2, magic: 1, resistance: 1 },
        skillset: Skillset::EnergyMajor { major: Energy::Positive, minor: Some(Harmony::Chaos) },
        speed: 12,
        attacks: vec![String::from("bite")],
        spells: vec![String::from("spark")],
        on_consider: DecisionPolicy::Greedy,
    }
}

fn catalog() -> Catalog {
    Catalog {
        attacks: vec![(
            String::from("bite"),
            Attack { magnitude: 6, inflicts: Some(Inflict { status: 0, magnitude: 2 }) },
        )],
        spells: vec![(
            String::from("spark"),
            Spell {
                name: String::from("Spark"),
                icon: String::from("*"),
                energy: Energy::Positive,
                harmony: Harmony::Chaos,
                level: 2,
                parameters: Parameters::Target {
                    magnitude: Some(Expression::Add(
                        Box::new(Expression::Constant(4)),
                        Box::new(Expression::Variable(Variable::Magic)),
                    )),
                    pierce_threshold: 0,
                },
            },
        )],
        statuses: vec![(
            String::from("bleed"),
            Status {
                name: String::from("Bleed"),
                icon: String::from("!"),
                duration: Duration::Rest,
                effect: Effect::Debuff(Debuff {
                    magnitude: 0,
                    on_debuff: vec![(
                        Variable::Defense,
                        Expression::Variable(Variable::Magnitude),
                    )],
                }),
            },
        )],
    }
}

#[test]
fn sheet_stats_follow_the_growth_formula() {
    // base + (growth + bonus * weight) * level / 100, per field.
    let s = sheet(10);
    let stats = s.stats();
    assert_eq!(stats.heart, 20 + (40 + 2 * 20) * 10 / 100);
    assert_eq!(stats.soul, 10 + (20 + 2 * 20) * 10 / 100);
    assert_eq!(stats.power, 5 + (10 + 2 * 10) * 10 / 100);
    assert_eq!(stats.defense, 4 + (10 + 2 * 10) * 10 / 100);
    assert_eq!(stats.magic, 3 + (10 + 1 * 10) * 10 / 100);
    assert_eq!(stats.resistance, 2 + (10 + 1 * 10) * 10 / 100);
}

#[test]
fn stats_arithmetic_is_field_wise() {
    let a = Stats { heart: 1, soul: 2, power: 3, defense: 4, magic: 5, resistance: 6 };
    let b = Stats { heart: 6, soul: 5, power: 4, defense: 3, magic: 2, resistance: 1 };
    let sum = a.add(b);
    assert_eq!(sum, Stats { heart: 7, soul: 7, power: 7, defense: 7, magic: 7, resistance: 7 });
    assert_eq!(sum.sub(b), a);
    let scaled = a.scale(3);
    assert_eq!(scaled.div(3), a);
    assert_eq!(
        a.mul(b),
        Stats { heart: 6, soul: 10, power: 12, defense: 12, magic: 10, resistance: 6 }
    );
    let big = Stats { heart: u32::MAX, soul: 0, power: 0, defense: 0, magic: 0, resistance: 0 };
    assert_eq!(big.saturating_add(big).heart, u32::MAX);
}

#[test]
fn growth_bonuses_distribute_exactly_ten_points() {
    for _ in 0..32 {
        let b = growth_bonuses();
        let total = b.heart + b.soul + b.power + b.defense + b.magic + b.resistance;
        assert_eq!(total, 10);
    }
}

#[test]
fn piece_creation_resolves_the_repertoire() {
    let c = catalog();
    let piece = Piece::new(sheet(10), &c).unwrap();
    assert_eq!(piece.attacks, vec![0]);
    assert_eq!(piece.spells, vec![0]);
    assert_eq!(piece.hp, 28);
    assert_eq!(piece.sp, 16);
    assert_eq!(piece.alliance, Alliance::Enemy);
    assert!(!piece.player_controlled);

    let mut unknown = sheet(10);
    unknown.attacks = vec![String::from("claw")];
    assert!(matches!(
        Piece::new(unknown, &c),
        Err(esprit2::Error::NotFound(n)) if n == "claw"
    ));
}

#[test]
fn refs_name_arena_slots() {
    assert_eq!(Ref::new(3), Ref(3));
}

#[test]
fn affinity_scales_magnitude() {
    assert_eq!(Affinity::Uncastable.magnitude(40), 0);
    assert_eq!(Affinity::Weak.magnitude(40), 20);
    assert_eq!(Affinity::Average.magnitude(40), 30);
    assert_eq!(Affinity::Strong.magnitude(40), 40);
    // The three-quarter scaling never truncates an intermediate.
    assert_eq!(Affinity::Average.magnitude(u32::MAX), (u32::MAX as u64 * 3 / 4) as u32);
}

#[test]
fn affinity_matches_the_skillset_axes() {
    let c = catalog();
    let mut piece = Piece::new(sheet(10), &c).unwrap();
    let spark = &c.spells[0].1;
    // Major energy matches, minor harmony matches: strong.
    assert_eq!(spark.affinity(&piece), Affinity::Strong);
    piece.force_affinity(0).unwrap(); // positive energy, no minor
    assert_eq!(spark.affinity(&piece), Affinity::Average);
    piece.force_affinity(5).unwrap(); // negative energy, minor order
    assert_eq!(spark.affinity(&piece), Affinity::Uncastable);
    piece.force_affinity(7).unwrap(); // chaos major, minor positive
    assert_eq!(spark.affinity(&piece), Affinity::Strong);
    piece.force_affinity(9).unwrap(); // order major, no minor
    assert_eq!(spark.affinity(&piece), Affinity::Uncastable);
    assert_eq!(piece.force_affinity(12), Err(esprit2::Error::Policy));
}

#[test]
fn castable_by_checks_soul_points() {
    let c = catalog();
    let mut piece = Piece::new(sheet(10), &c).unwrap();
    let spark = &c.spells[0].1;
    assert!(spark.castable_by(&piece));
    piece.sp = 1;
    assert!(!spark.castable_by(&piece));
}

#[test]
fn statuses_merge_by_accumulating_magnitude() {
    let c = catalog();
    let mut piece = Piece::new(sheet(10), &c).unwrap();
    piece.inflict(0, Duration::Rest, 0, Some(2));
    piece.inflict(0, Duration::Rest, 0, Some(3));
    assert_eq!(piece.statuses.len(), 1);
    assert_eq!(piece.statuses[0].magnitude, 5);
    // The bleed formula turns accumulated magnitude into defense loss.
    let outcomes = piece.stat_outcomes(&c);
    assert_eq!(outcomes.debuffs.defense, 5);
    assert_eq!(outcomes.stats.defense, sheet(10).stats().defense - 5);
    // A saturating accumulation never wraps.
    piece.inflict(0, Duration::Rest, 0, Some(u32::MAX));
    assert_eq!(piece.statuses[0].magnitude, u32::MAX);
}

#[test]
fn add_magnitude_leaves_static_debuffs_alone() {
    let mut status = Status {
        name: String::from("Weakness"),
        icon: String::from("-"),
        duration: Duration::Turn,
        effect: Effect::StaticDebuff(Stats {
            heart: 0,
            soul: 0,
            power: 1,
            defense: 0,
            magic: 0,
            resistance: 0,
        }),
    };
    status.add_magnitude(5);
    assert_eq!(
        status.on_debuff(),
        Some(Stats { heart: 0, soul: 0, power: 1, defense: 0, magic: 0, resistance: 0 })
    );
}

#[test]
fn turn_and_rest_statuses_wear_off() {
    let c = catalog();
    let mut piece = Piece::new(sheet(10), &c).unwrap();
    piece.inflict(0, Duration::Turn, 0, Some(1));
    piece.inflict(1, Duration::Rest, 0, Some(1));
    piece.new_turn();
    assert_eq!(piece.statuses.len(), 1);
    assert_eq!(piece.statuses[0].status, 1);
    piece.hp = 1;
    piece.rest(&c);
    assert!(piece.statuses.is_empty());
    // Resting restores half the heart and all the soul, measured before
    // the effects wore off.
    assert_eq!(piece.hp, 1 + 28 / 2);
    assert_eq!(piece.sp, 16);
}

#[test]
fn formulas_evaluate_against_the_scope() {
    let mut scope = Scope::new();
    scope.bind(Variable::Magic, 7);
    let e = Expression::Add(
        Box::new(Expression::Mul(
            Box::new(Expression::Constant(3)),
            Box::new(Expression::Variable(Variable::Magic)),
        )),
        Box::new(Expression::Constant(1)),
    );
    assert_eq!(e.eval(&scope), Ok(22));
    let missing = Expression::Variable(Variable::Hp);
    assert_eq!(missing.eval(&scope), Err(ExprError::MissingVariable(Variable::Hp)));
    let overflow = Expression::Mul(
        Box::new(Expression::Constant(i64::MAX)),
        Box::new(Expression::Constant(2)),
    );
    assert_eq!(overflow.eval(&scope), Err(ExprError::Overflow));
    let underflow = Expression::Sub(
        Box::new(Expression::Constant(i64::MIN)),
        Box::new(Expression::Constant(1)),
    );
    assert_eq!(underflow.eval(&scope), Err(ExprError::Overflow));
}

#[test]
fn piece_variables_come_from_pools_and_sheet() {
    let c = catalog();
    let piece = Piece::new(sheet(10), &c).unwrap();
    assert_eq!(piece.get(Variable::Hp), Ok(28));
    assert_eq!(piece.get(Variable::Sp), Ok(16));
    assert_eq!(piece.get(Variable::Level), Ok(10));
    assert_eq!(piece.get(Variable::Speed), Ok(12));
    assert_eq!(piece.get(Variable::Heart), Ok(28));
    assert_eq!(
        piece.get(Variable::Magnitude),
        Err(ExprError::MissingVariable(Variable::Magnitude))
    );
}
