//! Turn order, action application, and the consideration engine.

use esprit2::character::{Action, Alliance, Piece, Sheet, Stats};
use esprit2::consider::{decide, Consider, Considerations, DecisionPolicy, Heuristic, HeuristicConstructor};
use esprit2::resources::{Attack, Catalog, Inflict};
use esprit2::session::{SchedulerState, Server};
use esprit2::expression::{Expression, Variable};
use esprit2::spell::{Parameters, Spell};
use esprit2::status::Duration;
use esprit2::world::{Floor, Tile, World};
use esprit2::Error;

fn sheet() -> Sheet {
    Sheet {
        icon: String::from("@"),
        nouns: String::from("piece"),
        level: 0,
        experience: 0,
        bases: Stats { heart: 20, soul: 10, power: 5, defense: 2, magic: 4, resistance: 1 },
        growths: Stats::default(),
        growth_bonuses: Stats::default(),
        skillset: esprit2::spell::Skillset::EnergyMajor {
            major: esprit2::spell::Energy::Positive,
            minor: None,
        },
        speed: 12,
        attacks: vec![String::from("bite")],
        spells: Vec::new(),
        on_consider: DecisionPolicy::Greedy,
    }
}

fn catalog() -> Catalog {
    Catalog {
        attacks: vec![(
            String::from("bite"),
            Attack { magnitude: 6, inflicts: Some(Inflict { status: 0, magnitude: 1 }) },
        )],
        spells: Vec::new(),
        statuses: vec![(
            String::from("bleed"),
            esprit2::status::Status {
                name: String::from("Bleed"),
                icon: String::from("!"),
                duration: Duration::Rest,
                effect: esprit2::status::Effect::StaticDebuff(Stats::default()),
            },
        )],
    }
}

fn open_floor(width: usize, height: usize) -> Floor {
    Floor { width, height, tiles: vec![Tile::Floor; width * height] }
}

/// Two pieces: index 0 at (0, 0), index 1 at (1, 0).
fn small_world(catalog: &Catalog) -> World {
    let mut a = Piece::new(sheet(), catalog).unwrap();
    a.alliance = Alliance::Friendly;
    let mut b = Piece::new(sheet(), catalog).unwrap();
    b.x = 1;
    b.action_delay = 5;
    World::new(vec![a, b], open_floor(4, 4))
}

#[test]
fn ready_piece_has_minimal_delay_with_stable_ties() {
    let c = catalog();
    let mut w = small_world(&c);
    assert_eq!(w.next_character(), Some(0));
    w.characters[0].action_delay = 9;
    assert_eq!(w.next_character(), Some(1));
    // A tie goes to the earlier piece.
    w.characters[0].action_delay = 5;
    assert_eq!(w.next_character(), Some(0));
    // Dead pieces never act.
    w.characters[0].hp = 0;
    assert_eq!(w.next_character(), Some(1));
    w.characters[1].hp = 0;
    assert_eq!(w.next_character(), None);
}

#[test]
fn turn_order_is_deterministic_across_runs() {
    let c = catalog();
    let run = || {
        let mut server = Server::new(catalog(), small_world(&c));
        let mut order: Vec<bool> = Vec::new();
        for _ in 0..6 {
            order.push(server.tick().unwrap());
        }
        (order, server.snapshot())
    };
    let (order1, snap1) = run();
    let (order2, snap2) = run();
    assert_eq!(order1, order2);
    assert_eq!(snap1, snap2);
    // And the raw encodings agree byte for byte.
    let bytes1 = esprit2::protocol::encode_server(&esprit2::protocol::ServerPacket::World(snap1));
    let bytes2 = esprit2::protocol::encode_server(&esprit2::protocol::ServerPacket::World(snap2));
    assert_eq!(bytes1, bytes2);
}

#[test]
fn waiting_debits_readiness_by_the_waited_time() {
    let c = catalog();
    let mut w = small_world(&c);
    w.perform_action(&c, 0, Action::Wait(12)).unwrap();
    assert_eq!(w.characters[0].action_delay, 12);
}

#[test]
fn moving_steps_one_square_toward_the_target() {
    let c = catalog();
    let mut w = small_world(&c);
    w.perform_action(&c, 0, Action::Move(0, 3)).unwrap();
    assert_eq!((w.characters[0].x, w.characters[0].y), (0, 1));
    assert_eq!(w.characters[0].action_delay, 12);
    // Moving onto an occupied square is a policy violation; nothing moves.
    // From (0, 1) the step toward (1, 0) lands on piece 1's square.
    let before = (w.characters[0].x, w.characters[0].y, w.characters[0].action_delay);
    assert_eq!(w.perform_action(&c, 0, Action::Move(1, 0)), Err(Error::Policy));
    assert_eq!(
        (w.characters[0].x, w.characters[0].y, w.characters[0].action_delay),
        before
    );
    // So is moving off the board.
    assert_eq!(w.perform_action(&c, 1, Action::Move(1, -5)), Err(Error::Policy));
}

#[test]
fn attacking_deals_magnitude_plus_power_minus_defense() {
    let c = catalog();
    let mut w = small_world(&c);
    let hp_before = w.characters[1].hp;
    w.perform_action(&c, 0, Action::Attack(0, 1, 0)).unwrap();
    // 6 magnitude + 5 power - 2 defense = 9 damage.
    assert_eq!(w.characters[1].hp, hp_before - 9);
    // The bite also inflicts one point of bleed.
    assert_eq!(w.characters[1].statuses.len(), 1);
    assert_eq!(w.characters[1].statuses[0].magnitude, 1);
    // Attacking an empty square is rejected.
    assert_eq!(w.perform_action(&c, 0, Action::Attack(0, 0, 1)), Err(Error::Policy));
    // So is attacking out of reach.
    w.characters[1].x = 3;
    assert_eq!(w.perform_action(&c, 0, Action::Attack(0, 3, 0)), Err(Error::Policy));
}

#[test]
fn considerations_cover_every_feasible_source() {
    let c = catalog();
    let w = small_world(&c);
    // Piece 0 sits in the corner: piece 1 is adjacent, so its one attack
    // has a target; the innate wait is always feasible; and of the four
    // step directions only south is open — east is occupied, the rest is
    // off the board.
    let scored = w.consider_turn(&c, 0);
    assert_eq!(scored.len(), 3);
    let waits = scored.iter().filter(|k| matches!(k.action, Action::Wait(_))).count();
    let attacks = scored.iter().filter(|k| k.attack()).count();
    let moves = scored.iter().filter(|k| matches!(k.action, Action::Move(..))).count();
    assert_eq!(waits, 1);
    assert_eq!(attacks, 1);
    assert_eq!(moves, 1);
    // Every candidate applies cleanly to a fresh copy of the world.
    for k in &scored {
        let mut copy = small_world(&c);
        copy.perform_action(&c, 0, k.action).unwrap();
    }
}

#[test]
fn greedy_policies_take_the_biggest_estimate_first() {
    let list = vec![
        Consider { action: Action::Wait(12), heuristics: Vec::new() },
        Consider {
            action: Action::Attack(0, 1, 0),
            heuristics: vec![HeuristicConstructor::damage(1, 9)],
        },
        Consider {
            action: Action::Attack(1, 1, 0),
            heuristics: vec![
                HeuristicConstructor::damage(1, 4),
                HeuristicConstructor::debuff(1, 2),
            ],
        },
    ];
    assert_eq!(decide(DecisionPolicy::Greedy, &list), Action::Attack(0, 1, 0));
    assert_eq!(decide(DecisionPolicy::First, &list), Action::Wait(12));
    assert_eq!(decide(DecisionPolicy::Greedy, &Vec::new()), Action::Wait(12));
    let h = Heuristic::Move { x: 1, y: 0 };
    assert!(!h.damage());
    assert!(!h.debuff());
}

#[test]
fn consideration_lists_are_consumed_exactly_once() {
    let mut considerations = Considerations::new(vec![Consider {
        action: Action::Wait(12),
        heuristics: Vec::new(),
    }]);
    let first = considerations.take();
    assert!(first.is_ok());
    assert_eq!(first.unwrap().len(), 1);
    // Presenting the list twice is a programmer error and fails loudly.
    assert!(matches!(considerations.take(), Err(Error::DecisionExhausted)));
}

#[test]
fn scheduler_idles_for_player_pieces_and_resolves_others() {
    let c = catalog();
    let mut w = small_world(&c);
    w.characters[0].player_controlled = true;
    let mut server = Server::new(c, w);
    // The ready piece is player-controlled: await input, change nothing.
    assert_eq!(server.tick().unwrap(), false);
    assert_eq!(server.state, SchedulerState::AwaitingInput);
    assert_eq!(server.world.characters[0].action_delay, 0);
    // Make the other piece ready: the engine resolves its turn itself and
    // the greedy policy attacks its adjacent foe.
    server.world.characters[0].action_delay = 99;
    let hp_before = server.world.characters[0].hp;
    assert_eq!(server.tick().unwrap(), true);
    assert_eq!(server.state, SchedulerState::Resolving);
    assert!(server.world.characters[1].action_delay > 5);
    assert!(server.world.characters[0].hp < hp_before);
}

#[test]
fn casting_costs_soul_and_scales_with_affinity() {
    let mut c = catalog();
    c.spells.push((
        String::from("spark"),
        Spell {
            name: String::from("Spark"),
            icon: String::from("*"),
            energy: esprit2::spell::Energy::Positive,
            harmony: esprit2::spell::Harmony::Chaos,
            level: 3,
            parameters: Parameters::Target {
                magnitude: Some(Expression::Add(
                    Box::new(Expression::Constant(4)),
                    Box::new(Expression::Variable(Variable::Magic)),
                )),
                pierce_threshold: 2,
            },
        },
    ));
    let mut w = {
        let mut a = Piece::new(
            Sheet { spells: vec![String::from("spark")], ..sheet() },
            &c,
        )
        .unwrap();
        a.alliance = Alliance::Friendly;
        let mut b = Piece::new(sheet(), &c).unwrap();
        b.x = 3;
        b.y = 3;
        World::new(vec![a, b], open_floor(6, 6))
    };
    let sp_before = w.characters[0].sp;
    let hp_before = w.characters[1].hp;
    // Magnitude (4 + magic 4) at average affinity (major matches, no
    // minor): 8 * 3 / 4 = 6; plus caster magic 4, less resistance 1 = 9,
    // which beats the pierce threshold of 2.
    w.perform_action(&c, 0, Action::Cast(0, 3, 3)).unwrap();
    assert_eq!(w.characters[0].sp, sp_before - 3);
    assert_eq!(w.characters[1].hp, hp_before - 9);
    // Without the soul points for its cost, the cast is refused.
    w.characters[0].sp = 2;
    assert_eq!(w.perform_action(&c, 0, Action::Cast(0, 3, 3)), Err(Error::Policy));
}
