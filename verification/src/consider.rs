//! Candidate actions for non-player turns, and the policies that pick one.
//!
//! The consideration engine (in [`crate::world`]) enumerates candidate
//! actions and tags each with rough outcome heuristics. The estimates are
//! deliberately coarse — a single scalar per damage or debuff — trading
//! fidelity for evaluation speed, because scoring runs once per non-player
//! turn. A decision policy consumes the list exactly once; consuming it a
//! second time is a programmer error and fails loudly.

use vstd::prelude::*;
use crate::character::Action;
use crate::Error;
use crate::TURN;

verus! {

/// A rough approximation of one outcome of a candidate action.
#[derive(Clone, Copy, Debug, PartialEq, Eq, Structural)]
pub enum Heuristic {
    /// Expected damage to the piece with this index.
    Damage { target: usize, amount: u32 },
    /// A rough measure of lasting statistic loss inflicted on the piece
    /// with this index, even when the underlying effect is more
    /// complicated than a simple loss.
    Debuff { target: usize, amount: u32 },
    /// The square the acting piece would step to.
    Move { x: i32, y: i32 },
}

impl Heuristic {
    /// True for damage estimates.
    pub fn damage(&self) -> (r: bool)
        ensures
            r == (*self matches Heuristic::Damage { .. }),
    {
        matches!(self, Heuristic::Damage { .. })
    }

    /// True for debuff estimates.
    pub fn debuff(&self) -> (r: bool)
        ensures
            r == (*self matches Heuristic::Debuff { .. }),
    {
        matches!(self, Heuristic::Debuff { .. })
    }
}

/// Builds heuristics from their parts.
pub struct HeuristicConstructor;

impl HeuristicConstructor {
    pub fn damage(target: usize, amount: u32) -> (r: Heuristic)
        ensures
            r == (Heuristic::Damage { target, amount }),
    {
        Heuristic::Damage { target, amount }
    }

    pub fn debuff(target: usize, amount: u32) -> (r: Heuristic)
        ensures
            r == (Heuristic::Debuff { target, amount }),
    {
        Heuristic::Debuff { target, amount }
    }
}

/// An immutable candidate: one action plus its outcome estimates.
#[derive(Clone, Debug)]
pub struct Consider {
    pub action: Action,
    pub heuristics: Vec<Heuristic>,
}

impl Consider {
    /// True when the candidate is an attack.
    pub fn attack(&self) -> (r: bool)
        ensures
            r == (self.action matches Action::Attack(..)),
    {
        matches!(self.action, Action::Attack(..))
    }

    /// True when the candidate is a spell cast.
    pub fn spell(&self) -> (r: bool)
        ensures
            r == (self.action matches Action::Cast(..)),
    {
        matches!(self.action, Action::Cast(..))
    }
}

/// The one-shot candidate list handed to a decision policy.
///
/// The list may be consumed exactly once; a second consumption reports
/// [`Error::DecisionExhausted`] instead of silently re-scoring.
#[derive(Clone, Debug)]
pub struct Considerations {
    items: Option<Vec<Consider>>,
}

impl Considerations {
    /// The candidates still held, or nothing once consumed.
    pub closed spec fn items_spec(self) -> Option<Seq<Consider>> {
        match self.items {
            Some(v) => Some(v@),
            None => None,
        }
    }

    /// Wraps a freshly scored candidate list.
    pub fn new(considerations: Vec<Consider>) -> (r: Considerations)
        ensures
            r.items_spec() == Some(considerations@),
    {
        Considerations { items: Some(considerations) }
    }

    /// Consumes the list. The first call returns every candidate; any
    /// further call fails with [`Error::DecisionExhausted`].
    pub fn take(&mut self) -> (r: Result<Vec<Consider>, Error>)
        ensures
            final(self).items_spec() is None,
            match old(self).items_spec() {
                Some(l) => r matches Ok(v) && v@ == l,
                None => r matches Err(e) && e == Error::DecisionExhausted,
            },
    {
        match self.items.take() {
            Some(v) => Ok(v),
            None => Err(Error::DecisionExhausted),
        }
    }
}

/// Collects attack candidates for the attack at one repertoire index.
#[derive(Clone, Debug)]
pub struct AttackList {
    /// The repertoire index the candidates are built for.
    pub base: u32,
    pub results: Vec<Consider>,
}

impl AttackList {
    pub fn new(base: u32) -> (r: AttackList)
        ensures
            r.base == base,
            r.results@ == Seq::<Consider>::empty(),
    {
        AttackList { base, results: Vec::new() }
    }

    /// Adds a candidate that uses this attack on the square `(x, y)`.
    pub fn push(&mut self, x: i32, y: i32, heuristics: Vec<Heuristic>)
        ensures
            final(self).base == old(self).base,
            final(self).results@.len() == old(self).results@.len() + 1,
            final(self).results@.drop_last() == old(self).results@,
            final(self).results@.last().action == Action::Attack(old(self).base, x, y),
            final(self).results@.last().heuristics == heuristics,
    {
        let action = Action::Attack(self.base, x, y);
        self.results.push(Consider { action, heuristics });
        assert(final(self).results@.drop_last() =~= old(self).results@);
    }
}

/// Collects cast candidates for the spell at one repertoire index.
#[derive(Clone, Debug)]
pub struct SpellList {
    /// The repertoire index the candidates are built for.
    pub base: u32,
    pub results: Vec<Consider>,
}

impl SpellList {
    pub fn new(base: u32) -> (r: SpellList)
        ensures
            r.base == base,
            r.results@ == Seq::<Consider>::empty(),
    {
        SpellList { base, results: Vec::new() }
    }

    /// Adds a candidate that casts this spell at the square `(x, y)`.
    pub fn push(&mut self, x: i32, y: i32, heuristics: Vec<Heuristic>)
        ensures
            final(self).base == old(self).base,
            final(self).results@.len() == old(self).results@.len() + 1,
            final(self).results@.drop_last() == old(self).results@,
            final(self).results@.last().action == Action::Cast(old(self).base, x, y),
            final(self).results@.last().heuristics == heuristics,
    {
        let action = Action::Cast(self.base, x, y);
        self.results.push(Consider { action, heuristics });
        assert(final(self).results@.drop_last() =~= old(self).results@);
    }
}

/// A data-driven decision policy: how a sheet picks among candidates.
///
/// Policies are concrete variants resolved once per non-player turn; the
/// engine that produces the candidates knows nothing about them.
#[derive(Clone, Copy, Debug, PartialEq, Eq, Structural)]
pub enum DecisionPolicy {
    /// Take the first candidate offered.
    First,
    /// Take the candidate with the greatest estimated effect, the earliest
    /// on a tie.
    Greedy,
}

/// The scalar effect estimate of one heuristic.
pub open spec fn heuristic_weight(h: Heuristic) -> u64 {
    match h {
        Heuristic::Damage { amount, .. } => amount as u64,
        Heuristic::Debuff { amount, .. } => amount as u64,
        Heuristic::Move { .. } => 0u64,
    }
}

/// Saturating sum of a candidate's heuristic weights, folded front to back.
pub open spec fn weight_fold(hs: Seq<Heuristic>, acc: u64) -> u64
    decreases hs.len(),
{
    if hs.len() == 0 {
        acc
    } else {
        weight_fold(
            hs.skip(1),
            if acc + heuristic_weight(hs[0]) > u64::MAX {
                u64::MAX
            } else {
                (acc + heuristic_weight(hs[0])) as u64
            },
        )
    }
}

pub open spec fn consider_weight(c: Consider) -> u64 {
    weight_fold(c.heuristics@, 0u64)
}

/// Index of the candidate a greedy policy picks: the greatest weight,
/// the earliest on a tie.
pub open spec fn best_index(s: Seq<Consider>) -> int
    decreases s.len(),
{
    if s.len() <= 1 {
        0
    } else {
        let b = best_index(s.drop_last());
        if consider_weight(s.last()) > consider_weight(s[b]) {
            s.len() - 1
        } else {
            b
        }
    }
}

/// A non-empty candidate list always has a best candidate, and it is one
/// of the list's own entries.
pub proof fn lemma_best_index_in_range(s: Seq<Consider>)
    requires
        s.len() > 0,
    ensures
        0 <= best_index(s) < s.len(),
    decreases s.len(),
{
    if s.len() > 1 {
        lemma_best_index_in_range(s.drop_last());
    }
}

/// The action a policy extracts from a candidate list; an empty list
/// falls back to waiting out one turn.
pub open spec fn choose_spec(policy: DecisionPolicy, s: Seq<Consider>) -> Action {
    if s.len() == 0 {
        Action::Wait(TURN)
    } else {
        match policy {
            DecisionPolicy::First => s[0].action,
            DecisionPolicy::Greedy => s[best_index(s)].action,
        }
    }
}

/// The mathematical value of one candidate: its action and the values of
/// its heuristics.
pub open spec fn consider_model(c: Consider) -> (Action, Seq<Heuristic>) {
    (c.action, c.heuristics@)
}

/// The mathematical value of a candidate list.
pub open spec fn models_of(s: Seq<Consider>) -> Seq<(Action, Seq<Heuristic>)> {
    s.map_values(|c: Consider| consider_model(c))
}

/// Index of the candidate a greedy policy picks, over candidate values.
pub open spec fn best_model_index(ms: Seq<(Action, Seq<Heuristic>)>) -> int
    decreases ms.len(),
{
    if ms.len() <= 1 {
        0
    } else {
        let b = best_model_index(ms.drop_last());
        if weight_fold(ms.last().1, 0u64) > weight_fold(ms[b].1, 0u64) {
            ms.len() - 1
        } else {
            b
        }
    }
}

/// The action a policy extracts, over candidate values alone: two lists
/// with the same actions and heuristic values yield the same action.
pub open spec fn chosen_action(policy: DecisionPolicy, ms: Seq<(Action, Seq<Heuristic>)>) -> Action {
    if ms.len() == 0 {
        Action::Wait(TURN)
    } else {
        match policy {
            DecisionPolicy::First => ms[0].0,
            DecisionPolicy::Greedy => ms[best_model_index(ms)].0,
        }
    }
}

/// Appending one candidate appends its value.
pub proof fn lemma_models_push(s: Seq<Consider>, c: Consider)
    ensures
        models_of(s.push(c)) == models_of(s).push(consider_model(c)),
{
    assert(models_of(s.push(c)) =~= models_of(s).push(consider_model(c)));
}

/// A policy's choice depends only on the candidates' values.
pub proof fn lemma_choose_by_model(policy: DecisionPolicy, s: Seq<Consider>)
    ensures
        choose_spec(policy, s) == chosen_action(policy, models_of(s)),
    decreases s.len(),
{
    if s.len() > 0 {
        lemma_best_model_index(s);
        lemma_best_index_in_range(s);
        assert(models_of(s)[best_index(s)].0 == s[best_index(s)].action);
    }
}

/// The greedy pick agrees between candidates and their values.
proof fn lemma_best_model_index(s: Seq<Consider>)
    requires
        s.len() > 0,
    ensures
        best_model_index(models_of(s)) == best_index(s),
    decreases s.len(),
{
    if s.len() > 1 {
        lemma_best_model_index(s.drop_last());
        lemma_best_index_in_range(s.drop_last());
        assert(models_of(s).drop_last() =~= models_of(s.drop_last()));
        let b = best_index(s.drop_last());
        assert(models_of(s)[b].1 == s[b].heuristics@);
        assert(models_of(s).last().1 == s.last().heuristics@);
    }
}

/// Sums a candidate's heuristic weights, clamping at `u64::MAX`.
pub fn consider_weight_exec(c: &Consider) -> (r: u64)
    ensures
        r == consider_weight(*c),
{
    let mut acc: u64 = 0;
    let mut i: usize = 0;
    assert(c.heuristics@.skip(0) =~= c.heuristics@);
    while i < c.heuristics.len()
        invariant
            i <= c.heuristics.len(),
            weight_fold(c.heuristics@, 0u64) == weight_fold(c.heuristics@.skip(i as int), acc),
        decreases c.heuristics.len() - i,
    {
        let h = c.heuristics[i];
        let w: u64 = match h {
            Heuristic::Damage { amount, .. } => amount as u64,
            Heuristic::Debuff { amount, .. } => amount as u64,
            Heuristic::Move { .. } => 0,
        };
        assert(c.heuristics@.skip(i as int)[0] == c.heuristics@[i as int]);
        assert(c.heuristics@.skip(i as int).skip(1) =~= c.heuristics@.skip(i + 1));
        acc = acc.saturating_add(w);
        i = i + 1;
    }
    assert(c.heuristics@.skip(i as int) =~= Seq::<Heuristic>::empty());
    acc
}

/// Applies a decision policy to a scored candidate list.
pub fn decide(policy: DecisionPolicy, considerations: &Vec<Consider>) -> (r: Action)
    ensures
        r == choose_spec(policy, considerations@),
{
    if considerations.len() == 0 {
        return Action::Wait(TURN);
    }
    match policy {
        DecisionPolicy::First => considerations[0].action,
        DecisionPolicy::Greedy => {
            let mut best: usize = 0;
            let mut best_weight: u64 = consider_weight_exec(&considerations[0]);
            let mut i: usize = 1;
            assert(considerations@.take(1).len() == 1);
            assert(best_index(considerations@.take(1)) == 0);
            while i < considerations.len()
                invariant
                    1 <= i <= considerations@.len(),
                    best == best_index(considerations@.take(i as int)),
                    0 <= best < i,
                    best_weight == consider_weight(considerations@[best as int]),
                decreases considerations@.len() - i,
            {
                let w = consider_weight_exec(&considerations[i]);
                proof {
                    let prefix = considerations@.take(i + 1);
                    assert(prefix.drop_last() =~= considerations@.take(i as int));
                    assert(prefix.last() == considerations@[i as int]);
                }
                if w > best_weight {
                    best = i;
                    best_weight = w;
                }
                i = i + 1;
            }
            assert(considerations@.take(i as int) =~= considerations@);
            considerations[best].action
        },
    }
}

} // verus!
