//! The read-only resource catalog: attack, spell, and status definitions,
//! loaded once at startup and looked up by name.

use vstd::prelude::*;
use crate::spell::Spell;
use crate::status::Status;

verus! {

/// A status infliction an attack carries: which catalog status it applies
/// and with how much magnitude.
#[derive(Clone, Copy, Debug, PartialEq, Eq, Structural)]
pub struct Inflict {
    /// Index into the catalog's status table.
    pub status: usize,
    pub magnitude: u32,
}

/// A physical attack definition.
#[derive(Clone, Copy, Debug, PartialEq, Eq, Structural)]
pub struct Attack {
    /// Base damage before the attacker's power and the defender's defense.
    pub magnitude: u32,
    /// A lasting effect the attack applies on a hit, if any.
    pub inflicts: Option<Inflict>,
}

/// The definitions the simulation may reference, each table keyed by name.
#[derive(Clone, Debug)]
pub struct Catalog {
    pub attacks: Vec<(String, Attack)>,
    pub spells: Vec<(String, Spell)>,
    pub statuses: Vec<(String, Status)>,
}

/// Index of the first entry whose key is `key`, if any.
pub open spec fn index_of_key<V>(entries: Seq<(String, V)>, key: Seq<char>) -> Option<int>
    decreases entries.len(),
{
    if entries.len() == 0 {
        None
    } else if entries[0].0@ == key {
        Some(0int)
    } else {
        match index_of_key(entries.skip(1), key) {
            Some(i) => Some(i + 1),
            None => None,
        }
    }
}

impl Catalog {
    /// An empty catalog.
    pub fn new() -> (r: Catalog)
        ensures
            r.attacks@ == Seq::<(String, Attack)>::empty(),
            r.spells@ == Seq::<(String, Spell)>::empty(),
            r.statuses@ == Seq::<(String, Status)>::empty(),
    {
        Catalog { attacks: Vec::new(), spells: Vec::new(), statuses: Vec::new() }
    }

    /// Position of the attack definition named `name`, if any.
    pub fn find_attack(&self, name: &String) -> (r: Option<usize>)
        ensures
            match r {
                Some(i) => index_of_key(self.attacks@, name@) == Some(i as int),
                None => index_of_key(self.attacks@, name@) is None,
            },
    {
        let mut i: usize = 0;
        while i < self.attacks.len()
            invariant
                i <= self.attacks@.len(),
                forall|j: int| 0 <= j < i ==> self.attacks@[j].0@ != name@,
                index_of_key_prefix_none(self.attacks@, name@, i as int),
            decreases self.attacks@.len() - i,
        {
            if self.attacks[i].0.eq(name) {
                proof {
                    lemma_index_of_key_found(self.attacks@, name@, i as int);
                }
                return Some(i);
            }
            i = i + 1;
        }
        proof {
            lemma_index_of_key_missing(self.attacks@, name@);
        }
        None
    }

    /// Position of the spell definition named `name`, if any.
    pub fn find_spell(&self, name: &String) -> (r: Option<usize>)
        ensures
            match r {
                Some(i) => index_of_key(self.spells@, name@) == Some(i as int),
                None => index_of_key(self.spells@, name@) is None,
            },
    {
        let mut i: usize = 0;
        while i < self.spells.len()
            invariant
                i <= self.spells@.len(),
                forall|j: int| 0 <= j < i ==> self.spells@[j].0@ != name@,
                index_of_key_prefix_none(self.spells@, name@, i as int),
            decreases self.spells@.len() - i,
        {
            if self.spells[i].0.eq(name) {
                proof {
                    lemma_index_of_key_found(self.spells@, name@, i as int);
                }
                return Some(i);
            }
            i = i + 1;
        }
        proof {
            lemma_index_of_key_missing(self.spells@, name@);
        }
        None
    }

    /// Position of the status definition named `name`, if any.
    pub fn find_status(&self, name: &String) -> (r: Option<usize>)
        ensures
            match r {
                Some(i) => index_of_key(self.statuses@, name@) == Some(i as int),
                None => index_of_key(self.statuses@, name@) is None,
            },
    {
        let mut i: usize = 0;
        while i < self.statuses.len()
            invariant
                i <= self.statuses@.len(),
                forall|j: int| 0 <= j < i ==> self.statuses@[j].0@ != name@,
                index_of_key_prefix_none(self.statuses@, name@, i as int),
            decreases self.statuses@.len() - i,
        {
            if self.statuses[i].0.eq(name) {
                proof {
                    lemma_index_of_key_found(self.statuses@, name@, i as int);
                }
                return Some(i);
            }
            i = i + 1;
        }
        proof {
            lemma_index_of_key_missing(self.statuses@, name@);
        }
        None
    }
}

/// True when no key among the first `n` entries matches, so the search's
/// outcome is decided by the remainder alone.
pub open spec fn index_of_key_prefix_none<V>(
    entries: Seq<(String, V)>,
    key: Seq<char>,
    n: int,
) -> bool {
    forall|j: int| 0 <= j < n ==> entries[j].0@ != key
}

/// When the first `i` keys miss and entry `i` matches, the search finds `i`.
proof fn lemma_index_of_key_found<V>(entries: Seq<(String, V)>, key: Seq<char>, i: int)
    requires
        0 <= i < entries.len(),
        forall|j: int| 0 <= j < i ==> entries[j].0@ != key,
        entries[i].0@ == key,
    ensures
        index_of_key(entries, key) == Some(i),
    decreases i,
{
    if i == 0 {
    } else {
        assert(entries.skip(1)[i - 1] == entries[i]);
        assert(forall|j: int| 0 <= j < i - 1 ==> entries.skip(1)[j] == entries[j + 1]);
        lemma_index_of_key_found(entries.skip(1), key, i - 1);
    }
}

/// When no key matches at all, the search misses.
proof fn lemma_index_of_key_missing<V>(entries: Seq<(String, V)>, key: Seq<char>)
    requires
        forall|j: int| 0 <= j < entries.len() ==> entries[j].0@ != key,
    ensures
        index_of_key(entries, key) is None,
    decreases entries.len(),
{
    if entries.len() == 0 {
    } else {
        assert(forall|j: int| 0 <= j < entries.len() - 1 ==> entries.skip(1)[j] == entries[j + 1]);
        lemma_index_of_key_missing(entries.skip(1), key);
    }
}

} // verus!
