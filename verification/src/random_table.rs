//! A table from which kinds of things are drawn by weight.

use vstd::prelude::*;
use crate::random::roll_dice;

verus! {

/// What can be put into a room when a level is made.
#[derive(Clone, Copy, Debug, PartialEq, Eq, Structural)]
pub enum SpawnKind {
    Goblin,
    Orc,
    HealthPotion,
    FireballScroll,
    ConfusionScroll,
    MagicMissileScroll,
}

#[derive(Clone, Copy, Debug, PartialEq, Eq, Structural)]
pub struct RandomEntry {
    pub kind: SpawnKind,
    pub weight: i32,
}

/// A table of kinds, each with a weight that says how often it comes up.
#[derive(Debug)]
pub struct RandomTable {
    pub entries: Vec<RandomEntry>,
    pub total_weight: i32,
}

/// Sum of the weights of the first `n` entries.
pub open spec fn weight_upto(entries: Seq<RandomEntry>, n: int) -> int
    decreases n,
{
    if n <= 0 {
        0
    } else {
        weight_upto(entries, n - 1) + entries[n - 1].weight
    }
}

/// The kind on which `roll` falls when the entries from `from` on are laid
/// end to end, each as long as its weight.
pub open spec fn picked(entries: Seq<RandomEntry>, roll: int, from: int) -> Option<SpawnKind>
    decreases entries.len() - from,
{
    if from < 0 || from >= entries.len() {
        None
    } else if roll < entries[from].weight {
        Some(entries[from].kind)
    } else {
        picked(entries, roll - entries[from].weight, from + 1)
    }
}

impl RandomTable {
    /// Every weight is positive, and the total is their sum.
    pub open spec fn wf(&self) -> bool {
        &&& self.total_weight == weight_upto(self.entries@, self.entries@.len() as int)
        &&& forall|i: int| 0 <= i < self.entries@.len() ==> self.entries@[i].weight > 0
    }

    pub fn new() -> (table: RandomTable)
        ensures
            table.wf(),
            table.entries@.len() == 0,
            table.total_weight == 0,
    {
        RandomTable { entries: Vec::new(), total_weight: 0 }
    }

    /// The table with one more entry. An entry without weight is left out.
    pub fn add(self, kind: SpawnKind, weight: i32) -> (table: RandomTable)
        requires
            self.wf(),
            self.total_weight + weight <= i32::MAX,
        ensures
            table.wf(),
            weight > 0 ==> table.entries@ == self.entries@.push(RandomEntry { kind, weight })
                && table.total_weight == self.total_weight + weight,
            weight <= 0 ==> table.entries@ == self.entries@ && table.total_weight
                == self.total_weight,
    {
        let mut table = self;
        if weight > 0 {
            proof {
                lemma_weight_nonnegative(table.entries@, table.entries@.len() as int);
            }
            table.total_weight = table.total_weight + weight;
            table.entries.push(RandomEntry { kind, weight });
            proof {
                lemma_weight_prefix(
                    self.entries@,
                    table.entries@,
                    self.entries@.len() as int,
                );
            }
        }
        table
    }

    /// The kind on which `roll` falls.
    pub fn pick(&self, roll: i32) -> (kind: Option<SpawnKind>)
        requires
            self.wf(),
        ensures
            kind == picked(self.entries@, roll as int, 0),
    {
        let mut left: i32 = roll;
        let mut index: usize = 0;
        while index < self.entries.len()
            invariant
                index <= self.entries@.len(),
                self.wf(),
                picked(self.entries@, roll as int, 0) == picked(
                    self.entries@,
                    left as int,
                    index as int,
                ),
            decreases self.entries@.len() - index,
        {
            let entry = self.entries[index];
            if left < entry.weight {
                return Some(entry.kind);
            }
            left = left - entry.weight;
            index += 1;
        }
        None
    }

    /// Draws a kind at random, each with a chance in proportion to its
    /// weight. An empty table gives nothing.
    pub fn roll(&self, rng: &mut rltk::RandomNumberGenerator) -> (kind: Option<SpawnKind>)
        requires
            self.wf(),
            self.total_weight < i32::MAX,
        ensures
            self.total_weight == 0 ==> kind is None,
            self.total_weight > 0 ==> kind is Some && exists|roll: int|
                0 <= roll < self.total_weight && kind == #[trigger] picked(self.entries@, roll, 0),
    {
        proof {
            lemma_weight_nonnegative(self.entries@, self.entries@.len() as int);
        }
        if self.total_weight == 0 {
            return None;
        }
        let roll = roll_dice(rng, 1, self.total_weight) - 1;
        proof {
            lemma_picked_some(self.entries@, roll as int, 0);
            assert(weight_upto(self.entries@, 0) == 0);
        }
        self.pick(roll)
    }
}

pub proof fn lemma_weight_nonnegative(entries: Seq<RandomEntry>, n: int)
    requires
        0 <= n <= entries.len(),
        forall|i: int| 0 <= i < entries.len() ==> entries[i].weight > 0,
    ensures
        weight_upto(entries, n) >= 0,
        n > 0 ==> weight_upto(entries, n) > 0,
    decreases n,
{
    if n > 0 {
        lemma_weight_nonnegative(entries, n - 1);
    }
}

pub proof fn lemma_weight_prefix(a: Seq<RandomEntry>, b: Seq<RandomEntry>, n: int)
    requires
        0 <= n <= a.len(),
        n <= b.len(),
        forall|i: int| 0 <= i < n ==> a[i] == b[i],
    ensures
        weight_upto(a, n) == weight_upto(b, n),
    decreases n,
{
    if n > 0 {
        lemma_weight_prefix(a, b, n - 1);
    }
}

/// A roll below the weight that is left falls on some kind.
pub proof fn lemma_picked_some(entries: Seq<RandomEntry>, roll: int, from: int)
    requires
        0 <= from <= entries.len(),
        forall|i: int| 0 <= i < entries.len() ==> entries[i].weight > 0,
        0 <= roll < weight_upto(entries, entries.len() as int) - weight_upto(entries, from),
    ensures
        picked(entries, roll, from) is Some,
    decreases entries.len() - from,
{
    if from >= entries.len() {
    } else if roll < entries[from].weight {
    } else {
        lemma_picked_some(entries, roll - entries[from].weight, from + 1);
    }
}

} // verus!
