//! The log of what happened, as the player reads it.

use vstd::prelude::*;

verus! {

/// The messages shown to the player, oldest first.
#[derive(Debug)]
pub struct GameLog {
    pub entries: Vec<String>,
}

impl View for GameLog {
    type V = Seq<Seq<char>>;

    open spec fn view(&self) -> Seq<Seq<char>> {
        Seq::new(self.entries@.len(), |i: int| self.entries@[i]@)
    }
}

impl GameLog {
    pub fn new() -> (log: GameLog)
        ensures
            log@ == Seq::<Seq<char>>::empty(),
    {
        let log = GameLog { entries: Vec::new() };
        proof {
            assert(log@ =~= Seq::<Seq<char>>::empty());
        }
        log
    }

    pub fn push(&mut self, line: String)
        ensures
            final(self)@ == old(self)@.push(line@),
    {
        self.entries.push(line);
        proof {
            assert(self@ =~= old(self)@.push(line@));
        }
    }
}

} // verus!
