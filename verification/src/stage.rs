//! The course of an expansion, round by round.
//!
//! A round folds the items that the round before it added, then empties the stack: the symbol
//! put on it last is expanded first, and each expansion is one more item. The expansion is
//! done once folding leaves the stack empty.
use vstd::prelude::*;

use crate::error::ErrorView;
use crate::expansion::{expansion, MacroTable};
use crate::fold::{items_folded, items_uses, Queue};
use crate::parse_tree::ItemView;

verus! {

/// Where an expansion stands.
#[verifier::ext_equal]
pub struct Stage {
    /// The items so far. The first `counter` of them are folded.
    pub items: Seq<ItemView>,
    pub counter: nat,
    pub queue: Queue,
}

/// Where a number of rounds leads.
#[verifier::ext_equal]
pub enum Progress {
    /// There is more to do.
    More(Stage),
    /// Everything is expanded.
    Done(Stage),
    /// A symbol on the stack has no expansion; those above it are expanded.
    Failed(Stage, ErrorView),
    /// A symbol on the stack is one that expansion gives no answer for.
    Stuck,
}

impl Progress {
    /// Whether the expansion has come to its end, one way or the other.
    pub open spec fn is_end(self) -> bool {
        self is Done || self is Failed
    }
}

impl Stage {
    /// This stage with all of its items folded, and with what they use queued.
    pub open spec fn folded(self) -> Stage {
        let fresh = self.items.skip(self.counter as int);
        Stage {
            items: self.items.take(self.counter as int) + items_folded(fresh),
            counter: self.items.len(),
            queue: self.queue.offer_all(items_uses(fresh)),
        }
    }

    /// What emptying the stack of this stage leads to.
    pub open spec fn drained(self, defs: MacroTable) -> Progress
        decreases self.queue.stack.len(),
    {
        let stack = self.queue.stack;
        if stack.len() == 0 {
            Progress::More(self)
        } else {
            let popped = Queue { stack: stack.drop_last(), ..self.queue };
            match expansion(defs, stack.last()) {
                Some(Ok(item)) => Stage {
                    items: self.items.push(item),
                    queue: popped,
                    ..self
                }.drained(defs),
                Some(Err(error)) => Progress::Failed(Stage { queue: popped, ..self }, error),
                None => Progress::Stuck,
            }
        }
    }

    /// What one round leads to.
    pub open spec fn round(self, defs: MacroTable) -> Progress {
        let folded = self.folded();
        if folded.queue.stack.len() == 0 {
            Progress::Done(folded)
        } else {
            folded.drained(defs)
        }
    }

    /// What a number of rounds leads to.
    pub open spec fn run(self, defs: MacroTable, rounds: nat) -> Progress
        decreases rounds,
    {
        if rounds == 0 {
            Progress::More(self)
        } else {
            match self.round(defs) {
                Progress::More(next) => next.run(defs, (rounds - 1) as nat),
                end => end,
            }
        }
    }

    /// Whether some number of rounds leads to the end.
    pub open spec fn halts(self, defs: MacroTable) -> bool {
        exists|rounds: nat| (#[trigger] self.run(defs, rounds)).is_end()
    }

    /// What a number of rounds that is enough leads to.
    pub open spec fn outcome(self, defs: MacroTable) -> Progress {
        self.run(defs, choose|rounds: nat| (#[trigger] self.run(defs, rounds)).is_end())
    }
}

/// Emptying the stack adds items behind those that are there, and leaves the stack empty. It
/// is never the end of an expansion that succeeds.
pub proof fn draining_adds_items(stage: Stage, defs: MacroTable)
    ensures
        !(stage.drained(defs) is Done),
        stage.drained(defs) matches Progress::More(next) ==> {
            &&& next.queue.stack.len() == 0
            &&& next.queue.seen == stage.queue.seen
            &&& next.counter == stage.counter
            &&& next.items.len() == stage.items.len() + stage.queue.stack.len()
            &&& next.items.take(stage.items.len() as int) == stage.items
        },
    decreases stage.queue.stack.len(),
{
    let stack = stage.queue.stack;
    if stack.len() == 0 {
        assert(stage.items.take(stage.items.len() as int) =~= stage.items);
    } else if let Some(Ok(item)) = expansion(defs, stack.last()) {
        let popped = Queue { stack: stack.drop_last(), ..stage.queue };
        let next = Stage { items: stage.items.push(item), queue: popped, ..stage };
        draining_adds_items(next, defs);
        if let Progress::More(end) = next.drained(defs) {
            assert(end.items.take(stage.items.len() as int) =~= next.items.take(
                stage.items.len() as int,
            ));
            assert(next.items.take(stage.items.len() as int) =~= stage.items);
        }
    }
}

/// Once an expansion has ended, more rounds change nothing.
pub proof fn end_is_final(stage: Stage, defs: MacroTable, few: nat, many: nat)
    requires
        few <= many,
        !(stage.run(defs, few) is More),
    ensures
        stage.run(defs, many) == stage.run(defs, few),
    decreases few,
{
    if let Progress::More(next) = stage.round(defs) {
        end_is_final(next, defs, (few - 1) as nat, (many - 1) as nat);
    }
}

/// Whatever number of rounds leads to the end, it is the same end.
pub proof fn outcome_is_unique(stage: Stage, defs: MacroTable, rounds: nat)
    requires
        stage.run(defs, rounds).is_end(),
    ensures
        stage.halts(defs),
        stage.outcome(defs) == stage.run(defs, rounds),
{
    let enough = choose|rounds: nat| (#[trigger] stage.run(defs, rounds)).is_end();
    if enough <= rounds {
        end_is_final(stage, defs, enough, rounds);
    } else {
        end_is_final(stage, defs, rounds, enough);
    }
}

} // verus!
