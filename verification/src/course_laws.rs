//! What the rounds of an expansion do, item by item and symbol by symbol.
use vstd::prelude::*;

use crate::error::NormResult;
use crate::expansion::{expansion, MacroTable};
use crate::fold::{items_uses, Queue};
use crate::grammar::{expansion_after, plain_items, reports};
use crate::parse_tree::{items_view, Grammar, ItemView, SymbolView};
use crate::stage::{Progress, Stage};

verus! {

/// An expansion starts with the plain items of the grammar, none of them folded, and with
/// nothing queued and nothing seen.
pub proof fn expansions_start_with_the_plain_items(items: Seq<ItemView>)
    ensures
        expansion_after(items, 0) matches Progress::More(stage) && {
            &&& stage.items == plain_items(items)
            &&& stage.counter == 0
            &&& stage.queue.stack.len() == 0
            &&& forall|text: Seq<char>| !#[trigger] stage.queue.seen.contains(text)
        },
{
}

/// Folding a stage leaves alone the items that were folded before, folds each of the others in
/// its place, and offers what those use, in order, to the queue.
pub proof fn stages_are_folded_in_place(stage: Stage)
    requires
        stage.counter <= stage.items.len(),
    ensures
        stage.folded().items.len() == stage.items.len(),
        stage.folded().counter == stage.items.len(),
        forall|i: int|
            0 <= i < stage.counter ==> #[trigger] stage.folded().items[i] == stage.items[i],
        forall|i: int|
            stage.counter <= i < stage.items.len() ==> #[trigger] stage.folded().items[i]
                == stage.items[i].folded(),
        stage.folded().queue == stage.queue.offer_all(
            items_uses(stage.items.subrange(stage.counter as int, stage.items.len() as int)),
        ),
{
    assert(stage.items.subrange(stage.counter as int, stage.items.len() as int)
        =~= stage.items.skip(stage.counter as int));
}

/// The items that the topmost symbols of a stack expand to, the topmost first.
pub open spec fn expansions_from_the_top(
    defs: MacroTable,
    stack: Seq<SymbolView>,
    count: nat,
) -> Seq<ItemView> {
    Seq::new(count, |k: int| expansion(defs, stack[stack.len() - 1 - k])->0->Ok_0)
}

/// A stack is emptied from the top. The expansions of its symbols come behind the items, in
/// that order. The first symbol that has an error ends it, with that error and with what lies
/// below left on the stack, and the first one without an answer leaves no answer.
pub proof fn stacks_are_emptied_from_the_top(stage: Stage, defs: MacroTable, count: nat)
    requires
        count <= stage.queue.stack.len(),
        forall|k: int|
            stage.queue.stack.len() - count <= k < stage.queue.stack.len() ==> (expansion(
                defs,
                #[trigger] stage.queue.stack[k],
            ) matches Some(Ok(_))),
    ensures
        ({
            let stack = stage.queue.stack;
            let items = stage.items + expansions_from_the_top(defs, stack, count);
            if count == stack.len() {
                stage.drained(defs) == Progress::More(
                    Stage {
                        items,
                        counter: stage.counter,
                        queue: Queue { seen: stage.queue.seen, stack: Seq::empty() },
                    },
                )
            } else {
                match expansion(defs, stack[stack.len() - 1 - count]) {
                    Some(Err(error)) => stage.drained(defs) == Progress::Failed(
                        Stage {
                            items,
                            counter: stage.counter,
                            queue: Queue {
                                seen: stage.queue.seen,
                                stack: stack.take(stack.len() - 1 - count),
                            },
                        },
                        error,
                    ),
                    None => stage.drained(defs) is Stuck,
                    Some(Ok(_)) => true,
                }
            }
        }),
    decreases count,
{
    let stack = stage.queue.stack;
    let items = stage.items + expansions_from_the_top(defs, stack, count);
    if count == 0 {
        assert(items =~= stage.items);
        if stack.len() == 0 {
            assert(stack =~= Seq::empty());
        } else {
            assert(stack.take(stack.len() - 1) =~= stack.drop_last());
        }
    } else {
        let top = stack[stack.len() - 1];
        assert(expansion(defs, top) matches Some(Ok(_)));
        let item = expansion(defs, top)->0->Ok_0;
        let popped = Queue { stack: stack.drop_last(), ..stage.queue };
        let next = Stage { items: stage.items.push(item), queue: popped, ..stage };
        assert(stage.drained(defs) == next.drained(defs));
        let fewer = (count - 1) as nat;
        assert forall|k: int|
            popped.stack.len() - fewer <= k < popped.stack.len() implies (expansion(
            defs,
            #[trigger] popped.stack[k],
        ) matches Some(Ok(_))) by {
            assert(popped.stack[k] == stack[k]);
        }
        stacks_are_emptied_from_the_top(next, defs, fewer);
        assert(next.items + expansions_from_the_top(defs, popped.stack, fewer) =~= items);
        if count < stack.len() {
            assert(popped.stack[popped.stack.len() - 1 - fewer] == stack[stack.len() - 1 - count]);
            assert(popped.stack.take(popped.stack.len() - 1 - fewer) =~= stack.take(
                stack.len() - 1 - count,
            ));
        }
    }
}

/// An expansion is done once folding leaves nothing on the stack; else the stack is emptied.
/// One round is one round.
pub proof fn rounds_end_with_an_empty_stack(stage: Stage, defs: MacroTable)
    ensures
        stage.folded().queue.stack.len() == 0 ==> stage.run(defs, 1) == Progress::Done(
            stage.folded(),
        ),
        stage.folded().queue.stack.len() > 0 ==> stage.run(defs, 1) == stage.folded().drained(
            defs,
        ),
        stage.run(defs, 0) == Progress::More(stage),
{
    reveal_with_fuel(Stage::run, 2);
}

/// Some rounds and then some more are the rounds of both.
pub proof fn runs_join(stage: Stage, defs: MacroTable, few: nat, more: nat)
    ensures
        match stage.run(defs, few) {
            Progress::More(next) => stage.run(defs, few + more) == next.run(defs, more),
            end => stage.run(defs, few + more) == end,
        },
    decreases few,
{
    if few > 0 {
        if let Progress::More(next) = stage.round(defs) {
            runs_join(next, defs, (few - 1) as nat, more);
        }
    }
}

/// A result that reports the end of an expansion has its items, with all else in the grammar
/// as it was, or its error, and nothing is reported before the end.
pub proof fn reports_have_items_or_error(
    result: NormResult<Grammar>,
    input: Grammar,
    end: Progress,
)
    requires
        reports(result, input, end),
    ensures
        match end {
            Progress::Done(stage) => result matches Ok(grammar) && {
                &&& items_view(grammar.items@) == stage.items
                &&& grammar.span == input.span
                &&& grammar.type_parameters == input.type_parameters
                &&& grammar.parameters == input.parameters
            },
            Progress::Failed(_, error) => result matches Err(found) && found.message@
                == error.message && found.span == error.span,
            Progress::More(_) | Progress::Stuck => false,
        },
{
}

} // verus!
