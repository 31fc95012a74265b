//! Where each item of an expanded grammar comes from.
//!
//! A finished expansion has a history: the items as they were before folding, and for each
//! added item the symbol that it stands for. The history shows that everything that is used
//! is defined, that it is defined once, and that nothing is defined that is not used. Of an
//! expansion that fails it shows which symbol is at fault.
use vstd::prelude::*;

use crate::error::ErrorView;
use crate::expansion::{expansion, MacroTable};
use crate::fold::{items_folded, items_uses, Queue};
use crate::grammar::{expansion_end, expansion_ends, first_stage, macro_table, plain_items};
use crate::parse_tree::{ItemView, SymbolView};
use crate::stage::{draining_adds_items, Progress, Stage};

verus! {

/// How the items of an expanded grammar came about.
pub struct History {
    /// The items before folding: first those of the grammar that are not macros, then those
    /// that were added.
    pub raw: Seq<ItemView>,
    /// The symbols that the added items stand for.
    pub sources: Seq<SymbolView>,
}

/// Whether no two symbols of a list have the same canonical form.
pub open spec fn distinct_texts(symbols: Seq<SymbolView>) -> bool {
    forall|i: int, j: int|
        0 <= i < j < symbols.len() ==> (#[trigger] symbols[i]).text() != (
        #[trigger] symbols[j]).text()
}

/// Whether a text is the canonical form of some symbol of a list.
pub open spec fn has_text(symbols: Seq<SymbolView>, text: Seq<char>) -> bool {
    exists|i: int| 0 <= i < symbols.len() && (#[trigger] symbols[i]).text() == text
}

/// Whether one of the first items of a list uses a symbol.
pub open spec fn used_before(items: Seq<ItemView>, count: int, symbol: SymbolView) -> bool {
    exists|i: int| 0 <= i < count && (#[trigger] items[i]).uses().contains(symbol)
}

/// Whether a history explains the items that the expansion of some plain items ended with.
pub open spec fn explains(
    history: History,
    defs: MacroTable,
    plain: Seq<ItemView>,
    items: Seq<ItemView>,
) -> bool {
    let raw = history.raw;
    let sources = history.sources;
    // The items are the plain items and one item for each source, folded.
    &&& raw.len() == plain.len() + sources.len()
    &&& raw.take(plain.len() as int) == plain
    &&& items == items_folded(raw)
    &&& forall|j: int|
        0 <= j < sources.len() ==> expansion(defs, #[trigger] sources[j]) == Some(
            Ok::<_, ErrorView>(raw[plain.len() + j]),
        )
    // No two sources have the same canonical form.
    &&& distinct_texts(sources)
    // Everything that is used is a source.
    &&& forall|i: int, symbol: SymbolView|
        0 <= i < raw.len() && #[trigger] raw[i].uses().contains(symbol) ==> has_text(
            sources,
            symbol.text(),
        )
    // Every source is used, by an item before its own.
    &&& forall|j: int|
        0 <= j < sources.len() ==> used_before(raw, plain.len() + j, #[trigger] sources[j])
}

/// Whether a history explains the error that the expansion of some plain items ended with.
pub open spec fn explains_error(
    history: History,
    defs: MacroTable,
    plain: Seq<ItemView>,
    error: ErrorView,
) -> bool {
    let raw = history.raw;
    let sources = history.sources;
    // Up to the error there was one item for each source.
    &&& raw.len() == plain.len() + sources.len()
    &&& raw.take(plain.len() as int) == plain
    &&& forall|j: int|
        0 <= j < sources.len() ==> expansion(defs, #[trigger] sources[j]) == Some(
            Ok::<_, ErrorView>(raw[plain.len() + j]),
        )
    // Every source is used, by an item before its own.
    &&& forall|j: int|
        0 <= j < sources.len() ==> used_before(raw, plain.len() + j, #[trigger] sources[j])
    // The error is that of another symbol in use.
    &&& exists|symbol: SymbolView| #[trigger]
        used_before(raw, raw.len() as int, symbol) && expansion(defs, symbol) == Some(
            Err::<ItemView, _>(error),
        ) && !has_text(sources, symbol.text())
}

/// Whether a queue holds, apart from some sources, what it has taken.
spec fn accounts(queue: Queue, sources: Seq<SymbolView>) -> bool {
    &&& distinct_texts(sources + queue.stack)
    &&& forall|text: Seq<char>| #[trigger]
        queue.seen.contains(text) <==> has_text(sources + queue.stack, text)
}

/// Whether a history explains a stage of an expansion.
spec fn explains_stage(
    history: History,
    defs: MacroTable,
    plain: Seq<ItemView>,
    stage: Stage,
) -> bool {
    let raw = history.raw;
    let sources = history.sources;
    &&& stage.counter <= stage.items.len()
    &&& raw.len() == stage.items.len()
    &&& raw.len() == plain.len() + sources.len()
    &&& raw.take(plain.len() as int) == plain
    &&& forall|i: int| 0 <= i < stage.counter ==> #[trigger] stage.items[i] == raw[i].folded()
    &&& forall|i: int| stage.counter <= i < raw.len() ==> #[trigger] stage.items[i] == raw[i]
    &&& forall|j: int|
        0 <= j < sources.len() ==> expansion(defs, #[trigger] sources[j]) == Some(
            Ok::<_, ErrorView>(raw[plain.len() + j]),
        )
    &&& accounts(stage.queue, sources)
    &&& forall|i: int, symbol: SymbolView|
        0 <= i < stage.counter && #[trigger] raw[i].uses().contains(symbol)
            ==> stage.queue.seen.contains(symbol.text())
    &&& forall|j: int|
        0 <= j < sources.len() ==> used_before(raw, plain.len() + j, #[trigger] sources[j])
    &&& forall|k: int|
        0 <= k < stage.queue.stack.len() ==> used_before(
            raw,
            stage.counter as int,
            #[trigger] stage.queue.stack[k],
        )
}

/// The symbols that a list of items uses are those that its items use.
proof fn items_uses_are_uses(items: Seq<ItemView>, symbol: SymbolView)
    ensures
        items_uses(items).contains(symbol) <==> used_before(items, items.len() as int, symbol),
    decreases items.len(),
{
    if items.len() > 0 {
        let before = items.drop_last();
        let last = items.last().uses();
        items_uses_are_uses(before, symbol);
        if items_uses(items).contains(symbol) {
            let k = choose|k: int|
                0 <= k < items_uses(items).len() && items_uses(items)[k] == symbol;
            if k < items_uses(before).len() {
                assert(items_uses(before)[k] == symbol);
                let i = choose|i: int|
                    0 <= i < before.len() && (#[trigger] before[i]).uses().contains(symbol);
                assert(items[i].uses().contains(symbol));
            } else {
                assert(last[k - items_uses(before).len()] == symbol);
                assert(items[items.len() - 1].uses().contains(symbol));
            }
        }
        if used_before(items, items.len() as int, symbol) {
            let i = choose|i: int|
                0 <= i < items.len() && (#[trigger] items[i]).uses().contains(symbol);
            if i < before.len() {
                assert(before[i].uses().contains(symbol));
                let k = choose|k: int|
                    0 <= k < items_uses(before).len() && items_uses(before)[k] == symbol;
                assert(items_uses(items)[k] == symbol);
            } else {
                let k = choose|k: int| 0 <= k < last.len() && last[k] == symbol;
                assert(items_uses(items)[items_uses(before).len() + k] == symbol);
            }
        }
    }
}

/// Offering a symbol keeps the account: it takes the symbol once.
proof fn offer_accounts(queue: Queue, sources: Seq<SymbolView>, symbol: SymbolView)
    requires
        accounts(queue, sources),
    ensures
        accounts(queue.offer(symbol), sources),
        queue.offer(symbol).seen.contains(symbol.text()),
        queue.seen.subset_of(queue.offer(symbol).seen),
{
    let known = sources + queue.stack;
    let after = queue.offer(symbol);
    if !queue.seen.contains(symbol.text()) {
        let grown = sources + after.stack;
        assert(grown =~= known.push(symbol));
        assert forall|i: int, j: int| 0 <= i < j < grown.len() implies (
        #[trigger] grown[i]).text() != (#[trigger] grown[j]).text() by {
            if j == known.len() {
                assert(known[i].text() == grown[i].text());
                assert(!has_text(known, symbol.text()));
            } else {
                assert(known[i].text() != known[j].text());
            }
        }
        assert forall|text: Seq<char>| #[trigger]
            after.seen.contains(text) <==> has_text(grown, text) by {
            if has_text(known, text) {
                let i = choose|i: int| 0 <= i < known.len() && (#[trigger] known[i]).text() == text;
                assert(grown[i].text() == text);
            }
            if text == symbol.text() {
                assert(grown[known.len() as int].text() == text);
            }
            if has_text(grown, text) {
                let i = choose|i: int| 0 <= i < grown.len() && (#[trigger] grown[i]).text() == text;
                if i < known.len() {
                    assert(known[i].text() == text);
                }
            }
        }
    }
}

/// Offering a list of symbols keeps the account.
proof fn offer_all_accounts(queue: Queue, sources: Seq<SymbolView>, symbols: Seq<SymbolView>)
    requires
        accounts(queue, sources),
    ensures
        accounts(queue.offer_all(symbols), sources),
        queue.seen.subset_of(queue.offer_all(symbols).seen),
        forall|i: int|
            0 <= i < symbols.len() ==> queue.offer_all(symbols).seen.contains(
                (#[trigger] symbols[i]).text(),
            ),
        forall|k: int|
            0 <= k < queue.offer_all(symbols).stack.len() ==> queue.stack.contains(
                #[trigger] queue.offer_all(symbols).stack[k],
            ) || symbols.contains(queue.offer_all(symbols).stack[k]),
    decreases symbols.len(),
{
    if symbols.len() == 0 {
        assert forall|k: int| 0 <= k < queue.stack.len() implies queue.stack.contains(
            #[trigger] queue.stack[k],
        ) by {}
    } else {
        let before = queue.offer_all(symbols.drop_last());
        offer_all_accounts(queue, sources, symbols.drop_last());
        offer_accounts(before, sources, symbols.last());
        let after = queue.offer_all(symbols);
        assert forall|i: int| 0 <= i < symbols.len() implies after.seen.contains(
            (#[trigger] symbols[i]).text(),
        ) by {
            if i < symbols.len() - 1 {
                assert(symbols.drop_last()[i] == symbols[i]);
            }
        }
        assert forall|k: int| 0 <= k < after.stack.len() implies queue.stack.contains(
            #[trigger] after.stack[k],
        ) || symbols.contains(after.stack[k]) by {
            if k < before.stack.len() {
                let symbol = before.stack[k];
                if symbols.drop_last().contains(symbol) {
                    let i = choose|i: int|
                        0 <= i < symbols.drop_last().len() && symbols.drop_last()[i] == symbol;
                    assert(symbols[i] == symbol);
                }
            } else {
                assert(symbols[symbols.len() - 1] == after.stack[k]);
            }
        }
    }
}

/// Moving a symbol from the stack to the sources keeps the account.
proof fn pop_accounts(queue: Queue, sources: Seq<SymbolView>)
    requires
        accounts(queue, sources),
        queue.stack.len() > 0,
    ensures
        accounts(
            Queue { stack: queue.stack.drop_last(), ..queue },
            sources.push(queue.stack.last()),
        ),
{
    let known = sources + queue.stack;
    let moved = sources.push(queue.stack.last()) + queue.stack.drop_last();
    let n = sources.len() as int;
    let last = known.len() - 1;
    assert(known[last] == queue.stack.last());
    assert forall|i: int, j: int| 0 <= i < j < moved.len() implies (#[trigger] moved[i]).text()
        != (#[trigger] moved[j]).text() by {
        let i0 = if i < n { i } else if i == n { last } else { i - 1 };
        let j0 = if j < n { j } else if j == n { last } else { j - 1 };
        assert(moved[i] == known[i0]);
        assert(moved[j] == known[j0]);
        assert(i0 != j0);
        if i0 < j0 {
            assert(known[i0].text() != known[j0].text());
        } else {
            assert(known[j0].text() != known[i0].text());
        }
    }
    assert forall|text: Seq<char>| #[trigger]
        queue.seen.contains(text) <==> has_text(moved, text) by {
        if has_text(known, text) {
            let i = choose|i: int| 0 <= i < known.len() && (#[trigger] known[i]).text() == text;
            let i0 = if i < n { i } else if i == last { n } else { i + 1 };
            assert(moved[i0] == known[i]);
        }
        if has_text(moved, text) {
            let i = choose|i: int| 0 <= i < moved.len() && (#[trigger] moved[i]).text() == text;
            let i0 = if i < n { i } else if i == n { last } else { i - 1 };
            assert(known[i0] == moved[i]);
        }
    }
}

/// Folding a stage keeps its history.
proof fn folding_keeps_history(
    history: History,
    defs: MacroTable,
    plain: Seq<ItemView>,
    stage: Stage,
)
    requires
        explains_stage(history, defs, plain, stage),
    ensures
        explains_stage(history, defs, plain, stage.folded()),
{
    let raw = history.raw;
    let counter = stage.counter as int;
    let fresh = stage.items.skip(counter);
    let folded = stage.folded();
    offer_all_accounts(stage.queue, history.sources, items_uses(fresh));
    assert forall|i: int| 0 <= i < folded.counter implies #[trigger] folded.items[i]
        == raw[i].folded() by {
        if i < counter {
            assert(stage.items[i] == raw[i].folded());
        } else {
            assert(stage.items[i] == raw[i]);
        }
    }
    assert forall|i: int, symbol: SymbolView|
        0 <= i < folded.counter && #[trigger] raw[i].uses().contains(symbol) implies
        folded.queue.seen.contains(symbol.text()) by {
        if i >= counter {
            assert(fresh[i - counter] == stage.items[i]);
            items_uses_are_uses(fresh, symbol);
            assert(fresh[i - counter].uses().contains(symbol));
            let k = choose|k: int|
                0 <= k < items_uses(fresh).len() && items_uses(fresh)[k] == symbol;
            assert(folded.queue.seen.contains(items_uses(fresh)[k].text()));
        }
    }
    assert forall|k: int| 0 <= k < folded.queue.stack.len() implies used_before(
        raw,
        folded.counter as int,
        #[trigger] folded.queue.stack[k],
    ) by {
        let symbol = folded.queue.stack[k];
        if stage.queue.stack.contains(symbol) {
            let k0 = choose|k0: int|
                0 <= k0 < stage.queue.stack.len() && stage.queue.stack[k0] == symbol;
            assert(used_before(raw, counter, stage.queue.stack[k0]));
            let i = choose|i: int|
                0 <= i < counter && (#[trigger] raw[i]).uses().contains(symbol);
            assert(raw[i].uses().contains(symbol));
        } else {
            items_uses_are_uses(fresh, symbol);
            let i = choose|i: int|
                0 <= i < fresh.len() && (#[trigger] fresh[i]).uses().contains(symbol);
            assert(stage.items[counter + i] == raw[counter + i]);
            assert(raw[counter + i].uses().contains(symbol));
        }
    }
}

/// Emptying the stack of a stage extends its history.
proof fn draining_extends_history(
    history: History,
    defs: MacroTable,
    plain: Seq<ItemView>,
    stage: Stage,
) -> (longer: History)
    requires
        explains_stage(history, defs, plain, stage),
    ensures
        stage.drained(defs) matches Progress::More(next) ==> explains_stage(
            longer,
            defs,
            plain,
            next,
        ),
        stage.drained(defs) matches Progress::Failed(_, error) ==> explains_error(
            longer,
            defs,
            plain,
            error,
        ),
    decreases stage.queue.stack.len(),
{
    let stack = stage.queue.stack;
    if stack.len() == 0 {
        history
    } else if let Some(Ok(item)) = expansion(defs, stack.last()) {
        let popped = Queue { stack: stack.drop_last(), ..stage.queue };
        let next = Stage { items: stage.items.push(item), queue: popped, ..stage };
        let grown = History {
            raw: history.raw.push(item),
            sources: history.sources.push(stack.last()),
        };
        pop_accounts(stage.queue, history.sources);
        assert(grown.raw.take(plain.len() as int) =~= plain);
        assert forall|i: int, symbol: SymbolView|
            0 <= i < next.counter && #[trigger] grown.raw[i].uses().contains(symbol) implies
            next.queue.seen.contains(symbol.text()) by {
            assert(history.raw[i].uses().contains(symbol));
        }
        assert forall|j: int| 0 <= j < grown.sources.len() implies used_before(
            grown.raw,
            plain.len() + j,
            #[trigger] grown.sources[j],
        ) by {
            let symbol = grown.sources[j];
            if j < history.sources.len() {
                assert(used_before(history.raw, plain.len() + j, history.sources[j]));
                let i = choose|i: int|
                    0 <= i < plain.len() + j && (#[trigger] history.raw[i]).uses().contains(symbol);
                assert(grown.raw[i].uses().contains(symbol));
            } else {
                assert(used_before(history.raw, stage.counter as int, stack[stack.len() - 1]));
                let i = choose|i: int|
                    0 <= i < stage.counter && (#[trigger] history.raw[i]).uses().contains(symbol);
                assert(grown.raw[i].uses().contains(symbol));
            }
        }
        assert forall|k: int| 0 <= k < next.queue.stack.len() implies used_before(
            grown.raw,
            next.counter as int,
            #[trigger] next.queue.stack[k],
        ) by {
            let symbol = next.queue.stack[k];
            assert(used_before(history.raw, stage.counter as int, stack[k]));
            let i = choose|i: int|
                0 <= i < stage.counter && (#[trigger] history.raw[i]).uses().contains(symbol);
            assert(grown.raw[i].uses().contains(symbol));
        }
        draining_extends_history(grown, defs, plain, next)
    } else {
        let known = history.sources + stack;
        let last = known.len() - 1;
        let symbol = stack.last();
        assert(known[last] == symbol);
        assert(used_before(history.raw, stage.counter as int, stack[stack.len() - 1]));
        let i = choose|i: int|
            0 <= i < stage.counter && (#[trigger] history.raw[i]).uses().contains(symbol);
        assert(used_before(history.raw, history.raw.len() as int, symbol));
        assert(!has_text(history.sources, symbol.text())) by {
            if has_text(history.sources, symbol.text()) {
                let j = choose|j: int|
                    0 <= j < history.sources.len() && (#[trigger] history.sources[j]).text()
                        == symbol.text();
                assert(known[j].text() != known[last].text());
            }
        }
        history
    }
}

/// The end of a run has a history, if its start has one.
proof fn runs_have_histories(
    history: History,
    defs: MacroTable,
    plain: Seq<ItemView>,
    stage: Stage,
    rounds: nat,
) -> (whole: History)
    requires
        explains_stage(history, defs, plain, stage),
    ensures
        stage.run(defs, rounds) matches Progress::Done(end) ==> explains(
            whole,
            defs,
            plain,
            end.items,
        ),
        stage.run(defs, rounds) matches Progress::Failed(_, error) ==> explains_error(
            whole,
            defs,
            plain,
            error,
        ),
    decreases rounds,
{
    if rounds == 0 {
        history
    } else {
        folding_keeps_history(history, defs, plain, stage);
        let folded = stage.folded();
        if folded.queue.stack.len() == 0 {
            assert(history.sources + folded.queue.stack =~= history.sources);
            assert(folded.items =~= items_folded(history.raw));
            assert forall|i: int, symbol: SymbolView|
                0 <= i < history.raw.len() && #[trigger] history.raw[i].uses().contains(
                    symbol,
                ) implies has_text(history.sources, symbol.text()) by {
                assert(folded.queue.seen.contains(symbol.text()));
            }
            history
        } else {
            draining_adds_items(folded, defs);
            let longer = draining_extends_history(history, defs, plain, folded);
            if let Progress::More(next) = folded.drained(defs) {
                runs_have_histories(longer, defs, plain, next, (rounds - 1) as nat)
            } else {
                longer
            }
        }
    }
}

/// The end of the expansion of a grammar has a history.
proof fn history_of_the_end(items: Seq<ItemView>) -> (history: History)
    ensures
        expansion_end(items) matches Progress::Done(end) ==> explains(
            history,
            macro_table(items),
            plain_items(items),
            end.items,
        ),
        expansion_end(items) matches Progress::Failed(_, error) ==> explains_error(
            history,
            macro_table(items),
            plain_items(items),
            error,
        ),
{
    let plain = plain_items(items);
    let defs = macro_table(items);
    let stage = first_stage(items);
    let start = History { raw: plain, sources: Seq::empty() };
    let rounds = choose|rounds: nat| (#[trigger] stage.run(defs, rounds)).is_end();
    assert(start.sources + stage.queue.stack =~= Seq::empty());
    assert(plain.take(plain.len() as int) =~= plain);
    runs_have_histories(start, defs, plain, stage, rounds)
}

/// The items of an expanded grammar are the items that are not macros, in their order, and
/// one nonterminal for each compound symbol in use, each folded. Whatever is used is defined
/// exactly once, under its canonical form, and nothing is defined that is not used.
pub proof fn expansion_is_complete(items: Seq<ItemView>) -> (history: History)
    requires
        expansion_ends(items),
        expansion_end(items) is Done,
    ensures
        explains(
            history,
            macro_table(items),
            plain_items(items),
            expansion_end(items)->Done_0.items,
        ),
{
    history_of_the_end(items)
}

/// An expansion that fails has the error of a compound symbol in use: one that an item uses,
/// or that the expansion of another symbol in use has brought in.
pub proof fn failure_has_a_cause(items: Seq<ItemView>) -> (history: History)
    requires
        expansion_ends(items),
        expansion_end(items) is Failed,
    ensures
        explains_error(
            history,
            macro_table(items),
            plain_items(items),
            expansion_end(items)->Failed_1,
        ),
{
    history_of_the_end(items)
}

} // verus!
