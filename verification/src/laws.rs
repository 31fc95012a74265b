//! What holds of the expansion of every grammar.
use vstd::prelude::*;

use crate::expansion::{expansions_are_plain, MacroTable};
use crate::fold::{all_folded, all_uses, alternatives_uses, items_folded, items_uses};
use crate::grammar::{
    expansion_after, expansion_end, expansion_ends, first_stage, macro_table, plain_items,
};
use crate::history::{expansion_is_complete, has_text};
use crate::parse_tree::{AlternativeView, ItemView, KindView, SymbolView};
use crate::stage::{outcome_is_unique, Progress, Stage};

verus! {

/// A folded symbol is flat.
pub proof fn folding_flattens(symbol: SymbolView)
    ensures
        symbol.folded().is_flat(),
    decreases symbol,
{
    match symbol.kind {
        KindView::Choose(inner) => folding_flattens(*inner),
        KindView::Name(_, inner) => folding_flattens(*inner),
        _ => {},
    }
}

/// Folding changes nothing in a flat symbol, and finds nothing to expand in it.
pub proof fn folding_keeps_flat(symbol: SymbolView)
    requires
        symbol.is_flat(),
    ensures
        symbol.folded() == symbol,
        symbol.uses() == Seq::<SymbolView>::empty(),
    decreases symbol,
{
    match symbol.kind {
        KindView::Choose(inner) => folding_keeps_flat(*inner),
        KindView::Name(_, inner) => folding_keeps_flat(*inner),
        _ => {},
    }
}

/// A folded item is flat, and it defines a macro only if it did before.
pub proof fn folding_flattens_item(item: ItemView)
    ensures
        item.folded().is_flat(),
        item.folded().is_macro_def() == item.is_macro_def(),
{
    if let ItemView::Nonterminal(data) = item {
        let folded = data.folded();
        assert forall|i: int, j: int|
            0 <= i < folded.alternatives.len() && 0 <= j < folded.alternatives[i].expr.len()
            implies (#[trigger] folded.alternatives[i].expr[j]).is_flat() by {
            folding_flattens(data.alternatives[i].expr[j]);
        }
    }
}

/// A list of flat symbols uses nothing.
proof fn flat_symbols_use_nothing(symbols: Seq<SymbolView>)
    requires
        forall|i: int| 0 <= i < symbols.len() ==> (#[trigger] symbols[i]).is_flat(),
    ensures
        all_uses(symbols) == Seq::<SymbolView>::empty(),
        all_folded(symbols) == symbols,
    decreases symbols.len(),
{
    if symbols.len() > 0 {
        flat_symbols_use_nothing(symbols.drop_last());
        folding_keeps_flat(symbols[symbols.len() - 1]);
    }
    assert forall|i: int| 0 <= i < symbols.len() implies all_folded(symbols)[i] == symbols[i] by {
        folding_keeps_flat(symbols[i]);
    }
    assert(all_folded(symbols) =~= symbols);
}

/// A list of alternatives of flat symbols uses nothing.
proof fn flat_alternatives_use_nothing(alternatives: Seq<AlternativeView>)
    requires
        forall|i: int, j: int|
            0 <= i < alternatives.len() && 0 <= j < alternatives[i].expr.len() ==> (
            #[trigger] alternatives[i].expr[j]).is_flat(),
    ensures
        alternatives_uses(alternatives) == Seq::<SymbolView>::empty(),
    decreases alternatives.len(),
{
    if alternatives.len() > 0 {
        let before = alternatives.drop_last();
        assert forall|i: int, j: int|
            0 <= i < before.len() && 0 <= j < before[i].expr.len() implies (
        #[trigger] before[i].expr[j]).is_flat() by {
            assert(alternatives[i].expr[j].is_flat());
        }
        flat_alternatives_use_nothing(before);
        let last = alternatives.last().expr;
        assert forall|j: int| 0 <= j < last.len() implies (#[trigger] last[j]).is_flat() by {
            assert(alternatives[alternatives.len() - 1].expr[j].is_flat());
        }
        flat_symbols_use_nothing(last);
    }
}

/// Folding changes nothing in a flat item, and finds nothing to expand in it.
pub proof fn folding_keeps_flat_item(item: ItemView)
    requires
        item.is_flat(),
    ensures
        item.folded() == item,
        item.uses() == Seq::<SymbolView>::empty(),
{
    if let ItemView::Nonterminal(data) = item {
        flat_alternatives_use_nothing(data.alternatives);
        assert forall|i: int| 0 <= i < data.alternatives.len() implies data.folded().alternatives[i]
            == data.alternatives[i] by {
            let expr = data.alternatives[i].expr;
            assert forall|j: int| 0 <= j < expr.len() implies (#[trigger] expr[j]).is_flat() by {
                assert(data.alternatives[i].expr[j].is_flat());
            }
            flat_symbols_use_nothing(expr);
        }
        assert(data.folded().alternatives =~= data.alternatives);
    }
}

/// A list of flat items uses nothing.
pub(crate) proof fn flat_items_use_nothing(items: Seq<ItemView>)
    requires
        forall|i: int| 0 <= i < items.len() ==> (#[trigger] items[i]).is_flat(),
    ensures
        items_uses(items) == Seq::<SymbolView>::empty(),
        items_folded(items) == items,
    decreases items.len(),
{
    if items.len() > 0 {
        flat_items_use_nothing(items.drop_last());
        folding_keeps_flat_item(items.last());
    }
    assert forall|i: int| 0 <= i < items.len() implies items_folded(items)[i] == items[i] by {
        folding_keeps_flat_item(items[i]);
    }
    assert(items_folded(items) =~= items);
}

/// An expanded grammar has no macros, and no compound symbol is left in it.
pub proof fn expanded_is_flat(items: Seq<ItemView>)
    requires
        expansion_ends(items),
        expansion_end(items) is Done,
    ensures
        forall|i: int|
            0 <= i < expansion_end(items)->Done_0.items.len() ==> {
                &&& (#[trigger] expansion_end(items)->Done_0.items[i]).is_flat()
                &&& !expansion_end(items)->Done_0.items[i].is_macro_def()
            },
{
    let end = expansion_end(items)->Done_0.items;
    let plain = plain_items(items);
    let history = expansion_is_complete(items);
    assert forall|i: int| 0 <= i < end.len() implies {
        &&& (#[trigger] end[i]).is_flat()
        &&& !end[i].is_macro_def()
    } by {
        folding_flattens_item(history.raw[i]);
        if i < plain.len() {
            assert(history.raw[i] == plain[i]);
            items.lemma_filter_pred(|item: ItemView| !item.is_macro_def(), i);
        } else {
            let source = history.sources[i - plain.len()];
            expansions_are_plain(macro_table(items), source);
        }
    }
}

/// The items of a grammar that are not macros stay in front and in order; each is only
/// folded.
pub proof fn plain_items_stay(items: Seq<ItemView>)
    requires
        expansion_ends(items),
        expansion_end(items) is Done,
    ensures
        plain_items(items).len() <= expansion_end(items)->Done_0.items.len(),
        expansion_end(items)->Done_0.items.take(plain_items(items).len() as int) == items_folded(
            plain_items(items),
        ),
{
    let history = expansion_is_complete(items);
    let plain = plain_items(items);
    assert(items_folded(history.raw).take(plain.len() as int) =~= items_folded(
        history.raw.take(plain.len() as int),
    ));
}

/// Whatever compound symbol an item uses that is not a macro, the expanded grammar defines a
/// nonterminal under the symbol's canonical form.
pub proof fn what_is_used_is_defined(items: Seq<ItemView>, i: int, symbol: SymbolView)
    requires
        expansion_ends(items),
        expansion_end(items) is Done,
        0 <= i < plain_items(items).len(),
        plain_items(items)[i].uses().contains(symbol),
    ensures
        exists|j: int|
            plain_items(items).len() <= j < expansion_end(items)->Done_0.items.len() && (
            #[trigger] expansion_end(items)->Done_0.items[j]) is Nonterminal
                && expansion_end(items)->Done_0.items[j]->Nonterminal_0.name == symbol.text(),
{
    let plain = plain_items(items);
    let end = expansion_end(items)->Done_0.items;
    let history = expansion_is_complete(items);
    assert(history.raw[i] == plain[i]);
    assert(history.raw[i].uses().contains(symbol));
    assert(has_text(history.sources, symbol.text()));
    let k = choose|k: int|
        0 <= k < history.sources.len() && (#[trigger] history.sources[k]).text() == symbol.text();
    let j = plain.len() + k;
    expansions_are_plain(macro_table(items), history.sources[k]);
    assert(end[j] == history.raw[j].folded());
}

/// Each canonical form is expanded once: no two of the items that expansion adds have the
/// same name.
pub proof fn additions_have_distinct_names(items: Seq<ItemView>, i: int, j: int)
    requires
        expansion_ends(items),
        expansion_end(items) is Done,
        plain_items(items).len() <= i < j < expansion_end(items)->Done_0.items.len(),
    ensures
        expansion_end(items)->Done_0.items[i] is Nonterminal,
        expansion_end(items)->Done_0.items[j] is Nonterminal,
        expansion_end(items)->Done_0.items[i]->Nonterminal_0.name
            != expansion_end(items)->Done_0.items[j]->Nonterminal_0.name,
{
    let plain = plain_items(items);
    let end = expansion_end(items)->Done_0.items;
    let history = expansion_is_complete(items);
    let first = history.sources[i - plain.len()];
    let second = history.sources[j - plain.len()];
    expansions_are_plain(macro_table(items), first);
    expansions_are_plain(macro_table(items), second);
    assert(end[i] == history.raw[i].folded());
    assert(end[j] == history.raw[j].folded());
}

/// The items that expansion adds have no conditions: those of macros have been decided.
pub proof fn additions_have_no_conditions(items: Seq<ItemView>, i: int, k: int)
    requires
        expansion_ends(items),
        expansion_end(items) is Done,
        plain_items(items).len() <= i < expansion_end(items)->Done_0.items.len(),
        0 <= k < expansion_end(items)->Done_0.items[i]->Nonterminal_0.alternatives.len(),
    ensures
        expansion_end(items)->Done_0.items[i] is Nonterminal,
        expansion_end(items)->Done_0.items[i]->Nonterminal_0.alternatives[k].condition is None,
{
    let end = expansion_end(items)->Done_0.items;
    let history = expansion_is_complete(items);
    let source = history.sources[i - plain_items(items).len()];
    expansions_are_plain(macro_table(items), source);
    assert(end[i] == history.raw[i].folded());
    assert(history.raw[i]->Nonterminal_0.alternatives[k].condition is None);
}

/// A list of items that are no macros is plain as it is.
pub(crate) proof fn plain_already(items: Seq<ItemView>)
    requires
        forall|i: int| 0 <= i < items.len() ==> !(#[trigger] items[i]).is_macro_def(),
    ensures
        plain_items(items) == items,
        macro_table(items) == MacroTable::empty(),
    decreases items.len(),
{
    reveal(Seq::filter);
    if items.len() > 0 {
        plain_already(items.drop_last());
        assert(items.drop_last().push(items.last()) =~= items);
    }
}

/// A grammar without macros and compound symbols is expanded already: one round shows it,
/// and changes nothing.
pub proof fn flat_is_expanded(items: Seq<ItemView>)
    requires
        forall|i: int|
            0 <= i < items.len() ==> (#[trigger] items[i]).is_flat() && !items[i].is_macro_def(),
    ensures
        expansion_ends(items),
        expansion_end(items) == expansion_after(items, 1),
        expansion_end(items) matches Progress::Done(stage) && stage.items == items,
{
    plain_already(items);
    let stage = first_stage(items);
    let defs = macro_table(items);
    flat_items_use_nothing(items);
    assert(stage.items.skip(0) =~= items);
    assert(stage.items.take(0) + items =~= items);
    assert(stage.round(defs) is Done);
    reveal_with_fuel(Stage::run, 2);
    outcome_is_unique(stage, defs, 1);
}

/// Expanding an expanded grammar once more changes nothing.
pub proof fn expanding_twice_changes_nothing(items: Seq<ItemView>)
    requires
        expansion_ends(items),
        expansion_end(items) is Done,
    ensures
        expansion_ends(expansion_end(items)->Done_0.items),
        expansion_end(expansion_end(items)->Done_0.items) matches Progress::Done(stage)
            && stage.items == expansion_end(items)->Done_0.items,
{
    expanded_is_flat(items);
    flat_is_expanded(expansion_end(items)->Done_0.items);
}

} // verus!
