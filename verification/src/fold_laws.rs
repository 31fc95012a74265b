//! What folding does, part by part.
use vstd::prelude::*;

use crate::fold::{all_folded, all_uses, alternatives_uses, items_uses, Queue};
use crate::history::has_text;
use crate::parse_tree::{AlternativeView, ItemView, KindView, NonterminalView, SymbolView};
use crate::shape::{
    label, occurrences_are_in_parts, occurs, occurs_in_any, occurs_in_item, parts,
    stands_for_a_rule, Label,
};

verus! {

/// What a symbol becomes depends on its label alone: a compound symbol becomes the
/// nonterminal of its canonical form, in its own place; below a mark the part is folded and
/// the mark stays; anything else stays.
pub proof fn folding_goes_by_labels(symbol: SymbolView)
    ensures
        symbol.folded().span == symbol.span,
        stands_for_a_rule(label(symbol)) ==> label(symbol.folded()) == Label::Nonterminal(
            symbol.text(),
        ) && parts(symbol.folded()).len() == 0,
        !stands_for_a_rule(label(symbol)) ==> {
            &&& label(symbol.folded()) == label(symbol)
            &&& parts(symbol.folded()).len() == parts(symbol).len()
            &&& forall|k: int|
                0 <= k < parts(symbol).len() ==> #[trigger] parts(symbol.folded())[k] == parts(
                    symbol,
                )[k].folded()
        },
{
}

/// Folding the parts of a compound symbol keeps its position, its label and the number of its
/// parts, and folds each part in its place.
pub proof fn parts_are_folded_in_place(symbol: SymbolView)
    ensures
        symbol.parts_folded().span == symbol.span,
        label(symbol.parts_folded()) == label(symbol),
        parts(symbol.parts_folded()).len() == parts(symbol).len(),
        forall|k: int|
            0 <= k < parts(symbol).len() && stands_for_a_rule(label(symbol)) ==> #[trigger] parts(
                symbol.parts_folded(),
            )[k] == parts(symbol)[k].folded(),
{
}

/// The symbols of a list are folded one by one.
pub proof fn lists_are_folded_in_place(symbols: Seq<SymbolView>)
    ensures
        all_folded(symbols).len() == symbols.len(),
        forall|k: int|
            0 <= k < symbols.len() ==> #[trigger] all_folded(symbols)[k] == symbols[k].folded(),
{
}

/// The uses in a symbol are the uses in its parts, from left to right, and behind them the
/// symbol itself if it is compound. So every compound symbol in a tree counts once, whatever
/// stands above it.
pub proof fn uses_are_those_of_the_parts(symbol: SymbolView)
    ensures
        symbol.uses() == all_uses(parts(symbol)) + (if stands_for_a_rule(label(symbol)) {
            seq![symbol.parts_folded()]
        } else {
            Seq::empty()
        }),
{
    match symbol.kind {
        KindView::Repeat(_, inner) => one_symbol_uses(*inner),
        KindView::Choose(inner) => one_symbol_uses(*inner),
        KindView::Name(_, inner) => one_symbol_uses(*inner),
        _ => {},
    }
    assert(symbol.uses() =~= all_uses(parts(symbol)) + (if stands_for_a_rule(label(symbol)) {
        seq![symbol.parts_folded()]
    } else {
        Seq::empty()
    }));
}

/// The uses in a list of one symbol are those in the symbol.
pub proof fn one_symbol_uses(symbol: SymbolView)
    ensures
        all_uses(seq![symbol]) == symbol.uses(),
{
    let one = seq![symbol];
    assert(one.drop_last() =~= Seq::empty());
    assert(all_uses(one.drop_last()) =~= Seq::empty());
    assert(all_uses(one) =~= symbol.uses());
}

/// The uses in a list are those in its first part and behind them those in the rest.
pub proof fn uses_of_joined_lists(first: Seq<SymbolView>, second: Seq<SymbolView>)
    ensures
        all_uses(first + second) == all_uses(first) + all_uses(second),
    decreases second.len(),
{
    if second.len() == 0 {
        assert(first + second =~= first);
        assert(all_uses(first) + all_uses(second) =~= all_uses(first));
    } else {
        uses_of_joined_lists(first, second.drop_last());
        assert((first + second).drop_last() =~= first + second.drop_last());
        assert(all_uses(first + second) =~= all_uses(first) + all_uses(second));
    }
}

/// Every compound symbol that occurs in a symbol is among its uses, with its parts folded.
pub proof fn occurring_compounds_are_uses(inner: SymbolView, symbol: SymbolView)
    requires
        occurs(inner, symbol),
        stands_for_a_rule(label(inner)),
    ensures
        symbol.uses().contains(inner.parts_folded()),
    decreases symbol, 0int,
{
    let below = all_uses(parts(symbol));
    uses_are_those_of_the_parts(symbol);
    occurrences_are_in_parts(inner, symbol);
    if inner == symbol {
        assert(symbol.uses()[below.len() as int] == inner.parts_folded());
    } else {
        match symbol.kind {
            KindView::Expr(symbols) => occurring_compounds_are_uses_of_lists(inner, symbols),
            KindView::Macro(_, args) => occurring_compounds_are_uses_of_lists(inner, args),
            KindView::Repeat(_, part) => {
                occurring_compounds_are_uses(inner, *part);
                one_symbol_uses(*part);
            },
            KindView::Choose(part) => {
                occurring_compounds_are_uses(inner, *part);
                one_symbol_uses(*part);
            },
            KindView::Name(_, part) => {
                occurring_compounds_are_uses(inner, *part);
                one_symbol_uses(*part);
            },
            _ => {},
        }
        let k = choose|k: int| 0 <= k < below.len() && below[k] == inner.parts_folded();
        assert(symbol.uses()[k] == inner.parts_folded());
    }
}

/// Every compound symbol that occurs in a list of symbols is among the uses of the list.
pub proof fn occurring_compounds_are_uses_of_lists(inner: SymbolView, symbols: Seq<SymbolView>)
    requires
        occurs_in_any(inner, symbols),
        stands_for_a_rule(label(inner)),
    ensures
        all_uses(symbols).contains(inner.parts_folded()),
    decreases symbols, 0int,
{
    let k = choose|k: int| 0 <= k < symbols.len() && occurs(inner, #[trigger] symbols[k]);
    occurring_compounds_are_uses(inner, symbols[k]);
    let here = symbols[k].uses();
    let before = symbols.take(k);
    let rest = symbols.skip(k + 1);
    assert(symbols =~= (before + seq![symbols[k]]) + rest);
    uses_of_joined_lists(before + seq![symbols[k]], rest);
    uses_of_joined_lists(before, seq![symbols[k]]);
    one_symbol_uses(symbols[k]);
    let m = choose|m: int| 0 <= m < here.len() && here[m] == inner.parts_folded();
    assert(all_uses(symbols)[all_uses(before).len() + m] == inner.parts_folded());
}

/// Whether a symbol is a compound symbol that occurs in another, with its parts folded.
pub open spec fn comes_from(used: SymbolView, symbol: SymbolView) -> bool {
    exists|inner: SymbolView| #[trigger]
        occurs(inner, symbol) && stands_for_a_rule(label(inner)) && inner.parts_folded() == used
}

/// Whether a symbol is a compound symbol that occurs in a list, with its parts folded.
pub open spec fn comes_from_list(used: SymbolView, symbols: Seq<SymbolView>) -> bool {
    exists|inner: SymbolView| #[trigger]
        occurs_in_any(inner, symbols) && stands_for_a_rule(label(inner)) && inner.parts_folded()
            == used
}

/// Every use in a symbol is a compound symbol that occurs in it, with its parts folded.
pub proof fn uses_occur(used: SymbolView, symbol: SymbolView)
    requires
        symbol.uses().contains(used),
    ensures
        comes_from(used, symbol),
    decreases symbol, 0int,
{
    let below = all_uses(parts(symbol));
    uses_are_those_of_the_parts(symbol);
    let k = choose|k: int| 0 <= k < symbol.uses().len() && symbol.uses()[k] == used;
    if k < below.len() {
        assert(below[k] == used);
        assert(below.contains(used));
        match symbol.kind {
            KindView::Expr(symbols) => uses_of_lists_occur(used, symbols),
            KindView::Macro(_, args) => uses_of_lists_occur(used, args),
            KindView::Repeat(_, part) => {
                one_symbol_uses(*part);
                uses_occur(used, *part);
                occurs_in_one(used, *part);
            },
            KindView::Choose(part) => {
                one_symbol_uses(*part);
                uses_occur(used, *part);
                occurs_in_one(used, *part);
            },
            KindView::Name(_, part) => {
                one_symbol_uses(*part);
                uses_occur(used, *part);
                occurs_in_one(used, *part);
            },
            _ => {},
        }
        let inner = choose|inner: SymbolView| #[trigger]
            occurs_in_any(inner, parts(symbol)) && stands_for_a_rule(label(inner))
                && inner.parts_folded() == used;
        occurrences_are_in_parts(inner, symbol);
        assert(occurs(inner, symbol));
    } else {
        assert(occurs(symbol, symbol));
        assert(symbol.parts_folded() == used);
    }
}

/// What comes from a symbol comes from the list of that symbol.
proof fn occurs_in_one(used: SymbolView, symbol: SymbolView)
    requires
        comes_from(used, symbol),
    ensures
        comes_from_list(used, seq![symbol]),
{
    let inner = choose|inner: SymbolView| #[trigger]
        occurs(inner, symbol) && stands_for_a_rule(label(inner)) && inner.parts_folded() == used;
    assert(occurs(inner, seq![symbol][0]));
    assert(occurs_in_any(inner, seq![symbol]));
}

/// Every use in a list is a compound symbol that occurs in it, with its parts folded.
pub proof fn uses_of_lists_occur(used: SymbolView, symbols: Seq<SymbolView>)
    requires
        all_uses(symbols).contains(used),
    ensures
        comes_from_list(used, symbols),
    decreases symbols, symbols.len(),
{
    let before = symbols.drop_last();
    let last = symbols[symbols.len() - 1];
    let k = choose|k: int| 0 <= k < all_uses(symbols).len() && all_uses(symbols)[k] == used;
    if k < all_uses(before).len() {
        assert(all_uses(before)[k] == used);
        uses_of_lists_occur(used, before);
        let inner = choose|inner: SymbolView| #[trigger]
            occurs_in_any(inner, before) && stands_for_a_rule(label(inner))
                && inner.parts_folded() == used;
        let i = choose|i: int| 0 <= i < before.len() && occurs(inner, #[trigger] before[i]);
        assert(occurs(inner, symbols[i]));
        assert(occurs_in_any(inner, symbols));
    } else {
        assert(last.uses()[k - all_uses(before).len()] == used);
        uses_occur(used, last);
        let inner = choose|inner: SymbolView| #[trigger]
            occurs(inner, last) && stands_for_a_rule(label(inner)) && inner.parts_folded() == used;
        assert(occurs_in_any(inner, symbols));
    }
}

/// The uses in the alternatives of a list are those of each alternative, in order.
pub proof fn uses_of_joined_alternatives(
    first: Seq<AlternativeView>,
    second: Seq<AlternativeView>,
)
    ensures
        alternatives_uses(first + second) == alternatives_uses(first) + alternatives_uses(second),
    decreases second.len(),
{
    if second.len() == 0 {
        assert(first + second =~= first);
        assert(alternatives_uses(first) + alternatives_uses(second) =~= alternatives_uses(first));
    } else {
        uses_of_joined_alternatives(first, second.drop_last());
        assert((first + second).drop_last() =~= first + second.drop_last());
        assert(alternatives_uses(first + second) =~= alternatives_uses(first) + alternatives_uses(
            second,
        ));
    }
}

/// The uses in one alternative are those in its symbols.
pub proof fn one_alternative_uses(alternative: AlternativeView)
    ensures
        alternatives_uses(seq![alternative]) == all_uses(alternative.expr),
{
    let one = seq![alternative];
    assert(one.drop_last() =~= Seq::empty());
    assert(alternatives_uses(one.drop_last()) =~= Seq::empty());
    assert(alternatives_uses(one) =~= all_uses(alternative.expr));
}

/// The uses in the items of a list are those of each item, in order.
pub proof fn uses_of_joined_items(first: Seq<ItemView>, second: Seq<ItemView>)
    ensures
        items_uses(first + second) == items_uses(first) + items_uses(second),
    decreases second.len(),
{
    if second.len() == 0 {
        assert(first + second =~= first);
        assert(items_uses(first) + items_uses(second) =~= items_uses(first));
    } else {
        uses_of_joined_items(first, second.drop_last());
        assert((first + second).drop_last() =~= first + second.drop_last());
        assert(items_uses(first + second) =~= items_uses(first) + items_uses(second));
    }
}

/// The uses in one item are those in its alternatives, in order.
pub proof fn one_item_uses(item: ItemView)
    ensures
        items_uses(seq![item]) == item.uses(),
        item matches ItemView::Nonterminal(data) ==> item.uses() == alternatives_uses(
            data.alternatives,
        ),
        !(item is Nonterminal) ==> item.uses() == Seq::<SymbolView>::empty(),
{
    let one = seq![item];
    assert(one.drop_last() =~= Seq::empty());
    assert(items_uses(one.drop_last()) =~= Seq::empty());
    assert(items_uses(one) =~= item.uses());
}

/// Every compound symbol that occurs in an item is among the uses of the item, with its parts
/// folded.
pub proof fn occurring_compounds_are_uses_of_items(inner: SymbolView, item: ItemView)
    requires
        occurs_in_item(inner, item),
        stands_for_a_rule(label(inner)),
    ensures
        item.uses().contains(inner.parts_folded()),
{
    let all = item->Nonterminal_0.alternatives;
    let a = choose|a: int|
        0 <= a < all.len() && occurs_in_any(inner, (#[trigger] all[a]).expr);
    occurring_compounds_are_uses_of_lists(inner, all[a].expr);
    let here = all_uses(all[a].expr);
    let before = all.take(a);
    let rest = all.skip(a + 1);
    assert(all =~= (before + seq![all[a]]) + rest);
    uses_of_joined_alternatives(before + seq![all[a]], rest);
    uses_of_joined_alternatives(before, seq![all[a]]);
    one_alternative_uses(all[a]);
    let m = choose|m: int| 0 <= m < here.len() && here[m] == inner.parts_folded();
    assert(item.uses()[alternatives_uses(before).len() + m] == inner.parts_folded());
}

/// Whether a symbol is a compound symbol that occurs in an item, with its parts folded.
pub open spec fn comes_from_item(used: SymbolView, item: ItemView) -> bool {
    exists|inner: SymbolView| #[trigger]
        occurs_in_item(inner, item) && stands_for_a_rule(label(inner)) && inner.parts_folded()
            == used
}

/// Every use in an item is a compound symbol that occurs in it, with its parts folded.
pub proof fn uses_of_items_occur(used: SymbolView, item: ItemView)
    requires
        item.uses().contains(used),
    ensures
        comes_from_item(used, item),
{
    let all = item->Nonterminal_0.alternatives;
    uses_of_alternatives_occur(used, all);
    let (a, inner) = choose|a: int, inner: SymbolView|
        0 <= a < all.len() && #[trigger] occurs_in_any(inner, all[a].expr) && stands_for_a_rule(
            label(inner),
        ) && inner.parts_folded() == used;
    assert(occurs_in_any(inner, item->Nonterminal_0.alternatives[a].expr));
    assert(occurs_in_item(inner, item));
}

/// Every use in a list of alternatives occurs in one of them.
proof fn uses_of_alternatives_occur(used: SymbolView, all: Seq<AlternativeView>)
    requires
        alternatives_uses(all).contains(used),
    ensures
        exists|a: int, inner: SymbolView|
            0 <= a < all.len() && #[trigger] occurs_in_any(inner, all[a].expr)
                && stands_for_a_rule(label(inner)) && inner.parts_folded() == used,
    decreases all.len(),
{
    let before = all.drop_last();
    let k = choose|k: int|
        0 <= k < alternatives_uses(all).len() && alternatives_uses(all)[k] == used;
    if k < alternatives_uses(before).len() {
        assert(alternatives_uses(before)[k] == used);
        uses_of_alternatives_occur(used, before);
        let (a, inner) = choose|a: int, inner: SymbolView|
            0 <= a < before.len() && #[trigger] occurs_in_any(inner, before[a].expr)
                && stands_for_a_rule(label(inner)) && inner.parts_folded() == used;
        assert(occurs_in_any(inner, all[a].expr));
    } else {
        let last = all.last().expr;
        assert(all_uses(last)[k - alternatives_uses(before).len()] == used);
        uses_of_lists_occur(used, last);
        let inner = choose|inner: SymbolView| #[trigger]
            occurs_in_any(inner, last) && stands_for_a_rule(label(inner)) && inner.parts_folded()
                == used;
        assert(occurs_in_any(inner, all[all.len() - 1].expr));
    }
}

/// Folding a nonterminal touches nothing but the symbols of its alternatives, and each of
/// those is folded in its place.
pub proof fn nonterminals_are_folded_in_place(data: NonterminalView)
    ensures
        data.folded().public == data.public,
        data.folded().span == data.span,
        data.folded().name == data.name,
        data.folded().args == data.args,
        data.folded().type_decl == data.type_decl,
        data.folded().alternatives.len() == data.alternatives.len(),
        forall|a: int|
            0 <= a < data.alternatives.len() ==> {
                let new = #[trigger] data.folded().alternatives[a];
                &&& new.span == data.alternatives[a].span
                &&& new.condition == data.alternatives[a].condition
                &&& new.action == data.alternatives[a].action
                &&& new.expr.len() == data.alternatives[a].expr.len()
            },
        forall|a: int, p: int|
            0 <= a < data.alternatives.len() && 0 <= p < data.alternatives[a].expr.len()
                ==> #[trigger] data.folded().alternatives[a].expr[p]
                == data.alternatives[a].expr[p].folded(),
{
}

/// Folding leaves an item that is not a nonterminal as it is, and a nonterminal stays one.
pub proof fn other_items_are_not_folded(item: ItemView)
    ensures
        item matches ItemView::Nonterminal(data) ==> item.folded() == ItemView::Nonterminal(
            data.folded(),
        ),
        !(item is Nonterminal) ==> item.folded() == item,
{
}

/// A queue that is offered one symbol takes it on top of its stack if it has not seen the
/// symbol's canonical form, and has seen it then.
pub proof fn one_offer(queue: Queue, symbol: SymbolView)
    ensures
        queue.offer_all(seq![symbol]) == queue.offer(symbol),
        queue.offer(symbol).seen == queue.seen.insert(symbol.text()),
        queue.seen.contains(symbol.text()) ==> queue.offer(symbol).stack == queue.stack,
        !queue.seen.contains(symbol.text()) ==> queue.offer(symbol).stack.len()
            == queue.stack.len() + 1 && queue.offer(symbol).stack.last() == symbol
            && queue.offer(symbol).stack.drop_last() == queue.stack,
{
    let one = seq![symbol];
    assert(one.drop_last() =~= Seq::empty());
    assert(queue.offer_all(one.drop_last()) == queue);
    if queue.seen.contains(symbol.text()) {
        assert(queue.seen.insert(symbol.text()) =~= queue.seen);
    } else {
        assert(queue.offer(symbol).stack.drop_last() =~= queue.stack);
    }
}

/// A queue that is offered a list has seen what it had seen and the canonical forms of the
/// list, keeps its stack below, and takes each canonical form that it had not seen in the
/// shape in which it comes first.
pub proof fn offers_are_taken_once(queue: Queue, symbols: Seq<SymbolView>)
    ensures
        forall|text: Seq<char>| #[trigger]
            queue.offer_all(symbols).seen.contains(text) <==> queue.seen.contains(text)
                || has_text(symbols, text),
        queue.stack.len() <= queue.offer_all(symbols).stack.len(),
        queue.offer_all(symbols).stack.take(queue.stack.len() as int) == queue.stack,
        forall|k: int|
            0 <= k < symbols.len() && !queue.seen.contains((#[trigger] symbols[k]).text())
                && !has_text(symbols.take(k), symbols[k].text())
                ==> queue.offer_all(symbols).stack.skip(queue.stack.len() as int).contains(
                symbols[k],
            ),
    decreases symbols.len(),
{
    let n = queue.stack.len() as int;
    let all = queue.offer_all(symbols);
    if symbols.len() == 0 {
        assert(queue.stack.take(n) =~= queue.stack);
    } else {
        let before = symbols.drop_last();
        let earlier = queue.offer_all(before);
        let last = symbols.len() - 1;
        offers_are_taken_once(queue, before);
        assert(all.stack.take(n) =~= earlier.stack.take(n));
        assert forall|text: Seq<char>| has_text(symbols, text) <==> has_text(before, text) || text
            == symbols[last].text() by {
            if has_text(symbols, text) {
                let i = choose|i: int|
                    0 <= i < symbols.len() && (#[trigger] symbols[i]).text() == text;
                if i < last {
                    assert(before[i].text() == text);
                }
            }
            if has_text(before, text) {
                let i = choose|i: int|
                    0 <= i < before.len() && (#[trigger] before[i]).text() == text;
                assert(symbols[i].text() == text);
            }
            assert(symbols[last].text() == symbols[last].text());
        }
        assert forall|k: int|
            0 <= k < symbols.len() && !queue.seen.contains((#[trigger] symbols[k]).text())
                && !has_text(symbols.take(k), symbols[k].text()) implies all.stack.skip(
            n,
        ).contains(symbols[k]) by {
            if k < last {
                assert(before[k] == symbols[k]);
                assert(before.take(k) =~= symbols.take(k));
                let m = choose|m: int|
                    0 <= m < earlier.stack.skip(n).len() && earlier.stack.skip(n)[m] == symbols[k];
                assert(all.stack.skip(n)[m] == symbols[k]);
            } else {
                assert(symbols.take(k) =~= before);
                assert(all.stack.skip(n)[all.stack.len() - 1 - n] == symbols[k]);
            }
        }
    }
}

} // verus!
