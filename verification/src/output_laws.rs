//! What holds of the items of every expanded grammar, by what occurs in them.
//!
//! Nothing dangles in an expanded grammar, and nothing is missing or defined twice. These laws
//! go by the tree of a symbol: a compound symbol counts wherever it stands, at the top of an
//! alternative, in a group, among arguments, or below a mark or a name.
use vstd::prelude::*;

use crate::error::ErrorView;
use crate::expansion::{expansion, expansions_are_plain, instance, MacroTable};
use crate::fold::folding_parts_keeps_text;
use crate::fold_laws::{
    comes_from_item, occurring_compounds_are_uses_of_items, uses_of_items_occur,
};
use crate::grammar::{expansion_end, expansion_ends, macro_table, plain_items};
use crate::history::{expansion_is_complete, explains, has_text, used_before, History};
use crate::laws::additions_have_distinct_names;
use crate::macro_laws::{defines_macro, macros_are_defined_by_items, plain_items_are_items};
use crate::parse_tree::{ItemView, KindView, NonterminalView, SymbolView};
use crate::shape::{
    label, mentions_are_occurrences, named_in_item, occurrence_is_transitive,
    occurrences_are_in_parts, occurs, occurs_in_any, occurs_in_item, parts, stands_for_a_rule,
    Label,
};
use crate::subst::{any_mentions, bind, parameters_do_not_survive};
use crate::subst_laws::only_parameters_are_bound;
use crate::termination::{bound_to_arguments, instances_have_origins};

verus! {

/// Whether an item is a nonterminal of some name.
pub open spec fn is_called(item: ItemView, name: Seq<char>) -> bool {
    item is Nonterminal && item->Nonterminal_0.name == name
}

/// Whether exactly one of the items from some place on is a nonterminal of some name.
pub open spec fn defined_once(items: Seq<ItemView>, from: int, name: Seq<char>) -> bool {
    exists|j: int|
        from <= j < items.len() && is_called(#[trigger] items[j], name) && forall|m: int|
            from <= m < items.len() && m != j ==> !is_called(#[trigger] items[m], name)
}

/// Whether a grammar has a nonterminal of some name in it as it is written: in an item that is
/// not a macro, or in a macro that has no parameter of that name.
pub open spec fn is_written(items: Seq<ItemView>, name: Seq<char>) -> bool {
    exists|k: int|
        0 <= k < items.len() && named_in_item(#[trigger] items[k], name)
            && !items[k]->Nonterminal_0.args.contains(name)
}

/// Whether every compound symbol in some items is a source of a history, and every source is a
/// compound symbol in an item before its own.
pub open spec fn accounts_for_occurrences(history: History, plain: nat) -> bool {
    &&& forall|i: int, inner: SymbolView|
        0 <= i < history.raw.len() && #[trigger] occurs_in_item(inner, history.raw[i])
            && stands_for_a_rule(label(inner)) ==> has_text(history.sources, inner.text())
    &&& forall|j: int|
        0 <= j < history.sources.len() ==> exists|i: int|
            0 <= i < plain + j && comes_from_item(
                #[trigger] history.sources[j],
                #[trigger] history.raw[i],
            )
}

/// The items of an expanded grammar are its plain items and one nonterminal for each text of a
/// compound symbol that occurs in a plain item or in what another compound symbol comes to,
/// all of them folded.
pub proof fn expansion_covers_what_occurs(items: Seq<ItemView>) -> (history: History)
    requires
        expansion_ends(items),
        expansion_end(items) is Done,
    ensures
        explains(
            history,
            macro_table(items),
            plain_items(items),
            expansion_end(items)->Done_0.items,
        ),
        accounts_for_occurrences(history, plain_items(items).len()),
{
    let history = expansion_is_complete(items);
    let plain = plain_items(items).len();
    assert forall|i: int, inner: SymbolView|
        0 <= i < history.raw.len() && #[trigger] occurs_in_item(inner, history.raw[i])
            && stands_for_a_rule(label(inner)) implies has_text(
        history.sources,
        inner.text(),
    ) by {
        occurring_compounds_are_uses_of_items(inner, history.raw[i]);
        assert(history.raw[i].uses().contains(inner.parts_folded()));
        folding_parts_keeps_text(inner);
    }
    assert forall|j: int| 0 <= j < history.sources.len() implies exists|i: int|
        0 <= i < plain + j && comes_from_item(
            #[trigger] history.sources[j],
            #[trigger] history.raw[i],
        ) by {
        let source = history.sources[j];
        assert(used_before(history.raw, plain + j, source));
        let i = choose|i: int|
            0 <= i < plain + j && (#[trigger] history.raw[i]).uses().contains(source);
        uses_of_items_occur(source, history.raw[i]);
        assert(comes_from_item(history.sources[j], history.raw[i]));
    }
    history
}

/// A source of a history is defined by exactly one added item, and by exactly one item at all
/// if no plain item has its name.
proof fn sources_are_defined_once(items: Seq<ItemView>, history: History, name: Seq<char>)
    requires
        expansion_ends(items),
        expansion_end(items) is Done,
        explains(
            history,
            macro_table(items),
            plain_items(items),
            expansion_end(items)->Done_0.items,
        ),
        has_text(history.sources, name),
    ensures
        defined_once(
            expansion_end(items)->Done_0.items,
            plain_items(items).len() as int,
            name,
        ),
        (forall|i: int|
            0 <= i < plain_items(items).len() ==> !is_called(
                #[trigger] plain_items(items)[i],
                name,
            )) ==> defined_once(expansion_end(items)->Done_0.items, 0, name),
{
    let end = expansion_end(items)->Done_0.items;
    let plain = plain_items(items);
    let k = choose|k: int|
        0 <= k < history.sources.len() && (#[trigger] history.sources[k]).text() == name;
    let j = plain.len() + k;
    expansions_are_plain(macro_table(items), history.sources[k]);
    assert(end[j] == history.raw[j].folded());
    assert(is_called(end[j], name));
    assert forall|m: int| plain.len() <= m < end.len() && m != j implies !is_called(
        #[trigger] end[m],
        name,
    ) by {
        if m < j {
            additions_have_distinct_names(items, m, j);
        } else {
            additions_have_distinct_names(items, j, m);
        }
    }
    if forall|i: int| 0 <= i < plain.len() ==> !is_called(#[trigger] plain[i], name) {
        assert forall|m: int| 0 <= m < end.len() && m != j implies !is_called(
            #[trigger] end[m],
            name,
        ) by {
            if m < plain.len() {
                assert(history.raw[m] == plain[m]);
                assert(end[m] == history.raw[m].folded());
                assert(!is_called(plain[m], name));
            }
        }
    }
}

/// Every compound symbol that occurs in an item of the grammar that is not a macro, wherever it
/// stands, is defined by exactly one added nonterminal, under its canonical form.
pub proof fn compound_symbols_are_defined_once(items: Seq<ItemView>, i: int, inner: SymbolView)
    requires
        expansion_ends(items),
        expansion_end(items) is Done,
        0 <= i < plain_items(items).len(),
        occurs_in_item(inner, plain_items(items)[i]),
        stands_for_a_rule(label(inner)),
    ensures
        defined_once(
            expansion_end(items)->Done_0.items,
            plain_items(items).len() as int,
            inner.text(),
        ),
{
    let history = expansion_covers_what_occurs(items);
    assert(history.raw[i] == plain_items(items)[i]);
    assert(occurs_in_item(inner, history.raw[i]));
    sources_are_defined_once(items, history, inner.text());
}

/// Whether a text is that of a compound symbol that occurs in a symbol.
pub open spec fn is_text_within(symbol: SymbolView, text: Seq<char>) -> bool {
    exists|inner: SymbolView| #[trigger]
        occurs(inner, symbol) && stands_for_a_rule(label(inner)) && inner.text() == text
}

/// What is named in a folded symbol was named in it before, or is the text of a compound symbol
/// that occurred in it.
proof fn folding_names_compounds(symbol: SymbolView, name: Seq<char>)
    requires
        symbol.folded().kind.mentions(name),
    ensures
        symbol.kind.mentions(name) || is_text_within(symbol, name),
    decreases symbol,
{
    match symbol.kind {
        KindView::Terminal(_) | KindView::Nonterminal(_) => {},
        KindView::Choose(part) => {
            folding_names_compounds(*part, name);
            assert(parts(symbol)[0] == *part);
            within_part(symbol, *part, name);
        },
        KindView::Name(_, part) => {
            folding_names_compounds(*part, name);
            assert(parts(symbol)[0] == *part);
            within_part(symbol, *part, name);
        },
        KindView::Expr(_) | KindView::Macro(_, _) | KindView::Repeat(_, _) => {
            assert(occurs(symbol, symbol));
        },
    }
}

/// What is within a part is within the whole.
proof fn within_part(symbol: SymbolView, part: SymbolView, text: Seq<char>)
    requires
        parts(symbol).contains(part),
    ensures
        is_text_within(part, text) ==> is_text_within(symbol, text),
{
    if is_text_within(part, text) {
        let inner = choose|inner: SymbolView| #[trigger]
            occurs(inner, part) && stands_for_a_rule(label(inner)) && inner.text() == text;
        let k = choose|k: int| 0 <= k < parts(symbol).len() && parts(symbol)[k] == part;
        assert(occurs(inner, parts(symbol)[k]));
        assert(occurs_in_any(inner, parts(symbol)));
        occurrences_are_in_parts(inner, symbol);
    }
}

/// What occurs in a symbol that occurs in an item occurs in the item.
proof fn occurs_through(inner: SymbolView, outer: SymbolView, item: ItemView)
    requires
        occurs(inner, outer),
        occurs_in_item(outer, item),
    ensures
        occurs_in_item(inner, item),
{
    let all = item->Nonterminal_0.alternatives;
    let a = choose|a: int| 0 <= a < all.len() && occurs_in_any(outer, (#[trigger] all[a]).expr);
    let p = choose|p: int| 0 <= p < all[a].expr.len() && occurs(outer, #[trigger] all[a].expr[p]);
    occurrence_is_transitive(inner, outer, all[a].expr[p]);
    assert(occurs_in_any(inner, all[a].expr));
}

/// A nonterminal that occurs in an item is named in it.
proof fn occurring_names_are_named(item: ItemView, inner: SymbolView, name: Seq<char>)
    requires
        occurs_in_item(inner, item),
        inner.kind == KindView::Nonterminal(name),
    ensures
        named_in_item(item, name),
{
    let all = item->Nonterminal_0.alternatives;
    let a = choose|a: int| 0 <= a < all.len() && occurs_in_any(inner, (#[trigger] all[a]).expr);
    let p = choose|p: int| 0 <= p < all[a].expr.len() && occurs(inner, #[trigger] all[a].expr[p]);
    mentions_are_occurrences(all[a].expr[p], name);
    assert(label(inner) == Label::Nonterminal(name));
    assert(item->Nonterminal_0.alternatives[a].expr[p].kind.mentions(name));
}

/// What a part of a source names is written in the grammar or is the text of a source.
proof fn names_in_sources(
    items: Seq<ItemView>,
    history: History,
    j: int,
    k: int,
    name: Seq<char>,
)
    requires
        explains(
            history,
            macro_table(items),
            plain_items(items),
            expansion_end(items)->Done_0.items,
        ),
        accounts_for_occurrences(history, plain_items(items).len()),
        0 <= j < history.sources.len(),
        0 <= k < parts(history.sources[j]).len(),
        parts(history.sources[j])[k].kind.mentions(name),
    ensures
        is_written(items, name) || has_text(history.sources, name),
    decreases plain_items(items).len() + j, 0int,
{
    let source = history.sources[j];
    let m = choose|m: int|
        0 <= m < plain_items(items).len() + j && comes_from_item(
            source,
            #[trigger] history.raw[m],
        );
    let whole = choose|whole: SymbolView| #[trigger]
        occurs_in_item(whole, history.raw[m]) && stands_for_a_rule(label(whole))
            && whole.parts_folded() == source;
    let part = parts(whole)[k];
    assert(parts(source)[k] == part.folded());
    folding_names_compounds(part, name);
    assert(parts(whole).contains(part));
    if part.kind.mentions(name) {
        mentions_are_occurrences(part, name);
        let inner = choose|inner: SymbolView| #[trigger]
            occurs(inner, part) && label(inner) == Label::Nonterminal(name);
        assert(occurs_in_any(inner, parts(whole)));
        occurrences_are_in_parts(inner, whole);
        occurs_through(inner, whole, history.raw[m]);
        occurring_names_are_named(history.raw[m], inner, name);
        names_are_known(items, history, m, name);
    } else {
        within_part(whole, part, name);
        let inner = choose|inner: SymbolView| #[trigger]
            occurs(inner, whole) && stands_for_a_rule(label(inner)) && inner.text() == name;
        occurs_through(inner, whole, history.raw[m]);
        assert(has_text(history.sources, inner.text()));
    }
}

/// What a group comes to names nothing but what its parts name.
proof fn names_in_groups(defs: MacroTable, symbol: SymbolView, name: Seq<char>) -> (k: int)
    requires
        symbol.kind is Expr,
        expansion(defs, symbol) matches Some(Ok(_)),
        named_in_item(expansion(defs, symbol)->0->Ok_0, name),
    ensures
        0 <= k < parts(symbol).len(),
        parts(symbol)[k].kind.mentions(name),
{
    let all = expansion(defs, symbol)->0->Ok_0->Nonterminal_0.alternatives;
    let (a, p) = choose|a: int, p: int|
        0 <= a < all.len() && 0 <= p < all[a].expr.len() && (
        #[trigger] all[a].expr[p]).kind.mentions(name);
    assert(all[a].expr[p] == parts(symbol)[p]);
    p
}

/// What a repetition comes to names nothing but the repetition itself and what its part names.
proof fn names_in_repetitions(defs: MacroTable, symbol: SymbolView, name: Seq<char>)
    requires
        symbol.kind is Repeat,
        expansion(defs, symbol) matches Some(Ok(_)),
        named_in_item(expansion(defs, symbol)->0->Ok_0, name),
    ensures
        name == symbol.text() || parts(symbol)[0].kind.mentions(name),
{
    let all = expansion(defs, symbol)->0->Ok_0->Nonterminal_0.alternatives;
    let (a, p) = choose|a: int, p: int|
        0 <= a < all.len() && 0 <= p < all[a].expr.len() && (
        #[trigger] all[a].expr[p]).kind.mentions(name);
    let found = all[a].expr[p];
    if let KindView::Name(_, inner) = found.kind {
        assert(inner.kind.mentions(name));
    }
}

/// Whether a macro names something that is not a parameter of it.
spec fn is_free_in(def: NonterminalView, name: Seq<char>) -> bool {
    named_in_item(ItemView::Nonterminal(def), name) && !def.args.contains(name)
}

/// What a use of a macro comes to names nothing but what the macro names, other than its
/// parameters, and what the arguments name.
proof fn names_in_instances(defs: MacroTable, symbol: SymbolView, name: Seq<char>)
    requires
        symbol.kind is Macro,
        expansion(defs, symbol) matches Some(Ok(_)),
        named_in_item(expansion(defs, symbol)->0->Ok_0, name),
    ensures
        defs.contains_key(symbol.kind->Macro_0),
        is_free_in(defs[symbol.kind->Macro_0], name) || any_mentions(parts(symbol), name),
{
    let args = symbol.kind->Macro_1;
    let def = defs[symbol.kind->Macro_0];
    let bound = bind(def.args, args);
    let all = expansion(defs, symbol)->0->Ok_0->Nonterminal_0.alternatives;
    let (a, p) = choose|a: int, p: int|
        0 <= a < all.len() && 0 <= p < all[a].expr.len() && (
        #[trigger] all[a].expr[p]).kind.mentions(name);
    instances_have_origins(bound, symbol.span, def.alternatives, a);
    let o = choose|o: int|
        0 <= o < def.alternatives.len() && all[a] == instance(
            bound,
            symbol.span,
            #[trigger] def.alternatives[o],
        );
    let body = def.alternatives[o].expr[p];
    assert(all[a].expr[p] == body.substituted(bound));
    parameters_do_not_survive(body, bound, name);
    if body.kind.mentions(name) && !bound.contains_key(name) {
        only_parameters_are_bound(def.args, args, name);
        let item = ItemView::Nonterminal(def);
        assert(item->Nonterminal_0.alternatives[o].expr[p].kind.mentions(name));
    } else {
        let param = choose|param: Seq<char>|
            bound.contains_key(param) && (#[trigger] bound[param]).mentions(name);
        bound_to_arguments(def.args, args, param);
        let k = choose|k: int| 0 <= k < args.len() && bound[param] == (#[trigger] args[k]).kind;
        assert(parts(symbol)[k].kind.mentions(name));
    }
}

/// What is free in a macro of a grammar is written in the grammar.
proof fn free_names_are_written(items: Seq<ItemView>, macro_name: Seq<char>, name: Seq<char>)
    requires
        macro_table(items).contains_key(macro_name),
        is_free_in(macro_table(items)[macro_name], name),
    ensures
        is_written(items, name),
{
    macros_are_defined_by_items(items, macro_name);
    let k = choose|k: int|
        0 <= k < items.len() && defines_macro(#[trigger] items[k], macro_name) && macro_table(
            items,
        )[macro_name] == items[k]->Nonterminal_0;
    assert(items[k] == ItemView::Nonterminal(macro_table(items)[macro_name]));
    assert(named_in_item(items[k], name));
}

/// What a plain item names is written in the grammar.
proof fn plain_names_are_written(items: Seq<ItemView>, i: int, name: Seq<char>)
    requires
        0 <= i < plain_items(items).len(),
        named_in_item(plain_items(items)[i], name),
    ensures
        is_written(items, name),
{
    let plain = plain_items(items);
    plain_items_are_items(items, i);
    let k = choose|k: int| 0 <= k < items.len() && #[trigger] items[k] == plain[i];
    assert(named_in_item(items[k], name));
    assert(!defines_macro(plain[i], plain[i]->Nonterminal_0.name));
    assert(items[k]->Nonterminal_0.args.len() == 0);
}

/// What an item names before folding is written in the grammar or is the text of a source.
proof fn names_are_known(items: Seq<ItemView>, history: History, i: int, name: Seq<char>)
    requires
        explains(
            history,
            macro_table(items),
            plain_items(items),
            expansion_end(items)->Done_0.items,
        ),
        accounts_for_occurrences(history, plain_items(items).len()),
        0 <= i < history.raw.len(),
        named_in_item(history.raw[i], name),
    ensures
        is_written(items, name) || has_text(history.sources, name),
    decreases i, 1int,
{
    let plain = plain_items(items);
    let defs = macro_table(items);
    if i < plain.len() {
        assert(history.raw.take(plain.len() as int)[i] == plain[i]);
        plain_names_are_written(items, i, name);
    } else {
        let j = i - plain.len();
        let source = history.sources[j];
        assert(expansion(defs, source) == Some(Ok::<_, ErrorView>(history.raw[plain.len() + j])));
        if source.kind is Expr {
            let k = names_in_groups(defs, source, name);
            names_in_sources(items, history, j, k, name);
        } else if source.kind is Repeat {
            names_in_repetitions(defs, source, name);
            if name != source.text() {
                names_in_sources(items, history, j, 0, name);
            }
        } else if source.kind is Macro {
            names_in_instances(defs, source, name);
            if is_free_in(defs[source.kind->Macro_0], name) {
                free_names_are_written(items, source.kind->Macro_0, name);
            } else {
                let args = parts(source);
                let k = choose|k: int|
                    0 <= k < args.len() && (#[trigger] args[k]).kind.mentions(name);
                names_in_sources(items, history, j, k, name);
            }
        }
    }
}

/// Nothing dangles: a nonterminal that an expanded grammar names, be it below a mark or a name,
/// is one that the grammar has in it as it is written, or it is defined by exactly one added
/// item. If no plain item has that name, it is defined by exactly one item at all.
pub proof fn no_name_dangles(items: Seq<ItemView>, i: int, name: Seq<char>)
    requires
        expansion_ends(items),
        expansion_end(items) is Done,
        0 <= i < expansion_end(items)->Done_0.items.len(),
        named_in_item(expansion_end(items)->Done_0.items[i], name),
        !is_written(items, name),
    ensures
        defined_once(
            expansion_end(items)->Done_0.items,
            plain_items(items).len() as int,
            name,
        ),
        (forall|k: int|
            0 <= k < plain_items(items).len() ==> !is_called(
                #[trigger] plain_items(items)[k],
                name,
            )) ==> defined_once(expansion_end(items)->Done_0.items, 0, name),
{
    let history = expansion_covers_what_occurs(items);
    let end = expansion_end(items)->Done_0.items;
    let raw = history.raw[i];
    assert(end[i] == raw.folded());
    let all = end[i]->Nonterminal_0.alternatives;
    let (a, p) = choose|a: int, p: int|
        0 <= a < all.len() && 0 <= p < all[a].expr.len() && (
        #[trigger] all[a].expr[p]).kind.mentions(name);
    let symbol = raw->Nonterminal_0.alternatives[a].expr[p];
    assert(all[a].expr[p] == symbol.folded());
    folding_names_compounds(symbol, name);
    if symbol.kind.mentions(name) {
        assert(raw->Nonterminal_0.alternatives[a].expr[p].kind.mentions(name));
        assert(named_in_item(raw, name));
        names_are_known(items, history, i, name);
    } else {
        let inner = choose|inner: SymbolView| #[trigger]
            occurs(inner, symbol) && stands_for_a_rule(label(inner)) && inner.text() == name;
        assert(occurs_in_any(inner, raw->Nonterminal_0.alternatives[a].expr));
        assert(occurs_in_item(inner, raw));
    }
    assert(has_text(history.sources, name));
    sources_are_defined_once(items, history, name);
}

} // verus!
