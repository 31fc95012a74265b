//! The shape of a symbol as a tree: what stands at a node, and which symbols stand below it.
//!
//! What the laws say of folding, of substitution and of expanded grammars, they say in these
//! terms: the label of a node, its parts in order, and what occurs somewhere in a tree.
use vstd::prelude::*;

use crate::parse_tree::{ItemView, KindView, RepeatOp, SymbolView};
use crate::subst::any_mentions;

verus! {

/// The label of a node: a symbol without the symbols below it.
#[verifier::ext_equal]
pub enum Label {
    Group,
    Terminal(Seq<char>),
    Nonterminal(Seq<char>),
    Use(Seq<char>),
    Repetition(RepeatOp),
    Chosen,
    Named(Seq<char>),
}

/// What stands at the top of a symbol.
pub open spec fn label(symbol: SymbolView) -> Label {
    match symbol.kind {
        KindView::Expr(_) => Label::Group,
        KindView::Terminal(name) => Label::Terminal(name),
        KindView::Nonterminal(name) => Label::Nonterminal(name),
        KindView::Macro(name, _) => Label::Use(name),
        KindView::Repeat(op, _) => Label::Repetition(op),
        KindView::Choose(_) => Label::Chosen,
        KindView::Name(name, _) => Label::Named(name),
    }
}

/// The symbols right below the top of a symbol, in order.
pub open spec fn parts(symbol: SymbolView) -> Seq<SymbolView> {
    match symbol.kind {
        KindView::Expr(symbols) => symbols,
        KindView::Macro(_, args) => args,
        KindView::Repeat(_, inner) => seq![*inner],
        KindView::Choose(inner) => seq![*inner],
        KindView::Name(_, inner) => seq![*inner],
        KindView::Terminal(_) | KindView::Nonterminal(_) => Seq::empty(),
    }
}

/// Whether a label is that of a group, a use of a macro or a repetition.
pub open spec fn stands_for_a_rule(label: Label) -> bool {
    match label {
        Label::Group | Label::Use(_) | Label::Repetition(_) => true,
        Label::Terminal(_) | Label::Nonterminal(_) | Label::Chosen | Label::Named(_) => false,
    }
}

/// Whether a symbol is another one or stands somewhere below its top.
pub open spec fn occurs(inner: SymbolView, outer: SymbolView) -> bool
    decreases outer,
{
    inner == outer || match outer.kind {
        KindView::Terminal(_) | KindView::Nonterminal(_) => false,
        KindView::Expr(symbols) => occurs_in_any(inner, symbols),
        KindView::Macro(_, args) => occurs_in_any(inner, args),
        KindView::Repeat(_, symbol) => occurs(inner, *symbol),
        KindView::Choose(symbol) => occurs(inner, *symbol),
        KindView::Name(_, symbol) => occurs(inner, *symbol),
    }
}

/// Whether a symbol stands somewhere in a list of symbols.
pub open spec fn occurs_in_any(inner: SymbolView, symbols: Seq<SymbolView>) -> bool
    decreases symbols,
{
    exists|k: int| 0 <= k < symbols.len() && occurs(inner, #[trigger] symbols[k])
}

/// Whether a symbol stands somewhere in an alternative of an item.
pub open spec fn occurs_in_item(inner: SymbolView, item: ItemView) -> bool {
    item matches ItemView::Nonterminal(data) && exists|a: int|
        0 <= a < data.alternatives.len() && occurs_in_any(
            inner,
            (#[trigger] data.alternatives[a]).expr,
        )
}

/// Whether a nonterminal of some name stands somewhere in an alternative of an item.
pub open spec fn named_in_item(item: ItemView, name: Seq<char>) -> bool {
    item matches ItemView::Nonterminal(data) && exists|a: int, p: int|
        0 <= a < data.alternatives.len() && 0 <= p < data.alternatives[a].expr.len() && (
        #[trigger] data.alternatives[a].expr[p]).kind.mentions(name)
}

/// A symbol is its position, its label and its parts.
pub proof fn shape_determines_symbol(first: SymbolView, second: SymbolView)
    requires
        first.span == second.span,
        label(first) == label(second),
        parts(first) == parts(second),
    ensures
        first == second,
{
    match first.kind {
        KindView::Repeat(_, _) | KindView::Choose(_) | KindView::Name(_, _) => {
            assert(parts(first)[0] == parts(second)[0]);
        },
        _ => {},
    }
}

/// A symbol occurs in another exactly if it is that symbol or occurs in one of its parts.
pub proof fn occurrences_are_in_parts(inner: SymbolView, outer: SymbolView)
    ensures
        occurs(inner, outer) <==> inner == outer || occurs_in_any(inner, parts(outer)),
{
    match outer.kind {
        KindView::Repeat(_, _) | KindView::Choose(_) | KindView::Name(_, _) => {
            if occurs(inner, parts(outer)[0]) {
                assert(occurs_in_any(inner, parts(outer)));
            }
        },
        _ => {},
    }
}

/// What occurs in something that occurs in a symbol occurs in that symbol.
pub proof fn occurrence_is_transitive(inner: SymbolView, middle: SymbolView, outer: SymbolView)
    requires
        occurs(inner, middle),
        occurs(middle, outer),
    ensures
        occurs(inner, outer),
    decreases outer,
{
    if middle != outer {
        match outer.kind {
            KindView::Expr(symbols) => {
                assert(occurs_in_any(middle, symbols));
                let k = choose|k: int|
                    0 <= k < symbols.len() && occurs(middle, #[trigger] symbols[k]);
                occurrence_is_transitive(inner, middle, symbols[k]);
                assert(occurs_in_any(inner, symbols));
            },
            KindView::Macro(_, args) => {
                assert(occurs_in_any(middle, args));
                let k = choose|k: int| 0 <= k < args.len() && occurs(middle, #[trigger] args[k]);
                occurrence_is_transitive(inner, middle, args[k]);
                assert(occurs_in_any(inner, args));
            },
            KindView::Repeat(_, symbol) => occurrence_is_transitive(inner, middle, *symbol),
            KindView::Choose(symbol) => occurrence_is_transitive(inner, middle, *symbol),
            KindView::Name(_, symbol) => occurrence_is_transitive(inner, middle, *symbol),
            _ => {},
        }
    }
}

/// A name is mentioned in a symbol exactly if a nonterminal of that name occurs in it.
pub proof fn mentions_are_occurrences(symbol: SymbolView, name: Seq<char>)
    ensures
        symbol.kind.mentions(name) <==> exists|inner: SymbolView| #[trigger]
            occurs(inner, symbol) && label(inner) == Label::Nonterminal(name),
    decreases symbol, 1int,
{
    let found = exists|inner: SymbolView| #[trigger]
        occurs(inner, symbol) && label(inner) == Label::Nonterminal(name);
    match symbol.kind {
        KindView::Terminal(_) => {},
        KindView::Nonterminal(_) => {
            assert(occurs(symbol, symbol));
        },
        KindView::Repeat(_, part) => mention_in_part(symbol, *part, name),
        KindView::Choose(part) => mention_in_part(symbol, *part, name),
        KindView::Name(_, part) => mention_in_part(symbol, *part, name),
        KindView::Expr(symbols) => {
            mentions_are_occurrences_in_lists(symbols, name);
            if found {
                let inner = choose|inner: SymbolView| #[trigger]
                    occurs(inner, symbol) && label(inner) == Label::Nonterminal(name);
                assert(occurs_in_any(inner, symbols));
            }
            if symbol.kind.mentions(name) {
                assert(any_mentions(symbols, name));
                let inner = choose|inner: SymbolView| #[trigger]
                    occurs_in_any(inner, symbols) && label(inner) == Label::Nonterminal(name);
                assert(occurs(inner, symbol));
            }
        },
        KindView::Macro(_, symbols) => {
            mentions_are_occurrences_in_lists(symbols, name);
            if found {
                let inner = choose|inner: SymbolView| #[trigger]
                    occurs(inner, symbol) && label(inner) == Label::Nonterminal(name);
                assert(occurs_in_any(inner, symbols));
            }
            if symbol.kind.mentions(name) {
                assert(any_mentions(symbols, name));
                let inner = choose|inner: SymbolView| #[trigger]
                    occurs_in_any(inner, symbols) && label(inner) == Label::Nonterminal(name);
                assert(occurs(inner, symbol));
            }
        },
    }
}

/// A name is mentioned below a top with one part exactly if it is mentioned in that part.
proof fn mention_in_part(symbol: SymbolView, part: SymbolView, name: Seq<char>)
    requires
        (symbol.kind is Repeat && *symbol.kind->Repeat_1 == part) || (symbol.kind is Choose
            && *symbol.kind->Choose_0 == part) || (symbol.kind is Name && *symbol.kind->Name_1
            == part),
    ensures
        symbol.kind.mentions(name) <==> exists|inner: SymbolView| #[trigger]
            occurs(inner, symbol) && label(inner) == Label::Nonterminal(name),
    decreases symbol, 0int,
{
    mentions_are_occurrences(part, name);
    if symbol.kind.mentions(name) {
        let inner = choose|inner: SymbolView| #[trigger]
            occurs(inner, part) && label(inner) == Label::Nonterminal(name);
        assert(occurs(inner, symbol));
    }
    if exists|inner: SymbolView| #[trigger]
        occurs(inner, symbol) && label(inner) == Label::Nonterminal(name) {
        let inner = choose|inner: SymbolView| #[trigger]
            occurs(inner, symbol) && label(inner) == Label::Nonterminal(name);
        assert(occurs(inner, part));
    }
}

/// A name is mentioned in a list exactly if a nonterminal of that name occurs in it.
pub proof fn mentions_are_occurrences_in_lists(symbols: Seq<SymbolView>, name: Seq<char>)
    ensures
        any_mentions(symbols, name) <==> exists|inner: SymbolView| #[trigger]
            occurs_in_any(inner, symbols) && label(inner) == Label::Nonterminal(name),
    decreases symbols, 0int,
{
    assert forall|k: int| 0 <= k < symbols.len() implies (
    #[trigger] symbols[k]).kind.mentions(name) <==> exists|inner: SymbolView| #[trigger]
        occurs(inner, symbols[k]) && label(inner) == Label::Nonterminal(name) by {
        mentions_are_occurrences(symbols[k], name);
    }
    if any_mentions(symbols, name) {
        let k = choose|k: int|
            0 <= k < symbols.len() && (#[trigger] symbols[k]).kind.mentions(name);
        let inner = choose|inner: SymbolView| #[trigger]
            occurs(inner, symbols[k]) && label(inner) == Label::Nonterminal(name);
        assert(occurs_in_any(inner, symbols));
    }
    if exists|inner: SymbolView| #[trigger]
        occurs_in_any(inner, symbols) && label(inner) == Label::Nonterminal(name) {
        let inner = choose|inner: SymbolView| #[trigger]
            occurs_in_any(inner, symbols) && label(inner) == Label::Nonterminal(name);
        let k = choose|k: int| 0 <= k < symbols.len() && occurs(inner, #[trigger] symbols[k]);
        assert(symbols[k].kind.mentions(name));
    }
}

} // verus!
