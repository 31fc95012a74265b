//! Folding: what happens to the symbols of an item before its uses are expanded.
//!
//! A group `(X Y)`, a macro use `M<X>` or a repetition `X*` is a *compound* symbol. Folding
//! puts in its place a nonterminal named by its canonical form, and puts the symbol itself,
//! its own parts folded, on the list of what has to be expanded. A queue takes each canonical
//! form once.
use vstd::prelude::*;

use crate::canonical::listing;
use crate::parse_tree::{AlternativeView, ItemView, KindView, NonterminalView, SymbolView};

verus! {

impl KindView {
    /// Whether a symbol of this kind is expanded into a nonterminal of its own.
    pub open spec fn is_compound(self) -> bool {
        self is Expr || self is Macro || self is Repeat
    }

    /// Whether no compound symbol is left in a symbol of this kind.
    pub open spec fn is_flat(self) -> bool
        decreases self,
    {
        match self {
            KindView::Terminal(_) | KindView::Nonterminal(_) => true,
            KindView::Choose(symbol) => symbol.kind.is_flat(),
            KindView::Name(_, symbol) => symbol.kind.is_flat(),
            KindView::Expr(_) | KindView::Macro(_, _) | KindView::Repeat(_, _) => false,
        }
    }
}

impl SymbolView {
    /// This symbol with a nonterminal in place of each outermost compound symbol.
    pub open spec fn folded(self) -> SymbolView
        decreases self,
    {
        SymbolView {
            span: self.span,
            kind: match self.kind {
                KindView::Terminal(_) | KindView::Nonterminal(_) => self.kind,
                KindView::Choose(symbol) => KindView::Choose(Box::new(symbol.folded())),
                KindView::Name(name, symbol) => KindView::Name(name, Box::new(symbol.folded())),
                KindView::Expr(_) | KindView::Macro(_, _) | KindView::Repeat(_, _) =>
                    KindView::Nonterminal(self.text()),
            },
        }
    }

    /// This symbol with its direct parts folded, itself left as it is.
    pub open spec fn parts_folded(self) -> SymbolView {
        SymbolView {
            span: self.span,
            kind: match self.kind {
                KindView::Expr(symbols) => KindView::Expr(all_folded(symbols)),
                KindView::Macro(name, args) => KindView::Macro(name, all_folded(args)),
                KindView::Repeat(op, symbol) => KindView::Repeat(op, Box::new(symbol.folded())),
                _ => self.kind,
            },
        }
    }

    /// The compound symbols in this symbol, inner ones before the one that they are in, each
    /// with its parts folded.
    pub open spec fn uses(self) -> Seq<SymbolView>
        decreases self,
    {
        match self.kind {
            KindView::Terminal(_) | KindView::Nonterminal(_) => Seq::empty(),
            KindView::Choose(symbol) => symbol.uses(),
            KindView::Name(_, symbol) => symbol.uses(),
            KindView::Expr(symbols) => all_uses(symbols).push(self.parts_folded()),
            KindView::Macro(_, args) => all_uses(args).push(self.parts_folded()),
            KindView::Repeat(_, symbol) => symbol.uses().push(self.parts_folded()),
        }
    }

    /// Whether no compound symbol is left in this symbol.
    pub open spec fn is_flat(self) -> bool {
        self.kind.is_flat()
    }
}

/// The symbols of a list, each folded.
pub open spec fn all_folded(symbols: Seq<SymbolView>) -> Seq<SymbolView> {
    symbols.map_values(|symbol: SymbolView| symbol.folded())
}

/// The compound symbols in the symbols of a list, in order.
pub open spec fn all_uses(symbols: Seq<SymbolView>) -> Seq<SymbolView>
    decreases symbols,
{
    if symbols.len() == 0 {
        Seq::empty()
    } else {
        all_uses(symbols.drop_last()) + symbols[symbols.len() - 1].uses()
    }
}

impl AlternativeView {
    /// This alternative with its symbols folded.
    pub open spec fn folded(self) -> AlternativeView {
        AlternativeView { expr: all_folded(self.expr), ..self }
    }
}

/// The compound symbols in the alternatives of a list, in order.
pub open spec fn alternatives_uses(alternatives: Seq<AlternativeView>) -> Seq<SymbolView>
    decreases alternatives.len(),
{
    if alternatives.len() == 0 {
        Seq::empty()
    } else {
        alternatives_uses(alternatives.drop_last()) + all_uses(alternatives.last().expr)
    }
}

impl NonterminalView {
    /// This nonterminal with the symbols of its alternatives folded.
    pub open spec fn folded(self) -> NonterminalView {
        NonterminalView {
            alternatives: self.alternatives.map_values(|a: AlternativeView| a.folded()),
            ..self
        }
    }

    /// Whether no compound symbol is left in the alternatives of this nonterminal.
    pub open spec fn is_flat(self) -> bool {
        forall|i: int, j: int|
            0 <= i < self.alternatives.len() && 0 <= j < self.alternatives[i].expr.len()
                ==> (#[trigger] self.alternatives[i].expr[j]).is_flat()
    }
}

impl ItemView {
    /// This item with its symbols folded.
    pub open spec fn folded(self) -> ItemView {
        match self {
            ItemView::Nonterminal(data) => ItemView::Nonterminal(data.folded()),
            _ => self,
        }
    }

    /// The compound symbols in this item, in order.
    pub open spec fn uses(self) -> Seq<SymbolView> {
        match self {
            ItemView::Nonterminal(data) => alternatives_uses(data.alternatives),
            _ => Seq::empty(),
        }
    }

    /// Whether no compound symbol is left in this item.
    pub open spec fn is_flat(self) -> bool {
        self matches ItemView::Nonterminal(data) ==> data.is_flat()
    }
}

/// The items of a list, each folded.
pub open spec fn items_folded(items: Seq<ItemView>) -> Seq<ItemView> {
    items.map_values(|item: ItemView| item.folded())
}

/// The compound symbols in the items of a list, in order.
pub open spec fn items_uses(items: Seq<ItemView>) -> Seq<SymbolView>
    decreases items.len(),
{
    if items.len() == 0 {
        Seq::empty()
    } else {
        items_uses(items.drop_last()) + items.last().uses()
    }
}

/// The symbols that wait for expansion, and the canonical forms of all that ever did.
#[verifier::ext_equal]
pub struct Queue {
    pub seen: Set<Seq<char>>,
    pub stack: Seq<SymbolView>,
}

impl Queue {
    /// The queue after a symbol was offered: it takes a canonical form once.
    pub open spec fn offer(self, symbol: SymbolView) -> Queue {
        if self.seen.contains(symbol.text()) {
            self
        } else {
            Queue { seen: self.seen.insert(symbol.text()), stack: self.stack.push(symbol) }
        }
    }

    /// The queue after the symbols of a list were offered, in order.
    pub open spec fn offer_all(self, symbols: Seq<SymbolView>) -> Queue
        decreases symbols.len(),
    {
        if symbols.len() == 0 {
            self
        } else {
            self.offer_all(symbols.drop_last()).offer(symbols.last())
        }
    }
}

/// Offering two lists one after the other is offering them as one.
pub proof fn offer_all_in_parts(queue: Queue, first: Seq<SymbolView>, second: Seq<SymbolView>)
    ensures
        queue.offer_all(first + second) == queue.offer_all(first).offer_all(second),
    decreases second.len(),
{
    if second.len() == 0 {
        assert(first + second =~= first);
    } else {
        offer_all_in_parts(queue, first, second.drop_last());
        assert((first + second).drop_last() =~= first + second.drop_last());
    }
}

/// Folding a symbol leaves its canonical form as it was.
pub proof fn folding_keeps_text(symbol: SymbolView)
    ensures
        symbol.folded().text() == symbol.text(),
    decreases symbol,
{
    match symbol.kind {
        KindView::Choose(inner) => folding_keeps_text(*inner),
        KindView::Name(_, inner) => folding_keeps_text(*inner),
        _ => {},
    }
}

/// Folding the symbols of a list leaves the text of the list as it was.
pub proof fn folding_keeps_listing(symbols: Seq<SymbolView>, separator: Seq<char>)
    ensures
        listing(all_folded(symbols), separator) == listing(symbols, separator),
    decreases symbols.len(),
{
    if symbols.len() > 0 {
        let last = symbols[symbols.len() - 1];
        folding_keeps_text(last);
        folding_keeps_listing(symbols.drop_last(), separator);
        assert(all_folded(symbols).drop_last() =~= all_folded(symbols.drop_last()));
    }
}

/// Folding the parts of a symbol leaves its canonical form as it was: a symbol that was
/// queued is known by the text that it had in the grammar.
pub proof fn folding_parts_keeps_text(symbol: SymbolView)
    ensures
        symbol.parts_folded().text() == symbol.text(),
{
    match symbol.kind {
        KindView::Expr(symbols) => folding_keeps_listing(symbols, " "@),
        KindView::Macro(_, args) => folding_keeps_listing(args, ", "@),
        KindView::Repeat(_, inner) => folding_keeps_text(*inner),
        _ => {},
    }
}

} // verus!
