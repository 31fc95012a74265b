//! Which symbols of a group make up the value that it yields.
use vstd::prelude::*;

use crate::parse_tree::{ExprSymbol, KindView, Symbol, SymbolKind, SymbolView};

verus! {

/// The symbols of a group that yield its value, each with its place in the group.
pub enum Symbols<'a> {
    /// There are symbols with names: those, and their names.
    Named(Vec<(usize, &'a String, &'a Symbol)>),
    /// There are none: the chosen symbols, or all of them where none is chosen.
    Anon(Vec<(usize, &'a Symbol)>),
}

/// The model of [`Symbols`].
pub enum SymbolsView {
    Named(Seq<(int, Seq<char>, SymbolView)>),
    Anon(Seq<(int, SymbolView)>),
}

impl<'a> Symbols<'a> {
    pub open spec fn view(&self) -> SymbolsView {
        match *self {
            Symbols::Named(named) => SymbolsView::Named(named_view(named@)),
            Symbols::Anon(symbols) => SymbolsView::Anon(anon_view(symbols@)),
        }
    }
}

/// The models of named symbols, in order.
pub open spec fn named_view(named: Seq<(usize, &String, &Symbol)>) -> Seq<
    (int, Seq<char>, SymbolView),
> {
    named.map_values(|n: (usize, &String, &Symbol)| (n.0 as int, n.1@, n.2@))
}

/// The models of symbols without names, in order.
pub open spec fn anon_view(symbols: Seq<(usize, &Symbol)>) -> Seq<(int, SymbolView)> {
    symbols.map_values(|s: (usize, &Symbol)| (s.0 as int, s.1@))
}

/// The named symbols of a group, in order: the place, the name and the symbol that it names.
pub open spec fn named(symbols: Seq<SymbolView>) -> Seq<(int, Seq<char>, SymbolView)>
    decreases symbols.len(),
{
    if symbols.len() == 0 {
        Seq::empty()
    } else {
        let before = named(symbols.drop_last());
        match symbols.last().kind {
            KindView::Name(name, symbol) => before.push((symbols.len() - 1, name, *symbol)),
            _ => before,
        }
    }
}

/// The chosen symbols of a group, in order: the place, and the symbol without its mark.
pub open spec fn chosen(symbols: Seq<SymbolView>) -> Seq<(int, SymbolView)>
    decreases symbols.len(),
{
    if symbols.len() == 0 {
        Seq::empty()
    } else {
        let before = chosen(symbols.drop_last());
        match symbols.last().kind {
            KindView::Choose(symbol) => before.push((symbols.len() - 1, *symbol)),
            _ => before,
        }
    }
}

/// The symbols of a group that yield its value.
pub open spec fn analysis(symbols: Seq<SymbolView>) -> SymbolsView {
    if named(symbols).len() > 0 {
        SymbolsView::Named(named(symbols))
    } else if chosen(symbols).len() > 0 {
        SymbolsView::Anon(chosen(symbols))
    } else {
        SymbolsView::Anon(Seq::new(symbols.len(), |i: int| (i, symbols[i])))
    }
}

/// There are named symbols in a group exactly if one of its own symbols has a name.
pub proof fn names_are_found(symbols: Seq<SymbolView>)
    ensures
        named(symbols).len() > 0 <==> exists|i: int|
            0 <= i < symbols.len() && (#[trigger] symbols[i]).kind is Name,
    decreases symbols.len(),
{
    if symbols.len() > 0 {
        let before = symbols.drop_last();
        names_are_found(before);
        if named(before).len() > 0 {
            let i = choose|i: int| 0 <= i < before.len() && (#[trigger] before[i]).kind is Name;
            assert(symbols[i].kind is Name);
        }
        if symbols.last().kind is Name {
            assert(symbols[symbols.len() - 1].kind is Name);
        }
        if exists|i: int| 0 <= i < symbols.len() && (#[trigger] symbols[i]).kind is Name {
            let i = choose|i: int| 0 <= i < symbols.len() && (#[trigger] symbols[i]).kind is Name;
            if i < before.len() {
                assert(before[i].kind is Name);
            }
        }
    }
}

/// Finds the symbols of a group that yield its value: those with names if there are any,
/// else the chosen ones if there are any, else all of them.
pub fn analyze_expr<'a>(expr: &'a ExprSymbol) -> (symbols: Symbols<'a>)
    ensures
        symbols@ == analysis(expr@),
{
    let ghost all = expr@;
    let mut named_symbols: Vec<(usize, &'a String, &'a Symbol)> = Vec::new();
    let mut chosen_symbols: Vec<(usize, &'a Symbol)> = Vec::new();
    let mut every_symbol: Vec<(usize, &'a Symbol)> = Vec::new();
    for i in 0..expr.symbols.len()
        invariant
            all == expr@,
            named_view(named_symbols@) == named(all.take(i as int)),
            anon_view(chosen_symbols@) == chosen(all.take(i as int)),
            every_symbol.len() == i,
            forall|j: int|
                0 <= j < i ==> (#[trigger] every_symbol[j]).0 == j && every_symbol[j].1@ == all[j],
    {
        let symbol = &expr.symbols[i];
        match &symbol.kind {
            SymbolKind::Name(name, inner) => {
                named_symbols.push((i, name, &**inner));
            },
            SymbolKind::Choose(inner) => {
                chosen_symbols.push((i, &**inner));
            },
            _ => {},
        }
        every_symbol.push((i, symbol));
        proof {
            let next = all.take(i + 1);
            assert(next.drop_last() =~= all.take(i as int));
            assert(next.last() == symbol@);
            assert(named_view(named_symbols@) =~= named(next));
            assert(anon_view(chosen_symbols@) =~= chosen(next));
        }
    }
    assert(all.take(expr.symbols@.len() as int) =~= all);
    assert(anon_view(every_symbol@) =~= Seq::new(all.len(), |j: int| (j, all[j])));
    if named_symbols.len() > 0 {
        Symbols::Named(named_symbols)
    } else if chosen_symbols.len() > 0 {
        Symbols::Anon(chosen_symbols)
    } else {
        Symbols::Anon(every_symbol)
    }
}

} // verus!
