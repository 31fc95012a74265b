//! The canonical form of a symbol: the text that it is written as.
//!
//! Positions play no part in it. Two uses of a macro with the same arguments have the same
//! canonical form, which is what lets them share one expansion.
use vstd::prelude::*;
use vstd::string::StringExecFns;

use crate::parse_tree::{
    symbols_view, ExprSymbol, KindView, MacroSymbol, RepeatOp, RepeatSymbol, Span, Symbol,
    SymbolKind, SymbolView,
};

verus! {

impl SymbolView {
    /// The canonical form of this symbol.
    pub open spec fn text(self) -> Seq<char>
        decreases self,
    {
        self.kind.text()
    }
}

impl KindView {
    /// The canonical form of a symbol of this kind.
    pub open spec fn text(self) -> Seq<char>
        decreases self,
    {
        match self {
            KindView::Expr(symbols) => "("@ + listing(symbols, " "@) + ")"@,
            KindView::Terminal(name) => "\""@ + name + "\""@,
            KindView::Nonterminal(name) => name,
            KindView::Macro(name, args) => name + "<"@ + listing(args, ", "@) + ">"@,
            KindView::Repeat(op, symbol) => symbol.text() + repeat_sign(op),
            KindView::Choose(symbol) => "~"@ + symbol.text(),
            KindView::Name(name, symbol) => "~"@ + name + ":"@ + symbol.text(),
        }
    }
}

/// The canonical forms of the symbols of a list, with a separator between each two.
pub open spec fn listing(symbols: Seq<SymbolView>, separator: Seq<char>) -> Seq<char>
    decreases symbols,
{
    if symbols.len() == 0 {
        Seq::empty()
    } else if symbols.len() == 1 {
        symbols[0].text()
    } else {
        listing(symbols.drop_last(), separator) + separator + symbols[symbols.len() - 1].text()
    }
}

impl SymbolView {
    /// This symbol with another position for each symbol in it.
    pub open spec fn moved(self, positions: spec_fn(SymbolView) -> Span) -> SymbolView
        decreases self,
    {
        SymbolView {
            span: positions(self),
            kind: match self.kind {
                KindView::Terminal(_) | KindView::Nonterminal(_) => self.kind,
                KindView::Expr(symbols) => KindView::Expr(all_moved(symbols, positions)),
                KindView::Macro(name, args) => KindView::Macro(name, all_moved(args, positions)),
                KindView::Repeat(op, symbol) => KindView::Repeat(
                    op,
                    Box::new(symbol.moved(positions)),
                ),
                KindView::Choose(symbol) => KindView::Choose(Box::new(symbol.moved(positions))),
                KindView::Name(name, symbol) => KindView::Name(
                    name,
                    Box::new(symbol.moved(positions)),
                ),
            },
        }
    }
}

/// The symbols of a list, with another position for each symbol in them.
pub open spec fn all_moved(
    symbols: Seq<SymbolView>,
    positions: spec_fn(SymbolView) -> Span,
) -> Seq<SymbolView>
    decreases symbols,
{
    Seq::new(
        symbols.len(),
        |i: int|
            if 0 <= i < symbols.len() {
                symbols[i].moved(positions)
            } else {
                arbitrary()
            },
    )
}

/// The canonical form of a symbol does not depend on positions.
pub proof fn text_ignores_positions(symbol: SymbolView, positions: spec_fn(SymbolView) -> Span)
    ensures
        symbol.moved(positions).text() == symbol.text(),
    decreases symbol,
{
    match symbol.kind {
        KindView::Terminal(_) | KindView::Nonterminal(_) => {},
        KindView::Expr(symbols) => listing_ignores_positions(symbols, " "@, positions),
        KindView::Macro(_, args) => listing_ignores_positions(args, ", "@, positions),
        KindView::Repeat(_, inner) => text_ignores_positions(*inner, positions),
        KindView::Choose(inner) => text_ignores_positions(*inner, positions),
        KindView::Name(_, inner) => text_ignores_positions(*inner, positions),
    }
}

/// The text of a list of symbols does not depend on positions.
pub proof fn listing_ignores_positions(
    symbols: Seq<SymbolView>,
    separator: Seq<char>,
    positions: spec_fn(SymbolView) -> Span,
)
    ensures
        listing(all_moved(symbols, positions), separator) == listing(symbols, separator),
    decreases symbols,
{
    if symbols.len() > 0 {
        let moved = all_moved(symbols, positions);
        let last = symbols[symbols.len() - 1];
        text_ignores_positions(last, positions);
        listing_ignores_positions(symbols.drop_last(), separator, positions);
        assert(moved[moved.len() - 1] == last.moved(positions));
        assert(moved.drop_last() =~= all_moved(symbols.drop_last(), positions));
    }
}

/// The sign of a repetition.
pub open spec fn repeat_sign(op: RepeatOp) -> Seq<char> {
    match op {
        RepeatOp::Star => "*"@,
        RepeatOp::Plus => "+"@,
        RepeatOp::Question => "?"@,
    }
}

impl RepeatOp {
    /// The sign of this repetition.
    pub fn sign(self) -> (sign: &'static str)
        ensures
            sign@ == repeat_sign(self),
    {
        match self {
            RepeatOp::Star => "*",
            RepeatOp::Plus => "+",
            RepeatOp::Question => "?",
        }
    }
}

/// Appends the canonical form of a kind of symbol.
fn write_kind(kind: &SymbolKind, out: &mut String)
    ensures
        final(out)@ == old(out)@ + kind@.text(),
    decreases kind,
{
    let ghost start = out@;
    match kind {
        SymbolKind::Expr(expr) => {
            out.append("(");
            write_listing(&expr.symbols, " ", out);
            out.append(")");
        },
        SymbolKind::Terminal(name) => {
            out.append("\"");
            out.append(name.0.as_str());
            out.append("\"");
        },
        SymbolKind::Nonterminal(name) => {
            out.append(name.0.as_str());
        },
        SymbolKind::Macro(m) => {
            out.append(m.name.0.as_str());
            out.append("<");
            write_listing(&m.args, ", ", out);
            out.append(">");
        },
        SymbolKind::Repeat(r) => {
            write_kind(&r.symbol.kind, out);
            out.append(r.op.sign());
        },
        SymbolKind::Choose(symbol) => {
            out.append("~");
            write_kind(&symbol.kind, out);
        },
        SymbolKind::Name(name, symbol) => {
            out.append("~");
            out.append(name.as_str());
            out.append(":");
            write_kind(&symbol.kind, out);
        },
    }
    assert(out@ =~= start + kind@.text());
}

/// Appends the canonical forms of the symbols of a list, with a separator between each two.
fn write_listing(symbols: &Vec<Symbol>, separator: &str, out: &mut String)
    ensures
        final(out)@ == old(out)@ + listing(symbols_view(symbols@), separator@),
    decreases symbols,
{
    let ghost start = out@;
    let ghost all = symbols_view(symbols@);
    assert(start =~= start + listing(all.take(0), separator@));
    for i in 0..symbols.len()
        invariant
            all == symbols_view(symbols@),
            out@ == start + listing(all.take(i as int), separator@),
    {
        if i != 0 {
            out.append(separator);
        }
        write_kind(&symbols[i].kind, out);
        proof {
            let next = all.take(i + 1);
            assert(next.drop_last() =~= all.take(i as int));
            assert(next[i as int].text() == symbols[i as int].kind@.text());
            assert(out@ =~= start + listing(next, separator@));
        }
    }
    assert(all.take(symbols@.len() as int) =~= all);
}

impl SymbolKind {
    /// The canonical form of a symbol of this kind.
    pub fn canonical_form(&self) -> (text: String)
        ensures
            text@ == self@.text(),
    {
        let mut text = String::new();
        write_kind(self, &mut text);
        assert(text@ =~= self@.text());
        text
    }
}

impl Symbol {
    /// The canonical form of this symbol.
    pub fn canonical_form(&self) -> (text: String)
        ensures
            text@ == self@.text(),
    {
        self.kind.canonical_form()
    }
}

impl ExprSymbol {
    /// The canonical form of this group of symbols.
    pub fn canonical_form(&self) -> (text: String)
        ensures
            text@ == KindView::Expr(self@).text(),
    {
        let mut text = String::new();
        text.append("(");
        write_listing(&self.symbols, " ", &mut text);
        text.append(")");
        assert(text@ =~= KindView::Expr(self@).text());
        text
    }
}

impl MacroSymbol {
    /// The canonical form of this use of a macro.
    pub fn canonical_form(&self) -> (text: String)
        ensures
            text@ == self@.text(),
    {
        let mut text = String::new();
        text.append(self.name.0.as_str());
        text.append("<");
        write_listing(&self.args, ", ", &mut text);
        text.append(">");
        assert(text@ =~= self@.text());
        text
    }
}

impl RepeatSymbol {
    /// The canonical form of this repetition.
    pub fn canonical_form(&self) -> (text: String)
        ensures
            text@ == self@.text(),
    {
        let mut text = self.symbol.canonical_form();
        text.append(self.op.sign());
        text
    }
}

} // verus!
