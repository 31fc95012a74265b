//! What the models of the parse tree keep: everything.
use vstd::prelude::*;

use crate::error::NormError;
use crate::parse_tree::{
    items_view, symbols_view, types_view, Alternative, GrammarItem, ItemView, NonterminalData,
    Symbol, SymbolKind, TypeRef, TypeView,
};
use crate::shape::{label, parts, Label};

verus! {

/// The model of a symbol keeps its position, its name or sign, and each of its parts in order.
pub proof fn models_of_symbols_keep_everything(symbol: Symbol)
    ensures
        symbol@.span == symbol.span,
        match symbol.kind {
            SymbolKind::Expr(expr) => label(symbol@) == Label::Group && parts(symbol@)
                == symbols_view(expr.symbols@),
            SymbolKind::Terminal(name) => label(symbol@) == Label::Terminal(name.0@),
            SymbolKind::Nonterminal(name) => label(symbol@) == Label::Nonterminal(name.0@),
            SymbolKind::Macro(m) => label(symbol@) == Label::Use(m.name.0@) && parts(symbol@)
                == symbols_view(m.args@),
            SymbolKind::Repeat(r) => label(symbol@) == Label::Repetition(r.op) && parts(symbol@)
                == seq![r.symbol@],
            SymbolKind::Choose(inner) => label(symbol@) == Label::Chosen && parts(symbol@) == seq![
                inner@,
            ],
            SymbolKind::Name(name, inner) => label(symbol@) == Label::Named(name@) && parts(
                symbol@,
            ) == seq![inner@],
        },
{
}

/// The model of a list of symbols keeps their number and each of them in its place.
pub proof fn models_of_lists_keep_everything(symbols: Seq<Symbol>)
    ensures
        symbols_view(symbols).len() == symbols.len(),
        forall|k: int|
            0 <= k < symbols.len() ==> #[trigger] symbols_view(symbols)[k] == symbols[k]@,
{
}

/// The model of a type keeps its path, its names and each of its components in order.
pub proof fn models_of_types_keep_everything(ty: TypeRef)
    ensures
        match ty {
            TypeRef::Tuple(types) => ty@ matches TypeView::Tuple(model) && model.len()
                == types.len() && forall|k: int|
                0 <= k < types.len() ==> #[trigger] model[k] == types[k]@,
            TypeRef::Nominal { path, types } => ty@ matches TypeView::Nominal {
                path: texts,
                types: model,
            } && texts.len() == path.len() && model.len() == types.len() && (forall|k: int|
                0 <= k < path.len() ==> #[trigger] texts[k] == path[k]@) && (forall|k: int|
                0 <= k < types.len() ==> #[trigger] model[k] == types[k]@),
            TypeRef::Lifetime(name) => ty@ == TypeView::Lifetime(name@),
            TypeRef::OfSymbol(kind) => ty@ == TypeView::OfSymbol(kind@),
            TypeRef::Id(name) => ty@ == TypeView::Id(name@),
        },
{
    if let TypeRef::Tuple(types) = ty {
        assert(types_view(types@).len() == types.len());
    }
    if let TypeRef::Nominal { path, types } = ty {
        assert(types_view(types@).len() == types.len());
    }
}

/// The model of an alternative keeps its position, each of its symbols in order, its condition
/// and its action.
pub proof fn models_of_alternatives_keep_everything(alternative: Alternative)
    ensures
        alternative@.span == alternative.span,
        alternative@.expr == symbols_view(alternative.expr.symbols@),
        match alternative.condition {
            Some(condition) => alternative@.condition matches Some(model) && model.span
                == condition.span && model.lhs == condition.lhs.0@ && model.rhs == condition.rhs@
                && model.op == condition.op,
            None => alternative@.condition is None,
        },
        match alternative.action {
            Some(code) => alternative@.action == Some(code@),
            None => alternative@.action is None,
        },
{
}

/// The model of a nonterminal keeps all of its fields, and each parameter and alternative in
/// order.
pub proof fn models_of_nonterminals_keep_everything(data: NonterminalData)
    ensures
        data@.public == data.public,
        data@.span == data.span,
        data@.name == data.name.0@,
        data@.args.len() == data.args.len(),
        forall|k: int| 0 <= k < data.args.len() ==> #[trigger] data@.args[k] == data.args[k].0@,
        match data.type_decl {
            Some(ty) => data@.type_decl == Some(ty@),
            None => data@.type_decl is None,
        },
        data@.alternatives.len() == data.alternatives.len(),
        forall|k: int|
            0 <= k < data.alternatives.len() ==> #[trigger] data@.alternatives[k]
                == data.alternatives[k]@,
{
}

/// The model of a list of items keeps their number and each of them in its place, and what is
/// not a nonterminal is kept as it is.
pub proof fn models_of_items_keep_everything(items: Seq<GrammarItem>)
    ensures
        items_view(items).len() == items.len(),
        forall|k: int|
            0 <= k < items.len() ==> (#[trigger] items_view(items)[k] == match items[k] {
                GrammarItem::TokenType(data) => ItemView::TokenType(data),
                GrammarItem::Nonterminal(data) => ItemView::Nonterminal(data@),
                GrammarItem::Use(code) => ItemView::Use(code@),
            }),
{
}

/// The model of an error keeps its message and its position.
pub proof fn models_of_errors_keep_everything(error: NormError)
    ensures
        error@.message == error.message@,
        error@.span == error.span,
{
}

} // verus!
