//! Substitution: what a macro's body becomes once its parameters are bound to arguments.
use vstd::prelude::*;

use crate::parse_tree::{KindView, SymbolKind, SymbolView, TypeView};

verus! {

/// What the parameters of a macro are bound to, by name.
pub type Bindings = Map<Seq<char>, KindView>;

/// The model of bindings.
pub open spec fn bindings_view(args: Map<Seq<char>, SymbolKind>) -> Bindings {
    args.map_values(|kind: SymbolKind| kind.view())
}

/// Each parameter bound to the argument in its place; of parameters with the same name the
/// last one counts.
pub open spec fn bind(params: Seq<Seq<char>>, args: Seq<SymbolView>) -> Bindings
    decreases params.len(),
{
    if params.len() == 0 {
        Map::empty()
    } else {
        bind(params.drop_last(), args).insert(params.last(), args[params.len() - 1].kind)
    }
}

impl SymbolView {
    /// This symbol with the bound nonterminals in it replaced. Each replaced symbol keeps the
    /// position that it has in the macro's body.
    pub open spec fn substituted(self, args: Bindings) -> SymbolView
        decreases self,
    {
        SymbolView {
            span: self.span,
            kind: match self.kind {
                KindView::Expr(symbols) => KindView::Expr(all_substituted(symbols, args)),
                KindView::Terminal(_) => self.kind,
                KindView::Nonterminal(name) => if args.contains_key(name) {
                    args[name]
                } else {
                    self.kind
                },
                KindView::Macro(name, symbols) => KindView::Macro(
                    name,
                    all_substituted(symbols, args),
                ),
                KindView::Repeat(op, symbol) => KindView::Repeat(
                    op,
                    Box::new(symbol.substituted(args)),
                ),
                KindView::Choose(symbol) => KindView::Choose(Box::new(symbol.substituted(args))),
                KindView::Name(name, symbol) => KindView::Name(
                    name,
                    Box::new(symbol.substituted(args)),
                ),
            },
        }
    }
}

/// The symbols of a list, with the bound nonterminals in them replaced.
pub open spec fn all_substituted(symbols: Seq<SymbolView>, args: Bindings) -> Seq<SymbolView>
    decreases symbols,
{
    Seq::new(
        symbols.len(),
        |i: int|
            if 0 <= i < symbols.len() {
                symbols[i].substituted(args)
            } else {
                arbitrary()
            },
    )
}

impl TypeView {
    /// This type with the bare names in it resolved: a bound name is the type of what it is
    /// bound to, any other is a type of that name.
    pub open spec fn substituted(self, args: Bindings) -> TypeView
        decreases self,
    {
        match self {
            TypeView::Tuple(types) => TypeView::Tuple(all_types_substituted(types, args)),
            TypeView::Nominal { path, types } => TypeView::Nominal {
                path,
                types: all_types_substituted(types, args),
            },
            TypeView::Lifetime(_) => self,
            TypeView::OfSymbol(_) => self,
            TypeView::Id(name) => if args.contains_key(name) {
                TypeView::OfSymbol(args[name])
            } else {
                TypeView::Nominal { path: seq![name], types: Seq::empty() }
            },
        }
    }
}

/// The types of a list, with the bare names in them resolved.
pub open spec fn all_types_substituted(types: Seq<TypeView>, args: Bindings) -> Seq<TypeView>
    decreases types,
{
    Seq::new(
        types.len(),
        |i: int|
            if 0 <= i < types.len() {
                types[i].substituted(args)
            } else {
                arbitrary()
            },
    )
}

impl KindView {
    /// Whether a nonterminal of some name occurs in a symbol of this kind.
    pub open spec fn mentions(self, name: Seq<char>) -> bool
        decreases self,
    {
        match self {
            KindView::Terminal(_) => false,
            KindView::Nonterminal(own) => own == name,
            KindView::Choose(symbol) => symbol.kind.mentions(name),
            KindView::Name(_, symbol) => symbol.kind.mentions(name),
            KindView::Repeat(_, symbol) => symbol.kind.mentions(name),
            KindView::Expr(symbols) => any_mentions(symbols, name),
            KindView::Macro(_, args) => any_mentions(args, name),
        }
    }
}

/// Whether a nonterminal of some name occurs in a list of symbols.
pub open spec fn any_mentions(symbols: Seq<SymbolView>, name: Seq<char>) -> bool
    decreases symbols,
{
    exists|i: int| 0 <= i < symbols.len() && (#[trigger] symbols[i]).kind.mentions(name)
}

/// A symbol in which no parameter occurs is left as it is.
pub proof fn unmentioned_parameters_change_nothing(symbol: SymbolView, args: Bindings)
    requires
        forall|name: Seq<char>|
            args.contains_key(name) ==> !(#[trigger] symbol.kind.mentions(name)),
    ensures
        symbol.substituted(args) == symbol,
    decreases symbol,
{
    match symbol.kind {
        KindView::Terminal(_) => {},
        KindView::Nonterminal(name) => {
            assert(symbol.kind.mentions(name));
        },
        KindView::Choose(inner) => {
            assert forall|name: Seq<char>| args.contains_key(name) implies !(
            #[trigger] inner.kind.mentions(name)) by {
                assert(!symbol.kind.mentions(name));
            }
            unmentioned_parameters_change_nothing(*inner, args);
        },
        KindView::Name(_, inner) => {
            assert forall|name: Seq<char>| args.contains_key(name) implies !(
            #[trigger] inner.kind.mentions(name)) by {
                assert(!symbol.kind.mentions(name));
            }
            unmentioned_parameters_change_nothing(*inner, args);
        },
        KindView::Repeat(_, inner) => {
            assert forall|name: Seq<char>| args.contains_key(name) implies !(
            #[trigger] inner.kind.mentions(name)) by {
                assert(!symbol.kind.mentions(name));
            }
            unmentioned_parameters_change_nothing(*inner, args);
        },
        KindView::Expr(symbols) => {
            assert forall|name: Seq<char>| args.contains_key(name) implies !(
            #[trigger] any_mentions(symbols, name)) by {
                assert(!symbol.kind.mentions(name));
            }
            unmentioned_parameters_change_no_list(symbols, args);
        },
        KindView::Macro(_, symbols) => {
            assert forall|name: Seq<char>| args.contains_key(name) implies !(
            #[trigger] any_mentions(symbols, name)) by {
                assert(!symbol.kind.mentions(name));
            }
            unmentioned_parameters_change_no_list(symbols, args);
        },
    }
}

/// A list of symbols in which no parameter occurs is left as it is.
pub proof fn unmentioned_parameters_change_no_list(symbols: Seq<SymbolView>, args: Bindings)
    requires
        forall|name: Seq<char>|
            args.contains_key(name) ==> !(#[trigger] any_mentions(symbols, name)),
    ensures
        all_substituted(symbols, args) == symbols,
    decreases symbols,
{
    assert forall|i: int| 0 <= i < symbols.len() implies all_substituted(symbols, args)[i]
        == symbols[i] by {
        assert forall|name: Seq<char>| args.contains_key(name) implies !(
        #[trigger] symbols[i].kind.mentions(name)) by {
            assert(!any_mentions(symbols, name));
        }
        unmentioned_parameters_change_nothing(symbols[i], args);
    }
    assert(all_substituted(symbols, args) =~= symbols);
}

/// Whether a nonterminal of some name occurs in what a parameter is bound to.
pub open spec fn brought_in(args: Bindings, name: Seq<char>) -> bool {
    exists|param: Seq<char>| args.contains_key(param) && (#[trigger] args[param]).mentions(name)
}

/// No parameter survives: what occurs in a symbol after substitution is either not a
/// parameter and was there before, or an argument has brought it in.
pub proof fn parameters_do_not_survive(symbol: SymbolView, args: Bindings, name: Seq<char>)
    requires
        symbol.substituted(args).kind.mentions(name),
    ensures
        (symbol.kind.mentions(name) && !args.contains_key(name)) || brought_in(args, name),
    decreases symbol,
{
    match symbol.kind {
        KindView::Terminal(_) => {},
        KindView::Nonterminal(own) => {
            if args.contains_key(own) {
                assert(args[own].mentions(name));
            }
        },
        KindView::Choose(inner) => parameters_do_not_survive(*inner, args, name),
        KindView::Name(_, inner) => parameters_do_not_survive(*inner, args, name),
        KindView::Repeat(_, inner) => parameters_do_not_survive(*inner, args, name),
        KindView::Expr(symbols) => {
            assert(any_mentions(all_substituted(symbols, args), name));
            parameters_do_not_survive_lists(symbols, args, name);
        },
        KindView::Macro(_, symbols) => {
            assert(any_mentions(all_substituted(symbols, args), name));
            parameters_do_not_survive_lists(symbols, args, name);
        },
    }
}

/// No parameter survives in a list of symbols.
pub proof fn parameters_do_not_survive_lists(
    symbols: Seq<SymbolView>,
    args: Bindings,
    name: Seq<char>,
)
    requires
        any_mentions(all_substituted(symbols, args), name),
    ensures
        (any_mentions(symbols, name) && !args.contains_key(name)) || brought_in(args, name),
    decreases symbols,
{
    let new = all_substituted(symbols, args);
    let i = choose|i: int| 0 <= i < new.len() && (#[trigger] new[i]).kind.mentions(name);
    assert(new[i] == symbols[i].substituted(args));
    parameters_do_not_survive(symbols[i], args, name);
}

} // verus!
