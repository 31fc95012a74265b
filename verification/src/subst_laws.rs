//! What substitution does, part by part.
use vstd::prelude::*;

use crate::parse_tree::{KindView, SymbolView, TypeView};
use crate::shape::{label, parts, Label};
use crate::subst::{all_substituted, all_types_substituted, any_mentions, bind, Bindings};

verus! {

/// A nonterminal that is bound becomes what it is bound to, in its own place. Any other
/// symbol keeps its label and the number of its parts, and each part is treated in its place.
pub proof fn substitution_goes_by_labels(symbol: SymbolView, args: Bindings)
    ensures
        symbol.substituted(args).span == symbol.span,
        match label(symbol) {
            Label::Nonterminal(name) => symbol.substituted(args).kind == if args.contains_key(
                name,
            ) {
                args[name]
            } else {
                symbol.kind
            },
            other => {
                &&& label(symbol.substituted(args)) == other
                &&& parts(symbol.substituted(args)).len() == parts(symbol).len()
                &&& forall|k: int|
                    0 <= k < parts(symbol).len() ==> #[trigger] parts(symbol.substituted(args))[k]
                        == parts(symbol)[k].substituted(args)
            },
        },
{
    lists_are_substituted_in_place(parts(symbol), args);
}

/// The symbols of a list are treated one by one.
pub proof fn lists_are_substituted_in_place(symbols: Seq<SymbolView>, args: Bindings)
    ensures
        all_substituted(symbols, args).len() == symbols.len(),
        forall|k: int|
            0 <= k < symbols.len() ==> #[trigger] all_substituted(symbols, args)[k]
                == symbols[k].substituted(args),
{
}

/// What occurs in an argument occurs wherever its parameter did, and what is not a parameter
/// stays.
pub proof fn arguments_come_in(
    symbol: SymbolView,
    args: Bindings,
    before: Seq<char>,
    after: Seq<char>,
)
    requires
        symbol.kind.mentions(before),
        if args.contains_key(before) {
            args[before].mentions(after)
        } else {
            before == after
        },
    ensures
        symbol.substituted(args).kind.mentions(after),
    decreases symbol,
{
    match symbol.kind {
        KindView::Terminal(_) | KindView::Nonterminal(_) => {},
        KindView::Choose(inner) => arguments_come_in(*inner, args, before, after),
        KindView::Name(_, inner) => arguments_come_in(*inner, args, before, after),
        KindView::Repeat(_, inner) => arguments_come_in(*inner, args, before, after),
        KindView::Expr(symbols) => {
            assert(any_mentions(symbols, before));
            arguments_come_into_lists(symbols, args, before, after);
        },
        KindView::Macro(_, symbols) => {
            assert(any_mentions(symbols, before));
            arguments_come_into_lists(symbols, args, before, after);
        },
    }
}

/// What occurs in an argument occurs in a list wherever its parameter did.
proof fn arguments_come_into_lists(
    symbols: Seq<SymbolView>,
    args: Bindings,
    before: Seq<char>,
    after: Seq<char>,
)
    requires
        any_mentions(symbols, before),
        if args.contains_key(before) {
            args[before].mentions(after)
        } else {
            before == after
        },
    ensures
        any_mentions(all_substituted(symbols, args), after),
    decreases symbols,
{
    let k = choose|k: int| 0 <= k < symbols.len() && (#[trigger] symbols[k]).kind.mentions(before);
    arguments_come_in(symbols[k], args, before, after);
    assert(all_substituted(symbols, args)[k].kind.mentions(after));
}

/// Each parameter is bound to the argument in its place, unless a later parameter has the same
/// name.
pub proof fn parameters_are_bound_in_place(
    params: Seq<Seq<char>>,
    args: Seq<SymbolView>,
    k: int,
)
    requires
        0 <= k < params.len(),
        forall|m: int| k < m < params.len() ==> #[trigger] params[m] != params[k],
    ensures
        bind(params, args).contains_key(params[k]),
        bind(params, args)[params[k]] == args[k].kind,
    decreases params.len(),
{
    let before = params.drop_last();
    if k < before.len() {
        assert(params[params.len() - 1] != params[k]);
        assert forall|m: int| k < m < before.len() implies #[trigger] before[m] != before[k] by {
            assert(params[m] != params[k]);
        }
        parameters_are_bound_in_place(before, args, k);
    }
}

/// Nothing but the parameters is bound.
pub proof fn only_parameters_are_bound(
    params: Seq<Seq<char>>,
    args: Seq<SymbolView>,
    name: Seq<char>,
)
    ensures
        bind(params, args).contains_key(name) <==> params.contains(name),
    decreases params.len(),
{
    if params.len() > 0 {
        let before = params.drop_last();
        only_parameters_are_bound(before, args, name);
        if before.contains(name) {
            let i = choose|i: int| 0 <= i < before.len() && before[i] == name;
            assert(params[i] == name);
        }
        if params.last() == name {
            assert(params[params.len() - 1] == name);
        }
        if params.contains(name) {
            let i = choose|i: int| 0 <= i < params.len() && params[i] == name;
            if i < before.len() {
                assert(before[i] == name);
            }
        }
    }
}

/// A resolved type has the form of the declared one: the same path, as many components, each
/// resolved in its place. A bare name is the type of the symbol that it is bound to, or a type
/// of that name.
pub proof fn types_are_resolved_in_place(ty: TypeView, args: Bindings)
    ensures
        match ty {
            TypeView::Tuple(types) => ty.substituted(args) matches TypeView::Tuple(new)
                && new.len() == types.len() && forall|k: int|
                0 <= k < types.len() ==> #[trigger] new[k] == types[k].substituted(args),
            TypeView::Nominal { path, types } => ty.substituted(args) matches TypeView::Nominal {
                path: new_path,
                types: new,
            } && new_path == path && new.len() == types.len() && forall|k: int|
                0 <= k < types.len() ==> #[trigger] new[k] == types[k].substituted(args),
            TypeView::Lifetime(_) | TypeView::OfSymbol(_) => ty.substituted(args) == ty,
            TypeView::Id(name) => if args.contains_key(name) {
                ty.substituted(args) == TypeView::OfSymbol(args[name])
            } else {
                ty.substituted(args) matches TypeView::Nominal { path, types } && path.len() == 1
                    && path[0] == name && types.len() == 0
            },
        },
{
}

/// Whether a bare name is left somewhere in a type.
pub open spec fn has_bare_name(ty: TypeView) -> bool
    decreases ty,
{
    match ty {
        TypeView::Tuple(types) => any_has_bare_name(types),
        TypeView::Nominal { types, .. } => any_has_bare_name(types),
        TypeView::Lifetime(_) | TypeView::OfSymbol(_) => false,
        TypeView::Id(_) => true,
    }
}

/// Whether a bare name is left somewhere in a list of types.
pub open spec fn any_has_bare_name(types: Seq<TypeView>) -> bool
    decreases types,
{
    exists|k: int| 0 <= k < types.len() && has_bare_name(#[trigger] types[k])
}

/// A type without bare names is left as it is.
pub proof fn settled_types_stay(ty: TypeView, args: Bindings)
    requires
        !has_bare_name(ty),
    ensures
        ty.substituted(args) == ty,
    decreases ty,
{
    match ty {
        TypeView::Tuple(types) => {
            assert(!any_has_bare_name(types));
            settled_lists_stay(types, args);
        },
        TypeView::Nominal { types, .. } => {
            assert(!any_has_bare_name(types));
            settled_lists_stay(types, args);
        },
        _ => {},
    }
}

/// A list of types without bare names is left as it is.
proof fn settled_lists_stay(types: Seq<TypeView>, args: Bindings)
    requires
        !any_has_bare_name(types),
    ensures
        all_types_substituted(types, args) == types,
    decreases types,
{
    assert forall|k: int| 0 <= k < types.len() implies #[trigger] all_types_substituted(
        types,
        args,
    )[k] == types[k] by {
        assert(!has_bare_name(types[k]));
        settled_types_stay(types[k], args);
    }
    assert(all_types_substituted(types, args) =~= types);
}

/// No bare name is left in a resolved type, so that resolving it again changes nothing,
/// whatever is bound then.
pub proof fn resolving_twice_is_resolving_once(ty: TypeView, args: Bindings, others: Bindings)
    ensures
        !has_bare_name(ty.substituted(args)),
        ty.substituted(args).substituted(others) == ty.substituted(args),
{
    resolved_types_are_settled(ty, args);
    settled_types_stay(ty.substituted(args), others);
}

/// No bare name is left in a resolved type.
proof fn resolved_types_are_settled(ty: TypeView, args: Bindings)
    ensures
        !has_bare_name(ty.substituted(args)),
    decreases ty,
{
    match ty {
        TypeView::Tuple(types) => {
            resolved_lists_are_settled(types, args);
        },
        TypeView::Nominal { path, types } => {
            resolved_lists_are_settled(types, args);
        },
        TypeView::Id(name) => {
            assert(!any_has_bare_name(Seq::<TypeView>::empty()));
        },
        _ => {},
    }
}

/// No bare name is left in a list of resolved types.
proof fn resolved_lists_are_settled(types: Seq<TypeView>, args: Bindings)
    ensures
        !any_has_bare_name(all_types_substituted(types, args)),
    decreases types,
{
    let new = all_types_substituted(types, args);
    assert forall|k: int| 0 <= k < new.len() implies !has_bare_name(#[trigger] new[k]) by {
        resolved_types_are_settled(types[k], args);
    }
}

} // verus!
