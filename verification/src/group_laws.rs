//! What groups and repetitions come to.
use vstd::prelude::*;

use crate::expansion::{expansion, tuple_of, MacroTable};
use crate::norm_util::{analysis, chosen, named, SymbolsView};
use crate::parse_tree::{
    AlternativeView, ItemView, KindView, NonterminalView, RepeatOp, Span, SymbolView, TypeView,
};
use crate::shape::{label, parts, stands_for_a_rule, Label};

verus! {

/// Whether a symbol has the mark of a choice.
pub open spec fn is_chosen() -> spec_fn(SymbolView) -> bool {
    |symbol: SymbolView| label(symbol) == Label::Chosen
}

/// Whether a symbol has a name.
pub open spec fn is_named(symbol: SymbolView) -> bool {
    label(symbol) is Named
}

/// The symbols that yield the value of a group without names: those with the mark of a choice,
/// or all of them if there are none.
pub open spec fn yielding(symbols: Seq<SymbolView>) -> Seq<SymbolView> {
    if symbols.filter(is_chosen()).len() > 0 {
        symbols.filter(is_chosen())
    } else {
        symbols
    }
}

/// The type of the value that a symbol yields in a group; the mark of a choice does not count.
pub open spec fn yields(symbol: SymbolView, ty: TypeView) -> bool {
    if label(symbol) == Label::Chosen {
        ty == TypeView::OfSymbol(parts(symbol)[0].kind)
    } else {
        ty == TypeView::OfSymbol(symbol.kind)
    }
}

/// What is common to all nonterminals that groups and repetitions come to.
pub open spec fn is_auxiliary(data: NonterminalView, symbol: SymbolView) -> bool {
    &&& !data.public
    &&& data.span == symbol.span
    &&& data.name == symbol.text()
    &&& data.args.len() == 0
    &&& data.type_decl is Some
}

/// Whether an alternative has no condition, some action code and a position.
pub open spec fn acts(alternative: AlternativeView, span: Span, action: Seq<char>) -> bool {
    &&& alternative.span == span
    &&& alternative.condition is None
    &&& alternative.action == Some(action)
}

/// A group without names comes to a nonterminal with the group itself for its one alternative.
/// Its type has one component for each symbol that yields its value, in order; one component
/// alone is the type.
pub proof fn groups_yield_what_is_chosen(defs: MacroTable, symbol: SymbolView)
    requires
        symbol.kind is Expr,
        forall|i: int| 0 <= i < parts(symbol).len() ==> !is_named(#[trigger] parts(symbol)[i]),
    ensures
        expansion(defs, symbol) matches Some(Ok(ItemView::Nonterminal(data))) && {
            &&& is_auxiliary(data, symbol)
            &&& data.alternatives.len() == 1
            &&& data.alternatives[0].expr == parts(symbol)
            &&& acts(data.alternatives[0], symbol.span, "(~~)"@)
            &&& if yielding(parts(symbol)).len() == 1 {
                yields(yielding(parts(symbol))[0], data.type_decl->0)
            } else {
                data.type_decl->0 matches TypeView::Tuple(types) && types.len() == yielding(
                    parts(symbol),
                ).len() && forall|k: int|
                    0 <= k < types.len() ==> yields(
                        yielding(parts(symbol))[k],
                        #[trigger] types[k],
                    )
            }
        },
{
    let symbols = parts(symbol);
    let found = yielding(symbols);
    let data = expansion(defs, symbol)->0->Ok_0->Nonterminal_0;
    no_names_are_found(symbols);
    choices_are_found(symbols);
    choices_are_found_in_place(symbols);
    let anon = analysis(symbols)->Anon_0;
    assert(anon.len() == found.len());
    assert forall|k: int| 0 <= k < found.len() implies yields(
        #[trigger] found[k],
        TypeView::OfSymbol(anon[k].1.kind),
    ) by {
        if chosen(symbols).len() == 0 && label(symbols[k]) == Label::Chosen {
            assert(chosen(symbols).map_values(|c: (int, SymbolView)| c.0).contains(k));
        }
    }
    if found.len() == 1 {
        assert(yields(found[0], data.type_decl->0));
    } else {
        let types = data.type_decl->0->Tuple_0;
        assert forall|k: int| 0 <= k < types.len() implies yields(
            found[k],
            #[trigger] types[k],
        ) by {
            assert(types[k] == TypeView::OfSymbol(anon[k].1.kind));
        }
    }
}

/// Where no symbol has a name, none is found.
proof fn no_names_are_found(symbols: Seq<SymbolView>)
    requires
        forall|i: int| 0 <= i < symbols.len() ==> !is_named(#[trigger] symbols[i]),
    ensures
        named(symbols).len() == 0,
    decreases symbols.len(),
{
    if symbols.len() > 0 {
        let before = symbols.drop_last();
        assert forall|i: int| 0 <= i < before.len() implies !is_named(#[trigger] before[i]) by {
            assert(before[i] == symbols[i]);
        }
        no_names_are_found(before);
        assert(!is_named(symbols[symbols.len() - 1]));
    }
}

/// The chosen symbols of a group are those with the mark, in order, without the mark.
pub proof fn choices_are_found(symbols: Seq<SymbolView>)
    ensures
        chosen(symbols).len() == symbols.filter(is_chosen()).len(),
        forall|k: int|
            0 <= k < chosen(symbols).len() ==> label(#[trigger] symbols.filter(is_chosen())[k])
                == Label::Chosen && chosen(symbols)[k].1 == parts(
                symbols.filter(is_chosen())[k],
            )[0],
    decreases symbols.len(),
{
    reveal(Seq::filter);
    if symbols.len() > 0 {
        choices_are_found(symbols.drop_last());
    }
}

/// A group with names is in error, at the group, and the message has the first name and what
/// it names.
pub proof fn the_first_name_is_reported(defs: MacroTable, symbol: SymbolView, i: int)
    requires
        symbol.kind is Expr,
        0 <= i < parts(symbol).len(),
        label(parts(symbol)[i]) is Named,
        forall|j: int| 0 <= j < i ==> !is_named(#[trigger] parts(symbol)[j]),
    ensures
        expansion(defs, symbol) matches Some(Err(error)) && error.span == symbol.span
            && error.message == "named symbols like `~"@ + label(parts(symbol)[i])->Named_0 + ":"@
            + parts(parts(symbol)[i])[0].text()
            + "` are only allowed at the top-level of a nonterminal"@,
{
    first_name_is_found(parts(symbol), i);
}

/// The first name of a group is found first.
proof fn first_name_is_found(symbols: Seq<SymbolView>, i: int)
    requires
        0 <= i < symbols.len(),
        label(symbols[i]) is Named,
        forall|j: int| 0 <= j < i ==> !is_named(#[trigger] symbols[j]),
    ensures
        named(symbols).len() > 0,
        named(symbols)[0] == (i, label(symbols[i])->Named_0, parts(symbols[i])[0]),
    decreases symbols.len(),
{
    let before = symbols.drop_last();
    if i < before.len() {
        first_name_is_found(before, i);
    } else {
        assert forall|j: int| 0 <= j < before.len() implies !is_named(#[trigger] before[j]) by {
            assert(before[j] == symbols[j]);
        }
        no_names_are_found(before);
    }
}

/// Whether places in a list come in order.
pub open spec fn in_order(places: Seq<int>, len: nat) -> bool {
    &&& forall|k: int| 0 <= k < places.len() ==> 0 <= #[trigger] places[k] < len
    &&& forall|k: int, m: int|
        0 <= k < m < places.len() ==> #[trigger] places[k] < #[trigger] places[m]
}

/// The named symbols of a group are found at their places, in order, each with its name, and
/// none is missed.
pub proof fn names_are_found_in_place(symbols: Seq<SymbolView>)
    ensures
        forall|k: int|
            0 <= k < named(symbols).len() ==> 0 <= (#[trigger] named(symbols)[k]).0 < symbols.len()
                && label(symbols[named(symbols)[k].0]) == Label::Named(named(symbols)[k].1)
                && parts(symbols[named(symbols)[k].0])[0] == named(symbols)[k].2,
        in_order(named(symbols).map_values(|n: (int, Seq<char>, SymbolView)| n.0), symbols.len()),
        forall|i: int|
            0 <= i < symbols.len() && is_named(#[trigger] symbols[i]) ==> named(
                symbols,
            ).map_values(|n: (int, Seq<char>, SymbolView)| n.0).contains(i),
    decreases symbols.len(),
{
    let places = named(symbols).map_values(|n: (int, Seq<char>, SymbolView)| n.0);
    if symbols.len() > 0 {
        let before = symbols.drop_last();
        names_are_found_in_place(before);
        let earlier = named(before).map_values(|n: (int, Seq<char>, SymbolView)| n.0);
        assert forall|k: int| 0 <= k < named(symbols).len() implies 0 <= (
        #[trigger] named(symbols)[k]).0 < symbols.len() && label(symbols[named(symbols)[k].0])
            == Label::Named(named(symbols)[k].1) && parts(symbols[named(symbols)[k].0])[0]
            == named(symbols)[k].2 by {
            if k < named(before).len() {
                assert(named(symbols)[k] == named(before)[k]);
                assert(before[named(before)[k].0] == symbols[named(before)[k].0]);
            }
        }
        assert forall|k: int, m: int| 0 <= k < m < places.len() implies #[trigger] places[k]
            < #[trigger] places[m] by {
            assert(places[k] == earlier[k]);
            if m < earlier.len() {
                assert(places[m] == earlier[m]);
            }
        }
        assert forall|k: int| 0 <= k < places.len() implies 0 <= #[trigger] places[k]
            < symbols.len() by {
            assert(places[k] == named(symbols)[k].0);
        }
        assert forall|i: int|
            0 <= i < symbols.len() && is_named(#[trigger] symbols[i]) implies places.contains(
            i,
        ) by {
            if i < before.len() {
                assert(before[i] == symbols[i]);
                let k = choose|k: int| 0 <= k < earlier.len() && earlier[k] == i;
                assert(places[k] == i);
            } else {
                assert(places[places.len() - 1] == i);
            }
        }
    }
}

/// The chosen symbols of a group are found at their places, in order, and none is missed.
pub proof fn choices_are_found_in_place(symbols: Seq<SymbolView>)
    ensures
        forall|k: int|
            0 <= k < chosen(symbols).len() ==> 0 <= (#[trigger] chosen(symbols)[k]).0
                < symbols.len() && label(symbols[chosen(symbols)[k].0]) == Label::Chosen && parts(
                symbols[chosen(symbols)[k].0],
            )[0] == chosen(symbols)[k].1,
        in_order(chosen(symbols).map_values(|c: (int, SymbolView)| c.0), symbols.len()),
        forall|i: int|
            0 <= i < symbols.len() && label(#[trigger] symbols[i]) == Label::Chosen ==> chosen(
                symbols,
            ).map_values(|c: (int, SymbolView)| c.0).contains(i),
    decreases symbols.len(),
{
    let places = chosen(symbols).map_values(|c: (int, SymbolView)| c.0);
    if symbols.len() > 0 {
        let before = symbols.drop_last();
        choices_are_found_in_place(before);
        let earlier = chosen(before).map_values(|c: (int, SymbolView)| c.0);
        assert forall|k: int| 0 <= k < chosen(symbols).len() implies 0 <= (
        #[trigger] chosen(symbols)[k]).0 < symbols.len() && label(symbols[chosen(symbols)[k].0])
            == Label::Chosen && parts(symbols[chosen(symbols)[k].0])[0] == chosen(
            symbols,
        )[k].1 by {
            if k < chosen(before).len() {
                assert(chosen(symbols)[k] == chosen(before)[k]);
                assert(before[chosen(before)[k].0] == symbols[chosen(before)[k].0]);
            }
        }
        assert forall|k: int, m: int| 0 <= k < m < places.len() implies #[trigger] places[k]
            < #[trigger] places[m] by {
            assert(places[k] == earlier[k]);
            if m < earlier.len() {
                assert(places[m] == earlier[m]);
            }
        }
        assert forall|k: int| 0 <= k < places.len() implies 0 <= #[trigger] places[k]
            < symbols.len() by {
            assert(places[k] == chosen(symbols)[k].0);
        }
        assert forall|i: int|
            0 <= i < symbols.len() && label(#[trigger] symbols[i])
                == Label::Chosen implies places.contains(i) by {
            if i < before.len() {
                assert(before[i] == symbols[i]);
                let k = choose|k: int| 0 <= k < earlier.len() && earlier[k] == i;
                assert(places[k] == i);
            } else {
                assert(places[places.len() - 1] == i);
            }
        }
    }
}

/// The analysis of a group gives its named symbols if it has any, else its chosen ones if it
/// has any, else every symbol with its place.
pub proof fn names_go_before_choices(symbols: Seq<SymbolView>)
    ensures
        (exists|i: int| 0 <= i < symbols.len() && is_named(#[trigger] symbols[i])) ==> analysis(
            symbols,
        ) == SymbolsView::Named(named(symbols)),
        (forall|i: int| 0 <= i < symbols.len() ==> !is_named(#[trigger] symbols[i])) ==> (analysis(
            symbols,
        ) matches SymbolsView::Anon(found) && if exists|i: int|
            0 <= i < symbols.len() && label(#[trigger] symbols[i]) == Label::Chosen {
            found == chosen(symbols)
        } else {
            found.len() == symbols.len() && forall|k: int|
                0 <= k < found.len() ==> #[trigger] found[k] == (k, symbols[k])
        }),
{
    names_are_found_in_place(symbols);
    choices_are_found_in_place(symbols);
    if exists|i: int| 0 <= i < symbols.len() && is_named(#[trigger] symbols[i]) {
        let i = choose|i: int| 0 <= i < symbols.len() && is_named(#[trigger] symbols[i]);
        let places = named(symbols).map_values(|n: (int, Seq<char>, SymbolView)| n.0);
        assert(places.contains(i));
    } else {
        no_names_are_found(symbols);
    }
    if exists|i: int| 0 <= i < symbols.len() && label(#[trigger] symbols[i]) == Label::Chosen {
        let i = choose|i: int|
            0 <= i < symbols.len() && label(#[trigger] symbols[i]) == Label::Chosen;
        let places = chosen(symbols).map_values(|c: (int, SymbolView)| c.0);
        assert(places.contains(i));
    } else if chosen(symbols).len() > 0 {
        assert(label(symbols[chosen(symbols)[0].0]) == Label::Chosen);
    }
}

/// One type is itself; any other number of types is a tuple of as many, in order.
pub proof fn one_type_is_no_tuple(types: Seq<TypeView>)
    ensures
        types.len() == 1 ==> tuple_of(types) == types[0],
        types.len() != 1 ==> (tuple_of(types) matches TypeView::Tuple(components)
            && components.len() == types.len() && forall|k: int|
            0 <= k < types.len() ==> #[trigger] components[k] == types[k]),
{
}

/// Whether a symbol is another one under a name.
pub open spec fn is_under_name(symbol: SymbolView, name: Seq<char>, inner: SymbolView) -> bool {
    label(symbol) == Label::Named(name) && parts(symbol) == seq![inner]
}

/// Whether an alternative takes the repetition so far, by its own name, and one element more.
pub open spec fn takes_one_more(
    alternative: AlternativeView,
    data: NonterminalView,
    element: SymbolView,
) -> bool {
    &&& alternative.expr.len() == 2
    &&& alternative.expr[0].span == data.span
    &&& alternative.expr[1].span == data.span
    &&& is_under_name(
        alternative.expr[0],
        "v"@,
        (SymbolView { span: data.span, kind: KindView::Nonterminal(data.name) }),
    )
    &&& is_under_name(alternative.expr[1], "e"@, element)
    &&& acts(alternative, data.span, "{ let mut v = v; v.push(e); v }"@)
}

/// Whether a type is `std::module::name<element>`.
pub open spec fn is_std_type_of(
    ty: TypeView,
    module: Seq<char>,
    name: Seq<char>,
    element: SymbolView,
) -> bool {
    ty matches TypeView::Nominal { path, types } && path == seq!["std"@, module, name] && types
        == seq![TypeView::OfSymbol(element.kind)]
}

/// A repetition comes to a nonterminal of two alternatives. `X*` is empty or one more than
/// `X*`, `X+` is one or one more than `X+`, and both yield a vector; `X?` is one or nothing, and
/// yields an option.
pub proof fn repetitions_repeat(defs: MacroTable, symbol: SymbolView)
    requires
        symbol.kind is Repeat,
    ensures
        expansion(defs, symbol) matches Some(Ok(ItemView::Nonterminal(data))) && {
            let element = parts(symbol)[0];
            let ty = data.type_decl->0;
            let first = data.alternatives[0];
            let second = data.alternatives[1];
            &&& is_auxiliary(data, symbol)
            &&& data.alternatives.len() == 2
            &&& match label(symbol)->Repetition_0 {
                RepeatOp::Star => {
                    &&& is_std_type_of(ty, "vec"@, "Vec"@, element)
                    &&& first.expr.len() == 0 && acts(first, symbol.span, "vec![]"@)
                    &&& takes_one_more(second, data, element)
                },
                RepeatOp::Plus => {
                    &&& is_std_type_of(ty, "vec"@, "Vec"@, element)
                    &&& first.expr == seq![element] && acts(first, symbol.span, "vec![~~]"@)
                    &&& takes_one_more(second, data, element)
                },
                RepeatOp::Question => {
                    &&& is_std_type_of(ty, "option"@, "Option"@, element)
                    &&& first.expr == seq![element] && acts(first, symbol.span, "Some(~~)"@)
                    &&& second.expr.len() == 0 && acts(second, symbol.span, "None"@)
                },
            }
        },
{
}

/// Groups and repetitions do not depend on the macros of the grammar.
pub proof fn groups_and_repetitions_need_no_macros(
    first: MacroTable,
    second: MacroTable,
    symbol: SymbolView,
)
    requires
        symbol.kind is Expr || symbol.kind is Repeat,
    ensures
        expansion(first, symbol) == expansion(second, symbol),
        expansion(first, symbol) is Some,
{
}

/// Nothing but a group, a use of a macro or a repetition is expanded.
pub proof fn only_compound_symbols_expand(defs: MacroTable, symbol: SymbolView)
    requires
        !stands_for_a_rule(label(symbol)),
    ensures
        expansion(defs, symbol) is None,
{
}

} // verus!
