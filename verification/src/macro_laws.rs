//! What conditions decide, and what a use of a macro comes to.
use vstd::prelude::*;

use crate::error::{decimal, ErrorView};
use crate::expansion::{condition_verdict, expansion, first_failure_decides, instances, MacroTable};
use crate::grammar::{macro_table, plain_items};
use crate::parse_tree::{
    AlternativeView, ConditionView, ItemView, KindView, NonterminalView, Span,
    SymbolView,
};
use crate::pattern::{regex_accepts, regex_rejection};
use crate::subst::{bind, Bindings};

verus! {

/// Whether two texts are the same, character by character.
pub open spec fn same_characters(first: Seq<char>, second: Seq<char>) -> bool {
    &&& first.len() == second.len()
    &&& forall|i: int| 0 <= i < first.len() ==> #[trigger] first[i] == second[i]
}

/// `P == "t"` holds of a terminal exactly if its text is `t`, character by character, and
/// `P != "t"` exactly if it is not. There is an answer in each case, and patterns play no part
/// in it.
pub proof fn comparisons_compare_characters(
    args: Bindings,
    condition: ConditionView,
    text: Seq<char>,
)
    requires
        args.contains_key(condition.lhs),
        args[condition.lhs] == KindView::Terminal(text),
    ensures
        condition.op is Equals ==> condition_verdict(args, Some(condition)) == Some(
            Ok::<bool, ErrorView>(same_characters(text, condition.rhs)),
        ),
        condition.op is NotEquals ==> condition_verdict(args, Some(condition)) == Some(
            Ok::<bool, ErrorView>(!same_characters(text, condition.rhs)),
        ),
{
    if same_characters(text, condition.rhs) {
        assert(text =~= condition.rhs);
    }
}

/// A match holds of a terminal exactly if the pattern accepts its text, and the negation of a
/// match exactly if it does not. If the pattern is rejected, both are in error, at the
/// condition, with the pattern and the reason in the message.
pub proof fn matches_search_the_text(args: Bindings, condition: ConditionView, text: Seq<char>)
    requires
        args.contains_key(condition.lhs),
        args[condition.lhs] == KindView::Terminal(text),
        condition.op is Match || condition.op is NotMatch,
    ensures
        match regex_rejection(condition.rhs, usize::BITS as nat) {
            None => condition_verdict(args, Some(condition)) == Some(
                Ok::<bool, ErrorView>(
                    (condition.op is Match) == regex_accepts(condition.rhs, text),
                ),
            ),
            Some(reason) => condition_verdict(args, Some(condition)) matches Some(Err(error))
                && error.span == condition.span && error.message
                == "invalid regular expression `"@ + condition.rhs + "`: "@ + reason,
        },
{
}

/// A condition on anything but a terminal is in error, whatever it compares with: the error
/// stands at the condition and names the parameter and the argument.
pub proof fn only_terminals_are_compared(args: Bindings, condition: ConditionView)
    requires
        args.contains_key(condition.lhs),
        !(args[condition.lhs] is Terminal),
    ensures
        condition_verdict(args, Some(condition)) matches Some(Err(error)) && error.span
            == condition.span && error.message == "invalid condition LHS `"@ + condition.lhs
            + "`, expected a terminal, not `"@ + args[condition.lhs].text() + "`"@,
{
}

/// What is without a condition always holds. A condition on what is not bound is the only one
/// without an answer.
pub proof fn conditions_have_answers_if_bound(args: Bindings, condition: Option<ConditionView>)
    ensures
        condition is None ==> condition_verdict(args, condition) == Some(
            Ok::<bool, ErrorView>(true),
        ),
        condition_verdict(args, condition) is None <==> (condition matches Some(c)
            && !args.contains_key(c.lhs)),
{
}

/// A condition depends on nothing but what its own parameter is bound to.
pub proof fn conditions_look_at_one_argument(
    first: Bindings,
    second: Bindings,
    condition: ConditionView,
)
    requires
        first.contains_key(condition.lhs) == second.contains_key(condition.lhs),
        first[condition.lhs] == second[condition.lhs],
    ensures
        condition_verdict(first, Some(condition)) == condition_verdict(second, Some(condition)),
{
}

/// Whether the condition of an alternative holds, or is absent.
pub open spec fn holds(args: Bindings) -> spec_fn(AlternativeView) -> bool {
    |alternative: AlternativeView|
        alternative.condition is None || condition_verdict(args, alternative.condition) == Some(
            Ok::<bool, ErrorView>(true),
        )
}

/// Whether an alternative is what another one becomes in one use of a macro: its symbols with
/// the arguments in them, each in its place, its own action, no condition, and the position of
/// the use.
pub open spec fn is_instance(
    new: AlternativeView,
    args: Bindings,
    span: Span,
    alternative: AlternativeView,
) -> bool {
    &&& new.span == span
    &&& new.condition is None
    &&& new.action == alternative.action
    &&& new.expr.len() == alternative.expr.len()
    &&& forall|p: int|
        0 <= p < alternative.expr.len() ==> #[trigger] new.expr[p]
            == alternative.expr[p].substituted(args)
}

/// Whether some alternatives are the instances, in order, of those others whose conditions
/// hold or are absent.
pub open spec fn are_instances_of_those_that_hold(
    new: Seq<AlternativeView>,
    args: Bindings,
    span: Span,
    alternatives: Seq<AlternativeView>,
) -> bool {
    &&& new.len() == alternatives.filter(holds(args)).len()
    &&& forall|k: int|
        0 <= k < new.len() ==> is_instance(
            #[trigger] new[k],
            args,
            span,
            alternatives.filter(holds(args))[k],
        )
}

/// Where the conditions of some alternatives have answers, what is kept of them are the
/// instances, in order, of those that hold.
pub proof fn what_holds_is_kept(args: Bindings, span: Span, alternatives: Seq<AlternativeView>)
    requires
        forall|i: int|
            0 <= i < alternatives.len() ==> condition_verdict(
                args,
                (#[trigger] alternatives[i]).condition,
            ) matches Some(Ok(_)),
    ensures
        instances(args, span, alternatives) matches Some(Ok(kept))
            && are_instances_of_those_that_hold(kept, args, span, alternatives),
    decreases alternatives.len(),
{
    reveal(Seq::filter);
    if alternatives.len() > 0 {
        let before = alternatives.drop_last();
        let last = alternatives.last();
        assert forall|i: int| 0 <= i < before.len() implies condition_verdict(
            args,
            (#[trigger] before[i]).condition,
        ) matches Some(Ok(_)) by {
            assert(before[i] == alternatives[i]);
        }
        what_holds_is_kept(args, span, before);
        assert(last == alternatives[alternatives.len() - 1]);
        let kept = instances(args, span, alternatives)->0->Ok_0;
        let earlier = instances(args, span, before)->0->Ok_0;
        assert forall|k: int| 0 <= k < kept.len() implies is_instance(
            #[trigger] kept[k],
            args,
            span,
            alternatives.filter(holds(args))[k],
        ) by {
            if k < earlier.len() {
                assert(kept[k] == earlier[k]);
            }
        }
    }
}

/// An alternative that holds has its instance among those that are kept, behind the instances
/// of those before it that hold.
pub proof fn an_alternative_is_kept_in_its_place(
    args: Bindings,
    span: Span,
    alternatives: Seq<AlternativeView>,
    i: int,
)
    requires
        instances(args, span, alternatives) matches Some(Ok(_)),
        0 <= i < alternatives.len(),
        holds(args)(alternatives[i]),
    ensures
        ({
            let kept = instances(args, span, alternatives)->0->Ok_0;
            let place = alternatives.take(i).filter(holds(args)).len() as int;
            place < kept.len() && is_instance(kept[place], args, span, alternatives[i])
        }),
    decreases alternatives.len(),
{
    reveal(Seq::filter);
    answers_are_owed(args, span, alternatives);
    what_holds_is_kept(args, span, alternatives);
    let before = alternatives.drop_last();
    if i < before.len() {
        answers_are_owed(args, span, before);
        assert(before.take(i) =~= alternatives.take(i));
        an_alternative_is_kept_in_its_place(args, span, before, i);
    } else {
        assert(before =~= alternatives.take(i));
        let place = before.filter(holds(args)).len() as int;
        assert(alternatives.filter(holds(args))[place] == alternatives[i]);
    }
}

/// Where alternatives are kept or left out, each of their conditions has an answer.
pub proof fn answers_are_owed(args: Bindings, span: Span, alternatives: Seq<AlternativeView>)
    requires
        instances(args, span, alternatives) matches Some(Ok(_)),
    ensures
        forall|i: int|
            0 <= i < alternatives.len() ==> condition_verdict(
                args,
                (#[trigger] alternatives[i]).condition,
            ) matches Some(Ok(_)),
    decreases alternatives.len(),
{
    if alternatives.len() > 0 {
        let before = alternatives.drop_last();
        answers_are_owed(args, span, before);
        assert forall|i: int| 0 <= i < alternatives.len() implies condition_verdict(
            args,
            (#[trigger] alternatives[i]).condition,
        ) matches Some(Ok(_)) by {
            if i < before.len() {
                assert(before[i] == alternatives[i]);
            }
        }
    }
}

/// The first condition that is in error, or that has no answer, decides for all alternatives.
pub proof fn the_first_failing_condition_decides(
    args: Bindings,
    span: Span,
    alternatives: Seq<AlternativeView>,
    i: int,
)
    requires
        0 <= i < alternatives.len(),
        forall|j: int|
            0 <= j < i ==> condition_verdict(
                args,
                (#[trigger] alternatives[j]).condition,
            ) matches Some(Ok(_)),
        !(condition_verdict(args, alternatives[i].condition) matches Some(Ok(_))),
    ensures
        match condition_verdict(args, alternatives[i].condition) {
            Some(Err(error)) => instances(args, span, alternatives) == Some(
                Err::<Seq<AlternativeView>, ErrorView>(error),
            ),
            _ => instances(args, span, alternatives) is None,
        },
{
    let before = alternatives.take(i);
    assert forall|j: int| 0 <= j < before.len() implies condition_verdict(
        args,
        (#[trigger] before[j]).condition,
    ) matches Some(Ok(_)) by {
        assert(before[j] == alternatives[j]);
    }
    what_holds_is_kept(args, span, before);
    assert(alternatives.take(i + 1).drop_last() =~= before);
    first_failure_decides(args, span, alternatives, i + 1);
}

/// Whether a symbol is a use of a macro with as many arguments as the macro has parameters.
pub open spec fn fits(defs: MacroTable, symbol: SymbolView) -> bool {
    symbol.kind matches KindView::Macro(name, args) && defs.contains_key(name)
        && defs[name].args.len() == args.len()
}

/// The definition that a use of a macro refers to.
pub open spec fn definition(defs: MacroTable, symbol: SymbolView) -> NonterminalView {
    defs[symbol.kind->Macro_0]
}

/// What the parameters of a macro are bound to in a use of it.
pub open spec fn bound_in(defs: MacroTable, symbol: SymbolView) -> Bindings {
    bind(definition(defs, symbol).args, symbol.kind->Macro_1)
}

/// A use of a macro that is not defined is in error, at the use, and the message names it.
pub proof fn undefined_macros_are_reported(defs: MacroTable, symbol: SymbolView)
    requires
        symbol.kind is Macro,
        !defs.contains_key(symbol.kind->Macro_0),
    ensures
        expansion(defs, symbol) matches Some(Err(error)) && error.span == symbol.span
            && error.message == "no macro definition found for `"@ + symbol.kind->Macro_0 + "`"@,
{
}

/// A use of a macro with the wrong number of arguments is in error, at the use, and the message
/// has both numbers.
pub proof fn wrong_numbers_are_reported(defs: MacroTable, symbol: SymbolView)
    requires
        symbol.kind is Macro,
        defs.contains_key(symbol.kind->Macro_0),
        !fits(defs, symbol),
    ensures
        expansion(defs, symbol) matches Some(Err(error)) && error.span == symbol.span
            && error.message == "expected "@ + decimal(definition(defs, symbol).args.len())
            + " arguments to `"@ + symbol.kind->Macro_0 + "` but found "@ + decimal(
            symbol.kind->Macro_1.len(),
        ),
{
}

/// A use of a macro whose conditions have answers is a nonterminal with the canonical form of
/// the use for a name, as public as the macro, without parameters, with the type of the macro
/// resolved, and with the instances, in order, of those alternatives that hold.
pub proof fn uses_instantiate_definitions(defs: MacroTable, symbol: SymbolView)
    requires
        fits(defs, symbol),
        forall|i: int|
            0 <= i < definition(defs, symbol).alternatives.len() ==> condition_verdict(
                bound_in(defs, symbol),
                (#[trigger] definition(defs, symbol).alternatives[i]).condition,
            ) matches Some(Ok(_)),
    ensures
        expansion(defs, symbol) matches Some(Ok(ItemView::Nonterminal(data))) && {
            &&& data.public == definition(defs, symbol).public
            &&& data.span == symbol.span
            &&& data.name == symbol.text()
            &&& data.args.len() == 0
            &&& data.type_decl is Some == definition(defs, symbol).type_decl is Some
            &&& data.type_decl is Some ==> data.type_decl->0 == definition(
                defs,
                symbol,
            ).type_decl->0.substituted(bound_in(defs, symbol))
            &&& are_instances_of_those_that_hold(
                data.alternatives,
                bound_in(defs, symbol),
                symbol.span,
                definition(defs, symbol).alternatives,
            )
        },
{
    what_holds_is_kept(
        bound_in(defs, symbol),
        symbol.span,
        definition(defs, symbol).alternatives,
    );
}

/// A use of a macro without conditions has as many alternatives as the macro, and each is the
/// instance of the one in its place.
pub proof fn unconditional_macros_keep_everything(defs: MacroTable, symbol: SymbolView)
    requires
        fits(defs, symbol),
        forall|i: int|
            0 <= i < definition(defs, symbol).alternatives.len() ==> (#[trigger] definition(
                defs,
                symbol,
            ).alternatives[i]).condition is None,
    ensures
        expansion(defs, symbol) matches Some(Ok(ItemView::Nonterminal(data))) && {
            &&& data.alternatives.len() == definition(defs, symbol).alternatives.len()
            &&& forall|k: int|
                0 <= k < data.alternatives.len() ==> is_instance(
                    #[trigger] data.alternatives[k],
                    bound_in(defs, symbol),
                    symbol.span,
                    definition(defs, symbol).alternatives[k],
                )
        },
{
    let all = definition(defs, symbol).alternatives;
    let args = bound_in(defs, symbol);
    uses_instantiate_definitions(defs, symbol);
    everything_holds(args, all);
}

/// Of alternatives without conditions all hold.
proof fn everything_holds(args: Bindings, alternatives: Seq<AlternativeView>)
    requires
        forall|i: int|
            0 <= i < alternatives.len() ==> (#[trigger] alternatives[i]).condition is None,
    ensures
        alternatives.filter(holds(args)) == alternatives,
    decreases alternatives.len(),
{
    reveal(Seq::filter);
    if alternatives.len() > 0 {
        let before = alternatives.drop_last();
        assert forall|i: int| 0 <= i < before.len() implies (
        #[trigger] before[i]).condition is None by {
            assert(before[i] == alternatives[i]);
        }
        everything_holds(args, before);
        assert(alternatives.last() == alternatives[alternatives.len() - 1]);
        assert(before.push(alternatives.last()) =~= alternatives);
    }
}

/// A use of a macro is in error if a condition of it is, and has the error of the first such
/// condition. It has no answer if a condition before that has none.
pub proof fn uses_fail_with_their_conditions(defs: MacroTable, symbol: SymbolView, i: int)
    requires
        fits(defs, symbol),
        0 <= i < definition(defs, symbol).alternatives.len(),
        forall|j: int|
            0 <= j < i ==> condition_verdict(
                bound_in(defs, symbol),
                (#[trigger] definition(defs, symbol).alternatives[j]).condition,
            ) matches Some(Ok(_)),
        !(condition_verdict(
            bound_in(defs, symbol),
            definition(defs, symbol).alternatives[i].condition,
        ) matches Some(Ok(_))),
    ensures
        match condition_verdict(
            bound_in(defs, symbol),
            definition(defs, symbol).alternatives[i].condition,
        ) {
            Some(Err(error)) => expansion(defs, symbol) == Some(Err::<ItemView, ErrorView>(error)),
            _ => expansion(defs, symbol) is None,
        },
{
    the_first_failing_condition_decides(
        bound_in(defs, symbol),
        symbol.span,
        definition(defs, symbol).alternatives,
        i,
    );
}

/// The conditions of a macro are bound exactly if each of them is on a parameter of the macro.
pub proof fn bound_conditions_are_on_parameters(def: NonterminalView)
    ensures
        def.conditions_bound() <==> forall|i: int|
            0 <= i < def.alternatives.len() && (
            #[trigger] def.alternatives[i]).condition is Some ==> exists|k: int|
                0 <= k < def.args.len() && #[trigger] def.args[k]
                    == def.alternatives[i].condition->0.lhs,
{
    let on_parameters = forall|i: int|
        0 <= i < def.alternatives.len() && (
        #[trigger] def.alternatives[i]).condition is Some ==> exists|k: int|
            0 <= k < def.args.len() && #[trigger] def.args[k]
                == def.alternatives[i].condition->0.lhs;
    if def.conditions_bound() {
        assert forall|i: int|
            0 <= i < def.alternatives.len() && (
            #[trigger] def.alternatives[i]).condition is Some implies exists|k: int|
            0 <= k < def.args.len() && #[trigger] def.args[k]
                == def.alternatives[i].condition->0.lhs by {
            assert(def.args.contains(def.alternatives[i].condition->0.lhs));
        }
    }
    if on_parameters {
        assert forall|i: int| 0 <= i < def.alternatives.len() implies ((
        #[trigger] def.alternatives[i]).condition matches Some(c) ==> def.args.contains(c.lhs)) by {
            if let Some(c) = def.alternatives[i].condition {
                let k = choose|k: int| 0 <= k < def.args.len() && #[trigger] def.args[k] == c.lhs;
                assert(def.args.contains(c.lhs));
            }
        }
    }
}

/// Whether an item defines a macro of some name: a nonterminal of that name with parameters.
pub open spec fn defines_macro(item: ItemView, name: Seq<char>) -> bool {
    item matches ItemView::Nonterminal(data) && data.name == name && data.args.len() > 0
}

/// The definition of a macro is the last item that defines one of that name.
pub proof fn the_last_definition_counts(items: Seq<ItemView>, i: int)
    requires
        0 <= i < items.len(),
        items[i] is Nonterminal,
        items[i]->Nonterminal_0.args.len() > 0,
        forall|j: int|
            i < j < items.len() ==> !defines_macro(
                #[trigger] items[j],
                items[i]->Nonterminal_0.name,
            ),
    ensures
        macro_table(items).contains_key(items[i]->Nonterminal_0.name),
        macro_table(items)[items[i]->Nonterminal_0.name] == items[i]->Nonterminal_0,
    decreases items.len(),
{
    let before = items.drop_last();
    if i < before.len() {
        assert(!defines_macro(items[items.len() - 1], items[i]->Nonterminal_0.name));
        assert forall|j: int| i < j < before.len() implies !defines_macro(
            #[trigger] before[j],
            before[i]->Nonterminal_0.name,
        ) by {
            assert(before[j] == items[j]);
        }
        the_last_definition_counts(before, i);
    }
}

/// Every macro of the table is defined by an item, under its own name.
pub proof fn macros_are_defined_by_items(items: Seq<ItemView>, name: Seq<char>)
    requires
        macro_table(items).contains_key(name),
    ensures
        exists|i: int|
            0 <= i < items.len() && defines_macro(#[trigger] items[i], name) && macro_table(
                items,
            )[name] == items[i]->Nonterminal_0,
    decreases items.len(),
{
    if items.len() > 0 {
        let before = items.drop_last();
        let last = items.len() - 1;
        if defines_macro(items[last], name) {
        } else {
            macros_are_defined_by_items(before, name);
            let i = choose|i: int|
                0 <= i < before.len() && defines_macro(#[trigger] before[i], name) && macro_table(
                    before,
                )[name] == before[i]->Nonterminal_0;
            assert(defines_macro(items[i], name));
        }
    }
}

/// The plain items of two lists in a row are those of the first and behind them those of the
/// second.
pub proof fn plain_items_of_joined_lists(first: Seq<ItemView>, second: Seq<ItemView>)
    ensures
        plain_items(first + second) == plain_items(first) + plain_items(second),
    decreases second.len(),
{
    reveal(Seq::filter);
    if second.len() == 0 {
        assert(first + second =~= first);
        assert(plain_items(first) + plain_items(second) =~= plain_items(first));
    } else {
        plain_items_of_joined_lists(first, second.drop_last());
        assert((first + second).drop_last() =~= first + second.drop_last());
        assert(plain_items(first + second) =~= plain_items(first) + plain_items(second));
    }
}

/// An item is plain unless it is a nonterminal with parameters.
pub proof fn one_plain_item(item: ItemView)
    ensures
        plain_items(seq![item]) == if item is Nonterminal && item->Nonterminal_0.args.len() > 0 {
            Seq::empty()
        } else {
            seq![item]
        },
{
    reveal(Seq::filter);
    let one = seq![item];
    assert(one.drop_last() =~= Seq::empty());
    assert(plain_items(one.drop_last()) =~= Seq::empty());
    assert(Seq::<ItemView>::empty().push(item) =~= one);
    assert(plain_items(one) =~= if item is Nonterminal && item->Nonterminal_0.args.len() > 0 {
        Seq::empty()
    } else {
        one
    });
}

/// Every plain item is an item of the list, and it is not a macro.
pub proof fn plain_items_are_items(items: Seq<ItemView>, i: int)
    requires
        0 <= i < plain_items(items).len(),
    ensures
        exists|k: int| 0 <= k < items.len() && #[trigger] items[k] == plain_items(items)[i],
        !defines_macro(plain_items(items)[i], plain_items(items)[i]->Nonterminal_0.name),
    decreases items.len(),
{
    reveal(Seq::filter);
    if items.len() > 0 {
        let before = items.drop_last();
        if i < plain_items(before).len() {
            plain_items_are_items(before, i);
            let k = choose|k: int|
                0 <= k < before.len() && #[trigger] before[k] == plain_items(before)[i];
            assert(items[k] == plain_items(items)[i]);
        } else {
            assert(items[items.len() - 1] == plain_items(items)[i]);
        }
    }
}

} // verus!
