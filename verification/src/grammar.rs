//! Macro expansion of a whole grammar.
use vstd::hash_map::StringHashMap;
use vstd::prelude::*;

use crate::error::NormResult;
use crate::expander::MacroExpander;
use crate::expansion::MacroTable;
use crate::fold::Queue;
use crate::parse_tree::{items_view, Grammar, GrammarItem, ItemView, NonterminalData};
use crate::stage::{outcome_is_unique, Progress, Stage};

verus! {

/// The macros that a list of items defines, by name. Of macros with the same name the last
/// one counts.
pub open spec fn macro_table(items: Seq<ItemView>) -> MacroTable
    decreases items.len(),
{
    if items.len() == 0 {
        Map::empty()
    } else {
        let before = macro_table(items.drop_last());
        match items.last() {
            ItemView::Nonterminal(data) if data.is_macro_def() => before.insert(data.name, data),
            _ => before,
        }
    }
}

/// The items of a list that do not define macros, in order.
pub open spec fn plain_items(items: Seq<ItemView>) -> Seq<ItemView> {
    items.filter(|item: ItemView| !item.is_macro_def())
}

/// The stage that the expansion of a grammar with these items starts at.
pub open spec fn first_stage(items: Seq<ItemView>) -> Stage {
    Stage {
        items: plain_items(items),
        counter: 0,
        queue: Queue { seen: Set::empty(), stack: Seq::empty() },
    }
}

/// Where a number of rounds leads from a grammar with these items.
pub open spec fn expansion_after(items: Seq<ItemView>, rounds: nat) -> Progress {
    first_stage(items).run(macro_table(items), rounds)
}

/// Whether the expansion of a grammar with these items comes to an end.
pub open spec fn expansion_ends(items: Seq<ItemView>) -> bool {
    first_stage(items).halts(macro_table(items))
}

/// Where the expansion of a grammar with these items ends.
pub open spec fn expansion_end(items: Seq<ItemView>) -> Progress {
    first_stage(items).outcome(macro_table(items))
}

/// Whether each condition of each macro among some items is on a parameter of that macro.
pub open spec fn conditions_bound(items: Seq<ItemView>) -> bool {
    forall|i: int|
        0 <= i < items.len() && (#[trigger] items[i]).is_macro_def()
            ==> items[i]->Nonterminal_0.conditions_bound()
}

/// Whether two grammars differ in nothing but their items.
pub open spec fn differs_in_items(after: Grammar, before: Grammar) -> bool {
    &&& after.span == before.span
    &&& after.type_parameters == before.type_parameters
    &&& after.parameters == before.parameters
}

/// Whether a result says of a grammar where its expansion ends.
pub open spec fn reports(result: NormResult<Grammar>, input: Grammar, end: Progress) -> bool {
    match end {
        Progress::Done(stage) => result matches Ok(grammar) && items_view(grammar.items@)
            == stage.items && differs_in_items(grammar, input),
        Progress::Failed(_, error) => result matches Err(e) && e@ == error,
        Progress::More(_) | Progress::Stuck => false,
    }
}

/// Expands the macros, groups and repetitions of a grammar.
///
/// The macros are taken out. In the other items, and in what the expansion adds to them, each
/// compound symbol gives way to a nonterminal named by its canonical form, and that
/// nonterminal is added. A macro that goes on using itself with ever larger arguments has no
/// end to its expansion, and a condition on something other than a parameter has no answer:
/// grammars that come to that are left out. [`expand_macros_within`] takes any grammar.
pub fn expand_macros(input: Grammar) -> (result: NormResult<Grammar>)
    requires
        expansion_ends(items_view(input.items@)),
    ensures
        reports(result, input, expansion_end(items_view(input.items@))),
{
    let Grammar { span, type_parameters, parameters, items } = input;
    let (macro_defs, mut items) = partition(items);
    let mut expander = MacroExpander::new(macro_defs);
    match expander.expand(&mut items) {
        Ok(()) => Ok(Grammar { span, type_parameters, parameters, items }),
        Err(error) => Err(error),
    }
}

/// Why [`expand_macros_within`] does not say what a grammar expands to.
#[derive(Clone, Copy, Debug, PartialEq, Eq, Structural)]
pub enum Refusal {
    /// A condition that has to be tested is on something other than a parameter.
    UnboundCondition,
    /// The rounds were not enough.
    OutOfRounds,
}

/// Expands the macros, groups and repetitions of any grammar, as [`expand_macros`] does, as
/// far as a number of rounds goes.
pub fn expand_macros_within(input: Grammar, rounds: usize) -> (result: Result<
    NormResult<Grammar>,
    Refusal,
>)
    ensures
        match result {
            Err(Refusal::UnboundCondition) => expansion_after(
                items_view(input.items@),
                rounds as nat,
            ) is Stuck,
            Err(Refusal::OutOfRounds) => expansion_after(
                items_view(input.items@),
                rounds as nat,
            ) is More,
            Ok(found) => {
                &&& expansion_after(items_view(input.items@), rounds as nat).is_end()
                &&& expansion_ends(items_view(input.items@))
                &&& reports(found, input, expansion_end(items_view(input.items@)))
            },
        },
{
    let Grammar { span, type_parameters, parameters, items } = input;
    let ghost all = items_view(items@);
    proof {
        if expansion_after(all, rounds as nat).is_end() {
            outcome_is_unique(first_stage(all), macro_table(all), rounds as nat);
        }
    }
    let (macro_defs, mut items) = partition(items);
    let mut expander = MacroExpander::new(macro_defs);
    match expander.expand_within(&mut items, rounds) {
        Some(Ok(true)) => Ok(Ok(Grammar { span, type_parameters, parameters, items })),
        Some(Ok(false)) => Err(Refusal::OutOfRounds),
        Some(Err(error)) => Ok(Err(error)),
        None => Err(Refusal::UnboundCondition),
    }
}

/// Parts the items of a grammar into its macros, by name, and the rest, in order.
fn partition(items: Vec<GrammarItem>) -> (parts: (StringHashMap<NonterminalData>, Vec<GrammarItem>))
    ensures
        parts.0@.map_values(|def: NonterminalData| def.view()) == macro_table(items_view(items@)),
        items_view(parts.1@) == plain_items(items_view(items@)),
        forall|i: int| 0 <= i < parts.1.len() ==> !(#[trigger] parts.1[i]@.is_macro_def()),
{
    let ghost all = items_view(items@);
    let mut macro_defs: StringHashMap<NonterminalData> = StringHashMap::new();
    let mut rest: Vec<GrammarItem> = Vec::new();
    proof {
        reveal(Seq::filter);
        assert(all.take(0) =~= Seq::empty());
        assert(macro_defs@.map_values(|def: NonterminalData| def.view()) =~= Map::empty());
        assert(items_view(rest@) =~= Seq::empty());
    }
    for item in iter: items.into_iter()
        invariant
            iter.seq() == items@,
            all == items_view(items@),
            macro_defs@.map_values(|def: NonterminalData| def.view()) == macro_table(
                all.take(iter.index()),
            ),
            items_view(rest@) == plain_items(all.take(iter.index())),
            forall|i: int| 0 <= i < rest.len() ==> !(#[trigger] rest[i]@.is_macro_def()),
    {
        let ghost defs_before = macro_defs@;
        let ghost rest_before = rest@;
        let ghost here = iter.index();
        match item {
            GrammarItem::Nonterminal(data) if data.is_macro_def() => {
                macro_defs.insert(data.name.0.clone(), data);
            },
            item => {
                rest.push(item);
            },
        }
        proof {
            reveal(Seq::filter);
            let next = all.take(here + 1);
            assert(next.drop_last() =~= all.take(here));
            assert(next.last() == item@);
        }
    }
    assert(all.take(items@.len() as int) =~= all);
    (macro_defs, rest)
}

} // verus!
