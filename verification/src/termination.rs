//! Which expansions give an answer, and which come to an end.
use vstd::prelude::*;

use crate::expansion::{all_conditions_bound, expansion, instance, instances, MacroTable};
use crate::fold::{all_folded, all_uses, alternatives_uses, items_uses, Queue};
use crate::grammar::{
    conditions_bound, expansion_after, expansion_end, expansion_ends, first_stage, macro_table,
    plain_items,
};
use crate::laws::{flat_items_use_nothing, folding_flattens, plain_already};
use crate::parse_tree::{AlternativeView, ItemView, KindView, NonterminalView, Span, SymbolView};
use crate::stage::{draining_adds_items, outcome_is_unique, Progress, Stage};
use crate::subst::{all_substituted, bind, Bindings};
use crate::subst_laws::only_parameters_are_bound;

verus! {

/// What is bound are the parameters.
proof fn parameters_are_bound(params: Seq<Seq<char>>, args: Seq<SymbolView>, name: Seq<char>)
    ensures
        bind(params, args).contains_key(name) <==> params.contains(name),
{
    only_parameters_are_bound(params, args, name);
}

/// Conditions on what is bound can all be tested.
proof fn bound_conditions_have_verdicts(
    args: Bindings,
    span: Span,
    alternatives: Seq<AlternativeView>,
)
    requires
        forall|i: int|
            0 <= i < alternatives.len() ==> ((#[trigger] alternatives[i]).condition matches Some(c)
                ==> args.contains_key(c.lhs)),
    ensures
        instances(args, span, alternatives) is Some,
    decreases alternatives.len(),
{
    if alternatives.len() > 0 {
        let before = alternatives.drop_last();
        assert forall|i: int| 0 <= i < before.len() implies ((
        #[trigger] before[i]).condition matches Some(c) ==> args.contains_key(c.lhs)) by {
            assert(before[i] == alternatives[i]);
        }
        bound_conditions_have_verdicts(args, span, before);
        assert(alternatives.last() == alternatives[alternatives.len() - 1]);
    }
}

/// Where the conditions of a macro are on its parameters, all of them can be tested, whatever
/// the arguments.
pub proof fn bound_macros_have_answers(def: NonterminalView, args: Seq<SymbolView>, span: Span)
    requires
        def.conditions_bound(),
    ensures
        instances(bind(def.args, args), span, def.alternatives) is Some,
{
    let bound = bind(def.args, args);
    assert forall|i: int| 0 <= i < def.alternatives.len() implies ((
    #[trigger] def.alternatives[i]).condition matches Some(c) ==> bound.contains_key(c.lhs)) by {
        if let Some(c) = def.alternatives[i].condition {
            parameters_are_bound(def.args, args, c.lhs);
        }
    }
    bound_conditions_have_verdicts(bound, span, def.alternatives);
}

/// Where the conditions of all macros are on their parameters, every compound symbol has an
/// expansion or an error.
pub proof fn compound_symbols_have_answers(defs: MacroTable, symbol: SymbolView)
    requires
        all_conditions_bound(defs),
        symbol.kind.is_compound(),
    ensures
        expansion(defs, symbol) is Some,
{
    if let KindView::Macro(name, args) = symbol.kind {
        if defs.contains_key(name) {
            bound_macros_have_answers(defs[name], args, symbol.span);
        }
    }
}

/// Whether all symbols of a list are compound.
spec fn all_compound(symbols: Seq<SymbolView>) -> bool {
    forall|i: int| 0 <= i < symbols.len() ==> (#[trigger] symbols[i]).kind.is_compound()
}

proof fn uses_are_compound(symbol: SymbolView)
    ensures
        all_compound(symbol.uses()),
    decreases symbol,
{
    match symbol.kind {
        KindView::Terminal(_) | KindView::Nonterminal(_) => {},
        KindView::Choose(inner) => uses_are_compound(*inner),
        KindView::Name(_, inner) => uses_are_compound(*inner),
        KindView::Repeat(_, inner) => uses_are_compound(*inner),
        KindView::Expr(symbols) => all_uses_are_compound(symbols),
        KindView::Macro(_, args) => all_uses_are_compound(args),
    }
}

proof fn all_uses_are_compound(symbols: Seq<SymbolView>)
    ensures
        all_compound(all_uses(symbols)),
    decreases symbols,
{
    if symbols.len() > 0 {
        all_uses_are_compound(symbols.drop_last());
        uses_are_compound(symbols[symbols.len() - 1]);
    }
}

proof fn alternatives_uses_are_compound(alternatives: Seq<AlternativeView>)
    ensures
        all_compound(alternatives_uses(alternatives)),
    decreases alternatives.len(),
{
    if alternatives.len() > 0 {
        alternatives_uses_are_compound(alternatives.drop_last());
        all_uses_are_compound(alternatives.last().expr);
    }
}

proof fn items_uses_are_compound(items: Seq<ItemView>)
    ensures
        all_compound(items_uses(items)),
    decreases items.len(),
{
    if items.len() > 0 {
        items_uses_are_compound(items.drop_last());
        if let ItemView::Nonterminal(data) = items.last() {
            alternatives_uses_are_compound(data.alternatives);
        }
    }
}

proof fn queues_stay_compound(queue: Queue, symbols: Seq<SymbolView>)
    requires
        all_compound(queue.stack),
        all_compound(symbols),
    ensures
        all_compound(queue.offer_all(symbols).stack),
    decreases symbols.len(),
{
    if symbols.len() > 0 {
        assert forall|i: int| 0 <= i < symbols.drop_last().len() implies (
        #[trigger] symbols.drop_last()[i]).kind.is_compound() by {
            assert(symbols.drop_last()[i] == symbols[i]);
        }
        queues_stay_compound(queue, symbols.drop_last());
        assert(symbols.last() == symbols[symbols.len() - 1]);
    }
}

/// Emptying a stack of compound symbols does not get stuck.
proof fn draining_has_answers(stage: Stage, defs: MacroTable)
    requires
        all_conditions_bound(defs),
        all_compound(stage.queue.stack),
    ensures
        !(stage.drained(defs) is Stuck),
    decreases stage.queue.stack.len(),
{
    let stack = stage.queue.stack;
    if stack.len() > 0 {
        assert(stack.last() == stack[stack.len() - 1]);
        compound_symbols_have_answers(defs, stack.last());
        if let Some(Ok(item)) = expansion(defs, stack.last()) {
            let popped = Queue { stack: stack.drop_last(), ..stage.queue };
            assert forall|i: int| 0 <= i < popped.stack.len() implies (
            #[trigger] popped.stack[i]).kind.is_compound() by {
                assert(popped.stack[i] == stack[i]);
            }
            draining_has_answers(
                Stage { items: stage.items.push(item), queue: popped, ..stage },
                defs,
            );
        }
    }
}

/// Where the conditions of all macros are on their parameters, no number of rounds gets
/// stuck.
pub proof fn rounds_have_answers(stage: Stage, defs: MacroTable, rounds: nat)
    requires
        all_conditions_bound(defs),
        stage.queue.stack.len() == 0,
    ensures
        !(stage.run(defs, rounds) is Stuck),
    decreases rounds,
{
    if rounds > 0 {
        let folded = stage.folded();
        let uses = items_uses(stage.items.skip(stage.counter as int));
        items_uses_are_compound(stage.items.skip(stage.counter as int));
        queues_stay_compound(stage.queue, uses);
        draining_has_answers(folded, defs);
        draining_adds_items(folded, defs);
        if let Progress::More(next) = stage.round(defs) {
            rounds_have_answers(next, defs, (rounds - 1) as nat);
        }
    }
}

/// A grammar whose conditions are all on parameters never gets stuck.
pub proof fn bound_conditions_have_answers(items: Seq<ItemView>, rounds: nat)
    requires
        conditions_bound(items),
    ensures
        !(expansion_after(items, rounds) is Stuck),
{
    tables_of_bound_conditions(items);
    rounds_have_answers(first_stage(items), macro_table(items), rounds);
}

/// Whether a symbol is compound and its parts are folded.
spec fn is_ready(symbol: SymbolView) -> bool {
    match symbol.kind {
        KindView::Expr(symbols) => all_flat(symbols),
        KindView::Macro(_, args) => all_flat(args),
        KindView::Repeat(_, inner) => inner.is_flat(),
        _ => false,
    }
}

/// Whether all symbols of a list are flat.
spec fn all_flat(symbols: Seq<SymbolView>) -> bool {
    forall|i: int| 0 <= i < symbols.len() ==> (#[trigger] symbols[i]).is_flat()
}

impl KindView {
    /// Whether every macro of a table that is used in a symbol of this kind has a rank below a
    /// bound.
    pub open spec fn ranks_below(
        self,
        defs: MacroTable,
        rank: spec_fn(Seq<char>) -> nat,
        bound: nat,
    ) -> bool
        decreases self,
    {
        match self {
            KindView::Terminal(_) | KindView::Nonterminal(_) => true,
            KindView::Choose(symbol) => symbol.kind.ranks_below(defs, rank, bound),
            KindView::Name(_, symbol) => symbol.kind.ranks_below(defs, rank, bound),
            KindView::Repeat(_, symbol) => symbol.kind.ranks_below(defs, rank, bound),
            KindView::Expr(symbols) => all_rank_below(symbols, defs, rank, bound),
            KindView::Macro(name, args) => {
                &&& defs.contains_key(name) ==> rank(name) < bound
                &&& all_rank_below(args, defs, rank, bound)
            },
        }
    }
}

/// Whether every macro of a table that is used in a list of symbols has a rank below a bound.
pub open spec fn all_rank_below(
    symbols: Seq<SymbolView>,
    defs: MacroTable,
    rank: spec_fn(Seq<char>) -> nat,
    bound: nat,
) -> bool
    decreases symbols,
{
    forall|i: int|
        0 <= i < symbols.len() ==> (#[trigger] symbols[i]).kind.ranks_below(defs, rank, bound)
}

impl NonterminalView {
    /// Whether every macro of a table that is used in this nonterminal has a rank below a
    /// bound.
    pub open spec fn ranks_below(
        self,
        defs: MacroTable,
        rank: spec_fn(Seq<char>) -> nat,
        bound: nat,
    ) -> bool {
        forall|i: int|
            0 <= i < self.alternatives.len() ==> all_rank_below(
                (#[trigger] self.alternatives[i]).expr,
                defs,
                rank,
                bound,
            )
    }
}

impl ItemView {
    /// Whether every macro of a table that is used in this item has a rank below a bound.
    pub open spec fn ranks_below(
        self,
        defs: MacroTable,
        rank: spec_fn(Seq<char>) -> nat,
        bound: nat,
    ) -> bool {
        self matches ItemView::Nonterminal(data) ==> data.ranks_below(defs, rank, bound)
    }
}

/// Whether each macro of a table uses macros of lower rank only.
pub open spec fn descends(defs: MacroTable, rank: spec_fn(Seq<char>) -> nat) -> bool {
    forall|name: Seq<char>|
        defs.contains_key(name) ==> (#[trigger] defs[name]).ranks_below(defs, rank, rank(name))
}

/// What a rank is below stays below a greater bound.
proof fn greater_bound(
    kind: KindView,
    defs: MacroTable,
    rank: spec_fn(Seq<char>) -> nat,
    low: nat,
    high: nat,
)
    requires
        low <= high,
        kind.ranks_below(defs, rank, low),
    ensures
        kind.ranks_below(defs, rank, high),
    decreases kind,
{
    match kind {
        KindView::Terminal(_) | KindView::Nonterminal(_) => {},
        KindView::Choose(symbol) => greater_bound(symbol.kind, defs, rank, low, high),
        KindView::Name(_, symbol) => greater_bound(symbol.kind, defs, rank, low, high),
        KindView::Repeat(_, symbol) => greater_bound(symbol.kind, defs, rank, low, high),
        KindView::Expr(symbols) => {
            assert(all_rank_below(symbols, defs, rank, low));
            assert forall|i: int| 0 <= i < symbols.len() implies (
            #[trigger] symbols[i]).kind.ranks_below(defs, rank, high) by {
                greater_bound(symbols[i].kind, defs, rank, low, high);
            }
            assert(all_rank_below(symbols, defs, rank, high));
        },
        KindView::Macro(_, args) => {
            assert(all_rank_below(args, defs, rank, low));
            assert forall|i: int| 0 <= i < args.len() implies (
            #[trigger] args[i]).kind.ranks_below(defs, rank, high) by {
                greater_bound(args[i].kind, defs, rank, low, high);
            }
            assert(all_rank_below(args, defs, rank, high));
        },
    }
}

/// A flat symbol uses no macros.
proof fn flat_ranks_below(
    kind: KindView,
    defs: MacroTable,
    rank: spec_fn(Seq<char>) -> nat,
    bound: nat,
)
    requires
        kind.is_flat(),
    ensures
        kind.ranks_below(defs, rank, bound),
    decreases kind,
{
    match kind {
        KindView::Choose(symbol) => flat_ranks_below(symbol.kind, defs, rank, bound),
        KindView::Name(_, symbol) => flat_ranks_below(symbol.kind, defs, rank, bound),
        _ => {},
    }
}

/// Putting flat symbols in place of parameters brings in no macros.
proof fn substitution_keeps_ranks(
    symbol: SymbolView,
    args: Bindings,
    defs: MacroTable,
    rank: spec_fn(Seq<char>) -> nat,
    bound: nat,
)
    requires
        symbol.kind.ranks_below(defs, rank, bound),
        forall|name: Seq<char>| args.contains_key(name) ==> (#[trigger] args[name]).is_flat(),
    ensures
        symbol.substituted(args).kind.ranks_below(defs, rank, bound),
    decreases symbol,
{
    match symbol.kind {
        KindView::Terminal(_) => {},
        KindView::Nonterminal(name) => {
            if args.contains_key(name) {
                flat_ranks_below(args[name], defs, rank, bound);
            }
        },
        KindView::Choose(inner) => substitution_keeps_ranks(*inner, args, defs, rank, bound),
        KindView::Name(_, inner) => substitution_keeps_ranks(*inner, args, defs, rank, bound),
        KindView::Repeat(_, inner) => substitution_keeps_ranks(*inner, args, defs, rank, bound),
        KindView::Expr(symbols) => {
            assert(all_rank_below(symbols, defs, rank, bound));
            let new = all_substituted(symbols, args);
            assert forall|i: int| 0 <= i < new.len() implies (
            #[trigger] new[i]).kind.ranks_below(defs, rank, bound) by {
                substitution_keeps_ranks(symbols[i], args, defs, rank, bound);
            }
            assert(all_rank_below(new, defs, rank, bound));
        },
        KindView::Macro(_, symbols) => {
            assert(all_rank_below(symbols, defs, rank, bound));
            let new = all_substituted(symbols, args);
            assert forall|i: int| 0 <= i < new.len() implies (
            #[trigger] new[i]).kind.ranks_below(defs, rank, bound) by {
                substitution_keeps_ranks(symbols[i], args, defs, rank, bound);
            }
            assert(all_rank_below(new, defs, rank, bound));
        },
    }
}

/// What parameters are bound to are the kinds of the arguments.
pub(crate) proof fn bound_to_arguments(
    params: Seq<Seq<char>>,
    args: Seq<SymbolView>,
    name: Seq<char>,
)
    requires
        params.len() <= args.len(),
        bind(params, args).contains_key(name),
    ensures
        exists|i: int| 0 <= i < args.len() && bind(params, args)[name] == (#[trigger] args[i]).kind,
    decreases params.len(),
{
    if params.len() > 0 {
        if params.last() == name {
            assert(bind(params, args)[name] == args[params.len() - 1].kind);
        } else {
            bound_to_arguments(params.drop_last(), args, name);
        }
    }
}

/// What a symbol uses is ready, and has the ranks of the symbol.
proof fn uses_are_ready(
    symbol: SymbolView,
    defs: MacroTable,
    rank: spec_fn(Seq<char>) -> nat,
    bound: nat,
)
    requires
        symbol.kind.ranks_below(defs, rank, bound),
    ensures
        all_ready(symbol.uses(), defs, rank, bound),
    decreases symbol,
{
    match symbol.kind {
        KindView::Terminal(_) | KindView::Nonterminal(_) => {},
        KindView::Choose(inner) => uses_are_ready(*inner, defs, rank, bound),
        KindView::Name(_, inner) => uses_are_ready(*inner, defs, rank, bound),
        KindView::Repeat(_, inner) => {
            uses_are_ready(*inner, defs, rank, bound);
            folding_flattens(*inner);
            flat_ranks_below(inner.folded().kind, defs, rank, bound);
        },
        KindView::Expr(symbols) => {
            all_uses_are_ready(symbols, defs, rank, bound);
            folded_lists_are_flat(symbols, defs, rank, bound);
        },
        KindView::Macro(_, args) => {
            all_uses_are_ready(args, defs, rank, bound);
            folded_lists_are_flat(args, defs, rank, bound);
        },
    }
}

/// Whether all symbols of a list are ready and use macros of ranks below a bound only.
spec fn all_ready(
    symbols: Seq<SymbolView>,
    defs: MacroTable,
    rank: spec_fn(Seq<char>) -> nat,
    bound: nat,
) -> bool {
    forall|i: int|
        0 <= i < symbols.len() ==> is_ready(#[trigger] symbols[i]) && symbols[i].kind.ranks_below(
            defs,
            rank,
            bound,
        )
}

proof fn folded_lists_are_flat(
    symbols: Seq<SymbolView>,
    defs: MacroTable,
    rank: spec_fn(Seq<char>) -> nat,
    bound: nat,
)
    ensures
        all_flat(all_folded(symbols)),
        all_rank_below(all_folded(symbols), defs, rank, bound),
{
    let folded = all_folded(symbols);
    assert forall|i: int| 0 <= i < folded.len() implies (#[trigger] folded[i]).is_flat()
        && folded[i].kind.ranks_below(defs, rank, bound) by {
        folding_flattens(symbols[i]);
        flat_ranks_below(folded[i].kind, defs, rank, bound);
    }
}

proof fn all_uses_are_ready(
    symbols: Seq<SymbolView>,
    defs: MacroTable,
    rank: spec_fn(Seq<char>) -> nat,
    bound: nat,
)
    requires
        all_rank_below(symbols, defs, rank, bound),
    ensures
        all_ready(all_uses(symbols), defs, rank, bound),
    decreases symbols,
{
    if symbols.len() > 0 {
        let before = symbols.drop_last();
        assert forall|i: int| 0 <= i < before.len() implies (
        #[trigger] before[i]).kind.ranks_below(defs, rank, bound) by {
            assert(before[i] == symbols[i]);
        }
        all_uses_are_ready(before, defs, rank, bound);
        uses_are_ready(symbols[symbols.len() - 1], defs, rank, bound);
    }
}

proof fn alternatives_uses_are_ready(
    alternatives: Seq<AlternativeView>,
    defs: MacroTable,
    rank: spec_fn(Seq<char>) -> nat,
    bound: nat,
)
    requires
        forall|i: int|
            0 <= i < alternatives.len() ==> all_rank_below(
                (#[trigger] alternatives[i]).expr,
                defs,
                rank,
                bound,
            ),
    ensures
        all_ready(alternatives_uses(alternatives), defs, rank, bound),
    decreases alternatives.len(),
{
    if alternatives.len() > 0 {
        let before = alternatives.drop_last();
        assert forall|i: int| 0 <= i < before.len() implies all_rank_below(
            (#[trigger] before[i]).expr,
            defs,
            rank,
            bound,
        ) by {
            assert(before[i] == alternatives[i]);
        }
        alternatives_uses_are_ready(before, defs, rank, bound);
        assert(alternatives.last() == alternatives[alternatives.len() - 1]);
        all_uses_are_ready(alternatives.last().expr, defs, rank, bound);
    }
}

proof fn items_uses_are_ready(
    items: Seq<ItemView>,
    defs: MacroTable,
    rank: spec_fn(Seq<char>) -> nat,
    bound: nat,
)
    requires
        forall|i: int|
            0 <= i < items.len() ==> (#[trigger] items[i]).ranks_below(defs, rank, bound),
    ensures
        all_ready(items_uses(items), defs, rank, bound),
    decreases items.len(),
{
    if items.len() > 0 {
        let before = items.drop_last();
        assert forall|i: int| 0 <= i < before.len() implies (#[trigger] before[i]).ranks_below(
            defs,
            rank,
            bound,
        ) by {
            assert(before[i] == items[i]);
        }
        items_uses_are_ready(before, defs, rank, bound);
        assert(items.last() == items[items.len() - 1]);
        if let ItemView::Nonterminal(data) = items.last() {
            alternatives_uses_are_ready(data.alternatives, defs, rank, bound);
        }
    }
}

/// A queue of ready symbols stays one.
proof fn queues_stay_ready(
    queue: Queue,
    symbols: Seq<SymbolView>,
    defs: MacroTable,
    rank: spec_fn(Seq<char>) -> nat,
    bound: nat,
)
    requires
        all_ready(queue.stack, defs, rank, bound),
        all_ready(symbols, defs, rank, bound),
    ensures
        all_ready(queue.offer_all(symbols).stack, defs, rank, bound),
    decreases symbols.len(),
{
    if symbols.len() > 0 {
        assert forall|i: int| 0 <= i < symbols.drop_last().len() implies is_ready(
            #[trigger] symbols.drop_last()[i],
        ) && symbols.drop_last()[i].kind.ranks_below(defs, rank, bound) by {
            assert(symbols.drop_last()[i] == symbols[i]);
        }
        queues_stay_ready(queue, symbols.drop_last(), defs, rank, bound);
        assert(symbols.last() == symbols[symbols.len() - 1]);
    }
}

/// How many more rounds an item can cause: none if it is flat, else as many as the ranks of
/// the macros that it uses allow.
spec fn is_at_level(
    item: ItemView,
    defs: MacroTable,
    rank: spec_fn(Seq<char>) -> nat,
    level: nat,
) -> bool {
    if level == 0 {
        item.is_flat()
    } else {
        item.ranks_below(defs, rank, (level - 1) as nat)
    }
}

/// A flat item is at every level.
proof fn flat_is_at_level(
    item: ItemView,
    defs: MacroTable,
    rank: spec_fn(Seq<char>) -> nat,
    level: nat,
)
    requires
        item.is_flat(),
    ensures
        is_at_level(item, defs, rank, level),
{
    if level > 0 {
        if let ItemView::Nonterminal(data) = item {
            assert forall|i: int| 0 <= i < data.alternatives.len() implies all_rank_below(
                (#[trigger] data.alternatives[i]).expr,
                defs,
                rank,
                (level - 1) as nat,
            ) by {
                let expr = data.alternatives[i].expr;
                assert forall|j: int| 0 <= j < expr.len() implies (
                #[trigger] expr[j]).kind.ranks_below(defs, rank, (level - 1) as nat) by {
                    assert(data.alternatives[i].expr[j].is_flat());
                    flat_ranks_below(expr[j].kind, defs, rank, (level - 1) as nat);
                }
            }
        }
    }
}

/// Each alternative of an expansion is an instance of one of the macro's.
pub(crate) proof fn instances_have_origins(
    args: Bindings,
    span: Span,
    alternatives: Seq<AlternativeView>,
    k: int,
)
    requires
        instances(args, span, alternatives) matches Some(Ok(_)),
        0 <= k < instances(args, span, alternatives)->0->Ok_0.len(),
    ensures
        exists|i: int|
            0 <= i < alternatives.len() && instances(args, span, alternatives)->0->Ok_0[k]
                == instance(args, span, #[trigger] alternatives[i]),
    decreases alternatives.len(),
{
    if alternatives.len() > 0 {
        let before = alternatives.drop_last();
        let kept = instances(args, span, before)->0->Ok_0;
        if k < kept.len() {
            instances_have_origins(args, span, before, k);
            let i = choose|i: int|
                0 <= i < before.len() && kept[k] == instance(args, span, #[trigger] before[i]);
            assert(alternatives[i] == before[i]);
        } else {
            assert(alternatives.last() == alternatives[alternatives.len() - 1]);
        }
    }
}

/// Expanding a ready symbol leads one level down.
proof fn expansion_descends(
    symbol: SymbolView,
    defs: MacroTable,
    rank: spec_fn(Seq<char>) -> nat,
    level: nat,
)
    requires
        descends(defs, rank),
        is_ready(symbol),
        symbol.kind.ranks_below(defs, rank, level),
        expansion(defs, symbol) matches Some(Ok(_)),
    ensures
        is_at_level(expansion(defs, symbol)->0->Ok_0, defs, rank, level),
{
    let item = expansion(defs, symbol)->0->Ok_0;
    match symbol.kind {
        KindView::Macro(name, args) => {
            let def = defs[name];
            let bound = bind(def.args, args);
            let lower = (level - 1) as nat;
            assert(def.ranks_below(defs, rank, rank(name)));
            assert forall|param: Seq<char>| bound.contains_key(param) implies (
            #[trigger] bound[param]).is_flat() by {
                bound_to_arguments(def.args, args, param);
                let i = choose|i: int|
                    0 <= i < args.len() && bound[param] == (#[trigger] args[i]).kind;
                assert(args[i].is_flat());
            }
            let alternatives = instances(bound, symbol.span, def.alternatives)->0->Ok_0;
            assert forall|k: int| 0 <= k < alternatives.len() implies all_rank_below(
                (#[trigger] alternatives[k]).expr,
                defs,
                rank,
                lower,
            ) by {
                instances_have_origins(bound, symbol.span, def.alternatives, k);
                let i = choose|i: int|
                    0 <= i < def.alternatives.len() && alternatives[k] == instance(
                        bound,
                        symbol.span,
                        #[trigger] def.alternatives[i],
                    );
                let body = def.alternatives[i].expr;
                let expr = alternatives[k].expr;
                assert(all_rank_below(body, defs, rank, rank(name)));
                assert forall|j: int| 0 <= j < expr.len() implies (
                #[trigger] expr[j]).kind.ranks_below(defs, rank, lower) by {
                    assert(body[j].kind.ranks_below(defs, rank, rank(name)));
                    substitution_keeps_ranks(body[j], bound, defs, rank, rank(name));
                    greater_bound(expr[j].kind, defs, rank, rank(name), lower);
                }
            }
        },
        KindView::Expr(symbols) => {
            assert(all_flat(symbols));
            flat_is_at_level(item, defs, rank, level);
        },
        KindView::Repeat(op, inner) => {
            reveal_with_fuel(KindView::is_flat, 3);
            let data = item->Nonterminal_0;
            assert forall|i: int, j: int|
                0 <= i < data.alternatives.len() && 0 <= j < data.alternatives[i].expr.len()
                implies (#[trigger] data.alternatives[i].expr[j]).is_flat() by {
                assert(i == 0 || i == 1);
                assert(j == 0 || j == 1);
            }
            flat_is_at_level(item, defs, rank, level);
        },
        _ => {},
    }
}

/// Emptying a stack of ready symbols gives an answer, and what it adds is one level down.
proof fn draining_descends(
    stage: Stage,
    defs: MacroTable,
    rank: spec_fn(Seq<char>) -> nat,
    level: nat,
)
    requires
        all_conditions_bound(defs),
        descends(defs, rank),
        all_ready(stage.queue.stack, defs, rank, level),
    ensures
        !(stage.drained(defs) is Stuck),
        stage.drained(defs) matches Progress::More(next) ==> forall|i: int|
            stage.items.len() <= i < next.items.len() ==> is_at_level(
                #[trigger] next.items[i],
                defs,
                rank,
                level,
            ),
    decreases stage.queue.stack.len(),
{
    let stack = stage.queue.stack;
    if stack.len() > 0 {
        assert(stack.last() == stack[stack.len() - 1]);
        compound_symbols_have_answers(defs, stack.last());
        if let Some(Ok(item)) = expansion(defs, stack.last()) {
            let popped = Queue { stack: stack.drop_last(), ..stage.queue };
            let next = Stage { items: stage.items.push(item), queue: popped, ..stage };
            expansion_descends(stack.last(), defs, rank, level);
            assert forall|i: int| 0 <= i < popped.stack.len() implies is_ready(
                #[trigger] popped.stack[i],
            ) && popped.stack[i].kind.ranks_below(defs, rank, level) by {
                assert(popped.stack[i] == stack[i]);
            }
            draining_descends(next, defs, rank, level);
            draining_adds_items(next, defs);
            if let Progress::More(end) = next.drained(defs) {
                assert forall|i: int|
                    stage.items.len() <= i < end.items.len() implies is_at_level(
                    #[trigger] end.items[i],
                    defs,
                    rank,
                    level,
                ) by {
                    if i == stage.items.len() {
                        assert(end.items.take(next.items.len() as int)[i] == next.items[i]);
                    }
                }
            }
        }
    }
}

/// An expansion whose fresh items are at some level comes to an end in as many rounds, and
/// one more.
proof fn levels_bound_rounds(
    stage: Stage,
    defs: MacroTable,
    rank: spec_fn(Seq<char>) -> nat,
    level: nat,
)
    requires
        all_conditions_bound(defs),
        descends(defs, rank),
        stage.counter <= stage.items.len(),
        stage.queue.stack.len() == 0,
        forall|i: int|
            stage.counter <= i < stage.items.len() ==> is_at_level(
                #[trigger] stage.items[i],
                defs,
                rank,
                level,
            ),
    ensures
        stage.run(defs, level + 1).is_end(),
    decreases level,
{
    let fresh = stage.items.skip(stage.counter as int);
    let folded = stage.folded();
    if level == 0 {
        assert forall|i: int| 0 <= i < fresh.len() implies (#[trigger] fresh[i]).is_flat() by {
            assert(is_at_level(stage.items[stage.counter + i], defs, rank, level));
        }
        flat_items_use_nothing(fresh);
    } else {
        let lower = (level - 1) as nat;
        assert forall|i: int| 0 <= i < fresh.len() implies (#[trigger] fresh[i]).ranks_below(
            defs,
            rank,
            lower,
        ) by {
            assert(is_at_level(stage.items[stage.counter + i], defs, rank, level));
        }
        items_uses_are_ready(fresh, defs, rank, lower);
        queues_stay_ready(stage.queue, items_uses(fresh), defs, rank, lower);
        draining_descends(folded, defs, rank, lower);
        draining_adds_items(folded, defs);
        if folded.queue.stack.len() > 0 {
            if let Progress::More(next) = folded.drained(defs) {
                levels_bound_rounds(next, defs, rank, lower);
            }
        }
    }
}

/// The macros of a grammar whose conditions are all on parameters are a table of such macros.
pub proof fn tables_of_bound_conditions(items: Seq<ItemView>)
    requires
        conditions_bound(items),
    ensures
        all_conditions_bound(macro_table(items)),
    decreases items.len(),
{
    if items.len() > 0 {
        let before = items.drop_last();
        assert forall|i: int|
            0 <= i < before.len() && (#[trigger] before[i]).is_macro_def() implies
            before[i]->Nonterminal_0.conditions_bound() by {
            assert(before[i] == items[i]);
        }
        tables_of_bound_conditions(before);
        assert(items.last() == items[items.len() - 1]);
        assert forall|name: Seq<char>| macro_table(items).contains_key(name) implies (
        #[trigger] macro_table(items)[name]).conditions_bound() by {
            if macro_table(before).contains_key(name) {
                assert(macro_table(before)[name].conditions_bound());
            }
        }
    }
}

/// A grammar expands, or is found in error, in a bounded number of rounds, if its conditions
/// are all on parameters and its macros can be ranked such that each uses macros of lower
/// rank only: in two rounds more than the bound on the ranks of those that the other items
/// use.
pub proof fn ranked_macros_end(items: Seq<ItemView>, rank: spec_fn(Seq<char>) -> nat, bound: nat)
    requires
        conditions_bound(items),
        descends(macro_table(items), rank),
        forall|i: int|
            0 <= i < plain_items(items).len() ==> (#[trigger] plain_items(items)[i]).ranks_below(
                macro_table(items),
                rank,
                bound,
            ),
    ensures
        expansion_after(items, bound + 2).is_end(),
        expansion_ends(items),
        expansion_end(items) == expansion_after(items, bound + 2),
{
    tables_of_bound_conditions(items);
    levels_bound_rounds(first_stage(items), macro_table(items), rank, bound + 1);
    outcome_is_unique(first_stage(items), macro_table(items), bound + 2);
}

/// Without macros in a table, no bound on ranks asks anything.
proof fn no_macros_rank_below(kind: KindView, rank: spec_fn(Seq<char>) -> nat)
    ensures
        kind.ranks_below(MacroTable::empty(), rank, 0),
    decreases kind,
{
    match kind {
        KindView::Terminal(_) | KindView::Nonterminal(_) => {},
        KindView::Choose(symbol) => no_macros_rank_below(symbol.kind, rank),
        KindView::Name(_, symbol) => no_macros_rank_below(symbol.kind, rank),
        KindView::Repeat(_, symbol) => no_macros_rank_below(symbol.kind, rank),
        KindView::Expr(symbols) => {
            assert forall|i: int| 0 <= i < symbols.len() implies (
            #[trigger] symbols[i]).kind.ranks_below(MacroTable::empty(), rank, 0) by {
                no_macros_rank_below(symbols[i].kind, rank);
            }
            assert(all_rank_below(symbols, MacroTable::empty(), rank, 0));
        },
        KindView::Macro(_, args) => {
            assert forall|i: int| 0 <= i < args.len() implies (
            #[trigger] args[i]).kind.ranks_below(MacroTable::empty(), rank, 0) by {
                no_macros_rank_below(args[i].kind, rank);
            }
            assert(all_rank_below(args, MacroTable::empty(), rank, 0));
        },
    }
}

/// A grammar that defines no macros expands, or is found in error, in two rounds.
pub proof fn without_macros_two_rounds_are_enough(items: Seq<ItemView>)
    requires
        forall|i: int| 0 <= i < items.len() ==> !(#[trigger] items[i]).is_macro_def(),
    ensures
        expansion_after(items, 2).is_end(),
        expansion_ends(items),
        expansion_end(items) == expansion_after(items, 2),
{
    let rank = |name: Seq<char>| 0nat;
    plain_already(items);
    assert forall|i: int| 0 <= i < items.len() implies (#[trigger] items[i]).ranks_below(
        MacroTable::empty(),
        rank,
        0,
    ) by {
        if let ItemView::Nonterminal(data) = items[i] {
            assert forall|k: int| 0 <= k < data.alternatives.len() implies all_rank_below(
                (#[trigger] data.alternatives[k]).expr,
                MacroTable::empty(),
                rank,
                0,
            ) by {
                let expr = data.alternatives[k].expr;
                assert forall|j: int| 0 <= j < expr.len() implies (
                #[trigger] expr[j]).kind.ranks_below(MacroTable::empty(), rank, 0) by {
                    no_macros_rank_below(expr[j].kind, rank);
                }
            }
        }
    }
    ranked_macros_end(items, rank, 0);
}

} // verus!
