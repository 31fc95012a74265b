//! The expander: expansion as a program.
use std::mem::swap;
use vstd::hash_map::StringHashMap;
use vstd::hash_set::StringHashSet;
use vstd::pervasive::unreached;
use vstd::prelude::*;
use vstd::string::StringExecFns;

use crate::error::{item_result_view, verdict_view, ErrorView, NormError, NormResult};
use crate::expansion::{
    auxiliary, condition_verdict, expansion, expansions_are_plain, expr_expansion, extend_rule,
    first_failure_decides, instance, instances, macro_expansion, pattern_verdict,
    repeat_expansion, rule, std_type, tuple_of, MacroTable,
};
use crate::fold::{
    all_folded, all_uses, alternatives_uses, folding_parts_keeps_text, items_uses,
    offer_all_in_parts, Queue,
};
use crate::norm_util::{analyze_expr, anon_view, named_view, Symbols};
use crate::parse_tree::{
    alternatives_view, clone_texts, condition_view, items_view, names_view, symbols_view,
    texts_view, types_view, Alternative, AlternativeView, Condition, ConditionOp, ExprSymbol,
    GrammarItem, KindView, MacroSymbol, NonterminalData, NonterminalString, RepeatOp,
    RepeatSymbol, Span, Symbol, SymbolKind, SymbolView, TypeRef, TypeView,
};
use crate::pattern::search;
use crate::stage::{Progress, Stage};
use crate::subst::{all_substituted, all_types_substituted, bind, bindings_view};
use crate::termination::bound_macros_have_answers;

verus! {

/// The state of an expansion, apart from the items.
pub struct MacroExpander {
    /// The macros, by name.
    pub macro_defs: StringHashMap<NonterminalData>,
    /// The canonical forms of all symbols that were ever put on the stack.
    pub expansion_set: StringHashSet,
    /// The symbols that wait for expansion.
    pub expansion_stack: Vec<Symbol>,
}

impl MacroExpander {
    /// The macros that uses are expanded with.
    pub open spec fn defs(&self) -> MacroTable {
        self.macro_defs@.map_values(|def: NonterminalData| def.view())
    }

    /// What waits for expansion, and what ever did.
    pub open spec fn queue(&self) -> Queue {
        Queue { seen: self.expansion_set@, stack: symbols_view(self.expansion_stack@) }
    }

    /// An expander with no work yet.
    pub fn new(macro_defs: StringHashMap<NonterminalData>) -> (expander: MacroExpander)
        ensures
            expander.macro_defs == macro_defs,
            expander.queue() == (Queue { seen: Set::empty(), stack: Seq::empty() }),
    {
        let expander = MacroExpander {
            macro_defs,
            expansion_stack: Vec::new(),
            expansion_set: StringHashSet::new(),
        };
        assert(expander.queue().stack =~= Seq::empty());
        expander
    }

    /// The stage that this expander and a list of items make up.
    pub open spec fn stage(&self, items: Seq<GrammarItem>, counter: nat) -> Stage {
        Stage { items: items_view(items), counter, queue: self.queue() }
    }

    /// Expands all uses in a list of items, and all uses in what that adds, until there are
    /// none left or one of them has no expansion.
    pub fn expand(&mut self, items: &mut Vec<GrammarItem>) -> (result: NormResult<()>)
        requires
            forall|i: int|
                0 <= i < old(items).len() ==> !(#[trigger] old(items)[i]@.is_macro_def()),
            old(self).stage(old(items)@, 0).halts(old(self).defs()),
        ensures
            final(self).macro_defs == old(self).macro_defs,
            match old(self).stage(old(items)@, 0).outcome(old(self).defs()) {
                Progress::Done(stage) => result is Ok && stage == final(self).stage(
                    final(items)@,
                    stage.counter,
                ),
                Progress::Failed(stage, error) => result matches Err(e) && e@ == error && stage
                    == final(self).stage(final(items)@, stage.counter),
                _ => false,
            },
    {
        let ghost defs = self.defs();
        let ghost start = self.stage(items@, 0);
        let ghost mut left: nat = choose|rounds: nat| (#[trigger] start.run(defs, rounds)).is_end();
        let mut counter: usize = 0;
        loop
            invariant
                counter <= items.len(),
                defs == old(self).defs(),
                self.macro_defs == old(self).macro_defs,
                start == old(self).stage(old(items)@, 0),
                forall|i: int| 0 <= i < items.len() ==> !(#[trigger] items[i]@.is_macro_def()),
                start.outcome(defs).is_end(),
                self.stage(items@, counter as nat).run(defs, left) == start.outcome(defs),
            decreases left,
        {
            let folded = items.len();
            match self.expand_round(items, counter) {
                Some(Ok(true)) => {
                    return Ok(());
                },
                Some(Ok(false)) => {
                    counter = folded;
                },
                Some(Err(error)) => {
                    return Err(error);
                },
                None => unreached(),
            }
            proof {
                left = (left - 1) as nat;
            }
        }
    }

    /// Does at most a number of rounds, and says whether everything is expanded then. There is
    /// no answer where there is none for a symbol that comes up.
    pub fn expand_within(&mut self, items: &mut Vec<GrammarItem>, rounds: usize) -> (result: Option<
        NormResult<bool>,
    >)
        requires
            forall|i: int|
                0 <= i < old(items).len() ==> !(#[trigger] old(items)[i]@.is_macro_def()),
        ensures
            final(self).macro_defs == old(self).macro_defs,
            match old(self).stage(old(items)@, 0).run(old(self).defs(), rounds as nat) {
                Progress::Done(stage) => result matches Some(Ok(true))
                    && stage == final(self).stage(final(items)@, stage.counter),
                Progress::More(stage) => result matches Some(Ok(false))
                    && stage == final(self).stage(final(items)@, stage.counter),
                Progress::Failed(stage, error) => result matches Some(Err(e)) && e@ == error
                    && stage == final(self).stage(final(items)@, stage.counter),
                Progress::Stuck => result is None,
            },
    {
        let ghost defs = self.defs();
        let ghost end = self.stage(items@, 0).run(defs, rounds as nat);
        let mut counter: usize = 0;
        for i in 0..rounds
            invariant
                counter <= items.len(),
                defs == old(self).defs(),
                self.macro_defs == old(self).macro_defs,
                end == old(self).stage(old(items)@, 0).run(defs, rounds as nat),
                forall|j: int| 0 <= j < items.len() ==> !(#[trigger] items[j]@.is_macro_def()),
                self.stage(items@, counter as nat).run(defs, (rounds - i) as nat) == end,
        {
            let folded = items.len();
            match self.expand_round(items, counter) {
                Some(Ok(false)) => {
                    counter = folded;
                },
                end => {
                    return end;
                },
            }
        }
        Some(Ok(false))
    }

    /// Does one round: folds the items from `counter` on, then expands what is on the stack.
    /// Whether everything is expanded. There is no answer where there is none for a symbol on
    /// the stack.
    pub fn expand_round(&mut self, items: &mut Vec<GrammarItem>, counter: usize) -> (result: Option<
        NormResult<bool>,
    >)
        requires
            counter <= old(items).len(),
            forall|i: int|
                0 <= i < old(items).len() ==> !(#[trigger] old(items)[i]@.is_macro_def()),
        ensures
            final(self).macro_defs == old(self).macro_defs,
            old(items).len() <= final(items).len(),
            forall|i: int|
                0 <= i < final(items).len() ==> !(#[trigger] final(items)[i]@.is_macro_def()),
            ({
                let before = old(self).stage(old(items)@, counter as nat);
                let after = final(self).stage(final(items)@, old(items).len() as nat);
                before.round(old(self).defs()) == match result {
                    Some(Ok(true)) => Progress::Done(after),
                    Some(Ok(false)) => Progress::More(after),
                    Some(Err(error)) => Progress::Failed(after, error@),
                    None => Progress::Stuck,
                }
            }),
    {
        let ghost defs = self.defs();
        let ghost before = items@;
        let ghost all = items_view(items@);
        let ghost start = self.stage(items@, counter as nat);
        let ghost fresh = all.skip(counter as int);
        let count = items.len();

        // Fold the items that were added since the last round.
        assert(fresh.take(0) =~= Seq::empty());
        for i in counter..count
            invariant
                counter <= count == before.len(),
                before == old(items)@,
                all == items_view(before),
                fresh == all.skip(counter as int),
                start == old(self).stage(before, counter as nat),
                items.len() == count,
                self.macro_defs == old(self).macro_defs,
                forall|j: int| 0 <= j < before.len() ==> !(#[trigger] before[j]@.is_macro_def()),
                self.queue() == start.queue.offer_all(items_uses(fresh.take(i - counter))),
                forall|j: int| 0 <= j < counter ==> items[j] == before[j],
                forall|j: int| counter <= j < i ==> items[j]@ == before[j]@.folded(),
                forall|j: int| i <= j < count ==> items[j] == before[j],
        {
            self.replace_item(&mut items[i]);
            proof {
                let next = fresh.take(i + 1 - counter);
                assert(next.drop_last() =~= fresh.take(i - counter));
                assert(next.last() == before[i as int]@);
                offer_all_in_parts(
                    start.queue,
                    items_uses(fresh.take(i - counter)),
                    before[i as int]@.uses(),
                );
            }
        }
        let ghost folded = start.folded();
        proof {
            assert(fresh.take(count - counter) =~= fresh);
            assert(items_view(items@) =~= folded.items);
            assert(self.stage(items@, count as nat) =~= folded);
            assert forall|i: int| 0 <= i < items.len() implies !(
            #[trigger] items[i]@.is_macro_def()) by {
                assert(!before[i]@.is_macro_def());
            }
        }

        // No more expansion to do.
        if self.expansion_stack.len() == 0 {
            return Some(Ok(true));
        }

        // Empty the stack.
        while self.expansion_stack.len() > 0
            invariant
                count == before.len(),
                before == old(items)@,
                count <= items.len(),
                defs == old(self).defs(),
                self.macro_defs == old(self).macro_defs,
                forall|i: int| 0 <= i < items.len() ==> !(#[trigger] items[i]@.is_macro_def()),
                folded.drained(defs) == old(self).stage(before, counter as nat).round(defs),
                self.stage(items@, count as nat).drained(defs) == folded.drained(defs),
            decreases self.expansion_stack.len(),
        {
            let ghost stage = self.stage(items@, count as nat);
            let ghost items_before = items@;
            let sym = self.expansion_stack.pop().unwrap();
            proof {
                assert(stage.queue.stack.last() == sym@);
                assert(self.queue() =~= (Queue {
                    stack: stage.queue.stack.drop_last(),
                    ..stage.queue
                }));
            }
            if !self.has_answer(&sym) {
                return None;
            }
            match self.expand_symbol(sym) {
                Ok(item) => {
                    items.push(item);
                    proof {
                        expansions_are_plain(defs, sym@);
                        assert(items_view(items@) =~= items_view(items_before).push(item@));
                    }
                },
                Err(error) => {
                    return Some(Err(error));
                },
            }
        }
        Some(Ok(false))
    }

    /// Whether there is an expansion or an error for a symbol. There is neither for a symbol
    /// that is not compound, nor where the condition of a macro cannot be tested.
    pub fn has_answer(&self, sym: &Symbol) -> (yes: bool)
        ensures
            yes == (expansion(self.defs(), sym@) is Some),
    {
        match &sym.kind {
            SymbolKind::Macro(msym) => self.has_macro_answer(sym.span, msym),
            SymbolKind::Expr(_) | SymbolKind::Repeat(_) => true,
            _ => false,
        }
    }

    /// Whether there is an expansion or an error for a use of a macro: whether its conditions
    /// can be tested, up to the first that has an error.
    fn has_macro_answer(&self, span: Span, msym: &MacroSymbol) -> (yes: bool)
        ensures
            yes == (macro_expansion(
                self.defs(),
                span,
                msym.name.0@,
                symbols_view(msym.args@),
            ) is Some),
    {
        let mdef = match self.macro_defs.get(msym.name.0.as_str()) {
            Some(v) => v,
            None => {
                return true;
            },
        };
        assert(self.defs()[msym.name.0@] == mdef@);
        if mdef.args.len() != msym.args.len() {
            return true;
        }
        if mdef.conditions_are_bound() {
            proof {
                bound_macros_have_answers(mdef@, symbols_view(msym.args@), span);
            }
            return true;
        }
        let args = bind_arguments(mdef, &msym.args);
        let ghost bound = bindings_view(args@);
        let ghost all = mdef@.alternatives;
        for i in 0..mdef.alternatives.len()
            invariant
                all == mdef@.alternatives,
                bound == bindings_view(args@),
                self.defs().contains_key(msym.name.0@),
                self.defs()[msym.name.0@] == mdef@,
                mdef@.args.len() == msym.args.len(),
                bound == bind(mdef@.args, symbols_view(msym.args@)),
                instances(bound, span, all.take(i as int)) matches Some(Ok(_)),
        {
            let alternative = &mdef.alternatives[i];
            let ghost verdict = condition_verdict(bound, alternative@.condition);
            proof {
                let next = all.take(i + 1);
                assert(next.drop_last() =~= all.take(i as int));
                assert(next.last() == alternative@);
                if !(verdict matches Some(Ok(_))) {
                    first_failure_decides(bound, span, all, i + 1);
                }
            }
            if let Some(c) = &alternative.condition {
                if args.get(c.lhs.0.as_str()).is_none() {
                    return false;
                }
            }
            if self.evaluate_cond(&args, &alternative.condition).is_err() {
                return true;
            }
        }
        assert(all.take(all.len() as int) =~= all);
        true
    }

    /// The nonterminal that a compound symbol stands for.
    pub fn expand_symbol(&self, sym: Symbol) -> (item: NormResult<GrammarItem>)
        requires
            expansion(self.defs(), sym@) is Some,
        ensures
            expansion(self.defs(), sym@) == Some(item_result_view(item)),
    {
        match sym.kind {
            SymbolKind::Macro(msym) => self.expand_macro_symbol(sym.span, msym),
            SymbolKind::Expr(expr) => self.expand_expr_symbol(sym.span, expr),
            SymbolKind::Repeat(repeat) => self.expand_repeat_symbol(sym.span, *repeat),
            _ => unreached(),
        }
    }

    /// Folds an item and queues what it uses.
    pub fn replace_item(&mut self, item: &mut GrammarItem)
        requires
            !old(item)@.is_macro_def(),
        ensures
            final(item)@ == old(item)@.folded(),
            final(self).queue() == old(self).queue().offer_all(old(item)@.uses()),
            final(self).macro_defs == old(self).macro_defs,
    {
        match item {
            GrammarItem::TokenType(_) => {},
            GrammarItem::Use(_) => {},
            GrammarItem::Nonterminal(data) => {
                self.replace_alternatives(&mut data.alternatives);
            },
        }
    }

    /// Folds the alternatives of a nonterminal and queues what they use.
    fn replace_alternatives(&mut self, alternatives: &mut Vec<Alternative>)
        ensures
            alternatives_view(final(alternatives)@) == alternatives_view(
                old(alternatives)@,
            ).map_values(|a: AlternativeView| a.folded()),
            final(self).queue() == old(self).queue().offer_all(
                alternatives_uses(alternatives_view(old(alternatives)@)),
            ),
            final(self).macro_defs == old(self).macro_defs,
    {
        let ghost before = alternatives@;
        let ghost all = alternatives_view(before);
        let ghost start = self.queue();
        let count = alternatives.len();
        assert(all.take(0) =~= Seq::empty());
        for i in 0..count
            invariant
                count == before.len(),
                alternatives.len() == count,
                all == alternatives_view(before),
                start == old(self).queue(),
                self.macro_defs == old(self).macro_defs,
                self.queue() == start.offer_all(alternatives_uses(all.take(i as int))),
                forall|j: int| 0 <= j < i ==> alternatives[j]@ == before[j]@.folded(),
                forall|j: int| i <= j < count ==> alternatives[j] == before[j],
        {
            self.replace_symbols(&mut alternatives[i].expr.symbols);
            proof {
                let next = all.take(i + 1);
                assert(next.drop_last() =~= all.take(i as int));
                offer_all_in_parts(
                    start,
                    alternatives_uses(all.take(i as int)),
                    all_uses(before[i as int]@.expr),
                );
            }
        }
        assert(all.take(count as int) =~= all);
        assert(alternatives_view(alternatives@) =~= all.map_values(
            |a: AlternativeView| a.folded(),
        ));
    }

    /// Folds the symbols of a list and queues what they use.
    pub fn replace_symbols(&mut self, symbols: &mut Vec<Symbol>)
        ensures
            symbols_view(final(symbols)@) == all_folded(symbols_view(old(symbols)@)),
            final(self).queue() == old(self).queue().offer_all(
                all_uses(symbols_view(old(symbols)@)),
            ),
            final(self).macro_defs == old(self).macro_defs,
        decreases *old(symbols),
    {
        let ghost before = symbols@;
        let ghost all = symbols_view(symbols@);
        let ghost start = self.queue();
        let count = symbols.len();
        for i in 0..count
            invariant
                count == before.len(),
                before == old(symbols)@,
                all == symbols_view(before),
                symbols.len() == before.len(),
                start == old(self).queue(),
                self.macro_defs == old(self).macro_defs,
                self.queue() == start.offer_all(all_uses(all.take(i as int))),
                forall|j: int| 0 <= j < i ==> symbols[j]@ == before[j]@.folded(),
                forall|j: int| i <= j < before.len() ==> symbols[j] == before[j],
        {
            assert(decreases_to!(before => before[i as int]));
            self.replace_symbol(&mut symbols[i]);
            proof {
                let next = all.take(i + 1);
                assert(next.drop_last() =~= all.take(i as int));
                offer_all_in_parts(start, all_uses(all.take(i as int)), before[i as int]@.uses());
            }
        }
        assert(all.take(before.len() as int) =~= all);
        assert(symbols_view(symbols@) =~= all_folded(all));
    }

    /// Folds a symbol and queues what it uses.
    pub fn replace_symbol(&mut self, symbol: &mut Symbol)
        ensures
            final(symbol)@ == old(symbol)@.folded(),
            final(self).queue() == old(self).queue().offer_all(old(symbol)@.uses()),
            final(self).macro_defs == old(self).macro_defs,
        decreases *old(symbol),
    {
        let ghost whole = symbol@;
        let ghost start = self.queue();
        match &mut symbol.kind {
            SymbolKind::Macro(m) => {
                self.replace_symbols(&mut m.args);
            },
            SymbolKind::Expr(expr) => {
                self.replace_symbols(&mut expr.symbols);
            },
            SymbolKind::Repeat(repeat) => {
                self.replace_symbol(&mut repeat.symbol);
            },
            SymbolKind::Terminal(_) | SymbolKind::Nonterminal(_) => {
                return;
            },
            SymbolKind::Choose(inner) => {
                self.replace_symbol(inner);
                return;
            },
            SymbolKind::Name(_, inner) => {
                self.replace_symbol(inner);
                return;
            },
        }

        // Only compound symbols get here.
        assert(symbol@ == whole.parts_folded());
        proof {
            folding_parts_keeps_text(whole);
        }
        let key = symbol.canonical_form();
        let name = NonterminalString(key.clone());
        let mut to_expand = Symbol::new(symbol.span, SymbolKind::Nonterminal(name));
        swap(symbol, &mut to_expand);
        if self.expansion_set.insert(key) {
            self.expansion_stack.push(to_expand);
        }
        proof {
            let uses = whole.uses();
            let inner = match whole.kind {
                KindView::Expr(symbols) => all_uses(symbols),
                KindView::Macro(_, args) => all_uses(args),
                KindView::Repeat(_, inner) => inner.uses(),
                _ => Seq::empty(),
            };
            assert(uses.drop_last() =~= inner);
            assert(uses.last() == whole.parts_folded());
            assert(self.queue() =~= start.offer_all(uses));
        }
    }

    /// The types of a list, with the bare names in them resolved.
    pub fn macro_expand_type_refs(
        &self,
        args: &StringHashMap<SymbolKind>,
        type_refs: &Vec<TypeRef>,
    ) -> (expanded: Vec<TypeRef>)
        ensures
            types_view(expanded@) == all_types_substituted(
                types_view(type_refs@),
                bindings_view(args@),
            ),
        decreases type_refs,
    {
        let mut expanded: Vec<TypeRef> = Vec::new();
        for i in 0..type_refs.len()
            invariant
                expanded.len() == i,
                forall|j: int|
                    0 <= j < i ==> (#[trigger] expanded[j])@ == type_refs[j]@.substituted(
                        bindings_view(args@),
                    ),
        {
            let ty = self.macro_expand_type_ref(args, &type_refs[i]);
            expanded.push(ty);
        }
        assert(types_view(expanded@) =~= all_types_substituted(
            types_view(type_refs@),
            bindings_view(args@),
        ));
        expanded
    }

    /// A type, with the bare names in it resolved.
    pub fn macro_expand_type_ref(
        &self,
        args: &StringHashMap<SymbolKind>,
        type_ref: &TypeRef,
    ) -> (expanded: TypeRef)
        ensures
            expanded@ == type_ref@.substituted(bindings_view(args@)),
        decreases type_ref,
    {
        match type_ref {
            TypeRef::Tuple(trs) => TypeRef::Tuple(self.macro_expand_type_refs(args, trs)),
            TypeRef::Nominal { path, types } => TypeRef::Nominal {
                path: clone_texts(path),
                types: self.macro_expand_type_refs(args, types),
            },
            TypeRef::Lifetime(id) => TypeRef::Lifetime(id.clone()),
            TypeRef::OfSymbol(sym) => TypeRef::OfSymbol(sym.clone()),
            TypeRef::Id(id) => match args.get(id.as_str()) {
                Some(sym) => TypeRef::OfSymbol(sym.clone()),
                None => {
                    let path = vec![id.clone()];
                    let types: Vec<TypeRef> = vec![];
                    assert(texts_view(path@) =~= seq![id@]);
                    assert(types_view(types@) =~= Seq::empty());
                    TypeRef::Nominal { path, types }
                },
            },
        }
    }

    /// Whether the condition of an alternative holds.
    pub fn evaluate_cond(
        &self,
        args: &StringHashMap<SymbolKind>,
        opt_cond: &Option<Condition>,
    ) -> (verdict: NormResult<bool>)
        requires
            opt_cond matches Some(c) ==> args@.contains_key(c.lhs.0@),
        ensures
            condition_verdict(bindings_view(args@), condition_view(*opt_cond)) == Some(
                verdict_view(verdict),
            ),
    {
        if let Some(c) = opt_cond {
            match args.get(c.lhs.0.as_str()) {
                Some(SymbolKind::Terminal(lhs)) => match c.op {
                    ConditionOp::Equals => Ok(lhs.0 == c.rhs),
                    ConditionOp::NotEquals => Ok(lhs.0 != c.rhs),
                    ConditionOp::Match => self.re_match(c.span, lhs.0.as_str(), c.rhs.as_str()),
                    ConditionOp::NotMatch => match self.re_match(
                        c.span,
                        lhs.0.as_str(),
                        c.rhs.as_str(),
                    ) {
                        Ok(yes) => Ok(!yes),
                        Err(error) => Err(error),
                    },
                },
                Some(lhs) => Err(
                    NormError::invalid_lhs(
                        c.span,
                        c.lhs.0.as_str(),
                        lhs.canonical_form().as_str(),
                    ),
                ),
                None => unreached(),
            }
        } else {
            Ok(true)
        }
    }

    /// Whether a regular expression matches somewhere in a text.
    pub fn re_match(&self, span: Span, lhs: &str, regex: &str) -> (verdict: NormResult<bool>)
        ensures
            verdict_view(verdict) == pattern_verdict(span, lhs@, regex@),
    {
        match search(regex, lhs) {
            Ok(yes) => Ok(yes),
            Err(reason) => Err(NormError::invalid_regex(span, regex, reason.as_str())),
        }
    }

    /// The symbols of a list, with the bound nonterminals in them replaced.
    pub fn macro_expand_symbols(
        &self,
        args: &StringHashMap<SymbolKind>,
        expr: &Vec<Symbol>,
    ) -> (expanded: Vec<Symbol>)
        ensures
            symbols_view(expanded@) == all_substituted(symbols_view(expr@), bindings_view(args@)),
        decreases expr,
    {
        let mut expanded: Vec<Symbol> = Vec::new();
        for i in 0..expr.len()
            invariant
                expanded.len() == i,
                forall|j: int|
                    0 <= j < i ==> (#[trigger] expanded[j])@ == expr[j]@.substituted(
                        bindings_view(args@),
                    ),
        {
            let symbol = self.macro_expand_symbol(args, &expr[i]);
            expanded.push(symbol);
        }
        assert(symbols_view(expanded@) =~= all_substituted(
            symbols_view(expr@),
            bindings_view(args@),
        ));
        expanded
    }

    /// A group, with the bound nonterminals in it replaced.
    pub fn macro_expand_expr_symbol(
        &self,
        args: &StringHashMap<SymbolKind>,
        expr: &ExprSymbol,
    ) -> (expanded: ExprSymbol)
        ensures
            expanded@ == all_substituted(expr@, bindings_view(args@)),
        decreases expr,
    {
        ExprSymbol { symbols: self.macro_expand_symbols(args, &expr.symbols) }
    }

    /// A symbol, with the bound nonterminals in it replaced.
    pub fn macro_expand_symbol(
        &self,
        args: &StringHashMap<SymbolKind>,
        symbol: &Symbol,
    ) -> (expanded: Symbol)
        ensures
            expanded@ == symbol@.substituted(bindings_view(args@)),
        decreases symbol,
    {
        let kind = match &symbol.kind {
            SymbolKind::Expr(expr) => SymbolKind::Expr(self.macro_expand_expr_symbol(args, expr)),
            SymbolKind::Terminal(id) => SymbolKind::Terminal(id.clone()),
            SymbolKind::Nonterminal(id) => match args.get(id.0.as_str()) {
                Some(sym) => sym.clone(),
                None => SymbolKind::Nonterminal(id.clone()),
            },
            SymbolKind::Macro(msym) => SymbolKind::Macro(
                MacroSymbol {
                    name: msym.name.clone(),
                    args: self.macro_expand_symbols(args, &msym.args),
                },
            ),
            SymbolKind::Repeat(r) => SymbolKind::Repeat(
                Box::new(
                    RepeatSymbol { op: r.op, symbol: self.macro_expand_symbol(args, &r.symbol) },
                ),
            ),
            SymbolKind::Choose(sym) => SymbolKind::Choose(
                Box::new(self.macro_expand_symbol(args, sym)),
            ),
            SymbolKind::Name(id, sym) => SymbolKind::Name(
                id.clone(),
                Box::new(self.macro_expand_symbol(args, sym)),
            ),
        };
        Symbol { span: symbol.span, kind }
    }

    /// The nonterminal that a use of a macro stands for.
    pub fn expand_macro_symbol(&self, span: Span, msym: MacroSymbol) -> (item: NormResult<
        GrammarItem,
    >)
        requires
            macro_expansion(
                self.defs(),
                span,
                msym.name.0@,
                symbols_view(msym.args@),
            ) is Some,
        ensures
            macro_expansion(self.defs(), span, msym.name.0@, symbols_view(msym.args@)) == Some(
                item_result_view(item),
            ),
    {
        let msym_name = NonterminalString(msym.canonical_form());

        let mdef = match self.macro_defs.get(msym.name.0.as_str()) {
            Some(v) => v,
            None => {
                return Err(NormError::undefined_macro(span, msym.name.0.as_str()));
            },
        };
        assert(self.defs()[msym.name.0@] == mdef@);

        if mdef.args.len() != msym.args.len() {
            return Err(
                NormError::wrong_arity(
                    span,
                    msym.name.0.as_str(),
                    mdef.args.len(),
                    msym.args.len(),
                ),
            );
        }
        let args = bind_arguments(mdef, &msym.args);
        let ghost bound = bindings_view(args@);

        let type_decl = match &mdef.type_decl {
            Some(tr) => Some(self.macro_expand_type_ref(&args, tr)),
            None => None,
        };

        let ghost all = mdef@.alternatives;
        let mut alternatives: Vec<Alternative> = vec![];
        assert(alternatives_view(alternatives@) =~= Seq::empty());
        for i in 0..mdef.alternatives.len()
            invariant
                all == mdef@.alternatives,
                bound == bindings_view(args@),
                instances(bound, span, all) is Some,
                self.defs().contains_key(msym.name.0@),
                self.defs()[msym.name.0@] == mdef@,
                mdef@.args.len() == msym.args.len(),
                bound == bind(mdef@.args, symbols_view(msym.args@)),
                instances(bound, span, all.take(i as int)) == Some(
                    Ok::<Seq<AlternativeView>, ErrorView>(alternatives_view(alternatives@)),
                ),
        {
            let alternative = &mdef.alternatives[i];
            let ghost before = alternatives@;
            proof {
                let next = all.take(i + 1);
                assert(next.drop_last() =~= all.take(i as int));
                assert(next.last() == alternative@);
                if condition_verdict(bound, alternative@.condition) is None {
                    first_failure_decides(bound, span, all, i + 1);
                }
            }
            match self.evaluate_cond(&args, &alternative.condition) {
                Ok(holds) => {
                    if holds {
                        let action = match &alternative.action {
                            Some(code) => Some(code.clone()),
                            None => None,
                        };
                        alternatives.push(
                            Alternative {
                                span,
                                expr: self.macro_expand_expr_symbol(&args, &alternative.expr),
                                condition: None,
                                action,
                            },
                        );
                        assert(alternatives_view(alternatives@) =~= alternatives_view(before).push(
                            instance(bound, span, alternative@),
                        ));
                    }
                },
                Err(error) => {
                    proof {
                        first_failure_decides(bound, span, all, i + 1);
                    }
                    return Err(error);
                },
            }
        }
        assert(all.take(all.len() as int) =~= all);

        let no_args: Vec<NonterminalString> = vec![];
        assert(names_view(no_args@) =~= Seq::empty());
        Ok(
            GrammarItem::Nonterminal(
                NonterminalData {
                    public: mdef.public,
                    span,
                    name: msym_name,
                    args: no_args,
                    type_decl,
                    alternatives,
                },
            ),
        )
    }

    /// The nonterminal that a group stands for.
    pub fn expand_expr_symbol(&self, span: Span, expr: ExprSymbol) -> (item: NormResult<
        GrammarItem,
    >)
        ensures
            item_result_view(item) == expr_expansion(span, expr@),
    {
        let name = NonterminalString(expr.canonical_form());

        let ty_ref = match analyze_expr(&expr) {
            Symbols::Named(names) => {
                assert(named_view(names@)[0] == (names@[0].0 as int, names@[0].1@, names@[0].2@));
                let (_, ex_id, ex_sym) = names[0];
                return Err(
                    NormError::nested_name(
                        span,
                        ex_id.as_str(),
                        ex_sym.canonical_form().as_str(),
                    ),
                );
            },
            Symbols::Anon(syms) => {
                let mut types: Vec<TypeRef> = Vec::new();
                for i in 0..syms.len()
                    invariant
                        types.len() == i,
                        forall|j: int|
                            0 <= j < i ==> (#[trigger] types[j])@ == TypeView::OfSymbol(
                                syms[j].1@.kind,
                            ),
                {
                    types.push(TypeRef::OfSymbol(syms[i].1.kind.clone()));
                }
                assert(types_view(types@) =~= anon_view(syms@).map_values(
                    |s: (int, SymbolView)| TypeView::OfSymbol(s.1.kind),
                ));
                maybe_tuple(types)
            },
        };

        let ghost symbols = expr@;
        let alternatives = vec![plain_alternative(span, expr, "(~~)")];
        assert(alternatives_view(alternatives@) =~= seq![rule(span, symbols, "(~~)"@)]);
        Ok(auxiliary_item(span, name, ty_ref, alternatives))
    }

    /// The nonterminal that a repetition stands for.
    pub fn expand_repeat_symbol(&self, span: Span, repeat: RepeatSymbol) -> (item: NormResult<
        GrammarItem,
    >)
        ensures
            item matches Ok(item) && item@ == repeat_expansion(
                span,
                repeat.op,
                repeat.symbol@,
            ),
    {
        let name = NonterminalString(repeat.canonical_form());
        let ghost element = repeat.symbol@;
        let base_symbol_ty = TypeRef::OfSymbol(repeat.symbol.kind.clone());
        let nothing = ExprSymbol { symbols: vec![] };
        assert(nothing@ =~= Seq::empty());
        let one = ExprSymbol { symbols: vec![repeat.symbol.clone()] };
        assert(one@ =~= seq![element]);

        match repeat.op {
            RepeatOp::Star => {
                let ty_ref = std_type_ref("vec", "Vec", base_symbol_ty);
                let alternatives = vec![
                    // X* =
                    plain_alternative(span, nothing, "vec![]"),
                    // X* = ~v:X* ~e:X
                    extend_alternative(span, &name, &repeat.symbol),
                ];
                assert(alternatives_view(alternatives@) =~= seq![
                    rule(span, Seq::empty(), "vec![]"@),
                    extend_rule(span, name.0@, element),
                ]);
                Ok(auxiliary_item(span, name, ty_ref, alternatives))
            },
            RepeatOp::Plus => {
                let ty_ref = std_type_ref("vec", "Vec", base_symbol_ty);
                let alternatives = vec![
                    // X+ = X
                    plain_alternative(span, one, "vec![~~]"),
                    // X+ = ~v:X+ ~e:X
                    extend_alternative(span, &name, &repeat.symbol),
                ];
                assert(alternatives_view(alternatives@) =~= seq![
                    rule(span, seq![element], "vec![~~]"@),
                    extend_rule(span, name.0@, element),
                ]);
                Ok(auxiliary_item(span, name, ty_ref, alternatives))
            },
            RepeatOp::Question => {
                let ty_ref = std_type_ref("option", "Option", base_symbol_ty);
                let alternatives = vec![
                    // X? = X
                    plain_alternative(span, one, "Some(~~)"),
                    // X? =
                    plain_alternative(span, nothing, "None"),
                ];
                assert(alternatives_view(alternatives@) =~= seq![
                    rule(span, seq![element], "Some(~~)"@),
                    rule(span, Seq::empty(), "None"@),
                ]);
                Ok(auxiliary_item(span, name, ty_ref, alternatives))
            },
        }
    }
}

impl NonterminalData {
    /// Whether each condition of this macro is on one of its parameters.
    pub fn conditions_are_bound(&self) -> (yes: bool)
        ensures
            yes == self@.conditions_bound(),
    {
        let ghost view = self@;
        for i in 0..self.alternatives.len()
            invariant
                view == self@,
                forall|j: int|
                    0 <= j < i ==> ((#[trigger] view.alternatives[j]).condition matches Some(c)
                        ==> view.args.contains(c.lhs)),
        {
            assert(view.alternatives[i as int] == self.alternatives[i as int]@);
            if let Some(condition) = &self.alternatives[i].condition {
                if !self.has_parameter(&condition.lhs) {
                    return false;
                }
            }
        }
        true
    }

    /// Whether this macro has a parameter of some name.
    pub fn has_parameter(&self, name: &NonterminalString) -> (yes: bool)
        ensures
            yes == self@.args.contains(name.0@),
    {
        let ghost view = self@;
        for i in 0..self.args.len()
            invariant
                view == self@,
                forall|j: int| 0 <= j < i ==> #[trigger] view.args[j] != name.0@,
        {
            assert(view.args[i as int] == self.args[i as int].0@);
            if self.args[i].0 == name.0 {
                return true;
            }
        }
        false
    }
}

/// Binds the parameters of a macro to the arguments of a use.
fn bind_arguments(mdef: &NonterminalData, given: &Vec<Symbol>) -> (args: StringHashMap<SymbolKind>)
    requires
        mdef.args.len() == given.len(),
    ensures
        bindings_view(args@) == bind(mdef@.args, symbols_view(given@)),
{
    let ghost params = mdef@.args;
    let ghost symbols = symbols_view(given@);
    let mut args: StringHashMap<SymbolKind> = StringHashMap::new();
    assert(bindings_view(args@) =~= bind(params.take(0), symbols));
    for i in 0..mdef.args.len()
        invariant
            params == mdef@.args,
            symbols == symbols_view(given@),
            mdef.args.len() == given.len(),
            bindings_view(args@) == bind(params.take(i as int), symbols),
    {
        let ghost before = args@;
        let kind = given[i].kind.clone();
        args.insert(mdef.args[i].0.clone(), kind);
        proof {
            let next = params.take(i + 1);
            assert(next.drop_last() =~= params.take(i as int));
            assert(next.last() == mdef.args[i as int].0@);
            assert(bindings_view(args@) =~= bindings_view(before).insert(
                mdef.args[i as int].0@,
                kind@,
            ));
        }
    }
    assert(params.take(params.len() as int) =~= params);
    args
}

/// The tuple of some types; one type alone is itself.
pub fn maybe_tuple(v: Vec<TypeRef>) -> (ty: TypeRef)
    ensures
        ty@ == tuple_of(types_view(v@)),
{
    let mut v = v;
    if v.len() == 1 {
        v.pop().unwrap()
    } else {
        TypeRef::Tuple(v)
    }
}

/// An alternative without a condition.
fn plain_alternative(span: Span, expr: ExprSymbol, action: &str) -> (alternative: Alternative)
    ensures
        alternative@ == rule(span, expr@, action@),
{
    Alternative { span, expr, condition: None, action: Some(String::from_str(action)) }
}

/// The alternative `~v:X* ~e:X`, where the first symbol is the repetition itself, by name.
fn extend_alternative(span: Span, name: &NonterminalString, symbol: &Symbol) -> (alternative:
    Alternative)
    ensures
        alternative@ == extend_rule(span, name.0@, symbol@),
{
    let so_far = Symbol::new(span, SymbolKind::Nonterminal(name.clone()));
    let v = Symbol::new(span, SymbolKind::Name(String::from_str("v"), Box::new(so_far)));
    let e = Symbol::new(span, SymbolKind::Name(String::from_str("e"), Box::new(symbol.clone())));
    let expr = ExprSymbol { symbols: vec![v, e] };
    proof {
        assert(so_far@ == SymbolView { span, kind: KindView::Nonterminal(name.0@) });
        assert(v@ == SymbolView { span, kind: KindView::Name("v"@, Box::new(so_far@)) });
        assert(e@ == SymbolView { span, kind: KindView::Name("e"@, Box::new(symbol@)) });
        assert(expr@ =~= seq![v@, e@]);
    }
    plain_alternative(span, expr, "{ let mut v = v; v.push(e); v }")
}

/// The type `std::module::name<ty>`.
fn std_type_ref(module: &str, name: &str, ty: TypeRef) -> (type_ref: TypeRef)
    ensures
        type_ref@ == std_type(module@, name@, ty@),
{
    let path = vec![String::from_str("std"), String::from_str(module), String::from_str(name)];
    let types = vec![ty];
    assert(texts_view(path@) =~= seq!["std"@, module@, name@]);
    assert(types_view(types@) =~= seq![ty@]);
    TypeRef::Nominal { path, types }
}

/// A nonterminal that the expansion of a group or a repetition adds.
fn auxiliary_item(
    span: Span,
    name: NonterminalString,
    ty: TypeRef,
    alternatives: Vec<Alternative>,
) -> (item: GrammarItem)
    ensures
        item@ == auxiliary(span, name.0@, ty@, alternatives_view(alternatives@)),
{
    let args: Vec<NonterminalString> = vec![];
    assert(names_view(args@) =~= Seq::empty());
    GrammarItem::Nonterminal(
        NonterminalData { public: false, span, name, args, type_decl: Some(ty), alternatives },
    )
}

} // verus!
