//! Expansion: the nonterminal that a compound symbol stands for.
use vstd::prelude::*;

use crate::error::{
    invalid_lhs, invalid_regex, nested_name, undefined_macro, wrong_arity, ErrorView,
};
use crate::norm_util::{analysis, names_are_found, SymbolsView};
use crate::parse_tree::{
    AlternativeView, ConditionOp, ConditionView, ItemView, KindView, NonterminalView, RepeatOp,
    Span, SymbolView, TypeView,
};
use crate::pattern::regex_search;
use crate::subst::{all_substituted, bind, Bindings};

verus! {

/// The macros of a grammar, by name.
pub type MacroTable = Map<Seq<char>, NonterminalView>;

/// Whether a pattern matches somewhere in a text, or the error for a pattern that is
/// rejected.
pub open spec fn pattern_verdict(span: Span, text: Seq<char>, regex: Seq<char>) -> Result<
    bool,
    ErrorView,
> {
    match regex_search(regex, text) {
        Ok(yes) => Ok(yes),
        Err(reason) => Err(invalid_regex(span, regex, reason)),
    }
}

/// Whether a condition holds. There is no answer where its left-hand side is not bound.
pub open spec fn condition_verdict(args: Bindings, condition: Option<ConditionView>) -> Option<
    Result<bool, ErrorView>,
> {
    match condition {
        None => Some(Ok(true)),
        Some(c) => if !args.contains_key(c.lhs) {
            None
        } else {
            match args[c.lhs] {
                KindView::Terminal(lhs) => Some(
                    match c.op {
                        ConditionOp::Equals => Ok(lhs == c.rhs),
                        ConditionOp::NotEquals => Ok(lhs != c.rhs),
                        ConditionOp::Match => pattern_verdict(c.span, lhs, c.rhs),
                        ConditionOp::NotMatch => match pattern_verdict(c.span, lhs, c.rhs) {
                            Ok(yes) => Ok(!yes),
                            Err(error) => Err(error),
                        },
                    },
                ),
                kind => Some(Err(invalid_lhs(c.span, c.lhs, kind.text()))),
            }
        },
    }
}

/// An alternative of a macro, for one use of the macro.
pub open spec fn instance(
    args: Bindings,
    span: Span,
    alternative: AlternativeView,
) -> AlternativeView {
    AlternativeView {
        span,
        expr: all_substituted(alternative.expr, args),
        condition: None,
        action: alternative.action,
    }
}

/// The alternatives of a macro whose conditions hold, for one use of the macro, or the error
/// of the first condition that has one. There is no answer where a condition before that one
/// has none.
pub open spec fn instances(
    args: Bindings,
    span: Span,
    alternatives: Seq<AlternativeView>,
) -> Option<Result<Seq<AlternativeView>, ErrorView>>
    decreases alternatives.len(),
{
    if alternatives.len() == 0 {
        Some(Ok(Seq::empty()))
    } else {
        match instances(args, span, alternatives.drop_last()) {
            Some(Ok(before)) => match condition_verdict(args, alternatives.last().condition) {
                Some(Ok(true)) => Some(Ok(before.push(instance(args, span, alternatives.last())))),
                Some(Ok(false)) => Some(Ok(before)),
                Some(Err(error)) => Some(Err(error)),
                None => None,
            },
            other => other,
        }
    }
}

/// What the first alternatives of a macro come to decides for all of them, unless each of
/// them is kept or left out.
pub proof fn first_failure_decides(
    args: Bindings,
    span: Span,
    alternatives: Seq<AlternativeView>,
    count: int,
)
    requires
        0 <= count <= alternatives.len(),
        !(instances(args, span, alternatives.take(count)) matches Some(Ok(_))),
    ensures
        instances(args, span, alternatives) == instances(args, span, alternatives.take(count)),
    decreases alternatives.len(),
{
    if count == alternatives.len() {
        assert(alternatives.take(count) =~= alternatives);
    } else {
        assert(alternatives.drop_last().take(count) =~= alternatives.take(count));
        first_failure_decides(args, span, alternatives.drop_last(), count);
    }
}

impl NonterminalView {
    /// Whether each condition of this macro is on one of its parameters.
    pub open spec fn conditions_bound(self) -> bool {
        forall|i: int|
            0 <= i < self.alternatives.len() ==> ((
            #[trigger] self.alternatives[i]).condition matches Some(c) ==> self.args.contains(
                c.lhs,
            ))
    }
}

/// Whether each condition of each macro is on one of the macro's parameters.
pub open spec fn all_conditions_bound(defs: MacroTable) -> bool {
    forall|name: Seq<char>|
        defs.contains_key(name) ==> (#[trigger] defs[name]).conditions_bound()
}

/// The nonterminal that a use of a macro stands for, or why there is none. There is no answer
/// where a condition that has to be tested is on something other than a parameter.
pub open spec fn macro_expansion(
    defs: MacroTable,
    span: Span,
    name: Seq<char>,
    args: Seq<SymbolView>,
) -> Option<Result<ItemView, ErrorView>> {
    if !defs.contains_key(name) {
        Some(Err(undefined_macro(span, name)))
    } else if defs[name].args.len() != args.len() {
        Some(Err(wrong_arity(span, name, defs[name].args.len(), args.len())))
    } else {
        let def = defs[name];
        let bound = bind(def.args, args);
        match instances(bound, span, def.alternatives) {
            Some(Ok(alternatives)) => Some(
                Ok(
                    ItemView::Nonterminal(
                        NonterminalView {
                            public: def.public,
                            span,
                            name: KindView::Macro(name, args).text(),
                            args: Seq::empty(),
                            type_decl: match def.type_decl {
                                Some(ty) => Some(ty.substituted(bound)),
                                None => None,
                            },
                            alternatives,
                        },
                    ),
                ),
            ),
            Some(Err(error)) => Some(Err(error)),
            None => None,
        }
    }
}

/// The tuple of some types; one type alone is itself.
pub open spec fn tuple_of(types: Seq<TypeView>) -> TypeView {
    if types.len() == 1 {
        types[0]
    } else {
        TypeView::Tuple(types)
    }
}

/// A nonterminal that the expansion of a group or a repetition adds.
pub open spec fn auxiliary(
    span: Span,
    name: Seq<char>,
    ty: TypeView,
    alternatives: Seq<AlternativeView>,
) -> ItemView {
    ItemView::Nonterminal(
        NonterminalView {
            public: false,
            span,
            name,
            args: Seq::empty(),
            type_decl: Some(ty),
            alternatives,
        },
    )
}

/// An alternative without a condition.
pub open spec fn rule(span: Span, expr: Seq<SymbolView>, action: Seq<char>) -> AlternativeView {
    AlternativeView { span, expr, condition: None, action: Some(action) }
}

/// The nonterminal that a group stands for: it yields the tuple of what its symbols yield. A
/// group with named symbols has none.
pub open spec fn expr_expansion(span: Span, symbols: Seq<SymbolView>) -> Result<
    ItemView,
    ErrorView,
> {
    match analysis(symbols) {
        SymbolsView::Named(named) => Err(nested_name(span, named[0].1, named[0].2.text())),
        SymbolsView::Anon(yielding) => Ok(
            auxiliary(
                span,
                KindView::Expr(symbols).text(),
                tuple_of(yielding.map_values(|s: (int, SymbolView)| TypeView::OfSymbol(s.1.kind))),
                seq![rule(span, symbols, "(~~)"@)],
            ),
        ),
    }
}

/// The type `std::module::Name<ty>`.
pub open spec fn std_type(module: Seq<char>, name: Seq<char>, ty: TypeView) -> TypeView {
    TypeView::Nominal { path: seq!["std"@, module, name], types: seq![ty] }
}

/// The alternative that adds one element to a repetition of a symbol, `~v:X* ~e:X`. The
/// repetition itself stands in it by name.
pub open spec fn extend_rule(span: Span, name: Seq<char>, symbol: SymbolView) -> AlternativeView {
    let so_far = SymbolView { span, kind: KindView::Nonterminal(name) };
    rule(
        span,
        seq![
            SymbolView { span, kind: KindView::Name("v"@, Box::new(so_far)) },
            SymbolView { span, kind: KindView::Name("e"@, Box::new(symbol)) },
        ],
        "{ let mut v = v; v.push(e); v }"@,
    )
}

/// The nonterminal that a repetition of a symbol stands for.
pub open spec fn repeat_expansion(span: Span, op: RepeatOp, symbol: SymbolView) -> ItemView {
    let name = KindView::Repeat(op, Box::new(symbol)).text();
    let element = TypeView::OfSymbol(symbol.kind);
    match op {
        // X* = { => vec![]; ~v:X* ~e:X => ...; }
        RepeatOp::Star => auxiliary(
            span,
            name,
            std_type("vec"@, "Vec"@, element),
            seq![rule(span, Seq::empty(), "vec![]"@), extend_rule(span, name, symbol)],
        ),
        // X+ = { X => vec![~~]; ~v:X+ ~e:X => ...; }
        RepeatOp::Plus => auxiliary(
            span,
            name,
            std_type("vec"@, "Vec"@, element),
            seq![rule(span, seq![symbol], "vec![~~]"@), extend_rule(span, name, symbol)],
        ),
        // X? = { X => Some(~~); => None; }
        RepeatOp::Question => auxiliary(
            span,
            name,
            std_type("option"@, "Option"@, element),
            seq![rule(span, seq![symbol], "Some(~~)"@), rule(span, Seq::empty(), "None"@)],
        ),
    }
}

/// The nonterminal that a compound symbol stands for, or why there is none. There is no
/// answer for a symbol that is not compound, nor where the condition of a macro cannot be
/// tested.
pub open spec fn expansion(defs: MacroTable, symbol: SymbolView) -> Option<
    Result<ItemView, ErrorView>,
> {
    match symbol.kind {
        KindView::Macro(name, args) => macro_expansion(defs, symbol.span, name, args),
        KindView::Expr(symbols) => Some(expr_expansion(symbol.span, symbols)),
        KindView::Repeat(op, inner) => Some(Ok(repeat_expansion(symbol.span, op, *inner))),
        _ => None,
    }
}

/// A group has an expansion exactly if none of its own symbols has a name.
pub proof fn groups_fail_on_names(span: Span, symbols: Seq<SymbolView>)
    ensures
        expr_expansion(span, symbols) is Err <==> exists|i: int|
            0 <= i < symbols.len() && (#[trigger] symbols[i]).kind is Name,
{
    names_are_found(symbols);
}

/// `==` and `!=` give opposite answers, and so do a match and its negation, where there is an
/// answer.
pub proof fn negated_conditions_are_opposite(args: Bindings, condition: ConditionView)
    requires
        args.contains_key(condition.lhs),
    ensures
        ({
            let equals = Some(ConditionView { op: ConditionOp::Equals, ..condition });
            let differs = Some(ConditionView { op: ConditionOp::NotEquals, ..condition });
            match condition_verdict(args, equals) {
                Some(Ok(yes)) => condition_verdict(args, differs) == Some(
                    Ok::<bool, ErrorView>(!yes),
                ),
                other => condition_verdict(args, differs) == other,
            }
        }),
        ({
            let matches = Some(ConditionView { op: ConditionOp::Match, ..condition });
            let misses = Some(ConditionView { op: ConditionOp::NotMatch, ..condition });
            match condition_verdict(args, matches) {
                Some(Ok(yes)) => condition_verdict(args, misses) == Some(
                    Ok::<bool, ErrorView>(!yes),
                ),
                other => condition_verdict(args, misses) == other,
            }
        }),
{
}

/// The alternatives of one use of a macro have no conditions, and they stand where the use
/// does.
pub proof fn instances_have_no_conditions(
    args: Bindings,
    span: Span,
    alternatives: Seq<AlternativeView>,
)
    ensures
        instances(args, span, alternatives) matches Some(Ok(kept)) ==> forall|i: int|
            0 <= i < kept.len() ==> (#[trigger] kept[i]).condition is None && kept[i].span == span,
    decreases alternatives.len(),
{
    if alternatives.len() > 0 {
        instances_have_no_conditions(args, span, alternatives.drop_last());
    }
}

/// An expansion is never a macro, it is named by the symbol's canonical form, it stands where
/// the symbol does, and it has no conditions.
pub proof fn expansions_are_plain(defs: MacroTable, symbol: SymbolView)
    requires
        expansion(defs, symbol) matches Some(Ok(_)),
    ensures
        !expansion(defs, symbol)->0->Ok_0.is_macro_def(),
        expansion(defs, symbol)->0->Ok_0 matches ItemView::Nonterminal(data) && {
            &&& data.name == symbol.text()
            &&& data.span == symbol.span
            &&& forall|i: int|
                0 <= i < data.alternatives.len() ==> (
                #[trigger] data.alternatives[i]).condition is None && data.alternatives[i].span
                    == symbol.span
        },
{
    if let KindView::Macro(name, args) = symbol.kind {
        let def = defs[name];
        instances_have_no_conditions(bind(def.args, args), symbol.span, def.alternatives);
    }
}

} // verus!
