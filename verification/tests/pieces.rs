//! The parts of an expansion: canonical forms, groups, types and messages.
use macro_expand::error::{write_decimal, NormError};
use macro_expand::expander::maybe_tuple;
use macro_expand::norm_util::{analyze_expr, Symbols};
use macro_expand::parse_tree::{
    Alternative, Condition, ConditionOp, ExprSymbol, GrammarItem, MacroSymbol, NonterminalData,
    NonterminalString, RepeatOp, RepeatSymbol, Span, Symbol, SymbolKind, TerminalString, TypeRef,
};

fn at(kind: SymbolKind) -> Symbol {
    Symbol::new(Span(3, 4), kind)
}

fn term(name: &str) -> Symbol {
    at(SymbolKind::Terminal(TerminalString(name.to_string())))
}

fn nt(name: &str) -> Symbol {
    at(SymbolKind::Nonterminal(NonterminalString(name.to_string())))
}

fn group(symbols: Vec<Symbol>) -> Symbol {
    at(SymbolKind::Expr(ExprSymbol { symbols }))
}

fn usage(name: &str, args: Vec<Symbol>) -> Symbol {
    at(SymbolKind::Macro(MacroSymbol { name: NonterminalString(name.to_string()), args }))
}

fn repeat(op: RepeatOp, symbol: Symbol) -> Symbol {
    at(SymbolKind::Repeat(Box::new(RepeatSymbol { op, symbol })))
}

fn chosen(symbol: Symbol) -> Symbol {
    at(SymbolKind::Choose(Box::new(symbol)))
}

fn name(id: &str, symbol: Symbol) -> Symbol {
    at(SymbolKind::Name(id.to_string(), Box::new(symbol)))
}

#[test]
fn canonical_forms_of_simple_symbols() {
    assert_eq!(term("Id").canonical_form(), "\"Id\"");
    assert_eq!(nt("Expr").canonical_form(), "Expr");
    assert_eq!(chosen(nt("Expr")).canonical_form(), "~Expr");
    assert_eq!(name("e", term("Id")).canonical_form(), "~e:\"Id\"");
}

#[test]
fn canonical_forms_of_compound_symbols() {
    assert_eq!(group(vec![]).canonical_form(), "()");
    assert_eq!(group(vec![nt("A")]).canonical_form(), "(A)");
    assert_eq!(group(vec![chosen(nt("A")), term(",")]).canonical_form(), "(~A \",\")");
    assert_eq!(usage("M", vec![nt("A")]).canonical_form(), "M<A>");
    assert_eq!(usage("M", vec![nt("A"), term("b"), nt("C")]).canonical_form(), "M<A, \"b\", C>");
    assert_eq!(repeat(RepeatOp::Star, nt("A")).canonical_form(), "A*");
    assert_eq!(repeat(RepeatOp::Plus, nt("A")).canonical_form(), "A+");
    assert_eq!(repeat(RepeatOp::Question, nt("A")).canonical_form(), "A?");
    let nested = repeat(
        RepeatOp::Plus,
        group(vec![name("x", usage("M", vec![repeat(RepeatOp::Star, nt("A"))])), term(";")]),
    );
    assert_eq!(nested.canonical_form(), "(~x:M<A*> \";\")+");
}

#[test]
fn canonical_forms_of_the_parts_of_a_kind() {
    let expr = ExprSymbol { symbols: vec![nt("A"), nt("B")] };
    assert_eq!(expr.canonical_form(), "(A B)");
    let m = MacroSymbol { name: NonterminalString("M".to_string()), args: vec![nt("A"), nt("B")] };
    assert_eq!(m.canonical_form(), "M<A, B>");
    let r = RepeatSymbol { op: RepeatOp::Question, symbol: nt("A") };
    assert_eq!(r.canonical_form(), "A?");
    assert_eq!(nt("A").kind.canonical_form(), "A");
    assert_eq!(RepeatOp::Star.sign(), "*");
    assert_eq!(RepeatOp::Plus.sign(), "+");
    assert_eq!(RepeatOp::Question.sign(), "?");
}

#[test]
fn canonical_form_ignores_positions() {
    let near = usage("M", vec![nt("A"), term("b")]);
    let far = Symbol::new(
        Span(90, 99),
        SymbolKind::Macro(MacroSymbol {
            name: NonterminalString("M".to_string()),
            args: vec![
                Symbol::new(
                    Span(91, 92),
                    SymbolKind::Nonterminal(NonterminalString("A".to_string())),
                ),
                Symbol::new(Span(93, 94), SymbolKind::Terminal(TerminalString("b".to_string()))),
            ],
        }),
    );
    assert_ne!(near, far);
    assert_eq!(near.canonical_form(), far.canonical_form());
}

#[test]
fn a_terminal_and_a_nonterminal_differ_in_canonical_form() {
    assert_ne!(term("A").canonical_form(), nt("A").canonical_form());
}

#[test]
fn clones_are_equal() {
    let symbol = name(
        "n",
        chosen(group(vec![
            term("a"),
            usage("M", vec![repeat(RepeatOp::Plus, nt("B"))]),
        ])),
    );
    assert_eq!(symbol.clone(), symbol);
    let ty = TypeRef::Tuple(vec![
        TypeRef::Nominal {
            path: vec!["a".to_string(), "B".to_string()],
            types: vec![TypeRef::Lifetime("'a".to_string()), TypeRef::Id("T".to_string())],
        },
        TypeRef::OfSymbol(symbol.kind.clone()),
    ]);
    assert_eq!(ty.clone(), ty);
    let m = MacroSymbol { name: NonterminalString("M".to_string()), args: vec![symbol.clone()] };
    assert_eq!(m.clone(), m);
    let r = RepeatSymbol { op: RepeatOp::Star, symbol };
    assert_eq!(r.clone(), r);
}

#[test]
fn a_group_without_marks_yields_all_of_its_symbols() {
    let expr = ExprSymbol { symbols: vec![nt("A"), term("b")] };
    match analyze_expr(&expr) {
        Symbols::Anon(found) => {
            assert_eq!(found, vec![(0, &nt("A")), (1, &term("b"))]);
        }
        Symbols::Named(_) => panic!("no symbol has a name"),
    }
}

#[test]
fn a_group_with_chosen_symbols_yields_those() {
    let expr = ExprSymbol { symbols: vec![term("("), chosen(nt("A")), term(")"), chosen(nt("B"))] };
    match analyze_expr(&expr) {
        Symbols::Anon(found) => {
            assert_eq!(found, vec![(1, &nt("A")), (3, &nt("B"))]);
        }
        Symbols::Named(_) => panic!("no symbol has a name"),
    }
}

#[test]
fn names_count_before_choices() {
    let symbols = vec![chosen(nt("A")), name("x", nt("B")), name("y", nt("C"))];
    let expr = ExprSymbol { symbols };
    match analyze_expr(&expr) {
        Symbols::Named(found) => {
            let x = "x".to_string();
            let y = "y".to_string();
            assert_eq!(found, vec![(1, &x, &nt("B")), (2, &y, &nt("C"))]);
        }
        Symbols::Anon(_) => panic!("two symbols have names"),
    }
}

#[test]
fn names_below_the_top_of_a_group_do_not_count() {
    let expr = ExprSymbol { symbols: vec![group(vec![name("x", nt("B"))])] };
    assert!(matches!(analyze_expr(&expr), Symbols::Anon(_)));
}

#[test]
fn one_type_is_no_tuple() {
    assert_eq!(maybe_tuple(vec![TypeRef::Id("T".to_string())]), TypeRef::Id("T".to_string()));
}

#[test]
fn none_or_several_types_are_a_tuple() {
    assert_eq!(maybe_tuple(vec![]), TypeRef::Tuple(vec![]));
    let two = vec![TypeRef::Id("T".to_string()), TypeRef::Id("U".to_string())];
    assert_eq!(maybe_tuple(two.clone()), TypeRef::Tuple(two));
}

#[test]
fn numbers_are_written_in_decimal() {
    for n in [0, 1, 2, 3, 4, 5, 6, 7, 8, 9, 10, 100, 1234567890, usize::MAX] {
        let mut out = "n = ".to_string();
        write_decimal(n, &mut out);
        assert_eq!(out, format!("n = {}", n));
    }
}

#[test]
fn messages() {
    let span = Span(7, 9);
    assert_eq!(
        NormError::undefined_macro(span, "M"),
        NormError { message: "no macro definition found for `M`".to_string(), span }
    );
    assert_eq!(
        NormError::wrong_arity(span, "M", 2, 13),
        NormError { message: "expected 2 arguments to `M` but found 13".to_string(), span }
    );
    assert_eq!(
        NormError::invalid_lhs(span, "E", "A*"),
        NormError {
            message: "invalid condition LHS `E`, expected a terminal, not `A*`".to_string(),
            span,
        }
    );
    assert_eq!(
        NormError::invalid_regex(span, "(", "unclosed"),
        NormError { message: "invalid regular expression `(`: unclosed".to_string(), span }
    );
    assert_eq!(
        NormError::nested_name(span, "x", "A"),
        NormError {
            message: "named symbols like `~x:A` are only allowed at the top-level of a nonterminal"
                .to_string(),
            span,
        }
    );
}

fn with_parameters(params: Vec<&str>, lhs: &str) -> NonterminalData {
    NonterminalData {
        public: false,
        span: Span(0, 1),
        name: NonterminalString("M".to_string()),
        args: params.iter().map(|p| NonterminalString(p.to_string())).collect(),
        type_decl: None,
        alternatives: vec![Alternative {
            span: Span(0, 1),
            expr: ExprSymbol { symbols: vec![] },
            condition: Some(Condition {
                span: Span(0, 1),
                lhs: NonterminalString(lhs.to_string()),
                rhs: "a".to_string(),
                op: ConditionOp::Equals,
            }),
            action: None,
        }],
    }
}

#[test]
fn macros_are_nonterminals_with_parameters() {
    assert!(with_parameters(vec!["E"], "E").is_macro_def());
    assert!(!with_parameters(vec![], "E").is_macro_def());
    assert!(GrammarItem::Nonterminal(with_parameters(vec!["E"], "E")).is_macro_def());
    assert!(!GrammarItem::Nonterminal(with_parameters(vec![], "E")).is_macro_def());
    assert!(!GrammarItem::Use("std::vec".to_string()).is_macro_def());
}

#[test]
fn conditions_are_on_parameters_or_not() {
    assert!(with_parameters(vec!["A", "E"], "E").conditions_are_bound());
    assert!(!with_parameters(vec!["A", "B"], "E").conditions_are_bound());
    let data = with_parameters(vec!["A", "B"], "A");
    assert!(data.has_parameter(&NonterminalString("B".to_string())));
    assert!(!data.has_parameter(&NonterminalString("C".to_string())));
}
