//! Grammars that cannot be expanded.
use macro_expand::error::NormError;
use macro_expand::expand_macros;
use macro_expand::grammar::{expand_macros_within, Refusal};
use macro_expand::parse_tree::{
    Alternative, Condition, ConditionOp, ExprSymbol, Grammar, GrammarItem, MacroSymbol,
    NonterminalData, NonterminalString, RepeatOp, RepeatSymbol, Span, Symbol, SymbolKind,
    TerminalString,
};

fn id(name: &str) -> NonterminalString {
    NonterminalString(name.to_string())
}

fn term(name: &str) -> Symbol {
    Symbol::new(Span(1, 2), SymbolKind::Terminal(TerminalString(name.to_string())))
}

fn nt(name: &str) -> Symbol {
    Symbol::new(Span(3, 4), SymbolKind::Nonterminal(id(name)))
}

fn star(symbol: Symbol) -> Symbol {
    let repeat = RepeatSymbol { op: RepeatOp::Star, symbol };
    Symbol::new(Span(5, 6), SymbolKind::Repeat(Box::new(repeat)))
}

fn group(span: Span, symbols: Vec<Symbol>) -> Symbol {
    Symbol::new(span, SymbolKind::Expr(ExprSymbol { symbols }))
}

fn name(id: &str, symbol: Symbol) -> Symbol {
    Symbol::new(Span(7, 8), SymbolKind::Name(id.to_string(), Box::new(symbol)))
}

fn usage(span: Span, name: &str, args: Vec<Symbol>) -> Symbol {
    Symbol::new(span, SymbolKind::Macro(MacroSymbol { name: id(name), args }))
}

fn item(name: &str, params: Vec<&str>, alternatives: Vec<Alternative>) -> GrammarItem {
    GrammarItem::Nonterminal(NonterminalData {
        public: false,
        span: Span(9, 10),
        name: id(name),
        args: params.into_iter().map(id).collect(),
        type_decl: None,
        alternatives,
    })
}

fn alt(symbols: Vec<Symbol>) -> Alternative {
    Alternative {
        span: Span(11, 12),
        expr: ExprSymbol { symbols },
        condition: None,
        action: None,
    }
}

fn alt_if(lhs: &str, op: ConditionOp, rhs: &str) -> Alternative {
    let condition = Condition { span: Span(13, 14), lhs: id(lhs), rhs: rhs.to_string(), op };
    Alternative { condition: Some(condition), ..alt(vec![]) }
}

fn grammar(items: Vec<GrammarItem>) -> Grammar {
    Grammar { span: Span(0, 99), type_parameters: vec![], parameters: vec![], items }
}

fn start(symbol: Symbol) -> GrammarItem {
    item("S", vec![], vec![alt(vec![symbol])])
}

fn error_of(items: Vec<GrammarItem>) -> (String, Span) {
    let NormError { message, span } = expand_macros(grammar(items)).unwrap_err();
    (message, span)
}

#[test]
fn undefined_macros_are_errors() {
    assert_eq!(
        error_of(vec![start(usage(Span(20, 25), "M", vec![nt("A")]))]),
        ("no macro definition found for `M`".to_string(), Span(20, 25))
    );
}

#[test]
fn a_nonterminal_without_parameters_is_no_macro() {
    assert_eq!(
        error_of(vec![
            start(usage(Span(20, 25), "M", vec![nt("A")])),
            item("M", vec![], vec![alt(vec![])]),
        ]),
        ("no macro definition found for `M`".to_string(), Span(20, 25))
    );
}

#[test]
fn wrong_numbers_of_arguments_are_errors() {
    let m = item("M", vec!["E", "F"], vec![alt(vec![])]);
    assert_eq!(
        error_of(vec![start(usage(Span(20, 25), "M", vec![nt("A")])), m.clone()]),
        ("expected 2 arguments to `M` but found 1".to_string(), Span(20, 25))
    );
    let many: Vec<Symbol> = (0..12).map(|_| nt("A")).collect();
    assert_eq!(
        error_of(vec![start(usage(Span(20, 25), "M", many)), m]),
        ("expected 2 arguments to `M` but found 12".to_string(), Span(20, 25))
    );
}

#[test]
fn conditions_on_other_than_terminals_are_errors() {
    let m = item("M", vec!["E"], vec![alt_if("E", ConditionOp::Equals, "Id")]);
    assert_eq!(
        error_of(vec![start(usage(Span(20, 25), "M", vec![nt("A")])), m.clone()]),
        (
            "invalid condition LHS `E`, expected a terminal, not `A`".to_string(),
            Span(13, 14),
        )
    );
    // A compound argument has been folded before.
    assert_eq!(
        error_of(vec![start(usage(Span(20, 25), "M", vec![star(term("x"))])), m]),
        (
            "invalid condition LHS `E`, expected a terminal, not `\"x\"*`".to_string(),
            Span(13, 14),
        )
    );
}

#[test]
fn patterns_that_do_not_compile_are_errors() {
    for op in [ConditionOp::Match, ConditionOp::NotMatch] {
        let m = item("M", vec!["E"], vec![alt_if("E", op, "(")]);
        let (message, span) = error_of(vec![start(usage(Span(20, 25), "M", vec![term("x")])), m]);
        assert_eq!(span, Span(13, 14));
        let reason = regex::Regex::new("(").unwrap_err().to_string();
        assert_eq!(message, format!("invalid regular expression `(`: {}", reason));
    }
}

#[test]
fn names_inside_groups_are_errors() {
    let inner = group(Span(20, 25), vec![nt("A"), name("x", star(nt("B"))), name("y", nt("C"))]);
    assert_eq!(
        error_of(vec![start(inner)]),
        (
            "named symbols like `~x:B*` are only allowed at the top-level of a nonterminal"
                .to_string(),
            Span(20, 25),
        )
    );
}

#[test]
fn the_symbol_found_last_fails_first() {
    assert_eq!(
        error_of(vec![item(
            "S",
            vec![],
            vec![alt(vec![
                usage(Span(20, 21), "M", vec![nt("A")]),
                usage(Span(22, 23), "N", vec![nt("A")]),
            ])],
        )]),
        ("no macro definition found for `N`".to_string(), Span(22, 23))
    );
}

#[test]
fn the_first_failing_condition_counts() {
    let m = item(
        "M",
        vec!["E", "F"],
        vec![
            alt_if("E", ConditionOp::Equals, "other"),
            alt_if("F", ConditionOp::Equals, "Id"),
            alt_if("E", ConditionOp::Match, "("),
        ],
    );
    let s = start(usage(Span(20, 25), "M", vec![term("x"), nt("A")]));
    assert_eq!(
        error_of(vec![s, m]),
        ("invalid condition LHS `F`, expected a terminal, not `A`".to_string(), Span(13, 14))
    );
}

#[test]
fn macros_that_are_not_used_are_not_in_error() {
    let m = item(
        "M",
        vec!["E"],
        vec![
            alt(vec![usage(Span(20, 25), "Missing", vec![])]),
            alt_if("E", ConditionOp::Match, "("),
        ],
    );
    let s = start(nt("A"));
    assert_eq!(expand_macros(grammar(vec![s.clone(), m])), Ok(grammar(vec![s])));
}

/// `Grow<E> = Grow<(E)>`: each expansion brings in one more.
fn growing() -> Grammar {
    grammar(vec![
        start(usage(Span(20, 25), "Grow", vec![nt("A")])),
        item(
            "Grow",
            vec!["E"],
            vec![alt(vec![usage(
                Span(30, 35),
                "Grow",
                vec![group(Span(31, 34), vec![nt("E")])],
            )])],
        ),
    ])
}

#[test]
fn macros_that_grow_run_out_of_rounds() {
    for rounds in [0, 1, 2, 10, 30] {
        assert_eq!(expand_macros_within(growing(), rounds), Err(Refusal::OutOfRounds));
    }
}

#[test]
fn conditions_on_what_is_no_parameter_are_refused() {
    let m = item("M", vec!["E"], vec![alt_if("X", ConditionOp::Equals, "Id")]);
    let s = start(usage(Span(20, 25), "M", vec![term("x")]));
    assert_eq!(
        expand_macros_within(grammar(vec![s, m]), 10),
        Err(Refusal::UnboundCondition)
    );
}

#[test]
fn conditions_that_are_not_tested_are_not_refused() {
    // A macro that nothing uses.
    let unbound = item("M", vec!["E"], vec![alt_if("X", ConditionOp::Equals, "Id")]);
    let s = start(nt("A"));
    assert_eq!(
        expand_macros_within(grammar(vec![s.clone(), unbound]), 1),
        Ok(Ok(grammar(vec![s])))
    );
    // A use with the wrong number of arguments, and a condition in error before the other.
    let m = item(
        "M",
        vec!["E"],
        vec![
            alt_if("E", ConditionOp::Equals, "Id"),
            alt_if("X", ConditionOp::Equals, "Id"),
        ],
    );
    let two = start(usage(Span(20, 25), "M", vec![term("x"), term("y")]));
    assert_eq!(
        expand_macros_within(grammar(vec![two, m.clone()]), 1),
        Ok(Err(NormError {
            message: "expected 1 arguments to `M` but found 2".to_string(),
            span: Span(20, 25),
        }))
    );
    let wrong = start(usage(Span(20, 25), "M", vec![nt("A")]));
    assert_eq!(
        expand_macros_within(grammar(vec![wrong, m.clone()]), 1),
        Ok(Err(NormError {
            message: "invalid condition LHS `E`, expected a terminal, not `A`".to_string(),
            span: Span(13, 14),
        }))
    );
    // A condition without an error before the other does not help.
    let right = start(usage(Span(20, 25), "M", vec![term("x")]));
    assert_eq!(
        expand_macros_within(grammar(vec![right, m]), 1),
        Err(Refusal::UnboundCondition)
    );
}

#[test]
fn errors_within_some_rounds() {
    let input = grammar(vec![start(usage(Span(20, 25), "M", vec![nt("A")]))]);
    assert_eq!(expand_macros_within(input.clone(), 0), Err(Refusal::OutOfRounds));
    assert_eq!(
        expand_macros_within(input.clone(), 1),
        Ok(Err(NormError {
            message: "no macro definition found for `M`".to_string(),
            span: Span(20, 25),
        }))
    );
    assert_eq!(expand_macros_within(input.clone(), 1), Ok(expand_macros(input)));
}
