//! What holds of every expansion, on grammars that use all kinds of symbols.
use std::collections::BTreeSet;

use macro_expand::expand_macros;
use macro_expand::grammar::{expand_macros_within, Refusal};
use macro_expand::parse_tree::{
    Alternative, Condition, ConditionOp, ExprSymbol, Grammar, GrammarItem, MacroSymbol,
    NonterminalData, NonterminalString, RepeatOp, RepeatSymbol, Span, Symbol, SymbolKind,
    TerminalString, TypeRef,
};

fn id(name: &str) -> NonterminalString {
    NonterminalString(name.to_string())
}

fn at(kind: SymbolKind) -> Symbol {
    Symbol::new(Span(1, 2), kind)
}

fn term(name: &str) -> Symbol {
    at(SymbolKind::Terminal(TerminalString(name.to_string())))
}

fn nt(name: &str) -> Symbol {
    at(SymbolKind::Nonterminal(id(name)))
}

fn group(symbols: Vec<Symbol>) -> Symbol {
    at(SymbolKind::Expr(ExprSymbol { symbols }))
}

fn usage(name: &str, args: Vec<Symbol>) -> Symbol {
    at(SymbolKind::Macro(MacroSymbol { name: id(name), args }))
}

fn repeat(op: RepeatOp, symbol: Symbol) -> Symbol {
    at(SymbolKind::Repeat(Box::new(RepeatSymbol { op, symbol })))
}

fn chosen(symbol: Symbol) -> Symbol {
    at(SymbolKind::Choose(Box::new(symbol)))
}

fn name(id: &str, symbol: Symbol) -> Symbol {
    at(SymbolKind::Name(id.to_string(), Box::new(symbol)))
}

fn item(name: &str, params: Vec<&str>, alternatives: Vec<Alternative>) -> GrammarItem {
    GrammarItem::Nonterminal(NonterminalData {
        public: false,
        span: Span(1, 2),
        name: id(name),
        args: params.into_iter().map(id).collect(),
        type_decl: Some(TypeRef::Id("E".to_string())),
        alternatives,
    })
}

fn alt(symbols: Vec<Symbol>) -> Alternative {
    Alternative { span: Span(1, 2), expr: ExprSymbol { symbols }, condition: None, action: None }
}

fn alt_if(lhs: &str, op: ConditionOp, rhs: &str, symbols: Vec<Symbol>) -> Alternative {
    let condition = Condition { span: Span(1, 2), lhs: id(lhs), rhs: rhs.to_string(), op };
    Alternative { condition: Some(condition), ..alt(symbols) }
}

fn grammar(items: Vec<GrammarItem>) -> Grammar {
    Grammar { span: Span(0, 99), type_parameters: vec![], parameters: vec![], items }
}

/// Four tiers of macros, with all kinds of symbols.
fn tiers() -> Grammar {
    let comma = item(
        "Comma",
        vec!["E"],
        vec![alt(vec![
            name("v", repeat(RepeatOp::Star, group(vec![chosen(nt("E")), term(",")]))),
            name("e", repeat(RepeatOp::Question, nt("E"))),
        ])],
    );
    let args = item(
        "Args",
        vec!["E"],
        vec![alt(vec![term("("), chosen(usage("Comma", vec![nt("E")])), term(")")])],
    );
    let call = item(
        "Call",
        vec!["F", "E"],
        vec![
            alt_if("F", ConditionOp::Equals, "print", vec![nt("F"), usage("Args", vec![nt("E")])]),
            alt_if("F", ConditionOp::NotEquals, "print", vec![nt("F"), nt("E")]),
            alt_if("F", ConditionOp::Match, "^p", vec![usage("Comma", vec![group(vec![])])]),
        ],
    );
    let stmt = item(
        "Stmt",
        vec!["E"],
        vec![alt(vec![usage("Call", vec![term("print"), nt("E")]), term(";")])],
    );
    let program = item(
        "Program",
        vec![],
        vec![
            alt(vec![repeat(RepeatOp::Plus, usage("Stmt", vec![nt("Expr")]))]),
            alt(vec![usage("Stmt", vec![nt("Expr")]), usage("Comma", vec![nt("Expr")])]),
        ],
    );
    let expr = item("Expr", vec![], vec![alt(vec![term("Num")])]);
    grammar(vec![
        comma,
        program,
        args,
        GrammarItem::Use("ast".to_string()),
        call,
        expr,
        stmt,
    ])
}

fn nonterminals(grammar: &Grammar) -> Vec<&NonterminalData> {
    let mut found = vec![];
    for item in &grammar.items {
        if let GrammarItem::Nonterminal(data) = item {
            found.push(data);
        }
    }
    found
}

fn is_flat(symbol: &Symbol) -> bool {
    match &symbol.kind {
        SymbolKind::Terminal(_) | SymbolKind::Nonterminal(_) => true,
        SymbolKind::Choose(inner) | SymbolKind::Name(_, inner) => is_flat(inner),
        SymbolKind::Expr(_) | SymbolKind::Macro(_) | SymbolKind::Repeat(_) => false,
    }
}

fn mentioned(symbol: &Symbol) -> Option<&String> {
    match &symbol.kind {
        SymbolKind::Nonterminal(name) => Some(&name.0),
        SymbolKind::Choose(inner) | SymbolKind::Name(_, inner) => mentioned(inner),
        _ => None,
    }
}

#[test]
fn an_expanded_grammar_is_flat() {
    let out = expand_macros(tiers()).unwrap();
    for data in nonterminals(&out) {
        assert!(data.args.is_empty());
        for alternative in &data.alternatives {
            assert_eq!(alternative.condition, None);
            for symbol in &alternative.expr.symbols {
                assert!(is_flat(symbol));
            }
        }
    }
}

#[test]
fn what_is_used_is_defined_once() {
    let out = expand_macros(tiers()).unwrap();
    let all = nonterminals(&out);
    let names: BTreeSet<&String> = all.iter().map(|data| &data.name.0).collect();
    assert_eq!(names.len(), all.len());
    let mut used: BTreeSet<&String> = BTreeSet::new();
    for data in &all {
        for alternative in &data.alternatives {
            for symbol in &alternative.expr.symbols {
                if let Some(name) = mentioned(symbol) {
                    assert!(names.contains(name), "{} is not defined", name);
                    used.insert(name);
                }
            }
        }
    }
    // The start of the grammar is the one nonterminal that nothing uses.
    let unused: Vec<&&String> = names.difference(&used).collect();
    assert_eq!(unused, vec![&&"Program".to_string()]);
}

#[test]
fn the_tiers_expand_to_these_nonterminals() {
    let out = expand_macros(tiers()).unwrap();
    let names: Vec<&str> = nonterminals(&out).iter().map(|data| data.name.0.as_str()).collect();
    assert_eq!(
        names,
        vec![
            "Program",
            "Expr",
            // The first round.
            "Comma<Expr>",
            "Stmt<Expr>+",
            "Stmt<Expr>",
            // The second: what those use.
            "Call<\"print\", Expr>",
            "Expr?",
            "(~Expr \",\")*",
            "(~Expr \",\")",
            // The third.
            "Comma<()>",
            "()",
            "Args<Expr>",
            // The fourth.
            "()?",
            "(~() \",\")*",
            "(~() \",\")",
        ]
    );
}

#[test]
fn plain_items_stay_in_front() {
    let out = expand_macros(tiers()).unwrap();
    assert_eq!(
        out.items[..3],
        [
            item(
                "Program",
                vec![],
                vec![
                    alt(vec![nt("Stmt<Expr>+")]),
                    alt(vec![nt("Stmt<Expr>"), nt("Comma<Expr>")]),
                ],
            ),
            GrammarItem::Use("ast".to_string()),
            item("Expr", vec![], vec![alt(vec![term("Num")])]),
        ]
    );
}

#[test]
fn expanding_twice_is_expanding_once() {
    let once = expand_macros(tiers()).unwrap();
    assert_eq!(expand_macros(once.clone()), Ok(once));
}

#[test]
fn a_flat_grammar_takes_one_round() {
    let input = grammar(vec![item("S", vec![], vec![alt(vec![nt("A"), chosen(term("b"))])])]);
    assert_eq!(expand_macros_within(input.clone(), 0), Err(Refusal::OutOfRounds));
    assert_eq!(expand_macros_within(input.clone(), 1), Ok(Ok(input)));
}

#[test]
fn a_grammar_without_macros_takes_two_rounds() {
    let deep = repeat(
        RepeatOp::Star,
        group(vec![repeat(RepeatOp::Plus, group(vec![nt("A"), nt("B")])), term("c")]),
    );
    let input = grammar(vec![item("S", vec![], vec![alt(vec![deep])])]);
    assert_eq!(expand_macros_within(input.clone(), 1), Err(Refusal::OutOfRounds));
    assert_eq!(expand_macros_within(input.clone(), 2), Ok(expand_macros(input)));
}

#[test]
fn more_rounds_change_nothing() {
    let input = tiers();
    let whole = expand_macros(input.clone());
    // Four tiers of macros, and one round to see that nothing is left.
    for rounds in [5, 6, 100] {
        assert_eq!(expand_macros_within(input.clone(), rounds), Ok(whole.clone()));
    }
    for rounds in 0..5 {
        assert_eq!(expand_macros_within(input.clone(), rounds), Err(Refusal::OutOfRounds));
    }
}

#[test]
fn a_symbol_keeps_its_canonical_form() {
    let symbol = repeat(RepeatOp::Star, group(vec![usage("Args", vec![nt("X")]), nt("Y")]));
    let text = symbol.canonical_form();
    let mut input = tiers();
    input.items.push(item("X", vec![], vec![alt(vec![symbol])]));
    let out = expand_macros(input).unwrap();
    let folded = nonterminals(&out)
        .into_iter()
        .find(|data| data.name.0 == "X")
        .map(|data| data.alternatives[0].expr.symbols[0].canonical_form());
    assert_eq!(folded, Some(text));
}

#[test]
fn an_error_comes_from_a_symbol_in_use() {
    // Nothing in the plain items is wrong: it is the expansion of Args that brings it in.
    let mut input = tiers();
    input.items.remove(0);
    let error = expand_macros(input).unwrap_err();
    assert_eq!(error.message, "no macro definition found for `Comma`");
}
