//! Whole grammars and what they expand to.
use macro_expand::expand_macros;
use macro_expand::parse_tree::{
    Alternative, Condition, ConditionOp, Conversion, ExprSymbol, Grammar, GrammarItem,
    MacroSymbol, NonterminalData, NonterminalString, Parameter, RepeatOp, RepeatSymbol, Span,
    Symbol, SymbolKind, TerminalString, TokenTypeData, TypeRef,
};

/// The position of everything that a grammar has.
const HERE: Span = Span(1, 2);

fn id(name: &str) -> NonterminalString {
    NonterminalString(name.to_string())
}

fn at(kind: SymbolKind) -> Symbol {
    Symbol::new(HERE, kind)
}

fn term(name: &str) -> Symbol {
    at(SymbolKind::Terminal(TerminalString(name.to_string())))
}

fn nt(name: &str) -> Symbol {
    at(SymbolKind::Nonterminal(id(name)))
}

fn group(symbols: Vec<Symbol>) -> Symbol {
    at(SymbolKind::Expr(ExprSymbol { symbols }))
}

fn usage(name: &str, args: Vec<Symbol>) -> Symbol {
    at(SymbolKind::Macro(MacroSymbol { name: id(name), args }))
}

fn repeat(op: RepeatOp, symbol: Symbol) -> Symbol {
    at(SymbolKind::Repeat(Box::new(RepeatSymbol { op, symbol })))
}

fn chosen(symbol: Symbol) -> Symbol {
    at(SymbolKind::Choose(Box::new(symbol)))
}

fn name(id: &str, symbol: Symbol) -> Symbol {
    at(SymbolKind::Name(id.to_string(), Box::new(symbol)))
}

fn alt(symbols: Vec<Symbol>, action: Option<&str>) -> Alternative {
    Alternative {
        span: HERE,
        expr: ExprSymbol { symbols },
        condition: None,
        action: action.map(|code| code.to_string()),
    }
}

fn alt_if(lhs: &str, op: ConditionOp, rhs: &str, action: &str) -> Alternative {
    Alternative {
        span: HERE,
        expr: ExprSymbol { symbols: vec![nt(lhs)] },
        condition: Some(Condition { span: HERE, lhs: id(lhs), rhs: rhs.to_string(), op }),
        action: Some(action.to_string()),
    }
}

fn rule(name: &str, ty: Option<TypeRef>, alternatives: Vec<Alternative>) -> GrammarItem {
    macro_rule(name, vec![], ty, alternatives)
}

fn macro_rule(
    name: &str,
    params: Vec<&str>,
    type_decl: Option<TypeRef>,
    alternatives: Vec<Alternative>,
) -> GrammarItem {
    GrammarItem::Nonterminal(NonterminalData {
        public: false,
        span: HERE,
        name: id(name),
        args: params.into_iter().map(id).collect(),
        type_decl,
        alternatives,
    })
}

fn path(names: Vec<&str>, types: Vec<TypeRef>) -> TypeRef {
    TypeRef::Nominal { path: names.into_iter().map(|n| n.to_string()).collect(), types }
}

fn of(symbol: Symbol) -> TypeRef {
    TypeRef::OfSymbol(symbol.kind)
}

fn vec_of(symbol: Symbol) -> TypeRef {
    path(vec!["std", "vec", "Vec"], vec![of(symbol)])
}

fn option_of(symbol: Symbol) -> TypeRef {
    path(vec!["std", "option", "Option"], vec![of(symbol)])
}

fn grammar(items: Vec<GrammarItem>) -> Grammar {
    Grammar { span: Span(0, 99), type_parameters: vec![], parameters: vec![], items }
}

fn expanded(items: Vec<GrammarItem>) -> Vec<GrammarItem> {
    expand_macros(grammar(items)).unwrap().items
}

const PUSH: &str = "{ let mut v = v; v.push(e); v }";

#[test]
fn empty_grammar() {
    assert_eq!(expand_macros(grammar(vec![])), Ok(grammar(vec![])));
}

#[test]
fn comma_separated_list() {
    // Ids = Comma<"Id">;
    // Comma<E>: Vec<E> = ~v:(~E ",")* ~e:E? => v.into_iter().chain(e).collect();
    let comma = macro_rule(
        "Comma",
        vec!["E"],
        Some(path(vec!["Vec"], vec![TypeRef::Id("E".to_string())])),
        vec![alt(
            vec![
                name("v", repeat(RepeatOp::Star, group(vec![chosen(nt("E")), term(",")]))),
                name("e", repeat(RepeatOp::Question, nt("E"))),
            ],
            Some("v.into_iter().chain(e).collect()"),
        )],
    );
    let ids = rule("Ids", None, vec![alt(vec![usage("Comma", vec![term("Id")])], None)]);

    let pair = "(~\"Id\" \",\")";
    let pairs = "(~\"Id\" \",\")*";
    let maybe = "\"Id\"?";
    assert_eq!(
        expanded(vec![ids, comma]),
        vec![
            rule("Ids", None, vec![alt(vec![nt("Comma<\"Id\">")], None)]),
            rule(
                "Comma<\"Id\">",
                Some(path(vec!["Vec"], vec![of(term("Id"))])),
                vec![alt(
                    vec![name("v", nt(pairs)), name("e", nt(maybe))],
                    Some("v.into_iter().chain(e).collect()"),
                )],
            ),
            // What is found last is expanded first.
            rule(
                maybe,
                Some(option_of(term("Id"))),
                vec![
                    alt(vec![term("Id")], Some("Some(~~)")),
                    alt(vec![], Some("None")),
                ],
            ),
            rule(
                pairs,
                Some(vec_of(nt(pair))),
                vec![
                    alt(vec![], Some("vec![]")),
                    alt(vec![name("v", nt(pairs)), name("e", nt(pair))], Some(PUSH)),
                ],
            ),
            rule(
                pair,
                Some(of(term("Id"))),
                vec![alt(vec![chosen(term("Id")), term(",")], Some("(~~)"))],
            ),
        ]
    );
}

#[test]
fn star_is_a_list_that_may_be_empty() {
    let items = vec![rule("S", None, vec![alt(vec![repeat(RepeatOp::Star, nt("A"))], None)])];
    assert_eq!(
        expanded(items),
        vec![
            rule("S", None, vec![alt(vec![nt("A*")], None)]),
            rule(
                "A*",
                Some(vec_of(nt("A"))),
                vec![
                    alt(vec![], Some("vec![]")),
                    alt(vec![name("v", nt("A*")), name("e", nt("A"))], Some(PUSH)),
                ],
            ),
        ]
    );
}

#[test]
fn plus_is_a_list_that_is_not_empty() {
    let items = vec![rule("S", None, vec![alt(vec![repeat(RepeatOp::Plus, nt("A"))], None)])];
    assert_eq!(
        expanded(items),
        vec![
            rule("S", None, vec![alt(vec![nt("A+")], None)]),
            rule(
                "A+",
                Some(vec_of(nt("A"))),
                vec![
                    alt(vec![nt("A")], Some("vec![~~]")),
                    alt(vec![name("v", nt("A+")), name("e", nt("A"))], Some(PUSH)),
                ],
            ),
        ]
    );
}

#[test]
fn question_is_an_option() {
    let items = vec![rule("S", None, vec![alt(vec![repeat(RepeatOp::Question, nt("A"))], None)])];
    assert_eq!(
        expanded(items),
        vec![
            rule("S", None, vec![alt(vec![nt("A?")], None)]),
            rule(
                "A?",
                Some(option_of(nt("A"))),
                vec![alt(vec![nt("A")], Some("Some(~~)")), alt(vec![], Some("None"))],
            ),
        ]
    );
}

#[test]
fn groups_yield_tuples() {
    let items = vec![rule("S", None, vec![alt(vec![group(vec![nt("A"), nt("B")])], None)])];
    assert_eq!(
        expanded(items),
        vec![
            rule("S", None, vec![alt(vec![nt("(A B)")], None)]),
            rule(
                "(A B)",
                Some(TypeRef::Tuple(vec![of(nt("A")), of(nt("B"))])),
                vec![alt(vec![nt("A"), nt("B")], Some("(~~)"))],
            ),
        ]
    );
}

#[test]
fn empty_groups_yield_the_empty_tuple() {
    let items = vec![rule("S", None, vec![alt(vec![group(vec![])], None)])];
    assert_eq!(
        expanded(items)[1],
        rule("()", Some(TypeRef::Tuple(vec![])), vec![alt(vec![], Some("(~~)"))])
    );
}

#[test]
fn names_at_the_top_stay() {
    let items = vec![rule(
        "S",
        None,
        vec![alt(vec![name("x", repeat(RepeatOp::Star, nt("A"))), chosen(nt("B"))], Some("x"))],
    )];
    assert_eq!(
        expanded(items)[0],
        rule("S", None, vec![alt(vec![name("x", nt("A*")), chosen(nt("B"))], Some("x"))])
    );
}

#[test]
fn inner_uses_are_expanded_after_outer_ones() {
    // The stack gives back the outer symbol first.
    let items = vec![rule(
        "S",
        None,
        vec![alt(vec![repeat(RepeatOp::Star, repeat(RepeatOp::Question, nt("A")))], None)],
    )];
    let out = expanded(items);
    let names: Vec<String> = out
        .iter()
        .map(|item| match item {
            GrammarItem::Nonterminal(data) => data.name.0.clone(),
            _ => unreachable!(),
        })
        .collect();
    assert_eq!(names, vec!["S", "A?*", "A?"]);
}

#[test]
fn types_are_resolved() {
    // M<E>: (E, T, 'a, ns::P<E>, #A#) = E;
    let ty = TypeRef::Tuple(vec![
        TypeRef::Id("E".to_string()),
        TypeRef::Id("T".to_string()),
        TypeRef::Lifetime("'a".to_string()),
        path(vec!["ns", "P"], vec![TypeRef::Id("E".to_string())]),
        of(nt("E")),
    ]);
    let out = expanded(vec![
        rule("S", None, vec![alt(vec![usage("M", vec![nt("A")])], None)]),
        macro_rule("M", vec!["E"], Some(ty), vec![alt(vec![nt("E")], None)]),
    ]);
    let resolved = TypeRef::Tuple(vec![
        of(nt("A")),
        path(vec!["T"], vec![]),
        TypeRef::Lifetime("'a".to_string()),
        path(vec!["ns", "P"], vec![of(nt("A"))]),
        of(nt("E")),
    ]);
    assert_eq!(out[1], rule("M<A>", Some(resolved), vec![alt(vec![nt("A")], None)]));
}

#[test]
fn parameters_are_replaced_everywhere_in_a_body() {
    // M<E> = E "x" (E ~E) E* ~y:E N<E> Other;
    let body = vec![
        nt("E"),
        term("E"),
        group(vec![nt("E"), chosen(nt("E"))]),
        repeat(RepeatOp::Star, nt("E")),
        name("E", nt("E")),
        usage("N", vec![nt("E")]),
        nt("Other"),
    ];
    let out = expanded(vec![
        rule("S", None, vec![alt(vec![usage("M", vec![nt("A")])], None)]),
        macro_rule("M", vec!["E"], None, vec![alt(body, None)]),
        macro_rule("N", vec!["F"], None, vec![alt(vec![nt("F"), nt("E")], None)]),
    ]);
    assert_eq!(
        out[1],
        rule(
            "M<A>",
            None,
            vec![alt(
                vec![
                    nt("A"),
                    term("E"),
                    nt("(A ~A)"),
                    nt("A*"),
                    name("E", nt("A")),
                    nt("N<A>"),
                    nt("Other"),
                ],
                None,
            )],
        )
    );
    // A parameter of one macro means nothing in another.
    assert_eq!(out[2], rule("N<A>", None, vec![alt(vec![nt("A"), nt("E")], None)]));
}

fn kept_actions(lhs: &str) -> Vec<String> {
    let conditional = macro_rule(
        "M",
        vec!["E"],
        None,
        vec![
            alt_if("E", ConditionOp::Equals, "Id", "equals"),
            alt_if("E", ConditionOp::NotEquals, "Id", "differs"),
            alt_if("E", ConditionOp::Match, "^[A-Z]", "matches"),
            alt_if("E", ConditionOp::NotMatch, "^[A-Z]", "does not match"),
            alt(vec![nt("E")], Some("always")),
        ],
    );
    let out = expanded(vec![
        rule("S", None, vec![alt(vec![usage("M", vec![term(lhs)])], None)]),
        conditional,
    ]);
    match &out[1] {
        GrammarItem::Nonterminal(data) => {
            for alternative in &data.alternatives {
                assert_eq!(alternative.condition, None);
                assert_eq!(alternative.expr.symbols, vec![term(lhs)]);
            }
            data.alternatives.iter().map(|a| a.action.clone().unwrap()).collect()
        }
        _ => unreachable!(),
    }
}

#[test]
fn conditions_keep_alternatives() {
    assert_eq!(kept_actions("Id"), vec!["equals", "matches", "always"]);
    assert_eq!(kept_actions("Num"), vec!["differs", "matches", "always"]);
    assert_eq!(kept_actions("num"), vec!["differs", "does not match", "always"]);
}

#[test]
fn patterns_match_anywhere() {
    let m = macro_rule("M", vec!["E"], None, vec![alt_if("E", ConditionOp::Match, "b+", "yes")]);
    let s = rule(
        "S",
        None,
        vec![alt(vec![usage("M", vec![term("abbc")]), usage("M", vec![term("ac")])], None)],
    );
    let out = expanded(vec![s, m]);
    assert_eq!(out[1], rule("M<\"ac\">", None, vec![]));
    assert_eq!(out[2], rule("M<\"abbc\">", None, vec![alt(vec![term("abbc")], Some("yes"))]));
}

#[test]
fn the_last_of_equal_macros_counts() {
    let out = expanded(vec![
        macro_rule("M", vec!["E"], None, vec![alt(vec![nt("E")], Some("first"))]),
        rule("S", None, vec![alt(vec![usage("M", vec![nt("A")])], None)]),
        macro_rule("M", vec!["F"], None, vec![alt(vec![nt("F")], Some("last"))]),
    ]);
    assert_eq!(out.len(), 2);
    assert_eq!(out[1], rule("M<A>", None, vec![alt(vec![nt("A")], Some("last"))]));
}

#[test]
fn the_last_of_equal_parameters_counts() {
    let out = expanded(vec![
        rule("S", None, vec![alt(vec![usage("M", vec![nt("A"), nt("B")])], None)]),
        macro_rule("M", vec!["E", "E"], None, vec![alt(vec![nt("E")], None)]),
    ]);
    assert_eq!(out[1], rule("M<A, B>", None, vec![alt(vec![nt("B")], None)]));
}

#[test]
fn a_macro_and_a_nonterminal_may_share_a_name() {
    let out = expanded(vec![
        rule("M", None, vec![alt(vec![usage("M", vec![nt("M")])], None)]),
        macro_rule("M", vec!["E"], None, vec![alt(vec![nt("E")], None)]),
    ]);
    assert_eq!(
        out,
        vec![
            rule("M", None, vec![alt(vec![nt("M<M>")], None)]),
            rule("M<M>", None, vec![alt(vec![nt("M")], None)]),
        ]
    );
}

#[test]
fn expansions_of_public_macros_are_public() {
    let public = GrammarItem::Nonterminal(NonterminalData {
        public: true,
        span: Span(50, 60),
        name: id("M"),
        args: vec![id("E")],
        type_decl: None,
        alternatives: vec![alt(vec![nt("E")], None)],
    });
    let out =
        expanded(vec![rule("S", None, vec![alt(vec![usage("M", vec![nt("A")])], None)]), public]);
    match &out[1] {
        GrammarItem::Nonterminal(data) => {
            assert!(data.public);
            assert_eq!(data.span, HERE);
        }
        _ => unreachable!(),
    }
}

#[test]
fn expansions_stand_where_the_first_use_does() {
    let first = Symbol::new(Span(10, 11), repeat(RepeatOp::Star, nt("A")).kind);
    let second = Symbol::new(Span(20, 21), repeat(RepeatOp::Star, nt("A")).kind);
    let out = expanded(vec![rule("S", None, vec![alt(vec![first, second], None)])]);
    assert_eq!(out.len(), 2);
    match (&out[0], &out[1]) {
        (GrammarItem::Nonterminal(s), GrammarItem::Nonterminal(star)) => {
            // Each use keeps its own position, and both name the same nonterminal.
            let symbols = &s.alternatives[0].expr.symbols;
            assert_eq!(symbols[0], Symbol::new(Span(10, 11), nt("A*").kind));
            assert_eq!(symbols[1], Symbol::new(Span(20, 21), nt("A*").kind));
            assert_eq!(star.span, Span(10, 11));
            assert_eq!(star.alternatives[0].span, Span(10, 11));
            assert_eq!(star.alternatives[1].span, Span(10, 11));
        }
        _ => unreachable!(),
    }
}

#[test]
fn recursive_macros_with_the_same_arguments_end() {
    // List<E> = { E; List<E> "," E };
    let out = expanded(vec![
        rule("S", None, vec![alt(vec![usage("List", vec![nt("A")])], None)]),
        macro_rule(
            "List",
            vec!["E"],
            None,
            vec![
                alt(vec![nt("E")], None),
                alt(vec![usage("List", vec![nt("E")]), term(","), nt("E")], None),
            ],
        ),
    ]);
    assert_eq!(
        out[1..],
        [rule(
            "List<A>",
            None,
            vec![alt(vec![nt("A")], None), alt(vec![nt("List<A>"), term(","), nt("A")], None)],
        )]
    );
}

#[test]
fn the_rest_of_a_grammar_stays() {
    let token = GrammarItem::TokenType(TokenTypeData {
        span: HERE,
        ty: TypeRef::Id("Tok".to_string()),
        conversions: vec![Conversion {
            span: HERE,
            from: TerminalString("Id".to_string()),
            to: "Tok::Id(..)".to_string(),
        }],
    });
    let import = GrammarItem::Use("ast::Expr".to_string());
    let input = Grammar {
        span: Span(4, 44),
        type_parameters: vec!["'a".to_string(), "T".to_string()],
        parameters: vec![Parameter {
            name: "text".to_string(),
            ty: path(vec!["str"], vec![TypeRef::Lifetime("'a".to_string())]),
        }],
        items: vec![
            import.clone(),
            rule("S", None, vec![alt(vec![nt("A")], None)]),
            macro_rule("M", vec!["E"], None, vec![]),
            token.clone(),
        ],
    };
    let expected = Grammar {
        items: vec![import, rule("S", None, vec![alt(vec![nt("A")], None)]), token],
        ..input.clone()
    };
    assert_eq!(expand_macros(input), Ok(expected));
}

#[test]
fn conditions_of_plain_nonterminals_are_not_tested() {
    let item = rule("S", None, vec![alt_if("E", ConditionOp::Match, "(", "never")]);
    assert_eq!(expanded(vec![item.clone()]), vec![item]);
}
