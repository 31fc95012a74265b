//! The parse tree of a grammar, and the mathematical model of each of its types.
//!
//! Every type has a `view`: the same tree with `Seq<char>` for each text and `Seq` for each
//! list. Contracts speak of views alone. The view of a symbol is recursive through the lists
//! that it holds, so it is an inherent function; `symbol@` stands for it as usual.
use vstd::prelude::*;

verus! {

/// A range of positions in the grammar's source text.
#[derive(Clone, Copy, Debug, PartialEq, Eq, Structural)]
pub struct Span(pub usize, pub usize);

/// The name of a terminal, without the quotes that it is written in.
#[derive(Debug, PartialEq, Eq)]
pub struct TerminalString(pub String);

/// The name of a nonterminal, of a macro or of a macro's parameter.
#[derive(Debug, PartialEq, Eq)]
pub struct NonterminalString(pub String);

/// A whole grammar. Macro expansion reads and rewrites its items and leaves the rest alone.
#[derive(Clone, Debug, PartialEq, Eq)]
pub struct Grammar {
    pub span: Span,
    pub type_parameters: Vec<String>,
    pub parameters: Vec<Parameter>,
    pub items: Vec<GrammarItem>,
}

/// A parameter of the parser that the grammar describes.
#[derive(Clone, Debug, PartialEq, Eq)]
pub struct Parameter {
    pub name: String,
    pub ty: TypeRef,
}

#[derive(Clone, Debug, PartialEq, Eq)]
pub enum GrammarItem {
    TokenType(TokenTypeData),
    Nonterminal(NonterminalData),
    Use(String),
}

#[derive(Clone, Debug, PartialEq, Eq)]
pub struct TokenTypeData {
    pub span: Span,
    pub ty: TypeRef,
    pub conversions: Vec<Conversion>,
}

#[derive(Clone, Debug, PartialEq, Eq)]
pub struct Conversion {
    pub span: Span,
    pub from: TerminalString,
    pub to: String,
}

#[derive(Debug, PartialEq, Eq)]
pub enum TypeRef {
    /// `(T1, T2)`
    Tuple(Vec<TypeRef>),
    /// `Foo<'a, T1>`, `foo::Bar`
    Nominal { path: Vec<String>, types: Vec<TypeRef> },
    /// `'a`
    Lifetime(String),
    /// The type of the value that a symbol yields.
    OfSymbol(SymbolKind),
    /// A bare name: inside a macro it may be a parameter.
    Id(String),
}

/// A nonterminal, or a macro: a macro is a nonterminal with parameters.
#[derive(Clone, Debug, PartialEq, Eq)]
pub struct NonterminalData {
    pub public: bool,
    pub span: Span,
    pub name: NonterminalString,
    pub args: Vec<NonterminalString>,
    pub type_decl: Option<TypeRef>,
    pub alternatives: Vec<Alternative>,
}

#[derive(Clone, Debug, PartialEq, Eq)]
pub struct Alternative {
    pub span: Span,
    pub expr: ExprSymbol,
    /// `if C`, legal in a macro only.
    pub condition: Option<Condition>,
    /// `=> code`
    pub action: Option<String>,
}

/// `lhs op "rhs"`, where `lhs` is a parameter of the enclosing macro.
#[derive(Clone, Debug, PartialEq, Eq)]
pub struct Condition {
    pub span: Span,
    pub lhs: NonterminalString,
    pub rhs: String,
    pub op: ConditionOp,
}

#[derive(Clone, Copy, Debug, PartialEq, Eq, Structural)]
pub enum ConditionOp {
    Equals,
    NotEquals,
    Match,
    NotMatch,
}

#[derive(Debug, PartialEq, Eq)]
pub struct Symbol {
    pub span: Span,
    pub kind: SymbolKind,
}

#[derive(Debug, PartialEq, Eq)]
pub enum SymbolKind {
    /// `(X Y)`
    Expr(ExprSymbol),
    /// `"foo"`
    Terminal(TerminalString),
    /// `Foo`
    Nonterminal(NonterminalString),
    /// `Foo<X, Y>`
    Macro(MacroSymbol),
    /// `X*`, `X+`, `X?`
    Repeat(Box<RepeatSymbol>),
    /// `~X`
    Choose(Box<Symbol>),
    /// `~x:X`
    Name(String, Box<Symbol>),
}

#[derive(Clone, Copy, Debug, PartialEq, Eq, Structural)]
pub enum RepeatOp {
    Star,
    Plus,
    Question,
}

#[derive(Debug, PartialEq, Eq)]
pub struct RepeatSymbol {
    pub op: RepeatOp,
    pub symbol: Symbol,
}

#[derive(Debug, PartialEq, Eq)]
pub struct ExprSymbol {
    pub symbols: Vec<Symbol>,
}

#[derive(Debug, PartialEq, Eq)]
pub struct MacroSymbol {
    pub name: NonterminalString,
    pub args: Vec<Symbol>,
}

/// The model of a [`Symbol`].
#[verifier::ext_equal]
pub struct SymbolView {
    pub span: Span,
    pub kind: KindView,
}

/// The model of a [`SymbolKind`].
#[verifier::ext_equal]
pub enum KindView {
    Expr(Seq<SymbolView>),
    Terminal(Seq<char>),
    Nonterminal(Seq<char>),
    Macro(Seq<char>, Seq<SymbolView>),
    Repeat(RepeatOp, Box<SymbolView>),
    Choose(Box<SymbolView>),
    Name(Seq<char>, Box<SymbolView>),
}

/// The model of a [`TypeRef`].
#[verifier::ext_equal]
pub enum TypeView {
    Tuple(Seq<TypeView>),
    Nominal { path: Seq<Seq<char>>, types: Seq<TypeView> },
    Lifetime(Seq<char>),
    OfSymbol(KindView),
    Id(Seq<char>),
}

/// The model of a [`Condition`].
#[verifier::ext_equal]
pub struct ConditionView {
    pub span: Span,
    pub lhs: Seq<char>,
    pub rhs: Seq<char>,
    pub op: ConditionOp,
}

/// The model of an [`Alternative`].
#[verifier::ext_equal]
pub struct AlternativeView {
    pub span: Span,
    pub expr: Seq<SymbolView>,
    pub condition: Option<ConditionView>,
    pub action: Option<Seq<char>>,
}

/// The model of a [`NonterminalData`].
#[verifier::ext_equal]
pub struct NonterminalView {
    pub public: bool,
    pub span: Span,
    pub name: Seq<char>,
    pub args: Seq<Seq<char>>,
    pub type_decl: Option<TypeView>,
    pub alternatives: Seq<AlternativeView>,
}

/// The model of a [`GrammarItem`]. A token type is carried through as it is.
#[verifier::ext_equal]
pub enum ItemView {
    TokenType(TokenTypeData),
    Nonterminal(NonterminalView),
    Use(Seq<char>),
}

impl Symbol {
    pub open spec fn view(&self) -> SymbolView
        decreases self,
    {
        SymbolView { span: self.span, kind: self.kind.view() }
    }

    pub fn new(span: Span, kind: SymbolKind) -> (symbol: Symbol)
        ensures
            symbol.span == span,
            symbol.kind == kind,
    {
        Symbol { span, kind }
    }
}

impl SymbolKind {
    pub open spec fn view(&self) -> KindView
        decreases self,
    {
        match *self {
            SymbolKind::Expr(expr) => KindView::Expr(symbols_view(expr.symbols@)),
            SymbolKind::Terminal(name) => KindView::Terminal(name.0@),
            SymbolKind::Nonterminal(name) => KindView::Nonterminal(name.0@),
            SymbolKind::Macro(m) => KindView::Macro(m.name.0@, symbols_view(m.args@)),
            SymbolKind::Repeat(r) => KindView::Repeat(r.op, Box::new(r.symbol.view())),
            SymbolKind::Choose(symbol) => KindView::Choose(Box::new(symbol.view())),
            SymbolKind::Name(name, symbol) => KindView::Name(name@, Box::new(symbol.view())),
        }
    }
}

/// The models of the symbols of a list, in order.
pub open spec fn symbols_view(symbols: Seq<Symbol>) -> Seq<SymbolView>
    decreases symbols,
{
    Seq::new(
        symbols.len(),
        |i: int|
            if 0 <= i < symbols.len() {
                symbols[i].view()
            } else {
                arbitrary()
            },
    )
}

impl ExprSymbol {
    pub open spec fn view(&self) -> Seq<SymbolView> {
        symbols_view(self.symbols@)
    }
}

impl MacroSymbol {
    pub open spec fn view(&self) -> KindView {
        KindView::Macro(self.name.0@, symbols_view(self.args@))
    }
}

impl RepeatSymbol {
    pub open spec fn view(&self) -> KindView {
        KindView::Repeat(self.op, Box::new(self.symbol.view()))
    }
}

impl TypeRef {
    pub open spec fn view(&self) -> TypeView
        decreases self,
    {
        match *self {
            TypeRef::Tuple(types) => TypeView::Tuple(types_view(types@)),
            TypeRef::Nominal { path, types } => TypeView::Nominal {
                path: texts_view(path@),
                types: types_view(types@),
            },
            TypeRef::Lifetime(name) => TypeView::Lifetime(name@),
            TypeRef::OfSymbol(kind) => TypeView::OfSymbol(kind.view()),
            TypeRef::Id(name) => TypeView::Id(name@),
        }
    }
}

/// The models of the types of a list, in order.
pub open spec fn types_view(types: Seq<TypeRef>) -> Seq<TypeView>
    decreases types,
{
    Seq::new(
        types.len(),
        |i: int|
            if 0 <= i < types.len() {
                types[i].view()
            } else {
                arbitrary()
            },
    )
}

/// The characters of each text of a list, in order.
pub open spec fn texts_view(texts: Seq<String>) -> Seq<Seq<char>> {
    texts.map_values(|text: String| text@)
}

/// The characters of each name of a list, in order.
pub open spec fn names_view(names: Seq<NonterminalString>) -> Seq<Seq<char>> {
    names.map_values(|name: NonterminalString| name.0@)
}

impl Condition {
    pub open spec fn view(&self) -> ConditionView {
        ConditionView { span: self.span, lhs: self.lhs.0@, rhs: self.rhs@, op: self.op }
    }
}

/// The model of a condition that may be absent.
pub open spec fn condition_view(condition: Option<Condition>) -> Option<ConditionView> {
    match condition {
        Some(c) => Some(c.view()),
        None => None,
    }
}

/// The model of a type declaration that may be absent.
pub open spec fn type_decl_view(type_decl: Option<TypeRef>) -> Option<TypeView> {
    match type_decl {
        Some(ty) => Some(ty.view()),
        None => None,
    }
}

/// The characters of action code that may be absent.
pub open spec fn action_view(action: Option<String>) -> Option<Seq<char>> {
    match action {
        Some(code) => Some(code@),
        None => None,
    }
}

impl Alternative {
    pub open spec fn view(&self) -> AlternativeView {
        AlternativeView {
            span: self.span,
            expr: self.expr.view(),
            condition: condition_view(self.condition),
            action: action_view(self.action),
        }
    }
}

/// The models of the alternatives of a list, in order.
pub open spec fn alternatives_view(alternatives: Seq<Alternative>) -> Seq<AlternativeView> {
    alternatives.map_values(|alternative: Alternative| alternative.view())
}

impl NonterminalData {
    pub open spec fn view(&self) -> NonterminalView {
        NonterminalView {
            public: self.public,
            span: self.span,
            name: self.name.0@,
            args: names_view(self.args@),
            type_decl: type_decl_view(self.type_decl),
            alternatives: alternatives_view(self.alternatives@),
        }
    }

    /// Whether this is a macro: a nonterminal with parameters.
    pub fn is_macro_def(&self) -> (yes: bool)
        ensures
            yes == self@.is_macro_def(),
    {
        self.args.len() != 0
    }
}

impl NonterminalView {
    /// A macro is a nonterminal with parameters.
    pub open spec fn is_macro_def(self) -> bool {
        self.args.len() != 0
    }
}

impl GrammarItem {
    pub open spec fn view(&self) -> ItemView {
        match *self {
            GrammarItem::TokenType(data) => ItemView::TokenType(data),
            GrammarItem::Nonterminal(data) => ItemView::Nonterminal(data.view()),
            GrammarItem::Use(code) => ItemView::Use(code@),
        }
    }

    /// Whether this item defines a macro.
    pub fn is_macro_def(&self) -> (yes: bool)
        ensures
            yes == self@.is_macro_def(),
    {
        match self {
            GrammarItem::Nonterminal(data) => data.is_macro_def(),
            GrammarItem::TokenType(_) | GrammarItem::Use(_) => false,
        }
    }
}

impl ItemView {
    /// Whether this item defines a macro.
    pub open spec fn is_macro_def(self) -> bool {
        self is Nonterminal && self->Nonterminal_0.is_macro_def()
    }
}

/// The models of the items of a list, in order.
pub open spec fn items_view(items: Seq<GrammarItem>) -> Seq<ItemView> {
    items.map_values(|item: GrammarItem| item.view())
}

impl Clone for TerminalString {
    fn clone(&self) -> (copy: TerminalString)
        ensures
            copy == *self,
    {
        TerminalString(self.0.clone())
    }
}

impl Clone for NonterminalString {
    fn clone(&self) -> (copy: NonterminalString)
        ensures
            copy == *self,
    {
        NonterminalString(self.0.clone())
    }
}

impl Clone for Symbol {
    fn clone(&self) -> (copy: Symbol)
        ensures
            copy@ == self@,
        decreases self,
    {
        Symbol { span: self.span, kind: self.kind.clone() }
    }
}

impl Clone for SymbolKind {
    fn clone(&self) -> (copy: SymbolKind)
        ensures
            copy@ == self@,
        decreases self,
    {
        match self {
            SymbolKind::Expr(expr) => SymbolKind::Expr(
                ExprSymbol { symbols: clone_symbols(&expr.symbols) },
            ),
            SymbolKind::Terminal(name) => SymbolKind::Terminal(name.clone()),
            SymbolKind::Nonterminal(name) => SymbolKind::Nonterminal(name.clone()),
            SymbolKind::Macro(m) => SymbolKind::Macro(
                MacroSymbol { name: m.name.clone(), args: clone_symbols(&m.args) },
            ),
            SymbolKind::Repeat(r) => SymbolKind::Repeat(
                Box::new(RepeatSymbol { op: r.op, symbol: r.symbol.clone() }),
            ),
            SymbolKind::Choose(symbol) => SymbolKind::Choose(Box::new((**symbol).clone())),
            SymbolKind::Name(name, symbol) => SymbolKind::Name(
                name.clone(),
                Box::new((**symbol).clone()),
            ),
        }
    }
}

/// A copy of a list of symbols.
pub(crate) fn clone_symbols(symbols: &Vec<Symbol>) -> (copy: Vec<Symbol>)
    ensures
        symbols_view(copy@) == symbols_view(symbols@),
    decreases symbols,
{
    let mut copy: Vec<Symbol> = Vec::new();
    for i in 0..symbols.len()
        invariant
            copy.len() == i,
            forall|j: int| 0 <= j < i ==> copy[j]@ == symbols[j]@,
    {
        let symbol = symbols[i].clone();
        copy.push(symbol);
    }
    assert(symbols_view(copy@) =~= symbols_view(symbols@));
    copy
}

impl Clone for ExprSymbol {
    fn clone(&self) -> (copy: ExprSymbol)
        ensures
            copy@ == self@,
    {
        ExprSymbol { symbols: clone_symbols(&self.symbols) }
    }
}

impl Clone for MacroSymbol {
    fn clone(&self) -> (copy: MacroSymbol)
        ensures
            copy@ == self@,
    {
        MacroSymbol { name: self.name.clone(), args: clone_symbols(&self.args) }
    }
}

impl Clone for RepeatSymbol {
    fn clone(&self) -> (copy: RepeatSymbol)
        ensures
            copy@ == self@,
    {
        RepeatSymbol { op: self.op, symbol: self.symbol.clone() }
    }
}

impl Clone for TypeRef {
    fn clone(&self) -> (copy: TypeRef)
        ensures
            copy@ == self@,
        decreases self,
    {
        match self {
            TypeRef::Tuple(types) => TypeRef::Tuple(clone_types(types)),
            TypeRef::Nominal { path, types } => TypeRef::Nominal {
                path: clone_texts(path),
                types: clone_types(types),
            },
            TypeRef::Lifetime(name) => TypeRef::Lifetime(name.clone()),
            TypeRef::OfSymbol(kind) => TypeRef::OfSymbol(kind.clone()),
            TypeRef::Id(name) => TypeRef::Id(name.clone()),
        }
    }
}

/// A copy of a list of types.
pub(crate) fn clone_types(types: &Vec<TypeRef>) -> (copy: Vec<TypeRef>)
    ensures
        types_view(copy@) == types_view(types@),
    decreases types,
{
    let mut copy: Vec<TypeRef> = Vec::new();
    for i in 0..types.len()
        invariant
            copy.len() == i,
            forall|j: int| 0 <= j < i ==> copy[j]@ == types[j]@,
    {
        let ty = types[i].clone();
        copy.push(ty);
    }
    assert(types_view(copy@) =~= types_view(types@));
    copy
}

/// A copy of a list of texts.
pub(crate) fn clone_texts(texts: &Vec<String>) -> (copy: Vec<String>)
    ensures
        copy@ == texts@,
{
    let mut copy: Vec<String> = Vec::new();
    for i in 0..texts.len()
        invariant
            copy@ == texts@.take(i as int),
    {
        copy.push(texts[i].clone());
    }
    assert(texts@.take(texts@.len() as int) =~= texts@);
    copy
}

} // verus!
