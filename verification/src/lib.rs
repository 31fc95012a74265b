//! Macro expansion for grammars of a parser generator.
//!
//! A grammar may define macros, nonterminals with parameters, and it may use them, and groups
//! and repetitions, wherever a symbol can stand. Expansion rewrites a grammar into one without
//! any of these: each such use becomes a nonterminal of its own, named by the text of the use.
//!
//! [`grammar`] holds the entry points, [`expander`] the program. What the program computes is
//! stated in [`canonical`], [`fold`], [`subst`], [`expansion`] and [`stage`]; what holds of
//! every expansion is proved in [`laws`], [`history`] and [`termination`].
//!
//! [`shape`] looks at a symbol as a tree. In its terms it is proved what the steps of an
//! expansion do: [`text_laws`], [`fold_laws`], [`subst_laws`], [`macro_laws`], [`group_laws`]
//! and [`course_laws`]; and that nothing dangles in what comes out: [`output_laws`].
//! [`view_laws`] says what the models of the parse tree keep.
pub mod canonical;
pub mod course_laws;
pub mod error;
pub mod expander;
pub mod expansion;
pub mod fold;
pub mod fold_laws;
pub mod grammar;
pub mod group_laws;
pub mod history;
pub mod laws;
pub mod macro_laws;
pub mod norm_util;
pub mod output_laws;
pub mod parse_tree;
pub mod pattern;
pub mod shape;
pub mod stage;
pub mod subst;
pub mod subst_laws;
pub mod termination;
pub mod text_laws;
pub mod view_laws;

pub use grammar::expand_macros;
