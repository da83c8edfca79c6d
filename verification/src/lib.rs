//! A verified rewrite engine for JavaScript module trees.
//!
//! The engine works on a small syntax-tree model ([`ast`]) in which every
//! identifier carries the tag of the lexical scope that declares it. A
//! parser and a scope resolver produce such a tree, and a printer writes it
//! out again; neither is part of this crate.
//!
//! Three passes are offered, and [`pipeline`] runs them in their order:
//! splitting the imports of a component package into one import per
//! component ([`babel_import`]), adding the default import that the classic
//! JSX runtime needs ([`react`]), and deleting the calls of the framework's
//! effect hook ([`remove_effect`]). [`visit`] finds out which names a module
//! uses, [`clear_mark`] takes the scope tags off a tree, [`text`] expands
//! path templates, and [`types`] holds the configuration.
//!
//! Every function states what it returns over the views of its arguments,
//! and the laws that relate the passes are proved beside them.
pub mod ast;
pub mod babel_import;
pub mod clear_mark;
pub mod pipeline;
pub mod react;
pub mod remove_effect;
pub mod text;
pub mod types;
pub mod visit;
