//! Reduction engines for closed terms of the untyped lambda calculus.
//!
//! Every engine takes the same [`tree::Tree`], rewrites a representation of
//! its own until no redex is left, and reads the result back as a Church
//! numeral. The engines are the normal-order reducer on lexical indices
//! ([`normal`]), the CEK machine ([`cek`]), the evaluator in the style of
//! higher-order abstract syntax ([`hoas`]), the graph reducer ([`dag`]) and
//! the interaction net ([`optimal`]). The expressions that terms are made
//! from are in [`expr`]; what is proved of their terms is in [`scoping`].

pub mod tree;
pub mod strategy;
pub mod expr;
pub mod normal;
pub mod cek;
pub mod dag;
pub mod hoas;
pub mod optimal;
pub mod scoping;
