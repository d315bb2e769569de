//! A compiler from a small declaration language for game entities
//! (properties, traits and events) to duplicate-checked, auto-indexed
//! registries.
//!
//! The crate has three parts. [`syntax`] turns source text into a tagged
//! concrete syntax tree, by ordered choice and backtracking over a fixed
//! grammar, and the tree into typed nodes. [`vm`] folds the operands and
//! operators of an expression into an expression tree by precedence
//! climbing, and ingests declarations into registries that assign or check
//! their positive indices. [`errors`] holds the diagnostics shared by all of
//! them, and [`helper`] the text of places for people to read.
//!
//! Contracts are stated over mathematical models: a text is a sequence of
//! characters, a syntax tree is a [`syntax::cst::CstTree`], a registry is a
//! [`vm::registry::RegistryView`], and an error is an [`errors::Failure`].

pub mod errors;
pub mod helper;
pub mod syntax;
pub mod vm;

pub use crate::errors::{LifeError, LifeErrorKind, LifeResult};
