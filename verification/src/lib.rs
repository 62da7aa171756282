//! A verified core for a trait-mocking framework.
//!
//! The crate models the pieces that make up a mocking DSL: the statement
//! model shared by stub ("given") and interaction ("expect") declarations,
//! the registry that deduplicates requested trait usages into stable numeric
//! identifiers, the type-parameter instantiation used to turn generic trait
//! signatures into concrete ones, the DSL parser, and the runtime engine
//! that matches calls against registered behaviours.

pub mod behaviour;
pub mod data;
pub mod generate;
pub mod implementers;
pub mod mock;
pub mod parser;
pub mod scan;
pub mod session;
mod strutil;
pub mod tokens;
pub mod type_param_mapper;
pub mod unifier;

pub use strutil::str_eq;
pub use strutil::usize_to_string;
