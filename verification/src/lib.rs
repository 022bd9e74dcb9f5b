//! Verified core of a Solidity/Vyper compiler toolkit: source maps, contract
//! identifiers, AST locations, source filters, build contexts and more.

pub mod text;
pub mod hashing;
pub mod sourcemap;
pub mod info;
pub mod ast;
pub mod vyper;
pub mod paths;
pub mod order;
pub mod contracts;
pub mod output;
pub mod selection;
pub mod version;
pub mod sources;
pub mod artifacts;
pub mod buildinfo;
pub mod filter;
pub mod iface;
pub mod dual;
pub mod dual_deps;
pub mod parse;
pub mod declarations;
pub mod resolc;
pub mod preprocess;
pub mod profiles;
pub mod multi;
