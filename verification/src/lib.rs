use vstd::prelude::*;

pub mod argument;
pub mod atom;
pub mod atom_order;
pub mod builtins;
pub mod equality;
pub mod eval;
pub mod exception;
pub mod holevec;
pub mod host;
pub mod newlang;
pub mod object;
pub mod optimizations;
pub mod parser;
pub mod positions;
pub mod semantics;
pub mod span;
pub mod state;
pub mod storage;
pub mod text;
pub mod token;

verus! {
} // verus!
