//! The evaluation engine of a small interpreted scripting language: it
//! walks an already-parsed abstract syntax tree, keeps a scope-keyed
//! binding store, enforces mutability rules, coerces between value kinds,
//! and collects console output as text chunks for a front end to emit.

use vstd::prelude::*;

pub mod ast;
pub mod env;
pub mod interp;
pub mod numeric;
pub mod sem;
pub mod value;

verus! {

/// A depth budget ample for ordinary programs; nested evaluation deeper
/// than this stops with `RecursionLimit`.
pub const DEFAULT_FUEL: u64 = 4096;

} // verus!
