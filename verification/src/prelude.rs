//! The names that every program starts with.

use crate::env::Environment;
use crate::symbol::{symbol_of, Symbol, SymbolTable};
use crate::types::Type;
use vstd::prelude::*;

verus! {

broadcast use vstd::std_specs::hash::group_hash_axioms;

/// Binds the built-in names in the innermost scope of `env`: `int` names
/// the integer type of 32 bits. The names get their symbols from `symbols`.
pub fn load_prelude(env: &mut Environment<Symbol, Type>, symbols: &mut SymbolTable)
    requires
        old(env).wf(),
        old(symbols).wf(),
    ensures
        final(env).wf(),
        final(symbols).wf(),
        final(symbols)@ == (if old(symbols)@.contains(Some("int"@)) {
            old(symbols)@
        } else {
            old(symbols)@.push(Some("int"@))
        }),
        final(env)@ == old(env)@.update(
            old(env)@.len() - 1,
            old(env)@.last().insert(symbol_of(final(symbols)@, "int"@) as Symbol, Type::Int32),
        ),
{
    let name: Symbol = symbols.intern("int");
    env.insert(name, Type::Int32);
}

} // verus!
