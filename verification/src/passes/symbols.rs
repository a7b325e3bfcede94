use vstd::prelude::*;

verus! {

/// The symbols that a pass over the syntax tree collects; it holds none yet.
pub struct SymbolTable {}

} // verus!
