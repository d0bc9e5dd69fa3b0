use vstd::prelude::*;

use super::ast::AssemblyType;

verus! {

/// What the back end knows of a name: an object with its size class and whether it lives in
/// static storage, or a function and whether it is defined in this translation unit.
#[derive(Debug, Clone, Copy, PartialEq, Eq, Structural)]
pub enum SymbolTableEntry {
    Object { assembly_type: AssemblyType, is_static: bool },
    Function { is_defined: bool },
}

} // verus!
