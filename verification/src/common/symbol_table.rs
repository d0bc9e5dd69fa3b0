use vstd::prelude::*;

use crate::ast::Type;

verus! {

/// What the compiler knows of a name: its type and how it is stored.
#[derive(Debug)]
pub struct SymbolTableEntry {
    pub c_type: Type,
    pub attrs: IdentAttrs,
}

#[derive(Debug, Clone, Copy, PartialEq, Eq, Structural)]
pub enum IdentAttrs {
    Function { is_defined: bool, is_global: bool },
    Static { init_value: Option<InitialValue>, is_global: bool },
    Local,
}

#[derive(Debug, Clone, Copy, PartialEq, Eq, Structural)]
pub enum InitialValue {
    Tentative,
    Initialized(InitValue),
}

#[derive(Debug, Clone, Copy, PartialEq, Eq, Structural)]
pub enum InitValue {
    Int(i32),
    Long(i64),
}

impl SymbolTableEntry {
    /// A copy of this entry.
    pub fn duplicate(&self) -> (r: SymbolTableEntry)
        ensures
            crate::ast::same_type(r.c_type, self.c_type),
            r.attrs == self.attrs,
    {
        SymbolTableEntry { c_type: self.c_type.duplicate(), attrs: self.attrs }
    }
}

} // verus!
