use vstd::prelude::*;

pub mod assembly_creator;
pub mod ast;
pub mod codegen;
pub mod final_code;
pub mod instruction_fixer;
pub mod pseudo_reg_replacer;
pub mod symbol_table;
pub mod translatable;

use crate::common::symbol_table::SymbolTableEntry;
use crate::common::symbol_table_generic::SymbolTable;
use assembly_creator::{asm_entry, objects_scalar, program_result, program_translatable, AssemblyCreator};
use ast::tops_view;
use instruction_fixer::{fix_tops, InstructionFixer};
use pseudo_reg_replacer::{program_replaceable, replace_tops, PseudoRegReplacer};
use symbol_table::SymbolTableEntry as AsmSymbolTableEntry;

verus! {

/// The back end's symbol table for a front-end one.
pub open spec fn asm_table(table: Map<Seq<char>, SymbolTableEntry>) -> Map<Seq<char>, AsmSymbolTableEntry> {
    table.map_values(|e: SymbolTableEntry| asm_entry(e))
}

/// Translates three-address code into legal assembly: instructions with pseudo registers,
/// then stack slots for them, then the fixes x86 needs. Also gives the back end's symbol
/// table.
pub fn create_program(
    tacky_program: &crate::tacky::ast::Program,
    symbol_table: SymbolTable<SymbolTableEntry>,
) -> (r: Result<(ast::Program, SymbolTable<AsmSymbolTableEntry>), String>)
    requires
        program_translatable(symbol_table@, tacky_program.0@),
        objects_scalar(symbol_table@),
        program_result(symbol_table@, tacky_program.0@) matches Ok(tops) ==> program_replaceable(
            asm_table(symbol_table@),
            tops,
        ),
    ensures
        r is Ok <==> program_result(symbol_table@, tacky_program.0@) is Ok,
        r matches Ok((p, t)) ==> t@ == asm_table(symbol_table@) && tops_view(p.top_levels@) == fix_tops(
            replace_tops(
                asm_table(symbol_table@),
                Map::empty(),
                program_result(symbol_table@, tacky_program.0@)->Ok_0,
            ).1,
        ),
        r matches Err(m) ==> m@ == program_result(symbol_table@, tacky_program.0@)->Err_0,
{
    let creator = AssemblyCreator::new(symbol_table);
    let (mut program, asm_symbol_table) = match creator.create_program(tacky_program) {
        Ok(pair) => pair,
        Err(m) => return Err(m),
    };
    let mut replacer = PseudoRegReplacer::new(asm_symbol_table);
    replacer.replace_pseudo_registers(&mut program);
    let fixer = InstructionFixer::new();
    fixer.fix_program(&mut program);
    Ok((program, replacer.into_table()))
}

} // verus!
