use vstd::prelude::*;

use super::assembly_creator::{
    callable, function_translatable, is_scalar, objects_scalar, params_known, program_translatable,
    translatable, value_known,
};
use crate::ast::Type;
use crate::common::symbol_table::{IdentAttrs, SymbolTableEntry};
use crate::common::symbol_table_generic::SymbolTable;
use crate::tacky::ast::{BinaryOperator, Function, Instruction, Program, TopLevel, Value};
use crate::util::strings_view;

verus! {

broadcast use vstd::std_specs::vec::group_vec_axioms;

fn scalar(t: &Type) -> (b: bool)
    ensures
        b == is_scalar(*t),
{
    match t {
        Type::Int | Type::Long => true,
        _ => false,
    }
}

fn known(table: &SymbolTable<SymbolTableEntry>, v: &Value) -> (b: bool)
    ensures
        b == value_known(table@, v@),
{
    match v {
        Value::Variable(n) => match table.get_entry(n.as_str()) {
            Some(entry) => scalar(&entry.c_type),
            None => false,
        },
        _ => true,
    }
}

fn all_known(table: &SymbolTable<SymbolTableEntry>, vs: &Vec<Value>) -> (b: bool)
    ensures
        b == (forall|k: int| #![trigger vs@[k]] 0 <= k < vs@.len() ==> value_known(table@, vs@[k]@)),
{
    let mut i: usize = 0;
    while i < vs.len()
        invariant
            i <= vs@.len(),
            forall|k: int| 0 <= k < i ==> value_known(table@, (#[trigger] vs@[k])@),
        decreases vs@.len() - i,
    {
        if !known(table, &vs[i]) {
            return false;
        }
        i = i + 1;
    }
    true
}

#[verifier::loop_isolation(false)]
fn can_call(table: &SymbolTable<SymbolTableEntry>, name: &String, n: usize) -> (b: bool)
    ensures
        b == callable(table@, name@, n as int),
{
    match table.get_entry(name.as_str()) {
        Some(entry) => match &entry.c_type {
            Type::Function { param_types, .. } => {
                if param_types.len() != n {
                    return false;
                }
                let mut i: usize = 0;
                while i < param_types.len()
                    invariant
                        i <= param_types@.len(),
                        param_types@.len() == n,
                        forall|k: int| 0 <= k < i ==> is_scalar(#[trigger] param_types@[k]),
                    decreases param_types@.len() - i,
                {
                    if !scalar(&param_types[i]) {
                        return false;
                    }
                    i = i + 1;
                }
                true
            },
            _ => false,
        },
        None => false,
    }
}

fn instruction_translatable(table: &SymbolTable<SymbolTableEntry>, i: &Instruction) -> (b: bool)
    ensures
        b == translatable(table@, i@),
{
    match i {
        Instruction::Return(v) => known(table, v),
        Instruction::SignExtend { src, dst } => known(table, src) && known(table, dst),
        Instruction::Truncate { src, dst } => known(table, src) && known(table, dst),
        Instruction::Copy { src, dst } => known(table, src) && known(table, dst),
        Instruction::Unary { src, dst, .. } => known(table, src) && known(table, dst),
        Instruction::Binary { op, src1, src2, dst } => {
            let plain = match op {
                BinaryOperator::LogicalAnd | BinaryOperator::LogicalOr => false,
                _ => true,
            };
            known(table, src1) && known(table, src2) && known(table, dst) && plain
        },
        Instruction::JumpIfZero { condition, .. } => known(table, condition),
        Instruction::JumpIfNotZero { condition, .. } => known(table, condition),
        Instruction::FunctionCall { name, arguments, dst } => {
            let ok = can_call(table, name, arguments.len()) && arguments.len() < 0x1000_0000
                && all_known(table, arguments) && known(table, dst);
            proof {
                let vs = crate::tacky::ast::values_view(arguments@);
                assert(vs.len() == arguments@.len());
                assert(forall|k: int| 0 <= k < vs.len() ==> #[trigger] vs[k] == arguments@[k]@);
                if forall|k: int| #![trigger arguments@[k]] 0 <= k < arguments@.len() ==> value_known(table@, arguments@[k]@) {
                    assert forall|k: int| 0 <= k < vs.len() implies value_known(table@, #[trigger] vs[k]) by {
                        assert(vs[k] == arguments@[k]@);
                    }
                }
                if forall|k: int| #![trigger vs[k]] 0 <= k < vs.len() ==> value_known(table@, vs[k]) {
                    assert forall|k: int| 0 <= k < arguments@.len() implies value_known(table@, (#[trigger] arguments@[k])@) by {
                        assert(vs[k] == arguments@[k]@);
                    }
                }
            }
            ok
        },
        _ => true,
    }
}

fn parameters_known(table: &SymbolTable<SymbolTableEntry>, params: &Vec<String>) -> (b: bool)
    ensures
        b == params_known(table@, strings_view(params@)),
{
    if params.len() >= 0x1000_0000 {
        return false;
    }
    let mut i: usize = 0;
    while i < params.len()
        invariant
            i <= params@.len(),
            params@.len() < 0x1000_0000,
            forall|k: int|
                #![trigger strings_view(params@)[k]]
                0 <= k < i ==> table@.contains_key(strings_view(params@)[k]) && is_scalar(
                    table@[strings_view(params@)[k]].c_type,
                ),
        decreases params@.len() - i,
    {
        assert(strings_view(params@)[i as int] == params@[i as int]@);
        match table.get_entry(params[i].as_str()) {
            Some(entry) => {
                if !scalar(&entry.c_type) {
                    return false;
                }
            },
            None => {
                return false;
            },
        }
        i = i + 1;
    }
    true
}

fn function_can_translate(table: &SymbolTable<SymbolTableEntry>, f: &Function) -> (b: bool)
    ensures
        b == function_translatable(table@, *f),
{
    if !parameters_known(table, &f.parameters) {
        return false;
    }
    let mut i: usize = 0;
    while i < f.body.len()
        invariant
            i <= f.body@.len(),
            forall|k: int| 0 <= k < i ==> translatable(table@, (#[trigger] f.body@[k])@),
        decreases f.body@.len() - i,
    {
        if !instruction_translatable(table, &f.body[i]) {
            return false;
        }
        i = i + 1;
    }
    true
}

/// Whether every function of a three-address program can be translated with the given symbol
/// table: its parameters and values have scalar types and its calls match their callees.
pub fn program_can_translate(table: &SymbolTable<SymbolTableEntry>, program: &Program) -> (b: bool)
    ensures
        b == program_translatable(table@, program.0@),
{
    let mut i: usize = 0;
    while i < program.0.len()
        invariant
            i <= program.0@.len(),
            forall|k: int|
                #![trigger program.0@[k]]
                0 <= k < i ==> (program.0@[k] matches TopLevel::Function(f) ==> function_translatable(table@, f)),
        decreases program.0@.len() - i,
    {
        match &program.0[i] {
            TopLevel::Function(f) => {
                if !function_can_translate(table, f) {
                    return false;
                }
            },
            _ => {},
        }
        i = i + 1;
    }
    true
}

/// Whether every object of a symbol table has a scalar type.
#[verifier::loop_isolation(false)]
pub fn table_objects_scalar(table: &SymbolTable<SymbolTableEntry>) -> (b: bool)
    ensures
        b == objects_scalar(table@),
{
    let all = table.get_all_entries();
    let mut i: usize = 0;
    while i < all.len()
        invariant
            i <= all@.len(),
            forall|k: int|
                #![trigger all@[k]]
                0 <= k < i ==> (all@[k].1.attrs is Function || is_scalar(all@[k].1.c_type)),
        decreases all@.len() - i,
    {
        let is_function = match all[i].1.attrs {
            IdentAttrs::Function { .. } => true,
            _ => false,
        };
        if !is_function && !scalar(&all[i].1.c_type) {
            assert(table@.contains_key(all@[i as int].0@));
            return false;
        }
        i = i + 1;
    }
    proof {
        assert forall|k: Seq<char>| #[trigger] table@.contains_key(k) implies (table@[k].attrs is Function || is_scalar(
            table@[k].c_type,
        )) by {
            let j = choose|j: int| 0 <= j < all@.len() && #[trigger] all@[j].0@ == k;
            assert(all@[j].1 == table@[k]);
        }
    }
    true
}

} // verus!
