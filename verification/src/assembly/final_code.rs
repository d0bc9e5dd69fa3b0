use vstd::prelude::*;

use super::assembly_creator::allocate_stack_view;
use super::ast::{AsmTopView, AsmView};
use super::instruction_fixer::{
    fix, fix_all, fix_binary, fix_cmp, fix_idiv, fix_mov, fix_movsx, fix_top, fix_tops,
    law_fixed_instructions_are_legal, misplaced_immediate, two_memory_operands,
};
use super::pseudo_reg_replacer::{
    frame_size, is_pseudo, law_replace_leaves_no_pseudo, no_pseudos, operands, replace_tops,
};
use super::symbol_table::SymbolTableEntry;

verus! {

/// Whether no operand of an instruction is a pseudo register.
pub open spec fn instr_no_pseudo(i: AsmView) -> bool {
    forall|j: int| 0 <= j < operands(i).len() ==> !is_pseudo(#[trigger] operands(i)[j])
}

proof fn lemma_fix_keeps_no_pseudo(i: AsmView)
    requires
        instr_no_pseudo(i),
    ensures
        no_pseudos(fix(i)),
{
    match i {
        AsmView::Mov { assembly_type, src, dst } => {
            assert(operands(i)[0] == src && operands(i)[1] == dst);
            let b = fix_mov(assembly_type, src, dst);
            assert forall|k: int, j: int| 0 <= k < b.len() && 0 <= j < operands(b[k]).len() implies !is_pseudo(
                #[trigger] operands(b[k])[j],
            ) by {}
        },
        AsmView::MovSx { src, dst } => {
            assert(operands(i)[0] == src && operands(i)[1] == dst);
            let b = fix_movsx(src, dst);
            assert forall|k: int, j: int| 0 <= k < b.len() && 0 <= j < operands(b[k]).len() implies !is_pseudo(
                #[trigger] operands(b[k])[j],
            ) by {}
        },
        AsmView::Binary { assembly_type, op, left, right } => {
            assert(operands(i)[0] == left && operands(i)[1] == right);
            let b = fix_binary(assembly_type, op, left, right);
            assert forall|k: int, j: int| 0 <= k < b.len() && 0 <= j < operands(b[k]).len() implies !is_pseudo(
                #[trigger] operands(b[k])[j],
            ) by {}
        },
        AsmView::Idiv { assembly_type, operand } => {
            assert(operands(i)[0] == operand);
            let b = fix_idiv(assembly_type, operand);
            assert forall|k: int, j: int| 0 <= k < b.len() && 0 <= j < operands(b[k]).len() implies !is_pseudo(
                #[trigger] operands(b[k])[j],
            ) by {}
        },
        AsmView::Cmp { assembly_type, op1, op2 } => {
            assert(operands(i)[0] == op1 && operands(i)[1] == op2);
            let b = fix_cmp(assembly_type, op1, op2);
            assert forall|k: int, j: int| 0 <= k < b.len() && 0 <= j < operands(b[k]).len() implies !is_pseudo(
                #[trigger] operands(b[k])[j],
            ) by {}
        },
        _ => {
            assert forall|k: int, j: int| 0 <= k < fix(i).len() && 0 <= j < operands(fix(i)[k]).len() implies !is_pseudo(
                #[trigger] operands(fix(i)[k])[j],
            ) by {
                assert(fix(i)[k] == i);
            }
        },
    }
}

proof fn lemma_fix_all_keeps_no_pseudo(is: Seq<AsmView>)
    requires
        no_pseudos(is),
    ensures
        no_pseudos(fix_all(is)),
    decreases is.len(),
{
    if is.len() > 0 {
        let p = is.drop_last();
        assert forall|k: int, j: int| 0 <= k < p.len() && 0 <= j < operands(p[k]).len() implies !is_pseudo(
            #[trigger] operands(p[k])[j],
        ) by {
            assert(p[k] == is[k]);
        }
        lemma_fix_all_keeps_no_pseudo(p);
        let l = is.last();
        assert forall|j: int| 0 <= j < operands(l).len() implies !is_pseudo(#[trigger] operands(l)[j]) by {
            assert(l == is[is.len() - 1]);
        }
        lemma_fix_keeps_no_pseudo(l);
        let a = fix_all(p);
        let b = fix(l);
        assert forall|k: int, j: int| 0 <= k < fix_all(is).len() && 0 <= j < operands(fix_all(is)[k]).len() implies !is_pseudo(
            #[trigger] operands(fix_all(is)[k])[j],
        ) by {
            if k < a.len() {
                assert(fix_all(is)[k] == a[k]);
            } else {
                assert(fix_all(is)[k] == b[k - a.len()]);
            }
        }
    }
}

/// Whether a function's code is final: no pseudo register is left, and no instruction has
/// two memory operands or an immediate where x86 allows none.
pub open spec fn code_final(is: Seq<AsmView>) -> bool {
    &&& no_pseudos(is)
    &&& forall|k: int| 0 <= k < is.len() ==> !two_memory_operands(#[trigger] is[k]) && !misplaced_immediate(is[k])
}

proof fn lemma_replace_tops_no_pseudo(
    table: Map<Seq<char>, SymbolTableEntry>,
    offsets: Map<Seq<char>, i32>,
    tops: Seq<AsmTopView>,
)
    ensures
        replace_tops(table, offsets, tops).1.len() == tops.len(),
        forall|i: int|
            #![trigger replace_tops(table, offsets, tops).1[i]]
            0 <= i < tops.len() ==> (replace_tops(table, offsets, tops).1[i] matches AsmTopView::Function {
                instructions,
                ..
            } ==> no_pseudos(instructions)),
    decreases tops.len(),
{
    if tops.len() > 0 {
        lemma_replace_tops_no_pseudo(table, offsets, tops.drop_last());
        let (o1, done) = replace_tops(table, offsets, tops.drop_last());
        let out = replace_tops(table, offsets, tops).1;
        match tops.last() {
            AsmTopView::Function { instructions, .. } => {
                law_replace_leaves_no_pseudo(table, crate::assembly::pseudo_reg_replacer::ReplaceState { offsets: o1, last: 0 }, instructions);
            },
            _ => {},
        }
        assert forall|i: int|
            #![trigger out[i]]
            0 <= i < tops.len() implies (out[i] matches AsmTopView::Function { instructions, .. } ==> no_pseudos(instructions)) by {
            if i < tops.len() - 1 {
                assert(out[i] == done[i]);
            }
        }
    }
}

/// Law: the code `assembly::create_program` gives back is final. Each function of the
/// program, after its pseudo registers are replaced and its instructions fixed, has no pseudo
/// register left and no instruction with two memory operands or a misplaced immediate.
pub proof fn law_created_code_is_final(
    table: Map<Seq<char>, SymbolTableEntry>,
    offsets: Map<Seq<char>, i32>,
    tops: Seq<AsmTopView>,
)
    ensures
        fix_tops(replace_tops(table, offsets, tops).1).len() == tops.len(),
        forall|i: int|
            #![trigger fix_tops(replace_tops(table, offsets, tops).1)[i]]
            0 <= i < tops.len() ==> (fix_tops(replace_tops(table, offsets, tops).1)[i] matches AsmTopView::Function {
                instructions,
                ..
            } ==> code_final(instructions)),
{
    lemma_replace_tops_no_pseudo(table, offsets, tops);
    let replaced = replace_tops(table, offsets, tops).1;
    let fixed = fix_tops(replaced);
    assert forall|i: int|
        #![trigger fixed[i]]
        0 <= i < tops.len() implies (fixed[i] matches AsmTopView::Function { instructions, .. } ==> code_final(instructions)) by {
        assert(fixed[i] == fix_top(replaced[i]));
        match replaced[i] {
            AsmTopView::Function { instructions: ins, stack_frame_size, .. } => {
                lemma_fix_all_keeps_no_pseudo(ins);
                law_fixed_instructions_are_legal(ins);
                let a = seq![allocate_stack_view(stack_frame_size as i32)];
                let b = fix_all(ins);
                let all = a + b;
                assert forall|k: int, j: int| 0 <= k < all.len() && 0 <= j < operands(all[k]).len() implies !is_pseudo(
                    #[trigger] operands(all[k])[j],
                ) by {
                    if k >= 1 {
                        assert(all[k] == b[k - 1]);
                    }
                }
                assert forall|k: int| 0 <= k < all.len() implies !two_memory_operands(#[trigger] all[k]) && !misplaced_immediate(all[k]) by {
                    if k >= 1 {
                        assert(all[k] == b[k - 1]);
                    }
                }
            },
            _ => {},
        }
    }
}

/// Law: a stack frame is a multiple of 16 bytes and holds every slot down to the lowest
/// offset.
pub proof fn law_frame_size_aligned(last: int)
    ensures
        frame_size(last) % 16 == 0,
        frame_size(last) >= (if last < 0 { -last } else { last }),
        frame_size(last) < (if last < 0 { -last } else { last }) + 16,
{
}

} // verus!
