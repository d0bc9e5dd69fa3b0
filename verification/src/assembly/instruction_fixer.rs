use vstd::prelude::*;

use super::assembly_creator::{allocate_stack_view, AssemblyCreator};
use super::ast::{
    asm_view, is_memory, tops_view, AsmTopView, AsmView, AssemblyType, BinaryOp, FuncDef,
    ImmValue, Instruction, Operand, OperandView, Program, Register, TopLevel,
};

verus! {

broadcast use vstd::std_specs::vec::group_vec_axioms;

pub open spec fn r(reg: Register) -> OperandView {
    OperandView::Register(reg)
}

pub open spec fn is_long_immediate(o: OperandView) -> bool {
    o matches OperandView::Immediate(ImmValue::Long(_))
}

/// The moves that load a quadword immediate operand of `add`, `sub`, `imul` or `cmp` into
/// `R10` first.
pub open spec fn long_src_moves(t: AssemblyType, left: OperandView) -> Seq<AsmView> {
    if is_long_immediate(left) {
        seq![AsmView::Mov { assembly_type: t, src: left, dst: r(Register::R10) }]
    } else {
        Seq::empty()
    }
}

pub open spec fn long_src_operand(left: OperandView) -> OperandView {
    if is_long_immediate(left) {
        r(Register::R10)
    } else {
        left
    }
}

pub open spec fn fix_mov(t: AssemblyType, src: OperandView, dst: OperandView) -> Seq<AsmView> {
    if (is_memory(src) && is_memory(dst)) || is_long_immediate(src) {
        let src2 = match src {
            OperandView::Immediate(ImmValue::Long(l)) => if t == AssemblyType::Longword {
                OperandView::Immediate(ImmValue::Int(l as i32))
            } else {
                src
            },
            _ => src,
        };
        seq![
            AsmView::Mov { assembly_type: t, src: src2, dst: r(Register::R10) },
            AsmView::Mov { assembly_type: t, src: r(Register::R10), dst },
        ]
    } else {
        seq![AsmView::Mov { assembly_type: t, src, dst }]
    }
}

pub open spec fn fix_movsx(src: OperandView, dst: OperandView) -> Seq<AsmView> {
    if src is Immediate {
        seq![AsmView::Mov { assembly_type: AssemblyType::Longword, src, dst: r(Register::R10) }] + if is_memory(dst) {
            seq![
                AsmView::MovSx { src: r(Register::R10), dst: r(Register::R11) },
                AsmView::Mov { assembly_type: AssemblyType::Quadword, src: r(Register::R11), dst },
            ]
        } else {
            seq![AsmView::MovSx { src: r(Register::R10), dst }]
        }
    } else if is_memory(dst) {
        seq![
            AsmView::MovSx { src, dst: r(Register::R10) },
            AsmView::Mov { assembly_type: AssemblyType::Quadword, src: r(Register::R10), dst },
        ]
    } else {
        seq![AsmView::MovSx { src, dst }]
    }
}

pub open spec fn fix_binary(t: AssemblyType, op: BinaryOp, left: OperandView, right: OperandView) -> Seq<AsmView> {
    let i = AsmView::Binary { assembly_type: t, op, left, right };
    let adds = op == BinaryOp::Add || op == BinaryOp::Sub || op == BinaryOp::Mul;
    let pre = if adds {
        long_src_moves(t, left)
    } else {
        Seq::empty()
    };
    let left2 = if adds {
        long_src_operand(left)
    } else {
        left
    };
    if op == BinaryOp::Mul {
        if is_memory(right) {
            pre + seq![
                AsmView::Mov { assembly_type: t, src: right, dst: r(Register::R11) },
                AsmView::Binary { assembly_type: t, op, left: left2, right: r(Register::R11) },
                AsmView::Mov { assembly_type: t, src: r(Register::R11), dst: right },
            ]
        } else {
            pre + seq![i]
        }
    } else if op == BinaryOp::ShiftLeft || op == BinaryOp::ShiftRight {
        if is_memory(left) {
            seq![
                AsmView::Mov { assembly_type: t, src: left, dst: r(Register::CX) },
                AsmView::Binary { assembly_type: t, op, left: r(Register::CX), right },
            ]
        } else {
            seq![i]
        }
    } else if is_memory(left2) && is_memory(right) {
        pre + seq![
            AsmView::Mov { assembly_type: t, src: left2, dst: r(Register::R10) },
            AsmView::Binary { assembly_type: t, op, left: r(Register::R10), right },
        ]
    } else {
        pre + seq![i]
    }
}

pub open spec fn fix_idiv(t: AssemblyType, operand: OperandView) -> Seq<AsmView> {
    if operand is Immediate {
        seq![
            AsmView::Mov { assembly_type: t, src: operand, dst: r(Register::R10) },
            AsmView::Idiv { assembly_type: t, operand: r(Register::R10) },
        ]
    } else {
        seq![AsmView::Idiv { assembly_type: t, operand }]
    }
}

pub open spec fn fix_cmp(t: AssemblyType, op1: OperandView, op2: OperandView) -> Seq<AsmView> {
    let pre = long_src_moves(t, op1);
    let op1b = long_src_operand(op1);
    if op2 is Immediate {
        pre + seq![
            AsmView::Mov { assembly_type: t, src: op2, dst: r(Register::R11) },
            AsmView::Cmp { assembly_type: t, op1: op1b, op2: r(Register::R11) },
        ]
    } else if is_memory(op1b) && is_memory(op2) {
        pre + seq![
            AsmView::Mov { assembly_type: t, src: op1b, dst: r(Register::R10) },
            AsmView::Cmp { assembly_type: t, op1: r(Register::R10), op2 },
        ]
    } else {
        pre + seq![AsmView::Cmp { assembly_type: t, op1, op2 }]
    }
}

/// The legal instructions for one instruction: memory-to-memory moves, compares and
/// arithmetic go through a scratch register, as do immediates where x86 allows none.
pub open spec fn fix(i: AsmView) -> Seq<AsmView> {
    match i {
        AsmView::Mov { assembly_type, src, dst } => fix_mov(assembly_type, src, dst),
        AsmView::MovSx { src, dst } => fix_movsx(src, dst),
        AsmView::Binary { assembly_type, op, left, right } => fix_binary(assembly_type, op, left, right),
        AsmView::Idiv { assembly_type, operand } => fix_idiv(assembly_type, operand),
        AsmView::Cmp { assembly_type, op1, op2 } => fix_cmp(assembly_type, op1, op2),
        _ => seq![i],
    }
}

/// The legal instructions for a sequence of instructions, in order.
pub open spec fn fix_all(is: Seq<AsmView>) -> Seq<AsmView>
    decreases is.len(),
{
    if is.len() == 0 {
        Seq::empty()
    } else {
        fix_all(is.drop_last()) + fix(is.last())
    }
}

/// A function's fixed code: the frame is allocated first.
pub open spec fn fix_top(t: AsmTopView) -> AsmTopView {
    match t {
        AsmTopView::Function { name, is_global, instructions, stack_frame_size } => AsmTopView::Function {
            name,
            is_global,
            instructions: seq![allocate_stack_view(stack_frame_size as i32)] + fix_all(instructions),
            stack_frame_size,
        },
        other => other,
    }
}

pub open spec fn fix_tops(tops: Seq<AsmTopView>) -> Seq<AsmTopView> {
    tops.map_values(|t: AsmTopView| fix_top(t))
}

/// Whether an instruction has two operands in memory, which x86 does not allow.
pub open spec fn two_memory_operands(i: AsmView) -> bool {
    match i {
        AsmView::Mov { src, dst, .. } | AsmView::MovSx { src, dst } => is_memory(src) && is_memory(dst),
        AsmView::Binary { left, right, .. } => is_memory(left) && is_memory(right),
        AsmView::Cmp { op1, op2, .. } => is_memory(op1) && is_memory(op2),
        _ => false,
    }
}

/// Whether an instruction takes an immediate where x86 allows none: as the divisor of
/// `idiv` or as the second operand of `cmp`.
pub open spec fn misplaced_immediate(i: AsmView) -> bool {
    match i {
        AsmView::Idiv { operand, .. } => operand is Immediate,
        AsmView::Cmp { op2, .. } => op2 is Immediate,
        _ => false,
    }
}

proof fn lemma_fix_legal(i: AsmView)
    ensures
        forall|k: int| 0 <= k < fix(i).len() ==> !two_memory_operands(#[trigger] fix(i)[k]) && !misplaced_immediate(fix(i)[k]),
{
    match i {
        AsmView::Mov { assembly_type, src, dst } => {
            let b = fix_mov(assembly_type, src, dst);
            assert forall|k: int| 0 <= k < b.len() implies !two_memory_operands(#[trigger] b[k]) && !misplaced_immediate(b[k]) by {}
        },
        AsmView::MovSx { src, dst } => {
            let b = fix_movsx(src, dst);
            assert forall|k: int| 0 <= k < b.len() implies !two_memory_operands(#[trigger] b[k]) && !misplaced_immediate(b[k]) by {}
        },
        AsmView::Binary { assembly_type, op, left, right } => {
            let b = fix_binary(assembly_type, op, left, right);
            assert forall|k: int| 0 <= k < b.len() implies !two_memory_operands(#[trigger] b[k]) && !misplaced_immediate(b[k]) by {}
        },
        AsmView::Idiv { assembly_type, operand } => {
            let b = fix_idiv(assembly_type, operand);
            assert forall|k: int| 0 <= k < b.len() implies !two_memory_operands(#[trigger] b[k]) && !misplaced_immediate(b[k]) by {}
        },
        AsmView::Cmp { assembly_type, op1, op2 } => {
            let b = fix_cmp(assembly_type, op1, op2);
            assert forall|k: int| 0 <= k < b.len() implies !two_memory_operands(#[trigger] b[k]) && !misplaced_immediate(b[k]) by {}
        },
        _ => {},
    }
}

/// No fixed instruction has two memory operands, an immediate divisor, or an immediate as
/// the second operand of a compare.
pub proof fn law_fixed_instructions_are_legal(is: Seq<AsmView>)
    ensures
        forall|k: int| 0 <= k < fix_all(is).len() ==> !two_memory_operands(#[trigger] fix_all(is)[k])
            && !misplaced_immediate(fix_all(is)[k]),
    decreases is.len(),
{
    if is.len() > 0 {
        law_fixed_instructions_are_legal(is.drop_last());
        let a = fix_all(is.drop_last());
        let b = fix(is.last());
        lemma_fix_legal(is.last());
        assert forall|k: int| 0 <= k < fix_all(is).len() implies !two_memory_operands(#[trigger] fix_all(is)[k])
            && !misplaced_immediate(fix_all(is)[k]) by {
            if k < a.len() {
                assert(fix_all(is)[k] == a[k]);
            } else {
                assert(fix_all(is)[k] == b[k - a.len()]);
            }
        }
    }
}

fn push_asm(out: &mut Vec<Instruction>, i: Instruction)
    ensures
        asm_view(final(out)@) == asm_view(old(out)@).push(i@),
{
    out.push(i);
    assert(asm_view(out@) =~= asm_view(old(out)@).push(i@));
}

/// Rewrites instructions that x86 cannot encode into sequences it can.
pub struct InstructionFixer;

impl InstructionFixer {
    pub fn new() -> (f: InstructionFixer) {
        InstructionFixer
    }

    fn replace_long_src_operand(t: AssemblyType, left: &Operand, out: &mut Vec<Instruction>) -> (o: Operand)
        ensures
            asm_view(final(out)@) == asm_view(old(out)@) + long_src_moves(t, left@),
            o@ == long_src_operand(left@),
    {
        if let Operand::Immediate(ImmValue::Long(_)) = left {
            push_asm(out, Instruction::Mov { assembly_type: t, src: left.duplicate(), dst: Operand::Register(Register::R10) });
            Operand::Register(Register::R10)
        } else {
            assert(asm_view(out@) =~= asm_view(out@) + long_src_moves(t, left@));
            left.duplicate()
        }
    }

    fn fix_mov_into(t: AssemblyType, src: &Operand, dst: &Operand, out: &mut Vec<Instruction>)
        ensures
            asm_view(final(out)@) == asm_view(old(out)@) + fix_mov(t, src@, dst@),
    {
        let ghost start = asm_view(out@);
        let src_is_long = matches!(src, Operand::Immediate(ImmValue::Long(_)));
        if (src.is_memory() && dst.is_memory()) || src_is_long {
            let src2 = match src {
                Operand::Immediate(ImmValue::Long(l)) => if t == AssemblyType::Longword {
                    Operand::Immediate(ImmValue::Int(*l as i32))
                } else {
                    src.duplicate()
                },
                _ => src.duplicate(),
            };
            push_asm(out, Instruction::Mov { assembly_type: t, src: src2, dst: Operand::Register(Register::R10) });
            push_asm(out, Instruction::Mov { assembly_type: t, src: Operand::Register(Register::R10), dst: dst.duplicate() });
        } else {
            push_asm(out, Instruction::Mov { assembly_type: t, src: src.duplicate(), dst: dst.duplicate() });
        }
        assert(asm_view(out@) =~= start + fix_mov(t, src@, dst@));
    }

    fn fix_movsx_into(src: &Operand, dst: &Operand, out: &mut Vec<Instruction>)
        ensures
            asm_view(final(out)@) == asm_view(old(out)@) + fix_movsx(src@, dst@),
    {
        let ghost start = asm_view(out@);
        if let Operand::Immediate(_) = src {
            push_asm(out, Instruction::Mov { assembly_type: AssemblyType::Longword, src: src.duplicate(), dst: Operand::Register(Register::R10) });
            if dst.is_memory() {
                push_asm(out, Instruction::MovSx { src: Operand::Register(Register::R10), dst: Operand::Register(Register::R11) });
                push_asm(out, Instruction::Mov { assembly_type: AssemblyType::Quadword, src: Operand::Register(Register::R11), dst: dst.duplicate() });
            } else {
                push_asm(out, Instruction::MovSx { src: Operand::Register(Register::R10), dst: dst.duplicate() });
            }
        } else if dst.is_memory() {
            push_asm(out, Instruction::MovSx { src: src.duplicate(), dst: Operand::Register(Register::R10) });
            push_asm(out, Instruction::Mov { assembly_type: AssemblyType::Quadword, src: Operand::Register(Register::R10), dst: dst.duplicate() });
        } else {
            push_asm(out, Instruction::MovSx { src: src.duplicate(), dst: dst.duplicate() });
        }
        assert(asm_view(out@) =~= start + fix_movsx(src@, dst@));
    }

    fn fix_binary_into(t: AssemblyType, op: BinaryOp, left: &Operand, right: &Operand, out: &mut Vec<Instruction>)
        ensures
            asm_view(final(out)@) == asm_view(old(out)@) + fix_binary(t, op, left@, right@),
    {
        let ghost start = asm_view(out@);
        let adds = op == BinaryOp::Add || op == BinaryOp::Sub || op == BinaryOp::Mul;
        let left2 = if adds {
            Self::replace_long_src_operand(t, left, out)
        } else {
            left.duplicate()
        };
        let ghost mid = asm_view(out@);
        let original = Instruction::Binary { assembly_type: t, op, left: left.duplicate(), right: right.duplicate() };
        if op == BinaryOp::Mul {
            if right.is_memory() {
                push_asm(out, Instruction::Mov { assembly_type: t, src: right.duplicate(), dst: Operand::Register(Register::R11) });
                push_asm(out, Instruction::Binary { assembly_type: t, op, left: left2, right: Operand::Register(Register::R11) });
                push_asm(out, Instruction::Mov { assembly_type: t, src: Operand::Register(Register::R11), dst: right.duplicate() });
            } else {
                push_asm(out, original);
            }
        } else if op == BinaryOp::ShiftLeft || op == BinaryOp::ShiftRight {
            if left.is_memory() {
                push_asm(out, Instruction::Mov { assembly_type: t, src: left.duplicate(), dst: Operand::Register(Register::CX) });
                push_asm(out, Instruction::Binary { assembly_type: t, op, left: Operand::Register(Register::CX), right: right.duplicate() });
            } else {
                push_asm(out, original);
            }
        } else if left2.is_memory() && right.is_memory() {
            push_asm(out, Instruction::Mov { assembly_type: t, src: left2, dst: Operand::Register(Register::R10) });
            push_asm(out, Instruction::Binary { assembly_type: t, op, left: Operand::Register(Register::R10), right: right.duplicate() });
        } else {
            push_asm(out, original);
        }
        assert(asm_view(out@) =~= start + fix_binary(t, op, left@, right@));
    }

    fn fix_cmp_into(t: AssemblyType, op1: &Operand, op2: &Operand, out: &mut Vec<Instruction>)
        ensures
            asm_view(final(out)@) == asm_view(old(out)@) + fix_cmp(t, op1@, op2@),
    {
        let ghost start = asm_view(out@);
        let op1b = Self::replace_long_src_operand(t, op1, out);
        if let Operand::Immediate(_) = op2 {
            push_asm(out, Instruction::Mov { assembly_type: t, src: op2.duplicate(), dst: Operand::Register(Register::R11) });
            push_asm(out, Instruction::Cmp { assembly_type: t, op1: op1b, op2: Operand::Register(Register::R11) });
        } else if op1b.is_memory() && op2.is_memory() {
            push_asm(out, Instruction::Mov { assembly_type: t, src: op1b, dst: Operand::Register(Register::R10) });
            push_asm(out, Instruction::Cmp { assembly_type: t, op1: Operand::Register(Register::R10), op2: op2.duplicate() });
        } else {
            push_asm(out, Instruction::Cmp { assembly_type: t, op1: op1.duplicate(), op2: op2.duplicate() });
        }
        assert(asm_view(out@) =~= start + fix_cmp(t, op1@, op2@));
    }

    /// Appends the legal form of one instruction.
    fn fix_instruction(&self, i: &Instruction, out: &mut Vec<Instruction>)
        ensures
            asm_view(final(out)@) == asm_view(old(out)@) + fix(i@),
    {
        match i {
            Instruction::Mov { assembly_type, src, dst } => Self::fix_mov_into(*assembly_type, src, dst, out),
            Instruction::MovSx { src, dst } => Self::fix_movsx_into(src, dst, out),
            Instruction::Binary { assembly_type, op, left, right } => Self::fix_binary_into(*assembly_type, *op, left, right, out),
            Instruction::Idiv { assembly_type, operand } => {
                let ghost start = asm_view(out@);
                if let Operand::Immediate(_) = operand {
                    push_asm(out, Instruction::Mov { assembly_type: *assembly_type, src: operand.duplicate(), dst: Operand::Register(Register::R10) });
                    push_asm(out, Instruction::Idiv { assembly_type: *assembly_type, operand: Operand::Register(Register::R10) });
                } else {
                    push_asm(out, i.duplicate());
                }
                assert(asm_view(out@) =~= start + fix(i@));
            },
            Instruction::Cmp { assembly_type, op1, op2 } => Self::fix_cmp_into(*assembly_type, op1, op2, out),
            _ => {
                push_asm(out, i.duplicate());
                assert(asm_view(out@) =~= asm_view(old(out)@) + fix(i@));
            },
        }
    }

    fn fix_function(&self, f: &FuncDef) -> (r: FuncDef)
        ensures
            TopLevel::Function(r)@ == fix_top(TopLevel::Function(*f)@),
    {
        let mut out: Vec<Instruction> = Vec::new();
        push_asm(&mut out, AssemblyCreator::allocate_stack(f.stack_frame_size as i32));
        let ghost head = asm_view(out@);
        assert(head =~= seq![allocate_stack_view(f.stack_frame_size as i32)]);
        let ghost is = asm_view(f.instructions@);
        let mut i: usize = 0;
        assert(is.subrange(0, 0) =~= Seq::<AsmView>::empty());
        assert(asm_view(out@) =~= head + fix_all(is.subrange(0, 0)));
        while i < f.instructions.len()
            invariant
                i <= f.instructions@.len(),
                is == asm_view(f.instructions@),
                asm_view(out@) == head + fix_all(is.subrange(0, i as int)),
            decreases f.instructions@.len() - i,
        {
            let ghost sub = is.subrange(0, i as int + 1);
            assert(sub.drop_last() =~= is.subrange(0, i as int));
            assert(sub.last() == f.instructions@[i as int]@);
            self.fix_instruction(&f.instructions[i], &mut out);
            assert(asm_view(out@) =~= head + fix_all(sub));
            i = i + 1;
        }
        assert(is.subrange(0, is.len() as int) =~= is);
        FuncDef { name: f.name.clone(), is_global: f.is_global, instructions: out, stack_frame_size: f.stack_frame_size }
    }

    /// Allocates each function's frame at its start and makes every instruction legal.
    pub fn fix_program(&self, program: &mut Program)
        ensures
            tops_view(final(program).top_levels@) == fix_tops(tops_view(old(program).top_levels@)),
    {
        let mut old_tops: Vec<TopLevel> = Vec::new();
        std::mem::swap(&mut old_tops, &mut program.top_levels);
        let ghost ts = tops_view(old_tops@);
        let mut new_tops: Vec<TopLevel> = Vec::new();
        let mut i: usize = 0;
        while i < old_tops.len()
            invariant
                i <= old_tops@.len(),
                ts == tops_view(old_tops@),
                tops_view(new_tops@) == fix_tops(ts.subrange(0, i as int)),
            decreases old_tops@.len() - i,
        {
            let ghost before = new_tops@;
            match &old_tops[i] {
                TopLevel::Function(f) => {
                    let nf = self.fix_function(f);
                    new_tops.push(TopLevel::Function(nf));
                },
                TopLevel::StaticVariable(v) => {
                    new_tops.push(TopLevel::StaticVariable(super::ast::StaticVar {
                        name: v.name.clone(),
                        is_global: v.is_global,
                        value: v.value,
                        alignment: v.alignment,
                    }));
                },
            }
            assert(ts[i as int] == old_tops@[i as int]@);
            assert(tops_view(new_tops@) =~= tops_view(before).push(fix_top(ts[i as int])));
            assert(fix_tops(ts.subrange(0, i as int + 1)) =~= fix_tops(ts.subrange(0, i as int)).push(fix_top(ts[i as int])));
            i = i + 1;
        }
        assert(ts.subrange(0, ts.len() as int) =~= ts);
        program.top_levels = new_tops;
    }
}

} // verus!
