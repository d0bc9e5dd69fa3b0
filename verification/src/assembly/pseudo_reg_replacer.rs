use vstd::prelude::*;

use super::ast::{
    asm_view, tops_view, AsmTopView, AsmView, AssemblyType, FuncDef, Instruction, Operand,
    OperandView, Program, TopLevel,
};
use super::symbol_table::SymbolTableEntry;
use crate::common::symbol_table_generic::SymbolTable;

verus! {

broadcast use vstd::std_specs::vec::group_vec_axioms;

/// What the replacement has assigned so far: each pseudo register's stack offset, and the
/// lowest offset in use in the current frame.
pub struct ReplaceState {
    pub offsets: Map<Seq<char>, i32>,
    pub last: int,
}

/// Whether `name` is a static object, which lives in the data section.
pub open spec fn is_static_object(table: Map<Seq<char>, SymbolTableEntry>, name: Seq<char>) -> bool {
    table.contains_key(name) && table[name] matches SymbolTableEntry::Object { is_static: true, .. }
}

/// The offset below `last` for an object of size class `t`: four bytes down for a longword,
/// eight bytes down and then down to a multiple of eight for a quadword.
pub open spec fn next_offset(last: int, t: AssemblyType) -> int {
    match t {
        AssemblyType::Longword => last - 4,
        AssemblyType::Quadword => (last - 8) - (last - 8) % 8,
    }
}

pub open spec fn object_type(table: Map<Seq<char>, SymbolTableEntry>, name: Seq<char>) -> AssemblyType {
    match table[name] {
        SymbolTableEntry::Object { assembly_type, .. } => assembly_type,
        _ => AssemblyType::Longword,
    }
}

/// Replacing one operand: a pseudo register seen before gets its slot again, a static object
/// becomes a data operand, any other pseudo register gets the next slot.
pub open spec fn replace_op(table: Map<Seq<char>, SymbolTableEntry>, s: ReplaceState, o: OperandView) -> (ReplaceState, OperandView) {
    match o {
        OperandView::PseudoReg(n) => if s.offsets.contains_key(n) {
            (s, OperandView::Stack(s.offsets[n]))
        } else if is_static_object(table, n) {
            (s, OperandView::Data(n))
        } else {
            let l = next_offset(s.last, object_type(table, n));
            (ReplaceState { offsets: s.offsets.insert(n, l as i32), last: l }, OperandView::Stack(l as i32))
        },
        _ => (s, o),
    }
}

/// Replacing the operands of one instruction, left to right.
pub open spec fn replace_instr(table: Map<Seq<char>, SymbolTableEntry>, s: ReplaceState, i: AsmView) -> (ReplaceState, AsmView) {
    match i {
        AsmView::Mov { assembly_type, src, dst } => {
            let (s1, a) = replace_op(table, s, src);
            let (s2, b) = replace_op(table, s1, dst);
            (s2, AsmView::Mov { assembly_type, src: a, dst: b })
        },
        AsmView::MovSx { src, dst } => {
            let (s1, a) = replace_op(table, s, src);
            let (s2, b) = replace_op(table, s1, dst);
            (s2, AsmView::MovSx { src: a, dst: b })
        },
        AsmView::Unary { assembly_type, op, operand } => {
            let (s1, a) = replace_op(table, s, operand);
            (s1, AsmView::Unary { assembly_type, op, operand: a })
        },
        AsmView::Binary { assembly_type, op, left, right } => {
            let (s1, a) = replace_op(table, s, left);
            let (s2, b) = replace_op(table, s1, right);
            (s2, AsmView::Binary { assembly_type, op, left: a, right: b })
        },
        AsmView::Idiv { assembly_type, operand } => {
            let (s1, a) = replace_op(table, s, operand);
            (s1, AsmView::Idiv { assembly_type, operand: a })
        },
        AsmView::Cmp { assembly_type, op1, op2 } => {
            let (s1, a) = replace_op(table, s, op1);
            let (s2, b) = replace_op(table, s1, op2);
            (s2, AsmView::Cmp { assembly_type, op1: a, op2: b })
        },
        AsmView::SetCC(c, operand) => {
            let (s1, a) = replace_op(table, s, operand);
            (s1, AsmView::SetCC(c, a))
        },
        AsmView::Push(operand) => {
            let (s1, a) = replace_op(table, s, operand);
            (s1, AsmView::Push(a))
        },
        _ => (s, i),
    }
}

/// Replacing the operands of a sequence of instructions, in order.
pub open spec fn replace_all(table: Map<Seq<char>, SymbolTableEntry>, s: ReplaceState, is: Seq<AsmView>) -> (ReplaceState, Seq<AsmView>)
    decreases is.len(),
{
    if is.len() == 0 {
        (s, Seq::empty())
    } else {
        let (s1, done) = replace_all(table, s, is.drop_last());
        let (s2, i) = replace_instr(table, s1, is.last());
        (s2, done.push(i))
    }
}

/// The stack frame for a lowest offset: its size rounded up to a multiple of 16.
pub open spec fn frame_size(last: int) -> int {
    let size = if last < 0 { -last } else { last };
    if size % 16 == 0 {
        size
    } else {
        size + (16 - size % 16)
    }
}

/// Whether an operand names a pseudo register.
pub open spec fn is_pseudo(o: OperandView) -> bool {
    o is PseudoReg
}

/// The operands of an instruction.
pub open spec fn operands(i: AsmView) -> Seq<OperandView> {
    match i {
        AsmView::Mov { src, dst, .. } | AsmView::MovSx { src, dst } => seq![src, dst],
        AsmView::Unary { operand, .. } | AsmView::Idiv { operand, .. } | AsmView::SetCC(_, operand)
        | AsmView::Push(operand) => seq![operand],
        AsmView::Binary { left, right, .. } => seq![left, right],
        AsmView::Cmp { op1, op2, .. } => seq![op1, op2],
        _ => Seq::empty(),
    }
}

/// Whether every pseudo register of a sequence of instructions is an object of the table.
pub open spec fn pseudos_known(table: Map<Seq<char>, SymbolTableEntry>, is: Seq<AsmView>) -> bool {
    forall|k: int, j: int|
        #![trigger operands(is[k])[j]]
        0 <= k < is.len() && 0 <= j < operands(is[k]).len() ==> (operands(is[k])[j] matches OperandView::PseudoReg(n)
            ==> table.contains_key(n) && table[n] is Object)
}

/// Replacing the pseudo registers of a program's functions in order; the slots a name got in
/// an earlier function stay assigned to it, and each function's frame starts empty.
pub open spec fn replace_tops(table: Map<Seq<char>, SymbolTableEntry>, offsets: Map<Seq<char>, i32>, tops: Seq<AsmTopView>) -> (Map<Seq<char>, i32>, Seq<AsmTopView>)
    decreases tops.len(),
{
    if tops.len() == 0 {
        (offsets, Seq::empty())
    } else {
        let (o1, done) = replace_tops(table, offsets, tops.drop_last());
        match tops.last() {
            AsmTopView::Function { name, is_global, instructions, .. } => {
                let (s, is) = replace_all(table, ReplaceState { offsets: o1, last: 0 }, instructions);
                (
                    s.offsets,
                    done.push(
                        AsmTopView::Function {
                            name,
                            is_global,
                            instructions: is,
                            stack_frame_size: frame_size(s.last) as usize,
                        },
                    ),
                )
            },
            other => (o1, done.push(other)),
        }
    }
}

/// Whether every function of a program names only known objects and is small enough for
/// its frame offsets.
pub open spec fn program_replaceable(table: Map<Seq<char>, SymbolTableEntry>, tops: Seq<AsmTopView>) -> bool {
    forall|i: int|
        #![trigger tops[i]]
        0 <= i < tops.len() ==> (tops[i] matches AsmTopView::Function { instructions, .. } ==> pseudos_known(
            table,
            instructions,
        ) && instructions.len() < 0x100_0000)
}

/// Whether no operand of a sequence of instructions is a pseudo register.
pub open spec fn no_pseudos(is: Seq<AsmView>) -> bool {
    forall|k: int, j: int|
        #![trigger operands(is[k])[j]]
        0 <= k < is.len() && 0 <= j < operands(is[k]).len() ==> !is_pseudo(operands(is[k])[j])
}

proof fn lemma_replace_instr_no_pseudo(table: Map<Seq<char>, SymbolTableEntry>, s: ReplaceState, i: AsmView)
    ensures
        forall|j: int| 0 <= j < operands(replace_instr(table, s, i).1).len() ==> !is_pseudo(
            #[trigger] operands(replace_instr(table, s, i).1)[j],
        ),
        operands(replace_instr(table, s, i).1).len() == operands(i).len(),
{
}

/// After replacement no operand is a pseudo register: each becomes a stack slot or a data
/// operand, whatever the state the replacement starts from.
pub proof fn law_replace_leaves_no_pseudo(table: Map<Seq<char>, SymbolTableEntry>, s: ReplaceState, is: Seq<AsmView>)
    ensures
        no_pseudos(replace_all(table, s, is).1),
        replace_all(table, s, is).1.len() == is.len(),
    decreases is.len(),
{
    if is.len() > 0 {
        law_replace_leaves_no_pseudo(table, s, is.drop_last());
        let (s1, done) = replace_all(table, s, is.drop_last());
        lemma_replace_instr_no_pseudo(table, s1, is.last());
        let out = replace_all(table, s, is).1;
        assert(out == done.push(replace_instr(table, s1, is.last()).1));
        assert forall|k: int, j: int| 0 <= k < out.len() && 0 <= j < operands(out[k]).len() implies !is_pseudo(
            #[trigger] operands(out[k])[j],
        ) by {
            if k < done.len() {
                assert(out[k] == done[k]);
            }
        }
    }
}

proof fn lemma_neg_mod8(p: int)
    requires
        p >= 0,
    ensures
        (-p) % 8 == (if p % 8 == 0 {
            0
        } else {
            8 - p % 8
        }),
{
}

/// Assigns stack slots to pseudo registers and computes each function's frame size.
pub struct PseudoRegReplacer {
    var_map: SymbolTable<i32>,
    last_offset: i32,
    asm_symbol_table: SymbolTable<SymbolTableEntry>,
}

impl PseudoRegReplacer {
    /// The slots assigned so far and the lowest offset of the current frame.
    pub closed spec fn state(&self) -> ReplaceState {
        ReplaceState { offsets: self.var_map@, last: self.last_offset as int }
    }

    /// The symbol table that tells static objects and sizes.
    pub closed spec fn table(&self) -> Map<Seq<char>, SymbolTableEntry> {
        self.asm_symbol_table@
    }

    pub fn new(asm_symbol_table: SymbolTable<SymbolTableEntry>) -> (r: Self)
        ensures
            r.table() == asm_symbol_table@,
            r.state() == (ReplaceState { offsets: Map::empty(), last: 0 }),
    {
        PseudoRegReplacer { var_map: SymbolTable::new(), last_offset: 0, asm_symbol_table }
    }

    /// Hands back the symbol table.
    pub fn into_table(self) -> (t: SymbolTable<SymbolTableEntry>)
        ensures
            t@ == self.table(),
    {
        self.asm_symbol_table
    }

    fn is_static_var(&self, name: &str) -> (r: bool)
        ensures
            r == is_static_object(self.table(), name@),
    {
        match self.asm_symbol_table.get_entry(name) {
            Some(entry) => match entry {
                SymbolTableEntry::Object { is_static, .. } => *is_static,
                _ => false,
            },
            None => false,
        }
    }

    fn update_last_offset(&mut self, name: &str)
        requires
            old(self).table().contains_key(name@),
            old(self).table()[name@] is Object,
            -0x4000_0000 <= old(self).last_offset <= 0,
        ensures
            final(self).table() == old(self).table(),
            final(self).var_map@ == old(self).var_map@,
            final(self).last_offset as int == next_offset(old(self).last_offset as int, object_type(old(self).table(), name@)),
    {
        let t = match self.asm_symbol_table.get_entry(name) {
            Some(SymbolTableEntry::Object { assembly_type, .. }) => *assembly_type,
            _ => AssemblyType::Longword,
        };
        match t {
            AssemblyType::Longword => {
                self.last_offset = self.last_offset - 4;
            },
            AssemblyType::Quadword => {
                self.last_offset = self.last_offset - 8;
                let p: u32 = (0 - self.last_offset) as u32;
                let remainder: u32 = p % 8;
                proof {
                    lemma_neg_mod8(p as int);
                }
                if remainder != 0 {
                    self.last_offset = self.last_offset - (8 - remainder as i32);
                }
            },
        }
    }

    fn replace_operand(&mut self, op: &Operand) -> (r: Operand)
        requires
            op@ matches OperandView::PseudoReg(n) ==> old(self).table().contains_key(n) && old(self).table()[n] is Object,
            -0x4000_0000 <= old(self).last_offset <= 0,
        ensures
            final(self).table() == old(self).table(),
            (final(self).state(), r@) == replace_op(old(self).table(), old(self).state(), op@),
            old(self).last_offset - 16 <= final(self).last_offset <= old(self).last_offset,
    {
        match op {
            Operand::PseudoReg(name) => {
                if let Some(offset) = self.var_map.get_entry(name.as_str()) {
                    Operand::Stack(*offset)
                } else if self.is_static_var(name.as_str()) {
                    Operand::Data(name.clone())
                } else {
                    self.update_last_offset(name.as_str());
                    let _ = self.var_map.insert(name.as_str(), self.last_offset);
                    Operand::Stack(self.last_offset)
                }
            },
            _ => op.duplicate(),
        }
    }

    fn replace_instruction(&mut self, i: &Instruction) -> (r: Instruction)
        requires
            forall|j: int| 0 <= j < operands(i@).len() ==> (#[trigger] operands(i@)[j] matches OperandView::PseudoReg(n)
                ==> old(self).table().contains_key(n) && old(self).table()[n] is Object),
            -0x3000_0000 <= old(self).last_offset <= 0,
        ensures
            final(self).table() == old(self).table(),
            (final(self).state(), r@) == replace_instr(old(self).table(), old(self).state(), i@),
            old(self).last_offset - 32 <= final(self).last_offset <= old(self).last_offset,
    {
        match i {
            Instruction::Mov { assembly_type, src, dst } => {
                assert(operands(i@)[0] == src@ && operands(i@)[1] == dst@);
                let a = self.replace_operand(src);
                let b = self.replace_operand(dst);
                Instruction::Mov { assembly_type: *assembly_type, src: a, dst: b }
            },
            Instruction::MovSx { src, dst } => {
                assert(operands(i@)[0] == src@ && operands(i@)[1] == dst@);
                let a = self.replace_operand(src);
                let b = self.replace_operand(dst);
                Instruction::MovSx { src: a, dst: b }
            },
            Instruction::Unary { assembly_type, op, operand } => {
                assert(operands(i@)[0] == operand@);
                let a = self.replace_operand(operand);
                Instruction::Unary { assembly_type: *assembly_type, op: *op, operand: a }
            },
            Instruction::Binary { assembly_type, op, left, right } => {
                assert(operands(i@)[0] == left@ && operands(i@)[1] == right@);
                let a = self.replace_operand(left);
                let b = self.replace_operand(right);
                Instruction::Binary { assembly_type: *assembly_type, op: *op, left: a, right: b }
            },
            Instruction::Idiv { assembly_type, operand } => {
                assert(operands(i@)[0] == operand@);
                let a = self.replace_operand(operand);
                Instruction::Idiv { assembly_type: *assembly_type, operand: a }
            },
            Instruction::Cmp { assembly_type, op1, op2 } => {
                assert(operands(i@)[0] == op1@ && operands(i@)[1] == op2@);
                let a = self.replace_operand(op1);
                let b = self.replace_operand(op2);
                Instruction::Cmp { assembly_type: *assembly_type, op1: a, op2: b }
            },
            Instruction::SetCC(c, operand) => {
                assert(operands(i@)[0] == operand@);
                let a = self.replace_operand(operand);
                Instruction::SetCC(*c, a)
            },
            Instruction::Push(operand) => {
                assert(operands(i@)[0] == operand@);
                let a = self.replace_operand(operand);
                Instruction::Push(a)
            },
            _ => i.duplicate(),
        }
    }

    /// Replaces the pseudo registers of one function, in a frame that starts empty.
    fn replace_function(&mut self, f: &FuncDef) -> (r: FuncDef)
        requires
            pseudos_known(old(self).table(), asm_view(f.instructions@)),
            f.instructions@.len() < 0x100_0000,
        ensures
            final(self).table() == old(self).table(),
            ({
                let (s, is) = replace_all(
                    old(self).table(),
                    ReplaceState { offsets: old(self).state().offsets, last: 0 },
                    asm_view(f.instructions@),
                );
                &&& final(self).state().offsets == s.offsets
                &&& asm_view(r.instructions@) == is
                &&& r.stack_frame_size as int == frame_size(s.last)
            }),
            r.name@ == f.name@,
            r.is_global == f.is_global,
    {
        let ghost table = self.table();
        let ghost is = asm_view(f.instructions@);
        let ghost s0 = ReplaceState { offsets: self.state().offsets, last: 0 };
        self.last_offset = 0;
        let mut out: Vec<Instruction> = Vec::new();
        let mut i: usize = 0;
        assert(is.subrange(0, 0) =~= Seq::<AsmView>::empty());
        assert(asm_view(out@) =~= Seq::<AsmView>::empty());
        while i < f.instructions.len()
            invariant
                i <= f.instructions@.len(),
                f.instructions@.len() < 0x100_0000,
                table == self.table(),
                is == asm_view(f.instructions@),
                pseudos_known(table, is),
                -32 * (i as int) <= self.last_offset <= 0,
                (self.state(), asm_view(out@)) == replace_all(table, s0, is.subrange(0, i as int)),
            decreases f.instructions@.len() - i,
        {
            let ghost sub = is.subrange(0, i as int + 1);
            assert(sub.drop_last() =~= is.subrange(0, i as int));
            assert(sub.last() == f.instructions@[i as int]@);
            assert forall|j: int| 0 <= j < operands(f.instructions@[i as int]@).len() implies (#[trigger] operands(f.instructions@[i as int]@)[j] matches OperandView::PseudoReg(n)
                ==> table.contains_key(n) && table[n] is Object) by {
                assert(is[i as int] == f.instructions@[i as int]@);
                assert(operands(is[i as int])[j] == operands(f.instructions@[i as int]@)[j]);
            }
            let ghost before = out@;
            let r = self.replace_instruction(&f.instructions[i]);
            out.push(r);
            assert(asm_view(out@) =~= asm_view(before).push(r@));
            i = i + 1;
        }
        assert(is.subrange(0, is.len() as int) =~= is);
        let mut stack_frame_size: usize = if self.last_offset < 0 { (0 - self.last_offset) as usize } else { self.last_offset as usize };
        if stack_frame_size % 16 != 0 {
            stack_frame_size = stack_frame_size + (16 - stack_frame_size % 16);
        }
        FuncDef { name: f.name.clone(), is_global: f.is_global, instructions: out, stack_frame_size }
    }

    /// Replaces the pseudo registers of every function of a program with stack slots or data
    /// operands, and sets each function's stack frame size.
    pub fn replace_pseudo_registers(&mut self, program: &mut Program)
        requires
            program_replaceable(old(self).table(), tops_view(old(program).top_levels@)),
        ensures
            final(self).table() == old(self).table(),
            (final(self).state().offsets, tops_view(final(program).top_levels@)) == replace_tops(
                old(self).table(),
                old(self).state().offsets,
                tops_view(old(program).top_levels@),
            ),
    {
        let ghost table = self.table();
        let ghost o0 = self.state().offsets;
        let mut old_tops: Vec<TopLevel> = Vec::new();
        std::mem::swap(&mut old_tops, &mut program.top_levels);
        let ghost ts = tops_view(old_tops@);
        let mut new_tops: Vec<TopLevel> = Vec::new();
        let mut i: usize = 0;
        assert(ts.subrange(0, 0) =~= Seq::<AsmTopView>::empty());
        assert(tops_view(new_tops@) =~= Seq::<AsmTopView>::empty());
        while i < old_tops.len()
            invariant
                i <= old_tops@.len(),
                table == self.table(),
                ts == tops_view(old_tops@),
                program_replaceable(table, ts),
                (self.state().offsets, tops_view(new_tops@)) == replace_tops(table, o0, ts.subrange(0, i as int)),
            decreases old_tops@.len() - i,
        {
            let ghost sub = ts.subrange(0, i as int + 1);
            assert(sub.drop_last() =~= ts.subrange(0, i as int));
            assert(sub.last() == old_tops@[i as int]@);
            let ghost before = new_tops@;
            match &old_tops[i] {
                TopLevel::Function(f) => {
                    assert(ts[i as int] == old_tops@[i as int]@);
                    let nf = self.replace_function(f);
                    new_tops.push(TopLevel::Function(nf));
                },
                TopLevel::StaticVariable(v) => {
                    new_tops.push(TopLevel::StaticVariable(super::ast::StaticVar {
                        name: v.name.clone(),
                        is_global: v.is_global,
                        value: v.value,
                        alignment: v.alignment,
                    }));
                },
            }
            assert(tops_view(new_tops@) =~= tops_view(before).push(new_tops@.last()@));
            i = i + 1;
        }
        assert(ts.subrange(0, ts.len() as int) =~= ts);
        program.top_levels = new_tops;
    }
}


/// Whether an operand that is a pseudo register names an object of the table.
pub open spec fn operand_resolvable(table: Map<Seq<char>, SymbolTableEntry>, o: OperandView) -> bool {
    o matches OperandView::PseudoReg(n) ==> table.contains_key(n) && table[n] is Object
}

fn check_operand(table: &SymbolTable<SymbolTableEntry>, o: &Operand) -> (b: bool)
    ensures
        b == operand_resolvable(table@, o@),
{
    match o {
        Operand::PseudoReg(n) => match table.get_entry(n.as_str()) {
            Some(SymbolTableEntry::Object { .. }) => true,
            _ => false,
        },
        _ => true,
    }
}

fn check_instruction(table: &SymbolTable<SymbolTableEntry>, i: &Instruction) -> (b: bool)
    ensures
        b == (forall|j: int| 0 <= j < operands(i@).len() ==> operand_resolvable(table@, #[trigger] operands(i@)[j])),
{
    let b = match i {
        Instruction::Mov { src, dst, .. } => check_operand(table, src) && check_operand(table, dst),
        Instruction::MovSx { src, dst } => check_operand(table, src) && check_operand(table, dst),
        Instruction::Unary { operand, .. } => check_operand(table, operand),
        Instruction::Idiv { operand, .. } => check_operand(table, operand),
        Instruction::SetCC(_, operand) => check_operand(table, operand),
        Instruction::Push(operand) => check_operand(table, operand),
        Instruction::Binary { left, right, .. } => check_operand(table, left) && check_operand(table, right),
        Instruction::Cmp { op1, op2, .. } => check_operand(table, op1) && check_operand(table, op2),
        _ => true,
    };
    proof {
        let ops = operands(i@);
        if ops.len() >= 1 {
            assert(operand_resolvable(table@, ops[0]) || !b);
        }
        if ops.len() >= 2 {
            assert(operand_resolvable(table@, ops[1]) || !b);
        }
    }
    b
}

/// Whether the pseudo registers of a program can all be replaced with the given table: each
/// names an object, and no function is too long for its frame to be sized.
#[verifier::loop_isolation(false)]
pub fn program_resolvable(table: &SymbolTable<SymbolTableEntry>, program: &Program) -> (b: bool)
    ensures
        b == program_replaceable(table@, tops_view(program.top_levels@)),
{
    let ghost ts = tops_view(program.top_levels@);
    let mut t: usize = 0;
    while t < program.top_levels.len()
        invariant
            t <= program.top_levels@.len(),
            ts == tops_view(program.top_levels@),
            forall|x: int|
                #![trigger ts[x]]
                0 <= x < t ==> (ts[x] matches AsmTopView::Function { instructions, .. } ==> pseudos_known(
                    table@,
                    instructions,
                ) && instructions.len() < 0x100_0000),
        decreases program.top_levels@.len() - t,
    {
        assert(ts[t as int] == program.top_levels@[t as int]@);
        match &program.top_levels[t] {
            TopLevel::Function(f) => {
                let ghost is = asm_view(f.instructions@);
                if f.instructions.len() >= 0x100_0000 {
                    return false;
                }
                let mut i: usize = 0;
                while i < f.instructions.len()
                    invariant
                        i <= f.instructions@.len(),
                        is == asm_view(f.instructions@),
                        forall|k: int, j: int|
                            #![trigger operands(is[k])[j]]
                            0 <= k < i && 0 <= j < operands(is[k]).len() ==> operand_resolvable(table@, operands(is[k])[j]),
                    decreases f.instructions@.len() - i,
                {
                    assert(is[i as int] == f.instructions@[i as int]@);
                    if !check_instruction(table, &f.instructions[i]) {
                        proof {
                            let j = choose|j: int| 0 <= j < operands(is[i as int]).len() && !operand_resolvable(table@, #[trigger] operands(is[i as int])[j]);
                            assert(!pseudos_known(table@, is));
                        }
                        return false;
                    }
                    i = i + 1;
                }
            },
            _ => {},
        }
        t = t + 1;
    }
    true
}

} // verus!
