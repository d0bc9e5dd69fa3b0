use vstd::prelude::*;

use super::ast::{
    asm_view, tops_view, AsmTopView, AsmView, AssemblyType, BinaryOp, ConditionCode, FuncDef,
    ImmValue, Instruction, Operand, OperandView, Program, Register, StaticVar, TopLevel, UnaryOp,
};
use super::symbol_table::SymbolTableEntry;
use crate::common::symbol_table::InitValue;
use crate::common::symbol_table_generic::SymbolTable;
use crate::util::{append_signed_decimal, append_str, signed_decimal, string_of};
use crate::assembly::assembly_creator::{condition_holds, int_arg_register, machine_binary_value, machine_unary_value};

verus! {

broadcast use vstd::std_specs::vec::group_vec_axioms;

/// The operating system the assembly text is written for: local labels, symbol names, the
/// alignment directive and the stack note differ between them.
#[derive(Debug, Clone, Copy, PartialEq, Eq, Structural)]
pub enum Target {
    Linux,
    MacOs,
    Other,
}

/// The prefix of a symbol's name: an underscore on macOS, nothing elsewhere.
pub open spec fn symbol_prefix(target: Target) -> Seq<char> {
    if target == Target::MacOs {
        "_"@
    } else {
        Seq::empty()
    }
}

/// Law: the text follows the System V calling convention: the integer arguments travel, in
/// order, in `%rdi`, `%rsi`, `%rdx`, `%rcx`, `%r8` and `%r9` (their 4-byte halves for `int`
/// values), a value is returned in `%rax` (`%eax`, `%al` for its low byte), and `%rdx`
/// (`%edx`) holds the remainder of a division.
pub proof fn law_calling_convention_registers()
    ensures
        reg8(int_arg_register(0)) == seq!['%', 'r', 'd', 'i'],
        reg4(int_arg_register(0)) == seq!['%', 'e', 'd', 'i'],
        reg8(int_arg_register(1)) == seq!['%', 'r', 's', 'i'],
        reg4(int_arg_register(1)) == seq!['%', 'e', 's', 'i'],
        reg8(int_arg_register(2)) == seq!['%', 'r', 'd', 'x'],
        reg4(int_arg_register(2)) == seq!['%', 'e', 'd', 'x'],
        reg8(int_arg_register(3)) == seq!['%', 'r', 'c', 'x'],
        reg4(int_arg_register(3)) == seq!['%', 'e', 'c', 'x'],
        reg8(int_arg_register(4)) == seq!['%', 'r', '8'],
        reg4(int_arg_register(4)) == seq!['%', 'r', '8', 'd'],
        reg8(int_arg_register(5)) == seq!['%', 'r', '9'],
        reg4(int_arg_register(5)) == seq!['%', 'r', '9', 'd'],
        reg8(Register::AX) == seq!['%', 'r', 'a', 'x'],
        reg4(Register::AX) == seq!['%', 'e', 'a', 'x'],
        reg1(Register::AX) == seq!['%', 'a', 'l'],
        reg8(Register::DX) == seq!['%', 'r', 'd', 'x'],
        reg4(Register::DX) == seq!['%', 'e', 'd', 'x'],
{
    reveal_strlit("%al");
    reveal_strlit("%eax");
    reveal_strlit("%ecx");
    reveal_strlit("%edi");
    reveal_strlit("%edx");
    reveal_strlit("%esi");
    reveal_strlit("%r8");
    reveal_strlit("%r8d");
    reveal_strlit("%r9");
    reveal_strlit("%r9d");
    reveal_strlit("%rax");
    reveal_strlit("%rcx");
    reveal_strlit("%rdi");
    reveal_strlit("%rdx");
    reveal_strlit("%rsi");
    assert(reg8(int_arg_register(0)) =~= seq!['%', 'r', 'd', 'i']);
    assert(reg8(int_arg_register(1)) =~= seq!['%', 'r', 's', 'i']);
    assert(reg8(int_arg_register(2)) =~= seq!['%', 'r', 'd', 'x']);
    assert(reg8(int_arg_register(3)) =~= seq!['%', 'r', 'c', 'x']);
    assert(reg8(int_arg_register(4)) =~= seq!['%', 'r', '8']);
    assert(reg8(int_arg_register(5)) =~= seq!['%', 'r', '9']);
    assert(reg4(int_arg_register(0)) =~= seq!['%', 'e', 'd', 'i']);
    assert(reg4(int_arg_register(1)) =~= seq!['%', 'e', 's', 'i']);
    assert(reg4(int_arg_register(2)) =~= seq!['%', 'e', 'd', 'x']);
    assert(reg4(int_arg_register(3)) =~= seq!['%', 'e', 'c', 'x']);
    assert(reg4(int_arg_register(4)) =~= seq!['%', 'r', '8', 'd']);
    assert(reg4(int_arg_register(5)) =~= seq!['%', 'r', '9', 'd']);
    assert(reg8(Register::AX) =~= seq!['%', 'r', 'a', 'x']);
    assert(reg4(Register::AX) =~= seq!['%', 'e', 'a', 'x']);
    assert(reg1(Register::AX) =~= seq!['%', 'a', 'l']);
    assert(reg8(Register::DX) =~= seq!['%', 'r', 'd', 'x']);
    assert(reg4(Register::DX) =~= seq!['%', 'e', 'd', 'x']);
}

/// A line holding one instruction or directive: a tab, the text, a newline.
pub open spec fn line(body: Seq<char>) -> Seq<char> {
    "\t"@ + body + "\n"@
}

pub open spec fn reg8(r: Register) -> Seq<char> {
    match r {
        Register::AX => "%rax"@,
        Register::CX => "%rcx"@,
        Register::DX => "%rdx"@,
        Register::DI => "%rdi"@,
        Register::SI => "%rsi"@,
        Register::R8 => "%r8"@,
        Register::R9 => "%r9"@,
        Register::R10 => "%r10"@,
        Register::R11 => "%r11"@,
        Register::SP => "%rsp"@,
    }
}

pub open spec fn reg4(r: Register) -> Seq<char> {
    match r {
        Register::AX => "%eax"@,
        Register::CX => "%ecx"@,
        Register::DX => "%edx"@,
        Register::DI => "%edi"@,
        Register::SI => "%esi"@,
        Register::R8 => "%r8d"@,
        Register::R9 => "%r9d"@,
        Register::R10 => "%r10d"@,
        Register::R11 => "%r11d"@,
        Register::SP => "%esp"@,
    }
}

pub open spec fn reg1(r: Register) -> Seq<char> {
    match r {
        Register::AX => "%al"@,
        Register::CX => "%cl"@,
        Register::DX => "%dl"@,
        Register::DI => "%dil"@,
        Register::SI => "%sil"@,
        Register::R8 => "%r8b"@,
        Register::R9 => "%r9b"@,
        Register::R10 => "%r10b"@,
        Register::R11 => "%r11b"@,
        Register::SP => "%spl"@,
    }
}

pub open spec fn imm_text(i: ImmValue) -> Seq<char> {
    match i {
        ImmValue::Int(v) => "$"@ + signed_decimal(v as int),
        ImmValue::Long(v) => "$"@ + signed_decimal(v as int),
    }
}

/// An operand as text, with registers named for a width of 8, 4 or 1 bytes.
pub open spec fn operand_text(target: Target, o: OperandView, width: int) -> Seq<char> {
    match o {
        OperandView::Immediate(i) => imm_text(i),
        OperandView::Register(r) => if width == 8 {
            reg8(r)
        } else if width == 4 {
            reg4(r)
        } else {
            reg1(r)
        },
        OperandView::Stack(off) => signed_decimal(off as int) + "(%rbp)"@,
        OperandView::Data(label) => symbol_prefix(target) + label + "(%rip)"@,
        OperandView::PseudoReg(n) => n,
    }
}

pub open spec fn width_of(t: AssemblyType) -> int {
    match t {
        AssemblyType::Longword => 4,
        AssemblyType::Quadword => 8,
    }
}

pub open spec fn suffix(t: AssemblyType) -> Seq<char> {
    match t {
        AssemblyType::Longword => "l"@,
        AssemblyType::Quadword => "q"@,
    }
}

pub open spec fn typed_operand(target: Target, o: OperandView, t: AssemblyType) -> Seq<char> {
    operand_text(target, o, width_of(t))
}

pub open spec fn unary_text(op: UnaryOp) -> Seq<char> {
    match op {
        UnaryOp::Neg => "neg"@,
        UnaryOp::Not => "not"@,
    }
}

pub open spec fn binary_text(op: BinaryOp) -> Seq<char> {
    match op {
        BinaryOp::Add => "add"@,
        BinaryOp::Sub => "sub"@,
        BinaryOp::Mul => "imul"@,
        BinaryOp::BitAnd => "and"@,
        BinaryOp::BitOr => "or"@,
        BinaryOp::BitXor => "xor"@,
        BinaryOp::ShiftLeft => "shl"@,
        BinaryOp::ShiftRight => "sar"@,
    }
}

pub open spec fn condition_text(c: ConditionCode) -> Seq<char> {
    match c {
        ConditionCode::Eq => "e"@,
        ConditionCode::NotEq => "ne"@,
        ConditionCode::Gt => "g"@,
        ConditionCode::GtEq => "ge"@,
        ConditionCode::Lt => "l"@,
        ConditionCode::LtEq => "le"@,
    }
}

/// What an x86 binary mnemonic leaves in its destination, from the destination's value `d`
/// and the source's value `s`: `add` the sum, `sub` the difference, `imul` the product, `and`,
/// `or` and `xor` the bitwise operations, `shl` and `sar` the shifts. Other text computes
/// nothing.
pub open spec fn mnemonic_binary_value(m: Seq<char>, d: i64, s: i64) -> Option<int> {
    if m == seq!['a', 'd', 'd'] {
        Some(d + s)
    } else if m == seq!['s', 'u', 'b'] {
        Some(d - s)
    } else if m == seq!['i', 'm', 'u', 'l'] {
        Some(d * s)
    } else if m == seq!['a', 'n', 'd'] {
        Some((d & s) as int)
    } else if m == seq!['o', 'r'] {
        Some((d | s) as int)
    } else if m == seq!['x', 'o', 'r'] {
        Some((d ^ s) as int)
    } else if m == seq!['s', 'h', 'l'] {
        Some((d << s) as int)
    } else if m == seq!['s', 'a', 'r'] {
        Some((d >> s) as int)
    } else {
        None
    }
}

/// What an x86 unary mnemonic leaves in its operand: `neg` the negation, `not` the bitwise
/// complement. Other text computes nothing.
pub open spec fn mnemonic_unary_value(m: Seq<char>, d: i64) -> Option<int> {
    if m == seq!['n', 'e', 'g'] {
        Some(-d)
    } else if m == seq!['n', 'o', 't'] {
        Some((!d) as int)
    } else {
        None
    }
}

proof fn lemma_mnemonic_literals()
    ensures
        seq!['a', 'd', 'd'].len() == 3,
        seq!['a', 'd', 'd'][0] == 'a',
        seq!['a', 'd', 'd'][1] == 'd',
        seq!['s', 'u', 'b'].len() == 3,
        seq!['s', 'u', 'b'][0] == 's',
        seq!['s', 'u', 'b'][1] == 'u',
        seq!['i', 'm', 'u', 'l'].len() == 4,
        seq!['i', 'm', 'u', 'l'][0] == 'i',
        seq!['i', 'm', 'u', 'l'][1] == 'm',
        seq!['a', 'n', 'd'].len() == 3,
        seq!['a', 'n', 'd'][0] == 'a',
        seq!['a', 'n', 'd'][1] == 'n',
        seq!['o', 'r'].len() == 2,
        seq!['o', 'r'][0] == 'o',
        seq!['o', 'r'][1] == 'r',
        seq!['x', 'o', 'r'].len() == 3,
        seq!['x', 'o', 'r'][0] == 'x',
        seq!['x', 'o', 'r'][1] == 'o',
        seq!['s', 'h', 'l'].len() == 3,
        seq!['s', 'h', 'l'][0] == 's',
        seq!['s', 'h', 'l'][1] == 'h',
        seq!['s', 'a', 'r'].len() == 3,
        seq!['s', 'a', 'r'][0] == 's',
        seq!['s', 'a', 'r'][1] == 'a',
        seq!['n', 'e', 'g'].len() == 3,
        seq!['n', 'e', 'g'][0] == 'n',
        seq!['n', 'e', 'g'][1] == 'e',
        seq!['n', 'o', 't'].len() == 3,
        seq!['n', 'o', 't'][0] == 'n',
        seq!['n', 'o', 't'][1] == 'o',
{
    assert(seq!['a', 'd', 'd'].len() == 3 && seq!['a', 'd', 'd'][0] == 'a' && seq!['a', 'd', 'd'][1] == 'd');
    assert(seq!['s', 'u', 'b'].len() == 3 && seq!['s', 'u', 'b'][0] == 's' && seq!['s', 'u', 'b'][1] == 'u');
    assert(seq!['i', 'm', 'u', 'l'].len() == 4 && seq!['i', 'm', 'u', 'l'][0] == 'i' && seq!['i', 'm', 'u', 'l'][1] == 'm');
    assert(seq!['a', 'n', 'd'].len() == 3 && seq!['a', 'n', 'd'][0] == 'a' && seq!['a', 'n', 'd'][1] == 'n');
    assert(seq!['o', 'r'].len() == 2 && seq!['o', 'r'][0] == 'o' && seq!['o', 'r'][1] == 'r');
    assert(seq!['x', 'o', 'r'].len() == 3 && seq!['x', 'o', 'r'][0] == 'x' && seq!['x', 'o', 'r'][1] == 'o');
    assert(seq!['s', 'h', 'l'].len() == 3 && seq!['s', 'h', 'l'][0] == 's' && seq!['s', 'h', 'l'][1] == 'h');
    assert(seq!['s', 'a', 'r'].len() == 3 && seq!['s', 'a', 'r'][0] == 's' && seq!['s', 'a', 'r'][1] == 'a');
    assert(seq!['n', 'e', 'g'].len() == 3 && seq!['n', 'e', 'g'][0] == 'n' && seq!['n', 'e', 'g'][1] == 'e');
    assert(seq!['n', 'o', 't'].len() == 3 && seq!['n', 'o', 't'][0] == 'n' && seq!['n', 'o', 't'][1] == 'o');
}

/// Law: the mnemonic written for a machine binary operation computes what the operation
/// computes, so the assembly text adds where the instruction adds, and so on.
pub proof fn law_binary_text_meaning(op: BinaryOp, d: i64, s: i64)
    ensures
        mnemonic_binary_value(binary_text(op), d, s) == Some(machine_binary_value(op, d, s)),
{
    reveal_strlit("add");
    reveal_strlit("sub");
    reveal_strlit("imul");
    reveal_strlit("and");
    reveal_strlit("or");
    reveal_strlit("xor");
    reveal_strlit("shl");
    reveal_strlit("sar");
    reveal_strlit("neg");
    reveal_strlit("not");
    lemma_mnemonic_literals();
    match op {
        BinaryOp::Add => assert(binary_text(op) =~= seq!['a', 'd', 'd']),
        BinaryOp::Sub => assert(binary_text(op) =~= seq!['s', 'u', 'b']),
        BinaryOp::Mul => assert(binary_text(op) =~= seq!['i', 'm', 'u', 'l']),
        BinaryOp::BitAnd => assert(binary_text(op) =~= seq!['a', 'n', 'd']),
        BinaryOp::BitOr => assert(binary_text(op) =~= seq!['o', 'r']),
        BinaryOp::BitXor => assert(binary_text(op) =~= seq!['x', 'o', 'r']),
        BinaryOp::ShiftLeft => assert(binary_text(op) =~= seq!['s', 'h', 'l']),
        BinaryOp::ShiftRight => assert(binary_text(op) =~= seq!['s', 'a', 'r']),
    }
}

/// Law: the mnemonic written for a machine unary operation computes what the operation
/// computes.
pub proof fn law_unary_text_meaning(op: UnaryOp, d: i64)
    ensures
        mnemonic_unary_value(unary_text(op), d) == Some(machine_unary_value(op, d)),
{
    reveal_strlit("neg");
    reveal_strlit("not");
    lemma_mnemonic_literals();
    match op {
        UnaryOp::Neg => assert(unary_text(op) =~= seq!['n', 'e', 'g']),
        UnaryOp::Not => assert(unary_text(op) =~= seq!['n', 'o', 't']),
    }
}

/// What an x86 condition suffix (as in `set<cc>` and `j<cc>`) tests after `cmp first, second`:
/// `e` equal, `ne` not equal, `g` greater, `ge` greater or equal, `l` less, `le` less or
/// equal, `second` against `first`, as signed numbers. Any other text tests nothing.
pub open spec fn suffix_holds(suffix: Seq<char>, first: int, second: int) -> bool {
    if suffix == seq!['e'] {
        second == first
    } else if suffix == seq!['n', 'e'] {
        second != first
    } else if suffix == seq!['g'] {
        second > first
    } else if suffix == seq!['g', 'e'] {
        second >= first
    } else if suffix == seq!['l'] {
        second < first
    } else if suffix == seq!['l', 'e'] {
        second <= first
    } else {
        false
    }
}

/// Law: the suffix written for a condition code tests the same comparison as the code: the
/// `set` and conditional jump lines of the assembly text decide as the instructions do.
pub proof fn law_condition_text_meaning(c: ConditionCode, first: int, second: int)
    ensures
        suffix_holds(condition_text(c), first, second) == condition_holds(c, first, second),
{
    reveal_strlit("e");
    reveal_strlit("ne");
    reveal_strlit("g");
    reveal_strlit("ge");
    reveal_strlit("l");
    reveal_strlit("le");
    assert(seq!['e'].len() == 1 && seq!['g'].len() == 1 && seq!['l'].len() == 1);
    assert(seq!['n', 'e'].len() == 2 && seq!['g', 'e'].len() == 2 && seq!['l', 'e'].len() == 2);
    assert(seq!['e'][0] == 'e' && seq!['g'][0] == 'g' && seq!['l'][0] == 'l');
    assert(seq!['n', 'e'][0] == 'n' && seq!['g', 'e'][0] == 'g' && seq!['l', 'e'][0] == 'l');
    match c {
        ConditionCode::Eq => assert(condition_text(c) =~= seq!['e']),
        ConditionCode::NotEq => {
            assert(condition_text(c) =~= seq!['n', 'e']);
            assert(condition_text(c) != seq!['e']);
        },
        ConditionCode::Gt => {
            assert(condition_text(c) =~= seq!['g']);
            assert(condition_text(c) != seq!['e']);
            assert(condition_text(c) != seq!['n', 'e']);
        },
        ConditionCode::GtEq => {
            assert(condition_text(c) =~= seq!['g', 'e']);
            assert(condition_text(c) != seq!['e']);
            assert(condition_text(c) != seq!['n', 'e']);
            assert(condition_text(c) != seq!['g']);
        },
        ConditionCode::Lt => {
            assert(condition_text(c) =~= seq!['l']);
            assert(condition_text(c) != seq!['e']);
            assert(condition_text(c) != seq!['n', 'e']);
            assert(condition_text(c) != seq!['g']);
            assert(condition_text(c) != seq!['g', 'e']);
        },
        ConditionCode::LtEq => {
            assert(condition_text(c) =~= seq!['l', 'e']);
            assert(condition_text(c) != seq!['e']);
            assert(condition_text(c) != seq!['n', 'e']);
            assert(condition_text(c) != seq!['g']);
            assert(condition_text(c) != seq!['g', 'e']);
            assert(condition_text(c) != seq!['l']);
        },
    }
}

/// A label local to the assembly file.
pub open spec fn local_label(target: Target, l: Seq<char>) -> Seq<char> {
    if target == Target::Linux {
        ".L"@ + l
    } else {
        "L"@ + l
    }
}

/// The name a call or a definition uses: on Linux functions defined elsewhere go through the
/// PLT, on macOS the name gets an underscore.
pub open spec fn function_name(target: Target, table: Map<Seq<char>, SymbolTableEntry>, name: Seq<char>) -> Seq<char> {
    if target == Target::Linux {
        match table[name] {
            SymbolTableEntry::Function { is_defined } => if is_defined {
                name
            } else {
                name + "@PLT"@
            },
            _ => name,
        }
    } else {
        symbol_prefix(target) + name
    }
}

/// The text of one instruction.
pub open spec fn instruction_text(target: Target, table: Map<Seq<char>, SymbolTableEntry>, i: AsmView) -> Seq<char> {
    match i {
        AsmView::Mov { assembly_type: t, src, dst } => line(
            "mov"@ + suffix(t) + " \t"@ + typed_operand(target, src, t) + ", "@ + typed_operand(target, dst, t),
        ),
        AsmView::MovSx { src, dst } => line("movslq \t"@ + operand_text(target, src, 4) + ", "@ + operand_text(target, dst, 8)),
        AsmView::Ret => line("movq \t%rbp, %rsp"@) + line("popq \t%rbp"@) + line("ret"@),
        AsmView::Unary { assembly_type: t, op, operand } => line(
            unary_text(op) + suffix(t) + " \t"@ + typed_operand(target, operand, t),
        ),
        AsmView::Binary { assembly_type: t, op, left, right } => line(
            binary_text(op) + suffix(t) + " \t"@ + typed_operand(target, left, t) + ", "@ + typed_operand(target, right, t),
        ),
        AsmView::Idiv { assembly_type: t, operand } => line("idiv"@ + suffix(t) + " \t"@ + typed_operand(target, operand, t)),
        AsmView::Cdq(t) => line(
            if t == AssemblyType::Longword {
                "cdq"@
            } else {
                "cqo"@
            },
        ),
        AsmView::Cmp { assembly_type: t, op1, op2 } => line(
            "cmp"@ + suffix(t) + " \t"@ + typed_operand(target, op1, t) + ", "@ + typed_operand(target, op2, t),
        ),
        AsmView::Jmp(l) => line("jmp \t"@ + local_label(target, l)),
        AsmView::JmpCC(c, l) => line("j"@ + condition_text(c) + " \t"@ + local_label(target, l)),
        AsmView::SetCC(c, o) => line("set"@ + condition_text(c) + " \t"@ + operand_text(target, o, 1)),
        AsmView::Label(l) => " "@ + local_label(target, l) + ":\n"@,
        AsmView::Push(o) => line("pushq \t"@ + operand_text(target, o, 8)),
        AsmView::Call(f) => line("call \t"@ + function_name(target, table, f)),
    }
}

/// The text of a sequence of instructions, in order.
pub open spec fn instructions_text(target: Target, table: Map<Seq<char>, SymbolTableEntry>, is: Seq<AsmView>) -> Seq<char>
    decreases is.len(),
{
    if is.len() == 0 {
        Seq::empty()
    } else {
        instructions_text(target, table, is.drop_last()) + instruction_text(target, table, is.last())
    }
}

/// The directive that aligns a static variable.
pub open spec fn align_directive(target: Target) -> Seq<char> {
    if target == Target::MacOs {
        ".balign "@
    } else {
        ".align "@
    }
}

pub open spec fn globl(is_global: bool, name: Seq<char>) -> Seq<char> {
    if is_global {
        line(".globl "@ + name)
    } else {
        Seq::empty()
    }
}

/// The text of a top-level item: a function with its prologue and code, or a static
/// variable in the data section (or, when zero, in the bss section).
pub open spec fn top_text(target: Target, table: Map<Seq<char>, SymbolTableEntry>, t: AsmTopView) -> Seq<char> {
    match t {
        AsmTopView::Function { name, is_global, instructions, .. } => globl(is_global, name) + line(".text"@) + " "@
            + function_name(target, table, name) + ":\n"@ + line("pushq \t%rbp"@) + line("movq \t%rsp, %rbp"@)
            + instructions_text(target, table, instructions),
        AsmTopView::StaticVariable { name, is_global, value, alignment } => {
            let (v, quad): (int, bool) = match value {
                InitValue::Int(i) => (i as int, false),
                InitValue::Long(l) => (l as int, true),
            };
            globl(is_global, name) + line(
                if v != 0 {
                    ".data"@
                } else {
                    ".bss"@
                },
            ) + line(align_directive(target) + signed_decimal(alignment as int)) + " "@ + symbol_prefix(target) + name
                + ":\n"@ + if v != 0 {
                line(
                    (if quad {
                        ".quad "@
                    } else {
                        ".long "@
                    }) + signed_decimal(v),
                )
            } else {
                line(
                    ".zero "@ + if quad {
                        "8"@
                    } else {
                        "4"@
                    },
                )
            }
        },
    }
}

pub open spec fn tops_text(target: Target, table: Map<Seq<char>, SymbolTableEntry>, ts: Seq<AsmTopView>) -> Seq<char>
    decreases ts.len(),
{
    if ts.len() == 0 {
        Seq::empty()
    } else {
        tops_text(target, table, ts.drop_last()) + top_text(target, table, ts.last())
    }
}

/// The note that the stack is not executable, which Linux asks for.
pub open spec fn stack_note(target: Target) -> Seq<char> {
    if target == Target::Linux {
        ".section .note.GNU-stack,\"\",@progbits\n"@
    } else {
        Seq::empty()
    }
}

/// The whole assembly file: a heading comment, the items, and on Linux the note that the
/// stack is not executable.
pub open spec fn program_text(target: Target, table: Map<Seq<char>, SymbolTableEntry>, ts: Seq<AsmTopView>) -> Seq<char> {
    "# ===== Program =====\n"@ + tops_text(target, table, ts) + stack_note(target)
}

/// Whether an operand can be printed for the target: it is no pseudo register, and data
/// operands are only named on Linux and macOS.
pub open spec fn operand_printable(target: Target, o: OperandView) -> bool {
    !(o is PseudoReg) && (target == Target::Other ==> !(o is Data))
}

/// Whether an instruction can be printed: no operand is a pseudo register (nor, for other
/// systems, a data operand), and on Linux a called function is known as a function.
pub open spec fn printable(target: Target, table: Map<Seq<char>, SymbolTableEntry>, i: AsmView) -> bool {
    &&& match i {
        AsmView::Mov { src, dst, .. } | AsmView::MovSx { src, dst } => operand_printable(target, src)
            && operand_printable(target, dst),
        AsmView::Unary { operand, .. } | AsmView::Idiv { operand, .. } | AsmView::SetCC(_, operand)
        | AsmView::Push(operand) => operand_printable(target, operand),
        AsmView::Binary { left, right, .. } => operand_printable(target, left) && operand_printable(target, right),
        AsmView::Cmp { op1, op2, .. } => operand_printable(target, op1) && operand_printable(target, op2),
        _ => true,
    }
    &&& target == Target::Linux ==> (i matches AsmView::Call(f) ==> table.contains_key(f) && table[f] is Function)
}

/// Whether every instruction of a sequence can be printed.
pub open spec fn all_printable(target: Target, table: Map<Seq<char>, SymbolTableEntry>, is: Seq<AsmView>) -> bool {
    forall|j: int| 0 <= j < is.len() ==> #[trigger] printable(target, table, is[j])
}

/// Whether a top-level item can be printed: a function's instructions can be printed and, on
/// Linux, it is known as a function; static variables are only named on Linux and macOS.
pub open spec fn top_printable(target: Target, table: Map<Seq<char>, SymbolTableEntry>, t: AsmTopView) -> bool {
    match t {
        AsmTopView::Function { name, instructions, .. } => {
            &&& target == Target::Linux ==> table.contains_key(name) && table[name] is Function
            &&& all_printable(target, table, instructions)
        },
        _ => target != Target::Other,
    }
}

/// Whether a program can be printed.
pub open spec fn program_printable(target: Target, table: Map<Seq<char>, SymbolTableEntry>, ts: Seq<AsmTopView>) -> bool {
    forall|k: int| #![trigger ts[k]] 0 <= k < ts.len() ==> top_printable(target, table, ts[k])
}

fn register_text(r: Register, width: u8) -> (t: &'static str)
    ensures
        t@ == (if width == 8 {
            reg8(r)
        } else if width == 4 {
            reg4(r)
        } else {
            reg1(r)
        }),
{
    if width == 8 {
        match r {
            Register::AX => "%rax",
            Register::CX => "%rcx",
            Register::DX => "%rdx",
            Register::DI => "%rdi",
            Register::SI => "%rsi",
            Register::R8 => "%r8",
            Register::R9 => "%r9",
            Register::R10 => "%r10",
            Register::R11 => "%r11",
            Register::SP => "%rsp",
        }
    } else if width == 4 {
        match r {
            Register::AX => "%eax",
            Register::CX => "%ecx",
            Register::DX => "%edx",
            Register::DI => "%edi",
            Register::SI => "%esi",
            Register::R8 => "%r8d",
            Register::R9 => "%r9d",
            Register::R10 => "%r10d",
            Register::R11 => "%r11d",
            Register::SP => "%esp",
        }
    } else {
        match r {
            Register::AX => "%al",
            Register::CX => "%cl",
            Register::DX => "%dl",
            Register::DI => "%dil",
            Register::SI => "%sil",
            Register::R8 => "%r8b",
            Register::R9 => "%r9b",
            Register::R10 => "%r10b",
            Register::R11 => "%r11b",
            Register::SP => "%spl",
        }
    }
}

fn prefix_text(target: Target) -> (p: &'static str)
    ensures
        p@ == symbol_prefix(target),
{
    proof {
        reveal_strlit("_");
        reveal_strlit("");
    }
    if target == Target::MacOs {
        "_"
    } else {
        ""
    }
}

fn local_label_prefix(target: Target) -> (p: &'static str)
    ensures
        local_label(target, Seq::empty()) == p@,
{
    proof {
        reveal_strlit(".L");
        reveal_strlit("L");
    }
    if target == Target::Linux {
        ".L"
    } else {
        "L"
    }
}

fn append_local_label(s: &mut String, target: Target, l: &String)
    ensures
        final(s)@ == old(s)@ + local_label(target, l@),
{
    let p = local_label_prefix(target);
    append_str(s, p);
    append_str(s, l.as_str());
    assert(local_label(target, l@) =~= p@ + l@);
}

fn append_operand(s: &mut String, o: &Operand, width: u8, target: Target)
    ensures
        final(s)@ == old(s)@ + operand_text(target, o@, width as int),
{
    match o {
        Operand::Immediate(ImmValue::Int(v)) => {
            append_str(s, "$");
            append_signed_decimal(s, *v as i64);
        },
        Operand::Immediate(ImmValue::Long(v)) => {
            append_str(s, "$");
            append_signed_decimal(s, *v);
        },
        Operand::Register(r) => {
            append_str(s, register_text(*r, width));
        },
        Operand::Stack(off) => {
            append_signed_decimal(s, *off as i64);
            append_str(s, "(%rbp)");
        },
        Operand::Data(label) => {
            append_str(s, prefix_text(target));
            append_str(s, label.as_str());
            append_str(s, "(%rip)");
        },
        Operand::PseudoReg(n) => {
            append_str(s, n.as_str());
        },
    }
    assert(s@ =~= old(s)@ + operand_text(target, o@, width as int));
}

fn width_for(t: AssemblyType) -> (w: u8)
    ensures
        w as int == width_of(t),
{
    match t {
        AssemblyType::Longword => 4,
        AssemblyType::Quadword => 8,
    }
}

fn suffix_text(t: AssemblyType) -> (r: &'static str)
    ensures
        r@ == suffix(t),
{
    match t {
        AssemblyType::Longword => "l",
        AssemblyType::Quadword => "q",
    }
}

fn condition_code_text(c: ConditionCode) -> (r: &'static str)
    ensures
        r@ == condition_text(c),
{
    match c {
        ConditionCode::Eq => "e",
        ConditionCode::NotEq => "ne",
        ConditionCode::Gt => "g",
        ConditionCode::GtEq => "ge",
        ConditionCode::Lt => "l",
        ConditionCode::LtEq => "le",
    }
}

fn binary_op_text(op: BinaryOp) -> (r: &'static str)
    ensures
        r@ == binary_text(op),
{
    match op {
        BinaryOp::Add => "add",
        BinaryOp::Sub => "sub",
        BinaryOp::Mul => "imul",
        BinaryOp::BitAnd => "and",
        BinaryOp::BitOr => "or",
        BinaryOp::BitXor => "xor",
        BinaryOp::ShiftLeft => "shl",
        BinaryOp::ShiftRight => "sar",
    }
}

/// Writes a program as GNU assembler text for x86-64 on the given target.
pub struct CodeGenerator {
    code: String,
    asm_symbol_table: SymbolTable<SymbolTableEntry>,
    target: Target,
}

impl CodeGenerator {
    /// The back end's symbol table, which tells defined functions from others.
    pub closed spec fn table(&self) -> Map<Seq<char>, SymbolTableEntry> {
        self.asm_symbol_table@
    }

    /// The system the text is written for.
    pub closed spec fn target(&self) -> Target {
        self.target
    }

    pub fn new(asm_symbol_table: SymbolTable<SymbolTableEntry>, target: Target) -> (g: Self)
        ensures
            g.table() == asm_symbol_table@,
            g.target() == target,
    {
        CodeGenerator { code: String::new(), asm_symbol_table, target }
    }

    fn append_function_name(&mut self, name: &String)
        requires
            old(self).target() == Target::Linux ==> old(self).table().contains_key(name@),
        ensures
            final(self).table() == old(self).table(),
            final(self).target() == old(self).target(),
            final(self).code@ == old(self).code@ + function_name(old(self).target(), old(self).table(), name@),
    {
        if self.target == Target::Linux {
            append_str(&mut self.code, name.as_str());
            match self.asm_symbol_table.get_entry(name.as_str()) {
                Some(SymbolTableEntry::Function { is_defined }) => {
                    if !*is_defined {
                        append_str(&mut self.code, "@PLT");
                    }
                },
                _ => {},
            }
        } else {
            append_str(&mut self.code, prefix_text(self.target));
            append_str(&mut self.code, name.as_str());
        }
    }

    /// Writes `mnemonic`, the size suffix and two operands of that size.
    fn write_two(&mut self, mnemonic: &str, t: AssemblyType, a: &Operand, b: &Operand)
        ensures
            final(self).table() == old(self).table(),
            final(self).target() == old(self).target(),
            final(self).code@ == old(self).code@ + line(
                mnemonic@ + suffix(t) + " \t"@ + typed_operand(old(self).target, a@, t) + ", "@ + typed_operand(old(self).target, b@, t),
            ),
    {
        let ghost start = self.code@;
        let w = width_for(t);
        append_str(&mut self.code, "\t");
        append_str(&mut self.code, mnemonic);
        append_str(&mut self.code, suffix_text(t));
        append_str(&mut self.code, " \t");
        append_operand(&mut self.code, a, w, self.target);
        append_str(&mut self.code, ", ");
        append_operand(&mut self.code, b, w, self.target);
        append_str(&mut self.code, "\n");
        assert(self.code@ =~= start + line(
            mnemonic@ + suffix(t) + " \t"@ + typed_operand(self.target, a@, t) + ", "@ + typed_operand(self.target, b@, t),
        ));
    }

    /// Writes `mnemonic`, the size suffix and one operand of that size.
    fn write_one(&mut self, mnemonic: &str, t: AssemblyType, a: &Operand)
        ensures
            final(self).table() == old(self).table(),
            final(self).target() == old(self).target(),
            final(self).code@ == old(self).code@ + line(mnemonic@ + suffix(t) + " \t"@ + typed_operand(old(self).target, a@, t)),
    {
        let ghost start = self.code@;
        append_str(&mut self.code, "\t");
        append_str(&mut self.code, mnemonic);
        append_str(&mut self.code, suffix_text(t));
        append_str(&mut self.code, " \t");
        append_operand(&mut self.code, a, width_for(t), self.target);
        append_str(&mut self.code, "\n");
        assert(self.code@ =~= start + line(mnemonic@ + suffix(t) + " \t"@ + typed_operand(self.target, a@, t)));
    }

    /// Writes a line made of a text and, optionally, an operand of the given width.
    fn write_line(&mut self, text: &str, o: Option<(&Operand, u8)>)
        ensures
            final(self).table() == old(self).table(),
            final(self).target() == old(self).target(),
            final(self).code@ == old(self).code@ + line(
                text@ + match o {
                    Some((a, w)) => operand_text(old(self).target, a@, w as int),
                    None => Seq::empty(),
                },
            ),
    {
        let ghost start = self.code@;
        append_str(&mut self.code, "\t");
        append_str(&mut self.code, text);
        if let Some((a, w)) = o {
            append_operand(&mut self.code, a, w, self.target);
        }
        append_str(&mut self.code, "\n");
        assert(self.code@ =~= start + line(
            text@ + match o {
                Some((a, w)) => operand_text(self.target, a@, w as int),
                None => Seq::empty(),
            },
        ));
    }

    #[verifier::rlimit(100)]
    #[verifier::spinoff_prover]
    fn write_instruction(&mut self, i: &Instruction)
        requires
            printable(old(self).target(), old(self).table(), i@),
        ensures
            final(self).table() == old(self).table(),
            final(self).target() == old(self).target(),
            final(self).code@ == old(self).code@ + instruction_text(old(self).target(), old(self).table(), i@),
    {
        match i {
            Instruction::Mov { assembly_type, src, dst } => self.write_two("mov", *assembly_type, src, dst),
            Instruction::Binary { assembly_type, op, left, right } => self.write_two(binary_op_text(*op), *assembly_type, left, right),
            Instruction::Cmp { assembly_type, op1, op2 } => self.write_two("cmp", *assembly_type, op1, op2),
            Instruction::Unary { assembly_type, op, operand } => self.write_one(if *op == UnaryOp::Neg { "neg" } else { "not" }, *assembly_type, operand),
            Instruction::Idiv { assembly_type, operand } => self.write_one("idiv", *assembly_type, operand),
            _ => self.write_other(i),
        }
    }

    #[verifier::rlimit(100)]
    #[verifier::spinoff_prover]
    fn write_other(&mut self, i: &Instruction)
        requires
            printable(old(self).target(), old(self).table(), i@),
            !(i is Mov || i is Binary || i is Cmp || i is Unary || i is Idiv),
        ensures
            final(self).table() == old(self).table(),
            final(self).target() == old(self).target(),
            final(self).code@ == old(self).code@ + instruction_text(old(self).target(), old(self).table(), i@),
    {
        let ghost start = self.code@;
        match i {
            Instruction::Mov { .. } | Instruction::Binary { .. } | Instruction::Cmp { .. } | Instruction::Unary { .. } | Instruction::Idiv { .. } => {},
            Instruction::MovSx { src, dst } => {
                append_str(&mut self.code, "\t");
                append_str(&mut self.code, "movslq \t");
                append_operand(&mut self.code, src, 4, self.target);
                append_str(&mut self.code, ", ");
                append_operand(&mut self.code, dst, 8, self.target);
                append_str(&mut self.code, "\n");
                assert(self.code@ =~= start + instruction_text(self.target, self.table(), i@));
            },
            Instruction::Ret => {
                self.write_line("movq \t%rbp, %rsp", None);
                self.write_line("popq \t%rbp", None);
                self.write_line("ret", None);
                assert(self.code@ =~= start + instruction_text(self.target, self.table(), i@));
            },
            Instruction::Cdq(t) => {
                self.write_line(if *t == AssemblyType::Longword { "cdq" } else { "cqo" }, None);
                assert(self.code@ =~= start + instruction_text(self.target, self.table(), i@));
            },
            Instruction::Jmp(l) => {
                append_str(&mut self.code, "\t");
                append_str(&mut self.code, "jmp \t");
                append_local_label(&mut self.code, self.target, l);
                append_str(&mut self.code, "\n");
                assert(self.code@ =~= start + instruction_text(self.target, self.table(), i@));
            },
            Instruction::JmpCC(c, l) => {
                append_str(&mut self.code, "\t");
                append_str(&mut self.code, "j");
                append_str(&mut self.code, condition_code_text(*c));
                append_str(&mut self.code, " \t");
                append_local_label(&mut self.code, self.target, l);
                append_str(&mut self.code, "\n");
                assert(self.code@ =~= start + instruction_text(self.target, self.table(), i@));
            },
            Instruction::SetCC(c, o) => {
                append_str(&mut self.code, "\t");
                append_str(&mut self.code, "set");
                append_str(&mut self.code, condition_code_text(*c));
                append_str(&mut self.code, " \t");
                append_operand(&mut self.code, o, 1, self.target);
                append_str(&mut self.code, "\n");
                assert(self.code@ =~= start + instruction_text(self.target, self.table(), i@));
            },
            Instruction::Label(l) => {
                append_str(&mut self.code, " ");
                append_local_label(&mut self.code, self.target, l);
                append_str(&mut self.code, ":\n");
                assert(self.code@ =~= start + instruction_text(self.target, self.table(), i@));
            },
            Instruction::Push(o) => {
                self.write_line("pushq \t", Some((o, 8)));
                assert(self.code@ =~= start + instruction_text(self.target, self.table(), i@));
            },
            Instruction::Call(f) => {
                append_str(&mut self.code, "\t");
                append_str(&mut self.code, "call \t");
                self.append_function_name(f);
                append_str(&mut self.code, "\n");
                assert(self.code@ =~= start + instruction_text(self.target, self.table(), i@));
            },
        }
    }
}

impl CodeGenerator {
    fn write_globl(&mut self, is_global: bool, name: &String)
        ensures
            final(self).table() == old(self).table(),
            final(self).target() == old(self).target(),
            final(self).code@ == old(self).code@ + globl(is_global, name@),
    {
        if is_global {
            let ghost start = self.code@;
            append_str(&mut self.code, "\t");
            append_str(&mut self.code, ".globl ");
            append_str(&mut self.code, name.as_str());
            append_str(&mut self.code, "\n");
            assert(self.code@ =~= start + globl(is_global, name@));
        } else {
            assert(self.code@ =~= self.code@ + globl(is_global, name@));
        }
    }

    #[verifier::rlimit(100)]
    #[verifier::spinoff_prover]
    fn write_static_var(&mut self, v: &StaticVar)
        ensures
            final(self).table() == old(self).table(),
            final(self).target() == old(self).target(),
            final(self).code@ == old(self).code@ + top_text(old(self).target(), old(self).table(), TopLevel::StaticVariable(*v)@),
    {
        let ghost start = self.code@;
        self.write_globl(v.is_global, &v.name);
        let (value, is_quadword): (i64, bool) = match v.value {
            InitValue::Int(i) => (i as i64, false),
            InitValue::Long(l) => (l, true),
        };
        self.write_line(if value != 0 { ".data" } else { ".bss" }, None);
        let ghost mid = self.code@;
        append_str(&mut self.code, "\t");
        append_str(&mut self.code, if self.target == Target::MacOs { ".balign " } else { ".align " });
        append_signed_decimal(&mut self.code, v.alignment as i64);
        append_str(&mut self.code, "\n");
        append_str(&mut self.code, " ");
        append_str(&mut self.code, prefix_text(self.target));
        append_str(&mut self.code, v.name.as_str());
        append_str(&mut self.code, ":\n");
        let ghost mid2 = self.code@;
        append_str(&mut self.code, "\t");
        if value != 0 {
            append_str(&mut self.code, if !is_quadword { ".long " } else { ".quad " });
            append_signed_decimal(&mut self.code, value);
        } else {
            append_str(&mut self.code, ".zero ");
            append_str(&mut self.code, if !is_quadword { "4" } else { "8" });
        }
        append_str(&mut self.code, "\n");
        assert(self.code@ =~= start + top_text(self.target, self.table(), TopLevel::StaticVariable(*v)@));
    }

    fn write_function(&mut self, f: &FuncDef)
        requires
            top_printable(old(self).target(), old(self).table(), TopLevel::Function(*f)@),
        ensures
            final(self).table() == old(self).table(),
            final(self).target() == old(self).target(),
            final(self).code@ == old(self).code@ + top_text(old(self).target(), old(self).table(), TopLevel::Function(*f)@),
    {
        let ghost start = self.code@;
        let ghost table = self.table();
        let ghost target = self.target;
        let ghost ins = asm_view(f.instructions@);
        assert(TopLevel::Function(*f)@ == AsmTopView::Function {
            name: f.name@,
            is_global: f.is_global,
            instructions: ins,
            stack_frame_size: f.stack_frame_size,
        });
        assert forall|j: int| 0 <= j < f.instructions@.len() implies printable(target, table, #[trigger] f.instructions@[j]@) by {
            assert(ins[j] == f.instructions@[j]@);
        }
        self.write_globl(f.is_global, &f.name);
        self.write_line(".text", None);
        append_str(&mut self.code, " ");
        self.append_function_name(&f.name);
        append_str(&mut self.code, ":\n");
        self.write_line("pushq \t%rbp", None);
        self.write_line("movq \t%rsp, %rbp", None);
        let ghost head = self.code@;
        let ghost is = asm_view(f.instructions@);
        let mut i: usize = 0;
        assert(is.subrange(0, 0) =~= Seq::<AsmView>::empty());
        assert(self.code@ =~= head + instructions_text(target, table, is.subrange(0, 0)));
        while i < f.instructions.len()
            invariant
                i <= f.instructions@.len(),
                table == self.table(),
                target == self.target,
                is == asm_view(f.instructions@),
                forall|j: int| 0 <= j < f.instructions@.len() ==> printable(target, table, #[trigger] f.instructions@[j]@),
                self.code@ == head + instructions_text(target, table, is.subrange(0, i as int)),
            decreases f.instructions@.len() - i,
        {
            let ghost sub = is.subrange(0, i as int + 1);
            assert(sub.drop_last() =~= is.subrange(0, i as int));
            assert(sub.last() == f.instructions@[i as int]@);
            self.write_instruction(&f.instructions[i]);
            assert(self.code@ =~= head + instructions_text(target, table, sub));
            i = i + 1;
        }
        assert(is.subrange(0, is.len() as int) =~= is);
        assert(self.code@ =~= start + top_text(target, table, TopLevel::Function(*f)@));
    }

    /// The assembly text of a program.
    pub fn generate_assembly(self, asm_program: &Program) -> (code: String)
        requires
            program_printable(self.target(), self.table(), tops_view(asm_program.top_levels@)),
        ensures
            code@ == program_text(self.target(), self.table(), tops_view(asm_program.top_levels@)),
    {
        let mut gen = self;
        gen.write_program(asm_program);
        gen.code
    }

    fn write_program(&mut self, asm_program: &Program)
        requires
            program_printable(old(self).target(), old(self).table(), tops_view(asm_program.top_levels@)),
        ensures
            final(self).code@ == program_text(old(self).target(), old(self).table(), tops_view(asm_program.top_levels@)),
    {
        let ghost table = self.table();
        let ghost target = self.target;
        let ghost ts = tops_view(asm_program.top_levels@);
        self.code = string_of("# ===== Program =====\n");
        let ghost head = self.code@;
        let mut i: usize = 0;
        assert(ts.subrange(0, 0) =~= Seq::<AsmTopView>::empty());
        assert(self.code@ =~= head + tops_text(target, table, ts.subrange(0, 0)));
        while i < asm_program.top_levels.len()
            invariant
                i <= ts.len(),
                table == self.table(),
                target == self.target,
                ts == tops_view(asm_program.top_levels@),
                program_printable(target, table, ts),
                head == "# ===== Program =====\n"@,
                self.code@ == head + tops_text(target, table, ts.subrange(0, i as int)),
            decreases ts.len() - i,
        {
            let ghost sub = ts.subrange(0, i as int + 1);
            assert(sub.drop_last() =~= ts.subrange(0, i as int));
            assert(sub.last() == asm_program.top_levels@[i as int]@);
            assert(ts[i as int] == asm_program.top_levels@[i as int]@);
            match &asm_program.top_levels[i] {
                TopLevel::Function(f) => {
                    assert(top_printable(target, table, ts[i as int]));
                    self.write_function(f);
                },
                TopLevel::StaticVariable(v) => self.write_static_var(v),
            }
            assert(self.code@ =~= head + tops_text(target, table, sub));
            i = i + 1;
        }
        assert(ts.subrange(0, ts.len() as int) =~= ts);
        if self.target == Target::Linux {
            append_str(&mut self.code, ".section .note.GNU-stack,\"\",@progbits\n");
        } else {
            assert(self.code@ =~= self.code@ + stack_note(target));
        }
    }
}


fn not_pseudo(o: &Operand, target: Target) -> (b: bool)
    ensures
        b == operand_printable(target, o@),
{
    match o {
        Operand::PseudoReg(_) => false,
        Operand::Data(_) => target != Target::Other,
        _ => true,
    }
}

fn instruction_printable(table: &SymbolTable<SymbolTableEntry>, i: &Instruction, target: Target) -> (b: bool)
    ensures
        b == printable(target, table@, i@),
{
    match i {
        Instruction::Mov { src, dst, .. } => not_pseudo(src, target) && not_pseudo(dst, target),
        Instruction::MovSx { src, dst } => not_pseudo(src, target) && not_pseudo(dst, target),
        Instruction::Unary { operand, .. } => not_pseudo(operand, target),
        Instruction::Idiv { operand, .. } => not_pseudo(operand, target),
        Instruction::SetCC(_, operand) => not_pseudo(operand, target),
        Instruction::Push(operand) => not_pseudo(operand, target),
        Instruction::Binary { left, right, .. } => not_pseudo(left, target) && not_pseudo(right, target),
        Instruction::Cmp { op1, op2, .. } => not_pseudo(op1, target) && not_pseudo(op2, target),
        Instruction::Call(f) => target != Target::Linux || match table.get_entry(f.as_str()) {
            Some(SymbolTableEntry::Function { .. }) => true,
            _ => false,
        },
        _ => true,
    }
}

fn function_printable(table: &SymbolTable<SymbolTableEntry>, f: &FuncDef, target: Target) -> (b: bool)
    ensures
        b == ((target == Target::Linux ==> table@.contains_key(f.name@) && table@[f.name@] is Function)
            && all_printable(target, table@, asm_view(f.instructions@))),
{
    if target == Target::Linux {
        match table.get_entry(f.name.as_str()) {
            Some(SymbolTableEntry::Function { .. }) => {},
            _ => {
                return false;
            },
        }
    }
    let ghost is = asm_view(f.instructions@);
    let mut i: usize = 0;
    while i < f.instructions.len()
        invariant
            i <= f.instructions@.len(),
            is == asm_view(f.instructions@),
            forall|k: int| 0 <= k < i ==> #[trigger] printable(target, table@, is[k]),
        decreases f.instructions@.len() - i,
    {
        if !instruction_printable(table, &f.instructions[i], target) {
            assert(is[i as int] == f.instructions@[i as int]@);
            return false;
        }
        assert(is[i as int] == f.instructions@[i as int]@);
        i = i + 1;
    }
    true
}

/// Whether a program can be printed for the target with the given symbol table: no operand
/// is a pseudo register, on Linux every function defined or called is known as one, and on
/// other systems than Linux and macOS no data operand or static variable occurs.
pub fn program_can_print(table: &SymbolTable<SymbolTableEntry>, program: &Program, target: Target) -> (b: bool)
    ensures
        b == program_printable(target, table@, tops_view(program.top_levels@)),
{
    let ghost ts = tops_view(program.top_levels@);
    let mut i: usize = 0;
    while i < program.top_levels.len()
        invariant
            i <= program.top_levels@.len(),
            ts == tops_view(program.top_levels@),
            forall|k: int| #![trigger ts[k]] 0 <= k < i ==> top_printable(target, table@, ts[k]),
        decreases program.top_levels@.len() - i,
    {
        assert(ts[i as int] == program.top_levels@[i as int]@);
        match &program.top_levels[i] {
            TopLevel::Function(f) => {
                if !function_printable(table, f, target) {
                    return false;
                }
            },
            _ => {
                if target == Target::Other {
                    return false;
                }
            },
        }
        i = i + 1;
    }
    true
}

} // verus!
