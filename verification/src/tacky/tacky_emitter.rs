use vstd::prelude::*;

use super::ast::{
    instructions_view, top_levels_agree, values_view, BinaryOperator, Function, FunctionView,
    Instruction, Program, StaticVariable, TopLevel, TopLevelView, UnaryOperator, Value,
};
use super::spec::{
    emit_args, emit_arms, emit_expr, emit_for_condition, emit_for_init, emit_func_body, emit_item,
    emit_items, emit_opt_expr, emit_stmt, emit_var_decl, emittable_expr, emittable_func,
    emittable_item, emittable_opt, emittable_program, emittable_stmt, emittable_var_decl,
    emit_functions, global_function, is_plain_binary_op, spec_binary_op, spec_make_label,
    spec_make_temp, spec_unary_op, static_vars, var, EmitView, StmtOut,
};
use crate::ast::{
    lemma_same_type_reflexive, same_type, BinaryOp, Block, BlockItem, Expression, ForInit,
    FunctionDeclaration, Label, Statement, StorageClass, Type, TypedExpression, UnaryOp,
    VarDeclaration,
};
use crate::common::symbol_table::{IdentAttrs, InitValue, InitialValue, SymbolTableEntry};
use crate::common::symbol_table_generic::SymbolTable;
use crate::semantic::name_generator::NameGenerator;
use crate::util::{append_str, copy_strings, string_of, strings_view};

verus! {

broadcast use vstd::std_specs::vec::group_vec_axioms;

/// Translates the checked syntax tree into three-address code.
pub struct TackyEmitter {
    label_name_generator: NameGenerator,
    tmp_var_name_generator: NameGenerator,
    symbol_table: SymbolTable<SymbolTableEntry>,
}

/// Whether the emitter's symbol table agrees with a state: the same names with the same
/// attributes, and types that are the same types.
pub open spec fn table_matches(table: Map<Seq<char>, SymbolTableEntry>, st: EmitView) -> bool {
    &&& table.dom() == st.attrs.dom()
    &&& st.types.dom() == st.attrs.dom()
    &&& forall|k: Seq<char>|
        #[trigger] table.contains_key(k) ==> table[k].attrs == st.attrs[k] && same_type(
            table[k].c_type,
            st.types[k],
        )
}

fn push_instr(instructions: &mut Vec<Instruction>, i: Instruction)
    ensures
        instructions_view(final(instructions)@) == instructions_view(old(instructions)@).push(i@),
{
    instructions.push(i);
    assert(instructions_view(instructions@) =~= instructions_view(old(instructions)@).push(i@));
}

impl TackyEmitter {
    /// The emitter's state: its generators and its symbol table.
    pub closed spec fn view_st(&self) -> EmitView {
        EmitView {
            labels: self.label_name_generator@,
            tmps: self.tmp_var_name_generator@,
            attrs: self.symbol_table@.map_values(|e: SymbolTableEntry| e.attrs),
            types: self.symbol_table@.map_values(|e: SymbolTableEntry| e.c_type),
        }
    }

    /// Whether the emitter is in state `st`.
    pub closed spec fn matches(&self, st: EmitView) -> bool {
        &&& self.label_name_generator@ == st.labels
        &&& self.tmp_var_name_generator@ == st.tmps
        &&& table_matches(self.symbol_table@, st)
    }

    /// The symbol table the emitter fills with its temporaries.
    pub closed spec fn table(&self) -> Map<Seq<char>, SymbolTableEntry> {
        self.symbol_table@
    }

    proof fn lemma_matches_own_view(&self)
        ensures
            self.matches(self.view_st()),
    {
        let st = self.view_st();
        assert(self.symbol_table@.dom() =~= st.attrs.dom());
        assert(st.types.dom() =~= st.attrs.dom());
        assert forall|k: Seq<char>| #[trigger] self.symbol_table@.contains_key(k) implies self.symbol_table@[k].attrs
            == st.attrs[k] && same_type(self.symbol_table@[k].c_type, st.types[k]) by {
            lemma_same_type_reflexive(self.symbol_table@[k].c_type);
        }
    }

    pub fn new(
        label_name_generator: NameGenerator,
        tmp_var_name_generator: NameGenerator,
        symbol_table: SymbolTable<SymbolTableEntry>,
    ) -> (e: TackyEmitter)
        ensures
            e.view_st().labels == label_name_generator@,
            e.view_st().tmps == tmp_var_name_generator@,
            e.table() == symbol_table@,
    {
        TackyEmitter { label_name_generator, tmp_var_name_generator, symbol_table }
    }

    /// Hands back the symbol table, with the temporaries the emitter added.
    pub fn into_symbol_table(self) -> (t: SymbolTable<SymbolTableEntry>)
        ensures
            t@ == self.table(),
    {
        self.symbol_table
    }

    /// Hands back the label generator, for the passes that make labels after this one.
    pub fn into_parts(self) -> (parts: (NameGenerator, SymbolTable<SymbolTableEntry>))
        ensures
            parts.0@ == self.view_st().labels,
            parts.1@ == self.table(),
    {
        (self.label_name_generator, self.symbol_table)
    }

    fn make_label(&mut self, prefix: &str, Ghost(st): Ghost<EmitView>) -> (label: String)
        requires
            old(self).matches(st),
        ensures
            final(self).matches(spec_make_label(st, prefix@).0),
            label@ == spec_make_label(st, prefix@).1,
    {
        self.label_name_generator.make_unique_name(prefix)
    }

    fn make_temp_var(&mut self, c_type: &Type, Ghost(st): Ghost<EmitView>) -> (v: Value)
        requires
            old(self).matches(st),
        ensures
            final(self).matches(spec_make_temp(st, *c_type).0),
            v@ == var(spec_make_temp(st, *c_type).1),
    {
        let name = self.tmp_var_name_generator.make_unique_name("");
        proof {
            reveal_strlit("");
        }
        assert("".view() =~= Seq::<char>::empty());
        let entry = SymbolTableEntry { c_type: c_type.duplicate(), attrs: IdentAttrs::Local };
        let _ = self.symbol_table.insert(name.as_str(), entry);
        proof {
            let st2 = spec_make_temp(st, *c_type).0;
            let t = self.symbol_table@;
            assert(t.dom() =~= st2.attrs.dom());
            assert(st2.types.dom() =~= st2.attrs.dom());
        }
        Value::Variable(name)
    }

    /// The code for an expression, appended to `instructions`; returns the value holding the
    /// result.
    fn emit_expression(
        &mut self,
        expr: &TypedExpression,
        instructions: &mut Vec<Instruction>,
        Ghost(st): Ghost<EmitView>,
    ) -> (v: Value)
        requires
            old(self).matches(st),
            emittable_expr(*expr),
        ensures
            final(self).matches(emit_expr(st, *expr).st),
            instructions_view(final(instructions)@) == instructions_view(old(instructions)@)
                + emit_expr(st, *expr).code,
            v@ == emit_expr(st, *expr).value,
        decreases *expr, 1nat,
    {
        proof {
            reveal_with_fuel(emit_expr, 1);
        }
        let ghost out = emit_expr(st, *expr);
        match &expr.0 {
            Expression::IntegerConstant(value) => {
                assert(instructions_view(instructions@) =~= instructions_view(instructions@) + out.code);
                Value::IntegerConstant(*value)
            },
            Expression::LongConstant(value) => {
                assert(instructions_view(instructions@) =~= instructions_view(instructions@) + out.code);
                Value::LongConstant(*value)
            },
            Expression::Var(name) => {
                assert(instructions_view(instructions@) =~= instructions_view(instructions@) + out.code);
                Value::Variable(name.clone())
            },
            Expression::UnaryExpr(op, inner) => {
                let src = self.emit_expression(inner, instructions, Ghost(st));
                let ghost r = emit_expr(st, **inner);
                let dst = self.make_temp_var(&expr.1, Ghost(r.st));
                let dst2 = dst.duplicate();
                let op2 = unary_op(*op);
                let ghost before = instructions_view(instructions@);
                push_instr(instructions, Instruction::Unary { op: op2, src, dst });
                assert(before.push(out.code.last()) =~= instructions_view(old(instructions)@) + out.code);
                dst2
            },
            Expression::BinaryExpr(op, left, right) => {
                if *op == BinaryOp::LogicalAnd || *op == BinaryOp::LogicalOr {
                    self.emit_logical_expr(*op, left, right, &expr.1, instructions, Ghost(st), Ghost(*expr))
                } else {
                    self.emit_binary_expr(*op, left, right, &expr.1, instructions, Ghost(st), Ghost(*expr))
                }
            },
            Expression::Assignment { left, right, is_postfix } => {
                self.emit_assignment_expr(left, right, *is_postfix, &expr.1, instructions, Ghost(st), Ghost(*expr))
            },
            Expression::ConditionalExpr { condition, then_expr, else_expr } => {
                self.emit_conditional_expr(condition, then_expr, else_expr, &expr.1, instructions, Ghost(st), Ghost(*expr))
            },
            Expression::FuncCall { name, args } => {
                self.emit_func_call_expr(name, args, &expr.1, instructions, Ghost(st), Ghost(*expr))
            },
            Expression::Cast { expr: inner, target_type } => {
                let v = self.emit_expression(inner, instructions, Ghost(st));
                let ghost r = emit_expr(st, **inner);
                if inner.1.equals(target_type) {
                    v
                } else {
                    let dst = self.make_temp_var(target_type, Ghost(r.st));
                    let dst2 = dst.duplicate();
                    let ghost before = instructions_view(instructions@);
                    if matches!(target_type, Type::Long) {
                        push_instr(instructions, Instruction::SignExtend { src: v, dst });
                    } else {
                        push_instr(instructions, Instruction::Truncate { src: v, dst });
                    }
                    assert(before.push(out.code.last()) =~= instructions_view(old(instructions)@) + out.code);
                    dst2
                }
            },
        }
    }

    fn emit_logical_expr(
        &mut self,
        op: BinaryOp,
        left: &TypedExpression,
        right: &TypedExpression,
        c_type: &Type,
        instructions: &mut Vec<Instruction>,
        Ghost(st): Ghost<EmitView>,
        Ghost(e): Ghost<TypedExpression>,
    ) -> (v: Value)
        requires
            old(self).matches(st),
            emittable_expr(e),
            op == BinaryOp::LogicalAnd || op == BinaryOp::LogicalOr,
            e.0 == Expression::BinaryExpr(op, Box::new(*left), Box::new(*right)),
            e.1 == *c_type,
        ensures
            final(self).matches(emit_expr(st, e).st),
            instructions_view(final(instructions)@) == instructions_view(old(instructions)@)
                + emit_expr(st, e).code,
            v@ == emit_expr(st, e).value,
        decreases e, 0nat,
    {
        proof {
            reveal_with_fuel(emit_expr, 1);
        }
        let ghost out = emit_expr(st, e);
        let is_and = op == BinaryOp::LogicalAnd;
        let end_label = if is_and {
            self.make_label("and_end", Ghost(st))
        } else {
            self.make_label("or_end", Ghost(st))
        };
        let ghost st1 = spec_make_label(st, if is_and { "and_end"@ } else { "or_end"@ }).0;
        let jump_label = if is_and {
            self.make_label("and_false", Ghost(st1))
        } else {
            self.make_label("or_true", Ghost(st1))
        };
        let ghost st2 = spec_make_label(st1, if is_and { "and_false"@ } else { "or_true"@ }).0;
        let result = self.make_temp_var(c_type, Ghost(st2));
        let ghost st3 = spec_make_temp(st2, *c_type).0;
        let ghost start = instructions_view(instructions@);
        let val1 = self.emit_expression(left, instructions, Ghost(st3));
        let ghost l = emit_expr(st3, *left);
        if is_and {
            push_instr(instructions, Instruction::JumpIfZero { condition: val1, target: jump_label.clone() });
        } else {
            push_instr(instructions, Instruction::JumpIfNotZero { condition: val1, target: jump_label.clone() });
        }
        let ghost mid = instructions_view(instructions@);
        let val2 = self.emit_expression(right, instructions, Ghost(l.st));
        let ghost r = emit_expr(l.st, *right);
        if is_and {
            push_instr(instructions, Instruction::JumpIfZero { condition: val2, target: jump_label.clone() });
        } else {
            push_instr(instructions, Instruction::JumpIfNotZero { condition: val2, target: jump_label.clone() });
        }
        let (first, second): (i32, i32) = if is_and { (1, 0) } else { (0, 1) };
        push_instr(instructions, Instruction::Copy { src: Value::IntegerConstant(first), dst: result.duplicate() });
        push_instr(instructions, Instruction::Jump { target: end_label.clone() });
        push_instr(instructions, Instruction::Label(jump_label));
        push_instr(instructions, Instruction::Copy { src: Value::IntegerConstant(second), dst: result.duplicate() });
        push_instr(instructions, Instruction::Label(end_label));
        assert(instructions_view(instructions@) =~= instructions_view(old(instructions)@) + out.code);
        result
    }

    fn emit_binary_expr(
        &mut self,
        op: BinaryOp,
        left: &TypedExpression,
        right: &TypedExpression,
        c_type: &Type,
        instructions: &mut Vec<Instruction>,
        Ghost(st): Ghost<EmitView>,
        Ghost(e): Ghost<TypedExpression>,
    ) -> (v: Value)
        requires
            old(self).matches(st),
            emittable_expr(e),
            op != BinaryOp::LogicalAnd && op != BinaryOp::LogicalOr,
            e.0 == Expression::BinaryExpr(op, Box::new(*left), Box::new(*right)),
            e.1 == *c_type,
        ensures
            final(self).matches(emit_expr(st, e).st),
            instructions_view(final(instructions)@) == instructions_view(old(instructions)@)
                + emit_expr(st, e).code,
            v@ == emit_expr(st, e).value,
        decreases e, 0nat,
    {
        proof {
            reveal_with_fuel(emit_expr, 1);
        }
        let ghost out = emit_expr(st, e);
        let src1 = self.emit_expression(left, instructions, Ghost(st));
        let ghost l = emit_expr(st, *left);
        let src2 = self.emit_expression(right, instructions, Ghost(l.st));
        let ghost r = emit_expr(l.st, *right);
        let dst = self.make_temp_var(c_type, Ghost(r.st));
        let op2 = binary_op(op);
        let dst2 = dst.duplicate();
        push_instr(instructions, Instruction::Binary { op: op2, src1, src2, dst });
        assert(instructions_view(instructions@) =~= instructions_view(old(instructions)@) + out.code);
        dst2
    }

    fn emit_assignment_expr(
        &mut self,
        left: &TypedExpression,
        right: &TypedExpression,
        is_postfix: bool,
        c_type: &Type,
        instructions: &mut Vec<Instruction>,
        Ghost(st): Ghost<EmitView>,
        Ghost(e): Ghost<TypedExpression>,
    ) -> (v: Value)
        requires
            old(self).matches(st),
            emittable_expr(e),
            e.0 == (Expression::Assignment { left: Box::new(*left), right: Box::new(*right), is_postfix }),
            e.1 == *c_type,
        ensures
            final(self).matches(emit_expr(st, e).st),
            instructions_view(final(instructions)@) == instructions_view(old(instructions)@)
                + emit_expr(st, e).code,
            v@ == emit_expr(st, e).value,
        decreases e, 0nat,
    {
        proof {
            reveal_with_fuel(emit_expr, 1);
        }
        let ghost out = emit_expr(st, e);
        let src = self.emit_expression(right, instructions, Ghost(st));
        let ghost r = emit_expr(st, *right);
        let dst = self.emit_expression(left, instructions, Ghost(r.st));
        let ghost l = emit_expr(r.st, *left);
        if !is_postfix {
            let dst2 = dst.duplicate();
            push_instr(instructions, Instruction::Copy { src, dst });
            assert(instructions_view(instructions@) =~= instructions_view(old(instructions)@) + out.code);
            dst2
        } else {
            let original_value = self.make_temp_var(c_type, Ghost(l.st));
            let ov2 = original_value.duplicate();
            push_instr(instructions, Instruction::Copy { src: dst.duplicate(), dst: original_value });
            push_instr(instructions, Instruction::Copy { src, dst });
            assert(instructions_view(instructions@) =~= instructions_view(old(instructions)@) + out.code);
            ov2
        }
    }

    fn emit_conditional_expr(
        &mut self,
        condition: &TypedExpression,
        then_expr: &TypedExpression,
        else_expr: &TypedExpression,
        c_type: &Type,
        instructions: &mut Vec<Instruction>,
        Ghost(st): Ghost<EmitView>,
        Ghost(e): Ghost<TypedExpression>,
    ) -> (v: Value)
        requires
            old(self).matches(st),
            emittable_expr(e),
            e.0 == (Expression::ConditionalExpr {
                condition: Box::new(*condition),
                then_expr: Box::new(*then_expr),
                else_expr: Box::new(*else_expr),
            }),
            e.1 == *c_type,
        ensures
            final(self).matches(emit_expr(st, e).st),
            instructions_view(final(instructions)@) == instructions_view(old(instructions)@)
                + emit_expr(st, e).code,
            v@ == emit_expr(st, e).value,
        decreases e, 0nat,
    {
        proof {
            reveal_with_fuel(emit_expr, 1);
        }
        let ghost out = emit_expr(st, e);
        let end_label = self.make_label("cond_end", Ghost(st));
        let ghost st1 = spec_make_label(st, "cond_end"@).0;
        let else_label = self.make_label("cond_else", Ghost(st1));
        let ghost st2 = spec_make_label(st1, "cond_else"@).0;
        let result = self.make_temp_var(c_type, Ghost(st2));
        let ghost st3 = spec_make_temp(st2, *c_type).0;
        let condition_value = self.emit_expression(condition, instructions, Ghost(st3));
        let ghost c = emit_expr(st3, *condition);
        push_instr(instructions, Instruction::JumpIfZero { condition: condition_value, target: else_label.clone() });
        let then_value = self.emit_expression(then_expr, instructions, Ghost(c.st));
        let ghost th = emit_expr(c.st, *then_expr);
        push_instr(instructions, Instruction::Copy { src: then_value, dst: result.duplicate() });
        push_instr(instructions, Instruction::Jump { target: end_label.clone() });
        push_instr(instructions, Instruction::Label(else_label));
        let else_value = self.emit_expression(else_expr, instructions, Ghost(th.st));
        push_instr(instructions, Instruction::Copy { src: else_value, dst: result.duplicate() });
        push_instr(instructions, Instruction::Label(end_label));
        assert(instructions_view(instructions@) =~= instructions_view(old(instructions)@) + out.code);
        result
    }

    #[verifier::loop_isolation(false)]
    fn emit_func_call_expr(
        &mut self,
        name: &String,
        args: &Vec<TypedExpression>,
        return_type: &Type,
        instructions: &mut Vec<Instruction>,
        Ghost(st): Ghost<EmitView>,
        Ghost(e): Ghost<TypedExpression>,
    ) -> (v: Value)
        requires
            old(self).matches(st),
            emittable_expr(e),
            e.0 == (Expression::FuncCall { name: *name, args: *args }),
            e.1 == *return_type,
        ensures
            final(self).matches(emit_expr(st, e).st),
            instructions_view(final(instructions)@) == instructions_view(old(instructions)@)
                + emit_expr(st, e).code,
            v@ == emit_expr(st, e).value,
        decreases e, 0nat,
    {
        proof {
            reveal_with_fuel(emit_expr, 1);
            reveal_with_fuel(emit_args, 1);
        }
        let ghost out = emit_expr(st, e);
        let mut arguments: Vec<Value> = Vec::new();
        let mut i: usize = 0;
        let ghost mut cur = st;
        assert(args@.subrange(0, 0) =~= Seq::<TypedExpression>::empty());
        while i < args.len()
            invariant
                i <= args@.len(),
                self.matches(cur),
                cur == emit_args(st, args@.subrange(0, i as int)).st,
                instructions_view(instructions@) == instructions_view(old(instructions)@)
                    + emit_args(st, args@.subrange(0, i as int)).code,
                values_view(arguments@) == emit_args(st, args@.subrange(0, i as int)).values,
            decreases args@.len() - i,
        {
            assert(emittable_expr(args@[i as int]));
            proof {
                vstd::std_specs::vec::axiom_vec_index_decreases(*args, i as int);
            }
            let ghost before = instructions_view(instructions@);
            let a = self.emit_expression(&args[i], instructions, Ghost(cur));
            proof {
                let sub = args@.subrange(0, i as int + 1);
                assert(sub.subrange(0, sub.len() - 1) =~= args@.subrange(0, i as int));
                assert(sub[sub.len() - 1] == args@[i as int]);
                cur = emit_expr(cur, args@[i as int]).st;
            }
            let ghost vs = arguments@;
            arguments.push(a);
            assert(values_view(arguments@) =~= values_view(vs).push(a@));
            i = i + 1;
        }
        assert(args@.subrange(0, args@.len() as int) =~= args@);
        let dst = self.make_temp_var(return_type, Ghost(cur));
        let dst2 = dst.duplicate();
        push_instr(instructions, Instruction::FunctionCall { name: name.clone(), arguments, dst });
        assert(instructions_view(instructions@) =~= instructions_view(old(instructions)@) + out.code);
        dst2
    }
}

/// The message of the error raised when a function is not known as one to the symbol table.
pub open spec fn missing_function_message(name: Seq<char>) -> Seq<char> {
    "Function "@ + name + " not found in symbol table"@
}

fn missing_function_error(name: &String) -> (m: String)
    ensures
        m@ == missing_function_message(name@),
{
    let mut m = string_of("Function ");
    append_str(&mut m, name.as_str());
    append_str(&mut m, " not found in symbol table");
    m
}

/// `prefix` followed by `id`, as the loop labels are made.
fn prefixed(prefix: &str, id: &String) -> (r: String)
    ensures
        r@ == prefix@ + id@,
{
    let mut r = string_of(prefix);
    append_str(&mut r, id.as_str());
    r
}

proof fn lemma_top_level_view_reflexive(t: TopLevelView)
    ensures
        match (t, t) {
            (TopLevelView::Function(x), TopLevelView::Function(y)) => x == y,
            (TopLevelView::StaticVariable(x), TopLevelView::StaticVariable(y)) => {
                &&& x.name == y.name
                &&& x.is_global == y.is_global
                &&& x.initial_value == y.initial_value
                &&& same_type(x.c_type, y.c_type)
            },
            _ => false,
        },
{
    if let TopLevelView::StaticVariable(x) = t {
        lemma_same_type_reflexive(x.c_type);
    }
}

proof fn lemma_items_stop(st: EmitView, items: Seq<BlockItem>, i: int)
    requires
        0 <= i <= items.len(),
        !emit_items(st, items.subrange(0, i)).ok,
    ensures
        emit_items(st, items) == emit_items(st, items.subrange(0, i)),
    decreases items.len(),
{
    reveal_with_fuel(emit_items, 1);
    if i == items.len() {
        assert(items.subrange(0, i) =~= items);
    } else {
        let shorter = items.subrange(0, items.len() - 1);
        assert(shorter.subrange(0, i) =~= items.subrange(0, i));
        lemma_items_stop(st, shorter, i);
    }
}

impl TackyEmitter {
    /// The code for a statement, appended to `instructions`.
    fn emit_stmt_into(
        &mut self,
        stmt: &Statement,
        instructions: &mut Vec<Instruction>,
        Ghost(st): Ghost<EmitView>,
    ) -> (r: Result<(), String>)
        requires
            old(self).matches(st),
            emittable_stmt(*stmt),
        ensures
            final(self).matches(emit_stmt(st, *stmt).st),
            r is Ok <==> emit_stmt(st, *stmt).ok,
            r is Ok ==> instructions_view(final(instructions)@) == instructions_view(old(instructions)@)
                + emit_stmt(st, *stmt).code,
            r matches Err(m) ==> m@ == missing_function_message(emit_stmt(st, *stmt).missing),
        decreases *stmt, 1nat,
    {
        let ghost out = emit_stmt(st, *stmt);
        match stmt {
            Statement::Return(e) => {
                let v = self.emit_expression(e, instructions, Ghost(st));
                push_instr(instructions, Instruction::Return(v));
                assert(instructions_view(instructions@) =~= instructions_view(old(instructions)@) + out.code);
                Ok(())
            },
            Statement::Expression(e) => {
                let _ = self.emit_expression(e, instructions, Ghost(st));
                Ok(())
            },
            Statement::Null => {
                assert(instructions_view(instructions@) =~= instructions_view(instructions@) + out.code);
                Ok(())
            },
            Statement::CompoundStatement(block) => self.emit_items_into(&block.items, instructions, Ghost(st)),
            Statement::GotoStatement(label) => {
                push_instr(instructions, Instruction::Jump { target: label.clone() });
                assert(instructions_view(instructions@) =~= instructions_view(old(instructions)@) + out.code);
                Ok(())
            },
            Statement::LabeledStatement { label, statement } => {
                push_instr(instructions, Instruction::Label(label.get_name()));
                let ghost mid = instructions_view(instructions@);
                let r = self.emit_stmt_into(statement, instructions, Ghost(st));
                assert(r is Ok ==> instructions_view(instructions@) =~= instructions_view(old(instructions)@) + out.code);
                r
            },
            Statement::Break { loop_id } => {
                push_instr(instructions, Instruction::Jump { target: prefixed("break.", loop_id) });
                assert(instructions_view(instructions@) =~= instructions_view(old(instructions)@) + out.code);
                Ok(())
            },
            Statement::Continue { loop_id } => {
                push_instr(instructions, Instruction::Jump { target: prefixed("continue.", loop_id) });
                assert(instructions_view(instructions@) =~= instructions_view(old(instructions)@) + out.code);
                Ok(())
            },
            Statement::IfStatement { .. } => self.emit_if_into(stmt, instructions, Ghost(st)),
            Statement::SwitchStatement { .. } => self.emit_switch_into(stmt, instructions, Ghost(st)),
            Statement::While { .. } | Statement::DoWhile { .. } => self.emit_while_into(stmt, instructions, Ghost(st)),
            Statement::For { .. } => self.emit_for_into(stmt, instructions, Ghost(st)),
        }
    }

    fn emit_if_into(
        &mut self,
        stmt: &Statement,
        instructions: &mut Vec<Instruction>,
        Ghost(st): Ghost<EmitView>,
    ) -> (r: Result<(), String>)
        requires
            old(self).matches(st),
            emittable_stmt(*stmt),
            stmt is IfStatement,
        ensures
            final(self).matches(emit_stmt(st, *stmt).st),
            r is Ok <==> emit_stmt(st, *stmt).ok,
            r is Ok ==> instructions_view(final(instructions)@) == instructions_view(old(instructions)@)
                + emit_stmt(st, *stmt).code,
            r matches Err(m) ==> m@ == missing_function_message(emit_stmt(st, *stmt).missing),
        decreases *stmt, 0nat,
    {
        let ghost out = emit_stmt(st, *stmt);
        if let Statement::IfStatement { condition, then_branch, else_branch } = stmt {
            let end_label = self.make_label("if_end", Ghost(st));
            let ghost st1 = spec_make_label(st, "if_end"@).0;
            let cv = self.emit_expression(condition, instructions, Ghost(st1));
            let ghost c = emit_expr(st1, *condition);
            match else_branch {
                Some(else_branch) => {
                    let else_label = self.make_label("if_else", Ghost(c.st));
                    let ghost st2 = spec_make_label(c.st, "if_else"@).0;
                    push_instr(instructions, Instruction::JumpIfZero { condition: cv, target: else_label.clone() });
                    let r = self.emit_stmt_into(then_branch, instructions, Ghost(st2));
                    if r.is_err() {
                        return r;
                    }
                    let ghost th = emit_stmt(st2, **then_branch);
                    push_instr(instructions, Instruction::Jump { target: end_label.clone() });
                    push_instr(instructions, Instruction::Label(else_label));
                    let r = self.emit_stmt_into(else_branch, instructions, Ghost(th.st));
                    if r.is_err() {
                        return r;
                    }
                    push_instr(instructions, Instruction::Label(end_label));
                    assert(instructions_view(instructions@) =~= instructions_view(old(instructions)@) + out.code);
                    Ok(())
                },
                None => {
                    push_instr(instructions, Instruction::JumpIfZero { condition: cv, target: end_label.clone() });
                    let r = self.emit_stmt_into(then_branch, instructions, Ghost(c.st));
                    if r.is_err() {
                        return r;
                    }
                    push_instr(instructions, Instruction::Label(end_label));
                    assert(instructions_view(instructions@) =~= instructions_view(old(instructions)@) + out.code);
                    Ok(())
                },
            }
        } else {
            Ok(())
        }
    }

    #[verifier::loop_isolation(false)]
    fn emit_switch_into(
        &mut self,
        stmt: &Statement,
        instructions: &mut Vec<Instruction>,
        Ghost(st): Ghost<EmitView>,
    ) -> (r: Result<(), String>)
        requires
            old(self).matches(st),
            emittable_stmt(*stmt),
            stmt is SwitchStatement,
        ensures
            final(self).matches(emit_stmt(st, *stmt).st),
            r is Ok <==> emit_stmt(st, *stmt).ok,
            r is Ok ==> instructions_view(final(instructions)@) == instructions_view(old(instructions)@)
                + emit_stmt(st, *stmt).code,
            r matches Err(m) ==> m@ == missing_function_message(emit_stmt(st, *stmt).missing),
        decreases *stmt, 0nat,
    {
        proof {
            reveal_with_fuel(emit_arms, 1);
        }
        let ghost out = emit_stmt(st, *stmt);
        if let Statement::SwitchStatement { switch_id, condition, body, arms } = stmt {
            let cv = self.emit_expression(condition, instructions, Ghost(st));
            let ghost c = emit_expr(st, *condition);
            let ghost after_cond = instructions_view(instructions@);
            let break_label = prefixed("break.", switch_id);
            let mut i: usize = 0;
            let ghost mut cur = c.st;
            assert(arms@.subrange(0, 0) =~= Seq::<(String, Option<TypedExpression>)>::empty());
            assert(after_cond =~= after_cond + emit_arms(c.st, cv@, arms@.subrange(0, 0)).code);
            while i < arms.len()
                invariant
                    i <= arms@.len(),
                    self.matches(cur),
                    cur == emit_arms(c.st, cv@, arms@.subrange(0, i as int)).st,
                    instructions_view(instructions@) == after_cond + emit_arms(c.st, cv@, arms@.subrange(0, i as int)).code,
                decreases arms@.len() - i,
            {
                let ghost sub = arms@.subrange(0, i as int + 1);
                assert(sub.subrange(0, sub.len() - 1) =~= arms@.subrange(0, i as int));
                let ghost a = emit_arms(c.st, cv@, arms@.subrange(0, i as int));
                let ghost before = instructions_view(instructions@);
                match &arms[i].1 {
                    Some(e) => {
                        assert(emittable_opt(arms@[i as int].1));
                        let case_value = self.emit_expression(e, instructions, Ghost(cur));
                        let ghost r = emit_expr(cur, *e);
                        let dst = self.make_temp_var(&Type::Int, Ghost(r.st));
                        push_instr(instructions, Instruction::Binary {
                            op: BinaryOperator::Equal,
                            src1: case_value,
                            src2: cv.duplicate(),
                            dst: dst.duplicate(),
                        });
                        push_instr(instructions, Instruction::JumpIfNotZero { condition: dst, target: arms[i].0.clone() });
                        proof {
                            cur = spec_make_temp(r.st, Type::Int).0;
                        }
                        assert(instructions_view(instructions@) =~= after_cond + emit_arms(c.st, cv@, sub).code);
                    },
                    None => {
                        push_instr(instructions, Instruction::Jump { target: arms[i].0.clone() });
                        assert(instructions_view(instructions@) =~= after_cond + emit_arms(c.st, cv@, sub).code);
                    },
                }
                i = i + 1;
            }
            assert(arms@.subrange(0, arms@.len() as int) =~= arms@);
            push_instr(instructions, Instruction::Jump { target: break_label.clone() });
            let r = self.emit_stmt_into(body, instructions, Ghost(cur));
            if r.is_err() {
                return r;
            }
            push_instr(instructions, Instruction::Label(break_label));
            assert(instructions_view(instructions@) =~= instructions_view(old(instructions)@) + out.code);
            Ok(())
        } else {
            Ok(())
        }
    }

    fn emit_while_into(
        &mut self,
        stmt: &Statement,
        instructions: &mut Vec<Instruction>,
        Ghost(st): Ghost<EmitView>,
    ) -> (r: Result<(), String>)
        requires
            old(self).matches(st),
            emittable_stmt(*stmt),
            stmt is While || stmt is DoWhile,
        ensures
            final(self).matches(emit_stmt(st, *stmt).st),
            r is Ok <==> emit_stmt(st, *stmt).ok,
            r is Ok ==> instructions_view(final(instructions)@) == instructions_view(old(instructions)@)
                + emit_stmt(st, *stmt).code,
            r matches Err(m) ==> m@ == missing_function_message(emit_stmt(st, *stmt).missing),
        decreases *stmt, 0nat,
    {
        let ghost out = emit_stmt(st, *stmt);
        match stmt {
            Statement::While { loop_id, condition, body } => {
                let continue_label = prefixed("continue.", loop_id);
                let break_label = prefixed("break.", loop_id);
                push_instr(instructions, Instruction::Label(continue_label.clone()));
                let cv = self.emit_expression(condition, instructions, Ghost(st));
                let ghost c = emit_expr(st, *condition);
                push_instr(instructions, Instruction::JumpIfZero { condition: cv, target: break_label.clone() });
                let r = self.emit_stmt_into(body, instructions, Ghost(c.st));
                if r.is_err() {
                    return r;
                }
                push_instr(instructions, Instruction::Jump { target: continue_label });
                push_instr(instructions, Instruction::Label(break_label));
                assert(instructions_view(instructions@) =~= instructions_view(old(instructions)@) + out.code);
                Ok(())
            },
            Statement::DoWhile { loop_id, condition, body } => {
                let start_label = prefixed("start.", loop_id);
                push_instr(instructions, Instruction::Label(start_label.clone()));
                let r = self.emit_stmt_into(body, instructions, Ghost(st));
                if r.is_err() {
                    return r;
                }
                let ghost b = emit_stmt(st, **body);
                push_instr(instructions, Instruction::Label(prefixed("continue.", loop_id)));
                let cv = self.emit_expression(condition, instructions, Ghost(b.st));
                push_instr(instructions, Instruction::JumpIfNotZero { condition: cv, target: start_label });
                push_instr(instructions, Instruction::Label(prefixed("break.", loop_id)));
                assert(instructions_view(instructions@) =~= instructions_view(old(instructions)@) + out.code);
                Ok(())
            },
            _ => Ok(()),
        }
    }

    fn emit_for_into(
        &mut self,
        stmt: &Statement,
        instructions: &mut Vec<Instruction>,
        Ghost(st): Ghost<EmitView>,
    ) -> (r: Result<(), String>)
        requires
            old(self).matches(st),
            emittable_stmt(*stmt),
            stmt is For,
        ensures
            final(self).matches(emit_stmt(st, *stmt).st),
            r is Ok <==> emit_stmt(st, *stmt).ok,
            r is Ok ==> instructions_view(final(instructions)@) == instructions_view(old(instructions)@)
                + emit_stmt(st, *stmt).code,
            r matches Err(m) ==> m@ == missing_function_message(emit_stmt(st, *stmt).missing),
        decreases *stmt, 0nat,
    {
        let ghost out = emit_stmt(st, *stmt);
        if let Statement::For { loop_id, init, condition, post, body } = stmt {
            let start_label = prefixed("start.", loop_id);
            let break_label = prefixed("break.", loop_id);
            let continue_label = prefixed("continue.", loop_id);
            self.emit_for_init(init, instructions, Ghost(st));
            let ghost i = emit_for_init(st, *init);
            push_instr(instructions, Instruction::Label(start_label.clone()));
            let ghost after_start = instructions_view(instructions@);
            if let Some(c) = condition {
                let cv = self.emit_expression(c, instructions, Ghost(i.st));
                push_instr(instructions, Instruction::JumpIfZero { condition: cv, target: break_label.clone() });
            }
            let ghost cnd = emit_for_condition(i.st, *condition, loop_id@);
            assert(instructions_view(instructions@) =~= after_start + cnd.code);
            let r = self.emit_stmt_into(body, instructions, Ghost(cnd.st));
            if r.is_err() {
                return r;
            }
            let ghost b = emit_stmt(cnd.st, **body);
            push_instr(instructions, Instruction::Label(continue_label));
            let ghost after_cont = instructions_view(instructions@);
            if let Some(p) = post {
                let _ = self.emit_expression(p, instructions, Ghost(b.st));
            }
            let ghost pst = emit_opt_expr(b.st, *post);
            assert(instructions_view(instructions@) =~= after_cont + pst.code);
            push_instr(instructions, Instruction::Jump { target: start_label });
            push_instr(instructions, Instruction::Label(break_label));
            assert(instructions_view(instructions@) =~= instructions_view(old(instructions)@) + out.code);
            Ok(())
        } else {
            Ok(())
        }
    }

    /// The code for the initializer of a `for` loop.
    fn emit_for_init(&mut self, init: &ForInit, instructions: &mut Vec<Instruction>, Ghost(st): Ghost<EmitView>)
        requires
            old(self).matches(st),
            match *init {
                ForInit::InitDeclaration(d) => emittable_var_decl(d),
                ForInit::InitExpression(e) => emittable_opt(e),
            },
        ensures
            final(self).matches(emit_for_init(st, *init).st),
            instructions_view(final(instructions)@) == instructions_view(old(instructions)@)
                + emit_for_init(st, *init).code,
    {
        match init {
            ForInit::InitDeclaration(d) => self.emit_declaration(d, instructions, Ghost(st)),
            ForInit::InitExpression(Some(e)) => {
                let _ = self.emit_expression(e, instructions, Ghost(st));
            },
            ForInit::InitExpression(None) => {
                assert(instructions_view(instructions@) =~= instructions_view(instructions@) + emit_for_init(st, *init).code);
            },
        }
    }

    /// The code for a local variable declaration.
    fn emit_declaration(&mut self, decl: &VarDeclaration, instructions: &mut Vec<Instruction>, Ghost(st): Ghost<EmitView>)
        requires
            old(self).matches(st),
            emittable_var_decl(*decl),
        ensures
            final(self).matches(emit_var_decl(st, *decl).st),
            instructions_view(final(instructions)@) == instructions_view(old(instructions)@)
                + emit_var_decl(st, *decl).code,
    {
        let ghost out = emit_var_decl(st, *decl);
        if matches!(decl.storage_class, Some(StorageClass::Static)) {
            assert(instructions_view(instructions@) =~= instructions_view(instructions@) + out.code);
            return;
        }
        match &decl.init_expr {
            Some(e) => {
                let v = self.emit_expression(e, instructions, Ghost(st));
                push_instr(instructions, Instruction::Copy { src: v, dst: Value::Variable(decl.name.clone()) });
                assert(instructions_view(instructions@) =~= instructions_view(old(instructions)@) + out.code);
            },
            None => {
                assert(instructions_view(instructions@) =~= instructions_view(instructions@) + out.code);
            },
        }
    }

    /// The code for the items of a block, in order, stopping at the first error.
    fn emit_items_into(
        &mut self,
        items: &Vec<BlockItem>,
        instructions: &mut Vec<Instruction>,
        Ghost(st): Ghost<EmitView>,
    ) -> (r: Result<(), String>)
        requires
            old(self).matches(st),
            forall|i: int| 0 <= i < items@.len() ==> emittable_item(#[trigger] items@[i]),
        ensures
            final(self).matches(emit_items(st, items@).st),
            r is Ok <==> emit_items(st, items@).ok,
            r is Ok ==> instructions_view(final(instructions)@) == instructions_view(old(instructions)@)
                + emit_items(st, items@).code,
            r matches Err(m) ==> m@ == missing_function_message(emit_items(st, items@).missing),
        decreases *items, 1nat,
    {
        let mut i: usize = 0;
        let ghost mut cur = st;
        assert(items@.subrange(0, 0) =~= Seq::<BlockItem>::empty());
        assert(instructions_view(instructions@) =~= instructions_view(old(instructions)@) + emit_items(st, items@.subrange(0, 0)).code);
        while i < items.len()
            invariant
                i <= items@.len(),
                forall|j: int| 0 <= j < items@.len() ==> emittable_item(#[trigger] items@[j]),
                self.matches(cur),
                cur == emit_items(st, items@.subrange(0, i as int)).st,
                emit_items(st, items@.subrange(0, i as int)).ok,
                instructions_view(instructions@) == instructions_view(old(instructions)@)
                    + emit_items(st, items@.subrange(0, i as int)).code,
            decreases items@.len() - i,
        {
            proof {
                vstd::std_specs::vec::axiom_vec_index_decreases(*items, i as int);
            }
            let ghost sub = items@.subrange(0, i as int + 1);
            assert(sub.subrange(0, sub.len() - 1) =~= items@.subrange(0, i as int));
            assert(sub[sub.len() - 1] == items@[i as int]);
            let ghost before = instructions_view(instructions@);
            let r = self.emit_item_into(&items[i], instructions, Ghost(cur));
            if let Err(m) = r {
                proof {
                    lemma_items_stop(st, items@, i as int + 1);
                }
                return Err(m);
            }
            proof {
                cur = emit_item(cur, items@[i as int]).st;
            }
            assert(instructions_view(instructions@) =~= instructions_view(old(instructions)@) + emit_items(st, sub).code);
            i = i + 1;
        }
        assert(items@.subrange(0, items@.len() as int) =~= items@);
        Ok(())
    }

    fn emit_item_into(
        &mut self,
        item: &BlockItem,
        instructions: &mut Vec<Instruction>,
        Ghost(st): Ghost<EmitView>,
    ) -> (r: Result<(), String>)
        requires
            old(self).matches(st),
            emittable_item(*item),
        ensures
            final(self).matches(emit_item(st, *item).st),
            r is Ok <==> emit_item(st, *item).ok,
            r is Ok ==> instructions_view(final(instructions)@) == instructions_view(old(instructions)@)
                + emit_item(st, *item).code,
            r matches Err(m) ==> m@ == missing_function_message(emit_item(st, *item).missing),
        decreases *item, 1nat,
    {
        match item {
            BlockItem::FunctionDeclaration(f) => {
                match self.emit_func_body_into(f, instructions, Ghost(st)) {
                    Ok(_) => Ok(()),
                    Err(m) => Err(m),
                }
            },
            BlockItem::VarDeclaration(d) => {
                self.emit_declaration(d, instructions, Ghost(st));
                Ok(())
            },
            BlockItem::Statement(s) => self.emit_stmt_into(s, instructions, Ghost(st)),
        }
    }

    /// The body of a function, appended to `instructions`; on success returns whether the
    /// function is global.
    fn emit_func_body_into(
        &mut self,
        f: &FunctionDeclaration,
        instructions: &mut Vec<Instruction>,
        Ghost(st): Ghost<EmitView>,
    ) -> (r: Result<bool, String>)
        requires
            old(self).matches(st),
            emittable_func(*f),
        ensures
            final(self).matches(emit_func_body(st, *f).st),
            r is Ok <==> emit_func_body(st, *f).ok,
            r is Ok ==> instructions_view(final(instructions)@) == instructions_view(old(instructions)@)
                + emit_func_body(st, *f).code,
            r matches Ok(g) ==> (emit_func_body(st, *f).st.attrs[f.name@] matches IdentAttrs::Function { is_global, .. } && g == is_global),
            r matches Err(m) ==> m@ == missing_function_message(emit_func_body(st, *f).missing),
        decreases *f, 1nat,
    {
        let ghost out = emit_func_body(st, *f);
        match &f.body {
            Some(b) => {
                let r = self.emit_items_into(&b.items, instructions, Ghost(st));
                if let Err(m) = r {
                    return Err(m);
                }
                push_instr(instructions, Instruction::Return(Value::IntegerConstant(0)));
            },
            None => {
                assert(instructions_view(instructions@) =~= instructions_view(old(instructions)@) + Seq::<crate::tacky::ast::InstructionView>::empty());
            },
        }
        assert(instructions_view(instructions@) =~= instructions_view(old(instructions)@) + out.code || !out.ok);
        match self.symbol_table.get_entry(f.name.as_str()) {
            Some(entry) => match entry.attrs {
                IdentAttrs::Function { is_global, .. } => Ok(is_global),
                _ => Err(missing_function_error(&f.name)),
            },
            None => Err(missing_function_error(&f.name)),
        }
    }

    /// The entries of the emitter's symbol table, in order.
    pub closed spec fn entries(&self) -> Seq<(String, SymbolTableEntry)> {
        self.symbol_table.entries_seq()
    }

    /// Translates a function declaration with its body; fails when the symbol table does not
    /// know the name as a function.
    fn emit_function_decl(&mut self, f: &FunctionDeclaration, Ghost(st): Ghost<EmitView>) -> (r: Result<Function, String>)
        requires
            old(self).matches(st),
            emittable_func(*f),
        ensures
            final(self).matches(emit_func_body(st, *f).st),
            r is Ok <==> emit_func_body(st, *f).ok,
            r matches Ok(func) ==> TopLevel::Function(func)@ == TopLevelView::Function(FunctionView {
                name: f.name@,
                parameters: strings_view(f.parameters@),
                body: emit_func_body(st, *f).code,
                is_global: global_function(emit_func_body(st, *f).st.attrs[f.name@]),
            }),
            r matches Err(m) ==> m@ == missing_function_message(emit_func_body(st, *f).missing),
    {
        let mut instructions: Vec<Instruction> = Vec::new();
        let r = self.emit_func_body_into(f, &mut instructions, Ghost(st));
        assert(instructions_view(Seq::<Instruction>::empty()) =~= Seq::<crate::tacky::ast::InstructionView>::empty());
        match r {
            Ok(is_global) => Ok(Function {
                name: f.name.clone(),
                parameters: copy_strings(&f.parameters),
                body: instructions,
                is_global,
            }),
            Err(m) => Err(m),
        }
    }

    /// Translates a program: each function with a body (those whose translation fails are left
    /// out), then the static variables the symbol table defines.
    pub fn emit_program(&mut self, program: &crate::ast::Program) -> (r: Result<Program, String>)
        requires
            emittable_program(program.decls@),
        ensures
            final(self).matches(emit_functions(old(self).view_st(), program.decls@).st),
            r matches Ok(p) && top_levels_agree(
                p.0@.map_values(|t: TopLevel| t@),
                emit_functions(old(self).view_st(), program.decls@).functions + static_vars(
                    final(self).entries(),
                ),
            ),
    {
        let ghost st = self.view_st();
        proof {
            self.lemma_matches_own_view();
        }
        let mut top_levels: Vec<TopLevel> = Vec::new();
        let mut i: usize = 0;
        let ghost mut cur = st;
        assert(program.decls@.subrange(0, 0) =~= Seq::<crate::ast::Declaration>::empty());
        while i < program.decls.len()
            invariant
                i <= program.decls@.len(),
                emittable_program(program.decls@),
                self.matches(cur),
                cur == emit_functions(st, program.decls@.subrange(0, i as int)).st,
                top_levels@.map_values(|t: TopLevel| t@) == emit_functions(st, program.decls@.subrange(0, i as int)).functions,
            decreases program.decls@.len() - i,
        {
            let ghost sub = program.decls@.subrange(0, i as int + 1);
            assert(sub.drop_last() =~= program.decls@.subrange(0, i as int));
            assert(sub.last() == program.decls@[i as int]);
            let ghost before = top_levels@;
            match &program.decls[i] {
                crate::ast::Declaration::FunctionDecl(f) => {
                    if f.body.is_some() {
                        assert(emittable_func(*f));
                        let r = self.emit_function_decl(f, Ghost(cur));
                        proof {
                            cur = emit_func_body(cur, *f).st;
                        }
                        if let Ok(func) = r {
                            top_levels.push(TopLevel::Function(func));
                            assert(top_levels@.map_values(|t: TopLevel| t@) =~= before.map_values(|t: TopLevel| t@).push(top_levels@.last()@));
                        }
                    }
                },
                crate::ast::Declaration::VarDecl(_) => {},
            }
            i = i + 1;
        }
        assert(program.decls@.subrange(0, program.decls@.len() as int) =~= program.decls@);
        let ghost fns = top_levels@;
        let entries = self.symbol_table.get_all_entries();
        let mut j: usize = 0;
        assert(entries@.subrange(0, 0) =~= Seq::<(String, SymbolTableEntry)>::empty());
        while j < entries.len()
            invariant
                j <= entries@.len(),
                top_levels@.len() == fns.len() + static_vars(entries@.subrange(0, j as int)).len(),
                forall|k: int| 0 <= k < fns.len() ==> top_levels@[k] == fns[k],
                top_levels_agree(
                    top_levels@.subrange(fns.len() as int, top_levels@.len() as int).map_values(|t: TopLevel| t@),
                    static_vars(entries@.subrange(0, j as int)),
                ),
            decreases entries@.len() - j,
        {
            let ghost sub = entries@.subrange(0, j as int + 1);
            assert(sub.drop_last() =~= entries@.subrange(0, j as int));
            assert(sub.last() == entries@[j as int]);
            let ghost before = top_levels@;
            let (name, entry) = &entries[j];
            match entry.attrs {
                IdentAttrs::Static { init_value: Some(iv), is_global } => {
                    let initial_value = match iv {
                        InitialValue::Initialized(InitValue::Int(v)) => Value::IntegerConstant(v),
                        InitialValue::Initialized(InitValue::Long(v)) => Value::LongConstant(v),
                        InitialValue::Tentative => Value::IntegerConstant(0),
                    };
                    top_levels.push(TopLevel::StaticVariable(StaticVariable {
                        name: name.clone(),
                        is_global,
                        initial_value,
                        c_type: entry.c_type.duplicate(),
                    }));
                    proof {
                        let tail_old = before.subrange(fns.len() as int, before.len() as int).map_values(|t: TopLevel| t@);
                        let tail_new = top_levels@.subrange(fns.len() as int, top_levels@.len() as int).map_values(|t: TopLevel| t@);
                        assert(tail_new =~= tail_old.push(top_levels@.last()@));
                        let exp_old = static_vars(entries@.subrange(0, j as int));
                        let exp_new = static_vars(sub);
                        assert(exp_new == exp_old.push(exp_new.last()));
                        lemma_same_type_reflexive(entry.c_type);
                        assert forall|k: int| #![trigger tail_new[k], exp_new[k]] 0 <= k < tail_new.len() implies match (tail_new[k], exp_new[k]) {
                            (TopLevelView::Function(x), TopLevelView::Function(y)) => x == y,
                            (TopLevelView::StaticVariable(x), TopLevelView::StaticVariable(y)) => {
                                &&& x.name == y.name
                                &&& x.is_global == y.is_global
                                &&& x.initial_value == y.initial_value
                                &&& same_type(x.c_type, y.c_type)
                            },
                            _ => false,
                        } by {
                            if k < tail_old.len() {
                                assert(tail_new[k] == tail_old[k]);
                                assert(exp_new[k] == exp_old[k]);
                            }
                        }
                    }
                },
                _ => {
                    assert(static_vars(sub) == static_vars(entries@.subrange(0, j as int)));
                },
            }
            j = j + 1;
        }
        assert(entries@.subrange(0, entries@.len() as int) =~= entries@);
        proof {
            let all = top_levels@.map_values(|t: TopLevel| t@);
            let expected = emit_functions(st, program.decls@).functions + static_vars(self.entries());
            assert(top_levels@.subrange(0, fns.len() as int) =~= fns);
            assert forall|k: int| #![trigger all[k], expected[k]] 0 <= k < all.len() implies match (all[k], expected[k]) {
                (TopLevelView::Function(x), TopLevelView::Function(y)) => x == y,
                (TopLevelView::StaticVariable(x), TopLevelView::StaticVariable(y)) => {
                    &&& x.name == y.name
                    &&& x.is_global == y.is_global
                    &&& x.initial_value == y.initial_value
                    &&& same_type(x.c_type, y.c_type)
                },
                _ => false,
            } by {
                if k < fns.len() {
                    assert(fns.map_values(|t: TopLevel| t@)[k] == all[k]);
                    lemma_top_level_view_reflexive(all[k]);
                } else {
                    let tail = top_levels@.subrange(fns.len() as int, top_levels@.len() as int).map_values(|t: TopLevel| t@);
                    assert(tail[k - fns.len()] == all[k]);
                }
            }
        }
        Ok(Program(top_levels))
    }

    /// The three-address code for a statement.
    pub fn emit_statement(&mut self, stmt: &Statement) -> (r: Result<Vec<Instruction>, String>)
        requires
            emittable_stmt(*stmt),
        ensures
            final(self).matches(emit_stmt(old(self).view_st(), *stmt).st),
            r is Ok <==> emit_stmt(old(self).view_st(), *stmt).ok,
            r matches Ok(code) ==> instructions_view(code@) == emit_stmt(old(self).view_st(), *stmt).code,
            r matches Err(m) ==> m@ == missing_function_message(emit_stmt(old(self).view_st(), *stmt).missing),
    {
        let ghost st = self.view_st();
        proof {
            self.lemma_matches_own_view();
        }
        let mut instructions: Vec<Instruction> = Vec::new();
        let r = self.emit_stmt_into(stmt, &mut instructions, Ghost(st));
        assert(instructions_view(Seq::<Instruction>::empty()) =~= Seq::<crate::tacky::ast::InstructionView>::empty());
        match r {
            Ok(()) => Ok(instructions),
            Err(m) => Err(m),
        }
    }
}

fn unary_op(op: UnaryOp) -> (r: UnaryOperator)
    ensures
        r == spec_unary_op(op),
{
    match op {
        UnaryOp::Negate => UnaryOperator::Negate,
        UnaryOp::Complement => UnaryOperator::Complement,
        UnaryOp::Not => UnaryOperator::Not,
    }
}

fn binary_op(op: BinaryOp) -> (r: BinaryOperator)
    requires
        is_plain_binary_op(op),
    ensures
        r == spec_binary_op(op),
{
    match op {
        BinaryOp::Add => BinaryOperator::Add,
        BinaryOp::Subtract => BinaryOperator::Subtract,
        BinaryOp::Multiply => BinaryOperator::Multiply,
        BinaryOp::Divide => BinaryOperator::Divide,
        BinaryOp::Remainder => BinaryOperator::Remainder,
        BinaryOp::BitAnd => BinaryOperator::BitAnd,
        BinaryOp::BitOr => BinaryOperator::BitOr,
        BinaryOp::BitXor => BinaryOperator::BitXor,
        BinaryOp::ShiftLeft => BinaryOperator::ShiftLeft,
        BinaryOp::ShiftRight => BinaryOperator::ShiftRight,
        BinaryOp::LogicalAnd => BinaryOperator::LogicalAnd,
        BinaryOp::LogicalOr => BinaryOperator::LogicalOr,
        BinaryOp::Equal => BinaryOperator::Equal,
        BinaryOp::NotEqual => BinaryOperator::NotEqual,
        BinaryOp::Greater => BinaryOperator::Greater,
        BinaryOp::Less => BinaryOperator::Less,
        BinaryOp::GreaterEqual => BinaryOperator::GreaterEqual,
        _ => BinaryOperator::LessEqual,
    }
}

} // verus!
