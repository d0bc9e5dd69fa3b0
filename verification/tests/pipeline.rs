use tbcc::assembly;
use tbcc::assembly::ast::Program;
use tbcc::assembly::codegen::{program_can_print, CodeGenerator, Target};
use tbcc::assembly::symbol_table::SymbolTableEntry as AsmEntry;
use tbcc::assembly::translatable::{program_can_translate, table_objects_scalar};
use tbcc::common::symbol_table::SymbolTableEntry;
use tbcc::common::symbol_table_generic::SymbolTable;
use tbcc::lexer::Lexer;
use tbcc::parser::Parser;
use tbcc::semantic;
use tbcc::tacky::ast::Program as TackyProgram;
use tbcc::tacky::emittable::program_emittable;
use tbcc::tacky::TackyEmitter;

fn emit(code: &str) -> (TackyProgram, SymbolTable<SymbolTableEntry>) {
    let lexer = Lexer::new();
    let tokens = lexer.scan_tokens(code).expect("Failed to scan tokens");

    let parser = Parser::new();
    let mut program = parser.parse(tokens).expect("Failed to parse program");

    let var_name_gen = semantic::make_var_name_generator();
    let label_name_gen = semantic::make_label_name_generator();
    let tmp_var_name_gen = semantic::make_temp_var_name_generator();

    let (label_name_gen, symbol_table) =
        semantic::validate(var_name_gen, label_name_gen, SymbolTable::new(), &mut program)
            .expect("Failed to validate program");

    assert!(program_emittable(&program));
    let mut tacky_emitter = TackyEmitter::new(label_name_gen, tmp_var_name_gen, symbol_table);
    let tacky_program = tacky_emitter.emit_program(&program).expect("Failed to emit");
    let (_, symbol_table) = tacky_emitter.into_parts();
    assert!(program_can_translate(&symbol_table, &tacky_program));
    assert!(table_objects_scalar(&symbol_table));
    (tacky_program, symbol_table)
}

fn create_assembly(code: &str) -> (Program, SymbolTable<AsmEntry>) {
    let (tacky_program, symbol_table) = emit(code);
    let (program, table) =
        assembly::create_program(&tacky_program, symbol_table).expect("Failed to create assembly program");
    assert!(program_can_print(&table, &program, Target::Linux));
    (program, table)
}

#[test]
fn codegen_creates_asm_program_ok() {
    let code = "int main(void) { return -(~42); }";
    let (assembly_program, asm_symbol_table) = create_assembly(code);
    let code_generator = CodeGenerator::new(asm_symbol_table, Target::Linux);
    let asm_code = code_generator.generate_assembly(&assembly_program);

    assert!(!asm_code.is_empty());

    println!("{asm_code}");
}

#[test]
fn binary_result_without_a_type_is_not_translatable() {
    let tokens = Lexer::new().scan_tokens("int main(void) { return 42 >> 1; }").unwrap();
    let mut program = Parser::new().parse(tokens).unwrap();
    let (label_name_gen, symbol_table) = semantic::validate(
        semantic::make_var_name_generator(),
        semantic::make_label_name_generator(),
        SymbolTable::new(),
        &mut program,
    )
    .unwrap();
    assert!(program_emittable(&program));
    let mut tacky_emitter =
        TackyEmitter::new(label_name_gen, semantic::make_temp_var_name_generator(), symbol_table);
    let tacky_program = tacky_emitter.emit_program(&program).unwrap();
    let (_, symbol_table) = tacky_emitter.into_parts();
    assert!(!program_can_translate(&symbol_table, &tacky_program));
    assert!(!table_objects_scalar(&symbol_table));
}
