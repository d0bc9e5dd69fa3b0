pub mod loop_labeler;
pub mod name_creator;
pub mod name_generator;
pub mod scope;
pub mod identifier_resolver;
pub mod label_resolver;
pub mod label_targets;
pub mod loop_ids;
pub mod unique_names;
pub mod type_checker;
pub mod return_types;

pub use identifier_resolver::IdentifierResolver;
pub use label_resolver::LabelResolver;
pub use name_generator::{
    make_label_name_generator, make_loop_id_generator, make_switch_id_generator,
    make_temp_var_name_generator, make_var_name_generator, NameGenerator,
};
pub use name_creator::NameCreator;

use vstd::prelude::*;

use crate::ast::{Declaration, Program};
use crate::ast_view::decls_view;
use crate::common::symbol_table::SymbolTableEntry;
use crate::common::symbol_table_generic::SymbolTable;
use crate::semantic::identifier_resolver::{resolve_decls, ResolverState};
use crate::semantic::label_resolver::{label_decls, undeclared, undeclared_message, LabelOutcome};
use crate::semantic::loop_ids::{function_ids_named, law_labeled_ids_not_empty};
use crate::semantic::loop_labeler::{LabelCtx, LoopLabeler};
use crate::semantic::name_generator::{fresh_gen, NameFormat};
use crate::semantic::type_checker::{table_view, type_decls, TState, TypeChecker};

verus! {

/// Checks a parsed program and prepares it for translation, in four passes: names are made
/// unique, types are checked and annotated, labels are made unique, and loops, switches and
/// their `break`, `continue` and arms are labeled. The first error ends it. Hands back the
/// label generator (translation makes more labels) and the symbol table filled by the type
/// checker; after a success every loop, switch, `break` and `continue` carries an id that is
/// not empty.
pub fn validate(
    var_name_generator: NameGenerator,
    label_name_generator: NameGenerator,
    symbol_table: SymbolTable<SymbolTableEntry>,
    program: &mut Program,
) -> (r: Result<(NameGenerator, SymbolTable<SymbolTableEntry>), String>)
    ensures
        match resolve_decls(
            ResolverState { scopes: seq![Map::empty()], gen: var_name_generator@, fn_level: 0, blocks: Seq::empty() },
            decls_view(old(program).decls@),
        ) {
            Err(m) => r matches Err(e) && e@ == m,
            Ok((_, resolved)) => match type_decls(TState { table: table_view(symbol_table@), cur: None }, resolved) {
                Err(m) => r matches Err(e) && e@ == m,
                Ok((typed, annotated)) => match label_decls(label_name_generator@, annotated) {
                    LabelOutcome::Fail(m) => r matches Err(e) && e@ == m,
                    LabelOutcome::Undeclared(labels) => r matches Err(e)
                        && exists|n: Seq<char>| undeclared(labels, n) && e@ == undeclared_message(n),
                    LabelOutcome::Done(g, labeled) => exists|mid: Seq<Declaration>| #![trigger decls_view(mid)] {
                        let o = crate::semantic::loop_labeler::label_decls(
                            LabelCtx { loops: fresh_gen(NameFormat::Loop), switches: fresh_gen(NameFormat::Switch) },
                            Seq::empty(),
                            mid,
                            final(program).decls@,
                        );
                        &&& decls_view(mid) == labeled
                        &&& (r is Ok <==> o.ok)
                        &&& (r matches Err(e) ==> e@ == o.err)
                        &&& (r matches Ok((lg, t)) ==> o.fits && lg@ == g && table_view(t@) == typed.table)
                    },
                },
            },
        },
        r is Ok ==> forall|i: int|
            #![trigger final(program).decls@[i]]
            0 <= i < final(program).decls@.len()
                ==> (final(program).decls@[i] matches Declaration::FunctionDecl(f) ==> function_ids_named(f)),
{
    let mut resolver = IdentifierResolver::new(var_name_generator);
    match resolver.resolve(program) {
        Ok(()) => {},
        Err(m) => return Err(m),
    }
    let mut type_checker = TypeChecker::new(symbol_table);
    match type_checker.check(program) {
        Ok(()) => {},
        Err(m) => return Err(m),
    }
    let mut label_resolver = LabelResolver::new(label_name_generator);
    match label_resolver.resolve(program) {
        Ok(()) => {},
        Err(m) => return Err(m),
    }
    let ghost mid = program.decls@;
    let mut loop_labeler = LoopLabeler::new();
    let ghost ctx = loop_labeler.ctx();
    let labeled = loop_labeler.label_loops(program);
    assert(decls_view(mid) == decls_view(mid));
    proof {
        if labeled is Ok {
            law_labeled_ids_not_empty(ctx, Seq::empty(), mid, program.decls@);
        }
    }
    match labeled {
        Ok(()) => Ok((label_resolver.into_generator(), type_checker.into_symbol_table())),
        Err(m) => Err(m),
    }
}

} // verus!
