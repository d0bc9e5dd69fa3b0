# tbcc

A compiler for a small subset of C (`int`, `long`, functions, loops, `switch`, `goto`,
`static`/`extern` storage) to x86-64 assembly, written in Verus. Every pass of the compiler is
a verified library function whose contract states its result over a mathematical model of the
pass (a spec function on sequences, maps and views of the syntax trees).

Layout:

- `src/lexer.rs`, `src/token.rs`: tokens from source text (regular expressions through
  `fancy-regex`, behind one trusted wrapper).
- `src/parser.rs`, `src/parser/`: recursive descent over the tokens; `grammar.rs` holds the
  grammar as spec functions, `specifier_parser.rs` the checks on declaration specifiers.
- `src/semantic/`: identifier resolution with nested scopes, type checking, label resolution
  and loop labeling; `semantic::validate` runs the four in order. `label_targets.rs` proves
  that in a validated program every `goto` lands on a label of its function and that labels
  are distinct; `loop_ids.rs` that every loop, switch, `break` and `continue` then carries an
  id; `unique_names.rs` that resolution gives distinct names to the variables and parameters
  it renames.
- `src/tacky/`: translation to three-address code; `emittable.rs` tests what it asks of its
  input.
- `src/assembly/`: instruction selection, stack slots for pseudo registers, fixes for
  illegal operand combinations, and the assembly text for Linux, macOS or another system;
  `final_code.rs` proves that the created code has no pseudo register and no illegal operand
  combination, and `translatable.rs` and the checkers beside the passes test what each pass
  asks of its input.
- `src/common/`: the symbol tables.
- `app/main.rs`: the command line driver (preprocessing and linking with `gcc`, file I/O).
