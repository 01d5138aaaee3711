# muservc

A compiler for a small subset of C (integer expressions, variables, blocks,
`return`, and, in code generation, `if` and loops) that emits RISC-V assembly for a stack machine whose accumulator is `a0`.
The lexer makes no identifiers or keywords yet, so source text given on the command
line holds only numbers, punctuators and white space; variables, `return` and the
statements of code generation reach the parser and the code generator only as tokens
and trees built by a caller.

The library is written in Verus: every function carries a contract that Verus proves,
but for two small trusted wrappers over the standard library whose contracts are taken
as given: `String::push` (`text::push_char`) and `char::from_u32` (`lexer::char_from_u32`).

Layout of `src/`:

- `lexer.rs` — splits the source text into tokens (`tokenize`), specified by `lex`.
- `ast.rs` — programs, functions, local variables and syntax-tree nodes with their
  constructors, including pointer-aware `new_add` and `new_sub`.
- `typecheck.rs` — types and type inference (`Type::add_type`, specified by `typed`).
- `parser.rs` — recursive-descent parser for `{ stmt* }` programs (`parser`) and for a
  single expression (`paser`), specified by the `p_*` functions.
- `codegen.rs` — frame layout (`assign_lvar_offsets`) and code generation
  (`codegen`, `gen_asm`) into a vector of instructions, specified by the `g_*`
  functions.
- `precheck.rs` — `can_codegen`, which tells whether code generation can run on a
  program.
- `render.rs` — the assembly text of instructions, with the comments that explain them.
- `diagnostic.rs` — the two lines of an error message that points into the source.
- `machine.rs` — a model of the machine that runs straight-line expression code, and
  the law that the code of an expression computes its value.
- `stack.rs` — the law that the code of an expression, calls included, pops exactly what
  it pushes and never pops below the depth it started at.
- `branch.rs` — the laws that no branch label is defined twice in a program's code and
  that every branch jumps to a label the code defines.
- `control.rs` — the machine run instruction by instruction with its branches, and
  the law that the code of a statement (`if`s and loops included) and of a function
  body does what it means.
- `wellformed.rs` — the parser builds well-formed trees, and the end-to-end law: a
  parsed program whose assignments are to variables compiles without error into code
  that does what the program means.

`app/main.rs` is the command line: it reads the program from its argument, prints the
assembly on standard output, and reports errors on standard error.
