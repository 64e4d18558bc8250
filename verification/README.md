# cupid

A small object-oriented scripting language, written in Verus: its scanner,
its single-pass bytecode compiler, its garbage-collected heap, and a
grammar-driven parser, each with contracts that Verus proves.

Layout:

- `src/scanner.rs`, `src/token.rs`: the lexer, specified byte by byte.
- `src/parser.rs`, `src/compiler.rs`, `src/chunk.rs`: the compiler from
  source to bytecode; every step is proved to terminate and to keep the
  compiler's state well formed. For scripts made of statements
  `log(expression)`, `if`/`else`, `while` and `expression` (branches and
  bodies being such statements, not blocks) over integers, `false`, `true`,
  `none`, `-`, `!`, parentheses, the binary operators, `and` and `or`, the
  code and constants that `Parser::compile` writes are stated exactly
  (`Parser::script_from`, over `expr_out` and `stmt_out`): operands first,
  each binary operator after both its operands, the jumps of `and`, `or`,
  `if` and `while` with their offsets, with the precedence of the table of
  rules. For the other statements the contract
  states what every step keeps, not the code.
- `src/gc.rs`, `src/objects.rs`, `src/table.rs`, `src/value.rs`: the heap,
  its objects and the mark-and-sweep collector, with the laws it keeps.
- `src/expose.rs`: the built-in functions on arrays.
- `src/peg.rs`, `src/peg_rules.rs`: the grammar-driven parser and its rules;
  `src/parse_node.rs`, `src/parsers.rs`, `src/cupid_rules.rs`: the later
  form of that parser over `ParseNode` trees, with the package grammar;
  `src/grammar_parser.rs`: the parser of grammar files. Every rule is proved
  to terminate, to leave the cursor where it was when it fails, and to build
  exactly the tree that its spec function gives for the tokens.
- `src/packages.rs`: resolving `use` declarations to package files.
- `src/error.rs`, `src/errors.rs`: error values.
- `app/`: the command-line program around the library (files, the
  terminal, the clock, colours).
- `tests/`: tests of the library on concrete inputs.

Scope:

- There is no syntax-tree front end and no virtual machine here: the
  program in `app/` compiles a script with the single-pass compiler and
  reports what it found. The token, chunk, compiler, table and value
  modules are this library's own design.
- The collector puts every reference it meets on the grey stack, marked or
  not, so a collection ends only where no cycle of references is reachable
  from the grey objects; `Gc::ranks_fit` tests a heap for that, and `app/`
  collects only where it holds.
