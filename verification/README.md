# redart

A small interpreter for a subset of the Dart language, written in Verus.

The library (`src/`) holds the interpreter's logic, each function with a
contract that Verus proves:

- `lexer`, `token`, `reader`: the tokens of a source text and a cursor over them;
- `expression`, `parser`: the syntax tree of a file;
- `loader`: the look-up tables that tell which top-level names each file sees;
- `typechecker`: the types of declarations with initial values;
- `stack`, `objsys`, `heapobjs`, `allocator`: variables, classes, instances,
  lists and files, and the mark-and-sweep garbage collector;
- `values`, `evalhelp`, `api`, `evaluator`: the evaluation of programs.

The program in `app/` reads files, prints, computes with floating-point
doubles and keeps time for the garbage collector; it hands these services to
the evaluator through the `Host` trait.

Usage: `redart <file.dart>` runs a program, `redart lex <file>` and
`redart parse <file>` show its tokens and trees, `redart test [n]` runs the
bundled test programs.
