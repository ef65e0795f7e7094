# suru_lang

The front end of the Suru language — lexer, parser and semantic analyzer —
written in Verus and verified.

## Layout

- `src/lexer.rs`, `src/parser.rs`, `src/ast.rs`: tokens, the syntax tree (an
  arena of nodes linked by first-child / next-sibling / parent indices) and a
  recursive-descent parser whose termination is proved.
- `src/semantic/`: the analyzer.
  - `types.rs`: the type representation, the interning registry (no type is
    registered twice) and the substitution of Hindley-Milner inference, with
    the laws that keep it acyclic and that make binding a variable unify it.
  - `symbols.rs`: symbol tables and the scope stack, with the laws of lookup,
    shadowing and scope entry and exit.
  - `analyzer.rs`, `visit.rs`, `names.rs`: the traversal, name resolution,
    variables, functions and calls.
  - `typedecl.rs`, `structs.rs`: type declarations (aliases, unions, structs,
    intersections, function types, generics), struct values, properties and
    methods.
  - `inference.rs`: unification, the occurs check, constraint solving;
    unification only adds bindings and never undoes an equality, and a
    successful solve meets every constraint that has a variable side.
  - `matching.rs`, `application.rs`: match expressions, placeholders, partial
    application, the pipe operator and `try`.
  - `modules.rs`, `module_registry.rs`, `multi_file_analyzer.rs`: modules,
    exports, imports and the analysis of several files together.
  - `mutation.rs`: which parameters each function mutates, specified node
    by node over the body.
- `tests/`: the test suite.

Every function carries a contract; `verus` proves them.
