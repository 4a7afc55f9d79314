# swcc

The verified core of `swc`, the compiler tool chain of the Sw language, written in
Verus: every function of the library carries a contract that Verus proves.

## Layout

- `src/` — the library.
  - `types.rs`: the semantic types, their names and classes.
  - `symbols.rs`: signatures, the type table, and the base chains of classes.
  - `typing.rs`: type equality, generic substitution and inference, assignability,
    overload choice, generic struct instances, and the checks on the entry point's
    signature and on functions that never return a value.
  - `expressions.rs`: expressions as the checker's scope-free rules read them —
    compile-time constants, literals, binary operators, top-level initialisers.
  - `statements.rs`: the checker's rules on statements — conditions, `for-of`,
    `switch` cases, `throw`, `break`/`continue`, `return`, and variable declarations
    with their destructuring patterns.
  - `members.rs`: the checker's rule on member access.
  - `checker.rs`: the checker's walk over expressions — names and scopes, `this`
    and `super`, operators, assignments and `++`/`--` with their writable targets,
    array literals, spreads, member access, and calls: function values, and the
    module's overloads chosen by `typing::pick_overload`.
  - `body.rs`: the checker's walk over statements — declarations and scopes,
    blocks, `if` and `while` conditions, `break`/`continue`, and `return`.
  - `lower.rs`: lowering to the intermediate representation — expressions
    (literals and the string pool, names, operators with `**`, string joins and
    comparisons, `++`/`--` and assignment expressions, indexing, fields, arrays, calls
    of function values and of the overloads the checker chose), statements
    (declarations and scopes, blocks, `if`, `while`, `return`) and functions; each
    stated over views of the intermediate representation (`mir.rs`).
  - `finalize.rs`: the checks made when a module's declarations are completed —
    structs that contain themselves, enum member values, `extends`, and `main`.
  - `mir.rs`: the intermediate representation.
  - `lowering.rs`: operator names and the lowering of operators (`**`, string
    concatenation and comparison, floating-point `%`), of `++`/`--` and of
    assignment expressions, built-in string methods, stable symbol names, integer
    literals, the string pool, locals, and the entry point of test builds.
  - `naming.rs`: why stable symbol names tell overloads apart (the type letters are a
    prefix code).
  - `formatter.rs`: the source formatter.
  - `lsp.rs`, `lsp/modern.rs`: the two language servers — documents, edits,
    positions in UTF-16, URIs, and the messages they send.
  - `driver.rs`: the command line, target triples, `swcc.toml`, output names, the
    runtime and its object cache, and the arguments of the linkers.
  - `text.rs`, `table.rs`, `json.rs`: characters and strings, a keyed table, JSON
    values.
- `tests/` — tests of the library on concrete values.
- `app/` — the program around it: the `swc` command, file system and processes,
  and the language servers' loops over standard input and output.

The parser (`sw_frontend`), the shared source and diagnostic types (`sw_common`)
and the Cranelift code generator (`sw_codegen_cranelift`) are crates that this
build does not contain. The library's own syntax tree (`expressions::Expr`,
`finalize::Item`) holds what the checker reads of an expression or a declaration,
with type annotations already resolved; the checker walks it. What still needs the
parser's tree — the statements not modelled here (`for`, `switch`, `match`, `try`,
destructuring), type resolution from annotations, the lowering of whole modules,
of `for`/`switch`/`try`, struct equality, slices, closures and their captures, and
generic instantiation of functions — is not here, so `swc check` and `swc build` stop with an error in `app/` where the
parser would be called.
