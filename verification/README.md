# matchbox_vm

Support library of the MatchBox BoxLang runtime, verified with Verus.

- `src/vm/`: the opcode table and instruction-word encoding (`opcode`,
  `chunk`), compiled chunks with their constant tables and inline caches
  (`chunk`), the generational mark-and-sweep heap and its presets (`gc`,
  with the reachability definitions in `trace`), the string interner
  (`intern`), hidden-class shapes (`shape`), argument binding (`call`),
  member-method resolution (`member`), type hints (`type_hint`) and the
  source excerpt of error reports (`report`).
- `src/script/`: the stand-alone script runner's bytecode (`opcode`,
  `chunk`, `types`), its syntax tree (`ast`), and its compiler: `codegen`
  says, node by node, what is emitted (instructions, constants, patched
  jump offsets, locals and scopes, or the error), and `compiler` does it.
  Instructions carry line 0: the syntax tree holds no positions.
- `src/qoq/`: Query of Queries, SQL over in-memory results: tokens, lexer,
  syntax tree, parser, walks over a query, column planning, parameter
  binding, values, and the parts of execution that need no arithmetic on
  doubles (column resolution, joins, projections, duplicate removal).
- `src/embedded.rs`: the embedded route table.
- `src/text.rs`, `src/assoc.rs`: text helpers and association lists used
  throughout.
- `app/`: what Verus does not check: module discovery on disk, and the
  Query of Queries executor, which evaluates expressions on doubles.
- `tests/`: tests of the library.

Not here: the bytecode interpreter itself (the dispatch loop, fibers and
call frames, value casts, the bridge to JavaScript). Its values are
doubles, which Verus cannot reason about here, and the value and object
types it runs on are not part of this project's sources, so it can stand
neither in `src/` nor, against types that do not exist, in `app/`. What of
it is logic on plain values stands in `src/vm/`: argument binding
(`call`), member-method resolution (`member`), type-hint matching
(`type_hint`), shapes, caches, interning and the heap. The heap is handed
each object's references as plain lists, since the object types that
would list them are not available either.

Every function in `src/` carries a contract that Verus proves; the public
proof functions (`lemma_*`) state the library's laws.
