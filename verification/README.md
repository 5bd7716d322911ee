# ql

Query a codebase with SQL. Source files are parsed with tree-sitter, their
syntax trees are mapped to six language-agnostic tables (`functions`,
`calls`, `imports`, `structs`, `variables`, `comments`), and SQL runs over
those tables.

The library in `src/` is verified with Verus:

- `lexer`, `parser`, `ast`: the SQL front end, proved equal to a grammar
  written as spec functions.
- `plan`: the SQL text handed to the database, proved equal to its
  rendering spec; planning fails exactly on an invalid identifier path or
  an empty `IN` list; string and integer literals read back to themselves.
- `readback`: the planned SQL of a statement parses back into that same
  statement, for statements with a non-empty select list, identifier paths
  whose segments are no keywords, and no `NOT` as an operand of a
  comparison, `LIKE` or `IN` (such a `NOT` reads back with a wider scope);
  every statement the parser gives and the planner accepts meets the first
  two, so it reads back unless it holds such a `NOT`.
- `syntax`, `adapter`, `adapters/*`: the tree that tree-sitter parses from a
  source, copied node for node into a plain pre-order tree (what tree-sitter
  gives for each node is named, not restated), and the Go, Rust, TypeScript
  and Python adapters, each proved to give exactly the rows its spec names
  for every node of that tree.
- `analysis`: the second pass over a whole batch (`has_test`, normalized
  `implements`, comment attachment), proved idempotent.
- `source`, `format`, `query`, `protocol`: snapshots, the per-file
  collection state, table and CSV rendering, and the result types.

`app/` is the command line around it: directory walking, the on-disk cache,
DuckDB, JSON output and watch mode.
