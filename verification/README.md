# patchwork

Structural search in source code. A snippet with placeholders, or a tree-sitter query, is
matched against the syntax tree of a source text; each match tells where it stands and what its
placeholders have matched.

In a snippet:

- `$name` matches any one node, `$name:kind` one of that node kind;
- `$($name),*` as last child matches any number of nodes, with `+` at least one, with `?` at most
  one; `$($a, $b),*` matches them in groups, where `?` stands for at most one group;
- `$$$name` matches any number of nodes in any position;
- `$BODY` matches any number of statements, `$STMT` one statement, `$EXPR` one expression.

Everything else in a snippet matches by kind and, for named leaves, by text. What looks like a
repetition but lacks its closing parenthesis, its operator or a name is text, too. The prefix
`_pw_` is reserved: a leaf of the snippet that begins with it is taken for a placeholder and
matches any node.

A query is a tree-sitter query. Each of its matches is reported by the first capture named
`matched` or `target`, or else by its first capture. Queries on which tree-sitter's compiler may
not return are refused.

## Layout

- `src/`: the library, verified with Verus.
  - `scan`, `snippet`: the placeholder syntax, and snippets made ready for a parser.
  - `tree`, `grammar`: syntax trees as plain values, and the boundary to tree-sitter.
  - `pattern`, `matcher`: what a match is, and the code that finds out.
  - `search`, `query`: the searches; `query_shape`: which queries are refused; `command`: what the commands decide and put out.
  - `text`, `strmap`: strings by characters and byte offsets, maps keyed by strings.
  - `*_laws`: what holds of all of these together.
- `app/`: the command line program.
- `tests/`: tests of the library with the tree-sitter grammars for Java, Python and JavaScript.
