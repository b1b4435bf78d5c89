# astchunk

AST-based code chunking in the manner of the cAST paper
(<https://arxiv.org/abs/2506.15655>): source code is parsed with
tree-sitter, its syntax tree is partitioned into windows of sibling nodes
whose non-whitespace size fits a budget, and each window is laid out again as
text, with its location, its enclosing definitions and, on request, a context
header.

The library under `src/` is written in Verus and verified by it. The calls
into tree-sitter and a few calls into `std` go through small trusted wrappers
(marked `#[verifier::external_body]`), whose contracts Verus takes as given;
everything else is proved.

## Layout

- `src/internal/` — the core: the syntax tree model and the tree-sitter calls
  that fill it (`tree`, `ts`), nodes (`node`), the greedy partition into
  windows and their overlap (`partition`), and the layout of windows and
  segments back into text (`materialize`).
- `src/chunker/`, `src/formatter/`, `src/output.rs`, `src/types/` — the
  document → chunk → text chunk → record pipeline.
- `src/builder.rs`, `src/chunk.rs`, `src/metadata.rs` — the window-based
  builder with metadata templates and the optional expansion header.
- `src/nws.rs`, `src/text.rs`, `src/byte_range.rs`, `src/lang.rs` —
  non-whitespace counting, UTF-8 text helpers, byte ranges and languages.
- `src/cli.rs`, `src/display.rs` — the decisions and the text of the
  command-line tool.
- `app/main.rs` — the command-line tool itself: argument parsing, file and
  directory walking, parallel processing, tables and JSON output.
- `tests/` — tests run against the compiled library.

## Main properties proved

- The chunker's and the builder's outputs are exactly the layouts of the
  windows of the partition of the document's parse. The parse is named
  (`parsed_tree`): one trusted wrapper runs tree-sitter and reads its tree
  with a verified reader, and its contract claims only that the result
  depends on the language and the source bytes alone. Parsing then checks
  that the tree is well formed and that its positions agree with the source.
  Two calls on one document therefore chunk the same tree: they agree, and
  overlap keeps the number of chunks across them.
- Without overlap every chunk stays within the non-whitespace budget, except
  a leaf that alone exceeds it, which becomes a window of its own.
- Overlapping windows keeps their number; every expanded chunk starts with
  its header.
- The cumulative non-whitespace table answers every range query with the
  direct count.
- Rebuilding a window from its nodes and from its byte segments gives the
  same text when node positions agree with the source, which parsing checks.
- Counts of adjacent ranges add up to the count of their union; rebuilding
  segments keeps their non-whitespace count; no segment rebuilds to nothing
  and one segment to its text indented to its column.
- Repository metadata reads back the last value written for a key.
