# grund

`grund` keeps specs, docs and code in sync through stable IDs: a declaration is a
heading whose first token is an ID (`# FS-events: …`), and code or prose cites it
as `§FS-events` or `§FS-events.4` (a section). The library scans a tree, checks
that every citation resolves, and answers the queries built on that scan.

## Layout

- `src/` — the verified library. Every executable function carries a contract
  over a mathematical model (`Seq`, spec functions, views of the data types).
  - `grammar`, `scanner`, `comment_blocks`, `tree`: turning text into IDs,
    declarations, sections and citations, one file and then a whole tree.
  - `checker`, `order`, `api`: the rules of `check` and the one fixed report order.
  - `show`, `queries`, `rewrite`, `links`, `render`: `show`, `refs`, `cover`,
    `list`, `complete`, `fmt` and how their results read.
  - `agents`, `init_plan`, `scaffold`: what `init` writes and when.
  - `workspace`, `cases`: multi-project checks and e2e case manifests.
  - `propose`: the next free ID of a kind (`grund id`).
  - `pattern`: the trusted wrappers over the `regex` crate; `links` also holds the
    trusted wrappers over `char` case folding and Unicode decomposition.
- `tests/` — tests of the library on concrete inputs.
- `app/` — the command line: arguments, walking and reading the tree (with the
  `ignore` crate), and printing.

Laws that span several functions are public proof functions next to the code
they speak of (for example `checker::lemma_report_order`,
`agents::lemma_update_idempotent`, `init_plan::lemma_settled_writes_nothing`,
`tree::lemma_scan_tree_groups`, `checker::lemma_slug_rename_resolves_alike`,
`init_plan::lemma_first_init_settles`).
