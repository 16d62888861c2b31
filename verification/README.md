# boon

The front end of the Boon language, verified with Verus: a parser, a name
resolver, shape inference, and a compiler from Boon source to a static
dataflow graph with its semantic and dataflow IRs. Around it sit the pieces
of the runtime and tooling that compute without a display: constant folding
of render graphs, scenario files, generated Rust modules, a PNG encoder for
screenshots, a bitmap font, the playground's selection and input state, the
runtime host's scenario decisions, and the decisions of the developer tasks.

Layout:

- `src/` — the library, verified by Verus against its contracts; the few calls
  into std and outside crates sit behind small trusted wrappers.
  `text`, `strmap` and `literal` hold the shared models; `syntax`, `parser`
  and `toplevel` parse; `hir` resolves; `shape` infers shapes; `compiler`
  builds the graph and IRs; `fold` folds render graphs to constants;
  `scenario` reads scenario TOML; `json` reads JSON documents; `host`
  drives scenario steps around a dataflow session and shapes what a session
  reports; `reports` checks the AI assessments of the Ply renderer; `playground` is the interactive selection state;
  `codegen`, `png`, `font`, `tasks`, `backends` and `examples` are the
  smaller consumers.
- `tests/` — executable tests of the library.
- `app/` — a command-line front end that reads and writes files.
