# phi_tools

Agent tools that drive a browser over the Chrome DevTools Protocol and run
local shell commands, with the logic written in Verus and proved against
its contracts.

- `src/` is the verified library:
  - `dom`: the accessibility snapshot (nodes, lookup and update by element
    number, iframe injection, counts), with its mathematical model;
  - `props`: an element's properties, a map with distinct names;
  - `render`: URL normalization and the text rendering of a snapshot;
  - `session`: the scripts sent to the page, the choice of the active tab,
    link listings, selector lookup, screenshot encoding (base64) and page
    Markdown (html2md);
  - `reports`: what each browser tool answers for each outcome;
  - `shell`: the shell tool's summaries of how a command ended;
  - `text`: string helpers (trimming, decimal numerals).
- `app/` is plain Rust around it: the `headless_chrome` session, the
  `agent_base::Tool` implementations, process spawning with `tokio`, and
  the serde forms of snapshots.
- `tests/` runs the library on concrete values.
