# zeptoclaw

Context-size accounting, tool-result sanitizing and web tools for an assistant
that calls tools, written in Rust and verified with Verus.

- `src/` is the library. Verus proves the contract of every function in it, but for
  the outside calls named below.
  - `agent::context_monitor` estimates how many tokens a conversation takes,
    suggests when to compact it, and trims tool results before a request.
  - `utils::sanitize` strips base64 data URIs and hex blobs from tool results,
    cuts them to size, and computes byte budgets.
  - `tools::browser` and `tools::screenshot` are state machines: they are told
    what happened and answer with what to do next.
  - `utils::ratio` carries out the binary64 arithmetic of the estimates on
    integers, so that contracts can speak of its results exactly.
  - `utils::text`, `utils::json`, `utils::encoding` and `tools::web` hold the
    texts, JSON values, encodings and URLs that the rest needs.
- `app/` performs the actions: it runs the browser program, drives a headless
  browser, writes files, and asks the embedder's host guard.
- `tests/` runs the library.

What Verus takes on trust are calls into `regex`, `serde_json`, `reqwest`,
`base64` and the standard library; each has a comment that says what is claimed
of it.
