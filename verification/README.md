# aegiscore

A personal agent runtime: declarative skills (TOML, JSON or Markdown with
frontmatter), a per-skill tool allowlist, built-in tools with conservative
limits, a CLI and an HTTP server.

The decisions of the runtime are a library verified with Verus (`src/`):

- `skills`, `markdown`, `frontmatter`: skill specifications and their JSON
  Schema validation, which files the store lists and in what order, where a
  skill is saved, and the Markdown skill format (framing, frontmatter field
  rules, the body as system prompt). The frontmatter parsers (`toml`,
  `serde_yaml`) yield the document's top-level entries, each scalar by its kind;
  how a string field reads a number or a boolean is the library's rule. A YAML
  field is read from the parsed value, not from its source text, so a number
  keeps the text of its value (`1.10` reads as `1.1`) and `null` is no string.
- `keyed`, `registry`: the skill and tool registries (one entry per name, kept
  in name order) and the tools offered to a skill. The entries are held in a
  `Vec` sorted by name, which iterates as a `BTreeMap<String, _>` would: vstd's
  specification of `BTreeMap` states too little for `String` keys to prove the
  registries' contracts.
- `runtime`: a skill run as a state machine (what to do with each provider
  reply, which tool calls may run, when the rounds are exhausted), the local
  and MCP providers, the chat-completions URL.
- `ratelimit`: the sliding-window rate limiter of the server, with the history
  of its decisions, over which the window laws are stated.
- `config`, `naming`, `modules`: configuration defaults, the tool context,
  names inferred for new skills, the module trait and the built-in module
  (its tools, whose handlers do I/O, are registered by the program).
- `tools`: the sandbox rules of the file tools, the network policy of
  `http_get` (with a fetch state machine that decides the policy on each URL,
  given the host read as an address and the addresses it resolved to, and
  hands out a URL to send only after it passed, again after every redirect),
  the checks of `shell_command`, `json_query`, and `text_summarize`.
- `text`: the character-level model of strings the contracts are written in.

`app/` is the program around it: argument parsing, file and network I/O,
the provider HTTP client, the tool handlers, DNS lookups and the axum server.
It asks the library for every decision and performs the work.

`tests/` exercises the library on concrete inputs.
