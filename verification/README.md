# webtools

Token-efficient web fetch and search for LLM agents. Links become compact
`[N]` markers with the full URLs collected in a reference block, so a page
stays citable without paying for every URL inline.

## Layout

- `src/` — the verified library (Verus). Conversion of HTML to text,
  markdown and structured blocks; reference collection and budgeting;
  windows, outlines and pattern search over a page; charset handling;
  DuckDuckGo page and provider JSON parsing; the SSRF guard's judgements;
  cache, settings and MCP decisions. Every function states its behaviour in
  `requires`/`ensures`, and the library's laws are proof functions.
- `app/` — the `webtools` binary: argument parsing, the network, files, the
  MCP server loop, and the serde forms of the library's types.
- `tests/` — tests of the library.
