# mcp-gateway-hub

The core of a hub that exposes the tools of Model Context Protocol servers
over HTTP, verified with Verus.

- `src/` is the verified library:
  - `keyed` — an ordered string-keyed table with unique keys, and its laws;
  - `registry` — connected daemons, their tools, and requests awaiting a
    daemon's answer, with the state machine that handles a daemon's stream;
  - `gateway` — authentication decisions, bearer tokens, and tool scopes;
  - `mcp_client` — which local MCP client serves which tool;
  - `config`, `protocol`, `text`, `json` — configuration, stream messages,
    text helpers, and the calls into `serde_json`.
- `app/` is the program around it: configuration files, process spawning,
  the HTTP routes, JSON web token decoding, and the async waits.
- `tests/` exercise the library on concrete values.
