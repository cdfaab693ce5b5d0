# tokenlens

Context-window optimizer for coding agents: it compresses command output, file reads and
web fetches before they reach the agent, rewrites noisy shell commands through a hook
protocol, and tracks the tokens saved.

- `src/` is the verified library. Its contracts state what each function returns: the
  structural pass and rule-driven filtering (`filter`), the line diff (`diff`), the hook
  decisions (`hook`, `uhp`, `rewrite`), the per-tool commands (`cmds`), cache keys and
  prompts for semantic compression (`semantic`), prices (`pricing`), event batching
  (`recorder`), calendar arithmetic (`budget`) and MCP tool dispatch (`mcp`). Calls into
  `regex`, `sha2` and `chrono` stand behind small trusted wrappers.
- `app/` is the command-line program around it: argument parsing, files, the SQLite
  tracker, HTTP, the MCP stdio server, and the floating-point money and percentage
  arithmetic.
- `tests/` runs the library on concrete inputs.
