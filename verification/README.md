# aft

The decisions of a set of file, search and shell tools for coding agents, verified with Verus.

- `src/` is the verified library. Every command is a function from a request and from what was
  found on disk, in a process or in a language server, to what is to be done or answered. Outside
  crates are called behind small trusted functions: `ast-grep-core` and `tree-sitter` for syntax,
  `regex` and `ignore` for patterns, `serde_json` for quoting, `getrandom` for names.
- `app/` performs what the library decides: it reads and writes files, runs processes, walks
  directories and talks to language servers.
- `tests/` runs the library on concrete values.

| Module | What it decides |
| --- | --- |
| `callgraph` | who calls whom across files, the ways from entry points, impact, data flow |
| `calls`, `syntax`, `structural` | calls in a syntax tree, syntax trees, structural patterns |
| `backup`, `checkpoint` | undo stacks and named checkpoints |
| `bash_background` | the life of background tasks and their output |
| `bash_rewrite`, `bash_permissions` | reading shell commands, permissions that they need |
| `commands` | the commands themselves, and whether they write or only show a change |
| `text`, `paths`, `json`, `lang`, `symbols`, `models`, `order`, `groups`, `counts`, `edit`, `diff` | the values that the rest speaks of |
