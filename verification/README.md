# hk_core

`hk_core` finds the extensions of coding agents on a machine (skills, MCP
servers, hooks, plugins, command line tools, subagents and commands), keeps a
table of them, and decides what has to happen when one of them is installed,
bound to a pack, audited, shown, updated or removed. Every function is verified
with Verus against a contract over mathematical values.

## How it is built

The library does no input or output. What the file system said is a `FileTree`,
what agents report is a list of `Agent`s, what other programs said is a
`Machine`, and the time comes in as a `Timestamp`. Paths of files are written with
`/`; commands are read as the platform of the `FileTree` reads them. Where the
library needs something done (a file removed, a server written to a configuration
file, an audit), it takes a closure; its contract says what is handed to the closure
and what follows from each reply. The closure is asked to be ready for those values
alone, so that it can be handed no others.

| Module | What it holds |
| --- | --- |
| `text`, `split`, `path`, `lists` | strings, paths and lists, with exact contracts |
| `models`, `agents`, `files` | the data, each type with its mathematical value |
| `outside` | the calls into other crates, with what is believed of them |
| `ids`, `pack`, `frontmatter`, `sources` | identifiers, packs, the head of a skill, where things come from |
| `permissions`, `plugins` | what an extension may do |
| `skills`, `managed`, `scanner`, `scans` | scanning one agent |
| `binaries`, `cli`, `inventory` | command line tools, and the scan of everything |
| `configs`, `discovery` | configuration files, and finding projects |
| `store` | the table of extensions, and how a scan is merged into it |
| `service` | updates, binding, audits, installation, content, removal |
| `api` | errors, routes and pages of the server |

Public proof functions state the laws of the library: that distinct scopes and
names give distinct keys to hash, that what was scanned is found again, that
binding a pack twice is binding it once, that a removal takes exactly the copies,
that an installation ends up recorded, and so on.

`app/` is ordinary Rust around the library: it records the file system, asks
other programs, carries out what was decided, and serves it over HTTP. `tests/`
runs the library on concrete values.
