# Ronin

Ronin is a coding agent for the terminal. It talks to models through a hosted service, runs their
tool calls in a workspace on the user's machine, and keeps its conversations in local files.

This crate is the verified core of the program. What the program decides stands in `src/`
as executable Rust whose behaviour is stated in contracts and proved with Verus. What touches the
outside world, files, the network, the terminal and the clock, stands in `app/`, which asks the core
what to do and hands it plain values.

## Layout

| Module | What it holds |
| --- | --- |
| `loop_runner`, `run` | the loop of completions and tool calls, and the turns of a session |
| `tool`, `tools`, `schema`, `interaction` | the tools of a workspace and questions to the user |
| `paths`, `patterns`, `permissions` | where tools may go, what is secret, and what may run |
| `config`, `context`, `storage` | settings, project instructions, sessions and credentials |
| `client`, `auth`, `update` | the service, signing in, and updates |
| `cli`, `tui`, `composer`, `picker`, `questions` | commands, keys and what they do |
| `display`, `panels`, `layout` | what is shown |
| `types`, `json`, `text`, `order`, `digest`, `keys` | what the others are built of |

Proof functions that are public state laws of the program: that a denied command is never allowed
and a refused call is answered with the refusal, that a spent budget stops the loop, that a write
stays in the workspace, that what is installed has the released checksum, and others. Each stands in
the module it is about.

## What is trusted

Calls into other crates stand behind small functions whose contracts are believed, not proved. Each
carries a doc comment that names the call and says what is claimed of it. Where the result takes
pages to state, it has a name, and the contracts above it speak of that name.

How a path is taken apart depends on the platform, so `std::path` does that. What is decided of a path
is decided of its parts. What the parts are is stated for Windows and for the other platforms; paths
that mean the same on both are called portable.

Floating-point numbers stay outside: a share of a context window and a limit on credits reach the
core as the bits of the number together with what was decided of it.
