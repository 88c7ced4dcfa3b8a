# insight_map_loader

The host side of a body-tracking fleet: pucks worn on the body stream poses over
UDP, and the host places them in one space, sends them on, and keeps the maps
that they track against in step.

## Layout

- `src/` is the library. Its functions are verified against their contracts, all
  but the wrappers of `src/json.rs`, whose contracts are trusted.
  - `mpt1`: the datagram and the roles; `ingest`: what was received, and how old
    it is; `monitor`, `aggregate`, `drift`, `bridge`, `transform`: what becomes
    of a pose on its way through.
  - `watchdog`: which bridges between maps still hold, and when to solve anew.
  - `config`, `json`: the roster and the documents it is kept in.
  - `fleet`: what is asked of a puck, and how its answers are read.
  - `jobs`, `service`: the long operations on the fleet, one at a time, each with
    its steps: sharing a map, creating one, assigning a role.
  - `slam`: the edition that aligns the pucks by localizing them in one map.
  - `panel`, `console`: what the window and the command line decide.
  - `ieee`, `text`, `book`: numbers by their bits, text, and maps keyed by text.
- `app/` is the program: sockets, files, `adb`, threads, the window, and the
  floating-point arithmetic. It performs what the library asks for and hands back
  what came of it.
- `tests/` runs the library on concrete values.

Operations that alternate outside work with decisions are state machines: the
library says what to do next, and is told what came of it.

The wrappers of `src/json.rs` are all that is trusted: the calls into `serde_json`,
each with a contract that states what the call does.
