# vaak_core

The rules of the Vaak desktop app, as a library whose functions carry
contracts proved by Verus: the team launcher (which agents run, which to
restart, what a launch script says), the team roster and Assembly Line, the
message board and its sections, the copper economy (ledger rows, escrow,
decay, disputes, bounties, session snapshots and carry-over), Oxford debates,
accessibility trees and their spoken announcements, and the voice-output tool
server's request routing.

## Layout

- `src/` is the verified library. Its executable functions carry
  `requires`/`ensures` contracts over spec functions and views; the two that
  only read the system clock (`clock_secs`, `clock_millis`) can return any
  value and promise nothing more, and the mapping from a clock reading to
  what they return is its own verified function. The `law_*` proof
  functions state properties that span several functions (ledger
  conservation, last record wins, a tick's rows replaying to the tick's
  balances, sections listed in order, timestamp round trips, and others). The few calls into other crates (`hostname`, `hound`,
  `base64`, and std's clock and Unicode tables) sit behind small trusted
  wrappers whose doc comments say what their contracts claim.
- `tests/` runs the library on concrete values.
- `app/` is the unverified shell around it: reading and writing the project's
  files, file locks, processes and terminals, the clock, the queue database,
  and the tool server's stdin/stdout loop. It holds serde copies of the
  library's records, converted both ways, and the accessibility tree walk,
  which reads each element through a platform reader and leaves building
  the element, the depth and size limits and the pruning to the library.

The agent program the launcher starts, and its npm package, are named by the
environment variables `VAAK_AGENT_PROGRAM` and `VAAK_AGENT_PACKAGE`.
