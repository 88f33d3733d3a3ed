# union_core

Governance of a federation of university clubs and their tournaments, written in Rust and
verified with Verus: the state of the federation and every command to it, the signed journal and
the replicated log that keep it, the credentials and grants that let players in, and the messages
that nodes exchange.

- `src/` is the verified library. `src/model/` says what each command means, over mathematical
  values; the other modules hold the code that is proved to do it. `src/laws/` proves what holds
  of all commands and all histories. `src/outside.rs` lists the functions of other crates that the
  proofs rely on, each with what is believed of it.
- `tests/` runs the library with the real crates.
- `app/` is the terminal `unionctl` with the network, files and JSON around the library.

Consensus among the voters withstands voters that stop, not voters that lie. One league stands
for one match.
