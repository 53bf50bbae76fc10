# thunder_net

The peer-to-peer side of a Thunder node, verified with Verus: an address manager that keeps
track of known peers within fixed limits, the request and response messages that peers
exchange, and a trial that shows that blocks reach the nodes that ask for them.

- `src/` is the library. Every function states what it does in `requires` and `ensures`;
  functions named `law_*` state what holds across calls.
- `tests/` runs the library on concrete values.
- `app/` adds what lies outside the proofs: the serde and borsh encodings of the library's
  types, errors as `std` errors, and the asynchronous loop that runs the trial on a network.

What is taken on trust is small: the system clock and `Duration::as_secs` (`src/clock.rs`),
and the copy of a `HashSet` (`src/message.rs`).
