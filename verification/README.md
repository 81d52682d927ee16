# ongrow_server

The logic of an OnGROW rendezvous server, written and verified in Verus.

- `src/` is the library. `identity` and `attestation` hold custom device ids, the proofs with which
  a device asks for one, and the attestations that the server issues; `wire` is the byte layout of
  what is signed. `args` holds the settings, `net` the addresses, `keys` the server's key pair,
  `database` the statements and replies of the database of peers. `clock`, `update` and `text` are
  what these need. Functions named `law_...` are proofs of what holds across functions.
- `crypto` wraps `sodiumoxide`, `sha2` and `base64`. Its contracts, those of the wrappers in
  `args` and `database`, and the specifications for `std` in `text` and `clock` are trusted; each
  says what it claims.
- `app/` is what the library cannot hold: sockets, files, the process's environment, requests over
  the network and the database itself.
- `tests/` runs the library with the real crates.
