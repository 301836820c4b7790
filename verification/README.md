# void_connect

A node of a network without servers: people find each other on the local network or
through bootstrap nodes, chat in public and in private, share files in chunks, and keep
track of how far other nodes can be trusted.

`src/` is the library. Every function in it is verified with Verus: it has a contract,
and it does not panic on inputs that meet its `requires`.

- `node`: names, addresses, messages, names in the `.void` zone, manifests.
- `crypto`: keys, signatures, end-to-end encryption, the store of the master secret, the
  identity of a node, the safety number.
- `discovery`: the list of known nodes, bootstrap, relays, mDNS, broadcasts, STUN.
- `network`: frames, limits on connections and messages, links, routing.
- `chat`: the public chat with its elected relay, and private messages.
- `storage`: chunks, who has them, their exchange, downloads.
- `reputation`: what counts for and against a node, complaints, exchange of scores.
- `db`: the records of files and messages.
- `util`: text, bytes, hexadecimal, tables, frames.

Each contract speaks of mathematical models: a table of nodes is a `Map`, a message is a
`Seq` of bytes or characters. What holds across several functions is stated by the public
proof functions whose names start with `law_`.

The functions marked `external_body` call outside crates and are believed: the
cryptographic primitives in `crypto/primitives.rs`, hexadecimal in `util/hex.rs`, the
clock in `util/clock.rs`, and two functions of the standard library in `util/text.rs`.
There too stand the two items of `assume_specification`, for `String::push` and
`char::is_whitespace`. Each says what is believed of it. Where the result of such a call takes pages to state it
has a name, such as `sha256_of`, and contracts speak of that name.

`app/` is the program round the library: sockets, files, the database, JSON, and the
floating-point scores. `tests/` runs the library.
