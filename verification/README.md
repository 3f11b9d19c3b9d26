# sqns

Resolution of sQUIC public keys to network endpoints, with its logic verified by
[Verus](https://github.com/verus-lang/verus).

An sQUIC service is identified by an Ed25519 public key. sqns answers where that
key is right now: a record lists endpoints and is signed by the key it
describes, or, to retire the key, by the identity that issued it. A server can
withhold an answer but never forge one.

## Layout

- `src/` is the library. Functions state what they return or change, and Verus
  proves it; of the clock and of a fresh seed there is nothing to state. Nothing
  in it touches the network, the file system or the
  environment.
- `tests/` runs the library on concrete values, whole exchanges between clients
  and servers in memory included.
- `app/` is the two programs around the library: `sqns`, the command line
  client, and `sqnsd`, the server. It does the I/O and asks the library for
  every decision.

## The library

| Modules | Contents |
|---|---|
| `text`, `ip`, `codec`, `order`, `keymap`, `error` | characters, numbers, addresses, bytes, a stable sort, a sorted map, failures |
| `key`, `endpoint`, `endpoint_text`, `delegation`, `record` | keys and signatures, where a key can be reached, who issued it, what is signed |
| `protocol`, `addr`, `snapshot` | the wire, server addresses, the file a server keeps |
| `cache`, `select`, `resolver`, `walk`, `tally`, `publisher` | the client |
| `store`, `server`, `upstream`, `replication` | the server |
| `dial`, `link`, `config`, `client_config`, `cli`, `report`, `shown` | what the two programs decide and print |
| `record_laws`, `store_laws`, `resolver_laws`, `walk_laws`, `ip_laws`, `journey` | what holds across functions |

Each type has a view that says what it stands for: a key is its bytes, a record
its fields, a store the maps it holds. Contracts speak of the views.

Functions that depend on the time come in pairs: `put_at(record, now)` has an
exact contract, and `put(record)` reads the clock and calls it.

Networking alternates with decisions, so the decisions are small state machines:
`ServiceWalk` follows rotations, `UpstreamQuery` asks upstream servers in turn,
`Pull` catches up with a peer, `Publication` publishes again past a stale serial,
`LinkRequest` re-dials a stale connection. The
program performs what they ask for and hands back what came of it.

## What is trusted

Ed25519, base58, hexadecimal, UTF-8 checking, quoting, random draws and the clock are
calls into other crates or the standard library. Each stands behind one small
function whose contract says what is taken on trust; their names in contracts
are `ed25519_public`, `ed25519_signature`, `ed25519_verifies`, `is_curve_point`,
`base58`, `unbase58`, `hex_error_text`, `utf8_error_text` and `quoted`.
