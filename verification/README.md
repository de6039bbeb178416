# portunus

The data plane of a TCP and UDP port forwarder, and the messages that its
control plane exchanges. What the forwarder decides is written in Verus, with a
contract on every public function; what it does with sockets, tasks and timers
is ordinary Rust around that.

## `src/`: the verified library

| module | what it decides |
| --- | --- |
| `types`, `addr`, `addr_text`, `bytes`, `text` | ports, addresses, and how they are written down |
| `stats` | the counters of a rule, per port and in total |
| `clock` | readings of the monotonic clock |
| `rate_limit` | token buckets, bandwidth limits, refusals, paced copying |
| `quota` | byte budgets and copying within them |
| `proxy_protocol` | PROXY protocol headers, versions 1 and 2 |
| `resolver` | the name cache: freshness, grace, single flight, eviction |
| `sni` | routing by server name, and its listener |
| `failover`, `failover_path`, `probe` | rules with several targets |
| `udp` | flows: registry, listener, replies, sweeps, supervision |
| `proto` | protocols and the wire format of the control messages |

State is changed through `&mut self`, and every function that changes something
says how the new value follows from the old one. Where the outside decides (the
time, a socket, a name server), the decision comes in as an argument, and the
function says what follows for each value of it. Functions named `law_*` state
what holds across several functions.

The calls into other crates (`dashmap`, `tokio`, `libc`, `prost`) stand behind
small functions marked `external_body`; their contracts are what is believed
without proof.

## `app/`: sockets, tasks and timers

One module per kind of task. Each asks the library what to do next, does it, and
reports what came of it. The locks are taken in the order rule, counters, quotas,
limits, sockets of flows.

## `tests/`

Tests of the library on concrete values.
