# quelay

Core of a stream relay: clients hand byte streams to a local agent, which carries them
over a lossy, intermittent link to a remote agent. The rules of the relay are verified
with Verus. Ordinary Rust around them reads and writes sockets and computes what is a
floating-point number: the token bucket of the simulated link and of the bandwidth gate,
shares of progress, and the tolerance of the bandwidth tests.

## Layout

- `src/`: the verified library.
  - `spool`, `uplink`, `pump`, `downlink`, `framing`: one stream, from the client's
    socket through the spool onto the link and out to the other client.
  - `scheduler`, `rate`: how the bandwidth is shared among streams.
  - `session_manager`, `runtime`, `callback`, `notice`, `mapping`: the session with the
    remote agent and the control interface of the local one.
  - `transport`, `quic`, `gate`, `linksim`: rules of the transports.
  - `config`, `bandwidth`, `priority`, `session`, `failure`, `error`, `ids`, `digest`,
    `text`: settings, small types and texts.
  - `e2e`, `cic`, `tuner`, `demo`: rules of the test tools and the example client.
  - `relay_laws`, `transfer_laws`, `scheduler_laws`, `session_laws`: what holds of the
    parts together, such as that no outage loses, repeats or reorders a byte.
- `tests/`: the library on concrete values.
- `app/`: the daemon, the test tools and the example client.

## What is trusted

The library calls `uuid`, `sha2`, `rand`, `rcgen` and two character classes of the
standard library through small functions marked `external_body`. Each names the function
it calls and says what is taken from it.
