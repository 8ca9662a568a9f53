# vacs

The server side of vacs, a voice communication system for VATSIM
controllers: clients log in over a websocket, see which stations are online
and who covers them, and call each other peer to peer over WebRTC.

The crate is a library verified with Verus, and a thin server around it.

## Layout

- `src/` — the verified library.
  - `ids`, `text`, `keyed`, `sets`: identifiers and the string, map and set
    helpers the rest is built on.
  - `facility`: VATSIM facility types and controller information.
  - `coverage/`: flight information regions, stations, positions, profile
    files (direct access pages, tabs, geographic layouts) with their
    validation rules, and the network that decides which position covers
    which station and how coverage changes when positions come and go.
  - `profile`: profiles as clients see them.
  - `clients/`: the client manager — connected clients, online positions and
    stations, and the synchronisation with the VATSIM data feed.
  - `calls/`: the call manager — ringing and active calls, and their cleanup
    when a client leaves.
  - `signaling`, `login`: the decisions behind call signalling and login.
  - `protocol`: station changes and the messages exchanged with clients.
  - `ice`, `webrtc`: ICE configuration and the media state of a peer.
  - `ratelimit`, `metrics`, `release`: rate limit plans, metric labels and
    release bundle names.
- `tests/` — tests of the library on concrete values.
- `app/` — the server: HTTP and websocket routes, file loading, the VATSIM
  data feed, rate limiters and the wire format of messages.

Verus states and proves, for each public function of the library, what it
returns or changes; the laws that span several operations (what an
operation keeps, what a second call undoes) are public proof functions next
to the operations they speak of.
