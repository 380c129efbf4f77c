# peer_manager

Peer management for a beacon node, verified with Verus, and the data that a light client keeps.

The library decides which peers to dial, keep, disconnect, ban and unban, when to ping them, and
when to look for more. It holds plain values: connections, clocks and the scoring formula live with the
caller, who tells the manager what happened and carries out the events, timer commands and metric
updates that the manager queues.

- `src/manager.rs`: the state and its value, bans, goodbyes, registration of peers
- `src/connection.rs`: connections, identities, pings, announcements
- `src/discovery.rs`: which discovered peers to dial
- `src/reputation.rs`, `src/gossip.rs`: what follows from changes of scores
- `src/heartbeat.rs`: routine maintenance
- `src/poll.rs`: the steps on the way to the next event
- `src/peerdb.rs`, `src/peer_info.rs`, `src/score.rs`, `src/network.rs`, `src/event.rs`: the data
- `src/limits.rs`: the peer counts that follow from the target
- `src/calls.rs`: the calls that change the manager, as one type
- `src/laws.rs`, `src/pruning.rs`, `src/timing.rs`, `src/validity.rs`: what holds over several
  calls
- `src/light_client.rs`: the data of a light client
- `app/`: the manager in a node, as a stream of events over libp2p and tokio
