# torrent_repository

The swarm bookkeeping of a BitTorrent tracker, written in Verus: the peers
of each torrent, the seeder, leecher and download counters derived from
their announcements, the registry of all torrents, and the metrics that the
registry's events are counted in. Every function in `src/` carries a
contract that Verus proves.

- `src/` is the verified library. `primitives` holds the plain values
  (identifiers, addresses, timestamps, counters); `peers` the peer set of one
  swarm and its counters; `coordinator` and `swarm` the swarms that record
  events; `registry` all swarms by info-hash; `entry` and `repository` the
  torrent repository keyed by peer id, with its own metrics in
  `repository::statistics`; `statistics` the metrics and how events update
  them; `properties` the laws that relate several operations.
  `skip_map` holds the trusted specifications of the ordered index.
- `tests/` exercises the library on concrete values.
- `app/` is the unverified shell: conversions from wire types, the timed
  activity and inactivity jobs, the event listener and logging.
