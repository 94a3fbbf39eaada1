//! Swarm bookkeeping for a BitTorrent tracker: the peers of each torrent, the
//! seeder/leecher/download counters derived from their announcements, and the
//! registry of all torrents, with contracts proved by Verus.
pub mod primitives;
pub mod order;
pub mod peers;
pub mod event;
pub mod coordinator;
pub mod swarm;
pub mod skip_map;
pub mod table;
pub mod registry;
pub mod sums;
pub mod entry;
pub mod repository;
pub mod statistics;
pub mod container;
pub mod properties;
