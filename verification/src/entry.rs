//! The entries the torrent repository keeps for each torrent: the peer
//! lists, the swarms and the tracked torrents built on them.
pub mod peer_list;
pub mod swarm;
pub mod single;
pub mod torrent;
