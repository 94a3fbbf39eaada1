//! The facts a registry of swarms reports about what happened to it.
use vstd::prelude::*;

use crate::peers::downloads_increase;
use crate::primitives::{InfoHash, Peer, PeerAnnouncement};

verus! {

/// Something that happened to a torrent or to one of its peers.
#[derive(Clone, Copy, Debug, PartialEq, Eq, Structural)]
pub enum Event {
    /// A torrent was announced for the first time.
    TorrentAdded { info_hash: InfoHash, announcement: PeerAnnouncement },
    /// A torrent was removed.
    TorrentRemoved { info_hash: InfoHash },
    /// A peer joined the swarm of a torrent.
    PeerAdded { info_hash: InfoHash, peer: Peer },
    /// A peer left the swarm of a torrent.
    PeerRemoved { info_hash: InfoHash, peer: Peer },
    /// A peer announced again.
    PeerUpdated { info_hash: InfoHash, old_peer: Peer, new_peer: Peer },
    /// A known peer announced that it completed the download.
    PeerDownloadCompleted { info_hash: InfoHash, peer: Peer },
}

/// The events of an announcement that replaces `previous` (or adds a peer,
/// when there is none): a new peer is added; a known one is updated, and
/// completes a download when it announces completion for the first time.
pub open spec fn upsert_events(info_hash: InfoHash, previous: Option<Peer>, announce: Peer) -> Seq<
    Event,
> {
    match previous {
        Some(old) => if downloads_increase(previous, announce) {
            seq![
                Event::PeerUpdated { info_hash, old_peer: old, new_peer: announce },
                Event::PeerDownloadCompleted { info_hash, peer: announce },
            ]
        } else {
            seq![Event::PeerUpdated { info_hash, old_peer: old, new_peer: announce }]
        },
        None => seq![Event::PeerAdded { info_hash, peer: announce }],
    }
}

/// The events of removing `removed`, if a peer was removed.
pub open spec fn removal_events(info_hash: InfoHash, removed: Option<Peer>) -> Seq<Event> {
    match removed {
        Some(p) => seq![Event::PeerRemoved { info_hash, peer: p }],
        None => seq![],
    }
}

/// One removal event for each of `removed`, in order.
pub open spec fn removals_events(info_hash: InfoHash, removed: Seq<Peer>) -> Seq<Event> {
    removed.map_values(|p: Peer| Event::PeerRemoved { info_hash, peer: p })
}

} // verus!
