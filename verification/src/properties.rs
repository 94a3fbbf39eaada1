//! Properties of the library that relate several operations or hold of
//! every state, proved over the models the operations are specified by.
use vstd::prelude::*;

use crate::coordinator::{metadata_after_announcement, peers_after_announcement, Coordinator};
use crate::peers::{
    active_part, count_leechers, count_seeders, downloads_increase, excluding_key, excluding_key_in_network,
    is_inactive, same_network,
    keyed_by_address, lemma_counts_sum, limited, lookup,
};
use crate::order::{
    id20_key_lt, id20_key_order, lemma_id20_key_order_total, lemma_peer_key_order_total, lemma_sorted_listing_exists,
    peer_key_order, sorted_listing,
};
use crate::peers::{inactive_keys, listed_peers};
use crate::primitives::{
    be_u32_at, be_u64_at, id20_key_of, AnnounceEvent, DurationSinceUnixEpoch, Id20Key, InfoHash, NumberOfDownloads, Pagination, Peer, PeerAddress,
    PeerKey, SwarmMetadata,
};
use crate::repository::{entry_downloaded_of, TorrentRepository};
use crate::registry::{
    active_of, complete_of, downloaded_of, imported, inactive_of, incomplete_of, is_active_at, paged, peers_of, Registry,
};
use crate::sums::{
    count_by, lemma_count_by_le_len, lemma_sum_by_add, lemma_sum_by_agree, lemma_sum_by_concat,
    lemma_sum_by_permutation, sum_by,
};
use crate::event::Event;
use crate::primitives::PeerRole;
use crate::statistics::handler::{counters_after_event, gauges_after_event, peer_labels};
use crate::statistics::metrics::{
    counter_value, gauge_value, series_key, LabelSet, MetricName, Sample, SeriesKey,
};

verus! {

/// The seeders and the leechers of a swarm are all of its peers.
pub proof fn lemma_counters_add_up(c: Coordinator)
    requires
        c.wf(),
    ensures
        c.meta().complete + c.meta().incomplete == c.peers_map().len(),
{
    c.lemma_wf();
    lemma_counts_sum(c.peers_map());
}

/// After an announcement that does not stop, the peer is listed under its
/// address with that announcement; after one that stops, nothing is listed
/// at its address. Every other address keeps its peer.
pub proof fn lemma_announcement_listing(peers: Map<PeerKey, Peer>, announce: Peer)
    ensures
        announce.event != AnnounceEvent::Stopped ==> peers_after_announcement(peers, announce).contains_key(
            announce.key_spec(),
        ) && peers_after_announcement(peers, announce)[announce.key_spec()] == announce,
        announce.event == AnnounceEvent::Stopped ==> !peers_after_announcement(peers, announce).contains_key(
            announce.key_spec(),
        ),
        forall|k: PeerKey|
            k != announce.key_spec() ==> (#[trigger] peers_after_announcement(peers, announce).contains_key(k)
                <==> peers.contains_key(k)) && (peers.contains_key(k) ==> peers_after_announcement(
                peers,
                announce,
            )[k] == peers[k]),
{
}

/// The download count never goes down when an announcement is handled, and
/// goes up by one exactly when a listed peer announces completion for the
/// first time; a peer that was not listed never adds a download.
pub proof fn lemma_downloads_monotone(meta: SwarmMetadata, peers: Map<PeerKey, Peer>, announce: Peer)
    requires
        downloads_increase(lookup(peers, announce.key_spec()), announce) ==> meta.downloaded < u32::MAX,
    ensures
        metadata_after_announcement(meta, peers, announce).downloaded == if announce.event
            != AnnounceEvent::Stopped && peers.contains_key(announce.key_spec())
            && announce.is_completed_spec() && !peers[announce.key_spec()].is_completed_spec() {
            meta.downloaded + 1
        } else {
            meta.downloaded as int
        },
        metadata_after_announcement(meta, peers, announce).downloaded >= meta.downloaded,
        !peers.contains_key(announce.key_spec()) ==> metadata_after_announcement(
            meta,
            peers,
            announce,
        ).downloaded == meta.downloaded,
{
}

/// Handling the same announcement a second time changes neither the peers
/// nor the counters: a repeated completion adds no second download.
pub proof fn lemma_repeated_announcement(meta: SwarmMetadata, peers: Map<PeerKey, Peer>, announce: Peer)
    ensures
        peers_after_announcement(peers_after_announcement(peers, announce), announce)
            == peers_after_announcement(peers, announce),
        metadata_after_announcement(
            metadata_after_announcement(meta, peers, announce),
            peers_after_announcement(peers, announce),
            announce,
        ) == metadata_after_announcement(meta, peers, announce),
{
    let once = peers_after_announcement(peers, announce);
    assert(peers_after_announcement(once, announce) =~= once);
}

/// Removing the inactive peers keeps exactly the peers that announced after
/// the cutoff, unchanged; removing them again changes nothing.
pub proof fn lemma_active_part<K>(m: Map<K, Peer>, cutoff: DurationSinceUnixEpoch)
    ensures
        forall|k: K| #[trigger]
            active_part(m, cutoff).contains_key(k) <==> m.contains_key(k) && !is_inactive(m[k], cutoff),
        forall|k: K| #[trigger] active_part(m, cutoff).contains_key(k) ==> active_part(m, cutoff)[k] == m[k],
        active_part(active_part(m, cutoff), cutoff) == active_part(m, cutoff),
{
    let a = active_part(m, cutoff);
    assert(active_part(a, cutoff) =~= a);
}

/// The peers handed to a client never include one announcing from the
/// client's address, and there are at most `limit` of them.
pub proof fn lemma_handed_out_peers(listing: Seq<Peer>, client: PeerKey, limit: usize)
    ensures
        limited(excluding_key(listing, client), Some(limit)).len() <= limit,
        forall|i: int|
            0 <= i < limited(excluding_key(listing, client), Some(limit)).len() ==> (#[trigger] limited(
                excluding_key(listing, client),
                Some(limit),
            )[i]).key_spec() != client && listing.contains(
                limited(excluding_key(listing, client), Some(limit))[i],
            ),
{
    broadcast use vstd::seq_lib::group_filter_ensures;

    let pred = |p: Peer| p.key_spec() != client;
    let f = excluding_key(listing, client);
    assert forall|i: int| 0 <= i < limited(f, Some(limit)).len() implies (#[trigger] limited(
        f,
        Some(limit),
    )[i]).key_spec() != client && listing.contains(limited(f, Some(limit))[i]) by {
        assert(limited(f, Some(limit))[i] == f[i]);
        listing.lemma_filter_pred(pred, i);
        assert(f.contains(f[i]));
        listing.lemma_filter_contains_rev(pred, f[i]);
    }
}

/// The peers a swarm coordinator hands to a client are of the client's
/// network: never a clearnet peer to an I2P client nor an I2P peer to a
/// clearnet client, never the client itself, at most `limit`, and all from
/// the listing.
pub proof fn lemma_handed_out_peers_share_network(listing: Seq<Peer>, client: PeerKey, limit: usize)
    ensures
        limited(excluding_key_in_network(listing, client), Some(limit)).len() <= limit,
        forall|i: int|
            0 <= i < limited(excluding_key_in_network(listing, client), Some(limit)).len() ==> {
                let p = #[trigger] limited(excluding_key_in_network(listing, client), Some(limit))[i];
                &&& p.key_spec() != client
                &&& (p.peer_addr.is_i2p_spec() <==> client.0 == 2)
                &&& listing.contains(p)
            },
{
    broadcast use vstd::seq_lib::group_filter_ensures;

    let pred = |p: Peer| p.key_spec() != client && same_network(p.key_spec(), client);
    let f = excluding_key_in_network(listing, client);
    assert forall|i: int| 0 <= i < limited(f, Some(limit)).len() implies {
        let p = #[trigger] limited(f, Some(limit))[i];
        &&& p.key_spec() != client
        &&& (p.peer_addr.is_i2p_spec() <==> client.0 == 2)
        &&& listing.contains(p)
    } by {
        assert(limited(f, Some(limit))[i] == f[i]);
        listing.lemma_filter_pred(pred, i);
        assert(f.contains(f[i]));
        listing.lemma_filter_contains_rev(pred, f[i]);
        f[i].peer_addr.lemma_i2p_key();
    }
}

/// A peer that announces without stopping is in the list of the peers of
/// its swarm handed out without a limit.
pub proof fn lemma_announced_peer_is_handed_out(peers: Map<PeerKey, Peer>, announce: Peer)
    requires
        peers.dom().finite(),
        announce.event != AnnounceEvent::Stopped,
    ensures
        listed_peers(peers_after_announcement(peers, announce)).contains(announce),
{
    let after = peers_after_announcement(peers, announce);
    lemma_peer_key_order_total();
    lemma_sorted_listing_exists(after.dom(), peer_key_order());
    let ks = sorted_listing(after.dom(), peer_key_order());
    assert(ks.to_set().contains(announce.key_spec()));
    let i = choose|i: int| 0 <= i < ks.len() && ks[i] == announce.key_spec();
    assert(listed_peers(after)[i] == announce);
}

/// After a peer announces for a torrent without stopping, the peers of that
/// torrent handed out without a limit include it: the peers a registry
/// gives back for a torrent after an announcement are those of
/// `peers_after_announcement` over the peers it had.
pub proof fn lemma_registry_lists_announced_peer(registry: &Registry, info_hash: InfoHash, peer: Peer)
    requires
        registry.wf(),
        peer.event != AnnounceEvent::Stopped,
    ensures
        listed_peers(peers_after_announcement(registry.base_peers(info_hash), peer)).contains(peer),
{
    registry.lemma_wf();
    if registry.swarms_map().contains_key(info_hash.key_spec()) {
        registry.swarms_map()[info_hash.key_spec()].lemma_wf();
    }
    lemma_announced_peer_is_handed_out(registry.base_peers(info_hash), peer);
}

/// Over all swarms of a registry, the seeders and the leechers are all the
/// peers.
pub proof fn lemma_registry_seeders_and_leechers(registry: &Registry)
    requires
        registry.wf(),
    ensures
        sum_by(registry.sorted_keys_spec(), registry.swarms_map(), complete_of()) + sum_by(
            registry.sorted_keys_spec(),
            registry.swarms_map(),
            incomplete_of(),
        ) == registry.peer_total(),
{
    let keys = registry.sorted_keys_spec();
    let m = registry.swarms_map();
    registry.lemma_wf();
    lemma_id20_key_order_total();
    lemma_sorted_listing_exists(m.dom(), id20_key_order());
    assert forall|i: int| 0 <= i < keys.len() implies #[trigger] (peers_of())(m[keys[i]]) == (complete_of())(
        m[keys[i]],
    ) + (incomplete_of())(m[keys[i]]) by {
        assert(keys.to_set().contains(keys[i]));
        lemma_counters_add_up(m[keys[i]]);
    }
    lemma_sum_by_add(keys, m, complete_of(), incomplete_of(), peers_of());
}

/// At any cutoff, the active and the inactive peers of a registry are all
/// its peers, and the active and inactive torrents are all its torrents.
pub proof fn lemma_registry_activity_split(registry: &Registry, cutoff: DurationSinceUnixEpoch)
    requires
        registry.wf(),
    ensures
        sum_by(registry.sorted_keys_spec(), registry.swarms_map(), active_of(cutoff)) + sum_by(
            registry.sorted_keys_spec(),
            registry.swarms_map(),
            inactive_of(cutoff),
        ) == registry.peer_total(),
        count_by(registry.sorted_keys_spec(), registry.swarms_map(), is_active_at(cutoff))
            <= registry.swarms_map().len(),
{
    let keys = registry.sorted_keys_spec();
    let m = registry.swarms_map();
    registry.lemma_wf();
    lemma_id20_key_order_total();
    lemma_sorted_listing_exists(m.dom(), id20_key_order());
    assert forall|i: int| 0 <= i < keys.len() implies #[trigger] (peers_of())(m[keys[i]]) == (active_of(
        cutoff,
    ))(m[keys[i]]) + (inactive_of(cutoff))(m[keys[i]]) by {
        assert(keys.to_set().contains(keys[i]));
        m[keys[i]].lemma_wf();
        vstd::set_lib::lemma_len_subset(
            inactive_keys(m[keys[i]].peers_map(), cutoff),
            m[keys[i]].peers_map().dom(),
        );
    }
    lemma_sum_by_add(keys, m, active_of(cutoff), inactive_of(cutoff), peers_of());
    lemma_count_by_le_len(keys, m, is_active_at(cutoff));
}

/// Consecutive pages put together are the page that spans both.
pub proof fn lemma_consecutive_pages<T>(s: Seq<T>, offset: u32, first: u32, second: u32)
    requires
        offset + first <= u32::MAX,
        first + second <= u32::MAX,
    ensures
        paged(s, Some(Pagination { offset, limit: first })) + paged(
            s,
            Some(Pagination { offset: (offset + first) as u32, limit: second }),
        ) == paged(s, Some(Pagination { offset, limit: (first + second) as u32 })),
{
    let a = paged(s, Some(Pagination { offset, limit: first }));
    let b = paged(s, Some(Pagination { offset: (offset + first) as u32, limit: second }));
    let c = paged(s, Some(Pagination { offset, limit: (first + second) as u32 }));
    assert(a + b =~= c);
}

/// A page is the part of the listing from its offset, of at most its limit
/// elements; without a page the whole listing is given.
pub proof fn lemma_page_is_subrange<T>(s: Seq<T>, pagination: Option<Pagination>)
    ensures
        pagination is None ==> paged(s, pagination) == s,
        pagination matches Some(p) ==> {
            let start = if p.offset < s.len() {
                p.offset as int
            } else {
                s.len() as int
            };
            let end = if start + p.limit < s.len() {
                start + p.limit
            } else {
                s.len() as int
            };
            paged(s, pagination) == s.subrange(start, end)
        },
{
    if let Some(p) = pagination {
        let start = if p.offset < s.len() {
            p.offset as int
        } else {
            s.len() as int
        };
        let end = if start + p.limit < s.len() {
            start + p.limit
        } else {
            s.len() as int
        };
        assert(paged(s, pagination) =~= s.subrange(start, end));
    }
}

/// Importing the same persisted torrents a second time adds nothing.
pub proof fn lemma_import_twice(present: Set<Id20Key>, entries: Seq<(InfoHash, NumberOfDownloads)>)
    ensures
        imported(present + imported(present, entries).dom(), entries) == Map::<
            Id20Key,
            (InfoHash, NumberOfDownloads),
        >::empty(),
{
    lemma_import_covers(present, entries);
    lemma_import_none(present + imported(present, entries).dom(), entries);
}

/// After an import, every torrent of the entries is present.
proof fn lemma_import_covers(present: Set<Id20Key>, entries: Seq<(InfoHash, NumberOfDownloads)>)
    ensures
        forall|i: int|
            0 <= i < entries.len() ==> (present + imported(present, entries).dom()).contains(
                #[trigger] entries[i].0.key_spec(),
            ),
    decreases entries.len(),
{
    if entries.len() > 0 {
        let tail = entries.drop_first();
        lemma_import_covers(present, tail);
        assert forall|i: int| 0 <= i < entries.len() implies (present + imported(
            present,
            entries,
        ).dom()).contains(#[trigger] entries[i].0.key_spec()) by {
            if i > 0 {
                assert(tail[i - 1] == entries[i]);
                assert((present + imported(present, tail).dom()).contains(tail[i - 1].0.key_spec()));
            }
        }
    }
}

/// Importing into a registry that holds every torrent of the entries adds
/// nothing.
proof fn lemma_import_none(present: Set<Id20Key>, entries: Seq<(InfoHash, NumberOfDownloads)>)
    requires
        forall|i: int| 0 <= i < entries.len() ==> present.contains(#[trigger] entries[i].0.key_spec()),
    ensures
        imported(present, entries) == Map::<Id20Key, (InfoHash, NumberOfDownloads)>::empty(),
    decreases entries.len(),
{
    if entries.len() > 0 {
        let tail = entries.drop_first();
        assert forall|i: int| 0 <= i < tail.len() implies present.contains(#[trigger] tail[i].0.key_spec()) by {
            assert(tail[i] == entries[i + 1]);
        }
        lemma_import_none(present, tail);
        assert(present.contains(entries[0].0.key_spec()));
    }
}

/// The sum of the download counts of persisted entries.
pub open spec fn downloads_total(entries: Seq<(InfoHash, NumberOfDownloads)>) -> nat
    decreases entries.len(),
{
    if entries.len() == 0 {
        0
    } else {
        downloads_total(entries.drop_last()) + entries.last().1 as nat
    }
}

/// The keys of the torrents of persisted entries, in their order.
pub open spec fn entry_keys(entries: Seq<(InfoHash, NumberOfDownloads)>) -> Seq<Id20Key> {
    entries.map_values(|e: (InfoHash, NumberOfDownloads)| e.0.key_spec())
}

/// Persisted entries of new torrents, each listed once, are all imported as
/// they are listed.
proof fn lemma_import_all_new(present: Set<Id20Key>, entries: Seq<(InfoHash, NumberOfDownloads)>)
    requires
        forall|i: int| 0 <= i < entries.len() ==> !present.contains(#[trigger] entries[i].0.key_spec()),
        forall|i: int, j: int|
            0 <= i < j < entries.len() ==> #[trigger] entries[i].0.key_spec() != #[trigger] entries[j].0.key_spec(),
    ensures
        forall|i: int|
            0 <= i < entries.len() ==> imported(present, entries).contains_key(#[trigger] entries[i].0.key_spec())
                && imported(present, entries)[entries[i].0.key_spec()] == entries[i],
        imported(present, entries).dom() == entry_keys(entries).to_set(),
    decreases entries.len(),
{
    if entries.len() > 0 {
        let tail = entries.drop_first();
        assert forall|i: int| 0 <= i < tail.len() implies !present.contains(#[trigger] tail[i].0.key_spec()) by {
            assert(tail[i] == entries[i + 1]);
        }
        assert forall|i: int, j: int| 0 <= i < j < tail.len() implies #[trigger] tail[i].0.key_spec()
            != #[trigger] tail[j].0.key_spec() by {
            assert(tail[i] == entries[i + 1]);
            assert(tail[j] == entries[j + 1]);
        }
        lemma_import_all_new(present, tail);
        let first = entries[0];
        assert(!imported(present, tail).contains_key(first.0.key_spec())) by {
            if imported(present, tail).contains_key(first.0.key_spec()) {
                assert(entry_keys(tail).to_set().contains(first.0.key_spec()));
                let i = choose|i: int| 0 <= i < entry_keys(tail).len() && entry_keys(tail)[i] == first.0.key_spec();
                assert(tail[i] == entries[i + 1]);
            }
        }
        assert(!present.contains(first.0.key_spec()));
        assert forall|i: int| 0 <= i < entries.len() implies imported(present, entries).contains_key(
            #[trigger] entries[i].0.key_spec(),
        ) && imported(present, entries)[entries[i].0.key_spec()] == entries[i] by {
            if i > 0 {
                assert(tail[i - 1] == entries[i]);
                assert(entries[i].0.key_spec() != first.0.key_spec());
            }
        }
        assert(imported(present, entries).dom() =~= entry_keys(entries).to_set()) by {
            assert(entry_keys(entries) =~= seq![first.0.key_spec()] + entry_keys(tail));
            assert forall|k: Id20Key| #[trigger] entry_keys(tail).to_set().contains(k) implies entry_keys(
                entries,
            ).to_set().contains(k) by {
                let i = choose|i: int| 0 <= i < entry_keys(tail).len() && entry_keys(tail)[i] == k;
                assert(entry_keys(entries)[i + 1] == k);
            }
            assert(entry_keys(entries)[0] == first.0.key_spec());
            assert forall|k: Id20Key| #[trigger] entry_keys(entries).to_set().contains(k) implies (
            entry_keys(tail).to_set().contains(k) || k == first.0.key_spec()) by {
                let i = choose|i: int| 0 <= i < entry_keys(entries).len() && entry_keys(entries)[i] == k;
                if i > 0 {
                    assert(entry_keys(tail)[i - 1] == k);
                }
            }
        }
    }
}

/// The download counts at the keys of the entries add up to the counts the
/// entries list, when each value holds its entry's count.
proof fn lemma_entry_downloads<V>(
    entries: Seq<(InfoHash, NumberOfDownloads)>,
    m: Map<Id20Key, V>,
    f: spec_fn(V) -> nat,
)
    requires
        forall|i: int| 0 <= i < entries.len() ==> f(m[#[trigger] entries[i].0.key_spec()]) == entries[i].1,
    ensures
        sum_by(entry_keys(entries), m, f) == downloads_total(entries),
    decreases entries.len(),
{
    if entries.len() > 0 {
        let init = entries.drop_last();
        assert forall|i: int| 0 <= i < init.len() implies f(m[#[trigger] init[i].0.key_spec()]) == init[i].1 by {
            assert(init[i] == entries[i]);
        }
        lemma_entry_downloads(init, m, f);
        assert(entry_keys(entries).drop_last() =~= entry_keys(init));
        assert(entry_keys(entries).last() == entries.last().0.key_spec());
        assert(f(m[entries[entries.len() - 1].0.key_spec()]) == entries[entries.len() - 1].1);
    }
}

/// An import of new torrents, each listed once, into a table adds their
/// download counts to the sum of the counts over the table in key order.
proof fn lemma_import_sum<V>(
    m0: Map<Id20Key, V>,
    m1: Map<Id20Key, V>,
    entries: Seq<(InfoHash, NumberOfDownloads)>,
    f: spec_fn(V) -> nat,
)
    requires
        m0.dom().finite(),
        m1.dom().finite(),
        forall|i: int| 0 <= i < entries.len() ==> !m0.contains_key(#[trigger] entries[i].0.key_spec()),
        forall|i: int, j: int|
            0 <= i < j < entries.len() ==> #[trigger] entries[i].0.key_spec() != #[trigger] entries[j].0.key_spec(),
        m1.dom() == m0.dom() + imported(m0.dom(), entries).dom(),
        forall|k: Id20Key| #[trigger] m0.contains_key(k) ==> m1[k] == m0[k],
        forall|k: Id20Key| #[trigger]
            imported(m0.dom(), entries).contains_key(k) ==> f(m1[k]) == imported(m0.dom(), entries)[k].1,
    ensures
        sum_by(sorted_listing(m1.dom(), id20_key_order()), m1, f) == sum_by(
            sorted_listing(m0.dom(), id20_key_order()),
            m0,
            f,
        ) + downloads_total(entries),
        forall|i: int| 0 <= i < entries.len() ==> m1.contains_key(#[trigger] entries[i].0.key_spec()),
{
    let present = m0.dom();
    lemma_id20_key_order_total();
    lemma_sorted_listing_exists(m0.dom(), id20_key_order());
    lemma_sorted_listing_exists(m1.dom(), id20_key_order());
    lemma_import_all_new(present, entries);
    let k0 = sorted_listing(m0.dom(), id20_key_order());
    let k1 = sorted_listing(m1.dom(), id20_key_order());
    let ki = entry_keys(entries);
    let both = k0 + ki;
    assert(ki.no_duplicates()) by {
        assert forall|a: int, b: int| 0 <= a < ki.len() && 0 <= b < ki.len() && a != b implies ki[a] != ki[b] by {
            if a < b {
                assert(entries[a].0.key_spec() != entries[b].0.key_spec());
            } else {
                assert(entries[b].0.key_spec() != entries[a].0.key_spec());
            }
        }
    }
    assert(both.no_duplicates()) by {
        assert forall|a: int, b: int| 0 <= a < both.len() && 0 <= b < both.len() && a != b implies both[a]
            != both[b] by {
            if a < k0.len() && b >= k0.len() {
                assert(k0.to_set().contains(k0[a]));
                assert(!m0.contains_key(entries[b - k0.len()].0.key_spec()));
            } else if a >= k0.len() && b < k0.len() {
                assert(k0.to_set().contains(k0[b]));
                assert(!m0.contains_key(entries[a - k0.len()].0.key_spec()));
            }
        }
    }
    assert(both.to_set() =~= k1.to_set()) by {
        assert forall|k: Id20Key| both.to_set().contains(k) implies k1.to_set().contains(k) by {
            let i = choose|i: int| 0 <= i < both.len() && both[i] == k;
            if i < k0.len() {
                assert(k0.to_set().contains(k0[i]));
            } else {
                assert(ki.to_set().contains(ki[i - k0.len()]));
            }
        }
        assert forall|k: Id20Key| k1.to_set().contains(k) implies both.to_set().contains(k) by {
            if m0.contains_key(k) {
                let i = choose|i: int| 0 <= i < k0.len() && k0[i] == k;
                assert(both[i] == k);
            } else {
                assert(ki.to_set().contains(k));
                let i = choose|i: int| 0 <= i < ki.len() && ki[i] == k;
                assert(both[k0.len() + i] == k);
            }
        }
    }
    lemma_sum_by_permutation(k1, both, m1, f);
    lemma_sum_by_concat(k0, ki, m1, f);
    assert forall|i: int| 0 <= i < k0.len() implies m1[#[trigger] k0[i]] == m0[k0[i]] by {
        assert(k0.to_set().contains(k0[i]));
    }
    lemma_sum_by_agree(k0, m1, m0, f);
    lemma_entry_downloads(entries, m1, f);
}

/// Importing persisted torrents that are all new, each listed once, into a
/// registry adds their download counts to its download total (the
/// `total_downloaded` that `get_aggregate_swarm_metadata` gives), and every
/// one of them is held afterwards.
pub proof fn lemma_import_adds_downloads(
    before: &Registry,
    after: &Registry,
    entries: Seq<(InfoHash, NumberOfDownloads)>,
)
    requires
        before.wf(),
        after.wf(),
        forall|i: int|
            0 <= i < entries.len() ==> !before.swarms_map().contains_key(#[trigger] entries[i].0.key_spec()),
        forall|i: int, j: int|
            0 <= i < j < entries.len() ==> #[trigger] entries[i].0.key_spec() != #[trigger] entries[j].0.key_spec(),
        after.swarms_map().dom() == before.swarms_map().dom() + imported(
            before.swarms_map().dom(),
            entries,
        ).dom(),
        forall|k: Id20Key| #[trigger]
            before.swarms_map().contains_key(k) ==> after.swarms_map()[k] == before.swarms_map()[k],
        forall|k: Id20Key| #[trigger]
            imported(before.swarms_map().dom(), entries).contains_key(k) ==> after.swarms_map()[k].meta().downloaded
                == imported(before.swarms_map().dom(), entries)[k].1,
    ensures
        sum_by(after.sorted_keys_spec(), after.swarms_map(), downloaded_of()) == sum_by(
            before.sorted_keys_spec(),
            before.swarms_map(),
            downloaded_of(),
        ) + downloads_total(entries),
        forall|i: int| 0 <= i < entries.len() ==> after.swarms_map().contains_key(#[trigger] entries[i].0.key_spec()),
{
    before.lemma_wf();
    after.lemma_wf();
    lemma_import_sum(before.swarms_map(), after.swarms_map(), entries, downloaded_of());
}

/// Importing persisted torrents that are all new, each listed once, into a
/// torrent repository adds their download counts to its download total (the
/// `total_downloaded` that `get_aggregate_swarm_metadata` gives), and every
/// one of them is held afterwards.
pub proof fn lemma_repository_import_adds_downloads(
    before: &TorrentRepository,
    after: &TorrentRepository,
    entries: Seq<(InfoHash, NumberOfDownloads)>,
)
    requires
        before.wf(),
        after.wf(),
        forall|i: int|
            0 <= i < entries.len() ==> !before.entries().contains_key(#[trigger] entries[i].0.key_spec()),
        forall|i: int, j: int|
            0 <= i < j < entries.len() ==> #[trigger] entries[i].0.key_spec() != #[trigger] entries[j].0.key_spec(),
        after.entries().dom() == before.entries().dom() + imported(before.entries().dom(), entries).dom(),
        forall|k: Id20Key| #[trigger] before.entries().contains_key(k) ==> after.entries()[k] == before.entries()[k],
        forall|k: Id20Key| #[trigger]
            imported(before.entries().dom(), entries).contains_key(k) ==> after.entries()[k].downloaded == imported(
                before.entries().dom(),
                entries,
            )[k].1,
    ensures
        sum_by(after.sorted_keys_spec(), after.entries(), entry_downloaded_of()) == sum_by(
            before.sorted_keys_spec(),
            before.entries(),
            entry_downloaded_of(),
        ) + downloads_total(entries),
        forall|i: int| 0 <= i < entries.len() ==> after.entries().contains_key(#[trigger] entries[i].0.key_spec()),
{
    before.lemma_wf();
    after.lemma_wf();
    lemma_import_sum(before.entries(), after.entries(), entries, entry_downloaded_of());
}

/// Handling an event never lowers a counter.
pub proof fn lemma_counters_never_decrease(
    counters: Map<SeriesKey, Sample<u64>>,
    event: Event,
    now: DurationSinceUnixEpoch,
    key: SeriesKey,
)
    ensures
        counter_value(counters_after_event(counters, event, now), key) >= counter_value(counters, key),
{
}

/// A torrent that is added and then removed leaves the torrent gauge as it
/// was, when the gauge is below its largest value.
pub proof fn lemma_torrent_added_then_removed(
    gauges: Map<SeriesKey, Sample<i64>>,
    info_hash: InfoHash,
    announcement: Peer,
    added_at: DurationSinceUnixEpoch,
    removed_at: DurationSinceUnixEpoch,
)
    requires
        gauge_value(gauges, series_key(MetricName::TorrentsTotal, LabelSet::Empty)) < i64::MAX,
    ensures
        gauge_value(
            gauges_after_event(
                gauges_after_event(gauges, Event::TorrentAdded { info_hash, announcement }, added_at),
                Event::TorrentRemoved { info_hash },
                removed_at,
            ),
            series_key(MetricName::TorrentsTotal, LabelSet::Empty),
        ) == gauge_value(gauges, series_key(MetricName::TorrentsTotal, LabelSet::Empty)),
{
}

/// A peer that is added and then removed leaves the connection gauge of its
/// role as it was, when the gauge is below its largest value.
pub proof fn lemma_peer_added_then_removed(
    gauges: Map<SeriesKey, Sample<i64>>,
    info_hash: InfoHash,
    peer: Peer,
    added_at: DurationSinceUnixEpoch,
    removed_at: DurationSinceUnixEpoch,
)
    requires
        gauge_value(gauges, series_key(MetricName::PeerConnectionsTotal, peer_labels(peer))) < i64::MAX,
    ensures
        gauge_value(
            gauges_after_event(
                gauges_after_event(gauges, Event::PeerAdded { info_hash, peer }, added_at),
                Event::PeerRemoved { info_hash, peer },
                removed_at,
            ),
            series_key(MetricName::PeerConnectionsTotal, peer_labels(peer)),
        ) == gauge_value(gauges, series_key(MetricName::PeerConnectionsTotal, peer_labels(peer))),
{
}

/// An update of a peer moves it between the connection gauges of the two
/// roles and keeps their total, when neither gauge is at the end of its
/// range.
pub proof fn lemma_peer_update_keeps_connections(
    gauges: Map<SeriesKey, Sample<i64>>,
    info_hash: InfoHash,
    old_peer: Peer,
    new_peer: Peer,
    now: DurationSinceUnixEpoch,
)
    requires
        i64::MIN < gauge_value(gauges, series_key(MetricName::PeerConnectionsTotal, peer_labels(old_peer))),
        gauge_value(gauges, series_key(MetricName::PeerConnectionsTotal, peer_labels(new_peer))) < i64::MAX,
    ensures
        ({
            let after = gauges_after_event(gauges, Event::PeerUpdated { info_hash, old_peer, new_peer }, now);
            let seeders = series_key(MetricName::PeerConnectionsTotal, LabelSet::PeerRole(PeerRole::Seeder));
            let leechers = series_key(MetricName::PeerConnectionsTotal, LabelSet::PeerRole(PeerRole::Leecher));
            gauge_value(after, seeders) + gauge_value(after, leechers) == gauge_value(gauges, seeders)
                + gauge_value(gauges, leechers)
        }),
{
}

/// A peer update counts a reverted completion exactly when the peer had
/// announced completion and its new announcement does not: an ordinary
/// completion (an update to a completed announcement) leaves that count as
/// it was. This holds below the count's largest value.
pub proof fn lemma_reverted_completions(
    counters: Map<SeriesKey, Sample<u64>>,
    info_hash: InfoHash,
    old_peer: Peer,
    new_peer: Peer,
    now: DurationSinceUnixEpoch,
)
    requires
        counter_value(counters, series_key(MetricName::PeersCompletedStateRevertedTotal, LabelSet::Empty)) < u64::MAX,
    ensures
        counter_value(
            counters_after_event(counters, Event::PeerUpdated { info_hash, old_peer, new_peer }, now),
            series_key(MetricName::PeersCompletedStateRevertedTotal, LabelSet::Empty),
        ) == counter_value(counters, series_key(MetricName::PeersCompletedStateRevertedTotal, LabelSet::Empty))
            + if old_peer.event == AnnounceEvent::Completed && new_peer.event != AnnounceEvent::Completed {
            1int
        } else {
            0int
        },
{
}

/// The peers a client is handed from a listing, before the limit, are the
/// listed peers at any address other than the client's: a peer that differs
/// from the client in family, IP, port, flow information or scope id is
/// kept, and only the peer at the client's own address is left out.
pub proof fn lemma_exclusion_keeps_other_addresses(listing: Seq<Peer>, client: PeerAddress)
    ensures
        forall|p: Peer|
            listing.contains(p) ==> (#[trigger] excluding_key(listing, client.key_spec()).contains(p)
                <==> p.peer_addr != client),
        forall|p: Peer| #[trigger] excluding_key(listing, client.key_spec()).contains(p) ==> listing.contains(p),
{
    let pred = |p: Peer| p.key_spec() != client.key_spec();
    assert forall|p: Peer|
        listing.contains(p) implies (#[trigger] excluding_key(listing, client.key_spec()).contains(p)
        <==> p.peer_addr != client) by {
        p.peer_addr.lemma_key_injective(client);
        let i = choose|i: int| 0 <= i < listing.len() && listing[i] == p;
        if p.peer_addr != client {
            listing.lemma_filter_contains(pred, i);
        } else {
            if listing.filter(pred).contains(p) {
                let j = choose|j: int| 0 <= j < listing.filter(pred).len() && listing.filter(pred)[j] == p;
                listing.lemma_filter_pred(pred, j);
            }
        }
    }
    assert forall|p: Peer| #[trigger] excluding_key(listing, client.key_spec()).contains(p) implies listing.contains(
        p,
    ) by {
        listing.lemma_filter_contains_rev(pred, p);
    }
}

/// The peers a swarm coordinator hands a client from a listing, before the
/// limit, are the listed peers of the client's network (I2P or not) at any
/// address other than the client's: a peer of that network that differs
/// from the client in IP, port, flow information or scope id is kept.
pub proof fn lemma_network_exclusion_keeps_other_addresses(listing: Seq<Peer>, client: PeerAddress)
    ensures
        forall|p: Peer|
            listing.contains(p) ==> (#[trigger] excluding_key_in_network(listing, client.key_spec()).contains(p)
                <==> (p.peer_addr != client && p.peer_addr.is_i2p_spec() == client.is_i2p_spec())),
        forall|p: Peer| #[trigger]
            excluding_key_in_network(listing, client.key_spec()).contains(p) ==> listing.contains(p),
{
    let pred = |p: Peer| p.key_spec() != client.key_spec() && same_network(p.key_spec(), client.key_spec());
    client.lemma_i2p_key();
    assert forall|p: Peer|
        listing.contains(p) implies (#[trigger] excluding_key_in_network(listing, client.key_spec()).contains(p)
        <==> (p.peer_addr != client && p.peer_addr.is_i2p_spec() == client.is_i2p_spec())) by {
        p.peer_addr.lemma_key_injective(client);
        p.peer_addr.lemma_i2p_key();
        let i = choose|i: int| 0 <= i < listing.len() && listing[i] == p;
        if pred(p) {
            listing.lemma_filter_contains(pred, i);
        } else {
            if listing.filter(pred).contains(p) {
                let j = choose|j: int| 0 <= j < listing.filter(pred).len() && listing.filter(pred)[j] == p;
                listing.lemma_filter_pred(pred, j);
            }
        }
    }
    assert forall|p: Peer| #[trigger]
        excluding_key_in_network(listing, client.key_spec()).contains(p) implies listing.contains(p) by {
        listing.lemma_filter_contains_rev(pred, p);
    }
}

/// A peer that joins a swarm is counted by the bytes it lacks alone,
/// whatever it announces short of stopping: with nothing left it adds a
/// seeder, otherwise a leecher, and the download count stays. This holds
/// below the counters' largest values.
pub proof fn lemma_new_peer_counted_by_bytes_left(
    meta: SwarmMetadata,
    peers: Map<PeerKey, Peer>,
    announce: Peer,
)
    requires
        announce.event != AnnounceEvent::Stopped,
        !peers.contains_key(announce.key_spec()),
        meta.complete < u32::MAX,
        meta.incomplete < u32::MAX,
    ensures
        announce.left.0 <= 0 ==> metadata_after_announcement(meta, peers, announce).complete == meta.complete + 1
            && metadata_after_announcement(meta, peers, announce).incomplete == meta.incomplete,
        announce.left.0 > 0 ==> metadata_after_announcement(meta, peers, announce).incomplete == meta.incomplete
            + 1 && metadata_after_announcement(meta, peers, announce).complete == meta.complete,
        metadata_after_announcement(meta, peers, announce).downloaded == meta.downloaded,
{
}

/// Whether a peer is a seeder does not depend on what it announces, short
/// of stopping: two announcements that differ only in a non-stopping event
/// count the peer alike, and one with nothing left is a seeder while one
/// that still lacks bytes or has stopped is not.
pub proof fn lemma_seeder_by_bytes_left(p: Peer, event: AnnounceEvent)
    requires
        p.event != AnnounceEvent::Stopped,
        event != AnnounceEvent::Stopped,
    ensures
        (Peer { event, ..p }).is_seeder_spec() == p.is_seeder_spec(),
        p.is_seeder_spec() <==> p.left.0 <= 0,
        !(Peer { event: AnnounceEvent::Stopped, ..p }).is_seeder_spec(),
{
}

/// Bytes `lo..i` of `a` and `b` agree and byte `i` of `a` is smaller.
pub open spec fn first_smaller_at(a: Seq<u8>, b: Seq<u8>, lo: int, i: int) -> bool {
    &&& lo <= i
    &&& a[i] < b[i]
    &&& forall|j: int| lo <= j < i ==> a[j] == b[j]
}

/// Bytes `lo..hi` of `a` come before those of `b` in lexicographic order.
pub open spec fn bytes_lt_in(a: Seq<u8>, b: Seq<u8>, lo: int, hi: int) -> bool {
    exists|i: int| i < hi && #[trigger] first_smaller_at(a, b, lo, i)
}

/// Bytes `lo..hi` of `a` and `b` agree.
pub open spec fn bytes_eq_in(a: Seq<u8>, b: Seq<u8>, lo: int, hi: int) -> bool {
    forall|j: int| lo <= j < hi ==> a[j] == b[j]
}

/// `a` comes before `b` in the lexicographic order of byte strings of the
/// same length.
pub open spec fn bytes_lt(a: Seq<u8>, b: Seq<u8>) -> bool {
    bytes_lt_in(a, b, 0, a.len() as int)
}

/// Of two byte ranges, one comes first or they agree.
proof fn lemma_bytes_trichotomy(a: Seq<u8>, b: Seq<u8>, lo: int, hi: int)
    requires
        0 <= lo <= hi <= a.len(),
        hi <= b.len(),
    ensures
        bytes_lt_in(a, b, lo, hi) || bytes_eq_in(a, b, lo, hi) || bytes_lt_in(b, a, lo, hi),
        !(bytes_lt_in(a, b, lo, hi) && bytes_lt_in(b, a, lo, hi)),
        !(bytes_lt_in(a, b, lo, hi) && bytes_eq_in(a, b, lo, hi)),
        !(bytes_lt_in(b, a, lo, hi) && bytes_eq_in(a, b, lo, hi)),
    decreases hi - lo,
{
    if lo < hi {
        lemma_bytes_trichotomy(a, b, lo + 1, hi);
        if a[lo] < b[lo] {
            assert(first_smaller_at(a, b, lo, lo));
        } else if b[lo] < a[lo] {
            assert(first_smaller_at(b, a, lo, lo));
        } else {
            if bytes_lt_in(a, b, lo + 1, hi) {
                let i = choose|i: int| i < hi && #[trigger] first_smaller_at(a, b, lo + 1, i);
                assert(first_smaller_at(a, b, lo, i));
            }
            if bytes_lt_in(b, a, lo + 1, hi) {
                let i = choose|i: int| i < hi && #[trigger] first_smaller_at(b, a, lo + 1, i);
                assert(first_smaller_at(b, a, lo, i));
            }
        }
        if bytes_lt_in(a, b, lo, hi) && bytes_lt_in(b, a, lo, hi) {
            let i = choose|i: int| i < hi && #[trigger] first_smaller_at(a, b, lo, i);
            let k = choose|k: int| k < hi && #[trigger] first_smaller_at(b, a, lo, k);
            if i < k {
                assert(a[i] == b[i]);
            } else if k < i {
                assert(a[k] == b[k]);
            }
        }
        if bytes_lt_in(a, b, lo, hi) && bytes_eq_in(a, b, lo, hi) {
            let i = choose|i: int| i < hi && #[trigger] first_smaller_at(a, b, lo, i);
            assert(a[i] == b[i]);
        }
        if bytes_lt_in(b, a, lo, hi) && bytes_eq_in(a, b, lo, hi) {
            let i = choose|i: int| i < hi && #[trigger] first_smaller_at(b, a, lo, i);
            assert(a[i] == b[i]);
        }
    } else {
        if bytes_lt_in(a, b, lo, hi) {
            let i = choose|i: int| i < hi && #[trigger] first_smaller_at(a, b, lo, i);
        }
        if bytes_lt_in(b, a, lo, hi) {
            let i = choose|i: int| i < hi && #[trigger] first_smaller_at(b, a, lo, i);
        }
    }
}

/// A range comes first when its first part does, or when its first part
/// agrees and its second part comes first.
proof fn lemma_bytes_lt_split(a: Seq<u8>, b: Seq<u8>, lo: int, mid: int, hi: int)
    requires
        0 <= lo <= mid <= hi <= a.len(),
        hi <= b.len(),
    ensures
        bytes_lt_in(a, b, lo, hi) == (bytes_lt_in(a, b, lo, mid) || (bytes_eq_in(a, b, lo, mid) && bytes_lt_in(
            a,
            b,
            mid,
            hi,
        ))),
{
    if bytes_lt_in(a, b, lo, hi) {
        let i = choose|i: int| i < hi && #[trigger] first_smaller_at(a, b, lo, i);
        if i < mid {
            assert(first_smaller_at(a, b, lo, i));
        } else {
            assert(first_smaller_at(a, b, mid, i));
        }
    }
    if bytes_lt_in(a, b, lo, mid) {
        let i = choose|i: int| i < mid && #[trigger] first_smaller_at(a, b, lo, i);
        assert(first_smaller_at(a, b, lo, i));
    }
    if bytes_eq_in(a, b, lo, mid) && bytes_lt_in(a, b, mid, hi) {
        let i = choose|i: int| i < hi && #[trigger] first_smaller_at(a, b, mid, i);
        assert(first_smaller_at(a, b, lo, i));
    }
}

/// The big-endian value of eight bytes orders them as the bytes do.
proof fn lemma_be_u64_order(a: Seq<u8>, b: Seq<u8>, o: int)
    requires
        0 <= o,
        o + 8 <= a.len(),
        o + 8 <= b.len(),
    ensures
        (be_u64_at(a, o) < be_u64_at(b, o)) == bytes_lt_in(a, b, o, o + 8),
        (be_u64_at(a, o) == be_u64_at(b, o)) == bytes_eq_in(a, b, o, o + 8),
        0 <= be_u64_at(a, o) <= u64::MAX,
{
    lemma_bytes_trichotomy(a, b, o, o + 8);
    if bytes_lt_in(a, b, o, o + 8) {
        let i = choose|i: int| i < o + 8 && #[trigger] first_smaller_at(a, b, o, i);
        lemma_be_u64_first_smaller(a, b, o, i);
    }
    if bytes_lt_in(b, a, o, o + 8) {
        let i = choose|i: int| i < o + 8 && #[trigger] first_smaller_at(b, a, o, i);
        lemma_be_u64_first_smaller(b, a, o, i);
    }
}

/// Eight bytes whose first difference has the smaller byte in `a` have the
/// smaller big-endian value.
proof fn lemma_be_u64_first_smaller(a: Seq<u8>, b: Seq<u8>, o: int, i: int)
    requires
        0 <= o,
        o + 8 <= a.len(),
        o + 8 <= b.len(),
        i < o + 8,
        first_smaller_at(a, b, o, i),
    ensures
        be_u64_at(a, o) < be_u64_at(b, o),
{
    let k = i - o;
    assert(0 <= k < 8);
    if k >= 1 { assert(a[o] == b[o]); }
    if k >= 2 { assert(a[o + 1] == b[o + 1]); }
    if k >= 3 { assert(a[o + 2] == b[o + 2]); }
    if k >= 4 { assert(a[o + 3] == b[o + 3]); }
    if k >= 5 { assert(a[o + 4] == b[o + 4]); }
    if k >= 6 { assert(a[o + 5] == b[o + 5]); }
    if k >= 7 { assert(a[o + 6] == b[o + 6]); }
}

/// The big-endian value of four bytes orders them as the bytes do.
proof fn lemma_be_u32_order(a: Seq<u8>, b: Seq<u8>, o: int)
    requires
        0 <= o,
        o + 4 <= a.len(),
        o + 4 <= b.len(),
    ensures
        (be_u32_at(a, o) < be_u32_at(b, o)) == bytes_lt_in(a, b, o, o + 4),
        (be_u32_at(a, o) == be_u32_at(b, o)) == bytes_eq_in(a, b, o, o + 4),
        0 <= be_u32_at(a, o) <= u32::MAX,
{
    lemma_bytes_trichotomy(a, b, o, o + 4);
    if bytes_lt_in(a, b, o, o + 4) {
        let i = choose|i: int| i < o + 4 && #[trigger] first_smaller_at(a, b, o, i);
        lemma_be_u32_first_smaller(a, b, o, i);
    }
    if bytes_lt_in(b, a, o, o + 4) {
        let i = choose|i: int| i < o + 4 && #[trigger] first_smaller_at(b, a, o, i);
        lemma_be_u32_first_smaller(b, a, o, i);
    }
}

/// Four bytes whose first difference has the smaller byte in `a` have the
/// smaller big-endian value.
proof fn lemma_be_u32_first_smaller(a: Seq<u8>, b: Seq<u8>, o: int, i: int)
    requires
        0 <= o,
        o + 4 <= a.len(),
        o + 4 <= b.len(),
        i < o + 4,
        first_smaller_at(a, b, o, i),
    ensures
        be_u32_at(a, o) < be_u32_at(b, o),
{
    let k = i - o;
    assert(0 <= k < 4);
    if k >= 1 { assert(a[o] == b[o]); }
    if k >= 2 { assert(a[o + 1] == b[o + 1]); }
    if k >= 3 { assert(a[o + 2] == b[o + 2]); }
}

/// The key of a 20-byte identifier (an info-hash or a peer id) orders
/// identifiers as their bytes are ordered, lexicographically, and two
/// identifiers have the same key exactly when they have the same bytes. So
/// torrents listed in key order are listed in info-hash order.
pub proof fn lemma_key_order_is_byte_order(a: [u8; 20], b: [u8; 20])
    ensures
        id20_key_lt(id20_key_of(a@), id20_key_of(b@)) == bytes_lt(a@, b@),
        (id20_key_of(a@) == id20_key_of(b@)) == (a@ == b@),
{
    let x = a@;
    let y = b@;
    lemma_be_u64_order(x, y, 0);
    lemma_be_u64_order(x, y, 8);
    lemma_be_u32_order(x, y, 16);
    lemma_bytes_lt_split(x, y, 0, 8, 20);
    lemma_bytes_lt_split(x, y, 8, 16, 20);
    if bytes_eq_in(x, y, 0, 20) {
        assert(x =~= y);
    }
    if x == y {
        assert(bytes_eq_in(x, y, 0, 8));
        assert(bytes_eq_in(x, y, 8, 16));
        assert(bytes_eq_in(x, y, 16, 20));
    }
    if bytes_eq_in(x, y, 0, 8) && bytes_eq_in(x, y, 8, 16) && bytes_eq_in(x, y, 16, 20) {
        assert(bytes_eq_in(x, y, 0, 20));
    }
    if bytes_eq_in(x, y, 0, 8) && bytes_eq_in(x, y, 8, 16) {
        assert(bytes_eq_in(x, y, 0, 16));
    }
}

} // verus!
