//! The plain values the tracker works on: identifiers, peer addresses,
//! announcements, timestamps and the swarm counters.
use vstd::prelude::*;

verus! {

/// Number of nanoseconds in one second.
pub const NANOS_PER_SEC: u32 = 1_000_000_000;

/// The largest number of nanoseconds a `DurationSinceUnixEpoch` can hold.
pub open spec fn max_duration_nanos() -> int {
    18_446_744_073_709_551_615int * 1_000_000_000 + 999_999_999
}

/// A point in time, as the time elapsed since the Unix epoch.
///
/// Seconds and the sub-second nanoseconds are kept apart; the nanoseconds
/// are always below one second.
#[derive(Clone, Copy, Debug, PartialEq, Eq, Structural)]
pub struct DurationSinceUnixEpoch {
    secs: u64,
    nanos: u32,
}

impl View for DurationSinceUnixEpoch {
    type V = int;

    /// The time as a whole number of nanoseconds.
    closed spec fn view(&self) -> int {
        self.secs * 1_000_000_000 + self.nanos
    }
}

impl DurationSinceUnixEpoch {
    #[verifier::type_invariant]
    closed spec fn nanos_below_one_second(self) -> bool {
        self.nanos < NANOS_PER_SEC
    }

    /// Builds `secs` seconds plus `nanos` nanoseconds; nanoseconds beyond one
    /// second are carried into the seconds.
    pub fn new(secs: u64, nanos: u32) -> (r: Self)
        requires
            secs + nanos / 1_000_000_000 <= u64::MAX,
        ensures
            r@ == secs * 1_000_000_000 + nanos,
    {
        let extra_secs = nanos / NANOS_PER_SEC;
        let rest = nanos % NANOS_PER_SEC;
        let total_secs = secs + extra_secs as u64;
        DurationSinceUnixEpoch { secs: total_secs, nanos: rest }
    }

    /// Builds a duration of whole seconds.
    pub fn from_secs(secs: u64) -> (r: Self)
        ensures
            r@ == secs * 1_000_000_000,
    {
        DurationSinceUnixEpoch { secs, nanos: 0 }
    }

    /// The number of whole seconds.
    pub fn as_secs(&self) -> (r: u64)
        ensures
            r == self@ / 1_000_000_000,
    {
        proof {
            use_type_invariant(self);
        }
        self.secs
    }

    /// The fractional part, in nanoseconds.
    pub fn subsec_nanos(&self) -> (r: u32)
        ensures
            r == self@ % 1_000_000_000,
    {
        proof {
            use_type_invariant(self);
        }
        self.nanos
    }

    /// `self + other`, or `None` when the sum does not fit.
    pub fn checked_add(&self, other: &Self) -> (r: Option<Self>)
        ensures
            r is Some <==> self@ + other@ <= max_duration_nanos(),
            r matches Some(d) ==> d@ == self@ + other@,
    {
        proof {
            use_type_invariant(self);
            use_type_invariant(other);
        }
        let nanos_sum: u32 = self.nanos + other.nanos;
        if self.secs > u64::MAX - other.secs {
            return None;
        }
        let secs_sum: u64 = self.secs + other.secs;
        if nanos_sum >= NANOS_PER_SEC {
            if secs_sum == u64::MAX {
                return None;
            }
            Some(DurationSinceUnixEpoch { secs: secs_sum + 1, nanos: nanos_sum - NANOS_PER_SEC })
        } else {
            Some(DurationSinceUnixEpoch { secs: secs_sum, nanos: nanos_sum })
        }
    }

    /// `self - other`, or `None` when the difference would be negative.
    pub fn checked_sub(&self, other: &Self) -> (r: Option<Self>)
        ensures
            r is Some <==> other@ <= self@,
            r matches Some(d) ==> d@ == self@ - other@,
    {
        proof {
            use_type_invariant(self);
            use_type_invariant(other);
        }
        if self.secs < other.secs {
            return None;
        }
        let mut secs_diff: u64 = self.secs - other.secs;
        if self.nanos >= other.nanos {
            Some(DurationSinceUnixEpoch { secs: secs_diff, nanos: self.nanos - other.nanos })
        } else {
            if secs_diff == 0 {
                return None;
            }
            secs_diff = secs_diff - 1;
            Some(
                DurationSinceUnixEpoch {
                    secs: secs_diff,
                    nanos: self.nanos + NANOS_PER_SEC - other.nanos,
                },
            )
        }
    }

    /// Whether `self` is at or before `other`.
    pub fn is_at_or_before(&self, other: &Self) -> (r: bool)
        ensures
            r == (self@ <= other@),
    {
        proof {
            use_type_invariant(self);
            use_type_invariant(other);
        }
        self.secs < other.secs || (self.secs == other.secs && self.nanos <= other.nanos)
    }
}

/// A 20-byte identifier (an info-hash or a peer id), kept as three unsigned
/// integers holding its bytes in big-endian order: bytes 0..8, 8..16 and
/// 16..20. Comparing the integers in turn is comparing the bytes in turn.
pub type Id20Key = (u64, u64, u32);

/// The big-endian value of the eight bytes of `b` starting at `o`.
pub open spec fn be_u64_at(b: Seq<u8>, o: int) -> int {
    b[o] * 0x100_0000_0000_0000 + b[o + 1] * 0x1_0000_0000_0000 + b[o + 2] * 0x100_0000_0000
        + b[o + 3] * 0x1_0000_0000 + b[o + 4] * 0x100_0000 + b[o + 5] * 0x1_0000 + b[o + 6]
        * 0x100 + b[o + 7]
}

/// The big-endian value of the four bytes of `b` starting at `o`.
pub open spec fn be_u32_at(b: Seq<u8>, o: int) -> int {
    b[o] * 0x100_0000 + b[o + 1] * 0x1_0000 + b[o + 2] * 0x100 + b[o + 3]
}

/// The three integers that stand for the 20 bytes `b`.
pub open spec fn id20_key_of(b: Seq<u8>) -> Id20Key {
    (be_u64_at(b, 0) as u64, be_u64_at(b, 8) as u64, be_u32_at(b, 16) as u32)
}

fn be_u64_from(b: &[u8; 20], o: usize) -> (r: u64)
    requires
        o + 8 <= 20,
    ensures
        r == be_u64_at(b@, o as int),
{
    (b[o] as u64) * 0x100_0000_0000_0000 + (b[o + 1] as u64) * 0x1_0000_0000_0000 + (b[o + 2] as u64)
        * 0x100_0000_0000 + (b[o + 3] as u64) * 0x1_0000_0000 + (b[o + 4] as u64) * 0x100_0000 + (
    b[o + 5] as u64) * 0x1_0000 + (b[o + 6] as u64) * 0x100 + (b[o + 7] as u64)
}

fn id20_key_from(b: &[u8; 20]) -> (r: Id20Key)
    ensures
        r == id20_key_of(b@),
{
    let hi = be_u64_from(b, 0);
    let mid = be_u64_from(b, 8);
    let lo: u32 = (b[16] as u32) * 0x100_0000 + (b[17] as u32) * 0x1_0000 + (b[18] as u32) * 0x100
        + (b[19] as u32);
    (hi, mid, lo)
}

/// The info-hash of a torrent.
#[derive(Clone, Copy, Debug, PartialEq, Eq, Structural)]
pub struct InfoHash {
    /// Bytes 0..8, big-endian.
    pub hi: u64,
    /// Bytes 8..16, big-endian.
    pub mid: u64,
    /// Bytes 16..20, big-endian.
    pub lo: u32,
}

impl InfoHash {
    /// The three integers as one key.
    pub open spec fn key_spec(&self) -> Id20Key {
        (self.hi, self.mid, self.lo)
    }

    /// The three integers as one key.
    #[verifier::when_used_as_spec(key_spec)]
    pub fn key(&self) -> (r: Id20Key)
        ensures
            r == self.key_spec(),
    {
        (self.hi, self.mid, self.lo)
    }

    /// The infohash with the key `key`.
    pub fn from_key(key: Id20Key) -> (r: Self)
        ensures
            r.key_spec() == key,
    {
        InfoHash { hi: key.0, mid: key.1, lo: key.2 }
    }

    /// The info-hash with the given 20 bytes.
    pub fn from_bytes(bytes: &[u8; 20]) -> (r: Self)
        ensures
            r.key_spec() == id20_key_of(bytes@),
    {
        let key = id20_key_from(bytes);
        InfoHash { hi: key.0, mid: key.1, lo: key.2 }
    }
}

/// The id a peer announces itself with.
#[derive(Clone, Copy, Debug, PartialEq, Eq, Structural)]
pub struct PeerId {
    /// Bytes 0..8, big-endian.
    pub hi: u64,
    /// Bytes 8..16, big-endian.
    pub mid: u64,
    /// Bytes 16..20, big-endian.
    pub lo: u32,
}

impl PeerId {
    /// The three integers as one key.
    pub open spec fn key_spec(&self) -> Id20Key {
        (self.hi, self.mid, self.lo)
    }

    /// The three integers as one key.
    #[verifier::when_used_as_spec(key_spec)]
    pub fn key(&self) -> (r: Id20Key)
        ensures
            r == self.key_spec(),
    {
        (self.hi, self.mid, self.lo)
    }

    /// The peerid with the key `key`.
    pub fn from_key(key: Id20Key) -> (r: Self)
        ensures
            r.key_spec() == key,
    {
        PeerId { hi: key.0, mid: key.1, lo: key.2 }
    }

    /// The peer id with the given 20 bytes.
    pub fn from_bytes(bytes: &[u8; 20]) -> (r: Self)
        ensures
            r.key_spec() == id20_key_of(bytes@),
    {
        let key = id20_key_from(bytes);
        PeerId { hi: key.0, mid: key.1, lo: key.2 }
    }
}

/// The key a peer address is ordered and found by: the address family
/// (0 for IPv4, 1 for IPv6, 2 for I2P), the IP address as an integer (the
/// destination's number for I2P), the port, and for IPv6 the flow
/// information and the scope id (0 otherwise). Its order is that of peer
/// addresses: IPv4 before IPv6 before I2P, then by IP, port, flow
/// information and scope id.
pub type PeerKey = (u8, u128, u16, u32, u32);

/// Whether two peer keys are the same.
pub fn peer_key_eq(a: &PeerKey, b: &PeerKey) -> (r: bool)
    ensures
        r == (*a == *b),
{
    a.0 == b.0 && a.1 == b.1 && a.2 == b.2 && a.3 == b.3 && a.4 == b.4
}

/// The socket address a peer announces from.
#[derive(Clone, Copy, Debug, PartialEq, Eq, Structural)]
pub enum PeerAddress {
    V4 { ip: u32, port: u16 },
    V6 { ip: u128, port: u16, flowinfo: u32, scope_id: u32 },
    /// An I2P destination, by a number that stands for it one to one.
    I2p { destination: u128 },
}

impl PeerAddress {
    /// The key of this address.
    pub open spec fn key_spec(&self) -> PeerKey {
        match *self {
            PeerAddress::V4 { ip, port } => (0u8, ip as u128, port, 0u32, 0u32),
            PeerAddress::V6 { ip, port, flowinfo, scope_id } => (1u8, ip, port, flowinfo, scope_id),
            PeerAddress::I2p { destination } => (2u8, destination, 0u16, 0u32, 0u32),
        }
    }

    /// Two addresses are equal exactly when their keys are.
    pub proof fn lemma_key_injective(self, other: Self)
        ensures
            self.key_spec() == other.key_spec() <==> self == other,
    {
    }

    /// The key of this address.
    #[verifier::when_used_as_spec(key_spec)]
    pub fn key(&self) -> (r: PeerKey)
        ensures
            r == self.key_spec(),
    {
        match self {
            PeerAddress::V4 { ip, port } => (0u8, *ip as u128, *port, 0u32, 0u32),
            PeerAddress::V6 { ip, port, flowinfo, scope_id } => (1u8, *ip, *port, *flowinfo, *scope_id),
            PeerAddress::I2p { destination } => (2u8, *destination, 0u16, 0u32, 0u32),
        }
    }

    /// Whether this is an I2P address.
    pub open spec fn is_i2p_spec(&self) -> bool {
        *self is I2p
    }

    /// Whether this is an I2P address.
    #[verifier::when_used_as_spec(is_i2p_spec)]
    pub fn is_i2p(&self) -> (r: bool)
        ensures
            r == self.is_i2p_spec(),
    {
        match self {
            PeerAddress::I2p { .. } => true,
            _ => false,
        }
    }

    /// An address is an I2P address exactly when its key is of the I2P
    /// family.
    pub proof fn lemma_i2p_key(self)
        ensures
            self.is_i2p_spec() <==> self.key_spec().0 == 2,
    {
    }

    /// The IPv4 address `a.b.c.d:port`.
    pub fn v4(a: u8, b: u8, c: u8, d: u8, port: u16) -> (r: Self)
        ensures
            r == (PeerAddress::V4 {
                ip: (a * 0x100_0000 + b * 0x1_0000 + c * 0x100 + d) as u32,
                port,
            }),
    {
        let ip: u32 = (a as u32) * 0x100_0000 + (b as u32) * 0x1_0000 + (c as u32) * 0x100 + (d as u32);
        PeerAddress::V4 { ip, port }
    }
}

/// A number of bytes, as reported in an announcement.
#[derive(Clone, Copy, Debug, PartialEq, Eq, Structural)]
pub struct NumberOfBytes(pub i64);

impl NumberOfBytes {
    /// A count of `value` bytes.
    pub fn new(value: i64) -> (r: Self)
        ensures
            r.0 == value,
    {
        NumberOfBytes(value)
    }

    /// The number of bytes.
    pub fn get(&self) -> (r: i64)
        ensures
            r == self.0,
    {
        self.0
    }
}

/// The event of an announcement.
#[derive(Clone, Copy, Debug, PartialEq, Eq, Structural)]
pub enum AnnounceEvent {
    Started,
    Stopped,
    Completed,
    /// A regular announcement, with no particular event.
    Empty,
}

/// Whether a peer has the whole torrent (seeder) or not (leecher).
#[derive(Clone, Copy, Debug, PartialEq, Eq, Structural)]
pub enum PeerRole {
    Seeder,
    Leecher,
}

/// The number of completed downloads of a torrent.
pub type NumberOfDownloads = u32;

/// A peer, as known from its last announcement.
#[derive(Clone, Copy, Debug, PartialEq, Eq, Structural)]
pub struct Peer {
    pub peer_id: PeerId,
    pub peer_addr: PeerAddress,
    /// When the peer last announced.
    pub updated: DurationSinceUnixEpoch,
    pub uploaded: NumberOfBytes,
    pub downloaded: NumberOfBytes,
    /// The bytes the peer still lacks.
    pub left: NumberOfBytes,
    pub event: AnnounceEvent,
}

/// An announcement is the peer state it carries.
pub type PeerAnnouncement = Peer;

impl Peer {
    /// A seeder lacks no bytes and has not stopped.
    pub open spec fn is_seeder_spec(&self) -> bool {
        self.left.0 <= 0 && self.event != AnnounceEvent::Stopped
    }

    /// A peer has completed when its announcement says so.
    pub open spec fn is_completed_spec(&self) -> bool {
        self.event == AnnounceEvent::Completed
    }

    /// Seeder or leecher, as `is_seeder_spec` says.
    pub open spec fn role_spec(&self) -> PeerRole {
        if self.is_seeder_spec() {
            PeerRole::Seeder
        } else {
            PeerRole::Leecher
        }
    }

    /// The key the peer is found by in a swarm: that of its address.
    pub open spec fn key_spec(&self) -> PeerKey {
        self.peer_addr.key_spec()
    }

    /// Whether the peer is a seeder.
    #[verifier::when_used_as_spec(is_seeder_spec)]
    pub fn is_seeder(&self) -> (r: bool)
        ensures
            r == self.is_seeder_spec(),
    {
        self.left.0 <= 0 && !matches!(self.event, AnnounceEvent::Stopped)
    }

    /// Whether the peer announced completion.
    #[verifier::when_used_as_spec(is_completed_spec)]
    pub fn is_completed(&self) -> (r: bool)
        ensures
            r == self.is_completed_spec(),
    {
        matches!(self.event, AnnounceEvent::Completed)
    }

    /// Seeder or leecher.
    #[verifier::when_used_as_spec(role_spec)]
    pub fn role(&self) -> (r: PeerRole)
        ensures
            r == self.role_spec(),
    {
        if self.is_seeder() {
            PeerRole::Seeder
        } else {
            PeerRole::Leecher
        }
    }

    /// The same peer, announcing that it completed the download.
    pub fn into_completed(self) -> (r: Self)
        ensures
            r == (Peer { event: AnnounceEvent::Completed, ..self }),
    {
        Peer { event: AnnounceEvent::Completed, ..self }
    }
}

/// The counters of a swarm: completed downloads, seeders and leechers.
#[derive(Clone, Copy, Debug, PartialEq, Eq, Structural)]
pub struct SwarmMetadata {
    /// The number of peers that have ever completed downloading.
    pub downloaded: u32,
    /// The number of active peers that have completed downloading (seeders).
    pub complete: u32,
    /// The number of active peers that have not completed downloading (leechers).
    pub incomplete: u32,
}

impl SwarmMetadata {
    /// The counters with the given values.
    pub fn new(downloaded: u32, complete: u32, incomplete: u32) -> (r: Self)
        ensures
            r == (SwarmMetadata { downloaded, complete, incomplete }),
    {
        SwarmMetadata { downloaded, complete, incomplete }
    }

    /// All counters at zero.
    pub fn zeroed() -> (r: Self)
        ensures
            r == (SwarmMetadata { downloaded: 0, complete: 0, incomplete: 0 }),
    {
        SwarmMetadata { downloaded: 0, complete: 0, incomplete: 0 }
    }

    /// The number of completed downloads.
    pub fn downloads(&self) -> (r: u32)
        ensures
            r == self.downloaded,
    {
        self.downloaded
    }

    /// The number of seeders.
    pub fn seeders(&self) -> (r: u32)
        ensures
            r == self.complete,
    {
        self.complete
    }

    /// The number of leechers.
    pub fn leechers(&self) -> (r: u32)
        ensures
            r == self.incomplete,
    {
        self.incomplete
    }
}

/// The counters of all swarms added up.
#[derive(Clone, Copy, Debug, PartialEq, Eq, Structural)]
pub struct AggregateSwarmMetadata {
    /// The sum of completed downloads.
    pub total_downloaded: u64,
    /// The sum of seeders.
    pub total_complete: u64,
    /// The sum of leechers.
    pub total_incomplete: u64,
    /// The number of torrents.
    pub total_torrents: u64,
}

/// The aggregate of the swarms that are tracked.
pub type AggregateActiveSwarmMetadata = AggregateSwarmMetadata;

impl AggregateSwarmMetadata {
    /// All totals at zero.
    pub fn zeroed() -> (r: Self)
        ensures
            r == (AggregateSwarmMetadata {
                total_downloaded: 0,
                total_complete: 0,
                total_incomplete: 0,
                total_torrents: 0,
            }),
    {
        AggregateSwarmMetadata {
            total_downloaded: 0,
            total_complete: 0,
            total_incomplete: 0,
            total_torrents: 0,
        }
    }
}

/// The tracker's rules for keeping torrents and peers.
#[derive(Clone, Copy, Debug, PartialEq, Eq, Structural)]
pub struct TrackerPolicy {
    /// Seconds after which a peer that has not announced is inactive.
    pub max_peer_timeout: u32,
    /// Whether the number of completed downloads is kept across restarts.
    pub persistent_torrent_completed_stat: bool,
    /// Whether torrents without peers are removed.
    pub remove_peerless_torrents: bool,
}

impl Default for TrackerPolicy {
    fn default() -> (r: Self)
        ensures
            r == (TrackerPolicy {
                max_peer_timeout: 900,
                persistent_torrent_completed_stat: false,
                remove_peerless_torrents: true,
            }),
    {
        TrackerPolicy {
            max_peer_timeout: 900,
            persistent_torrent_completed_stat: false,
            remove_peerless_torrents: true,
        }
    }
}

/// A page of results: skip `offset` entries, then take at most `limit`.
#[derive(Clone, Copy, Debug, PartialEq, Eq, Structural)]
pub struct Pagination {
    pub offset: u32,
    pub limit: u32,
}

impl Pagination {
    /// The page of at most `limit` entries after `offset` entries.
    pub fn new(offset: u32, limit: u32) -> (r: Self)
        ensures
            r == (Pagination { offset, limit }),
    {
        Pagination { offset, limit }
    }
}

} // verus!
