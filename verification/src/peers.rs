//! LAN discovery bookkeeping: the discovery packet a peer announces, and the
//! registry of the peers heard from.
use vstd::prelude::*;
use crate::events::{copy_opt, opt_view};
use crate::ids::uuid_hyphenated_text;
use crate::replication::{copy_strings, LocalPeerIdentity, PROTOCOL_NAME, PROTOCOL_VERSION};
use crate::text::{append_str, str_eq, str_to_string, views_of};

verus! {

/// An IP address: IPv4 as its 32-bit value, IPv6 as its 128-bit value.
#[derive(Debug, Clone, Copy, PartialEq, Eq, Structural)]
pub enum IpAddress {
    V4(u32),
    V6(u128),
}

/// A socket address: an IP address and a port.
#[derive(Debug, Clone, Copy, PartialEq, Eq, Structural)]
pub struct PeerAddress {
    pub ip: IpAddress,
    pub port: u16,
}

/// LAN discovery settings.
#[derive(Debug, Clone, Copy, PartialEq, Eq, Structural)]
pub struct SyncConfig {
    pub enable_lan_discovery: bool,
    pub ipv4_multicast_address: u32,
    pub ipv6_multicast_address: u128,
    pub discovery_port: u16,
    pub local_sync_port: u16,
    pub peer_timeout_seconds: u64,
    pub discovery_interval_seconds: u64,
}

impl Default for SyncConfig {
    /// Discovery on, multicast to 239.73.89.71 and ff12::73:5947 on port
    /// 9737, sync on 9738, peers expire after 45 s, announce every 5 s.
    fn default() -> (r: Self)
        ensures
            r.enable_lan_discovery,
            r.ipv4_multicast_address == 0xEF49_5947u32,
            r.ipv6_multicast_address == 0xff12_0000_0000_0000_0000_0000_0073_5947u128,
            r.discovery_port == 9737,
            r.local_sync_port == 9738,
            r.peer_timeout_seconds == 45,
            r.discovery_interval_seconds == 5,
    {
        SyncConfig {
            enable_lan_discovery: true,
            ipv4_multicast_address: 0xEF49_5947u32,
            ipv6_multicast_address: 0xff12_0000_0000_0000_0000_0000_0073_5947u128,
            discovery_port: 9737,
            local_sync_port: 9738,
            peer_timeout_seconds: 45,
            discovery_interval_seconds: 5,
        }
    }
}

/// What a peer announces on the LAN.
#[derive(Debug)]
pub struct DiscoveryPacket {
    pub protocol_name: String,
    pub protocol_version: u16,
    pub device_id: u128,
    pub session_id: u128,
    pub user_hash: Option<String>,
    pub display_name: String,
    pub capabilities: Vec<String>,
    pub local_api_port: Option<u16>,
    pub timestamp: i64,
}

/// `{device_id}:{session_id}`, the key a peer is known by.
pub open spec fn peer_id_text(device_id: u128, session_id: u128) -> Seq<char> {
    uuid_hyphenated_text(device_id) + ":"@ + uuid_hyphenated_text(session_id)
}

impl DiscoveryPacket {
    /// The packet an identity announces at time `now`.
    pub fn from_identity_at(identity: &LocalPeerIdentity, now: i64) -> (r: Self)
        ensures
            r.protocol_name@ == PROTOCOL_NAME@,
            r.protocol_version == PROTOCOL_VERSION,
            r.device_id == identity.device_id,
            r.session_id == identity.session_id,
            opt_view(r.user_hash) == opt_view(identity.user_hash),
            r.display_name@ == identity.display_name@,
            views_of(r.capabilities@) == views_of(identity.capabilities@),
            r.local_api_port == identity.local_api_port,
            r.timestamp == now,
    {
        DiscoveryPacket {
            protocol_name: str_to_string(PROTOCOL_NAME),
            protocol_version: PROTOCOL_VERSION,
            device_id: identity.device_id,
            session_id: identity.session_id,
            user_hash: copy_opt(&identity.user_hash),
            display_name: identity.display_name.clone(),
            capabilities: copy_strings(&identity.capabilities),
            local_api_port: identity.local_api_port,
            timestamp: now,
        }
    }

    /// The packet an identity announces now.
    pub fn from_identity(identity: &LocalPeerIdentity) -> (r: Self)
        ensures
            r.protocol_name@ == PROTOCOL_NAME@,
            r.protocol_version == PROTOCOL_VERSION,
            r.device_id == identity.device_id,
            r.session_id == identity.session_id,
            opt_view(r.user_hash) == opt_view(identity.user_hash),
            r.display_name@ == identity.display_name@,
            views_of(r.capabilities@) == views_of(identity.capabilities@),
            r.local_api_port == identity.local_api_port,
    {
        let now = crate::ids::now_millis();
        DiscoveryPacket::from_identity_at(identity, now)
    }

    pub fn peer_id(&self) -> (r: String)
        ensures
            r@ == peer_id_text(self.device_id, self.session_id),
    {
        let mut r = crate::ids::uuid_text(self.device_id);
        append_str(&mut r, ":");
        let s = crate::ids::uuid_text(self.session_id);
        append_str(&mut r, s.as_str());
        r
    }
}

#[derive(Debug, Clone, Copy, PartialEq, Eq, Structural)]
pub enum PeerConnectionState {
    Discovered,
    Handshaking,
    Connected,
    Unreachable,
    Expired,
}

#[derive(Debug, Clone, Copy, PartialEq, Eq, Structural)]
pub enum PeerSyncState {
    Unknown,
    InSync,
    Diverged,
    LocalAhead,
    RemoteAhead,
}

/// What the registry knows of one peer.
#[derive(Debug)]
pub struct PeerRecord {
    pub peer_id: String,
    pub device_id: u128,
    pub session_id: u128,
    pub display_name: String,
    pub addresses: Vec<PeerAddress>,
    pub protocol_version: u16,
    pub capabilities: Vec<String>,
    pub first_seen: i64,
    pub last_seen: i64,
    pub connection_state: PeerConnectionState,
    pub sync_state: PeerSyncState,
}

pub struct PeerView {
    pub peer_id: Seq<char>,
    pub device_id: u128,
    pub session_id: u128,
    pub display_name: Seq<char>,
    pub addresses: Seq<PeerAddress>,
    pub protocol_version: u16,
    pub capabilities: Seq<Seq<char>>,
    pub first_seen: i64,
    pub last_seen: i64,
    pub connection_state: PeerConnectionState,
    pub sync_state: PeerSyncState,
}

impl View for PeerRecord {
    type V = PeerView;

    open spec fn view(&self) -> PeerView {
        PeerView {
            peer_id: self.peer_id@,
            device_id: self.device_id,
            session_id: self.session_id,
            display_name: self.display_name@,
            addresses: self.addresses@,
            protocol_version: self.protocol_version,
            capabilities: views_of(self.capabilities@),
            first_seen: self.first_seen,
            last_seen: self.last_seen,
            connection_state: self.connection_state,
            sync_state: self.sync_state,
        }
    }
}

pub open spec fn peer_views(v: Seq<PeerRecord>) -> Seq<PeerView> {
    v.map_values(|p: PeerRecord| p@)
}

impl PeerRecord {
    pub fn copy(&self) -> (r: Self)
        ensures
            r@ == self@,
    {
        PeerRecord {
            peer_id: self.peer_id.clone(),
            device_id: self.device_id,
            session_id: self.session_id,
            display_name: self.display_name.clone(),
            addresses: self.addresses.clone(),
            protocol_version: self.protocol_version,
            capabilities: copy_strings(&self.capabilities),
            first_seen: self.first_seen,
            last_seen: self.last_seen,
            connection_state: self.connection_state,
            sync_state: self.sync_state,
        }
    }
}

/// What observing a discovery packet did.
#[derive(Debug)]
pub enum PeerObservation {
    Discovered(String),
    Updated(String),
    IgnoredSelf,
    IgnoredIncompatible,
}

pub enum ObservationView {
    Discovered(Seq<char>),
    Updated(Seq<char>),
    IgnoredSelf,
    IgnoredIncompatible,
}

impl View for PeerObservation {
    type V = ObservationView;

    open spec fn view(&self) -> ObservationView {
        match self {
            PeerObservation::Discovered(id) => ObservationView::Discovered(id@),
            PeerObservation::Updated(id) => ObservationView::Updated(id@),
            PeerObservation::IgnoredSelf => ObservationView::IgnoredSelf,
            PeerObservation::IgnoredIncompatible => ObservationView::IgnoredIncompatible,
        }
    }
}

/// The peers heard from, each under its own peer id.
#[derive(Debug)]
pub struct PeerRegistry {
    peers: Vec<PeerRecord>,
}

/// No two records share a peer id.
pub open spec fn ids_distinct(ps: Seq<PeerView>) -> bool {
    forall|i: int, j: int| 0 <= i < j < ps.len() ==> ps[i].peer_id != ps[j].peer_id
}

/// Index of the record with the id, or the length when there is none.
pub open spec fn id_position(ps: Seq<PeerView>, id: Seq<char>) -> int
    decreases ps.len(),
{
    if ps.len() == 0 {
        0
    } else if ps[0].peer_id == id {
        0
    } else {
        1 + id_position(ps.drop_first(), id)
    }
}

proof fn lemma_id_position(ps: Seq<PeerView>, id: Seq<char>, i: int)
    requires
        0 <= i <= ps.len(),
        forall|k: int| 0 <= k < i ==> ps[k].peer_id != id,
        i == ps.len() || ps[i].peer_id == id,
    ensures
        id_position(ps, id) == i,
    decreases i,
{
    if i > 0 {
        lemma_id_position(ps.drop_first(), id, i - 1);
    }
}

proof fn lemma_id_position_bounds(ps: Seq<PeerView>, id: Seq<char>)
    ensures
        0 <= id_position(ps, id) <= ps.len(),
    decreases ps.len(),
{
    if ps.len() > 0 {
        lemma_id_position_bounds(ps.drop_first(), id);
    }
}

/// The address a peer is reached at: the source address, with the port the
/// peer advertises for its API when it advertises one.
pub open spec fn reach_address(source: PeerAddress, api_port: Option<u16>) -> PeerAddress {
    match api_port {
        Some(p) => PeerAddress { ip: source.ip, port: p },
        None => source,
    }
}

/// A known peer heard from again at `now` through `address`.
pub open spec fn refreshed(
    p: PeerView,
    display_name: Seq<char>,
    capabilities: Seq<Seq<char>>,
    address: PeerAddress,
    now: i64,
) -> PeerView {
    PeerView {
        addresses: if p.addresses.contains(address) {
            p.addresses
        } else {
            p.addresses.push(address)
        },
        display_name,
        capabilities,
        last_seen: now,
        connection_state: PeerConnectionState::Discovered,
        ..p
    }
}

/// A peer first heard from at `now` through `address`.
pub open spec fn discovered_peer(
    device_id: u128,
    session_id: u128,
    display_name: Seq<char>,
    capabilities: Seq<Seq<char>>,
    protocol_version: u16,
    address: PeerAddress,
    now: i64,
) -> PeerView {
    PeerView {
        peer_id: peer_id_text(device_id, session_id),
        device_id,
        session_id,
        display_name,
        addresses: seq![address],
        protocol_version,
        capabilities,
        first_seen: now,
        last_seen: now,
        connection_state: PeerConnectionState::Discovered,
        sync_state: PeerSyncState::Unknown,
    }
}

/// Whether a peer record is stale at `now`: silent for longer than
/// `timeout_ms` and not yet expired.
pub open spec fn is_stale(p: PeerView, now: i64, timeout_ms: int) -> bool {
    now - p.last_seen > timeout_ms && p.connection_state != PeerConnectionState::Expired
}

pub open spec fn expired_peer(p: PeerView) -> PeerView {
    PeerView { connection_state: PeerConnectionState::Expired, sync_state: PeerSyncState::Unknown, ..p }
}

pub open spec fn after_expiry(ps: Seq<PeerView>, now: i64, timeout_ms: int) -> Seq<PeerView> {
    ps.map_values(
        |p: PeerView|
            if is_stale(p, now, timeout_ms) {
                expired_peer(p)
            } else {
                p
            },
    )
}

/// The ids of the stale records, in registry order.
pub open spec fn stale_ids(ps: Seq<PeerView>, now: i64, timeout_ms: int) -> Seq<Seq<char>>
    decreases ps.len(),
{
    if ps.len() == 0 {
        Seq::empty()
    } else {
        let rest = stale_ids(ps.drop_last(), now, timeout_ms);
        if is_stale(ps.last(), now, timeout_ms) {
            rest.push(ps.last().peer_id)
        } else {
            rest
        }
    }
}

/// The timeout `expire_stale` applies: the given one in milliseconds, or
/// 45 s when it is too long for a time difference.
pub open spec fn effective_timeout_ms(timeout_ms: u64) -> int {
    if timeout_ms > 0x7fff_ffff_ffff_ffff {
        45000
    } else {
        timeout_ms as int
    }
}

impl Default for PeerRegistry {
    fn default() -> (r: Self)
        ensures
            r@.len() == 0,
            r.wf(),
    {
        PeerRegistry { peers: Vec::new() }
    }
}

impl View for PeerRegistry {
    type V = Seq<PeerView>;

    closed spec fn view(&self) -> Seq<PeerView> {
        peer_views(self.peers@)
    }
}

fn contains_address(v: &Vec<PeerAddress>, a: PeerAddress) -> (r: bool)
    ensures
        r == v@.contains(a),
{
    let mut i: usize = 0;
    while i < v.len()
        invariant
            i <= v@.len(),
            forall|k: int| 0 <= k < i ==> v@[k] != a,
        decreases v@.len() - i,
    {
        if v[i] == a {
            assert(v@[i as int] == a);
            return true;
        }
        i = i + 1;
    }
    false
}

/// What hearing a discovery packet does to the registry at `now`:
/// packets of another protocol and the local peer's own are ignored; a known
/// peer is refreshed, an unknown one added.
pub open spec fn observe_outcome(
    before: Seq<PeerView>,
    after: Seq<PeerView>,
    local: LocalPeerIdentity,
    packet: DiscoveryPacket,
    address: PeerAddress,
    now: i64,
    r: PeerObservation,
) -> bool {
    &&& (packet.protocol_name@ != PROTOCOL_NAME@ || packet.protocol_version != PROTOCOL_VERSION
                ==> r@ == ObservationView::IgnoredIncompatible && after == before)
    &&& (packet.protocol_name@ == PROTOCOL_NAME@ && packet.protocol_version == PROTOCOL_VERSION
                && packet.device_id == local.device_id && packet.session_id == local.session_id
                ==> r@ == ObservationView::IgnoredSelf && after == before)
    &&& (({
                let id = peer_id_text(packet.device_id, packet.session_id);
                let p = id_position(before, id);
                let addr = reach_address(address, packet.local_api_port);
                packet.protocol_name@ == PROTOCOL_NAME@ && packet.protocol_version == PROTOCOL_VERSION
                    && !(packet.device_id == local.device_id && packet.session_id == local.session_id)
                    ==> if p < before.len() {
                    &&& r@ == ObservationView::Updated(id)
                    &&& after == before.update(
                        p,
                        refreshed(
                            before[p],
                            packet.display_name@,
                            views_of(packet.capabilities@),
                            addr,
                            now,
                        ),
                    )
                } else {
                    &&& r@ == ObservationView::Discovered(id)
                    &&& after == before.push(
                        discovered_peer(
                            packet.device_id,
                            packet.session_id,
                            packet.display_name@,
                            views_of(packet.capabilities@),
                            packet.protocol_version,
                            addr,
                            now,
                        ),
                    )
                }
            }))
}

proof fn lemma_id_position_found(ps: Seq<PeerView>, id: Seq<char>)
    ensures
        id_position(ps, id) < ps.len() ==> ps[id_position(ps, id)].peer_id == id,
    decreases ps.len(),
{
    if ps.len() > 0 && ps[0].peer_id != id {
        lemma_id_position_found(ps.drop_first(), id);
        lemma_id_position_bounds(ps.drop_first(), id);
        if id_position(ps, id) < ps.len() {
            assert(ps[id_position(ps, id)] == ps.drop_first()[id_position(ps.drop_first(), id)]);
        }
    }
}

/// A peer that is heard from is online again: after an observation that
/// discovers or refreshes it, the peer's record is `Discovered` and last
/// seen `now`, whatever state it was in before (expired included). A
/// refresh touches no other record and adds none.
pub proof fn law_heard_peer_is_discovered(
    before: Seq<PeerView>,
    after: Seq<PeerView>,
    local: LocalPeerIdentity,
    packet: DiscoveryPacket,
    address: PeerAddress,
    now: i64,
    r: PeerObservation,
)
    requires
        observe_outcome(before, after, local, packet, address, now, r),
    ensures
        (r@ is Updated || r@ is Discovered) ==> exists|i: int|
            0 <= i < after.len() && #[trigger] after[i].peer_id == peer_id_text(packet.device_id, packet.session_id)
                && after[i].connection_state == PeerConnectionState::Discovered && after[i].last_seen == now,
        r@ is Updated ==> after.len() == before.len() && forall|i: int|
            0 <= i < before.len() && before[i].peer_id != peer_id_text(packet.device_id, packet.session_id)
                ==> #[trigger] after[i] == before[i],
{
    let id = peer_id_text(packet.device_id, packet.session_id);
    lemma_id_position_bounds(before, id);
    lemma_id_position_found(before, id);
    let p = id_position(before, id);
    if r@ is Updated {
        assert(after[p].peer_id == id);
    } else if r@ is Discovered {
        assert(after[before.len() as int].peer_id == id);
    }
}

impl PeerRegistry {
    pub closed spec fn wf(&self) -> bool {
        ids_distinct(self@)
    }

    /// Records a discovery packet heard at `now` from `address`: packets of
    /// another protocol and this peer's own packets are ignored; a known peer
    /// is refreshed, an unknown one added.
    pub fn observe_at(
        &mut self,
        local: &LocalPeerIdentity,
        packet: DiscoveryPacket,
        address: PeerAddress,
        now: i64,
    ) -> (r: PeerObservation)
        requires
            old(self).wf(),
        ensures
            final(self).wf(),
            observe_outcome(old(self)@, final(self)@, *local, packet, address, now, r),
    {
        if !str_eq(packet.protocol_name.as_str(), PROTOCOL_NAME) || packet.protocol_version
            != PROTOCOL_VERSION {
            return PeerObservation::IgnoredIncompatible;
        }
        if packet.device_id == local.device_id && packet.session_id == local.session_id {
            return PeerObservation::IgnoredSelf;
        }
        let addr = match packet.local_api_port {
            Some(port) => PeerAddress { ip: address.ip, port },
            None => address,
        };
        let peer_id = packet.peer_id();
        let ghost ps = self@;
        let mut i: usize = 0;
        while i < self.peers.len() && !self.peers[i].peer_id.eq(&peer_id)
            invariant
                i <= self.peers@.len(),
                ps == peer_views(self.peers@),
                forall|k: int| 0 <= k < i ==> self.peers@[k]@.peer_id != peer_id@,
            decreases self.peers@.len() - i,
        {
            i = i + 1;
        }
        proof {
            lemma_id_position(ps, peer_id@, i as int);
        }
        if i < self.peers.len() {
            let old_rec = self.peers[i].copy();
            let mut addresses = old_rec.addresses.clone();
            if !contains_address(&addresses, addr) {
                addresses.push(addr);
            }
            let rec = PeerRecord {
                peer_id: old_rec.peer_id,
                device_id: old_rec.device_id,
                session_id: old_rec.session_id,
                display_name: packet.display_name,
                addresses,
                protocol_version: old_rec.protocol_version,
                capabilities: packet.capabilities,
                first_seen: old_rec.first_seen,
                last_seen: now,
                connection_state: PeerConnectionState::Discovered,
                sync_state: old_rec.sync_state,
            };
            let ghost rv = rec@;
            self.peers.set(i, rec);
            proof {
                assert(self@ =~= ps.update(i as int, rv));
                assert forall|a: int, b: int| 0 <= a < b < self@.len() implies self@[a].peer_id
                    != self@[b].peer_id by {
                    assert(self@[a].peer_id == ps[a].peer_id);
                    assert(self@[b].peer_id == ps[b].peer_id);
                }
            }
            PeerObservation::Updated(peer_id)
        } else {
            let mut addresses: Vec<PeerAddress> = Vec::new();
            addresses.push(addr);
            let rec = PeerRecord {
                peer_id: peer_id.clone(),
                device_id: packet.device_id,
                session_id: packet.session_id,
                display_name: packet.display_name,
                addresses,
                protocol_version: packet.protocol_version,
                capabilities: packet.capabilities,
                first_seen: now,
                last_seen: now,
                connection_state: PeerConnectionState::Discovered,
                sync_state: PeerSyncState::Unknown,
            };
            let ghost rv = rec@;
            self.peers.push(rec);
            proof {
                assert(rv.addresses =~= seq![addr]);
                assert(self@ =~= ps.push(rv));
            }
            PeerObservation::Discovered(peer_id)
        }
    }

    /// Records a discovery packet heard now.
    pub fn observe(&mut self, local: &LocalPeerIdentity, packet: DiscoveryPacket, address: PeerAddress) -> (r:
        PeerObservation)
        requires
            old(self).wf(),
        ensures
            final(self).wf(),
            exists|now: i64| #[trigger] observe_outcome(old(self)@, final(self)@, *local, packet, address, now, r),
    {
        let now = crate::ids::now_millis();
        proof {
            lemma_id_position_bounds(self@, peer_id_text(packet.device_id, packet.session_id));
        }
        self.observe_at(local, packet, address, now)
    }

    /// Marks every stale peer expired, with an unknown sync state, and
    /// returns their ids in registry order. A timeout too long for a time
    /// difference counts as 45 s.
    pub fn expire_stale(&mut self, now: i64, timeout_ms: u64) -> (r: Vec<String>)
        requires
            old(self).wf(),
        ensures
            final(self).wf(),
            final(self)@ == after_expiry(old(self)@, now, effective_timeout_ms(timeout_ms)),
            views_of(r@) == stale_ids(old(self)@, now, effective_timeout_ms(timeout_ms)),
    {
        let timeout: i128 = if timeout_ms > 0x7fff_ffff_ffff_ffffu64 {
            45000
        } else {
            timeout_ms as i128
        };
        let ghost t = effective_timeout_ms(timeout_ms);
        let ghost ps = self@;
        let mut expired: Vec<String> = Vec::new();
        let mut i: usize = 0;
        while i < self.peers.len()
            invariant
                i <= self.peers@.len(),
                ps.len() == self.peers@.len(),
                timeout == t,
                forall|k: int| 0 <= k < i ==> self@[k] == after_expiry(ps, now, t)[k],
                forall|k: int| i <= k < self.peers@.len() ==> self@[k] == ps[k],
                views_of(expired@) == stale_ids(ps.subrange(0, i as int), now, t),
            decreases self.peers@.len() - i,
        {
            proof {
                assert(ps.subrange(0, i + 1).drop_last() =~= ps.subrange(0, i as int));
                assert(ps[i as int] == self@[i as int]);
            }
            let stale = (now as i128) - (self.peers[i].last_seen as i128) > timeout
                && self.peers[i].connection_state != PeerConnectionState::Expired;
            if stale {
                let old_rec = self.peers[i].copy();
                let ghost before = self@;
                let ghost before_ids = expired@;
                expired.push(old_rec.peer_id.clone());
                let rec = PeerRecord {
                    connection_state: PeerConnectionState::Expired,
                    sync_state: PeerSyncState::Unknown,
                    ..old_rec
                };
                self.peers.set(i, rec);
                proof {
                    assert(views_of(expired@) =~= views_of(before_ids).push(ps[i as int].peer_id));
                    assert forall|k: int| 0 <= k < i + 1 implies self@[k] == after_expiry(ps, now, t)[k] by {
                        if k < i {
                            assert(self@[k] == before[k]);
                        }
                    }
                    assert forall|k: int| i + 1 <= k < self.peers@.len() implies self@[k] == ps[k] by {
                        assert(self@[k] == before[k]);
                    }
                }
            }
            i = i + 1;
        }
        proof {
            assert(self@ =~= after_expiry(ps, now, t));
            assert(ps.subrange(0, ps.len() as int) =~= ps);
            assert forall|a: int, b: int| 0 <= a < b < self@.len() implies self@[a].peer_id
                != self@[b].peer_id by {
                assert(self@[a].peer_id == ps[a].peer_id);
                assert(self@[b].peer_id == ps[b].peer_id);
            }
        }
        expired
    }
}

/// A LAN discovery service: the settings and the identity it announces.
#[derive(Debug)]
pub struct LanDiscoveryService {
    pub config: SyncConfig,
    pub identity: LocalPeerIdentity,
}

/// What one discovery round does: nothing when discovery is off, otherwise
/// listen on the discovery port and announce to both multicast groups.
#[derive(Debug, Clone, Copy, PartialEq, Eq, Structural)]
pub enum DiscoveryPlan {
    Skip,
    Listen { port: u16, ipv4_group: u32, ipv6_group: u128 },
}

impl LanDiscoveryService {
    pub fn discovery_packet(&self) -> (r: DiscoveryPacket)
        ensures
            r.protocol_name@ == PROTOCOL_NAME@,
            r.protocol_version == PROTOCOL_VERSION,
            r.device_id == self.identity.device_id,
            r.session_id == self.identity.session_id,
            r.display_name@ == self.identity.display_name@,
    {
        DiscoveryPacket::from_identity(&self.identity)
    }

    /// The plan for one discovery round; a disabled service observes nothing.
    pub fn discovery_plan(&self) -> (r: DiscoveryPlan)
        ensures
            !self.config.enable_lan_discovery ==> r == DiscoveryPlan::Skip,
            self.config.enable_lan_discovery ==> r == (DiscoveryPlan::Listen {
                port: self.config.discovery_port,
                ipv4_group: self.config.ipv4_multicast_address,
                ipv6_group: self.config.ipv6_multicast_address,
            }),
    {
        if !self.config.enable_lan_discovery {
            DiscoveryPlan::Skip
        } else {
            DiscoveryPlan::Listen {
                port: self.config.discovery_port,
                ipv4_group: self.config.ipv4_multicast_address,
                ipv6_group: self.config.ipv6_multicast_address,
            }
        }
    }
}

/// Sorted by display name, ties in any order.
pub open spec fn sorted_by_name(ps: Seq<PeerView>) -> bool {
    forall|i: int, j: int|
        0 <= i < j < ps.len() ==> !crate::text::seq_lt(ps[j].display_name, ps[i].display_name)
}

impl PeerRegistry {
    /// The known peers, sorted by display name.
    pub fn list(&self) -> (r: Vec<PeerRecord>)
        ensures
            peer_views(r@).to_multiset() == self@.to_multiset(),
            sorted_by_name(peer_views(r@)),
    {
        let mut r: Vec<PeerRecord> = Vec::new();
        let mut i: usize = 0;
        assert(peer_views(r@) =~= self@.subrange(0, 0));
        while i < self.peers.len()
            invariant
                i <= self.peers@.len(),
                peer_views(r@).to_multiset() == self@.subrange(0, i as int).to_multiset(),
                sorted_by_name(peer_views(r@)),
            decreases self.peers@.len() - i,
        {
            let rec = self.peers[i].copy();
            let name = crate::text::chars_of(rec.display_name.as_str());
            let mut p: usize = 0;
            let ghost rs = peer_views(r@);
            while p < r.len() && !crate::text::chars_lt(
                name.as_slice(),
                crate::text::chars_of(r[p].display_name.as_str()).as_slice(),
            )
                invariant
                    p <= r@.len(),
                    rs == peer_views(r@),
                    name@ == rec@.display_name,
                    forall|k: int| 0 <= k < p ==> !crate::text::seq_lt(rec@.display_name, rs[k].display_name),
                decreases r@.len() - p,
            {
                p = p + 1;
            }
            let ghost x = rec@;
            r.insert(p, rec);
            proof {
                assert(peer_views(r@) =~= rs.insert(p as int, x));
                vstd::seq_lib::to_multiset_insert(rs, p as int, x);
                assert(self@.subrange(0, i + 1) =~= self@.subrange(0, i as int).push(self@[i as int]));
                vstd::seq_lib::to_multiset_build(self@.subrange(0, i as int), self@[i as int]);
                let ns = peer_views(r@);
                assert forall|a: int, b: int| 0 <= a < b < ns.len() implies !crate::text::seq_lt(
                    ns[b].display_name,
                    ns[a].display_name,
                ) by {
                    if b < p {
                        assert(ns[a] == rs[a] && ns[b] == rs[b]);
                    } else if b == p {
                        assert(ns[a] == rs[a]);
                    } else if a == p {
                        assert(ns[b] == rs[b - 1]);
                        if p < rs.len() {
                            crate::text::lemma_seq_lt_asymmetric(x.display_name, rs[p as int].display_name);
                            crate::text::lemma_seq_lt_transitive(
                                rs[b - 1].display_name,
                                x.display_name,
                                rs[p as int].display_name,
                            );
                        }
                    } else if a < p {
                        assert(ns[a] == rs[a] && ns[b] == rs[b - 1]);
                    } else {
                        assert(ns[a] == rs[a - 1] && ns[b] == rs[b - 1]);
                    }
                }
            }
            i = i + 1;
        }
        assert(self@.subrange(0, self@.len() as int) =~= self@);
        r
    }
}

} // verus!
