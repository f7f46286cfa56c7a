use ham_sync::peers::{
    DiscoveryPacket, DiscoveryPlan, IpAddress, LanDiscoveryService, PeerAddress,
    PeerConnectionState, PeerObservation, PeerRegistry, PeerSyncState, SyncConfig,
};
use ham_sync::replication::{LocalPeerIdentity, PROTOCOL_NAME, PROTOCOL_VERSION};

fn local() -> LocalPeerIdentity {
    LocalPeerIdentity::new("Local".to_owned(), Some(9738))
}

fn v4(a: u8, b: u8, c: u8, d: u8, port: u16) -> PeerAddress {
    PeerAddress { ip: IpAddress::V4(u32::from_be_bytes([a, b, c, d])), port }
}

#[test]
fn config_defaults_are_safe() {
    let config = SyncConfig::default();
    assert!(config.enable_lan_discovery);
    assert_eq!(config.discovery_port, 9737);
    assert_eq!(config.peer_timeout_seconds, 45);
    assert_eq!(config.ipv4_multicast_address, u32::from_be_bytes([239, 73, 89, 71]));
}

#[test]
fn disabled_lan_discovery_returns_no_observations() {
    let config = SyncConfig { enable_lan_discovery: false, ..SyncConfig::default() };
    let service = LanDiscoveryService { config, identity: local() };
    assert_eq!(service.discovery_plan(), DiscoveryPlan::Skip);
}

#[test]
fn discovery_packet_carries_the_protocol() {
    let identity = local();
    let packet = DiscoveryPacket::from_identity(&identity);
    assert_eq!(packet.protocol_name, PROTOCOL_NAME);
    assert_eq!(packet.protocol_version, PROTOCOL_VERSION);
    assert_eq!(packet.peer_id().len(), 73);
    let at = DiscoveryPacket::from_identity_at(&identity, 5);
    assert_eq!(at.timestamp, 5);
    assert_eq!(at.display_name, "Local");
}

#[test]
fn self_and_incompatible_discovery_are_ignored() {
    let local = local();
    let mut registry = PeerRegistry::default();
    let address = v4(127, 0, 0, 1, 9738);
    assert!(matches!(
        registry.observe(&local, DiscoveryPacket::from_identity(&local), address),
        PeerObservation::IgnoredSelf
    ));
    let mut packet = DiscoveryPacket::from_identity(&LocalPeerIdentity::new("Peer".to_owned(), Some(9738)));
    packet.protocol_version = 999;
    assert!(matches!(registry.observe(&local, packet, address), PeerObservation::IgnoredIncompatible));
    assert!(registry.list().is_empty());
}

#[test]
fn peer_registry_adds_updates_and_expires() {
    let local = local();
    let mut registry = PeerRegistry::default();
    let peer = LocalPeerIdentity::new("Peer".to_owned(), Some(9738));
    let address = v4(192, 0, 2, 10, 9738);
    assert!(matches!(
        registry.observe_at(&local, DiscoveryPacket::from_identity(&peer), address, 1_000),
        PeerObservation::Discovered(_)
    ));
    assert!(matches!(
        registry.observe_at(&local, DiscoveryPacket::from_identity(&peer), address, 2_000),
        PeerObservation::Updated(_)
    ));
    let expired = registry.expire_stale(2_000 + 60_000, 1_000);
    assert_eq!(expired.len(), 1);
    let peers = registry.list();
    assert_eq!(peers[0].connection_state, PeerConnectionState::Expired);
    assert_eq!(peers[0].sync_state, PeerSyncState::Unknown);
    assert!(registry.expire_stale(2_000 + 120_000, 1_000).is_empty());
}

#[test]
fn peer_registry_uses_advertised_api_port() {
    let local = local();
    let mut registry = PeerRegistry::default();
    let packet = DiscoveryPacket::from_identity(&LocalPeerIdentity::new("Peer".to_owned(), Some(9468)));
    registry.observe(&local, packet, v4(192, 0, 2, 10, 58124));
    let peers = registry.list();
    assert_eq!(peers.len(), 1);
    assert_eq!(peers[0].addresses, vec![v4(192, 0, 2, 10, 9468)]);
}

#[test]
fn peers_list_sorted_by_display_name() {
    let local = local();
    let mut registry = PeerRegistry::default();
    for name in ["Zulu", "alpha", "Mike"] {
        let packet = DiscoveryPacket::from_identity(&LocalPeerIdentity::new(name.to_owned(), None));
        registry.observe_at(&local, packet, v4(10, 0, 0, 1, 9738), 0);
    }
    let names: Vec<String> = registry.list().into_iter().map(|p| p.display_name).collect();
    assert_eq!(names, vec!["Mike", "Zulu", "alpha"]);
}

#[test]
fn an_overlong_timeout_counts_as_forty_five_seconds() {
    let local = local();
    let mut registry = PeerRegistry::default();
    let packet = DiscoveryPacket::from_identity(&LocalPeerIdentity::new("Peer".to_owned(), None));
    registry.observe_at(&local, packet, v4(10, 0, 0, 2, 1), 0);
    assert!(registry.expire_stale(45_000, u64::MAX).is_empty());
    assert_eq!(registry.expire_stale(45_001, u64::MAX).len(), 1);
}
