use ham_sync::events::EventEnvelope;
use ham_sync::replication::{
    build_handshake_response, compare_heads, preview_pull_from_events, verify_incoming_chain,
    HandshakeRequest, HeadComparisonStatus, LocalPeerIdentity, LogbookHeadSummary,
    PreviewPullRequest, ReplicationError, ReplicationStatus, PROTOCOL_VERSION,
};

fn event(logbook_id: u128, index: u128, previous_hash: Option<String>) -> EventEnvelope {
    EventEnvelope {
        event_id: 1000 + index,
        event_type: "official.log.qso.created".to_owned(),
        logbook_id,
        entity_id: Some(2000 + index),
        previous_hash,
        event_hash: format!("hash-{logbook_id}-{index}"),
        timestamp: 1_780_000_000_000 + index as i64,
        author_operator_id: None,
        station_callsign: "KE8YGW".to_owned(),
        operator_callsign: Some("KE8YGW".to_owned()),
        author_device_id: 7,
        source_device_id: 7,
        correlation_id: 3000 + index,
        source_plugin_id: Some("sync-test".to_owned()),
        schema_version: 1,
        payload: "{}".to_owned(),
    }
}

fn remote_chain(logbook_id: u128, count: usize) -> Vec<EventEnvelope> {
    let mut events = Vec::new();
    let mut previous_hash = None;
    for index in 0..count {
        let e = event(logbook_id, index as u128, previous_hash);
        previous_hash = Some(e.event_hash.clone());
        events.push(e);
    }
    events
}

fn summary(id: u128, head: Option<&str>, count: Option<u64>) -> LogbookHeadSummary {
    LogbookHeadSummary { logbook_id: id, head_hash: head.map(str::to_owned), event_count: count }
}

#[test]
fn handshake_serializes_and_compares_heads() {
    let logbook_id = 0x51;
    let request = HandshakeRequest {
        protocol_version: PROTOCOL_VERSION,
        device_id: 1,
        session_id: 2,
        supported_capabilities: vec!["handshake.v1".to_owned()],
        logbooks: vec![summary(logbook_id, Some("abc"), Some(2))],
    };
    let local = summary(logbook_id, Some("abc"), Some(2));
    assert_eq!(compare_heads(&local, &request.logbooks[0]), HeadComparisonStatus::Match);
}

#[test]
fn head_comparison_statuses() {
    let id = 9;
    assert_eq!(
        compare_heads(&summary(id, Some("a"), Some(1)), &summary(id, Some("a"), Some(1))),
        HeadComparisonStatus::Match
    );
    assert_eq!(
        compare_heads(&summary(id, Some("a"), Some(2)), &summary(id, Some("b"), Some(1))),
        HeadComparisonStatus::LocalAhead
    );
    assert_eq!(
        compare_heads(&summary(id, Some("a"), Some(1)), &summary(id, Some("b"), Some(2))),
        HeadComparisonStatus::RemoteAhead
    );
    assert_eq!(
        compare_heads(&summary(id, Some("a"), Some(1)), &summary(id, Some("b"), Some(1))),
        HeadComparisonStatus::Diverged
    );
    assert_eq!(
        compare_heads(&summary(id, Some("a"), None), &summary(id, Some("b"), None)),
        HeadComparisonStatus::Unknown
    );
}

#[test]
fn head_comparison_mirrors_when_sides_swap() {
    let id = 9;
    let a = summary(id, Some("a"), Some(3));
    let b = summary(id, None, None);
    assert_eq!(compare_heads(&a, &b), HeadComparisonStatus::LocalAhead);
    assert_eq!(compare_heads(&b, &a), HeadComparisonStatus::RemoteAhead);
    assert_eq!(compare_heads(&b, &b), HeadComparisonStatus::Match);
}

#[test]
fn handshake_compares_only_shared_logbooks_and_refuses_other_versions() {
    let identity = LocalPeerIdentity::new("Local".to_owned(), Some(9738));
    let local_heads = vec![summary(1, Some("x"), Some(2)), summary(2, Some("y"), Some(1))];
    let request = HandshakeRequest {
        protocol_version: PROTOCOL_VERSION,
        device_id: 5,
        session_id: 6,
        supported_capabilities: Vec::new(),
        logbooks: vec![summary(2, Some("z"), Some(4)), summary(3, None, None)],
    };
    let response = build_handshake_response(&identity, &local_heads, &request);
    assert!(response.accepted);
    assert_eq!(response.peer_device_id, identity.device_id);
    assert_eq!(response.matching_logbooks.len(), 1);
    assert_eq!(response.matching_logbooks[0].logbook_id, 2);
    assert_eq!(response.matching_logbooks[0].status, HeadComparisonStatus::RemoteAhead);
    assert_eq!(response.supported_capabilities, vec!["discovery.v1", "handshake.v1", "head-compare.v1"]);

    let old = HandshakeRequest { protocol_version: 999, ..request };
    let refused = build_handshake_response(&identity, &local_heads, &old);
    assert!(!refused.accepted);
    assert_eq!(refused.reason.as_deref(), Some("incompatible protocol version"));
    assert!(refused.matching_logbooks.is_empty());
}

#[test]
fn preview_pull_with_no_missing_events_is_in_sync() {
    let logbook_id = 0x77;
    let remote = remote_chain(logbook_id, 2);
    let response = preview_pull_from_events(
        PreviewPullRequest {
            peer_id: "peer".to_owned(),
            logbook_id,
            local_head_hash: remote.last().map(|event| event.event_hash.clone()),
        },
        &remote,
    );
    assert_eq!(response.status, ReplicationStatus::InSync);
    assert_eq!(response.missing_event_count, 0);
}

#[test]
fn preview_pull_with_remote_ahead_counts_missing_events() {
    let logbook_id = 0x78;
    let remote = remote_chain(logbook_id, 3);
    let response = preview_pull_from_events(
        PreviewPullRequest {
            peer_id: "peer".to_owned(),
            logbook_id,
            local_head_hash: Some(remote[0].event_hash.clone()),
        },
        &remote,
    );
    assert_eq!(response.status, ReplicationStatus::RemoteAhead);
    assert_eq!(response.missing_event_count, 2);
    assert_eq!(response.message, "2 remote events are available to pull");
    assert_eq!(response.events.len(), 2);
    assert_eq!(response.events[0].event_hash, remote[1].event_hash);
}

#[test]
fn divergence_is_detected_when_remote_lacks_local_head() {
    let logbook_id = 0x79;
    let remote = remote_chain(logbook_id, 1);
    let response = preview_pull_from_events(
        PreviewPullRequest {
            peer_id: "peer".to_owned(),
            logbook_id,
            local_head_hash: Some("local-only-head".to_owned()),
        },
        &remote,
    );
    assert_eq!(response.status, ReplicationStatus::Diverged);
}

#[test]
fn preview_ignores_other_logbooks() {
    let mut remote = remote_chain(1, 2);
    remote.extend(remote_chain(2, 3));
    let response = preview_pull_from_events(
        PreviewPullRequest { peer_id: "p".to_owned(), logbook_id: 1, local_head_hash: None },
        &remote,
    );
    assert_eq!(response.status, ReplicationStatus::RemoteAhead);
    assert_eq!(response.remote_event_count, 2);
    assert_eq!(response.missing_event_count, 2);
    assert_eq!(response.remote_head_hash.as_deref(), Some(remote[1].event_hash.as_str()));
}

#[test]
fn incoming_chain_must_link_to_the_local_head() {
    let chain = remote_chain(4, 3);
    let ok = vec![None, None, None];
    assert!(verify_incoming_chain(4, None, &chain, &ok).is_ok());
    let tail: Vec<EventEnvelope> = chain[1..].iter().map(|e| e.copy()).collect();
    assert!(verify_incoming_chain(4, Some(chain[0].event_hash.clone()), &tail, &ok[1..].to_vec()).is_ok());
    assert!(matches!(
        verify_incoming_chain(4, Some("other".to_owned()), &tail, &ok[1..].to_vec()),
        Err(ReplicationError::PreviousHashMismatch { event_id, .. }) if event_id == tail[0].event_id
    ));
    assert!(matches!(
        verify_incoming_chain(5, None, &chain, &ok),
        Err(ReplicationError::LogbookMismatch { expected_logbook_id: 5, actual_logbook_id: 4, .. })
    ));
    let refused = vec![None, Some("unsupported schema version 9".to_owned()), None];
    assert!(matches!(
        verify_incoming_chain(4, None, &chain, &refused),
        Err(ReplicationError::Store(m)) if m == "unsupported schema version 9"
    ));
}
