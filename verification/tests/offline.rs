use ham_sync::conflicts::conflict_report_from_preview;
use ham_sync::events::EventEnvelope;
use ham_sync::offline::{
    JsonOfflineMutationQueue, OfflineMutationDependency, OfflineMutationEnvelope,
    OfflineMutationInput, OfflineMutationStatus, OfflineQueue, OfflineQueueError,
    OFFLINE_OP_QSO_CREATE, OFFLINE_OP_QSO_DELETE,
};
use ham_sync::replication::{PreviewPullResponse, ReplicationStatus};

const NOW: i64 = 1_780_000_000_000;

fn input(logbook_id: u128, device_id: u128, operation_type: &str) -> OfflineMutationInput {
    OfflineMutationInput::new(logbook_id, device_id, 99, operation_type.to_owned(), "{\"field\":\"value\"}".to_owned())
}

fn event_for(mutation: &OfflineMutationEnvelope, hash: &str) -> EventEnvelope {
    EventEnvelope {
        event_id: mutation.operation_id ^ 0xffff,
        event_type: "log.qso.created".to_owned(),
        logbook_id: mutation.logbook_id,
        entity_id: None,
        previous_hash: None,
        event_hash: hash.to_owned(),
        timestamp: NOW,
        author_operator_id: None,
        station_callsign: "KE8YGW".to_owned(),
        operator_callsign: Some("KE8YGW".to_owned()),
        author_device_id: mutation.device_id,
        source_device_id: mutation.device_id,
        correlation_id: mutation.correlation_id,
        source_plugin_id: Some("test".to_owned()),
        schema_version: 1,
        payload: "{}".to_owned(),
    }
}

#[test]
fn enqueue_is_idempotent_and_ordered_per_logbook() {
    let mut queue = OfflineQueue::new();
    let (logbook_id, device_id, operation_id) = (1u128, 2u128, 3u128);
    let first = queue
        .enqueue_input(
            input(logbook_id, device_id, OFFLINE_OP_QSO_CREATE)
                .with_operation_id(operation_id)
                .with_idempotency_key("qso-create-1".to_owned()),
            NOW,
        )
        .unwrap();
    let duplicate = queue
        .enqueue_input(
            input(logbook_id, device_id, OFFLINE_OP_QSO_CREATE)
                .with_operation_id(operation_id)
                .with_idempotency_key("qso-create-1".to_owned()),
            NOW,
        )
        .unwrap();
    let second = queue.enqueue_input(input(logbook_id, device_id, OFFLINE_OP_QSO_DELETE), NOW).unwrap();
    assert_eq!(first.operation_id, duplicate.operation_id);
    assert_eq!(first.sequence, 1);
    assert_eq!(second.sequence, 2);
    assert_eq!(queue.snapshot(NOW).health.pending, 2);
}

#[test]
fn unsupported_schema_and_duplicate_sequence_stop_safely() {
    let mut source = OfflineQueue::new();
    let mut bad = source.enqueue_input(input(1, 2, OFFLINE_OP_QSO_CREATE), NOW).unwrap();
    bad.schema_version = 999;
    assert!(matches!(
        OfflineQueue::from_parts(1, Vec::new(), vec![bad]),
        Err(OfflineQueueError::UnsupportedMutationSchema { schema_version: 999, .. })
    ));
    let a = source.enqueue_input(input(5, 2, OFFLINE_OP_QSO_CREATE), NOW).unwrap();
    let mut b = source.enqueue_input(input(5, 2, OFFLINE_OP_QSO_DELETE), NOW).unwrap();
    b.sequence = a.sequence;
    assert!(matches!(
        OfflineQueue::from_parts(1, Vec::new(), vec![a, b]),
        Err(OfflineQueueError::DuplicateSequence { logbook_id: 5, sequence: 1 })
    ));
    assert!(matches!(
        OfflineQueue::from_parts(2, Vec::new(), Vec::new()),
        Err(OfflineQueueError::UnsupportedFileVersion(2))
    ));
}

#[test]
fn loading_orders_mutations_by_logbook_and_sequence() {
    let mut source = OfflineQueue::new();
    let a1 = source.enqueue_input(input(9, 2, OFFLINE_OP_QSO_CREATE), NOW).unwrap();
    let a2 = source.enqueue_input(input(9, 2, OFFLINE_OP_QSO_DELETE), NOW).unwrap();
    let b1 = source.enqueue_input(input(4, 2, OFFLINE_OP_QSO_CREATE), NOW).unwrap();
    let queue = OfflineQueue::from_parts(1, vec![(9, 3)], vec![a2, b1, a1]).unwrap();
    let order: Vec<(u128, u64)> = queue.mutations().iter().map(|m| (m.logbook_id, m.sequence)).collect();
    assert_eq!(order, vec![(4, 1), (9, 1), (9, 2)]);
    assert_eq!(queue.next_sequence(9), 3);
    assert_eq!(queue.next_sequence(4), 2);
}

#[test]
fn ready_batch_respects_local_event_and_queue_order() {
    let mut queue = OfflineQueue::new();
    let (logbook_id, device_id) = (1u128, 2u128);
    let first = queue.enqueue_input(input(logbook_id, device_id, OFFLINE_OP_QSO_CREATE), NOW).unwrap();
    let second = queue.enqueue_input(input(logbook_id, device_id, OFFLINE_OP_QSO_DELETE), NOW).unwrap();
    let first_event = event_for(&first, "hash-first");
    queue.record_local_event(first.operation_id, &first_event, NOW).unwrap();
    let batch = queue.ready_event_batch(logbook_id, &vec![first_event.copy()], NOW);
    assert_eq!(batch.operation_ids, vec![first.operation_id]);
    assert_eq!(batch.events.len(), 1);
    assert!(batch.events[0].same_as(&first_event));
    assert_eq!(batch.missing_local_event_operation_ids, vec![second.operation_id]);

    let second_event = event_for(&second, "hash-second");
    queue.record_local_event(second.operation_id, &second_event, NOW).unwrap();
    queue.mark_accepted(first.operation_id, NOW).unwrap();
    let next_batch = queue.ready_event_batch(logbook_id, &vec![second_event.copy()], NOW);
    assert_eq!(next_batch.operation_ids, vec![second.operation_id]);
    assert!(next_batch.events[0].same_as(&second_event));
}

#[test]
fn interrupted_send_recovers_with_retry_backoff() {
    let mut queue = OfflineQueue::new();
    let mutation = queue.enqueue_input(input(1, 2, OFFLINE_OP_QSO_CREATE), NOW).unwrap();
    queue.mark_sending(mutation.operation_id, NOW).unwrap();
    assert_eq!(queue.recover_interrupted_writes(NOW), 1);
    assert_eq!(queue.snapshot(NOW).health.retrying, 1);
    let retry = queue
        .record_transient_failure(
            mutation.operation_id,
            "network unavailable".to_owned(),
            Some("network_unavailable".to_owned()),
            NOW,
        )
        .unwrap();
    assert_eq!(retry.status, OfflineMutationStatus::Retrying);
    assert!(retry.next_attempt_at.is_some());
}

#[test]
fn accepted_hash_acknowledges_matching_mutations_only() {
    let mut queue = OfflineQueue::new();
    let mutation = queue.enqueue_input(input(1, 2, OFFLINE_OP_QSO_CREATE), NOW).unwrap();
    let other = queue.enqueue_input(input(1, 2, OFFLINE_OP_QSO_DELETE), NOW).unwrap();
    let event = event_for(&mutation, "hash-accepted");
    queue.record_local_event(mutation.operation_id, &event, NOW).unwrap();
    queue.record_local_event(other.operation_id, &event_for(&other, "hash-other"), NOW).unwrap();
    assert_eq!(queue.mark_accepted_by_event_hashes(&vec!["hash-accepted".to_owned()], NOW), 1);
    let snapshot = queue.snapshot(NOW);
    assert_eq!(snapshot.health.accepted, 1);
    assert_eq!(snapshot.health.total, 2);
}

#[test]
fn snapshot_counts_ready_work_over_all_logbooks() {
    let mut queue = OfflineQueue::new();
    queue.enqueue_input(input(1, 2, OFFLINE_OP_QSO_CREATE), NOW).unwrap();
    queue.enqueue_input(input(1, 2, OFFLINE_OP_QSO_DELETE), NOW + 5).unwrap();
    let blocked = queue.enqueue_input(input(7, 2, OFFLINE_OP_QSO_CREATE), NOW + 9).unwrap();
    queue.mark_blocked(blocked.operation_id, "needs review".to_owned(), NOW + 10).unwrap();
    let health = queue.snapshot(NOW + 20).health;
    assert_eq!(health.total, 3);
    assert_eq!(health.pending, 2);
    assert_eq!(health.blocked, 1);
    assert_eq!(health.ready_to_send, 2);
    assert_eq!(health.oldest_pending_at, Some(NOW));
    assert_eq!(health.newest_update_at, Some(NOW + 10));
    let path = JsonOfflineMutationQueue::new("/tmp/q.json".to_owned());
    assert_eq!(path.path(), "/tmp/q.json");
}

#[test]
fn conflict_report_requires_manual_review_for_divergent_heads() {
    let preview = PreviewPullResponse {
        peer_id: "peer".to_owned(),
        logbook_id: 11,
        status: ReplicationStatus::Diverged,
        local_head_hash: Some("local".to_owned()),
        remote_head_hash: Some("remote".to_owned()),
        missing_event_count: 0,
        remote_event_count: 2,
        events: Vec::new(),
        message: "Remote chain does not contain the local head".to_owned(),
    };
    let report = conflict_report_from_preview(&preview, &Vec::new(), NOW);
    assert_eq!(report.conflicts.len(), 1);
    assert!(!report.conflicts[0].safe_auto_merge);
    assert!(report.conflicts[0].requires_user_action);
}

#[test]
fn waiting_dependencies_are_reported_and_in_sync_needs_nothing() {
    let mut queue = OfflineQueue::new();
    let waiting = queue
        .enqueue_input(
            input(11, 2, OFFLINE_OP_QSO_CREATE)
                .with_dependencies(vec![OfflineMutationDependency::operation(0x42)]),
            NOW,
        )
        .unwrap();
    let preview = PreviewPullResponse {
        peer_id: "peer".to_owned(),
        logbook_id: 11,
        status: ReplicationStatus::RemoteAhead,
        local_head_hash: None,
        remote_head_hash: Some("remote".to_owned()),
        missing_event_count: 1,
        remote_event_count: 1,
        events: Vec::new(),
        message: "1 remote events are available to pull".to_owned(),
    };
    let report = conflict_report_from_preview(&preview, &vec![waiting.copy()], NOW);
    assert_eq!(report.pending_operation_count, 1);
    assert_eq!(report.conflicts.len(), 1);
    assert_eq!(report.conflicts[0].related_operation_ids, vec![0x42]);
    assert_eq!(
        report.recommended_action,
        "Manual review is required before merging or replaying additional events."
    );
    let quiet = PreviewPullResponse { status: ReplicationStatus::InSync, ..preview };
    let none = conflict_report_from_preview(&quiet, &Vec::new(), NOW);
    assert!(none.conflicts.is_empty());
    assert_eq!(none.recommended_action, "No sync conflict requires action.");
}

#[test]
fn transient_failures_back_off_exponentially_then_fail() {
    let mut queue = OfflineQueue::new();
    let mutation = queue.enqueue_input(input(1, 2, OFFLINE_OP_QSO_CREATE), NOW).unwrap();
    let (backoff, max_backoff, max_attempts) = (mutation.backoff_seconds, mutation.max_backoff_seconds, mutation.max_attempts);
    let mut attempts = 0u32;
    while attempts + 1 < max_attempts {
        let sent = queue.mark_sending(mutation.operation_id, NOW).unwrap();
        attempts = sent.attempts;
        let retry = queue
            .record_transient_failure(mutation.operation_id, "offline".to_owned(), Some("network".to_owned()), NOW)
            .unwrap();
        let exponent = attempts.saturating_sub(1).min(16);
        let delay = backoff.saturating_mul(1u64 << exponent).min(max_backoff).max(1);
        assert_eq!(retry.status, OfflineMutationStatus::Retrying);
        assert_eq!(retry.next_attempt_at, Some(NOW + delay as i64 * 1000));
        assert_eq!(retry.failure_reason.as_deref(), Some("offline"));
        assert_eq!(retry.last_error_code.as_deref(), Some("network"));
    }
    queue.mark_sending(mutation.operation_id, NOW).unwrap();
    let failed = queue.record_transient_failure(mutation.operation_id, "offline".to_owned(), None, NOW).unwrap();
    assert_eq!(failed.status, OfflineMutationStatus::Failed);
    assert_eq!(failed.next_attempt_at, None);
    assert!(matches!(
        queue.record_transient_failure(0xdead, "x".to_owned(), None, NOW),
        Err(OfflineQueueError::MutationNotFound(0xdead))
    ));
}
