use ham_sync::cloud::{
    check_push_logbook, plan_pull, push_response, CloudPushEventsResponse, IngestStep, IngestTally,
    PullEventsRequest, PullPlan, StoredLookup,
};
use ham_sync::events::EventEnvelope;
use ham_sync::offline::{OfflineMutationEnvelope, OfflineMutationInput, OfflineQueue, OFFLINE_OP_QSO_CREATE};
use ham_sync::replication::ReplicationStatus;

const LOGBOOK: u128 = 0x7777;
const DEVICE: u128 = 0x8888;
const NOW: i64 = 1_780_000_000_000;

fn local_chain(count: usize) -> Vec<EventEnvelope> {
    let mut events: Vec<EventEnvelope> = Vec::new();
    for index in 0..count {
        let previous_hash = events.last().map(|e| e.event_hash.clone());
        events.push(EventEnvelope {
            event_id: 0x1000 + index as u128,
            event_type: "official.log.qso.created".to_owned(),
            logbook_id: LOGBOOK,
            entity_id: Some(0x2000 + index as u128),
            previous_hash,
            event_hash: format!("drain-hash-{index}"),
            timestamp: NOW + index as i64,
            author_operator_id: None,
            station_callsign: "KE8YGW".to_owned(),
            operator_callsign: Some("KE8YGW".to_owned()),
            author_device_id: DEVICE,
            source_device_id: DEVICE,
            correlation_id: 0x3000 + index as u128,
            source_plugin_id: None,
            schema_version: 1,
            payload: format!("{{\"contacted_callsign\":\"K1DRAIN{index}\",\"mode\":\"SSB\"}}"),
        });
    }
    events
}

/// The cloud's event store as the push path sees it.
struct CloudStore {
    events: Vec<EventEnvelope>,
}

impl CloudStore {
    fn push(&mut self, events: &[EventEnvelope]) -> CloudPushEventsResponse {
        let batch: Vec<EventEnvelope> = events.iter().map(EventEnvelope::copy).collect();
        check_push_logbook(LOGBOOK, &batch).expect("one logbook");
        let mut tally = IngestTally::new();
        for event in events {
            let lookup = match self.events.iter().find(|e| e.event_id == event.event_id) {
                Some(e) if e.same_as(event) => StoredLookup::Identical,
                Some(_) => StoredLookup::Different,
                None => StoredLookup::Absent,
            };
            match tally.decide(event.event_id, lookup) {
                IngestStep::Skip => continue,
                IngestStep::Stop => break,
                IngestStep::Append => {
                    let head = self.events.last().map(|e| e.event_hash.clone());
                    let appended = if event.previous_hash == head {
                        self.events.push(event.copy());
                        Ok(())
                    } else {
                        Err("incoming event does not connect to the logbook head".to_owned())
                    };
                    if !tally.record_append(appended) {
                        break;
                    }
                }
            }
        }
        push_response(tally, self.events.last().map(|e| e.event_hash.clone()))
    }
}

fn restart(queue: &OfflineQueue) -> OfflineQueue {
    let mutations: Vec<OfflineMutationEnvelope> = queue.mutations().iter().map(OfflineMutationEnvelope::copy).collect();
    OfflineQueue::from_parts(1, queue.next_sequence_entries().clone(), mutations).expect("queue reloads")
}

#[test]
fn desktop_queue_recovers_restart_and_drains_to_cloud_without_duplicates() {
    let mut queue = OfflineQueue::new();
    let local_events = local_chain(2);
    let mut operation_ids = Vec::new();
    for (index, event) in local_events.iter().enumerate() {
        let operation_id = 0x9000 + index as u128;
        let mutation = queue
            .enqueue_input(
                OfflineMutationInput::new(
                    LOGBOOK,
                    DEVICE,
                    DEVICE,
                    OFFLINE_OP_QSO_CREATE.to_owned(),
                    format!("{{\"contacted_callsign\":\"K1DRAIN{index}\",\"mode\":\"SSB\"}}"),
                )
                .with_operation_id(operation_id)
                .with_correlation_id(operation_id)
                .with_idempotency_key(format!("desktop-qso-create-{index}")),
                NOW + 1000 * index as i64,
            )
            .expect("enqueued");
        queue.record_local_event(mutation.operation_id, event, NOW).expect("recorded");
        operation_ids.push(mutation.operation_id);
    }
    queue.mark_sending(operation_ids[0], NOW + 10_000).expect("sending");

    // The process stops mid-send; the queue is read back and recovered.
    let mut restarted = restart(&queue);
    let restart_time = NOW + 20_000;
    assert_eq!(restarted.recover_interrupted_writes(restart_time), 1);
    let recovered = restarted.snapshot(restart_time);
    assert_eq!(recovered.health.retrying, 1);
    assert_eq!(recovered.health.pending, 1);
    assert_eq!(recovered.health.ready_to_send, 2);

    let batch = restarted.ready_event_batch(LOGBOOK, &local_events, restart_time);
    assert_eq!(batch.operation_ids, operation_ids);
    let hashes: Vec<String> = batch.events.iter().map(|e| e.event_hash.clone()).collect();
    assert_eq!(hashes, vec!["drain-hash-0".to_owned(), "drain-hash-1".to_owned()]);
    assert!(batch.missing_local_event_operation_ids.is_empty());
    for operation_id in &batch.operation_ids {
        restarted.mark_sending(*operation_id, restart_time).expect("sending");
    }

    let mut cloud = CloudStore { events: Vec::new() };
    let push = cloud.push(&batch.events);
    assert_eq!(push.status, ReplicationStatus::Pulled);
    assert_eq!(push.accepted_count, 2);
    assert_eq!(push.ignored_duplicate_count, 0);

    assert_eq!(restarted.mark_accepted_by_event_hashes(&hashes, restart_time), 2);
    let after_drain = restart(&restarted).snapshot(restart_time);
    assert_eq!(after_drain.health.accepted, 2);
    assert_eq!(after_drain.health.ready_to_send, 0);
    assert_eq!(local_events.len(), 2, "the local official log gains no duplicate while draining");

    let duplicate_push = cloud.push(&batch.events);
    assert_eq!(duplicate_push.accepted_count, 0);
    assert_eq!(duplicate_push.ignored_duplicate_count, 2);
    let request = PullEventsRequest { peer_id: "desktop".to_owned(), logbook_id: LOGBOOK, local_head_hash: None };
    match plan_pull(request, None, &cloud.events) {
        PullPlan::Verify { missing, .. } => assert_eq!(missing.len(), 2),
        PullPlan::Respond(r) => panic!("expected the cloud events, got {r:?}"),
    }
}
