use ham_sync::cloud::{
    check_push_logbook, finish_pull, plan_pull, pull_store_failure, pull_verification_failed, push_response,
    push_status, text_contains, CloudAuth, CloudAuthState, CloudPushEventsResponse, CloudSyncError, DiagnosticReportStatus,
    DiagnosticReportUploadRequest, DiagnosticReportUploadType, IngestStep, IngestTally, PairDeviceRequest,
    PullEventsRequest, PullEventsResponse, PullPlan, StoredLookup,
};
use ham_sync::events::EventEnvelope;
use ham_sync::replication::{
    preview_pull_from_events, verify_incoming_chain, PreviewPullRequest, ReplicationError, ReplicationStatus,
};

const LOGBOOK: u128 = 0x4444;
const OTHER_LOGBOOK: u128 = 0x5555;

fn pair_request(code: &str, logbooks: Vec<u128>) -> PairDeviceRequest {
    PairDeviceRequest {
        pairing_code: code.to_owned(),
        account_id: "acct-1".to_owned(),
        user_id: "user-1".to_owned(),
        device_id: 9,
        device_name: "Shack Desktop".to_owned(),
        requested_logbooks: logbooks,
        role_hints: Vec::new(),
    }
}

fn event(logbook_id: u128, index: u128, previous_hash: Option<String>) -> EventEnvelope {
    EventEnvelope {
        event_id: 1000 + index,
        event_type: "official.log.qso.created".to_owned(),
        logbook_id,
        entity_id: Some(2000 + index),
        previous_hash,
        event_hash: format!("hash-{logbook_id}-{index}"),
        timestamp: 1_780_000_000_000 + index as i64,
        author_operator_id: None,
        station_callsign: "KE8YGW".to_owned(),
        operator_callsign: Some("KE8YGW".to_owned()),
        author_device_id: 7,
        source_device_id: 7,
        correlation_id: 3000 + index,
        source_plugin_id: Some("sync-test".to_owned()),
        schema_version: 1,
        payload: "{}".to_owned(),
    }
}

fn chain(logbook_id: u128, count: usize) -> Vec<EventEnvelope> {
    let mut events = Vec::new();
    let mut previous_hash = None;
    for index in 0..count {
        let e = event(logbook_id, index as u128, previous_hash);
        previous_hash = Some(e.event_hash.clone());
        events.push(e);
    }
    events
}

fn pull_request(local: Option<&str>) -> PullEventsRequest {
    PullEventsRequest { peer_id: "peer-a".to_owned(), logbook_id: LOGBOOK, local_head_hash: local.map(str::to_owned) }
}

#[test]
fn cloud_pairing_token_validation() {
    let mut state = CloudAuthState::new();
    let refused = state.pair_device_with("123456", pair_request("000000", vec![LOGBOOK]), 1, 10);
    assert!(!refused.accepted);
    assert_eq!(refused.reason.as_deref(), Some("invalid pairing code"));
    assert!(refused.session.is_none());
    assert!(state.sessions.is_empty());

    let accepted = state.pair_device_with("123456", pair_request("123456", vec![LOGBOOK]), 0xabc, 10);
    assert!(accepted.accepted);
    let session = accepted.session.expect("session");
    assert_eq!(session.sync_token, "sync-acct-1-00000000-0000-0000-0000-000000000abc");
    assert_eq!(session.authorized_logbooks, vec![LOGBOOK]);
    assert_eq!(session.issued_at, 10);
    let auth = CloudAuth { sync_token: session.sync_token.clone() };
    assert_eq!(state.authorize(&auth).expect("authorized").device_id, 9);
}

#[test]
fn cloud_server_rejects_unauthenticated_requests() {
    let state = CloudAuthState::new();
    let auth = CloudAuth { sync_token: "sync-unknown".to_owned() };
    assert_eq!(state.authorize(&auth).unwrap_err(), CloudSyncError::Unauthenticated);
    assert_eq!(state.authorize_logbook(&auth, LOGBOOK).unwrap_err(), CloudSyncError::Unauthenticated);
}

#[test]
fn cloud_unauthorized_logbook_access_is_rejected() {
    let mut state = CloudAuthState::new();
    let paired = state.pair_device("123456", pair_request("123456", vec![LOGBOOK]));
    let auth = CloudAuth { sync_token: paired.session.expect("session").sync_token };
    assert!(state.authorize_logbook(&auth, LOGBOOK).is_ok());
    assert_eq!(
        state.authorize_logbook(&auth, OTHER_LOGBOOK).unwrap_err(),
        CloudSyncError::UnauthorizedLogbook(OTHER_LOGBOOK)
    );
}

fn report_request(token: &str, bundle: Vec<u8>) -> DiagnosticReportUploadRequest {
    DiagnosticReportUploadRequest {
        auth: CloudAuth { sync_token: token.to_owned() },
        report_type: DiagnosticReportUploadType::Basic,
        app_version: "0.2.0".to_owned(),
        core_version: "0.2.0".to_owned(),
        platform: "linux".to_owned(),
        plugin_list: Vec::new(),
        sync_state_summary: None,
        short_description: "sync stalls".to_owned(),
        bundle_hash: "bundle-sha".to_owned(),
        bundle_bytes: bundle,
    }
}

#[test]
fn report_upload_accepts_authenticated_request_and_returns_report_id() {
    let mut state = CloudAuthState::new();
    assert_eq!(
        state.upload_report_with(report_request("nobody", vec![1]), 1, 5).unwrap_err(),
        CloudSyncError::Unauthenticated
    );
    let token = state.pair_device("123456", pair_request("123456", vec![LOGBOOK])).session.expect("session").sync_token;
    match state.upload_report_with(report_request(&token, Vec::new()), 1, 5) {
        Err(CloudSyncError::Validation(m)) => assert_eq!(m, "diagnostic report bundle is empty"),
        other => panic!("an empty bundle must be refused: {other:?}"),
    }
    let response = state.upload_report_with(report_request(&token, vec![1, 2, 3]), 0x1f, 20).expect("uploaded");
    assert_eq!(response.report_id, "rpt-00000000-0000-0000-0000-00000000001f");
    assert_eq!(response.status, DiagnosticReportStatus::Submitted);
    assert_eq!(response.received_at, 20);
    let auth = CloudAuth { sync_token: token };
    let metadata = state.report_metadata(&auth, &response.report_id).expect("metadata");
    assert_eq!(metadata.report_id, response.report_id);
    assert_eq!(metadata.account_id, "acct-1");
    assert_eq!(metadata.created_at, 20);
    assert_eq!(metadata.bundle_hash, "bundle-sha");
    match state.report_metadata(&auth, "rpt-missing") {
        Err(CloudSyncError::Validation(m)) => assert_eq!(m, "report not found"),
        other => panic!("unexpected outcome {other:?}"),
    }
}

#[test]
fn report_upload_rejects_unauthenticated_request() {
    let mut state = CloudAuthState::new();
    let result = state.upload_report(report_request("missing", vec![1]));
    assert_eq!(result.unwrap_err(), CloudSyncError::Unauthenticated);
    assert!(state.reports.is_empty());
}

#[test]
fn report_metadata_status_starts_submitted() {
    let mut state = CloudAuthState::new();
    let token = state.pair_device("123456", pair_request("123456", vec![LOGBOOK])).session.expect("session").sync_token;
    let response = state.upload_report(report_request(&token, vec![9])).expect("uploaded");
    assert!(response.report_id.starts_with("rpt-"));
    assert_eq!(response.report_id.len(), "rpt-".len() + 36);
    let auth = CloudAuth { sync_token: token };
    let metadata = state.report_metadata(&auth, response.report_id.as_str()).expect("metadata");
    assert_eq!(metadata.status, DiagnosticReportStatus::Submitted);
    assert_eq!(metadata.account_id, "acct-1");
    assert_eq!(metadata.created_at, response.received_at);
    let stranger = CloudAuth { sync_token: "sync-nobody".to_owned() };
    assert_eq!(state.report_metadata(&stranger, response.report_id.as_str()).unwrap_err(), CloudSyncError::Unauthenticated);
}

#[test]
fn ingest_skips_identical_duplicates_and_stops_on_conflicts() {
    let mut tally = IngestTally::new();
    assert_eq!(tally.decide(1, StoredLookup::Absent), IngestStep::Append);
    assert!(tally.record_append(Ok(())));
    assert_eq!(tally.decide(2, StoredLookup::Identical), IngestStep::Skip);
    assert_eq!(tally.decide(0x10, StoredLookup::Different), IngestStep::Stop);
    assert_eq!(tally.accepted, 1);
    assert_eq!(tally.ignored_duplicates, 1);
    assert_eq!(
        tally.errors,
        vec!["event id 00000000-0000-0000-0000-000000000010 already exists with different content".to_owned()]
    );
    let response = push_response(tally, Some("head".to_owned()));
    assert_eq!(response.status, ReplicationStatus::Rejected);
    assert_eq!(response.rejected_count, 1);
    assert_eq!(response.server_head_hash.as_deref(), Some("head"));
}

#[test]
fn push_status_reports_divergence_from_chain_errors() {
    assert_eq!(push_status(&Vec::new()), ReplicationStatus::Pulled);
    assert_eq!(
        push_status(&vec!["incoming chain does not connect to head".to_owned()]),
        ReplicationStatus::Diverged
    );
    assert_eq!(push_status(&vec!["bad previous hash at 3".to_owned()]), ReplicationStatus::Diverged);
    assert_eq!(push_status(&vec!["store is full".to_owned()]), ReplicationStatus::Rejected);
    assert!(text_contains("abcdef", "cde"));
    assert!(!text_contains("abc", "abcd"));
    let mut tally = IngestTally::new();
    assert!(!tally.record_append(Err("disk full".to_owned())));
    tally.record_refusal("unsupported schema".to_owned());
    assert_eq!(tally.errors.len(), 2);
}

#[test]
fn pushes_may_only_carry_their_logbook() {
    assert!(check_push_logbook(LOGBOOK, &chain(LOGBOOK, 2)).is_ok());
    let mut mixed = chain(LOGBOOK, 1);
    mixed.push(event(OTHER_LOGBOOK, 5, None));
    assert_eq!(check_push_logbook(LOGBOOK, &mixed).unwrap_err(), CloudSyncError::UnauthorizedLogbook(LOGBOOK));
}

#[test]
fn cloud_pull_missing_events() {
    let remote = chain(LOGBOOK, 3);
    match plan_pull(pull_request(Some("hash-17476-0")), Some("hash-17476-0".to_owned()), &remote) {
        PullPlan::Verify { missing, remote_head_hash } => {
            let ids: Vec<u128> = missing.iter().map(|e| e.event_id).collect();
            assert_eq!(ids, vec![1001, 1002]);
            assert_eq!(remote_head_hash.as_deref(), Some("hash-17476-2"));
        }
        PullPlan::Respond(r) => panic!("expected events to verify, got {r:?}"),
    }
    match plan_pull(pull_request(None), None, &remote) {
        PullPlan::Verify { missing, .. } => assert_eq!(missing.len(), 3),
        PullPlan::Respond(r) => panic!("expected events to verify, got {r:?}"),
    }
}

#[test]
fn pulls_in_sync_or_diverged_answer_at_once() {
    let remote = chain(LOGBOOK, 2);
    match plan_pull(pull_request(Some("hash-17476-1")), Some("hash-17476-1".to_owned()), &remote) {
        PullPlan::Respond(r) => {
            assert_eq!(r.status, ReplicationStatus::InSync);
            assert_eq!(r.rejected_count, 0);
            assert_eq!(r.peer_id, "peer-a");
        }
        PullPlan::Verify { .. } => panic!("in sync needs no events"),
    }
    match plan_pull(pull_request(Some("elsewhere")), Some("elsewhere".to_owned()), &remote) {
        PullPlan::Respond(r) => {
            assert_eq!(r.status, ReplicationStatus::Diverged);
            assert_eq!(r.rejected_count, 2);
            assert_eq!(r.errors, vec!["remote chain does not contain the local head".to_owned()]);
        }
        PullPlan::Verify { .. } => panic!("a diverged chain is not pulled"),
    }
}

#[test]
fn pull_answers_report_failures_and_counts() {
    let diverged = pull_verification_failed(
        pull_request(None),
        None,
        Some("h".to_owned()),
        3,
        &ReplicationError::Diverged { local_head_hash: None },
        "diverged".to_owned(),
    );
    assert_eq!(diverged.status, ReplicationStatus::Diverged);
    assert_eq!(diverged.rejected_count, 3);
    let rejected = pull_verification_failed(pull_request(None), None, None, 2, &ReplicationError::Store("bad".to_owned()), "bad".to_owned());
    assert_eq!(rejected.status, ReplicationStatus::Rejected);
    let store = pull_store_failure(pull_request(None), "store offline".to_owned());
    assert_eq!(store.status, ReplicationStatus::Rejected);
    assert_eq!(store.rejected_count, 1);
    assert_eq!(store.errors, vec!["store offline".to_owned()]);
    let mut tally = IngestTally::new();
    tally.decide(1, StoredLookup::Absent);
    tally.record_append(Ok(()));
    let done = finish_pull(pull_request(None), tally, Some("h1".to_owned()), Some("h1".to_owned()));
    assert_eq!(done.status, ReplicationStatus::Pulled);
    assert_eq!(done.accepted_count, 1);
    assert_eq!(done.local_head_hash.as_deref(), Some("h1"));
}

/// A logbook event store as the push path sees it: lookups by id, and
/// appends that must extend the logbook head.
struct TestStore {
    events: Vec<EventEnvelope>,
}

impl TestStore {
    fn lookup(&self, incoming: &EventEnvelope) -> StoredLookup {
        match self.events.iter().find(|e| e.event_id == incoming.event_id) {
            Some(e) if e.same_as(incoming) => StoredLookup::Identical,
            Some(_) => StoredLookup::Different,
            None => StoredLookup::Absent,
        }
    }

    fn head(&self) -> Option<String> {
        self.events.last().map(|e| e.event_hash.clone())
    }

    fn append(&mut self, event: &EventEnvelope) -> Result<(), String> {
        if event.previous_hash != self.head() {
            return Err("incoming event does not connect to the logbook head".to_owned());
        }
        self.events.push(event.copy());
        Ok(())
    }
}

/// Pushes events through the library's ingest decisions; `valid[i]` is what
/// the event validation said of `events[i]`.
fn push(store: &mut TestStore, events: &[EventEnvelope], valid: &[bool]) -> CloudPushEventsResponse {
    let batch: Vec<EventEnvelope> = events.iter().map(EventEnvelope::copy).collect();
    check_push_logbook(LOGBOOK, &batch).expect("one logbook");
    let mut tally = IngestTally::new();
    for (event, ok) in events.iter().zip(valid) {
        if !ok {
            tally.record_refusal("event hash does not match its contents".to_owned());
            break;
        }
        match tally.decide(event.event_id, store.lookup(event)) {
            IngestStep::Skip => continue,
            IngestStep::Stop => break,
            IngestStep::Append => {
                if !tally.record_append(store.append(event)) {
                    break;
                }
            }
        }
    }
    push_response(tally, store.head())
}

#[test]
fn cloud_push_valid_events_and_preview_pull() {
    let mut store = TestStore { events: Vec::new() };
    let push = push(&mut store, &chain(LOGBOOK, 2), &[true, true]);
    assert_eq!(push.accepted_count, 2);
    assert_eq!(push.status, ReplicationStatus::Pulled);
    let request = PreviewPullRequest { peer_id: "cloud".to_owned(), logbook_id: LOGBOOK, local_head_hash: None };
    let preview = preview_pull_from_events(request, &store.events);
    assert_eq!(preview.status, ReplicationStatus::RemoteAhead);
    assert_eq!(preview.missing_event_count, 2);
}

#[test]
fn cloud_push_invalid_hash_is_rejected() {
    let mut store = TestStore { events: Vec::new() };
    let push = push(&mut store, &chain(LOGBOOK, 1), &[false]);
    assert_eq!(push.status, ReplicationStatus::Rejected);
    assert_eq!(push.accepted_count, 0);
    assert!(store.events.is_empty());
}

#[test]
fn cloud_push_duplicate_identical_is_ignored() {
    let mut store = TestStore { events: Vec::new() };
    let events = chain(LOGBOOK, 1);
    push(&mut store, &events, &[true]);
    let again = push(&mut store, &events, &[true]);
    assert_eq!(again.ignored_duplicate_count, 1);
    assert_eq!(again.accepted_count, 0);
    assert_eq!(again.status, ReplicationStatus::Pulled);
}

#[test]
fn cloud_push_duplicate_id_with_different_hash_is_rejected() {
    let mut store = TestStore { events: Vec::new() };
    let local = chain(LOGBOOK, 1);
    push(&mut store, &local, &[true]);
    let mut duplicate = event(LOGBOOK, 1, Some(local[0].event_hash.clone()));
    duplicate.event_id = local[0].event_id;
    let push = push(&mut store, &[duplicate], &[true]);
    assert_eq!(push.status, ReplicationStatus::Rejected);
    assert_eq!(push.rejected_count, 1);
}

#[test]
fn cloud_push_divergence_response() {
    let mut store = TestStore { events: Vec::new() };
    push(&mut store, &chain(LOGBOOK, 1), &[true]);
    let divergent = vec![event(LOGBOOK, 50, None)];
    let push = push(&mut store, &divergent, &[true]);
    assert_eq!(push.status, ReplicationStatus::Diverged);
    assert_eq!(push.accepted_count, 0);
}

/// Pulls remote events into the store through the library's pull decisions;
/// `refused[i]` is what the event validation said of `remote[i]`.
fn pull(store: &mut TestStore, remote: &[EventEnvelope], refused: &[Option<&str>]) -> PullEventsResponse {
    let local_head = store.head();
    let remote_events: Vec<EventEnvelope> = remote.iter().map(EventEnvelope::copy).collect();
    match plan_pull(pull_request(None), local_head.clone(), &remote_events) {
        PullPlan::Respond(response) => response,
        PullPlan::Verify { missing, remote_head_hash } => {
            let refusals: Vec<Option<String>> = missing
                .iter()
                .map(|e| {
                    remote.iter().position(|r| r.same_as(e)).and_then(|i| refused.get(i).copied().flatten()).map(str::to_owned)
                })
                .collect();
            if let Err(error) = verify_incoming_chain(LOGBOOK, local_head.clone(), &missing, &refusals) {
                let message = format!("{error:?}");
                return pull_verification_failed(pull_request(None), local_head, remote_head_hash, missing.len(), &error, message);
            }
            let mut tally = IngestTally::new();
            for event in &missing {
                match tally.decide(event.event_id, store.lookup(event)) {
                    IngestStep::Skip => continue,
                    IngestStep::Stop => break,
                    IngestStep::Append => {
                        if !tally.record_append(store.append(event)) {
                            break;
                        }
                    }
                }
            }
            finish_pull(pull_request(None), tally, store.head(), remote_head_hash)
        }
    }
}

#[test]
fn successful_pull_appends_valid_remote_events_and_updates_projection() {
    let mut store = TestStore { events: Vec::new() };
    let remote = chain(LOGBOOK, 2);
    let response = pull(&mut store, &remote, &[None, None]);
    assert_eq!(response.status, ReplicationStatus::Pulled);
    assert_eq!(response.accepted_count, 2);
    assert_eq!(store.head(), Some(remote[1].event_hash.clone()));
    assert_eq!(store.events.len(), 2);
}

#[test]
fn successful_pull_accepts_verified_missing_tail() {
    let remote = chain(LOGBOOK, 3);
    let mut store = TestStore { events: vec![remote[0].copy()] };
    let response = pull(&mut store, &remote[1..], &[None, None]);
    assert_eq!(response.status, ReplicationStatus::Pulled);
    assert_eq!(response.accepted_count, 2);
    assert_eq!(store.head(), Some(remote[2].event_hash.clone()));
}

#[test]
fn invalid_event_hash_is_rejected() {
    let mut store = TestStore { events: Vec::new() };
    let response = pull(&mut store, &chain(LOGBOOK, 1), &[Some("event hash does not match its contents")]);
    assert_eq!(response.status, ReplicationStatus::Rejected);
    assert_eq!(response.accepted_count, 0);
    assert!(store.events.is_empty());
}

#[test]
fn broken_previous_hash_chain_is_rejected() {
    let mut store = TestStore { events: Vec::new() };
    let mut remote = chain(LOGBOOK, 2);
    remote[1].previous_hash = Some("not-the-first-hash".to_owned());
    let response = pull(&mut store, &remote, &[None, None]);
    assert_eq!(response.status, ReplicationStatus::Diverged);
    assert_eq!(response.accepted_count, 0);
}

#[test]
fn duplicate_identical_event_is_ignored_safely() {
    let remote = chain(LOGBOOK, 1);
    let mut store = TestStore { events: vec![remote[0].copy()] };
    let response = pull(&mut store, &remote, &[None]);
    assert_eq!(response.status, ReplicationStatus::InSync);
    assert_eq!(store.events.len(), 1);
}

#[test]
fn duplicate_event_id_with_different_hash_is_rejected() {
    let local = chain(LOGBOOK, 1);
    let mut duplicate = event(LOGBOOK, 1, Some(local[0].event_hash.clone()));
    duplicate.event_id = local[0].event_id;
    let remote = vec![local[0].copy(), duplicate];
    let mut store = TestStore { events: vec![local[0].copy()] };
    let response = pull(&mut store, &remote, &[None, None]);
    assert_eq!(response.status, ReplicationStatus::Rejected);
    assert_eq!(store.events.len(), 1);
}

#[test]
fn unsupported_schema_version_is_rejected() {
    let mut store = TestStore { events: Vec::new() };
    let mut remote = chain(LOGBOOK, 1);
    remote[0].schema_version = 99;
    let response = pull(&mut store, &remote, &[Some("unsupported event schema version 99")]);
    assert_eq!(response.status, ReplicationStatus::Rejected);
    assert!(store.events.is_empty());
}
