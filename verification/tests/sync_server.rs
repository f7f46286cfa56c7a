use ham_sync::cloud::{CloudAuthState, CloudSyncError, DiagnosticReportStatus};
use ham_sync::query::{split_target, QueryMap};
use ham_sync::replication::ReplicationStatus;
use ham_sync::sync_server::{
    auth_from_query, classify_sync_route, cloud_error_reply, encode_response, error_body, logbook_id_in_path,
    report_id_in_path, report_status_label, request_id, route_step, status_label, ApiErrorCode, ReadinessChecks,
    RouteStep, SyncRoute,
};

#[test]
fn routes_are_matched_in_the_servers_order() {
    assert_eq!(classify_sync_route("GET", "/health"), SyncRoute::Health);
    assert_eq!(classify_sync_route("GET", "/ready"), SyncRoute::Ready);
    assert_eq!(classify_sync_route("GET", "/metrics"), SyncRoute::Metrics);
    assert_eq!(classify_sync_route("POST", "/api/v1/auth/pair"), SyncRoute::Pair);
    assert_eq!(classify_sync_route("GET", "/api/v1/logbooks"), SyncRoute::ListLogbooks);
    assert_eq!(classify_sync_route("GET", "/api/v1/logbooks/abc/head"), SyncRoute::LogbookHead);
    assert_eq!(classify_sync_route("GET", "/api/v1/logbooks/abc/events"), SyncRoute::LogbookEvents);
    assert_eq!(classify_sync_route("POST", "/api/v1/logbooks/abc/preview-pull"), SyncRoute::PreviewPull);
    assert_eq!(classify_sync_route("POST", "/api/v1/logbooks/abc/pull"), SyncRoute::Pull);
    assert_eq!(classify_sync_route("POST", "/api/v1/logbooks/abc/push"), SyncRoute::Push);
    assert_eq!(classify_sync_route("GET", "/api/v1/sync/status"), SyncRoute::SyncStatus);
    assert_eq!(classify_sync_route("POST", "/api/v1/reports"), SyncRoute::UploadReport);
    assert_eq!(classify_sync_route("GET", "/api/v1/reports/rpt-1"), SyncRoute::ReportMetadata);
    assert_eq!(classify_sync_route("POST", "/health"), SyncRoute::NotFound);
    assert_eq!(classify_sync_route("GET", "/api/v1/logbooks/abc/push"), SyncRoute::NotFound);
    assert_eq!(classify_sync_route("DELETE", "/api/v1/reports"), SyncRoute::NotFound);
}

#[test]
fn logbook_and_report_ids_come_from_the_path() {
    assert_eq!(
        logbook_id_in_path("/api/v1/logbooks/44444444-4444-4444-8444-444444444444/head", "/head"),
        Some(0x4444_4444_4444_4444_8444_4444_4444_4444)
    );
    assert_eq!(logbook_id_in_path("/api/v1/logbooks/not-a-uuid/head", "/head"), None);
    assert_eq!(report_id_in_path("/api/v1/reports/rpt-42"), "rpt-42");
}

#[test]
fn sync_tokens_come_from_the_query() {
    assert_eq!(auth_from_query("token=sync-abc&x=1").expect("token").sync_token, "sync-abc");
    assert!(auth_from_query("token=").is_none());
    assert!(auth_from_query("other=1").is_none());
}

#[test]
fn labels_are_stable() {
    assert_eq!(status_label(ReplicationStatus::InSync), "in_sync");
    assert_eq!(status_label(ReplicationStatus::RemoteAhead), "remote_ahead");
    assert_eq!(status_label(ReplicationStatus::Diverged), "diverged");
    assert_eq!(report_status_label(DiagnosticReportStatus::WaitingOnUser), "waiting_on_user");
    assert_eq!(report_status_label(DiagnosticReportStatus::Submitted), "submitted");
}

#[test]
fn readiness_needs_every_store() {
    let all = ReadinessChecks { metadata_store: true, official_event_log_directory: true, report_directory: true };
    assert!(all.ready());
    let missing = ReadinessChecks { report_directory: false, ..all };
    assert!(!missing.ready());
}

#[test]
fn cloud_errors_map_to_stable_replies() {
    let r = cloud_error_reply(&CloudSyncError::Unauthenticated);
    assert_eq!((r.status, r.message, r.code, r.kind), (401, "unauthenticated", ApiErrorCode::InvalidToken, "unauthenticated"));
    let r = cloud_error_reply(&CloudSyncError::UnauthorizedLogbook(5));
    assert_eq!((r.status, r.code), (403, ApiErrorCode::Forbidden));
    let r = cloud_error_reply(&CloudSyncError::Validation("x".to_owned()));
    assert_eq!((r.status, r.message), (400, "request validation failed"));
    let r = cloud_error_reply(&CloudSyncError::PairingRejected("x".to_owned()));
    assert_eq!(r.code, ApiErrorCode::ValidationFailed);
    let r = cloud_error_reply(&CloudSyncError::Store("disk".to_owned()));
    assert_eq!((r.status, r.code, r.kind), (500, ApiErrorCode::StoreUnavailable, "store"));
}

#[test]
fn error_codes_have_stable_wire_names() {
    assert_eq!(ApiErrorCode::MissingToken.as_str(), "missing_token");
    assert_eq!(ApiErrorCode::InvalidToken.as_str(), "invalid_token");
    assert_eq!(ApiErrorCode::StoreUnavailable.as_str(), "store_unavailable");
    assert_eq!(ApiErrorCode::InvalidUuid.as_str(), "invalid_uuid");
    assert_eq!(ApiErrorCode::NotFound.as_str(), "not_found");
}

#[test]
fn request_ids_prefer_the_clients() {
    let mut headers = QueryMap::new();
    headers.insert("x-request-id".to_owned(), "req-7".to_owned());
    assert_eq!(request_id(&headers), "req-7");
    let mut blank = QueryMap::new();
    blank.insert("x-request-id".to_owned(), "  ".to_owned());
    assert_eq!(request_id(&blank).len(), 36, "a fresh identifier replaces a blank one");
}

#[test]
fn self_hosted_errors_keep_stable_shape() {
    let body = br#"{"error":"missing token","code":"missing_token","request_id":"sync-contract-test","retryable":false}"#.to_vec();
    let response = encode_response(401, "application/json; charset=utf-8", &body);
    let text = String::from_utf8(response).expect("HTTP response should be UTF-8");
    let (head, rest) = text.split_once("\r\n\r\n").expect("HTTP response should contain a body");
    assert_eq!(
        head,
        format!("HTTP/1.1 401 Unauthorized\r\nContent-Type: application/json; charset=utf-8\r\nContent-Length: {}\r\nConnection: close", body.len())
    );
    let json: serde_json::Value = serde_json::from_str(rest).expect("error body should be JSON");
    assert_eq!(json["error"], "missing token");
    assert_eq!(json["code"], "missing_token");
    assert_eq!(json["request_id"], "sync-contract-test");
    assert_eq!(json["retryable"], false);
}

#[test]
fn responses_frame_their_bytes() {
    let encoded = encode_response(200, "text/plain", &b"ok".to_vec());
    assert_eq!(
        encoded,
        b"HTTP/1.1 200 OK\r\nContent-Type: text/plain\r\nContent-Length: 2\r\nConnection: close\r\n\r\nok".to_vec()
    );
    let unavailable = String::from_utf8(encode_response(503, "application/json", &Vec::new())).expect("utf-8");
    assert!(unavailable.starts_with("HTTP/1.1 503 Service Unavailable\r\n"));
}

#[test]
fn unknown_routes_and_missing_tokens_are_refused_first() {
    let step = |method: &str, target: &str| {
        let (path, query) = split_target(target);
        route_step(classify_sync_route(method, &path), &path, &query)
    };
    match step("GET", "/nope") {
        RouteStep::Refuse(e) => {
            assert_eq!(e.status, 404);
            assert_eq!(e.code.as_str(), "not_found");
            let body = error_body(e.message, e.code, "R".to_owned());
            assert_eq!(body.error, "not found");
            assert_eq!(body.code, "not_found");
            assert_eq!(body.request_id, "R");
            assert!(!body.retryable);
        }
        other => panic!("unexpected {other:?}"),
    }
    match step("GET", "/api/v1/logbooks") {
        RouteStep::Refuse(e) => {
            assert_eq!(e.status, 401);
            assert_eq!(e.code.as_str(), "missing_token");
        }
        other => panic!("unexpected {other:?}"),
    }
    match step("GET", "/api/v1/logbooks?token=missing-token") {
        RouteStep::Proceed { token: Some(token), logbook_id: None } => {
            let state = CloudAuthState::new();
            let refused = cloud_error_reply(&state.authorize(&token).unwrap_err());
            assert_eq!(refused.status, 401);
            assert_eq!(refused.code.as_str(), "invalid_token");
        }
        other => panic!("unexpected {other:?}"),
    }
    match step("GET", "/api/v1/logbooks/00000000-0000-0000-0000-00000000abcd/head?token=nope") {
        RouteStep::Proceed { token: Some(token), logbook_id: Some(id) } => {
            assert_eq!(id, 0xabcd);
            assert_eq!(token.sync_token, "nope");
        }
        other => panic!("unexpected {other:?}"),
    }
    match step("GET", "/api/v1/logbooks/not-a-uuid/events?token=t") {
        RouteStep::Refuse(e) => {
            assert_eq!(e.status, 400);
            assert_eq!(e.code.as_str(), "invalid_uuid");
        }
        other => panic!("unexpected {other:?}"),
    }
    assert!(matches!(step("GET", "/health"), RouteStep::Proceed { token: None, logbook_id: None }));
}
