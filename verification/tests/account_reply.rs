use ham_sync::account::{
    plan_hosted_account_request_with_id, validate_account_file, BodyValue, HostedAccountAction,
    HostedAccountConfig, HostedAccountConnectionState, HostedAccountError, HostedAccountOutcome,
    HostedAccountRequestPlan, HostedAccountSnapshot,
};
use ham_sync::account_reply::{
    apply_hosted_account_response, apply_hosted_account_response_with_ids,
    hosted_account_transport_failure, AccountObject, AccountResponseBody, DeviceObject,
    HostedAccountHttpResponse, HostedAccountResult, LogbookObject, MembershipObject, SessionObject,
};

const ACCOUNT: &str = "11111111-1111-4111-8111-111111111111";
const USER: &str = "22222222-2222-4222-8222-222222222222";
const SESSION: &str = "33333333-3333-4333-8333-333333333333";
const LOGBOOK: &str = "44444444-4444-4444-8444-444444444444";
const DEVICE: &str = "55555555-5555-4555-8555-555555555555";
const DEVICE_ID: u128 = 0x5555_5555_5555_4555_8555_5555_5555_5555;
const REQUEST: u128 = 0x6666_6666_6666_4666_8666_6666_6666_6666;
const SESSION_CREDENTIAL: u128 = 0xaaaa;
const REFRESH_CREDENTIAL: u128 = 0xbbbb;
const NOW: i64 = 1_788_177_600_000;

fn config() -> HostedAccountConfig {
    HostedAccountConfig { base_url: "https://logger.example/".to_owned(), device_name: "Shack Desktop".to_owned() }
}

fn fresh_snapshot() -> HostedAccountSnapshot {
    HostedAccountSnapshot::new(&config().normalized().expect("config"))
}

fn text(s: &str) -> Option<String> {
    Some(s.to_owned())
}

fn millis(rfc3339: &str) -> i64 {
    chrono::DateTime::parse_from_rfc3339(rfc3339).expect("timestamp").timestamp_millis()
}

fn login_body(session_token: &str, refresh_token: &str) -> AccountResponseBody {
    let mut body = AccountResponseBody::empty();
    body.account = Some(AccountObject {
        account_id: text(ACCOUNT),
        user_id: text(USER),
        email: text("operator@example.com"),
        display_name: text("Operator"),
        email_verified_at: Some(true),
    });
    body.session = Some(SessionObject {
        session_id: text(SESSION),
        issued_at: text("2026-08-31T12:00:00Z"),
        expires_at: text("2026-09-30T12:00:00Z"),
        refresh_expires_at: text("2026-11-29T12:00:00Z"),
        device_id: text(DEVICE),
        token: text(session_token),
    });
    body.device = Some(DeviceObject {
        device_id: text(DEVICE),
        device_name: text("Shack Desktop"),
        trusted: Some(true),
        revoked: Some(false),
        registered_at: text("2026-08-31T12:00:00Z"),
        revoked_at: None,
    });
    body.logbooks = Some(vec![LogbookObject { logbook_id: text(LOGBOOK), name: text("Home Station") }]);
    body.refresh_token = text(refresh_token);
    body
}

fn plan(action: &HostedAccountAction, snapshot: &HostedAccountSnapshot) -> HostedAccountRequestPlan {
    plan_hosted_account_request_with_id(action, snapshot, REQUEST).expect("plan")
}

fn reply(
    action: &HostedAccountAction,
    snapshot: HostedAccountSnapshot,
    status: u16,
    body: AccountResponseBody,
) -> HostedAccountResult {
    let p = plan(action, &snapshot);
    apply_hosted_account_response_with_ids(
        action,
        &p,
        &HostedAccountHttpResponse::new(status, body),
        snapshot,
        NOW,
        SESSION_CREDENTIAL,
        REFRESH_CREDENTIAL,
    )
}

fn login_action() -> HostedAccountAction {
    HostedAccountAction::Login { email: "operator@example.com".to_owned(), display_name: text("Operator") }
}

fn sign_in() -> HostedAccountResult {
    reply(&login_action(), fresh_snapshot(), 200, login_body("session-secret", "refresh-secret"))
}

#[test]
fn accepted_login_stores_only_credential_ids_and_never_persists_tokens() {
    let mut result = sign_in();
    assert!(result.outcome.is_accepted());
    assert!(!result.user_action_required);
    assert_eq!(result.status, 200);
    assert_eq!(result.message, "Signed in to the hosted account.");
    let snapshot = &result.snapshot;
    assert_eq!(snapshot.connection_state, HostedAccountConnectionState::SignedIn);
    assert_eq!(snapshot.email.as_deref(), Some("operator@example.com"));
    assert!(snapshot.email_verified);
    assert_eq!(snapshot.device_id, Some(DEVICE_ID));
    assert_eq!(snapshot.logbooks.len(), 1);
    assert_eq!(snapshot.logbooks[0].name, "Home Station");
    assert_eq!(snapshot.devices.len(), 1);
    assert!(snapshot.devices[0].current && snapshot.devices[0].trusted);
    assert_eq!(snapshot.session_token_credential_id, Some(SESSION_CREDENTIAL));
    assert_eq!(snapshot.refresh_token_credential_id, Some(REFRESH_CREDENTIAL));
    assert_eq!(snapshot.session_issued_at, Some(millis("2026-08-31T12:00:00Z")));
    assert_eq!(snapshot.session_expires_at, Some(millis("2026-09-30T12:00:00Z")));
    assert_eq!(snapshot.last_action.as_deref(), Some("account.login"));
    assert_eq!(snapshot.last_request_id.as_deref(), Some("66666666-6666-4666-8666-666666666666"));
    assert_eq!(snapshot.last_updated_at, Some(NOW));
    // The record never holds a secret.
    let recorded = format!("{:?}", result.snapshot);
    assert!(!recorded.contains("session-secret"));
    assert!(!recorded.contains("refresh-secret"));
    assert_eq!(result.session_token(), Some("session-secret"));
    assert_eq!(result.refresh_token(), Some("refresh-secret"));
    let secrets = result.take_secrets();
    assert_eq!(secrets.session_token.as_deref(), Some("session-secret"));
    assert_eq!(secrets.session_token_credential_id, Some(SESSION_CREDENTIAL));
    assert_eq!(secrets.refresh_token.as_deref(), Some("refresh-secret"));
    assert_eq!(result.session_token(), None, "secrets move out once");
}

#[test]
fn random_credential_ids_are_fresh_for_a_new_session() {
    let snapshot = fresh_snapshot();
    let action = login_action();
    let p = plan(&action, &snapshot);
    let result = apply_hosted_account_response(
        &action,
        &p,
        &HostedAccountHttpResponse::new(200, login_body("s", "r")),
        snapshot,
        NOW,
    );
    assert!(result.snapshot.session_token_credential_id.is_some());
    assert!(result.snapshot.refresh_token_credential_id.is_some());
}

#[test]
fn session_rotate_sends_the_stored_refresh_token_without_persisting_it() {
    let signed_in = sign_in();
    let action = HostedAccountAction::SessionRotate;
    let p = plan(&action, &signed_in.snapshot);
    assert_eq!(p.method, "POST");
    assert_eq!(p.path, "/api/v1/auth/session/rotate");
    let token = p.session_token_to_send(text("session-secret")).expect("session token");
    assert_eq!(token.as_deref(), Some("session-secret"));
    let body = p.body_to_send(text("refresh-secret")).expect("body").expect("rotate body");
    assert!(body.iter().any(|f| f.key == "refresh_token"
        && matches!(&f.value, BodyValue::Text(t) if t == "refresh-secret")));
    assert!(matches!(p.body_to_send(None), Err(HostedAccountError::RefreshTokenRequired)));

    let result = reply(&action, signed_in.snapshot, 200, login_body("rotated-session", "rotated-refresh"));
    assert!(result.outcome.is_accepted());
    assert_eq!(result.message, "Hosted session rotated.");
    // Existing credential identifiers are kept for the new secrets.
    assert_eq!(result.snapshot.session_token_credential_id, Some(SESSION_CREDENTIAL));
    assert_eq!(result.session_token(), Some("rotated-session"));
    assert!(!format!("{:?}", result.snapshot).contains("rotated-refresh"));
}

#[test]
fn expired_session_clears_stored_secrets_and_requires_user_action() {
    let signed_in = sign_in();
    let mut body = AccountResponseBody::empty();
    body.error = text("session expired");
    body.code = text("session_expired");
    body.request_id = text("req-1");
    let result = reply(&HostedAccountAction::Session, signed_in.snapshot, 401, body);
    assert_eq!(result.outcome, HostedAccountOutcome::AuthenticationRequired);
    assert!(result.user_action_required);
    assert!(!result.retryable);
    assert_eq!(result.request_id.as_deref(), Some("req-1"));
    assert_eq!(result.error_code.as_deref(), Some("session_expired"));
    assert_eq!(result.message, "session expired");
    assert_eq!(result.snapshot.connection_state, HostedAccountConnectionState::SessionExpired);
    assert!(result.snapshot.session_token_credential_id.is_none());
    assert_eq!(result.cleared_credential_ids, vec![SESSION_CREDENTIAL, REFRESH_CREDENTIAL]);
}

#[test]
fn revoked_device_marks_the_local_record_and_clears_the_session() {
    let signed_in = sign_in();
    let result = reply(
        &HostedAccountAction::DeviceRevoke { device_id: DEVICE_ID },
        signed_in.snapshot,
        200,
        AccountResponseBody::empty(),
    );
    assert!(result.outcome.is_accepted());
    assert_eq!(result.snapshot.connection_state, HostedAccountConnectionState::DeviceRevoked);
    assert!(result.snapshot.session_token_credential_id.is_none());
    assert!(result.snapshot.devices.iter().any(|d| d.device_id == DEVICE_ID && d.revoked && d.revoked_at == Some(NOW)));
    assert_eq!(result.message, "This device was revoked and the local session was cleared.");
    assert_eq!(result.cleared_credential_ids, vec![SESSION_CREDENTIAL, REFRESH_CREDENTIAL]);
}

#[test]
fn revoking_another_device_keeps_the_session() {
    let signed_in = sign_in();
    let other: u128 = 0x7777;
    let result = reply(&HostedAccountAction::DeviceRevoke { device_id: other }, signed_in.snapshot, 200, AccountResponseBody::empty());
    assert_eq!(result.snapshot.connection_state, HostedAccountConnectionState::SignedIn);
    assert_eq!(result.message, "Hosted device 00000000-0000-0000-0000-000000007777 revoked.");
    assert!(result.cleared_credential_ids.is_empty());
}

#[test]
fn transport_failures_stay_retryable_without_clearing_the_session() {
    let signed_in = sign_in();
    let action = HostedAccountAction::Session;
    let p = plan(&action, &signed_in.snapshot);
    let result = hosted_account_transport_failure(&action, &p, "connection refused", signed_in.snapshot, NOW);
    assert_eq!(result.outcome, HostedAccountOutcome::TransientFailure);
    assert!(result.retryable);
    assert!(!result.user_action_required);
    assert_eq!(result.status, 0);
    assert_eq!(result.message, "hosted account transport failure: connection refused");
    assert_eq!(result.error_code.as_deref(), Some("transport_failure"));
    assert_eq!(result.request_id.as_deref(), Some("66666666-6666-4666-8666-666666666666"));
    assert_eq!(result.snapshot.connection_state, HostedAccountConnectionState::SignedIn);
    assert!(result.snapshot.session_token_credential_id.is_some());
}

#[test]
fn registration_records_a_pending_verification_without_a_session() {
    let mut body = AccountResponseBody::empty();
    body.account = Some(AccountObject {
        account_id: text(ACCOUNT),
        user_id: text(USER),
        email: text("operator@example.com"),
        display_name: text("Operator"),
        email_verified_at: Some(false),
    });
    let action = HostedAccountAction::Register {
        email: "Operator@Example.com".to_owned(),
        display_name: text("Operator"),
        invitation_token: text("invite-token"),
        turnstile_token: None,
    };
    let result = reply(&action, fresh_snapshot(), 200, body);
    assert!(result.outcome.is_accepted());
    assert_eq!(result.snapshot.connection_state, HostedAccountConnectionState::PendingEmailVerification);
    assert_eq!(result.snapshot.pending_email_verification_for.as_deref(), Some("operator@example.com"));
    assert!(result.snapshot.session_token_credential_id.is_none());
    assert!(!format!("{:?}", result.snapshot).contains("invite-token"));
    // Without an account echo the normalized request email is recorded.
    let bare = reply(&action, fresh_snapshot(), 201, AccountResponseBody::empty());
    assert_eq!(bare.snapshot.email.as_deref(), Some("operator@example.com"));
}

#[test]
fn logout_clears_session_credentials_and_signs_out() {
    let signed_in = sign_in();
    let result = reply(&HostedAccountAction::Logout, signed_in.snapshot, 200, AccountResponseBody::empty());
    assert!(result.outcome.is_accepted());
    assert_eq!(result.snapshot.connection_state, HostedAccountConnectionState::SignedOut);
    assert_eq!(result.cleared_credential_ids, vec![SESSION_CREDENTIAL, REFRESH_CREDENTIAL]);
    assert!(result.snapshot.session_token_credential_id.is_none());
    assert!(result.snapshot.refresh_token_credential_id.is_none());
    assert_eq!(result.message, "Signed out of the hosted account.");
}

#[test]
fn logout_all_and_revoke_all_report_their_counts() {
    let mut body = AccountResponseBody::empty();
    body.revoked_sessions = Some(3);
    let result = reply(&HostedAccountAction::LogoutAll, sign_in().snapshot, 200, body);
    assert_eq!(result.message, "Signed out of 3 hosted sessions.");
    let mut body = AccountResponseBody::empty();
    body.revoked_devices = Some(2);
    let result = reply(&HostedAccountAction::DeviceRevokeAll, sign_in().snapshot, 200, body);
    assert_eq!(result.message, "Revoked 2 hosted devices and signed out.");
    assert!(result.snapshot.devices.iter().all(|d| d.revoked && !d.current && d.revoked_at == Some(NOW)));
    assert_eq!(result.snapshot.connection_state, HostedAccountConnectionState::SignedOut);
}

#[test]
fn account_deletion_forgets_the_identity() {
    let result = reply(&HostedAccountAction::AccountDelete, sign_in().snapshot, 202, AccountResponseBody::empty());
    assert_eq!(result.message, "Hosted account deletion accepted.");
    assert!(result.snapshot.email.is_none() && result.snapshot.account_id.is_none());
    assert!(result.snapshot.devices.is_empty() && result.snapshot.logbooks.is_empty());
    assert!(!result.snapshot.email_verified);
}

#[test]
fn device_lists_are_sorted_and_mark_this_device() {
    let mut body = AccountResponseBody::empty();
    let device = |id: &str, name: Option<&str>| DeviceObject {
        device_id: text(id),
        device_name: name.map(str::to_owned),
        trusted: None,
        revoked: None,
        registered_at: None,
        revoked_at: None,
    };
    body.devices = Some(vec![
        device("99999999-9999-4999-8999-999999999999", Some("Rig")),
        device("not-a-uuid", Some("Noise")),
        device(DEVICE, None),
    ]);
    let result = reply(&HostedAccountAction::DeviceList, sign_in().snapshot, 200, body);
    let ids: Vec<u128> = result.snapshot.devices.iter().map(|d| d.device_id).collect();
    assert_eq!(ids, vec![DEVICE_ID, 0x9999_9999_9999_4999_8999_9999_9999_9999]);
    assert_eq!(result.snapshot.devices[0].device_name, "Device");
    assert!(result.snapshot.devices[0].current);
    assert!(!result.snapshot.devices[1].current);
    assert_eq!(result.message, "2 hosted devices known.");
}

#[test]
fn memberships_set_roles_and_keep_cached_names() {
    let signed_in = sign_in();
    let mut body = login_body("s2", "r2");
    body.logbooks = None;
    body.memberships = Some(vec![
        MembershipObject { logbook_id: text(LOGBOOK), role: text("owner") },
        MembershipObject { logbook_id: text("12345678-1234-4234-8234-123456789012"), role: text("viewer") },
    ]);
    let result = reply(&HostedAccountAction::Session, signed_in.snapshot, 200, body);
    assert_eq!(result.message, "Hosted session refreshed.");
    let logbooks: Vec<(String, Option<String>)> =
        result.snapshot.logbooks.iter().map(|l| (l.name.clone(), l.role.clone())).collect();
    assert_eq!(
        logbooks,
        vec![("Logbook".to_owned(), text("viewer")), ("Home Station".to_owned(), text("owner"))]
    );
}

#[test]
fn refusals_without_a_message_name_the_status() {
    let result = reply(&HostedAccountAction::Session, sign_in().snapshot, 503, AccountResponseBody::empty());
    assert_eq!(result.outcome, HostedAccountOutcome::TransientFailure);
    assert_eq!(result.message, "hosted account request failed with status 503");
    assert_eq!(result.request_id.as_deref(), Some("66666666-6666-4666-8666-666666666666"));
    assert_eq!(result.snapshot.connection_state, HostedAccountConnectionState::SignedIn);
    let mut body = AccountResponseBody::empty();
    body.code = text("device_revoked");
    let revoked = reply(&HostedAccountAction::Session, sign_in().snapshot, 401, body);
    assert_eq!(revoked.snapshot.connection_state, HostedAccountConnectionState::DeviceRevoked);
    let mut body = AccountResponseBody::empty();
    body.code = text("email_unverified");
    let unverified = reply(&HostedAccountAction::Session, sign_in().snapshot, 403, body);
    assert_eq!(unverified.outcome, HostedAccountOutcome::EmailVerificationRequired);
    assert_eq!(unverified.snapshot.connection_state, HostedAccountConnectionState::PendingEmailVerification);
    assert!(!unverified.snapshot.email_verified);
}

#[test]
fn unsupported_record_versions_are_rejected_before_use() {
    let snapshot = fresh_snapshot();
    assert!(matches!(validate_account_file(2, &snapshot), Err(HostedAccountError::UnsupportedFileVersion(2))));
    assert!(validate_account_file(1, &snapshot).is_ok());
    let mut newer = fresh_snapshot();
    newer.schema_version = 3;
    assert!(matches!(validate_account_file(1, &newer), Err(HostedAccountError::UnsupportedFileVersion(3))));
    let mut broken = fresh_snapshot();
    broken.base_url = "ftp://nowhere".to_owned();
    assert!(matches!(validate_account_file(1, &broken), Err(HostedAccountError::InvalidBaseUrl(_))));
}

#[test]
fn a_session_plan_needs_its_stored_token() {
    let signed_in = sign_in();
    let p = plan(&HostedAccountAction::Session, &signed_in.snapshot);
    assert!(matches!(p.session_token_to_send(None), Err(HostedAccountError::SessionRequired)));
    let p = plan(&login_action(), &fresh_snapshot());
    assert!(matches!(p.session_token_to_send(text("ignored")), Ok(None)));
    let body = p.body_to_send(None).expect("login body").expect("body");
    assert!(body.iter().any(|f| f.key == "email"));
}
