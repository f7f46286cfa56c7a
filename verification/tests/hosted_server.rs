use ham_sync::hosted_api::{api_error_response, ApiError, ApiRequest, CreateLogbookRequest, LogbookAccess, LogbookRole, LoginRequest, UpdateLogbookRequest};
use ham_sync::hosted_server::{LoginIds, ServerState};

fn ids(seed: u128) -> LoginIds {
    LoginIds {
        account_id: seed + 1,
        user_id: seed + 2,
        logbook_id: seed + 3,
        device_id: seed + 4,
        fingerprint_id: seed + 5,
        token_id: seed + 6,
        session_id: seed + 7,
    }
}

fn login(state: &mut ServerState, email: &str, seed: u128) -> String {
    let response = state
        .login_with(
            LoginRequest { email: email.to_owned(), display_name: None, device_name: Some("Shack".to_owned()) },
            100,
            ids(seed),
        )
        .expect("login");
    response.session.token
}

fn request(token: &str) -> ApiRequest {
    ApiRequest::get("/api/v1/logbooks").with_bearer(token)
}

#[test]
fn login_creates_an_account_with_a_default_logbook() {
    let mut state = ServerState::new();
    let response = state
        .login_with(
            LoginRequest {
                email: "  Operator@Example.com ".to_owned(),
                display_name: Some("Operator".to_owned()),
                device_name: None,
            },
            100,
            ids(0x100),
        )
        .expect("login");
    assert_eq!(response.account.email, "operator@example.com");
    assert_eq!(response.account.display_name, "Operator");
    assert_eq!(response.session.token, "api-00000000-0000-0000-0000-000000000101-00000000-0000-0000-0000-000000000106");
    assert!(response.session.active);
    assert_eq!(response.device.device_name, "Hosted web session");
    assert_eq!(response.device.fingerprint, "dev-00000000-0000-0000-0000-000000000105");
    assert!(response.device.trusted);
    assert_eq!(response.logbooks.len(), 1);
    assert_eq!(response.logbooks[0].name, "Operator Logbook");
    assert_eq!(state.active_session_count(), 1);
    assert!(matches!(
        state.login_with(LoginRequest { email: "   ".to_owned(), display_name: None, device_name: None }, 1, ids(0x200)),
        Err(ApiError::BadRequest(_))
    ));
}

#[test]
fn logout_invalidates_session() {
    let mut state = ServerState::new();
    let token = login(&mut state, "op@example.com", 0x100);
    assert!(state.authorize(&request(&token)).is_ok());
    assert!(state.logout(&request(&token)).is_ok());
    assert!(matches!(state.authorize(&request(&token)), Err(ApiError::InactiveSession)));
    assert!(matches!(state.authorize(&ApiRequest::get("/api/v1/logbooks")), Err(ApiError::Unauthenticated)));
    assert!(matches!(state.authorize(&request("api-unknown")), Err(ApiError::Unauthenticated)));
}

#[test]
fn revoked_device_token_cannot_sync() {
    let mut state = ServerState::new();
    let token = login(&mut state, "owner@example.test", 0x100);
    assert!(state.revoke_device_at(&request(&token), 0x104, 200).is_ok());
    let refused = state.authorize(&request(&token)).unwrap_err();
    assert_eq!(api_error_response(&refused).0, 401);
}

#[test]
fn revoking_another_device_ends_only_its_sessions() {
    let mut state = ServerState::new();
    let first = login(&mut state, "op@example.com", 0x100);
    let second = login(&mut state, "op@example.com", 0x200);
    assert!(state.revoke_device_at(&request(&second), 0x104, 200).is_ok());
    assert!(matches!(state.authorize(&request(&first)), Err(ApiError::InactiveSession)));
    assert!(state.authorize(&request(&second)).is_ok());
    assert!(matches!(state.revoke_device_at(&request(&second), 0xdead, 200), Err(ApiError::NotFound)));
    let stranger = login(&mut state, "stranger@example.com", 0x300);
    assert!(matches!(state.revoke_device_at(&request(&stranger), 0x204, 200), Err(ApiError::Forbidden)));
}

#[test]
fn user_cannot_read_or_mutate_another_users_logbook() {
    let mut state = ServerState::new();
    let owner = login(&mut state, "owner@example.com", 0x100);
    let stranger = login(&mut state, "stranger@example.com", 0x200);
    let logbook = 0x103;
    assert!(state.require_logbook_role(&request(&owner), logbook, LogbookAccess::Admin).is_ok());
    assert!(matches!(
        state.require_logbook_role(&request(&stranger), logbook, LogbookAccess::Read),
        Err(ApiError::Forbidden)
    ));
}

#[test]
fn operator_can_log_and_viewer_cannot_mutate_qsos() {
    let mut state = ServerState::new();
    let owner = login(&mut state, "owner@example.com", 0x100);
    let viewer = login(&mut state, "viewer@example.com", 0x200);
    let operator = login(&mut state, "operator@example.com", 0x300);
    let logbook = 0x103;
    assert!(matches!(
        state.add_membership_for_email_at("Viewer@Example.com", logbook, LogbookRole::Viewer, 150),
        Ok(())
    ));
    assert!(state.add_membership_for_email_at("operator@example.com", logbook, LogbookRole::Operator, 150).is_ok());
    assert!(matches!(
        state.add_membership_for_email_at("nobody@example.com", logbook, LogbookRole::Viewer, 150),
        Err(ApiError::NotFound)
    ));
    assert!(matches!(
        state.add_membership_for_email_at("viewer@example.com", 0xdead, LogbookRole::Viewer, 150),
        Err(ApiError::NotFound)
    ));
    let (_, role) = state.require_logbook_role(&request(&viewer), logbook, LogbookAccess::Read).expect("viewer reads");
    assert_eq!(role, LogbookRole::Viewer);
    assert!(matches!(
        state.require_logbook_role(&request(&viewer), logbook, LogbookAccess::LogQso),
        Err(ApiError::Forbidden)
    ));
    assert!(state.require_logbook_role(&request(&operator), logbook, LogbookAccess::LogQso).is_ok());
    assert!(state.require_logbook_role(&request(&owner), logbook, LogbookAccess::LogQso).is_ok());
    let memberships = state.user_memberships(0x202);
    assert_eq!(memberships.len(), 2, "own default logbook and the viewer grant");
    assert_eq!(memberships[1].logbook_id, logbook);
    assert_eq!(memberships[1].account_id, 0x101, "the grant names the logbook's account");
    assert_eq!(memberships[1].created_at, 150);
}

#[test]
fn visible_logbooks_are_sorted_by_name() {
    let mut state = ServerState::new();
    let owner = login(&mut state, "zed@example.com", 0x100);
    let created = state
        .create_logbook_with(
            &request(&owner),
            CreateLogbookRequest { name: "Alpha Contest".to_owned(), description: None, station_callsign: None },
            120,
            0x999,
        )
        .expect("created");
    assert_eq!(created.name, "Alpha Contest");
    assert!(matches!(
        state.create_logbook_with(
            &request(&owner),
            CreateLogbookRequest { name: "  ".to_owned(), description: None, station_callsign: None },
            120,
            0x998,
        ),
        Err(ApiError::BadRequest(_))
    ));
    let names: Vec<String> = state.visible_logbooks(0x102).into_iter().map(|l| l.name).collect();
    assert_eq!(names, vec!["Alpha Contest".to_owned(), "zed@example.com Logbook".to_owned()]);
}

#[test]
fn registered_devices_start_untrusted() {
    let mut state = ServerState::new();
    let owner = login(&mut state, "op@example.com", 0x100);
    let device = state
        .register_device_with(&request(&owner), "Field Laptop".to_owned(), None, 130, 0x555, 0x556)
        .expect("registered");
    assert!(!device.trusted);
    assert_eq!(device.fingerprint, "dev-00000000-0000-0000-0000-000000000556");
    let devices = state.devices(&request(&owner)).expect("devices");
    assert_eq!(devices.len(), 2);
}

#[test]
fn session_reports_account_device_and_memberships() {
    let mut state = ServerState::new();
    let token = login(&mut state, "op@example.com", 0x100);
    let info = state.session(&request(&token)).expect("session");
    assert_eq!(info.account.email, "op@example.com");
    assert_eq!(info.account.account_id, 0x101);
    assert_eq!(info.session.token, token);
    assert_eq!(info.device.device_id, 0x104);
    assert_eq!(info.memberships.len(), 1);
    assert_eq!(info.memberships[0].logbook_id, 0x103);
    assert_eq!(info.memberships[0].role, LogbookRole::Owner);
    assert!(matches!(state.session(&ApiRequest::get("/api/v1/auth/session")), Err(ApiError::Unauthenticated)));
}

#[test]
fn get_logbook_requires_membership_and_an_existing_logbook() {
    let mut state = ServerState::new();
    let owner = login(&mut state, "owner@example.com", 0x100);
    let stranger = login(&mut state, "stranger@example.com", 0x200);
    let (logbook, role) = state.get_logbook(&request(&owner), 0x103).expect("own logbook");
    assert_eq!(logbook.logbook_id, 0x103);
    assert_eq!(role, LogbookRole::Owner);
    assert!(matches!(state.get_logbook(&request(&stranger), 0x103), Err(ApiError::Forbidden)));
    assert!(matches!(state.get_logbook(&request(&owner), 0x999), Err(ApiError::Forbidden)));
}

#[test]
fn logbook_admin_can_patch_and_blank_names_are_refused() {
    let mut state = ServerState::new();
    let owner = login(&mut state, "owner@example.com", 0x100);
    let stranger = login(&mut state, "stranger@example.com", 0x200);
    let rename = |name: &str| UpdateLogbookRequest { name: Some(name.to_owned()), description: None, station_callsign: None };
    let patched = state.patch_logbook_at(&request(&owner), 0x103, rename("Contest Log"), 300).expect("patched");
    assert_eq!(patched.name, "Contest Log");
    assert_eq!(patched.updated_at, 300);
    assert!(matches!(state.patch_logbook_at(&request(&owner), 0x103, rename("  "), 310), Err(ApiError::BadRequest(m)) if m == "name must not be empty"));
    assert!(matches!(state.patch_logbook_at(&request(&stranger), 0x103, rename("Mine"), 320), Err(ApiError::Forbidden)));
    let stamped = state.patch_logbook(&request(&owner), 0x103, rename("Field Day")).expect("patched now");
    assert_eq!(stamped.name, "Field Day");
    assert!(stamped.updated_at > 300);
}

#[test]
fn clock_stamped_writes_use_fresh_ids_and_the_current_time() {
    let mut state = ServerState::new();
    let owner = login(&mut state, "owner@example.com", 0x100);
    let logbook = state
        .create_logbook(
            &request(&owner),
            CreateLogbookRequest { name: "Portable".to_owned(), description: None, station_callsign: None },
        )
        .expect("created");
    assert_eq!(logbook.name, "Portable");
    assert_eq!(logbook.account_id, 0x101);
    assert!(logbook.created_at > 0);
    let device = state.register_device(&request(&owner), "Tablet".to_owned(), None).expect("registered");
    assert!(!device.trusted);
    assert!(device.fingerprint.starts_with("dev-"));
    assert!(state.add_membership_for_email("OWNER@example.com", logbook.logbook_id, LogbookRole::Viewer).is_ok());
    assert!(matches!(state.add_membership_for_email("nobody@example.com", logbook.logbook_id, LogbookRole::Viewer), Err(ApiError::NotFound)));
    assert!(state.revoke_device(&request(&owner), device.device_id).is_ok());
    assert!(matches!(state.revoke_device(&request(&owner), 0xdead), Err(ApiError::NotFound)));
}

#[test]
fn a_new_account_sees_only_its_default_logbook_and_signing_in_again_keeps_it() {
    let mut state = ServerState::new();
    let first = state
        .login_with(
            LoginRequest { email: "Op@Example.com".to_owned(), display_name: None, device_name: None },
            100,
            ids(0x300),
        )
        .expect("first login");
    assert_eq!(first.account.account_id, 0x301);
    assert_eq!(first.logbooks.len(), 1);
    assert_eq!(first.logbooks[0].logbook_id, 0x303);
    assert_eq!(first.logbooks[0].name, "op@example.com Logbook");
    let second = state
        .login_with(
            LoginRequest { email: " op@example.COM".to_owned(), display_name: Some("Other".to_owned()), device_name: None },
            200,
            ids(0x400),
        )
        .expect("second login");
    assert_eq!(second.account.account_id, 0x301);
    assert_eq!(second.account.display_name, "op@example.com");
    assert_eq!(second.logbooks.len(), 1);
    assert_eq!(second.logbooks[0].logbook_id, 0x303);
    assert_ne!(second.session.token, first.session.token);
}
