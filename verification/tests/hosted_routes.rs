use ham_sync::hosted_api::{classify_hosted_route, is_scaffolded_route, route_catalog, ApiRequest, HostedRoute, LoginRequest};
use ham_sync::hosted_server::{LoginIds, ServerState};
use ham_sync::query::path_segments;

fn route(method: &str, path: &str) -> HostedRoute {
    classify_hosted_route(method, &path_segments(path))
}

#[test]
fn implemented_routes_reach_their_handlers() {
    assert_eq!(route("GET", "/health"), HostedRoute::Health);
    assert_eq!(route("GET", "/api/v1/status"), HostedRoute::Status);
    assert_eq!(route("GET", "/api/v1/routes/"), HostedRoute::Routes);
    assert_eq!(route("POST", "/api/v1/auth/login"), HostedRoute::Login);
    assert_eq!(route("POST", "/api/v1/auth/logout"), HostedRoute::Logout);
    assert_eq!(route("GET", "/api/v1/auth/session"), HostedRoute::Session);
    assert_eq!(route("GET", "/api/v1/logbooks"), HostedRoute::ListLogbooks);
    assert_eq!(route("POST", "/api/v1/logbooks"), HostedRoute::CreateLogbook);
    assert_eq!(route("GET", "/api/v1/logbooks/abc"), HostedRoute::GetLogbook);
    assert_eq!(route("PATCH", "/api/v1/logbooks/abc"), HostedRoute::PatchLogbook);
    assert_eq!(route("GET", "/api/v1/qsos"), HostedRoute::ListQsos);
    assert_eq!(route("POST", "/api/v1/qsos"), HostedRoute::CreateQso);
    assert_eq!(route("GET", "/api/v1/qsos/q1"), HostedRoute::GetQso);
    assert_eq!(route("PATCH", "/api/v1/qsos/q1"), HostedRoute::PatchQso);
    assert_eq!(route("POST", "/api/v1/qsos/q1/delete"), HostedRoute::DeleteQso);
    assert_eq!(route("POST", "/api/v1/qsos/q1/restore"), HostedRoute::RestoreQso);
    assert_eq!(route("POST", "/api/v1/qsos/q1/notes"), HostedRoute::AddQsoNote);
    assert_eq!(route("GET", "/api/v1/providers"), HostedRoute::Providers);
    assert_eq!(route("GET", "/api/v1/sync/status"), HostedRoute::SyncStatus);
    assert_eq!(route("POST", "/api/v1/sync/preview"), HostedRoute::SyncPreview);
    assert_eq!(route("POST", "/api/v1/sync/push"), HostedRoute::SyncPush);
    assert_eq!(route("GET", "/api/v1/devices"), HostedRoute::Devices);
    assert_eq!(route("POST", "/api/v1/devices"), HostedRoute::RegisterDevice);
    assert_eq!(route("POST", "/api/v1/devices/d1/revoke"), HostedRoute::RevokeDevice);
}

#[test]
fn reserved_routes_are_matched_and_answered_after_authorization() {
    let mut server = ServerState::new();
    let ids = LoginIds {
        account_id: 1,
        user_id: 2,
        logbook_id: 3,
        device_id: 4,
        fingerprint_id: 5,
        token_id: 6,
        session_id: 7,
    };
    let login = LoginRequest { email: "owner@example.test".to_owned(), display_name: None, device_name: None };
    let token = server.login_with(login, 100, ids).expect("login").session.token;
    assert_eq!(server.reply_status(&ApiRequest::get("/api/v1/providers/lotw").with_bearer(&token)), Some(200));
    assert_eq!(server.reply_status(&ApiRequest::get("/api/v1/providers/lotw")), Some(401));
    assert_eq!(server.reply_status(&ApiRequest::get("/api/v2/status")), Some(404));
    assert_eq!(server.reply_status(&ApiRequest::get("/api/v1/auth/session").with_bearer(&token)), Some(200));
    assert_eq!(route("POST", "/api/v1/sync/pull"), HostedRoute::Scaffolded);
    assert_eq!(route("GET", "/api/v1/providers/lotw"), HostedRoute::Scaffolded);
    assert_eq!(route("POST", "/api/v1/uploads/u-1/retry"), HostedRoute::Scaffolded);
    assert!(is_scaffolded_route("PATCH", &path_segments("/api/v1/equipment/rig-1")));
    assert_eq!(route("DELETE", "/api/v1/logbooks/abc"), HostedRoute::NotFound);
    assert_eq!(route("GET", "/api/v2/status"), HostedRoute::NotFound);
    assert_eq!(route("POST", "/health"), HostedRoute::NotFound);
}

#[test]
fn route_catalog_is_served_and_names_implemented_and_reserved_routes() {
    let server = ServerState::new();
    assert_eq!(server.reply_status(&ApiRequest::get("/api/v1/routes")), Some(200));
    let catalog = route_catalog();
    assert!(catalog.implemented.contains(&"POST /api/v1/qsos".to_owned()));
    assert!(catalog.scaffolded.contains(&"POST /api/v1/adif/import".to_owned()));
    assert!(catalog.implemented.iter().any(|r| r == "GET /health"));
    assert!(catalog.scaffolded.iter().any(|r| r == "POST /api/v1/sync/pull"));
    assert!(catalog.scaffolded.iter().any(|r| r == "GET /api/v1/adif/export"));
}
