use ham_sync::admin_http::{request_timeout_seconds, HttpHostedAdminTransport};
use ham_sync::desktop::{desktop_api_method, desktop_api_url, DesktopCommandError, DEFAULT_DESKTOP_SERVER_URL};

#[test]
fn desktop_api_url_rejects_non_api_paths() {
    let error = desktop_api_url(None, DEFAULT_DESKTOP_SERVER_URL, "https://example.com/api/shell").unwrap_err();
    assert_eq!(error.code, "native_dialog_failed");
    assert_eq!(error.message, "desktop API proxy only accepts /api/* paths");
    assert!(desktop_api_url(None, DEFAULT_DESKTOP_SERVER_URL, "/api/x\r\nHost: evil").is_err());
}

#[test]
fn desktop_api_urls_join_server_and_path() {
    assert_eq!(
        desktop_api_url(None, DEFAULT_DESKTOP_SERVER_URL, "/api/v1/status").expect("url"),
        "http://127.0.0.1:9467/api/v1/status"
    );
    assert_eq!(
        desktop_api_url(Some("https://logger.example//"), DEFAULT_DESKTOP_SERVER_URL, "/api/v1/qsos").expect("url"),
        "https://logger.example/api/v1/qsos"
    );
    assert_eq!(
        desktop_api_url(Some("   "), DEFAULT_DESKTOP_SERVER_URL, "/api/").expect("url"),
        "http://127.0.0.1:9467/api/"
    );
}

#[test]
fn desktop_proxy_forwards_get_and_post_only() {
    assert_eq!(desktop_api_method(None).expect("default"), "GET");
    assert_eq!(desktop_api_method(Some("post")).expect("post"), "POST");
    let DesktopCommandError { code, message } = desktop_api_method(Some("DELETE")).unwrap_err();
    assert_eq!(code, "native_dialog_failed");
    assert_eq!(message, "desktop API proxy only supports GET and POST");
}

#[test]
fn admin_transport_bounds_its_timeout() {
    let _transport = HttpHostedAdminTransport::new();
    assert_eq!(request_timeout_seconds(0), 1);
    assert_eq!(request_timeout_seconds(20), 20);
    assert_eq!(request_timeout_seconds(600), 120);
}

#[test]
fn default_desktop_server_url_points_to_local_gui_api() {
    assert_eq!(DEFAULT_DESKTOP_SERVER_URL, "http://127.0.0.1:9467");
}
