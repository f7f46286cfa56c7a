use ham_sync::account::{
    classify_hosted_account_error, normalize_base_url, normalize_device_name, normalize_email,
    plan_hosted_account_request, plan_hosted_account_request_with_id, require_token, BodyValue,
    HostedAccountAction, HostedAccountConfig, HostedAccountConnectionState, HostedAccountError,
    HostedAccountOutcome, HostedAccountSnapshot,
};

fn config() -> HostedAccountConfig {
    HostedAccountConfig {
        base_url: "https://logger.example/".to_owned(),
        device_name: "Shack Desktop".to_owned(),
    }
}

fn body_text(plan_body: &Option<Vec<ham_sync::account::BodyField>>, key: &str) -> Option<String> {
    plan_body.as_ref().and_then(|fields| {
        fields.iter().find(|f| f.key == key).and_then(|f| match &f.value {
            BodyValue::Text(t) => Some(t.clone()),
            BodyValue::Flag(_) => None,
        })
    })
}

#[test]
fn base_url_normalization_rejects_unsupported_values() {
    assert_eq!(
        normalize_base_url("https://logger.example/").expect("https base URL is accepted"),
        "https://logger.example"
    );
    assert!(matches!(
        normalize_base_url("ftp://logger.example"),
        Err(HostedAccountError::InvalidBaseUrl(_))
    ));
    assert!(matches!(
        normalize_base_url("https://logger.example/path\nHost: evil"),
        Err(HostedAccountError::InvalidBaseUrl(_))
    ));
    assert!(matches!(
        normalize_base_url("   "),
        Err(HostedAccountError::InvalidBaseUrl(_))
    ));
}

#[test]
fn email_normalization_lowercases_and_rejects_malformed_addresses() {
    assert_eq!(
        normalize_email("  Operator@Example.COM ").expect("valid email"),
        "operator@example.com"
    );
    assert!(matches!(
        normalize_email("operator@example"),
        Err(HostedAccountError::InvalidEmail)
    ));
    assert!(matches!(
        normalize_email("operator@@example.com"),
        Err(HostedAccountError::InvalidEmail)
    ));
}

#[test]
fn session_routes_require_stored_session_credentials() {
    let snapshot = HostedAccountSnapshot::new(&config().normalized().expect("config"));
    for action in [
        HostedAccountAction::Session,
        HostedAccountAction::Logout,
        HostedAccountAction::DeviceList,
        HostedAccountAction::DeviceRevokeAll,
    ] {
        assert!(matches!(
            plan_hosted_account_request(&action, &snapshot),
            Err(HostedAccountError::SessionRequired)
        ));
    }
}

#[test]
fn login_plan_targets_the_frozen_hosted_route() {
    let snapshot = HostedAccountSnapshot::new(&config().normalized().expect("config"));
    let plan = plan_hosted_account_request(
        &HostedAccountAction::Login {
            email: "Operator@Example.com".to_owned(),
            display_name: Some("  Operator  ".to_owned()),
        },
        &snapshot,
    )
    .expect("login plans");
    assert_eq!(plan.method, "POST");
    assert_eq!(plan.path, "/api/v1/auth/login");
    assert_eq!(plan.url, "https://logger.example/api/v1/auth/login");
    assert!(!plan.requires_session_token);
    assert!(plan.body.is_some());
    assert_eq!(body_text(&plan.body, "email").as_deref(), Some("operator@example.com"));
    assert_eq!(body_text(&plan.body, "display_name").as_deref(), Some("Operator"));
    assert_eq!(body_text(&plan.body, "device_name").as_deref(), Some("Shack Desktop"));
}

#[test]
fn error_codes_map_to_stable_outcomes_before_status_codes() {
    assert_eq!(
        classify_hosted_account_error(Some("registration_closed"), 200),
        HostedAccountOutcome::RegistrationClosed
    );
    assert_eq!(
        classify_hosted_account_error(Some("email_unverified"), 400),
        HostedAccountOutcome::EmailVerificationRequired
    );
    assert_eq!(
        classify_hosted_account_error(Some("turnstile_failed"), 400),
        HostedAccountOutcome::HumanVerificationFailed
    );
    assert_eq!(
        classify_hosted_account_error(Some("rate_limited"), 429),
        HostedAccountOutcome::RateLimited
    );
    assert_eq!(
        classify_hosted_account_error(None, 503),
        HostedAccountOutcome::TransientFailure
    );
    assert_eq!(
        classify_hosted_account_error(None, 404),
        HostedAccountOutcome::PermanentFailure
    );
}

#[test]
fn unknown_codes_fall_back_to_the_status() {
    assert_eq!(
        classify_hosted_account_error(Some("something_new"), 401),
        HostedAccountOutcome::AuthenticationRequired
    );
    assert_eq!(
        classify_hosted_account_error(Some("device_revoked"), 500),
        HostedAccountOutcome::AuthenticationRequired
    );
    assert_eq!(
        classify_hosted_account_error(None, 422),
        HostedAccountOutcome::ValidationFailed
    );
    assert_eq!(
        classify_hosted_account_error(None, 302),
        HostedAccountOutcome::PermanentFailure
    );
    assert_eq!(
        classify_hosted_account_error(Some("store_unavailable"), 200),
        HostedAccountOutcome::TransientFailure
    );
}

#[test]
fn outcome_flags_and_labels_are_stable() {
    assert!(HostedAccountOutcome::Accepted.is_accepted());
    assert!(!HostedAccountOutcome::RateLimited.is_accepted());
    assert!(HostedAccountOutcome::RateLimited.is_retryable());
    assert!(HostedAccountOutcome::TransientFailure.is_retryable());
    assert!(!HostedAccountOutcome::TokenExpired.is_retryable());
    assert!(HostedAccountOutcome::TokenExpired.requires_user_action());
    assert!(!HostedAccountOutcome::PermanentFailure.requires_user_action());
    assert_eq!(HostedAccountOutcome::HumanVerificationFailed.as_str(), "human_verification_failed");
    assert_eq!(HostedAccountOutcome::Accepted.to_string(), "accepted");
    assert!(HostedAccountConnectionState::SignedIn.is_signed_in());
    assert!(!HostedAccountConnectionState::SessionExpired.is_signed_in());
}

#[test]
fn base_url_rules_apply_in_order() {
    assert!(matches!(
        normalize_base_url("https://"),
        Err(HostedAccountError::InvalidBaseUrl(m)) if m == "base URL must start with http:// or https://"
    ));
    assert!(matches!(
        normalize_base_url("https:///path"),
        Err(HostedAccountError::InvalidBaseUrl(m)) if m == "base URL must include a host"
    ));
    let long = format!("https://{}", "a".repeat(2100));
    assert!(matches!(
        normalize_base_url(&long),
        Err(HostedAccountError::InvalidBaseUrl(m)) if m == "base URL is too long"
    ));
    assert!(matches!(
        normalize_base_url(""),
        Err(HostedAccountError::InvalidBaseUrl(m)) if m == "base URL is required"
    ));
    assert_eq!(normalize_base_url(" http://127.0.0.1:9750// ").unwrap(), "http://127.0.0.1:9750");
}

#[test]
fn device_names_default_and_bound() {
    assert_eq!(normalize_device_name("   ").unwrap(), "KE8YGW Logger Device");
    assert_eq!(normalize_device_name("  Rig  ").unwrap(), "Rig");
    assert!(matches!(
        normalize_device_name(&"x".repeat(129)),
        Err(HostedAccountError::FieldTooLong { field: "device_name", max: 128 })
    ));
    assert!(matches!(
        normalize_device_name("bad\u{7}name"),
        Err(HostedAccountError::FieldTooLong { field: "device_name", max: 128 })
    ));
}

#[test]
fn tokens_are_trimmed_and_required() {
    assert_eq!(require_token("  abc  ", "token").unwrap(), "abc");
    assert!(matches!(require_token("   ", "token"), Err(HostedAccountError::MissingField("token"))));
    assert!(matches!(
        require_token(&"t".repeat(1025), "token"),
        Err(HostedAccountError::FieldTooLong { field: "token", max: 1024 })
    ));
}

#[test]
fn config_defaults_and_normalization() {
    let config = HostedAccountConfig::default();
    assert_eq!(config.base_url, "http://127.0.0.1:9750");
    assert_eq!(config.device_name, "KE8YGW Logger Device");
    let normalized = HostedAccountConfig {
        base_url: "https://logger.example///".to_owned(),
        device_name: " ".to_owned(),
    }
    .normalized()
    .unwrap();
    assert_eq!(normalized.base_url, "https://logger.example");
    assert_eq!(normalized.device_name, "KE8YGW Logger Device");
}

#[test]
fn rotation_and_revocation_plans() {
    let mut snapshot = HostedAccountSnapshot::new(&config().normalized().expect("config"));
    snapshot.session_token_credential_id = Some(7);
    assert!(matches!(
        plan_hosted_account_request(&HostedAccountAction::SessionRotate, &snapshot),
        Err(HostedAccountError::RefreshTokenRequired)
    ));
    snapshot.refresh_token_credential_id = Some(9);
    let plan =
        plan_hosted_account_request_with_id(&HostedAccountAction::SessionRotate, &snapshot, 42).unwrap();
    assert_eq!(plan.path, "/api/v1/auth/session/rotate");
    assert_eq!(plan.request_id, 42);
    assert_eq!(plan.session_token_credential_id, Some(7));
    assert_eq!(plan.refresh_token_credential_id, Some(9));
    assert_eq!(plan.refresh_token_body_field.as_deref(), Some("refresh_token"));
    let revoke = plan_hosted_account_request_with_id(
        &HostedAccountAction::DeviceRevoke { device_id: 0x1234 },
        &snapshot,
        1,
    )
    .unwrap();
    assert_eq!(revoke.path, "/api/v1/devices/00000000-0000-0000-0000-000000001234/revoke");
    assert_eq!(revoke.url, "https://logger.example/api/v1/devices/00000000-0000-0000-0000-000000001234/revoke");
}

#[test]
fn normalized_values_normalize_to_themselves() {
    let url = normalize_base_url("  https://hosted.example.com/// ").expect("valid");
    assert_eq!(url, "https://hosted.example.com");
    assert_eq!(normalize_base_url(&url).expect("still valid"), url);
    let email = normalize_email("  Operator@Example.COM ").expect("valid");
    assert_eq!(email, "operator@example.com");
    assert_eq!(normalize_email(&email).expect("still valid"), email);
}

#[test]
fn normalized_device_names_normalize_to_themselves() {
    let name = normalize_device_name("  Shack Desktop \t").expect("valid");
    assert_eq!(name, "Shack Desktop");
    assert_eq!(normalize_device_name(&name).expect("still valid"), name);
    let default_name = normalize_device_name("   ").expect("default");
    assert_eq!(default_name, "KE8YGW Logger Device");
    assert_eq!(normalize_device_name(&default_name).expect("still valid"), default_name);
}

#[test]
fn planned_bodies_never_carry_a_refresh_token() {
    let mut snapshot = HostedAccountSnapshot::new(&config().normalized().expect("config"));
    snapshot.session_token_credential_id = Some(7);
    snapshot.refresh_token_credential_id = Some(9);
    let actions = vec![
        HostedAccountAction::Register {
            email: "op@example.com".to_owned(),
            display_name: Some("Op".to_owned()),
            invitation_token: Some("invite".to_owned()),
            turnstile_token: Some("turnstile".to_owned()),
        },
        HostedAccountAction::VerifyEmail { token: "verify".to_owned() },
        HostedAccountAction::RecoveryComplete { token: "recover".to_owned() },
        HostedAccountAction::Login { email: "op@example.com".to_owned(), display_name: None },
        HostedAccountAction::SessionRotate,
        HostedAccountAction::AccountDelete,
        HostedAccountAction::DeviceRegister { device_name: "Rig".to_owned() },
    ];
    for action in actions.iter() {
        let plan = plan_hosted_account_request_with_id(action, &snapshot, 1).expect("plan");
        let rotate = matches!(action, HostedAccountAction::SessionRotate);
        assert_eq!(plan.requires_refresh_token, rotate);
        assert_eq!(plan.refresh_token_body_field.is_some(), rotate);
        if let Some(fields) = &plan.body {
            assert!(fields.iter().all(|f| f.key != "refresh_token"));
        }
    }
}
