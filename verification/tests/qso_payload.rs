use ham_sync::hosted_api::ApiError;
use ham_sync::qso_payload::{qso_create_payload, qso_create_payload_at, qso_patch_payload, PayloadMember, PayloadValue, QsoWriteRequest};

fn blank_request() -> QsoWriteRequest {
    QsoWriteRequest {
        logbook_id: 1,
        contacted_callsign: None,
        station_callsign: None,
        operator_callsign: None,
        started_at: None,
        mode: None,
        band: None,
        frequency_hz: None,
        notes: None,
        fields: Vec::new(),
    }
}

fn member<'a>(payload: &'a [PayloadMember], key: &str) -> Option<&'a PayloadValue> {
    payload.iter().find(|m| m.key == key).map(|m| &m.value)
}

fn text_of(payload: &[PayloadMember], key: &str) -> Option<String> {
    match member(payload, key) {
        Some(PayloadValue::Text(t)) => Some(t.clone()),
        _ => None,
    }
}

#[test]
fn create_payload_normalizes_and_defaults() {
    let mut input = blank_request();
    input.contacted_callsign = Some(" w1aw ".to_owned());
    input.mode = Some("ssb".to_owned());
    input.band = Some("20m".to_owned());
    input.frequency_hz = Some(14_250_000);
    input.notes = Some("   ".to_owned());
    input.fields = vec![
        ("rst_sent".to_owned(), "\"59\"".to_owned()),
        ("qso_id".to_owned(), "\"forged\"".to_owned()),
        ("band".to_owned(), "\"40m\"".to_owned()),
    ];
    let payload = qso_create_payload_at(&input, "2026-07-06T00:00:00Z").expect("payload");
    assert_eq!(text_of(&payload, "contacted_callsign").as_deref(), Some("W1AW"));
    assert_eq!(text_of(&payload, "mode").as_deref(), Some("SSB"));
    assert_eq!(text_of(&payload, "station_callsign").as_deref(), Some("KE8YGW"));
    assert_eq!(text_of(&payload, "operator_callsign").as_deref(), Some("KE8YGW"));
    assert_eq!(text_of(&payload, "started_at").as_deref(), Some("2026-07-06T00:00:00Z"));
    assert_eq!(text_of(&payload, "source").as_deref(), Some("hosted-api"));
    assert!(matches!(member(&payload, "frequency_hz"), Some(PayloadValue::Number(14_250_000))));
    assert!(member(&payload, "notes").is_none(), "blank notes are left out");
    assert!(member(&payload, "qso_id").is_none(), "reserved members cannot be supplied");
    assert!(matches!(member(&payload, "rst_sent"), Some(PayloadValue::Json(t)) if t == "\"59\""));
    assert!(matches!(member(&payload, "band"), Some(PayloadValue::Json(t)) if t == "\"40m\""), "extra members win");
    assert_eq!(payload.iter().filter(|m| m.key == "band").count(), 1);
}

#[test]
fn create_payload_requires_callsign_and_mode() {
    match qso_create_payload(&blank_request()) {
        Err(ApiError::BadRequest(m)) => assert_eq!(m, "contacted_callsign is required"),
        other => panic!("unexpected outcome {other:?}"),
    }
    let mut input = blank_request();
    input.contacted_callsign = Some("W1AW".to_owned());
    input.mode = Some("  ".to_owned());
    match qso_create_payload(&input) {
        Err(ApiError::BadRequest(m)) => assert_eq!(m, "mode is required"),
        other => panic!("unexpected outcome {other:?}"),
    }
    input.mode = Some("cw".to_owned());
    let payload = qso_create_payload(&input).expect("stamped now");
    assert!(text_of(&payload, "started_at").is_some_and(|t| t.len() > 10));
}

#[test]
fn patch_payload_holds_only_given_members() {
    let mut input = blank_request();
    input.contacted_callsign = Some(" ve3abc".to_owned());
    input.notes = Some("thanks".to_owned());
    let payload = qso_patch_payload(&input).expect("patch");
    let keys: Vec<&str> = payload.iter().map(|m| m.key.as_str()).collect();
    assert_eq!(keys, vec!["contacted_callsign", "notes"]);
    assert_eq!(text_of(&payload, "contacted_callsign").as_deref(), Some("VE3ABC"));
    match qso_patch_payload(&blank_request()) {
        Err(ApiError::BadRequest(m)) => assert_eq!(m, "qso patch payload must not be empty"),
        other => panic!("unexpected outcome {other:?}"),
    }
    let mut only_reserved = blank_request();
    only_reserved.fields = vec![("event_hash".to_owned(), "\"x\"".to_owned())];
    assert!(qso_patch_payload(&only_reserved).is_err());
}
