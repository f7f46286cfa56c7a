use sha2::{Digest, Sha256};
use ham_sync::lan_trust::{
    JsonLanTrustStore, LanPairingAcceptance, LanTrustError, LanTrustFile, PAIRING_TOKEN_TTL_MS,
};

const NOW: i64 = 1_780_000_000_000;

fn accept(token_id: u128, code: &str, peer: u128, logbooks: Vec<u128>) -> LanPairingAcceptance {
    LanPairingAcceptance {
        token_id,
        pairing_code: code.to_owned(),
        peer_device_id: peer,
        peer_display_name: "ios".to_owned(),
        requested_logbooks: logbooks,
        public_key_fingerprint: Some("fingerprint".to_owned()),
    }
}

#[test]
fn lan_pairing_is_single_use_and_revocation_is_immediate() {
    let mut file = LanTrustFile::new();
    let (issuer, peer, logbook_id) = (1u128, 2u128, 3u128);
    let token = file
        .issue_pairing_token(issuer, logbook_id, "desktop".to_owned(), true, NOW)
        .unwrap();
    assert_eq!(token.pairing_code.len(), 64);
    let trusted = file
        .accept_pairing_token(accept(token.token_id, &token.pairing_code, peer, vec![logbook_id]), NOW)
        .unwrap();
    assert_eq!(trusted.device_id, peer);
    assert_eq!(trusted.logbook_ids, vec![logbook_id]);
    assert!(matches!(
        file.accept_pairing_token(accept(token.token_id, &token.pairing_code, 99, vec![logbook_id]), NOW),
        Err(LanTrustError::PairingTokenConsumed)
    ));
    let first_auth = file.authorize_peer(peer, logbook_id, "nonce-1", NOW).unwrap();
    assert_eq!(first_auth.device_id, peer);
    assert_eq!(first_auth.last_seen_at, Some(NOW));
    assert!(matches!(
        file.authorize_peer(peer, logbook_id, "nonce-1", NOW),
        Err(LanTrustError::ReplayDetected(device)) if device == peer
    ));
    file.revoke_device(peer, NOW).unwrap();
    assert!(matches!(
        file.authorize_peer(peer, logbook_id, "nonce-2", NOW),
        Err(LanTrustError::DeviceRevoked(device)) if device == peer
    ));
}

#[test]
fn lan_pairing_rejects_expired_wrong_logbook_and_unapproved_tokens() {
    let mut file = LanTrustFile::new();
    let (issuer, logbook_id) = (1u128, 3u128);
    assert!(matches!(
        file.issue_pairing_token(issuer, logbook_id, "desktop".to_owned(), false, NOW),
        Err(LanTrustError::ApprovalRequired)
    ));
    let token = file.issue_pairing_token(issuer, logbook_id, "desktop".to_owned(), true, NOW).unwrap();
    assert!(matches!(
        file.accept_pairing_token(accept(token.token_id, &token.pairing_code, 5, vec![77]), NOW),
        Err(LanTrustError::WrongLogbook { device_id: 5, logbook_id: 3 })
    ));
    let expired = file.issue_pairing_token(issuer, logbook_id, "desktop".to_owned(), true, NOW).unwrap();
    assert!(matches!(
        file.accept_pairing_token(
            accept(expired.token_id, &expired.pairing_code, 6, vec![logbook_id]),
            NOW + PAIRING_TOKEN_TTL_MS + 1000,
        ),
        Err(LanTrustError::PairingTokenExpired)
    ));
}

#[test]
fn wrong_codes_and_unknown_tokens_are_refused() {
    let mut file = LanTrustFile::new();
    let token = file
        .issue_pairing_token_with(1, 3, "desktop".to_owned(), true, NOW, 0xabc, "secret".to_owned())
        .unwrap();
    assert_eq!(token.expires_at, NOW + PAIRING_TOKEN_TTL_MS);
    assert!(matches!(
        file.accept_pairing_token(accept(0xabc, "guess", 5, vec![3]), NOW),
        Err(LanTrustError::PairingTokenMismatch)
    ));
    assert!(matches!(
        file.accept_pairing_token(accept(0xdef, "secret", 5, vec![3]), NOW),
        Err(LanTrustError::PairingTokenNotFound)
    ));
    assert!(file.accept_pairing_token(accept(0xabc, "secret", 5, vec![3]), NOW).is_ok());
    assert!(matches!(file.authorize_peer(5, 4, "n", NOW), Err(LanTrustError::WrongLogbook { device_id: 5, logbook_id: 4 })));
    assert!(matches!(file.authorize_peer(6, 3, "n", NOW), Err(LanTrustError::DeviceNotFound(6))));
    assert!(matches!(file.revoke_device(6, NOW), Err(LanTrustError::DeviceNotFound(6))));
}

#[test]
fn replay_nonces_expire_after_ten_minutes() {
    let mut file = LanTrustFile::new();
    let token = file
        .issue_pairing_token_with(1, 3, "desktop".to_owned(), true, NOW, 10, "code".to_owned())
        .unwrap();
    file.accept_pairing_token(accept(token.token_id, "code", 5, vec![3]), NOW).unwrap();
    file.authorize_peer(5, 3, "n1", NOW).unwrap();
    assert!(matches!(file.authorize_peer(5, 3, "n1", NOW + 600_000), Err(LanTrustError::ReplayDetected(5))));
    assert!(file.authorize_peer(5, 3, "n1", NOW + 600_001).is_ok());
    assert_eq!(file.replay_nonces.len(), 1);
}

#[test]
fn trust_file_versions_and_store_paths() {
    let file = LanTrustFile::new();
    assert!(file.validate().is_ok());
    let other = LanTrustFile { version: 2, ..LanTrustFile::new() };
    assert!(matches!(other.validate(), Err(LanTrustError::UnsupportedFileVersion(2))));
    let store = JsonLanTrustStore::new("/tmp/lan-trust.json".to_owned());
    assert_eq!(store.path(), "/tmp/lan-trust.json");
}

#[test]
fn trust_snapshot_lists_tokens_without_their_hashes() {
    let mut file = LanTrustFile::new();
    let token = file.issue_pairing_token(1, 3, "desktop".to_owned(), true, NOW).unwrap();
    file.accept_pairing_token(accept(token.token_id, &token.pairing_code, 2, vec![3]), NOW + 5).unwrap();
    let snapshot = file.snapshot();
    assert_eq!(snapshot.version, file.version);
    assert_eq!(snapshot.pairing_tokens.len(), 1);
    let summary = &snapshot.pairing_tokens[0];
    assert_eq!(summary.token_id, token.token_id);
    assert_eq!(summary.issuer_display_name, "desktop");
    assert_eq!(summary.expires_at, NOW + PAIRING_TOKEN_TTL_MS);
    assert_eq!(summary.consumed_at, Some(NOW + 5));
    assert!(summary.approved_by_operator);
    assert_eq!(snapshot.trusted_devices.len(), 1);
    assert_eq!(snapshot.trusted_devices[0].device_id, 2);
}

#[test]
fn pairing_codes_are_stored_only_as_sha256_hashes() {
    let mut file = LanTrustFile::new();
    let token = file.issue_pairing_token(1, 3, "desktop".to_owned(), true, NOW).unwrap();
    let stored = &file.pairing_tokens[0].token_hash;
    let expected = format!(
        "{:x}",
        Sha256::digest(format!("{}:{}", uuid::Uuid::from_u128(token.token_id), token.pairing_code).as_bytes())
    );
    assert_eq!(stored, &expected);
    assert_ne!(stored, &token.pairing_code);
    assert_eq!(stored.len(), 64);
    assert!(token.pairing_code.chars().all(|c| c.is_ascii_digit() || ('a'..='f').contains(&c)));
}
