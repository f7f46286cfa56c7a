//! LAN pairing and peer trust: single-use pairing tokens approved by the
//! operator, the trusted devices they admit, replay protection for peer
//! authorization, and immediate revocation.
use vstd::prelude::*;
use crate::events::{copy_opt, opt_view};
use crate::ids::{sha256_hex_text, uuid_hyphenated_text};
use crate::text::{append_str, str_to_string};

verus! {

pub const LAN_TRUST_FILE_VERSION: u32 = 1;
/// How long a pairing token stays valid, in milliseconds (ten minutes).
pub const PAIRING_TOKEN_TTL_MS: i64 = 600000;
/// How long a replay nonce is remembered, in milliseconds (ten minutes).
pub const REPLAY_NONCE_TTL_MS: i64 = 600000;

/// Why a LAN trust operation was refused.
#[derive(Debug, Clone, Copy, PartialEq, Eq, Structural)]
pub enum LanTrustError {
    UnsupportedFileVersion(u32),
    ApprovalRequired,
    PairingTokenNotFound,
    PairingTokenExpired,
    PairingTokenConsumed,
    PairingTokenMismatch,
    DeviceNotFound(u128),
    DeviceRevoked(u128),
    WrongLogbook { device_id: u128, logbook_id: u128 },
    ReplayDetected(u128),
}

/// A pairing token as handed to the operator: the only time the code is seen.
#[derive(Debug)]
pub struct IssuedPairingToken {
    pub token_id: u128,
    pub pairing_code: String,
    pub expires_at: i64,
}

/// A pairing token as stored: the code only as a hash.
#[derive(Debug)]
pub struct PairingTokenRecord {
    pub token_id: u128,
    pub issuer_device_id: u128,
    pub logbook_id: u128,
    pub issuer_display_name: String,
    pub token_hash: String,
    pub created_at: i64,
    pub expires_at: i64,
    pub consumed_at: Option<i64>,
    pub approved_by_operator: bool,
}

pub struct TokenView {
    pub token_id: u128,
    pub issuer_device_id: u128,
    pub logbook_id: u128,
    pub issuer_display_name: Seq<char>,
    pub token_hash: Seq<char>,
    pub created_at: i64,
    pub expires_at: i64,
    pub consumed_at: Option<i64>,
    pub approved_by_operator: bool,
}

impl View for PairingTokenRecord {
    type V = TokenView;

    open spec fn view(&self) -> TokenView {
        TokenView {
            token_id: self.token_id,
            issuer_device_id: self.issuer_device_id,
            logbook_id: self.logbook_id,
            issuer_display_name: self.issuer_display_name@,
            token_hash: self.token_hash@,
            created_at: self.created_at,
            expires_at: self.expires_at,
            consumed_at: self.consumed_at,
            approved_by_operator: self.approved_by_operator,
        }
    }
}

/// A device admitted by a pairing token.
#[derive(Debug)]
pub struct TrustedPeerDevice {
    pub device_id: u128,
    pub display_name: String,
    pub logbook_ids: Vec<u128>,
    pub trusted_at: i64,
    pub revoked_at: Option<i64>,
    pub pairing_token_id: Option<u128>,
    pub public_key_fingerprint: Option<String>,
    pub last_seen_at: Option<i64>,
}

pub struct TrustedDeviceView {
    pub device_id: u128,
    pub display_name: Seq<char>,
    pub logbook_ids: Seq<u128>,
    pub trusted_at: i64,
    pub revoked_at: Option<i64>,
    pub pairing_token_id: Option<u128>,
    pub public_key_fingerprint: Option<Seq<char>>,
    pub last_seen_at: Option<i64>,
}

impl View for TrustedPeerDevice {
    type V = TrustedDeviceView;

    open spec fn view(&self) -> TrustedDeviceView {
        TrustedDeviceView {
            device_id: self.device_id,
            display_name: self.display_name@,
            logbook_ids: self.logbook_ids@,
            trusted_at: self.trusted_at,
            revoked_at: self.revoked_at,
            pairing_token_id: self.pairing_token_id,
            public_key_fingerprint: opt_view(self.public_key_fingerprint),
            last_seen_at: self.last_seen_at,
        }
    }
}

impl TrustedPeerDevice {
    pub fn copy(&self) -> (r: Self)
        ensures
            r@ == self@,
    {
        TrustedPeerDevice {
            device_id: self.device_id,
            display_name: self.display_name.clone(),
            logbook_ids: self.logbook_ids.clone(),
            trusted_at: self.trusted_at,
            revoked_at: self.revoked_at,
            pairing_token_id: self.pairing_token_id,
            public_key_fingerprint: copy_opt(&self.public_key_fingerprint),
            last_seen_at: self.last_seen_at,
        }
    }
}

/// A replay nonce seen from a device, kept until it expires.
#[derive(Debug)]
pub struct ReplayNonceRecord {
    pub device_id: u128,
    pub nonce_hash: String,
    pub seen_at: i64,
    pub expires_at: i64,
}

pub struct NonceView {
    pub device_id: u128,
    pub nonce_hash: Seq<char>,
    pub seen_at: i64,
    pub expires_at: i64,
}

impl View for ReplayNonceRecord {
    type V = NonceView;

    open spec fn view(&self) -> NonceView {
        NonceView {
            device_id: self.device_id,
            nonce_hash: self.nonce_hash@,
            seen_at: self.seen_at,
            expires_at: self.expires_at,
        }
    }
}

/// The durable LAN trust record.
#[derive(Debug)]
pub struct LanTrustFile {
    pub version: u32,
    pub pairing_tokens: Vec<PairingTokenRecord>,
    pub trusted_devices: Vec<TrustedPeerDevice>,
    pub replay_nonces: Vec<ReplayNonceRecord>,
}

pub struct TrustView {
    pub version: u32,
    pub tokens: Seq<TokenView>,
    pub devices: Seq<TrustedDeviceView>,
    pub nonces: Seq<NonceView>,
}

pub open spec fn token_views(v: Seq<PairingTokenRecord>) -> Seq<TokenView> {
    v.map_values(|t: PairingTokenRecord| t@)
}

pub open spec fn device_views(v: Seq<TrustedPeerDevice>) -> Seq<TrustedDeviceView> {
    v.map_values(|d: TrustedPeerDevice| d@)
}

pub open spec fn nonce_views(v: Seq<ReplayNonceRecord>) -> Seq<NonceView> {
    v.map_values(|n: ReplayNonceRecord| n@)
}

impl View for LanTrustFile {
    type V = TrustView;

    open spec fn view(&self) -> TrustView {
        TrustView {
            version: self.version,
            tokens: token_views(self.pairing_tokens@),
            devices: device_views(self.trusted_devices@),
            nonces: nonce_views(self.replay_nonces@),
        }
    }
}

/// A request to accept a pairing token.
#[derive(Debug)]
pub struct LanPairingAcceptance {
    pub token_id: u128,
    pub pairing_code: String,
    pub peer_device_id: u128,
    pub peer_display_name: String,
    pub requested_logbooks: Vec<u128>,
    pub public_key_fingerprint: Option<String>,
}

/// The stored hash of a pairing code: SHA-256 of `{token_id}:{code}`.
pub open spec fn pairing_hash(token_id: u128, code: Seq<char>) -> Seq<char> {
    sha256_hex_text(uuid_hyphenated_text(token_id) + ":"@ + code)
}

/// The stored hash of a replay nonce: SHA-256 of `{device_id}:{nonce}`.
pub open spec fn nonce_hash(device_id: u128, nonce: Seq<char>) -> Seq<char> {
    sha256_hex_text(uuid_hyphenated_text(device_id) + ":"@ + nonce)
}

pub open spec fn token_position(ts: Seq<TokenView>, token_id: u128) -> int
    decreases ts.len(),
{
    if ts.len() == 0 {
        0
    } else if ts[0].token_id == token_id {
        0
    } else {
        1 + token_position(ts.drop_first(), token_id)
    }
}

pub open spec fn device_position(ds: Seq<TrustedDeviceView>, device_id: u128) -> int
    decreases ds.len(),
{
    if ds.len() == 0 {
        0
    } else if ds[0].device_id == device_id {
        0
    } else {
        1 + device_position(ds.drop_first(), device_id)
    }
}

proof fn lemma_token_position(ts: Seq<TokenView>, token_id: u128, i: int)
    requires
        0 <= i <= ts.len(),
        forall|k: int| 0 <= k < i ==> ts[k].token_id != token_id,
        i == ts.len() || ts[i].token_id == token_id,
    ensures
        token_position(ts, token_id) == i,
    decreases i,
{
    if i > 0 {
        lemma_token_position(ts.drop_first(), token_id, i - 1);
    }
}

proof fn lemma_device_position(ds: Seq<TrustedDeviceView>, device_id: u128, i: int)
    requires
        0 <= i <= ds.len(),
        forall|k: int| 0 <= k < i ==> ds[k].device_id != device_id,
        i == ds.len() || ds[i].device_id == device_id,
    ensures
        device_position(ds, device_id) == i,
    decreases i,
{
    if i > 0 {
        lemma_device_position(ds.drop_first(), device_id, i - 1);
    }
}

/// The record a token issued at `now` is stored as.
pub open spec fn issued_record(
    token_id: u128,
    issuer_device_id: u128,
    logbook_id: u128,
    issuer_display_name: Seq<char>,
    code: Seq<char>,
    now: i64,
) -> TokenView {
    TokenView {
        token_id,
        issuer_device_id,
        logbook_id,
        issuer_display_name,
        token_hash: pairing_hash(token_id, code),
        created_at: now,
        expires_at: (now + PAIRING_TOKEN_TTL_MS) as i64,
        consumed_at: None,
        approved_by_operator: true,
    }
}

pub open spec fn accepted_device(req: LanPairingAcceptance, logbook_id: u128, now: i64) -> TrustedDeviceView {
    TrustedDeviceView {
        device_id: req.peer_device_id,
        display_name: req.peer_display_name@,
        logbook_ids: seq![logbook_id],
        trusted_at: now,
        revoked_at: None,
        pairing_token_id: Some(req.token_id),
        public_key_fingerprint: opt_view(req.public_key_fingerprint),
        last_seen_at: None,
    }
}

/// Puts a device record in place of the first one with its id, or appends it.
pub open spec fn upsert_device(ds: Seq<TrustedDeviceView>, d: TrustedDeviceView) -> Seq<TrustedDeviceView> {
    let j = device_position(ds, d.device_id);
    if j < ds.len() {
        ds.update(j, d)
    } else {
        ds.push(d)
    }
}

/// Accepting a pairing request: the token must exist, be unconsumed,
/// unexpired, match the code and cover a requested logbook; then it is
/// consumed and the peer trusted for that logbook. A refused request leaves
/// the record as it was.
pub open spec fn accept_spec(s: TrustView, req: LanPairingAcceptance, now: i64) -> (TrustView, Result<
    TrustedDeviceView,
    LanTrustError,
>) {
    let i = token_position(s.tokens, req.token_id);
    if i >= s.tokens.len() {
        (s, Err(LanTrustError::PairingTokenNotFound))
    } else {
        let t = s.tokens[i];
        if t.consumed_at is Some {
            (s, Err(LanTrustError::PairingTokenConsumed))
        } else if t.expires_at < now {
            (s, Err(LanTrustError::PairingTokenExpired))
        } else if t.token_hash != pairing_hash(req.token_id, req.pairing_code@) {
            (s, Err(LanTrustError::PairingTokenMismatch))
        } else if !req.requested_logbooks@.contains(t.logbook_id) {
            (s, Err(LanTrustError::WrongLogbook { device_id: req.peer_device_id, logbook_id: t.logbook_id }))
        } else {
            let d = accepted_device(req, t.logbook_id, now);
            (
                TrustView {
                    tokens: s.tokens.update(i, TokenView { consumed_at: Some(now), ..t }),
                    devices: upsert_device(s.devices, d),
                    ..s
                },
                Ok(d),
            )
        }
    }
}

pub open spec fn unexpired_nonces(ns: Seq<NonceView>, now: i64) -> Seq<NonceView> {
    ns.filter(|n: NonceView| n.expires_at >= now)
}

pub open spec fn nonce_seen(ns: Seq<NonceView>, device_id: u128, h: Seq<char>) -> bool {
    exists|k: int| 0 <= k < ns.len() && ns[k].device_id == device_id && ns[k].nonce_hash == h
}

/// Authorizing a peer for a logbook with a replay nonce: a nonce the device
/// already used (and that has not expired) is a replay; the device must be
/// trusted, not revoked and trusted for the logbook. On success expired
/// nonces are dropped, the device is marked seen and the nonce remembered.
/// A refused request leaves the record as it was.
pub open spec fn authorize_spec(s: TrustView, device_id: u128, logbook_id: u128, nonce: Seq<char>, now: i64) -> (
    TrustView,
    Result<TrustedDeviceView, LanTrustError>,
) {
    let kept = unexpired_nonces(s.nonces, now);
    let h = nonce_hash(device_id, nonce);
    let j = device_position(s.devices, device_id);
    if nonce_seen(kept, device_id, h) {
        (s, Err(LanTrustError::ReplayDetected(device_id)))
    } else if j >= s.devices.len() {
        (s, Err(LanTrustError::DeviceNotFound(device_id)))
    } else if s.devices[j].revoked_at is Some {
        (s, Err(LanTrustError::DeviceRevoked(device_id)))
    } else if !s.devices[j].logbook_ids.contains(logbook_id) {
        (s, Err(LanTrustError::WrongLogbook { device_id, logbook_id }))
    } else {
        let d = TrustedDeviceView { last_seen_at: Some(now), ..s.devices[j] };
        (
            TrustView {
                devices: s.devices.update(j, d),
                nonces: kept.push(
                    NonceView {
                        device_id,
                        nonce_hash: h,
                        seen_at: now,
                        expires_at: (now + REPLAY_NONCE_TTL_MS) as i64,
                    },
                ),
                ..s
            },
            Ok(d),
        )
    }
}

/// Revoking a trusted device: it is marked revoked at `now`.
pub open spec fn revoke_spec(s: TrustView, device_id: u128, now: i64) -> (TrustView, Result<
    TrustedDeviceView,
    LanTrustError,
>) {
    let j = device_position(s.devices, device_id);
    if j >= s.devices.len() {
        (s, Err(LanTrustError::DeviceNotFound(device_id)))
    } else {
        let d = TrustedDeviceView { revoked_at: Some(now), ..s.devices[j] };
        (TrustView { devices: s.devices.update(j, d), ..s }, Ok(d))
    }
}

pub open spec fn result_view(r: Result<TrustedPeerDevice, LanTrustError>) -> Result<
    TrustedDeviceView,
    LanTrustError,
> {
    match r {
        Ok(d) => Ok(d@),
        Err(e) => Err(e),
    }
}

fn text_with_id(id: u128, text: &str) -> (r: String)
    ensures
        r@ == uuid_hyphenated_text(id) + ":"@ + text@,
{
    let mut r = crate::ids::uuid_text(id);
    append_str(&mut r, ":");
    append_str(&mut r, text);
    r
}

fn pairing_token_hash(token_id: u128, code: &str) -> (r: String)
    ensures
        r@ == pairing_hash(token_id, code@),
{
    let t = text_with_id(token_id, code);
    crate::ids::sha256_hex(t.as_str())
}

fn replay_nonce_hash(device_id: u128, nonce: &str) -> (r: String)
    ensures
        r@ == nonce_hash(device_id, nonce@),
{
    let t = text_with_id(device_id, nonce);
    crate::ids::sha256_hex(t.as_str())
}

/// Where the LAN trust record is kept; the file is read and written by the
/// embedding application.
#[derive(Debug)]
pub struct JsonLanTrustStore {
    path: String,
}

impl JsonLanTrustStore {
    pub fn new(path: String) -> (r: Self)
        ensures
            r.path_view() == path@,
    {
        JsonLanTrustStore { path }
    }

    pub closed spec fn path_view(&self) -> Seq<char> {
        self.path@
    }

    pub fn path(&self) -> (r: &str)
        ensures
            r@ == self.path_view(),
    {
        self.path.as_str()
    }
}

impl LanTrustFile {
    /// An empty record of the current version.
    pub fn new() -> (r: Self)
        ensures
            r@.version == LAN_TRUST_FILE_VERSION,
            r@.tokens.len() == 0 && r@.devices.len() == 0 && r@.nonces.len() == 0,
    {
        let r = LanTrustFile {
            version: LAN_TRUST_FILE_VERSION,
            pairing_tokens: Vec::new(),
            trusted_devices: Vec::new(),
            replay_nonces: Vec::new(),
        };
        assert(r@.tokens =~= Seq::<TokenView>::empty());
        assert(r@.devices =~= Seq::<TrustedDeviceView>::empty());
        assert(r@.nonces =~= Seq::<NonceView>::empty());
        r
    }

    /// Only the current version is understood.
    pub fn validate(&self) -> (r: Result<(), LanTrustError>)
        ensures
            self.version == LAN_TRUST_FILE_VERSION ==> r is Ok,
            self.version != LAN_TRUST_FILE_VERSION ==> r == Err::<(), LanTrustError>(
                LanTrustError::UnsupportedFileVersion(self.version),
            ),
    {
        if self.version != LAN_TRUST_FILE_VERSION {
            Err(LanTrustError::UnsupportedFileVersion(self.version))
        } else {
            Ok(())
        }
    }

    /// Issues a pairing token with the given id and code, valid for ten
    /// minutes; only an operator-approved request gets one.
    pub fn issue_pairing_token_with(
        &mut self,
        issuer_device_id: u128,
        logbook_id: u128,
        issuer_display_name: String,
        approved_by_operator: bool,
        now: i64,
        token_id: u128,
        pairing_code: String,
    ) -> (r: Result<IssuedPairingToken, LanTrustError>)
        requires
            now <= i64::MAX - PAIRING_TOKEN_TTL_MS,
        ensures
            !approved_by_operator ==> (r matches Err(LanTrustError::ApprovalRequired) && final(self)@
                == old(self)@),
            approved_by_operator ==> (r matches Ok(t) && t.token_id == token_id && t.pairing_code@
                == pairing_code@ && t.expires_at == now + PAIRING_TOKEN_TTL_MS && final(self)@ == (
            TrustView {
                tokens: old(self)@.tokens.push(
                    issued_record(
                        token_id,
                        issuer_device_id,
                        logbook_id,
                        issuer_display_name@,
                        pairing_code@,
                        now,
                    ),
                ),
                ..old(self)@
            })),
    {
        if !approved_by_operator {
            return Err(LanTrustError::ApprovalRequired);
        }
        let expires_at = now + PAIRING_TOKEN_TTL_MS;
        let token_hash = pairing_token_hash(token_id, pairing_code.as_str());
        let rec = PairingTokenRecord {
            token_id,
            issuer_device_id,
            logbook_id,
            issuer_display_name,
            token_hash,
            created_at: now,
            expires_at,
            consumed_at: None,
            approved_by_operator,
        };
        let ghost before = self@;
        let ghost rv = rec@;
        self.pairing_tokens.push(rec);
        assert(self@.tokens =~= before.tokens.push(rv));
        Ok(IssuedPairingToken { token_id, pairing_code, expires_at })
    }

    /// Issues a pairing token with a fresh random id and a code made of two
    /// random identifiers in simple form.
    pub fn issue_pairing_token(
        &mut self,
        issuer_device_id: u128,
        logbook_id: u128,
        issuer_display_name: String,
        approved_by_operator: bool,
        now: i64,
    ) -> (r: Result<IssuedPairingToken, LanTrustError>)
        requires
            now <= i64::MAX - PAIRING_TOKEN_TTL_MS,
        ensures
            !approved_by_operator ==> (r matches Err(LanTrustError::ApprovalRequired) && final(self)@
                == old(self)@),
            approved_by_operator ==> (r matches Ok(t) && t.expires_at == now + PAIRING_TOKEN_TTL_MS
                && final(self)@ == (TrustView {
                tokens: old(self)@.tokens.push(
                    issued_record(
                        t.token_id,
                        issuer_device_id,
                        logbook_id,
                        issuer_display_name@,
                        t.pairing_code@,
                        now,
                    ),
                ),
                ..old(self)@
            })),
            r matches Ok(t) ==> exists|a: u128, b: u128|
                #![trigger crate::ids::uuid_simple_text(a), crate::ids::uuid_simple_text(b)]
                t.pairing_code@ == crate::ids::uuid_simple_text(a) + crate::ids::uuid_simple_text(b),
    {
        if !approved_by_operator {
            return Err(LanTrustError::ApprovalRequired);
        }
        let token_id = crate::ids::new_uuid();
        let mut code = crate::ids::uuid_simple(crate::ids::new_uuid());
        let second = crate::ids::uuid_simple(crate::ids::new_uuid());
        append_str(&mut code, second.as_str());
        self.issue_pairing_token_with(
            issuer_device_id,
            logbook_id,
            issuer_display_name,
            approved_by_operator,
            now,
            token_id,
            code,
        )
    }

    /// Accepts a pairing request, as `accept_spec` states.
    pub fn accept_pairing_token(&mut self, request: LanPairingAcceptance, now: i64) -> (r: Result<
        TrustedPeerDevice,
        LanTrustError,
    >)
        ensures
            (final(self)@, result_view(r)) == accept_spec(old(self)@, request, now),
    {
        let ghost s = self@;
        let mut i: usize = 0;
        while i < self.pairing_tokens.len() && self.pairing_tokens[i].token_id != request.token_id
            invariant
                i <= self.pairing_tokens@.len(),
                s == self@,
                forall|k: int| 0 <= k < i ==> s.tokens[k].token_id != request.token_id,
            decreases self.pairing_tokens@.len() - i,
        {
            i = i + 1;
        }
        proof {
            lemma_token_position(s.tokens, request.token_id, i as int);
        }
        if i >= self.pairing_tokens.len() {
            return Err(LanTrustError::PairingTokenNotFound);
        }
        if self.pairing_tokens[i].consumed_at.is_some() {
            return Err(LanTrustError::PairingTokenConsumed);
        }
        if self.pairing_tokens[i].expires_at < now {
            return Err(LanTrustError::PairingTokenExpired);
        }
        let expected = pairing_token_hash(request.token_id, request.pairing_code.as_str());
        if !self.pairing_tokens[i].token_hash.eq(&expected) {
            return Err(LanTrustError::PairingTokenMismatch);
        }
        let logbook_id = self.pairing_tokens[i].logbook_id;
        let found = crate::offline::u128_in(&request.requested_logbooks, logbook_id);
        if !found {
            return Err(LanTrustError::WrongLogbook { device_id: request.peer_device_id, logbook_id });
        }
        let ghost t = s.tokens[i as int];
        let consumed = PairingTokenRecord {
            token_id: self.pairing_tokens[i].token_id,
            issuer_device_id: self.pairing_tokens[i].issuer_device_id,
            logbook_id,
            issuer_display_name: self.pairing_tokens[i].issuer_display_name.clone(),
            token_hash: self.pairing_tokens[i].token_hash.clone(),
            created_at: self.pairing_tokens[i].created_at,
            expires_at: self.pairing_tokens[i].expires_at,
            consumed_at: Some(now),
            approved_by_operator: self.pairing_tokens[i].approved_by_operator,
        };
        self.pairing_tokens.set(i, consumed);
        assert(self@.tokens =~= s.tokens.update(i as int, TokenView { consumed_at: Some(now), ..t }));
        let mut logbook_ids: Vec<u128> = Vec::new();
        logbook_ids.push(logbook_id);
        let device = TrustedPeerDevice {
            device_id: request.peer_device_id,
            display_name: request.peer_display_name,
            logbook_ids,
            trusted_at: now,
            revoked_at: None,
            pairing_token_id: Some(request.token_id),
            public_key_fingerprint: request.public_key_fingerprint,
            last_seen_at: None,
        };
        assert(device@ == accepted_device(request, logbook_id, now));
        let ghost mid = self@;
        let mut j: usize = 0;
        while j < self.trusted_devices.len() && self.trusted_devices[j].device_id != device.device_id
            invariant
                j <= self.trusted_devices@.len(),
                mid == self@,
                forall|m: int| 0 <= m < j ==> mid.devices[m].device_id != device.device_id,
            decreases self.trusted_devices@.len() - j,
        {
            j = j + 1;
        }
        proof {
            lemma_device_position(mid.devices, device.device_id, j as int);
        }
        let result = device.copy();
        let ghost dv = device@;
        if j < self.trusted_devices.len() {
            self.trusted_devices.set(j, device);
            assert(self@.devices =~= mid.devices.update(j as int, dv));
        } else {
            self.trusted_devices.push(device);
            assert(self@.devices =~= mid.devices.push(dv));
        }
        Ok(result)
    }

    /// Authorizes a peer for a logbook with a replay nonce, as
    /// `authorize_spec` states.
    pub fn authorize_peer(&mut self, device_id: u128, logbook_id: u128, replay_nonce: &str, now: i64) -> (r:
        Result<TrustedPeerDevice, LanTrustError>)
        requires
            now <= i64::MAX - REPLAY_NONCE_TTL_MS,
        ensures
            (final(self)@, result_view(r)) == authorize_spec(old(self)@, device_id, logbook_id, replay_nonce@, now),
    {
        let ghost s = self@;
        let h = replay_nonce_hash(device_id, replay_nonce);
        let mut kept: Vec<ReplayNonceRecord> = Vec::new();
        let mut seen = false;
        let mut i: usize = 0;
        while i < self.replay_nonces.len()
            invariant
                i <= self.replay_nonces@.len(),
                s == self@,
                nonce_views(kept@) == unexpired_nonces(s.nonces.subrange(0, i as int), now),
                seen == nonce_seen(nonce_views(kept@), device_id, h@),
            decreases self.replay_nonces@.len() - i,
        {
            proof {
                assert(s.nonces.subrange(0, i + 1).drop_last() =~= s.nonces.subrange(0, i as int));
                assert(s.nonces.subrange(0, i + 1).last() == self.replay_nonces@[i as int]@);
            }
            let n = &self.replay_nonces[i];
            if n.expires_at >= now {
                let ghost before = nonce_views(kept@);
                let copy = ReplayNonceRecord {
                    device_id: n.device_id,
                    nonce_hash: n.nonce_hash.clone(),
                    seen_at: n.seen_at,
                    expires_at: n.expires_at,
                };
                let hit = n.device_id == device_id && n.nonce_hash.eq(&h);
                kept.push(copy);
                proof {
                    assert(nonce_views(kept@) =~= before.push(n@));
                    let after = nonce_views(kept@);
                    if hit {
                        assert(after[before.len() as int] == n@);
                    }
                    if nonce_seen(after, device_id, h@) && !hit {
                        let k = choose|k: int| 0 <= k < after.len() && after[k].device_id == device_id
                            && after[k].nonce_hash == h@;
                        assert(k < before.len());
                        assert(before[k] == after[k]);
                    }
                    if seen {
                        let k = choose|k: int| 0 <= k < before.len() && before[k].device_id == device_id
                            && before[k].nonce_hash == h@;
                        assert(after[k] == before[k]);
                    }
                }
                seen = seen || hit;
            }
            proof {
                let sub = s.nonces.subrange(0, i + 1);
                reveal(Seq::filter);
                assert(unexpired_nonces(sub, now) == if sub.last().expires_at >= now {
                    unexpired_nonces(sub.drop_last(), now).push(sub.last())
                } else {
                    unexpired_nonces(sub.drop_last(), now)
                });
            }
            i = i + 1;
        }
        assert(s.nonces.subrange(0, s.nonces.len() as int) =~= s.nonces);
        if seen {
            return Err(LanTrustError::ReplayDetected(device_id));
        }
        let mut j: usize = 0;
        while j < self.trusted_devices.len() && self.trusted_devices[j].device_id != device_id
            invariant
                j <= self.trusted_devices@.len(),
                s == self@,
                forall|m: int| 0 <= m < j ==> s.devices[m].device_id != device_id,
            decreases self.trusted_devices@.len() - j,
        {
            j = j + 1;
        }
        proof {
            lemma_device_position(s.devices, device_id, j as int);
        }
        if j >= self.trusted_devices.len() {
            return Err(LanTrustError::DeviceNotFound(device_id));
        }
        if self.trusted_devices[j].revoked_at.is_some() {
            return Err(LanTrustError::DeviceRevoked(device_id));
        }
        let covered = crate::offline::u128_in(&self.trusted_devices[j].logbook_ids, logbook_id);
        if !covered {
            return Err(LanTrustError::WrongLogbook { device_id, logbook_id });
        }
        let mut updated = self.trusted_devices[j].copy();
        updated.last_seen_at = Some(now);
        let result = updated.copy();
        let ghost dv = updated@;
        self.trusted_devices.set(j, updated);
        let ghost kept_before = nonce_views(kept@);
        let record = ReplayNonceRecord {
            device_id,
            nonce_hash: h,
            seen_at: now,
            expires_at: now + REPLAY_NONCE_TTL_MS,
        };
        let ghost rv = record@;
        kept.push(record);
        assert(nonce_views(kept@) =~= kept_before.push(rv));
        self.replay_nonces = kept;
        proof {
            assert(self@.devices =~= s.devices.update(j as int, dv));
            assert(self@.nonces == unexpired_nonces(s.nonces, now).push(rv));
            assert(self@.version == s.version && self@.tokens == s.tokens);
        }
        Ok(result)
    }

    /// Revokes a trusted device, as `revoke_spec` states.
    pub fn revoke_device(&mut self, device_id: u128, now: i64) -> (r: Result<TrustedPeerDevice, LanTrustError>)
        ensures
            (final(self)@, result_view(r)) == revoke_spec(old(self)@, device_id, now),
    {
        let ghost s = self@;
        let mut j: usize = 0;
        while j < self.trusted_devices.len() && self.trusted_devices[j].device_id != device_id
            invariant
                j <= self.trusted_devices@.len(),
                s == self@,
                forall|m: int| 0 <= m < j ==> s.devices[m].device_id != device_id,
            decreases self.trusted_devices@.len() - j,
        {
            j = j + 1;
        }
        proof {
            lemma_device_position(s.devices, device_id, j as int);
        }
        if j >= self.trusted_devices.len() {
            return Err(LanTrustError::DeviceNotFound(device_id));
        }
        let mut updated = self.trusted_devices[j].copy();
        updated.revoked_at = Some(now);
        let result = updated.copy();
        let ghost dv = updated@;
        self.trusted_devices.set(j, updated);
        assert(self@.devices =~= s.devices.update(j as int, dv));
        Ok(result)
    }
}

proof fn lemma_token_position_bounds(ts: Seq<TokenView>, token_id: u128)
    ensures
        0 <= token_position(ts, token_id) <= ts.len(),
        forall|k: int| 0 <= k < token_position(ts, token_id) ==> ts[k].token_id != token_id,
        token_position(ts, token_id) < ts.len() ==> ts[token_position(ts, token_id)].token_id == token_id,
    decreases ts.len(),
{
    if ts.len() > 0 && ts[0].token_id != token_id {
        lemma_token_position_bounds(ts.drop_first(), token_id);
        assert forall|k: int| 0 <= k < token_position(ts, token_id) implies ts[k].token_id != token_id by {
            if k > 0 {
                assert(ts[k] == ts.drop_first()[k - 1]);
            }
        }
    }
}

proof fn lemma_device_position_bounds(ds: Seq<TrustedDeviceView>, device_id: u128)
    ensures
        0 <= device_position(ds, device_id) <= ds.len(),
        forall|k: int| 0 <= k < device_position(ds, device_id) ==> ds[k].device_id != device_id,
        device_position(ds, device_id) < ds.len() ==> ds[device_position(ds, device_id)].device_id
            == device_id,
    decreases ds.len(),
{
    if ds.len() > 0 && ds[0].device_id != device_id {
        lemma_device_position_bounds(ds.drop_first(), device_id);
        assert forall|k: int| 0 <= k < device_position(ds, device_id) implies ds[k].device_id
            != device_id by {
            if k > 0 {
                assert(ds[k] == ds.drop_first()[k - 1]);
            }
        }
    }
}

/// A pairing token admits one device only: once a request with it was
/// accepted, every later request with the same token is refused as consumed.
pub proof fn law_pairing_token_single_use(
    s: TrustView,
    req: LanPairingAcceptance,
    now: i64,
    again: LanPairingAcceptance,
    later: i64,
)
    requires
        accept_spec(s, req, now).1 is Ok,
        again.token_id == req.token_id,
    ensures
        accept_spec(accept_spec(s, req, now).0, again, later).1 == Err::<TrustedDeviceView, LanTrustError>(
            LanTrustError::PairingTokenConsumed,
        ),
{
    let i = token_position(s.tokens, req.token_id);
    lemma_token_position_bounds(s.tokens, req.token_id);
    let t2 = accept_spec(s, req, now).0.tokens;
    assert(t2 == s.tokens.update(i, TokenView { consumed_at: Some(now), ..s.tokens[i] }));
    lemma_token_position(t2, req.token_id, i);
}

/// An accepted pairing trusts the peer at once, even one revoked before:
/// the record stored under the peer's id is the one returned, not revoked
/// and trusted for the token's logbook, and the peer is then authorized for
/// that logbook with any nonce it has not used.
pub proof fn law_accepted_pairing_is_stored(
    s: TrustView,
    req: LanPairingAcceptance,
    now: i64,
    nonce: Seq<char>,
    later: i64,
)
    requires
        accept_spec(s, req, now).1 is Ok,
    ensures
        ({
            let s2 = accept_spec(s, req, now).0;
            let j = device_position(s2.devices, req.peer_device_id);
            let logbook_id = s.tokens[token_position(s.tokens, req.token_id)].logbook_id;
            &&& j < s2.devices.len()
            &&& accept_spec(s, req, now).1 == Ok::<TrustedDeviceView, LanTrustError>(s2.devices[j])
            &&& s2.devices[j].device_id == req.peer_device_id
            &&& s2.devices[j].revoked_at is None
            &&& s2.devices[j].logbook_ids.contains(logbook_id)
            &&& !nonce_seen(unexpired_nonces(s2.nonces, later), req.peer_device_id, nonce_hash(req.peer_device_id, nonce))
                ==> authorize_spec(s2, req.peer_device_id, logbook_id, nonce, later).1 is Ok
        }),
{
    let i = token_position(s.tokens, req.token_id);
    lemma_token_position_bounds(s.tokens, req.token_id);
    let t = s.tokens[i];
    let d = accepted_device(req, t.logbook_id, now);
    let ds = s.devices;
    lemma_device_position_bounds(ds, req.peer_device_id);
    let j = device_position(ds, req.peer_device_id);
    let s2 = accept_spec(s, req, now).0;
    if j < ds.len() {
        assert(s2.devices == ds.update(j, d));
        lemma_device_position(s2.devices, req.peer_device_id, j);
    } else {
        assert(s2.devices == ds.push(d));
        lemma_device_position(s2.devices, req.peer_device_id, ds.len() as int);
    }
    assert(d.logbook_ids[0] == t.logbook_id);
}

/// A replay nonce is single use while it is remembered: once a device was
/// authorized with it, the same nonce from that device is refused as a
/// replay until it expires, whatever logbook it is for.
pub proof fn law_replay_nonce_rejected(
    s: TrustView,
    device_id: u128,
    logbook_id: u128,
    nonce: Seq<char>,
    now: i64,
    other_logbook: u128,
    later: i64,
)
    requires
        now <= i64::MAX - REPLAY_NONCE_TTL_MS,
        authorize_spec(s, device_id, logbook_id, nonce, now).1 is Ok,
        later <= now + REPLAY_NONCE_TTL_MS,
    ensures
        authorize_spec(authorize_spec(s, device_id, logbook_id, nonce, now).0, device_id, other_logbook, nonce, later).1
            == Err::<TrustedDeviceView, LanTrustError>(LanTrustError::ReplayDetected(device_id)),
{
    let s2 = authorize_spec(s, device_id, logbook_id, nonce, now).0;
    let ns = s2.nonces;
    let last = ns.len() - 1;
    assert(ns[last].expires_at == now + REPLAY_NONCE_TTL_MS);
    let p = |n: NonceView| n.expires_at >= later;
    assert(p(ns[last]));
    ns.lemma_filter_contains(p, last);
    let kept = unexpired_nonces(ns, later);
    assert(kept == ns.filter(p));
    assert(kept.contains(ns[last]));
    let k = choose|k: int| 0 <= k < kept.len() && kept[k] == ns[last];
    assert(kept[k].device_id == device_id && kept[k].nonce_hash == nonce_hash(device_id, nonce));
}

/// Revocation takes effect at once: after a device is revoked, no
/// authorization of it succeeds. A nonce it has not used is refused as
/// revoked; a replayed nonce is refused as a replay, which is checked first.
pub proof fn law_revoked_device_refused(
    s: TrustView,
    device_id: u128,
    now: i64,
    logbook_id: u128,
    nonce: Seq<char>,
    later: i64,
)
    requires
        revoke_spec(s, device_id, now).1 is Ok,
    ensures
        ({
            let r = authorize_spec(revoke_spec(s, device_id, now).0, device_id, logbook_id, nonce, later).1;
            r == Err::<TrustedDeviceView, LanTrustError>(LanTrustError::DeviceRevoked(device_id)) || r
                == Err::<TrustedDeviceView, LanTrustError>(LanTrustError::ReplayDetected(device_id))
        }),
        !nonce_seen(unexpired_nonces(s.nonces, later), device_id, nonce_hash(device_id, nonce)) ==> authorize_spec(
            revoke_spec(s, device_id, now).0,
            device_id,
            logbook_id,
            nonce,
            later,
        ).1 == Err::<TrustedDeviceView, LanTrustError>(LanTrustError::DeviceRevoked(device_id)),
{
    let j = device_position(s.devices, device_id);
    lemma_device_position_bounds(s.devices, device_id);
    let d2 = revoke_spec(s, device_id, now).0.devices;
    lemma_device_position(d2, device_id, j);
}

/// What the operator may see of a pairing token: everything but its hash.
#[derive(Debug)]
pub struct PairingTokenSummary {
    pub token_id: u128,
    pub issuer_device_id: u128,
    pub logbook_id: u128,
    pub issuer_display_name: String,
    pub created_at: i64,
    pub expires_at: i64,
    pub consumed_at: Option<i64>,
    pub approved_by_operator: bool,
}

/// A view of the LAN trust record that carries no secret.
#[derive(Debug)]
pub struct LanTrustSnapshot {
    pub version: u32,
    pub pairing_tokens: Vec<PairingTokenSummary>,
    pub trusted_devices: Vec<TrustedPeerDevice>,
}

/// The summary states every field of the token but its hash.
pub open spec fn summarizes(s: PairingTokenSummary, t: TokenView) -> bool {
    &&& s.token_id == t.token_id
    &&& s.issuer_device_id == t.issuer_device_id
    &&& s.logbook_id == t.logbook_id
    &&& s.issuer_display_name@ == t.issuer_display_name
    &&& s.created_at == t.created_at
    &&& s.expires_at == t.expires_at
    &&& s.consumed_at == t.consumed_at
    &&& s.approved_by_operator == t.approved_by_operator
}

impl PairingTokenSummary {
    /// The summary of a stored pairing token.
    pub fn of_record(record: &PairingTokenRecord) -> (r: Self)
        ensures
            summarizes(r, record@),
    {
        PairingTokenSummary {
            token_id: record.token_id,
            issuer_device_id: record.issuer_device_id,
            logbook_id: record.logbook_id,
            issuer_display_name: record.issuer_display_name.clone(),
            created_at: record.created_at,
            expires_at: record.expires_at,
            consumed_at: record.consumed_at,
            approved_by_operator: record.approved_by_operator,
        }
    }
}

impl LanTrustFile {
    /// The record as the operator sees it: its version, a summary of every
    /// pairing token in order, and the trusted devices.
    pub fn snapshot(&self) -> (r: LanTrustSnapshot)
        ensures
            r.version == self.version,
            r.pairing_tokens@.len() == self.pairing_tokens@.len(),
            forall|i: int|
                0 <= i < r.pairing_tokens@.len() ==> summarizes(
                    #[trigger] r.pairing_tokens@[i],
                    self.pairing_tokens@[i]@,
                ),
            device_views(r.trusted_devices@) == device_views(self.trusted_devices@),
    {
        let mut tokens: Vec<PairingTokenSummary> = Vec::new();
        let mut i: usize = 0;
        while i < self.pairing_tokens.len()
            invariant
                i <= self.pairing_tokens@.len(),
                tokens@.len() == i,
                forall|k: int| 0 <= k < i ==> summarizes(#[trigger] tokens@[k], self.pairing_tokens@[k]@),
            decreases self.pairing_tokens@.len() - i,
        {
            tokens.push(PairingTokenSummary::of_record(&self.pairing_tokens[i]));
            i = i + 1;
        }
        let mut devices: Vec<TrustedPeerDevice> = Vec::new();
        let mut j: usize = 0;
        while j < self.trusted_devices.len()
            invariant
                j <= self.trusted_devices@.len(),
                device_views(devices@) == device_views(self.trusted_devices@).subrange(0, j as int),
            decreases self.trusted_devices@.len() - j,
        {
            let ghost before = devices@;
            devices.push(self.trusted_devices[j].copy());
            assert(device_views(devices@) =~= device_views(before).push(self.trusted_devices@[j as int]@));
            j = j + 1;
            assert(device_views(devices@) =~= device_views(self.trusted_devices@).subrange(0, j as int));
        }
        assert(device_views(self.trusted_devices@).subrange(0, self.trusted_devices@.len() as int)
            =~= device_views(self.trusted_devices@));
        LanTrustSnapshot { version: self.version, pairing_tokens: tokens, trusted_devices: devices }
    }
}

} // verus!
