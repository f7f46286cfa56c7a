//! Hosted account client contract: the validation of every value a client
//! sends to the hosted account routes, the stable classification of hosted
//! replies, and the durable non-secret account configuration.
use vstd::prelude::*;
use crate::text::{
    any_control, any_ws_or_control, char_pred, chars_of, count_char, count_of_char, has_char,
    first_index_of, index_of_char, is_control, is_prefix, is_white_space, lemma_first_index_bounds,
    lemma_count_zero_iff_absent, lower_ascii_seq, lower_ascii_str, starts_with_str, str_eq,
    str_to_string, string_of_range, strip_end, strip_end_char, trim_bounds, trim_seq, utf8_len,
    utf8_len_exceeds,
};

verus! {

/// Support-file schema version for the durable hosted account record.
pub const HOSTED_ACCOUNT_FILE_VERSION: u32 = 1;
/// Credential provider identifier used for hosted account secrets.
pub const HOSTED_ACCOUNT_CREDENTIAL_PROVIDER_ID: &'static str = "hosted-account";
/// Credential label for the hosted session bearer token.
pub const HOSTED_ACCOUNT_SESSION_CREDENTIAL_LABEL: &'static str = "Hosted session token";
/// Credential label for the hosted refresh token.
pub const HOSTED_ACCOUNT_REFRESH_CREDENTIAL_LABEL: &'static str = "Hosted refresh token";
/// Default hosted API base URL, the development bind of the hosted server.
pub const DEFAULT_HOSTED_ACCOUNT_BASE_URL: &'static str = "http://127.0.0.1:9750";
/// Default device label sent to the hosted server when a session is created.
pub const DEFAULT_HOSTED_ACCOUNT_DEVICE_NAME: &'static str = "KE8YGW Logger Device";
/// Default per-request timeout for hosted account calls.
pub const DEFAULT_HOSTED_ACCOUNT_TIMEOUT_SECONDS: u64 = 20;
/// Maximum accepted hosted account response size.
pub const MAX_HOSTED_ACCOUNT_RESPONSE_BYTES: usize = 524288;

pub const MAX_BASE_URL_BYTES: usize = 2048;
pub const MAX_EMAIL_BYTES: usize = 320;
pub const MAX_DISPLAY_NAME_BYTES: usize = 200;
pub const MAX_DEVICE_NAME_BYTES: usize = 128;
pub const MAX_TOKEN_BYTES: usize = 1024;

/// Stable action names shared by every client surface.
pub const ACCOUNT_ACTION_REGISTER: &'static str = "account.register";
pub const ACCOUNT_ACTION_VERIFY_EMAIL: &'static str = "account.verify_email";
pub const ACCOUNT_ACTION_RECOVERY_START: &'static str = "account.recovery.start";
pub const ACCOUNT_ACTION_RECOVERY_COMPLETE: &'static str = "account.recovery.complete";
pub const ACCOUNT_ACTION_LOGIN: &'static str = "account.login";
pub const ACCOUNT_ACTION_SESSION: &'static str = "account.session";
pub const ACCOUNT_ACTION_SESSION_ROTATE: &'static str = "account.session.rotate";
pub const ACCOUNT_ACTION_LOGOUT: &'static str = "account.logout";
pub const ACCOUNT_ACTION_LOGOUT_ALL: &'static str = "account.logout_all";
pub const ACCOUNT_ACTION_DELETE: &'static str = "account.delete";
pub const ACCOUNT_ACTION_DEVICE_LIST: &'static str = "account.devices.list";
pub const ACCOUNT_ACTION_DEVICE_REGISTER: &'static str = "account.devices.register";
pub const ACCOUNT_ACTION_DEVICE_REVOKE: &'static str = "account.devices.revoke";
pub const ACCOUNT_ACTION_DEVICE_REVOKE_ALL: &'static str = "account.devices.revoke_all";

/// Why a hosted account value or call was refused before reaching the server.
#[derive(Debug, Clone, PartialEq, Eq)]
pub enum HostedAccountError {
    UnsupportedFileVersion(u32),
    InvalidBaseUrl(String),
    InvalidEmail,
    MissingField(&'static str),
    FieldTooLong { field: &'static str, max: usize },
    SessionRequired,
    RefreshTokenRequired,
    SecretStorage(String),
}

// ---------------------------------------------------------------------------
// Normalization of the values a client sends.
// ---------------------------------------------------------------------------

pub open spec fn http_scheme() -> Seq<char> {
    seq!['h', 't', 't', 'p', ':', '/', '/']
}

pub open spec fn https_scheme() -> Seq<char> {
    seq!['h', 't', 't', 'p', 's', ':', '/', '/']
}

/// The base URL once surrounding whitespace and trailing slashes are dropped.
pub open spec fn base_url_candidate(s: Seq<char>) -> Seq<char> {
    strip_end(trim_seq(s), char_pred('/'))
}

/// What follows the `//` of the scheme.
pub open spec fn url_authority(t: Seq<char>) -> Seq<char> {
    if is_prefix(http_scheme(), t) {
        t.skip(7)
    } else {
        t.skip(8)
    }
}

pub open spec fn has_ws_or_control(t: Seq<char>) -> bool {
    exists|i: int| 0 <= i < t.len() && (is_white_space(t[i]) || is_control(t[i]))
}

pub open spec fn has_control(t: Seq<char>) -> bool {
    exists|i: int| 0 <= i < t.len() && is_control(t[i])
}

/// The first rule a base URL candidate breaks, as the message reported.
pub open spec fn base_url_problem(t: Seq<char>) -> Option<Seq<char>> {
    if t.len() == 0 {
        Some("base URL is required"@)
    } else if utf8_len(t) > 2048 {
        Some("base URL is too long"@)
    } else if !is_prefix(http_scheme(), t) && !is_prefix(https_scheme(), t) {
        Some("base URL must start with http:// or https://"@)
    } else if has_ws_or_control(t) {
        Some("base URL must not contain whitespace or control characters"@)
    } else if url_authority(t).len() == 0 || url_authority(t)[0] == '/' {
        Some("base URL must include a host"@)
    } else {
        None
    }
}

fn invalid_base_url(message: &str) -> (r: HostedAccountError)
    ensures
        r matches HostedAccountError::InvalidBaseUrl(m) && m@ == message@,
{
    HostedAccountError::InvalidBaseUrl(str_to_string(message))
}

/// Normalizes and bounds a hosted API base URL: trims it, drops trailing
/// slashes, and accepts only an `http://` or `https://` URL with a host and
/// no whitespace or control characters, at most 2048 bytes long.
pub fn normalize_base_url(base_url: &str) -> (r: Result<String, HostedAccountError>)
    ensures
        match base_url_problem(base_url_candidate(base_url@)) {
            None => r matches Ok(u) && u@ == base_url_candidate(base_url@),
            Some(m) => r matches Err(HostedAccountError::InvalidBaseUrl(e)) && e@ == m,
        },
{
    let v = chars_of(base_url);
    let (a, b0) = trim_bounds(v.as_slice());
    let b = strip_end_char(v.as_slice(), a, b0, '/');
    let t = string_of_range(v.as_slice(), a, b);
    let ghost tv = base_url_candidate(base_url@);
    assert(t@ == tv);
    if a == b {
        return Err(invalid_base_url("base URL is required"));
    }
    let w = chars_of(t.as_str());
    if utf8_len_exceeds(w.as_slice(), MAX_BASE_URL_BYTES) {
        return Err(invalid_base_url("base URL is too long"));
    }
    let http = starts_with_str(t.as_str(), "http://");
    let https = starts_with_str(t.as_str(), "https://");
    proof {
        reveal_strlit("http://");
        reveal_strlit("https://");
        assert("http://"@ =~= http_scheme());
        assert("https://"@ =~= https_scheme());
    }
    if !http && !https {
        return Err(invalid_base_url("base URL must start with http:// or https://"));
    }
    if any_ws_or_control(w.as_slice()) {
        return Err(invalid_base_url("base URL must not contain whitespace or control characters"));
    }
    let off: usize = if http {
        7
    } else {
        8
    };
    proof {
        if http {
            assert(url_authority(tv) == tv.skip(7));
        } else {
            assert(url_authority(tv) == tv.skip(8));
        }
    }
    if w.len() <= off || w[off] == '/' {
        proof {
            if w.len() > off {
                assert(url_authority(tv)[0] == tv[off as int]);
            }
        }
        return Err(invalid_base_url("base URL must include a host"));
    }
    assert(url_authority(tv)[0] == tv[off as int]);
    Ok(t)
}

/// The email once trimmed and lowercased.
pub open spec fn email_candidate(s: Seq<char>) -> Seq<char> {
    lower_ascii_seq(trim_seq(s))
}

/// Exactly one `@`, with a non-empty local part before it and a domain after
/// it that holds a dot; at most 320 bytes, no whitespace or control
/// characters.
pub open spec fn email_valid(t: Seq<char>) -> bool {
    let at = first_index_of(t, '@');
    &&& t.len() > 0
    &&& utf8_len(t) <= 320
    &&& !has_ws_or_control(t)
    &&& count_char(t, '@') == 1
    &&& at > 0
    &&& at + 1 < t.len()
    &&& has_char(t.skip(at + 1), '.')
}

/// Normalizes and bounds an account email address: trimmed and lowercased
/// (ASCII), then checked by `email_valid`.
pub fn normalize_email(email: &str) -> (r: Result<String, HostedAccountError>)
    ensures
        email_valid(email_candidate(email@)) ==> (r matches Ok(e) && e@ == email_candidate(email@)),
        !email_valid(email_candidate(email@)) ==> (r matches Err(HostedAccountError::InvalidEmail)),
{
    let trimmed = crate::text::trim_str(email);
    let t = lower_ascii_str(trimmed.as_str());
    let ghost tv = email_candidate(email@);
    assert(t@ == tv);
    let w = chars_of(t.as_str());
    if w.len() == 0 || utf8_len_exceeds(w.as_slice(), MAX_EMAIL_BYTES) {
        return Err(HostedAccountError::InvalidEmail);
    }
    if any_ws_or_control(w.as_slice()) {
        return Err(HostedAccountError::InvalidEmail);
    }
    let ats = count_of_char(w.as_slice(), '@');
    let at = index_of_char(w.as_slice(), '@');
    proof {
        lemma_count_zero_iff_absent(tv, '@');
        lemma_first_index_bounds(tv, '@');
        if ats > 0 {
            assert(has_char(tv, '@'));
            let k = choose|k: int| 0 <= k < tv.len() && tv[k] == '@';
            assert(at <= k);
        }
    }
    if ats != 1 || at == 0 || at + 1 >= w.len() {
        return Err(HostedAccountError::InvalidEmail);
    }
    let start: usize = at + 1;
    let i = crate::text::index_of_char_from(w.as_slice(), '.', start);
    let dot = i < w.len();
    proof {
        let d = tv.skip(at + 1);
        assert(d =~= w@.subrange(start as int, w@.len() as int));
        lemma_first_index_bounds(d, '.');
        if dot {
            assert(d[i - start] == '.');
        } else {
            assert forall|k: int| 0 <= k < d.len() implies d[k] != '.' by {}
        }
    }
    if !dot {
        return Err(HostedAccountError::InvalidEmail);
    }
    Ok(t)
}

proof fn lemma_strip_end_last(s: Seq<char>, p: spec_fn(char) -> bool)
    ensures
        strip_end(s, p).len() > 0 ==> !p(strip_end(s, p).last()),
    decreases s.len(),
{
    if s.len() > 0 && p(s.last()) {
        lemma_strip_end_last(s.drop_last(), p);
    }
}

proof fn lemma_trim_clean(t: Seq<char>)
    requires
        !has_ws_or_control(t),
    ensures
        trim_seq(t) == t,
{
    if t.len() > 0 {
        assert(!is_white_space(t[0]));
        assert(!is_white_space(t[t.len() - 1]));
        assert(crate::text::strip_start(t, crate::text::ws_pred()) == t);
        assert(strip_end(t, crate::text::ws_pred()) == t);
    } else {
        assert(crate::text::strip_start(t, crate::text::ws_pred()) == t);
        assert(strip_end(t, crate::text::ws_pred()) == t);
    }
}

/// A base URL that normalization accepted normalizes to itself: normalizing
/// twice gives what normalizing once gave.
pub proof fn law_normalized_base_url_is_stable(s: Seq<char>)
    requires
        base_url_problem(base_url_candidate(s)) is None,
    ensures
        base_url_candidate(base_url_candidate(s)) == base_url_candidate(s),
        base_url_problem(base_url_candidate(base_url_candidate(s))) is None,
{
    let t = base_url_candidate(s);
    lemma_trim_clean(t);
    lemma_strip_end_last(trim_seq(s), char_pred('/'));
    assert(t.len() > 0);
    assert(!char_pred('/')(t.last()));
    assert(strip_end(t, char_pred('/')) == t);
}

/// An email that normalization accepted normalizes to itself.
pub proof fn law_normalized_email_is_stable(s: Seq<char>)
    requires
        email_valid(email_candidate(s)),
    ensures
        email_candidate(email_candidate(s)) == email_candidate(s),
        email_valid(email_candidate(email_candidate(s))),
{
    let t = email_candidate(s);
    lemma_trim_clean(t);
    assert(lower_ascii_seq(t) =~= t) by {
        assert forall|i: int| 0 <= i < t.len() implies crate::text::lower_ascii(t[i]) == t[i] by {
            let c = trim_seq(s)[i];
            assert(t[i] == crate::text::lower_ascii(c));
        }
    }
}

proof fn lemma_strip_start_first(s: Seq<char>, p: spec_fn(char) -> bool)
    ensures
        crate::text::strip_start(s, p).len() > 0 ==> !p(crate::text::strip_start(s, p)[0]),
        crate::text::strip_start(s, p).len() <= s.len(),
    decreases s.len(),
{
    if s.len() > 0 && p(s[0]) {
        lemma_strip_start_first(s.drop_first(), p);
    }
}

proof fn lemma_strip_end_prefix(s: Seq<char>, p: spec_fn(char) -> bool)
    ensures
        strip_end(s, p).len() <= s.len(),
        strip_end(s, p) == s.subrange(0, strip_end(s, p).len() as int),
    decreases s.len(),
{
    if s.len() > 0 && p(s.last()) {
        lemma_strip_end_prefix(s.drop_last(), p);
        assert(s.drop_last().subrange(0, strip_end(s, p).len() as int) =~= s.subrange(
            0,
            strip_end(s, p).len() as int,
        ));
    } else {
        assert(s.subrange(0, s.len() as int) =~= s);
    }
}

proof fn lemma_trim_twice(s: Seq<char>)
    ensures
        trim_seq(trim_seq(s)) == trim_seq(s),
{
    let u = crate::text::strip_start(s, crate::text::ws_pred());
    let t = trim_seq(s);
    lemma_strip_start_first(s, crate::text::ws_pred());
    lemma_strip_end_prefix(u, crate::text::ws_pred());
    lemma_strip_end_last(u, crate::text::ws_pred());
    if t.len() > 0 {
        assert(t[0] == u[0]);
        assert(crate::text::strip_start(t, crate::text::ws_pred()) == t);
        assert(strip_end(t, crate::text::ws_pred()) == t);
    } else {
        assert(crate::text::strip_start(t, crate::text::ws_pred()) == t);
        assert(strip_end(t, crate::text::ws_pred()) == t);
    }
}

proof fn lemma_utf8_len_bound(s: Seq<char>)
    ensures
        utf8_len(s) <= 4 * s.len(),
    decreases s.len(),
{
    if s.len() > 0 {
        lemma_utf8_len_bound(s.drop_last());
    }
}

/// A device label that normalization accepted normalizes to itself; the
/// default label is accepted as it stands.
pub proof fn law_normalized_device_name_is_stable(s: Seq<char>)
    requires
        device_name_result(s) is Some,
    ensures
        device_name_result(device_name_result(s).unwrap()) == device_name_result(s),
{
    let t = trim_seq(s);
    if t.len() == 0 {
        let d = DEFAULT_HOSTED_ACCOUNT_DEVICE_NAME@;
        reveal_strlit("KE8YGW Logger Device");
        assert(d.len() == 20);
        assert(!is_white_space(d[0]));
        assert(!is_white_space(d[19]));
        assert(crate::text::strip_start(d, crate::text::ws_pred()) == d);
        assert(strip_end(d, crate::text::ws_pred()) == d);
        lemma_utf8_len_bound(d);
        assert forall|i: int| 0 <= i < d.len() implies !is_control(#[trigger] d[i]) by {
            assert(i == 0 || i == 1 || i == 2 || i == 3 || i == 4 || i == 5 || i == 6 || i == 7
                || i == 8 || i == 9 || i == 10 || i == 11 || i == 12 || i == 13 || i == 14 || i
                == 15 || i == 16 || i == 17 || i == 18 || i == 19);
        }
        assert(!has_control(d));
    } else {
        lemma_trim_twice(s);
    }
}

/// Normalizes and bounds the device label reported to the hosted server:
/// trimmed; a blank label becomes the default device name; a label longer
/// than 128 bytes or holding a control character is refused.
pub fn normalize_device_name(device_name: &str) -> (r: Result<String, HostedAccountError>)
    ensures
        trim_seq(device_name@).len() == 0 ==> (r matches Ok(n) && n@
            == DEFAULT_HOSTED_ACCOUNT_DEVICE_NAME@),
        trim_seq(device_name@).len() > 0 && (utf8_len(trim_seq(device_name@)) > 128 || has_control(
            trim_seq(device_name@),
        )) ==> (r matches Err(HostedAccountError::FieldTooLong { field, max }) && field@
            == "device_name"@ && max == 128),
        trim_seq(device_name@).len() > 0 && utf8_len(trim_seq(device_name@)) <= 128 && !has_control(
            trim_seq(device_name@),
        ) ==> (r matches Ok(n) && n@ == trim_seq(device_name@)),
{
    let v = chars_of(device_name);
    let (a, b) = trim_bounds(v.as_slice());
    if a == b {
        return Ok(str_to_string(DEFAULT_HOSTED_ACCOUNT_DEVICE_NAME));
    }
    let t = string_of_range(v.as_slice(), a, b);
    let w = chars_of(t.as_str());
    if utf8_len_exceeds(w.as_slice(), MAX_DEVICE_NAME_BYTES) || any_control(w.as_slice()) {
        return Err(HostedAccountError::FieldTooLong { field: "device_name", max: MAX_DEVICE_NAME_BYTES });
    }
    Ok(t)
}

/// A required token field: trimmed, non-empty and at most 1024 bytes.
pub fn require_token(value: &str, field: &'static str) -> (r: Result<String, HostedAccountError>)
    ensures
        trim_seq(value@).len() == 0 ==> (r matches Err(HostedAccountError::MissingField(f)) && f@
            == field@),
        trim_seq(value@).len() > 0 && utf8_len(trim_seq(value@)) > 1024 ==> (r matches Err(
            HostedAccountError::FieldTooLong { field: f, max },
        ) && f@ == field@ && max == 1024),
        trim_seq(value@).len() > 0 && utf8_len(trim_seq(value@)) <= 1024 ==> (r matches Ok(t) && t@
            == trim_seq(value@)),
{
    let v = chars_of(value);
    let (a, b) = trim_bounds(v.as_slice());
    if a == b {
        return Err(HostedAccountError::MissingField(field));
    }
    let t = string_of_range(v.as_slice(), a, b);
    let w = chars_of(t.as_str());
    if utf8_len_exceeds(w.as_slice(), MAX_TOKEN_BYTES) {
        return Err(HostedAccountError::FieldTooLong { field, max: MAX_TOKEN_BYTES });
    }
    Ok(t)
}

// ---------------------------------------------------------------------------
// Configuration, connection state and outcomes.
// ---------------------------------------------------------------------------

/// Durable, non-secret hosted account configuration.
#[derive(Debug)]
pub struct HostedAccountConfig {
    pub base_url: String,
    pub device_name: String,
}

impl Default for HostedAccountConfig {
    fn default() -> (r: Self)
        ensures
            r.base_url@ == DEFAULT_HOSTED_ACCOUNT_BASE_URL@,
            r.device_name@ == DEFAULT_HOSTED_ACCOUNT_DEVICE_NAME@,
    {
        HostedAccountConfig {
            base_url: str_to_string(DEFAULT_HOSTED_ACCOUNT_BASE_URL),
            device_name: str_to_string(DEFAULT_HOSTED_ACCOUNT_DEVICE_NAME),
        }
    }
}

/// What `normalize_device_name` yields for a label, `None` when refused.
pub open spec fn device_name_result(s: Seq<char>) -> Option<Seq<char>> {
    let t = trim_seq(s);
    if t.len() == 0 {
        Some(DEFAULT_HOSTED_ACCOUNT_DEVICE_NAME@)
    } else if utf8_len(t) > 128 || has_control(t) {
        None
    } else {
        Some(t)
    }
}

impl HostedAccountConfig {
    /// The configuration with a normalized base URL and device label; the base
    /// URL is checked first.
    pub fn normalized(&self) -> (r: Result<Self, HostedAccountError>)
        ensures
            base_url_problem(base_url_candidate(self.base_url@)) matches Some(m) ==> (r matches Err(
                HostedAccountError::InvalidBaseUrl(e),
            ) && e@ == m),
            base_url_problem(base_url_candidate(self.base_url@)) is None && device_name_result(
                self.device_name@,
            ) is None ==> (r matches Err(HostedAccountError::FieldTooLong { field, max }) && field@
                == "device_name"@ && max == 128),
            base_url_problem(base_url_candidate(self.base_url@)) is None && device_name_result(
                self.device_name@,
            ) is Some ==> (r matches Ok(c) && c.base_url@ == base_url_candidate(self.base_url@)
                && Some(c.device_name@) == device_name_result(self.device_name@)),
    {
        let base_url = match normalize_base_url(self.base_url.as_str()) {
            Ok(u) => u,
            Err(e) => {
                return Err(e);
            },
        };
        let device_name = match normalize_device_name(self.device_name.as_str()) {
            Ok(n) => n,
            Err(e) => {
                return Err(e);
            },
        };
        Ok(HostedAccountConfig { base_url, device_name })
    }
}

#[derive(Debug, Clone, Copy, PartialEq, Eq, Structural)]
pub enum HostedAccountConnectionState {
    SignedOut,
    PendingEmailVerification,
    SignedIn,
    SessionExpired,
    DeviceRevoked,
}

impl HostedAccountConnectionState {
    pub fn is_signed_in(self) -> (r: bool)
        ensures
            r == (self == HostedAccountConnectionState::SignedIn),
    {
        match self {
            HostedAccountConnectionState::SignedIn => true,
            _ => false,
        }
    }
}

/// Classification of a hosted account call result, derived from the stable
/// hosted error `code` first and from the HTTP status only as a fallback.
#[derive(Debug, Clone, Copy, PartialEq, Eq, Structural)]
pub enum HostedAccountOutcome {
    Accepted,
    AuthenticationRequired,
    EmailVerificationRequired,
    RegistrationClosed,
    TokenExpired,
    TokenReplayed,
    HumanVerificationFailed,
    RateLimited,
    ValidationFailed,
    TransientFailure,
    PermanentFailure,
}

pub open spec fn outcome_retryable(o: HostedAccountOutcome) -> bool {
    o == HostedAccountOutcome::RateLimited || o == HostedAccountOutcome::TransientFailure
}

pub open spec fn outcome_needs_user(o: HostedAccountOutcome) -> bool {
    ||| o == HostedAccountOutcome::AuthenticationRequired
    ||| o == HostedAccountOutcome::EmailVerificationRequired
    ||| o == HostedAccountOutcome::RegistrationClosed
    ||| o == HostedAccountOutcome::TokenExpired
    ||| o == HostedAccountOutcome::TokenReplayed
    ||| o == HostedAccountOutcome::HumanVerificationFailed
    ||| o == HostedAccountOutcome::ValidationFailed
}

/// The stable snake-case label of an outcome.
pub open spec fn outcome_label(o: HostedAccountOutcome) -> Seq<char> {
    match o {
        HostedAccountOutcome::Accepted => "accepted"@,
        HostedAccountOutcome::AuthenticationRequired => "authentication_required"@,
        HostedAccountOutcome::EmailVerificationRequired => "email_verification_required"@,
        HostedAccountOutcome::RegistrationClosed => "registration_closed"@,
        HostedAccountOutcome::TokenExpired => "token_expired"@,
        HostedAccountOutcome::TokenReplayed => "token_replayed"@,
        HostedAccountOutcome::HumanVerificationFailed => "human_verification_failed"@,
        HostedAccountOutcome::RateLimited => "rate_limited"@,
        HostedAccountOutcome::ValidationFailed => "validation_failed"@,
        HostedAccountOutcome::TransientFailure => "transient_failure"@,
        HostedAccountOutcome::PermanentFailure => "permanent_failure"@,
    }
}

impl HostedAccountOutcome {
    pub fn is_accepted(self) -> (r: bool)
        ensures
            r == (self == HostedAccountOutcome::Accepted),
    {
        match self {
            HostedAccountOutcome::Accepted => true,
            _ => false,
        }
    }

    /// Whether an unattended retry of the same request is allowed.
    pub fn is_retryable(self) -> (r: bool)
        ensures
            r == outcome_retryable(self),
    {
        match self {
            HostedAccountOutcome::RateLimited | HostedAccountOutcome::TransientFailure => true,
            _ => false,
        }
    }

    /// Whether the operator has to do something before the call can succeed.
    pub fn requires_user_action(self) -> (r: bool)
        ensures
            r == outcome_needs_user(self),
    {
        match self {
            HostedAccountOutcome::AuthenticationRequired
            | HostedAccountOutcome::EmailVerificationRequired
            | HostedAccountOutcome::RegistrationClosed
            | HostedAccountOutcome::TokenExpired
            | HostedAccountOutcome::TokenReplayed
            | HostedAccountOutcome::HumanVerificationFailed
            | HostedAccountOutcome::ValidationFailed => true,
            _ => false,
        }
    }

    pub fn as_str(self) -> (r: &'static str)
        ensures
            r@ == outcome_label(self),
    {
        match self {
            HostedAccountOutcome::Accepted => "accepted",
            HostedAccountOutcome::AuthenticationRequired => "authentication_required",
            HostedAccountOutcome::EmailVerificationRequired => "email_verification_required",
            HostedAccountOutcome::RegistrationClosed => "registration_closed",
            HostedAccountOutcome::TokenExpired => "token_expired",
            HostedAccountOutcome::TokenReplayed => "token_replayed",
            HostedAccountOutcome::HumanVerificationFailed => "human_verification_failed",
            HostedAccountOutcome::RateLimited => "rate_limited",
            HostedAccountOutcome::ValidationFailed => "validation_failed",
            HostedAccountOutcome::TransientFailure => "transient_failure",
            HostedAccountOutcome::PermanentFailure => "permanent_failure",
        }
    }

    /// The label, owned; what `to_string` gives.
    pub fn to_string(self) -> (r: String)
        ensures
            r@ == outcome_label(self),
    {
        str_to_string(self.as_str())
    }
}

/// The outcome a stable hosted error code stands for, if it is one.
pub open spec fn code_outcome(c: Seq<char>) -> Option<HostedAccountOutcome> {
    if c == "missing_token"@ || c == "invalid_token"@ || c == "session_inactive"@ || c
        == "session_expired"@ || c == "device_revoked"@ {
        Some(HostedAccountOutcome::AuthenticationRequired)
    } else if c == "email_unverified"@ {
        Some(HostedAccountOutcome::EmailVerificationRequired)
    } else if c == "registration_closed"@ {
        Some(HostedAccountOutcome::RegistrationClosed)
    } else if c == "token_expired"@ {
        Some(HostedAccountOutcome::TokenExpired)
    } else if c == "token_replayed"@ {
        Some(HostedAccountOutcome::TokenReplayed)
    } else if c == "turnstile_failed"@ {
        Some(HostedAccountOutcome::HumanVerificationFailed)
    } else if c == "rate_limited"@ {
        Some(HostedAccountOutcome::RateLimited)
    } else if c == "bad_request"@ || c == "validation_failed"@ || c == "invalid_json"@ || c
        == "invalid_uuid"@ || c == "missing_field"@ || c == "unsupported_media_type"@ || c
        == "payload_too_large"@ || c == "proposal_rejected"@ {
        Some(HostedAccountOutcome::ValidationFailed)
    } else if c == "store_unavailable"@ || c == "internal_error"@ {
        Some(HostedAccountOutcome::TransientFailure)
    } else if c == "forbidden"@ || c == "not_found"@ {
        Some(HostedAccountOutcome::PermanentFailure)
    } else {
        None
    }
}

/// The outcome an HTTP status stands for when no known code came with it.
pub open spec fn status_outcome(status: u16) -> HostedAccountOutcome {
    if status == 401 {
        HostedAccountOutcome::AuthenticationRequired
    } else if status == 403 || status == 404 {
        HostedAccountOutcome::PermanentFailure
    } else if status == 429 {
        HostedAccountOutcome::RateLimited
    } else if 500 <= status < 600 {
        HostedAccountOutcome::TransientFailure
    } else if 400 <= status < 500 {
        HostedAccountOutcome::ValidationFailed
    } else {
        HostedAccountOutcome::PermanentFailure
    }
}

pub open spec fn classify_spec(code: Option<Seq<char>>, status: u16) -> HostedAccountOutcome {
    match code {
        Some(c) => match code_outcome(c) {
            Some(o) => o,
            None => status_outcome(status),
        },
        None => status_outcome(status),
    }
}

pub open spec fn opt_str_view(o: Option<&str>) -> Option<Seq<char>> {
    match o {
        Some(s) => Some(s@),
        None => None,
    }
}

fn code_outcome_exec(c: &str) -> (r: Option<HostedAccountOutcome>)
    ensures
        r == code_outcome(c@),
{
    if str_eq(c, "missing_token") || str_eq(c, "invalid_token") || str_eq(c, "session_inactive")
        || str_eq(c, "session_expired") || str_eq(c, "device_revoked") {
        Some(HostedAccountOutcome::AuthenticationRequired)
    } else if str_eq(c, "email_unverified") {
        Some(HostedAccountOutcome::EmailVerificationRequired)
    } else if str_eq(c, "registration_closed") {
        Some(HostedAccountOutcome::RegistrationClosed)
    } else if str_eq(c, "token_expired") {
        Some(HostedAccountOutcome::TokenExpired)
    } else if str_eq(c, "token_replayed") {
        Some(HostedAccountOutcome::TokenReplayed)
    } else if str_eq(c, "turnstile_failed") {
        Some(HostedAccountOutcome::HumanVerificationFailed)
    } else if str_eq(c, "rate_limited") {
        Some(HostedAccountOutcome::RateLimited)
    } else if str_eq(c, "bad_request") || str_eq(c, "validation_failed") || str_eq(c, "invalid_json")
        || str_eq(c, "invalid_uuid") || str_eq(c, "missing_field") || str_eq(
        c,
        "unsupported_media_type",
    ) || str_eq(c, "payload_too_large") || str_eq(c, "proposal_rejected") {
        Some(HostedAccountOutcome::ValidationFailed)
    } else if str_eq(c, "store_unavailable") || str_eq(c, "internal_error") {
        Some(HostedAccountOutcome::TransientFailure)
    } else if str_eq(c, "forbidden") || str_eq(c, "not_found") {
        Some(HostedAccountOutcome::PermanentFailure)
    } else {
        None
    }
}

/// Without a known error code the HTTP status decides: 401 asks for
/// authentication, 403 and 404 fail for good, 429 is rate limited and 5xx a
/// transient failure (the two retryable outcomes), any other 4xx a
/// validation failure, and anything else fails for good. A known code
/// decides whatever the status; `rate_limited` is retryable too.
pub proof fn law_unknown_code_follows_status(code: Option<Seq<char>>, status: u16)
    ensures
        (code matches Some(c) ==> code_outcome(c) is None) ==> {
            &&& status == 401 ==> classify_spec(code, status) == HostedAccountOutcome::AuthenticationRequired
            &&& (status == 403 || status == 404) ==> classify_spec(code, status)
                == HostedAccountOutcome::PermanentFailure
            &&& status == 429 ==> classify_spec(code, status) == HostedAccountOutcome::RateLimited
            &&& (500 <= status < 600) ==> classify_spec(code, status) == HostedAccountOutcome::TransientFailure
            &&& (400 <= status < 500 && status != 401 && status != 403 && status != 404 && status != 429)
                ==> classify_spec(code, status) == HostedAccountOutcome::ValidationFailed
            &&& !(400 <= status < 600) ==> classify_spec(code, status) == HostedAccountOutcome::PermanentFailure
            &&& outcome_retryable(classify_spec(code, status)) <==> (status == 429 || 500 <= status < 600)
        },
        code matches Some(c) ==> (code_outcome(c) is Some ==> classify_spec(code, status) == code_outcome(
            c,
        ).unwrap()),
        code == Some("rate_limited"@) ==> classify_spec(code, status) == HostedAccountOutcome::RateLimited
            && outcome_retryable(classify_spec(code, status)),
{
    reveal_strlit("rate_limited");
    reveal_strlit("missing_token");
    reveal_strlit("invalid_token");
    reveal_strlit("session_inactive");
    reveal_strlit("session_expired");
    reveal_strlit("device_revoked");
    reveal_strlit("email_unverified");
    reveal_strlit("registration_closed");
    reveal_strlit("token_expired");
    reveal_strlit("token_replayed");
    reveal_strlit("turnstile_failed");
    let rl = "rate_limited"@;
    assert(rl.len() == 12);
    assert(rl != "missing_token"@ && rl != "invalid_token"@ && rl != "session_inactive"@);
    assert(rl != "session_expired"@ && rl != "device_revoked"@ && rl != "email_unverified"@);
    assert(rl != "registration_closed"@ && rl != "token_expired"@ && rl != "token_replayed"@);
    assert(rl != "turnstile_failed"@);
    assert(code_outcome(rl) == Some(HostedAccountOutcome::RateLimited));
}

/// Maps a stable hosted error code, then the HTTP status, to an outcome.
pub fn classify_hosted_account_error(code: Option<&str>, status: u16) -> (r: HostedAccountOutcome)
    ensures
        r == classify_spec(opt_str_view(code), status),
{
    if let Some(c) = code {
        if let Some(o) = code_outcome_exec(c) {
            return o;
        }
    }
    if status == 401 {
        HostedAccountOutcome::AuthenticationRequired
    } else if status == 403 || status == 404 {
        HostedAccountOutcome::PermanentFailure
    } else if status == 429 {
        HostedAccountOutcome::RateLimited
    } else if 500 <= status && status < 600 {
        HostedAccountOutcome::TransientFailure
    } else if 400 <= status && status < 500 {
        HostedAccountOutcome::ValidationFailed
    } else {
        HostedAccountOutcome::PermanentFailure
    }
}

/// Durable JSON support store for the hosted account record; the file itself
/// is read and written by the embedding application.
#[derive(Debug)]
pub struct JsonHostedAccountStore {
    path: String,
}

impl JsonHostedAccountStore {
    pub fn new(path: String) -> (r: Self)
        ensures
            r.path_view() == path@,
    {
        JsonHostedAccountStore { path }
    }

    pub closed spec fn path_view(&self) -> Seq<char> {
        self.path@
    }

    pub fn path(&self) -> (r: &str)
        ensures
            r@ == self.path_view(),
    {
        self.path.as_str()
    }
}

/// Hosted account client shared by desktop, hosted web, and CLI surfaces.
#[derive(Debug)]
pub struct HostedAccountClient {
    store: JsonHostedAccountStore,
}

impl HostedAccountClient {
    pub fn new(store: JsonHostedAccountStore) -> (r: Self)
        ensures
            r.store_view() == store,
    {
        HostedAccountClient { store }
    }

    pub closed spec fn store_view(&self) -> JsonHostedAccountStore {
        self.store
    }

    pub fn store(&self) -> (r: &JsonHostedAccountStore)
        ensures
            *r == self.store_view(),
    {
        &self.store
    }
}

// ---------------------------------------------------------------------------
// Actions, the durable snapshot and request planning.
// ---------------------------------------------------------------------------

/// Hosted account operations available to every client surface.
#[derive(Debug)]
pub enum HostedAccountAction {
    Register {
        email: String,
        display_name: Option<String>,
        invitation_token: Option<String>,
        turnstile_token: Option<String>,
    },
    VerifyEmail { token: String },
    RecoveryStart { email: String },
    RecoveryComplete { token: String },
    Login { email: String, display_name: Option<String> },
    Session,
    SessionRotate,
    Logout,
    LogoutAll,
    AccountDelete,
    DeviceList,
    DeviceRegister { device_name: String },
    DeviceRevoke { device_id: u128 },
    DeviceRevokeAll,
}

/// Whether the hosted route of an action needs an authenticated session.
pub open spec fn action_needs_session(a: HostedAccountAction) -> bool {
    match a {
        HostedAccountAction::Session
        | HostedAccountAction::SessionRotate
        | HostedAccountAction::Logout
        | HostedAccountAction::LogoutAll
        | HostedAccountAction::AccountDelete
        | HostedAccountAction::DeviceList
        | HostedAccountAction::DeviceRegister { .. }
        | HostedAccountAction::DeviceRevoke { .. }
        | HostedAccountAction::DeviceRevokeAll => true,
        _ => false,
    }
}

pub open spec fn action_name(a: HostedAccountAction) -> Seq<char> {
    match a {
        HostedAccountAction::Register { .. } => ACCOUNT_ACTION_REGISTER@,
        HostedAccountAction::VerifyEmail { .. } => ACCOUNT_ACTION_VERIFY_EMAIL@,
        HostedAccountAction::RecoveryStart { .. } => ACCOUNT_ACTION_RECOVERY_START@,
        HostedAccountAction::RecoveryComplete { .. } => ACCOUNT_ACTION_RECOVERY_COMPLETE@,
        HostedAccountAction::Login { .. } => ACCOUNT_ACTION_LOGIN@,
        HostedAccountAction::Session => ACCOUNT_ACTION_SESSION@,
        HostedAccountAction::SessionRotate => ACCOUNT_ACTION_SESSION_ROTATE@,
        HostedAccountAction::Logout => ACCOUNT_ACTION_LOGOUT@,
        HostedAccountAction::LogoutAll => ACCOUNT_ACTION_LOGOUT_ALL@,
        HostedAccountAction::AccountDelete => ACCOUNT_ACTION_DELETE@,
        HostedAccountAction::DeviceList => ACCOUNT_ACTION_DEVICE_LIST@,
        HostedAccountAction::DeviceRegister { .. } => ACCOUNT_ACTION_DEVICE_REGISTER@,
        HostedAccountAction::DeviceRevoke { .. } => ACCOUNT_ACTION_DEVICE_REVOKE@,
        HostedAccountAction::DeviceRevokeAll => ACCOUNT_ACTION_DEVICE_REVOKE_ALL@,
    }
}

impl HostedAccountAction {
    pub fn name(&self) -> (r: &'static str)
        ensures
            r@ == action_name(*self),
    {
        match self {
            HostedAccountAction::Register { .. } => ACCOUNT_ACTION_REGISTER,
            HostedAccountAction::VerifyEmail { .. } => ACCOUNT_ACTION_VERIFY_EMAIL,
            HostedAccountAction::RecoveryStart { .. } => ACCOUNT_ACTION_RECOVERY_START,
            HostedAccountAction::RecoveryComplete { .. } => ACCOUNT_ACTION_RECOVERY_COMPLETE,
            HostedAccountAction::Login { .. } => ACCOUNT_ACTION_LOGIN,
            HostedAccountAction::Session => ACCOUNT_ACTION_SESSION,
            HostedAccountAction::SessionRotate => ACCOUNT_ACTION_SESSION_ROTATE,
            HostedAccountAction::Logout => ACCOUNT_ACTION_LOGOUT,
            HostedAccountAction::LogoutAll => ACCOUNT_ACTION_LOGOUT_ALL,
            HostedAccountAction::AccountDelete => ACCOUNT_ACTION_DELETE,
            HostedAccountAction::DeviceList => ACCOUNT_ACTION_DEVICE_LIST,
            HostedAccountAction::DeviceRegister { .. } => ACCOUNT_ACTION_DEVICE_REGISTER,
            HostedAccountAction::DeviceRevoke { .. } => ACCOUNT_ACTION_DEVICE_REVOKE,
            HostedAccountAction::DeviceRevokeAll => ACCOUNT_ACTION_DEVICE_REVOKE_ALL,
        }
    }

    /// Whether the hosted route needs an authenticated bearer session.
    pub fn requires_session(&self) -> (r: bool)
        ensures
            r == action_needs_session(*self),
    {
        match self {
            HostedAccountAction::Session
            | HostedAccountAction::SessionRotate
            | HostedAccountAction::Logout
            | HostedAccountAction::LogoutAll
            | HostedAccountAction::AccountDelete
            | HostedAccountAction::DeviceList
            | HostedAccountAction::DeviceRegister { .. }
            | HostedAccountAction::DeviceRevoke { .. }
            | HostedAccountAction::DeviceRevokeAll => true,
            _ => false,
        }
    }
}

/// A hosted device as cached in the account record.
#[derive(Debug)]
pub struct HostedAccountDevice {
    pub device_id: u128,
    pub device_name: String,
    pub trusted: bool,
    pub revoked: bool,
    pub registered_at: Option<i64>,
    pub revoked_at: Option<i64>,
    pub current: bool,
}

/// A logbook as cached in the account record.
#[derive(Debug)]
pub struct HostedAccountLogbook {
    pub logbook_id: u128,
    pub name: String,
    pub role: Option<String>,
}

/// Redacted hosted account state persisted in the support store: it never
/// holds a session, refresh, invitation, verification or recovery token.
#[derive(Debug)]
pub struct HostedAccountSnapshot {
    pub schema_version: u32,
    pub base_url: String,
    pub device_name: String,
    pub connection_state: HostedAccountConnectionState,
    pub account_id: Option<u128>,
    pub user_id: Option<u128>,
    pub email: Option<String>,
    pub display_name: Option<String>,
    pub email_verified: bool,
    pub session_id: Option<u128>,
    pub session_issued_at: Option<i64>,
    pub session_expires_at: Option<i64>,
    pub refresh_expires_at: Option<i64>,
    pub session_token_credential_id: Option<u128>,
    pub refresh_token_credential_id: Option<u128>,
    pub device_id: Option<u128>,
    pub devices: Vec<HostedAccountDevice>,
    pub logbooks: Vec<HostedAccountLogbook>,
    pub pending_email_verification_for: Option<String>,
    pub pending_recovery_for: Option<String>,
    pub last_action: Option<String>,
    pub last_outcome: Option<HostedAccountOutcome>,
    pub last_error_code: Option<String>,
    pub last_message: Option<String>,
    pub last_request_id: Option<String>,
    pub last_updated_at: Option<i64>,
}

pub open spec fn connection_state_text(s: HostedAccountConnectionState) -> Seq<char> {
    match s {
        HostedAccountConnectionState::SignedOut => "signed_out"@,
        HostedAccountConnectionState::PendingEmailVerification => "pending_email_verification"@,
        HostedAccountConnectionState::SignedIn => "signed_in"@,
        HostedAccountConnectionState::SessionExpired => "session_expired"@,
        HostedAccountConnectionState::DeviceRevoked => "device_revoked"@,
    }
}

impl HostedAccountSnapshot {
    /// A signed-out record for a configuration, with nothing cached.
    pub fn new(config: &HostedAccountConfig) -> (r: Self)
        ensures
            r.schema_version == HOSTED_ACCOUNT_FILE_VERSION,
            r.base_url@ == config.base_url@,
            r.device_name@ == config.device_name@,
            r.connection_state == HostedAccountConnectionState::SignedOut,
            r.account_id is None && r.user_id is None && r.email is None && r.display_name is None,
            !r.email_verified,
            r.session_id is None && r.session_issued_at is None && r.session_expires_at is None
                && r.refresh_expires_at is None,
            r.session_token_credential_id is None && r.refresh_token_credential_id is None
                && r.device_id is None,
            r.devices@.len() == 0 && r.logbooks@.len() == 0,
            r.pending_email_verification_for is None && r.pending_recovery_for is None,
            r.last_action is None && r.last_outcome is None && r.last_error_code is None
                && r.last_message is None && r.last_request_id is None && r.last_updated_at is None,
    {
        HostedAccountSnapshot {
            schema_version: HOSTED_ACCOUNT_FILE_VERSION,
            base_url: config.base_url.clone(),
            device_name: config.device_name.clone(),
            connection_state: HostedAccountConnectionState::SignedOut,
            account_id: None,
            user_id: None,
            email: None,
            display_name: None,
            email_verified: false,
            session_id: None,
            session_issued_at: None,
            session_expires_at: None,
            refresh_expires_at: None,
            session_token_credential_id: None,
            refresh_token_credential_id: None,
            device_id: None,
            devices: Vec::new(),
            logbooks: Vec::new(),
            pending_email_verification_for: None,
            pending_recovery_for: None,
            last_action: None,
            last_outcome: None,
            last_error_code: None,
            last_message: None,
            last_request_id: None,
            last_updated_at: None,
        }
    }

    pub fn config(&self) -> (r: HostedAccountConfig)
        ensures
            r.base_url@ == self.base_url@,
            r.device_name@ == self.device_name@,
    {
        HostedAccountConfig { base_url: self.base_url.clone(), device_name: self.device_name.clone() }
    }

    /// Whether a session credential identifier is on record.
    pub fn has_session_credentials(&self) -> (r: bool)
        ensures
            r == self.session_token_credential_id is Some,
    {
        self.session_token_credential_id.is_some()
    }

    /// Stable connection-state label for CLI and log output.
    pub fn connection_state_label(&self) -> (r: &'static str)
        ensures
            r@ == connection_state_text(self.connection_state),
    {
        match self.connection_state {
            HostedAccountConnectionState::SignedOut => "signed_out",
            HostedAccountConnectionState::PendingEmailVerification => "pending_email_verification",
            HostedAccountConnectionState::SignedIn => "signed_in",
            HostedAccountConnectionState::SessionExpired => "session_expired",
            HostedAccountConnectionState::DeviceRevoked => "device_revoked",
        }
    }
}

/// A value of a request body field.
#[derive(Debug)]
pub enum BodyValue {
    Text(String),
    Flag(bool),
}

pub enum BodyValueView {
    Text(Seq<char>),
    Flag(bool),
}

impl View for BodyValue {
    type V = BodyValueView;

    open spec fn view(&self) -> BodyValueView {
        match self {
            BodyValue::Text(t) => BodyValueView::Text(t@),
            BodyValue::Flag(b) => BodyValueView::Flag(*b),
        }
    }
}

/// One member of a JSON request body object.
#[derive(Debug)]
pub struct BodyField {
    pub key: String,
    pub value: BodyValue,
}

pub open spec fn body_view(b: Seq<BodyField>) -> Seq<(Seq<char>, BodyValueView)> {
    b.map_values(|f: BodyField| (f.key@, f.value@))
}

pub open spec fn body_opt_view(b: Option<Vec<BodyField>>) -> Option<Seq<(Seq<char>, BodyValueView)>> {
    match b {
        Some(v) => Some(body_view(v@)),
        None => None,
    }
}

/// A hosted request the platform transport must execute verbatim.
#[derive(Debug)]
pub struct HostedAccountRequestPlan {
    pub action: String,
    pub method: String,
    pub path: String,
    pub url: String,
    pub body: Option<Vec<BodyField>>,
    pub requires_session_token: bool,
    pub session_token_credential_id: Option<u128>,
    pub requires_refresh_token: bool,
    pub refresh_token_credential_id: Option<u128>,
    pub refresh_token_body_field: Option<String>,
    pub request_id: u128,
    pub timeout_seconds: u64,
    pub max_response_bytes: usize,
}

/// The refusals of request planning, over views.
pub enum AccountErrorView {
    UnsupportedFileVersion(u32),
    InvalidBaseUrl(Seq<char>),
    InvalidEmail,
    MissingField(Seq<char>),
    FieldTooLong(Seq<char>, usize),
    SessionRequired,
    RefreshTokenRequired,
    SecretStorage(Seq<char>),
}

impl View for HostedAccountError {
    type V = AccountErrorView;

    open spec fn view(&self) -> AccountErrorView {
        match self {
            HostedAccountError::UnsupportedFileVersion(v) => AccountErrorView::UnsupportedFileVersion(*v),
            HostedAccountError::InvalidBaseUrl(m) => AccountErrorView::InvalidBaseUrl(m@),
            HostedAccountError::InvalidEmail => AccountErrorView::InvalidEmail,
            HostedAccountError::MissingField(f) => AccountErrorView::MissingField(f@),
            HostedAccountError::FieldTooLong { field, max } => AccountErrorView::FieldTooLong(field@, *max),
            HostedAccountError::SessionRequired => AccountErrorView::SessionRequired,
            HostedAccountError::RefreshTokenRequired => AccountErrorView::RefreshTokenRequired,
            HostedAccountError::SecretStorage(m) => AccountErrorView::SecretStorage(m@),
        }
    }
}

pub type BodySpec = Seq<(Seq<char>, BodyValueView)>;

/// An optional trimmed text member: absent when blank, refused when longer
/// than `max` bytes.
pub open spec fn optional_member(key: Seq<char>, value: Option<Seq<char>>, max: usize) -> Result<
    BodySpec,
    AccountErrorView,
> {
    match value {
        None => Ok(Seq::empty()),
        Some(v) => if trim_seq(v).len() == 0 {
            Ok(Seq::empty())
        } else if utf8_len(trim_seq(v)) > max {
            Err(AccountErrorView::FieldTooLong(key, max))
        } else {
            Ok(seq![(key, BodyValueView::Text(trim_seq(v)))])
        },
    }
}

pub open spec fn email_member(email: Seq<char>) -> Result<BodySpec, AccountErrorView> {
    if email_valid(email_candidate(email)) {
        Ok(seq![("email"@, BodyValueView::Text(email_candidate(email)))])
    } else {
        Err(AccountErrorView::InvalidEmail)
    }
}

pub open spec fn token_member(token: Seq<char>) -> Result<BodySpec, AccountErrorView> {
    let t = trim_seq(token);
    if t.len() == 0 {
        Err(AccountErrorView::MissingField("token"@))
    } else if utf8_len(t) > 1024 {
        Err(AccountErrorView::FieldTooLong("token"@, 1024))
    } else {
        Ok(seq![("token"@, BodyValueView::Text(t))])
    }
}

pub open spec fn then_member(a: Result<BodySpec, AccountErrorView>, b: Result<BodySpec, AccountErrorView>) -> Result<
    BodySpec,
    AccountErrorView,
> {
    match a {
        Err(e) => Err(e),
        Ok(x) => match b {
            Err(e) => Err(e),
            Ok(y) => Ok(x + y),
        },
    }
}

pub open spec fn device_member(device: Seq<char>) -> BodySpec {
    seq![("device_name"@, BodyValueView::Text(device))]
}

/// Method, path and body of an action's hosted route, for the normalized
/// device label `device`.
pub open spec fn route_spec(a: HostedAccountAction, device: Seq<char>) -> Result<
    (Seq<char>, Seq<char>, Option<BodySpec>),
    AccountErrorView,
> {
    let post = "POST"@;
    let get = "GET"@;
    let empty = Some(Seq::<(Seq<char>, BodyValueView)>::empty());
    match a {
        HostedAccountAction::Register { email, display_name, invitation_token, turnstile_token } => {
            match then_member(
                then_member(
                    then_member(
                        then_member(email_member(email@), Ok(device_member(device))),
                        optional_member("display_name"@, crate::events::opt_view(display_name), 200),
                    ),
                    optional_member("invitation_token"@, crate::events::opt_view(invitation_token), 1024),
                ),
                optional_member("turnstile_token"@, crate::events::opt_view(turnstile_token), 1024),
            ) {
                Ok(b) => Ok((post, "/api/v1/auth/register"@, Some(b))),
                Err(e) => Err(e),
            }
        },
        HostedAccountAction::VerifyEmail { token } => match token_member(token@) {
            Ok(b) => Ok((post, "/api/v1/auth/verify-email"@, Some(b))),
            Err(e) => Err(e),
        },
        HostedAccountAction::RecoveryStart { email } => match email_member(email@) {
            Ok(b) => Ok((post, "/api/v1/auth/recovery/start"@, Some(b))),
            Err(e) => Err(e),
        },
        HostedAccountAction::RecoveryComplete { token } => match token_member(token@) {
            Ok(b) => Ok((post, "/api/v1/auth/recovery/complete"@, Some(b + device_member(device)))),
            Err(e) => Err(e),
        },
        HostedAccountAction::Login { email, display_name } => match then_member(
            then_member(email_member(email@), Ok(device_member(device))),
            optional_member("display_name"@, crate::events::opt_view(display_name), 200),
        ) {
            Ok(b) => Ok((post, "/api/v1/auth/login"@, Some(b))),
            Err(e) => Err(e),
        },
        HostedAccountAction::Session => Ok((get, "/api/v1/auth/session"@, None)),
        HostedAccountAction::SessionRotate => Ok((post, "/api/v1/auth/session/rotate"@, empty)),
        HostedAccountAction::Logout => Ok((post, "/api/v1/auth/logout"@, empty)),
        HostedAccountAction::LogoutAll => Ok((post, "/api/v1/auth/logout-all"@, empty)),
        HostedAccountAction::AccountDelete => Ok(
            (post, "/api/v1/auth/account/delete"@, Some(seq![("confirm"@, BodyValueView::Flag(true))])),
        ),
        HostedAccountAction::DeviceList => Ok((get, "/api/v1/devices"@, None)),
        HostedAccountAction::DeviceRegister { device_name } => match device_name_result(device_name@) {
            Some(n) => Ok((post, "/api/v1/devices"@, Some(device_member(n)))),
            None => Err(AccountErrorView::FieldTooLong("device_name"@, 128)),
        },
        HostedAccountAction::DeviceRevoke { device_id } => Ok(
            (
                post,
                "/api/v1/devices/"@ + crate::ids::uuid_hyphenated_text(device_id) + "/revoke"@,
                empty,
            ),
        ),
        HostedAccountAction::DeviceRevokeAll => Ok((post, "/api/v1/devices/revoke-all"@, empty)),
    }
}

/// The first refusal request planning meets, if any: the base URL, then the
/// device label, then a missing session, then the body, then a missing
/// refresh token for a rotation.
pub open spec fn plan_refusal(
    a: HostedAccountAction,
    base_url: Seq<char>,
    device_name: Seq<char>,
    session: Option<u128>,
    refresh: Option<u128>,
) -> Option<AccountErrorView> {
    match base_url_problem(base_url_candidate(base_url)) {
        Some(m) => Some(AccountErrorView::InvalidBaseUrl(m)),
        None => match device_name_result(device_name) {
            None => Some(AccountErrorView::FieldTooLong("device_name"@, 128)),
            Some(d) => if action_needs_session(a) && session is None {
                Some(AccountErrorView::SessionRequired)
            } else {
                match route_spec(a, d) {
                    Err(e) => Some(e),
                    Ok(_) => if a is SessionRotate && refresh is None {
                        Some(AccountErrorView::RefreshTokenRequired)
                    } else {
                        None
                    },
                }
            },
        },
    }
}

/// What a successful plan holds for an action and a snapshot.
pub open spec fn plan_matches(
    p: HostedAccountRequestPlan,
    a: HostedAccountAction,
    snapshot: HostedAccountSnapshot,
    request_id: u128,
) -> bool {
    let d = device_name_result(snapshot.device_name@).unwrap();
    let rotate = a is SessionRotate;
    &&& p.action@ == action_name(a)
    &&& route_spec(a, d) == Ok::<_, AccountErrorView>((p.method@, p.path@, body_opt_view(p.body)))
    &&& p.url@ == base_url_candidate(snapshot.base_url@) + p.path@
    &&& p.requires_session_token == action_needs_session(a)
    &&& p.session_token_credential_id == if action_needs_session(a) {
        snapshot.session_token_credential_id
    } else {
        None
    }
    &&& p.requires_refresh_token == rotate
    &&& p.refresh_token_credential_id == if rotate {
        snapshot.refresh_token_credential_id
    } else {
        None
    }
    &&& crate::events::opt_view(p.refresh_token_body_field) == if rotate {
        Some("refresh_token"@)
    } else {
        None
    }
    &&& p.request_id == request_id
    &&& p.timeout_seconds == DEFAULT_HOSTED_ACCOUNT_TIMEOUT_SECONDS
    &&& p.max_response_bytes == MAX_HOSTED_ACCOUNT_RESPONSE_BYTES
}

fn text_field(key: &'static str, value: String) -> (r: BodyField)
    ensures
        r.key@ == key@,
        r.value@ == BodyValueView::Text(value@),
{
    BodyField { key: str_to_string(key), value: BodyValue::Text(value) }
}

fn push_field(body: &mut Vec<BodyField>, f: BodyField)
    ensures
        body_view(final(body)@) == body_view(old(body)@).push((f.key@, f.value@)),
{
    let ghost before = body@;
    body.push(f);
    assert(body_view(body@) =~= body_view(before).push((f.key@, f.value@)));
}

/// Appends an optional trimmed text member, as `optional_member` states.
fn push_optional(body: &mut Vec<BodyField>, key: &'static str, value: &Option<String>, max: usize) -> (r:
    Result<(), HostedAccountError>)
    requires
        max <= 1024,
    ensures
        match optional_member(key@, crate::events::opt_view(*value), max) {
            Ok(x) => r is Ok && body_view(final(body)@) == body_view(old(body)@) + x,
            Err(e) => r matches Err(y) && y@ == e,
        },
{
    match value {
        None => {
            assert(body_view(body@) + Seq::<(Seq<char>, BodyValueView)>::empty() =~= body_view(body@));
            Ok(())
        },
        Some(v) => {
            let t = crate::text::trim_str(v.as_str());
            if t.unicode_len() == 0 {
                assert(body_view(body@) + Seq::<(Seq<char>, BodyValueView)>::empty() =~= body_view(
                    body@,
                ));
                return Ok(());
            }
            let w = chars_of(t.as_str());
            if utf8_len_exceeds(w.as_slice(), max) {
                return Err(HostedAccountError::FieldTooLong { field: key, max });
            }
            let ghost before = body@;
            push_field(body, text_field(key, t));
            assert(body_view(before).push((key@, BodyValueView::Text(trim_seq(v@)))) =~= body_view(
                before,
            ) + seq![(key@, BodyValueView::Text(trim_seq(v@)))]);
            Ok(())
        },
    }
}

fn email_field(email: &String) -> (r: Result<BodyField, HostedAccountError>)
    ensures
        match email_member(email@) {
            Ok(x) => r matches Ok(f) && seq![(f.key@, f.value@)] == x,
            Err(e) => r matches Err(y) && y@ == e,
        },
{
    match normalize_email(email.as_str()) {
        Ok(e) => Ok(text_field("email", e)),
        Err(e) => Err(e),
    }
}

fn token_field(token: &String) -> (r: Result<BodyField, HostedAccountError>)
    ensures
        match token_member(token@) {
            Ok(x) => r matches Ok(f) && seq![(f.key@, f.value@)] == x,
            Err(e) => r matches Err(y) && y@ == e,
        },
{
    match require_token(token.as_str(), "token") {
        Ok(t) => Ok(text_field("token", t)),
        Err(e) => Err(e),
    }
}

fn start_body(first: BodyField, device: &String) -> (r: Vec<BodyField>)
    ensures
        body_view(r@) == seq![(first.key@, first.value@)] + device_member(device@),
{
    let mut body: Vec<BodyField> = Vec::new();
    push_field(&mut body, first);
    push_field(&mut body, text_field("device_name", device.clone()));
    assert(body_view(body@) =~= seq![(first.key@, first.value@)] + device_member(device@));
    body
}

/// Method, path and body of the hosted route for an action, with the
/// normalized device label.
fn route_for(action: &HostedAccountAction, device: &String) -> (r: Result<
    (&'static str, String, Option<Vec<BodyField>>),
    HostedAccountError,
>)
    ensures
        match route_spec(*action, device@) {
            Ok(x) => r matches Ok(y) && x == (y.0@, y.1@, body_opt_view(y.2)),
            Err(e) => r matches Err(y) && y@ == e,
        },
{
    let ghost empty = Seq::<(Seq<char>, BodyValueView)>::empty();
    match action {
        HostedAccountAction::Register { email, display_name, invitation_token, turnstile_token } => {
            let first = match email_field(email) {
                Ok(f) => f,
                Err(e) => {
                    return Err(e);
                },
            };
            let mut body = start_body(first, device);
            let ghost b0 = body_view(body@);
            match push_optional(&mut body, "display_name", display_name, MAX_DISPLAY_NAME_BYTES) {
                Ok(()) => {},
                Err(e) => {
                    return Err(e);
                },
            }
            let ghost b1 = body_view(body@);
            match push_optional(&mut body, "invitation_token", invitation_token, MAX_TOKEN_BYTES) {
                Ok(()) => {},
                Err(e) => {
                    return Err(e);
                },
            }
            match push_optional(&mut body, "turnstile_token", turnstile_token, MAX_TOKEN_BYTES) {
                Ok(()) => {},
                Err(e) => {
                    return Err(e);
                },
            }
            proof {
                reveal_strlit("display_name");
                reveal_strlit("invitation_token");
                reveal_strlit("turnstile_token");
            }
            Ok(("POST", str_to_string("/api/v1/auth/register"), Some(body)))
        },
        HostedAccountAction::VerifyEmail { token } => match token_field(token) {
            Ok(f) => {
                let mut body: Vec<BodyField> = Vec::new();
                push_field(&mut body, f);
                assert(body_view(body@) =~= seq![(f.key@, f.value@)]);
                Ok(("POST", str_to_string("/api/v1/auth/verify-email"), Some(body)))
            },
            Err(e) => Err(e),
        },
        HostedAccountAction::RecoveryStart { email } => match email_field(email) {
            Ok(f) => {
                let mut body: Vec<BodyField> = Vec::new();
                push_field(&mut body, f);
                assert(body_view(body@) =~= seq![(f.key@, f.value@)]);
                Ok(("POST", str_to_string("/api/v1/auth/recovery/start"), Some(body)))
            },
            Err(e) => Err(e),
        },
        HostedAccountAction::RecoveryComplete { token } => match token_field(token) {
            Ok(f) => {
                let body = start_body(f, device);
                Ok(("POST", str_to_string("/api/v1/auth/recovery/complete"), Some(body)))
            },
            Err(e) => Err(e),
        },
        HostedAccountAction::Login { email, display_name } => {
            let first = match email_field(email) {
                Ok(f) => f,
                Err(e) => {
                    return Err(e);
                },
            };
            let mut body = start_body(first, device);
            match push_optional(&mut body, "display_name", display_name, MAX_DISPLAY_NAME_BYTES) {
                Ok(()) => {},
                Err(e) => {
                    return Err(e);
                },
            }
            Ok(("POST", str_to_string("/api/v1/auth/login"), Some(body)))
        },
        HostedAccountAction::Session => Ok(("GET", str_to_string("/api/v1/auth/session"), None)),
        HostedAccountAction::SessionRotate => {
            let body: Vec<BodyField> = Vec::new();
            assert(body_view(body@) =~= empty);
            Ok(("POST", str_to_string("/api/v1/auth/session/rotate"), Some(body)))
        },
        HostedAccountAction::Logout => {
            let body: Vec<BodyField> = Vec::new();
            assert(body_view(body@) =~= empty);
            Ok(("POST", str_to_string("/api/v1/auth/logout"), Some(body)))
        },
        HostedAccountAction::LogoutAll => {
            let body: Vec<BodyField> = Vec::new();
            assert(body_view(body@) =~= empty);
            Ok(("POST", str_to_string("/api/v1/auth/logout-all"), Some(body)))
        },
        HostedAccountAction::AccountDelete => {
            let mut body: Vec<BodyField> = Vec::new();
            push_field(&mut body, BodyField { key: str_to_string("confirm"), value: BodyValue::Flag(true) });
            assert(body_view(body@) =~= seq![("confirm"@, BodyValueView::Flag(true))]);
            Ok(("POST", str_to_string("/api/v1/auth/account/delete"), Some(body)))
        },
        HostedAccountAction::DeviceList => Ok(("GET", str_to_string("/api/v1/devices"), None)),
        HostedAccountAction::DeviceRegister { device_name } => match normalize_device_name(
            device_name.as_str(),
        ) {
            Ok(n) => {
                let mut body: Vec<BodyField> = Vec::new();
                push_field(&mut body, text_field("device_name", n));
                assert(body_view(body@) =~= device_member(n@));
                Ok(("POST", str_to_string("/api/v1/devices"), Some(body)))
            },
            Err(e) => Err(e),
        },
        HostedAccountAction::DeviceRevoke { device_id } => {
            let mut path = str_to_string("/api/v1/devices/");
            let id = crate::ids::uuid_text(*device_id);
            crate::text::append_str(&mut path, id.as_str());
            crate::text::append_str(&mut path, "/revoke");
            let body: Vec<BodyField> = Vec::new();
            assert(body_view(body@) =~= empty);
            Ok(("POST", path, Some(body)))
        },
        HostedAccountAction::DeviceRevokeAll => {
            let body: Vec<BodyField> = Vec::new();
            assert(body_view(body@) =~= empty);
            Ok(("POST", str_to_string("/api/v1/devices/revoke-all"), Some(body)))
        },
    }
}

/// Builds the hosted request for one account action, with `request_id` as
/// the request's identifier.
pub fn plan_hosted_account_request_with_id(
    action: &HostedAccountAction,
    snapshot: &HostedAccountSnapshot,
    request_id: u128,
) -> (r: Result<HostedAccountRequestPlan, HostedAccountError>)
    ensures
        match plan_refusal(
            *action,
            snapshot.base_url@,
            snapshot.device_name@,
            snapshot.session_token_credential_id,
            snapshot.refresh_token_credential_id,
        ) {
            Some(e) => r matches Err(y) && y@ == e,
            None => r matches Ok(p) && plan_matches(p, *action, *snapshot, request_id),
        },
{
    let base_url = match normalize_base_url(snapshot.base_url.as_str()) {
        Ok(u) => u,
        Err(e) => {
            return Err(e);
        },
    };
    let device_name = match normalize_device_name(snapshot.device_name.as_str()) {
        Ok(n) => n,
        Err(e) => {
            return Err(e);
        },
    };
    assert(device_name_result(snapshot.device_name@) == Some(device_name@));
    let needs_session = action.requires_session();
    if needs_session && snapshot.session_token_credential_id.is_none() {
        return Err(HostedAccountError::SessionRequired);
    }
    let (method, path, body) = match route_for(action, &device_name) {
        Ok(x) => x,
        Err(e) => {
            return Err(e);
        },
    };
    let rotate = match action {
        HostedAccountAction::SessionRotate => true,
        _ => false,
    };
    if rotate && snapshot.refresh_token_credential_id.is_none() {
        return Err(HostedAccountError::RefreshTokenRequired);
    }
    let mut url = base_url;
    crate::text::append_str(&mut url, path.as_str());
    Ok(HostedAccountRequestPlan {
        action: str_to_string(action.name()),
        method: str_to_string(method),
        path,
        url,
        body,
        requires_session_token: needs_session,
        session_token_credential_id: if needs_session {
            snapshot.session_token_credential_id
        } else {
            None
        },
        requires_refresh_token: rotate,
        refresh_token_credential_id: if rotate {
            snapshot.refresh_token_credential_id
        } else {
            None
        },
        refresh_token_body_field: if rotate {
            Some(str_to_string("refresh_token"))
        } else {
            None
        },
        request_id,
        timeout_seconds: DEFAULT_HOSTED_ACCOUNT_TIMEOUT_SECONDS,
        max_response_bytes: MAX_HOSTED_ACCOUNT_RESPONSE_BYTES,
    })
}

/// Builds the hosted request for one account action under a fresh random
/// request identifier.
pub fn plan_hosted_account_request(action: &HostedAccountAction, snapshot: &HostedAccountSnapshot) -> (r:
    Result<HostedAccountRequestPlan, HostedAccountError>)
    ensures
        match plan_refusal(
            *action,
            snapshot.base_url@,
            snapshot.device_name@,
            snapshot.session_token_credential_id,
            snapshot.refresh_token_credential_id,
        ) {
            Some(e) => r matches Err(y) && y@ == e,
            None => r matches Ok(p) && plan_matches(p, *action, *snapshot, p.request_id),
        },
{
    let request_id = crate::ids::new_uuid();
    plan_hosted_account_request_with_id(action, snapshot, request_id)
}

/// Whether no member of a body is named `refresh_token`.
pub open spec fn holds_no_refresh_token(b: BodySpec) -> bool {
    forall|i: int| 0 <= i < b.len() ==> (#[trigger] b[i]).0 != "refresh_token"@
}

proof fn lemma_clean_concat(x: BodySpec, y: BodySpec)
    requires
        holds_no_refresh_token(x),
        holds_no_refresh_token(y),
    ensures
        holds_no_refresh_token(x + y),
{
    assert forall|i: int| 0 <= i < (x + y).len() implies (#[trigger] (x + y)[i]).0
        != "refresh_token"@ by {
        if i < x.len() {
            assert((x + y)[i] == x[i]);
        } else {
            assert((x + y)[i] == y[i - x.len()]);
        }
    }
}

proof fn lemma_clean_single(key: Seq<char>, v: BodyValueView)
    requires
        key.len() != 13,
    ensures
        holds_no_refresh_token(seq![(key, v)]),
{
    reveal_strlit("refresh_token");
    assert(seq![(key, v)][0].0 == key);
}

proof fn lemma_clean_then(a: Result<BodySpec, AccountErrorView>, b: Result<BodySpec, AccountErrorView>)
    requires
        a matches Ok(x) ==> holds_no_refresh_token(x),
        b matches Ok(y) ==> holds_no_refresh_token(y),
    ensures
        then_member(a, b) matches Ok(z) ==> holds_no_refresh_token(z),
{
    if let (Ok(x), Ok(y)) = (a, b) {
        lemma_clean_concat(x, y);
    }
}

proof fn lemma_clean_optional(key: Seq<char>, value: Option<Seq<char>>, max: usize)
    requires
        key.len() != 13,
    ensures
        optional_member(key, value, max) matches Ok(b) ==> holds_no_refresh_token(b),
{
    if let Some(v) = value {
        lemma_clean_single(key, BodyValueView::Text(trim_seq(v)));
    }
}

/// A planned request body never carries a refresh token, and a plan asks for
/// the refresh token, under the `refresh_token` field, exactly when it rotates
/// the session.
pub proof fn law_planned_body_holds_no_refresh_token(
    p: HostedAccountRequestPlan,
    a: HostedAccountAction,
    snapshot: HostedAccountSnapshot,
    request_id: u128,
)
    requires
        plan_matches(p, a, snapshot, request_id),
    ensures
        body_opt_view(p.body) matches Some(b) ==> holds_no_refresh_token(b),
        p.requires_refresh_token == (a is SessionRotate),
        crate::events::opt_view(p.refresh_token_body_field) == if p.requires_refresh_token {
            Some("refresh_token"@)
        } else {
            None::<Seq<char>>
        },
{
    reveal_strlit("email");
    reveal_strlit("device_name");
    reveal_strlit("display_name");
    reveal_strlit("invitation_token");
    reveal_strlit("turnstile_token");
    reveal_strlit("token");
    reveal_strlit("confirm");
    let d = device_name_result(snapshot.device_name@).unwrap();
    match a {
        HostedAccountAction::Register { email, display_name, invitation_token, turnstile_token } => {
            lemma_clean_single("email"@, BodyValueView::Text(email_candidate(email@)));
            lemma_clean_single("device_name"@, BodyValueView::Text(d));
            let r1 = then_member(email_member(email@), Ok(device_member(d)));
            lemma_clean_then(email_member(email@), Ok(device_member(d)));
            let o1 = optional_member("display_name"@, crate::events::opt_view(display_name), 200);
            lemma_clean_optional("display_name"@, crate::events::opt_view(display_name), 200);
            let r2 = then_member(r1, o1);
            lemma_clean_then(r1, o1);
            let o2 = optional_member(
                "invitation_token"@,
                crate::events::opt_view(invitation_token),
                1024,
            );
            lemma_clean_optional("invitation_token"@, crate::events::opt_view(invitation_token), 1024);
            let r3 = then_member(r2, o2);
            lemma_clean_then(r2, o2);
            let o3 = optional_member("turnstile_token"@, crate::events::opt_view(turnstile_token), 1024);
            lemma_clean_optional("turnstile_token"@, crate::events::opt_view(turnstile_token), 1024);
            lemma_clean_then(r3, o3);
        },
        HostedAccountAction::VerifyEmail { token } => {
            lemma_clean_single("token"@, BodyValueView::Text(trim_seq(token@)));
        },
        HostedAccountAction::RecoveryStart { email } => {
            lemma_clean_single("email"@, BodyValueView::Text(email_candidate(email@)));
        },
        HostedAccountAction::RecoveryComplete { token } => {
            lemma_clean_single("token"@, BodyValueView::Text(trim_seq(token@)));
            lemma_clean_single("device_name"@, BodyValueView::Text(d));
            if let Ok(b) = token_member(token@) {
                lemma_clean_concat(b, device_member(d));
            }
        },
        HostedAccountAction::Login { email, display_name } => {
            lemma_clean_single("email"@, BodyValueView::Text(email_candidate(email@)));
            lemma_clean_single("device_name"@, BodyValueView::Text(d));
            let r1 = then_member(email_member(email@), Ok(device_member(d)));
            lemma_clean_then(email_member(email@), Ok(device_member(d)));
            let o1 = optional_member("display_name"@, crate::events::opt_view(display_name), 200);
            lemma_clean_optional("display_name"@, crate::events::opt_view(display_name), 200);
            lemma_clean_then(r1, o1);
        },
        HostedAccountAction::AccountDelete => {
            lemma_clean_single("confirm"@, BodyValueView::Flag(true));
        },
        HostedAccountAction::DeviceRegister { device_name } => {
            if let Some(n) = device_name_result(device_name@) {
                lemma_clean_single("device_name"@, BodyValueView::Text(n));
            }
        },
        _ => {},
    }
}


/// Position of the first member named `key`; the length where none is.
pub open spec fn member_pos(b: BodySpec, key: Seq<char>) -> int
    decreases b.len(),
{
    if b.len() == 0 {
        0
    } else if b[0].0 == key {
        0
    } else {
        1 + member_pos(b.drop_first(), key)
    }
}

proof fn lemma_member_pos(b: BodySpec, key: Seq<char>, i: int)
    requires
        0 <= i <= b.len(),
        forall|k: int| 0 <= k < i ==> (#[trigger] b[k]).0 != key,
        i == b.len() || b[i].0 == key,
    ensures
        member_pos(b, key) == i,
    decreases i,
{
    if i > 0 {
        lemma_member_pos(b.drop_first(), key, i - 1);
    }
}

/// The object with member `key` set to `v`: replaced where present, added otherwise.
pub open spec fn set_member(b: BodySpec, key: Seq<char>, v: BodyValueView) -> BodySpec {
    let p = member_pos(b, key);
    if p < b.len() {
        b.update(p, (key, v))
    } else {
        b.push((key, v))
    }
}

/// A planned body, or the empty object where the plan has none.
pub open spec fn body_or_empty(b: Option<Vec<BodyField>>) -> BodySpec {
    match b {
        Some(v) => body_view(v@),
        None => Seq::empty(),
    }
}

fn copy_body(b: &Vec<BodyField>) -> (r: Vec<BodyField>)
    ensures
        body_view(r@) == body_view(b@),
{
    let mut out: Vec<BodyField> = Vec::new();
    let mut i: usize = 0;
    while i < b.len()
        invariant
            i <= b@.len(),
            body_view(out@) == body_view(b@).subrange(0, i as int),
        decreases b@.len() - i,
    {
        let value = match &b[i].value {
            BodyValue::Text(t) => BodyValue::Text(t.clone()),
            BodyValue::Flag(f) => BodyValue::Flag(*f),
        };
        push_field(&mut out, BodyField { key: b[i].key.clone(), value });
        assert(body_view(b@).subrange(0, i + 1) =~= body_view(b@).subrange(0, i as int).push(body_view(b@)[i as int]));
        i = i + 1;
    }
    assert(body_view(b@).subrange(0, b@.len() as int) =~= body_view(b@));
    out
}

impl HostedAccountRequestPlan {
    /// The body with the caller-supplied refresh token in the plan's refresh
    /// field. The token is never stored; it is read from secure storage for
    /// this one request.
    pub fn body_with_refresh_token(&self, refresh_token: &str) -> (r: Vec<BodyField>)
        ensures
            match crate::events::opt_view(self.refresh_token_body_field) {
                None => body_view(r@) == body_or_empty(self.body),
                Some(f) => body_view(r@) == set_member(
                    body_or_empty(self.body),
                    f,
                    BodyValueView::Text(refresh_token@),
                ),
            },
    {
        let mut body = match &self.body {
            Some(b) => copy_body(b),
            None => Vec::new(),
        };
        assert(self.body is None ==> body_view(body@) =~= Seq::<(Seq<char>, BodyValueView)>::empty());
        match &self.refresh_token_body_field {
            None => body,
            Some(f) => {
                let ghost b0 = body_view(body@);
                let mut p: usize = 0;
                while p < body.len() && !body[p].key.eq(f)
                    invariant
                        p <= body@.len(),
                        b0 == body_view(body@),
                        forall|k: int| 0 <= k < p ==> (#[trigger] b0[k]).0 != f@,
                    decreases body@.len() - p,
                {
                    p = p + 1;
                }
                proof {
                    lemma_member_pos(b0, f@, p as int);
                }
                let field = BodyField { key: f.clone(), value: BodyValue::Text(str_to_string(refresh_token)) };
                if p < body.len() {
                    body.set(p, field);
                    assert(body_view(body@) =~= b0.update(p as int, (f@, BodyValueView::Text(refresh_token@))));
                } else {
                    push_field(&mut body, field);
                }
                body
            },
        }
    }

    /// The session token to send, given what secure storage holds for the
    /// plan's session credential; a plan that needs a session cannot go
    /// without one.
    pub fn session_token_to_send(&self, stored: Option<String>) -> (r: Result<Option<String>, HostedAccountError>)
        ensures
            self.session_token_credential_id is None ==> r matches Ok(None),
            self.session_token_credential_id is Some && self.requires_session_token && stored is None ==> r matches Err(
                HostedAccountError::SessionRequired,
            ),
            self.session_token_credential_id is Some && !(self.requires_session_token && stored is None) ==> (
            r matches Ok(t) && crate::events::opt_view(t) == crate::events::opt_view(stored)),
    {
        match self.session_token_credential_id {
            None => Ok(None),
            Some(_) => {
                if self.requires_session_token && stored.is_none() {
                    Err(HostedAccountError::SessionRequired)
                } else {
                    Ok(stored)
                }
            },
        }
    }

    /// The body to send: for a plan that needs the refresh token, the body
    /// with the token secure storage holds for the plan's refresh credential.
    pub fn body_to_send(&self, stored_refresh_token: Option<String>) -> (r: Result<Option<Vec<BodyField>>, HostedAccountError>)
        ensures
            !self.requires_refresh_token ==> (r matches Ok(b) && body_opt_view(b) == body_opt_view(self.body)),
            self.requires_refresh_token && (self.refresh_token_credential_id is None || stored_refresh_token is None)
                ==> r matches Err(HostedAccountError::RefreshTokenRequired),
            self.requires_refresh_token && self.refresh_token_credential_id is Some ==> (stored_refresh_token matches Some(
                t,
            ) ==> (r matches Ok(Some(b)) && body_view(b@) == match crate::events::opt_view(
                self.refresh_token_body_field,
            ) {
                None => body_or_empty(self.body),
                Some(f) => set_member(body_or_empty(self.body), f, BodyValueView::Text(t@)),
            })),
    {
        if self.requires_refresh_token {
            if self.refresh_token_credential_id.is_none() {
                return Err(HostedAccountError::RefreshTokenRequired);
            }
            match stored_refresh_token {
                None => Err(HostedAccountError::RefreshTokenRequired),
                Some(t) => Ok(Some(self.body_with_refresh_token(t.as_str()))),
            }
        } else {
            match &self.body {
                Some(b) => Ok(Some(copy_body(b))),
                None => Ok(None),
            }
        }
    }
}

/// A stored account file is usable when its version and its record's
/// version are the supported one and its base URL normalizes.
pub fn validate_account_file(version: u32, snapshot: &HostedAccountSnapshot) -> (r: Result<(), HostedAccountError>)
    ensures
        version != HOSTED_ACCOUNT_FILE_VERSION ==> (r matches Err(HostedAccountError::UnsupportedFileVersion(v)) && v
            == version),
        version == HOSTED_ACCOUNT_FILE_VERSION && snapshot.schema_version != HOSTED_ACCOUNT_FILE_VERSION ==> (r matches Err(
            HostedAccountError::UnsupportedFileVersion(v),
        ) && v == snapshot.schema_version),
        version == HOSTED_ACCOUNT_FILE_VERSION && snapshot.schema_version == HOSTED_ACCOUNT_FILE_VERSION ==> match base_url_problem(
            base_url_candidate(snapshot.base_url@),
        ) {
            None => r is Ok,
            Some(m) => r matches Err(HostedAccountError::InvalidBaseUrl(e)) && e@ == m,
        },
{
    if version != HOSTED_ACCOUNT_FILE_VERSION {
        return Err(HostedAccountError::UnsupportedFileVersion(version));
    }
    if snapshot.schema_version != HOSTED_ACCOUNT_FILE_VERSION {
        return Err(HostedAccountError::UnsupportedFileVersion(snapshot.schema_version));
    }
    match normalize_base_url(snapshot.base_url.as_str()) {
        Ok(_) => Ok(()),
        Err(e) => Err(e),
    }
}

/// Takes a normalized configuration into the record, leaving session state alone.
pub fn apply_configuration(snapshot: &mut HostedAccountSnapshot, normalized: &HostedAccountConfig, now: i64)
    ensures
        final(snapshot).base_url@ == normalized.base_url@,
        final(snapshot).device_name@ == normalized.device_name@,
        final(snapshot).last_updated_at == Some(now),
        final(snapshot).connection_state == old(snapshot).connection_state,
        final(snapshot).session_token_credential_id == old(snapshot).session_token_credential_id,
        final(snapshot).refresh_token_credential_id == old(snapshot).refresh_token_credential_id,
        final(snapshot).session_id == old(snapshot).session_id,
        final(snapshot).device_id == old(snapshot).device_id,
        final(snapshot).account_id == old(snapshot).account_id,
{
    snapshot.base_url = normalized.base_url.clone();
    snapshot.device_name = normalized.device_name.clone();
    snapshot.last_updated_at = Some(now);
}

} // verus!
