//! Interpretation of hosted account replies: what a response does to the
//! durable account record, which secrets it issued, and which stored
//! credentials must be cleared.
use vstd::prelude::*;
use crate::account::{
    action_name, classify_spec, email_candidate, email_valid, normalize_email, outcome_needs_user,
    outcome_retryable, HostedAccountAction, HostedAccountConnectionState, HostedAccountDevice,
    HostedAccountLogbook, HostedAccountOutcome, HostedAccountRequestPlan, HostedAccountSnapshot,
    HOSTED_ACCOUNT_FILE_VERSION,
};
use crate::events::{copy_opt, opt_view};
use crate::ids::{rfc3339_millis_text, uuid_hyphenated_text, uuid_parse_text};
use crate::text::{append_str, decimal_string, decimal_text, str_to_string, trim_seq};

verus! {

/// Devices cached in the account record, at most.
pub const MAX_CACHED_DEVICES: usize = 200;

/// Logbooks cached in the account record, at most.
pub const MAX_CACHED_LOGBOOKS: usize = 200;

// ---------------------------------------------------------------------------
// The account record as plain values.
// ---------------------------------------------------------------------------

pub struct DeviceView {
    pub device_id: u128,
    pub device_name: Seq<char>,
    pub trusted: bool,
    pub revoked: bool,
    pub registered_at: Option<i64>,
    pub revoked_at: Option<i64>,
    pub current: bool,
}

impl View for HostedAccountDevice {
    type V = DeviceView;

    open spec fn view(&self) -> DeviceView {
        DeviceView {
            device_id: self.device_id,
            device_name: self.device_name@,
            trusted: self.trusted,
            revoked: self.revoked,
            registered_at: self.registered_at,
            revoked_at: self.revoked_at,
            current: self.current,
        }
    }
}

pub struct LogbookView {
    pub logbook_id: u128,
    pub name: Seq<char>,
    pub role: Option<Seq<char>>,
}

impl View for HostedAccountLogbook {
    type V = LogbookView;

    open spec fn view(&self) -> LogbookView {
        LogbookView { logbook_id: self.logbook_id, name: self.name@, role: opt_view(self.role) }
    }
}

pub open spec fn device_views(v: Seq<HostedAccountDevice>) -> Seq<DeviceView> {
    v.map_values(|d: HostedAccountDevice| d@)
}

pub open spec fn logbook_views(v: Seq<HostedAccountLogbook>) -> Seq<LogbookView> {
    v.map_values(|l: HostedAccountLogbook| l@)
}

#[verifier::ext_equal]
pub struct SnapshotView {
    pub schema_version: u32,
    pub base_url: Seq<char>,
    pub device_name: Seq<char>,
    pub connection_state: HostedAccountConnectionState,
    pub account_id: Option<u128>,
    pub user_id: Option<u128>,
    pub email: Option<Seq<char>>,
    pub display_name: Option<Seq<char>>,
    pub email_verified: bool,
    pub session_id: Option<u128>,
    pub session_issued_at: Option<i64>,
    pub session_expires_at: Option<i64>,
    pub refresh_expires_at: Option<i64>,
    pub session_token_credential_id: Option<u128>,
    pub refresh_token_credential_id: Option<u128>,
    pub device_id: Option<u128>,
    pub devices: Seq<DeviceView>,
    pub logbooks: Seq<LogbookView>,
    pub pending_email_verification_for: Option<Seq<char>>,
    pub pending_recovery_for: Option<Seq<char>>,
    pub last_action: Option<Seq<char>>,
    pub last_outcome: Option<HostedAccountOutcome>,
    pub last_error_code: Option<Seq<char>>,
    pub last_message: Option<Seq<char>>,
    pub last_request_id: Option<Seq<char>>,
    pub last_updated_at: Option<i64>,
}

impl View for HostedAccountSnapshot {
    type V = SnapshotView;

    open spec fn view(&self) -> SnapshotView {
        SnapshotView {
            schema_version: self.schema_version,
            base_url: self.base_url@,
            device_name: self.device_name@,
            connection_state: self.connection_state,
            account_id: self.account_id,
            user_id: self.user_id,
            email: opt_view(self.email),
            display_name: opt_view(self.display_name),
            email_verified: self.email_verified,
            session_id: self.session_id,
            session_issued_at: self.session_issued_at,
            session_expires_at: self.session_expires_at,
            refresh_expires_at: self.refresh_expires_at,
            session_token_credential_id: self.session_token_credential_id,
            refresh_token_credential_id: self.refresh_token_credential_id,
            device_id: self.device_id,
            devices: device_views(self.devices@),
            logbooks: logbook_views(self.logbooks@),
            pending_email_verification_for: opt_view(self.pending_email_verification_for),
            pending_recovery_for: opt_view(self.pending_recovery_for),
            last_action: opt_view(self.last_action),
            last_outcome: self.last_outcome,
            last_error_code: opt_view(self.last_error_code),
            last_message: opt_view(self.last_message),
            last_request_id: opt_view(self.last_request_id),
            last_updated_at: self.last_updated_at,
        }
    }
}

/// The record with the session forgotten.
pub open spec fn cleared_session(s: SnapshotView) -> SnapshotView {
    SnapshotView {
        session_id: None,
        session_issued_at: None,
        session_expires_at: None,
        refresh_expires_at: None,
        session_token_credential_id: None,
        refresh_token_credential_id: None,
        device_id: None,
        ..s
    }
}

/// The record with the account identity forgotten.
pub open spec fn cleared_identity(s: SnapshotView) -> SnapshotView {
    SnapshotView {
        account_id: None,
        user_id: None,
        email: None,
        display_name: None,
        email_verified: false,
        devices: Seq::empty(),
        logbooks: Seq::empty(),
        ..s
    }
}

pub open spec fn opt_seq(o: Option<u128>) -> Seq<u128> {
    match o {
        Some(x) => seq![x],
        None => Seq::empty(),
    }
}

/// The stored credentials of the session, session token first.
pub open spec fn credential_ids(s: SnapshotView) -> Seq<u128> {
    opt_seq(s.session_token_credential_id) + opt_seq(s.refresh_token_credential_id)
}

fn clear_session(s: &mut HostedAccountSnapshot)
    ensures
        final(s)@ == cleared_session(old(s)@),
{
    s.session_id = None;
    s.session_issued_at = None;
    s.session_expires_at = None;
    s.refresh_expires_at = None;
    s.session_token_credential_id = None;
    s.refresh_token_credential_id = None;
    s.device_id = None;
}

fn clear_identity(s: &mut HostedAccountSnapshot)
    ensures
        final(s)@ == cleared_identity(old(s)@),
{
    s.account_id = None;
    s.user_id = None;
    s.email = None;
    s.display_name = None;
    s.email_verified = false;
    s.devices = Vec::new();
    s.logbooks = Vec::new();
    assert(device_views(s.devices@) =~= Seq::<DeviceView>::empty());
    assert(logbook_views(s.logbooks@) =~= Seq::<LogbookView>::empty());
}

fn push_credentials(cleared: &mut Vec<u128>, s: &HostedAccountSnapshot)
    ensures
        final(cleared)@ == old(cleared)@ + credential_ids(s@),
{
    let ghost before = cleared@;
    if let Some(id) = s.session_token_credential_id {
        cleared.push(id);
    }
    if let Some(id) = s.refresh_token_credential_id {
        cleared.push(id);
    }
    assert(cleared@ =~= before + credential_ids(s@));
}

// ---------------------------------------------------------------------------
// The members of a reply that the client reads.
// ---------------------------------------------------------------------------

/// The `account` object of a reply. Each member is `None` where it is
/// missing or not of the JSON type read.
#[derive(Debug)]
pub struct AccountObject {
    pub account_id: Option<String>,
    pub user_id: Option<String>,
    pub email: Option<String>,
    pub display_name: Option<String>,
    /// Where `email_verified_at` is present: whether it holds something other than null.
    pub email_verified_at: Option<bool>,
}

/// The `session` object of a reply.
#[derive(Debug)]
pub struct SessionObject {
    pub session_id: Option<String>,
    pub issued_at: Option<String>,
    pub expires_at: Option<String>,
    pub refresh_expires_at: Option<String>,
    pub device_id: Option<String>,
    pub token: Option<String>,
}

/// A device object of a reply.
#[derive(Debug)]
pub struct DeviceObject {
    pub device_id: Option<String>,
    pub device_name: Option<String>,
    pub trusted: Option<bool>,
    pub revoked: Option<bool>,
    pub registered_at: Option<String>,
    pub revoked_at: Option<String>,
}

/// An entry of the `logbooks` array of a reply.
#[derive(Debug)]
pub struct LogbookObject {
    pub logbook_id: Option<String>,
    pub name: Option<String>,
}

/// An entry of the `memberships` array of a reply.
#[derive(Debug)]
pub struct MembershipObject {
    pub logbook_id: Option<String>,
    pub role: Option<String>,
}

/// The members of a hosted reply body the client reads. Text members are
/// `Some` where they hold a JSON string, objects where the member is present,
/// arrays where it holds an array, counts where it holds an unsigned integer.
/// A missing body, or one that is not an object, has every member `None`.
#[derive(Debug)]
pub struct AccountResponseBody {
    pub code: Option<String>,
    pub request_id: Option<String>,
    pub error: Option<String>,
    pub account: Option<AccountObject>,
    pub session: Option<SessionObject>,
    pub refresh_token: Option<String>,
    pub device: Option<DeviceObject>,
    pub devices: Option<Vec<DeviceObject>>,
    pub logbooks: Option<Vec<LogbookObject>>,
    pub memberships: Option<Vec<MembershipObject>>,
    pub revoked_sessions: Option<u64>,
    pub revoked_devices: Option<u64>,
}

impl AccountResponseBody {
    /// A body with nothing in it.
    pub fn empty() -> (r: Self)
        ensures
            r.code is None && r.request_id is None && r.error is None,
            r.account is None && r.session is None && r.refresh_token is None,
            r.device is None && r.devices is None && r.logbooks is None && r.memberships is None,
            r.revoked_sessions is None && r.revoked_devices is None,
    {
        AccountResponseBody {
            code: None,
            request_id: None,
            error: None,
            account: None,
            session: None,
            refresh_token: None,
            device: None,
            devices: None,
            logbooks: None,
            memberships: None,
            revoked_sessions: None,
            revoked_devices: None,
        }
    }
}

/// A hosted response as the platform transport observed it.
#[derive(Debug)]
pub struct HostedAccountHttpResponse {
    pub status: u16,
    pub body: AccountResponseBody,
}

impl HostedAccountHttpResponse {
    pub fn new(status: u16, body: AccountResponseBody) -> (r: Self)
        ensures
            r.status == status,
            r.body == body,
    {
        HostedAccountHttpResponse { status, body }
    }
}

/// An identifier member, parsed.
pub open spec fn uuid_member(o: Option<String>) -> Option<u128> {
    match o {
        Some(t) => uuid_parse_text(t@),
        None => None,
    }
}

/// A timestamp member, parsed.
pub open spec fn time_member(o: Option<String>) -> Option<i64> {
    match o {
        Some(t) => rfc3339_millis_text(t@),
        None => None,
    }
}

/// A text member, trimmed, where that leaves something.
pub open spec fn non_empty_member(o: Option<String>) -> Option<Seq<char>> {
    match o {
        Some(t) => if trim_seq(t@).len() > 0 {
            Some(trim_seq(t@))
        } else {
            None
        },
        None => None,
    }
}

/// `a`, or `b` where `a` is `None`.
pub open spec fn either<T>(a: Option<T>, b: Option<T>) -> Option<T> {
    match a {
        Some(x) => Some(x),
        None => b,
    }
}

fn parse_uuid_member(o: &Option<String>) -> (r: Option<u128>)
    ensures
        r == uuid_member(*o),
{
    match o {
        Some(t) => crate::ids::parse_uuid_text(t.as_str()),
        None => None,
    }
}

fn parse_time_member(o: &Option<String>) -> (r: Option<i64>)
    ensures
        r == time_member(*o),
{
    match o {
        Some(t) => crate::ids::parse_rfc3339_millis(t.as_str()),
        None => None,
    }
}

fn non_empty_text(o: &Option<String>) -> (r: Option<String>)
    ensures
        opt_view(r) == non_empty_member(*o),
{
    match o {
        Some(t) => {
            let trimmed = crate::text::trim_str(t.as_str());
            if trimmed.unicode_len() > 0 {
                Some(trimmed)
            } else {
                None
            }
        },
        None => None,
    }
}

/// The record after an `account` object: each identity member present in
/// it replaces the cached one.
pub open spec fn with_account(s: SnapshotView, a: AccountObject) -> SnapshotView {
    SnapshotView {
        account_id: either(uuid_member(a.account_id), s.account_id),
        user_id: either(uuid_member(a.user_id), s.user_id),
        email: either(opt_view(a.email), s.email),
        display_name: either(opt_view(a.display_name), s.display_name),
        email_verified: match a.email_verified_at {
            Some(b) => b,
            None => s.email_verified,
        },
        ..s
    }
}

fn apply_account(s: &mut HostedAccountSnapshot, a: &AccountObject)
    ensures
        final(s)@ == with_account(old(s)@, *a),
{
    if let Some(id) = parse_uuid_member(&a.account_id) {
        s.account_id = Some(id);
    }
    if let Some(id) = parse_uuid_member(&a.user_id) {
        s.user_id = Some(id);
    }
    if let Some(e) = &a.email {
        s.email = Some(e.clone());
    }
    if let Some(n) = &a.display_name {
        s.display_name = Some(n.clone());
    }
    if let Some(b) = a.email_verified_at {
        s.email_verified = b;
    }
}


// ---------------------------------------------------------------------------
// Ordered lists: stable sorting by an identifier, and first occurrences.
// ---------------------------------------------------------------------------

/// `v` with `x` placed after every element whose key is at most `x`'s,
/// scanning from the end: one step of a stable insertion sort.
pub open spec fn insert_by<T>(v: Seq<T>, x: T, key: spec_fn(T) -> u128) -> Seq<T>
    decreases v.len(),
{
    if v.len() == 0 {
        seq![x]
    } else if key(x) < key(v.last()) {
        insert_by(v.drop_last(), x, key).push(v.last())
    } else {
        v.push(x)
    }
}

/// `v` sorted by `key`, elements of equal key kept in their order, as a
/// stable sort such as `sort_by_key` leaves them.
pub open spec fn sort_by<T>(v: Seq<T>, key: spec_fn(T) -> u128) -> Seq<T>
    decreases v.len(),
{
    if v.len() == 0 {
        v
    } else {
        insert_by(sort_by(v.drop_last(), key), v.last(), key)
    }
}

/// Index of the first element whose key is `id`; the length where none is.
pub open spec fn first_by<T>(v: Seq<T>, key: spec_fn(T) -> u128, id: u128) -> int
    decreases v.len(),
{
    if v.len() == 0 {
        0
    } else if key(v[0]) == id {
        0
    } else {
        1 + first_by(v.drop_first(), key, id)
    }
}

proof fn lemma_insert_by_at<T>(v: Seq<T>, x: T, key: spec_fn(T) -> u128, p: int)
    requires
        0 <= p <= v.len(),
        forall|k: int| p <= k < v.len() ==> key(x) < key(#[trigger] v[k]),
        p == 0 || key(v[p - 1]) <= key(x),
    ensures
        insert_by(v, x, key) == v.insert(p, x),
    decreases v.len(),
{
    if v.len() == 0 {
        assert(v.insert(p, x) =~= seq![x]);
    } else if key(x) < key(v.last()) {
        assert(p < v.len());
        lemma_insert_by_at(v.drop_last(), x, key, p);
        assert(v.drop_last().insert(p, x).push(v.last()) =~= v.insert(p, x));
    } else {
        assert(p == v.len());
        assert(v.push(x) =~= v.insert(p, x));
    }
}

proof fn lemma_first_by<T>(v: Seq<T>, key: spec_fn(T) -> u128, id: u128, i: int)
    requires
        0 <= i <= v.len(),
        forall|k: int| 0 <= k < i ==> key(#[trigger] v[k]) != id,
        i == v.len() || key(v[i]) == id,
    ensures
        first_by(v, key, id) == i,
    decreases i,
{
    if i > 0 {
        lemma_first_by(v.drop_first(), key, id, i - 1);
    }
}

pub open spec fn device_key() -> spec_fn(DeviceView) -> u128 {
    |d: DeviceView| d.device_id
}

pub open spec fn logbook_key() -> spec_fn(LogbookView) -> u128 {
    |l: LogbookView| l.logbook_id
}

/// Stable sort of devices by identifier.
fn sort_devices(v: Vec<HostedAccountDevice>) -> (r: Vec<HostedAccountDevice>)
    ensures
        device_views(r@) == sort_by(device_views(v@), device_key()),
{
    let ghost all = v@;
    let n = v.len();
    let mut src = v;
    let mut out: Vec<HostedAccountDevice> = Vec::new();
    let mut i: usize = 0;
    assert(device_views(all.subrange(0, 0)) =~= Seq::<DeviceView>::empty());
    while i < n
        invariant
            n == all.len(),
            i <= n,
            src@ == all.subrange(i as int, n as int),
            device_views(out@) == sort_by(device_views(all.subrange(0, i as int)), device_key()),
        decreases n - i,
    {
        let x = src.remove(0);
        assert(x == all[i as int]);
        assert(src@ =~= all.subrange(i + 1, n as int));
        let ghost ov = device_views(out@);
        let mut p: usize = out.len();
        while p > 0 && x.device_id < out[p - 1].device_id
            invariant
                p <= out@.len(),
                ov == device_views(out@),
                forall|k: int| p <= k < out@.len() ==> x.device_id < (#[trigger] ov[k]).device_id,
            decreases p,
        {
            p = p - 1;
        }
        proof {
            lemma_insert_by_at(ov, x@, device_key(), p as int);
            let pre = device_views(all.subrange(0, i as int));
            let nxt = device_views(all.subrange(0, i + 1));
            assert(nxt.drop_last() =~= pre);
            assert(nxt.last() == x@);
        }
        out.insert(p, x);
        assert(device_views(out@) =~= ov.insert(p as int, x@));
        i = i + 1;
    }
    assert(all.subrange(0, n as int) =~= all);
    out
}

/// Stable sort of logbooks by identifier.
fn sort_logbooks(v: Vec<HostedAccountLogbook>) -> (r: Vec<HostedAccountLogbook>)
    ensures
        logbook_views(r@) == sort_by(logbook_views(v@), logbook_key()),
{
    let ghost all = v@;
    let n = v.len();
    let mut src = v;
    let mut out: Vec<HostedAccountLogbook> = Vec::new();
    let mut i: usize = 0;
    assert(logbook_views(all.subrange(0, 0)) =~= Seq::<LogbookView>::empty());
    while i < n
        invariant
            n == all.len(),
            i <= n,
            src@ == all.subrange(i as int, n as int),
            logbook_views(out@) == sort_by(logbook_views(all.subrange(0, i as int)), logbook_key()),
        decreases n - i,
    {
        let x = src.remove(0);
        assert(x == all[i as int]);
        assert(src@ =~= all.subrange(i + 1, n as int));
        let ghost ov = logbook_views(out@);
        let mut p: usize = out.len();
        while p > 0 && x.logbook_id < out[p - 1].logbook_id
            invariant
                p <= out@.len(),
                ov == logbook_views(out@),
                forall|k: int| p <= k < out@.len() ==> x.logbook_id < (#[trigger] ov[k]).logbook_id,
            decreases p,
        {
            p = p - 1;
        }
        proof {
            lemma_insert_by_at(ov, x@, logbook_key(), p as int);
            let pre = logbook_views(all.subrange(0, i as int));
            let nxt = logbook_views(all.subrange(0, i + 1));
            assert(nxt.drop_last() =~= pre);
            assert(nxt.last() == x@);
        }
        out.insert(p, x);
        assert(logbook_views(out@) =~= ov.insert(p as int, x@));
        i = i + 1;
    }
    assert(all.subrange(0, n as int) =~= all);
    out
}

fn find_device(v: &Vec<HostedAccountDevice>, id: u128) -> (p: usize)
    ensures
        p == first_by(device_views(v@), device_key(), id),
        p <= v@.len(),
{
    let mut p: usize = 0;
    while p < v.len() && v[p].device_id != id
        invariant
            p <= v@.len(),
            forall|k: int| 0 <= k < p ==> (#[trigger] device_views(v@)[k]).device_id != id,
        decreases v@.len() - p,
    {
        p = p + 1;
    }
    proof {
        lemma_first_by(device_views(v@), device_key(), id, p as int);
    }
    p
}

fn find_logbook(v: &Vec<HostedAccountLogbook>, id: u128) -> (p: usize)
    ensures
        p == first_by(logbook_views(v@), logbook_key(), id),
        p <= v@.len(),
{
    let mut p: usize = 0;
    while p < v.len() && v[p].logbook_id != id
        invariant
            p <= v@.len(),
            forall|k: int| 0 <= k < p ==> (#[trigger] logbook_views(v@)[k]).logbook_id != id,
        decreases v@.len() - p,
    {
        p = p + 1;
    }
    proof {
        lemma_first_by(logbook_views(v@), logbook_key(), id, p as int);
    }
    p
}


// ---------------------------------------------------------------------------
// Devices.
// ---------------------------------------------------------------------------

/// The device a device object describes, where its identifier parses.
pub open spec fn device_of(d: DeviceObject) -> Option<DeviceView> {
    match uuid_member(d.device_id) {
        Some(id) => Some(
            DeviceView {
                device_id: id,
                device_name: match opt_view(d.device_name) {
                    Some(n) => n,
                    None => "Device"@,
                },
                trusted: match d.trusted {
                    Some(b) => b,
                    None => false,
                },
                revoked: match d.revoked {
                    Some(b) => b,
                    None => false,
                },
                registered_at: time_member(d.registered_at),
                revoked_at: time_member(d.revoked_at),
                current: false,
            },
        ),
        None => None,
    }
}

fn device_from_object(d: &DeviceObject) -> (r: Option<HostedAccountDevice>)
    ensures
        match device_of(*d) {
            Some(v) => r matches Some(x) && x@ == v,
            None => r is None,
        },
{
    match parse_uuid_member(&d.device_id) {
        None => None,
        Some(device_id) => {
            let device_name = match &d.device_name {
                Some(n) => n.clone(),
                None => str_to_string("Device"),
            };
            Some(
                HostedAccountDevice {
                    device_id,
                    device_name,
                    trusted: match d.trusted {
                        Some(b) => b,
                        None => false,
                    },
                    revoked: match d.revoked {
                        Some(b) => b,
                        None => false,
                    },
                    registered_at: parse_time_member(&d.registered_at),
                    revoked_at: parse_time_member(&d.revoked_at),
                    current: false,
                },
            )
        },
    }
}

/// The record with a device stored: it replaces the first cached device of
/// its identifier, or joins the list (kept sorted by identifier) while the
/// cache has room. It is current where it is this client's device.
pub open spec fn upserted(s: SnapshotView, d: DeviceView) -> SnapshotView {
    let d2 = DeviceView { current: s.device_id == Some(d.device_id), ..d };
    let p = first_by(s.devices, device_key(), d.device_id);
    if p < s.devices.len() {
        SnapshotView { devices: s.devices.update(p, d2), ..s }
    } else if s.devices.len() < MAX_CACHED_DEVICES {
        SnapshotView { devices: sort_by(s.devices.push(d2), device_key()), ..s }
    } else {
        s
    }
}

fn upsert_device(s: &mut HostedAccountSnapshot, d: HostedAccountDevice)
    ensures
        final(s)@ == upserted(old(s)@, d@),
{
    let mut d = d;
    d.current = match s.device_id {
        Some(id) => id == d.device_id,
        None => false,
    };
    let p = find_device(&s.devices, d.device_id);
    let ghost before = s.devices@;
    if p < s.devices.len() {
        s.devices.set(p, d);
        assert(device_views(s.devices@) =~= device_views(before).update(p as int, d@));
    } else if s.devices.len() < MAX_CACHED_DEVICES {
        let mut devices: Vec<HostedAccountDevice> = Vec::new();
        std::mem::swap(&mut devices, &mut s.devices);
        devices.push(d);
        assert(device_views(devices@) =~= device_views(before).push(d@));
        s.devices = sort_devices(devices);
    }
}

/// The record with the first device of an identifier marked revoked at `now`.
pub open spec fn revoked_one(s: SnapshotView, id: u128, now: i64) -> SnapshotView {
    let p = first_by(s.devices, device_key(), id);
    if p < s.devices.len() {
        SnapshotView {
            devices: s.devices.update(p, DeviceView { revoked: true, revoked_at: Some(now), ..s.devices[p] }),
            ..s
        }
    } else {
        s
    }
}

fn mark_device_revoked(s: &mut HostedAccountSnapshot, id: u128, now: i64)
    ensures
        final(s)@ == revoked_one(old(s)@, id, now),
{
    let p = find_device(&s.devices, id);
    if p < s.devices.len() {
        let ghost before = s.devices@;
        let d = HostedAccountDevice {
            device_id: s.devices[p].device_id,
            device_name: s.devices[p].device_name.clone(),
            trusted: s.devices[p].trusted,
            revoked: true,
            registered_at: s.devices[p].registered_at,
            revoked_at: Some(now),
            current: s.devices[p].current,
        };
        s.devices.set(p, d);
        assert(device_views(s.devices@) =~= device_views(before).update(
            p as int,
            DeviceView { revoked: true, revoked_at: Some(now), ..device_views(before)[p as int] },
        ));
    }
}

/// Every cached device revoked at `now`, none of them current.
pub open spec fn revoked_all(s: SnapshotView, now: i64) -> SnapshotView {
    SnapshotView {
        devices: Seq::new(
            s.devices.len(),
            |i: int| DeviceView { revoked: true, revoked_at: Some(now), current: false, ..s.devices[i] },
        ),
        ..s
    }
}

fn revoke_all_devices(s: &mut HostedAccountSnapshot, now: i64)
    ensures
        final(s)@ == revoked_all(old(s)@, now),
{
    let ghost old_views = device_views(s.devices@);
    let mut out: Vec<HostedAccountDevice> = Vec::new();
    let mut i: usize = 0;
    while i < s.devices.len()
        invariant
            i <= s.devices@.len(),
            old_views == device_views(s.devices@),
            out@.len() == i,
            forall|k: int|
                0 <= k < i ==> (#[trigger] out@[k])@ == (DeviceView {
                    revoked: true,
                    revoked_at: Some(now),
                    current: false,
                    ..old_views[k]
                }),
        decreases s.devices@.len() - i,
    {
        out.push(
            HostedAccountDevice {
                device_id: s.devices[i].device_id,
                device_name: s.devices[i].device_name.clone(),
                trusted: s.devices[i].trusted,
                revoked: true,
                registered_at: s.devices[i].registered_at,
                revoked_at: Some(now),
                current: false,
            },
        );
        i = i + 1;
    }
    s.devices = out;
    assert(device_views(s.devices@) =~= revoked_all(old(s)@, now).devices);
}

/// The devices, each current exactly where it is the identified one.
pub open spec fn marked_current(v: Seq<DeviceView>, current: Option<u128>) -> Seq<DeviceView> {
    Seq::new(v.len(), |i: int| DeviceView { current: current == Some(v[i].device_id), ..v[i] })
}

fn mark_current(v: &mut Vec<HostedAccountDevice>, current: Option<u128>)
    ensures
        device_views(final(v)@) == marked_current(device_views(old(v)@), current),
{
    let ghost old_views = device_views(v@);
    let mut i: usize = 0;
    while i < v.len()
        invariant
            i <= v@.len(),
            v@.len() == old_views.len(),
            forall|k: int|
                0 <= k < i ==> (#[trigger] device_views(v@)[k]) == marked_current(old_views, current)[k],
            forall|k: int| i <= k < v@.len() ==> (#[trigger] device_views(v@)[k]) == old_views[k],
        decreases v@.len() - i,
    {
        let is_current = match current {
            Some(id) => id == v[i].device_id,
            None => false,
        };
        let d = HostedAccountDevice {
            device_id: v[i].device_id,
            device_name: v[i].device_name.clone(),
            trusted: v[i].trusted,
            revoked: v[i].revoked,
            registered_at: v[i].registered_at,
            revoked_at: v[i].revoked_at,
            current: is_current,
        };
        let ghost before = v@;
        v.set(i, d);
        assert forall|k: int| 0 <= k < v@.len() && k != i implies #[trigger] device_views(v@)[k] == device_views(
            before,
        )[k] by {}
        assert(device_views(before)[i as int] == old_views[i as int]);
        assert(device_views(v@)[i as int] == marked_current(old_views, current)[i as int]);
        i = i + 1;
    }
    assert(device_views(v@) =~= marked_current(old_views, current));
}

/// The first `n` elements of `v`, or all of them where there are fewer.
pub open spec fn at_most<T>(v: Seq<T>, n: int) -> Seq<T> {
    if v.len() <= n {
        v
    } else {
        v.take(n)
    }
}

/// The devices the objects describe, in order, skipping those without a
/// parseable identifier.
pub open spec fn listed_devices(es: Seq<DeviceObject>) -> Seq<DeviceView>
    decreases es.len(),
{
    if es.len() == 0 {
        Seq::empty()
    } else {
        let prev = listed_devices(es.drop_last());
        match device_of(es.last()) {
            Some(d) => prev.push(d),
            None => prev,
        }
    }
}

/// The record after a reply's device members: a `devices` array replaces
/// the cached list (its first entries, sorted by identifier), otherwise a
/// single `device` is stored.
pub open spec fn with_devices(s: SnapshotView, body: AccountResponseBody) -> SnapshotView {
    match body.devices {
        Some(es) => SnapshotView {
            devices: marked_current(
                sort_by(listed_devices(at_most(es@, MAX_CACHED_DEVICES as int)), device_key()),
                s.device_id,
            ),
            ..s
        },
        None => match body.device {
            Some(d) => match device_of(d) {
                Some(v) => upserted(s, v),
                None => s,
            },
            None => s,
        },
    }
}

fn apply_devices(s: &mut HostedAccountSnapshot, body: &AccountResponseBody)
    ensures
        final(s)@ == with_devices(old(s)@, *body),
{
    match &body.devices {
        Some(es) => {
            let n: usize = if es.len() <= MAX_CACHED_DEVICES { es.len() } else { MAX_CACHED_DEVICES };
            let ghost taken = at_most(es@, MAX_CACHED_DEVICES as int);
            assert(taken.len() == n);
            let mut listed: Vec<HostedAccountDevice> = Vec::new();
            let mut i: usize = 0;
            while i < n
                invariant
                    i <= n,
                    taken.len() == n,
                    taken == at_most(es@, MAX_CACHED_DEVICES as int),
                    n <= es@.len(),
                    forall|k: int| 0 <= k < n ==> taken[k] == es@[k],
                    device_views(listed@) == listed_devices(taken.subrange(0, i as int)),
                decreases n - i,
            {
                let ghost before = listed@;
                assert(taken.subrange(0, i + 1).drop_last() =~= taken.subrange(0, i as int));
                match device_from_object(&es[i]) {
                    Some(d) => {
                        listed.push(d);
                        assert(device_views(listed@) =~= device_views(before).push(d@));
                    },
                    None => {},
                }
                i = i + 1;
            }
            assert(taken.subrange(0, n as int) =~= taken);
            let mut sorted = sort_devices(listed);
            mark_current(&mut sorted, s.device_id);
            s.devices = sorted;
        },
        None => match &body.device {
            Some(d) => match device_from_object(d) {
                Some(v) => upsert_device(s, v),
                None => {},
            },
            None => {},
        },
    }
}


// ---------------------------------------------------------------------------
// Logbooks.
// ---------------------------------------------------------------------------

/// The logbooks a `logbooks` array lists, in order, skipping entries whose
/// identifier does not parse; no role is known from a listing.
pub open spec fn listed_logbooks(es: Seq<LogbookObject>) -> Seq<LogbookView>
    decreases es.len(),
{
    if es.len() == 0 {
        Seq::empty()
    } else {
        let prev = listed_logbooks(es.drop_last());
        match uuid_member(es.last().logbook_id) {
            Some(id) => prev.push(
                LogbookView {
                    logbook_id: id,
                    name: match opt_view(es.last().name) {
                        Some(n) => n,
                        None => "Logbook"@,
                    },
                    role: None,
                },
            ),
            None => prev,
        }
    }
}

/// The name cached for a logbook, or the placeholder where none is.
pub open spec fn cached_name(cached: Seq<LogbookView>, id: u128) -> Seq<char> {
    let q = first_by(cached, logbook_key(), id);
    if q < cached.len() {
        cached[q].name
    } else {
        "Logbook"@
    }
}

/// `list` after the memberships, in order: a membership sets the role of
/// the first listed logbook of its identifier, or adds the logbook under
/// the name cached for it.
pub open spec fn with_memberships(
    list: Seq<LogbookView>,
    ms: Seq<MembershipObject>,
    cached: Seq<LogbookView>,
) -> Seq<LogbookView>
    decreases ms.len(),
{
    if ms.len() == 0 {
        list
    } else {
        let prev = with_memberships(list, ms.drop_last(), cached);
        let m = ms.last();
        match uuid_member(m.logbook_id) {
            None => prev,
            Some(id) => {
                let p = first_by(prev, logbook_key(), id);
                if p < prev.len() {
                    prev.update(p, LogbookView { role: opt_view(m.role), ..prev[p] })
                } else {
                    prev.push(LogbookView { logbook_id: id, name: cached_name(cached, id), role: opt_view(m.role) })
                }
            },
        }
    }
}

/// The record after a reply's logbook members: where they name any logbook,
/// those logbooks, sorted by identifier, replace the cached ones.
pub open spec fn with_logbooks(s: SnapshotView, body: AccountResponseBody) -> SnapshotView {
    let listed = match body.logbooks {
        Some(es) => listed_logbooks(at_most(es@, MAX_CACHED_LOGBOOKS as int)),
        None => Seq::empty(),
    };
    let merged = match body.memberships {
        Some(ms) => with_memberships(listed, at_most(ms@, MAX_CACHED_LOGBOOKS as int), s.logbooks),
        None => listed,
    };
    if merged.len() > 0 {
        SnapshotView { logbooks: sort_by(merged, logbook_key()), ..s }
    } else {
        s
    }
}

fn list_logbooks(es: &Vec<LogbookObject>) -> (r: Vec<HostedAccountLogbook>)
    ensures
        logbook_views(r@) == listed_logbooks(at_most(es@, MAX_CACHED_LOGBOOKS as int)),
{
    let n: usize = if es.len() <= MAX_CACHED_LOGBOOKS { es.len() } else { MAX_CACHED_LOGBOOKS };
    let ghost taken = at_most(es@, MAX_CACHED_LOGBOOKS as int);
    let mut out: Vec<HostedAccountLogbook> = Vec::new();
    let mut i: usize = 0;
    while i < n
        invariant
            i <= n,
            taken.len() == n,
            n <= es@.len(),
            forall|k: int| 0 <= k < n ==> taken[k] == es@[k],
            logbook_views(out@) == listed_logbooks(taken.subrange(0, i as int)),
        decreases n - i,
    {
        let ghost before = out@;
        assert(taken.subrange(0, i + 1).drop_last() =~= taken.subrange(0, i as int));
        match parse_uuid_member(&es[i].logbook_id) {
            Some(logbook_id) => {
                let name = match &es[i].name {
                    Some(t) => t.clone(),
                    None => str_to_string("Logbook"),
                };
                let l = HostedAccountLogbook { logbook_id, name, role: None };
                out.push(l);
                assert(logbook_views(out@) =~= logbook_views(before).push(l@));
            },
            None => {},
        }
        i = i + 1;
    }
    assert(taken.subrange(0, n as int) =~= taken);
    out
}

fn merge_memberships(list: &mut Vec<HostedAccountLogbook>, ms: &Vec<MembershipObject>, cached: &Vec<HostedAccountLogbook>)
    ensures
        logbook_views(final(list)@) == with_memberships(
            logbook_views(old(list)@),
            at_most(ms@, MAX_CACHED_LOGBOOKS as int),
            logbook_views(cached@),
        ),
{
    let ghost start = logbook_views(list@);
    let n: usize = if ms.len() <= MAX_CACHED_LOGBOOKS { ms.len() } else { MAX_CACHED_LOGBOOKS };
    let ghost taken = at_most(ms@, MAX_CACHED_LOGBOOKS as int);
    let mut i: usize = 0;
    while i < n
        invariant
            i <= n,
            taken.len() == n,
            n <= ms@.len(),
            forall|k: int| 0 <= k < n ==> taken[k] == ms@[k],
            logbook_views(list@) == with_memberships(start, taken.subrange(0, i as int), logbook_views(cached@)),
        decreases n - i,
    {
        let ghost before = logbook_views(list@);
        assert(taken.subrange(0, i + 1).drop_last() =~= taken.subrange(0, i as int));
        assert(taken.subrange(0, i + 1).last() == ms@[i as int]);
        match parse_uuid_member(&ms[i].logbook_id) {
            None => {},
            Some(id) => {
                let role = copy_opt(&ms[i].role);
                let p = find_logbook(list, id);
                if p < list.len() {
                    let l = HostedAccountLogbook { logbook_id: list[p].logbook_id, name: list[p].name.clone(), role };
                    let ghost lb = list@;
                    list.set(p, l);
                    assert(logbook_views(list@) =~= logbook_views(lb).update(p as int, l@));
                } else {
                    let q = find_logbook(cached, id);
                    let name = if q < cached.len() {
                        cached[q].name.clone()
                    } else {
                        str_to_string("Logbook")
                    };
                    let l = HostedAccountLogbook { logbook_id: id, name, role };
                    let ghost lb = list@;
                    list.push(l);
                    assert(logbook_views(list@) =~= logbook_views(lb).push(l@));
                }
            },
        }
        i = i + 1;
    }
    assert(taken.subrange(0, n as int) =~= taken);
}

fn apply_logbooks(s: &mut HostedAccountSnapshot, body: &AccountResponseBody)
    ensures
        final(s)@ == with_logbooks(old(s)@, *body),
{
    let mut logbooks: Vec<HostedAccountLogbook> = match &body.logbooks {
        Some(es) => list_logbooks(es),
        None => Vec::new(),
    };
    assert(body.logbooks is None ==> logbook_views(logbooks@) =~= Seq::<LogbookView>::empty());
    match &body.memberships {
        Some(ms) => merge_memberships(&mut logbooks, ms, &s.logbooks),
        None => {},
    }
    if logbooks.len() > 0 {
        s.logbooks = sort_logbooks(logbooks);
    }
}

// ---------------------------------------------------------------------------
// Sessions.
// ---------------------------------------------------------------------------

/// The record after a `session` object; a non-empty token there is stored
/// under the existing session credential, or under `new_credential`.
pub open spec fn with_session_object(s: SnapshotView, x: SessionObject, new_credential: u128) -> SnapshotView {
    SnapshotView {
        session_id: either(uuid_member(x.session_id), s.session_id),
        session_issued_at: time_member(x.issued_at),
        session_expires_at: time_member(x.expires_at),
        refresh_expires_at: time_member(x.refresh_expires_at),
        device_id: either(uuid_member(x.device_id), s.device_id),
        session_token_credential_id: if non_empty_member(x.token) is Some {
            either(s.session_token_credential_id, Some(new_credential))
        } else {
            s.session_token_credential_id
        },
        ..s
    }
}

/// The record after a non-empty `refresh_token`, stored under the existing
/// refresh credential or under `new_credential`.
pub open spec fn with_refresh(s: SnapshotView, body: AccountResponseBody, new_credential: u128) -> SnapshotView {
    if non_empty_member(body.refresh_token) is Some {
        SnapshotView {
            refresh_token_credential_id: either(s.refresh_token_credential_id, Some(new_credential)),
            ..s
        }
    } else {
        s
    }
}

/// The record after a `device` object of a session reply.
pub open spec fn with_device_object(s: SnapshotView, body: AccountResponseBody) -> SnapshotView {
    match body.device {
        Some(d) => {
            let s1 = SnapshotView { device_id: either(uuid_member(d.device_id), s.device_id), ..s };
            match device_of(d) {
                Some(v) => upserted(s1, v),
                None => s1,
            }
        },
        None => s,
    }
}

/// A signed-in record: verified, and only this device current.
pub open spec fn signed_in(s: SnapshotView) -> SnapshotView {
    SnapshotView {
        connection_state: HostedAccountConnectionState::SignedIn,
        email_verified: true,
        pending_email_verification_for: None,
        devices: match s.device_id {
            Some(id) => marked_current(s.devices, Some(id)),
            None => s.devices,
        },
        ..s
    }
}

/// The record after a reply that established or refreshed a session.
pub open spec fn session_applied(
    s: SnapshotView,
    body: AccountResponseBody,
    new_session_credential: u128,
    new_refresh_credential: u128,
) -> SnapshotView {
    let s1 = match body.account {
        Some(a) => with_account(s, a),
        None => s,
    };
    let s2 = match body.session {
        Some(x) => with_session_object(s1, x, new_session_credential),
        None => s1,
    };
    signed_in(with_logbooks(with_device_object(with_refresh(s2, body, new_refresh_credential), body), body))
}

/// The session token a reply issued.
pub open spec fn issued_session(body: AccountResponseBody) -> Option<Seq<char>> {
    match body.session {
        Some(x) => non_empty_member(x.token),
        None => None,
    }
}

/// The refresh token a reply issued.
pub open spec fn issued_refresh(body: AccountResponseBody) -> Option<Seq<char>> {
    non_empty_member(body.refresh_token)
}

fn apply_session(
    s: &mut HostedAccountSnapshot,
    body: &AccountResponseBody,
    new_session_credential: u128,
    new_refresh_credential: u128,
) -> (r: (Option<String>, Option<String>))
    ensures
        final(s)@ == session_applied(old(s)@, *body, new_session_credential, new_refresh_credential),
        opt_view(r.0) == issued_session(*body),
        opt_view(r.1) == issued_refresh(*body),
{
    if let Some(a) = &body.account {
        apply_account(s, a);
    }
    let mut issued_session: Option<String> = None;
    if let Some(x) = &body.session {
        if let Some(id) = parse_uuid_member(&x.session_id) {
            s.session_id = Some(id);
        }
        s.session_issued_at = parse_time_member(&x.issued_at);
        s.session_expires_at = parse_time_member(&x.expires_at);
        s.refresh_expires_at = parse_time_member(&x.refresh_expires_at);
        if let Some(id) = parse_uuid_member(&x.device_id) {
            s.device_id = Some(id);
        }
        let token = non_empty_text(&x.token);
        if token.is_some() {
            s.session_token_credential_id = match s.session_token_credential_id {
                Some(c) => Some(c),
                None => Some(new_session_credential),
            };
        }
        issued_session = token;
    }
    let issued_refresh = non_empty_text(&body.refresh_token);
    if issued_refresh.is_some() {
        s.refresh_token_credential_id = match s.refresh_token_credential_id {
            Some(c) => Some(c),
            None => Some(new_refresh_credential),
        };
    }
    if let Some(d) = &body.device {
        if let Some(id) = parse_uuid_member(&d.device_id) {
            s.device_id = Some(id);
        }
        if let Some(v) = device_from_object(d) {
            upsert_device(s, v);
        }
    }
    apply_logbooks(s, body);
    s.connection_state = HostedAccountConnectionState::SignedIn;
    s.email_verified = true;
    s.pending_email_verification_for = None;
    if let Some(id) = s.device_id {
        mark_current(&mut s.devices, Some(id));
    }
    (issued_session, issued_refresh)
}


// ---------------------------------------------------------------------------
// Results.
// ---------------------------------------------------------------------------

/// Outcome of one hosted account operation. The session and refresh tokens
/// it issued are held apart from every other field, for the caller to move
/// straight into secure storage under the record's credential identifiers.
#[derive(Debug)]
pub struct HostedAccountResult {
    pub action: String,
    pub outcome: HostedAccountOutcome,
    pub status: u16,
    pub message: String,
    pub error_code: Option<String>,
    pub request_id: Option<String>,
    pub retryable: bool,
    pub user_action_required: bool,
    pub snapshot: HostedAccountSnapshot,
    /// Credential identifiers whose stored secrets must be deleted.
    pub cleared_credential_ids: Vec<u128>,
    /// The secrets issued, readable only through the result's methods.
    pub tokens: IssuedTokens,
}

/// Session and refresh tokens issued by a call.
#[derive(Debug)]
pub struct IssuedTokens {
    session_token: Option<String>,
    refresh_token: Option<String>,
}

impl IssuedTokens {
    pub closed spec fn session_view(&self) -> Option<Seq<char>> {
        opt_view(self.session_token)
    }

    pub closed spec fn refresh_view(&self) -> Option<Seq<char>> {
        opt_view(self.refresh_token)
    }
}

/// Secrets issued by one hosted account call.
#[derive(Debug)]
pub struct HostedAccountIssuedSecrets {
    pub session_token_credential_id: Option<u128>,
    pub session_token: Option<String>,
    pub refresh_token_credential_id: Option<u128>,
    pub refresh_token: Option<String>,
}

impl HostedAccountResult {
    pub open spec fn issued_session_token(&self) -> Option<Seq<char>> {
        self.tokens.session_view()
    }

    pub open spec fn issued_refresh_token(&self) -> Option<Seq<char>> {
        self.tokens.refresh_view()
    }

    /// Session bearer token issued by this call, if any.
    pub fn session_token(&self) -> (r: Option<&str>)
        ensures
            crate::account::opt_str_view(r) == self.issued_session_token(),
    {
        match &self.tokens.session_token {
            Some(t) => Some(t.as_str()),
            None => None,
        }
    }

    /// Refresh token issued by this call, if any.
    pub fn refresh_token(&self) -> (r: Option<&str>)
        ensures
            crate::account::opt_str_view(r) == self.issued_refresh_token(),
    {
        match &self.tokens.refresh_token {
            Some(t) => Some(t.as_str()),
            None => None,
        }
    }

    /// Moves the issued secrets out, so they cannot be copied twice.
    pub fn take_secrets(&mut self) -> (r: HostedAccountIssuedSecrets)
        ensures
            r.session_token_credential_id == old(self).snapshot.session_token_credential_id,
            opt_view(r.session_token) == old(self).issued_session_token(),
            r.refresh_token_credential_id == old(self).snapshot.refresh_token_credential_id,
            opt_view(r.refresh_token) == old(self).issued_refresh_token(),
            final(self).issued_session_token() is None,
            final(self).issued_refresh_token() is None,
            final(self).action@ == old(self).action@,
            final(self).outcome == old(self).outcome,
            final(self).status == old(self).status,
            final(self).message@ == old(self).message@,
            final(self).snapshot@ == old(self).snapshot@,
            final(self).cleared_credential_ids@ == old(self).cleared_credential_ids@,
    {
        let session_token = self.tokens.session_token.take();
        let refresh_token = self.tokens.refresh_token.take();
        HostedAccountIssuedSecrets {
            session_token_credential_id: self.snapshot.session_token_credential_id,
            session_token,
            refresh_token_credential_id: self.snapshot.refresh_token_credential_id,
            refresh_token,
        }
    }
}

/// The record as a finished call leaves it: what was done, how it ended.
pub open spec fn finished(
    s: SnapshotView,
    action: HostedAccountAction,
    outcome: HostedAccountOutcome,
    message: Seq<char>,
    error_code: Option<Seq<char>>,
    request_id: Option<Seq<char>>,
    now: i64,
) -> SnapshotView {
    SnapshotView {
        schema_version: HOSTED_ACCOUNT_FILE_VERSION,
        last_action: Some(action_name(action)),
        last_outcome: Some(outcome),
        last_error_code: error_code,
        last_message: Some(message),
        last_request_id: request_id,
        last_updated_at: Some(now),
        ..s
    }
}

/// What a call returns: the record before `finished`, the credentials to
/// clear and the secrets issued.
pub struct ReplyEffect {
    pub snapshot: SnapshotView,
    pub cleared: Seq<u128>,
    pub message: Seq<char>,
    pub session_token: Option<Seq<char>>,
    pub refresh_token: Option<Seq<char>>,
}

/// `r` is the result of `action` ending with `outcome`.
pub open spec fn result_is(
    r: HostedAccountResult,
    action: HostedAccountAction,
    status: u16,
    outcome: HostedAccountOutcome,
    error_code: Option<Seq<char>>,
    request_id: Option<Seq<char>>,
    e: ReplyEffect,
    now: i64,
) -> bool {
    &&& r.action@ == action_name(action)
    &&& r.outcome == outcome
    &&& r.status == status
    &&& r.message@ == e.message
    &&& opt_view(r.error_code) == error_code
    &&& opt_view(r.request_id) == request_id
    &&& r.retryable == outcome_retryable(outcome)
    &&& r.user_action_required == outcome_needs_user(outcome)
    &&& r.snapshot@ == finished(e.snapshot, action, outcome, e.message, error_code, request_id, now)
    &&& r.cleared_credential_ids@ == e.cleared
    &&& r.issued_session_token() == e.session_token
    &&& r.issued_refresh_token() == e.refresh_token
}

fn finish_result(
    action: &HostedAccountAction,
    status: u16,
    outcome: HostedAccountOutcome,
    message: String,
    error_code: Option<String>,
    request_id: Option<String>,
    snapshot: HostedAccountSnapshot,
    cleared_credential_ids: Vec<u128>,
    session_token: Option<String>,
    refresh_token: Option<String>,
    now: i64,
) -> (r: HostedAccountResult)
    ensures
        result_is(
            r,
            *action,
            status,
            outcome,
            opt_view(error_code),
            opt_view(request_id),
            ReplyEffect {
                snapshot: snapshot@,
                cleared: cleared_credential_ids@,
                message: message@,
                session_token: opt_view(session_token),
                refresh_token: opt_view(refresh_token),
            },
            now,
        ),
{
    let mut snapshot = snapshot;
    snapshot.schema_version = HOSTED_ACCOUNT_FILE_VERSION;
    snapshot.last_action = Some(str_to_string(action.name()));
    snapshot.last_outcome = Some(outcome);
    snapshot.last_error_code = copy_opt(&error_code);
    snapshot.last_message = Some(message.clone());
    snapshot.last_request_id = copy_opt(&request_id);
    snapshot.last_updated_at = Some(now);
    HostedAccountResult {
        action: str_to_string(action.name()),
        outcome,
        status,
        message,
        error_code,
        request_id,
        retryable: outcome.is_retryable(),
        user_action_required: outcome.requires_user_action(),
        snapshot,
        cleared_credential_ids,
        tokens: IssuedTokens { session_token, refresh_token },
    }
}

/// The identifier of a reply: the body's `request_id`, else the plan's.
pub open spec fn reply_request_id(body: AccountResponseBody, plan_request_id: u128) -> Option<Seq<char>> {
    either(opt_view(body.request_id), Some(uuid_hyphenated_text(plan_request_id)))
}

fn request_id_of(body: &AccountResponseBody, plan: &HostedAccountRequestPlan) -> (r: Option<String>)
    ensures
        opt_view(r) == reply_request_id(*body, plan.request_id),
{
    match &body.request_id {
        Some(t) => Some(t.clone()),
        None => Some(crate::ids::uuid_text(plan.request_id)),
    }
}

/// The email as `normalize_email` accepts it.
pub open spec fn normalized_email(e: Seq<char>) -> Option<Seq<char>> {
    if email_valid(email_candidate(e)) {
        Some(email_candidate(e))
    } else {
        None
    }
}

fn normalized_email_of(e: &String) -> (r: Option<String>)
    ensures
        opt_view(r) == normalized_email(e@),
{
    match normalize_email(e.as_str()) {
        Ok(n) => Some(n),
        Err(_) => None,
    }
}

pub open spec fn no_secrets(snapshot: SnapshotView, cleared: Seq<u128>, message: Seq<char>) -> ReplyEffect {
    ReplyEffect { snapshot, cleared, message, session_token: None, refresh_token: None }
}

/// What an accepted reply to `action` does.
pub open spec fn accepted_effect(
    action: HostedAccountAction,
    body: AccountResponseBody,
    s: SnapshotView,
    now: i64,
    new_session_credential: u128,
    new_refresh_credential: u128,
) -> ReplyEffect {
    match action {
        HostedAccountAction::Register { email, .. } => {
            let normalized = either(
                match body.account {
                    Some(a) => opt_view(a.email),
                    None => None,
                },
                normalized_email(email@),
            );
            no_secrets(
                SnapshotView {
                    pending_email_verification_for: normalized,
                    email: normalized,
                    email_verified: false,
                    connection_state: HostedAccountConnectionState::PendingEmailVerification,
                    ..s
                },
                Seq::empty(),
                "Registration accepted. Check the account email for the verification token."@,
            )
        },
        HostedAccountAction::VerifyEmail { .. } => {
            let s1 = match body.account {
                Some(a) => with_account(s, a),
                None => s,
            };
            no_secrets(
                SnapshotView {
                    email_verified: true,
                    pending_email_verification_for: None,
                    connection_state: if s1.connection_state == HostedAccountConnectionState::SignedIn {
                        HostedAccountConnectionState::SignedIn
                    } else {
                        HostedAccountConnectionState::SignedOut
                    },
                    ..s1
                },
                Seq::empty(),
                "Email verified. Sign in to start a hosted session."@,
            )
        },
        HostedAccountAction::RecoveryStart { email } => no_secrets(
            SnapshotView { pending_recovery_for: normalized_email(email@), ..s },
            Seq::empty(),
            "If the account exists and is verified, a recovery token was sent to its email."@,
        ),
        HostedAccountAction::RecoveryComplete { .. }
        | HostedAccountAction::Login { .. }
        | HostedAccountAction::SessionRotate => ReplyEffect {
            snapshot: SnapshotView {
                pending_recovery_for: None,
                ..session_applied(s, body, new_session_credential, new_refresh_credential)
            },
            cleared: Seq::empty(),
            message: if action is SessionRotate {
                "Hosted session rotated."@
            } else {
                "Signed in to the hosted account."@
            },
            session_token: issued_session(body),
            refresh_token: issued_refresh(body),
        },
        HostedAccountAction::Session => ReplyEffect {
            snapshot: session_applied(s, body, new_session_credential, new_refresh_credential),
            cleared: Seq::empty(),
            message: "Hosted session refreshed."@,
            session_token: issued_session(body),
            refresh_token: issued_refresh(body),
        },
        HostedAccountAction::Logout => no_secrets(
            SnapshotView { connection_state: HostedAccountConnectionState::SignedOut, ..cleared_session(s) },
            credential_ids(s),
            "Signed out of the hosted account."@,
        ),
        HostedAccountAction::LogoutAll => no_secrets(
            SnapshotView { connection_state: HostedAccountConnectionState::SignedOut, ..cleared_session(s) },
            credential_ids(s),
            "Signed out of "@ + decimal_text(
                match body.revoked_sessions {
                    Some(n) => n as nat,
                    None => 0,
                },
            ) + " hosted sessions."@,
        ),
        HostedAccountAction::AccountDelete => no_secrets(
            SnapshotView {
                pending_email_verification_for: None,
                pending_recovery_for: None,
                connection_state: HostedAccountConnectionState::SignedOut,
                ..cleared_identity(cleared_session(s))
            },
            credential_ids(s),
            "Hosted account deletion accepted."@,
        ),
        HostedAccountAction::DeviceList | HostedAccountAction::DeviceRegister { .. } => {
            let s1 = with_devices(s, body);
            no_secrets(s1, Seq::empty(), decimal_text(s1.devices.len()) + " hosted devices known."@)
        },
        HostedAccountAction::DeviceRevoke { device_id } => {
            let s1 = revoked_one(with_devices(s, body), device_id, now);
            if s1.device_id == Some(device_id) {
                no_secrets(
                    SnapshotView {
                        connection_state: HostedAccountConnectionState::DeviceRevoked,
                        ..cleared_session(s1)
                    },
                    credential_ids(s1),
                    "This device was revoked and the local session was cleared."@,
                )
            } else {
                no_secrets(s1, Seq::empty(), "Hosted device "@ + uuid_hyphenated_text(device_id) + " revoked."@)
            }
        },
        HostedAccountAction::DeviceRevokeAll => {
            let s1 = revoked_all(s, now);
            no_secrets(
                SnapshotView { connection_state: HostedAccountConnectionState::SignedOut, ..cleared_session(s1) },
                credential_ids(s1),
                "Revoked "@ + decimal_text(
                    match body.revoked_devices {
                        Some(n) => n as nat,
                        None => 0,
                    },
                ) + " hosted devices and signed out."@,
            )
        },
    }
}

/// The message of a refused reply: the body's `error`, else one naming the status.
pub open spec fn refusal_message(body: AccountResponseBody, status: u16) -> Seq<char> {
    match opt_view(body.error) {
        Some(m) => m,
        None => "hosted account request failed with status "@ + decimal_text(status as nat),
    }
}

/// What a refused reply does: an authentication refusal forgets the
/// session (the device is revoked where the code says so), an unverified
/// email goes back to awaiting verification.
pub open spec fn refused_effect(body: AccountResponseBody, status: u16, s: SnapshotView) -> ReplyEffect {
    let code = opt_view(body.code);
    let outcome = classify_spec(code, status);
    let message = refusal_message(body, status);
    if outcome == HostedAccountOutcome::AuthenticationRequired {
        no_secrets(
            SnapshotView {
                connection_state: if code == Some("device_revoked"@) {
                    HostedAccountConnectionState::DeviceRevoked
                } else {
                    HostedAccountConnectionState::SessionExpired
                },
                ..cleared_session(s)
            },
            credential_ids(s),
            message,
        )
    } else if outcome == HostedAccountOutcome::EmailVerificationRequired {
        no_secrets(
            SnapshotView {
                email_verified: false,
                connection_state: HostedAccountConnectionState::PendingEmailVerification,
                ..s
            },
            Seq::empty(),
            message,
        )
    } else {
        no_secrets(s, Seq::empty(), message)
    }
}

/// `r` is what a reply with `status` and `body` to `action` gives, on a
/// record `s`, new credentials taking the given identifiers.
pub open spec fn reply_result(
    r: HostedAccountResult,
    action: HostedAccountAction,
    plan_request_id: u128,
    status: u16,
    body: AccountResponseBody,
    s: SnapshotView,
    now: i64,
    new_session_credential: u128,
    new_refresh_credential: u128,
) -> bool {
    if 200 <= status < 300 {
        result_is(
            r,
            action,
            status,
            HostedAccountOutcome::Accepted,
            None,
            reply_request_id(body, plan_request_id),
            accepted_effect(action, body, s, now, new_session_credential, new_refresh_credential),
            now,
        )
    } else {
        result_is(
            r,
            action,
            status,
            classify_spec(opt_view(body.code), status),
            opt_view(body.code),
            reply_request_id(body, plan_request_id),
            refused_effect(body, status, s),
            now,
        )
    }
}


fn accepted_result(
    action: &HostedAccountAction,
    plan: &HostedAccountRequestPlan,
    status: u16,
    body: &AccountResponseBody,
    snapshot: HostedAccountSnapshot,
    now: i64,
    new_session_credential: u128,
    new_refresh_credential: u128,
) -> (r: HostedAccountResult)
    ensures
        result_is(
            r,
            *action,
            status,
            HostedAccountOutcome::Accepted,
            None,
            reply_request_id(*body, plan.request_id),
            accepted_effect(*action, *body, snapshot@, now, new_session_credential, new_refresh_credential),
            now,
        ),
{
    let ghost s0 = snapshot@;
    let mut snapshot = snapshot;
    let mut cleared: Vec<u128> = Vec::new();
    let mut session_token: Option<String> = None;
    let mut refresh_token: Option<String> = None;
    let message: String;
    match action {
        HostedAccountAction::Register { email, .. } => {
            let from_body = match &body.account {
                Some(a) => copy_opt(&a.email),
                None => None,
            };
            let normalized = match from_body {
                Some(e) => Some(e),
                None => normalized_email_of(email),
            };
            snapshot.pending_email_verification_for = copy_opt(&normalized);
            snapshot.email = normalized;
            snapshot.email_verified = false;
            snapshot.connection_state = HostedAccountConnectionState::PendingEmailVerification;
            message = str_to_string("Registration accepted. Check the account email for the verification token.");
        },
        HostedAccountAction::VerifyEmail { .. } => {
            if let Some(a) = &body.account {
                apply_account(&mut snapshot, a);
            }
            snapshot.email_verified = true;
            snapshot.pending_email_verification_for = None;
            if !snapshot.connection_state.is_signed_in() {
                snapshot.connection_state = HostedAccountConnectionState::SignedOut;
            }
            message = str_to_string("Email verified. Sign in to start a hosted session.");
        },
        HostedAccountAction::RecoveryStart { email } => {
            snapshot.pending_recovery_for = normalized_email_of(email);
            message = str_to_string(
                "If the account exists and is verified, a recovery token was sent to its email.",
            );
        },
        HostedAccountAction::RecoveryComplete { .. }
        | HostedAccountAction::Login { .. }
        | HostedAccountAction::SessionRotate => {
            let (issued_session, issued_refresh) = apply_session(
                &mut snapshot,
                body,
                new_session_credential,
                new_refresh_credential,
            );
            session_token = issued_session;
            refresh_token = issued_refresh;
            snapshot.pending_recovery_for = None;
            message = match action {
                HostedAccountAction::SessionRotate => str_to_string("Hosted session rotated."),
                _ => str_to_string("Signed in to the hosted account."),
            };
        },
        HostedAccountAction::Session => {
            let (issued_session, issued_refresh) = apply_session(
                &mut snapshot,
                body,
                new_session_credential,
                new_refresh_credential,
            );
            session_token = issued_session;
            refresh_token = issued_refresh;
            message = str_to_string("Hosted session refreshed.");
        },
        HostedAccountAction::Logout | HostedAccountAction::LogoutAll => {
            push_credentials(&mut cleared, &snapshot);
            clear_session(&mut snapshot);
            snapshot.connection_state = HostedAccountConnectionState::SignedOut;
            message = match action {
                HostedAccountAction::LogoutAll => {
                    let count: u64 = match body.revoked_sessions {
                        Some(n) => n,
                        None => 0,
                    };
                    let mut m = str_to_string("Signed out of ");
                    append_str(&mut m, decimal_string(count).as_str());
                    append_str(&mut m, " hosted sessions.");
                    m
                },
                _ => str_to_string("Signed out of the hosted account."),
            };
        },
        HostedAccountAction::AccountDelete => {
            push_credentials(&mut cleared, &snapshot);
            clear_session(&mut snapshot);
            clear_identity(&mut snapshot);
            snapshot.pending_email_verification_for = None;
            snapshot.pending_recovery_for = None;
            snapshot.connection_state = HostedAccountConnectionState::SignedOut;
            message = str_to_string("Hosted account deletion accepted.");
        },
        HostedAccountAction::DeviceList | HostedAccountAction::DeviceRegister { .. } => {
            apply_devices(&mut snapshot, body);
            let count: u64 = snapshot.devices.len() as u64;
            let mut m = decimal_string(count);
            append_str(&mut m, " hosted devices known.");
            message = m;
        },
        HostedAccountAction::DeviceRevoke { device_id } => {
            apply_devices(&mut snapshot, body);
            mark_device_revoked(&mut snapshot, *device_id, now);
            if snapshot.device_id == Some(*device_id) {
                push_credentials(&mut cleared, &snapshot);
                clear_session(&mut snapshot);
                snapshot.connection_state = HostedAccountConnectionState::DeviceRevoked;
                message = str_to_string("This device was revoked and the local session was cleared.");
            } else {
                let mut m = str_to_string("Hosted device ");
                append_str(&mut m, crate::ids::uuid_text(*device_id).as_str());
                append_str(&mut m, " revoked.");
                message = m;
            }
        },
        HostedAccountAction::DeviceRevokeAll => {
            let count: u64 = match body.revoked_devices {
                Some(n) => n,
                None => 0,
            };
            revoke_all_devices(&mut snapshot, now);
            push_credentials(&mut cleared, &snapshot);
            clear_session(&mut snapshot);
            snapshot.connection_state = HostedAccountConnectionState::SignedOut;
            let mut m = str_to_string("Revoked ");
            append_str(&mut m, decimal_string(count).as_str());
            append_str(&mut m, " hosted devices and signed out.");
            message = m;
        },
    }
    assert(cleared@ =~= accepted_effect(*action, *body, s0, now, new_session_credential, new_refresh_credential).cleared);
    let request_id = request_id_of(body, plan);
    finish_result(
        action,
        status,
        HostedAccountOutcome::Accepted,
        message,
        None,
        request_id,
        snapshot,
        cleared,
        session_token,
        refresh_token,
        now,
    )
}

fn refused_result(
    action: &HostedAccountAction,
    plan: &HostedAccountRequestPlan,
    status: u16,
    body: &AccountResponseBody,
    snapshot: HostedAccountSnapshot,
    now: i64,
) -> (r: HostedAccountResult)
    ensures
        result_is(
            r,
            *action,
            status,
            classify_spec(opt_view(body.code), status),
            opt_view(body.code),
            reply_request_id(*body, plan.request_id),
            refused_effect(*body, status, snapshot@),
            now,
        ),
{
    let ghost s0 = snapshot@;
    let error_code = copy_opt(&body.code);
    let message = match &body.error {
        Some(m) => m.clone(),
        None => {
            let mut m = str_to_string("hosted account request failed with status ");
            append_str(&mut m, decimal_string(status as u64).as_str());
            m
        },
    };
    let outcome = match &error_code {
        Some(c) => crate::account::classify_hosted_account_error(Some(c.as_str()), status),
        None => crate::account::classify_hosted_account_error(None, status),
    };
    let mut snapshot = snapshot;
    let mut cleared: Vec<u128> = Vec::new();
    match outcome {
        HostedAccountOutcome::AuthenticationRequired => {
            push_credentials(&mut cleared, &snapshot);
            clear_session(&mut snapshot);
            let revoked = match &error_code {
                Some(c) => crate::text::str_eq(c.as_str(), "device_revoked"),
                None => false,
            };
            proof {
                reveal_strlit("device_revoked");
            }
            snapshot.connection_state = if revoked {
                HostedAccountConnectionState::DeviceRevoked
            } else {
                HostedAccountConnectionState::SessionExpired
            };
        },
        HostedAccountOutcome::EmailVerificationRequired => {
            snapshot.email_verified = false;
            snapshot.connection_state = HostedAccountConnectionState::PendingEmailVerification;
        },
        _ => {},
    }
    assert(cleared@ =~= refused_effect(*body, status, s0).cleared);
    let request_id = request_id_of(body, plan);
    finish_result(action, status, outcome, message, error_code, request_id, snapshot, cleared, None, None, now)
}

/// Interprets a hosted response and returns the next durable record, new
/// credentials taking the identifiers given.
pub fn apply_hosted_account_response_with_ids(
    action: &HostedAccountAction,
    plan: &HostedAccountRequestPlan,
    response: &HostedAccountHttpResponse,
    snapshot: HostedAccountSnapshot,
    now: i64,
    new_session_credential: u128,
    new_refresh_credential: u128,
) -> (r: HostedAccountResult)
    ensures
        reply_result(
            r,
            *action,
            plan.request_id,
            response.status,
            response.body,
            snapshot@,
            now,
            new_session_credential,
            new_refresh_credential,
        ),
{
    if 200 <= response.status && response.status < 300 {
        accepted_result(
            action,
            plan,
            response.status,
            &response.body,
            snapshot,
            now,
            new_session_credential,
            new_refresh_credential,
        )
    } else {
        refused_result(action, plan, response.status, &response.body, snapshot, now)
    }
}

/// Interprets a hosted response and returns the next durable record; new
/// credentials get fresh random identifiers.
pub fn apply_hosted_account_response(
    action: &HostedAccountAction,
    plan: &HostedAccountRequestPlan,
    response: &HostedAccountHttpResponse,
    snapshot: HostedAccountSnapshot,
    now: i64,
) -> (r: HostedAccountResult)
    ensures
        exists|new_session_credential: u128, new_refresh_credential: u128|
            #[trigger] reply_result(
                r,
                *action,
                plan.request_id,
                response.status,
                response.body,
                snapshot@,
                now,
                new_session_credential,
                new_refresh_credential,
            ),
{
    let new_session_credential = crate::ids::new_uuid();
    let new_refresh_credential = crate::ids::new_uuid();
    apply_hosted_account_response_with_ids(
        action,
        plan,
        response,
        snapshot,
        now,
        new_session_credential,
        new_refresh_credential,
    )
}

/// Classifies a transport-level failure without contacting the hosted server.
pub fn hosted_account_transport_failure(
    action: &HostedAccountAction,
    plan: &HostedAccountRequestPlan,
    message: &str,
    snapshot: HostedAccountSnapshot,
    now: i64,
) -> (r: HostedAccountResult)
    ensures
        result_is(
            r,
            *action,
            0,
            HostedAccountOutcome::TransientFailure,
            Some("transport_failure"@),
            Some(uuid_hyphenated_text(plan.request_id)),
            no_secrets(snapshot@, Seq::empty(), "hosted account transport failure: "@ + message@),
            now,
        ),
{
    let mut m = str_to_string("hosted account transport failure: ");
    append_str(&mut m, message);
    let cleared: Vec<u128> = Vec::new();
    assert(cleared@ =~= Seq::<u128>::empty());
    finish_result(
        action,
        0,
        HostedAccountOutcome::TransientFailure,
        m,
        Some(str_to_string("transport_failure")),
        Some(crate::ids::uuid_text(plan.request_id)),
        snapshot,
        cleared,
        None,
        None,
        now,
    )
}


/// A hosted refusal that asks for authentication forgets the stored
/// session: both credential identifiers leave the record and are listed for
/// deletion, no secret is issued, and the user must act.
pub proof fn law_authentication_refusal_forgets_session(
    r: HostedAccountResult,
    action: HostedAccountAction,
    plan_request_id: u128,
    status: u16,
    body: AccountResponseBody,
    s: SnapshotView,
    now: i64,
    new_session_credential: u128,
    new_refresh_credential: u128,
)
    requires
        reply_result(r, action, plan_request_id, status, body, s, now, new_session_credential, new_refresh_credential),
        !(200 <= status < 300),
        classify_spec(opt_view(body.code), status) == HostedAccountOutcome::AuthenticationRequired,
    ensures
        r.snapshot@.session_token_credential_id is None,
        r.snapshot@.refresh_token_credential_id is None,
        r.cleared_credential_ids@ == credential_ids(s),
        r.issued_session_token() is None && r.issued_refresh_token() is None,
        r.user_action_required,
        !r.retryable,
{
}

/// Signing out, or deleting the account, forgets the stored session and
/// lists its credentials for deletion.
pub proof fn law_sign_out_forgets_session(
    r: HostedAccountResult,
    action: HostedAccountAction,
    plan_request_id: u128,
    status: u16,
    body: AccountResponseBody,
    s: SnapshotView,
    now: i64,
    new_session_credential: u128,
    new_refresh_credential: u128,
)
    requires
        reply_result(r, action, plan_request_id, status, body, s, now, new_session_credential, new_refresh_credential),
        200 <= status < 300,
        action is Logout || action is LogoutAll || action is AccountDelete || action is DeviceRevokeAll,
    ensures
        r.snapshot@.session_token_credential_id is None,
        r.snapshot@.refresh_token_credential_id is None,
        r.snapshot@.connection_state == HostedAccountConnectionState::SignedOut,
        r.cleared_credential_ids@ == credential_ids(s),
        r.issued_session_token() is None && r.issued_refresh_token() is None,
{
}

/// A transport failure stays retryable and leaves the session as it was.
pub proof fn law_transport_failure_keeps_session(
    r: HostedAccountResult,
    action: HostedAccountAction,
    plan_request_id: u128,
    message: Seq<char>,
    s: SnapshotView,
    now: i64,
)
    requires
        result_is(
            r,
            action,
            0,
            HostedAccountOutcome::TransientFailure,
            Some("transport_failure"@),
            Some(uuid_hyphenated_text(plan_request_id)),
            no_secrets(s, Seq::empty(), "hosted account transport failure: "@ + message),
            now,
        ),
    ensures
        r.retryable,
        !r.user_action_required,
        r.snapshot@.connection_state == s.connection_state,
        r.snapshot@.session_token_credential_id == s.session_token_credential_id,
        r.snapshot@.refresh_token_credential_id == s.refresh_token_credential_id,
        r.cleared_credential_ids@.len() == 0,
{
}

/// Only a reply that issued a session token leaves one to store, and only
/// under the record's session credential.
pub proof fn law_issued_tokens_have_credentials(
    r: HostedAccountResult,
    action: HostedAccountAction,
    plan_request_id: u128,
    status: u16,
    body: AccountResponseBody,
    s: SnapshotView,
    now: i64,
    new_session_credential: u128,
    new_refresh_credential: u128,
)
    requires
        reply_result(r, action, plan_request_id, status, body, s, now, new_session_credential, new_refresh_credential),
    ensures
        r.issued_session_token() is Some ==> r.snapshot@.session_token_credential_id is Some,
        r.issued_refresh_token() is Some ==> r.snapshot@.refresh_token_credential_id is Some,
{
    if 200 <= status < 300 {
        match action {
            HostedAccountAction::RecoveryComplete { .. }
            | HostedAccountAction::Login { .. }
            | HostedAccountAction::SessionRotate
            | HostedAccountAction::Session => {
                lemma_session_applied_keeps_credentials(s, body, new_session_credential, new_refresh_credential);
            },
            _ => {},
        }
    }
}

proof fn lemma_upserted_keeps_credentials(s: SnapshotView, d: DeviceView)
    ensures
        upserted(s, d).session_token_credential_id == s.session_token_credential_id,
        upserted(s, d).refresh_token_credential_id == s.refresh_token_credential_id,
{
}

proof fn lemma_session_applied_keeps_credentials(
    s: SnapshotView,
    body: AccountResponseBody,
    new_session_credential: u128,
    new_refresh_credential: u128,
)
    ensures
        issued_session(body) is Some ==> session_applied(
            s,
            body,
            new_session_credential,
            new_refresh_credential,
        ).session_token_credential_id is Some,
        issued_refresh(body) is Some ==> session_applied(
            s,
            body,
            new_session_credential,
            new_refresh_credential,
        ).refresh_token_credential_id is Some,
{
    let s1 = match body.account {
        Some(a) => with_account(s, a),
        None => s,
    };
    let s2 = match body.session {
        Some(x) => with_session_object(s1, x, new_session_credential),
        None => s1,
    };
    let s3 = with_refresh(s2, body, new_refresh_credential);
    let s4 = with_device_object(s3, body);
    if let Some(d) = body.device {
        let s4a = SnapshotView { device_id: either(uuid_member(d.device_id), s3.device_id), ..s3 };
        if let Some(v) = device_of(d) {
            lemma_upserted_keeps_credentials(s4a, v);
        }
    }
    assert(s4.session_token_credential_id == s3.session_token_credential_id);
}

} // verus!
