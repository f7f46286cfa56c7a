//! Cloud sync: the request and response models, device pairing and request
//! authorization, and the decisions taken while events are ingested by a
//! pull or a push.
use vstd::prelude::*;
use crate::events::{copy_opt, event_views, opt_view, EventEnvelope, EventView};
use crate::ids::uuid_hyphenated_text;
use crate::replication::{
    copy_strings, events_in_logbook, head_of, is_missing_tail, missing_after, ReplicationError,
    ReplicationStatus,
};
use crate::text::{append_str, chars_of, str_to_string, views_of};

verus! {

#[derive(Debug, Clone, Copy, PartialEq, Eq, Structural)]
pub enum CloudLoginMode {
    PairingCode,
    SyncToken,
}

#[derive(Debug, Clone, Copy, PartialEq, Eq, Structural)]
pub enum CloudConnectionState {
    Disconnected,
    Connected,
    Unauthorized,
    Error,
}

#[derive(Debug, Clone, Copy, PartialEq, Eq, Structural)]
pub enum CloudServiceMode {
    Hosted,
    SelfHosted,
}

#[derive(Debug, Clone, Copy, PartialEq, Eq, Structural)]
pub enum DiagnosticReportUploadType {
    Basic,
    Sync,
}

#[derive(Debug, Clone, Copy, PartialEq, Eq, Structural)]
pub enum DiagnosticReportStatus {
    Submitted,
    Triaged,
    Investigating,
    WaitingOnUser,
    Fixed,
    Closed,
}

/// A client's cloud sync settings.
#[derive(Debug)]
pub struct CloudSyncConfig {
    pub enable_cloud_sync: bool,
    pub sync_server_url: String,
    pub account_login_mode: CloudLoginMode,
    pub device_name: String,
    pub prefer_lan_sync: bool,
    pub auto_push_enabled: bool,
    pub auto_pull_enabled: bool,
    pub sync_interval_seconds: u64,
}

impl Default for CloudSyncConfig {
    /// Cloud sync off, pointing at the local development server, pairing by
    /// code, LAN preferred, no automatic push or pull, every five minutes.
    fn default() -> (r: Self)
        ensures
            !r.enable_cloud_sync,
            r.sync_server_url@ == "http://127.0.0.1:9740"@,
            r.account_login_mode == CloudLoginMode::PairingCode,
            r.device_name@ == "KE8YGW Logger Device"@,
            r.prefer_lan_sync,
            !r.auto_push_enabled && !r.auto_pull_enabled,
            r.sync_interval_seconds == 300,
    {
        CloudSyncConfig {
            enable_cloud_sync: false,
            sync_server_url: str_to_string("http://127.0.0.1:9740"),
            account_login_mode: CloudLoginMode::PairingCode,
            device_name: str_to_string("KE8YGW Logger Device"),
            prefer_lan_sync: true,
            auto_push_enabled: false,
            auto_pull_enabled: false,
            sync_interval_seconds: 300,
        }
    }
}

/// The sync server's settings.
#[derive(Debug)]
pub struct CloudServerConfig {
    pub mode: CloudServiceMode,
    pub public_url: String,
    pub pairing_code: String,
}

impl Default for CloudServerConfig {
    /// Self-hosted on the local development address with the development
    /// pairing code.
    fn default() -> (r: Self)
        ensures
            r.mode == CloudServiceMode::SelfHosted,
            r.public_url@ == "http://127.0.0.1:9740"@,
            r.pairing_code@ == "local-dev-pairing-code"@,
    {
        CloudServerConfig {
            mode: CloudServiceMode::SelfHosted,
            public_url: str_to_string("http://127.0.0.1:9740"),
            pairing_code: str_to_string("local-dev-pairing-code"),
        }
    }
}

/// What `/health` answers.
#[derive(Debug)]
pub struct CloudHealthResponse {
    pub ok: bool,
    pub service: String,
    pub version: String,
    pub mode: CloudServiceMode,
}

/// The health of a sync server running `version` in `mode`.
pub fn cloud_health(mode: CloudServiceMode, version: &str) -> (r: CloudHealthResponse)
    ensures
        r.ok,
        r.service@ == "ke8ygw-sync-server"@,
        r.version@ == version@,
        r.mode == mode,
{
    CloudHealthResponse { ok: true, service: str_to_string("ke8ygw-sync-server"), version: str_to_string(version), mode }
}

/// The sync token a request carries.
#[derive(Debug)]
pub struct CloudAuth {
    pub sync_token: String,
}

#[derive(Debug)]
pub struct ListLogbooksRequest {
    pub protocol_version: u16,
}

/// What a push did.
#[derive(Debug)]
pub struct CloudPushEventsResponse {
    pub status: ReplicationStatus,
    pub accepted_count: usize,
    pub ignored_duplicate_count: usize,
    pub rejected_count: usize,
    pub server_head_hash: Option<String>,
    pub errors: Vec<String>,
}

/// A diagnostic report upload.
#[derive(Debug)]
pub struct DiagnosticReportUploadRequest {
    pub auth: CloudAuth,
    pub report_type: DiagnosticReportUploadType,
    pub app_version: String,
    pub core_version: String,
    pub platform: String,
    pub plugin_list: Vec<String>,
    pub sync_state_summary: Option<String>,
    pub short_description: String,
    pub bundle_hash: String,
    pub bundle_bytes: Vec<u8>,
}

#[derive(Debug)]
pub struct DiagnosticReportUploadResponse {
    pub report_id: String,
    pub status: DiagnosticReportStatus,
    pub received_at: i64,
    pub bundle_hash: String,
}

#[derive(Debug)]
pub struct DiagnosticReportMetadata {
    pub report_id: String,
    pub user_id: String,
    pub account_id: String,
    pub app_version: String,
    pub core_version: String,
    pub platform: String,
    pub created_at: i64,
    pub report_type: DiagnosticReportUploadType,
    pub plugin_list: Vec<String>,
    pub sync_state_summary: Option<String>,
    pub short_description: String,
    pub bundle_hash: String,
    pub status: DiagnosticReportStatus,
}

pub struct ReportMetadataView {
    pub report_id: Seq<char>,
    pub user_id: Seq<char>,
    pub account_id: Seq<char>,
    pub app_version: Seq<char>,
    pub core_version: Seq<char>,
    pub platform: Seq<char>,
    pub created_at: i64,
    pub report_type: DiagnosticReportUploadType,
    pub plugin_list: Seq<Seq<char>>,
    pub sync_state_summary: Option<Seq<char>>,
    pub short_description: Seq<char>,
    pub bundle_hash: Seq<char>,
    pub status: DiagnosticReportStatus,
}

impl View for DiagnosticReportMetadata {
    type V = ReportMetadataView;

    open spec fn view(&self) -> ReportMetadataView {
        ReportMetadataView {
            report_id: self.report_id@,
            user_id: self.user_id@,
            account_id: self.account_id@,
            app_version: self.app_version@,
            core_version: self.core_version@,
            platform: self.platform@,
            created_at: self.created_at,
            report_type: self.report_type,
            plugin_list: views_of(self.plugin_list@),
            sync_state_summary: opt_view(self.sync_state_summary),
            short_description: self.short_description@,
            bundle_hash: self.bundle_hash@,
            status: self.status,
        }
    }
}

impl DiagnosticReportMetadata {
    pub fn copy(&self) -> (r: Self)
        ensures
            r@ == self@,
    {
        DiagnosticReportMetadata {
            report_id: self.report_id.clone(),
            user_id: self.user_id.clone(),
            account_id: self.account_id.clone(),
            app_version: self.app_version.clone(),
            core_version: self.core_version.clone(),
            platform: self.platform.clone(),
            created_at: self.created_at,
            report_type: self.report_type,
            plugin_list: copy_strings(&self.plugin_list),
            sync_state_summary: copy_opt(&self.sync_state_summary),
            short_description: self.short_description.clone(),
            bundle_hash: self.bundle_hash.clone(),
            status: self.status,
        }
    }
}

/// Why a cloud request failed.
#[derive(Debug, Clone, PartialEq, Eq)]
pub enum CloudSyncError {
    Unauthenticated,
    UnauthorizedLogbook(u128),
    PairingRejected(String),
    Validation(String),
    Store(String),
}

pub enum CloudErrorView {
    Unauthenticated,
    UnauthorizedLogbook(u128),
    PairingRejected(Seq<char>),
    Validation(Seq<char>),
    Store(Seq<char>),
}

impl View for CloudSyncError {
    type V = CloudErrorView;

    open spec fn view(&self) -> CloudErrorView {
        match self {
            CloudSyncError::Unauthenticated => CloudErrorView::Unauthenticated,
            CloudSyncError::UnauthorizedLogbook(id) => CloudErrorView::UnauthorizedLogbook(*id),
            CloudSyncError::PairingRejected(m) => CloudErrorView::PairingRejected(m@),
            CloudSyncError::Validation(m) => CloudErrorView::Validation(m@),
            CloudSyncError::Store(m) => CloudErrorView::Store(m@),
        }
    }
}

#[derive(Debug)]
pub struct PairDeviceRequest {
    pub pairing_code: String,
    pub account_id: String,
    pub user_id: String,
    pub device_id: u128,
    pub device_name: String,
    pub requested_logbooks: Vec<u128>,
    pub role_hints: Vec<String>,
}

/// A paired device's session.
#[derive(Debug)]
pub struct CloudSession {
    pub account_id: String,
    pub user_id: String,
    pub device_id: u128,
    pub device_name: String,
    pub sync_token: String,
    pub authorized_logbooks: Vec<u128>,
    pub issued_at: i64,
}

pub struct CloudSessionView {
    pub account_id: Seq<char>,
    pub user_id: Seq<char>,
    pub device_id: u128,
    pub device_name: Seq<char>,
    pub sync_token: Seq<char>,
    pub authorized_logbooks: Seq<u128>,
    pub issued_at: i64,
}

impl View for CloudSession {
    type V = CloudSessionView;

    open spec fn view(&self) -> CloudSessionView {
        CloudSessionView {
            account_id: self.account_id@,
            user_id: self.user_id@,
            device_id: self.device_id,
            device_name: self.device_name@,
            sync_token: self.sync_token@,
            authorized_logbooks: self.authorized_logbooks@,
            issued_at: self.issued_at,
        }
    }
}

impl CloudSession {
    pub fn copy(&self) -> (r: Self)
        ensures
            r@ == self@,
    {
        CloudSession {
            account_id: self.account_id.clone(),
            user_id: self.user_id.clone(),
            device_id: self.device_id,
            device_name: self.device_name.clone(),
            sync_token: self.sync_token.clone(),
            authorized_logbooks: self.authorized_logbooks.clone(),
            issued_at: self.issued_at,
        }
    }
}

#[derive(Debug)]
pub struct PairDeviceResponse {
    pub accepted: bool,
    pub reason: Option<String>,
    pub session: Option<CloudSession>,
}

/// A stored diagnostic report: its metadata and bundle.
#[derive(Debug)]
pub struct StoredDiagnosticReport {
    pub metadata: DiagnosticReportMetadata,
    pub bundle_bytes: Vec<u8>,
}

pub struct StoredReportView {
    pub metadata: ReportMetadataView,
    pub bundle_bytes: Seq<u8>,
}

impl View for StoredDiagnosticReport {
    type V = StoredReportView;

    open spec fn view(&self) -> StoredReportView {
        StoredReportView { metadata: self.metadata@, bundle_bytes: self.bundle_bytes@ }
    }
}

pub open spec fn report_views(v: Seq<StoredDiagnosticReport>) -> Seq<StoredReportView> {
    v.map_values(|r: StoredDiagnosticReport| r@)
}

/// The sync server's pairing and report state: sessions keyed by sync token
/// and reports keyed by report id (first entry with the key; writes replace
/// it or append).
#[derive(Debug)]
pub struct CloudAuthState {
    pub sessions: Vec<CloudSession>,
    pub reports: Vec<StoredDiagnosticReport>,
}

pub open spec fn cloud_sessions(v: Seq<CloudSession>) -> Seq<CloudSessionView> {
    v.map_values(|s: CloudSession| s@)
}

pub open spec fn token_pos(ss: Seq<CloudSessionView>, token: Seq<char>) -> int
    decreases ss.len(),
{
    if ss.len() == 0 {
        0
    } else if ss[0].sync_token == token {
        0
    } else {
        1 + token_pos(ss.drop_first(), token)
    }
}

/// The position of the first stored report with the id, or the number of
/// reports where none has it.
pub open spec fn report_pos(rs: Seq<StoredReportView>, report_id: Seq<char>) -> int
    decreases rs.len(),
{
    if rs.len() == 0 {
        0
    } else if rs[0].metadata.report_id == report_id {
        0
    } else {
        1 + report_pos(rs.drop_first(), report_id)
    }
}

proof fn lemma_report_pos(rs: Seq<StoredReportView>, report_id: Seq<char>, i: int)
    requires
        0 <= i <= rs.len(),
        forall|k: int| 0 <= k < i ==> rs[k].metadata.report_id != report_id,
        i == rs.len() || rs[i].metadata.report_id == report_id,
    ensures
        report_pos(rs, report_id) == i,
    decreases i,
{
    if i > 0 {
        lemma_report_pos(rs.drop_first(), report_id, i - 1);
    }
}

proof fn lemma_report_pos_bounds(rs: Seq<StoredReportView>, report_id: Seq<char>)
    ensures
        0 <= report_pos(rs, report_id) <= rs.len(),
        forall|k: int| 0 <= k < report_pos(rs, report_id) ==> rs[k].metadata.report_id != report_id,
        report_pos(rs, report_id) < rs.len() ==> rs[report_pos(rs, report_id)].metadata.report_id == report_id,
    decreases rs.len(),
{
    if rs.len() > 0 && rs[0].metadata.report_id != report_id {
        lemma_report_pos_bounds(rs.drop_first(), report_id);
        assert forall|k: int| 0 <= k < report_pos(rs, report_id) implies rs[k].metadata.report_id
            != report_id by {
            if k > 0 {
                assert(rs[k] == rs.drop_first()[k - 1]);
            }
        }
    }
}

/// Puts a report in place of the first one with its id, or appends it.
pub open spec fn upsert_report(rs: Seq<StoredReportView>, x: StoredReportView) -> Seq<StoredReportView> {
    let i = report_pos(rs, x.metadata.report_id);
    if i < rs.len() {
        rs.update(i, x)
    } else {
        rs.push(x)
    }
}

/// What reading a report's metadata answers: an unknown token is
/// unauthenticated, an unknown report is "report not found", and a report
/// of another account is unauthenticated.
pub open spec fn report_read_spec(
    ss: Seq<CloudSessionView>,
    rs: Seq<StoredReportView>,
    token: Seq<char>,
    report_id: Seq<char>,
) -> Result<ReportMetadataView, CloudErrorView> {
    match cloud_authorize_spec(ss, token) {
        Err(_) => Err(CloudErrorView::Unauthenticated),
        Ok(s) => {
            let i = report_pos(rs, report_id);
            if i >= rs.len() {
                Err(CloudErrorView::Validation("report not found"@))
            } else if rs[i].metadata.account_id != s.account_id {
                Err(CloudErrorView::Unauthenticated)
            } else {
                Ok(rs[i].metadata)
            }
        },
    }
}

/// The metadata a report upload by session `s` stores.
pub open spec fn uploaded_metadata(
    request: DiagnosticReportUploadRequest,
    s: CloudSessionView,
    report_uuid: u128,
    now: i64,
) -> ReportMetadataView {
    ReportMetadataView {
        report_id: "rpt-"@ + uuid_hyphenated_text(report_uuid),
        user_id: s.user_id,
        account_id: s.account_id,
        app_version: request.app_version@,
        core_version: request.core_version@,
        platform: request.platform@,
        created_at: now,
        report_type: request.report_type,
        plugin_list: views_of(request.plugin_list@),
        sync_state_summary: opt_view(request.sync_state_summary),
        short_description: request.short_description@,
        bundle_hash: request.bundle_hash@,
        status: DiagnosticReportStatus::Submitted,
    }
}

/// The outcome of uploading `request` as report `report_uuid` at `now`: an
/// unknown token is unauthenticated; an empty bundle or a blank bundle hash
/// is refused; otherwise the report is stored as submitted under
/// `rpt-{report_uuid}`. Failures store nothing.
pub open spec fn upload_outcome(
    ss: Seq<CloudSessionView>,
    before: Seq<StoredReportView>,
    after: Seq<StoredReportView>,
    request: DiagnosticReportUploadRequest,
    report_uuid: u128,
    now: i64,
    r: Result<DiagnosticReportUploadResponse, CloudSyncError>,
) -> bool {
    match cloud_authorize_spec(ss, request.auth.sync_token@) {
        Err(_) => r == Err::<DiagnosticReportUploadResponse, CloudSyncError>(CloudSyncError::Unauthenticated)
            && after == before,
        Ok(s) => if crate::text::trim_seq(request.bundle_hash@).len() == 0 || request.bundle_bytes@.len() == 0 {
            (r matches Err(CloudSyncError::Validation(m)) && m@ == "diagnostic report bundle is empty"@)
                && after == before
        } else {
            let m = uploaded_metadata(request, s, report_uuid, now);
            &&& r matches Ok(resp) && resp.report_id@ == m.report_id && resp.status
                == DiagnosticReportStatus::Submitted && resp.received_at == now && resp.bundle_hash@
                == request.bundle_hash@
            &&& after == upsert_report(before, StoredReportView { metadata: m, bundle_bytes: request.bundle_bytes@ })
        },
    }
}

pub open spec fn metadata_result(r: Result<DiagnosticReportMetadata, CloudSyncError>) -> Result<
    ReportMetadataView,
    CloudErrorView,
> {
    match r {
        Ok(m) => Ok(m@),
        Err(e) => Err(e@),
    }
}

proof fn lemma_token_pos(ss: Seq<CloudSessionView>, token: Seq<char>, i: int)
    requires
        0 <= i <= ss.len(),
        forall|k: int| 0 <= k < i ==> ss[k].sync_token != token,
        i == ss.len() || ss[i].sync_token == token,
    ensures
        token_pos(ss, token) == i,
    decreases i,
{
    if i > 0 {
        lemma_token_pos(ss.drop_first(), token, i - 1);
    }
}

proof fn lemma_token_pos_bounds(ss: Seq<CloudSessionView>, token: Seq<char>)
    ensures
        0 <= token_pos(ss, token) <= ss.len(),
        forall|k: int| 0 <= k < token_pos(ss, token) ==> ss[k].sync_token != token,
        token_pos(ss, token) < ss.len() ==> ss[token_pos(ss, token)].sync_token == token,
    decreases ss.len(),
{
    if ss.len() > 0 && ss[0].sync_token != token {
        lemma_token_pos_bounds(ss.drop_first(), token);
        assert forall|k: int| 0 <= k < token_pos(ss, token) implies ss[k].sync_token != token by {
            if k > 0 {
                assert(ss[k] == ss.drop_first()[k - 1]);
            }
        }
    }
}

/// The session a sync token names.
pub open spec fn cloud_authorize_spec(ss: Seq<CloudSessionView>, token: Seq<char>) -> Result<
    CloudSessionView,
    CloudSyncError,
> {
    let i = token_pos(ss, token);
    if i < ss.len() {
        Ok(ss[i])
    } else {
        Err(CloudSyncError::Unauthenticated)
    }
}

/// The session a sync token names, if it covers the logbook.
pub open spec fn cloud_authorize_logbook_spec(ss: Seq<CloudSessionView>, token: Seq<char>, logbook_id: u128) -> Result<
    CloudSessionView,
    CloudSyncError,
> {
    match cloud_authorize_spec(ss, token) {
        Err(e) => Err(e),
        Ok(s) => if s.authorized_logbooks.contains(logbook_id) {
            Ok(s)
        } else {
            Err(CloudSyncError::UnauthorizedLogbook(logbook_id))
        },
    }
}

pub open spec fn upsert_cloud_session(ss: Seq<CloudSessionView>, x: CloudSessionView) -> Seq<CloudSessionView> {
    let i = token_pos(ss, x.sync_token);
    if i < ss.len() {
        ss.update(i, x)
    } else {
        ss.push(x)
    }
}

/// The session a pairing with `token_id` at `now` creates.
pub open spec fn paired_session(req: PairDeviceRequest, token_id: u128, now: i64) -> CloudSessionView {
    CloudSessionView {
        account_id: req.account_id@,
        user_id: req.user_id@,
        device_id: req.device_id,
        device_name: req.device_name@,
        sync_token: "sync-"@ + req.account_id@ + "-"@ + uuid_hyphenated_text(token_id),
        authorized_logbooks: req.requested_logbooks@,
        issued_at: now,
    }
}

pub open spec fn cloud_result(r: Result<CloudSession, CloudSyncError>) -> Result<CloudSessionView, CloudSyncError> {
    match r {
        Ok(s) => Ok(s@),
        Err(e) => Err(e),
    }
}

impl CloudAuthState {
    pub fn new() -> (r: Self)
        ensures
            r.sessions@.len() == 0 && r.reports@.len() == 0,
    {
        CloudAuthState { sessions: Vec::new(), reports: Vec::new() }
    }

    fn find_token(&self, token: &String) -> (r: usize)
        ensures
            r == token_pos(cloud_sessions(self.sessions@), token@),
            r <= self.sessions@.len(),
    {
        let ghost ss = cloud_sessions(self.sessions@);
        let mut i: usize = 0;
        while i < self.sessions.len() && !self.sessions[i].sync_token.eq(token)
            invariant
                i <= self.sessions@.len(),
                ss == cloud_sessions(self.sessions@),
                forall|k: int| 0 <= k < i ==> ss[k].sync_token != token@,
            decreases self.sessions@.len() - i,
        {
            i = i + 1;
        }
        proof {
            lemma_token_pos(ss, token@, i as int);
        }
        i
    }

    /// Pairs a device with the server's pairing code: a wrong code is
    /// refused with "invalid pairing code"; otherwise a session for the
    /// requested logbooks is stored under a new sync token.
    pub fn pair_device_with(&mut self, pairing_code: &str, request: PairDeviceRequest, token_id: u128, now: i64) -> (r:
        PairDeviceResponse)
        ensures
            request.pairing_code@ != pairing_code@ ==> !r.accepted && opt_view(r.reason) == Some(
                "invalid pairing code"@,
            ) && r.session is None && cloud_sessions(final(self).sessions@) == cloud_sessions(
                old(self).sessions@,
            ),
            request.pairing_code@ == pairing_code@ ==> r.accepted && r.reason is None && (r.session matches Some(
                s,
            ) && s@ == paired_session(request, token_id, now)) && cloud_sessions(final(self).sessions@)
                == upsert_cloud_session(cloud_sessions(old(self).sessions@), paired_session(request, token_id, now)),
            final(self).reports@ == old(self).reports@,
    {
        if !crate::text::str_eq(request.pairing_code.as_str(), pairing_code) {
            return PairDeviceResponse {
                accepted: false,
                reason: Some(str_to_string("invalid pairing code")),
                session: None,
            };
        }
        let mut token = str_to_string("sync-");
        append_str(&mut token, request.account_id.as_str());
        append_str(&mut token, "-");
        let t = crate::ids::uuid_text(token_id);
        append_str(&mut token, t.as_str());
        let session = CloudSession {
            account_id: request.account_id,
            user_id: request.user_id,
            device_id: request.device_id,
            device_name: request.device_name,
            sync_token: token,
            authorized_logbooks: request.requested_logbooks,
            issued_at: now,
        };
        let ghost ss = cloud_sessions(self.sessions@);
        let ghost sv = session@;
        let i = self.find_token(&session.sync_token);
        if i < self.sessions.len() {
            self.sessions.set(i, session.copy());
            assert(cloud_sessions(self.sessions@) =~= ss.update(i as int, sv));
        } else {
            self.sessions.push(session.copy());
            assert(cloud_sessions(self.sessions@) =~= ss.push(sv));
        }
        PairDeviceResponse { accepted: true, reason: None, session: Some(session) }
    }

    /// Pairs a device under a fresh random sync token, stamped with the
    /// current time; the new token authorizes its session right away.
    pub fn pair_device(&mut self, pairing_code: &str, request: PairDeviceRequest) -> (r: PairDeviceResponse)
        ensures
            request.pairing_code@ != pairing_code@ ==> !r.accepted && opt_view(r.reason) == Some(
                "invalid pairing code"@,
            ) && r.session is None && cloud_sessions(final(self).sessions@) == cloud_sessions(
                old(self).sessions@,
            ),
            request.pairing_code@ == pairing_code@ ==> exists|token_id: u128, now: i64|
                r.accepted && r.reason is None && (r.session matches Some(s) && s@ == #[trigger] paired_session(
                    request,
                    token_id,
                    now,
                )) && cloud_sessions(final(self).sessions@) == upsert_cloud_session(
                    cloud_sessions(old(self).sessions@),
                    paired_session(request, token_id, now),
                ),
            request.pairing_code@ == pairing_code@ ==> r.accepted && (r.session matches Some(s)
                && cloud_authorize_spec(cloud_sessions(final(self).sessions@), s.sync_token@) == Ok::<
                CloudSessionView,
                CloudSyncError,
            >(s@)),
            final(self).reports@ == old(self).reports@,
    {
        let token_id = crate::ids::new_uuid();
        let now = crate::ids::now_millis();
        let ghost before = cloud_sessions(self.sessions@);
        let ghost req = request;
        let r = self.pair_device_with(pairing_code, request, token_id, now);
        proof {
            if req.pairing_code@ == pairing_code@ {
                law_pairing_authorizes(before, paired_session(req, token_id, now));
            }
        }
        r
    }

    /// The session a sync token names, as `cloud_authorize_spec` states.
    pub fn authorize(&self, auth: &CloudAuth) -> (r: Result<CloudSession, CloudSyncError>)
        ensures
            cloud_result(r) == cloud_authorize_spec(cloud_sessions(self.sessions@), auth.sync_token@),
    {
        let i = self.find_token(&auth.sync_token);
        if i < self.sessions.len() {
            Ok(self.sessions[i].copy())
        } else {
            Err(CloudSyncError::Unauthenticated)
        }
    }

    /// The session a sync token names if it covers the logbook.
    pub fn authorize_logbook(&self, auth: &CloudAuth, logbook_id: u128) -> (r: Result<CloudSession, CloudSyncError>)
        ensures
            cloud_result(r) == cloud_authorize_logbook_spec(
                cloud_sessions(self.sessions@),
                auth.sync_token@,
                logbook_id,
            ),
    {
        let session = match self.authorize(auth) {
            Ok(s) => s,
            Err(e) => {
                return Err(e);
            },
        };
        if !crate::offline::u128_in(&session.authorized_logbooks, logbook_id) {
            return Err(CloudSyncError::UnauthorizedLogbook(logbook_id));
        }
        Ok(session)
    }

    /// Accepts a diagnostic report from an authorized device under
    /// `rpt-{report_uuid}`, as `upload_outcome` states.
    pub fn upload_report_with(&mut self, request: DiagnosticReportUploadRequest, report_uuid: u128, now: i64) -> (r:
        Result<DiagnosticReportUploadResponse, CloudSyncError>)
        ensures
            upload_outcome(
                cloud_sessions(old(self).sessions@),
                report_views(old(self).reports@),
                report_views(final(self).reports@),
                request,
                report_uuid,
                now,
                r,
            ),
            cloud_sessions(final(self).sessions@) == cloud_sessions(old(self).sessions@),
    {
        let ghost req = request;
        let session = match self.authorize(&request.auth) {
            Ok(s) => s,
            Err(e) => {
                return Err(e);
            },
        };
        let trimmed = crate::text::trim_str(request.bundle_hash.as_str());
        if trimmed.unicode_len() == 0 || request.bundle_bytes.len() == 0 {
            return Err(CloudSyncError::Validation(str_to_string("diagnostic report bundle is empty")));
        }
        let mut report_id = str_to_string("rpt-");
        let t = crate::ids::uuid_text(report_uuid);
        append_str(&mut report_id, t.as_str());
        let metadata = DiagnosticReportMetadata {
            report_id: report_id.clone(),
            user_id: session.user_id,
            account_id: session.account_id,
            app_version: request.app_version,
            core_version: request.core_version,
            platform: request.platform,
            created_at: now,
            report_type: request.report_type,
            plugin_list: request.plugin_list,
            sync_state_summary: request.sync_state_summary,
            short_description: request.short_description,
            bundle_hash: request.bundle_hash.clone(),
            status: DiagnosticReportStatus::Submitted,
        };
        let ghost rs = report_views(self.reports@);
        let mut i: usize = 0;
        while i < self.reports.len() && !self.reports[i].metadata.report_id.eq(&report_id)
            invariant
                i <= self.reports@.len(),
                rs == report_views(self.reports@),
                forall|k: int| 0 <= k < i ==> rs[k].metadata.report_id != report_id@,
            decreases self.reports@.len() - i,
        {
            i = i + 1;
        }
        proof {
            lemma_report_pos(rs, report_id@, i as int);
        }
        let stored = StoredDiagnosticReport { metadata, bundle_bytes: request.bundle_bytes };
        let ghost sv = stored@;
        assert(sv == (StoredReportView {
            metadata: uploaded_metadata(req, session@, report_uuid, now),
            bundle_bytes: req.bundle_bytes@,
        }));
        if i < self.reports.len() {
            self.reports.set(i, stored);
            assert(report_views(self.reports@) =~= rs.update(i as int, sv));
        } else {
            self.reports.push(stored);
            assert(report_views(self.reports@) =~= rs.push(sv));
        }
        Ok(DiagnosticReportUploadResponse {
            report_id,
            status: DiagnosticReportStatus::Submitted,
            received_at: now,
            bundle_hash: request.bundle_hash,
        })
    }

    /// Accepts a diagnostic report under a fresh random report id, stamped
    /// with the current time.
    pub fn upload_report(&mut self, request: DiagnosticReportUploadRequest) -> (r: Result<
        DiagnosticReportUploadResponse,
        CloudSyncError,
    >)
        ensures
            exists|report_uuid: u128, now: i64|
                #[trigger] upload_outcome(
                    cloud_sessions(old(self).sessions@),
                    report_views(old(self).reports@),
                    report_views(final(self).reports@),
                    request,
                    report_uuid,
                    now,
                    r,
                ),
            cloud_sessions(final(self).sessions@) == cloud_sessions(old(self).sessions@),
    {
        let report_uuid = crate::ids::new_uuid();
        let now = crate::ids::now_millis();
        self.upload_report_with(request, report_uuid, now)
    }

    /// The metadata of a report, for a device of the account that filed it,
    /// as `report_read_spec` states.
    pub fn report_metadata(&self, auth: &CloudAuth, report_id: &str) -> (r: Result<
        DiagnosticReportMetadata,
        CloudSyncError,
    >)
        ensures
            metadata_result(r) == report_read_spec(
                cloud_sessions(self.sessions@),
                report_views(self.reports@),
                auth.sync_token@,
                report_id@,
            ),
    {
        let session = match self.authorize(auth) {
            Ok(s) => s,
            Err(e) => {
                return Err(e);
            },
        };
        let ghost rs = report_views(self.reports@);
        let mut i: usize = 0;
        while i < self.reports.len() && !crate::text::str_eq(self.reports[i].metadata.report_id.as_str(), report_id)
            invariant
                i <= self.reports@.len(),
                rs == report_views(self.reports@),
                forall|k: int| 0 <= k < i ==> rs[k].metadata.report_id != report_id@,
            decreases self.reports@.len() - i,
        {
            i = i + 1;
        }
        proof {
            lemma_report_pos(rs, report_id@, i as int);
        }
        if i >= self.reports.len() {
            return Err(CloudSyncError::Validation(str_to_string("report not found")));
        }
        let m = &self.reports[i].metadata;
        if !m.account_id.eq(&session.account_id) {
            return Err(CloudSyncError::Unauthenticated);
        }
        Ok(m.copy())
    }
}

/// A stored report reads back as stored: after a report is put into the
/// store, reading its id with a token of the same account gives exactly the
/// metadata that was put.
pub proof fn law_uploaded_report_reads_back(
    ss: Seq<CloudSessionView>,
    rs: Seq<StoredReportView>,
    token: Seq<char>,
    x: StoredReportView,
)
    requires
        cloud_authorize_spec(ss, token) matches Ok(s) && s.account_id == x.metadata.account_id,
    ensures
        report_read_spec(ss, upsert_report(rs, x), token, x.metadata.report_id) == Ok::<
            ReportMetadataView,
            CloudErrorView,
        >(x.metadata),
{
    let id = x.metadata.report_id;
    lemma_report_pos_bounds(rs, id);
    let i = report_pos(rs, id);
    let u = upsert_report(rs, x);
    if i < rs.len() {
        lemma_report_pos(u, id, i);
    } else {
        assert forall|k: int| 0 <= k < rs.len() implies u[k].metadata.report_id != id by {
            assert(u[k] == rs[k]);
        }
        lemma_report_pos(u, id, rs.len() as int);
    }
}

/// A pairing's token authorizes its session right away.
pub proof fn law_pairing_authorizes(ss: Seq<CloudSessionView>, x: CloudSessionView)
    ensures
        cloud_authorize_spec(upsert_cloud_session(ss, x), x.sync_token) == Ok::<CloudSessionView, CloudSyncError>(x),
{
    lemma_token_pos_bounds(ss, x.sync_token);
    let i = token_pos(ss, x.sync_token);
    if i < ss.len() {
        lemma_token_pos(upsert_cloud_session(ss, x), x.sync_token, i);
    } else {
        lemma_token_pos(upsert_cloud_session(ss, x), x.sync_token, ss.len() as int);
    }
}

/// A token only reaches the logbooks its pairing asked for.
pub proof fn law_unrequested_logbook_refused(ss: Seq<CloudSessionView>, token: Seq<char>, logbook_id: u128)
    requires
        cloud_authorize_spec(ss, token) matches Ok(s) && !s.authorized_logbooks.contains(logbook_id),
    ensures
        cloud_authorize_logbook_spec(ss, token, logbook_id) == Err::<CloudSessionView, CloudSyncError>(
            CloudSyncError::UnauthorizedLogbook(logbook_id),
        ),
{
}

// ---------------------------------------------------------------------------
// Ingesting events: the decisions a pull or a push takes per event.
// ---------------------------------------------------------------------------

/// What the event store holds under an incoming event's id.
#[derive(Debug)]
pub enum StoredLookup {
    Absent,
    Identical,
    Different,
    Failed(String),
}

/// What to do with an incoming event.
#[derive(Debug, Clone, Copy, PartialEq, Eq, Structural)]
pub enum IngestStep {
    /// Already stored as is: count it and go on.
    Skip,
    /// New: append it to the store.
    Append,
    /// Stop ingesting; the error was recorded.
    Stop,
}

/// Counts of an ingest run.
#[derive(Debug)]
pub struct IngestTally {
    pub accepted: usize,
    pub ignored_duplicates: usize,
    pub errors: Vec<String>,
}

/// "event id {id} already exists with different content".
pub open spec fn conflicting_id_message(event_id: u128) -> Seq<char> {
    "event id "@ + uuid_hyphenated_text(event_id) + " already exists with different content"@
}

impl IngestTally {
    pub fn new() -> (r: Self)
        ensures
            r.accepted == 0 && r.ignored_duplicates == 0 && r.errors@.len() == 0,
    {
        IngestTally { accepted: 0, ignored_duplicates: 0, errors: Vec::new() }
    }

    /// Decides on an incoming event from what the store holds under its id:
    /// an identical event is a duplicate to skip, a different one or a store
    /// failure stops the run with an error, an absent one is appended.
    pub fn decide(&mut self, event_id: u128, lookup: StoredLookup) -> (r: IngestStep)
        requires
            old(self).ignored_duplicates < usize::MAX,
        ensures
            final(self).accepted == old(self).accepted,
            match lookup {
                StoredLookup::Absent => r == IngestStep::Append && final(self).ignored_duplicates
                    == old(self).ignored_duplicates && views_of(final(self).errors@) == views_of(old(self).errors@),
                StoredLookup::Identical => r == IngestStep::Skip && final(self).ignored_duplicates
                    == old(self).ignored_duplicates + 1 && views_of(final(self).errors@) == views_of(old(self).errors@),
                StoredLookup::Different => r == IngestStep::Stop && final(self).ignored_duplicates
                    == old(self).ignored_duplicates && views_of(final(self).errors@) == views_of(old(self).errors@).push(
                    conflicting_id_message(event_id),
                ),
                StoredLookup::Failed(m) => r == IngestStep::Stop && final(self).ignored_duplicates
                    == old(self).ignored_duplicates && views_of(final(self).errors@) == views_of(old(self).errors@).push(
                    m@,
                ),
            },
    {
        let ghost before = self.errors@;
        match lookup {
            StoredLookup::Absent => IngestStep::Append,
            StoredLookup::Identical => {
                self.ignored_duplicates = self.ignored_duplicates + 1;
                IngestStep::Skip
            },
            StoredLookup::Different => {
                let mut m = str_to_string("event id ");
                let t = crate::ids::uuid_text(event_id);
                append_str(&mut m, t.as_str());
                append_str(&mut m, " already exists with different content");
                let ghost mv = m@;
                self.errors.push(m);
                assert(views_of(self.errors@) =~= views_of(before).push(mv));
                IngestStep::Stop
            },
            StoredLookup::Failed(m) => {
                let ghost mv = m@;
                self.errors.push(m);
                assert(views_of(self.errors@) =~= views_of(before).push(mv));
                IngestStep::Stop
            },
        }
    }

    /// Records what appending an event did: a success is counted, a failure
    /// is recorded and stops the run. Returns whether to go on.
    pub fn record_append(&mut self, result: Result<(), String>) -> (go_on: bool)
        requires
            old(self).accepted < usize::MAX,
        ensures
            final(self).ignored_duplicates == old(self).ignored_duplicates,
            match result {
                Ok(()) => go_on && final(self).accepted == old(self).accepted + 1 && views_of(final(self).errors@)
                    == views_of(old(self).errors@),
                Err(m) => !go_on && final(self).accepted == old(self).accepted && views_of(final(self).errors@)
                    == views_of(old(self).errors@).push(m@),
            },
    {
        let ghost before = self.errors@;
        match result {
            Ok(()) => {
                self.accepted = self.accepted + 1;
                true
            },
            Err(m) => {
                let ghost mv = m@;
                self.errors.push(m);
                assert(views_of(self.errors@) =~= views_of(before).push(mv));
                false
            },
        }
    }

    /// Records a validation refusal, which stops the run.
    pub fn record_refusal(&mut self, message: String)
        ensures
            final(self).accepted == old(self).accepted,
            final(self).ignored_duplicates == old(self).ignored_duplicates,
            views_of(final(self).errors@) == views_of(old(self).errors@).push(message@),
    {
        let ghost before = self.errors@;
        let ghost mv = message@;
        self.errors.push(message);
        assert(views_of(self.errors@) =~= views_of(before).push(mv));
    }
}

/// Whether `pat` occurs in `s`.
pub open spec fn contains_text(s: Seq<char>, pat: Seq<char>) -> bool {
    exists|i: int| 0 <= i && i + pat.len() <= s.len() && #[trigger] s.subrange(i, i + pat.len()) == pat
}

/// Whether `pat` occurs in `s`, `str::contains`.
pub fn text_contains(s: &str, pat: &str) -> (r: bool)
    ensures
        r == contains_text(s@, pat@),
{
    let v = chars_of(s);
    let w = chars_of(pat);
    if w.len() > v.len() {
        return false;
    }
    let n = v.len();
    let last = n - w.len();
    let mut i: usize = 0;
    loop
        invariant_except_break
            i <= last,
            forall|k: int| 0 <= k < i ==> #[trigger] v@.subrange(k, k + w@.len()) != w@,
        invariant
            v@ == s@,
            w@ == pat@,
            w@.len() <= v@.len(),
            n == v@.len(),
            last == v@.len() - w@.len(),
        ensures
            forall|k: int| 0 <= k <= last ==> #[trigger] v@.subrange(k, k + w@.len()) != w@,
        decreases last - i,
    {
        let mut j: usize = 0;
        while j < w.len() && v[i + j] == w[j]
            invariant
                j <= w@.len(),
                w@.len() <= v@.len(),
                n == v@.len(),
                i <= last,
                last == v@.len() - w@.len(),
                forall|q: int| 0 <= q < j ==> v@[i + q] == w@[q],
            decreases w@.len() - j,
        {
            j = j + 1;
        }
        if j == w.len() {
            assert(v@.subrange(i as int, i + w@.len()) =~= w@);
            return true;
        }
        assert(v@.subrange(i as int, i + w@.len())[j as int] != w@[j as int]);
        if i == last {
            break;
        }
        i = i + 1;
    }
    proof {
        assert forall|k: int| 0 <= k && k + pat@.len() <= s@.len() implies #[trigger] s@.subrange(
            k,
            k + pat@.len(),
        ) != pat@ by {
            assert(k <= last);
        }
    }
    false
}

/// The status of a push: pulled without errors, diverged when an error
/// says the chain does not connect or names the previous hash, rejected
/// otherwise.
pub open spec fn push_status_of(errors: Seq<Seq<char>>) -> ReplicationStatus {
    if errors.len() == 0 {
        ReplicationStatus::Pulled
    } else if exists|i: int|
        0 <= i < errors.len() && (contains_text(errors[i], "does not connect"@) || contains_text(
            errors[i],
            "previous hash"@,
        )) {
        ReplicationStatus::Diverged
    } else {
        ReplicationStatus::Rejected
    }
}

pub fn push_status(errors: &Vec<String>) -> (r: ReplicationStatus)
    ensures
        r == push_status_of(views_of(errors@)),
{
    if errors.len() == 0 {
        return ReplicationStatus::Pulled;
    }
    let ghost es = views_of(errors@);
    let mut i: usize = 0;
    while i < errors.len()
        invariant
            i <= errors@.len(),
            es == views_of(errors@),
            forall|k: int|
                0 <= k < i ==> !(contains_text(es[k], "does not connect"@) || contains_text(
                    es[k],
                    "previous hash"@,
                )),
        decreases errors@.len() - i,
    {
        if text_contains(errors[i].as_str(), "does not connect") || text_contains(
            errors[i].as_str(),
            "previous hash",
        ) {
            assert(es[i as int] == errors@[i as int]@);
            return ReplicationStatus::Diverged;
        }
        assert(es[i as int] == errors@[i as int]@);
        i = i + 1;
    }
    ReplicationStatus::Rejected
}

/// The answer to a push once its events were ingested.
pub fn push_response(tally: IngestTally, server_head_hash: Option<String>) -> (r: CloudPushEventsResponse)
    ensures
        r.status == push_status_of(views_of(tally.errors@)),
        r.accepted_count == tally.accepted,
        r.ignored_duplicate_count == tally.ignored_duplicates,
        r.rejected_count == tally.errors@.len(),
        opt_view(r.server_head_hash) == opt_view(server_head_hash),
        views_of(r.errors@) == views_of(tally.errors@),
{
    let status = push_status(&tally.errors);
    let n = tally.errors.len();
    CloudPushEventsResponse {
        status,
        accepted_count: tally.accepted,
        ignored_duplicate_count: tally.ignored_duplicates,
        rejected_count: n,
        server_head_hash,
        errors: tally.errors,
    }
}

/// A push may only carry events of the logbook it targets.
pub fn check_push_logbook(logbook_id: u128, events: &Vec<EventEnvelope>) -> (r: Result<(), CloudSyncError>)
    ensures
        (forall|i: int| 0 <= i < events@.len() ==> (#[trigger] events@[i]).logbook_id == logbook_id) ==> r is Ok,
        !(forall|i: int| 0 <= i < events@.len() ==> (#[trigger] events@[i]).logbook_id == logbook_id) ==> r == Err::<
            (),
            CloudSyncError,
        >(CloudSyncError::UnauthorizedLogbook(logbook_id)),
{
    let mut i: usize = 0;
    while i < events.len()
        invariant
            i <= events@.len(),
            forall|k: int| 0 <= k < i ==> (#[trigger] events@[k]).logbook_id == logbook_id,
        decreases events@.len() - i,
    {
        if events[i].logbook_id != logbook_id {
            return Err(CloudSyncError::UnauthorizedLogbook(logbook_id));
        }
        i = i + 1;
    }
    Ok(())
}

// ---------------------------------------------------------------------------
// Pulling missing events from a peer.
// ---------------------------------------------------------------------------

#[derive(Debug)]
pub struct PullEventsRequest {
    pub peer_id: String,
    pub logbook_id: u128,
    pub local_head_hash: Option<String>,
}

#[derive(Debug)]
pub struct PullEventsResponse {
    pub peer_id: String,
    pub logbook_id: u128,
    pub status: ReplicationStatus,
    pub accepted_count: usize,
    pub ignored_duplicate_count: usize,
    pub rejected_count: usize,
    pub local_head_hash: Option<String>,
    pub remote_head_hash: Option<String>,
    pub errors: Vec<String>,
}

/// What a pull does next once the local head is known.
#[derive(Debug)]
pub enum PullPlan {
    /// Nothing to ingest; answer with this.
    Respond(PullEventsResponse),
    /// Verify these events as a chain extending the local head, then ingest.
    Verify { missing: Vec<EventEnvelope>, remote_head_hash: Option<String> },
}

/// The events a pull would ingest: those after the local head, or all of
/// the remote events when the remote list is exactly the missing tail;
/// `None` when the chains diverged.
pub open spec fn pull_candidates(es: Seq<EventView>, local: Option<Seq<char>>) -> Option<Seq<EventView>> {
    match missing_after(es, local) {
        Some(m) => Some(m),
        None => if is_missing_tail(es, local) {
            Some(es)
        } else {
            None
        },
    }
}

/// Plans a pull from the remote events of the request's logbook, given the
/// local head: in sync when the heads match, diverged (every remote event
/// rejected) when the remote chain neither holds nor extends the local head,
/// and otherwise the events to verify and ingest.
pub fn plan_pull(request: PullEventsRequest, local_head_hash: Option<String>, remote_events: &Vec<EventEnvelope>) -> (r:
    PullPlan)
    ensures
        ({
            let es = events_in_logbook(event_views(remote_events@), request.logbook_id);
            let local = opt_view(local_head_hash);
            &&& local == head_of(es) ==> (r matches PullPlan::Respond(resp) && resp.status == ReplicationStatus::InSync
                && resp.accepted_count == 0 && resp.ignored_duplicate_count == 0 && resp.rejected_count == 0
                && resp.errors@.len() == 0 && opt_view(resp.local_head_hash) == local && opt_view(
                resp.remote_head_hash,
            ) == head_of(es) && resp.peer_id@ == request.peer_id@ && resp.logbook_id == request.logbook_id)
            &&& local != head_of(es) && pull_candidates(es, local) is None ==> (r matches PullPlan::Respond(resp)
                && resp.status == ReplicationStatus::Diverged && resp.accepted_count == 0
                && resp.ignored_duplicate_count == 0 && resp.rejected_count == es.len() && views_of(resp.errors@)
                == seq!["remote chain does not contain the local head"@] && opt_view(resp.local_head_hash) == local
                && opt_view(resp.remote_head_hash) == head_of(es) && resp.peer_id@ == request.peer_id@
                && resp.logbook_id == request.logbook_id)
            &&& local != head_of(es) && pull_candidates(es, local) is Some ==> (r matches PullPlan::Verify {
                missing,
                remote_head_hash,
            } && event_views(missing@) == pull_candidates(es, local).unwrap() && opt_view(remote_head_hash)
                == head_of(es))
        }),
{
    let remote = crate::replication::events_for_logbook(remote_events, request.logbook_id);
    let ghost es = event_views(remote@);
    let remote_head_hash: Option<String> = if remote.len() == 0 {
        None
    } else {
        Some(remote[remote.len() - 1].event_hash.clone())
    };
    if crate::events::opt_eq(&local_head_hash, &remote_head_hash) {
        return PullPlan::Respond(
            PullEventsResponse {
                peer_id: request.peer_id,
                logbook_id: request.logbook_id,
                status: ReplicationStatus::InSync,
                accepted_count: 0,
                ignored_duplicate_count: 0,
                rejected_count: 0,
                local_head_hash,
                remote_head_hash,
                errors: Vec::new(),
            },
        );
    }
    match crate::replication::missing_events_after(&remote, &local_head_hash) {
        Some(missing) => PullPlan::Verify { missing, remote_head_hash },
        None => {
            if crate::replication::remote_events_are_missing_tail(&remote, &local_head_hash) {
                PullPlan::Verify { missing: remote, remote_head_hash }
            } else {
                let mut errors: Vec<String> = Vec::new();
                errors.push(str_to_string("remote chain does not contain the local head"));
                assert(views_of(errors@) =~= seq!["remote chain does not contain the local head"@]);
                let n = remote.len();
                PullPlan::Respond(
                    PullEventsResponse {
                        peer_id: request.peer_id,
                        logbook_id: request.logbook_id,
                        status: ReplicationStatus::Diverged,
                        accepted_count: 0,
                        ignored_duplicate_count: 0,
                        rejected_count: n,
                        local_head_hash,
                        remote_head_hash,
                        errors,
                    },
                )
            }
        },
    }
}

/// The answer when the missing events do not verify as a chain: diverged
/// for a divergence or a previous-hash mismatch, rejected otherwise, with
/// every missing event rejected and the error's message.
pub fn pull_verification_failed(
    request: PullEventsRequest,
    local_head_hash: Option<String>,
    remote_head_hash: Option<String>,
    missing_count: usize,
    error: &ReplicationError,
    message: String,
) -> (r: PullEventsResponse)
    ensures
        r.status == (if error is Diverged || error is PreviousHashMismatch {
            ReplicationStatus::Diverged
        } else {
            ReplicationStatus::Rejected
        }),
        r.accepted_count == 0 && r.ignored_duplicate_count == 0,
        r.rejected_count == missing_count,
        views_of(r.errors@) == seq![message@],
        opt_view(r.local_head_hash) == opt_view(local_head_hash),
        opt_view(r.remote_head_hash) == opt_view(remote_head_hash),
        r.peer_id@ == request.peer_id@ && r.logbook_id == request.logbook_id,
{
    let status = match error {
        ReplicationError::Diverged { .. } | ReplicationError::PreviousHashMismatch { .. } => ReplicationStatus::Diverged,
        _ => ReplicationStatus::Rejected,
    };
    let ghost mv = message@;
    let mut errors: Vec<String> = Vec::new();
    errors.push(message);
    assert(views_of(errors@) =~= seq![mv]);
    PullEventsResponse {
        peer_id: request.peer_id,
        logbook_id: request.logbook_id,
        status,
        accepted_count: 0,
        ignored_duplicate_count: 0,
        rejected_count: missing_count,
        local_head_hash,
        remote_head_hash,
        errors,
    }
}

/// The answer when the local head could not be read: rejected with the
/// store's message.
pub fn pull_store_failure(request: PullEventsRequest, message: String) -> (r: PullEventsResponse)
    ensures
        r.status == ReplicationStatus::Rejected,
        r.accepted_count == 0 && r.ignored_duplicate_count == 0 && r.rejected_count == 1,
        views_of(r.errors@) == seq![message@],
        r.local_head_hash is None && r.remote_head_hash is None,
        r.peer_id@ == request.peer_id@ && r.logbook_id == request.logbook_id,
{
    let ghost mv = message@;
    let mut errors: Vec<String> = Vec::new();
    errors.push(message);
    assert(views_of(errors@) =~= seq![mv]);
    PullEventsResponse {
        peer_id: request.peer_id,
        logbook_id: request.logbook_id,
        status: ReplicationStatus::Rejected,
        accepted_count: 0,
        ignored_duplicate_count: 0,
        rejected_count: 1,
        local_head_hash: None,
        remote_head_hash: None,
        errors,
    }
}

/// The answer once the missing events were ingested: pulled without
/// errors, rejected otherwise, with the store's final head.
pub fn finish_pull(request: PullEventsRequest, tally: IngestTally, final_head: Option<String>, remote_head_hash: Option<String>) -> (r:
    PullEventsResponse)
    ensures
        r.status == (if tally.errors@.len() == 0 {
            ReplicationStatus::Pulled
        } else {
            ReplicationStatus::Rejected
        }),
        r.accepted_count == tally.accepted,
        r.ignored_duplicate_count == tally.ignored_duplicates,
        r.rejected_count == tally.errors@.len(),
        views_of(r.errors@) == views_of(tally.errors@),
        opt_view(r.local_head_hash) == opt_view(final_head),
        opt_view(r.remote_head_hash) == opt_view(remote_head_hash),
        r.peer_id@ == request.peer_id@ && r.logbook_id == request.logbook_id,
{
    let n = tally.errors.len();
    let status = if n == 0 {
        ReplicationStatus::Pulled
    } else {
        ReplicationStatus::Rejected
    };
    PullEventsResponse {
        peer_id: request.peer_id,
        logbook_id: request.logbook_id,
        status,
        accepted_count: tally.accepted,
        ignored_duplicate_count: tally.ignored_duplicates,
        rejected_count: n,
        local_head_hash: final_head,
        remote_head_hash,
        errors: tally.errors,
    }
}

} // verus!
