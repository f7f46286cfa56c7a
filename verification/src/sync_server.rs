//! The self-hosted sync server's request handling rules: which route a
//! request reaches, how its token and logbook are read from the target, how
//! failures are answered, and how a response goes on the wire.
use vstd::prelude::*;
use vstd::utf8::encode_utf8;
use crate::cloud::{CloudAuth, CloudSyncError, DiagnosticReportStatus};
use crate::ids::uuid_parse_text;
use crate::query::{parse_query, query_table, QueryMap};
use crate::replication::ReplicationStatus;
use crate::text::{
    append_str, chars_of, decimal_string, decimal_text, ends_with_str, is_prefix, is_suffix,
    starts_with_str, str_eq, str_to_string, string_of_range, trim_seq,
};

verus! {

/// The routes the sync server serves.
#[derive(Debug, Clone, Copy, PartialEq, Eq, Structural)]
pub enum SyncRoute {
    Health,
    Ready,
    Metrics,
    Pair,
    ListLogbooks,
    LogbookHead,
    LogbookEvents,
    PreviewPull,
    Pull,
    Push,
    SyncStatus,
    UploadReport,
    ReportMetadata,
    NotFound,
}

pub open spec fn under_logbooks(path: Seq<char>, suffix: Seq<char>) -> bool {
    is_prefix("/api/v1/logbooks/"@, path) && is_suffix(suffix, path)
}

/// The route of a method and path, checked in the server's order.
pub open spec fn sync_route_of(method: Seq<char>, path: Seq<char>) -> SyncRoute {
    let get = method == "GET"@;
    let post = method == "POST"@;
    if get && path == "/health"@ {
        SyncRoute::Health
    } else if get && path == "/ready"@ {
        SyncRoute::Ready
    } else if get && path == "/metrics"@ {
        SyncRoute::Metrics
    } else if post && path == "/api/v1/auth/pair"@ {
        SyncRoute::Pair
    } else if get && path == "/api/v1/logbooks"@ {
        SyncRoute::ListLogbooks
    } else if get && under_logbooks(path, "/head"@) {
        SyncRoute::LogbookHead
    } else if get && under_logbooks(path, "/events"@) {
        SyncRoute::LogbookEvents
    } else if post && under_logbooks(path, "/preview-pull"@) {
        SyncRoute::PreviewPull
    } else if post && under_logbooks(path, "/pull"@) {
        SyncRoute::Pull
    } else if post && under_logbooks(path, "/push"@) {
        SyncRoute::Push
    } else if get && path == "/api/v1/sync/status"@ {
        SyncRoute::SyncStatus
    } else if post && path == "/api/v1/reports"@ {
        SyncRoute::UploadReport
    } else if get && is_prefix("/api/v1/reports/"@, path) {
        SyncRoute::ReportMetadata
    } else {
        SyncRoute::NotFound
    }
}

fn logbooks_route(path: &str, suffix: &str) -> (r: bool)
    ensures
        r == under_logbooks(path@, suffix@),
{
    starts_with_str(path, "/api/v1/logbooks/") && ends_with_str(path, suffix)
}

/// The route a request reaches.
pub fn classify_sync_route(method: &str, path: &str) -> (r: SyncRoute)
    ensures
        r == sync_route_of(method@, path@),
{
    let get = str_eq(method, "GET");
    let post = str_eq(method, "POST");
    if get && str_eq(path, "/health") {
        SyncRoute::Health
    } else if get && str_eq(path, "/ready") {
        SyncRoute::Ready
    } else if get && str_eq(path, "/metrics") {
        SyncRoute::Metrics
    } else if post && str_eq(path, "/api/v1/auth/pair") {
        SyncRoute::Pair
    } else if get && str_eq(path, "/api/v1/logbooks") {
        SyncRoute::ListLogbooks
    } else if get && logbooks_route(path, "/head") {
        SyncRoute::LogbookHead
    } else if get && logbooks_route(path, "/events") {
        SyncRoute::LogbookEvents
    } else if post && logbooks_route(path, "/preview-pull") {
        SyncRoute::PreviewPull
    } else if post && logbooks_route(path, "/pull") {
        SyncRoute::Pull
    } else if post && logbooks_route(path, "/push") {
        SyncRoute::Push
    } else if get && str_eq(path, "/api/v1/sync/status") {
        SyncRoute::SyncStatus
    } else if post && str_eq(path, "/api/v1/reports") {
        SyncRoute::UploadReport
    } else if get && starts_with_str(path, "/api/v1/reports/") {
        SyncRoute::ReportMetadata
    } else {
        SyncRoute::NotFound
    }
}

/// `s` with every leading copy of `p` removed, `trim_start_matches(p)`.
pub open spec fn strip_prefix_all(s: Seq<char>, p: Seq<char>) -> Seq<char>
    decreases s.len(),
{
    if p.len() > 0 && is_prefix(p, s) {
        strip_prefix_all(s.skip(p.len() as int), p)
    } else {
        s
    }
}

/// `s` with every trailing copy of `p` removed, `trim_end_matches(p)`.
pub open spec fn strip_suffix_all(s: Seq<char>, p: Seq<char>) -> Seq<char>
    decreases s.len(),
{
    if p.len() > 0 && is_suffix(p, s) {
        strip_suffix_all(s.take(s.len() - p.len()), p)
    } else {
        s
    }
}

fn chars_start_with(v: &[char], from: usize, to: usize, p: &[char]) -> (r: bool)
    requires
        from <= to <= v@.len(),
    ensures
        r == is_prefix(p@, v@.subrange(from as int, to as int)),
{
    if p.len() > to - from {
        return false;
    }
    let mut i: usize = 0;
    while i < p.len()
        invariant
            i <= p@.len(),
            p@.len() <= to - from,
            from <= to <= v@.len(),
            forall|k: int| 0 <= k < i ==> v@[from + k] == p@[k],
        decreases p@.len() - i,
    {
        if v[from + i] != p[i] {
            assert(v@.subrange(from as int, to as int).subrange(0, p@.len() as int)[i as int] != p@[i as int]);
            return false;
        }
        i = i + 1;
    }
    assert(v@.subrange(from as int, to as int).subrange(0, p@.len() as int) =~= p@);
    true
}

fn chars_end_with(v: &[char], from: usize, to: usize, p: &[char]) -> (r: bool)
    requires
        from <= to <= v@.len(),
    ensures
        r == is_suffix(p@, v@.subrange(from as int, to as int)),
{
    if p.len() > to - from {
        return false;
    }
    let start = to - p.len();
    let mut i: usize = 0;
    while i < p.len()
        invariant
            i <= p@.len(),
            start == to - p@.len(),
            from <= start <= to <= v@.len(),
            forall|k: int| 0 <= k < i ==> v@[start + k] == p@[k],
        decreases p@.len() - i,
    {
        if v[start + i] != p[i] {
            let ghost t = v@.subrange(from as int, to as int);
            assert(t.subrange(t.len() - p@.len(), t.len() as int)[i as int] != p@[i as int]);
            return false;
        }
        i = i + 1;
    }
    let ghost t = v@.subrange(from as int, to as int);
    assert(t.subrange(t.len() - p@.len(), t.len() as int) =~= p@);
    true
}

/// The start of `v[from..to]` once leading copies of `p` are removed.
fn strip_prefix_all_from(v: &[char], from: usize, to: usize, p: &[char]) -> (r: usize)
    requires
        from <= to <= v@.len(),
    ensures
        from <= r <= to,
        v@.subrange(r as int, to as int) == strip_prefix_all(v@.subrange(from as int, to as int), p@),
{
    let mut a = from;
    if p.len() == 0 {
        return a;
    }
    while chars_start_with(v, a, to, p)
        invariant
            from <= a <= to <= v@.len(),
            p@.len() > 0,
            strip_prefix_all(v@.subrange(from as int, to as int), p@) == strip_prefix_all(
                v@.subrange(a as int, to as int),
                p@,
            ),
        decreases to - a,
    {
        assert(v@.subrange(a as int, to as int).skip(p@.len() as int) =~= v@.subrange(a + p@.len(), to as int));
        a = a + p.len();
    }
    a
}

/// The end of `v[from..to]` once trailing copies of `p` are removed.
fn strip_suffix_all_from(v: &[char], from: usize, to: usize, p: &[char]) -> (r: usize)
    requires
        from <= to <= v@.len(),
    ensures
        from <= r <= to,
        v@.subrange(from as int, r as int) == strip_suffix_all(v@.subrange(from as int, to as int), p@),
{
    let mut b = to;
    if p.len() == 0 {
        return b;
    }
    while chars_end_with(v, from, b, p)
        invariant
            from <= b <= to <= v@.len(),
            p@.len() > 0,
            strip_suffix_all(v@.subrange(from as int, to as int), p@) == strip_suffix_all(
                v@.subrange(from as int, b as int),
                p@,
            ),
        decreases b - from,
    {
        assert(v@.subrange(from as int, b as int).take(b - from - p@.len()) =~= v@.subrange(
            from as int,
            b - p@.len(),
        ));
        b = b - p.len();
    }
    b
}

/// The logbook id in `/api/v1/logbooks/{id}{suffix}`: the path without its
/// leading route prefixes, trailing suffixes and trailing slashes, parsed as
/// an identifier.
pub open spec fn logbook_id_text(path: Seq<char>, suffix: Seq<char>) -> Seq<char> {
    crate::text::strip_end(
        strip_suffix_all(strip_prefix_all(path, "/api/v1/logbooks/"@), suffix),
        crate::text::char_pred('/'),
    )
}

pub fn logbook_id_in_path(path: &str, suffix: &str) -> (r: Option<u128>)
    ensures
        r == uuid_parse_text(logbook_id_text(path@, suffix@)),
{
    let v = chars_of(path);
    let p = chars_of("/api/v1/logbooks/");
    let s = chars_of(suffix);
    let a = strip_prefix_all_from(v.as_slice(), 0, v.len(), p.as_slice());
    assert(v@.subrange(0, v@.len() as int) =~= path@);
    let b = strip_suffix_all_from(v.as_slice(), a, v.len(), s.as_slice());
    let c = crate::text::strip_end_char(v.as_slice(), a, b, '/');
    let t = string_of_range(v.as_slice(), a, c);
    crate::ids::parse_uuid_text(t.as_str())
}

/// The report id in `/api/v1/reports/{id}`: the path without its leading
/// route prefixes.
pub fn report_id_in_path(path: &str) -> (r: String)
    ensures
        r@ == strip_prefix_all(path@, "/api/v1/reports/"@),
{
    let v = chars_of(path);
    let p = chars_of("/api/v1/reports/");
    let a = strip_prefix_all_from(v.as_slice(), 0, v.len(), p.as_slice());
    assert(v@.subrange(0, v@.len() as int) =~= path@);
    string_of_range(v.as_slice(), a, v.len())
}

/// The sync token of a query: its non-empty `token` value.
pub open spec fn query_token(query: Seq<char>) -> Option<Seq<char>> {
    let t = query_table(query);
    if t.contains_key("token"@) && t["token"@].len() > 0 {
        Some(t["token"@])
    } else {
        None
    }
}

pub fn auth_from_query(query: &str) -> (r: Option<CloudAuth>)
    ensures
        match query_token(query@) {
            Some(t) => r matches Some(a) && a.sync_token@ == t,
            None => r is None,
        },
{
    let table = parse_query(query);
    match table.get("token") {
        Some(t) => {
            if t.unicode_len() == 0 {
                None
            } else {
                Some(CloudAuth { sync_token: t })
            }
        },
        None => None,
    }
}

pub open spec fn replication_status_text(s: ReplicationStatus) -> Seq<char> {
    match s {
        ReplicationStatus::InSync => "in_sync"@,
        ReplicationStatus::RemoteAhead => "remote_ahead"@,
        ReplicationStatus::Pulled => "pulled"@,
        ReplicationStatus::Diverged => "diverged"@,
        ReplicationStatus::Rejected => "rejected"@,
    }
}

/// The metric label of a replication status.
pub fn status_label(status: ReplicationStatus) -> (r: &'static str)
    ensures
        r@ == replication_status_text(status),
{
    match status {
        ReplicationStatus::InSync => "in_sync",
        ReplicationStatus::RemoteAhead => "remote_ahead",
        ReplicationStatus::Pulled => "pulled",
        ReplicationStatus::Diverged => "diverged",
        ReplicationStatus::Rejected => "rejected",
    }
}

pub open spec fn report_status_text(s: DiagnosticReportStatus) -> Seq<char> {
    match s {
        DiagnosticReportStatus::Submitted => "submitted"@,
        DiagnosticReportStatus::Triaged => "triaged"@,
        DiagnosticReportStatus::Investigating => "investigating"@,
        DiagnosticReportStatus::WaitingOnUser => "waiting_on_user"@,
        DiagnosticReportStatus::Fixed => "fixed"@,
        DiagnosticReportStatus::Closed => "closed"@,
    }
}

/// The metric label of a diagnostic report status.
pub fn report_status_label(status: DiagnosticReportStatus) -> (r: &'static str)
    ensures
        r@ == report_status_text(status),
{
    match status {
        DiagnosticReportStatus::Submitted => "submitted",
        DiagnosticReportStatus::Triaged => "triaged",
        DiagnosticReportStatus::Investigating => "investigating",
        DiagnosticReportStatus::WaitingOnUser => "waiting_on_user",
        DiagnosticReportStatus::Fixed => "fixed",
        DiagnosticReportStatus::Closed => "closed",
    }
}

/// The storage checks behind `/ready`.
#[derive(Debug, Clone, Copy, PartialEq, Eq, Structural)]
pub struct ReadinessChecks {
    pub metadata_store: bool,
    pub official_event_log_directory: bool,
    pub report_directory: bool,
}

impl ReadinessChecks {
    /// Ready when every store is reachable.
    pub fn ready(&self) -> (r: bool)
        ensures
            r == (self.metadata_store && self.official_event_log_directory && self.report_directory),
    {
        self.metadata_store && self.official_event_log_directory && self.report_directory
    }
}

/// Stable error codes of the wire error body.
#[derive(Debug, Clone, Copy, PartialEq, Eq, Structural)]
pub enum ApiErrorCode {
    MissingToken,
    InvalidToken,
    Forbidden,
    ValidationFailed,
    StoreUnavailable,
    InvalidJson,
    InvalidUuid,
    NotFound,
}

pub open spec fn api_error_code_text(c: ApiErrorCode) -> Seq<char> {
    match c {
        ApiErrorCode::MissingToken => "missing_token"@,
        ApiErrorCode::InvalidToken => "invalid_token"@,
        ApiErrorCode::Forbidden => "forbidden"@,
        ApiErrorCode::ValidationFailed => "validation_failed"@,
        ApiErrorCode::StoreUnavailable => "store_unavailable"@,
        ApiErrorCode::InvalidJson => "invalid_json"@,
        ApiErrorCode::InvalidUuid => "invalid_uuid"@,
        ApiErrorCode::NotFound => "not_found"@,
    }
}

impl ApiErrorCode {
    /// The code as the wire error body writes it.
    pub fn as_str(self) -> (r: &'static str)
        ensures
            r@ == api_error_code_text(self),
    {
        match self {
            ApiErrorCode::MissingToken => "missing_token",
            ApiErrorCode::InvalidToken => "invalid_token",
            ApiErrorCode::Forbidden => "forbidden",
            ApiErrorCode::ValidationFailed => "validation_failed",
            ApiErrorCode::StoreUnavailable => "store_unavailable",
            ApiErrorCode::InvalidJson => "invalid_json",
            ApiErrorCode::InvalidUuid => "invalid_uuid",
            ApiErrorCode::NotFound => "not_found",
        }
    }
}

/// How a failure is answered: status, message, code, and the label the
/// error counter is bumped with.
#[derive(Debug, Clone, Copy)]
pub struct ErrorReply {
    pub status: u16,
    pub message: &'static str,
    pub code: ApiErrorCode,
    pub kind: &'static str,
}

/// The body of an error reply.
#[derive(Debug)]
pub struct ErrorBody {
    pub error: String,
    pub code: String,
    pub request_id: String,
    pub retryable: bool,
}

/// The body every error reply of the sync server carries: its message, the
/// code's wire name, the request's id, and never retryable.
pub fn error_body(message: &str, code: ApiErrorCode, request_id: String) -> (r: ErrorBody)
    ensures
        r.error@ == message@,
        r.code@ == api_error_code_text(code),
        r.request_id@ == request_id@,
        !r.retryable,
{
    ErrorBody { error: str_to_string(message), code: str_to_string(code.as_str()), request_id, retryable: false }
}

/// The reply to a cloud failure: unauthenticated is 401, an unauthorized
/// logbook 403, a refused pairing or validation 400, a store failure 500.
pub fn cloud_error_reply(error: &CloudSyncError) -> (r: ErrorReply)
    ensures
        error is Unauthenticated ==> r.status == 401 && r.message@ == "unauthenticated"@ && r.code
            == ApiErrorCode::InvalidToken && r.kind@ == "unauthenticated"@,
        error is UnauthorizedLogbook ==> r.status == 403 && r.message@ == "forbidden"@ && r.code
            == ApiErrorCode::Forbidden && r.kind@ == "unauthorized_logbook"@,
        (error is PairingRejected || error is Validation) ==> r.status == 400 && r.message@
            == "request validation failed"@ && r.code == ApiErrorCode::ValidationFailed && r.kind@ == "validation"@,
        error is Store ==> r.status == 500 && r.message@ == "request could not be completed"@ && r.code
            == ApiErrorCode::StoreUnavailable && r.kind@ == "store"@,
{
    match error {
        CloudSyncError::Unauthenticated => ErrorReply {
            status: 401,
            message: "unauthenticated",
            code: ApiErrorCode::InvalidToken,
            kind: "unauthenticated",
        },
        CloudSyncError::UnauthorizedLogbook(_) => ErrorReply {
            status: 403,
            message: "forbidden",
            code: ApiErrorCode::Forbidden,
            kind: "unauthorized_logbook",
        },
        CloudSyncError::PairingRejected(_) | CloudSyncError::Validation(_) => ErrorReply {
            status: 400,
            message: "request validation failed",
            code: ApiErrorCode::ValidationFailed,
            kind: "validation",
        },
        CloudSyncError::Store(_) => ErrorReply {
            status: 500,
            message: "request could not be completed",
            code: ApiErrorCode::StoreUnavailable,
            kind: "store",
        },
    }
}

/// The routes that read a sync token from the query.
pub open spec fn takes_query_token(route: SyncRoute) -> bool {
    route is ReportMetadata || route is ListLogbooks || route is LogbookHead || route is LogbookEvents
}

/// The path suffix after a logbook id.
pub open spec fn logbook_suffix(route: SyncRoute) -> Seq<char> {
    if route is LogbookHead {
        "/head"@
    } else {
        "/events"@
    }
}

/// How a request goes on once its route is known.
#[derive(Debug)]
pub enum RouteStep {
    /// Answered at once with this error.
    Refuse(ErrorReply),
    /// Handed to the route's handler with the token its query carries and
    /// the logbook its path names, where the route reads them.
    Proceed { token: Option<CloudAuth>, logbook_id: Option<u128> },
}

/// The first step of serving a route: a route the server does not serve
/// (metrics included) is 404 `not_found`; a route that reads its token from
/// the query and has none is 401 `missing_token`; a logbook route whose path
/// holds no valid logbook id is 400 `invalid_uuid`; otherwise the request
/// goes on with what it carries.
pub fn route_step(route: SyncRoute, path: &str, query: &str) -> (r: RouteStep)
    ensures
        (route is NotFound || route is Metrics) ==> (r matches RouteStep::Refuse(e) && e.status == 404
            && e.message@ == "not found"@ && e.code == ApiErrorCode::NotFound && e.kind@ == "not_found"@),
        takes_query_token(route) && query_token(query@) is None ==> (r matches RouteStep::Refuse(e) && e.status
            == 401 && e.message@ == "missing token"@ && e.code == ApiErrorCode::MissingToken && e.kind@
            == "missing_token"@),
        takes_query_token(route) && !(route is LogbookHead || route is LogbookEvents) ==> match query_token(query@) {
            Some(t) => r matches RouteStep::Proceed { token: Some(a), logbook_id: None } && a.sync_token@ == t,
            None => true,
        },
        (route is LogbookHead || route is LogbookEvents) ==> match query_token(query@) {
            Some(t) => match uuid_parse_text(logbook_id_text(path@, logbook_suffix(route))) {
                None => r matches RouteStep::Refuse(e) && e.status == 400 && e.message@ == "invalid logbook id"@
                    && e.code == ApiErrorCode::InvalidUuid && e.kind@ == "invalid_request"@,
                Some(id) => r matches RouteStep::Proceed { token: Some(a), logbook_id: Some(l) } && a.sync_token@
                    == t && l == id,
            },
            None => true,
        },
        !(route is NotFound || route is Metrics) && !takes_query_token(route) ==> (r matches RouteStep::Proceed {
            token: None,
            logbook_id: None,
        }),
{
    match route {
        SyncRoute::NotFound | SyncRoute::Metrics => {
            return RouteStep::Refuse(
                ErrorReply { status: 404, message: "not found", code: ApiErrorCode::NotFound, kind: "not_found" },
            );
        },
        SyncRoute::ReportMetadata | SyncRoute::ListLogbooks | SyncRoute::LogbookHead | SyncRoute::LogbookEvents => {},
        _ => {
            return RouteStep::Proceed { token: None, logbook_id: None };
        },
    }
    let token = match auth_from_query(query) {
        Some(t) => t,
        None => {
            return RouteStep::Refuse(
                ErrorReply {
                    status: 401,
                    message: "missing token",
                    code: ApiErrorCode::MissingToken,
                    kind: "missing_token",
                },
            );
        },
    };
    let suffix = match route {
        SyncRoute::LogbookHead => "/head",
        SyncRoute::LogbookEvents => "/events",
        _ => {
            return RouteStep::Proceed { token: Some(token), logbook_id: None };
        },
    };
    proof {
        reveal_strlit("/head");
        reveal_strlit("/events");
    }
    match logbook_id_in_path(path, suffix) {
        Some(id) => RouteStep::Proceed { token: Some(token), logbook_id: Some(id) },
        None => RouteStep::Refuse(
            ErrorReply {
                status: 400,
                message: "invalid logbook id",
                code: ApiErrorCode::InvalidUuid,
                kind: "invalid_request",
            },
        ),
    }
}

/// The request id a client sent in `x-request-id`, unless blank.
pub open spec fn sent_request_id(headers: Map<Seq<char>, Seq<char>>) -> Option<Seq<char>> {
    if headers.contains_key("x-request-id"@) && trim_seq(headers["x-request-id"@]).len() > 0 {
        Some(headers["x-request-id"@])
    } else {
        None
    }
}

/// The request id to answer with: the client's, else a fresh random one.
pub fn request_id(headers: &QueryMap) -> (r: String)
    ensures
        sent_request_id(headers@) matches Some(id) ==> r@ == id,
        sent_request_id(headers@) is None ==> exists|id: u128| r@ == #[trigger] crate::ids::uuid_hyphenated_text(id),
{
    match headers.get("x-request-id") {
        Some(v) => {
            let t = crate::text::trim_str(v.as_str());
            if t.unicode_len() > 0 {
                return v;
            }
        },
        None => {},
    }
    crate::ids::uuid_text(crate::ids::new_uuid())
}

pub open spec fn status_text(status: u16) -> Seq<char> {
    if status == 200 {
        "OK"@
    } else if status == 400 {
        "Bad Request"@
    } else if status == 401 {
        "Unauthorized"@
    } else if status == 403 {
        "Forbidden"@
    } else if status == 404 {
        "Not Found"@
    } else if status == 500 {
        "Internal Server Error"@
    } else if status == 503 {
        "Service Unavailable"@
    } else {
        "OK"@
    }
}

/// The status line and headers of a response.
pub open spec fn response_head(status: u16, content_type: Seq<char>, body_len: nat) -> Seq<char> {
    "HTTP/1.1 "@ + decimal_text(status as nat) + " "@ + status_text(status) + "\r\nContent-Type: "@
        + content_type + "\r\nContent-Length: "@ + decimal_text(body_len) + "\r\nConnection: close\r\n\r\n"@
}

fn status_reason(status: u16) -> (r: &'static str)
    ensures
        r@ == status_text(status),
{
    if status == 200 {
        "OK"
    } else if status == 400 {
        "Bad Request"
    } else if status == 401 {
        "Unauthorized"
    } else if status == 403 {
        "Forbidden"
    } else if status == 404 {
        "Not Found"
    } else if status == 500 {
        "Internal Server Error"
    } else if status == 503 {
        "Service Unavailable"
    } else {
        "OK"
    }
}

/// The HTTP/1.1 bytes of a response: the UTF-8 status line and headers,
/// then the body.
pub fn encode_response(status: u16, content_type: &str, body: &Vec<u8>) -> (r: Vec<u8>)
    ensures
        r@ == encode_utf8(response_head(status, content_type@, body@.len())) + body@,
{
    let mut head = str_to_string("HTTP/1.1 ");
    let code = decimal_string(status as u64);
    append_str(&mut head, code.as_str());
    append_str(&mut head, " ");
    append_str(&mut head, status_reason(status));
    append_str(&mut head, "\r\nContent-Type: ");
    append_str(&mut head, content_type);
    append_str(&mut head, "\r\nContent-Length: ");
    let len = decimal_string(body.len() as u64);
    append_str(&mut head, len.as_str());
    append_str(&mut head, "\r\nConnection: close\r\n\r\n");
    assert(head@ =~= response_head(status, content_type@, body@.len()));
    let bytes = head.as_str().as_bytes();
    let mut out: Vec<u8> = Vec::new();
    let mut i: usize = 0;
    while i < bytes.len()
        invariant
            i <= bytes@.len(),
            out@ == bytes@.subrange(0, i as int),
        decreases bytes@.len() - i,
    {
        out.push(bytes[i]);
        i = i + 1;
        assert(out@ =~= bytes@.subrange(0, i as int));
    }
    let ghost h = out@;
    assert(h =~= bytes@);
    let mut j: usize = 0;
    while j < body.len()
        invariant
            j <= body@.len(),
            out@ == h + body@.subrange(0, j as int),
        decreases body@.len() - j,
    {
        out.push(body[j]);
        j = j + 1;
        assert(out@ =~= h + body@.subrange(0, j as int));
    }
    assert(body@.subrange(0, body@.len() as int) =~= body@);
    out
}

} // verus!
