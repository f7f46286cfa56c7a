//! The hosted API's request model, role rules and route table.
use vstd::prelude::*;
use crate::ids::{parse_uuid_text, uuid_parse_text};
use crate::query::{parse_query, query_table, split_target, target_parts, QueryMap};
use crate::text::{
    append_str, chars_of, is_prefix, push_char, str_eq, str_to_string, string_of_range, views_of,
};

verus! {

/// A member's role in one logbook.
#[derive(Debug, Clone, Copy, PartialEq, Eq, Structural)]
pub enum LogbookRole {
    Owner,
    Admin,
    Operator,
    Viewer,
}

/// The role a proposal is submitted under.
#[derive(Debug, Clone, Copy, PartialEq, Eq, Structural)]
pub enum ProposalRole {
    Admin,
    Logger,
    ReadOnly,
}

/// What a request needs to do with a logbook.
#[derive(Debug, Clone, Copy, PartialEq, Eq, Structural)]
pub enum LogbookAccess {
    Read,
    LogQso,
    Admin,
}

impl LogbookRole {
    pub fn can_read(self) -> (r: bool)
        ensures
            r,
    {
        match self {
            LogbookRole::Owner | LogbookRole::Admin | LogbookRole::Operator | LogbookRole::Viewer => true,
        }
    }

    pub fn can_log_qso(self) -> (r: bool)
        ensures
            r == !(self is Viewer),
    {
        match self {
            LogbookRole::Owner | LogbookRole::Admin | LogbookRole::Operator => true,
            LogbookRole::Viewer => false,
        }
    }

    pub fn can_administer(self) -> (r: bool)
        ensures
            r == (self is Owner || self is Admin),
    {
        match self {
            LogbookRole::Owner | LogbookRole::Admin => true,
            _ => false,
        }
    }

    pub fn can_manage_owner_resources(self) -> (r: bool)
        ensures
            r == (self is Owner),
    {
        match self {
            LogbookRole::Owner => true,
            _ => false,
        }
    }

    pub fn proposal_role(self) -> (r: ProposalRole)
        ensures
            r == (match self {
                LogbookRole::Owner | LogbookRole::Admin => ProposalRole::Admin,
                LogbookRole::Operator => ProposalRole::Logger,
                LogbookRole::Viewer => ProposalRole::ReadOnly,
            }),
    {
        match self {
            LogbookRole::Owner | LogbookRole::Admin => ProposalRole::Admin,
            LogbookRole::Operator => ProposalRole::Logger,
            LogbookRole::Viewer => ProposalRole::ReadOnly,
        }
    }
}

pub open spec fn role_allows(role: LogbookRole, access: LogbookAccess) -> bool {
    match access {
        LogbookAccess::Read => true,
        LogbookAccess::LogQso => !(role is Viewer),
        LogbookAccess::Admin => role is Owner || role is Admin,
    }
}

/// Whether `role` grants `access`.
pub fn role_grants(role: LogbookRole, access: LogbookAccess) -> (r: bool)
    ensures
        r == role_allows(role, access),
{
    match access {
        LogbookAccess::Read => role.can_read(),
        LogbookAccess::LogQso => role.can_log_qso(),
        LogbookAccess::Admin => role.can_administer(),
    }
}

/// One hosted API request.
#[derive(Debug, Clone)]
pub struct ApiRequest {
    pub method: String,
    pub path: String,
    pub query: QueryMap,
    pub headers: QueryMap,
    pub body: Vec<u8>,
}

impl ApiRequest {
    /// A `GET` request for `target` (`path?query`).
    pub fn get(target: &str) -> (r: Self)
        ensures
            r.method@ == "GET"@,
            r.path@ == target_parts(target@).0,
            r.query@ == query_table(target_parts(target@).1),
            r.headers@ == Map::<Seq<char>, Seq<char>>::empty(),
            r.body@.len() == 0,
    {
        let (path, query) = split_target(target);
        ApiRequest {
            method: str_to_string("GET"),
            path,
            query: parse_query(query.as_str()),
            headers: QueryMap::new(),
            body: Vec::new(),
        }
    }

    /// The same request with an `authorization: Bearer <token>` header.
    pub fn with_bearer(self, token: &str) -> (r: Self)
        ensures
            r.headers@ == self.headers@.insert("authorization"@, "Bearer "@ + token@),
            r.method == self.method,
            r.path == self.path,
            r.query == self.query,
            r.body == self.body,
    {
        let mut value = str_to_string("Bearer ");
        append_str(&mut value, token);
        let mut request = self;
        request.headers.insert(str_to_string("authorization"), value);
        request
    }
}

/// The header value a request authenticates with, if any.
pub open spec fn auth_header(h: Map<Seq<char>, Seq<char>>) -> Option<Seq<char>> {
    if h.contains_key("authorization"@) {
        Some(h["authorization"@])
    } else if h.contains_key("Authorization"@) {
        Some(h["Authorization"@])
    } else {
        None
    }
}

/// The bearer token of a request: the authorization header after `Bearer `.
pub open spec fn bearer_of(h: Map<Seq<char>, Seq<char>>) -> Option<Seq<char>> {
    match auth_header(h) {
        Some(v) => if is_prefix("Bearer "@, v) {
            Some(v.subrange(7, v.len() as int))
        } else {
            None
        },
        None => None,
    }
}

/// The token of the `authorization` (or `Authorization`) header when it
/// starts with `Bearer `.
pub fn bearer_token(request: &ApiRequest) -> (r: Option<String>)
    ensures
        r is Some == bearer_of(request.headers@) is Some,
        r is Some ==> r->0@ == bearer_of(request.headers@)->0,
{
    let header = match request.headers.get("authorization") {
        Some(v) => Some(v),
        None => request.headers.get("Authorization"),
    };
    match header {
        Some(v) => {
            let lit = "Bearer ";
            let prefix = crate::text::starts_with_str(v.as_str(), lit);
            if prefix {
                let cv = chars_of(v.as_str());
                let lv = chars_of(lit);
                proof {
                    reveal_strlit("Bearer ");
                }
                assert(lv@.len() == 7);
                Some(string_of_range(cv.as_slice(), 7, cv.len()))
            } else {
                None
            }
        },
        None => None,
    }
}

/// A hosted API response.
#[derive(Debug, Clone)]
pub struct ApiResponse {
    pub status: u16,
    pub body: Vec<u8>,
}

/// Why a hosted API request failed.
#[derive(Debug, Clone)]
pub enum ApiError {
    Unauthenticated,
    InactiveSession,
    RevokedDevice,
    Forbidden,
    NotFound,
    BadRequest(String),
    Proposal(String),
    Store(String),
}

pub open spec fn api_error_status_of(e: ApiError) -> u16 {
    match e {
        ApiError::BadRequest(_) => 400,
        ApiError::Unauthenticated | ApiError::InactiveSession | ApiError::RevokedDevice => 401,
        ApiError::Forbidden => 403,
        ApiError::NotFound => 404,
        ApiError::Proposal(_) | ApiError::Store(_) => 400,
    }
}

pub open spec fn api_error_message_of(e: ApiError) -> Seq<char> {
    match e {
        ApiError::BadRequest(m) => m@,
        ApiError::Unauthenticated | ApiError::InactiveSession | ApiError::RevokedDevice => "unauthenticated"@,
        ApiError::Forbidden => "forbidden"@,
        ApiError::NotFound => "not found"@,
        ApiError::Proposal(m) => m@,
        ApiError::Store(m) => m@,
    }
}

/// The status and message the hosted server answers an error with.
pub fn api_error_response(error: &ApiError) -> (r: (u16, String))
    ensures
        r.0 == api_error_status_of(*error),
        r.1@ == api_error_message_of(*error),
{
    match error {
        ApiError::BadRequest(m) => (400, m.clone()),
        ApiError::Unauthenticated | ApiError::InactiveSession | ApiError::RevokedDevice => (
            401,
            str_to_string("unauthenticated"),
        ),
        ApiError::Forbidden => (403, str_to_string("forbidden")),
        ApiError::NotFound => (404, str_to_string("not found")),
        ApiError::Proposal(m) => (400, m.clone()),
        ApiError::Store(m) => (400, m.clone()),
    }
}

/// Body of `POST /api/v1/auth/login`.
#[derive(Debug, Clone)]
pub struct LoginRequest {
    pub email: String,
    pub display_name: Option<String>,
    pub device_name: Option<String>,
}

/// Body of `POST /api/v1/logbooks`.
#[derive(Debug, Clone)]
pub struct CreateLogbookRequest {
    pub name: String,
    pub description: Option<String>,
    pub station_callsign: Option<String>,
}

/// Body of `PATCH /api/v1/logbooks/:id`.
#[derive(Debug, Clone)]
pub struct UpdateLogbookRequest {
    pub name: Option<String>,
    pub description: Option<String>,
    pub station_callsign: Option<String>,
}

/// The routes the hosted API serves and the ones it reserves.
#[derive(Debug, Clone)]
pub struct RouteCatalogResponse {
    pub implemented: Vec<String>,
    pub scaffolded: Vec<String>,
}

/// Where the hosted metadata database lives.
#[derive(Debug, Clone)]
pub struct SqliteHostedMetadataStore {
    path: String,
}

impl SqliteHostedMetadataStore {
    pub fn new(path: String) -> (r: Self)
        ensures
            r.path_view() == path@,
    {
        SqliteHostedMetadataStore { path }
    }

    pub closed spec fn path_view(&self) -> Seq<char> {
        self.path@
    }

    pub fn path(&self) -> (r: &str)
        ensures
            r@ == self.path_view(),
    {
        self.path.as_str()
    }
}

pub open spec fn implemented_routes() -> Seq<Seq<char>> {
    seq![
        "GET /health"@,
        "GET /api/v1/status"@,
        "POST /api/v1/auth/login"@,
        "POST /api/v1/auth/logout"@,
        "GET /api/v1/auth/session"@,
        "GET /api/v1/logbooks"@,
        "POST /api/v1/logbooks"@,
        "GET /api/v1/logbooks/:id"@,
        "PATCH /api/v1/logbooks/:id"@,
        "GET /api/v1/qsos"@,
        "POST /api/v1/qsos"@,
        "GET /api/v1/qsos/:id"@,
        "PATCH /api/v1/qsos/:id"@,
        "POST /api/v1/qsos/:id/delete"@,
        "POST /api/v1/qsos/:id/restore"@,
        "POST /api/v1/qsos/:id/notes"@,
        "GET /api/v1/providers"@,
        "GET /api/v1/sync/status"@,
        "POST /api/v1/sync/preview"@,
        "POST /api/v1/sync/push"@,
        "GET /api/v1/devices"@,
        "POST /api/v1/devices"@,
        "POST /api/v1/devices/:id/revoke"@,
    ]
}

pub open spec fn scaffolded_routes() -> Seq<Seq<char>> {
    seq![
        "POST /api/v1/adif/import"@,
        "GET /api/v1/adif/export"@,
        "GET /api/v1/station-profiles"@,
        "POST /api/v1/station-profiles"@,
        "PATCH /api/v1/station-profiles/:id"@,
        "POST /api/v1/station-profiles/:id/archive"@,
        "GET /api/v1/equipment"@,
        "POST /api/v1/equipment"@,
        "PATCH /api/v1/equipment/:id"@,
        "POST /api/v1/equipment/:id/archive"@,
        "GET /api/v1/activations"@,
        "POST /api/v1/activations"@,
        "PATCH /api/v1/activations/:id"@,
        "GET /api/v1/net-control/sessions"@,
        "POST /api/v1/net-control/sessions"@,
        "PATCH /api/v1/net-control/sessions/:id"@,
        "POST /api/v1/net-control/sessions/:id/checkins"@,
        "GET /api/v1/maps/qsos"@,
        "GET /api/v1/maps/settings"@,
        "PATCH /api/v1/maps/settings"@,
        "GET /api/v1/providers/:id"@,
        "PATCH /api/v1/providers/:id"@,
        "POST /api/v1/providers/:id/test"@,
        "GET /api/v1/uploads"@,
        "POST /api/v1/uploads/run"@,
        "POST /api/v1/uploads/:id/retry"@,
        "POST /api/v1/sync/pull"@,
    ]
}

fn push_text(v: &mut Vec<String>, s: &str)
    ensures
        views_of(final(v)@) == views_of(old(v)@).push(s@),
{
    v.push(str_to_string(s));
    assert(views_of(v@) =~= views_of(old(v)@).push(s@));
}

fn implemented_route_list() -> (r: Vec<String>)
    ensures
        views_of(r@) == implemented_routes(),
{
    let mut v: Vec<String> = Vec::new();
    push_text(&mut v, "GET /health");
    push_text(&mut v, "GET /api/v1/status");
    push_text(&mut v, "POST /api/v1/auth/login");
    push_text(&mut v, "POST /api/v1/auth/logout");
    push_text(&mut v, "GET /api/v1/auth/session");
    push_text(&mut v, "GET /api/v1/logbooks");
    push_text(&mut v, "POST /api/v1/logbooks");
    push_text(&mut v, "GET /api/v1/logbooks/:id");
    push_text(&mut v, "PATCH /api/v1/logbooks/:id");
    push_text(&mut v, "GET /api/v1/qsos");
    push_text(&mut v, "POST /api/v1/qsos");
    push_text(&mut v, "GET /api/v1/qsos/:id");
    push_text(&mut v, "PATCH /api/v1/qsos/:id");
    push_text(&mut v, "POST /api/v1/qsos/:id/delete");
    push_text(&mut v, "POST /api/v1/qsos/:id/restore");
    push_text(&mut v, "POST /api/v1/qsos/:id/notes");
    push_text(&mut v, "GET /api/v1/providers");
    push_text(&mut v, "GET /api/v1/sync/status");
    push_text(&mut v, "POST /api/v1/sync/preview");
    push_text(&mut v, "POST /api/v1/sync/push");
    push_text(&mut v, "GET /api/v1/devices");
    push_text(&mut v, "POST /api/v1/devices");
    push_text(&mut v, "POST /api/v1/devices/:id/revoke");
    assert(views_of(v@) =~= implemented_routes());
    v
}

fn scaffolded_route_list() -> (r: Vec<String>)
    ensures
        views_of(r@) == scaffolded_routes(),
{
    let mut v: Vec<String> = Vec::new();
    push_text(&mut v, "POST /api/v1/adif/import");
    push_text(&mut v, "GET /api/v1/adif/export");
    push_text(&mut v, "GET /api/v1/station-profiles");
    push_text(&mut v, "POST /api/v1/station-profiles");
    push_text(&mut v, "PATCH /api/v1/station-profiles/:id");
    push_text(&mut v, "POST /api/v1/station-profiles/:id/archive");
    push_text(&mut v, "GET /api/v1/equipment");
    push_text(&mut v, "POST /api/v1/equipment");
    push_text(&mut v, "PATCH /api/v1/equipment/:id");
    push_text(&mut v, "POST /api/v1/equipment/:id/archive");
    push_text(&mut v, "GET /api/v1/activations");
    push_text(&mut v, "POST /api/v1/activations");
    push_text(&mut v, "PATCH /api/v1/activations/:id");
    push_text(&mut v, "GET /api/v1/net-control/sessions");
    push_text(&mut v, "POST /api/v1/net-control/sessions");
    push_text(&mut v, "PATCH /api/v1/net-control/sessions/:id");
    push_text(&mut v, "POST /api/v1/net-control/sessions/:id/checkins");
    push_text(&mut v, "GET /api/v1/maps/qsos");
    push_text(&mut v, "GET /api/v1/maps/settings");
    push_text(&mut v, "PATCH /api/v1/maps/settings");
    push_text(&mut v, "GET /api/v1/providers/:id");
    push_text(&mut v, "PATCH /api/v1/providers/:id");
    push_text(&mut v, "POST /api/v1/providers/:id/test");
    push_text(&mut v, "GET /api/v1/uploads");
    push_text(&mut v, "POST /api/v1/uploads/run");
    push_text(&mut v, "POST /api/v1/uploads/:id/retry");
    push_text(&mut v, "POST /api/v1/sync/pull");
    assert(views_of(v@) =~= scaffolded_routes());
    v
}

/// The route table served at `GET /api/v1/routes`.
pub fn route_catalog() -> (r: RouteCatalogResponse)
    ensures
        views_of(r.implemented@) == implemented_routes(),
        views_of(r.scaffolded@) == scaffolded_routes(),
{
    RouteCatalogResponse { implemented: implemented_route_list(), scaffolded: scaffolded_route_list() }
}

/// Collections whose next segment is an identifier in a route pattern.
pub open spec fn id_collection(s: Seq<char>) -> bool {
    ||| s == "station-profiles"@
    ||| s == "equipment"@
    ||| s == "activations"@
    ||| s == "sessions"@
    ||| s == "providers"@
    ||| s == "uploads"@
    ||| s == "devices"@
}

pub open spec fn pattern_piece(segs: Seq<Seq<char>>, i: int) -> Seq<char> {
    if i > 2 && (uuid_parse_text(segs[i]) is Some || id_collection(segs[i - 1])) {
        ":id"@
    } else {
        segs[i]
    }
}

pub open spec fn pattern_pieces(segs: Seq<Seq<char>>) -> Seq<Seq<char>> {
    Seq::new(segs.len(), |i: int| pattern_piece(segs, i))
}

/// `parts.join(sep)`.
pub open spec fn join_with(parts: Seq<Seq<char>>, sep: char) -> Seq<char>
    decreases parts.len(),
{
    if parts.len() == 0 {
        Seq::empty()
    } else if parts.len() == 1 {
        parts[0]
    } else {
        join_with(parts.drop_last(), sep).push(sep) + parts.last()
    }
}

/// The route pattern of a path: identifiers after the third segment become
/// `:id`.
pub open spec fn route_pattern_of(segs: Seq<Seq<char>>) -> Seq<char> {
    seq!['/'] + join_with(pattern_pieces(segs), '/')
}

fn is_id_collection(s: &str) -> (r: bool)
    ensures
        r == id_collection(s@),
{
    str_eq(s, "station-profiles") || str_eq(s, "equipment") || str_eq(s, "activations") || str_eq(
        s,
        "sessions",
    ) || str_eq(s, "providers") || str_eq(s, "uploads") || str_eq(s, "devices")
}

/// The route pattern of path segments.
pub fn route_pattern(segments: &Vec<String>) -> (r: String)
    ensures
        r@ == route_pattern_of(views_of(segments@)),
{
    let ghost segs = views_of(segments@);
    let ghost pieces = pattern_pieces(segs);
    let mut out = String::new();
    push_char(&mut out, '/');
    let mut i: usize = 0;
    while i < segments.len()
        invariant
            i <= segments@.len(),
            segs == views_of(segments@),
            pieces == pattern_pieces(segs),
            out@ == seq!['/'] + join_with(pieces.subrange(0, i as int), '/'),
        decreases segments@.len() - i,
    {
        let ghost before = out@;
        if i > 0 {
            push_char(&mut out, '/');
        }
        let id_piece = i > 2 && (parse_uuid_text(segments[i].as_str()).is_some() || is_id_collection(
            segments[i - 1].as_str(),
        ));
        if id_piece {
            append_str(&mut out, ":id");
        } else {
            append_str(&mut out, segments[i].as_str());
        }
        proof {
            assert(pieces[i as int] == pattern_piece(segs, i as int));
            let p1 = pieces.subrange(0, i + 1);
            assert(p1.drop_last() =~= pieces.subrange(0, i as int));
            assert(p1.last() == pieces[i as int]);
            if i == 0 {
                assert(join_with(p1, '/') == pieces[0]);
                assert(out@ =~= seq!['/'] + join_with(p1, '/'));
            } else {
                assert(join_with(p1, '/') == join_with(p1.drop_last(), '/').push('/') + p1.last());
                assert(out@ =~= seq!['/'] + join_with(p1, '/'));
            }
        }
        i = i + 1;
    }
    proof {
        assert(pieces.subrange(0, segments@.len() as int) =~= pieces);
    }
    out
}

/// `"<method> <pattern>"` for a request.
pub open spec fn route_key(method: Seq<char>, segs: Seq<Seq<char>>) -> Seq<char> {
    method.push(' ') + route_pattern_of(segs)
}

/// Whether the request targets a reserved (not yet implemented) route.
pub fn is_scaffolded_route(method: &str, segments: &Vec<String>) -> (r: bool)
    ensures
        r == scaffolded_routes().contains(route_key(method@, views_of(segments@))),
{
    let mut key = str_to_string(method);
    push_char(&mut key, ' ');
    let pattern = route_pattern(segments);
    append_str(&mut key, pattern.as_str());
    let routes = scaffolded_route_list();
    let mut i: usize = 0;
    while i < routes.len()
        invariant
            i <= routes@.len(),
            views_of(routes@) == scaffolded_routes(),
            key@ == route_key(method@, views_of(segments@)),
            forall|k: int| 0 <= k < i ==> scaffolded_routes()[k] != key@,
        decreases routes@.len() - i,
    {
        if str_eq(routes[i].as_str(), key.as_str()) {
            assert(scaffolded_routes()[i as int] == key@);
            return true;
        }
        i = i + 1;
    }
    false
}


/// The handler a hosted API request reaches. Routes under a logbook, QSO
/// or device carry its id as the fourth path segment.
#[derive(Debug, Clone, Copy, PartialEq, Eq, Structural)]
pub enum HostedRoute {
    Health,
    Status,
    Routes,
    Login,
    Logout,
    Session,
    ListLogbooks,
    CreateLogbook,
    GetLogbook,
    PatchLogbook,
    ListQsos,
    CreateQso,
    GetQso,
    PatchQso,
    DeleteQso,
    RestoreQso,
    AddQsoNote,
    Providers,
    SyncStatus,
    SyncPreview,
    SyncPush,
    Devices,
    RegisterDevice,
    RevokeDevice,
    /// A reserved route, answered as not yet implemented.
    Scaffolded,
    NotFound,
}

/// The path is `api/v1/` followed by `rest`, a `*` standing for any segment.
pub open spec fn api_path(segs: Seq<Seq<char>>, rest: Seq<Seq<char>>) -> bool {
    &&& segs.len() == rest.len() + 2
    &&& segs[0] == "api"@
    &&& segs[1] == "v1"@
    &&& forall|i: int| 0 <= i < rest.len() && rest[i] != "*"@ ==> segs[i + 2] == #[trigger] rest[i]
}

/// The route of a method and path segments, in the server's order.
pub open spec fn hosted_route_of(method: Seq<char>, segs: Seq<Seq<char>>) -> HostedRoute {
    let get = method == "GET"@;
    let post = method == "POST"@;
    let patch = method == "PATCH"@;
    if get && segs == seq!["health"@] {
        HostedRoute::Health
    } else if get && api_path(segs, seq!["status"@]) {
        HostedRoute::Status
    } else if get && api_path(segs, seq!["routes"@]) {
        HostedRoute::Routes
    } else if post && api_path(segs, seq!["auth"@, "login"@]) {
        HostedRoute::Login
    } else if post && api_path(segs, seq!["auth"@, "logout"@]) {
        HostedRoute::Logout
    } else if get && api_path(segs, seq!["auth"@, "session"@]) {
        HostedRoute::Session
    } else if get && api_path(segs, seq!["logbooks"@]) {
        HostedRoute::ListLogbooks
    } else if post && api_path(segs, seq!["logbooks"@]) {
        HostedRoute::CreateLogbook
    } else if get && api_path(segs, seq!["logbooks"@, "*"@]) {
        HostedRoute::GetLogbook
    } else if patch && api_path(segs, seq!["logbooks"@, "*"@]) {
        HostedRoute::PatchLogbook
    } else if get && api_path(segs, seq!["qsos"@]) {
        HostedRoute::ListQsos
    } else if post && api_path(segs, seq!["qsos"@]) {
        HostedRoute::CreateQso
    } else if get && api_path(segs, seq!["qsos"@, "*"@]) {
        HostedRoute::GetQso
    } else if patch && api_path(segs, seq!["qsos"@, "*"@]) {
        HostedRoute::PatchQso
    } else if post && api_path(segs, seq!["qsos"@, "*"@, "delete"@]) {
        HostedRoute::DeleteQso
    } else if post && api_path(segs, seq!["qsos"@, "*"@, "restore"@]) {
        HostedRoute::RestoreQso
    } else if post && api_path(segs, seq!["qsos"@, "*"@, "notes"@]) {
        HostedRoute::AddQsoNote
    } else if get && api_path(segs, seq!["providers"@]) {
        HostedRoute::Providers
    } else if get && api_path(segs, seq!["sync"@, "status"@]) {
        HostedRoute::SyncStatus
    } else if post && api_path(segs, seq!["sync"@, "preview"@]) {
        HostedRoute::SyncPreview
    } else if post && api_path(segs, seq!["sync"@, "push"@]) {
        HostedRoute::SyncPush
    } else if get && api_path(segs, seq!["devices"@]) {
        HostedRoute::Devices
    } else if post && api_path(segs, seq!["devices"@]) {
        HostedRoute::RegisterDevice
    } else if post && api_path(segs, seq!["devices"@, "*"@, "revoke"@]) {
        HostedRoute::RevokeDevice
    } else if scaffolded_routes().contains(route_key(method, segs)) {
        HostedRoute::Scaffolded
    } else {
        HostedRoute::NotFound
    }
}

/// The first `n` (one to three) of `a`, `b`, `c`.
pub open spec fn pattern_of(n: usize, a: Seq<char>, b: Seq<char>, c: Seq<char>) -> Seq<Seq<char>> {
    if n <= 1 {
        seq![a]
    } else if n == 2 {
        seq![a, b]
    } else {
        seq![a, b, c]
    }
}

fn seg_matches(segments: &Vec<String>, i: usize, p: &str) -> (r: bool)
    requires
        i < segments@.len(),
    ensures
        r == (p@ == "*"@ || views_of(segments@)[i as int] == p@),
{
    proof {
        reveal_strlit("*");
    }
    str_eq(p, "*") || str_eq(segments[i].as_str(), p)
}

/// Whether the path is `api/v1/` followed by the first `n` of `a`, `b`,
/// `c` (`*` matching any segment).
fn is_api_path(segments: &Vec<String>, n: usize, a: &str, b: &str, c: &str) -> (r: bool)
    ensures
        r == api_path(views_of(segments@), pattern_of(n, a@, b@, c@)),
{
    let ghost segs = views_of(segments@);
    let ghost pat = pattern_of(n, a@, b@, c@);
    let m: usize = if n <= 1 { 1 } else if n == 2 { 2 } else { 3 };
    assert(pat.len() == m);
    proof {
        reveal_strlit("api");
        reveal_strlit("v1");
    }
    if segments.len() != m + 2 {
        return false;
    }
    assert(segs[0] == segments@[0]@ && segs[1] == segments@[1]@);
    if !str_eq(segments[0].as_str(), "api") || !str_eq(segments[1].as_str(), "v1") {
        return false;
    }
    let ok_a = seg_matches(segments, 2, a);
    let ok_b = m < 2 || seg_matches(segments, 3, b);
    let ok_c = m < 3 || seg_matches(segments, 4, c);
    assert(pat[0] == a@);
    assert(m >= 2 ==> pat[1] == b@);
    assert(m >= 3 ==> pat[2] == c@);
    if ok_a && ok_b && ok_c {
        assert forall|i: int| 0 <= i < pat.len() && pat[i] != "*"@ implies segs[i + 2] == #[trigger] pat[i] by {
            if i == 0 {
            } else if i == 1 {
            } else {
            }
        }
        true
    } else {
        if !ok_a {
            assert(pat[0] != "*"@ && segs[2] != pat[0]);
        } else if !ok_b {
            assert(pat[1] != "*"@ && segs[3] != pat[1]);
        } else {
            assert(pat[2] != "*"@ && segs[4] != pat[2]);
        }
        false
    }
}

/// The route a hosted API request reaches.
pub fn classify_hosted_route(method: &str, segments: &Vec<String>) -> (r: HostedRoute)
    ensures
        r == hosted_route_of(method@, views_of(segments@)),
{
    let get = str_eq(method, "GET");
    let post = str_eq(method, "POST");
    let patch = str_eq(method, "PATCH");
    let ghost segs = views_of(segments@);
    let health = segments.len() == 1 && str_eq(segments[0].as_str(), "health");
    assert(health == (segs == seq!["health"@])) by {
        if segments@.len() == 1 {
            assert(segs[0] == segments@[0]@);
            if segs[0] == "health"@ {
                assert(segs =~= seq!["health"@]);
            }
        }
    }
    if get && health {
        HostedRoute::Health
    } else if get && is_api_path(segments, 1, "status", "", "") {
        HostedRoute::Status
    } else if get && is_api_path(segments, 1, "routes", "", "") {
        HostedRoute::Routes
    } else if post && is_api_path(segments, 2, "auth", "login", "") {
        HostedRoute::Login
    } else if post && is_api_path(segments, 2, "auth", "logout", "") {
        HostedRoute::Logout
    } else if get && is_api_path(segments, 2, "auth", "session", "") {
        HostedRoute::Session
    } else if get && is_api_path(segments, 1, "logbooks", "", "") {
        HostedRoute::ListLogbooks
    } else if post && is_api_path(segments, 1, "logbooks", "", "") {
        HostedRoute::CreateLogbook
    } else if get && is_api_path(segments, 2, "logbooks", "*", "") {
        HostedRoute::GetLogbook
    } else if patch && is_api_path(segments, 2, "logbooks", "*", "") {
        HostedRoute::PatchLogbook
    } else if get && is_api_path(segments, 1, "qsos", "", "") {
        HostedRoute::ListQsos
    } else if post && is_api_path(segments, 1, "qsos", "", "") {
        HostedRoute::CreateQso
    } else if get && is_api_path(segments, 2, "qsos", "*", "") {
        HostedRoute::GetQso
    } else if patch && is_api_path(segments, 2, "qsos", "*", "") {
        HostedRoute::PatchQso
    } else if post && is_api_path(segments, 3, "qsos", "*", "delete") {
        HostedRoute::DeleteQso
    } else if post && is_api_path(segments, 3, "qsos", "*", "restore") {
        HostedRoute::RestoreQso
    } else if post && is_api_path(segments, 3, "qsos", "*", "notes") {
        HostedRoute::AddQsoNote
    } else if get && is_api_path(segments, 1, "providers", "", "") {
        HostedRoute::Providers
    } else if get && is_api_path(segments, 2, "sync", "status", "") {
        HostedRoute::SyncStatus
    } else if post && is_api_path(segments, 2, "sync", "preview", "") {
        HostedRoute::SyncPreview
    } else if post && is_api_path(segments, 2, "sync", "push", "") {
        HostedRoute::SyncPush
    } else if get && is_api_path(segments, 1, "devices", "", "") {
        HostedRoute::Devices
    } else if post && is_api_path(segments, 1, "devices", "", "") {
        HostedRoute::RegisterDevice
    } else if post && is_api_path(segments, 3, "devices", "*", "revoke") {
        HostedRoute::RevokeDevice
    } else if is_scaffolded_route(method, segments) {
        HostedRoute::Scaffolded
    } else {
        HostedRoute::NotFound
    }
}

} // verus!
