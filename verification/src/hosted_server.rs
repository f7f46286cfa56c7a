//! The hosted server's account state: sign-in, sessions, devices, logbooks
//! and memberships, and the rules that decide who may do what.
use vstd::prelude::*;
use crate::events::{copy_opt, opt_view};
use crate::hosted_api::{
    bearer_of, bearer_token, role_allows, ApiError, ApiRequest, CreateLogbookRequest,
    LogbookAccess, LogbookRole, LoginRequest, UpdateLogbookRequest,
};
use crate::ids::uuid_hyphenated_text;
use crate::text::{
    append_str, lower_ascii_seq, lower_ascii_str, seq_lt, str_to_string, trim_seq, trim_str,
};

verus! {

#[derive(Debug)]
pub struct UserAccount {
    pub account_id: u128,
    pub user_id: u128,
    pub email: String,
    pub display_name: String,
    pub created_at: i64,
}

pub struct AccountView {
    pub account_id: u128,
    pub user_id: u128,
    pub email: Seq<char>,
    pub display_name: Seq<char>,
    pub created_at: i64,
}

impl View for UserAccount {
    type V = AccountView;

    open spec fn view(&self) -> AccountView {
        AccountView {
            account_id: self.account_id,
            user_id: self.user_id,
            email: self.email@,
            display_name: self.display_name@,
            created_at: self.created_at,
        }
    }
}

impl UserAccount {
    pub fn copy(&self) -> (r: Self)
        ensures
            r@ == self@,
    {
        UserAccount {
            account_id: self.account_id,
            user_id: self.user_id,
            email: self.email.clone(),
            display_name: self.display_name.clone(),
            created_at: self.created_at,
        }
    }
}

#[derive(Debug)]
pub struct LoginSession {
    pub session_id: u128,
    pub account_id: u128,
    pub user_id: u128,
    pub device_id: u128,
    pub token: String,
    pub issued_at: i64,
    pub expires_at: Option<i64>,
    pub active: bool,
}

pub struct SessionView {
    pub session_id: u128,
    pub account_id: u128,
    pub user_id: u128,
    pub device_id: u128,
    pub token: Seq<char>,
    pub issued_at: i64,
    pub expires_at: Option<i64>,
    pub active: bool,
}

impl View for LoginSession {
    type V = SessionView;

    open spec fn view(&self) -> SessionView {
        SessionView {
            session_id: self.session_id,
            account_id: self.account_id,
            user_id: self.user_id,
            device_id: self.device_id,
            token: self.token@,
            issued_at: self.issued_at,
            expires_at: self.expires_at,
            active: self.active,
        }
    }
}

impl LoginSession {
    pub fn copy(&self) -> (r: Self)
        ensures
            r@ == self@,
    {
        LoginSession {
            session_id: self.session_id,
            account_id: self.account_id,
            user_id: self.user_id,
            device_id: self.device_id,
            token: self.token.clone(),
            issued_at: self.issued_at,
            expires_at: self.expires_at,
            active: self.active,
        }
    }
}

#[derive(Debug)]
pub struct DeviceIdentity {
    pub device_id: u128,
    pub account_id: u128,
    pub user_id: u128,
    pub device_name: String,
    pub fingerprint: String,
    pub trusted: bool,
    pub revoked: bool,
    pub registered_at: i64,
    pub revoked_at: Option<i64>,
}

pub struct DeviceView {
    pub device_id: u128,
    pub account_id: u128,
    pub user_id: u128,
    pub device_name: Seq<char>,
    pub fingerprint: Seq<char>,
    pub trusted: bool,
    pub revoked: bool,
    pub registered_at: i64,
    pub revoked_at: Option<i64>,
}

impl View for DeviceIdentity {
    type V = DeviceView;

    open spec fn view(&self) -> DeviceView {
        DeviceView {
            device_id: self.device_id,
            account_id: self.account_id,
            user_id: self.user_id,
            device_name: self.device_name@,
            fingerprint: self.fingerprint@,
            trusted: self.trusted,
            revoked: self.revoked,
            registered_at: self.registered_at,
            revoked_at: self.revoked_at,
        }
    }
}

impl DeviceIdentity {
    pub fn copy(&self) -> (r: Self)
        ensures
            r@ == self@,
    {
        DeviceIdentity {
            device_id: self.device_id,
            account_id: self.account_id,
            user_id: self.user_id,
            device_name: self.device_name.clone(),
            fingerprint: self.fingerprint.clone(),
            trusted: self.trusted,
            revoked: self.revoked,
            registered_at: self.registered_at,
            revoked_at: self.revoked_at,
        }
    }
}

#[derive(Debug)]
pub struct ApiLogbook {
    pub logbook_id: u128,
    pub account_id: u128,
    pub name: String,
    pub description: Option<String>,
    pub station_callsign: Option<String>,
    pub created_at: i64,
    pub updated_at: i64,
}

pub struct LogbookView {
    pub logbook_id: u128,
    pub account_id: u128,
    pub name: Seq<char>,
    pub description: Option<Seq<char>>,
    pub station_callsign: Option<Seq<char>>,
    pub created_at: i64,
    pub updated_at: i64,
}

impl View for ApiLogbook {
    type V = LogbookView;

    open spec fn view(&self) -> LogbookView {
        LogbookView {
            logbook_id: self.logbook_id,
            account_id: self.account_id,
            name: self.name@,
            description: opt_view(self.description),
            station_callsign: opt_view(self.station_callsign),
            created_at: self.created_at,
            updated_at: self.updated_at,
        }
    }
}

impl ApiLogbook {
    pub fn copy(&self) -> (r: Self)
        ensures
            r@ == self@,
    {
        ApiLogbook {
            logbook_id: self.logbook_id,
            account_id: self.account_id,
            name: self.name.clone(),
            description: copy_opt(&self.description),
            station_callsign: copy_opt(&self.station_callsign),
            created_at: self.created_at,
            updated_at: self.updated_at,
        }
    }
}

#[derive(Debug, Clone, Copy, PartialEq, Eq, Structural)]
pub struct LogbookMembership {
    pub account_id: u128,
    pub logbook_id: u128,
    pub user_id: u128,
    pub role: LogbookRole,
    pub created_at: i64,
}

/// The hosted server's account state. Each list is keyed: accounts by
/// account id, logbooks by logbook id, sessions by token, devices by device
/// id, and the email index by email; lookups take the first entry with the
/// key and writes replace it or append.
#[derive(Debug)]
pub struct ServerState {
    pub users_by_email: Vec<(String, u128)>,
    pub accounts: Vec<UserAccount>,
    pub logbooks: Vec<ApiLogbook>,
    pub memberships: Vec<LogbookMembership>,
    pub sessions: Vec<LoginSession>,
    pub devices: Vec<DeviceIdentity>,
}

pub struct ServerView {
    pub emails: Seq<(Seq<char>, u128)>,
    pub accounts: Seq<AccountView>,
    pub logbooks: Seq<LogbookView>,
    pub memberships: Seq<LogbookMembership>,
    pub sessions: Seq<SessionView>,
    pub devices: Seq<DeviceView>,
}

impl View for ServerState {
    type V = ServerView;

    open spec fn view(&self) -> ServerView {
        ServerView {
            emails: self.users_by_email@.map_values(|p: (String, u128)| (p.0@, p.1)),
            accounts: self.accounts@.map_values(|a: UserAccount| a@),
            logbooks: self.logbooks@.map_values(|l: ApiLogbook| l@),
            memberships: self.memberships@,
            sessions: self.sessions@.map_values(|s: LoginSession| s@),
            devices: self.devices@.map_values(|d: DeviceIdentity| d@),
        }
    }
}

pub open spec fn session_pos(ss: Seq<SessionView>, token: Seq<char>) -> int
    decreases ss.len(),
{
    if ss.len() == 0 {
        0
    } else if ss[0].token == token {
        0
    } else {
        1 + session_pos(ss.drop_first(), token)
    }
}

pub open spec fn device_pos(ds: Seq<DeviceView>, device_id: u128) -> int
    decreases ds.len(),
{
    if ds.len() == 0 {
        0
    } else if ds[0].device_id == device_id {
        0
    } else {
        1 + device_pos(ds.drop_first(), device_id)
    }
}

pub open spec fn logbook_pos(ls: Seq<LogbookView>, logbook_id: u128) -> int
    decreases ls.len(),
{
    if ls.len() == 0 {
        0
    } else if ls[0].logbook_id == logbook_id {
        0
    } else {
        1 + logbook_pos(ls.drop_first(), logbook_id)
    }
}

/// Index of the user's membership of the logbook, or the length when none.
pub open spec fn membership_pos(ms: Seq<LogbookMembership>, user_id: u128, logbook_id: u128) -> int
    decreases ms.len(),
{
    if ms.len() == 0 {
        0
    } else if ms[0].user_id == user_id && ms[0].logbook_id == logbook_id {
        0
    } else {
        1 + membership_pos(ms.drop_first(), user_id, logbook_id)
    }
}

proof fn lemma_session_pos(ss: Seq<SessionView>, token: Seq<char>, i: int)
    requires
        0 <= i <= ss.len(),
        forall|k: int| 0 <= k < i ==> ss[k].token != token,
        i == ss.len() || ss[i].token == token,
    ensures
        session_pos(ss, token) == i,
    decreases i,
{
    if i > 0 {
        lemma_session_pos(ss.drop_first(), token, i - 1);
    }
}

proof fn lemma_device_pos(ds: Seq<DeviceView>, device_id: u128, i: int)
    requires
        0 <= i <= ds.len(),
        forall|k: int| 0 <= k < i ==> ds[k].device_id != device_id,
        i == ds.len() || ds[i].device_id == device_id,
    ensures
        device_pos(ds, device_id) == i,
    decreases i,
{
    if i > 0 {
        lemma_device_pos(ds.drop_first(), device_id, i - 1);
    }
}

proof fn lemma_logbook_pos(ls: Seq<LogbookView>, logbook_id: u128, i: int)
    requires
        0 <= i <= ls.len(),
        forall|k: int| 0 <= k < i ==> ls[k].logbook_id != logbook_id,
        i == ls.len() || ls[i].logbook_id == logbook_id,
    ensures
        logbook_pos(ls, logbook_id) == i,
    decreases i,
{
    if i > 0 {
        lemma_logbook_pos(ls.drop_first(), logbook_id, i - 1);
    }
}

proof fn lemma_membership_pos(ms: Seq<LogbookMembership>, user_id: u128, logbook_id: u128, i: int)
    requires
        0 <= i <= ms.len(),
        forall|k: int| 0 <= k < i ==> !(ms[k].user_id == user_id && ms[k].logbook_id == logbook_id),
        i == ms.len() || (ms[i].user_id == user_id && ms[i].logbook_id == logbook_id),
    ensures
        membership_pos(ms, user_id, logbook_id) == i,
    decreases i,
{
    if i > 0 {
        lemma_membership_pos(ms.drop_first(), user_id, logbook_id, i - 1);
    }
}

proof fn lemma_session_pos_bounds(ss: Seq<SessionView>, token: Seq<char>)
    ensures
        0 <= session_pos(ss, token) <= ss.len(),
        forall|k: int| 0 <= k < session_pos(ss, token) ==> ss[k].token != token,
        session_pos(ss, token) < ss.len() ==> ss[session_pos(ss, token)].token == token,
    decreases ss.len(),
{
    if ss.len() > 0 && ss[0].token != token {
        lemma_session_pos_bounds(ss.drop_first(), token);
        assert forall|k: int| 0 <= k < session_pos(ss, token) implies ss[k].token != token by {
            if k > 0 {
                assert(ss[k] == ss.drop_first()[k - 1]);
            }
        }
    }
}

proof fn lemma_device_pos_bounds(ds: Seq<DeviceView>, device_id: u128)
    ensures
        0 <= device_pos(ds, device_id) <= ds.len(),
        forall|k: int| 0 <= k < device_pos(ds, device_id) ==> ds[k].device_id != device_id,
        device_pos(ds, device_id) < ds.len() ==> ds[device_pos(ds, device_id)].device_id == device_id,
    decreases ds.len(),
{
    if ds.len() > 0 && ds[0].device_id != device_id {
        lemma_device_pos_bounds(ds.drop_first(), device_id);
        assert forall|k: int| 0 <= k < device_pos(ds, device_id) implies ds[k].device_id != device_id by {
            if k > 0 {
                assert(ds[k] == ds.drop_first()[k - 1]);
            }
        }
    }
}

/// Authorizing a bearer token: it must name a session that is still active,
/// on a device that is known and not revoked.
pub open spec fn authorize_spec(s: ServerView, token: Option<Seq<char>>) -> Result<SessionView, ApiError> {
    match token {
        None => Err(ApiError::Unauthenticated),
        Some(t) => {
            let i = session_pos(s.sessions, t);
            if i >= s.sessions.len() {
                Err(ApiError::Unauthenticated)
            } else if !s.sessions[i].active {
                Err(ApiError::InactiveSession)
            } else {
                let j = device_pos(s.devices, s.sessions[i].device_id);
                if j >= s.devices.len() {
                    Err(ApiError::Unauthenticated)
                } else if s.devices[j].revoked {
                    Err(ApiError::RevokedDevice)
                } else {
                    Ok(s.sessions[i])
                }
            }
        },
    }
}

/// The session and role with which a request may use a logbook: the user
/// must be a member, and the member's role must allow the access.
pub open spec fn logbook_access_spec(
    s: ServerView,
    token: Option<Seq<char>>,
    logbook_id: u128,
    access: LogbookAccess,
) -> Result<(SessionView, LogbookRole), ApiError> {
    match authorize_spec(s, token) {
        Err(e) => Err(e),
        Ok(session) => {
            let k = membership_pos(s.memberships, session.user_id, logbook_id);
            if k >= s.memberships.len() {
                Err(ApiError::Forbidden)
            } else if !role_allows(s.memberships[k].role, access) {
                Err(ApiError::Forbidden)
            } else {
                Ok((session, s.memberships[k].role))
            }
        },
    }
}

pub open spec fn session_result(r: Result<LoginSession, ApiError>) -> Result<SessionView, ApiError> {
    match r {
        Ok(s) => Ok(s@),
        Err(e) => Err(e),
    }
}

pub open spec fn access_result(r: Result<(LoginSession, LogbookRole), ApiError>) -> Result<
    (SessionView, LogbookRole),
    ApiError,
> {
    match r {
        Ok((s, role)) => Ok((s@, role)),
        Err(e) => Err(e),
    }
}

pub open spec fn is_unit_error(e: ApiError) -> bool {
    e is Unauthenticated || e is InactiveSession || e is RevokedDevice || e is Forbidden || e is NotFound
}

/// The session a logout leaves behind: the same, inactive.
pub open spec fn deactivated(s: SessionView) -> SessionView {
    SessionView { active: false, ..s }
}

/// Deactivates every session of a device.
pub open spec fn sessions_without_device(ss: Seq<SessionView>, device_id: u128) -> Seq<SessionView> {
    ss.map_values(
        |s: SessionView|
            if s.device_id == device_id {
                deactivated(s)
            } else {
                s
            },
    )
}

/// Whether the user holds the owner role in some logbook.
pub open spec fn is_owner_somewhere(ms: Seq<LogbookMembership>, user_id: u128) -> bool {
    exists|k: int| 0 <= k < ms.len() && ms[k].user_id == user_id && ms[k].role is Owner
}

/// Revoking a device for a request: the device must exist, belong to the
/// caller's account, and the caller must own some logbook; then the device
/// is revoked and all of its sessions end.
pub open spec fn revoke_spec(s: ServerView, token: Option<Seq<char>>, device_id: u128, now: i64) -> (
    ServerView,
    Result<(), ApiError>,
) {
    match authorize_spec(s, token) {
        Err(e) => (s, Err(e)),
        Ok(session) => {
            let j = device_pos(s.devices, device_id);
            if j >= s.devices.len() {
                (s, Err(ApiError::NotFound))
            } else if s.devices[j].account_id != session.account_id {
                (s, Err(ApiError::Forbidden))
            } else if !is_owner_somewhere(s.memberships, session.user_id) {
                (s, Err(ApiError::Forbidden))
            } else {
                (
                    ServerView {
                        devices: s.devices.update(
                            j,
                            DeviceView { revoked: true, revoked_at: Some(now), ..s.devices[j] },
                        ),
                        sessions: sessions_without_device(s.sessions, device_id),
                        ..s
                    },
                    Ok(()),
                )
            }
        },
    }
}

impl ServerState {
    /// An empty server.
    pub fn new() -> (r: Self)
        ensures
            r@.emails.len() == 0 && r@.accounts.len() == 0 && r@.logbooks.len() == 0,
            r@.memberships.len() == 0 && r@.sessions.len() == 0 && r@.devices.len() == 0,
    {
        ServerState {
            users_by_email: Vec::new(),
            accounts: Vec::new(),
            logbooks: Vec::new(),
            memberships: Vec::new(),
            sessions: Vec::new(),
            devices: Vec::new(),
        }
    }

    fn find_session(&self, token: &String) -> (r: usize)
        ensures
            r == session_pos(self@.sessions, token@),
            r <= self.sessions@.len(),
    {
        let ghost ss = self@.sessions;
        let mut i: usize = 0;
        while i < self.sessions.len() && !self.sessions[i].token.eq(token)
            invariant
                i <= self.sessions@.len(),
                ss == self@.sessions,
                forall|k: int| 0 <= k < i ==> ss[k].token != token@,
            decreases self.sessions@.len() - i,
        {
            i = i + 1;
        }
        proof {
            lemma_session_pos(ss, token@, i as int);
        }
        i
    }

    fn find_device(&self, device_id: u128) -> (r: usize)
        ensures
            r == device_pos(self@.devices, device_id),
            r <= self.devices@.len(),
    {
        let ghost ds = self@.devices;
        let mut i: usize = 0;
        while i < self.devices.len() && self.devices[i].device_id != device_id
            invariant
                i <= self.devices@.len(),
                ds == self@.devices,
                forall|k: int| 0 <= k < i ==> ds[k].device_id != device_id,
            decreases self.devices@.len() - i,
        {
            i = i + 1;
        }
        proof {
            lemma_device_pos(ds, device_id, i as int);
        }
        i
    }

    fn find_logbook(&self, logbook_id: u128) -> (r: usize)
        ensures
            r == logbook_pos(self@.logbooks, logbook_id),
            r <= self.logbooks@.len(),
    {
        let ghost ls = self@.logbooks;
        let mut i: usize = 0;
        while i < self.logbooks.len() && self.logbooks[i].logbook_id != logbook_id
            invariant
                i <= self.logbooks@.len(),
                ls == self@.logbooks,
                forall|k: int| 0 <= k < i ==> ls[k].logbook_id != logbook_id,
            decreases self.logbooks@.len() - i,
        {
            i = i + 1;
        }
        proof {
            lemma_logbook_pos(ls, logbook_id, i as int);
        }
        i
    }

    /// The session a request's bearer token authorizes, as `authorize_spec`
    /// states.
    pub fn authorize(&self, request: &ApiRequest) -> (r: Result<LoginSession, ApiError>)
        ensures
            session_result(r) == authorize_spec(self@, bearer_of(request.headers@)),
    {
        let token = match bearer_token(request) {
            Some(t) => t,
            None => {
                return Err(ApiError::Unauthenticated);
            },
        };
        let i = self.find_session(&token);
        if i >= self.sessions.len() {
            return Err(ApiError::Unauthenticated);
        }
        if !self.sessions[i].active {
            return Err(ApiError::InactiveSession);
        }
        let j = self.find_device(self.sessions[i].device_id);
        if j >= self.devices.len() {
            return Err(ApiError::Unauthenticated);
        }
        if self.devices[j].revoked {
            return Err(ApiError::RevokedDevice);
        }
        Ok(self.sessions[i].copy())
    }

    /// The session and role with which a request may use a logbook, as
    /// `logbook_access_spec` states.
    pub fn require_logbook_role(&self, request: &ApiRequest, logbook_id: u128, access: LogbookAccess) -> (r:
        Result<(LoginSession, LogbookRole), ApiError>)
        ensures
            access_result(r) == logbook_access_spec(self@, bearer_of(request.headers@), logbook_id, access),
    {
        let session = match self.authorize(request) {
            Ok(s) => s,
            Err(e) => {
                return Err(e);
            },
        };
        let ghost ms = self@.memberships;
        let mut k: usize = 0;
        while k < self.memberships.len() && !(self.memberships[k].user_id == session.user_id
            && self.memberships[k].logbook_id == logbook_id)
            invariant
                k <= self.memberships@.len(),
                ms == self@.memberships,
                forall|m: int|
                    0 <= m < k ==> !(ms[m].user_id == session.user_id && ms[m].logbook_id == logbook_id),
            decreases self.memberships@.len() - k,
        {
            k = k + 1;
        }
        proof {
            lemma_membership_pos(ms, session.user_id, logbook_id, k as int);
        }
        if k >= self.memberships.len() {
            return Err(ApiError::Forbidden);
        }
        let role = self.memberships[k].role;
        if !crate::hosted_api::role_grants(role, access) {
            return Err(ApiError::Forbidden);
        }
        Ok((session, role))
    }

    /// Ends the session of the request's bearer token; an unknown or missing
    /// token is unauthenticated.
    pub fn logout(&mut self, request: &ApiRequest) -> (r: Result<(), ApiError>)
        ensures
            ({
                let t = bearer_of(request.headers@);
                let s = old(self)@;
                match t {
                    None => r == Err::<(), ApiError>(ApiError::Unauthenticated) && final(self)@ == s,
                    Some(tok) => {
                        let i = session_pos(s.sessions, tok);
                        if i >= s.sessions.len() {
                            r == Err::<(), ApiError>(ApiError::Unauthenticated) && final(self)@ == s
                        } else {
                            r is Ok && final(self)@ == (ServerView {
                                sessions: s.sessions.update(i, deactivated(s.sessions[i])),
                                ..s
                            })
                        }
                    },
                }
            }),
    {
        let token = match bearer_token(request) {
            Some(t) => t,
            None => {
                return Err(ApiError::Unauthenticated);
            },
        };
        let i = self.find_session(&token);
        if i >= self.sessions.len() {
            return Err(ApiError::Unauthenticated);
        }
        let ghost before = self@;
        let mut session = self.sessions[i].copy();
        session.active = false;
        let ghost sv = session@;
        self.sessions.set(i, session);
        assert(self@.sessions =~= before.sessions.update(i as int, sv));
        Ok(())
    }

    /// Revokes a device of the caller's account at `now`, as `revoke_spec`
    /// states.
    pub fn revoke_device_at(&mut self, request: &ApiRequest, device_id: u128, now: i64) -> (r: Result<(), ApiError>)
        ensures
            (final(self)@, r) == revoke_spec(old(self)@, bearer_of(request.headers@), device_id, now),
    {
        let session = match self.authorize(request) {
            Ok(s) => s,
            Err(e) => {
                return Err(e);
            },
        };
        let j = self.find_device(device_id);
        if j >= self.devices.len() {
            return Err(ApiError::NotFound);
        }
        if self.devices[j].account_id != session.account_id {
            return Err(ApiError::Forbidden);
        }
        let ghost ms = self@.memberships;
        let mut owner = false;
        let mut k: usize = 0;
        while k < self.memberships.len()
            invariant
                k <= self.memberships@.len(),
                ms == self@.memberships,
                owner == exists|m: int| 0 <= m < k && ms[m].user_id == session.user_id && ms[m].role is Owner,
            decreases self.memberships@.len() - k,
        {
            let m = self.memberships[k];
            if m.user_id == session.user_id && m.role.can_manage_owner_resources() {
                owner = true;
            }
            k = k + 1;
        }
        if !owner {
            return Err(ApiError::Forbidden);
        }
        let ghost s = self@;
        let mut device = self.devices[j].copy();
        device.revoked = true;
        device.revoked_at = Some(now);
        let ghost dv = device@;
        self.devices.set(j, device);
        let mut i: usize = 0;
        while i < self.sessions.len()
            invariant
                i <= self.sessions@.len(),
                s.sessions.len() == self.sessions@.len(),
                forall|q: int| 0 <= q < i ==> self@.sessions[q] == sessions_without_device(s.sessions, device_id)[q],
                forall|q: int| i <= q < self.sessions@.len() ==> self@.sessions[q] == s.sessions[q],
                self@.devices == s.devices.update(j as int, dv),
                self@.emails == s.emails && self@.accounts == s.accounts && self@.logbooks == s.logbooks
                    && self@.memberships == s.memberships,
            decreases self.sessions@.len() - i,
        {
            if self.sessions[i].device_id == device_id {
                let ghost before = self@.sessions;
                let mut session = self.sessions[i].copy();
                session.active = false;
                self.sessions.set(i, session);
                assert forall|q: int| 0 <= q < self.sessions@.len() && q != i implies self@.sessions[q]
                    == before[q] by {}
            }
            i = i + 1;
        }
        assert(self@.sessions =~= sessions_without_device(s.sessions, device_id));
        Ok(())
    }
    /// Revokes a device of the caller's account, stamped with the current
    /// time: its sessions end and it can no longer authorize.
    pub fn revoke_device(&mut self, request: &ApiRequest, device_id: u128) -> (r: Result<(), ApiError>)
        ensures
            exists|now: i64| (final(self)@, r) == #[trigger] revoke_spec(old(self)@, bearer_of(request.headers@), device_id, now),
    {
        let now = crate::ids::now_millis();
        self.revoke_device_at(request, device_id, now)
    }
}

/// After a logout, the token no longer authorizes anything: the session is
/// found inactive.
pub proof fn law_logout_invalidates_session(s: ServerView, token: Seq<char>)
    requires
        session_pos(s.sessions, token) < s.sessions.len(),
    ensures
        ({
            let i = session_pos(s.sessions, token);
            let after = ServerView { sessions: s.sessions.update(i, deactivated(s.sessions[i])), ..s };
            authorize_spec(after, Some(token)) == Err::<SessionView, ApiError>(ApiError::InactiveSession)
        }),
{
    let i = session_pos(s.sessions, token);
    lemma_session_pos_bounds(s.sessions, token);
    let ss = s.sessions.update(i, deactivated(s.sessions[i]));
    lemma_session_pos(ss, token, i);
}

/// After a device is revoked, no token whose session is on that device is
/// authorized any more.
pub proof fn law_revoked_device_cannot_authorize(
    s: ServerView,
    caller: Option<Seq<char>>,
    device_id: u128,
    now: i64,
    token: Seq<char>,
)
    requires
        revoke_spec(s, caller, device_id, now).1 is Ok,
        ({
            let after = revoke_spec(s, caller, device_id, now).0;
            let i = session_pos(after.sessions, token);
            i < after.sessions.len() && after.sessions[i].device_id == device_id
        }),
    ensures
        authorize_spec(revoke_spec(s, caller, device_id, now).0, Some(token)) is Err,
{
    let after = revoke_spec(s, caller, device_id, now).0;
    let i = session_pos(after.sessions, token);
    lemma_session_pos_bounds(after.sessions, token);
    assert(after.sessions[i] == sessions_without_device(s.sessions, device_id)[i]);
}

/// A user with no membership of a logbook is forbidden from it, whatever the
/// access, once authenticated.
pub proof fn law_non_member_forbidden(s: ServerView, token: Option<Seq<char>>, logbook_id: u128, access: LogbookAccess)
    requires
        authorize_spec(s, token) is Ok,
        forall|k: int|
            0 <= k < s.memberships.len() ==> !(s.memberships[k].user_id == authorize_spec(s, token)->Ok_0.user_id
                && s.memberships[k].logbook_id == logbook_id),
    ensures
        logbook_access_spec(s, token, logbook_id, access) == Err::<(SessionView, LogbookRole), ApiError>(
            ApiError::Forbidden,
        ),
{
    let u = authorize_spec(s, token)->Ok_0.user_id;
    lemma_membership_pos(s.memberships, u, logbook_id, s.memberships.len() as int);
}

/// A viewer may read a logbook but never log to it or administer it.
pub proof fn law_viewer_cannot_mutate(s: ServerView, token: Option<Seq<char>>, logbook_id: u128)
    requires
        logbook_access_spec(s, token, logbook_id, LogbookAccess::Read) matches Ok((_, role)) && role
            is Viewer,
    ensures
        logbook_access_spec(s, token, logbook_id, LogbookAccess::LogQso) == Err::<
            (SessionView, LogbookRole),
            ApiError,
        >(ApiError::Forbidden),
        logbook_access_spec(s, token, logbook_id, LogbookAccess::Admin) == Err::<
            (SessionView, LogbookRole),
            ApiError,
        >(ApiError::Forbidden),
{
}

// ---------------------------------------------------------------------------
// Sign-in, logbooks and devices.
// ---------------------------------------------------------------------------

pub open spec fn email_pos(es: Seq<(Seq<char>, u128)>, email: Seq<char>) -> int
    decreases es.len(),
{
    if es.len() == 0 {
        0
    } else if es[0].0 == email {
        0
    } else {
        1 + email_pos(es.drop_first(), email)
    }
}

pub open spec fn account_pos(accts: Seq<AccountView>, account_id: u128) -> int
    decreases accts.len(),
{
    if accts.len() == 0 {
        0
    } else if accts[0].account_id == account_id {
        0
    } else {
        1 + account_pos(accts.drop_first(), account_id)
    }
}

proof fn lemma_email_pos(es: Seq<(Seq<char>, u128)>, email: Seq<char>, i: int)
    requires
        0 <= i <= es.len(),
        forall|k: int| 0 <= k < i ==> es[k].0 != email,
        i == es.len() || es[i].0 == email,
    ensures
        email_pos(es, email) == i,
    decreases i,
{
    if i > 0 {
        lemma_email_pos(es.drop_first(), email, i - 1);
    }
}

proof fn lemma_account_pos(accts: Seq<AccountView>, account_id: u128, i: int)
    requires
        0 <= i <= accts.len(),
        forall|k: int| 0 <= k < i ==> accts[k].account_id != account_id,
        i == accts.len() || accts[i].account_id == account_id,
    ensures
        account_pos(accts, account_id) == i,
    decreases i,
{
    if i > 0 {
        lemma_account_pos(accts.drop_first(), account_id, i - 1);
    }
}

/// Puts a session in place of the first one with its token, or appends it.
pub open spec fn upsert_session(ss: Seq<SessionView>, x: SessionView) -> Seq<SessionView> {
    let i = session_pos(ss, x.token);
    if i < ss.len() {
        ss.update(i, x)
    } else {
        ss.push(x)
    }
}

/// Puts a device in place of the first one with its id, or appends it.
pub open spec fn upsert_device(ds: Seq<DeviceView>, x: DeviceView) -> Seq<DeviceView> {
    let i = device_pos(ds, x.device_id);
    if i < ds.len() {
        ds.update(i, x)
    } else {
        ds.push(x)
    }
}

pub open spec fn upsert_logbook(ls: Seq<LogbookView>, x: LogbookView) -> Seq<LogbookView> {
    let i = logbook_pos(ls, x.logbook_id);
    if i < ls.len() {
        ls.update(i, x)
    } else {
        ls.push(x)
    }
}

pub open spec fn upsert_account(accts: Seq<AccountView>, x: AccountView) -> Seq<AccountView> {
    let i = account_pos(accts, x.account_id);
    if i < accts.len() {
        accts.update(i, x)
    } else {
        accts.push(x)
    }
}

pub open spec fn upsert_email(es: Seq<(Seq<char>, u128)>, email: Seq<char>, account_id: u128) -> Seq<
    (Seq<char>, u128),
> {
    let i = email_pos(es, email);
    if i < es.len() {
        es.update(i, (email, account_id))
    } else {
        es.push((email, account_id))
    }
}

/// The identifiers a sign-in draws.
#[derive(Debug, Clone, Copy)]
pub struct LoginIds {
    pub account_id: u128,
    pub user_id: u128,
    pub logbook_id: u128,
    pub device_id: u128,
    pub fingerprint_id: u128,
    pub token_id: u128,
    pub session_id: u128,
}

/// What a sign-in returns.
#[derive(Debug)]
pub struct LoginResponse {
    pub account: UserAccount,
    pub session: LoginSession,
    pub device: DeviceIdentity,
    pub logbooks: Vec<ApiLogbook>,
}

pub open spec fn login_email(req: LoginRequest) -> Seq<char> {
    lower_ascii_seq(trim_seq(req.email@))
}

/// The account a sign-in with a new email creates.
pub open spec fn new_account(req: LoginRequest, ids: LoginIds, now: i64) -> AccountView {
    AccountView {
        account_id: ids.account_id,
        user_id: ids.user_id,
        email: login_email(req),
        display_name: match req.display_name {
            Some(d) => d@,
            None => login_email(req),
        },
        created_at: now,
    }
}

/// The default logbook a new account gets.
pub open spec fn default_logbook(account: AccountView, ids: LoginIds, now: i64) -> LogbookView {
    LogbookView {
        logbook_id: ids.logbook_id,
        account_id: account.account_id,
        name: account.display_name + " Logbook"@,
        description: Some("Hosted beta default logbook"@),
        station_callsign: None,
        created_at: now,
        updated_at: now,
    }
}

pub open spec fn login_device(req: LoginRequest, account: AccountView, ids: LoginIds, now: i64) -> DeviceView {
    DeviceView {
        device_id: ids.device_id,
        account_id: account.account_id,
        user_id: account.user_id,
        device_name: match req.device_name {
            Some(d) => d@,
            None => "Hosted web session"@,
        },
        fingerprint: "dev-"@ + uuid_hyphenated_text(ids.fingerprint_id),
        trusted: true,
        revoked: false,
        registered_at: now,
        revoked_at: None,
    }
}

pub open spec fn login_session(account: AccountView, ids: LoginIds, now: i64) -> SessionView {
    SessionView {
        session_id: ids.session_id,
        account_id: account.account_id,
        user_id: account.user_id,
        device_id: ids.device_id,
        token: "api-"@ + uuid_hyphenated_text(account.account_id) + "-"@ + uuid_hyphenated_text(ids.token_id),
        issued_at: now,
        expires_at: None,
        active: true,
    }
}

/// The account a sign-in uses: the registered one for a known email (`None`
/// when the index names an account that is gone), else a new one.
pub open spec fn login_account(s: ServerView, req: LoginRequest, ids: LoginIds, now: i64) -> Option<(AccountView, bool)> {
    let email = login_email(req);
    let p = email_pos(s.emails, email);
    if p < s.emails.len() {
        let a = account_pos(s.accounts, s.emails[p].1);
        if a < s.accounts.len() {
            Some((s.accounts[a], false))
        } else {
            None
        }
    } else {
        Some((new_account(req, ids, now), true))
    }
}

/// The state after a successful sign-in.
pub open spec fn after_login(s: ServerView, req: LoginRequest, ids: LoginIds, now: i64) -> ServerView {
    let (account, created) = login_account(s, req, ids, now).unwrap();
    let base = if created {
        ServerView {
            emails: upsert_email(s.emails, login_email(req), account.account_id),
            logbooks: upsert_logbook(s.logbooks, default_logbook(account, ids, now)),
            memberships: s.memberships.push(
                LogbookMembership {
                    account_id: account.account_id,
                    logbook_id: ids.logbook_id,
                    user_id: account.user_id,
                    role: LogbookRole::Owner,
                    created_at: now,
                },
            ),
            accounts: upsert_account(s.accounts, account),
            ..s
        }
    } else {
        s
    };
    ServerView {
        devices: upsert_device(base.devices, login_device(req, account, ids, now)),
        sessions: upsert_session(base.sessions, login_session(account, ids, now)),
        ..base
    }
}

fn bad_request(message: &str) -> (r: ApiError)
    ensures
        r matches ApiError::BadRequest(m) && m@ == message@,
{
    ApiError::BadRequest(str_to_string(message))
}

fn id_text(prefix: &str, id: u128) -> (r: String)
    ensures
        r@ == prefix@ + uuid_hyphenated_text(id),
{
    let mut r = str_to_string(prefix);
    let t = crate::ids::uuid_text(id);
    append_str(&mut r, t.as_str());
    r
}

/// The outcome of a sign-in with identifiers `ids` at `now`: a blank email
/// is a bad request; an email indexed to an unknown account is not found;
/// otherwise the account (new or existing) gets a trusted device and an
/// active session, and the reply lists the logbooks it may read.
pub open spec fn login_outcome(
    before: ServerView,
    after: ServerView,
    request: LoginRequest,
    ids: LoginIds,
    now: i64,
    r: Result<LoginResponse, ApiError>,
) -> bool {
    if login_email(request).len() == 0 {
        r matches Err(ApiError::BadRequest(m)) && m@ == "email is required"@ && after == before
    } else {
        match login_account(before, request, ids, now) {
            None => r matches Err(ApiError::NotFound) && after == before,
            Some(found) => {
                let account = found.0;
                &&& r matches Ok(out) && out.account@ == account && out.session@ == login_session(account, ids, now)
                    && out.device@ == login_device(request, account, ids, now) && out.logbooks@.map_values(
                    |l: ApiLogbook| l@,
                ) == visible_sorted(after, account.user_id)
                &&& after == after_login(before, request, ids, now)
            },
        }
    }
}

impl ServerState {
    fn put_session(&mut self, x: LoginSession)
        ensures
            final(self)@ == (ServerView { sessions: upsert_session(old(self)@.sessions, x@), ..old(self)@ }),
    {
        let ghost s = self@;
        let ghost xv = x@;
        let i = self.find_session(&x.token);
        if i < self.sessions.len() {
            self.sessions.set(i, x);
            assert(self@.sessions =~= s.sessions.update(i as int, xv));
        } else {
            self.sessions.push(x);
            assert(self@.sessions =~= s.sessions.push(xv));
        }
    }

    fn put_device(&mut self, x: DeviceIdentity)
        ensures
            final(self)@ == (ServerView { devices: upsert_device(old(self)@.devices, x@), ..old(self)@ }),
    {
        let ghost s = self@;
        let ghost xv = x@;
        let i = self.find_device(x.device_id);
        if i < self.devices.len() {
            self.devices.set(i, x);
            assert(self@.devices =~= s.devices.update(i as int, xv));
        } else {
            self.devices.push(x);
            assert(self@.devices =~= s.devices.push(xv));
        }
    }

    fn put_logbook(&mut self, x: ApiLogbook)
        ensures
            final(self)@ == (ServerView { logbooks: upsert_logbook(old(self)@.logbooks, x@), ..old(self)@ }),
    {
        let ghost s = self@;
        let ghost xv = x@;
        let i = self.find_logbook(x.logbook_id);
        if i < self.logbooks.len() {
            self.logbooks.set(i, x);
            assert(self@.logbooks =~= s.logbooks.update(i as int, xv));
        } else {
            self.logbooks.push(x);
            assert(self@.logbooks =~= s.logbooks.push(xv));
        }
    }

    fn find_email(&self, email: &String) -> (r: usize)
        ensures
            r == email_pos(self@.emails, email@),
            r <= self.users_by_email@.len(),
    {
        let ghost es = self@.emails;
        let mut i: usize = 0;
        while i < self.users_by_email.len() && !self.users_by_email[i].0.eq(email)
            invariant
                i <= self.users_by_email@.len(),
                es == self@.emails,
                forall|k: int| 0 <= k < i ==> es[k].0 != email@,
            decreases self.users_by_email@.len() - i,
        {
            i = i + 1;
        }
        proof {
            lemma_email_pos(es, email@, i as int);
        }
        i
    }

    fn find_account(&self, account_id: u128) -> (r: usize)
        ensures
            r == account_pos(self@.accounts, account_id),
            r <= self.accounts@.len(),
    {
        let ghost a = self@.accounts;
        let mut i: usize = 0;
        while i < self.accounts.len() && self.accounts[i].account_id != account_id
            invariant
                i <= self.accounts@.len(),
                a == self@.accounts,
                forall|k: int| 0 <= k < i ==> a[k].account_id != account_id,
            decreases self.accounts@.len() - i,
        {
            i = i + 1;
        }
        proof {
            lemma_account_pos(a, account_id, i as int);
        }
        i
    }

    /// Signs in by email with the given identifiers: a blank email is a bad
    /// request; a new email gets an account and an owned default logbook;
    /// every sign-in registers a trusted device and an active session.
    pub fn login_with(&mut self, request: LoginRequest, now: i64, ids: LoginIds) -> (r: Result<LoginResponse, ApiError>)
        ensures
            login_outcome(old(self)@, final(self)@, request, ids, now, r),
    {
        let trimmed = trim_str(request.email.as_str());
        let email = lower_ascii_str(trimmed.as_str());
        if email.unicode_len() == 0 {
            return Err(bad_request("email is required"));
        }
        let ghost s0 = self@;
        let p = self.find_email(&email);
        let account = if p < self.users_by_email.len() {
            let account_id = self.users_by_email[p].1;
            let a = self.find_account(account_id);
            if a >= self.accounts.len() {
                return Err(ApiError::NotFound);
            }
            self.accounts[a].copy()
        } else {
            let display_name = match &request.display_name {
                Some(d) => d.clone(),
                None => email.clone(),
            };
            let account = UserAccount {
                account_id: ids.account_id,
                user_id: ids.user_id,
                email: email.clone(),
                display_name,
                created_at: now,
            };
            let mut name = account.display_name.clone();
            append_str(&mut name, " Logbook");
            let logbook = ApiLogbook {
                logbook_id: ids.logbook_id,
                account_id: account.account_id,
                name,
                description: Some(str_to_string("Hosted beta default logbook")),
                station_callsign: None,
                created_at: now,
                updated_at: now,
            };
            // Index the email (it is not indexed yet).
            let ghost e0 = self@.emails;
            self.users_by_email.push((email.clone(), account.account_id));
            assert(self@.emails =~= e0.push((email@, account.account_id)));
            self.put_logbook(logbook);
            self.memberships.push(
                LogbookMembership {
                    account_id: account.account_id,
                    logbook_id: ids.logbook_id,
                    user_id: account.user_id,
                    role: LogbookRole::Owner,
                    created_at: now,
                },
            );
            let ghost s1 = self@;
            let ghost av = account@;
            let a = self.find_account(account.account_id);
            if a < self.accounts.len() {
                self.accounts.set(a, account.copy());
                assert(self@.accounts =~= s1.accounts.update(a as int, av));
            } else {
                self.accounts.push(account.copy());
                assert(self@.accounts =~= s1.accounts.push(av));
            }
            account
        };
        let device_name = match &request.device_name {
            Some(d) => d.clone(),
            None => str_to_string("Hosted web session"),
        };
        let device = DeviceIdentity {
            device_id: ids.device_id,
            account_id: account.account_id,
            user_id: account.user_id,
            device_name,
            fingerprint: id_text("dev-", ids.fingerprint_id),
            trusted: true,
            revoked: false,
            registered_at: now,
            revoked_at: None,
        };
        let mut token = id_text("api-", account.account_id);
        append_str(&mut token, "-");
        let t = crate::ids::uuid_text(ids.token_id);
        append_str(&mut token, t.as_str());
        let session = LoginSession {
            session_id: ids.session_id,
            account_id: account.account_id,
            user_id: account.user_id,
            device_id: device.device_id,
            token,
            issued_at: now,
            expires_at: None,
            active: true,
        };
        self.put_device(device.copy());
        self.put_session(session.copy());
        let logbooks = self.visible_logbooks(account.user_id);
        Ok(LoginResponse { account, session, device, logbooks })
    }

    /// Signs in by email with fresh random identifiers, stamped with the
    /// current time; a successful sign-in's token authorizes its session.
    pub fn login(&mut self, request: LoginRequest) -> (r: Result<LoginResponse, ApiError>)
        ensures
            exists|ids: LoginIds, now: i64| #[trigger] login_outcome(old(self)@, final(self)@, request, ids, now, r),
            r matches Ok(out) ==> authorize_spec(final(self)@, Some(out.session.token@)) == Ok::<
                SessionView,
                ApiError,
            >(out.session@),
    {
        let now = crate::ids::now_millis();
        let ids = LoginIds {
            account_id: crate::ids::new_uuid(),
            user_id: crate::ids::new_uuid(),
            logbook_id: crate::ids::new_uuid(),
            device_id: crate::ids::new_uuid(),
            fingerprint_id: crate::ids::new_uuid(),
            token_id: crate::ids::new_uuid(),
            session_id: crate::ids::new_uuid(),
        };
        let ghost s = self@;
        let r = self.login_with(request, now, ids);
        proof {
            if r is Ok {
                law_login_authorizes(s, request, ids, now);
            }
        }
        r
    }
}

/// The logbooks the user is a member of (every role may read), in
/// membership order; memberships naming an unknown logbook are skipped.
pub open spec fn visible_unsorted(s: ServerView, user_id: u128, ms: Seq<LogbookMembership>) -> Seq<LogbookView>
    decreases ms.len(),
{
    if ms.len() == 0 {
        Seq::empty()
    } else {
        let rest = visible_unsorted(s, user_id, ms.drop_last());
        let m = ms.last();
        let p = logbook_pos(s.logbooks, m.logbook_id);
        if m.user_id == user_id && p < s.logbooks.len() {
            rest.push(s.logbooks[p])
        } else {
            rest
        }
    }
}

/// Sorted by name with ties kept in membership order: inserting each
/// visible logbook after every earlier one whose name does not sort after it.
pub open spec fn insert_by_name(sorted: Seq<LogbookView>, x: LogbookView) -> Seq<LogbookView>
    decreases sorted.len(),
{
    if sorted.len() == 0 {
        seq![x]
    } else if seq_lt(x.name, sorted.last().name) {
        insert_by_name(sorted.drop_last(), x).push(sorted.last())
    } else {
        sorted.push(x)
    }
}

pub open spec fn sort_by_name(ls: Seq<LogbookView>) -> Seq<LogbookView>
    decreases ls.len(),
{
    if ls.len() == 0 {
        Seq::empty()
    } else {
        insert_by_name(sort_by_name(ls.drop_last()), ls.last())
    }
}

/// The logbooks a user sees, sorted by name.
pub open spec fn visible_sorted(s: ServerView, user_id: u128) -> Seq<LogbookView> {
    sort_by_name(visible_unsorted(s, user_id, s.memberships))
}

pub open spec fn logbook_views(v: Seq<ApiLogbook>) -> Seq<LogbookView> {
    v.map_values(|l: ApiLogbook| l@)
}

/// Inserts a logbook into a list sorted by name, after the ones whose names
/// do not sort after its name.
fn insert_logbook_by_name(sorted: &mut Vec<ApiLogbook>, x: ApiLogbook)
    ensures
        logbook_views(final(sorted)@) == insert_by_name(logbook_views(old(sorted)@), x@),
    decreases old(sorted)@.len(),
{
    let n = sorted.len();
    if n == 0 {
        let ghost xv = x@;
        sorted.push(x);
        assert(logbook_views(sorted@) =~= seq![xv]);
        return;
    }
    let ghost before = logbook_views(sorted@);
    let xname = crate::text::chars_of(x.name.as_str());
    let lname = crate::text::chars_of(sorted[n - 1].name.as_str());
    if crate::text::chars_lt(xname.as_slice(), lname.as_slice()) {
        let last = sorted.pop().unwrap();
        let ghost lv = last@;
        proof {
            assert(logbook_views(sorted@) =~= before.drop_last());
            assert(lv == before.last());
        }
        insert_logbook_by_name(sorted, x);
        let ghost mid = logbook_views(sorted@);
        sorted.push(last);
        assert(logbook_views(sorted@) =~= mid.push(lv));
    } else {
        let ghost xv = x@;
        sorted.push(x);
        assert(logbook_views(sorted@) =~= before.push(xv));
    }
}

/// The outcome of creating a logbook with `logbook_id` at `now`: the
/// request must be authorized and name the logbook; the creator becomes its
/// owner.
pub open spec fn create_logbook_outcome(
    before: ServerView,
    after: ServerView,
    token: Option<Seq<char>>,
    input: CreateLogbookRequest,
    now: i64,
    logbook_id: u128,
    r: Result<ApiLogbook, ApiError>,
) -> bool {
    match authorize_spec(before, token) {
        Err(e) => r matches Err(x) && x == e && after == before,
        Ok(session) => if trim_seq(input.name@).len() == 0 {
            r matches Err(ApiError::BadRequest(m)) && m@ == "name is required"@ && after == before
        } else {
            let lv = LogbookView {
                logbook_id,
                account_id: session.account_id,
                name: input.name@,
                description: opt_view(input.description),
                station_callsign: opt_view(input.station_callsign),
                created_at: now,
                updated_at: now,
            };
            &&& r matches Ok(l) && l@ == lv
            &&& after == (ServerView {
                logbooks: upsert_logbook(before.logbooks, lv),
                memberships: before.memberships.push(
                    LogbookMembership {
                        account_id: session.account_id,
                        logbook_id,
                        user_id: session.user_id,
                        role: LogbookRole::Owner,
                        created_at: now,
                    },
                ),
                ..before
            })
        },
    }
}

/// The outcome of registering a device with `device_id` at `now`: an
/// authorized request registers an untrusted device of its account, with the
/// given fingerprint or `dev-{fingerprint_id}`.
pub open spec fn register_device_outcome(
    before: ServerView,
    after: ServerView,
    token: Option<Seq<char>>,
    device_name: String,
    fingerprint: Option<String>,
    now: i64,
    device_id: u128,
    fingerprint_id: u128,
    r: Result<DeviceIdentity, ApiError>,
) -> bool {
    match authorize_spec(before, token) {
        Err(e) => r matches Err(x) && x == e && after == before,
        Ok(session) => {
            let dv = DeviceView {
                device_id,
                account_id: session.account_id,
                user_id: session.user_id,
                device_name: device_name@,
                fingerprint: match fingerprint {
                    Some(f) => f@,
                    None => "dev-"@ + uuid_hyphenated_text(fingerprint_id),
                },
                trusted: false,
                revoked: false,
                registered_at: now,
                revoked_at: None,
            };
            r matches Ok(d) && d@ == dv && after == (ServerView { devices: upsert_device(before.devices, dv), ..before })
        },
    }
}

/// The outcome of an administrator's update of a logbook at `now`: fields
/// the request gives replace the stored ones, and a blank new name is a bad
/// request.
pub open spec fn patch_logbook_outcome(
    before: ServerView,
    after: ServerView,
    token: Option<Seq<char>>,
    logbook_id: u128,
    input: UpdateLogbookRequest,
    now: i64,
    r: Result<ApiLogbook, ApiError>,
) -> bool {
    let p = logbook_pos(before.logbooks, logbook_id);
    match logbook_access_spec(before, token, logbook_id, LogbookAccess::Admin) {
        Err(e) => r matches Err(x) && x == e && after == before,
        Ok(_) => if p >= before.logbooks.len() {
            r matches Err(ApiError::NotFound) && after == before
        } else if input.name matches Some(n) && trim_seq(n@).len() == 0 {
            r matches Err(ApiError::BadRequest(m)) && m@ == "name must not be empty"@ && after == before
        } else {
            let old_l = before.logbooks[p];
            let lv = LogbookView {
                name: match input.name {
                    Some(n) => n@,
                    None => old_l.name,
                },
                description: if input.description is Some {
                    opt_view(input.description)
                } else {
                    old_l.description
                },
                station_callsign: if input.station_callsign is Some {
                    opt_view(input.station_callsign)
                } else {
                    old_l.station_callsign
                },
                updated_at: now,
                ..old_l
            };
            r matches Ok(l) && l@ == lv && after == (ServerView { logbooks: before.logbooks.update(p, lv), ..before })
        },
    }
}

impl ServerState {
    /// The logbooks the user may read, sorted by name.
    pub fn visible_logbooks(&self, user_id: u128) -> (r: Vec<ApiLogbook>)
        ensures
            logbook_views(r@) == visible_sorted(self@, user_id),
    {
        let ghost s = self@;
        let ghost ms = self@.memberships;
        let mut sorted: Vec<ApiLogbook> = Vec::new();
        let mut k: usize = 0;
        assert(logbook_views(sorted@) =~= sort_by_name(visible_unsorted(s, user_id, ms.subrange(0, 0))));
        while k < self.memberships.len()
            invariant
                k <= self.memberships@.len(),
                s == self@,
                ms == self@.memberships,
                logbook_views(sorted@) == sort_by_name(visible_unsorted(s, user_id, ms.subrange(0, k as int))),
            decreases self.memberships@.len() - k,
        {
            let ghost pre = ms.subrange(0, k as int);
            let ghost next = ms.subrange(0, k + 1);
            proof {
                assert(next.drop_last() =~= pre);
                assert(next.last() == ms[k as int]);
            }
            let m = self.memberships[k];
            if m.user_id == user_id {
                let p = self.find_logbook(m.logbook_id);
                if p < self.logbooks.len() {
                    let l = self.logbooks[p].copy();
                    proof {
                        let vu = visible_unsorted(s, user_id, pre);
                        assert(visible_unsorted(s, user_id, next) == vu.push(s.logbooks[p as int]));
                        assert(vu.push(s.logbooks[p as int]).drop_last() =~= vu);
                        assert(vu.push(s.logbooks[p as int]).last() == s.logbooks[p as int]);
                    }
                    insert_logbook_by_name(&mut sorted, l);
                }
            }
            k = k + 1;
        }
        assert(ms.subrange(0, ms.len() as int) =~= ms);
        sorted
    }

    /// Creates a logbook owned by the caller; a blank name is a bad request.
    pub fn create_logbook_with(
        &mut self,
        request: &ApiRequest,
        input: CreateLogbookRequest,
        now: i64,
        logbook_id: u128,
    ) -> (r: Result<ApiLogbook, ApiError>)
        ensures
            create_logbook_outcome(old(self)@, final(self)@, bearer_of(request.headers@), input, now, logbook_id, r),

    {
        let session = match self.authorize(request) {
            Ok(s) => s,
            Err(e) => {
                return Err(e);
            },
        };
        let t = trim_str(input.name.as_str());
        if t.unicode_len() == 0 {
            return Err(bad_request("name is required"));
        }
        let logbook = ApiLogbook {
            logbook_id,
            account_id: session.account_id,
            name: input.name,
            description: input.description,
            station_callsign: input.station_callsign,
            created_at: now,
            updated_at: now,
        };
        self.put_logbook(logbook.copy());
        self.memberships.push(
            LogbookMembership {
                account_id: session.account_id,
                logbook_id,
                user_id: session.user_id,
                role: LogbookRole::Owner,
                created_at: now,
            },
        );
        Ok(logbook)
    }

    /// Updates a logbook's fields for an administrator of it at `now`, as
    /// `patch_logbook_outcome` states.
    pub fn patch_logbook_at(&mut self, request: &ApiRequest, logbook_id: u128, input: UpdateLogbookRequest, now: i64) -> (r:
        Result<ApiLogbook, ApiError>)
        ensures
            patch_logbook_outcome(old(self)@, final(self)@, bearer_of(request.headers@), logbook_id, input, now, r),
    {
        match self.require_logbook_role(request, logbook_id, LogbookAccess::Admin) {
            Ok(_) => {},
            Err(e) => {
                return Err(e);
            },
        }
        let p = self.find_logbook(logbook_id);
        if p >= self.logbooks.len() {
            return Err(ApiError::NotFound);
        }
        let mut logbook = self.logbooks[p].copy();
        if let Some(n) = &input.name {
            let t = trim_str(n.as_str());
            if t.unicode_len() == 0 {
                return Err(bad_request("name must not be empty"));
            }
        }
        if let Some(n) = input.name {
            logbook.name = n;
        }
        if input.description.is_some() {
            logbook.description = input.description;
        }
        if input.station_callsign.is_some() {
            logbook.station_callsign = input.station_callsign;
        }
        logbook.updated_at = now;
        let ghost s = self@;
        let ghost lv = logbook@;
        self.logbooks.set(p, logbook.copy());
        assert(self@.logbooks =~= s.logbooks.update(p as int, lv));
        Ok(logbook)
    }

    /// Updates a logbook's fields for an administrator of it, stamped with
    /// the current time; a blank new name is a bad request.
    pub fn patch_logbook(&mut self, request: &ApiRequest, logbook_id: u128, input: UpdateLogbookRequest) -> (r: Result<
        ApiLogbook,
        ApiError,
    >)
        ensures
            exists|now: i64|
                #[trigger] patch_logbook_outcome(
                    old(self)@,
                    final(self)@,
                    bearer_of(request.headers@),
                    logbook_id,
                    input,
                    now,
                    r,
                ),
    {
        let now = crate::ids::now_millis();
        self.patch_logbook_at(request, logbook_id, input, now)
    }

    /// The devices of the caller's account.
    pub fn devices(&self, request: &ApiRequest) -> (r: Result<Vec<DeviceIdentity>, ApiError>)
        ensures
            authorize_spec(self@, bearer_of(request.headers@)) matches Err(e) ==> (r matches Err(x) && x == e),
            authorize_spec(self@, bearer_of(request.headers@)) matches Ok(session) ==> (r matches Ok(v) && v@.map_values(
                |d: DeviceIdentity| d@,
            ) == self@.devices.filter(|d: DeviceView| d.account_id == session.account_id)),
    {
        let session = match self.authorize(request) {
            Ok(s) => s,
            Err(e) => {
                return Err(e);
            },
        };
        let ghost ds = self@.devices;
        let ghost pred = |d: DeviceView| d.account_id == session.account_id;
        let mut out: Vec<DeviceIdentity> = Vec::new();
        let mut i: usize = 0;
        while i < self.devices.len()
            invariant
                i <= self.devices@.len(),
                ds == self@.devices,
                pred == (|d: DeviceView| d.account_id == session.account_id),
                out@.map_values(|d: DeviceIdentity| d@) == ds.subrange(0, i as int).filter(pred),
            decreases self.devices@.len() - i,
        {
            proof {
                reveal(Seq::filter);
                assert(ds.subrange(0, i + 1).drop_last() =~= ds.subrange(0, i as int));
                assert(ds.subrange(0, i + 1).last() == ds[i as int]);
            }
            if self.devices[i].account_id == session.account_id {
                let ghost before = out@;
                out.push(self.devices[i].copy());
                assert(out@.map_values(|d: DeviceIdentity| d@) =~= before.map_values(|d: DeviceIdentity| d@).push(
                    ds[i as int],
                ));
            }
            i = i + 1;
        }
        assert(ds.subrange(0, ds.len() as int) =~= ds);
        Ok(out)
    }

    /// Registers an untrusted device for the caller's account; without a
    /// fingerprint one is made from `fingerprint_id`.
    pub fn register_device_with(
        &mut self,
        request: &ApiRequest,
        device_name: String,
        fingerprint: Option<String>,
        now: i64,
        device_id: u128,
        fingerprint_id: u128,
    ) -> (r: Result<DeviceIdentity, ApiError>)
        ensures
            register_device_outcome(
                old(self)@,
                final(self)@,
                bearer_of(request.headers@),
                device_name,
                fingerprint,
                now,
                device_id,
                fingerprint_id,
                r,
            ),

    {
        let session = match self.authorize(request) {
            Ok(s) => s,
            Err(e) => {
                return Err(e);
            },
        };
        let fingerprint = match fingerprint {
            Some(f) => f,
            None => id_text("dev-", fingerprint_id),
        };
        let device = DeviceIdentity {
            device_id,
            account_id: session.account_id,
            user_id: session.user_id,
            device_name,
            fingerprint,
            trusted: false,
            revoked: false,
            registered_at: now,
            revoked_at: None,
        };
        self.put_device(device.copy());
        Ok(device)
    }

    /// Creates a logbook under a fresh random id, stamped with the current
    /// time.
    pub fn create_logbook(&mut self, request: &ApiRequest, input: CreateLogbookRequest) -> (r: Result<
        ApiLogbook,
        ApiError,
    >)
        ensures
            exists|now: i64, logbook_id: u128|
                #[trigger] create_logbook_outcome(
                    old(self)@,
                    final(self)@,
                    bearer_of(request.headers@),
                    input,
                    now,
                    logbook_id,
                    r,
                ),
    {
        let logbook_id = crate::ids::new_uuid();
        let now = crate::ids::now_millis();
        self.create_logbook_with(request, input, now, logbook_id)
    }

    /// Registers a device under a fresh random id, stamped with the current
    /// time; without a fingerprint it gets a random one.
    pub fn register_device(&mut self, request: &ApiRequest, device_name: String, fingerprint: Option<String>) -> (r:
        Result<DeviceIdentity, ApiError>)
        ensures
            exists|now: i64, device_id: u128, fingerprint_id: u128|
                #[trigger] register_device_outcome(
                    old(self)@,
                    final(self)@,
                    bearer_of(request.headers@),
                    device_name,
                    fingerprint,
                    now,
                    device_id,
                    fingerprint_id,
                    r,
                ),
    {
        let device_id = crate::ids::new_uuid();
        let fingerprint_id = crate::ids::new_uuid();
        let now = crate::ids::now_millis();
        self.register_device_with(request, device_name, fingerprint, now, device_id, fingerprint_id)
    }

    /// How many active sessions there are.
    pub fn active_session_count(&self) -> (r: usize)
        ensures
            r == self@.sessions.filter(|s: SessionView| s.active).len(),
    {
        let ghost ss = self@.sessions;
        let ghost pred = |s: SessionView| s.active;
        let mut n: usize = 0;
        let mut i: usize = 0;
        while i < self.sessions.len()
            invariant
                i <= self.sessions@.len(),
                ss == self@.sessions,
                pred == (|s: SessionView| s.active),
                n == ss.subrange(0, i as int).filter(pred).len(),
                n <= i,
            decreases self.sessions@.len() - i,
        {
            proof {
                reveal(Seq::filter);
                assert(ss.subrange(0, i + 1).drop_last() =~= ss.subrange(0, i as int));
                assert(ss.subrange(0, i + 1).last() == ss[i as int]);
                ss.subrange(0, i as int).lemma_filter_len(pred);
            }
            if self.sessions[i].active {
                n = n + 1;
            }
            i = i + 1;
        }
        assert(ss.subrange(0, ss.len() as int) =~= ss);
        n
    }
}

/// A fresh sign-in authorizes its own token at once.
pub proof fn law_login_authorizes(s: ServerView, req: LoginRequest, ids: LoginIds, now: i64)
    requires
        login_email(req).len() > 0,
        login_account(s, req, ids, now) is Some,
    ensures
        ({
            let account = login_account(s, req, ids, now).unwrap().0;
            authorize_spec(after_login(s, req, ids, now), Some(login_session(account, ids, now).token))
                == Ok::<SessionView, ApiError>(login_session(account, ids, now))
        }),
{
    let (account, created) = login_account(s, req, ids, now).unwrap();
    let after = after_login(s, req, ids, now);
    let x = login_session(account, ids, now);
    let d = login_device(req, account, ids, now);
    let base_sessions = if created { s.sessions } else { s.sessions };
    let base_devices = s.devices;
    assert(after.sessions == upsert_session(base_sessions, x));
    assert(after.devices == upsert_device(base_devices, d));
    lemma_session_pos_bounds(base_sessions, x.token);
    let i = session_pos(base_sessions, x.token);
    if i < base_sessions.len() {
        lemma_session_pos(after.sessions, x.token, i);
    } else {
        lemma_session_pos(after.sessions, x.token, base_sessions.len() as int);
    }
    lemma_device_pos_bounds(base_devices, d.device_id);
    let j = device_pos(base_devices, d.device_id);
    if j < base_devices.len() {
        lemma_device_pos(after.devices, d.device_id, j);
    } else {
        lemma_device_pos(after.devices, d.device_id, base_devices.len() as int);
    }
}


proof fn lemma_email_pos_bounds(es: Seq<(Seq<char>, u128)>, email: Seq<char>)
    ensures
        0 <= email_pos(es, email) <= es.len(),
        forall|k: int| 0 <= k < email_pos(es, email) ==> (#[trigger] es[k]).0 != email,
        email_pos(es, email) < es.len() ==> es[email_pos(es, email)].0 == email,
    decreases es.len(),
{
    if es.len() > 0 && es[0].0 != email {
        lemma_email_pos_bounds(es.drop_first(), email);
        assert forall|k: int| 0 <= k < email_pos(es, email) implies (#[trigger] es[k]).0 != email by {
            if k > 0 {
                assert(es[k] == es.drop_first()[k - 1]);
            }
        }
    }
}

proof fn lemma_account_pos_bounds(accts: Seq<AccountView>, account_id: u128)
    ensures
        0 <= account_pos(accts, account_id) <= accts.len(),
        forall|k: int| 0 <= k < account_pos(accts, account_id) ==> (#[trigger] accts[k]).account_id
            != account_id,
        account_pos(accts, account_id) < accts.len() ==> accts[account_pos(
            accts,
            account_id,
        )].account_id == account_id,
    decreases accts.len(),
{
    if accts.len() > 0 && accts[0].account_id != account_id {
        lemma_account_pos_bounds(accts.drop_first(), account_id);
        assert forall|k: int| 0 <= k < account_pos(accts, account_id) implies (
        #[trigger] accts[k]).account_id != account_id by {
            if k > 0 {
                assert(accts[k] == accts.drop_first()[k - 1]);
            }
        }
    }
}

proof fn lemma_visible_none(s: ServerView, user_id: u128, ms: Seq<LogbookMembership>)
    requires
        forall|i: int| 0 <= i < ms.len() ==> (#[trigger] ms[i]).user_id != user_id,
    ensures
        visible_unsorted(s, user_id, ms) == Seq::<LogbookView>::empty(),
    decreases ms.len(),
{
    if ms.len() > 0 {
        lemma_visible_none(s, user_id, ms.drop_last());
        assert(ms.last() == ms[ms.len() - 1]);
    }
}

proof fn lemma_visible_same_logbooks(s1: ServerView, s2: ServerView, user_id: u128, ms: Seq<LogbookMembership>)
    requires
        s1.logbooks == s2.logbooks,
    ensures
        visible_unsorted(s1, user_id, ms) == visible_unsorted(s2, user_id, ms),
    decreases ms.len(),
{
    if ms.len() > 0 {
        lemma_visible_same_logbooks(s1, s2, user_id, ms.drop_last());
    }
}

/// A sign-in with an email that no account has yet, under identifiers that
/// nothing uses yet, creates the account with its default logbook, owned by
/// the new user, and the reply lists exactly that one logbook.
pub proof fn law_new_account_sees_one_logbook(
    before: ServerView,
    after: ServerView,
    request: LoginRequest,
    ids: LoginIds,
    now: i64,
    r: Result<LoginResponse, ApiError>,
)
    requires
        login_outcome(before, after, request, ids, now, r),
        login_email(request).len() > 0,
        forall|i: int| 0 <= i < before.emails.len() ==> (#[trigger] before.emails[i]).0 != login_email(request),
        forall|i: int| 0 <= i < before.memberships.len() ==> (#[trigger] before.memberships[i]).user_id
            != ids.user_id,
        forall|i: int| 0 <= i < before.logbooks.len() ==> (#[trigger] before.logbooks[i]).logbook_id
            != ids.logbook_id,
    ensures
        r matches Ok(out) && out.account@ == new_account(request, ids, now) && out.logbooks@.len() == 1
            && out.logbooks@[0]@ == default_logbook(new_account(request, ids, now), ids, now),
        after.memberships == before.memberships.push(
            LogbookMembership {
                account_id: ids.account_id,
                logbook_id: ids.logbook_id,
                user_id: ids.user_id,
                role: LogbookRole::Owner,
                created_at: now,
            },
        ),
{
    let email = login_email(request);
    lemma_email_pos(before.emails, email, before.emails.len() as int);
    let acc = new_account(request, ids, now);
    let lb = default_logbook(acc, ids, now);
    assert(login_account(before, request, ids, now) == Some((acc, true)));
    lemma_logbook_pos(before.logbooks, ids.logbook_id, before.logbooks.len() as int);
    assert(after.logbooks == before.logbooks.push(lb));
    lemma_logbook_pos(after.logbooks, ids.logbook_id, before.logbooks.len() as int);
    let ms = after.memberships;
    assert(ms.drop_last() =~= before.memberships);
    lemma_visible_none(after, ids.user_id, before.memberships);
    let vis = visible_unsorted(after, ids.user_id, ms);
    assert(vis =~= seq![lb]);
    assert(vis.drop_last() =~= Seq::<LogbookView>::empty());
    assert(sort_by_name(vis) == insert_by_name(sort_by_name(vis.drop_last()), lb));
    assert(sort_by_name(vis) =~= seq![lb]);
    if let Ok(out) = r {
        assert(out.logbooks@.map_values(|l: ApiLogbook| l@) == seq![lb]);
        assert(out.logbooks@.map_values(|l: ApiLogbook| l@)[0] == out.logbooks@[0]@);
    }
}

/// Signing in again with the email of an earlier successful sign-in finds
/// the same account and adds no account, email, logbook or membership; the
/// reply lists the same logbooks.
pub proof fn law_repeated_login_keeps_account(
    s0: ServerView,
    s1: ServerView,
    s2: ServerView,
    first: LoginRequest,
    second: LoginRequest,
    ids1: LoginIds,
    ids2: LoginIds,
    now1: i64,
    now2: i64,
    r1: Result<LoginResponse, ApiError>,
    r2: Result<LoginResponse, ApiError>,
)
    requires
        login_outcome(s0, s1, first, ids1, now1, r1),
        login_outcome(s1, s2, second, ids2, now2, r2),
        r1 is Ok,
        login_email(second) == login_email(first),
    ensures
        r1 matches Ok(o1) && r2 matches Ok(o2) && o2.account@ == o1.account@ && o2.logbooks@.len()
            == o1.logbooks@.len() && (forall|i: int|
            0 <= i < o1.logbooks@.len() ==> (#[trigger] o2.logbooks@[i])@ == o1.logbooks@[i]@),
        s2.emails == s1.emails,
        s2.accounts == s1.accounts,
        s2.logbooks == s1.logbooks,
        s2.memberships == s1.memberships,
{
    let email = login_email(first);
    let (acc, created) = login_account(s0, first, ids1, now1).unwrap();
    lemma_email_pos_bounds(s0.emails, email);
    if created {
        let n = s0.emails.len() as int;
        assert(s1.emails == s0.emails.push((email, acc.account_id)));
        lemma_email_pos(s1.emails, email, n);
        lemma_account_pos_bounds(s0.accounts, acc.account_id);
        let i = account_pos(s0.accounts, acc.account_id);
        if i < s0.accounts.len() {
            lemma_account_pos(s1.accounts, acc.account_id, i);
        } else {
            lemma_account_pos(s1.accounts, acc.account_id, s0.accounts.len() as int);
        }
    }
    assert(login_account(s1, second, ids2, now2) == Some((acc, false)));
    lemma_visible_same_logbooks(s1, s2, acc.user_id, s1.memberships);
    if let (Ok(o1), Ok(o2)) = (r1, r2) {
        let f = |l: ApiLogbook| l@;
        assert(o2.logbooks@.map_values(f) == o1.logbooks@.map_values(f));
        assert forall|i: int| 0 <= i < o1.logbooks@.len() implies (#[trigger] o2.logbooks@[i])@
            == o1.logbooks@[i]@ by {
            assert(o2.logbooks@.map_values(f)[i] == o1.logbooks@.map_values(f)[i]);
        }
    }
}

/// The membership granting `role` on a logbook to the account registered
/// under an email (compared in lower case); every lookup that fails is
/// not found.
pub open spec fn membership_grant(
    s: ServerView,
    email: Seq<char>,
    logbook_id: u128,
    role: LogbookRole,
    now: i64,
) -> Result<LogbookMembership, ApiError> {
    let ep = email_pos(s.emails, crate::text::lower_ascii_seq(email));
    if ep >= s.emails.len() {
        Err(ApiError::NotFound)
    } else {
        let ap = account_pos(s.accounts, s.emails[ep].1);
        if ap >= s.accounts.len() {
            Err(ApiError::NotFound)
        } else {
            let lp = logbook_pos(s.logbooks, logbook_id);
            if lp >= s.logbooks.len() {
                Err(ApiError::NotFound)
            } else {
                Ok(
                    LogbookMembership {
                        account_id: s.logbooks[lp].account_id,
                        logbook_id,
                        user_id: s.accounts[ap].user_id,
                        role,
                        created_at: now,
                    },
                )
            }
        }
    }
}

/// The memberships of a user, in order.
pub open spec fn memberships_of(ms: Seq<LogbookMembership>, user_id: u128) -> Seq<LogbookMembership> {
    ms.filter(|m: LogbookMembership| m.user_id == user_id)
}

impl ServerState {
    /// Grants a role on a logbook, at `now`, to the account registered under
    /// an email.
    pub fn add_membership_for_email_at(&mut self, email: &str, logbook_id: u128, role: LogbookRole, now: i64) -> (r:
        Result<(), ApiError>)
        ensures
            match membership_grant(old(self)@, email@, logbook_id, role, now) {
                Ok(m) => r is Ok && final(self)@.memberships == old(self)@.memberships.push(m),
                Err(e) => r matches Err(x) && x == e && final(self)@.memberships == old(self)@.memberships,
            },
            final(self)@.emails == old(self)@.emails,
            final(self)@.accounts == old(self)@.accounts,
            final(self)@.logbooks == old(self)@.logbooks,
            final(self)@.sessions == old(self)@.sessions,
            final(self)@.devices == old(self)@.devices,
    {
        let lowered = crate::text::lower_ascii_str(email);
        let ep = self.find_email(&lowered);
        if ep >= self.users_by_email.len() {
            return Err(ApiError::NotFound);
        }
        let ap = self.find_account(self.users_by_email[ep].1);
        if ap >= self.accounts.len() {
            return Err(ApiError::NotFound);
        }
        let lp = self.find_logbook(logbook_id);
        if lp >= self.logbooks.len() {
            return Err(ApiError::NotFound);
        }
        let m = LogbookMembership {
            account_id: self.logbooks[lp].account_id,
            logbook_id,
            user_id: self.accounts[ap].user_id,
            role,
            created_at: now,
        };
        self.memberships.push(m);
        Ok(())
    }

    /// Grants a role on a logbook to the account registered under an email,
    /// stamped with the current time.
    pub fn add_membership_for_email(&mut self, email: &str, logbook_id: u128, role: LogbookRole) -> (r: Result<
        (),
        ApiError,
    >)
        ensures
            exists|now: i64|
                match #[trigger] membership_grant(old(self)@, email@, logbook_id, role, now) {
                    Ok(m) => r is Ok && final(self)@.memberships == old(self)@.memberships.push(m),
                    Err(e) => r matches Err(x) && x == e && final(self)@.memberships == old(self)@.memberships,
                },
            final(self)@.emails == old(self)@.emails,
            final(self)@.accounts == old(self)@.accounts,
            final(self)@.logbooks == old(self)@.logbooks,
            final(self)@.sessions == old(self)@.sessions,
            final(self)@.devices == old(self)@.devices,
    {
        let now = crate::ids::now_millis();
        self.add_membership_for_email_at(email, logbook_id, role, now)
    }

    /// The memberships of a user, in the order they were granted.
    pub fn user_memberships(&self, user_id: u128) -> (r: Vec<LogbookMembership>)
        ensures
            r@ == memberships_of(self@.memberships, user_id),
    {
        let ghost ms = self@.memberships;
        let mut out: Vec<LogbookMembership> = Vec::new();
        let mut i: usize = 0;
        while i < self.memberships.len()
            invariant
                i <= self.memberships@.len(),
                ms == self@.memberships,
                out@ == memberships_of(ms.subrange(0, i as int), user_id),
            decreases self.memberships@.len() - i,
        {
            proof {
                reveal(Seq::filter);
                assert(ms.subrange(0, i + 1).drop_last() =~= ms.subrange(0, i as int));
            }
            if self.memberships[i].user_id == user_id {
                out.push(self.memberships[i]);
            }
            i = i + 1;
        }
        assert(ms.subrange(0, ms.len() as int) =~= ms);
        out
    }
}

/// What `/api/v1/auth/session` answers: the signed-in account, its session
/// and device, and the user's memberships.
#[derive(Debug)]
pub struct SessionResponse {
    pub account: UserAccount,
    pub session: LoginSession,
    pub device: DeviceIdentity,
    pub memberships: Vec<LogbookMembership>,
}

/// The account, session, device and memberships behind a bearer token; an
/// authorized session whose account or device is unknown is unauthenticated.
pub open spec fn session_info_spec(s: ServerView, token: Option<Seq<char>>) -> Result<
    (AccountView, SessionView, DeviceView, Seq<LogbookMembership>),
    ApiError,
> {
    match authorize_spec(s, token) {
        Err(e) => Err(e),
        Ok(session) => {
            let a = account_pos(s.accounts, session.account_id);
            let d = device_pos(s.devices, session.device_id);
            if a >= s.accounts.len() || d >= s.devices.len() {
                Err(ApiError::Unauthenticated)
            } else {
                Ok((s.accounts[a], session, s.devices[d], memberships_of(s.memberships, session.user_id)))
            }
        },
    }
}

/// A logbook a request may read, with the caller's role on it; a logbook
/// the caller may read but that is not stored is not found.
pub open spec fn logbook_read_spec(s: ServerView, token: Option<Seq<char>>, logbook_id: u128) -> Result<
    (LogbookView, LogbookRole),
    ApiError,
> {
    match logbook_access_spec(s, token, logbook_id, LogbookAccess::Read) {
        Err(e) => Err(e),
        Ok(access) => {
            let i = logbook_pos(s.logbooks, logbook_id);
            if i >= s.logbooks.len() {
                Err(ApiError::NotFound)
            } else {
                Ok((s.logbooks[i], access.1))
            }
        },
    }
}

impl ServerState {
    /// The signed-in account, session, device and memberships of the
    /// request's bearer token.
    pub fn session(&self, request: &ApiRequest) -> (r: Result<SessionResponse, ApiError>)
        ensures
            match session_info_spec(self@, bearer_of(request.headers@)) {
                Err(e) => r matches Err(x) && x == e,
                Ok(info) => r matches Ok(resp) && resp.account@ == info.0 && resp.session@ == info.1
                    && resp.device@ == info.2 && resp.memberships@ == info.3,
            },
    {
        let session = match self.authorize(request) {
            Ok(s) => s,
            Err(e) => {
                return Err(e);
            },
        };
        let a = self.find_account(session.account_id);
        let d = self.find_device(session.device_id);
        if a >= self.accounts.len() || d >= self.devices.len() {
            return Err(ApiError::Unauthenticated);
        }
        let memberships = self.user_memberships(session.user_id);
        Ok(
            SessionResponse {
                account: self.accounts[a].copy(),
                session,
                device: self.devices[d].copy(),
                memberships,
            },
        )
    }

    /// A logbook the request may read, with the caller's role on it.
    pub fn get_logbook(&self, request: &ApiRequest, logbook_id: u128) -> (r: Result<(ApiLogbook, LogbookRole), ApiError>)
        ensures
            match logbook_read_spec(self@, bearer_of(request.headers@), logbook_id) {
                Err(e) => r matches Err(x) && x == e,
                Ok(found) => r matches Ok(pair) && pair.0@ == found.0 && pair.1 == found.1,
            },
    {
        let access = self.require_logbook_role(request, logbook_id, LogbookAccess::Read);
        let role = match access {
            Ok(pair) => pair.1,
            Err(e) => {
                return Err(e);
            },
        };
        let i = self.find_logbook(logbook_id);
        if i >= self.logbooks.len() {
            return Err(ApiError::NotFound);
        }
        Ok((self.logbooks[i].copy(), role))
    }
}

/// The status of an outcome: 200 on success, else the error's status.
pub open spec fn outcome_status<T>(r: Result<T, ApiError>) -> u16 {
    match r {
        Ok(_) => 200,
        Err(e) => crate::hosted_api::api_error_status_of(e),
    }
}

/// The status a request is answered with where the route and the server's
/// state alone decide it: health, status and the route catalog are 200; a
/// route the server does not have is 404; a reserved route, the logbook list
/// and the provider list answer as the token authorizes; the session route
/// as the session lookup goes. `None` for routes that need a body, a change
/// of state or the event store.
pub open spec fn state_reply_status(s: ServerView, method: Seq<char>, path: Seq<char>, token: Option<Seq<char>>) -> Option<
    u16,
> {
    match crate::hosted_api::hosted_route_of(method, crate::query::path_segments_of(path)) {
        crate::hosted_api::HostedRoute::Health | crate::hosted_api::HostedRoute::Status
        | crate::hosted_api::HostedRoute::Routes => Some(200),
        crate::hosted_api::HostedRoute::NotFound => Some(404),
        crate::hosted_api::HostedRoute::Scaffolded | crate::hosted_api::HostedRoute::ListLogbooks
        | crate::hosted_api::HostedRoute::Providers | crate::hosted_api::HostedRoute::Devices => Some(
            outcome_status(authorize_spec(s, token)),
        ),
        crate::hosted_api::HostedRoute::Session => Some(outcome_status(session_info_spec(s, token))),
        _ => None,
    }
}

impl ServerState {
    /// The status of a request where the route and the state decide it, as
    /// `state_reply_status` states.
    pub fn reply_status(&self, request: &ApiRequest) -> (r: Option<u16>)
        ensures
            r == state_reply_status(self@, request.method@, request.path@, bearer_of(request.headers@)),
    {
        let segments = crate::query::path_segments(request.path.as_str());
        let route = crate::hosted_api::classify_hosted_route(request.method.as_str(), &segments);
        match route {
            crate::hosted_api::HostedRoute::Health | crate::hosted_api::HostedRoute::Status
            | crate::hosted_api::HostedRoute::Routes => Some(200),
            crate::hosted_api::HostedRoute::NotFound => Some(404),
            crate::hosted_api::HostedRoute::Scaffolded | crate::hosted_api::HostedRoute::ListLogbooks
            | crate::hosted_api::HostedRoute::Providers | crate::hosted_api::HostedRoute::Devices => {
                match self.authorize(request) {
                    Ok(_) => Some(200),
                    Err(e) => Some(crate::hosted_api::api_error_response(&e).0),
                }
            },
            crate::hosted_api::HostedRoute::Session => match self.session(request) {
                Ok(_) => Some(200),
                Err(e) => Some(crate::hosted_api::api_error_response(&e).0),
            },
            _ => None,
        }
    }
}

} // verus!
