//! The offline mutation queue: work recorded while disconnected, drained to
//! the server in per-logbook sequence order, with retry backoff and
//! dependency gating.
use vstd::prelude::*;
use crate::events::{copy_opt, opt_view, EventEnvelope, EventView, event_views};
use crate::ids::new_uuid;
use crate::text::{chars_of, trim_bounds, trim_seq};

verus! {

pub const OFFLINE_MUTATION_SCHEMA_VERSION: u32 = 1;
pub const OFFLINE_QUEUE_FILE_VERSION: u32 = 1;
pub const OFFLINE_OP_QSO_CREATE: &'static str = "qso.create";
pub const OFFLINE_OP_QSO_DELETE: &'static str = "qso.delete";
pub const OFFLINE_OP_QSO_RESTORE: &'static str = "qso.restore";
pub const OFFLINE_OP_QSO_NOTE_ADD: &'static str = "qso.note.add";
pub const OFFLINE_OP_ACTIVATION_START: &'static str = "activation.start";
pub const OFFLINE_OP_ACTIVATION_END: &'static str = "activation.end";
pub const OFFLINE_OP_NET_SESSION_START: &'static str = "net.session.start";
pub const OFFLINE_OP_NET_SESSION_END: &'static str = "net.session.end";
pub const OFFLINE_OP_NET_CHECKIN_CREATE: &'static str = "net.checkin.create";
pub const OFFLINE_OP_NET_CHECKIN_DELETE: &'static str = "net.checkin.delete";
pub const OFFLINE_OP_NET_TRAFFIC_CREATE: &'static str = "net.traffic.create";
pub const OFFLINE_OP_STATION_PROFILE_CREATE: &'static str = "station.profile.create";
pub const OFFLINE_OP_STATION_PROFILE_SELECT: &'static str = "station.profile.select";
pub const OFFLINE_OP_STATION_EQUIPMENT_CREATE: &'static str = "station.equipment.create";

pub const DEFAULT_MAX_ATTEMPTS: u32 = 8;
pub const DEFAULT_BACKOFF_SECONDS: u64 = 5;
pub const DEFAULT_MAX_BACKOFF_SECONDS: u64 = 900;

/// Why an offline queue operation failed.
#[derive(Debug, Clone)]
pub enum OfflineQueueError {
    Io(String),
    Serde(String),
    UnsupportedFileVersion(u32),
    UnsupportedMutationSchema { operation_id: u128, schema_version: u32 },
    InvalidOperationType { operation_id: u128 },
    InvalidIdempotencyKey { operation_id: u128 },
    InvalidSequence { operation_id: u128, sequence: u64 },
    UnsupportedDependencySchema { operation_id: u128, schema_version: u32 },
    DuplicateSequence { logbook_id: u128, sequence: u64 },
    MutationNotFound(u128),
    MissingLocalOfficialEvent { operation_id: u128 },
}

/// Where a mutation stands on its way to the server.
#[derive(Debug, Clone, Copy, PartialEq, Eq, Structural)]
pub enum OfflineMutationStatus {
    Pending,
    Sending,
    Retrying,
    Blocked,
    Failed,
    Accepted,
    UserActionRequired,
}

pub open spec fn terminal(s: OfflineMutationStatus) -> bool {
    s is Blocked || s is Failed || s is Accepted || s is UserActionRequired
}

pub open spec fn draining(s: OfflineMutationStatus) -> bool {
    s is Pending || s is Retrying
}

impl OfflineMutationStatus {
    /// No further send attempt is made without outside action.
    pub fn is_terminal(self) -> (r: bool)
        ensures
            r == terminal(self),
    {
        match self {
            OfflineMutationStatus::Blocked | OfflineMutationStatus::Failed
            | OfflineMutationStatus::Accepted | OfflineMutationStatus::UserActionRequired => true,
            _ => false,
        }
    }

    /// Waiting to be sent.
    pub fn is_draining(self) -> (r: bool)
        ensures
            r == draining(self),
    {
        match self {
            OfflineMutationStatus::Pending | OfflineMutationStatus::Retrying => true,
            _ => false,
        }
    }
}

/// Something a mutation waits for before it may be sent.
#[derive(Debug)]
pub struct OfflineMutationDependency {
    pub operation_id: Option<u128>,
    pub event_hash: Option<String>,
    pub minimum_schema_version: Option<u32>,
}

pub struct DependencyView {
    pub operation_id: Option<u128>,
    pub event_hash: Option<Seq<char>>,
    pub minimum_schema_version: Option<u32>,
}

impl View for OfflineMutationDependency {
    type V = DependencyView;

    open spec fn view(&self) -> DependencyView {
        DependencyView {
            operation_id: self.operation_id,
            event_hash: opt_view(self.event_hash),
            minimum_schema_version: self.minimum_schema_version,
        }
    }
}

pub open spec fn dependency_views(v: Seq<OfflineMutationDependency>) -> Seq<DependencyView> {
    v.map_values(|d: OfflineMutationDependency| d@)
}

impl OfflineMutationDependency {
    /// Waits for another queued operation to be accepted.
    pub fn operation(operation_id: u128) -> (r: Self)
        ensures
            r@ == (DependencyView {
                operation_id: Some(operation_id),
                event_hash: None,
                minimum_schema_version: None,
            }),
    {
        OfflineMutationDependency {
            operation_id: Some(operation_id),
            event_hash: None,
            minimum_schema_version: None,
        }
    }

    /// Waits for an accepted mutation whose local event has this hash.
    pub fn event_hash(event_hash: String) -> (r: Self)
        ensures
            r@ == (DependencyView {
                operation_id: None,
                event_hash: Some(event_hash@),
                minimum_schema_version: None,
            }),
    {
        OfflineMutationDependency {
            operation_id: None,
            event_hash: Some(event_hash),
            minimum_schema_version: None,
        }
    }

    /// Requires a mutation schema version this client supports.
    pub fn minimum_schema_version(schema_version: u32) -> (r: Self)
        ensures
            r@ == (DependencyView {
                operation_id: None,
                event_hash: None,
                minimum_schema_version: Some(schema_version),
            }),
    {
        OfflineMutationDependency {
            operation_id: None,
            event_hash: None,
            minimum_schema_version: Some(schema_version),
        }
    }

    pub fn copy(&self) -> (r: Self)
        ensures
            r@ == self@,
    {
        OfflineMutationDependency {
            operation_id: self.operation_id,
            event_hash: copy_opt(&self.event_hash),
            minimum_schema_version: self.minimum_schema_version,
        }
    }
}

pub fn copy_dependencies(v: &Vec<OfflineMutationDependency>) -> (r: Vec<OfflineMutationDependency>)
    ensures
        dependency_views(r@) == dependency_views(v@),
{
    let mut r: Vec<OfflineMutationDependency> = Vec::new();
    let mut i: usize = 0;
    while i < v.len()
        invariant
            i <= v@.len(),
            r@.len() == i,
            dependency_views(r@) == dependency_views(v@).subrange(0, i as int),
        decreases v@.len() - i,
    {
        let d = v[i].copy();
        r.push(d);
        i = i + 1;
        assert(dependency_views(r@) =~= dependency_views(v@).subrange(0, i as int));
    }
    assert(dependency_views(v@).subrange(0, v@.len() as int) =~= dependency_views(v@));
    r
}

/// One queued offline mutation.
///
/// Timestamps are milliseconds since the Unix epoch. `payload` is the JSON
/// text of the mutation payload.
#[derive(Debug)]
pub struct OfflineMutationEnvelope {
    pub schema_version: u32,
    pub operation_id: u128,
    pub correlation_id: u128,
    pub client_id: u128,
    pub device_id: u128,
    pub logbook_id: u128,
    pub sequence: u64,
    pub operation_type: String,
    pub idempotency_key: String,
    pub dependencies: Vec<OfflineMutationDependency>,
    pub payload: String,
    pub status: OfflineMutationStatus,
    pub attempts: u32,
    pub max_attempts: u32,
    pub backoff_seconds: u64,
    pub max_backoff_seconds: u64,
    pub next_attempt_at: Option<i64>,
    pub created_at: i64,
    pub updated_at: i64,
    pub official_event_id: Option<u128>,
    pub local_event_hash: Option<String>,
    pub accepted_at: Option<i64>,
    pub failure_reason: Option<String>,
    pub last_error_code: Option<String>,
}

pub struct MutationView {
    pub schema_version: u32,
    pub operation_id: u128,
    pub correlation_id: u128,
    pub client_id: u128,
    pub device_id: u128,
    pub logbook_id: u128,
    pub sequence: u64,
    pub operation_type: Seq<char>,
    pub idempotency_key: Seq<char>,
    pub dependencies: Seq<DependencyView>,
    pub payload: Seq<char>,
    pub status: OfflineMutationStatus,
    pub attempts: u32,
    pub max_attempts: u32,
    pub backoff_seconds: u64,
    pub max_backoff_seconds: u64,
    pub next_attempt_at: Option<i64>,
    pub created_at: i64,
    pub updated_at: i64,
    pub official_event_id: Option<u128>,
    pub local_event_hash: Option<Seq<char>>,
    pub accepted_at: Option<i64>,
    pub failure_reason: Option<Seq<char>>,
    pub last_error_code: Option<Seq<char>>,
}

impl View for OfflineMutationEnvelope {
    type V = MutationView;

    open spec fn view(&self) -> MutationView {
        MutationView {
            schema_version: self.schema_version,
            operation_id: self.operation_id,
            correlation_id: self.correlation_id,
            client_id: self.client_id,
            device_id: self.device_id,
            logbook_id: self.logbook_id,
            sequence: self.sequence,
            operation_type: self.operation_type@,
            idempotency_key: self.idempotency_key@,
            dependencies: dependency_views(self.dependencies@),
            payload: self.payload@,
            status: self.status,
            attempts: self.attempts,
            max_attempts: self.max_attempts,
            backoff_seconds: self.backoff_seconds,
            max_backoff_seconds: self.max_backoff_seconds,
            next_attempt_at: self.next_attempt_at,
            created_at: self.created_at,
            updated_at: self.updated_at,
            official_event_id: self.official_event_id,
            local_event_hash: opt_view(self.local_event_hash),
            accepted_at: self.accepted_at,
            failure_reason: opt_view(self.failure_reason),
            last_error_code: opt_view(self.last_error_code),
        }
    }
}

pub open spec fn mutation_views(v: Seq<OfflineMutationEnvelope>) -> Seq<MutationView> {
    v.map_values(|m: OfflineMutationEnvelope| m@)
}

/// What `validate` reports for a mutation, if anything.
pub open spec fn mutation_error(m: MutationView) -> Option<OfflineQueueError> {
    if m.schema_version != OFFLINE_MUTATION_SCHEMA_VERSION {
        Some(
            OfflineQueueError::UnsupportedMutationSchema {
                operation_id: m.operation_id,
                schema_version: m.schema_version,
            },
        )
    } else if trim_seq(m.operation_type).len() == 0 {
        Some(OfflineQueueError::InvalidOperationType { operation_id: m.operation_id })
    } else if trim_seq(m.idempotency_key).len() == 0 {
        Some(OfflineQueueError::InvalidIdempotencyKey { operation_id: m.operation_id })
    } else if m.sequence == 0 {
        Some(
            OfflineQueueError::InvalidSequence {
                operation_id: m.operation_id,
                sequence: m.sequence,
            },
        )
    } else {
        match dependency_schema_error(m.dependencies) {
            Some(v) => Some(
                OfflineQueueError::UnsupportedDependencySchema {
                    operation_id: m.operation_id,
                    schema_version: v,
                },
            ),
            None => None,
        }
    }
}

/// The first dependency schema version newer than this client supports.
pub open spec fn dependency_schema_error(deps: Seq<DependencyView>) -> Option<u32>
    decreases deps.len(),
{
    if deps.len() == 0 {
        None
    } else {
        match deps[0].minimum_schema_version {
            Some(v) if v > OFFLINE_MUTATION_SCHEMA_VERSION => Some(v),
            _ => dependency_schema_error(deps.drop_first()),
        }
    }
}

pub open spec fn mutation_valid(m: MutationView) -> bool {
    mutation_error(m) is None
}

fn is_blank(s: &String) -> (r: bool)
    ensures
        r == (trim_seq(s@).len() == 0),
{
    let v = chars_of(s.as_str());
    let (a, b) = trim_bounds(v.as_slice());
    a == b
}

impl OfflineMutationEnvelope {
    pub fn copy(&self) -> (r: Self)
        ensures
            r@ == self@,
    {
        OfflineMutationEnvelope {
            schema_version: self.schema_version,
            operation_id: self.operation_id,
            correlation_id: self.correlation_id,
            client_id: self.client_id,
            device_id: self.device_id,
            logbook_id: self.logbook_id,
            sequence: self.sequence,
            operation_type: self.operation_type.clone(),
            idempotency_key: self.idempotency_key.clone(),
            dependencies: copy_dependencies(&self.dependencies),
            payload: self.payload.clone(),
            status: self.status,
            attempts: self.attempts,
            max_attempts: self.max_attempts,
            backoff_seconds: self.backoff_seconds,
            max_backoff_seconds: self.max_backoff_seconds,
            next_attempt_at: self.next_attempt_at,
            created_at: self.created_at,
            updated_at: self.updated_at,
            official_event_id: self.official_event_id,
            local_event_hash: copy_opt(&self.local_event_hash),
            accepted_at: self.accepted_at,
            failure_reason: copy_opt(&self.failure_reason),
            last_error_code: copy_opt(&self.last_error_code),
        }
    }

    /// Checks the schema version, the operation type, the idempotency key,
    /// the sequence and the dependency schema versions, in that order.
    pub fn validate(&self) -> (r: Result<(), OfflineQueueError>)
        ensures
            r matches Err(e) ==> mutation_error(self@) == Some(e),
            r is Ok == mutation_error(self@) is None,
    {
        if self.schema_version != OFFLINE_MUTATION_SCHEMA_VERSION {
            return Err(
                OfflineQueueError::UnsupportedMutationSchema {
                    operation_id: self.operation_id,
                    schema_version: self.schema_version,
                },
            );
        }
        if is_blank(&self.operation_type) {
            return Err(OfflineQueueError::InvalidOperationType { operation_id: self.operation_id });
        }
        if is_blank(&self.idempotency_key) {
            return Err(
                OfflineQueueError::InvalidIdempotencyKey { operation_id: self.operation_id },
            );
        }
        if self.sequence == 0 {
            return Err(
                OfflineQueueError::InvalidSequence {
                    operation_id: self.operation_id,
                    sequence: self.sequence,
                },
            );
        }
        let ghost deps = dependency_views(self.dependencies@);
        assert(deps.subrange(0, deps.len() as int) =~= deps);
        let mut i: usize = 0;
        while i < self.dependencies.len()
            invariant
                i <= self.dependencies@.len(),
                deps == dependency_views(self.dependencies@),
                self.schema_version == OFFLINE_MUTATION_SCHEMA_VERSION,
                trim_seq(self.operation_type@).len() != 0,
                trim_seq(self.idempotency_key@).len() != 0,
                self.sequence != 0,
                dependency_schema_error(deps) == dependency_schema_error(deps.subrange(i as int, deps.len() as int)),
            decreases self.dependencies@.len() - i,
        {
            let ghost rest = deps.subrange(i as int, deps.len() as int);
            assert(rest[0] == deps[i as int]);
            assert(deps[i as int] == self.dependencies@[i as int]@);
            assert(rest.drop_first() =~= deps.subrange(i + 1, deps.len() as int));
            match self.dependencies[i].minimum_schema_version {
                Some(v) => {
                    if v > OFFLINE_MUTATION_SCHEMA_VERSION {
                        assert(dependency_schema_error(rest) == Some(v));
                        return Err(
                            OfflineQueueError::UnsupportedDependencySchema {
                                operation_id: self.operation_id,
                                schema_version: v,
                            },
                        );
                    }
                },
                None => {},
            }
            i = i + 1;
        }
        assert(deps.subrange(deps.len() as int, deps.len() as int).len() == 0);
        Ok(())
    }

    /// Whether the mutation may be sent at `now`: it is pending or retrying
    /// and its retry time, if any, has come.
    pub fn is_ready_at(&self, now: i64) -> (r: bool)
        ensures
            r == ready_at(self@, now),
    {
        if !self.status.is_draining() {
            return false;
        }
        match self.next_attempt_at {
            Some(t) => t <= now,
            None => true,
        }
    }
}

pub open spec fn ready_at(m: MutationView, now: i64) -> bool {
    draining(m.status) && match m.next_attempt_at {
        Some(t) => t <= now,
        None => true,
    }
}

/// What a client asks to enqueue.
#[derive(Debug)]
pub struct OfflineMutationInput {
    pub logbook_id: u128,
    pub device_id: u128,
    pub client_id: u128,
    pub operation_type: String,
    pub payload: String,
    pub idempotency_key: Option<String>,
    pub operation_id: Option<u128>,
    pub correlation_id: Option<u128>,
    pub dependencies: Vec<OfflineMutationDependency>,
}

pub struct InputView {
    pub logbook_id: u128,
    pub device_id: u128,
    pub client_id: u128,
    pub operation_type: Seq<char>,
    pub payload: Seq<char>,
    pub idempotency_key: Option<Seq<char>>,
    pub operation_id: Option<u128>,
    pub correlation_id: Option<u128>,
    pub dependencies: Seq<DependencyView>,
}

impl View for OfflineMutationInput {
    type V = InputView;

    open spec fn view(&self) -> InputView {
        InputView {
            logbook_id: self.logbook_id,
            device_id: self.device_id,
            client_id: self.client_id,
            operation_type: self.operation_type@,
            payload: self.payload@,
            idempotency_key: opt_view(self.idempotency_key),
            operation_id: self.operation_id,
            correlation_id: self.correlation_id,
            dependencies: dependency_views(self.dependencies@),
        }
    }
}

impl OfflineMutationInput {
    pub fn new(
        logbook_id: u128,
        device_id: u128,
        client_id: u128,
        operation_type: String,
        payload: String,
    ) -> (r: Self)
        ensures
            r.logbook_id == logbook_id,
            r.device_id == device_id,
            r.client_id == client_id,
            r.operation_type@ == operation_type@,
            r.payload@ == payload@,
            r.idempotency_key is None,
            r.operation_id is None,
            r.correlation_id is None,
            r.dependencies@.len() == 0,
    {
        OfflineMutationInput {
            logbook_id,
            device_id,
            client_id,
            operation_type,
            payload,
            idempotency_key: None,
            operation_id: None,
            correlation_id: None,
            dependencies: Vec::new(),
        }
    }

    pub fn with_operation_id(self, operation_id: u128) -> (r: Self)
        ensures
            r.operation_id == Some(operation_id),
            r.logbook_id == self.logbook_id,
            r.device_id == self.device_id,
            r.client_id == self.client_id,
            r.operation_type == self.operation_type,
            r.payload == self.payload,
            r.idempotency_key == self.idempotency_key,
            r.correlation_id == self.correlation_id,
            r.dependencies == self.dependencies,
    {
        let mut s = self;
        s.operation_id = Some(operation_id);
        s
    }

    pub fn with_correlation_id(self, correlation_id: u128) -> (r: Self)
        ensures
            r.correlation_id == Some(correlation_id),
            r.logbook_id == self.logbook_id,
            r.device_id == self.device_id,
            r.client_id == self.client_id,
            r.operation_type == self.operation_type,
            r.payload == self.payload,
            r.idempotency_key == self.idempotency_key,
            r.operation_id == self.operation_id,
            r.dependencies == self.dependencies,
    {
        let mut s = self;
        s.correlation_id = Some(correlation_id);
        s
    }

    pub fn with_idempotency_key(self, idempotency_key: String) -> (r: Self)
        ensures
            opt_view(r.idempotency_key) == Some(idempotency_key@),
            r.logbook_id == self.logbook_id,
            r.device_id == self.device_id,
            r.client_id == self.client_id,
            r.operation_type == self.operation_type,
            r.payload == self.payload,
            r.operation_id == self.operation_id,
            r.correlation_id == self.correlation_id,
            r.dependencies == self.dependencies,
    {
        let mut s = self;
        s.idempotency_key = Some(idempotency_key);
        s
    }

    pub fn with_dependencies(self, dependencies: Vec<OfflineMutationDependency>) -> (r: Self)
        ensures
            r.dependencies == dependencies,
            r.logbook_id == self.logbook_id,
            r.device_id == self.device_id,
            r.client_id == self.client_id,
            r.operation_type == self.operation_type,
            r.payload == self.payload,
            r.idempotency_key == self.idempotency_key,
            r.operation_id == self.operation_id,
            r.correlation_id == self.correlation_id,
    {
        let mut s = self;
        s.dependencies = dependencies;
        s
    }
}

/// The envelope `new` builds around an input, its sequence and its
/// operation id.
pub open spec fn fresh_envelope(
    input: InputView,
    operation_id: u128,
    idempotency_key: Seq<char>,
    sequence: u64,
    now: i64,
) -> MutationView {
    MutationView {
        schema_version: OFFLINE_MUTATION_SCHEMA_VERSION,
        operation_id,
        correlation_id: match input.correlation_id {
            Some(c) => c,
            None => operation_id,
        },
        client_id: input.client_id,
        device_id: input.device_id,
        logbook_id: input.logbook_id,
        sequence,
        operation_type: input.operation_type,
        idempotency_key,
        dependencies: input.dependencies,
        payload: input.payload,
        status: OfflineMutationStatus::Pending,
        attempts: 0,
        max_attempts: DEFAULT_MAX_ATTEMPTS,
        backoff_seconds: DEFAULT_BACKOFF_SECONDS,
        max_backoff_seconds: DEFAULT_MAX_BACKOFF_SECONDS,
        next_attempt_at: None,
        created_at: now,
        updated_at: now,
        official_event_id: None,
        local_event_hash: None,
        accepted_at: None,
        failure_reason: None,
        last_error_code: None,
    }
}

/// The idempotency key derived when the input names none:
/// `"<logbook>:<device>:<sequence>:<operation>"`.
pub open spec fn derived_idempotency_key(
    logbook_id: u128,
    device_id: u128,
    sequence: u64,
    operation_id: u128,
) -> Seq<char> {
    crate::ids::uuid_hyphenated_text(logbook_id).push(':') + crate::ids::uuid_hyphenated_text(
        device_id,
    ).push(':') + crate::text::decimal_text(sequence as nat).push(':')
        + crate::ids::uuid_hyphenated_text(operation_id)
}

impl OfflineMutationEnvelope {
    /// A pending envelope for `input` at `sequence`. Without an operation id
    /// in the input a fresh random one is drawn; without an idempotency key
    /// one is derived from the logbook, device, sequence and operation id.
    pub fn new(input: OfflineMutationInput, sequence: u64, now: i64) -> (r: Self)
        ensures
            input.operation_id matches Some(op) ==> r@.operation_id == op,
            r@ == fresh_envelope(
                input@,
                r@.operation_id,
                match input.idempotency_key {
                    Some(k) => k@,
                    None => derived_idempotency_key(
                        input.logbook_id,
                        input.device_id,
                        sequence,
                        r@.operation_id,
                    ),
                },
                sequence,
                now,
            ),
    {
        let operation_id = match input.operation_id {
            Some(op) => op,
            None => new_uuid(),
        };
        let correlation_id = match input.correlation_id {
            Some(c) => c,
            None => operation_id,
        };
        let idempotency_key = match input.idempotency_key {
            Some(k) => k,
            None => {
                let mut k = crate::ids::uuid_text(input.logbook_id);
                crate::text::push_char(&mut k, ':');
                let d = crate::ids::uuid_text(input.device_id);
                crate::text::append_str(&mut k, d.as_str());
                crate::text::push_char(&mut k, ':');
                let s = crate::text::decimal_string(sequence);
                crate::text::append_str(&mut k, s.as_str());
                crate::text::push_char(&mut k, ':');
                let o = crate::ids::uuid_text(operation_id);
                crate::text::append_str(&mut k, o.as_str());
                k
            },
        };
        let r = OfflineMutationEnvelope {
            schema_version: OFFLINE_MUTATION_SCHEMA_VERSION,
            operation_id,
            correlation_id,
            client_id: input.client_id,
            device_id: input.device_id,
            logbook_id: input.logbook_id,
            sequence,
            operation_type: input.operation_type,
            idempotency_key,
            dependencies: input.dependencies,
            payload: input.payload,
            status: OfflineMutationStatus::Pending,
            attempts: 0,
            max_attempts: DEFAULT_MAX_ATTEMPTS,
            backoff_seconds: DEFAULT_BACKOFF_SECONDS,
            max_backoff_seconds: DEFAULT_MAX_BACKOFF_SECONDS,
            next_attempt_at: None,
            created_at: now,
            updated_at: now,
            official_event_id: None,
            local_event_hash: None,
            accepted_at: None,
            failure_reason: None,
            last_error_code: None,
        };
        r
    }
}

pub open spec fn key_lt(a: MutationView, b: MutationView) -> bool {
    a.logbook_id < b.logbook_id || (a.logbook_id == b.logbook_id && a.sequence < b.sequence)
}

/// Strictly ordered by logbook, then sequence: the order the queue file is
/// kept in, which also rules out two mutations with one logbook and sequence.
pub open spec fn queue_sorted(ms: Seq<MutationView>) -> bool {
    forall|i: int, j: int| 0 <= i < j < ms.len() ==> key_lt(#[trigger] ms[i], #[trigger] ms[j])
}

pub open spec fn table_map(s: Seq<(u128, u64)>) -> Map<u128, u64>
    decreases s.len(),
{
    if s.len() == 0 {
        Map::empty()
    } else {
        table_map(s.drop_last()).insert(s.last().0, s.last().1)
    }
}

pub struct QueueView {
    pub next_sequence_by_logbook: Map<u128, u64>,
    pub mutations: Seq<MutationView>,
}

pub open spec fn queue_wf(q: QueueView) -> bool {
    &&& queue_sorted(q.mutations)
    &&& forall|i: int| 0 <= i < q.mutations.len() ==> mutation_valid(#[trigger] q.mutations[i])
}

/// The content of the offline queue file: the next sequence per logbook and
/// the mutations, ordered by logbook and sequence.
#[derive(Debug)]
pub struct OfflineQueue {
    next_sequence_by_logbook: Vec<(u128, u64)>,
    mutations: Vec<OfflineMutationEnvelope>,
}

impl View for OfflineQueue {
    type V = QueueView;

    closed spec fn view(&self) -> QueueView {
        QueueView {
            next_sequence_by_logbook: table_map(self.next_sequence_by_logbook@),
            mutations: mutation_views(self.mutations@),
        }
    }
}

pub open spec fn sat_inc(n: u64) -> u64 {
    if n == u64::MAX {
        n
    } else {
        (n + 1) as u64
    }
}

pub open spec fn max_u64(a: u64, b: u64) -> u64 {
    if a >= b {
        a
    } else {
        b
    }
}

/// The largest `sequence + 1` (saturating) among the logbook's mutations.
pub open spec fn derived_next(ms: Seq<MutationView>, logbook_id: u128) -> Option<u64>
    decreases ms.len(),
{
    if ms.len() == 0 {
        None
    } else {
        let rest = derived_next(ms.drop_last(), logbook_id);
        let m = ms.last();
        if m.logbook_id == logbook_id {
            match rest {
                Some(x) => Some(max_u64(x, sat_inc(m.sequence))),
                None => Some(sat_inc(m.sequence)),
            }
        } else {
            rest
        }
    }
}

/// The sequence the next mutation of a logbook receives: the larger of the
/// stored counter and what the queued mutations imply, 1 for a new logbook.
pub open spec fn next_sequence_of(q: QueueView, logbook_id: u128) -> u64 {
    let stored = q.next_sequence_by_logbook;
    match (stored.contains_key(logbook_id), derived_next(q.mutations, logbook_id)) {
        (true, Some(d)) => max_u64(stored[logbook_id], d),
        (true, None) => stored[logbook_id],
        (false, Some(d)) => d,
        (false, None) => 1,
    }
}

/// First index holding the operation in the logbook, or the length.
pub open spec fn find_op_in_logbook(ms: Seq<MutationView>, logbook_id: u128, op: u128) -> int
    decreases ms.len(),
{
    if ms.len() == 0 {
        0
    } else if ms[0].logbook_id == logbook_id && ms[0].operation_id == op {
        0
    } else {
        1 + find_op_in_logbook(ms.drop_first(), logbook_id, op)
    }
}

/// First index holding the operation in any logbook, or the length.
pub open spec fn find_op(ms: Seq<MutationView>, op: u128) -> int
    decreases ms.len(),
{
    if ms.len() == 0 {
        0
    } else if ms[0].operation_id == op {
        0
    } else {
        1 + find_op(ms.drop_first(), op)
    }
}

/// First index holding the idempotency key in the logbook, or the length.
pub open spec fn find_key_in_logbook(ms: Seq<MutationView>, logbook_id: u128, key: Seq<char>) -> int
    decreases ms.len(),
{
    if ms.len() == 0 {
        0
    } else if ms[0].logbook_id == logbook_id && ms[0].idempotency_key == key {
        0
    } else {
        1 + find_key_in_logbook(ms.drop_first(), logbook_id, key)
    }
}

pub open spec fn has_sequence(ms: Seq<MutationView>, logbook_id: u128, sequence: u64) -> bool {
    exists|i: int| 0 <= i < ms.len() && ms[i].logbook_id == logbook_id && ms[i].sequence == sequence
}

/// Where a mutation goes to keep the order: before the first larger key.
pub open spec fn insert_position(ms: Seq<MutationView>, m: MutationView) -> int
    decreases ms.len(),
{
    if ms.len() == 0 {
        0
    } else if key_lt(m, ms[0]) {
        0
    } else {
        1 + insert_position(ms.drop_first(), m)
    }
}

pub open spec fn sorted_insert(ms: Seq<MutationView>, m: MutationView) -> Seq<MutationView> {
    ms.insert(insert_position(ms, m), m)
}

/// The queue after adding `e`, whose logbook and sequence are new.
pub open spec fn with_added(q: QueueView, e: MutationView, next: u64) -> QueueView {
    QueueView {
        next_sequence_by_logbook: q.next_sequence_by_logbook.insert(e.logbook_id, next),
        mutations: sorted_insert(q.mutations, e),
    }
}

/// What `enqueue_input` does, for the operation id the envelope receives.
pub open spec fn enqueue_input_spec(q: QueueView, input: InputView, op: u128, now: i64) -> (
    QueueView,
    Result<MutationView, OfflineQueueError>,
) {
    let ms = q.mutations;
    let lb = input.logbook_id;
    let by_op = match input.operation_id {
        Some(o) => find_op_in_logbook(ms, lb, o),
        None => ms.len() as int,
    };
    let by_key = match input.idempotency_key {
        Some(k) => find_key_in_logbook(ms, lb, k),
        None => ms.len() as int,
    };
    if by_op < ms.len() {
        (q, Ok(ms[by_op]))
    } else if by_key < ms.len() {
        (q, Ok(ms[by_key]))
    } else {
        let seq = next_sequence_of(q, lb);
        let key = match input.idempotency_key {
            Some(k) => k,
            None => derived_idempotency_key(lb, input.device_id, seq, op),
        };
        let e = fresh_envelope(input, op, key, seq, now);
        match mutation_error(e) {
            Some(err) => (q, Err(err)),
            None => if has_sequence(ms, lb, seq) {
                (q, Err(OfflineQueueError::DuplicateSequence { logbook_id: lb, sequence: seq }))
            } else {
                (with_added(q, e, sat_inc(seq)), Ok(e))
            },
        }
    }
}

pub open spec fn result_view(r: Result<OfflineMutationEnvelope, OfflineQueueError>) -> Result<
    MutationView,
    OfflineQueueError,
> {
    match r {
        Ok(e) => Ok(e@),
        Err(x) => Err(x),
    }
}

proof fn lemma_find_op_in_logbook(ms: Seq<MutationView>, lb: u128, op: u128)
    ensures
        0 <= find_op_in_logbook(ms, lb, op) <= ms.len(),
        find_op_in_logbook(ms, lb, op) < ms.len() ==> ms[find_op_in_logbook(ms, lb, op)].logbook_id
            == lb && ms[find_op_in_logbook(ms, lb, op)].operation_id == op,
        forall|k: int|
            0 <= k < find_op_in_logbook(ms, lb, op) ==> !(ms[k].logbook_id == lb
                && ms[k].operation_id == op),
    decreases ms.len(),
{
    if ms.len() > 0 && !(ms[0].logbook_id == lb && ms[0].operation_id == op) {
        lemma_find_op_in_logbook(ms.drop_first(), lb, op);
        assert forall|k: int| 0 <= k < find_op_in_logbook(ms, lb, op) implies !(ms[k].logbook_id
            == lb && ms[k].operation_id == op) by {
            if k > 0 {
                assert(ms.drop_first()[k - 1] == ms[k]);
            }
        }
    }
}

proof fn lemma_find_op(ms: Seq<MutationView>, op: u128)
    ensures
        0 <= find_op(ms, op) <= ms.len(),
        find_op(ms, op) < ms.len() ==> ms[find_op(ms, op)].operation_id == op,
        forall|k: int| 0 <= k < find_op(ms, op) ==> ms[k].operation_id != op,
    decreases ms.len(),
{
    if ms.len() > 0 && ms[0].operation_id != op {
        lemma_find_op(ms.drop_first(), op);
        assert forall|k: int| 0 <= k < find_op(ms, op) implies ms[k].operation_id != op by {
            if k > 0 {
                assert(ms.drop_first()[k - 1] == ms[k]);
            }
        }
    }
}

proof fn lemma_find_key_in_logbook(ms: Seq<MutationView>, lb: u128, key: Seq<char>)
    ensures
        0 <= find_key_in_logbook(ms, lb, key) <= ms.len(),
        find_key_in_logbook(ms, lb, key) < ms.len() ==> ms[find_key_in_logbook(
            ms,
            lb,
            key,
        )].logbook_id == lb && ms[find_key_in_logbook(ms, lb, key)].idempotency_key == key,
        forall|k: int|
            0 <= k < find_key_in_logbook(ms, lb, key) ==> !(ms[k].logbook_id == lb
                && ms[k].idempotency_key == key),
    decreases ms.len(),
{
    if ms.len() > 0 && !(ms[0].logbook_id == lb && ms[0].idempotency_key == key) {
        lemma_find_key_in_logbook(ms.drop_first(), lb, key);
        assert forall|k: int| 0 <= k < find_key_in_logbook(ms, lb, key) implies !(
        ms[k].logbook_id == lb && ms[k].idempotency_key == key) by {
            if k > 0 {
                assert(ms.drop_first()[k - 1] == ms[k]);
            }
        }
    }
}

proof fn lemma_find_from(ms: Seq<MutationView>, lb: u128, op: u128, i: int)
    requires
        0 <= i <= ms.len(),
        forall|k: int| 0 <= k < i ==> !(ms[k].logbook_id == lb && ms[k].operation_id == op),
        i < ms.len() ==> ms[i].logbook_id == lb && ms[i].operation_id == op,
    ensures
        find_op_in_logbook(ms, lb, op) == i,
    decreases i,
{
    if i > 0 {
        assert forall|k: int| 0 <= k < i - 1 implies !(ms.drop_first()[k].logbook_id == lb
            && ms.drop_first()[k].operation_id == op) by {
            assert(ms.drop_first()[k] == ms[k + 1]);
        }
        lemma_find_from(ms.drop_first(), lb, op, i - 1);
    }
}

proof fn lemma_find_op_from(ms: Seq<MutationView>, op: u128, i: int)
    requires
        0 <= i <= ms.len(),
        forall|k: int| 0 <= k < i ==> ms[k].operation_id != op,
        i < ms.len() ==> ms[i].operation_id == op,
    ensures
        find_op(ms, op) == i,
    decreases i,
{
    if i > 0 {
        assert forall|k: int| 0 <= k < i - 1 implies ms.drop_first()[k].operation_id != op by {
            assert(ms.drop_first()[k] == ms[k + 1]);
        }
        lemma_find_op_from(ms.drop_first(), op, i - 1);
    }
}

proof fn lemma_find_key_from(ms: Seq<MutationView>, lb: u128, key: Seq<char>, i: int)
    requires
        0 <= i <= ms.len(),
        forall|k: int| 0 <= k < i ==> !(ms[k].logbook_id == lb && ms[k].idempotency_key == key),
        i < ms.len() ==> ms[i].logbook_id == lb && ms[i].idempotency_key == key,
    ensures
        find_key_in_logbook(ms, lb, key) == i,
    decreases i,
{
    if i > 0 {
        assert forall|k: int| 0 <= k < i - 1 implies !(ms.drop_first()[k].logbook_id == lb
            && ms.drop_first()[k].idempotency_key == key) by {
            assert(ms.drop_first()[k] == ms[k + 1]);
        }
        lemma_find_key_from(ms.drop_first(), lb, key, i - 1);
    }
}

proof fn lemma_insert_position(ms: Seq<MutationView>, m: MutationView, i: int)
    requires
        0 <= i <= ms.len(),
        forall|k: int| 0 <= k < i ==> !key_lt(m, #[trigger] ms[k]),
        i < ms.len() ==> key_lt(m, ms[i]),
    ensures
        insert_position(ms, m) == i,
    decreases i,
{
    if i > 0 {
        assert forall|k: int| 0 <= k < i - 1 implies !key_lt(m, #[trigger] ms.drop_first()[k]) by {
            assert(ms.drop_first()[k] == ms[k + 1]);
        }
        lemma_insert_position(ms.drop_first(), m, i - 1);
    }
}

proof fn lemma_table_push(s: Seq<(u128, u64)>, k: u128, v: u64)
    ensures
        table_map(s.push((k, v))) == table_map(s).insert(k, v),
{
    assert(s.push((k, v)).drop_last() =~= s);
}

proof fn lemma_derived_next_bound(ms: Seq<MutationView>, lb: u128)
    ensures
        derived_next(ms, lb) is None ==> forall|k: int| 0 <= k < ms.len() ==> ms[k].logbook_id != lb,
        derived_next(ms, lb) matches Some(d) ==> forall|k: int|
            0 <= k < ms.len() && ms[k].logbook_id == lb ==> sat_inc(ms[k].sequence) <= d,
    decreases ms.len(),
{
    if ms.len() > 0 {
        lemma_derived_next_bound(ms.drop_last(), lb);
        assert forall|k: int| 0 <= k < ms.len() - 1 implies ms[k] == ms.drop_last()[k] by {}
    }
}

/// Queued work per logbook, in the order it drains.
impl OfflineQueue {
    pub closed spec fn wf(&self) -> bool {
        queue_wf(self@)
    }

    /// An empty queue.
    pub fn new() -> (q: Self)
        ensures
            q.wf(),
            q@.mutations.len() == 0,
            q@.next_sequence_by_logbook == Map::<u128, u64>::empty(),
    {
        OfflineQueue { next_sequence_by_logbook: Vec::new(), mutations: Vec::new() }
    }

    /// The mutations, in queue order.
    pub fn mutations(&self) -> (r: &Vec<OfflineMutationEnvelope>)
        ensures
            mutation_views(r@) == self@.mutations,
    {
        &self.mutations
    }

    /// The stored next-sequence counters, in insertion order; a later pair
    /// for the same logbook replaces an earlier one.
    pub fn next_sequence_entries(&self) -> (r: &Vec<(u128, u64)>)
        ensures
            table_map(r@) == self@.next_sequence_by_logbook,
    {
        &self.next_sequence_by_logbook
    }

    fn stored_next(&self, logbook_id: u128) -> (r: Option<u64>)
        ensures
            r is Some == self@.next_sequence_by_logbook.contains_key(logbook_id),
            r matches Some(v) ==> v == self@.next_sequence_by_logbook[logbook_id],
    {
        let ghost s = self.next_sequence_by_logbook@;
        assert(s.subrange(0, s.len() as int) =~= s);
        let mut j: usize = self.next_sequence_by_logbook.len();
        while j > 0
            invariant
                j <= s.len(),
                s == self.next_sequence_by_logbook@,
                table_map(s).contains_key(logbook_id) == table_map(s.subrange(0, j as int)).contains_key(logbook_id),
                table_map(s).contains_key(logbook_id) ==> table_map(s)[logbook_id] == table_map(s.subrange(0, j as int))[logbook_id],
            decreases j,
        {
            let (k, v) = self.next_sequence_by_logbook[j - 1];
            let ghost t = s.subrange(0, j as int);
            proof {
                assert(t.drop_last() =~= s.subrange(0, j - 1));
                assert(t.last() == (k, v));
            }
            if k == logbook_id {
                return Some(v);
            }
            j = j - 1;
        }
        assert(s.subrange(0, 0) =~= Seq::<(u128, u64)>::empty());
        None
    }

    /// The sequence the next mutation of `logbook_id` receives.
    pub fn next_sequence(&self, logbook_id: u128) -> (r: u64)
        ensures
            r == next_sequence_of(self@, logbook_id),
    {
        let stored = self.stored_next(logbook_id);
        let ghost ms = self@.mutations;
        let mut derived: Option<u64> = None;
        let mut i: usize = 0;
        while i < self.mutations.len()
            invariant
                i <= self.mutations@.len(),
                ms == mutation_views(self.mutations@),
                derived == derived_next(ms.subrange(0, i as int), logbook_id),
            decreases self.mutations@.len() - i,
        {
            proof {
                let t = ms.subrange(0, i + 1);
                assert(t.drop_last() =~= ms.subrange(0, i as int));
                assert(t.last() == self.mutations@[i as int]@);
            }
            let m = &self.mutations[i];
            if m.logbook_id == logbook_id {
                let inc = if m.sequence == u64::MAX {
                    m.sequence
                } else {
                    m.sequence + 1
                };
                derived = match derived {
                    Some(x) => Some(if x >= inc { x } else { inc }),
                    None => Some(inc),
                };
            }
            i = i + 1;
        }
        assert(ms.subrange(0, ms.len() as int) =~= ms);
        match (stored, derived) {
            (Some(a), Some(d)) => if a >= d { a } else { d },
            (Some(a), None) => a,
            (None, Some(d)) => d,
            (None, None) => 1,
        }
    }

    fn find_op_in_logbook_index(&self, logbook_id: u128, op: u128) -> (r: usize)
        ensures
            r == find_op_in_logbook(self@.mutations, logbook_id, op),
    {
        let ghost ms = self@.mutations;
        let mut i: usize = 0;
        while i < self.mutations.len()
            invariant
                i <= self.mutations@.len(),
                ms == mutation_views(self.mutations@),
                forall|k: int| 0 <= k < i ==> !(ms[k].logbook_id == logbook_id && ms[k].operation_id == op),
            decreases self.mutations@.len() - i,
        {
            if self.mutations[i].logbook_id == logbook_id && self.mutations[i].operation_id == op {
                proof {
                    lemma_find_from(ms, logbook_id, op, i as int);
                }
                return i;
            }
            i = i + 1;
        }
        proof {
            lemma_find_from(ms, logbook_id, op, i as int);
        }
        i
    }

    fn find_op_index(&self, op: u128) -> (r: usize)
        ensures
            r == find_op(self@.mutations, op),
    {
        let ghost ms = self@.mutations;
        let mut i: usize = 0;
        while i < self.mutations.len()
            invariant
                i <= self.mutations@.len(),
                ms == mutation_views(self.mutations@),
                forall|k: int| 0 <= k < i ==> ms[k].operation_id != op,
            decreases self.mutations@.len() - i,
        {
            if self.mutations[i].operation_id == op {
                proof {
                    lemma_find_op_from(ms, op, i as int);
                }
                return i;
            }
            i = i + 1;
        }
        proof {
            lemma_find_op_from(ms, op, i as int);
        }
        i
    }

    fn find_key_in_logbook_index(&self, logbook_id: u128, key: &String) -> (r: usize)
        ensures
            r == find_key_in_logbook(self@.mutations, logbook_id, key@),
    {
        let ghost ms = self@.mutations;
        let mut i: usize = 0;
        while i < self.mutations.len()
            invariant
                i <= self.mutations@.len(),
                ms == mutation_views(self.mutations@),
                forall|k: int| 0 <= k < i ==> !(ms[k].logbook_id == logbook_id && ms[k].idempotency_key == key@),
            decreases self.mutations@.len() - i,
        {
            if self.mutations[i].logbook_id == logbook_id && self.mutations[i].idempotency_key.eq(key) {
                proof {
                    lemma_find_key_from(ms, logbook_id, key@, i as int);
                }
                return i;
            }
            i = i + 1;
        }
        proof {
            lemma_find_key_from(ms, logbook_id, key@, i as int);
        }
        i
    }

    fn has_sequence_exec(&self, logbook_id: u128, sequence: u64) -> (r: bool)
        ensures
            r == has_sequence(self@.mutations, logbook_id, sequence),
    {
        let ghost ms = self@.mutations;
        let mut i: usize = 0;
        while i < self.mutations.len()
            invariant
                i <= self.mutations@.len(),
                ms == mutation_views(self.mutations@),
                forall|k: int| 0 <= k < i ==> !(ms[k].logbook_id == logbook_id && ms[k].sequence == sequence),
            decreases self.mutations@.len() - i,
        {
            if self.mutations[i].logbook_id == logbook_id && self.mutations[i].sequence == sequence {
                assert(ms[i as int].logbook_id == logbook_id && ms[i as int].sequence == sequence);
                return true;
            }
            i = i + 1;
        }
        false
    }

    /// Adds a mutation whose logbook and sequence are not queued yet,
    /// keeping the order.
    fn add_new(&mut self, e: OfflineMutationEnvelope, next: u64)
        requires
            old(self).wf(),
            mutation_valid(e@),
            !has_sequence(old(self)@.mutations, e@.logbook_id, e@.sequence),
        ensures
            final(self)@ == with_added(old(self)@, e@, next),
            final(self).wf(),
    {
        let ghost ms = self@.mutations;
        let ghost ev = e@;
        let mut pos: usize = 0;
        while pos < self.mutations.len() && !(e.logbook_id < self.mutations[pos as usize].logbook_id
            || (e.logbook_id == self.mutations[pos as usize].logbook_id && e.sequence
            < self.mutations[pos as usize].sequence))
            invariant
                pos <= self.mutations@.len(),
                ms == mutation_views(self.mutations@),
                ev == e@,
                forall|k: int| 0 <= k < pos ==> !key_lt(ev, #[trigger] ms[k]),
            decreases self.mutations@.len() - pos,
        {
            pos = pos + 1;
        }
        proof {
            lemma_insert_position(ms, ev, pos as int);
        }
        let lb = e.logbook_id;
        self.mutations.insert(pos, e);
        self.next_sequence_by_logbook.push((lb, next));
        proof {
            lemma_table_push(old(self).next_sequence_by_logbook@, lb, next);
            let nm = mutation_views(self.mutations@);
            assert(nm =~= ms.insert(pos as int, ev));
            assert(queue_sorted(ms));
            assert(pos < ms.len() ==> key_lt(ev, ms[pos as int]));
            assert forall|k: int| 0 <= k < ms.len() implies !(ms[k].logbook_id == ev.logbook_id
                && ms[k].sequence == ev.sequence) by {}
            assert forall|i: int| 0 <= i < nm.len() implies mutation_valid(#[trigger] nm[i]) by {
                if i < pos {
                    assert(nm[i] == ms[i]);
                } else if i > pos {
                    assert(nm[i] == ms[i - 1]);
                }
            }
            assert forall|i: int, j: int| 0 <= i < j < nm.len() implies key_lt(
                #[trigger] nm[i],
                #[trigger] nm[j],
            ) by {
                if j < pos {
                    assert(nm[i] == ms[i] && nm[j] == ms[j]);
                } else if j == pos {
                    assert(nm[i] == ms[i]);
                    assert(!key_lt(ev, ms[i]));
                    assert(!(ms[i].logbook_id == ev.logbook_id && ms[i].sequence == ev.sequence));
                } else if i == pos {
                    assert(nm[j] == ms[j - 1]);
                    if j - 1 > pos {
                        assert(key_lt(ms[pos as int], ms[j - 1]));
                    }
                } else if i < pos {
                    assert(nm[i] == ms[i] && nm[j] == ms[j - 1]);
                } else {
                    assert(nm[i] == ms[i - 1] && nm[j] == ms[j - 1]);
                }
            }
        }
    }

    /// Queues `input` unless the logbook already holds its operation id or
    /// idempotency key, in which case the queued envelope comes back and the
    /// queue is left as it was. A new envelope takes the logbook's next
    /// sequence.
    pub fn enqueue_input(&mut self, input: OfflineMutationInput, now: i64) -> (r: Result<
        OfflineMutationEnvelope,
        OfflineQueueError,
    >)
        requires
            old(self).wf(),
        ensures
            final(self).wf(),
            exists|op: u128|
                {
                    &&& (input@.operation_id matches Some(o) ==> op == o)
                    &&& (final(self)@, result_view(r)) == enqueue_input_spec(old(self)@, input@, op, now)
                },
    {
        let ghost iv = input@;
        let ghost q = self@;
        if let Some(op) = input.operation_id {
            let i = self.find_op_in_logbook_index(input.logbook_id, op);
            if i < self.mutations.len() {
                let r = self.mutations[i].copy();
                assert((self@, result_view(Ok::<OfflineMutationEnvelope, OfflineQueueError>(r)))
                    == enqueue_input_spec(q, iv, op, now));
                return Ok(r);
            }
        }
        proof {
            if let Some(o) = iv.operation_id {
                lemma_find_op_in_logbook(q.mutations, iv.logbook_id, o);
            }
            if let Some(k) = iv.idempotency_key {
                lemma_find_key_in_logbook(q.mutations, iv.logbook_id, k);
            }
        }
        if let Some(key) = &input.idempotency_key {
            let j = self.find_key_in_logbook_index(input.logbook_id, key);
            if j < self.mutations.len() {
                let r = self.mutations[j].copy();
                let ghost op = match iv.operation_id {
                    Some(o) => o,
                    None => 0u128,
                };
                assert((self@, result_view(Ok::<OfflineMutationEnvelope, OfflineQueueError>(r)))
                    == enqueue_input_spec(q, iv, op, now));
                return Ok(r);
            }
        }
        let sequence = self.next_sequence(input.logbook_id);
        let envelope = OfflineMutationEnvelope::new(input, sequence, now);
        let ghost op = envelope@.operation_id;
        let ghost key = match iv.idempotency_key {
            Some(k) => k,
            None => derived_idempotency_key(iv.logbook_id, iv.device_id, sequence, op),
        };
        assert(envelope@ == fresh_envelope(iv, op, key, sequence, now));
        match envelope.validate() {
            Err(e) => {
                assert((self@, result_view(Err::<OfflineMutationEnvelope, OfflineQueueError>(e)))
                    == enqueue_input_spec(q, iv, op, now));
                return Err(e);
            },
            Ok(()) => {},
        }
        if self.has_sequence_exec(envelope.logbook_id, envelope.sequence) {
            let e = OfflineQueueError::DuplicateSequence {
                logbook_id: envelope.logbook_id,
                sequence: envelope.sequence,
            };
            assert((self@, result_view(Err::<OfflineMutationEnvelope, OfflineQueueError>(e)))
                == enqueue_input_spec(q, iv, op, now));
            return Err(e);
        }
        let result = envelope.copy();
        let next = if envelope.sequence == u64::MAX {
            envelope.sequence
        } else {
            envelope.sequence + 1
        };
        self.add_new(envelope, next);
        assert((self@, result_view(Ok::<OfflineMutationEnvelope, OfflineQueueError>(result)))
            == enqueue_input_spec(q, iv, op, now));
        Ok(result)
    }
}

/// What `enqueue` does with an envelope built elsewhere.
pub open spec fn enqueue_spec(q: QueueView, e: MutationView) -> (
    QueueView,
    Result<MutationView, OfflineQueueError>,
) {
    let ms = q.mutations;
    let by_op = find_op(ms, e.operation_id);
    let by_key = find_key_in_logbook(ms, e.logbook_id, e.idempotency_key);
    match mutation_error(e) {
        Some(err) => (q, Err(err)),
        None => if by_op < ms.len() {
            (q, Ok(ms[by_op]))
        } else if by_key < ms.len() {
            (q, Ok(ms[by_key]))
        } else if has_sequence(ms, e.logbook_id, e.sequence) {
            (q, Err(OfflineQueueError::DuplicateSequence { logbook_id: e.logbook_id, sequence: e.sequence }))
        } else {
            (with_added(q, e, max_u64(next_sequence_of(q, e.logbook_id), sat_inc(e.sequence))), Ok(e))
        },
    }
}

/// The queue with the mutation at `i` replaced by `m`.
pub open spec fn replaced(q: QueueView, i: int, m: MutationView) -> QueueView {
    QueueView { next_sequence_by_logbook: q.next_sequence_by_logbook, mutations: q.mutations.update(i, m) }
}

/// Applies `f` to the first mutation with the operation id, or reports it
/// missing.
pub open spec fn update_op(q: QueueView, op: u128, f: spec_fn(MutationView) -> MutationView) -> (
    QueueView,
    Result<MutationView, OfflineQueueError>,
) {
    let i = find_op(q.mutations, op);
    if i < q.mutations.len() {
        (replaced(q, i, f(q.mutations[i])), Ok(f(q.mutations[i])))
    } else {
        (q, Err(OfflineQueueError::MutationNotFound(op)))
    }
}

/// Fields `validate` and the queue order look at are the same.
pub open spec fn same_identity(a: MutationView, b: MutationView) -> bool {
    &&& a.schema_version == b.schema_version
    &&& a.operation_type == b.operation_type
    &&& a.idempotency_key == b.idempotency_key
    &&& a.sequence == b.sequence
    &&& a.logbook_id == b.logbook_id
    &&& a.operation_id == b.operation_id
    &&& a.dependencies == b.dependencies
}

pub open spec fn attached_view(m: MutationView, event_id: u128, event_hash: Seq<char>, now: i64) -> MutationView {
    MutationView {
        official_event_id: Some(event_id),
        local_event_hash: Some(event_hash),
        updated_at: now,
        failure_reason: None,
        last_error_code: None,
        status: if m.status is Blocked || m.status is Failed || m.status is UserActionRequired {
            OfflineMutationStatus::Pending
        } else {
            m.status
        },
        ..m
    }
}

pub open spec fn sending_view(m: MutationView, now: i64) -> MutationView {
    MutationView {
        status: OfflineMutationStatus::Sending,
        attempts: if m.attempts == u32::MAX { m.attempts } else { (m.attempts + 1) as u32 },
        next_attempt_at: None,
        failure_reason: None,
        last_error_code: None,
        updated_at: now,
        ..m
    }
}

pub open spec fn pow2(e: nat) -> nat
    decreases e,
{
    if e == 0 {
        1
    } else {
        2 * pow2((e - 1) as nat)
    }
}

/// The retry delay in seconds: the base backoff doubled per earlier attempt
/// (at most 16 doublings), capped by the maximum backoff, at least 1.
pub open spec fn retry_delay_seconds(m: MutationView) -> u64 {
    let exponent: nat = if m.attempts == 0 { 0 } else if m.attempts - 1 > 16 { 16 } else { (m.attempts - 1) as nat };
    let product = m.backoff_seconds * pow2(exponent);
    let scaled: u64 = if product > u64::MAX { u64::MAX } else { product as u64 };
    let capped = if scaled < m.max_backoff_seconds { scaled } else { m.max_backoff_seconds };
    if capped < 1 { 1 } else { capped }
}

pub open spec fn transient_failure_view(m: MutationView, reason: Seq<char>, code: Option<Seq<char>>, now: i64) -> MutationView {
    MutationView {
        status: if m.attempts >= m.max_attempts { OfflineMutationStatus::Failed } else { OfflineMutationStatus::Retrying },
        next_attempt_at: if m.attempts >= m.max_attempts {
            None
        } else {
            Some((now + retry_delay_seconds(m) * 1000) as i64)
        },
        failure_reason: Some(reason),
        last_error_code: code,
        updated_at: now,
        ..m
    }
}

/// Whether the retry time of the operation's mutation fits the timestamp
/// range (the clock arithmetic of the original panics outside it).
pub open spec fn retry_time_fits(q: QueueView, op: u128, now: i64) -> bool {
    let i = find_op(q.mutations, op);
    i < q.mutations.len() && q.mutations[i].attempts < q.mutations[i].max_attempts ==> {
        &&& retry_delay_seconds(q.mutations[i]) <= 9_223_372_036_854_775
        &&& now + retry_delay_seconds(q.mutations[i]) * 1000 <= i64::MAX
    }
}

pub open spec fn blocked_view(m: MutationView, reason: Seq<char>, now: i64) -> MutationView {
    MutationView {
        status: OfflineMutationStatus::Blocked,
        failure_reason: Some(reason),
        next_attempt_at: None,
        updated_at: now,
        ..m
    }
}

pub open spec fn failed_view(m: MutationView, reason: Seq<char>, code: Option<Seq<char>>, now: i64) -> MutationView {
    MutationView {
        status: OfflineMutationStatus::Failed,
        failure_reason: Some(reason),
        last_error_code: code,
        next_attempt_at: None,
        updated_at: now,
        ..m
    }
}

pub open spec fn user_action_view(m: MutationView, reason: Seq<char>, code: Option<Seq<char>>, now: i64) -> MutationView {
    MutationView {
        status: OfflineMutationStatus::UserActionRequired,
        failure_reason: Some(reason),
        last_error_code: code,
        next_attempt_at: None,
        updated_at: now,
        ..m
    }
}

pub open spec fn accepted_view(m: MutationView, now: i64) -> MutationView {
    MutationView {
        status: OfflineMutationStatus::Accepted,
        accepted_at: Some(now),
        next_attempt_at: None,
        failure_reason: None,
        last_error_code: None,
        updated_at: now,
        ..m
    }
}

fn retry_delay_exec(m: &OfflineMutationEnvelope) -> (r: u64)
    ensures
        r == retry_delay_seconds(m@),
{
    let exponent: u32 = if m.attempts == 0 {
        0
    } else if m.attempts - 1 > 16 {
        16
    } else {
        m.attempts - 1
    };
    let mut multiplier: u64 = 1;
    let mut k: u32 = 0;
    while k < exponent
        invariant
            k <= exponent <= 16,
            multiplier == pow2(k as nat),
            pow2(k as nat) <= 65536,
        decreases exponent - k,
    {
        proof {
            lemma_pow2_bound((k + 1) as nat);
        }
        multiplier = multiplier * 2;
        k = k + 1;
    }
    let scaled = match m.backoff_seconds.checked_mul(multiplier) {
        Some(v) => v,
        None => u64::MAX,
    };
    let capped = if scaled < m.max_backoff_seconds {
        scaled
    } else {
        m.max_backoff_seconds
    };
    if capped < 1 {
        1
    } else {
        capped
    }
}

proof fn lemma_pow2_bound(e: nat)
    requires
        e <= 16,
    ensures
        pow2(e) <= 65536,
        pow2(e) >= 1,
    decreases e,
{
    if e > 0 {
        lemma_pow2_bound((e - 1) as nat);
        if e < 16 {
            lemma_pow2_mono((e - 1) as nat);
        }
    }
    reveal_with_fuel(pow2, 17);
}

proof fn lemma_pow2_mono(e: nat)
    requires
        e < 16,
    ensures
        pow2(e) <= 32768,
    decreases 16 - e,
{
    reveal_with_fuel(pow2, 17);
    if e < 15 {
        lemma_pow2_mono(e + 1);
    }
}

/// A second enqueue of an input with the same operation id returns the
/// envelope the first call produced and leaves the queue as the first call
/// left it.
pub proof fn law_enqueue_input_idempotent(q: QueueView, input: InputView, op: u128, now: i64, later: i64)
    requires
        queue_wf(q),
        input.operation_id == Some(op),
    ensures
        ({
            let first = enqueue_input_spec(q, input, op, now);
            first.1 is Ok ==> enqueue_input_spec(first.0, input, op, later) == first
        }),
{
    let first = enqueue_input_spec(q, input, op, now);
    let ms = q.mutations;
    lemma_find_op_in_logbook(ms, input.logbook_id, op);
    if let Some(k) = input.idempotency_key {
        lemma_find_key_in_logbook(ms, input.logbook_id, k);
    }
    if first.1 is Ok && find_op_in_logbook(ms, input.logbook_id, op) == ms.len() {
        let by_key = match input.idempotency_key {
            Some(k) => find_key_in_logbook(ms, input.logbook_id, k),
            None => ms.len() as int,
        };
        if by_key == ms.len() {
            let seq = next_sequence_of(q, input.logbook_id);
            let key = match input.idempotency_key {
                Some(k) => k,
                None => derived_idempotency_key(input.logbook_id, input.device_id, seq, op),
            };
            let e = fresh_envelope(input, op, key, seq, now);
            let pos = insert_position(ms, e);
            lemma_insert_position_bounds(ms, e);
            let nm = ms.insert(pos, e);
            assert forall|k: int| 0 <= k < pos implies !(nm[k].logbook_id == input.logbook_id
                && nm[k].operation_id == op) by {
                assert(nm[k] == ms[k]);
            }
            lemma_find_from(nm, input.logbook_id, op, pos);
        }
    }
}

proof fn lemma_insert_position_bounds(ms: Seq<MutationView>, m: MutationView)
    ensures
        0 <= insert_position(ms, m) <= ms.len(),
    decreases ms.len(),
{
    if ms.len() > 0 && !key_lt(m, ms[0]) {
        lemma_insert_position_bounds(ms.drop_first(), m);
    }
}

/// A newly queued mutation's sequence is larger than every sequence already
/// queued for its logbook.
pub proof fn law_enqueue_input_extends_sequence(q: QueueView, input: InputView, op: u128, now: i64)
    requires
        queue_wf(q),
    ensures
        ({
            let (q1, r) = enqueue_input_spec(q, input, op, now);
            r matches Ok(e) ==> (q1.mutations.len() > q.mutations.len() ==> forall|k: int|
                0 <= k < q.mutations.len() && q.mutations[k].logbook_id == e.logbook_id
                    ==> q.mutations[k].sequence < e.sequence)
        }),
{
    let ms = q.mutations;
    let lb = input.logbook_id;
    lemma_derived_next_bound(ms, lb);
    let seq = next_sequence_of(q, lb);
    assert forall|k: int| 0 <= k < ms.len() && ms[k].logbook_id == lb && !has_sequence(ms, lb, seq)
        implies ms[k].sequence < seq by {
        assert(ms[k].sequence != seq);
    }
}

impl OfflineQueue {
    /// Puts `m` at `i`, whose identity it keeps.
    fn replace_at(&mut self, i: usize, m: OfflineMutationEnvelope)
        requires
            old(self).wf(),
            i < old(self)@.mutations.len(),
            same_identity(m@, old(self)@.mutations[i as int]),
        ensures
            final(self).wf(),
            final(self)@ == replaced(old(self)@, i as int, m@),
    {
        let ghost mv = m@;
        self.mutations.set(i, m);
        proof {
            let ms = old(self)@.mutations;
            let nm = mutation_views(self.mutations@);
            assert(nm =~= ms.update(i as int, mv));
            assert(mutation_error(mv) == mutation_error(ms[i as int]));
            assert forall|a: int, b: int| 0 <= a < b < nm.len() implies key_lt(
                #[trigger] nm[a],
                #[trigger] nm[b],
            ) by {
                assert(key_lt(ms[a], ms[b]));
            }
            assert forall|a: int| 0 <= a < nm.len() implies mutation_valid(#[trigger] nm[a]) by {
                assert(mutation_valid(ms[a]));
            }
        }
    }

    /// Queues an envelope built elsewhere after validating it. An envelope
    /// whose operation id is queued, or whose idempotency key is queued in its
    /// logbook, returns the queued one; a taken logbook sequence is an error.
    pub fn enqueue(&mut self, envelope: OfflineMutationEnvelope) -> (r: Result<
        OfflineMutationEnvelope,
        OfflineQueueError,
    >)
        requires
            old(self).wf(),
        ensures
            final(self).wf(),
            (final(self)@, result_view(r)) == enqueue_spec(old(self)@, envelope@),
    {
        let ghost q = self@;
        let ghost ev = envelope@;
        proof {
            lemma_find_op(q.mutations, ev.operation_id);
            lemma_find_key_in_logbook(q.mutations, ev.logbook_id, ev.idempotency_key);
        }
        match envelope.validate() {
            Err(e) => return Err(e),
            Ok(()) => {},
        }
        let i = self.find_op_index(envelope.operation_id);
        if i < self.mutations.len() {
            return Ok(self.mutations[i].copy());
        }
        let j = self.find_key_in_logbook_index(envelope.logbook_id, &envelope.idempotency_key);
        if j < self.mutations.len() {
            return Ok(self.mutations[j].copy());
        }
        if self.has_sequence_exec(envelope.logbook_id, envelope.sequence) {
            return Err(
                OfflineQueueError::DuplicateSequence {
                    logbook_id: envelope.logbook_id,
                    sequence: envelope.sequence,
                },
            );
        }
        let current = self.next_sequence(envelope.logbook_id);
        let inc = if envelope.sequence == u64::MAX {
            envelope.sequence
        } else {
            envelope.sequence + 1
        };
        let next = if current >= inc {
            current
        } else {
            inc
        };
        let result = envelope.copy();
        self.add_new(envelope, next);
        Ok(result)
    }

    fn index_of_op(&self, operation_id: u128) -> (r: Result<usize, OfflineQueueError>)
        ensures
            r matches Ok(i) ==> i == find_op(self@.mutations, operation_id) && i < self@.mutations.len(),
            r matches Err(e) ==> e == OfflineQueueError::MutationNotFound(operation_id)
                && find_op(self@.mutations, operation_id) == self@.mutations.len(),
    {
        proof {
            lemma_find_op(self@.mutations, operation_id);
        }
        let i = self.find_op_index(operation_id);
        if i < self.mutations.len() {
            Ok(i)
        } else {
            Err(OfflineQueueError::MutationNotFound(operation_id))
        }
    }

    /// Records the official local event a mutation produced; a blocked,
    /// failed or user-action mutation becomes pending again.
    pub fn record_local_event(&mut self, operation_id: u128, event: &EventEnvelope, now: i64) -> (r: Result<
        OfflineMutationEnvelope,
        OfflineQueueError,
    >)
        requires
            old(self).wf(),
        ensures
            final(self).wf(),
            (final(self)@, result_view(r)) == update_op(
                old(self)@,
                operation_id,
                |m: MutationView| attached_view(m, event.event_id, event.event_hash@, now),
            ),
    {
        let i = self.index_of_op(operation_id)?;
        let mut m = self.mutations[i].copy();
        m.official_event_id = Some(event.event_id);
        m.local_event_hash = Some(event.event_hash.clone());
        m.updated_at = now;
        m.failure_reason = None;
        m.last_error_code = None;
        match m.status {
            OfflineMutationStatus::Blocked | OfflineMutationStatus::Failed
            | OfflineMutationStatus::UserActionRequired => {
                m.status = OfflineMutationStatus::Pending;
            },
            _ => {},
        }
        let result = m.copy();
        self.replace_at(i, m);
        Ok(result)
    }

    /// Marks a mutation as being sent and counts the attempt.
    pub fn mark_sending(&mut self, operation_id: u128, now: i64) -> (r: Result<
        OfflineMutationEnvelope,
        OfflineQueueError,
    >)
        requires
            old(self).wf(),
        ensures
            final(self).wf(),
            (final(self)@, result_view(r)) == update_op(
                old(self)@,
                operation_id,
                |m: MutationView| sending_view(m, now),
            ),
    {
        let i = self.index_of_op(operation_id)?;
        let mut m = self.mutations[i].copy();
        m.status = OfflineMutationStatus::Sending;
        m.attempts = if m.attempts == u32::MAX {
            m.attempts
        } else {
            m.attempts + 1
        };
        m.next_attempt_at = None;
        m.failure_reason = None;
        m.last_error_code = None;
        m.updated_at = now;
        let result = m.copy();
        self.replace_at(i, m);
        Ok(result)
    }

    /// Records a failed send: the mutation is retried after the backoff, or
    /// fails once its attempts are used up.
    pub fn record_transient_failure(
        &mut self,
        operation_id: u128,
        reason: String,
        error_code: Option<String>,
        now: i64,
    ) -> (r: Result<OfflineMutationEnvelope, OfflineQueueError>)
        requires
            old(self).wf(),
            retry_time_fits(old(self)@, operation_id, now),
        ensures
            final(self).wf(),
            (final(self)@, result_view(r)) == update_op(
                old(self)@,
                operation_id,
                |m: MutationView| transient_failure_view(m, reason@, opt_view(error_code), now),
            ),
    {
        let i = self.index_of_op(operation_id)?;
        let mut m = self.mutations[i].copy();
        if m.attempts >= m.max_attempts {
            m.status = OfflineMutationStatus::Failed;
            m.next_attempt_at = None;
        } else {
            m.status = OfflineMutationStatus::Retrying;
            let delay = retry_delay_exec(&m);
            m.next_attempt_at = Some(now + (delay as i64) * 1000);
        }
        m.failure_reason = Some(reason);
        m.last_error_code = error_code;
        m.updated_at = now;
        let result = m.copy();
        self.replace_at(i, m);
        Ok(result)
    }

    /// Marks a mutation as blocked.
    pub fn mark_blocked(&mut self, operation_id: u128, reason: String, now: i64) -> (r: Result<
        OfflineMutationEnvelope,
        OfflineQueueError,
    >)
        requires
            old(self).wf(),
        ensures
            final(self).wf(),
            (final(self)@, result_view(r)) == update_op(
                old(self)@,
                operation_id,
                |m: MutationView| blocked_view(m, reason@, now),
            ),
    {
        let i = self.index_of_op(operation_id)?;
        let mut m = self.mutations[i].copy();
        m.status = OfflineMutationStatus::Blocked;
        m.failure_reason = Some(reason);
        m.next_attempt_at = None;
        m.updated_at = now;
        let result = m.copy();
        self.replace_at(i, m);
        Ok(result)
    }

    /// Marks a mutation as failed for good.
    pub fn mark_failed(
        &mut self,
        operation_id: u128,
        reason: String,
        error_code: Option<String>,
        now: i64,
    ) -> (r: Result<OfflineMutationEnvelope, OfflineQueueError>)
        requires
            old(self).wf(),
        ensures
            final(self).wf(),
            (final(self)@, result_view(r)) == update_op(
                old(self)@,
                operation_id,
                |m: MutationView| failed_view(m, reason@, opt_view(error_code), now),
            ),
    {
        let i = self.index_of_op(operation_id)?;
        let mut m = self.mutations[i].copy();
        m.status = OfflineMutationStatus::Failed;
        m.failure_reason = Some(reason);
        m.last_error_code = error_code;
        m.next_attempt_at = None;
        m.updated_at = now;
        let result = m.copy();
        self.replace_at(i, m);
        Ok(result)
    }

    /// Marks a mutation as needing the operator.
    pub fn mark_user_action_required(
        &mut self,
        operation_id: u128,
        reason: String,
        error_code: Option<String>,
        now: i64,
    ) -> (r: Result<OfflineMutationEnvelope, OfflineQueueError>)
        requires
            old(self).wf(),
        ensures
            final(self).wf(),
            (final(self)@, result_view(r)) == update_op(
                old(self)@,
                operation_id,
                |m: MutationView| user_action_view(m, reason@, opt_view(error_code), now),
            ),
    {
        let i = self.index_of_op(operation_id)?;
        let mut m = self.mutations[i].copy();
        m.status = OfflineMutationStatus::UserActionRequired;
        m.failure_reason = Some(reason);
        m.last_error_code = error_code;
        m.next_attempt_at = None;
        m.updated_at = now;
        let result = m.copy();
        self.replace_at(i, m);
        Ok(result)
    }

    /// Marks a mutation as accepted by the server.
    pub fn mark_accepted(&mut self, operation_id: u128, now: i64) -> (r: Result<
        OfflineMutationEnvelope,
        OfflineQueueError,
    >)
        requires
            old(self).wf(),
        ensures
            final(self).wf(),
            (final(self)@, result_view(r)) == update_op(
                old(self)@,
                operation_id,
                |m: MutationView| accepted_view(m, now),
            ),
    {
        let i = self.index_of_op(operation_id)?;
        let mut m = self.mutations[i].copy();
        m.status = OfflineMutationStatus::Accepted;
        m.accepted_at = Some(now);
        m.next_attempt_at = None;
        m.failure_reason = None;
        m.last_error_code = None;
        m.updated_at = now;
        let result = m.copy();
        self.replace_at(i, m);
        Ok(result)
    }
}

pub open spec fn strings_set(v: Seq<String>) -> Set<Seq<char>> {
    Set::new(|h: Seq<char>| exists|i: int| 0 <= i < v.len() && v[i]@ == h)
}

pub open spec fn acknowledged(m: MutationView, hashes: Set<Seq<char>>) -> bool {
    &&& m.local_event_hash matches Some(h) && hashes.contains(h)
    &&& !(m.status is Accepted)
}

pub open spec fn acknowledge(m: MutationView, hashes: Set<Seq<char>>, now: i64) -> MutationView {
    if acknowledged(m, hashes) {
        accepted_view(m, now)
    } else {
        m
    }
}

pub open spec fn acknowledged_count(ms: Seq<MutationView>, hashes: Set<Seq<char>>) -> nat
    decreases ms.len(),
{
    if ms.len() == 0 {
        0
    } else {
        acknowledged_count(ms.drop_last(), hashes) + if acknowledged(ms.last(), hashes) {
            1nat
        } else {
            0nat
        }
    }
}

proof fn lemma_acknowledged_count_zero(ms: Seq<MutationView>, hashes: Set<Seq<char>>)
    requires
        forall|i: int| 0 <= i < ms.len() ==> !acknowledged(#[trigger] ms[i], hashes),
    ensures
        acknowledged_count(ms, hashes) == 0,
    decreases ms.len(),
{
    if ms.len() > 0 {
        assert(!acknowledged(ms[ms.len() - 1], hashes));
        lemma_acknowledged_count_zero(ms.drop_last(), hashes);
    }
}

/// Acknowledging accepted event hashes is idempotent. A mutation already
/// accepted is left exactly as it is and not counted; an unaccepted one with
/// a listed local event hash becomes accepted at `now`. So repeating the
/// same acknowledgement, at any later time, changes no mutation and counts
/// none.
pub proof fn law_acknowledgement_is_idempotent(
    ms: Seq<MutationView>,
    hashes: Set<Seq<char>>,
    now: i64,
    later: i64,
    m: MutationView,
)
    ensures
        m.status is Accepted ==> acknowledge(m, hashes, later) == m,
        m.status is Accepted ==> acknowledged_count(seq![m], hashes) == 0,
        m.local_event_hash matches Some(h) ==> (hashes.contains(h) && !(m.status is Accepted) ==> {
            &&& acknowledge(m, hashes, now).status is Accepted
            &&& acknowledge(m, hashes, now).accepted_at == Some(now)
            &&& acknowledged_count(seq![m], hashes) == 1
        }),
        ({
            let once = ms.map_values(|x: MutationView| acknowledge(x, hashes, now));
            &&& once.map_values(|x: MutationView| acknowledge(x, hashes, later)) == once
            &&& acknowledged_count(once, hashes) == 0
        }),
{
    assert(seq![m].drop_last() =~= Seq::<MutationView>::empty());
    assert(seq![m].last() == m);
    assert(acknowledged_count(Seq::<MutationView>::empty(), hashes) == 0);
    assert(acknowledged_count(seq![m], hashes) == acknowledged_count(seq![m].drop_last(), hashes) + if acknowledged(
        m,
        hashes,
    ) {
        1nat
    } else {
        0nat
    });
    let once = ms.map_values(|x: MutationView| acknowledge(x, hashes, now));
    assert forall|i: int| 0 <= i < once.len() implies !acknowledged(#[trigger] once[i], hashes) by {
        assert(once[i] == acknowledge(ms[i], hashes, now));
    }
    lemma_acknowledged_count_zero(once, hashes);
    assert(once.map_values(|x: MutationView| acknowledge(x, hashes, later)) =~= once);
}

pub open spec fn recovered(m: MutationView, now: i64) -> MutationView {
    if m.status is Sending {
        MutationView {
            status: OfflineMutationStatus::Retrying,
            next_attempt_at: Some(now),
            updated_at: now,
            failure_reason: Some("recovered interrupted send attempt"@),
            ..m
        }
    } else {
        m
    }
}

pub open spec fn sending_count(ms: Seq<MutationView>) -> nat
    decreases ms.len(),
{
    if ms.len() == 0 {
        0
    } else {
        sending_count(ms.drop_last()) + if ms.last().status is Sending {
            1nat
        } else {
            0nat
        }
    }
}

/// The logbook's mutations, in queue order.
pub open spec fn for_logbook(ms: Seq<MutationView>, logbook_id: u128) -> Seq<MutationView>
    decreases ms.len(),
{
    if ms.len() == 0 {
        Seq::empty()
    } else if ms[0].logbook_id == logbook_id {
        seq![ms[0]] + for_logbook(ms.drop_first(), logbook_id)
    } else {
        for_logbook(ms.drop_first(), logbook_id)
    }
}

pub open spec fn accepted_operations(ms: Seq<MutationView>) -> Set<u128> {
    Set::new(|op: u128| exists|i: int| 0 <= i < ms.len() && ms[i].status is Accepted && ms[i].operation_id == op)
}

pub open spec fn accepted_hashes(ms: Seq<MutationView>) -> Set<Seq<char>> {
    Set::new(|h: Seq<char>| exists|i: int| 0 <= i < ms.len() && ms[i].status is Accepted && ms[i].local_event_hash == Some(h))
}

pub open spec fn dependency_met(d: DependencyView, ops: Set<u128>, hashes: Set<Seq<char>>) -> bool {
    &&& d.operation_id matches Some(op) ==> ops.contains(op)
    &&& d.event_hash matches Some(h) ==> hashes.contains(h)
    &&& d.minimum_schema_version matches Some(v) ==> v <= OFFLINE_MUTATION_SCHEMA_VERSION
}

/// Every dependency is met: named operations and event hashes are accepted
/// and no newer schema version is asked for.
pub open spec fn dependencies_met(deps: Seq<DependencyView>, ops: Set<u128>, hashes: Set<Seq<char>>) -> bool {
    forall|k: int| 0 <= k < deps.len() ==> dependency_met(#[trigger] deps[k], ops, hashes)
}

/// The ready run of a logbook's mutations: accepted ones are skipped, and
/// the run stops at the first one that is not ready or whose dependencies
/// are unmet.
pub open spec fn ready_run(list: Seq<MutationView>, all: Seq<MutationView>, now: i64) -> Seq<MutationView>
    decreases list.len(),
{
    if list.len() == 0 {
        Seq::empty()
    } else if list[0].status is Accepted {
        ready_run(list.drop_first(), all, now)
    } else if !ready_at(list[0], now) || !dependencies_met(
        list[0].dependencies,
        accepted_operations(all),
        accepted_hashes(all),
    ) {
        Seq::empty()
    } else {
        seq![list[0]] + ready_run(list.drop_first(), all, now)
    }
}

/// The mutations of a logbook that may be sent at `now`, in sequence order.
pub open spec fn ready_spec(ms: Seq<MutationView>, logbook_id: u128, now: i64) -> Seq<MutationView> {
    ready_run(for_logbook(ms, logbook_id), ms, now)
}

proof fn lemma_for_logbook_step(ms: Seq<MutationView>, lb: u128, i: int)
    requires
        0 <= i < ms.len(),
    ensures
        for_logbook(ms.subrange(i, ms.len() as int), lb) == if ms[i].logbook_id == lb {
            seq![ms[i]] + for_logbook(ms.subrange(i + 1, ms.len() as int), lb)
        } else {
            for_logbook(ms.subrange(i + 1, ms.len() as int), lb)
        },
{
    let t = ms.subrange(i, ms.len() as int);
    assert(t[0] == ms[i]);
    assert(t.drop_first() =~= ms.subrange(i + 1, ms.len() as int));
}

proof fn lemma_ready_run_len(list: Seq<MutationView>, all: Seq<MutationView>, now: i64)
    ensures
        ready_run(list, all, now).len() <= list.len(),
    decreases list.len(),
{
    if list.len() > 0 {
        lemma_ready_run_len(list.drop_first(), all, now);
    }
}

/// Whether the mutation's dependencies are met by the given accepted
/// operations and event hashes.
pub fn dependencies_satisfied(
    mutation: &OfflineMutationEnvelope,
    accepted_operations: &Vec<u128>,
    accepted_hashes: &Vec<String>,
) -> (r: bool)
    ensures
        r == dependencies_met(
            mutation@.dependencies,
            accepted_operations@.to_set(),
            strings_set(accepted_hashes@),
        ),
{
    let ghost deps = mutation@.dependencies;
    let ghost ops = accepted_operations@.to_set();
    let ghost hs = strings_set(accepted_hashes@);
    let mut k: usize = 0;
    while k < mutation.dependencies.len()
        invariant
            k <= mutation.dependencies@.len(),
            deps == mutation@.dependencies,
            ops == accepted_operations@.to_set(),
            hs == strings_set(accepted_hashes@),
            forall|j: int| 0 <= j < k ==> dependency_met(#[trigger] deps[j], ops, hs),
        decreases mutation.dependencies@.len() - k,
    {
        let d = &mutation.dependencies[k];
        assert(deps[k as int] == d@);
        if let Some(op) = d.operation_id {
            if !u128_in(accepted_operations, op) {
                return false;
            }
        }
        if let Some(h) = &d.event_hash {
            if !string_in(accepted_hashes, h) {
                return false;
            }
        }
        if let Some(v) = d.minimum_schema_version {
            if v > OFFLINE_MUTATION_SCHEMA_VERSION {
                return false;
            }
        }
        k = k + 1;
    }
    true
}

pub fn u128_in(v: &Vec<u128>, x: u128) -> (r: bool)
    ensures
        r == v@.to_set().contains(x),
{
    let mut i: usize = 0;
    while i < v.len()
        invariant
            i <= v@.len(),
            forall|k: int| 0 <= k < i ==> v@[k] != x,
        decreases v@.len() - i,
    {
        if v[i] == x {
            assert(v@.contains(x));
            return true;
        }
        i = i + 1;
    }
    assert(!v@.contains(x));
    false
}

pub fn string_in(v: &Vec<String>, x: &String) -> (r: bool)
    ensures
        r == strings_set(v@).contains(x@),
{
    let mut i: usize = 0;
    while i < v.len()
        invariant
            i <= v@.len(),
            forall|k: int| 0 <= k < i ==> v@[k]@ != x@,
        decreases v@.len() - i,
    {
        if v[i].eq(x) {
            assert(v@[i as int]@ == x@);
            return true;
        }
        i = i + 1;
    }
    false
}

/// The queued operations currently accepted, across all logbooks.
pub fn accepted_operation_ids(v: &Vec<OfflineMutationEnvelope>) -> (r: Vec<u128>)
    ensures
        r@.to_set() == accepted_operations(mutation_views(v@)),
{
    let ghost ms = mutation_views(v@);
    let mut r: Vec<u128> = Vec::new();
    let mut i: usize = 0;
    while i < v.len()
        invariant
            i <= v@.len(),
            ms == mutation_views(v@),
            forall|op: u128| r@.contains(op) <==> exists|k: int| 0 <= k < i && ms[k].status is Accepted && ms[k].operation_id == op,
        decreases v@.len() - i,
    {
        if v[i].status == OfflineMutationStatus::Accepted {
            let ghost before = r@;
            r.push(v[i].operation_id);
            proof {
                assert forall|op: u128| r@.contains(op) <==> exists|k: int| 0 <= k < i + 1 && ms[k].status is Accepted && ms[k].operation_id == op by {
                    if r@.contains(op) {
                        let j = choose|j: int| 0 <= j < r@.len() && r@[j] == op;
                        if j < before.len() {
                            assert(before.contains(op));
                        } else {
                            assert(ms[i as int].operation_id == op);
                        }
                    }
                    if exists|k: int| 0 <= k < i + 1 && ms[k].status is Accepted && ms[k].operation_id == op {
                        let k = choose|k: int| 0 <= k < i + 1 && ms[k].status is Accepted && ms[k].operation_id == op;
                        if k < i {
                            assert(before.contains(op));
                            let j = choose|j: int| 0 <= j < before.len() && before[j] == op;
                            assert(r@[j] == op);
                        } else {
                            assert(r@[before.len() as int] == op);
                        }
                    }
                }
            }
        }
        i = i + 1;
    }
    assert(r@.to_set() =~= accepted_operations(ms));
    r
}

/// The local event hashes of accepted mutations.
pub fn accepted_event_hashes(v: &Vec<OfflineMutationEnvelope>) -> (r: Vec<String>)
    ensures
        strings_set(r@) == accepted_hashes(mutation_views(v@)),
{
    let ghost ms = mutation_views(v@);
    let mut r: Vec<String> = Vec::new();
    let mut i: usize = 0;
    while i < v.len()
        invariant
            i <= v@.len(),
            ms == mutation_views(v@),
            forall|h: Seq<char>| strings_set(r@).contains(h) <==> exists|k: int| 0 <= k < i && ms[k].status is Accepted && ms[k].local_event_hash == Some(h),
        decreases v@.len() - i,
    {
        if v[i].status == OfflineMutationStatus::Accepted {
            if let Some(h) = &v[i].local_event_hash {
                let ghost before = r@;
                r.push(h.clone());
                proof {
                    assert forall|x: Seq<char>| strings_set(r@).contains(x) <==> exists|k: int| 0 <= k < i + 1 && ms[k].status is Accepted && ms[k].local_event_hash == Some(x) by {
                        if strings_set(r@).contains(x) {
                            let j = choose|j: int| 0 <= j < r@.len() && r@[j]@ == x;
                            if j < before.len() {
                                assert(strings_set(before).contains(x));
                            } else {
                                assert(ms[i as int].local_event_hash == Some(x));
                            }
                        }
                        if exists|k: int| 0 <= k < i + 1 && ms[k].status is Accepted && ms[k].local_event_hash == Some(x) {
                            let k = choose|k: int| 0 <= k < i + 1 && ms[k].status is Accepted && ms[k].local_event_hash == Some(x);
                            if k < i {
                                assert(strings_set(before).contains(x));
                                let j = choose|j: int| 0 <= j < before.len() && before[j]@ == x;
                                assert(r@[j]@ == x);
                            } else {
                                assert(r@[before.len() as int]@ == x);
                            }
                        }
                    }
                }
            }
        }
        i = i + 1;
    }
    assert(strings_set(r@) =~= accepted_hashes(ms));
    r
}

/// A batch of queued work ready to push.
#[derive(Debug)]
pub struct OfflinePushBatch {
    pub logbook_id: u128,
    pub operation_ids: Vec<u128>,
    pub events: Vec<EventEnvelope>,
    pub missing_local_event_operation_ids: Vec<u128>,
}

/// The last event with the hash, as a hash-keyed lookup table built from the
/// list in order returns it.
pub open spec fn event_by_hash(events: Seq<EventView>, h: Seq<char>) -> Option<EventView>
    decreases events.len(),
{
    if events.len() == 0 {
        None
    } else if events.last().event_hash == h {
        Some(events.last())
    } else {
        event_by_hash(events.drop_last(), h)
    }
}

/// The batch for a ready run: operations and their local events, in order,
/// up to the first operation whose local event is unknown or missing.
pub open spec fn batch_spec(ready: Seq<MutationView>, events: Seq<EventView>) -> (Seq<u128>, Seq<EventView>, Seq<u128>)
    decreases ready.len(),
{
    if ready.len() == 0 {
        (Seq::empty(), Seq::empty(), Seq::empty())
    } else {
        let m = ready[0];
        match m.local_event_hash {
            None => (Seq::empty(), Seq::empty(), seq![m.operation_id]),
            Some(h) => match event_by_hash(events, h) {
                None => (Seq::empty(), Seq::empty(), seq![m.operation_id]),
                Some(e) => {
                    let rest = batch_spec(ready.drop_first(), events);
                    (seq![m.operation_id] + rest.0, seq![e] + rest.1, rest.2)
                },
            },
        }
    }
}

proof fn lemma_for_logbook_members(ms: Seq<MutationView>, lb: u128)
    ensures
        forall|k: int| 0 <= k < for_logbook(ms, lb).len() ==> (#[trigger] for_logbook(ms, lb)[k]).logbook_id == lb
            && ms.contains(for_logbook(ms, lb)[k]),
    decreases ms.len(),
{
    if ms.len() > 0 {
        lemma_for_logbook_members(ms.drop_first(), lb);
        let rest = for_logbook(ms.drop_first(), lb);
        assert forall|k: int| 0 <= k < for_logbook(ms, lb).len() implies (#[trigger] for_logbook(
            ms,
            lb,
        )[k]).logbook_id == lb && ms.contains(for_logbook(ms, lb)[k]) by {
            if ms[0].logbook_id == lb {
                if k == 0 {
                    assert(for_logbook(ms, lb)[0] == ms[0]);
                } else {
                    assert(for_logbook(ms, lb)[k] == rest[k - 1]);
                    let j = choose|j: int| 0 <= j < ms.drop_first().len() && ms.drop_first()[j] == rest[k - 1];
                    assert(ms[j + 1] == rest[k - 1]);
                }
            } else {
                assert(for_logbook(ms, lb)[k] == rest[k]);
                let j = choose|j: int| 0 <= j < ms.drop_first().len() && ms.drop_first()[j] == rest[k];
                assert(ms[j + 1] == rest[k]);
            }
        }
    }
}

proof fn lemma_ready_run_due(list: Seq<MutationView>, all: Seq<MutationView>, now: i64)
    ensures
        forall|k: int| 0 <= k < ready_run(list, all, now).len() ==> {
            let x = #[trigger] ready_run(list, all, now)[k];
            &&& list.contains(x)
            &&& x.status is Pending || x.status is Retrying
            &&& x.next_attempt_at matches Some(t) ==> t <= now
        },
    decreases list.len(),
{
    if list.len() > 0 {
        lemma_ready_run_due(list.drop_first(), all, now);
        let rest = ready_run(list.drop_first(), all, now);
        let rr = ready_run(list, all, now);
        assert forall|k: int| 0 <= k < rr.len() implies {
            let x = #[trigger] rr[k];
            &&& list.contains(x)
            &&& x.status is Pending || x.status is Retrying
            &&& x.next_attempt_at matches Some(t) ==> t <= now
        } by {
            if list[0].status is Accepted {
                assert(rr[k] == rest[k]);
                let j = choose|j: int| 0 <= j < list.drop_first().len() && list.drop_first()[j] == rest[k];
                assert(list[j + 1] == rest[k]);
            } else if k == 0 {
                assert(rr[0] == list[0]);
            } else {
                assert(rr[k] == rest[k - 1]);
                let j = choose|j: int| 0 <= j < list.drop_first().len() && list.drop_first()[j] == rest[k - 1];
                assert(list[j + 1] == rest[k - 1]);
            }
        }
    }
}

proof fn lemma_batch_ids_ready(ready: Seq<MutationView>, events: Seq<EventView>)
    ensures
        forall|j: int| 0 <= j < batch_spec(ready, events).0.len() ==> exists|k: int|
            0 <= k < ready.len() && ready[k].operation_id == #[trigger] batch_spec(ready, events).0[j],
    decreases ready.len(),
{
    if ready.len() > 0 {
        lemma_batch_ids_ready(ready.drop_first(), events);
        let b = batch_spec(ready, events).0;
        let rest = batch_spec(ready.drop_first(), events).0;
        assert forall|j: int| 0 <= j < b.len() implies exists|k: int|
            0 <= k < ready.len() && ready[k].operation_id == #[trigger] b[j] by {
            if j == 0 {
                assert(ready[0].operation_id == b[0]);
            } else {
                assert(b[j] == rest[j - 1]);
                let k = choose|k: int| 0 <= k < ready.drop_first().len() && ready.drop_first()[k].operation_id
                    == rest[j - 1];
                assert(ready[k + 1].operation_id == b[j]);
            }
        }
    }
}

/// A mutation is never sent before it is due: one whose retry time is
/// after `now` is not ready at `now`; every mutation handed out as ready at
/// `now` is a pending or retrying mutation of the queue, of the asked
/// logbook, with no retry time after `now`; and every operation in a push
/// batch taken at `now` is one of those.
pub proof fn law_ready_mutations_are_due(
    ms: Seq<MutationView>,
    logbook_id: u128,
    now: i64,
    m: MutationView,
    events: Seq<EventView>,
)
    ensures
        m.next_attempt_at matches Some(t) ==> (t > now ==> !ready_at(m, now)),
        forall|k: int| 0 <= k < ready_spec(ms, logbook_id, now).len() ==> {
            let x = #[trigger] ready_spec(ms, logbook_id, now)[k];
            &&& ms.contains(x)
            &&& x.logbook_id == logbook_id
            &&& x.status is Pending || x.status is Retrying
            &&& x.next_attempt_at matches Some(t) ==> t <= now
        },
        forall|j: int| 0 <= j < batch_spec(ready_spec(ms, logbook_id, now), events).0.len() ==> exists|k: int|
            0 <= k < ready_spec(ms, logbook_id, now).len() && ready_spec(ms, logbook_id, now)[k].operation_id
                == #[trigger] batch_spec(ready_spec(ms, logbook_id, now), events).0[j],
{
    let fl = for_logbook(ms, logbook_id);
    lemma_for_logbook_members(ms, logbook_id);
    lemma_ready_run_due(fl, ms, now);
    lemma_batch_ids_ready(ready_spec(ms, logbook_id, now), events);
    let rs = ready_spec(ms, logbook_id, now);
    assert forall|k: int| 0 <= k < rs.len() implies {
        let x = #[trigger] rs[k];
        &&& ms.contains(x)
        &&& x.logbook_id == logbook_id
        &&& x.status is Pending || x.status is Retrying
        &&& x.next_attempt_at matches Some(t) ==> t <= now
    } by {
        let x = rs[k];
        assert(fl.contains(x));
        let j = choose|j: int| 0 <= j < fl.len() && fl[j] == x;
        assert(fl[j].logbook_id == logbook_id && ms.contains(fl[j]));
    }
}

fn find_event_by_hash(events: &Vec<EventEnvelope>, h: &String) -> (r: Option<usize>)
    ensures
        match event_by_hash(event_views(events@), h@) {
            None => r is None,
            Some(e) => r matches Some(i) && i < events@.len() && events@[i as int]@ == e,
        },
{
    let ghost es = event_views(events@);
    let mut j: usize = events.len();
    assert(es.subrange(0, j as int) =~= es);
    while j > 0
        invariant
            j <= events@.len(),
            es == event_views(events@),
            event_by_hash(es, h@) == event_by_hash(es.subrange(0, j as int), h@),
        decreases j,
    {
        proof {
            let t = es.subrange(0, j as int);
            assert(t.drop_last() =~= es.subrange(0, j - 1));
            assert(t.last() == events@[j - 1]@);
        }
        if events[j - 1].event_hash.eq(h) {
            return Some(j - 1);
        }
        j = j - 1;
    }
    assert(es.subrange(0, 0).len() == 0);
    None
}

impl OfflineQueue {
    /// Marks every unaccepted mutation whose local event hash is among
    /// `accepted_hashes` as accepted, and counts them.
    pub fn mark_accepted_by_event_hashes(&mut self, accepted_hashes: &Vec<String>, now: i64) -> (r: usize)
        requires
            old(self).wf(),
        ensures
            final(self).wf(),
            final(self)@.next_sequence_by_logbook == old(self)@.next_sequence_by_logbook,
            final(self)@.mutations == old(self)@.mutations.map_values(
                |m: MutationView| acknowledge(m, strings_set(accepted_hashes@), now),
            ),
            r == acknowledged_count(old(self)@.mutations, strings_set(accepted_hashes@)),
    {
        let ghost ms = old(self)@.mutations;
        let ghost hs = strings_set(accepted_hashes@);
        let mut count: usize = 0;
        let mut i: usize = 0;
        while i < self.mutations.len()
            invariant
                self.wf(),
                i <= self.mutations@.len(),
                self.mutations@.len() == ms.len(),
                hs == strings_set(accepted_hashes@),
                self@.next_sequence_by_logbook == old(self)@.next_sequence_by_logbook,
                forall|k: int| 0 <= k < i ==> self@.mutations[k] == acknowledge(ms[k], hs, now),
                forall|k: int| i <= k < ms.len() ==> self@.mutations[k] == ms[k],
                count == acknowledged_count(ms.subrange(0, i as int), hs),
                count <= i,
            decreases ms.len() - i,
        {
            proof {
                let t = ms.subrange(0, i + 1);
                assert(t.drop_last() =~= ms.subrange(0, i as int));
                assert(t.last() == ms[i as int]);
            }
            let hit = match &self.mutations[i].local_event_hash {
                Some(h) => string_in(accepted_hashes, h),
                None => false,
            };
            if hit && self.mutations[i].status != OfflineMutationStatus::Accepted {
                let mut m = self.mutations[i].copy();
                m.status = OfflineMutationStatus::Accepted;
                m.accepted_at = Some(now);
                m.updated_at = now;
                m.next_attempt_at = None;
                m.failure_reason = None;
                m.last_error_code = None;
                self.replace_at(i, m);
                count = count + 1;
            }
            i = i + 1;
        }
        proof {
            assert(ms.subrange(0, ms.len() as int) =~= ms);
            assert(self@.mutations =~= ms.map_values(|m: MutationView| acknowledge(m, hs, now)));
        }
        count
    }

    /// Turns every mutation left in `Sending` by an interrupted run into a
    /// retry due now, and counts them.
    pub fn recover_interrupted_writes(&mut self, now: i64) -> (r: usize)
        requires
            old(self).wf(),
        ensures
            final(self).wf(),
            final(self)@.next_sequence_by_logbook == old(self)@.next_sequence_by_logbook,
            final(self)@.mutations == old(self)@.mutations.map_values(|m: MutationView| recovered(m, now)),
            r == sending_count(old(self)@.mutations),
    {
        let ghost ms = old(self)@.mutations;
        let mut count: usize = 0;
        let mut i: usize = 0;
        while i < self.mutations.len()
            invariant
                self.wf(),
                i <= self.mutations@.len(),
                self.mutations@.len() == ms.len(),
                self@.next_sequence_by_logbook == old(self)@.next_sequence_by_logbook,
                forall|k: int| 0 <= k < i ==> self@.mutations[k] == recovered(ms[k], now),
                forall|k: int| i <= k < ms.len() ==> self@.mutations[k] == ms[k],
                count == sending_count(ms.subrange(0, i as int)),
                count <= i,
            decreases ms.len() - i,
        {
            proof {
                let t = ms.subrange(0, i + 1);
                assert(t.drop_last() =~= ms.subrange(0, i as int));
                assert(t.last() == ms[i as int]);
            }
            if self.mutations[i].status == OfflineMutationStatus::Sending {
                let mut m = self.mutations[i].copy();
                m.status = OfflineMutationStatus::Retrying;
                m.next_attempt_at = Some(now);
                m.updated_at = now;
                m.failure_reason = Some(crate::text::str_to_string("recovered interrupted send attempt"));
                self.replace_at(i, m);
                count = count + 1;
            }
            i = i + 1;
        }
        proof {
            assert(ms.subrange(0, ms.len() as int) =~= ms);
            assert(self@.mutations =~= ms.map_values(|m: MutationView| recovered(m, now)));
        }
        count
    }

    /// The mutations of `logbook_id` that may be sent at `now`, in sequence
    /// order: accepted ones are skipped and the run stops at the first one
    /// that is waiting for its retry time or for a dependency.
    pub fn ready_mutations(&self, logbook_id: u128, now: i64) -> (r: Vec<OfflineMutationEnvelope>)
        requires
            self.wf(),
        ensures
            mutation_views(r@) == ready_spec(self@.mutations, logbook_id, now),
    {
        let ghost ms = self@.mutations;
        let ops = accepted_operation_ids(&self.mutations);
        let hashes = accepted_event_hashes(&self.mutations);
        let mut out: Vec<OfflineMutationEnvelope> = Vec::new();
        let mut stopped = false;
        let mut i: usize = 0;
        proof {
            assert(ms.subrange(0, ms.len() as int) =~= ms);
        }
        while i < self.mutations.len() && !stopped
            invariant
                i <= self.mutations@.len(),
                ms == self@.mutations,
                ms == mutation_views(self.mutations@),
                ops@.to_set() == accepted_operations(ms),
                strings_set(hashes@) == accepted_hashes(ms),
                !stopped ==> ready_spec(ms, logbook_id, now) == mutation_views(out@) + ready_run(
                    for_logbook(ms.subrange(i as int, ms.len() as int), logbook_id),
                    ms,
                    now,
                ),
                stopped ==> ready_spec(ms, logbook_id, now) == mutation_views(out@),
            decreases ms.len() - i, if stopped { 0int } else { 1int },
        {
            proof {
                lemma_for_logbook_step(ms, logbook_id, i as int);
            }
            let m = &self.mutations[i];
            if m.logbook_id == logbook_id {
                let ghost rest = for_logbook(ms.subrange(i + 1, ms.len() as int), logbook_id);
                let ghost list = seq![ms[i as int]] + rest;
                proof {
                    assert(list[0] == ms[i as int]);
                    assert(list.drop_first() =~= rest);
                }
                if m.status == OfflineMutationStatus::Accepted {
                } else if !m.is_ready_at(now) || !dependencies_satisfied(m, &ops, &hashes) {
                    stopped = true;
                    assert(mutation_views(out@) + Seq::<MutationView>::empty() =~= mutation_views(out@));
                } else {
                    let ghost before = out@;
                    out.push(m.copy());
                    proof {
                        assert(mutation_views(out@) =~= mutation_views(before).push(ms[i as int]));
                        assert(mutation_views(before) + (seq![ms[i as int]] + ready_run(rest, ms, now))
                            =~= mutation_views(out@) + ready_run(rest, ms, now));
                    }
                }
            }
            i = i + 1;
        }
        proof {
            if !stopped {
                assert(ms.subrange(ms.len() as int, ms.len() as int).len() == 0);
                assert(mutation_views(out@) + Seq::<MutationView>::empty() =~= mutation_views(out@));
            }
        }
        out
    }

    /// The operations ready to push for `logbook_id` with their local
    /// events, stopping at the first ready operation without a known local
    /// event, which is reported as missing.
    pub fn ready_event_batch(&self, logbook_id: u128, local_events: &Vec<EventEnvelope>, now: i64) -> (r: OfflinePushBatch)
        requires
            self.wf(),
        ensures
            r.logbook_id == logbook_id,
            (r.operation_ids@, event_views(r.events@), r.missing_local_event_operation_ids@) == batch_spec(
                ready_spec(self@.mutations, logbook_id, now),
                event_views(local_events@),
            ),
    {
        let ready = self.ready_mutations(logbook_id, now);
        let ghost rs = mutation_views(ready@);
        let ghost es = event_views(local_events@);
        let mut operation_ids: Vec<u128> = Vec::new();
        let mut events: Vec<EventEnvelope> = Vec::new();
        let mut missing: Vec<u128> = Vec::new();
        let mut i: usize = 0;
        let mut stopped = false;
        proof {
            assert(rs.subrange(0, rs.len() as int) =~= rs);
            assert(Seq::<u128>::empty() + batch_spec(rs, es).0 =~= batch_spec(rs, es).0);
            assert(Seq::<EventView>::empty() + batch_spec(rs, es).1 =~= batch_spec(rs, es).1);
        }
        while i < ready.len() && !stopped
            invariant
                i <= ready@.len(),
                rs == mutation_views(ready@),
                es == event_views(local_events@),
                !stopped ==> missing@.len() == 0,
                !stopped ==> batch_spec(rs, es).0 == operation_ids@ + batch_spec(rs.subrange(i as int, rs.len() as int), es).0,
                !stopped ==> batch_spec(rs, es).1 == event_views(events@) + batch_spec(rs.subrange(i as int, rs.len() as int), es).1,
                !stopped ==> batch_spec(rs, es).2 == batch_spec(rs.subrange(i as int, rs.len() as int), es).2,
                stopped ==> batch_spec(rs, es) == (operation_ids@, event_views(events@), missing@),
            decreases rs.len() - i, if stopped { 0int } else { 1int },
        {
            let ghost sub = rs.subrange(i as int, rs.len() as int);
            proof {
                assert(sub[0] == ready@[i as int]@);
                assert(sub.drop_first() =~= rs.subrange(i + 1, rs.len() as int));
            }
            let m = &ready[i];
            match &m.local_event_hash {
                None => {
                    missing.push(m.operation_id);
                    stopped = true;
                    proof {
                        assert(operation_ids@ + Seq::<u128>::empty() =~= operation_ids@);
                        assert(event_views(events@) + Seq::<EventView>::empty() =~= event_views(events@));
                        assert(missing@ =~= seq![m.operation_id]);
                    }
                },
                Some(h) => {
                    match find_event_by_hash(local_events, h) {
                        None => {
                            missing.push(m.operation_id);
                            stopped = true;
                            proof {
                                assert(operation_ids@ + Seq::<u128>::empty() =~= operation_ids@);
                                assert(event_views(events@) + Seq::<EventView>::empty() =~= event_views(events@));
                                assert(missing@ =~= seq![m.operation_id]);
                            }
                        },
                        Some(j) => {
                            let ghost ob = operation_ids@;
                            let ghost eb = event_views(events@);
                            operation_ids.push(m.operation_id);
                            events.push(local_events[j].copy());
                            proof {
                                let rest = batch_spec(rs.subrange(i + 1, rs.len() as int), es);
                                assert(event_views(events@) =~= eb.push(local_events@[j as int]@));
                                assert(ob + (seq![m.operation_id] + rest.0) =~= operation_ids@ + rest.0);
                                assert(eb + (seq![local_events@[j as int]@] + rest.1) =~= event_views(events@) + rest.1);
                            }
                        },
                    }
                },
            }
            i = i + 1;
        }
        proof {
            if !stopped {
                let e = rs.subrange(rs.len() as int, rs.len() as int);
                assert(e.len() == 0);
                assert(operation_ids@ + Seq::<u128>::empty() =~= operation_ids@);
                assert(event_views(events@) + Seq::<EventView>::empty() =~= event_views(events@));
                assert(missing@ =~= Seq::<u128>::empty());
            }
        }
        OfflinePushBatch {
            logbook_id,
            operation_ids,
            events,
            missing_local_event_operation_ids: missing,
        }
    }
}

// ---------------------------------------------------------------------------
// Loading a queue file, and its health snapshot.
// ---------------------------------------------------------------------------

/// Whether an earlier mutation has the same logbook and sequence.
pub open spec fn duplicate_before(ms: Seq<MutationView>, i: int) -> bool {
    exists|k: int|
        0 <= k < i && ms[k].logbook_id == ms[i].logbook_id && ms[k].sequence == ms[i].sequence
}

/// What loading reports for the mutation at `i`: its own validation error,
/// else a duplicate logbook and sequence.
pub open spec fn entry_error(ms: Seq<MutationView>, i: int) -> Option<OfflineQueueError> {
    match mutation_error(ms[i]) {
        Some(e) => Some(e),
        None => if duplicate_before(ms, i) {
            Some(OfflineQueueError::DuplicateSequence { logbook_id: ms[i].logbook_id, sequence: ms[i].sequence })
        } else {
            None
        },
    }
}

/// The first refusal met loading the mutations in file order.
pub open spec fn load_error(ms: Seq<MutationView>) -> Option<OfflineQueueError>
    decreases ms.len(),
{
    if ms.len() == 0 {
        None
    } else {
        match load_error(ms.drop_last()) {
            Some(e) => Some(e),
            None => entry_error(ms, ms.len() - 1),
        }
    }
}

proof fn lemma_load_ok_prefix(ms: Seq<MutationView>, i: int)
    requires
        0 <= i <= ms.len(),
        load_error(ms) is None,
    ensures
        load_error(ms.subrange(0, i)) is None,
    decreases ms.len() - i,
{
    if i < ms.len() {
        lemma_load_ok_prefix(ms, i + 1);
        assert(ms.subrange(0, i + 1).drop_last() =~= ms.subrange(0, i));
    } else {
        assert(ms.subrange(0, i) =~= ms);
    }
}

/// With no load error, every mutation is valid and no two share a logbook
/// and sequence.
proof fn lemma_load_ok_facts(ms: Seq<MutationView>)
    requires
        load_error(ms) is None,
    ensures
        forall|i: int| 0 <= i < ms.len() ==> mutation_valid(#[trigger] ms[i]),
        forall|i: int, j: int|
            0 <= i < j < ms.len() ==> !(ms[i].logbook_id == ms[j].logbook_id && ms[i].sequence
                == ms[j].sequence),
    decreases ms.len(),
{
    if ms.len() > 0 {
        let t = ms.drop_last();
        lemma_load_ok_facts(t);
        let n = ms.len() - 1;
        assert forall|i: int| 0 <= i < ms.len() implies mutation_valid(#[trigger] ms[i]) by {
            if i < n {
                assert(ms[i] == t[i]);
            }
        }
        assert forall|i: int, j: int| 0 <= i < j < ms.len() implies !(ms[i].logbook_id
            == ms[j].logbook_id && ms[i].sequence == ms[j].sequence) by {
            if j < n {
                assert(ms[i] == t[i] && ms[j] == t[j]);
            } else {
                if ms[i].logbook_id == ms[j].logbook_id && ms[i].sequence == ms[j].sequence {
                    assert(duplicate_before(ms, n));
                }
            }
        }
    }
}

fn copy_pairs(v: &Vec<(u128, u64)>) -> (r: Vec<(u128, u64)>)
    ensures
        r@ == v@,
{
    let mut r: Vec<(u128, u64)> = Vec::new();
    let mut i: usize = 0;
    while i < v.len()
        invariant
            i <= v@.len(),
            r@ == v@.subrange(0, i as int),
        decreases v@.len() - i,
    {
        r.push(v[i]);
        i = i + 1;
        assert(r@ =~= v@.subrange(0, i as int));
    }
    assert(v@.subrange(0, v@.len() as int) =~= v@);
    r
}

impl OfflineQueue {
    /// A queue from the contents of a queue file: the file version must be
    /// the supported one, and each mutation, in file order, must be valid
    /// and have a logbook and sequence no earlier one has. The mutations are
    /// then kept ordered by logbook and sequence.
    pub fn from_parts(
        version: u32,
        next_sequence_by_logbook: Vec<(u128, u64)>,
        mutations: Vec<OfflineMutationEnvelope>,
    ) -> (r: Result<OfflineQueue, OfflineQueueError>)
        ensures
            version != OFFLINE_QUEUE_FILE_VERSION ==> (r matches Err(e) && e
                == OfflineQueueError::UnsupportedFileVersion(version)),
            version == OFFLINE_QUEUE_FILE_VERSION && load_error(mutation_views(mutations@)) is Some
                ==> (r matches Err(e) && Some(e) == load_error(mutation_views(mutations@))),
            version == OFFLINE_QUEUE_FILE_VERSION && load_error(mutation_views(mutations@)) is None
                ==> (r matches Ok(q) && q.wf() && q@.next_sequence_by_logbook == table_map(
                next_sequence_by_logbook@,
            ) && q@.mutations.to_multiset() == mutation_views(mutations@).to_multiset()),
    {
        if version != OFFLINE_QUEUE_FILE_VERSION {
            return Err(OfflineQueueError::UnsupportedFileVersion(version));
        }
        let ghost ms = mutation_views(mutations@);
        let mut i: usize = 0;
        while i < mutations.len()
            invariant
                i <= mutations@.len(),
                version == OFFLINE_QUEUE_FILE_VERSION,
                ms == mutation_views(mutations@),
                load_error(ms.subrange(0, i as int)) is None,
            decreases mutations@.len() - i,
        {
            let ghost pre = ms.subrange(0, i + 1);
            proof {
                assert(pre.drop_last() =~= ms.subrange(0, i as int));
                assert(pre[i as int] == mutations@[i as int]@);
            }
            match mutations[i].validate() {
                Ok(()) => {},
                Err(e) => {
                    proof {
                        assert(load_error(pre) == Some(e));
                        lemma_load_error_extends(ms, i + 1);
                    }
                    return Err(e);
                },
            }
            let mut k: usize = 0;
            while k < i
                invariant
                    k <= i < mutations@.len(),
                    version == OFFLINE_QUEUE_FILE_VERSION,
                    ms == mutation_views(mutations@),
                    pre == ms.subrange(0, i + 1),
                    load_error(pre.drop_last()) is None,
                    mutation_error(pre[i as int]) is None,
                    forall|m: int|
                        0 <= m < k ==> !(pre[m].logbook_id == pre[i as int].logbook_id && pre[m].sequence
                            == pre[i as int].sequence),
                decreases i - k,
            {
                if mutations[k].logbook_id == mutations[i].logbook_id && mutations[k].sequence
                    == mutations[i].sequence {
                    assert(pre[k as int] == mutations@[k as int]@);
                    assert(duplicate_before(pre, i as int));
                    proof {
                        lemma_load_error_extends(ms, i + 1);
                    }
                    return Err(
                        OfflineQueueError::DuplicateSequence {
                            logbook_id: mutations[i].logbook_id,
                            sequence: mutations[i].sequence,
                        },
                    );
                }
                assert(pre[k as int] == mutations@[k as int]@);
                k = k + 1;
            }
            i = i + 1;
        }
        proof {
            assert(ms.subrange(0, ms.len() as int) =~= ms);
            lemma_load_ok_facts(ms);
        }
        let mut mutations = mutations;
        let mut sorted: Vec<OfflineMutationEnvelope> = Vec::new();
        let ghost total = ms;
        proof {
            assert(mutation_views(sorted@) =~= Seq::<MutationView>::empty());
            assert(total.subrange(0, 0) =~= Seq::<MutationView>::empty());
        }
        let n = mutations.len();
        let mut taken: usize = 0;
        while mutations.len() > 0
            invariant
                taken + mutations@.len() == n,
                n == total.len(),
                mutation_views(mutations@) == total.subrange(taken as int, n as int),
                mutation_views(sorted@).to_multiset() == total.subrange(0, taken as int).to_multiset(),
                queue_sorted(mutation_views(sorted@)),
                forall|a: int| 0 <= a < total.len() ==> mutation_valid(#[trigger] total[a]),
                forall|a: int, b: int|
                    0 <= a < b < total.len() ==> !(total[a].logbook_id == total[b].logbook_id
                        && total[a].sequence == total[b].sequence),
                forall|a: int|
                    0 <= a < sorted@.len() ==> exists|b: int|
                        0 <= b < taken && (#[trigger] mutation_views(sorted@)[a]) == total[b],
            decreases mutations@.len(),
        {
            let ghost rest = mutation_views(mutations@);
            let ghost before = mutations@;
            let m = mutations.remove(0);
            let ghost x = m@;
            proof {
                assert(m == before[0]);
                assert(rest[0] == before[0]@);
                assert(rest[0] == total.subrange(taken as int, n as int)[0]);
                assert(x == total[taken as int]);
                assert(mutations@ == before.remove(0));
                assert forall|q: int| 0 <= q < mutations@.len() implies #[trigger] mutation_views(mutations@)[q]
                    == total.subrange(taken + 1, n as int)[q] by {
                    assert(mutations@[q] == before[q + 1]);
                    assert(rest[q + 1] == before[q + 1]@);
                }
                assert(mutation_views(mutations@) =~= total.subrange(taken + 1, n as int));
            }
            let ghost ss = mutation_views(sorted@);
            let mut p: usize = 0;
            while p < sorted.len() && !(m.logbook_id < sorted[p].logbook_id || (m.logbook_id
                == sorted[p].logbook_id && m.sequence < sorted[p].sequence))
                invariant
                    p <= sorted@.len(),
                    ss == mutation_views(sorted@),
                    x == m@,
                    forall|k: int| 0 <= k < p ==> !key_lt(x, ss[k]),
                decreases sorted@.len() - p,
            {
                p = p + 1;
            }
            sorted.insert(p, m);
            proof {
                let ns = mutation_views(sorted@);
                assert(ns =~= ss.insert(p as int, x));
                vstd::seq_lib::to_multiset_insert(ss, p as int, x);
                assert(total.subrange(0, taken + 1) =~= total.subrange(0, taken as int).push(x));
                vstd::seq_lib::to_multiset_build(total.subrange(0, taken as int), x);
                // x's key differs from every key already placed.
                assert forall|k: int| 0 <= k < ss.len() implies !(ss[k].logbook_id == x.logbook_id
                    && ss[k].sequence == x.sequence) by {
                    let b = choose|b: int| 0 <= b < taken && ss[k] == total[b];
                    assert(total[b] == ss[k]);
                }
                assert forall|a: int, b: int| 0 <= a < b < ns.len() implies key_lt(
                    #[trigger] ns[a],
                    #[trigger] ns[b],
                ) by {
                    if b < p {
                        assert(ns[a] == ss[a] && ns[b] == ss[b]);
                    } else if b == p {
                        assert(ns[a] == ss[a]);
                        assert(!key_lt(x, ss[a]));
                    } else if a == p {
                        assert(ns[b] == ss[b - 1]);
                        assert(key_lt(x, ss[p as int]) || p == ss.len());
                        if p < ss.len() && b - 1 > p {
                            assert(key_lt(ss[p as int], ss[b - 1]));
                        }
                    } else if a < p {
                        assert(ns[a] == ss[a] && ns[b] == ss[b - 1]);
                    } else {
                        assert(ns[a] == ss[a - 1] && ns[b] == ss[b - 1]);
                    }
                }
                assert forall|a: int| 0 <= a < sorted@.len() implies exists|b: int|
                    0 <= b < taken + 1 && (#[trigger] mutation_views(sorted@)[a]) == total[b] by {
                    if a < p {
                        let b = choose|b: int| 0 <= b < taken && ss[a] == total[b];
                        assert(ns[a] == total[b]);
                    } else if a == p {
                        assert(ns[a] == total[taken as int]);
                    } else {
                        let b = choose|b: int| 0 <= b < taken && ss[a - 1] == total[b];
                        assert(ns[a] == total[b]);
                    }
                }
            }
            taken = taken + 1;
        }
        proof {
            assert(total.subrange(0, n as int) =~= total);
            let fs = mutation_views(sorted@);
            assert forall|a: int| 0 <= a < fs.len() implies mutation_valid(#[trigger] fs[a]) by {
                let b = choose|b: int| 0 <= b < taken && fs[a] == total[b];
            }
        }
        let q = OfflineQueue { next_sequence_by_logbook, mutations: sorted };
        Ok(q)
    }
}

/// How many mutations have the status.
pub open spec fn status_count(ms: Seq<MutationView>, st: OfflineMutationStatus) -> nat
    decreases ms.len(),
{
    if ms.len() == 0 {
        0
    } else {
        status_count(ms.drop_last(), st) + if ms.last().status == st {
            1nat
        } else {
            0nat
        }
    }
}

/// The logbooks of the mutations, each once, in order of first appearance.
pub open spec fn logbooks_of(ms: Seq<MutationView>) -> Seq<u128>
    decreases ms.len(),
{
    if ms.len() == 0 {
        Seq::empty()
    } else {
        let rest = logbooks_of(ms.drop_last());
        if rest.contains(ms.last().logbook_id) {
            rest
        } else {
            rest.push(ms.last().logbook_id)
        }
    }
}

/// How many mutations are ready over the listed logbooks.
pub open spec fn ready_total(lbs: Seq<u128>, ms: Seq<MutationView>, now: i64) -> nat
    decreases lbs.len(),
{
    if lbs.len() == 0 {
        0
    } else {
        ready_total(lbs.drop_last(), ms, now) + ready_spec(ms, lbs.last(), now).len()
    }
}

/// How many mutations the listed logbooks hold.
pub open spec fn held_total(lbs: Seq<u128>, ms: Seq<MutationView>) -> nat
    decreases lbs.len(),
{
    if lbs.len() == 0 {
        0
    } else {
        held_total(lbs.drop_last(), ms) + for_logbook(ms, lbs.last()).len()
    }
}

/// The earliest creation time of a pending or retrying mutation.
pub open spec fn oldest_pending(ms: Seq<MutationView>) -> Option<i64>
    decreases ms.len(),
{
    if ms.len() == 0 {
        None
    } else {
        let rest = oldest_pending(ms.drop_last());
        let m = ms.last();
        if draining(m.status) {
            match rest {
                Some(t) => Some(if m.created_at < t { m.created_at } else { t }),
                None => Some(m.created_at),
            }
        } else {
            rest
        }
    }
}

/// The latest update time of any mutation.
pub open spec fn newest_update(ms: Seq<MutationView>) -> Option<i64>
    decreases ms.len(),
{
    if ms.len() == 0 {
        None
    } else {
        let rest = newest_update(ms.drop_last());
        let m = ms.last();
        match rest {
            Some(t) => Some(if m.updated_at > t { m.updated_at } else { t }),
            None => Some(m.updated_at),
        }
    }
}

proof fn lemma_status_count_le(ms: Seq<MutationView>, st: OfflineMutationStatus)
    ensures
        status_count(ms, st) <= ms.len(),
    decreases ms.len(),
{
    if ms.len() > 0 {
        lemma_status_count_le(ms.drop_last(), st);
    }
}

proof fn lemma_logbooks_distinct(ms: Seq<MutationView>)
    ensures
        logbooks_of(ms).no_duplicates(),
    decreases ms.len(),
{
    if ms.len() > 0 {
        lemma_logbooks_distinct(ms.drop_last());
    }
}

proof fn lemma_ready_le_held(lbs: Seq<u128>, ms: Seq<MutationView>, now: i64)
    ensures
        ready_total(lbs, ms, now) <= held_total(lbs, ms),
    decreases lbs.len(),
{
    if lbs.len() > 0 {
        lemma_ready_le_held(lbs.drop_last(), ms, now);
        lemma_ready_run_len(for_logbook(ms, lbs.last()), ms, now);
    }
}

/// Dropping the first mutation lowers the held total of distinct logbooks
/// by one when its logbook is listed, and leaves it otherwise.
proof fn lemma_held_drop_first(lbs: Seq<u128>, ms: Seq<MutationView>)
    requires
        ms.len() > 0,
        lbs.no_duplicates(),
    ensures
        held_total(lbs, ms) == held_total(lbs, ms.drop_first()) + if lbs.contains(ms[0].logbook_id) {
            1nat
        } else {
            0nat
        },
    decreases lbs.len(),
{
    if lbs.len() > 0 {
        let init = lbs.drop_last();
        assert(init.no_duplicates()) by {
            assert forall|i: int, j: int| 0 <= i < j < init.len() implies init[i] != init[j] by {
                assert(init[i] == lbs[i] && init[j] == lbs[j]);
            }
        }
        lemma_held_drop_first(init, ms);
        let x = lbs.last();
        if x == ms[0].logbook_id {
            assert(!init.contains(x)) by {
                if init.contains(x) {
                    let k = choose|k: int| 0 <= k < init.len() && init[k] == x;
                    assert(lbs[k] == lbs[lbs.len() - 1]);
                }
            }
        }
        assert(lbs.contains(ms[0].logbook_id) == (init.contains(ms[0].logbook_id) || x
            == ms[0].logbook_id)) by {
            if lbs.contains(ms[0].logbook_id) {
                let k = choose|k: int| 0 <= k < lbs.len() && lbs[k] == ms[0].logbook_id;
                if k < lbs.len() - 1 {
                    assert(init[k] == lbs[k]);
                }
            }
            if init.contains(ms[0].logbook_id) {
                let k = choose|k: int| 0 <= k < init.len() && init[k] == ms[0].logbook_id;
                assert(lbs[k] == init[k]);
            }
        }
    }
}

proof fn lemma_held_le_len(lbs: Seq<u128>, ms: Seq<MutationView>)
    requires
        lbs.no_duplicates(),
    ensures
        held_total(lbs, ms) <= ms.len(),
    decreases ms.len(), lbs.len(),
{
    if ms.len() == 0 {
        lemma_held_empty(lbs, ms);
    } else {
        lemma_held_drop_first(lbs, ms);
        lemma_held_le_len(lbs, ms.drop_first());
    }
}

proof fn lemma_held_empty(lbs: Seq<u128>, ms: Seq<MutationView>)
    requires
        ms.len() == 0,
    ensures
        held_total(lbs, ms) == 0,
    decreases lbs.len(),
{
    if lbs.len() > 0 {
        lemma_held_empty(lbs.drop_last(), ms);
    }
}

/// Counts of the queue by status, and what is ready to send.
#[derive(Debug)]
pub struct OfflineQueueHealth {
    pub total: usize,
    pub pending: usize,
    pub sending: usize,
    pub retrying: usize,
    pub blocked: usize,
    pub failed: usize,
    pub accepted: usize,
    pub user_action_required: usize,
    pub ready_to_send: usize,
    pub oldest_pending_at: Option<i64>,
    pub newest_update_at: Option<i64>,
}

/// The queue with its health, as shown to the operator.
#[derive(Debug)]
pub struct OfflineQueueSnapshot {
    pub queue_schema_version: u32,
    pub mutation_schema_version: u32,
    pub health: OfflineQueueHealth,
    pub mutations: Vec<OfflineMutationEnvelope>,
}

pub open spec fn health_matches(h: OfflineQueueHealth, ms: Seq<MutationView>, now: i64) -> bool {
    &&& h.total == ms.len()
    &&& h.pending == status_count(ms, OfflineMutationStatus::Pending)
    &&& h.sending == status_count(ms, OfflineMutationStatus::Sending)
    &&& h.retrying == status_count(ms, OfflineMutationStatus::Retrying)
    &&& h.blocked == status_count(ms, OfflineMutationStatus::Blocked)
    &&& h.failed == status_count(ms, OfflineMutationStatus::Failed)
    &&& h.accepted == status_count(ms, OfflineMutationStatus::Accepted)
    &&& h.user_action_required == status_count(ms, OfflineMutationStatus::UserActionRequired)
    &&& h.ready_to_send == ready_total(logbooks_of(ms), ms, now)
    &&& h.oldest_pending_at == oldest_pending(ms)
    &&& h.newest_update_at == newest_update(ms)
}

impl OfflineQueue {
    /// The queue's snapshot at `now`: counts by status, how many mutations
    /// are ready to send over all logbooks, the oldest pending creation time
    /// and the latest update time.
    pub fn snapshot(&self, now: i64) -> (r: OfflineQueueSnapshot)
        requires
            self.wf(),
        ensures
            r.queue_schema_version == OFFLINE_QUEUE_FILE_VERSION,
            r.mutation_schema_version == OFFLINE_MUTATION_SCHEMA_VERSION,
            mutation_views(r.mutations@) == self@.mutations,
            health_matches(r.health, self@.mutations, now),
    {
        let ghost ms = self@.mutations;
        let mut h = OfflineQueueHealth {
            total: self.mutations.len(),
            pending: 0,
            sending: 0,
            retrying: 0,
            blocked: 0,
            failed: 0,
            accepted: 0,
            user_action_required: 0,
            ready_to_send: 0,
            oldest_pending_at: None,
            newest_update_at: None,
        };
        let mut lbs: Vec<u128> = Vec::new();
        let mut i: usize = 0;
        while i < self.mutations.len()
            invariant
                i <= self.mutations@.len(),
                ms == self@.mutations,
                ms == mutation_views(self.mutations@),
                h.total == ms.len(),
                h.ready_to_send == 0,
                ({
                    let pre = ms.subrange(0, i as int);
                    &&& h.pending == status_count(pre, OfflineMutationStatus::Pending)
                    &&& h.sending == status_count(pre, OfflineMutationStatus::Sending)
                    &&& h.retrying == status_count(pre, OfflineMutationStatus::Retrying)
                    &&& h.blocked == status_count(pre, OfflineMutationStatus::Blocked)
                    &&& h.failed == status_count(pre, OfflineMutationStatus::Failed)
                    &&& h.accepted == status_count(pre, OfflineMutationStatus::Accepted)
                    &&& h.user_action_required == status_count(pre, OfflineMutationStatus::UserActionRequired)
                    &&& h.oldest_pending_at == oldest_pending(pre)
                    &&& h.newest_update_at == newest_update(pre)
                    &&& lbs@ == logbooks_of(pre)
                }),
            decreases ms.len() - i,
        {
            let ghost pre = ms.subrange(0, i as int);
            let ghost next = ms.subrange(0, i + 1);
            proof {
                assert(next.drop_last() =~= pre);
                assert(next.last() == self.mutations@[i as int]@);
                lemma_status_count_le(pre, OfflineMutationStatus::Pending);
                lemma_status_count_le(pre, OfflineMutationStatus::Sending);
                lemma_status_count_le(pre, OfflineMutationStatus::Retrying);
                lemma_status_count_le(pre, OfflineMutationStatus::Blocked);
                lemma_status_count_le(pre, OfflineMutationStatus::Failed);
                lemma_status_count_le(pre, OfflineMutationStatus::Accepted);
                lemma_status_count_le(pre, OfflineMutationStatus::UserActionRequired);
            }
            let m = &self.mutations[i];
            match m.status {
                OfflineMutationStatus::Pending => h.pending = h.pending + 1,
                OfflineMutationStatus::Sending => h.sending = h.sending + 1,
                OfflineMutationStatus::Retrying => h.retrying = h.retrying + 1,
                OfflineMutationStatus::Blocked => h.blocked = h.blocked + 1,
                OfflineMutationStatus::Failed => h.failed = h.failed + 1,
                OfflineMutationStatus::Accepted => h.accepted = h.accepted + 1,
                OfflineMutationStatus::UserActionRequired => h.user_action_required = h.user_action_required + 1,
            }
            if m.status.is_draining() {
                h.oldest_pending_at = match h.oldest_pending_at {
                    Some(t) => Some(if m.created_at < t { m.created_at } else { t }),
                    None => Some(m.created_at),
                };
            }
            h.newest_update_at = match h.newest_update_at {
                Some(t) => Some(if m.updated_at > t { m.updated_at } else { t }),
                None => Some(m.updated_at),
            };
            if !u128_in(&lbs, m.logbook_id) {
                lbs.push(m.logbook_id);
            }
            i = i + 1;
        }
        proof {
            assert(ms.subrange(0, ms.len() as int) =~= ms);
            lemma_logbooks_distinct(ms);
            lemma_ready_le_held(lbs@, ms, now);
            lemma_held_le_len(lbs@, ms);
        }
        let mut ready: usize = 0;
        let mut k: usize = 0;
        let total_len = self.mutations.len();
        while k < lbs.len()
            invariant
                k <= lbs@.len(),
                ms.len() == total_len,
                lbs@ == logbooks_of(ms),
                ms == self@.mutations,
                self.wf(),
                ready == ready_total(lbs@.subrange(0, k as int), ms, now),
                ready_total(lbs@, ms, now) <= ms.len(),
            decreases lbs@.len() - k,
        {
            let run = self.ready_mutations(lbs[k], now);
            proof {
                assert(lbs@.subrange(0, k + 1).drop_last() =~= lbs@.subrange(0, k as int));
                assert(lbs@.subrange(0, k + 1).last() == lbs@[k as int]);
                assert(mutation_views(run@).len() == run@.len());
                lemma_ready_total_prefix(lbs@, ms, now, k + 1);
                assert(ms.len() == self.mutations@.len());
                assert(ready_total(lbs@.subrange(0, k + 1), ms, now) == ready_total(
                    lbs@.subrange(0, k as int),
                    ms,
                    now,
                ) + ready_spec(ms, lbs@[k as int], now).len());
            }
            ready = ready + run.len();
            k = k + 1;
        }
        assert(lbs@.subrange(0, lbs@.len() as int) =~= lbs@);
        h.ready_to_send = ready;
        let mutations = self.copy_mutations();
        OfflineQueueSnapshot {
            queue_schema_version: OFFLINE_QUEUE_FILE_VERSION,
            mutation_schema_version: OFFLINE_MUTATION_SCHEMA_VERSION,
            health: h,
            mutations,
        }
    }

    fn copy_mutations(&self) -> (r: Vec<OfflineMutationEnvelope>)
        ensures
            mutation_views(r@) == self@.mutations,
    {
        let mut r: Vec<OfflineMutationEnvelope> = Vec::new();
        let mut i: usize = 0;
        while i < self.mutations.len()
            invariant
                i <= self.mutations@.len(),
                mutation_views(r@) == mutation_views(self.mutations@).subrange(0, i as int),
            decreases self.mutations@.len() - i,
        {
            let ghost before = r@;
            r.push(self.mutations[i].copy());
            assert(mutation_views(r@) =~= mutation_views(before).push(self.mutations@[i as int]@));
            i = i + 1;
            assert(mutation_views(r@) =~= mutation_views(self.mutations@).subrange(0, i as int));
        }
        assert(mutation_views(self.mutations@).subrange(0, self.mutations@.len() as int) =~= self@.mutations);
        r
    }
}

proof fn lemma_load_error_extends(ms: Seq<MutationView>, j: int)
    requires
        0 <= j <= ms.len(),
        load_error(ms.subrange(0, j)) is Some,
    ensures
        load_error(ms) == load_error(ms.subrange(0, j)),
    decreases ms.len() - j,
{
    if j < ms.len() {
        assert(ms.subrange(0, j + 1).drop_last() =~= ms.subrange(0, j));
        lemma_load_error_extends(ms, j + 1);
    } else {
        assert(ms.subrange(0, j) =~= ms);
    }
}

proof fn lemma_ready_total_prefix(lbs: Seq<u128>, ms: Seq<MutationView>, now: i64, k: int)
    requires
        0 <= k <= lbs.len(),
    ensures
        ready_total(lbs.subrange(0, k), ms, now) <= ready_total(lbs, ms, now),
    decreases lbs.len() - k,
{
    if k < lbs.len() {
        lemma_ready_total_prefix(lbs, ms, now, k + 1);
        assert(lbs.subrange(0, k + 1).drop_last() =~= lbs.subrange(0, k));
    } else {
        assert(lbs.subrange(0, k) =~= lbs);
    }
}

/// Where the offline queue file is kept; the file is read and written by
/// the embedding application.
#[derive(Debug)]
pub struct JsonOfflineMutationQueue {
    path: String,
}

impl JsonOfflineMutationQueue {
    pub fn new(path: String) -> (r: Self)
        ensures
            r.path_view() == path@,
    {
        JsonOfflineMutationQueue { path }
    }

    pub closed spec fn path_view(&self) -> Seq<char> {
        self.path@
    }

    pub fn path(&self) -> (r: &str)
        ensures
            r@ == self.path_view(),
    {
        self.path.as_str()
    }
}

} // verus!
