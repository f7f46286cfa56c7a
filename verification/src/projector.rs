//! Projection of the official event log: the projector's settings, its
//! durable checkpoint, and the per-logbook hash-chain check every entry
//! passes before it is projected.
use vstd::prelude::*;
use crate::events::{copy_opt, opt_view};
use crate::text::{append_str, decimal_string, decimal_text, str_to_string};

verus! {

pub const PROJECTION_QSO_TABLE: &'static str = "projection_qso";
pub const PROJECTION_ACTIVATION_TABLE: &'static str = "projection_activation";
pub const PROJECTION_CHECKPOINT_TABLE: &'static str = "projection_checkpoint";
pub const PROJECTION_ANOMALY_TABLE: &'static str = "projection_anomaly";
pub const PROJECTION_LOCK_TABLE: &'static str = "projection_writer_lock";
pub const PROJECTION_STREAM_ID: &'static str = "official_log";
pub const PROJECTION_SCHEMA_VERSION: u32 = 1;
pub const DEFAULT_PROJECTION_BATCH_SIZE: usize = 1000;
pub const DEFAULT_PROJECTION_POLL_INTERVAL_SECONDS: u64 = 1;
pub const DEFAULT_PROJECTION_LOCK_TTL_SECONDS: i64 = 60;
pub const ANOMALY_ORPHAN_TOMBSTONE: &'static str = "orphan_tombstone";

#[derive(Debug, Clone, Copy, PartialEq, Eq, Structural)]
pub enum ProjectionMode {
    /// Wipe the projection and replay the whole log. Operator-triggered only.
    FullRebuild,
    /// Resume from the checkpoint and project newly appended entries.
    Incremental,
}

#[derive(Debug, Clone, Copy, PartialEq, Eq, Structural)]
pub enum ProjectionStatus {
    /// Every entry so far verified; projection continues.
    Healthy,
    Halted,
}

/// The projector's settings.
#[derive(Debug)]
pub struct ProjectorConfig {
    /// The JSONL official event log to read; never written by the projector.
    pub log_path: String,
    pub batch_size: usize,
    pub poll_interval_ms: u64,
    /// Identifies this writer in the single-writer lease.
    pub writer_id: String,
    pub lock_ttl_seconds: i64,
}

impl ProjectorConfig {
    /// Default settings for a log, with `ham-sync-projector-{writer_uuid}` as
    /// the writer id.
    pub fn new_with_writer(log_path: String, writer_uuid: u128) -> (r: Self)
        ensures
            r.log_path@ == log_path@,
            r.batch_size == DEFAULT_PROJECTION_BATCH_SIZE,
            r.poll_interval_ms == 1000,
            r.writer_id@ == "ham-sync-projector-"@ + crate::ids::uuid_hyphenated_text(writer_uuid),
            r.lock_ttl_seconds == DEFAULT_PROJECTION_LOCK_TTL_SECONDS,
    {
        let mut writer_id = str_to_string("ham-sync-projector-");
        let t = crate::ids::uuid_text(writer_uuid);
        append_str(&mut writer_id, t.as_str());
        ProjectorConfig {
            log_path,
            batch_size: DEFAULT_PROJECTION_BATCH_SIZE,
            poll_interval_ms: 1000,
            writer_id,
            lock_ttl_seconds: DEFAULT_PROJECTION_LOCK_TTL_SECONDS,
        }
    }

    /// Default settings for a log, under a fresh random writer id.
    pub fn new(log_path: String) -> (r: Self)
        ensures
            r.log_path@ == log_path@,
            r.batch_size == DEFAULT_PROJECTION_BATCH_SIZE,
            r.poll_interval_ms == 1000,
            r.lock_ttl_seconds == DEFAULT_PROJECTION_LOCK_TTL_SECONDS,
    {
        ProjectorConfig::new_with_writer(log_path, crate::ids::new_uuid())
    }

    /// Events per transaction: the configured size, at least one.
    pub fn effective_batch_size(&self) -> (r: usize)
        ensures
            r == if self.batch_size == 0 {
                1
            } else {
                self.batch_size
            },
    {
        if self.batch_size == 0 {
            1
        } else {
            self.batch_size
        }
    }
}

/// One logbook's chain head.
#[derive(Debug)]
pub struct ProjectionHead {
    pub logbook_id: u128,
    pub head_hash: String,
}

/// Durable record of how far the projector has verified and projected.
#[derive(Debug)]
pub struct ProjectionCheckpoint {
    pub stream: String,
    pub schema_version: u32,
    pub byte_offset: u64,
    pub sequence: u64,
    pub heads: Vec<ProjectionHead>,
    pub last_event_id: Option<u128>,
    pub last_event_hash: Option<String>,
    pub status: ProjectionStatus,
    pub halt_reason: Option<String>,
    pub halt_sequence: Option<u64>,
    pub rebuild_generation: u64,
    pub updated_at: i64,
}

impl ProjectionCheckpoint {
    /// A checkpoint at the start of the log.
    pub fn empty(now: i64) -> (r: Self)
        ensures
            r.stream@ == PROJECTION_STREAM_ID@,
            r.schema_version == PROJECTION_SCHEMA_VERSION,
            r.byte_offset == 0 && r.sequence == 0 && r.heads@.len() == 0,
            r.last_event_id is None && r.last_event_hash is None,
            r.status == ProjectionStatus::Healthy,
            r.halt_reason is None && r.halt_sequence is None,
            r.rebuild_generation == 0,
            r.updated_at == now,
    {
        ProjectionCheckpoint {
            stream: str_to_string(PROJECTION_STREAM_ID),
            schema_version: PROJECTION_SCHEMA_VERSION,
            byte_offset: 0,
            sequence: 0,
            heads: Vec::new(),
            last_event_id: None,
            last_event_hash: None,
            status: ProjectionStatus::Healthy,
            halt_reason: None,
            halt_sequence: None,
            rebuild_generation: 0,
            updated_at: now,
        }
    }

    pub fn is_halted(&self) -> (r: bool)
        ensures
            r == (self.status == ProjectionStatus::Halted),
    {
        match self.status {
            ProjectionStatus::Halted => true,
            ProjectionStatus::Healthy => false,
        }
    }
}

/// The entry at the checkpoint offset must be the entry the checkpoint
/// recorded; otherwise the log was rewritten under the projection.
pub fn checkpoint_matches(recorded_hash: &Option<String>, entry_hash: &String) -> (r: Result<(), String>)
    ensures
        match opt_view(*recorded_hash) {
            None => r is Ok,
            Some(h) => if h == entry_hash@ {
                r is Ok
            } else {
                r matches Err(detail) && detail@ == "the entry at the checkpoint offset hashes to "@
                    + entry_hash@ + " but the checkpoint recorded "@ + h
            },
        },
{
    match recorded_hash {
        None => Ok(()),
        Some(h) => {
            if h.eq(entry_hash) {
                Ok(())
            } else {
                let mut detail = str_to_string("the entry at the checkpoint offset hashes to ");
                append_str(&mut detail, entry_hash.as_str());
                append_str(&mut detail, " but the checkpoint recorded ");
                append_str(&mut detail, h.as_str());
                Err(detail)
            }
        },
    }
}

/// Why an entry breaks the chain.
#[derive(Debug)]
pub enum ChainBreak {
    InvalidHash { event_id: u128 },
    PreviousHashMismatch { event_id: u128, expected: Option<String>, actual: Option<String> },
}

pub enum ChainBreakView {
    InvalidHash { event_id: u128 },
    PreviousHashMismatch { event_id: u128, expected: Option<Seq<char>>, actual: Option<Seq<char>> },
}

impl View for ChainBreak {
    type V = ChainBreakView;

    open spec fn view(&self) -> ChainBreakView {
        match self {
            ChainBreak::InvalidHash { event_id } => ChainBreakView::InvalidHash { event_id: *event_id },
            ChainBreak::PreviousHashMismatch { event_id, expected, actual } =>
                ChainBreakView::PreviousHashMismatch {
                event_id: *event_id,
                expected: opt_view(*expected),
                actual: opt_view(*actual),
            },
        }
    }
}

/// The chain heads seen so far, one per logbook.
#[derive(Debug)]
pub struct ChainHeads {
    heads: Vec<(u128, String)>,
}

pub open spec fn head_pos(hs: Seq<(u128, Seq<char>)>, logbook_id: u128) -> int
    decreases hs.len(),
{
    if hs.len() == 0 {
        0
    } else if hs[0].0 == logbook_id {
        0
    } else {
        1 + head_pos(hs.drop_first(), logbook_id)
    }
}

proof fn lemma_head_pos(hs: Seq<(u128, Seq<char>)>, logbook_id: u128, i: int)
    requires
        0 <= i <= hs.len(),
        forall|k: int| 0 <= k < i ==> hs[k].0 != logbook_id,
        i == hs.len() || hs[i].0 == logbook_id,
    ensures
        head_pos(hs, logbook_id) == i,
    decreases i,
{
    if i > 0 {
        lemma_head_pos(hs.drop_first(), logbook_id, i - 1);
    }
}

/// The head recorded for a logbook.
pub open spec fn head_for(hs: Seq<(u128, Seq<char>)>, logbook_id: u128) -> Option<Seq<char>> {
    let p = head_pos(hs, logbook_id);
    if p < hs.len() {
        Some(hs[p].1)
    } else {
        None
    }
}

pub open spec fn with_head(hs: Seq<(u128, Seq<char>)>, logbook_id: u128, h: Seq<char>) -> Seq<(u128, Seq<char>)> {
    let p = head_pos(hs, logbook_id);
    if p < hs.len() {
        hs.update(p, (logbook_id, h))
    } else {
        hs.push((logbook_id, h))
    }
}

/// No logbook is listed twice.
pub open spec fn heads_distinct(hs: Seq<(u128, Seq<char>)>) -> bool {
    forall|i: int, j: int| 0 <= i < j < hs.len() ==> hs[i].0 != hs[j].0
}

/// Sorted by logbook id, each logbook once.
pub open spec fn heads_sorted(hs: Seq<(u128, Seq<char>)>) -> bool {
    forall|i: int, j: int| 0 <= i < j < hs.len() ==> hs[i].0 < hs[j].0
}

impl View for ChainHeads {
    type V = Seq<(u128, Seq<char>)>;

    closed spec fn view(&self) -> Seq<(u128, Seq<char>)> {
        self.heads@.map_values(|p: (u128, String)| (p.0, p.1@))
    }
}

impl ChainHeads {
    pub fn new() -> (r: Self)
        ensures
            r@.len() == 0,
            r.wf(),
    {
        let r = ChainHeads { heads: Vec::new() };
        assert(r@ =~= Seq::<(u128, Seq<char>)>::empty());
        r
    }

    pub closed spec fn wf(&self) -> bool {
        heads_distinct(self@)
    }

    /// Checks one entry against its logbook's chain and advances the head:
    /// the entry's own hash must be valid (`hash_valid`, as the event
    /// crate computed it), and its previous hash must be the logbook's head.
    pub fn verify(
        &mut self,
        logbook_id: u128,
        event_id: u128,
        previous_hash: &Option<String>,
        event_hash: &String,
        hash_valid: bool,
    ) -> (r: Result<(), ChainBreak>)
        requires
            old(self).wf(),
        ensures
            final(self).wf(),
            !hash_valid ==> (r matches Err(e) && e@ == ChainBreakView::InvalidHash { event_id }) && final(self)@
                == old(self)@,
            hash_valid && opt_view(*previous_hash) != head_for(old(self)@, logbook_id) ==> (r matches Err(e) && e@
                == (ChainBreakView::PreviousHashMismatch {
                event_id,
                expected: head_for(old(self)@, logbook_id),
                actual: opt_view(*previous_hash),
            })) && final(self)@ == old(self)@,
            hash_valid && opt_view(*previous_hash) == head_for(old(self)@, logbook_id) ==> r is Ok && final(self)@
                == with_head(old(self)@, logbook_id, event_hash@),
    {
        if !hash_valid {
            return Err(ChainBreak::InvalidHash { event_id });
        }
        let ghost hs = self@;
        let mut i: usize = 0;
        while i < self.heads.len() && self.heads[i].0 != logbook_id
            invariant
                i <= self.heads@.len(),
                hs == self@,
                forall|k: int| 0 <= k < i ==> hs[k].0 != logbook_id,
            decreases self.heads@.len() - i,
        {
            i = i + 1;
        }
        proof {
            lemma_head_pos(hs, logbook_id, i as int);
        }
        let expected: Option<String> = if i < self.heads.len() {
            Some(self.heads[i].1.clone())
        } else {
            None
        };
        assert(opt_view(expected) == head_for(hs, logbook_id));
        if !crate::events::opt_eq(previous_hash, &expected) {
            return Err(
                ChainBreak::PreviousHashMismatch { event_id, expected, actual: copy_opt(previous_hash) },
            );
        }
        if i < self.heads.len() {
            self.heads.set(i, (logbook_id, event_hash.clone()));
            assert(self@ =~= hs.update(i as int, (logbook_id, event_hash@)));
            assert forall|a: int, b: int| 0 <= a < b < self@.len() implies self@[a].0 != self@[b].0 by {
                assert(self@[a].0 == hs[a].0 && self@[b].0 == hs[b].0);
            }
        } else {
            self.heads.push((logbook_id, event_hash.clone()));
            assert(self@ =~= hs.push((logbook_id, event_hash@)));
        }
        Ok(())
    }

    /// The heads for the checkpoint, sorted by logbook id.
    pub fn checkpoint_heads(&self) -> (r: Vec<ProjectionHead>)
        requires
            self.wf(),
        ensures
            heads_sorted(r@.map_values(|h: ProjectionHead| (h.logbook_id, h.head_hash@))),
            r@.map_values(|h: ProjectionHead| (h.logbook_id, h.head_hash@)).to_multiset() == self@.to_multiset(),
    {
        let ghost hs = self@;
        let mut out: Vec<ProjectionHead> = Vec::new();
        let mut i: usize = 0;
        assert(out@.map_values(|h: ProjectionHead| (h.logbook_id, h.head_hash@)) =~= hs.subrange(0, 0));
        while i < self.heads.len()
            invariant
                i <= self.heads@.len(),
                hs == self@,
                heads_distinct(hs),
                heads_sorted(out@.map_values(|h: ProjectionHead| (h.logbook_id, h.head_hash@))),
                out@.map_values(|h: ProjectionHead| (h.logbook_id, h.head_hash@)).to_multiset() == hs.subrange(
                    0,
                    i as int,
                ).to_multiset(),
                forall|a: int|
                    0 <= a < out@.len() ==> exists|b: int|
                        0 <= b < i && (#[trigger] out@[a]).logbook_id == hs[b].0,
            decreases self.heads@.len() - i,
        {
            let ghost os = out@.map_values(|h: ProjectionHead| (h.logbook_id, h.head_hash@));
            let id = self.heads[i].0;
            let mut p: usize = 0;
            while p < out.len() && out[p].logbook_id < id
                invariant
                    p <= out@.len(),
                    os == out@.map_values(|h: ProjectionHead| (h.logbook_id, h.head_hash@)),
                    forall|k: int| 0 <= k < p ==> os[k].0 < id,
                decreases out@.len() - p,
            {
                p = p + 1;
            }
            let ghost x = hs[i as int];
            out.insert(p, ProjectionHead { logbook_id: id, head_hash: self.heads[i].1.clone() });
            proof {
                let ns = out@.map_values(|h: ProjectionHead| (h.logbook_id, h.head_hash@));
                assert(ns =~= os.insert(p as int, x));
                vstd::seq_lib::to_multiset_insert(os, p as int, x);
                assert(hs.subrange(0, i + 1) =~= hs.subrange(0, i as int).push(x));
                vstd::seq_lib::to_multiset_build(hs.subrange(0, i as int), x);
                assert forall|k: int| 0 <= k < os.len() implies os[k].0 != x.0 by {
                    let b = choose|b: int| 0 <= b < i && out@[if k < p { k } else { k + 1 }].logbook_id == hs[b].0;
                    if k < p {
                        assert(out@[k].logbook_id == os[k].0);
                    } else {
                        assert(out@[k + 1].logbook_id == os[k].0);
                    }
                    assert(hs[b].0 != hs[i as int].0);
                }
                assert forall|a: int, b: int| 0 <= a < b < ns.len() implies ns[a].0 < ns[b].0 by {
                    if b < p {
                        assert(ns[a] == os[a] && ns[b] == os[b]);
                    } else if b == p {
                        assert(ns[a] == os[a]);
                    } else if a == p {
                        assert(ns[b] == os[b - 1]);
                        if p < os.len() {
                            assert(!(os[p as int].0 < x.0));
                            assert(os[p as int].0 != x.0);
                        }
                    } else if a < p {
                        assert(ns[a] == os[a] && ns[b] == os[b - 1]);
                    } else {
                        assert(ns[a] == os[a - 1] && ns[b] == os[b - 1]);
                    }
                }
                assert forall|a: int| 0 <= a < out@.len() implies exists|b: int|
                    0 <= b < i + 1 && (#[trigger] out@[a]).logbook_id == hs[b].0 by {
                    if a == p {
                        assert(out@[a].logbook_id == hs[i as int].0);
                    } else if a < p {
                        assert(out@[a].logbook_id == os[a].0);
                        let b = choose|b: int| 0 <= b < i && os[a].0 == hs[b].0;
                    } else {
                        assert(out@[a].logbook_id == os[a - 1].0);
                        let b = choose|b: int| 0 <= b < i && os[a - 1].0 == hs[b].0;
                    }
                }
            }
            i = i + 1;
        }
        assert(hs.subrange(0, hs.len() as int) =~= hs);
        out
    }
}

/// Whether a line read from the log is complete: it ends with a newline.
/// A trailing line without one is an append still in progress.
pub fn line_is_complete(bytes: &Vec<u8>) -> (r: bool)
    ensures
        r == (bytes@.len() > 0 && bytes@.last() == 10u8),
{
    bytes.len() > 0 && bytes[bytes.len() - 1] == 10u8
}


/// Why a projection run failed or refused to run.
#[derive(Debug)]
pub enum ProjectorError {
    Store(String),
    Io { offset: u64, message: String },
    /// A complete log line that is not a valid event.
    MalformedEvent { sequence: u64, offset: u64, message: String },
    /// An entry that breaks its logbook's hash chain.
    BrokenChain { sequence: u64, offset: u64, source: ChainBreak },
    /// An earlier run halted; only a full rebuild clears it.
    Halted { sequence: u64, reason: String },
    /// The log no longer matches the checkpoint.
    LogRewritten { detail: String },
    /// Another projector holds the single-writer lease.
    WriterLeaseHeld { holder: String, expires_at_ms: i64 },
    Replay(String),
}

/// An optional hash as an operator reads it.
pub open spec fn hash_or_none(o: Option<Seq<char>>) -> Seq<char> {
    match o {
        Some(t) => t,
        None => "none"@,
    }
}

/// What a chain break says to the operator.
pub open spec fn chain_break_text(b: ChainBreakView) -> Seq<char> {
    match b {
        ChainBreakView::InvalidHash { event_id } => "event "@ + crate::ids::uuid_hyphenated_text(event_id)
            + " does not hash to its recorded event hash"@,
        ChainBreakView::PreviousHashMismatch { event_id, expected, actual } => "event "@
            + crate::ids::uuid_hyphenated_text(event_id) + " has previous hash "@ + hash_or_none(actual)
            + " but the logbook head is "@ + hash_or_none(expected),
    }
}

/// A lease expiry as an operator reads it.
pub open spec fn lease_time_text(ms: i64) -> Seq<char> {
    match crate::ids::utc_display_text(ms) {
        Some(t) => t,
        None => "an unrepresentable time"@,
    }
}

/// What a projector error says to the operator.
pub open spec fn error_text(e: ProjectorError) -> Seq<char> {
    match e {
        ProjectorError::Store(m) => "projection storage error: "@ + m@,
        ProjectorError::Io { offset, message } => "official event log I/O error at byte offset "@
            + decimal_text(offset as nat) + ": "@ + message@,
        ProjectorError::MalformedEvent { sequence, offset, message } => "PROJECTION HALTED: official event log entry "@
            + decimal_text(sequence as nat) + " (byte offset "@ + decimal_text(offset as nat) + ") is not valid JSON: "@
            + message@ + ". Nothing from this entry onward has been projected."@,
        ProjectorError::BrokenChain { sequence, offset, source } =>
            "PROJECTION HALTED: official event log hash chain is broken at entry "@ + decimal_text(sequence as nat)
            + " (byte offset "@ + decimal_text(offset as nat) + "): "@ + chain_break_text(source@)
            + ". Nothing from this entry onward has been projected; the official log needs investigation before the projection can advance."@,
        ProjectorError::Halted { sequence, reason } => "PROJECTION HALTED at entry "@ + decimal_text(sequence as nat)
            + ": "@ + reason@
            + ". Investigate the official log, then trigger an explicit full rebuild to clear the halt."@,
        ProjectorError::LogRewritten { detail } =>
            "PROJECTION HALTED: the official event log no longer matches the checkpoint ("@ + detail@
            + "). The log was replaced or rewritten under a live projection; only an explicit full rebuild can recover."@,
        ProjectorError::WriterLeaseHeld { holder, expires_at_ms } =>
            "another projector holds the projection writer lease (holder "@ + holder@ + ", expires at "@
            + lease_time_text(expires_at_ms) + "); only one writer may write the projection tables"@,
        ProjectorError::Replay(m) => "projection replay failed: "@ + m@,
    }
}

fn push_hash_or_none(s: &mut String, o: &Option<String>)
    ensures
        final(s)@ == old(s)@ + hash_or_none(opt_view(*o)),
{
    match o {
        Some(t) => append_str(s, t.as_str()),
        None => append_str(s, "none"),
    }
}

impl ChainBreak {
    /// What the break says to the operator.
    pub fn message(&self) -> (r: String)
        ensures
            r@ == chain_break_text(self@),
    {
        let mut r = str_to_string("event ");
        match self {
            ChainBreak::InvalidHash { event_id } => {
                append_str(&mut r, crate::ids::uuid_text(*event_id).as_str());
                append_str(&mut r, " does not hash to its recorded event hash");
            },
            ChainBreak::PreviousHashMismatch { event_id, expected, actual } => {
                append_str(&mut r, crate::ids::uuid_text(*event_id).as_str());
                append_str(&mut r, " has previous hash ");
                push_hash_or_none(&mut r, actual);
                append_str(&mut r, " but the logbook head is ");
                push_hash_or_none(&mut r, expected);
            },
        }
        r
    }
}

impl ProjectorError {
    /// What the error says to the operator; a halt's text is what the halted
    /// checkpoint records as its reason.
    pub fn message(&self) -> (r: String)
        ensures
            r@ == error_text(*self),
    {
        match self {
            ProjectorError::Store(m) => {
                let mut r = str_to_string("projection storage error: ");
                append_str(&mut r, m.as_str());
                r
            },
            ProjectorError::Io { offset, message } => {
                let mut r = str_to_string("official event log I/O error at byte offset ");
                append_str(&mut r, decimal_string(*offset).as_str());
                append_str(&mut r, ": ");
                append_str(&mut r, message.as_str());
                r
            },
            ProjectorError::MalformedEvent { sequence, offset, message } => {
                let mut r = str_to_string("PROJECTION HALTED: official event log entry ");
                append_str(&mut r, decimal_string(*sequence).as_str());
                append_str(&mut r, " (byte offset ");
                append_str(&mut r, decimal_string(*offset).as_str());
                append_str(&mut r, ") is not valid JSON: ");
                append_str(&mut r, message.as_str());
                append_str(&mut r, ". Nothing from this entry onward has been projected.");
                r
            },
            ProjectorError::BrokenChain { sequence, offset, source } => {
                let mut r = str_to_string("PROJECTION HALTED: official event log hash chain is broken at entry ");
                append_str(&mut r, decimal_string(*sequence).as_str());
                append_str(&mut r, " (byte offset ");
                append_str(&mut r, decimal_string(*offset).as_str());
                append_str(&mut r, "): ");
                append_str(&mut r, source.message().as_str());
                append_str(
                    &mut r,
                    ". Nothing from this entry onward has been projected; the official log needs investigation before the projection can advance.",
                );
                r
            },
            ProjectorError::Halted { sequence, reason } => {
                let mut r = str_to_string("PROJECTION HALTED at entry ");
                append_str(&mut r, decimal_string(*sequence).as_str());
                append_str(&mut r, ": ");
                append_str(&mut r, reason.as_str());
                append_str(&mut r, ". Investigate the official log, then trigger an explicit full rebuild to clear the halt.");
                r
            },
            ProjectorError::LogRewritten { detail } => {
                let mut r = str_to_string("PROJECTION HALTED: the official event log no longer matches the checkpoint (");
                append_str(&mut r, detail.as_str());
                append_str(
                    &mut r,
                    "). The log was replaced or rewritten under a live projection; only an explicit full rebuild can recover.",
                );
                r
            },
            ProjectorError::WriterLeaseHeld { holder, expires_at_ms } => {
                let mut r = str_to_string("another projector holds the projection writer lease (holder ");
                append_str(&mut r, holder.as_str());
                append_str(&mut r, ", expires at ");
                match crate::ids::utc_display_millis(*expires_at_ms) {
                    Some(t) => append_str(&mut r, t.as_str()),
                    None => append_str(&mut r, "an unrepresentable time"),
                }
                append_str(&mut r, "); only one writer may write the projection tables");
                r
            },
            ProjectorError::Replay(m) => {
                let mut r = str_to_string("projection replay failed: ");
                append_str(&mut r, m.as_str());
                r
            },
        }
    }
}

/// The single-writer lease record over the projection tables.
#[derive(Debug)]
pub struct ProjectionWriterLease {
    pub stream: String,
    pub holder: String,
    pub acquired_at_ms: i64,
    pub expires_at_ms: i64,
}

/// The lease this writer asks for at `now_ms`: held by the configured writer
/// until `lock_ttl_seconds` (at least one second) from now.
pub fn lease_for(config: &ProjectorConfig, now_ms: i64) -> (r: ProjectionWriterLease)
    requires
        (if config.lock_ttl_seconds < 1 { 1 } else { config.lock_ttl_seconds as int }) * 1000 <= i64::MAX,
        now_ms + (if config.lock_ttl_seconds < 1 { 1 } else { config.lock_ttl_seconds as int }) * 1000
            <= i64::MAX,
    ensures
        r.stream@ == PROJECTION_STREAM_ID@,
        r.holder@ == config.writer_id@,
        r.acquired_at_ms == now_ms,
        r.expires_at_ms == now_ms + (if config.lock_ttl_seconds < 1 {
            1
        } else {
            config.lock_ttl_seconds as int
        }) * 1000,
{
    let ttl: i64 = if config.lock_ttl_seconds < 1 { 1 } else { config.lock_ttl_seconds };
    ProjectionWriterLease {
        stream: str_to_string(PROJECTION_STREAM_ID),
        holder: config.writer_id.clone(),
        acquired_at_ms: now_ms,
        expires_at_ms: now_ms + ttl * 1000,
    }
}

/// Whether a writer may take (or refresh) the lease: nobody holds it, it
/// holds it already, or the holder's lease has expired.
pub fn lease_may_be_taken(existing: &Option<ProjectionWriterLease>, holder: &String, now_ms: i64) -> (r: bool)
    ensures
        r == match existing {
            None => true,
            Some(l) => l.holder@ == holder@ || l.expires_at_ms <= now_ms,
        },
{
    match existing {
        None => true,
        Some(l) => l.holder.eq(holder) || l.expires_at_ms <= now_ms,
    }
}

/// Reads back the lease after the conditional write: the run may go on only
/// where this writer holds it.
pub fn lease_outcome(held: Option<ProjectionWriterLease>, writer_id: &String, now_ms: i64) -> (r: Result<(), ProjectorError>)
    ensures
        match held {
            Some(l) => if l.holder@ == writer_id@ {
                r is Ok
            } else {
                r matches Err(ProjectorError::WriterLeaseHeld { holder, expires_at_ms })
                    && holder@ == l.holder@ && expires_at_ms == l.expires_at_ms
            },
            None => r matches Err(ProjectorError::WriterLeaseHeld { holder, expires_at_ms })
                && holder@ == "unknown"@ && expires_at_ms == now_ms,
        },
{
    match held {
        Some(l) => {
            if l.holder.eq(writer_id) {
                Ok(())
            } else {
                Err(ProjectorError::WriterLeaseHeld { holder: l.holder, expires_at_ms: l.expires_at_ms })
            }
        },
        None => Err(ProjectorError::WriterLeaseHeld { holder: str_to_string("unknown"), expires_at_ms: now_ms }),
    }
}

/// The checkpoint a full rebuild starts from: empty, one generation on.
pub fn rebuild_checkpoint(previous_generation: u64, now: i64) -> (r: ProjectionCheckpoint)
    ensures
        r.stream@ == PROJECTION_STREAM_ID@,
        r.schema_version == PROJECTION_SCHEMA_VERSION,
        r.byte_offset == 0 && r.sequence == 0 && r.heads@.len() == 0,
        r.last_event_id is None && r.last_event_hash is None,
        r.status == ProjectionStatus::Healthy,
        r.halt_reason is None && r.halt_sequence is None,
        r.rebuild_generation == if previous_generation == u64::MAX {
            u64::MAX
        } else {
            (previous_generation + 1) as u64
        },
        r.updated_at == now,
{
    let mut c = ProjectionCheckpoint::empty(now);
    c.rebuild_generation = if previous_generation == u64::MAX { u64::MAX } else { previous_generation + 1 };
    c
}

/// Why a stored checkpoint refuses an incremental run: the halt's sequence
/// and reason, or `None` for a healthy checkpoint.
pub open spec fn resume_refusal(stored: ProjectionCheckpoint) -> Option<(u64, Seq<char>)> {
    if stored.status == ProjectionStatus::Halted {
        Some(
            (
                match stored.halt_sequence {
                    Some(s) => s,
                    None => stored.sequence,
                },
                match opt_view(stored.halt_reason) {
                    Some(t) => t,
                    None => "unknown halt reason"@,
                },
            ),
        )
    } else {
        None
    }
}

/// Whether a checkpoint records a halt at `sequence` for `reason`.
pub open spec fn halted_at(c: ProjectionCheckpoint, reason: Seq<char>, sequence: u64) -> bool {
    &&& c.status == ProjectionStatus::Halted
    &&& opt_view(c.halt_reason) == Some(reason)
    &&& c.halt_sequence == Some(sequence)
}

/// A checkpoint recorded by a halt refuses every later incremental run, with
/// the halt's sequence and reason, until a rebuild replaces it; a healthy
/// checkpoint refuses none.
pub proof fn law_halt_refuses_later_runs(c: ProjectionCheckpoint, reason: Seq<char>, sequence: u64)
    ensures
        halted_at(c, reason, sequence) ==> resume_refusal(c) == Some((sequence, reason)),
        c.status == ProjectionStatus::Healthy ==> resume_refusal(c) is None,
{
}

/// Where an incremental run of a projector without in-memory state resumes:
/// the stored checkpoint's offset, unless an earlier run halted.
pub fn resume_offset(stored: &ProjectionCheckpoint) -> (r: Result<u64, ProjectorError>)
    ensures
        resume_refusal(*stored) is None ==> r == Ok::<u64, ProjectorError>(stored.byte_offset),
        resume_refusal(*stored) matches Some((s, t)) ==> (r matches Err(ProjectorError::Halted { sequence, reason })
            && sequence == s && reason@ == t),
{
    if stored.is_halted() {
        let sequence = match stored.halt_sequence {
            Some(s) => s,
            None => stored.sequence,
        };
        let reason = match &stored.halt_reason {
            Some(t) => t.clone(),
            None => str_to_string("unknown halt reason"),
        };
        Err(ProjectorError::Halted { sequence, reason })
    } else {
        Ok(stored.byte_offset)
    }
}

/// A log shorter than the checkpoint offset was rewritten under the projection.
pub fn check_log_length(file_len: u64, start_offset: u64) -> (r: Result<(), ProjectorError>)
    ensures
        file_len >= start_offset ==> r is Ok,
        file_len < start_offset ==> (r matches Err(ProjectorError::LogRewritten { detail })
            && detail@ == "log is "@ + decimal_text(file_len as nat) + " bytes but the checkpoint is at byte offset "@
            + decimal_text(start_offset as nat)),
{
    if file_len < start_offset {
        let mut detail = str_to_string("log is ");
        append_str(&mut detail, decimal_string(file_len).as_str());
        append_str(&mut detail, " bytes but the checkpoint is at byte offset ");
        append_str(&mut detail, decimal_string(start_offset).as_str());
        Err(ProjectorError::LogRewritten { detail })
    } else {
        Ok(())
    }
}

/// A missing log is an empty projection, unless the checkpoint says entries
/// were already projected from it.
pub fn check_missing_log(resume_offset: u64) -> (r: Result<(), ProjectorError>)
    ensures
        resume_offset == 0 ==> r is Ok,
        resume_offset > 0 ==> (r matches Err(ProjectorError::LogRewritten { detail })
            && detail@ == "the log is gone but the checkpoint is at byte offset "@ + decimal_text(resume_offset as nat)),
{
    if resume_offset > 0 {
        let mut detail = str_to_string("the log is gone but the checkpoint is at byte offset ");
        append_str(&mut detail, decimal_string(resume_offset).as_str());
        Err(ProjectorError::LogRewritten { detail })
    } else {
        Ok(())
    }
}

/// The byte is ASCII whitespace as `u8::is_ascii_whitespace` defines it.
pub open spec fn ascii_ws(b: u8) -> bool {
    b == 32u8 || b == 9u8 || b == 10u8 || b == 12u8 || b == 13u8
}

/// A line of nothing but ASCII whitespace holds no entry.
pub fn line_is_blank(bytes: &Vec<u8>) -> (r: bool)
    ensures
        r == (forall|i: int| 0 <= i < bytes@.len() ==> ascii_ws(#[trigger] bytes@[i])),
{
    let mut i: usize = 0;
    while i < bytes.len()
        invariant
            i <= bytes@.len(),
            forall|k: int| 0 <= k < i ==> ascii_ws(#[trigger] bytes@[k]),
        decreases bytes@.len() - i,
    {
        let b = bytes[i];
        if !(b == 32u8 || b == 9u8 || b == 10u8 || b == 12u8 || b == 13u8) {
            return false;
        }
        i = i + 1;
    }
    true
}

/// The checkpoint recorded after a halt: the last good checkpoint, marked
/// halted at `sequence` with its reason.
pub fn halted_checkpoint(last_good: &ProjectionCheckpoint, reason: &str, sequence: u64, now: i64) -> (r: ProjectionCheckpoint)
    ensures
        r.stream@ == last_good.stream@,
        r.schema_version == last_good.schema_version,
        r.byte_offset == last_good.byte_offset,
        r.sequence == last_good.sequence,
        heads_view(r.heads@) == heads_view(last_good.heads@),
        r.last_event_id == last_good.last_event_id,
        opt_view(r.last_event_hash) == opt_view(last_good.last_event_hash),
        r.status == ProjectionStatus::Halted,
        opt_view(r.halt_reason) == Some(reason@),
        r.halt_sequence == Some(sequence),
        halted_at(r, reason@, sequence),
        r.rebuild_generation == last_good.rebuild_generation,
        r.updated_at == now,
{
    ProjectionCheckpoint {
        stream: last_good.stream.clone(),
        schema_version: last_good.schema_version,
        byte_offset: last_good.byte_offset,
        sequence: last_good.sequence,
        heads: copy_heads(&last_good.heads),
        last_event_id: last_good.last_event_id,
        last_event_hash: copy_opt(&last_good.last_event_hash),
        status: ProjectionStatus::Halted,
        halt_reason: Some(str_to_string(reason)),
        halt_sequence: Some(sequence),
        rebuild_generation: last_good.rebuild_generation,
        updated_at: now,
    }
}

/// The checkpoint recorded when a run halts on `error` at `sequence`: the
/// last good checkpoint, marked halted, with the error's operator text as the
/// reason.
pub fn halt_for_error(last_good: &ProjectionCheckpoint, error: &ProjectorError, sequence: u64, now: i64) -> (r:
    ProjectionCheckpoint)
    ensures
        r.stream@ == last_good.stream@,
        r.schema_version == last_good.schema_version,
        r.byte_offset == last_good.byte_offset,
        r.sequence == last_good.sequence,
        heads_view(r.heads@) == heads_view(last_good.heads@),
        r.last_event_id == last_good.last_event_id,
        opt_view(r.last_event_hash) == opt_view(last_good.last_event_hash),
        r.status == ProjectionStatus::Halted,
        opt_view(r.halt_reason) == Some(error_text(*error)),
        r.halt_sequence == Some(sequence),
        halted_at(r, error_text(*error), sequence),
        r.rebuild_generation == last_good.rebuild_generation,
        r.updated_at == now,
{
    let reason = error.message();
    halted_checkpoint(last_good, reason.as_str(), sequence, now)
}

/// Heads as plain values.
pub open spec fn heads_view(v: Seq<ProjectionHead>) -> Seq<(u128, Seq<char>)> {
    v.map_values(|h: ProjectionHead| (h.logbook_id, h.head_hash@))
}

fn copy_heads(v: &Vec<ProjectionHead>) -> (r: Vec<ProjectionHead>)
    ensures
        heads_view(r@) == heads_view(v@),
{
    let mut out: Vec<ProjectionHead> = Vec::new();
    let mut i: usize = 0;
    while i < v.len()
        invariant
            i <= v@.len(),
            out@.len() == i,
            heads_view(out@) == heads_view(v@.subrange(0, i as int)),
        decreases v@.len() - i,
    {
        let ghost before = out@;
        out.push(ProjectionHead { logbook_id: v[i].logbook_id, head_hash: v[i].head_hash.clone() });
        assert(v@.subrange(0, i + 1) =~= v@.subrange(0, i as int).push(v@[i as int]));
        assert(out@ =~= before.push(out@[i as int]));
        assert(heads_view(out@) =~= heads_view(before).push((v@[i as int].logbook_id, v@[i as int].head_hash@)));
        assert(heads_view(v@.subrange(0, i + 1)) =~= heads_view(v@.subrange(0, i as int)).push(
            (v@[i as int].logbook_id, v@[i as int].head_hash@),
        ));
        i = i + 1;
    }
    assert(v@.subrange(0, v@.len() as int) =~= v@);
    out
}


/// The detail of a checkpoint whose recorded hash is not the hash of the
/// entry at its offset.
pub open spec fn mismatch_detail(entry_hash: Seq<char>, recorded: Seq<char>) -> Seq<char> {
    "the entry at the checkpoint offset hashes to "@ + entry_hash + " but the checkpoint recorded "@ + recorded
}

/// What a chain-verified entry ending at `end_offset` may do: `Some(true)`
/// to be replayed into memory only (an earlier run projected it),
/// `Some(false)` to be projected, `None` refused, the log having been
/// rewritten under the checkpoint.
pub open spec fn entry_admission(boundary_verified: bool, resume_offset: u64, end_offset: u64) -> Option<bool> {
    if end_offset > resume_offset && !boundary_verified {
        None
    } else {
        Some(end_offset <= resume_offset)
    }
}

/// Until a run has met the entry ending at the checkpoint offset with the
/// recorded hash, it projects nothing: every entry past the checkpoint
/// offset is refused as a rewritten log.
pub proof fn law_unverified_boundary_projects_nothing(resume_offset: u64, end_offset: u64)
    ensures
        entry_admission(false, resume_offset, end_offset) != Some(false),
        end_offset > resume_offset ==> entry_admission(false, resume_offset, end_offset) is None,
{
}

/// Running again over a log that a completed run projected projects nothing
/// again: every entry ending at or before the checkpoint offset is only
/// replayed into memory.
pub proof fn law_replay_up_to_checkpoint_projects_nothing(boundary_verified: bool, resume_offset: u64, end_offset: u64)
    requires
        end_offset <= resume_offset,
    ensures
        entry_admission(boundary_verified, resume_offset, end_offset) == Some(true),
{
}

/// What a line read from the log turned out to be.
#[derive(Debug, Clone, Copy, PartialEq, Eq, Structural)]
pub enum LineStep {
    /// A trailing line without its newline, an append still in progress:
    /// the run stops before it and a later run picks it up.
    PartialTail,
    /// Whitespace only; skipped.
    Blank,
    /// A complete line, the entry with this sequence number.
    Entry { sequence: u64 },
}

/// What to do once a verified entry has been applied.
#[derive(Debug, Clone, Copy, PartialEq, Eq, Structural)]
pub enum EntryStep {
    /// Projected by an earlier run; replayed into memory only.
    Rehydrated,
    /// Projected; the batch has room for more.
    Projected,
    /// Projected, and the batch is full: commit it with the pending checkpoint.
    CommitBatch,
}

/// The decisions of one projection run over the log, entry by entry. The
/// caller reads the lines, parses and applies the events and writes the
/// batches; this state says what each line means and when to commit, halt
/// or refuse.
#[derive(Debug)]
pub struct ProjectionRun {
    pub heads: ChainHeads,
    /// Entries ending at or before this offset were projected by an earlier run.
    pub resume_offset: u64,
    pub batch_size: u64,
    pub sequence: u64,
    /// Whether an entry was seen to end exactly at the resume offset with the
    /// recorded hash, proving the log is still the one the checkpoint describes.
    pub boundary_verified: bool,
    /// Entries projected since the last commit.
    pub dirty_events: u64,
    pub events_verified: u64,
    pub events_projected: u64,
    pub events_rehydrated: u64,
    pub bytes_read: u64,
    pub partial_trailing_bytes: u64,
    /// The checkpoint after the last projected entry.
    pub pending: Option<ProjectionCheckpoint>,
}

/// A checkpoint taken right after the entry ending at `byte_offset`.
pub open spec fn entry_checkpoint(
    c: ProjectionCheckpoint,
    byte_offset: u64,
    sequence: u64,
    heads: Seq<(u128, Seq<char>)>,
    event_id: u128,
    event_hash: Seq<char>,
    rebuild_generation: u64,
    now: i64,
) -> bool {
    &&& c.stream@ == PROJECTION_STREAM_ID@
    &&& c.schema_version == PROJECTION_SCHEMA_VERSION
    &&& c.byte_offset == byte_offset
    &&& c.sequence == sequence
    &&& heads_sorted(heads_view(c.heads@))
    &&& heads_view(c.heads@).to_multiset() == heads.to_multiset()
    &&& c.last_event_id == Some(event_id)
    &&& opt_view(c.last_event_hash) == Some(event_hash)
    &&& c.status == ProjectionStatus::Healthy
    &&& c.halt_reason is None && c.halt_sequence is None
    &&& c.rebuild_generation == rebuild_generation
    &&& c.updated_at == now
}

impl ProjectionRun {
    pub open spec fn wf(&self) -> bool {
        self.heads.wf() && self.batch_size >= 1
    }

    /// Everything but the line bookkeeping is as in `other`.
    pub open spec fn same_entries(&self, other: &Self) -> bool {
        &&& self.heads@ == other.heads@
        &&& self.resume_offset == other.resume_offset
        &&& self.batch_size == other.batch_size
        &&& self.boundary_verified == other.boundary_verified
        &&& self.dirty_events == other.dirty_events
        &&& self.events_verified == other.events_verified
        &&& self.events_projected == other.events_projected
        &&& self.events_rehydrated == other.events_rehydrated
        &&& self.pending == other.pending
    }

    /// A run reading from `start_offset`, with the entries up to
    /// `resume_offset` already projected. Reading from the resume offset
    /// itself continues the checkpoint's numbering; replaying from the start
    /// numbers the entries afresh.
    pub fn start(
        heads: ChainHeads,
        start_offset: u64,
        resume_offset: u64,
        checkpoint_sequence: u64,
        batch_size: usize,
    ) -> (r: Self)
        requires
            heads.wf(),
        ensures
            r.wf(),
            r.heads@ == heads@,
            r.resume_offset == resume_offset,
            r.batch_size == (if batch_size == 0 { 1 } else { batch_size as int }),
            r.sequence == (if start_offset == resume_offset && start_offset > 0 {
                checkpoint_sequence
            } else {
                0
            }),
            r.boundary_verified == (start_offset >= resume_offset),
            r.dirty_events == 0 && r.events_verified == 0 && r.events_projected == 0,
            r.events_rehydrated == 0 && r.bytes_read == 0 && r.partial_trailing_bytes == 0,
            r.pending is None,
    {
        let b: u64 = if batch_size == 0 { 1 } else { batch_size as u64 };
        ProjectionRun {
            heads,
            resume_offset,
            batch_size: b,
            sequence: if start_offset == resume_offset && start_offset > 0 { checkpoint_sequence } else { 0 },
            boundary_verified: start_offset >= resume_offset,
            dirty_events: 0,
            events_verified: 0,
            events_projected: 0,
            events_rehydrated: 0,
            bytes_read: 0,
            partial_trailing_bytes: 0,
            pending: None,
        }
    }

    /// Accounts for the line spanning `start_offset..end_offset` and says what it is.
    pub fn read_line(&mut self, start_offset: u64, end_offset: u64, complete: bool, blank: bool) -> (r: LineStep)
        requires
            start_offset <= end_offset,
            old(self).bytes_read + (end_offset - start_offset) <= u64::MAX,
            complete && !blank ==> old(self).sequence < u64::MAX,
        ensures
            final(self).same_entries(old(self)),
            final(self).bytes_read == old(self).bytes_read + (end_offset - start_offset),
            !complete ==> r == LineStep::PartialTail && final(self).partial_trailing_bytes == end_offset
                - start_offset && final(self).sequence == old(self).sequence,
            complete && blank ==> r == LineStep::Blank && final(self).partial_trailing_bytes
                == old(self).partial_trailing_bytes && final(self).sequence == old(self).sequence,
            complete && !blank ==> r == (LineStep::Entry { sequence: (old(self).sequence + 1) as u64 })
                && final(self).sequence == old(self).sequence + 1 && final(self).partial_trailing_bytes
                == old(self).partial_trailing_bytes,
    {
        self.bytes_read = self.bytes_read + (end_offset - start_offset);
        if !complete {
            self.partial_trailing_bytes = end_offset - start_offset;
            return LineStep::PartialTail;
        }
        if blank {
            return LineStep::Blank;
        }
        self.sequence = self.sequence + 1;
        LineStep::Entry { sequence: self.sequence }
    }

    /// A complete line that is not an event halts the run at its entry.
    pub fn malformed(&self, offset: u64, message: String) -> (r: ProjectorError)
        ensures
            r matches ProjectorError::MalformedEvent { sequence, offset: o, message: m } && sequence
                == self.sequence && o == offset && m@ == message@,
    {
        ProjectorError::MalformedEvent { sequence: self.sequence, offset, message }
    }

    /// On a halt, whether the entries projected since the last commit are
    /// committed first: they are legitimate, and the pending checkpoint
    /// becomes the last good one.
    pub fn halt_commits_pending(&self) -> (r: bool)
        ensures
            r == (self.dirty_events > 0),
    {
        self.dirty_events > 0
    }

    /// Checks the entry spanning `start_offset..end_offset` against its
    /// logbook's chain, and against the checkpoint boundary. `Ok(true)` means
    /// the entry was projected by an earlier run.
    pub fn verify_entry(
        &mut self,
        start_offset: u64,
        end_offset: u64,
        logbook_id: u128,
        event_id: u128,
        previous_hash: &Option<String>,
        event_hash: &String,
        hash_valid: bool,
    ) -> (r: Result<bool, ProjectorError>)
        requires
            old(self).wf(),
            old(self).events_verified < u64::MAX,
        ensures
            final(self).wf(),
            final(self).resume_offset == old(self).resume_offset,
            final(self).batch_size == old(self).batch_size,
            final(self).sequence == old(self).sequence,
            final(self).boundary_verified == old(self).boundary_verified,
            final(self).dirty_events == old(self).dirty_events,
            final(self).events_projected == old(self).events_projected,
            final(self).events_rehydrated == old(self).events_rehydrated,
            final(self).bytes_read == old(self).bytes_read,
            final(self).partial_trailing_bytes == old(self).partial_trailing_bytes,
            final(self).pending == old(self).pending,
            !hash_valid ==> (r matches Err(ProjectorError::BrokenChain { sequence, offset, source })
                && sequence == old(self).sequence && offset == start_offset && source@
                == ChainBreakView::InvalidHash { event_id }) && final(self).heads@ == old(self).heads@
                && final(self).events_verified == old(self).events_verified,
            hash_valid && opt_view(*previous_hash) != head_for(old(self).heads@, logbook_id) ==> (r matches Err(
                ProjectorError::BrokenChain { sequence, offset, source },
            ) && sequence == old(self).sequence && offset == start_offset && source@
                == (ChainBreakView::PreviousHashMismatch {
                event_id,
                expected: head_for(old(self).heads@, logbook_id),
                actual: opt_view(*previous_hash),
            })) && final(self).heads@ == old(self).heads@ && final(self).events_verified
                == old(self).events_verified,
            hash_valid && opt_view(*previous_hash) == head_for(old(self).heads@, logbook_id) ==> {
                &&& final(self).heads@ == with_head(old(self).heads@, logbook_id, event_hash@)
                &&& final(self).events_verified == old(self).events_verified + 1
                &&& entry_admission(old(self).boundary_verified, old(self).resume_offset, end_offset) is None
                    ==> (r matches Err(ProjectorError::LogRewritten { detail }) && detail@
                    == "no entry ends at the checkpoint offset "@ + decimal_text(old(self).resume_offset as nat)
                    + "; entry "@ + decimal_text(old(self).sequence as nat) + " spans bytes "@ + decimal_text(
                    start_offset as nat,
                ) + ".."@ + decimal_text(end_offset as nat))
                &&& entry_admission(old(self).boundary_verified, old(self).resume_offset, end_offset) matches Some(
                    b,
                ) ==> r == Ok::<bool, ProjectorError>(b)
            },
    {
        match self.heads.verify(logbook_id, event_id, previous_hash, event_hash, hash_valid) {
            Err(source) => {
                return Err(ProjectorError::BrokenChain { sequence: self.sequence, offset: start_offset, source });
            },
            Ok(()) => {},
        }
        self.events_verified = self.events_verified + 1;
        let already_projected = end_offset <= self.resume_offset;
        if !already_projected && !self.boundary_verified {
            let mut detail = str_to_string("no entry ends at the checkpoint offset ");
            append_str(&mut detail, decimal_string(self.resume_offset).as_str());
            append_str(&mut detail, "; entry ");
            append_str(&mut detail, decimal_string(self.sequence).as_str());
            append_str(&mut detail, " spans bytes ");
            append_str(&mut detail, decimal_string(start_offset).as_str());
            append_str(&mut detail, "..");
            append_str(&mut detail, decimal_string(end_offset).as_str());
            return Err(ProjectorError::LogRewritten { detail });
        }
        Ok(already_projected)
    }

    /// An entry projected by an earlier run was replayed. The one ending at
    /// the resume offset must carry the hash the checkpoint recorded.
    pub fn rehydrate(&mut self, end_offset: u64, event_hash: &String, recorded_hash: &Option<String>) -> (r: Result<EntryStep, ProjectorError>)
        requires
            old(self).events_rehydrated < u64::MAX,
        ensures
            final(self).heads@ == old(self).heads@,
            final(self).resume_offset == old(self).resume_offset,
            final(self).batch_size == old(self).batch_size,
            final(self).sequence == old(self).sequence,
            final(self).dirty_events == old(self).dirty_events,
            final(self).events_verified == old(self).events_verified,
            final(self).events_projected == old(self).events_projected,
            final(self).events_rehydrated == old(self).events_rehydrated + 1,
            final(self).bytes_read == old(self).bytes_read,
            final(self).partial_trailing_bytes == old(self).partial_trailing_bytes,
            final(self).pending == old(self).pending,
            end_offset != old(self).resume_offset ==> r == Ok::<EntryStep, ProjectorError>(EntryStep::Rehydrated)
                && final(self).boundary_verified == old(self).boundary_verified,
            end_offset == old(self).resume_offset ==> match opt_view(*recorded_hash) {
                Some(h) if h != event_hash@ => (r matches Err(ProjectorError::LogRewritten { detail }) && detail@
                    == mismatch_detail(event_hash@, h)) && final(self).boundary_verified
                    == old(self).boundary_verified,
                _ => r == Ok::<EntryStep, ProjectorError>(EntryStep::Rehydrated) && final(self).boundary_verified,
            },
    {
        self.events_rehydrated = self.events_rehydrated + 1;
        if end_offset == self.resume_offset {
            match checkpoint_matches(recorded_hash, event_hash) {
                Ok(()) => {
                    self.boundary_verified = true;
                },
                Err(detail) => {
                    return Err(ProjectorError::LogRewritten { detail });
                },
            }
        }
        Ok(EntryStep::Rehydrated)
    }

    /// A new entry, ending at `end_offset`, was projected: the pending
    /// checkpoint moves past it, and a full batch is due for commit.
    pub fn project(
        &mut self,
        end_offset: u64,
        event_id: u128,
        event_hash: &String,
        rebuild_generation: u64,
        now: i64,
    ) -> (r: EntryStep)
        requires
            old(self).wf(),
            old(self).dirty_events < u64::MAX,
            old(self).events_projected < u64::MAX,
        ensures
            final(self).wf(),
            final(self).heads@ == old(self).heads@,
            final(self).resume_offset == old(self).resume_offset,
            final(self).batch_size == old(self).batch_size,
            final(self).sequence == old(self).sequence,
            final(self).boundary_verified == old(self).boundary_verified,
            final(self).events_verified == old(self).events_verified,
            final(self).events_rehydrated == old(self).events_rehydrated,
            final(self).bytes_read == old(self).bytes_read,
            final(self).partial_trailing_bytes == old(self).partial_trailing_bytes,
            final(self).dirty_events == old(self).dirty_events + 1,
            final(self).events_projected == old(self).events_projected + 1,
            final(self).pending matches Some(c) && entry_checkpoint(
                c,
                end_offset,
                old(self).sequence,
                old(self).heads@,
                event_id,
                event_hash@,
                rebuild_generation,
                now,
            ),
            r == (if old(self).dirty_events + 1 >= old(self).batch_size {
                EntryStep::CommitBatch
            } else {
                EntryStep::Projected
            }),
    {
        self.dirty_events = self.dirty_events + 1;
        self.events_projected = self.events_projected + 1;
        let heads = self.heads.checkpoint_heads();
        self.pending = Some(
            ProjectionCheckpoint {
                stream: str_to_string(PROJECTION_STREAM_ID),
                schema_version: PROJECTION_SCHEMA_VERSION,
                byte_offset: end_offset,
                sequence: self.sequence,
                heads,
                last_event_id: Some(event_id),
                last_event_hash: Some(event_hash.clone()),
                status: ProjectionStatus::Healthy,
                halt_reason: None,
                halt_sequence: None,
                rebuild_generation,
                updated_at: now,
            },
        );
        if self.dirty_events >= self.batch_size {
            EntryStep::CommitBatch
        } else {
            EntryStep::Projected
        }
    }

    /// The pending batch was committed.
    pub fn batch_committed(&mut self)
        ensures
            final(self).same_entries_but_dirty(old(self)),
            final(self).dirty_events == 0,
    {
        self.dirty_events = 0;
    }

    /// Everything but the count of uncommitted entries is as in `other`.
    pub open spec fn same_entries_but_dirty(&self, other: &Self) -> bool {
        &&& self.heads@ == other.heads@
        &&& self.resume_offset == other.resume_offset
        &&& self.batch_size == other.batch_size
        &&& self.sequence == other.sequence
        &&& self.boundary_verified == other.boundary_verified
        &&& self.events_verified == other.events_verified
        &&& self.events_projected == other.events_projected
        &&& self.events_rehydrated == other.events_rehydrated
        &&& self.bytes_read == other.bytes_read
        &&& self.partial_trailing_bytes == other.partial_trailing_bytes
        &&& self.pending == other.pending
    }

    /// At the end of the log: the checkpoint boundary must have been seen,
    /// and `Ok(true)` asks for a final commit of the entries still pending.
    pub fn finish(&self) -> (r: Result<bool, ProjectorError>)
        ensures
            self.boundary_verified ==> r == Ok::<bool, ProjectorError>(self.dirty_events > 0),
            !self.boundary_verified ==> (r matches Err(ProjectorError::LogRewritten { detail }) && detail@
                == "the log ended before the checkpoint offset "@ + decimal_text(self.resume_offset as nat)
                + "; "@ + decimal_text(self.events_verified as nat) + " entries were replayed"@),
    {
        if !self.boundary_verified {
            let mut detail = str_to_string("the log ended before the checkpoint offset ");
            append_str(&mut detail, decimal_string(self.resume_offset).as_str());
            append_str(&mut detail, "; ");
            append_str(&mut detail, decimal_string(self.events_verified).as_str());
            append_str(&mut detail, " entries were replayed");
            return Err(ProjectorError::LogRewritten { detail });
        }
        Ok(self.dirty_events > 0)
    }
}

} // verus!
