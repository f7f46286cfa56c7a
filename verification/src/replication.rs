//! Replication between peers and with the cloud: head comparison, the
//! handshake, pull previews, and the verification of an incoming hash chain.
use vstd::prelude::*;
use crate::events::{
    copy_opt, event_views, metadata_for_event, metadata_of, metadata_views, opt_eq, opt_view,
    EventEnvelope, EventMetadata, EventView, MetadataView,
};
use crate::text::{append_str, decimal_string, decimal_text, str_to_string};

verus! {

pub const PROTOCOL_NAME: &'static str = "ke8ygw-logger-sync";
pub const PROTOCOL_VERSION: u16 = 1;

#[derive(Debug, Clone, Copy, PartialEq, Eq, Structural)]
pub enum ReplicationStatus {
    InSync,
    RemoteAhead,
    Pulled,
    Diverged,
    Rejected,
}

#[derive(Debug, Clone, Copy, PartialEq, Eq, Structural)]
pub enum HeadComparisonStatus {
    Unknown,
    Match,
    LocalAhead,
    RemoteAhead,
    Diverged,
}

/// What a peer or the cloud knows of one logbook's chain.
#[derive(Debug)]
pub struct LogbookHeadSummary {
    pub logbook_id: u128,
    pub head_hash: Option<String>,
    pub event_count: Option<u64>,
}

/// How two heads of one logbook relate.
pub open spec fn head_status(
    local_hash: Option<Seq<char>>,
    remote_hash: Option<Seq<char>>,
    local_count: Option<u64>,
    remote_count: Option<u64>,
) -> HeadComparisonStatus {
    match (local_hash, remote_hash) {
        (None, None) => HeadComparisonStatus::Match,
        (Some(l), Some(r)) => if l == r {
            HeadComparisonStatus::Match
        } else {
            match (local_count, remote_count) {
                (Some(lc), Some(rc)) => if lc > rc {
                    HeadComparisonStatus::LocalAhead
                } else if rc > lc {
                    HeadComparisonStatus::RemoteAhead
                } else {
                    HeadComparisonStatus::Diverged
                },
                _ => HeadComparisonStatus::Unknown,
            }
        },
        (Some(_), None) => HeadComparisonStatus::LocalAhead,
        (None, Some(_)) => HeadComparisonStatus::RemoteAhead,
    }
}

pub open spec fn summary_status(local: LogbookHeadSummary, remote: LogbookHeadSummary) -> HeadComparisonStatus {
    head_status(opt_view(local.head_hash), opt_view(remote.head_hash), local.event_count, remote.event_count)
}

/// The status seen from the other side.
pub open spec fn mirrored(s: HeadComparisonStatus) -> HeadComparisonStatus {
    match s {
        HeadComparisonStatus::LocalAhead => HeadComparisonStatus::RemoteAhead,
        HeadComparisonStatus::RemoteAhead => HeadComparisonStatus::LocalAhead,
        other => other,
    }
}

/// Compares the local and remote heads of a logbook: equal hashes (or none on
/// either side) match; a hash on one side only is ahead; different hashes are
/// ordered by event counts, diverged when the counts are equal and unknown
/// when a count is missing.
pub fn compare_heads(local: &LogbookHeadSummary, remote: &LogbookHeadSummary) -> (r: HeadComparisonStatus)
    ensures
        r == summary_status(*local, *remote),
{
    match (&local.head_hash, &remote.head_hash) {
        (None, None) => HeadComparisonStatus::Match,
        (Some(l), Some(r)) => {
            if l.eq(r) {
                HeadComparisonStatus::Match
            } else {
                match (local.event_count, remote.event_count) {
                    (Some(lc), Some(rc)) => {
                        if lc > rc {
                            HeadComparisonStatus::LocalAhead
                        } else if rc > lc {
                            HeadComparisonStatus::RemoteAhead
                        } else {
                            HeadComparisonStatus::Diverged
                        }
                    },
                    _ => HeadComparisonStatus::Unknown,
                }
            }
        },
        (Some(_), None) => HeadComparisonStatus::LocalAhead,
        (None, Some(_)) => HeadComparisonStatus::RemoteAhead,
    }
}

/// Comparing two heads from the other side gives the mirrored status: who is
/// ahead swaps, and match, divergence and unknown stay as they are.
pub proof fn law_compare_heads_mirror(
    local_hash: Option<Seq<char>>,
    remote_hash: Option<Seq<char>>,
    local_count: Option<u64>,
    remote_count: Option<u64>,
)
    ensures
        head_status(remote_hash, local_hash, remote_count, local_count) == mirrored(
            head_status(local_hash, remote_hash, local_count, remote_count),
        ),
{
}

/// A head compared with itself always matches.
pub proof fn law_compare_heads_reflexive(hash: Option<Seq<char>>, count: Option<u64>)
    ensures
        head_status(hash, hash, count, count) == HeadComparisonStatus::Match,
{
}

/// One logbook known to both sides of a handshake.
#[derive(Debug)]
pub struct LogbookHeadComparison {
    pub logbook_id: u128,
    pub local_head_hash: Option<String>,
    pub remote_head_hash: Option<String>,
    pub local_event_count: Option<u64>,
    pub remote_event_count: Option<u64>,
    pub status: HeadComparisonStatus,
}

pub struct ComparisonView {
    pub logbook_id: u128,
    pub local_head_hash: Option<Seq<char>>,
    pub remote_head_hash: Option<Seq<char>>,
    pub local_event_count: Option<u64>,
    pub remote_event_count: Option<u64>,
    pub status: HeadComparisonStatus,
}

impl View for LogbookHeadComparison {
    type V = ComparisonView;

    open spec fn view(&self) -> ComparisonView {
        ComparisonView {
            logbook_id: self.logbook_id,
            local_head_hash: opt_view(self.local_head_hash),
            remote_head_hash: opt_view(self.remote_head_hash),
            local_event_count: self.local_event_count,
            remote_event_count: self.remote_event_count,
            status: self.status,
        }
    }
}

pub open spec fn comparison_views(v: Seq<LogbookHeadComparison>) -> Seq<ComparisonView> {
    v.map_values(|c: LogbookHeadComparison| c@)
}

#[derive(Debug)]
pub struct HandshakeRequest {
    pub protocol_version: u16,
    pub device_id: u128,
    pub session_id: u128,
    pub supported_capabilities: Vec<String>,
    pub logbooks: Vec<LogbookHeadSummary>,
}

#[derive(Debug)]
pub struct HandshakeResponse {
    pub accepted: bool,
    pub reason: Option<String>,
    pub peer_device_id: u128,
    pub protocol_version: u16,
    pub supported_capabilities: Vec<String>,
    pub matching_logbooks: Vec<LogbookHeadComparison>,
}

/// Index of the first summary of `logbook_id`, or the length when none.
pub open spec fn summary_position(s: Seq<LogbookHeadSummary>, logbook_id: u128) -> int
    decreases s.len(),
{
    if s.len() == 0 {
        0
    } else if s[0].logbook_id == logbook_id {
        0
    } else {
        1 + summary_position(s.drop_first(), logbook_id)
    }
}

proof fn lemma_summary_position(s: Seq<LogbookHeadSummary>, logbook_id: u128, i: int)
    requires
        0 <= i <= s.len(),
        forall|k: int| 0 <= k < i ==> s[k].logbook_id != logbook_id,
        i == s.len() || s[i].logbook_id == logbook_id,
    ensures
        summary_position(s, logbook_id) == i,
    decreases i,
{
    if i > 0 {
        lemma_summary_position(s.drop_first(), logbook_id, i - 1);
    }
}

pub open spec fn comparison_of(local: LogbookHeadSummary, remote: LogbookHeadSummary) -> ComparisonView {
    ComparisonView {
        logbook_id: local.logbook_id,
        local_head_hash: opt_view(local.head_hash),
        remote_head_hash: opt_view(remote.head_hash),
        local_event_count: local.event_count,
        remote_event_count: remote.event_count,
        status: summary_status(local, remote),
    }
}

/// For each local head, in order, the comparison with the first remote head
/// of the same logbook, when there is one.
pub open spec fn matching_comparisons(local: Seq<LogbookHeadSummary>, remote: Seq<LogbookHeadSummary>) -> Seq<
    ComparisonView,
>
    decreases local.len(),
{
    if local.len() == 0 {
        Seq::empty()
    } else {
        let rest = matching_comparisons(local.drop_last(), remote);
        let p = summary_position(remote, local.last().logbook_id);
        if p < remote.len() {
            rest.push(comparison_of(local.last(), remote[p]))
        } else {
            rest
        }
    }
}

/// A peer's identity on the LAN.
#[derive(Debug)]
pub struct LocalPeerIdentity {
    pub device_id: u128,
    pub session_id: u128,
    pub user_hash: Option<String>,
    pub display_name: String,
    pub capabilities: Vec<String>,
    pub local_api_port: Option<u16>,
}

pub open spec fn default_capabilities() -> Seq<Seq<char>> {
    seq!["discovery.v1"@, "handshake.v1"@, "head-compare.v1"@]
}

/// A copy of a list of strings.
pub fn copy_strings(v: &Vec<String>) -> (r: Vec<String>)
    ensures
        crate::text::views_of(r@) == crate::text::views_of(v@),
{
    let mut r: Vec<String> = Vec::new();
    let mut i: usize = 0;
    while i < v.len()
        invariant
            i <= v@.len(),
            r@.len() == i,
            crate::text::views_of(r@) == crate::text::views_of(v@).subrange(0, i as int),
        decreases v@.len() - i,
    {
        let ghost before = r@;
        r.push(v[i].clone());
        proof {
            assert(r@[i as int]@ == v@[i as int]@);
            assert forall|k: int| 0 <= k < i implies r@[k]@ == v@[k]@ by {
                assert(r@[k] == before[k]);
                assert(crate::text::views_of(before)[k] == crate::text::views_of(v@).subrange(0, i as int)[k]);
            }
        }
        i = i + 1;
        assert(crate::text::views_of(r@) =~= crate::text::views_of(v@).subrange(0, i as int));
    }
    assert(crate::text::views_of(v@).subrange(0, v@.len() as int) =~= crate::text::views_of(v@));
    r
}

impl LocalPeerIdentity {
    /// An identity with fresh random device and session identifiers and the
    /// discovery, handshake and head-comparison capabilities.
    pub fn new(display_name: String, local_api_port: Option<u16>) -> (r: Self)
        ensures
            r.display_name@ == display_name@,
            r.local_api_port == local_api_port,
            r.user_hash is None,
            crate::text::views_of(r.capabilities@) == default_capabilities(),
    {
        let mut capabilities: Vec<String> = Vec::new();
        capabilities.push(str_to_string("discovery.v1"));
        capabilities.push(str_to_string("handshake.v1"));
        capabilities.push(str_to_string("head-compare.v1"));
        assert(crate::text::views_of(capabilities@) =~= default_capabilities());
        LocalPeerIdentity {
            device_id: crate::ids::new_uuid(),
            session_id: crate::ids::new_uuid(),
            user_hash: None,
            display_name,
            capabilities,
            local_api_port,
        }
    }
}

fn copy_summary(s: &LogbookHeadSummary) -> (r: LogbookHeadSummary)
    ensures
        r.logbook_id == s.logbook_id,
        opt_view(r.head_hash) == opt_view(s.head_hash),
        r.event_count == s.event_count,
{
    LogbookHeadSummary { logbook_id: s.logbook_id, head_hash: copy_opt(&s.head_hash), event_count: s.event_count }
}

/// Answers a handshake: a request of another protocol version is refused
/// with "incompatible protocol version"; otherwise every local head that the
/// request also lists is compared with the request's first head of that
/// logbook.
pub fn build_handshake_response(
    local_identity: &LocalPeerIdentity,
    local_heads: &Vec<LogbookHeadSummary>,
    request: &HandshakeRequest,
) -> (r: HandshakeResponse)
    ensures
        r.peer_device_id == local_identity.device_id,
        r.protocol_version == PROTOCOL_VERSION,
        crate::text::views_of(r.supported_capabilities@) == crate::text::views_of(
            local_identity.capabilities@,
        ),
        request.protocol_version != PROTOCOL_VERSION ==> !r.accepted && opt_view(r.reason) == Some(
            "incompatible protocol version"@,
        ) && r.matching_logbooks@.len() == 0,
        request.protocol_version == PROTOCOL_VERSION ==> r.accepted && r.reason is None
            && comparison_views(r.matching_logbooks@) == matching_comparisons(
            local_heads@,
            request.logbooks@,
        ),
{
    let capabilities = copy_strings(&local_identity.capabilities);
    if request.protocol_version != PROTOCOL_VERSION {
        return HandshakeResponse {
            accepted: false,
            reason: Some(str_to_string("incompatible protocol version")),
            peer_device_id: local_identity.device_id,
            protocol_version: PROTOCOL_VERSION,
            supported_capabilities: capabilities,
            matching_logbooks: Vec::new(),
        };
    }
    let mut comparisons: Vec<LogbookHeadComparison> = Vec::new();
    let mut i: usize = 0;
    while i < local_heads.len()
        invariant
            i <= local_heads@.len(),
            comparison_views(comparisons@) == matching_comparisons(
                local_heads@.subrange(0, i as int),
                request.logbooks@,
            ),
        decreases local_heads@.len() - i,
    {
        let local = &local_heads[i];
        let mut j: usize = 0;
        while j < request.logbooks.len() && request.logbooks[j].logbook_id != local.logbook_id
            invariant
                j <= request.logbooks@.len(),
                forall|k: int| 0 <= k < j ==> request.logbooks@[k].logbook_id != local.logbook_id,
            decreases request.logbooks@.len() - j,
        {
            j = j + 1;
        }
        proof {
            lemma_summary_position(request.logbooks@, local.logbook_id, j as int);
            assert(local_heads@.subrange(0, i + 1).drop_last() =~= local_heads@.subrange(0, i as int));
        }
        let ghost before = comparisons@;
        if j < request.logbooks.len() {
            let remote = &request.logbooks[j];
            let status = compare_heads(local, remote);
            comparisons.push(
                LogbookHeadComparison {
                    logbook_id: local.logbook_id,
                    local_head_hash: copy_opt(&local.head_hash),
                    remote_head_hash: copy_opt(&remote.head_hash),
                    local_event_count: local.event_count,
                    remote_event_count: remote.event_count,
                    status,
                },
            );
            assert(comparison_views(comparisons@) =~= comparison_views(before).push(
                comparison_of(*local, *remote),
            ));
        }
        i = i + 1;
    }
    assert(local_heads@.subrange(0, local_heads@.len() as int) =~= local_heads@);
    HandshakeResponse {
        accepted: true,
        reason: None,
        peer_device_id: local_identity.device_id,
        protocol_version: PROTOCOL_VERSION,
        supported_capabilities: capabilities,
        matching_logbooks: comparisons,
    }
}

// ---------------------------------------------------------------------------
// Pull previews and chain verification.
// ---------------------------------------------------------------------------

/// The events of one logbook, in order.
pub open spec fn events_in_logbook(es: Seq<EventView>, logbook_id: u128) -> Seq<EventView>
    decreases es.len(),
{
    if es.len() == 0 {
        Seq::empty()
    } else {
        let rest = events_in_logbook(es.drop_last(), logbook_id);
        if es.last().logbook_id == logbook_id {
            rest.push(es.last())
        } else {
            rest
        }
    }
}

/// Index of the first event with the hash, or the length when none has it.
pub open spec fn hash_position(es: Seq<EventView>, h: Seq<char>) -> int
    decreases es.len(),
{
    if es.len() == 0 {
        0
    } else if es[0].event_hash == h {
        0
    } else {
        1 + hash_position(es.drop_first(), h)
    }
}

proof fn lemma_hash_position(es: Seq<EventView>, h: Seq<char>, i: int)
    requires
        0 <= i <= es.len(),
        forall|k: int| 0 <= k < i ==> es[k].event_hash != h,
        i == es.len() || es[i].event_hash == h,
    ensures
        hash_position(es, h) == i,
    decreases i,
{
    if i > 0 {
        lemma_hash_position(es.drop_first(), h, i - 1);
    }
}

/// The events after the local head: all of them without a local head, the
/// tail after the first event carrying the local head's hash, `None` when no
/// event carries it (the chains diverged).
pub open spec fn missing_after(es: Seq<EventView>, local_head: Option<Seq<char>>) -> Option<Seq<EventView>> {
    match local_head {
        None => Some(es),
        Some(h) => {
            let p = hash_position(es, h);
            if p < es.len() {
                Some(es.skip(p + 1))
            } else {
                None
            }
        },
    }
}

pub open spec fn head_of(es: Seq<EventView>) -> Option<Seq<char>> {
    if es.len() == 0 {
        None
    } else {
        Some(es.last().event_hash)
    }
}

/// The events of `events` in one logbook, copied in order.
pub fn events_for_logbook(events: &Vec<EventEnvelope>, logbook_id: u128) -> (r: Vec<EventEnvelope>)
    ensures
        event_views(r@) == events_in_logbook(event_views(events@), logbook_id),
{
    let ghost es = event_views(events@);
    let mut r: Vec<EventEnvelope> = Vec::new();
    let mut i: usize = 0;
    while i < events.len()
        invariant
            i <= events@.len(),
            es == event_views(events@),
            event_views(r@) == events_in_logbook(es.subrange(0, i as int), logbook_id),
        decreases events@.len() - i,
    {
        proof {
            assert(es.subrange(0, i + 1).drop_last() =~= es.subrange(0, i as int));
        }
        if events[i].logbook_id == logbook_id {
            let ghost before = r@;
            r.push(events[i].copy());
            assert(event_views(r@) =~= event_views(before).push(es[i as int]));
        }
        i = i + 1;
    }
    assert(es.subrange(0, es.len() as int) =~= es);
    r
}

fn find_hash(events: &Vec<EventEnvelope>, h: &String) -> (r: usize)
    ensures
        r == hash_position(event_views(events@), h@),
        r <= events@.len(),
{
    let mut i: usize = 0;
    while i < events.len() && !events[i].event_hash.eq(h)
        invariant
            i <= events@.len(),
            forall|k: int| 0 <= k < i ==> events@[k]@.event_hash != h@,
        decreases events@.len() - i,
    {
        i = i + 1;
    }
    proof {
        lemma_hash_position(event_views(events@), h@, i as int);
    }
    i
}

fn copy_from(events: &Vec<EventEnvelope>, from: usize) -> (r: Vec<EventEnvelope>)
    requires
        from <= events@.len(),
    ensures
        event_views(r@) == event_views(events@).skip(from as int),
{
    let mut r: Vec<EventEnvelope> = Vec::new();
    let mut i: usize = from;
    while i < events.len()
        invariant
            from <= i <= events@.len(),
            event_views(r@) == event_views(events@).subrange(from as int, i as int),
        decreases events@.len() - i,
    {
        let ghost before = r@;
        r.push(events[i].copy());
        assert(event_views(r@) =~= event_views(before).push(events@[i as int]@));
        i = i + 1;
        assert(event_views(r@) =~= event_views(events@).subrange(from as int, i as int));
    }
    r
}

/// The events after the local head, `None` when the chains diverged.
pub fn missing_events_after(events: &Vec<EventEnvelope>, local_head_hash: &Option<String>) -> (r: Option<
    Vec<EventEnvelope>,
>)
    ensures
        match missing_after(event_views(events@), opt_view(*local_head_hash)) {
            None => r is None,
            Some(m) => r matches Some(v) && event_views(v@) == m,
        },
{
    match local_head_hash {
        None => {
            let v = crate::events::copy_events(events);
            Some(v)
        },
        Some(h) => {
            let p = find_hash(events, h);
            if p < events.len() {
                Some(copy_from(events, p + 1))
            } else {
                None
            }
        },
    }
}

/// Whether the remote list is exactly the tail after the local head: its
/// first event links to the local head.
pub open spec fn is_missing_tail(es: Seq<EventView>, local_head: Option<Seq<char>>) -> bool {
    match local_head {
        Some(h) => es.len() > 0 && es[0].previous_hash == Some(h),
        None => false,
    }
}

pub fn remote_events_are_missing_tail(events: &Vec<EventEnvelope>, local_head_hash: &Option<String>) -> (r:
    bool)
    ensures
        r == is_missing_tail(event_views(events@), opt_view(*local_head_hash)),
{
    match local_head_hash {
        Some(h) => {
            if events.len() == 0 {
                false
            } else {
                match &events[0].previous_hash {
                    Some(p) => p.eq(h),
                    None => false,
                }
            }
        },
        None => false,
    }
}

/// A request to preview what a pull would bring.
#[derive(Debug)]
pub struct PreviewPullRequest {
    pub peer_id: String,
    pub logbook_id: u128,
    pub local_head_hash: Option<String>,
}

/// What a pull would bring.
#[derive(Debug)]
pub struct PreviewPullResponse {
    pub peer_id: String,
    pub logbook_id: u128,
    pub status: ReplicationStatus,
    pub local_head_hash: Option<String>,
    pub remote_head_hash: Option<String>,
    pub missing_event_count: usize,
    pub remote_event_count: usize,
    pub events: Vec<EventMetadata>,
    pub message: String,
}

pub open spec fn metadata_of_all(es: Seq<EventView>) -> Seq<MetadataView> {
    es.map_values(|e: EventView| metadata_of(e))
}

fn metadata_list(events: &Vec<EventEnvelope>) -> (r: Vec<EventMetadata>)
    ensures
        metadata_views(r@) == metadata_of_all(event_views(events@)),
{
    let mut r: Vec<EventMetadata> = Vec::new();
    let mut i: usize = 0;
    while i < events.len()
        invariant
            i <= events@.len(),
            metadata_views(r@) == metadata_of_all(event_views(events@)).subrange(0, i as int),
        decreases events@.len() - i,
    {
        let ghost before = r@;
        r.push(metadata_for_event(&events[i]));
        assert(metadata_views(r@) =~= metadata_views(before).push(metadata_of(events@[i as int]@)));
        i = i + 1;
        assert(metadata_views(r@) =~= metadata_of_all(event_views(events@)).subrange(0, i as int));
    }
    assert(metadata_of_all(event_views(events@)).subrange(0, events@.len() as int)
        =~= metadata_of_all(event_views(events@)));
    r
}

/// "{n} remote events are available to pull".
pub open spec fn available_message(n: nat) -> Seq<char> {
    decimal_text(n) + " remote events are available to pull"@
}

/// Previews a pull from the remote events of the request's logbook: in sync
/// when the heads are equal, diverged when the remote chain lacks the local
/// head, and otherwise remote-ahead with the metadata of the missing events.
pub fn preview_pull_from_events(request: PreviewPullRequest, remote_events: &Vec<EventEnvelope>) -> (r:
    PreviewPullResponse)
    ensures
        ({
            let es = events_in_logbook(event_views(remote_events@), request.logbook_id);
            let local = opt_view(request.local_head_hash);
            &&& r.peer_id@ == request.peer_id@
            &&& r.logbook_id == request.logbook_id
            &&& opt_view(r.local_head_hash) == local
            &&& opt_view(r.remote_head_hash) == head_of(es)
            &&& r.remote_event_count == es.len()
            &&& local == head_of(es) ==> r.status == ReplicationStatus::InSync
                && r.missing_event_count == 0 && r.events@.len() == 0 && r.message@
                == "Local and remote heads match"@
            &&& local != head_of(es) && missing_after(es, local) is None ==> r.status
                == ReplicationStatus::Diverged && r.missing_event_count == 0 && r.events@.len() == 0
                && r.message@ == "Remote chain does not contain the local head"@
            &&& local != head_of(es) && missing_after(es, local) is Some ==> r.status
                == ReplicationStatus::RemoteAhead && r.missing_event_count == missing_after(
                es,
                local,
            ).unwrap().len() && metadata_views(r.events@) == metadata_of_all(
                missing_after(es, local).unwrap(),
            ) && r.message@ == available_message(missing_after(es, local).unwrap().len())
        }),
{
    let remote = events_for_logbook(remote_events, request.logbook_id);
    let ghost es = event_views(remote@);
    let remote_head_hash: Option<String> = if remote.len() == 0 {
        None
    } else {
        Some(remote[remote.len() - 1].event_hash.clone())
    };
    assert(opt_view(remote_head_hash) == head_of(es));
    let count = remote.len();
    if opt_eq(&request.local_head_hash, &remote_head_hash) {
        return PreviewPullResponse {
            peer_id: request.peer_id,
            logbook_id: request.logbook_id,
            status: ReplicationStatus::InSync,
            local_head_hash: request.local_head_hash,
            remote_head_hash,
            missing_event_count: 0,
            remote_event_count: count,
            events: Vec::new(),
            message: str_to_string("Local and remote heads match"),
        };
    }
    match missing_events_after(&remote, &request.local_head_hash) {
        None => PreviewPullResponse {
            peer_id: request.peer_id,
            logbook_id: request.logbook_id,
            status: ReplicationStatus::Diverged,
            local_head_hash: request.local_head_hash,
            remote_head_hash,
            missing_event_count: 0,
            remote_event_count: count,
            events: Vec::new(),
            message: str_to_string("Remote chain does not contain the local head"),
        },
        Some(missing) => {
            let n = missing.len();
            let mut message = decimal_string(n as u64);
            append_str(&mut message, " remote events are available to pull");
            PreviewPullResponse {
                peer_id: request.peer_id,
                logbook_id: request.logbook_id,
                status: ReplicationStatus::RemoteAhead,
                local_head_hash: request.local_head_hash,
                remote_head_hash,
                missing_event_count: n,
                remote_event_count: count,
                events: metadata_list(&missing),
                message,
            }
        },
    }
}

/// Why an incoming chain was refused.
#[derive(Debug)]
pub enum ReplicationError {
    LogbookMismatch { event_id: u128, expected_logbook_id: u128, actual_logbook_id: u128 },
    PreviousHashMismatch { event_id: u128, expected: Option<String>, actual: Option<String> },
    Diverged { local_head_hash: Option<String> },
    /// The event store or its validation refused an event, with its message.
    Store(String),
}

pub enum ReplicationErrorView {
    LogbookMismatch { event_id: u128, expected_logbook_id: u128, actual_logbook_id: u128 },
    PreviousHashMismatch { event_id: u128, expected: Option<Seq<char>>, actual: Option<Seq<char>> },
    Diverged { local_head_hash: Option<Seq<char>> },
    Store(Seq<char>),
}

impl View for ReplicationError {
    type V = ReplicationErrorView;

    open spec fn view(&self) -> ReplicationErrorView {
        match self {
            ReplicationError::LogbookMismatch { event_id, expected_logbook_id, actual_logbook_id } =>
                ReplicationErrorView::LogbookMismatch {
                event_id: *event_id,
                expected_logbook_id: *expected_logbook_id,
                actual_logbook_id: *actual_logbook_id,
            },
            ReplicationError::PreviousHashMismatch { event_id, expected, actual } =>
                ReplicationErrorView::PreviousHashMismatch {
                event_id: *event_id,
                expected: opt_view(*expected),
                actual: opt_view(*actual),
            },
            ReplicationError::Diverged { local_head_hash } => ReplicationErrorView::Diverged {
                local_head_hash: opt_view(*local_head_hash),
            },
            ReplicationError::Store(m) => ReplicationErrorView::Store(m@),
        }
    }
}

/// The first refusal met walking an incoming chain: an event of another
/// logbook, an event the validation refused (`refusals[i]` is its message),
/// or an event whose previous hash is not the hash expected before it.
pub open spec fn chain_error(
    logbook_id: u128,
    expected: Option<Seq<char>>,
    es: Seq<EventView>,
    refusals: Seq<Option<Seq<char>>>,
) -> Option<ReplicationErrorView>
    decreases es.len(),
{
    if es.len() == 0 {
        None
    } else if es[0].logbook_id != logbook_id {
        Some(
            ReplicationErrorView::LogbookMismatch {
                event_id: es[0].event_id,
                expected_logbook_id: logbook_id,
                actual_logbook_id: es[0].logbook_id,
            },
        )
    } else if refusals[0] is Some {
        Some(ReplicationErrorView::Store(refusals[0].unwrap()))
    } else if es[0].previous_hash != expected {
        Some(
            ReplicationErrorView::PreviousHashMismatch {
                event_id: es[0].event_id,
                expected,
                actual: es[0].previous_hash,
            },
        )
    } else {
        chain_error(logbook_id, Some(es[0].event_hash), es.drop_first(), refusals.drop_first())
    }
}

/// Every event belongs to the logbook, the first links to `expected`, and
/// each later one to the event before it.
pub open spec fn chain_linked(logbook_id: u128, expected: Option<Seq<char>>, es: Seq<EventView>) -> bool {
    &&& forall|i: int| 0 <= i < es.len() ==> (#[trigger] es[i]).logbook_id == logbook_id
    &&& es.len() > 0 ==> es[0].previous_hash == expected
    &&& forall|i: int| 0 < i < es.len() ==> (#[trigger] es[i]).previous_hash == Some(es[i - 1].event_hash)
}

pub open spec fn refusal_views(v: Seq<Option<String>>) -> Seq<Option<Seq<char>>> {
    v.map_values(|o: Option<String>| opt_view(o))
}

/// Checks that incoming events extend the local head of `logbook_id`;
/// `refusals[i]` is what the event store's validation said of `events[i]`.
pub fn verify_incoming_chain(
    logbook_id: u128,
    local_head_hash: Option<String>,
    events: &Vec<EventEnvelope>,
    refusals: &Vec<Option<String>>,
) -> (r: Result<(), ReplicationError>)
    requires
        refusals@.len() == events@.len(),
    ensures
        match chain_error(logbook_id, opt_view(local_head_hash), event_views(events@), refusal_views(refusals@)) {
            None => r is Ok,
            Some(e) => r matches Err(x) && x@ == e,
        },
{
    let ghost es = event_views(events@);
    let ghost rs = refusal_views(refusals@);
    let mut expected = local_head_hash;
    let mut i: usize = 0;
    assert(es.skip(0) =~= es && rs.skip(0) =~= rs);
    while i < events.len()
        invariant
            i <= events@.len(),
            refusals@.len() == events@.len(),
            es == event_views(events@),
            rs == refusal_views(refusals@),
            chain_error(logbook_id, opt_view(local_head_hash), es, rs) == chain_error(
                logbook_id,
                opt_view(expected),
                es.skip(i as int),
                rs.skip(i as int),
            ),
        decreases events@.len() - i,
    {
        let event = &events[i];
        proof {
            assert(es.skip(i as int)[0] == event@);
            assert(rs.skip(i as int)[0] == opt_view(refusals@[i as int]));
            assert(es.skip(i as int).drop_first() =~= es.skip(i + 1));
            assert(rs.skip(i as int).drop_first() =~= rs.skip(i + 1));
        }
        if event.logbook_id != logbook_id {
            return Err(
                ReplicationError::LogbookMismatch {
                    event_id: event.event_id,
                    expected_logbook_id: logbook_id,
                    actual_logbook_id: event.logbook_id,
                },
            );
        }
        if let Some(m) = &refusals[i] {
            return Err(ReplicationError::Store(m.clone()));
        }
        if !opt_eq(&event.previous_hash, &expected) {
            return Err(
                ReplicationError::PreviousHashMismatch {
                    event_id: event.event_id,
                    expected,
                    actual: copy_opt(&event.previous_hash),
                },
            );
        }
        expected = Some(event.event_hash.clone());
        i = i + 1;
    }
    Ok(())
}

/// A chain that passes verification is linked: every event belongs to the
/// logbook, the first extends the local head and each later event extends
/// the one before it.
pub proof fn law_verified_chain_is_linked(
    logbook_id: u128,
    expected: Option<Seq<char>>,
    es: Seq<EventView>,
    refusals: Seq<Option<Seq<char>>>,
)
    requires
        refusals.len() == es.len(),
        chain_error(logbook_id, expected, es, refusals) is None,
    ensures
        chain_linked(logbook_id, expected, es),
    decreases es.len(),
{
    if es.len() > 0 {
        law_verified_chain_is_linked(logbook_id, Some(es[0].event_hash), es.drop_first(), refusals.drop_first());
        let t = es.drop_first();
        assert forall|i: int| 0 <= i < es.len() implies (#[trigger] es[i]).logbook_id == logbook_id by {
            if i > 0 {
                assert(es[i] == t[i - 1]);
            }
        }
        assert forall|i: int| 0 < i < es.len() implies (#[trigger] es[i]).previous_hash == Some(
            es[i - 1].event_hash,
        ) by {
            assert(es[i] == t[i - 1]);
            if i > 1 {
                assert(es[i - 1] == t[i - 2]);
            }
        }
    }
}

pub open spec fn metadata_hashes(v: Seq<EventMetadata>) -> Seq<Seq<char>> {
    v.map_values(|m: EventMetadata| m.event_hash@)
}

/// The event hashes of a list of metadata, in order.
pub fn metadata_event_hashes(v: &Vec<EventMetadata>) -> (r: Vec<String>)
    ensures
        crate::text::views_of(r@) == metadata_hashes(v@),
{
    let mut r: Vec<String> = Vec::new();
    let mut i: usize = 0;
    while i < v.len()
        invariant
            i <= v@.len(),
            crate::text::views_of(r@) == metadata_hashes(v@).subrange(0, i as int),
        decreases v@.len() - i,
    {
        let ghost before = r@;
        r.push(v[i].event_hash.clone());
        assert(crate::text::views_of(r@) =~= crate::text::views_of(before).push(v@[i as int].event_hash@));
        i = i + 1;
        assert(crate::text::views_of(r@) =~= metadata_hashes(v@).subrange(0, i as int));
    }
    assert(metadata_hashes(v@).subrange(0, v@.len() as int) =~= metadata_hashes(v@));
    r
}

} // verus!
