//! Sync conflict reports: what a pull preview and the local offline queue
//! say an operator must settle before more events are merged or replayed.
use vstd::prelude::*;
use crate::events::{opt_view, copy_opt};
use crate::offline::{
    dependencies_met, dependencies_satisfied, dependency_views, mutation_views, strings_set,
    DependencyView, MutationView, OfflineMutationDependency, OfflineMutationEnvelope,
    OfflineMutationStatus, OFFLINE_MUTATION_SCHEMA_VERSION,
};
use crate::replication::{PreviewPullResponse, ReplicationStatus};
use crate::text::{append_str, str_to_string, views_of};

verus! {

#[derive(Debug, Clone, Copy, PartialEq, Eq, Structural)]
pub enum SyncConflictKind {
    DivergentHeads,
    MissingDependency,
    UnsupportedSchema,
    ConcurrentCorrection,
    TombstoneRestore,
    RevokedDevice,
    ManualReviewRequired,
}

/// One thing that needs review.
#[derive(Debug)]
pub struct SyncConflict {
    pub kind: SyncConflictKind,
    pub message: String,
    pub related_operation_ids: Vec<u128>,
    pub related_event_hashes: Vec<String>,
    pub safe_auto_merge: bool,
    pub requires_user_action: bool,
    pub resolution_options: Vec<String>,
}

pub struct ConflictView {
    pub kind: SyncConflictKind,
    pub message: Seq<char>,
    pub related_operation_ids: Seq<u128>,
    pub related_event_hashes: Seq<Seq<char>>,
    pub safe_auto_merge: bool,
    pub requires_user_action: bool,
    pub resolution_options: Seq<Seq<char>>,
}

impl View for SyncConflict {
    type V = ConflictView;

    open spec fn view(&self) -> ConflictView {
        ConflictView {
            kind: self.kind,
            message: self.message@,
            related_operation_ids: self.related_operation_ids@,
            related_event_hashes: views_of(self.related_event_hashes@),
            safe_auto_merge: self.safe_auto_merge,
            requires_user_action: self.requires_user_action,
            resolution_options: views_of(self.resolution_options@),
        }
    }
}

pub open spec fn conflict_views(v: Seq<SyncConflict>) -> Seq<ConflictView> {
    v.map_values(|c: SyncConflict| c@)
}

/// A conflict report for one logbook and peer.
#[derive(Debug)]
pub struct SyncConflictReport {
    pub schema_version: u32,
    pub created_at: i64,
    pub logbook_id: u128,
    pub peer_id: String,
    pub status: ReplicationStatus,
    pub local_head_hash: Option<String>,
    pub remote_head_hash: Option<String>,
    pub missing_event_count: usize,
    pub pending_operation_count: usize,
    pub conflicts: Vec<SyncConflict>,
    pub recommended_action: String,
}

/// The mutations of the logbook not yet accepted, in order.
pub open spec fn pending_of(ms: Seq<MutationView>, logbook_id: u128) -> Seq<MutationView>
    decreases ms.len(),
{
    if ms.len() == 0 {
        Seq::empty()
    } else {
        let rest = pending_of(ms.drop_last(), logbook_id);
        let m = ms.last();
        if m.logbook_id == logbook_id && m.status != OfflineMutationStatus::Accepted {
            rest.push(m)
        } else {
            rest
        }
    }
}

/// A dependency that has to arrive before the mutation drains: one naming
/// an operation or an event, or asking for a newer schema.
pub open spec fn awaits(d: DependencyView) -> bool {
    d.operation_id is Some || d.event_hash is Some || (d.minimum_schema_version matches Some(v) && v
        > OFFLINE_MUTATION_SCHEMA_VERSION)
}

pub open spec fn awaited(deps: Seq<DependencyView>) -> Seq<DependencyView>
    decreases deps.len(),
{
    if deps.len() == 0 {
        Seq::empty()
    } else {
        let rest = awaited(deps.drop_last());
        if awaits(deps.last()) {
            rest.push(deps.last())
        } else {
            rest
        }
    }
}

pub open spec fn operation_ids_of(deps: Seq<DependencyView>) -> Seq<u128>
    decreases deps.len(),
{
    if deps.len() == 0 {
        Seq::empty()
    } else {
        let rest = operation_ids_of(deps.drop_last());
        match deps.last().operation_id {
            Some(op) => rest.push(op),
            None => rest,
        }
    }
}

pub open spec fn event_hashes_of(deps: Seq<DependencyView>) -> Seq<Seq<char>>
    decreases deps.len(),
{
    if deps.len() == 0 {
        Seq::empty()
    } else {
        let rest = event_hashes_of(deps.drop_last());
        match deps.last().event_hash {
            Some(h) => rest.push(h),
            None => rest,
        }
    }
}

pub open spec fn divergence_options() -> Seq<Seq<char>> {
    seq!["review_remote_events"@, "export_divergence_report"@, "create_new_corrective_events"@]
}

pub open spec fn dependency_options() -> Seq<Seq<char>> {
    seq!["retry_after_dependency_arrives"@, "mark_user_action_required"@]
}

pub open spec fn dependency_message(operation_id: u128) -> Seq<char> {
    "Offline mutation "@ + crate::ids::uuid_hyphenated_text(operation_id)
        + " cannot drain until its dependencies are accepted"@
}

/// Whether a pending mutation waits on dependencies nothing has accepted yet.
pub open spec fn blocks_on_dependencies(m: MutationView) -> bool {
    awaited(m.dependencies).len() > 0 && !dependencies_met(
        m.dependencies,
        Seq::<u128>::empty().to_set(),
        strings_set(Seq::<String>::empty()),
    )
}

pub open spec fn dependency_conflict(m: MutationView) -> ConflictView {
    ConflictView {
        kind: SyncConflictKind::MissingDependency,
        message: dependency_message(m.operation_id),
        related_operation_ids: operation_ids_of(awaited(m.dependencies)),
        related_event_hashes: event_hashes_of(awaited(m.dependencies)),
        safe_auto_merge: false,
        requires_user_action: true,
        resolution_options: dependency_options(),
    }
}

/// One missing-dependency conflict per pending mutation that blocks on its
/// dependencies, in order.
pub open spec fn dependency_conflicts(pending: Seq<MutationView>) -> Seq<ConflictView>
    decreases pending.len(),
{
    if pending.len() == 0 {
        Seq::empty()
    } else {
        let rest = dependency_conflicts(pending.drop_last());
        if blocks_on_dependencies(pending.last()) {
            rest.push(dependency_conflict(pending.last()))
        } else {
            rest
        }
    }
}

pub open spec fn operation_ids(ms: Seq<MutationView>) -> Seq<u128> {
    ms.map_values(|m: MutationView| m.operation_id)
}

/// A divergent-heads conflict when the preview diverged, then the
/// dependency conflicts of the pending mutations.
pub open spec fn report_conflicts(preview: PreviewPullResponse, pending: Seq<MutationView>) -> Seq<ConflictView> {
    let head = if preview.status == ReplicationStatus::Diverged {
        seq![
            ConflictView {
                kind: SyncConflictKind::DivergentHeads,
                message: preview.message@,
                related_operation_ids: operation_ids(pending),
                related_event_hashes: crate::replication::metadata_hashes(preview.events@),
                safe_auto_merge: false,
                requires_user_action: true,
                resolution_options: divergence_options(),
            },
        ]
    } else {
        Seq::empty()
    };
    head + dependency_conflicts(pending)
}

pub open spec fn any_requires_user(cs: Seq<ConflictView>) -> bool {
    exists|i: int| 0 <= i < cs.len() && cs[i].requires_user_action
}

pub open spec fn recommendation(cs: Seq<ConflictView>, status: ReplicationStatus) -> Seq<char> {
    if any_requires_user(cs) {
        "Manual review is required before merging or replaying additional events."@
    } else if status == ReplicationStatus::RemoteAhead {
        "Preview can be pulled because the remote chain contains the local head."@
    } else {
        "No sync conflict requires action."@
    }
}

fn copy_dependency(d: &OfflineMutationDependency) -> (r: OfflineMutationDependency)
    ensures
        r@ == d@,
{
    OfflineMutationDependency {
        operation_id: d.operation_id,
        event_hash: copy_opt(&d.event_hash),
        minimum_schema_version: d.minimum_schema_version,
    }
}

fn awaited_dependencies(deps: &Vec<OfflineMutationDependency>) -> (r: (Vec<u128>, Vec<String>, usize))
    ensures
        r.0@ == operation_ids_of(awaited(dependency_views(deps@))),
        views_of(r.1@) == event_hashes_of(awaited(dependency_views(deps@))),
        r.2 == awaited(dependency_views(deps@)).len(),
{
    let ghost dv = dependency_views(deps@);
    let mut ops: Vec<u128> = Vec::new();
    let mut hashes: Vec<String> = Vec::new();
    let mut count: usize = 0;
    let mut i: usize = 0;
    while i < deps.len()
        invariant
            i <= deps@.len(),
            dv == dependency_views(deps@),
            count <= i,
            ops@ == operation_ids_of(awaited(dv.subrange(0, i as int))),
            views_of(hashes@) == event_hashes_of(awaited(dv.subrange(0, i as int))),
            count == awaited(dv.subrange(0, i as int)).len(),
        decreases deps@.len() - i,
    {
        let ghost pre = dv.subrange(0, i as int);
        let ghost next = dv.subrange(0, i + 1);
        proof {
            assert(next.drop_last() =~= pre);
            assert(next.last() == deps@[i as int]@);
        }
        let d = &deps[i];
        let waits = d.operation_id.is_some() || d.event_hash.is_some() || match d.minimum_schema_version {
            Some(v) => v > OFFLINE_MUTATION_SCHEMA_VERSION,
            None => false,
        };
        if waits {
            let ghost aw = awaited(pre);
            proof {
                assert(awaited(next) == aw.push(d@));
                assert(aw.push(d@).drop_last() =~= aw);
                assert(aw.push(d@).last() == d@);
            }
            if let Some(op) = d.operation_id {
                ops.push(op);
            }
            if let Some(h) = &d.event_hash {
                let ghost before = hashes@;
                hashes.push(h.clone());
                assert(views_of(hashes@) =~= views_of(before).push(h@));
            }
            count = count + 1;
        }
        i = i + 1;
    }
    assert(dv.subrange(0, dv.len() as int) =~= dv);
    (ops, hashes, count)
}

fn option_list(items: &[&'static str]) -> (r: Vec<String>)
    ensures
        r@.len() == items@.len(),
        forall|i: int| 0 <= i < items@.len() ==> (#[trigger] r@[i])@ == items@[i]@,
{
    let mut r: Vec<String> = Vec::new();
    let mut i: usize = 0;
    while i < items.len()
        invariant
            i <= items@.len(),
            r@.len() == i,
            forall|k: int| 0 <= k < i ==> (#[trigger] r@[k])@ == items@[k]@,
        decreases items@.len() - i,
    {
        r.push(str_to_string(items[i]));
        i = i + 1;
    }
    r
}

/// Builds the conflict report of a pull preview against the local queue: a
/// divergent-heads conflict when the preview diverged, then one
/// missing-dependency conflict per pending mutation of the logbook that
/// waits on dependencies, and the recommended action.
#[verifier::spinoff_prover]
pub fn conflict_report_from_preview(
    preview: &PreviewPullResponse,
    local_pending: &Vec<OfflineMutationEnvelope>,
    now: i64,
) -> (r: SyncConflictReport)
    ensures
        ({
            let pending = pending_of(mutation_views(local_pending@), preview.logbook_id);
            let cs = report_conflicts(*preview, pending);
            &&& r.schema_version == 1
            &&& r.created_at == now
            &&& r.logbook_id == preview.logbook_id
            &&& r.peer_id@ == preview.peer_id@
            &&& r.status == preview.status
            &&& opt_view(r.local_head_hash) == opt_view(preview.local_head_hash)
            &&& opt_view(r.remote_head_hash) == opt_view(preview.remote_head_hash)
            &&& r.missing_event_count == preview.missing_event_count
            &&& r.pending_operation_count == pending.len()
            &&& conflict_views(r.conflicts@) == cs
            &&& r.recommended_action@ == recommendation(cs, preview.status)
        }),
{
    let ghost all = mutation_views(local_pending@);
    let empty_ops: Vec<u128> = Vec::new();
    let empty_hashes: Vec<String> = Vec::new();
    // The pending mutations of the logbook, their operation ids, and their
    // dependency conflicts.
    let mut pending_ops: Vec<u128> = Vec::new();
    let mut pending_count: usize = 0;
    let mut dep_conflicts: Vec<SyncConflict> = Vec::new();
    let mut i: usize = 0;
    while i < local_pending.len()
        invariant
            i <= local_pending@.len(),
            all == mutation_views(local_pending@),
            empty_ops@ == Seq::<u128>::empty(),
            empty_hashes@ == Seq::<String>::empty(),
            pending_count <= i,
            pending_count == pending_of(all.subrange(0, i as int), preview.logbook_id).len(),
            pending_ops@ == operation_ids(pending_of(all.subrange(0, i as int), preview.logbook_id)),
            conflict_views(dep_conflicts@) == dependency_conflicts(
                pending_of(all.subrange(0, i as int), preview.logbook_id),
            ),
        decreases local_pending@.len() - i,
    {
        let ghost pre = all.subrange(0, i as int);
        let ghost next = all.subrange(0, i + 1);
        proof {
            assert(next.drop_last() =~= pre);
            assert(next.last() == local_pending@[i as int]@);
        }
        let m = &local_pending[i];
        if m.logbook_id == preview.logbook_id && m.status != OfflineMutationStatus::Accepted {
            let ghost pp = pending_of(pre, preview.logbook_id);
            proof {
                assert(pending_of(next, preview.logbook_id) == pp.push(m@));
                assert(pp.push(m@).drop_last() =~= pp);
                assert(pp.push(m@).last() == m@);
                assert(operation_ids(pp.push(m@)) =~= operation_ids(pp).push(m.operation_id));
            }
            pending_ops.push(m.operation_id);
            pending_count = pending_count + 1;
            let (ops, hashes, count) = awaited_dependencies(&m.dependencies);
            if count > 0 && !dependencies_satisfied(m, &empty_ops, &empty_hashes) {
                let mut message = str_to_string("Offline mutation ");
                let id = crate::ids::uuid_text(m.operation_id);
                append_str(&mut message, id.as_str());
                append_str(&mut message, " cannot drain until its dependencies are accepted");
                let options = option_list(&["retry_after_dependency_arrives", "mark_user_action_required"]);
                let c = SyncConflict {
                    kind: SyncConflictKind::MissingDependency,
                    message,
                    related_operation_ids: ops,
                    related_event_hashes: hashes,
                    safe_auto_merge: false,
                    requires_user_action: true,
                    resolution_options: options,
                };
                let ghost before = dep_conflicts@;
                proof {
                    reveal_strlit("retry_after_dependency_arrives");
                    reveal_strlit("mark_user_action_required");
                    assert(views_of(c.resolution_options@) =~= dependency_options());
                    assert(c@ == dependency_conflict(m@));
                }
                dep_conflicts.push(c);
                assert(conflict_views(dep_conflicts@) =~= conflict_views(before).push(dependency_conflict(m@)));
            }
        }
        i = i + 1;
    }
    assert(all.subrange(0, all.len() as int) =~= all);
    let ghost pending = pending_of(all, preview.logbook_id);
    let mut conflicts: Vec<SyncConflict> = Vec::new();
    if preview.status == ReplicationStatus::Diverged {
        let hashes = crate::replication::metadata_event_hashes(&preview.events);
        let options = option_list(
            &["review_remote_events", "export_divergence_report", "create_new_corrective_events"],
        );
        proof {
            reveal_strlit("review_remote_events");
            reveal_strlit("export_divergence_report");
            reveal_strlit("create_new_corrective_events");
            assert(views_of(options@) =~= divergence_options());
        }
        conflicts.push(
            SyncConflict {
                kind: SyncConflictKind::DivergentHeads,
                message: preview.message.clone(),
                related_operation_ids: pending_ops,
                related_event_hashes: hashes,
                safe_auto_merge: false,
                requires_user_action: true,
                resolution_options: options,
            },
        );
    }
    let ghost head = conflict_views(conflicts@);
    proof {
        lemma_dependency_conflicts_need_user(pending);
        assert forall|k: int| 0 <= k < dep_conflicts@.len() implies (#[trigger] dep_conflicts@[k]).requires_user_action by {
            assert(conflict_views(dep_conflicts@)[k] == dependency_conflicts(pending)[k]);
        }
    }
    let mut any_user = conflicts.len() > 0;
    let mut j: usize = 0;
    let n_head = conflicts.len();
    while j < dep_conflicts.len()
        invariant
            j <= dep_conflicts@.len(),
            n_head == head.len(),
            conflict_views(conflicts@) == head + conflict_views(dep_conflicts@).subrange(0, j as int),
            forall|k: int| 0 <= k < dep_conflicts@.len() ==> (#[trigger] dep_conflicts@[k]).requires_user_action,
            forall|k: int| 0 <= k < head.len() ==> (#[trigger] head[k]).requires_user_action,
            any_user == (conflicts@.len() > 0),
        decreases dep_conflicts@.len() - j,
    {
        let d = &dep_conflicts[j];
        let c = SyncConflict {
            kind: d.kind,
            message: d.message.clone(),
            related_operation_ids: d.related_operation_ids.clone(),
            related_event_hashes: crate::replication::copy_strings(&d.related_event_hashes),
            safe_auto_merge: d.safe_auto_merge,
            requires_user_action: d.requires_user_action,
            resolution_options: crate::replication::copy_strings(&d.resolution_options),
        };
        let ghost before = conflict_views(conflicts@);
        conflicts.push(c);
        proof {
            assert(conflict_views(conflicts@) =~= before.push(conflict_views(dep_conflicts@)[j as int]));
            assert(conflict_views(dep_conflicts@).subrange(0, j + 1) =~= conflict_views(dep_conflicts@).subrange(
                0,
                j as int,
            ).push(conflict_views(dep_conflicts@)[j as int]));
        }
        any_user = true;
        j = j + 1;
    }
    let ghost cs = conflict_views(conflicts@);
    proof {
        assert(conflict_views(dep_conflicts@).subrange(0, dep_conflicts@.len() as int) =~= conflict_views(
            dep_conflicts@,
        ));
        lemma_dependency_conflicts_need_user(pending);
        if any_user {
            assert(cs[0].requires_user_action);
        }
    }
    let recommended_action = if any_user {
        str_to_string("Manual review is required before merging or replaying additional events.")
    } else if preview.status == ReplicationStatus::RemoteAhead {
        str_to_string("Preview can be pulled because the remote chain contains the local head.")
    } else {
        str_to_string("No sync conflict requires action.")
    };
    SyncConflictReport {
        schema_version: 1,
        created_at: now,
        logbook_id: preview.logbook_id,
        peer_id: preview.peer_id.clone(),
        status: preview.status,
        local_head_hash: copy_opt(&preview.local_head_hash),
        remote_head_hash: copy_opt(&preview.remote_head_hash),
        missing_event_count: preview.missing_event_count,
        pending_operation_count: pending_count,
        conflicts,
        recommended_action,
    }
}

proof fn lemma_dependency_conflicts_need_user(pending: Seq<MutationView>)
    ensures
        forall|k: int|
            0 <= k < dependency_conflicts(pending).len() ==> (#[trigger] dependency_conflicts(
                pending,
            )[k]).requires_user_action,
    decreases pending.len(),
{
    if pending.len() > 0 {
        lemma_dependency_conflicts_need_user(pending.drop_last());
    }
}

} // verus!
