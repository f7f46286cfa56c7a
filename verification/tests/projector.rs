use ham_sync::projector::{
    check_log_length, check_missing_log, checkpoint_matches, halt_for_error, lease_for,
    lease_may_be_taken, lease_outcome, line_is_blank, line_is_complete, rebuild_checkpoint,
    resume_offset, ChainBreak, ChainHeads, EntryStep, LineStep, ProjectionCheckpoint,
    ProjectionRun, ProjectionStatus, ProjectionWriterLease, ProjectorConfig, ProjectorError,
    DEFAULT_PROJECTION_BATCH_SIZE, PROJECTION_STREAM_ID,
};

const LOGBOOK: u128 = 0x4444_4444_4444_4444_8444_4444_4444_4444;
const LINE: u64 = 100;

/// One log entry: where it sits and how it links.
struct Entry {
    start: u64,
    end: u64,
    id: u128,
    previous: Option<String>,
    hash: String,
    valid: bool,
}

/// A valid chain of `count` entries of one logbook, hashes `{tag}{n}`.
fn chain(tag: &str, count: u64, first_offset: u64) -> Vec<Entry> {
    let mut out = Vec::new();
    let mut previous: Option<String> = None;
    for n in 0..count {
        let hash = format!("{tag}{n}");
        out.push(Entry {
            start: first_offset + n * LINE,
            end: first_offset + (n + 1) * LINE,
            id: 1000 + n as u128,
            previous: previous.clone(),
            hash: hash.clone(),
            valid: true,
        });
        previous = Some(hash);
    }
    out
}

/// Runs entries through the decisions as the projector's loop does,
/// returning the sequence of each committed batch.
fn drive(
    run: &mut ProjectionRun,
    entries: &[Entry],
    recorded_hash: &Option<String>,
    generation: u64,
) -> Result<Vec<u64>, ProjectorError> {
    let mut commits = Vec::new();
    for e in entries {
        match run.read_line(e.start, e.end, true, false) {
            LineStep::Entry { .. } => {}
            other => panic!("unexpected line step {other:?}"),
        }
        let already = run.verify_entry(e.start, e.end, LOGBOOK, e.id, &e.previous, &e.hash, e.valid)?;
        if already {
            run.rehydrate(e.end, &e.hash, recorded_hash)?;
        } else if run.project(e.end, e.id, &e.hash, generation, 7) == EntryStep::CommitBatch {
            commits.push(run.pending.as_ref().expect("pending checkpoint").sequence);
            run.batch_committed();
        }
    }
    if run.finish()? {
        commits.push(run.pending.as_ref().expect("pending checkpoint").sequence);
        run.batch_committed();
    }
    Ok(commits)
}

fn fresh_run(batch_size: usize) -> ProjectionRun {
    ProjectionRun::start(ChainHeads::new(), 0, 0, 0, batch_size)
}

#[test]
fn broken_hash_chain_halts_at_the_break_and_reports_it() {
    let mut entries = chain("h", 3, 0);
    entries[1].previous = Some("0".repeat(64));
    entries[2].previous = Some(entries[1].hash.clone());
    let mut run = fresh_run(4);
    let error = drive(&mut run, &entries, &None, 1).expect_err("broken chain must halt the run");
    let message = error.message();
    match &error {
        ProjectorError::BrokenChain { sequence, offset, source } => {
            assert_eq!(*sequence, 2);
            assert_eq!(*offset, LINE);
            match source {
                ChainBreak::PreviousHashMismatch { expected, actual, .. } => {
                    assert_eq!(expected.as_deref(), Some("h0"));
                    assert_eq!(actual.as_deref(), Some("0".repeat(64).as_str()));
                }
                other => panic!("unexpected chain break {other:?}"),
            }
        }
        other => panic!("unexpected error {other:?}"),
    }
    // The message is unambiguous rather than a line that scrolls by.
    assert!(message.contains("PROJECTION HALTED"), "{message}");
    assert!(message.contains("hash chain is broken"), "{message}");
    // The good entry before the break is committed; nothing after it is.
    assert!(run.halt_commits_pending());
    let last_good = run.pending.as_ref().expect("pending checkpoint");
    assert_eq!(last_good.sequence, 1);
    assert_eq!(last_good.byte_offset, LINE);
    // The halt is durable: the checkpoint records it with the error's text.
    let halted = halt_for_error(last_good, &error, 2, 9);
    assert_eq!(halted.status, ProjectionStatus::Halted);
    assert_eq!(halted.halt_sequence, Some(2));
    assert!(halted.halt_reason.as_deref().expect("halt reason").contains("hash chain is broken"));
    assert_eq!(halted.sequence, 1, "checkpoint holds the last good entry");
    assert!(halted.is_halted());
    // A halted projection refuses to advance until an operator intervenes.
    match resume_offset(&halted) {
        Err(ProjectorError::Halted { sequence, reason }) => {
            assert_eq!(sequence, 2);
            assert_eq!(Some(reason), halted.halt_reason.clone());
        }
        other => panic!("halted projection must not resume: {other:?}"),
    }
}

#[test]
fn invalid_entry_hash_breaks_the_chain() {
    let mut entries = chain("h", 2, 0);
    entries[1].valid = false;
    let mut run = fresh_run(4);
    match drive(&mut run, &entries, &None, 1) {
        Err(ProjectorError::BrokenChain { sequence: 2, source: ChainBreak::InvalidHash { event_id }, .. }) => {
            assert_eq!(event_id, 1001)
        }
        other => panic!("unexpected outcome {other:?}"),
    }
}

#[test]
fn malformed_complete_line_halts_instead_of_being_skipped() {
    let mut run = fresh_run(4);
    drive(&mut run, &chain("h", 1, 0), &None, 1).expect("good entry");
    let bytes = b"{\"event_id\": \"not-a-valid-event\"}\n".to_vec();
    assert!(line_is_complete(&bytes));
    assert!(!line_is_blank(&bytes));
    let step = run.read_line(LINE, LINE + bytes.len() as u64, true, false);
    assert_eq!(step, LineStep::Entry { sequence: 2 });
    let error = run.malformed(LINE, "expected value".to_owned());
    match &error {
        ProjectorError::MalformedEvent { sequence, offset, message } => {
            assert_eq!(*sequence, 2);
            assert_eq!(*offset, LINE);
            assert_eq!(message, "expected value");
        }
        other => panic!("unexpected error {other:?}"),
    }
    assert!(error.message().contains("PROJECTION HALTED"));
    let last_good = run.pending.as_ref().expect("the good entry is committed");
    assert_eq!(last_good.sequence, 1);
    let halted = halt_for_error(last_good, &error, 2, 9);
    assert_eq!(halted.status, ProjectionStatus::Halted);
}

#[test]
fn truncated_trailing_line_is_not_corruption_and_does_not_block_startup() {
    // Two finished entries, then a third cut short mid-JSON by the writer.
    let entries = chain("h", 3, 0);
    let mut run = fresh_run(4);
    for e in &entries[..2] {
        assert!(matches!(run.read_line(e.start, e.end, true, false), LineStep::Entry { .. }));
        let already = run.verify_entry(e.start, e.end, LOGBOOK, e.id, &e.previous, &e.hash, e.valid).expect("valid");
        assert!(!already);
        assert_eq!(run.project(e.end, e.id, &e.hash, 1, 7), EntryStep::Projected);
    }
    let partial = b"{\"event_id\":".to_vec();
    assert!(!line_is_complete(&partial));
    let step = run.read_line(2 * LINE, 2 * LINE + partial.len() as u64, false, false);
    assert_eq!(step, LineStep::PartialTail);
    assert_eq!(run.partial_trailing_bytes, partial.len() as u64);
    assert_eq!(run.sequence, 2);
    assert_eq!(run.bytes_read, 2 * LINE + partial.len() as u64);

    // The truncated tail does not fail the run: the two entries commit, and
    // the checkpoint stops before the partial bytes.
    assert!(matches!(run.finish(), Ok(true)));
    run.batch_committed();
    assert_eq!(run.events_projected, 2);
    let checkpoint = run.pending.take().expect("checkpoint");
    assert_eq!(checkpoint.status, ProjectionStatus::Healthy);
    assert_eq!(checkpoint.byte_offset, run.bytes_read - run.partial_trailing_bytes);

    // Once the writer finishes the entry, the next run picks it up.
    let mut next = ProjectionRun::start(run.heads, checkpoint.byte_offset, checkpoint.byte_offset, checkpoint.sequence, 4);
    let commits = drive(&mut next, &entries[2..], &checkpoint.last_event_hash, 1).expect("completed entry projects");
    assert_eq!(commits, vec![3]);
    assert_eq!(next.events_projected, 1);
    assert_eq!(next.partial_trailing_bytes, 0);
}

#[test]
fn blank_lines_hold_no_entry() {
    assert!(line_is_blank(&b" \t\r\n".to_vec()));
    assert!(line_is_blank(&Vec::new()));
    assert!(!line_is_blank(&b" x\n".to_vec()));
    let mut run = fresh_run(4);
    assert_eq!(run.read_line(0, 3, true, true), LineStep::Blank);
    assert_eq!(run.sequence, 0);
    assert_eq!(run.bytes_read, 3);
}

#[test]
fn restarting_between_batches_leaves_no_duplicate_or_missing_rows() {
    // First run projects one full batch of four, then the process stops.
    let first = chain("h", 4, 0);
    let mut run = fresh_run(4);
    let commits = drive(&mut run, &first, &None, 1).expect("first run");
    assert_eq!(commits, vec![4]);
    assert_eq!(run.events_projected, 4);
    let checkpoint = run.pending.take().expect("checkpoint");
    assert_eq!(checkpoint.sequence, 4);
    assert_eq!(checkpoint.byte_offset, 4 * LINE);
    assert_eq!(checkpoint.last_event_hash.as_deref(), Some("h3"));

    // More history lands; a cold projector replays from the start.
    let all = chain("h", 8, 0);
    let mut resumed = ProjectionRun::start(ChainHeads::new(), 0, checkpoint.byte_offset, checkpoint.sequence, 4);
    let commits = drive(&mut resumed, &all, &checkpoint.last_event_hash, 1).expect("resumed run");
    assert_eq!(resumed.events_rehydrated, 4, "already-projected entries are replayed for state");
    assert_eq!(resumed.events_projected, 4);
    assert_eq!(commits, vec![8]);
    let checkpoint = resumed.pending.take().expect("checkpoint");
    assert_eq!(checkpoint.sequence, 8);
    assert_eq!(checkpoint.status, ProjectionStatus::Healthy);
    assert_eq!(checkpoint.heads.len(), 1);
    assert_eq!(checkpoint.heads[0].logbook_id, LOGBOOK);
    assert_eq!(checkpoint.heads[0].head_hash, "h7");

    // A warm run from the checkpoint with nothing new is a no-op.
    let idle = ProjectionRun::start(resumed.heads, 8 * LINE, 8 * LINE, 8, 4);
    assert_eq!(idle.sequence, 8);
    assert!(idle.boundary_verified);
    assert!(matches!(idle.finish(), Ok(false)));
}

#[test]
fn full_rebuild_wipes_and_replays_from_the_start() {
    let fresh = rebuild_checkpoint(1, 5);
    assert_eq!(fresh.rebuild_generation, 2, "each rebuild is a new generation");
    assert_eq!(fresh.sequence, 0);
    assert_eq!(fresh.byte_offset, 0);
    assert_eq!(fresh.stream, PROJECTION_STREAM_ID);
    assert_eq!(rebuild_checkpoint(u64::MAX, 5).rebuild_generation, u64::MAX);
    let mut run = fresh_run(4);
    drive(&mut run, &chain("h", 1, 0), &None, fresh.rebuild_generation).expect("rebuild run");
    assert_eq!(run.events_rehydrated, 0, "a rebuild replays everything");
    assert_eq!(run.events_projected, 1);
    assert_eq!(run.pending.as_ref().expect("checkpoint").rebuild_generation, 2);
}

#[test]
fn second_writer_is_refused_the_projection_lease() {
    let mut first = ProjectorConfig::new_with_writer("/tmp/official.jsonl".to_owned(), 1);
    first.lock_ttl_seconds = 60;
    let lease = lease_for(&first, 1_000);
    assert_eq!(lease.expires_at_ms, 61_000);
    assert_eq!(lease.holder, first.writer_id);
    let second = ProjectorConfig::new_with_writer("/tmp/official.jsonl".to_owned(), 2);
    assert!(!lease_may_be_taken(&Some(lease), &second.writer_id, 2_000));
    let held = ProjectionWriterLease {
        stream: PROJECTION_STREAM_ID.to_owned(),
        holder: first.writer_id.clone(),
        acquired_at_ms: 1_000,
        expires_at_ms: 61_000,
    };
    match lease_outcome(Some(held), &second.writer_id, 2_000) {
        Err(ProjectorError::WriterLeaseHeld { holder, expires_at_ms }) => {
            assert_eq!(holder, first.writer_id);
            assert_eq!(expires_at_ms, 61_000);
        }
        other => panic!("a second writer must be refused: {other:?}"),
    }
}

#[test]
fn an_expired_or_own_lease_may_be_taken() {
    let config = ProjectorConfig::new_with_writer("/tmp/log.jsonl".to_owned(), 7);
    let expired = ProjectionWriterLease {
        stream: PROJECTION_STREAM_ID.to_owned(),
        holder: "someone-else".to_owned(),
        acquired_at_ms: 0,
        expires_at_ms: 500,
    };
    assert!(lease_may_be_taken(&Some(expired), &config.writer_id, 500));
    assert!(lease_may_be_taken(&None, &config.writer_id, 0));
    let own = lease_for(&config, 10);
    assert!(lease_outcome(Some(own), &config.writer_id, 20).is_ok());
    match lease_outcome(None, &config.writer_id, 20) {
        Err(ProjectorError::WriterLeaseHeld { holder, expires_at_ms }) => {
            assert_eq!(holder, "unknown");
            assert_eq!(expires_at_ms, 20);
        }
        other => panic!("a missing lease is not held: {other:?}"),
    }
    let mut short = ProjectorConfig::new_with_writer("/tmp/log.jsonl".to_owned(), 8);
    short.lock_ttl_seconds = 0;
    assert_eq!(lease_for(&short, 10).expires_at_ms, 1_010, "the lease lasts at least a second");
}

#[test]
fn replaced_log_is_refused_rather_than_projected_over() {
    // The checkpoint recorded two entries ending at 200 with head "h1"; the
    // log now holds one entry of a different history.
    match check_log_length(LINE, 2 * LINE) {
        Err(ProjectorError::LogRewritten { detail }) => {
            assert_eq!(detail, "log is 100 bytes but the checkpoint is at byte offset 200")
        }
        other => panic!("a shorter log must be refused: {other:?}"),
    }
    assert!(check_log_length(2 * LINE, 2 * LINE).is_ok());
    match check_missing_log(200) {
        Err(ProjectorError::LogRewritten { detail }) => {
            assert_eq!(detail, "the log is gone but the checkpoint is at byte offset 200")
        }
        other => panic!("a missing log must be refused: {other:?}"),
    }
    assert!(check_missing_log(0).is_ok());
    // Same length, different history: the boundary entry's hash differs.
    let other = chain("x", 2, 0);
    let mut run = ProjectionRun::start(ChainHeads::new(), 0, 2 * LINE, 2, 4);
    match drive(&mut run, &other, &Some("h1".to_owned()), 1) {
        Err(ProjectorError::LogRewritten { detail }) => assert_eq!(
            detail,
            "the entry at the checkpoint offset hashes to x1 but the checkpoint recorded h1"
        ),
        other => panic!("a replaced log must be refused: {other:?}"),
    }
}

#[test]
fn replaced_log_that_outgrows_the_checkpoint_is_still_refused() {
    // Entries of 150 bytes never end at the checkpoint offset 200.
    let mut longer = Vec::new();
    let mut previous: Option<String> = None;
    for n in 0..3u64 {
        let hash = format!("l{n}");
        longer.push(Entry {
            start: n * 150,
            end: (n + 1) * 150,
            id: 50 + n as u128,
            previous: previous.clone(),
            hash: hash.clone(),
            valid: true,
        });
        previous = Some(hash);
    }
    let mut run = ProjectionRun::start(ChainHeads::new(), 0, 200, 2, 4);
    match drive(&mut run, &longer, &Some("h1".to_owned()), 1) {
        Err(ProjectorError::LogRewritten { detail }) => assert_eq!(
            detail,
            "no entry ends at the checkpoint offset 200; entry 2 spans bytes 150..300"
        ),
        other => panic!("a replaced log must be refused even when longer: {other:?}"),
    }
    assert_eq!(run.events_projected, 0, "nothing from the replacement leaked");
}

#[test]
fn a_log_ending_before_the_checkpoint_is_refused() {
    let mut run = ProjectionRun::start(ChainHeads::new(), 0, 5 * LINE, 5, 4);
    match drive(&mut run, &chain("h", 2, 0), &Some("h4".to_owned()), 1) {
        Err(ProjectorError::LogRewritten { detail }) => assert_eq!(
            detail,
            "the log ended before the checkpoint offset 500; 2 entries were replayed"
        ),
        other => panic!("unexpected outcome {other:?}"),
    }
}

#[test]
fn chain_heads_are_kept_per_logbook_and_sorted_for_the_checkpoint() {
    let mut heads = ChainHeads::new();
    assert!(heads.verify(9, 1, &None, &"a0".to_owned(), true).is_ok());
    assert!(heads.verify(3, 2, &None, &"b0".to_owned(), true).is_ok());
    assert!(heads.verify(9, 3, &Some("a0".to_owned()), &"a1".to_owned(), true).is_ok());
    match heads.verify(3, 4, &Some("zz".to_owned()), &"b1".to_owned(), true) {
        Err(ChainBreak::PreviousHashMismatch { event_id, expected, actual }) => {
            assert_eq!(event_id, 4);
            assert_eq!(expected.as_deref(), Some("b0"));
            assert_eq!(actual.as_deref(), Some("zz"));
        }
        other => panic!("unexpected outcome {other:?}"),
    }
    let sorted = heads.checkpoint_heads();
    let pairs: Vec<(u128, String)> = sorted.into_iter().map(|h| (h.logbook_id, h.head_hash)).collect();
    assert_eq!(pairs, vec![(3, "b0".to_owned()), (9, "a1".to_owned())]);
}

#[test]
fn checkpoint_boundary_hashes_must_agree() {
    assert!(checkpoint_matches(&None, &"abc".to_owned()).is_ok());
    assert!(checkpoint_matches(&Some("abc".to_owned()), &"abc".to_owned()).is_ok());
    assert_eq!(
        checkpoint_matches(&Some("abc".to_owned()), &"def".to_owned()).unwrap_err(),
        "the entry at the checkpoint offset hashes to def but the checkpoint recorded abc"
    );
}

#[test]
fn projector_settings_default_and_bound_the_batch() {
    let mut config = ProjectorConfig::new("/tmp/official.jsonl".to_owned());
    assert_eq!(config.batch_size, DEFAULT_PROJECTION_BATCH_SIZE);
    assert_eq!(config.poll_interval_ms, 1000);
    assert!(config.writer_id.starts_with("ham-sync-projector-"));
    assert_eq!(config.effective_batch_size(), 1000);
    config.batch_size = 0;
    assert_eq!(config.effective_batch_size(), 1);
    let named = ProjectorConfig::new_with_writer("/tmp/x".to_owned(), 0x0123_4567_89ab_cdef_0123_4567_89ab_cdef);
    assert_eq!(named.writer_id, "ham-sync-projector-01234567-89ab-cdef-0123-456789abcdef");
    let empty = ProjectionCheckpoint::empty(42);
    assert!(!empty.is_halted());
    assert_eq!(empty.updated_at, 42);
}

#[test]
fn projector_errors_tell_the_operator_what_halted() {
    let halted = ProjectorError::Halted { sequence: 7, reason: "bad entry".to_owned() };
    assert_eq!(
        halted.message(),
        "PROJECTION HALTED at entry 7: bad entry. Investigate the official log, then trigger an explicit full rebuild to clear the halt."
    );
    let rewritten = ProjectorError::LogRewritten { detail: "log shrank".to_owned() };
    assert!(rewritten.message().starts_with("PROJECTION HALTED: the official event log no longer matches the checkpoint (log shrank)."));
    let lease = ProjectorError::WriterLeaseHeld { holder: "writer-b".to_owned(), expires_at_ms: 1_780_000_000_000 };
    assert_eq!(
        lease.message(),
        "another projector holds the projection writer lease (holder writer-b, expires at 2026-05-28 20:26:40 UTC); only one writer may write the projection tables"
    );
    let broken = ProjectorError::BrokenChain {
        sequence: 3,
        offset: 200,
        source: ChainBreak::InvalidHash { event_id: 0x1f },
    };
    assert!(broken.message().starts_with(
        "PROJECTION HALTED: official event log hash chain is broken at entry 3 (byte offset 200): event 00000000-0000-0000-0000-00000000001f does not hash to its recorded event hash."
    ));
    assert_eq!(ProjectorError::Replay("x".to_owned()).message(), "projection replay failed: x");
}

#[test]
fn replaying_a_completed_log_projects_nothing_again() {
    let entries = chain("c", 3, 0);
    let mut first = fresh_run(8);
    assert_eq!(drive(&mut first, &entries, &None, 1).expect("first run"), vec![3]);
    let checkpoint = first.pending.take().expect("checkpoint");
    let mut replay = ProjectionRun::start(ChainHeads::new(), 0, checkpoint.byte_offset, checkpoint.sequence, 8);
    let commits = drive(&mut replay, &entries, &checkpoint.last_event_hash, 1).expect("replay");
    assert!(commits.is_empty());
    assert_eq!(replay.events_projected, 0);
    assert_eq!(replay.events_rehydrated, 3);

    let halted = halt_for_error(&checkpoint, &ProjectorError::LogRewritten { detail: "gone".to_owned() }, 4, 9);
    assert!(matches!(resume_offset(&halted), Err(ProjectorError::Halted { sequence: 4, .. })));
    assert!(matches!(resume_offset(&checkpoint), Ok(offset) if offset == 3 * LINE));
}
