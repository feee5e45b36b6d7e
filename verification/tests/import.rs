use nexus_store::envelope::PersistedEnvelope;
use nexus_store::import::{
    plan_section, plan_whole_chunk, settle_halted_chunk, settle_whole_chunk, AbortReason,
    AtomicAppendError, Atomicity, ImportError, Halt, ImportBlock, ImportReport, PlanError,
    PlannedAppend, SectionPlan, StreamOutcome, StreamReport, StreamSection,
};
use std::collections::BTreeMap;
use nexus_store::stream_id::StreamKey;
use nexus_store::version::{GlobalSeq, SchemaVersion, Version};

fn v(n: u64) -> Version {
    Version::new(n).expect("test version must be nonzero")
}

fn report(stream: &str, outcome: StreamOutcome) -> StreamReport {
    StreamReport {
        stream: StreamKey::from_slice(stream.as_bytes()),
        outcome,
    }
}

#[test]
fn atomicity_equality_and_copy_semantics() {
    let policy = Atomicity::WholeChunk;
    let copied = policy;
    assert_eq!(policy, copied);
    assert_eq!(Atomicity::WholeChunk, Atomicity::WholeChunk);
    assert_eq!(Atomicity::PerStream, Atomicity::PerStream);
    assert_ne!(Atomicity::WholeChunk, Atomicity::PerStream);
}

#[test]
fn complete_is_complete_and_reaches_its_version() {
    let outcome = StreamOutcome::Complete { version: v(5) };
    assert!(outcome.is_complete());
    assert_eq!(outcome.reached(), Some(v(5)));
}

#[test]
fn corrupt_untouched_is_not_complete_and_reaches_none() {
    let outcome = StreamOutcome::Corrupt { reached: None };
    assert!(!outcome.is_complete());
    assert_eq!(outcome.reached(), None);
}

#[test]
fn corrupt_with_prefix_reaches_that_prefix() {
    let outcome = StreamOutcome::Corrupt { reached: Some(v(3)) };
    assert!(!outcome.is_complete());
    assert_eq!(outcome.reached(), Some(v(3)));
}

#[test]
fn mismatch_untouched_reaches_none_not_got() {
    let outcome = StreamOutcome::Mismatch {
        reached: None,
        got: v(8),
    };
    assert!(!outcome.is_complete());
    assert_eq!(outcome.reached(), None);
}

#[test]
fn mismatch_with_prefix_reaches_prefix_not_got() {
    let outcome = StreamOutcome::Mismatch {
        reached: Some(v(3)),
        got: v(8),
    };
    assert!(!outcome.is_complete());
    assert_eq!(outcome.reached(), Some(v(3)));
}

#[test]
fn empty_report_is_vacuously_all_complete_with_no_unfinished() {
    let report: ImportReport = ImportReport::new(Vec::new());
    assert!(report.streams().is_empty());
    assert!(report.all_complete());
    assert_eq!(report.unfinished().len(), 0);
}

#[test]
fn all_complete_report_reports_no_unfinished() {
    let streams = vec![
        report("a", StreamOutcome::Complete { version: v(1) }),
        report("b", StreamOutcome::Complete { version: v(2) }),
    ];
    let report = ImportReport::new(streams.clone());
    assert_eq!(report.streams(), streams.as_slice());
    assert!(report.all_complete());
    assert_eq!(report.unfinished().len(), 0);
}

#[test]
fn mixed_report_filters_exactly_the_non_complete_streams() {
    let streams = vec![
        report("done-1", StreamOutcome::Complete { version: v(1) }),
        report("corrupt", StreamOutcome::Corrupt { reached: Some(v(2)) }),
        report("done-2", StreamOutcome::Complete { version: v(3) }),
        report(
            "mismatch",
            StreamOutcome::Mismatch {
                reached: None,
                got: v(9),
            },
        ),
    ];
    let report = ImportReport::new(streams);

    let all_ids: Vec<&[u8]> = report.streams().iter().map(|s| s.stream.as_bytes()).collect();
    assert_eq!(
        all_ids,
        [
            b"done-1".as_ref(),
            b"corrupt".as_ref(),
            b"done-2".as_ref(),
            b"mismatch".as_ref()
        ]
    );

    let unfinished_ids: Vec<&[u8]> = report
        .unfinished()
        .into_iter()
        .map(|s| s.stream.as_bytes())
        .collect();
    assert_eq!(unfinished_ids, [b"corrupt".as_ref(), b"mismatch".as_ref()]);

    assert!(!report.all_complete());
}

#[test]
fn single_incomplete_stream_blocks_all_complete() {
    let report = ImportReport::new(vec![report("only", StreamOutcome::Corrupt { reached: None })]);
    assert!(!report.all_complete());
    assert_eq!(report.unfinished().len(), 1);
}

fn persisted(version: u64, payload: &[u8]) -> PersistedEnvelope {
    let mut buf = Vec::new();
    buf.extend_from_slice(b"E");
    buf.extend_from_slice(payload);
    let et_end = 1u32;
    let pl_end = et_end + u32::try_from(payload.len()).expect("payload fits u32");
    PersistedEnvelope::try_new(
        v(version),
        GlobalSeq::initial(),
        buf,
        SchemaVersion::initial(),
        0..et_end,
        et_end..pl_end,
        None,
    )
    .expect("valid persisted envelope")
}

fn evt(version: u64) -> ImportBlock {
    ImportBlock::Event(persisted(version, b"p"))
}

fn section(origin: &str, blocks: Vec<ImportBlock>) -> StreamSection {
    StreamSection {
        origin: origin.as_bytes().to_vec(),
        blocks,
    }
}

#[test]
fn plan_empty_section_is_empty() {
    assert!(matches!(plan_section(&section("s", vec![])), Ok(SectionPlan::Empty)));
}

#[test]
fn plan_first_block_corrupt_is_first_corrupt() {
    let s = section("s", vec![ImportBlock::Corrupt, evt(1)]);
    assert!(matches!(plan_section(&s), Ok(SectionPlan::FirstCorrupt)));
}

#[test]
fn plan_contiguous_run_from_one_is_complete() {
    let s = section("s", vec![evt(1), evt(2), evt(3)]);
    let plan = plan_section(&s).expect("plans");
    match plan {
        SectionPlan::Run {
            first,
            expected_version,
            last,
            halt,
            events,
        } => {
            assert_eq!(first, v(1));
            assert_eq!(expected_version, None);
            assert_eq!(last, v(3));
            assert_eq!(events.len(), 3);
            assert!(matches!(halt, Halt::Complete));
        }
        other => panic!("expected Run, got {other:?}"),
    }
}

#[test]
fn plan_run_from_midstream_sets_expected_to_first_minus_one() {
    let s = section("s", vec![evt(3), evt(4)]);
    match plan_section(&s).expect("plans") {
        SectionPlan::Run {
            first,
            expected_version,
            last,
            halt,
            ..
        } => {
            assert_eq!(first, v(3));
            assert_eq!(expected_version, Some(v(2)));
            assert_eq!(last, v(4));
            assert!(matches!(halt, Halt::Complete));
        }
        other => panic!("expected Run, got {other:?}"),
    }
}

#[test]
fn plan_internal_gap_halts_with_got() {
    let s = section("s", vec![evt(3), evt(4), evt(6)]);
    match plan_section(&s).expect("plans") {
        SectionPlan::Run {
            last, halt, events, ..
        } => {
            assert_eq!(last, v(4));
            assert_eq!(events.len(), 2);
            assert!(matches!(halt, Halt::Gap { got } if got == v(6)));
        }
        other => panic!("expected Run, got {other:?}"),
    }
}

#[test]
fn plan_internal_corrupt_halts_corrupt() {
    let s = section("s", vec![evt(1), evt(2), ImportBlock::Corrupt, evt(3)]);
    match plan_section(&s).expect("plans") {
        SectionPlan::Run {
            last, halt, events, ..
        } => {
            assert_eq!(last, v(2));
            assert_eq!(events.len(), 2);
            assert!(matches!(halt, Halt::Corrupt));
        }
        other => panic!("expected Run, got {other:?}"),
    }
}

#[test]
fn plan_overflow_building_run_errors() {
    let s = section("s", vec![evt(u64::MAX), evt(1)]);
    assert!(matches!(plan_section(&s), Err(PlanError::VersionOverflow)));
}

#[test]
fn plan_run_ending_at_u64_max_with_no_successor_completes() {
    let s = section("s", vec![evt(u64::MAX)]);
    match plan_section(&s).expect("plans") {
        SectionPlan::Run {
            first,
            expected_version,
            events,
            last,
            halt,
        } => {
            assert_eq!(first, v(u64::MAX));
            assert_eq!(expected_version, Some(v(u64::MAX - 1)));
            assert_eq!(events.len(), 1);
            assert_eq!(last, v(u64::MAX));
            assert!(matches!(halt, Halt::Complete));
        }
        other => panic!("expected Run, got {other:?}"),
    }
}

#[test]
fn plan_run_keeps_payloads_and_versions_in_order() {
    let s = section(
        "s",
        vec![
            ImportBlock::Event(persisted(2, b"two")),
            ImportBlock::Event(persisted(3, b"three")),
        ],
    );
    match plan_section(&s).expect("plans") {
        SectionPlan::Run { events, .. } => {
            assert_eq!(events[0].version(), v(2));
            assert_eq!(events[0].payload(), b"two");
            assert_eq!(events[1].version(), v(3));
            assert_eq!(events[1].payload(), b"three");
            assert_eq!(events[1].event_type(), "E");
        }
        other => panic!("expected Run, got {other:?}"),
    }
}

#[test]
fn abort_reason_display_strings_are_exact() {
    assert_eq!(AbortReason::Corrupt.message(), "block failed checksum");
    assert_eq!(
        AbortReason::Mismatch {
            expected: v(4),
            got: v(7),
        }
        .message(),
        "version mismatch (expected 4, got 7)",
    );
}

#[test]
fn import_error_malformed_display_is_exact() {
    let err: ImportError<std::io::Error> = ImportError::Malformed("bad magic");
    assert_eq!(err.message().as_deref(), Some("malformed chunk: bad magic"));
}

#[test]
fn import_error_aborted_display_formats_stream_and_reason() {
    let err: ImportError<std::io::Error> = ImportError::Aborted {
        stream: StreamKey::from_slice(b"phone:task-123"),
        reason: AbortReason::Mismatch {
            expected: v(2),
            got: v(5),
        },
    };
    assert_eq!(
        err.message().as_deref(),
        Some("chunk aborted at stream phone:task-123: version mismatch (expected 2, got 5)"),
    );
}

#[test]
fn import_error_version_overflow_display_is_exact() {
    let err: ImportError<std::io::Error> = ImportError::VersionOverflow;
    assert_eq!(err.message().as_deref(), Some("version overflow"));
}

#[test]
fn import_error_message_of_store_failure_and_non_utf8_key_is_none() {
    let store: ImportError<std::io::Error> =
        ImportError::Store(std::io::Error::other("store failed"));
    assert!(store.message().is_none());
    let aborted: ImportError<std::io::Error> = ImportError::Aborted {
        stream: StreamKey::from_slice(&[0xff, 0xfe]),
        reason: AbortReason::Corrupt,
    };
    assert!(aborted.message().is_none());
}

#[test]
fn decimal_rendering_has_no_leading_zeros_and_covers_u64_max() {
    assert_eq!(nexus_store::text::decimal_string(0), "0");
    assert_eq!(nexus_store::text::decimal_string(10), "10");
    assert_eq!(nexus_store::text::decimal_string(907), "907");
    assert_eq!(nexus_store::text::decimal_string(u64::MAX), "18446744073709551615");
    assert_eq!(GlobalSeq::new(42).expect("nonzero").display(), "42");
}

fn sk(s: &str) -> StreamKey {
    StreamKey::from_slice(s.as_bytes())
}

fn aborted_at(err: &ImportError<()>, stream: &str) -> Option<AbortReason> {
    match err {
        ImportError::Aborted { stream: s, reason } if s.as_bytes() == stream.as_bytes() => Some(*reason),
        _ => None,
    }
}

#[test]
fn whole_chunk_head_conflict_in_an_earlier_section_wins_over_a_later_corrupt_block() {
    let sections = vec![
        section("a", vec![evt(1)]),
        section("b", vec![evt(1), ImportBlock::Corrupt]),
    ];
    let targets = vec![sk("a"), sk("b")];
    let plan = plan_whole_chunk(&sections, &targets);
    assert_eq!(plan.writes.len(), 1);
    assert!(plan.halt.is_some());
    // Stream a already holds version 1; stream b is empty.
    let err: ImportError<()> = settle_halted_chunk(&plan, &[Some(v(1))], None);
    assert_eq!(
        aborted_at(&err, "a"),
        Some(AbortReason::Mismatch { expected: v(2), got: v(1) })
    );
    // With a clean head on a, the later corrupt block decides.
    let err: ImportError<()> = settle_halted_chunk(&plan, &[None], None);
    assert_eq!(aborted_at(&err, "b"), Some(AbortReason::Corrupt));
    // The halting section's own first block comes before its halt.
    let err: ImportError<()> = settle_halted_chunk(&plan, &[None], Some(v(4)));
    assert_eq!(
        aborted_at(&err, "b"),
        Some(AbortReason::Mismatch { expected: v(5), got: v(1) })
    );
}

#[test]
fn whole_chunk_first_corrupt_and_gap_halts_and_clean_commit() {
    let plan = plan_whole_chunk(
        &[section("a", vec![ImportBlock::Corrupt])],
        &[sk("a")],
    );
    let halt = plan.halt.as_ref().expect("halts");
    assert!(halt.start.is_none());
    let err: ImportError<()> = settle_halted_chunk(&plan, &[], Some(v(9)));
    assert_eq!(aborted_at(&err, "a"), Some(AbortReason::Corrupt));

    let plan = plan_whole_chunk(&[section("g", vec![evt(1), evt(3)])], &[sk("g")]);
    let err: ImportError<()> = settle_halted_chunk(&plan, &[], None);
    assert_eq!(
        aborted_at(&err, "g"),
        Some(AbortReason::Mismatch { expected: v(2), got: v(3) })
    );

    let plan = plan_whole_chunk(
        &[section("a", vec![evt(1), evt(2)]), section("e", vec![]), section("b", vec![evt(5)])],
        &[sk("a"), sk("e"), sk("b")],
    );
    assert!(plan.halt.is_none());
    assert_eq!(plan.writes.len(), 2);
    assert_eq!(plan.writes[1].expected_version, Some(v(4)));
    let report = settle_whole_chunk::<()>(plan, Ok(())).map_err(|_| ()).expect("commits");
    assert!(report.all_complete());
    let plan = plan_whole_chunk(&[section("a", vec![evt(1)])], &[sk("a")]);
    let err = settle_whole_chunk::<()>(plan, Err(AtomicAppendError::Conflict { index: 0, actual: None }));
    assert!(matches!(err, Err(ImportError::Aborted { .. })));
}

/// What a stream holds after a section's planned run is offered to a store
/// that appends exactly when the run expects the stream's head.
fn import_into(stream: &mut Vec<u64>, blocks: Vec<ImportBlock>) -> Option<StreamOutcome> {
    match plan_section(&section("t", blocks)).ok()? {
        SectionPlan::Run { first, expected_version, events, last, halt } => {
            let head = stream.last().map(|&n| v(n));
            if expected_version == head {
                stream.extend(events.iter().map(|e| e.version().as_u64()));
                Some(match halt {
                    Halt::Complete => StreamOutcome::Complete { version: last },
                    Halt::Corrupt => StreamOutcome::Corrupt { reached: Some(last) },
                    Halt::Gap { got } => StreamOutcome::Mismatch { reached: Some(last), got },
                })
            } else {
                Some(StreamOutcome::Mismatch { reached: None, got: first })
            }
        }
        _ => None,
    }
}

#[test]
fn per_stream_imports_keep_the_stream_a_gapless_prefix() {
    let mut stream: Vec<u64> = Vec::new();
    assert_eq!(import_into(&mut stream, vec![evt(1), evt(2)]), Some(StreamOutcome::Complete { version: v(2) }));
    assert_eq!(import_into(&mut stream, vec![evt(2), evt(3)]), Some(StreamOutcome::Mismatch { reached: None, got: v(2) }));
    assert_eq!(import_into(&mut stream, vec![evt(4)]), Some(StreamOutcome::Mismatch { reached: None, got: v(4) }));
    assert_eq!(
        import_into(&mut stream, vec![evt(3), evt(4), evt(6)]),
        Some(StreamOutcome::Mismatch { reached: Some(v(4)), got: v(6) })
    );
    assert_eq!(import_into(&mut stream, vec![evt(1)]), Some(StreamOutcome::Mismatch { reached: None, got: v(1) }));
    assert_eq!(stream, vec![1, 2, 3, 4]);
}

/// An adapter that applies a batch of writes all-or-nothing, checking each
/// against its stream's running head; streams hold event versions.
fn atomic_apply(
    store: &mut BTreeMap<Vec<u8>, Vec<u64>>,
    writes: &[PlannedAppend],
) -> Result<(), AtomicAppendError<()>> {
    let mut next = store.clone();
    for (index, w) in writes.iter().enumerate() {
        let stream = next.entry(w.target.as_bytes().to_vec()).or_default();
        let head = stream.last().map(|&n| v(n));
        if head != w.expected_version {
            return Err(AtomicAppendError::Conflict { index, actual: head });
        }
        stream.extend(w.events.iter().map(|e| e.version().as_u64()));
    }
    *store = next;
    Ok(())
}

fn whole_chunk_into(
    store: &mut BTreeMap<Vec<u8>, Vec<u64>>,
    sections: &[StreamSection],
    targets: &[StreamKey],
) -> Result<ImportReport, ImportError<()>> {
    let plan = plan_whole_chunk(sections, targets);
    if plan.halt.is_some() {
        let heads: Vec<Option<Version>> = plan
            .writes
            .iter()
            .map(|w| store.get(w.target.as_bytes()).and_then(|s| s.last()).map(|&n| v(n)))
            .collect();
        let halt_key = plan.halt.as_ref().map(|h| h.target.as_bytes().to_vec()).unwrap_or_default();
        let halt_head = store.get(&halt_key).and_then(|s| s.last()).map(|&n| v(n));
        return Err(settle_halted_chunk(&plan, &heads, halt_head));
    }
    let result = atomic_apply(store, &plan.writes);
    settle_whole_chunk(plan, result)
}

#[test]
fn whole_chunk_import_lands_all_or_nothing() {
    let mut store: BTreeMap<Vec<u8>, Vec<u64>> = BTreeMap::new();
    store.insert(b"b".to_vec(), vec![1, 2]);
    let before = store.clone();

    // The second write expects b empty, but b holds 1..=2: nothing lands,
    // the clean run for a included.
    let err = whole_chunk_into(
        &mut store,
        &[section("a", vec![evt(1), evt(2)]), section("b", vec![evt(1)])],
        &[sk("a"), sk("b")],
    )
    .expect_err("conflicts");
    assert_eq!(aborted_at(&err, "b"), Some(AbortReason::Mismatch { expected: v(3), got: v(1) }));
    assert_eq!(store, before);

    // Two sections routed to one stream: the second is checked against the
    // running head and conflicts; nothing lands.
    let err = whole_chunk_into(
        &mut store,
        &[section("x", vec![evt(1)]), section("y", vec![evt(1)])],
        &[sk("c"), sk("c")],
    )
    .expect_err("conflicts");
    assert_eq!(aborted_at(&err, "c"), Some(AbortReason::Mismatch { expected: v(2), got: v(1) }));
    assert_eq!(store, before);

    // A halted plan never reaches the store.
    let err = whole_chunk_into(
        &mut store,
        &[section("a", vec![evt(1)]), section("c", vec![evt(1), ImportBlock::Corrupt])],
        &[sk("a"), sk("c")],
    )
    .expect_err("halts");
    assert_eq!(aborted_at(&err, "c"), Some(AbortReason::Corrupt));
    assert_eq!(store, before);
}

#[test]
fn whole_chunk_success_follows_the_non_empty_sections() {
    let mut store: BTreeMap<Vec<u8>, Vec<u64>> = BTreeMap::new();
    store.insert(b"b".to_vec(), vec![1, 2]);
    let rep = whole_chunk_into(
        &mut store,
        &[section("a", vec![evt(1), evt(2)]), section("e", vec![]), section("b", vec![evt(3), evt(4)])],
        &[sk("a"), sk("e"), sk("b")],
    )
    .map_err(|_| ())
    .expect("commits");
    assert_eq!(
        rep.streams(),
        &[
            report("a", StreamOutcome::Complete { version: v(2) }),
            report("b", StreamOutcome::Complete { version: v(4) }),
        ][..]
    );
    assert_eq!(store.get(b"a".as_slice()), Some(&vec![1, 2]));
    assert_eq!(store.get(b"b".as_slice()), Some(&vec![1, 2, 3, 4]));
    assert_eq!(store.get(b"e".as_slice()), None);
}
