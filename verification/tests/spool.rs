use akra_hookers::adapter::ActivityKind;
use akra_hookers::spool::{
    expired_result_names, has_valid_checksum, is_pending_name, is_result_pending_name,
    latest_usage_state, rebuild_usage, reconcile_usage_operation, removal_entries,
    reserve_enqueue, usage_checksum, usage_slot_name, valid_source_token, validate_local_name,
    CaptureEnvelopeError, CaptureEnvelopeFields, CaptureSource, DecodedCapture, EntryState,
    ResultCandidate, Spool, SpoolError, UsageEntry, UsageOperation, UsageState,
    MAX_PENDING_BYTES, MAX_PENDING_ITEM_BYTES,
};

fn listing(names: &[&str]) -> Vec<String> {
    names.iter().map(|n| (*n).to_owned()).collect()
}

fn names(items: &[akra_hookers::spool::SpoolItem]) -> Vec<String> {
    items.iter().map(|i| i.name().to_owned()).collect()
}

fn envelope() -> CaptureEnvelopeFields {
    CaptureEnvelopeFields {
        provider: "codex".to_owned(),
        captured_at_us: 10,
        origin_identity: "git:origin".to_owned(),
        capture_source: None,
        kind: ActivityKind::User,
        agent_id: None,
        agent_type: None,
    }
}

#[test]
fn pending_items_are_sorted_and_exclude_other_files() {
    let spool = Spool::open("/spool");
    let dir = listing(&["b.pending", "a.result.pending", ".admission.lock", "c.tmp", ".pending"]);
    assert_eq!(names(&spool.pending(&dir)), vec!["a.result.pending", "b.pending"]);
    assert!(is_pending_name("x.pending"));
    assert!(!is_pending_name(".pending"));
    assert!(is_result_pending_name("x.result.pending"));
    assert!(!is_result_pending_name("x.pending"));
}

#[test]
fn recovery_rotates_through_pending_items_and_skips_deferred_ones() {
    let mut spool = Spool::open("/spool");
    let all: Vec<String> = (0..40).map(|i| format!("{i:02}.pending")).collect();
    let first = spool.recovery_candidates(&all);
    assert_eq!(first.len(), 32);
    assert_eq!(first[0].name(), "00.pending");
    let second = spool.drain(&all);
    assert_eq!(second.len(), 32);
    assert_eq!(second[0].name(), "32.pending");
    assert_eq!(second[8].name(), "00.pending");

    let mut small = Spool::open("/spool");
    let three = listing(&["a.pending", "b.pending", "c.pending"]);
    let items = small.recovery_candidates(&three);
    small.defer(&items[1]);
    assert_eq!(names(&small.recovery_candidates(&three)), vec!["c.pending", "a.pending"]);
    let deferred = small.pending(&three);
    small.acknowledge(deferred.into_iter().nth(1).expect("b"));
    assert_eq!(small.recovery_candidates(&three).len(), 3);
    assert!(Spool::open("/spool").recovery_candidates(&Vec::new()).is_empty());
}

#[test]
fn abandoned_reservation_is_given_back_on_reconcile() {
    let usage = UsageState::rebuilt(0, 0);
    let reserved = reserve_enqueue(
        usage,
        "abandoned.pending".to_owned(),
        "abandoned.tmp".to_owned(),
        MAX_PENDING_BYTES,
    )
    .expect("reservation");
    assert_eq!(reserved.items, 1);
    assert_eq!(reserved.bytes, MAX_PENDING_BYTES);

    let (after, remove) = reconcile_usage_operation(reserved.clone(), &vec![false]).expect("rolled back");
    assert_eq!(after.items, 0);
    assert_eq!(after.bytes, 0);
    assert!(after.operation.is_none());
    assert_eq!(remove.as_deref(), Some("abandoned.tmp"));

    let (kept, none) = reconcile_usage_operation(reserved, &vec![true]).expect("completed");
    assert_eq!(kept.items, 1);
    assert_eq!(kept.bytes, MAX_PENDING_BYTES);
    assert!(none.is_none());
    assert!(matches!(
        reserve_enqueue(kept, "b.pending".to_owned(), "b.tmp".to_owned(), 8),
        Err(SpoolError::QueueFull { items: 1, bytes: MAX_PENDING_BYTES })
    ));
}

#[test]
fn admission_checks_names_size_and_count() {
    let spool = Spool::open("/spool");
    let plan = spool.enqueue(b"payload", UsageState::rebuilt(3, 10)).expect("admitted");
    assert!(plan.pending_name.ends_with(".pending"));
    assert!(!plan.pending_name.contains(".result"));
    assert_eq!(plan.temporary_name.trim_end_matches(".tmp"), plan.pending_name.trim_end_matches(".pending"));
    assert_eq!(plan.usage.items, 4);
    assert_eq!(plan.usage.bytes, 17);
    assert!(matches!(plan.usage.operation, Some(UsageOperation::Enqueue { bytes: 7, .. })));

    let marked = spool.enqueue_marked(b"result", true, UsageState::rebuilt(0, 0)).expect("result");
    assert!(marked.pending_name.ends_with(".result.pending"));

    let huge = vec![0u8; MAX_PENDING_ITEM_BYTES + 1];
    assert_eq!(
        spool.enqueue(&huge, UsageState::rebuilt(0, 0)),
        Err(SpoolError::Oversized(MAX_PENDING_ITEM_BYTES as u64 + 1))
    );
    assert_eq!(
        spool.enqueue(b"x", UsageState::rebuilt(1024, 0)),
        Err(SpoolError::QueueFull { items: 1024, bytes: 0 })
    );
    assert_eq!(
        reserve_enqueue(UsageState::rebuilt(0, 0), "../x.pending".to_owned(), "x.tmp".to_owned(), 1),
        Err(SpoolError::InvalidQueueState)
    );
}

#[test]
fn removal_counts_each_regular_file_once() {
    let requests = vec![
        ("a.pending".to_owned(), EntryState::Regular(5)),
        ("a.pending".to_owned(), EntryState::Regular(9)),
        ("gone.pending".to_owned(), EntryState::Missing),
        ("b.pending".to_owned(), EntryState::Regular(7)),
    ];
    let entries = removal_entries(&requests).expect("entries");
    assert_eq!(
        entries,
        vec![
            UsageEntry { pending_name: "a.pending".to_owned(), bytes: 5 },
            UsageEntry { pending_name: "b.pending".to_owned(), bytes: 7 },
        ]
    );
    assert_eq!(
        removal_entries(&vec![("dir.pending".to_owned(), EntryState::NonRegular)]),
        Err(SpoolError::NonRegular)
    );
    assert_eq!(
        removal_entries(&vec![("x.tmp".to_owned(), EntryState::Regular(1))]),
        Err(SpoolError::InvalidQueueState)
    );

    let state = UsageState::rebuilt(3, 20).with_removal(entries);
    let (after, _) = reconcile_usage_operation(state, &vec![false, true]).expect("reconciled");
    assert_eq!(after.items, 2);
    assert_eq!(after.bytes, 15);
}

#[test]
fn usage_records_alternate_slots_and_pick_the_latest() {
    assert_eq!(usage_slot_name(1), ".usage-1.json");
    assert_eq!(usage_slot_name(4), ".usage-0.json");
    let old = UsageState { generation: 3, ..UsageState::rebuilt(1, 1) };
    let new = UsageState { generation: 4, ..UsageState::rebuilt(2, 2) };
    assert_eq!(latest_usage_state(vec![new.clone(), old.clone()]), Some(new.clone()));
    assert_eq!(latest_usage_state(vec![old, new.clone()]), Some(new));
    assert_eq!(latest_usage_state(Vec::new()), None);
    let next = UsageState::rebuilt(0, 0).next_generation().expect("next");
    assert_eq!(next.generation, 1);
    let last = UsageState { generation: u64::MAX, ..UsageState::rebuilt(0, 0) };
    assert_eq!(last.next_generation(), Err(SpoolError::QueueStateOverflow));
}

#[test]
fn checksums_guard_the_usage_record() {
    let unsigned = r#"{"schema_version":1,"generation":1,"items":0,"bytes":0,"operation":null,"checksum":""}"#;
    let sum = usage_checksum(unsigned);
    assert_eq!(sum.len(), 64);
    let sealed = UsageState { checksum: sum.clone(), ..UsageState::rebuilt(0, 0) };
    assert!(has_valid_checksum(&sealed, unsigned));
    assert!(!has_valid_checksum(&sealed, "{}"));
    assert!(!has_valid_checksum(&UsageState::rebuilt(0, 0), unsigned));
}

#[test]
fn rebuilding_counts_pending_files() {
    let entries = vec![
        ("a.pending".to_owned(), Some(10)),
        ("b.pending".to_owned(), None),
        ("c.tmp".to_owned(), Some(99)),
        ("d.result.pending".to_owned(), Some(u64::MAX)),
    ];
    let state = rebuild_usage(&entries);
    assert_eq!(state.items, 3);
    assert_eq!(state.bytes, u64::MAX);
}

#[test]
fn only_results_past_retention_expire() {
    let candidates = vec![
        ResultCandidate { name: "old.result.pending".to_owned(), decoded: None, modified_at_us: Some(100) },
        ResultCandidate { name: "new.result.pending".to_owned(), decoded: None, modified_at_us: Some(900) },
        ResultCandidate {
            name: "stop.pending".to_owned(),
            decoded: Some(DecodedCapture { is_result: true, captured_at_us: 50 }),
            modified_at_us: Some(999),
        },
        ResultCandidate {
            name: "prompt.pending".to_owned(),
            decoded: Some(DecodedCapture { is_result: false, captured_at_us: 1 }),
            modified_at_us: Some(1),
        },
        ResultCandidate { name: "unknown.result.pending".to_owned(), decoded: None, modified_at_us: None },
    ];
    assert_eq!(
        expired_result_names(1_000, 500, &candidates),
        vec!["old.result.pending", "stop.pending"]
    );
    assert_eq!(expired_result_names(i64::MIN, i64::MAX, &candidates), Vec::<String>::new());
}

#[test]
fn result_sweeps_run_at_most_once_per_interval() {
    let mut spool = Spool::open("/spool");
    assert!(spool.expire_result_items_if_due(1_000, 60));
    assert!(!spool.expire_result_items_if_due(1_059, 60));
    assert!(spool.expire_result_items_if_due(1_060, 60));
    spool.result_sweep_failed();
    assert!(spool.expire_result_items_if_due(1_061, 60));
    assert!(spool.expire_result_items_if_due(i64::MAX, 60));
    assert!(spool.expire_result_items_if_due(i64::MAX, 60));
}

#[test]
fn envelopes_are_checked_in_order() {
    assert_eq!(envelope().validate(), Ok(()));
    let blank = CaptureEnvelopeFields { provider: "  ".to_owned(), ..envelope() };
    assert_eq!(blank.validate(), Err(CaptureEnvelopeError::BlankProvider));
    let early = CaptureEnvelopeFields { captured_at_us: -1, ..envelope() };
    assert_eq!(early.validate(), Err(CaptureEnvelopeError::NegativeCaptureTime(-1)));
    let origin = CaptureEnvelopeFields { origin_identity: String::new(), ..envelope() };
    assert_eq!(origin.validate(), Err(CaptureEnvelopeError::BlankOriginIdentity));
    let user_agent = CaptureEnvelopeFields { agent_id: Some("a".to_owned()), ..envelope() };
    assert_eq!(user_agent.validate(), Err(CaptureEnvelopeError::InvalidActivityContext));
    let subagent = CaptureEnvelopeFields {
        kind: ActivityKind::Subagent,
        agent_id: Some("worker".to_owned()),
        agent_type: Some("x".repeat(513)),
        ..envelope()
    };
    assert_eq!(subagent.validate(), Err(CaptureEnvelopeError::InvalidActivityContext));
    let source = CaptureSource::new("wsl:Ubuntu", "wsl_cli").expect("source");
    let sourced = CaptureEnvelopeFields { capture_source: Some(source), ..envelope() };
    assert_eq!(sourced.validate(), Ok(()));
    assert_eq!(CaptureSource::new("bad target", "app"), Err(CaptureEnvelopeError::InvalidCaptureSource));
    assert!(valid_source_token("a.b_c-d:e", 9));
    assert!(!valid_source_token("a.b_c-d:e", 8));
}

#[test]
fn remote_envelopes_are_namespaced_by_their_source() {
    let source = CaptureSource::new("windows-native", "app").expect("source");
    let incoming = CaptureEnvelopeFields { capture_source: Some(source), ..envelope() };
    let (fields, session) = incoming
        .clone()
        .into_remote_namespace("67e55044-10b1-426f-9247-bb680e5fe0c8", Some("session-1"))
        .expect("namespaced");
    assert_eq!(session, "remote:67e55044-10b1-426f-9247-bb680e5fe0c8:session-1");
    assert_eq!(fields.origin_identity, "remote:67e55044-10b1-426f-9247-bb680e5fe0c8:git:origin");
    assert!(fields.capture_source.is_none());
    assert_eq!(
        incoming.clone().into_remote_namespace("bad id", Some("s")),
        Err(CaptureEnvelopeError::InvalidRemoteSource)
    );
    assert_eq!(
        incoming.into_remote_namespace("source", None),
        Err(CaptureEnvelopeError::InvalidRemotePayload)
    );
    assert_eq!(validate_local_name("a-b_c.pending", ".pending"), Ok(()));
    assert_eq!(validate_local_name("a b.pending", ".pending"), Err(SpoolError::InvalidQueueState));
}
