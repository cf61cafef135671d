use akra_hookers::api::{
    activity_count_query, activity_list_query, detail_page, regeneration_response,
    ActivityKindFilter, ActivityListQuery, ActivityOrder, ActivityScope, ConversationStart,
    RegenerationOutcome,
};
use akra_hookers::api::{
    assignment_command, collector_integration_from_status, curation_error, curation_log_query,
    default_collector_integration, ingest_content_check, prompt_summary_policy, receipt_status,
    routing_command, target_error, work_items_project, work_update_check, ActivityTimeRange,
    ApiError, AssignmentCommand, AssignmentDestination, CurationLogFilter, CurationLogQuery,
    DestinationPayload, FutureRoute, OriginRouting, ProjectDestination, PromptSummaryPolicy,
    RequiredDestination,
};
use akra_hookers::capture_gate::CaptureGateError;
use akra_hookers::collector::{CollectorConfigView, CollectorMode, CollectorStatus, ReceiveOutcome};
use akra_hookers::summary::SummarizationError;
use akra_hookers::targets::CodexTargetError;
use akra_hookers::transaction::CodexLifecycleError;

fn error(status: u16, code: &'static str, message: &str) -> ApiError {
    ApiError::Status { status, code, message: message.to_owned() }
}

#[test]
fn curation_listings_check_project_state_limit_and_period() {
    let now = 1_700_000_000_000_000;
    assert_eq!(
        curation_log_query(7, None, None, None, None, now),
        Ok(CurationLogQuery {
            project_id: 7,
            filter: CurationLogFilter::Unreviewed,
            range: ActivityTimeRange { since_us: None },
            limit: 100,
        })
    );
    assert_eq!(
        curation_log_query(7, Some("organized"), Some(200), None, None, now)
            .map(|q| (q.filter, q.limit)),
        Ok((CurationLogFilter::Organized, 200))
    );
    assert_eq!(
        curation_log_query(0, Some("bogus"), Some(0), None, None, now),
        Err(error(422, "invalid_project_id", "A positive project_id is required."))
    );
    assert_eq!(
        curation_log_query(7, Some("bogus"), Some(0), None, None, now),
        Err(error(
            422,
            "invalid_curation_state",
            "Curation state must be unreviewed, excluded, organized, or all."
        ))
    );
    assert_eq!(
        curation_log_query(7, Some("all"), Some(201), None, None, now),
        Err(error(422, "invalid_page_limit", "Curation log limit must be between 1 and 200."))
    );
    assert!(matches!(
        curation_log_query(7, Some("excluded"), Some(5), Some("decade"), None, now),
        Err(ApiError::Status { code: "invalid_period", .. })
    ));
}

#[test]
fn work_requests_need_a_positive_project_and_a_complete_update() {
    assert_eq!(work_items_project(None), Ok(()));
    assert_eq!(work_items_project(Some(3)), Ok(()));
    assert_eq!(
        work_items_project(Some(0)),
        Err(error(422, "invalid_project_id", "project_id must be positive."))
    );
    assert_eq!(work_update_check(true, false, false), Ok(()));
    assert_eq!(work_update_check(false, true, true), Ok(()));
    assert_eq!(
        work_update_check(false, false, false),
        Err(error(422, "empty_work_update", "Provide a title or a complete position."))
    );
    assert_eq!(
        work_update_check(true, true, false),
        Err(error(
            422,
            "incomplete_work_position",
            "position_x and position_y must be provided together."
        ))
    );
}

#[test]
fn curation_failures_leave_the_logs_unchanged() {
    assert_eq!(
        curation_error(&SummarizationError::CurationInputTooLarge(70_000)),
        error(
            413,
            "curation_input_too_large",
            "The selected summaries exceed the curation input budget."
        )
    );
    assert_eq!(
        curation_error(&SummarizationError::Json("eof".to_owned())),
        error(
            503,
            "curation_output_invalid",
            "Codex Spark returned an invalid grouping. Try again or select fewer logs."
        )
    );
    assert_eq!(
        curation_error(&SummarizationError::Timeout),
        error(
            503,
            "curation_runtime_unavailable",
            "Codex Spark could not organize the selected logs. The logs were not changed."
        )
    );
}

#[test]
fn assignments_need_a_destination() {
    assert_eq!(
        assignment_command(vec![1, 2], RequiredDestination::Missing, FutureRoute::Unchanged),
        Err(error(
            422,
            "missing_assignment_destination",
            "Activity assignment requires a destination."
        ))
    );
    assert_eq!(
        assignment_command(vec![1], RequiredDestination::Present(None), FutureRoute::Clear),
        Ok(AssignmentCommand {
            activity_ids: vec![1],
            destination: AssignmentDestination::Inbox,
            future_route: FutureRoute::Clear,
        })
    );
    assert_eq!(
        assignment_command(
            vec![4],
            RequiredDestination::Present(Some(DestinationPayload::New {
                new_project_name: "Docs".to_owned()
            })),
            FutureRoute::Route,
        )
        .map(|c| c.destination),
        Ok(AssignmentDestination::NewProjectName("Docs".to_owned()))
    );
}

#[test]
fn origin_routing_pairs_mode_and_destination() {
    assert_eq!(routing_command("shared", None, true), Ok(OriginRouting::Shared { confirm: true }));
    assert_eq!(
        routing_command("dedicated", Some(DestinationPayload::Existing { project_id: 9 }), false),
        Ok(OriginRouting::Dedicated { destination: ProjectDestination::ProjectId(9), confirm: false })
    );
    assert_eq!(
        routing_command("shared", Some(DestinationPayload::Existing { project_id: 9 }), false),
        Err(error(
            422,
            "invalid_origin_routing",
            "Shared routing cannot include a project destination."
        ))
    );
    let mismatch = error(
        422,
        "invalid_origin_routing",
        "Origin routing mode and destination do not match.",
    );
    assert_eq!(routing_command("dedicated", None, false), Err(mismatch.clone()));
    assert_eq!(routing_command("other", None, false), Err(mismatch));
}

#[test]
fn prompt_summary_mode_is_off_or_smart_unless_the_collector_decides() {
    assert_eq!(prompt_summary_policy("off", false), Ok(PromptSummaryPolicy::Off));
    assert_eq!(prompt_summary_policy("smart", false), Ok(PromptSummaryPolicy::Smart));
    assert_eq!(
        prompt_summary_policy("loud", false),
        Err(error(422, "invalid_prompt_summary_mode", "Prompt summary mode must be off or smart."))
    );
    assert_eq!(
        prompt_summary_policy("smart", true),
        Err(error(
            409,
            "prompt_summaries_collector_managed",
            "Prompt summaries are configured on the collector dashboard."
        ))
    );
}

#[test]
fn collector_integration_reports_the_delivery_state() {
    let local = default_collector_integration();
    assert_eq!(local.mode, CollectorMode::Local);
    assert_eq!(local.endpoint, "http://127.0.0.1:42130");
    assert_eq!(local.connected, Some(true));
    assert_eq!(local.pending_count, 0);
    let remote = collector_integration_from_status(CollectorStatus {
        config: CollectorConfigView {
            endpoint: "https://collector.example".to_owned(),
            mode: CollectorMode::Remote,
            has_token: true,
        },
        pending: 3,
        connected: Some(false),
        last_delivery_at_us: Some(5),
        last_error: Some("offline".to_owned()),
    });
    assert_eq!(remote.endpoint, "https://collector.example");
    assert!(remote.configured && remote.token_configured);
    assert_eq!(remote.pending_count, 3);
    assert_eq!(remote.last_error.as_deref(), Some("offline"));
}

#[test]
fn collector_uploads_are_unencoded_json() {
    assert_eq!(ingest_content_check(false, Some("application/json")), Ok(()));
    assert_eq!(ingest_content_check(false, Some(" Application/JSON ; charset=utf-8")), Ok(()));
    assert_eq!(
        ingest_content_check(false, Some("text/plain")),
        Err(error(422, "invalid_content_type", "Collector captures require application/json."))
    );
    assert_eq!(
        ingest_content_check(false, None),
        Err(error(422, "invalid_content_type", "Collector captures require application/json."))
    );
    assert_eq!(
        ingest_content_check(true, Some("application/json")),
        Err(error(
            422,
            "unsupported_content_encoding",
            "Collector captures must not use content encoding."
        ))
    );
    assert_eq!(receipt_status(ReceiveOutcome::Accepted), (202, "accepted"));
    assert_eq!(receipt_status(ReceiveOutcome::Duplicate), (200, "duplicate"));
}

#[test]
fn target_failures_carry_their_text() {
    assert_eq!(
        target_error(&CodexTargetError::UnknownTarget("wsl:Ubuntu".to_owned())),
        error(404, "not_found", "unknown Codex capture target: wsl:Ubuntu")
    );
    assert_eq!(
        target_error(&CodexTargetError::NoAvailableTargets),
        error(422, "codex_target_unavailable", "no available Codex installations were detected")
    );
    assert_eq!(
        target_error(&CodexTargetError::TargetLifecycle {
            target: "local".to_owned(),
            source: Box::new(CodexLifecycleError::OversizedManifest(2_000_000)),
        }),
        error(
            422,
            "codex_hook_update_failed",
            "Codex capture target local hook update failed: Codex hook manifest is 2000000 bytes, exceeding the 1048576-byte limit"
        )
    );
    assert_eq!(
        target_error(&CodexTargetError::Gate(CaptureGateError::MissingParent)),
        error(500, "internal_error", "The request could not be completed.")
    );
    let rollback = CodexTargetError::Rollback {
        source: Box::new(CodexTargetError::UnknownTarget("a".to_owned())),
        rollback: Box::new(CodexTargetError::Gate(CaptureGateError::InvalidState("maybe".to_owned()))),
    };
    assert_eq!(
        rollback.message(),
        "unknown Codex capture target: a; additionally failed to restore Codex target state: capture gate state is invalid: maybe"
    );
}

#[test]
fn activity_listings_check_each_parameter_in_order() {
    let now = 1_700_000_000_000_000;
    assert_eq!(
        activity_list_query(Some("all"), None, false, None, None, None, None, None, None, now),
        Ok(ActivityListQuery {
            scope: ActivityScope::All,
            limit: 100,
            order: ActivityOrder::Oldest,
            filter: ActivityKindFilter { include_subagent: false, include_internal: true },
            range: ActivityTimeRange { since_us: None },
            after_id: None,
        })
    );
    assert_eq!(
        activity_list_query(
            Some("project"),
            Some("12"),
            false,
            Some(50),
            Some("newest"),
            Some(false),
            None,
            None,
            Some(3),
            now
        )
        .map(|q| (q.scope, q.limit, q.order, q.filter.include_internal, q.after_id)),
        Ok((ActivityScope::Project(12), 50, ActivityOrder::Newest, false, Some(3)))
    );
    // The scope is checked before the page size.
    assert_eq!(
        activity_list_query(Some("nowhere"), None, false, Some(0), None, None, None, None, None, now),
        Err(error(422, "invalid_pagination", "Activity scope is invalid."))
    );
    assert_eq!(
        activity_list_query(Some("all"), None, false, Some(0), Some("sideways"), None, None, None, None, now),
        Err(error(422, "invalid_pagination", "Page limit must be between 1 and 200."))
    );
    assert_eq!(
        activity_list_query(Some("all"), None, false, None, Some("sideways"), None, None, None, Some(0), now),
        Err(error(422, "invalid_pagination", "Activity page order is invalid."))
    );
    assert_eq!(
        activity_list_query(Some("all"), None, false, None, None, None, None, None, Some(0), now),
        Err(error(422, "invalid_pagination", "Page cursor must be a positive ID."))
    );
    assert_eq!(
        activity_count_query(Some("inbox"), None, false, None, Some("day"), None, now)
            .map(|q| (q.scope, q.range.since_us)),
        Ok((ActivityScope::Inbox, Some(now - 86_400_000_000)))
    );
}

#[test]
fn conversation_pages_start_at_an_offset_or_after_a_cursor() {
    assert_eq!(
        detail_page(None, None, None, None).map(|p| (p.limit, p.start)),
        Ok((100, ConversationStart::After(None)))
    );
    assert_eq!(
        detail_page(Some(20), None, Some(40), None).map(|p| p.start),
        Ok(ConversationStart::Offset(40))
    );
    let combined = error(
        422,
        "invalid_pagination",
        "Conversation offset must be non-negative and cannot be combined with a cursor.",
    );
    assert_eq!(detail_page(None, Some(5), Some(0), None), Err(combined.clone()));
    assert_eq!(detail_page(None, None, Some(-1), None), Err(combined));
    assert_eq!(
        detail_page(None, Some(-5), Some(0), None),
        Err(error(422, "invalid_pagination", "Page cursor must be a positive ID."))
    );
}

#[test]
fn regeneration_needs_the_original_result() {
    assert_eq!(regeneration_response(RegenerationOutcome::Scheduled), Ok(202));
    assert_eq!(regeneration_response(RegenerationOutcome::AlreadyPending), Ok(202));
    assert_eq!(
        regeneration_response(RegenerationOutcome::Unavailable),
        Err(error(
            422,
            "result_summary_regeneration_unavailable",
            "The original assistant result is no longer available for regeneration."
        ))
    );
}
