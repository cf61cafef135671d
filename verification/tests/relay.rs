use akra_hookers::adapter::ActivityKind;
use akra_hookers::collector::CollectorEndpoint;
use akra_hookers::collector::{response_retry_delay, CollectorError, ReceiveOutcome};
use akra_hookers::collector::{receipt_decision, receipt_digest};
use akra_hookers::relay::{
    capture_decision, item_plan, next_retry, pass_error, recovery_route, relay_batch,
    result_is_expired, retry_is_due, scan_decision, send_effect, verify_error, CaptureDecision,
    ItemPlan, RecoveryError, RecoveryRoute, RelayItem, ScanDecision, SendOutcome, SpooledItem,
    RELAY_BATCH_SIZE,
};

#[test]
fn a_pass_sends_at_most_a_batch_of_due_valid_captures() {
    assert_eq!(scan_decision(8, true), ScanDecision::Stop);
    assert_eq!(scan_decision(3, false), ScanDecision::Skip);
    assert_eq!(scan_decision(7, true), ScanDecision::Read);
    assert_eq!(capture_decision(None), CaptureDecision::Defer);
    assert_eq!(capture_decision(Some((false, true))), CaptureDecision::Defer);
    assert_eq!(capture_decision(Some((true, false))), CaptureDecision::Block);
    assert_eq!(capture_decision(Some((true, true))), CaptureDecision::Send);
}

#[test]
fn answers_acknowledge_or_schedule_a_bounded_retry() {
    let accepted = send_effect(SendOutcome::Accepted, 3);
    assert!(accepted.acknowledge);
    assert_eq!(accepted.last_error, None);
    let throttled = send_effect(SendOutcome::Refused { status: 429, retry_after_seconds: Some(3600) }, 1);
    assert!(!throttled.acknowledge);
    assert_eq!(throttled.retry_delay_seconds, Some(300));
    assert_eq!(throttled.last_error, Some("Collector did not accept the capture yet."));
    let rejected = send_effect(SendOutcome::Refused { status: 403, retry_after_seconds: None }, 1);
    assert_eq!(rejected.retry_delay_seconds, Some(300));
    assert_eq!(rejected.last_error, Some("Collector access token was rejected."));
    let missing = send_effect(SendOutcome::Refused { status: 404, retry_after_seconds: None }, 1);
    assert_eq!(missing.last_error, Some("Collector endpoint did not accept captures."));
    let down = send_effect(SendOutcome::Unreachable, 4);
    assert_eq!(down.retry_delay_seconds, Some(8));
    assert_eq!(down.last_error, Some("Collector did not respond in time."));
}

#[test]
fn blocked_destinations_are_reported_when_nothing_else_is() {
    assert_eq!(
        pass_error(2, None).as_deref(),
        Some("Queued captures belong to a previous collector destination.")
    );
    assert_eq!(pass_error(2, Some("x".to_owned())).as_deref(), Some("x"));
    assert_eq!(pass_error(0, None), None);
    assert_eq!(verify_error(true, 200), None);
    assert_eq!(verify_error(false, 401), Some("Collector access token was rejected."));
    assert_eq!(
        verify_error(false, 500),
        Some("Collector did not accept the configured connection check.")
    );
}

#[test]
fn routes_resolve_against_the_canonical_address() {
    let endpoint = CollectorEndpoint::parse("https://collector.example").expect("endpoint");
    assert_eq!(
        endpoint.route("v1/collector/ingest").as_deref(),
        Ok("https://collector.example/v1/collector/ingest")
    );
    let local = CollectorEndpoint::parse("http://127.0.0.1:42130").expect("local");
    assert_eq!(local.route("v1/collector/verify").as_deref(), Ok("http://127.0.0.1:42130/v1/collector/verify"));
}

#[test]
fn recovery_plans_each_item() {
    assert_eq!(item_plan(SpooledItem::Rejected, Some(0), 10), ItemPlan::Defer);
    assert_eq!(item_plan(SpooledItem::Undecodable, None, 10), ItemPlan::Defer);
    assert_eq!(item_plan(SpooledItem::Unreadable, Some(0), 10), ItemPlan::Retain);
    assert_eq!(item_plan(SpooledItem::Activity, Some(0), 10), ItemPlan::Store);
    assert_eq!(item_plan(SpooledItem::Result { captured_at_us: 90 }, Some(100), 10), ItemPlan::Acknowledge);
    assert_eq!(item_plan(SpooledItem::Result { captured_at_us: 91 }, Some(100), 10), ItemPlan::Store);
    assert_eq!(item_plan(SpooledItem::Result { captured_at_us: 0 }, None, 10), ItemPlan::Store);
    assert!(result_is_expired(i64::MIN, i64::MIN, 1));
    assert!(!result_is_expired(0, 5, 10));
}

#[test]
fn recovered_payloads_are_routed_by_shape() {
    assert_eq!(
        recovery_route(true, "codex", false, ActivityKind::User),
        Ok(RecoveryRoute::EnvelopeActivity { project_prompt: true, apply_context: false })
    );
    assert_eq!(
        recovery_route(true, "codex", false, ActivityKind::Subagent),
        Ok(RecoveryRoute::EnvelopeActivity { project_prompt: false, apply_context: true })
    );
    assert_eq!(recovery_route(true, "codex", true, ActivityKind::User), Ok(RecoveryRoute::EnvelopeResult));
    assert_eq!(
        recovery_route(true, "other", false, ActivityKind::User),
        Err(RecoveryError::UnsupportedProvider("other".to_owned()))
    );
    assert_eq!(recovery_route(false, "", true, ActivityKind::User), Err(RecoveryError::LegacyResult));
    assert_eq!(recovery_route(false, "", false, ActivityKind::User), Ok(RecoveryRoute::LegacyActivity));
}

fn queued(retry_due: bool, same_destination: bool) -> RelayItem {
    RelayItem { retry_due, decoded: Some((true, same_destination)) }
}

#[test]
fn retry_delayed_items_do_not_consume_the_relay_batch() {
    let mut items: Vec<RelayItem> = (0..RELAY_BATCH_SIZE).map(|_| queued(false, true)).collect();
    items.push(queued(true, true));
    let batch = relay_batch(&items);
    assert_eq!(batch.selected.len(), 1);
    assert_eq!(batch.selected[0], RELAY_BATCH_SIZE);
}

#[test]
fn previous_destination_items_do_not_consume_the_relay_batch() {
    let mut items: Vec<RelayItem> = (0..RELAY_BATCH_SIZE).map(|_| queued(true, false)).collect();
    items.push(queued(true, true));
    let batch = relay_batch(&items);
    assert_eq!(batch.blocked_destination, RELAY_BATCH_SIZE);
    assert_eq!(batch.selected, vec![RELAY_BATCH_SIZE]);
    assert!(batch.deferred.is_empty());
}

#[test]
fn a_full_batch_stops_the_pass_and_invalid_captures_are_set_aside() {
    let mut items = vec![RelayItem { retry_due: true, decoded: None }];
    items.push(RelayItem { retry_due: true, decoded: Some((false, true)) });
    items.extend((0..RELAY_BATCH_SIZE + 2).map(|_| queued(true, true)));
    items.push(RelayItem { retry_due: true, decoded: None });
    let batch = relay_batch(&items);
    assert_eq!(batch.deferred, vec![0, 1]);
    assert_eq!(batch.selected, (2..2 + RELAY_BATCH_SIZE).collect::<Vec<usize>>());
    assert_eq!(batch.blocked_destination, 0);
}

#[test]
fn retry_schedule_is_bounded_and_a_configuration_change_unblocks_it() {
    let now = 1_700_000_000_000_000i64;
    let delay = response_retry_delay(429, Some(60 * 60), 1);
    let record = next_retry(None, now, 300);
    assert!(!retry_is_due(Some(record), now));
    assert_eq!(delay, 300, "Retry-After cannot create an unbounded pause");
    assert!(retry_is_due(None, now));
}

#[test]
fn receipts_deduplicate_and_conflicting_reuse_is_rejected() {
    let first = receipt_digest("{\"capture\":\"first\"}");
    let different = receipt_digest("{\"capture\":\"different\"}");
    assert_eq!(receipt_decision(None, &first), Ok(None));
    assert_eq!(receipt_decision(Some(&first), &first), Ok(Some(ReceiveOutcome::Duplicate)));
    assert_eq!(receipt_decision(Some(&first), &different), Err(CollectorError::CaptureConflict));
}
