use akra_hookers::api::{
    activity_order, activity_scope, activity_time_range, bearer_token, collector_configuration_error,
    collector_error, collector_verification_error, page_limit, validate_cursor, validate_provider,
    ActivityOrder, ActivityScope, ActivityTimeRange, ApiError,
};
use akra_hookers::collector::CollectorError;
use akra_hookers::spool::SpoolError;

fn status_of(e: &ApiError) -> (u16, &'static str) {
    match e {
        ApiError::Unauthorized => (401, ""),
        ApiError::Status { status, code, .. } => (*status, *code),
    }
}

#[test]
fn pages_are_bounded_and_cursors_positive() {
    assert_eq!(page_limit(None), Ok(100));
    assert_eq!(page_limit(Some(200)), Ok(200));
    assert_eq!(page_limit(Some(1)), Ok(1));
    assert_eq!(status_of(&page_limit(Some(0)).unwrap_err()), (422, "invalid_pagination"));
    assert!(page_limit(Some(201)).is_err());
    assert_eq!(validate_cursor(None), Ok(()));
    assert_eq!(validate_cursor(Some(5)), Ok(()));
    assert!(validate_cursor(Some(0)).is_err());
}

#[test]
fn listing_order_and_scope() {
    assert_eq!(activity_order(None), Ok(ActivityOrder::Oldest));
    assert_eq!(activity_order(Some("newest")), Ok(ActivityOrder::Newest));
    assert!(activity_order(Some("random")).is_err());
    assert_eq!(activity_scope(Some("all"), None, false), Ok(ActivityScope::All));
    assert_eq!(activity_scope(Some("inbox"), None, false), Ok(ActivityScope::Inbox));
    assert_eq!(activity_scope(Some("project"), Some("42"), false), Ok(ActivityScope::Project(42)));
    assert!(activity_scope(Some("project"), Some("0"), false).is_err());
    assert!(activity_scope(Some("project"), Some("x"), false).is_err());
    assert!(activity_scope(Some("all"), Some("3"), false).is_err());
    assert!(activity_scope(None, None, false).is_err());
    assert_eq!(
        activity_scope(Some("all"), None, true),
        Err(ApiError::Status {
            status: 422,
            code: "invalid_pagination",
            message: "Legacy project filters are not supported.".to_owned(),
        })
    );
}

#[test]
fn periods_reach_back_from_now() {
    let now: i64 = 1_000_000_000_000;
    assert_eq!(activity_time_range(None, None, now), Ok(ActivityTimeRange { since_us: None }));
    assert_eq!(
        activity_time_range(Some("day"), None, now),
        Ok(ActivityTimeRange { since_us: Some(now - 86_400_000_000) })
    );
    assert_eq!(
        activity_time_range(Some("quarter"), None, now),
        Ok(ActivityTimeRange { since_us: Some(now - 90 * 86_400_000_000) })
    );
    let today = now - 3_600_000_000;
    assert_eq!(
        activity_time_range(Some("today"), Some(today), now),
        Ok(ActivityTimeRange { since_us: Some(today) })
    );
    assert!(activity_time_range(Some("today"), None, now).is_err());
    assert!(activity_time_range(Some("today"), Some(now + 1), now).is_err());
    assert!(activity_time_range(Some("today"), Some(now - 27 * 3_600_000_000), now).is_err());
    assert!(activity_time_range(Some("week"), Some(today), now).is_err());
    assert!(activity_time_range(Some("all"), Some(today), now).is_err());
    assert_eq!(status_of(&activity_time_range(Some("year"), None, now).unwrap_err()), (422, "invalid_period"));
}

#[test]
fn only_codex_is_a_provider() {
    assert_eq!(validate_provider("codex"), Ok(()));
    assert_eq!(status_of(&validate_provider("other").unwrap_err()), (404, "not_found"));
}

#[test]
fn a_single_bearer_header_carries_the_token() {
    assert_eq!(bearer_token(&vec![Some("Bearer abc".to_owned())]).as_deref(), Some("abc"));
    assert_eq!(bearer_token(&vec![Some("Basic abc".to_owned())]), None);
    assert_eq!(bearer_token(&vec![None]), None);
    assert_eq!(bearer_token(&Vec::new()), None);
    assert_eq!(
        bearer_token(&vec![Some("Bearer a".to_owned()), Some("Bearer b".to_owned())]),
        None
    );
}

#[test]
fn collector_failures_map_to_responses() {
    assert_eq!(collector_error(&CollectorError::Unauthorized), ApiError::Unauthorized);
    assert_eq!(status_of(&collector_error(&CollectorError::CaptureConflict)), (409, "capture_id_conflict"));
    assert_eq!(
        status_of(&collector_error(&CollectorError::Spool(SpoolError::QueueFull { items: 1, bytes: 2 }))),
        (503, "collector_queue_full")
    );
    assert_eq!(
        status_of(&collector_error(&CollectorError::Spool(SpoolError::Oversized(9)))),
        (413, "collector_capture_too_large")
    );
    assert_eq!(
        status_of(&collector_error(&CollectorError::Spool(SpoolError::NonRegular))),
        (500, "internal_error")
    );
    assert_eq!(
        status_of(&collector_error(&CollectorError::Json("x".to_owned()))),
        (422, "invalid_collector_capture")
    );
    assert_eq!(
        status_of(&collector_error(&CollectorError::InvalidToken)),
        (422, "collector_unavailable")
    );
    assert_eq!(
        status_of(&collector_configuration_error(&CollectorError::InsecureRemoteEndpoint)),
        (422, "invalid_collector_configuration")
    );
    assert_eq!(
        status_of(&collector_verification_error(&CollectorError::Http("down".to_owned()))),
        (422, "collector_unreachable")
    );
    assert_eq!(
        status_of(&collector_configuration_error(&CollectorError::Clock)),
        (500, "internal_error")
    );
}
