//! The rules of the local HTTP interface: paging, activity filters, the
//! collector's bearer token, and the response each failure is given.
use vstd::prelude::*;

use crate::collector::{CollectorError, CollectorMode, CollectorStatus, ReceiveOutcome};
use crate::spool::SpoolError;
use crate::summary::{parse_i64, parse_i64_spec, SummarizationError};
use crate::targets::{target_error_message_spec, CodexTargetError};
use crate::text::chars_of;

verus! {

/// A failed request: unauthorised, or a status with a code and a message.
#[derive(Clone, Debug, PartialEq, Eq)]
pub enum ApiError {
    Unauthorized,
    Status { status: u16, code: &'static str, message: String },
}

/// An error of `status` with `code` and `message`.
pub open spec fn api_error(status: u16, code: Seq<char>, message: Seq<char>, e: ApiError) -> bool {
    e matches ApiError::Status { status: s, code: c, message: m } && s == status && c@ == code && m@
        == message
}

/// The default page size of activity listings.
pub const DEFAULT_PAGE_SIZE: i64 = 100;

/// The largest page of activity listings.
pub const MAX_PAGE_SIZE: i64 = 200;

fn invalid_pagination(message: &'static str) -> (r: ApiError)
    ensures
        api_error(422, "invalid_pagination"@, message@, r),
{
    ApiError::Status { status: 422, code: "invalid_pagination", message: message.to_owned() }
}

/// The page size of a listing: 100 by default, otherwise 1 to 200.
pub fn page_limit(requested: Option<i64>) -> (r: Result<i64, ApiError>)
    ensures
        ({
            let limit = match requested {
                Some(l) => l,
                None => DEFAULT_PAGE_SIZE,
            };
            if 1 <= limit <= MAX_PAGE_SIZE {
                r == Ok::<i64, ApiError>(limit)
            } else {
                r matches Err(e) && api_error(
                    422,
                    "invalid_pagination"@,
                    "Page limit must be between 1 and 200."@,
                    e,
                )
            }
        }),
{
    let limit = match requested {
        Some(l) => l,
        None => DEFAULT_PAGE_SIZE,
    };
    if 1 <= limit && limit <= MAX_PAGE_SIZE {
        Ok(limit)
    } else {
        Err(invalid_pagination("Page limit must be between 1 and 200."))
    }
}

/// A page cursor, when given, is a positive id.
pub fn validate_cursor(cursor: Option<i64>) -> (r: Result<(), ApiError>)
    ensures
        (cursor matches Some(c) && c <= 0) ==> (r matches Err(e) && api_error(
            422,
            "invalid_pagination"@,
            "Page cursor must be a positive ID."@,
            e,
        )),
        !(cursor matches Some(c) && c <= 0) ==> r is Ok,
{
    match cursor {
        Some(c) => if c <= 0 {
            Err(invalid_pagination("Page cursor must be a positive ID."))
        } else {
            Ok(())
        },
        None => Ok(()),
    }
}

/// The order of an activity page.
#[derive(Clone, Copy, Debug, PartialEq, Eq, Structural)]
pub enum ActivityOrder {
    Oldest,
    Newest,
}

/// The order a listing asks for: `oldest` (the default) or `newest`.
pub fn activity_order(order: Option<&str>) -> (r: Result<ActivityOrder, ApiError>)
    ensures
        ({
            let o = match order {
                Some(s) => s@,
                None => "oldest"@,
            };
            if o == "oldest"@ {
                r == Ok::<ActivityOrder, ApiError>(ActivityOrder::Oldest)
            } else if o == "newest"@ {
                r == Ok::<ActivityOrder, ApiError>(ActivityOrder::Newest)
            } else {
                r matches Err(e) && api_error(
                    422,
                    "invalid_pagination"@,
                    "Activity page order is invalid."@,
                    e,
                )
            }
        }),
{
    proof {
        reveal_strlit("oldest");
        reveal_strlit("newest");
    }
    let o = match order {
        Some(s) => chars_of(s),
        None => chars_of("oldest"),
    };
    if crate::text::eq_str(o.as_slice(), "oldest") {
        Ok(ActivityOrder::Oldest)
    } else if crate::text::eq_str(o.as_slice(), "newest") {
        Ok(ActivityOrder::Newest)
    } else {
        Err(invalid_pagination("Activity page order is invalid."))
    }
}

/// Which activities a listing covers.
#[derive(Clone, Copy, Debug, PartialEq, Eq, Structural)]
pub enum ActivityScope {
    All,
    Inbox,
    Project(i64),
}

/// The scope a listing asks for: `all` or `inbox` without a project, or
/// `project` with a positive project id. A legacy project filter is
/// refused.
pub open spec fn activity_scope_spec(scope: Option<Seq<char>>, project_id: Option<Seq<char>>, legacy_project: bool) -> Result<ActivityScope, Seq<char>> {
    if legacy_project {
        Err("Legacy project filters are not supported."@)
    } else {
        match (scope, project_id) {
            (Some(s), None) => if s == "all"@ {
                Ok(ActivityScope::All)
            } else if s == "inbox"@ {
                Ok(ActivityScope::Inbox)
            } else {
                Err("Activity scope is invalid."@)
            },
            (Some(s), Some(p)) => if s == "project"@ {
                match parse_i64_spec(p) {
                    Some(v) => if v > 0 {
                        Ok(ActivityScope::Project(v as i64))
                    } else {
                        Err("A positive project_id is required."@)
                    },
                    None => Err("A positive project_id is required."@),
                }
            } else {
                Err("Activity scope is invalid."@)
            },
            _ => Err("Activity scope is invalid."@),
        }
    }
}

pub fn activity_scope(scope: Option<&str>, project_id: Option<&str>, legacy_project: bool) -> (r: Result<ActivityScope, ApiError>)
    ensures
        match activity_scope_spec(
            crate::targets::opt_str(scope),
            crate::targets::opt_str(project_id),
            legacy_project,
        ) {
            Ok(s) => r == Ok::<ActivityScope, ApiError>(s),
            Err(m) => r matches Err(e) && api_error(422, "invalid_pagination"@, m, e),
        },
{
    if legacy_project {
        return Err(invalid_pagination("Legacy project filters are not supported."));
    }
    proof {
        reveal_strlit("all");
        reveal_strlit("inbox");
        reveal_strlit("project");
    }
    match (scope, project_id) {
        (Some(s), None) => {
            let c = chars_of(s);
            if crate::text::eq_str(c.as_slice(), "all") {
                Ok(ActivityScope::All)
            } else if crate::text::eq_str(c.as_slice(), "inbox") {
                Ok(ActivityScope::Inbox)
            } else {
                Err(invalid_pagination("Activity scope is invalid."))
            }
        },
        (Some(s), Some(p)) => {
            let c = chars_of(s);
            if crate::text::eq_str(c.as_slice(), "project") {
                match parse_i64(chars_of(p).as_slice()) {
                    Some(v) => if v > 0 {
                        Ok(ActivityScope::Project(v))
                    } else {
                        Err(invalid_pagination("A positive project_id is required."))
                    },
                    None => Err(invalid_pagination("A positive project_id is required.")),
                }
            } else {
                Err(invalid_pagination("Activity scope is invalid."))
            }
        },
        _ => Err(invalid_pagination("Activity scope is invalid.")),
    }
}

/// The time window of a listing: everything, or what happened since a
/// moment.
#[derive(Clone, Copy, Debug, PartialEq, Eq, Structural)]
pub struct ActivityTimeRange {
    pub since_us: Option<i64>,
}

/// The hours a named period covers.
pub open spec fn period_hours(p: Seq<char>) -> Option<i64> {
    if p == "day"@ {
        Some(24)
    } else if p == "week"@ {
        Some(168)
    } else if p == "month"@ {
        Some(720)
    } else if p == "quarter"@ {
        Some(2160)
    } else {
        None
    }
}

/// The longest local calendar day, in microseconds.
pub open spec fn max_calendar_day_us() -> int {
    93_600_000_000int
}

/// The window a listing asks for at `now_us`: `all` (the default, without
/// a day start) is everything; `today` needs a recent local day start;
/// `day`, `week`, `month` and `quarter` reach back that many hours and take
/// no day start.
pub open spec fn time_range_spec(period: Option<Seq<char>>, start_at_us: Option<i64>, now_us: i64) -> Result<Option<i64>, Seq<char>> {
    let p = match period {
        Some(s) => s,
        None => "all"@,
    };
    if p == "all"@ && start_at_us is None {
        Ok(None)
    } else if p == "today"@ {
        match start_at_us {
            None => Err("Today requires the browser's local calendar-day start."@),
            Some(s) => if s <= 0 || s > now_us || s < crate::spool::saturating_i64(
                now_us - max_calendar_day_us(),
            ) {
                Err("Today start must be a recent local calendar-day boundary."@)
            } else {
                Ok(Some(s))
            },
        }
    } else {
        match period_hours(p) {
            None => Err("Activity period must be all, today, day, week, month, or quarter."@),
            Some(h) => if start_at_us is Some {
                Err("A calendar-day start is only valid for the today period."@)
            } else {
                Ok(Some(crate::spool::saturating_i64(now_us - h * 3_600_000_000)))
            },
        }
    }
}

pub fn activity_time_range(period: Option<&str>, start_at_us: Option<i64>, now_us: i64) -> (r: Result<ActivityTimeRange, ApiError>)
    ensures
        match time_range_spec(crate::targets::opt_str(period), start_at_us, now_us) {
            Ok(since) => r == Ok::<ActivityTimeRange, ApiError>(ActivityTimeRange { since_us: since }),
            Err(m) => r matches Err(e) && api_error(422, "invalid_period"@, m, e),
        },
{
    proof {
        reveal_strlit("all");
        reveal_strlit("today");
        reveal_strlit("day");
        reveal_strlit("week");
        reveal_strlit("month");
        reveal_strlit("quarter");
    }
    let p = match period {
        Some(s) => chars_of(s),
        None => chars_of("all"),
    };
    if crate::text::eq_str(p.as_slice(), "all") && start_at_us.is_none() {
        return Ok(ActivityTimeRange { since_us: None });
    }
    if crate::text::eq_str(p.as_slice(), "today") {
        return match start_at_us {
            None => Err(
                ApiError::Status {
                    status: 422,
                    code: "invalid_period",
                    message: "Today requires the browser's local calendar-day start.".to_owned(),
                },
            ),
            Some(s) => {
                let earliest = crate::spool::saturating_sub_i64(now_us, 93_600_000_000);
                if s <= 0 || s > now_us || s < earliest {
                    Err(
                        ApiError::Status {
                            status: 422,
                            code: "invalid_period",
                            message: "Today start must be a recent local calendar-day boundary.".to_owned(),
                        },
                    )
                } else {
                    Ok(ActivityTimeRange { since_us: Some(s) })
                }
            },
        };
    }
    let hours: i64 = if crate::text::eq_str(p.as_slice(), "day") {
        24
    } else if crate::text::eq_str(p.as_slice(), "week") {
        168
    } else if crate::text::eq_str(p.as_slice(), "month") {
        720
    } else if crate::text::eq_str(p.as_slice(), "quarter") {
        2160
    } else {
        return Err(
            ApiError::Status {
                status: 422,
                code: "invalid_period",
                message: "Activity period must be all, today, day, week, month, or quarter.".to_owned(),
            },
        );
    };
    if start_at_us.is_some() {
        return Err(
            ApiError::Status {
                status: 422,
                code: "invalid_period",
                message: "A calendar-day start is only valid for the today period.".to_owned(),
            },
        );
    }
    let duration: i64 = hours * 3_600_000_000;
    Ok(ActivityTimeRange { since_us: Some(crate::spool::saturating_sub_i64(now_us, duration)) })
}

/// Only the Codex provider exists.
pub fn validate_provider(provider: &str) -> (r: Result<(), ApiError>)
    ensures
        provider@ == "codex"@ ==> r is Ok,
        provider@ != "codex"@ ==> (r matches Err(e) && api_error(404, "not_found"@, "Provider not found."@, e)),
{
    if crate::text::eq_str(chars_of(provider).as_slice(), "codex") {
        Ok(())
    } else {
        Err(ApiError::Status { status: 404, code: "not_found", message: "Provider not found.".to_owned() })
    }
}

/// The collector token a request presents: the text after `Bearer ` of its
/// only `Authorization` header (`values`: each header's value when it is
/// visible ASCII).
pub open spec fn bearer_spec(values: Seq<Option<Seq<char>>>) -> Option<Seq<char>> {
    if values.len() != 1 {
        None
    } else {
        match values[0] {
            None => None,
            Some(v) => if crate::text::starts_with_spec(v, "Bearer "@) {
                Some(v.skip(7))
            } else {
                None
            },
        }
    }
}

pub open spec fn header_views(v: Seq<Option<String>>) -> Seq<Option<Seq<char>>> {
    v.map_values(|o: Option<String>| crate::adapter::opt_view(o))
}

pub fn bearer_token(values: &Vec<Option<String>>) -> (r: Option<String>)
    ensures
        match bearer_spec(header_views(values@)) {
            Some(t) => r matches Some(s) && s@ == t,
            None => r is None,
        },
{
    if values.len() != 1 {
        return None;
    }
    assert(header_views(values@)[0] == crate::adapter::opt_view(values@[0]));
    match &values[0] {
        None => None,
        Some(v) => {
            let c = chars_of(v.as_str());
            proof {
                reveal_strlit("Bearer ");
            }
            if crate::text::starts_with_str(c.as_slice(), "Bearer ") {
                let rest = crate::text::sub_vec(c.as_slice(), 7, c.len());
                assert(rest@ =~= c@.skip(7));
                Some(crate::text::string_from_chars(rest.as_slice()))
            } else {
                None
            }
        },
    }
}

fn status(s: u16, code: &'static str, message: &str) -> (r: ApiError)
    ensures
        api_error(s, code@, message@, r),
{
    ApiError::Status { status: s, code, message: message.to_owned() }
}

/// The response to a failed collector ingress.
pub open spec fn collector_error_spec(e: CollectorError, r: ApiError) -> bool {
    match e {
        CollectorError::Unauthorized => r == ApiError::Unauthorized,
        CollectorError::CaptureConflict => api_error(
            409,
            "capture_id_conflict"@,
            "Capture ID was already used with different content."@,
            r,
        ),
        CollectorError::InvalidRemoteCapture | CollectorError::Envelope(_) | CollectorError::Json(_) => api_error(
            422,
            "invalid_collector_capture"@,
            "Collector capture is invalid."@,
            r,
        ),
        CollectorError::Spool(SpoolError::QueueFull { .. }) => api_error(
            503,
            "collector_queue_full"@,
            "Collector is temporarily at capacity. Retry later."@,
            r,
        ),
        CollectorError::Spool(SpoolError::Oversized(_)) => api_error(
            413,
            "collector_capture_too_large"@,
            "Collector capture exceeds the accepted size."@,
            r,
        ),
        CollectorError::Spool(_) | CollectorError::Io(_) | CollectorError::StatePoisoned
        | CollectorError::Clock | CollectorError::MissingParent => api_error(
            500,
            "internal_error"@,
            "The request could not be completed."@,
            r,
        ),
        _ => api_error(422, "collector_unavailable"@, "Collector configuration is unavailable."@, r),
    }
}

pub fn collector_error(error: &CollectorError) -> (r: ApiError)
    ensures
        collector_error_spec(*error, r),
{
    match error {
        CollectorError::Unauthorized => ApiError::Unauthorized,
        CollectorError::CaptureConflict => status(
            409,
            "capture_id_conflict",
            "Capture ID was already used with different content.",
        ),
        CollectorError::InvalidRemoteCapture | CollectorError::Envelope(_) | CollectorError::Json(_) => status(
            422,
            "invalid_collector_capture",
            "Collector capture is invalid.",
        ),
        CollectorError::Spool(SpoolError::QueueFull { .. }) => status(
            503,
            "collector_queue_full",
            "Collector is temporarily at capacity. Retry later.",
        ),
        CollectorError::Spool(SpoolError::Oversized(_)) => status(
            413,
            "collector_capture_too_large",
            "Collector capture exceeds the accepted size.",
        ),
        CollectorError::Spool(_) | CollectorError::Io(_) | CollectorError::StatePoisoned
        | CollectorError::Clock | CollectorError::MissingParent => status(
            500,
            "internal_error",
            "The request could not be completed.",
        ),
        _ => status(422, "collector_unavailable", "Collector configuration is unavailable."),
    }
}

/// The response to a failed collector configuration: an unusable address
/// or token, an unreachable collector, or an internal failure.
pub open spec fn configuration_error_spec(e: CollectorError, r: ApiError) -> bool {
    match e {
        CollectorError::InvalidEndpoint(_) | CollectorError::InsecureRemoteEndpoint
        | CollectorError::RemoteTokenRequired | CollectorError::InvalidToken
        | CollectorError::InvalidConfig => api_error(
            422,
            "invalid_collector_configuration"@,
            "Use a loopback http address or an HTTPS collector with an access token."@,
            r,
        ),
        CollectorError::Http(_) => api_error(
            422,
            "collector_unreachable"@,
            "Collector could not be reached. Check the address, token, and TLS certificate."@,
            r,
        ),
        _ => api_error(500, "internal_error"@, "The request could not be completed."@, r),
    }
}

pub fn collector_configuration_error(error: &CollectorError) -> (r: ApiError)
    ensures
        configuration_error_spec(*error, r),
{
    match error {
        CollectorError::InvalidEndpoint(_) | CollectorError::InsecureRemoteEndpoint
        | CollectorError::RemoteTokenRequired | CollectorError::InvalidToken
        | CollectorError::InvalidConfig => status(
            422,
            "invalid_collector_configuration",
            "Use a loopback http address or an HTTPS collector with an access token.",
        ),
        CollectorError::Http(_) => status(
            422,
            "collector_unreachable",
            "Collector could not be reached. Check the address, token, and TLS certificate.",
        ),
        _ => status(500, "internal_error", "The request could not be completed."),
    }
}

/// A failed verification is answered as a failed configuration.
pub fn collector_verification_error(error: &CollectorError) -> (r: ApiError)
    ensures
        configuration_error_spec(*error, r),
{
    collector_configuration_error(error)
}

// ---------------------------------------------------------------------------
// Log curation and work items
// ---------------------------------------------------------------------------
/// The default number of logs listed for curation.
pub const DEFAULT_LOG_LIMIT: i64 = 100;

/// The largest number of logs listed for curation.
pub const MAX_LOG_LIMIT: i64 = 200;

/// Which logs a curation listing shows.
#[derive(Clone, Copy, Debug, PartialEq, Eq, Structural)]
pub enum CurationLogFilter {
    Unreviewed,
    Excluded,
    Organized,
    All,
}

/// A checked curation listing request.
#[derive(Clone, Copy, Debug, PartialEq, Eq, Structural)]
pub struct CurationLogQuery {
    pub project_id: i64,
    pub filter: CurationLogFilter,
    pub range: ActivityTimeRange,
    pub limit: i64,
}

/// The filter a state name selects.
pub open spec fn curation_filter_spec(state: Seq<char>) -> Option<CurationLogFilter> {
    if state == "unreviewed"@ {
        Some(CurationLogFilter::Unreviewed)
    } else if state == "excluded"@ {
        Some(CurationLogFilter::Excluded)
    } else if state == "organized"@ {
        Some(CurationLogFilter::Organized)
    } else if state == "all"@ {
        Some(CurationLogFilter::All)
    } else {
        None
    }
}

fn curation_filter(state: Option<&str>) -> (r: Option<CurationLogFilter>)
    ensures
        r == curation_filter_spec(
            match state {
                Some(s) => s@,
                None => "unreviewed"@,
            },
        ),
{
    let s = match state {
        Some(s) => chars_of(s),
        None => chars_of("unreviewed"),
    };
    if crate::text::eq_str(s.as_slice(), "unreviewed") {
        Some(CurationLogFilter::Unreviewed)
    } else if crate::text::eq_str(s.as_slice(), "excluded") {
        Some(CurationLogFilter::Excluded)
    } else if crate::text::eq_str(s.as_slice(), "organized") {
        Some(CurationLogFilter::Organized)
    } else if crate::text::eq_str(s.as_slice(), "all") {
        Some(CurationLogFilter::All)
    } else {
        None
    }
}

/// Checks a curation listing: a positive project, a known state
/// (`unreviewed` by default), a limit of 1 to 200 (100 by default) and a
/// valid period, in that order.
pub fn curation_log_query(
    project_id: i64,
    state: Option<&str>,
    limit: Option<i64>,
    period: Option<&str>,
    start_at_us: Option<i64>,
    now_us: i64,
) -> (r: Result<CurationLogQuery, ApiError>)
    ensures
        project_id <= 0 ==> (r matches Err(e) && api_error(
            422,
            "invalid_project_id"@,
            "A positive project_id is required."@,
            e,
        )),
        project_id > 0 ==> ({
            let l = match limit {
                Some(x) => x,
                None => DEFAULT_LOG_LIMIT,
            };
            match curation_filter_spec(
                match state {
                    Some(s) => s@,
                    None => "unreviewed"@,
                },
            ) {
                None => r matches Err(e) && api_error(
                    422,
                    "invalid_curation_state"@,
                    "Curation state must be unreviewed, excluded, organized, or all."@,
                    e,
                ),
                Some(f) => if !(1 <= l <= MAX_LOG_LIMIT) {
                    r matches Err(e) && api_error(
                        422,
                        "invalid_page_limit"@,
                        "Curation log limit must be between 1 and 200."@,
                        e,
                    )
                } else {
                    match time_range_spec(crate::targets::opt_str(period), start_at_us, now_us) {
                        Ok(since) => r == Ok::<CurationLogQuery, ApiError>(
                            CurationLogQuery {
                                project_id,
                                filter: f,
                                range: ActivityTimeRange { since_us: since },
                                limit: l,
                            },
                        ),
                        Err(m) => r matches Err(e) && api_error(422, "invalid_period"@, m, e),
                    }
                },
            }
        }),
{
    if project_id <= 0 {
        return Err(status(422, "invalid_project_id", "A positive project_id is required."));
    }
    let filter = match curation_filter(state) {
        Some(f) => f,
        None => {
            return Err(
                status(
                    422,
                    "invalid_curation_state",
                    "Curation state must be unreviewed, excluded, organized, or all.",
                ),
            );
        },
    };
    let l = match limit {
        Some(x) => x,
        None => DEFAULT_LOG_LIMIT,
    };
    if l < 1 || l > MAX_LOG_LIMIT {
        return Err(
            status(422, "invalid_page_limit", "Curation log limit must be between 1 and 200."),
        );
    }
    let range = activity_time_range(period, start_at_us, now_us)?;
    Ok(CurationLogQuery { project_id, filter, range, limit: l })
}

/// A work listing's optional project must be positive.
pub fn work_items_project(project_id: Option<i64>) -> (r: Result<(), ApiError>)
    ensures
        (project_id matches Some(id) && id <= 0) ==> (r matches Err(e) && api_error(
            422,
            "invalid_project_id"@,
            "project_id must be positive."@,
            e,
        )),
        !(project_id matches Some(id) && id <= 0) ==> r is Ok,
{
    match project_id {
        Some(id) if id <= 0 => Err(status(422, "invalid_project_id", "project_id must be positive.")),
        _ => Ok(()),
    }
}

/// A work update names a title, a complete position, or both.
pub fn work_update_check(has_title: bool, has_x: bool, has_y: bool) -> (r: Result<(), ApiError>)
    ensures
        (!has_title && !has_x && !has_y) ==> (r matches Err(e) && api_error(
            422,
            "empty_work_update"@,
            "Provide a title or a complete position."@,
            e,
        )),
        !(!has_title && !has_x && !has_y) && has_x != has_y ==> (r matches Err(e) && api_error(
            422,
            "incomplete_work_position"@,
            "position_x and position_y must be provided together."@,
            e,
        )),
        !(!has_title && !has_x && !has_y) && has_x == has_y ==> r is Ok,
{
    if !has_title && !has_x && !has_y {
        return Err(status(422, "empty_work_update", "Provide a title or a complete position."));
    }
    if has_x != has_y {
        return Err(
            status(
                422,
                "incomplete_work_position",
                "position_x and position_y must be provided together.",
            ),
        );
    }
    Ok(())
}

/// The response to a failed curation proposal.
pub open spec fn curation_error_spec(e: SummarizationError, r: ApiError) -> bool {
    match e {
        SummarizationError::CurationInputTooLarge(_) => api_error(
            413,
            "curation_input_too_large"@,
            "The selected summaries exceed the curation input budget."@,
            r,
        ),
        SummarizationError::InvalidCurationOutput(_) | SummarizationError::Json(_) => api_error(
            503,
            "curation_output_invalid"@,
            "Codex Spark returned an invalid grouping. Try again or select fewer logs."@,
            r,
        ),
        _ => api_error(
            503,
            "curation_runtime_unavailable"@,
            "Codex Spark could not organize the selected logs. The logs were not changed."@,
            r,
        ),
    }
}

pub fn curation_error(error: &SummarizationError) -> (r: ApiError)
    ensures
        curation_error_spec(*error, r),
{
    match error {
        SummarizationError::CurationInputTooLarge(_) => status(
            413,
            "curation_input_too_large",
            "The selected summaries exceed the curation input budget.",
        ),
        SummarizationError::InvalidCurationOutput(_) | SummarizationError::Json(_) => status(
            503,
            "curation_output_invalid",
            "Codex Spark returned an invalid grouping. Try again or select fewer logs.",
        ),
        _ => status(
            503,
            "curation_runtime_unavailable",
            "Codex Spark could not organize the selected logs. The logs were not changed.",
        ),
    }
}

// ---------------------------------------------------------------------------
// Assigning activities and routing origins
// ---------------------------------------------------------------------------
/// A project named in a request: an existing one by id, or a new one by
/// name.
#[derive(Clone, Debug, PartialEq, Eq)]
pub enum DestinationPayload {
    Existing { project_id: i64 },
    New { new_project_name: String },
}

/// An assignment's destination as sent: absent, or present (`None` for the
/// inbox).
#[derive(Clone, Debug, PartialEq, Eq)]
pub enum RequiredDestination {
    Missing,
    Present(Option<DestinationPayload>),
}

/// What an assignment does to the origin's future routing: keep it,
/// route the origin to the destination from now on (`set` in requests), or
/// clear it.
#[derive(Clone, Copy, Debug, PartialEq, Eq, Structural)]
pub enum FutureRoute {
    Unchanged,
    Route,
    Clear,
}

/// Where assigned activities go.
#[derive(Clone, Debug, PartialEq, Eq)]
pub enum AssignmentDestination {
    Inbox,
    ProjectId(i64),
    NewProjectName(String),
}

/// A checked assignment.
#[derive(Clone, Debug, PartialEq, Eq)]
pub struct AssignmentCommand {
    pub activity_ids: Vec<i64>,
    pub destination: AssignmentDestination,
    pub future_route: FutureRoute,
}

/// The destination an optional payload names.
pub open spec fn assignment_destination_spec(d: Option<DestinationPayload>) -> AssignmentDestination {
    match d {
        None => AssignmentDestination::Inbox,
        Some(DestinationPayload::Existing { project_id }) => AssignmentDestination::ProjectId(project_id),
        Some(DestinationPayload::New { new_project_name }) => AssignmentDestination::NewProjectName(
            new_project_name,
        ),
    }
}

/// An assignment needs a destination.
pub fn assignment_command(
    activity_ids: Vec<i64>,
    destination: RequiredDestination,
    future_route: FutureRoute,
) -> (r: Result<AssignmentCommand, ApiError>)
    ensures
        destination is Missing ==> (r matches Err(e) && api_error(
            422,
            "missing_assignment_destination"@,
            "Activity assignment requires a destination."@,
            e,
        )),
        destination matches RequiredDestination::Present(d) ==> r == Ok::<AssignmentCommand, ApiError>(
            AssignmentCommand {
                activity_ids,
                destination: assignment_destination_spec(d),
                future_route,
            },
        ),
{
    let destination = match destination {
        RequiredDestination::Missing => {
            return Err(
                status(
                    422,
                    "missing_assignment_destination",
                    "Activity assignment requires a destination.",
                ),
            );
        },
        RequiredDestination::Present(None) => AssignmentDestination::Inbox,
        RequiredDestination::Present(Some(DestinationPayload::Existing { project_id })) => {
            AssignmentDestination::ProjectId(project_id)
        },
        RequiredDestination::Present(Some(DestinationPayload::New { new_project_name })) => {
            AssignmentDestination::NewProjectName(new_project_name)
        },
    };
    Ok(AssignmentCommand { activity_ids, destination, future_route })
}

/// A project an origin is routed to.
#[derive(Clone, Debug, PartialEq, Eq)]
pub enum ProjectDestination {
    ProjectId(i64),
    NewProjectName(String),
}

/// How an origin's activities are routed.
#[derive(Clone, Debug, PartialEq, Eq)]
pub enum OriginRouting {
    Shared { confirm: bool },
    Dedicated { destination: ProjectDestination, confirm: bool },
}

pub open spec fn project_destination_spec(d: DestinationPayload) -> ProjectDestination {
    match d {
        DestinationPayload::Existing { project_id } => ProjectDestination::ProjectId(project_id),
        DestinationPayload::New { new_project_name } => ProjectDestination::NewProjectName(
            new_project_name,
        ),
    }
}

/// A routing request: `shared` without a destination, or `dedicated` with
/// one.
pub fn routing_command(mode: &str, destination: Option<DestinationPayload>, confirm: bool) -> (r:
    Result<OriginRouting, ApiError>)
    ensures
        mode@ == "shared"@ && destination is None ==> r == Ok::<OriginRouting, ApiError>(
            OriginRouting::Shared { confirm },
        ),
        mode@ == "shared"@ && destination is Some ==> (r matches Err(e) && api_error(
            422,
            "invalid_origin_routing"@,
            "Shared routing cannot include a project destination."@,
            e,
        )),
        mode@ == "dedicated"@ ==> (destination matches Some(d) ==> r == Ok::<OriginRouting, ApiError>(
            OriginRouting::Dedicated { destination: project_destination_spec(d), confirm },
        )),
        mode@ != "shared"@ && !(mode@ == "dedicated"@ && destination is Some) ==> (r matches Err(e)
            && api_error(
            422,
            "invalid_origin_routing"@,
            "Origin routing mode and destination do not match."@,
            e,
        )),
{
    let m = chars_of(mode);
    proof {
        reveal_strlit("shared");
        reveal_strlit("dedicated");
        assert("shared"@.len() != "dedicated"@.len());
    }
    if crate::text::eq_str(m.as_slice(), "shared") {
        return match destination {
            None => Ok(OriginRouting::Shared { confirm }),
            Some(_) => Err(
                status(
                    422,
                    "invalid_origin_routing",
                    "Shared routing cannot include a project destination.",
                ),
            ),
        };
    }
    if crate::text::eq_str(m.as_slice(), "dedicated") {
        if let Some(d) = destination {
            let destination = match d {
                DestinationPayload::Existing { project_id } => ProjectDestination::ProjectId(project_id),
                DestinationPayload::New { new_project_name } => ProjectDestination::NewProjectName(
                    new_project_name,
                ),
            };
            return Ok(OriginRouting::Dedicated { destination, confirm });
        }
    }
    Err(status(422, "invalid_origin_routing", "Origin routing mode and destination do not match."))
}

// ---------------------------------------------------------------------------
// Provider settings
// ---------------------------------------------------------------------------
/// Whether new prompts get a context summary.
#[derive(Clone, Copy, Debug, PartialEq, Eq, Structural)]
pub enum PromptSummaryPolicy {
    Off,
    Smart,
}

/// The prompt summary mode a request sets: refused while a remote
/// collector keeps the activity; otherwise `off` or `smart`.
pub fn prompt_summary_policy(mode: &str, collector_remote: bool) -> (r: Result<
    PromptSummaryPolicy,
    ApiError,
>)
    ensures
        collector_remote ==> (r matches Err(e) && api_error(
            409,
            "prompt_summaries_collector_managed"@,
            "Prompt summaries are configured on the collector dashboard."@,
            e,
        )),
        !collector_remote && mode@ == "off"@ ==> r == Ok::<PromptSummaryPolicy, ApiError>(
            PromptSummaryPolicy::Off,
        ),
        !collector_remote && mode@ == "smart"@ ==> r == Ok::<PromptSummaryPolicy, ApiError>(
            PromptSummaryPolicy::Smart,
        ),
        !collector_remote && mode@ != "off"@ && mode@ != "smart"@ ==> (r matches Err(e) && api_error(
            422,
            "invalid_prompt_summary_mode"@,
            "Prompt summary mode must be off or smart."@,
            e,
        )),
{
    if collector_remote {
        return Err(
            status(
                409,
                "prompt_summaries_collector_managed",
                "Prompt summaries are configured on the collector dashboard.",
            ),
        );
    }
    let m = chars_of(mode);
    proof {
        reveal_strlit("off");
        reveal_strlit("smart");
        assert("off"@.len() != "smart"@.len());
    }
    if crate::text::eq_str(m.as_slice(), "off") {
        Ok(PromptSummaryPolicy::Off)
    } else if crate::text::eq_str(m.as_slice(), "smart") {
        Ok(PromptSummaryPolicy::Smart)
    } else {
        Err(status(422, "invalid_prompt_summary_mode", "Prompt summary mode must be off or smart."))
    }
}

/// What the provider view shows of capture delivery.
#[derive(Clone, Debug, PartialEq, Eq)]
pub struct CollectorIntegration {
    pub mode: CollectorMode,
    pub endpoint: String,
    pub configured: bool,
    pub token_configured: bool,
    pub connected: Option<bool>,
    pub last_delivery_at_us: Option<i64>,
    pub pending_count: usize,
    pub last_error: Option<String>,
}

/// Delivery as shown without a collector: the local default, connected.
pub fn default_collector_integration() -> (r: CollectorIntegration)
    ensures
        r.mode == CollectorMode::Local,
        r.endpoint@ == "http://127.0.0.1:42130"@,
        r.configured,
        !r.token_configured,
        r.connected == Some(true),
        r.last_delivery_at_us is None,
        r.pending_count == 0,
        r.last_error is None,
{
    CollectorIntegration {
        mode: CollectorMode::Local,
        endpoint: "http://127.0.0.1:42130".to_owned(),
        configured: true,
        token_configured: false,
        connected: Some(true),
        last_delivery_at_us: None,
        pending_count: 0,
        last_error: None,
    }
}

/// Delivery as a collector reports it.
pub fn collector_integration_from_status(status: CollectorStatus) -> (r: CollectorIntegration)
    ensures
        r == (CollectorIntegration {
            mode: status.config.mode,
            endpoint: status.config.endpoint,
            configured: true,
            token_configured: status.config.has_token,
            connected: status.connected,
            last_delivery_at_us: status.last_delivery_at_us,
            pending_count: status.pending,
            last_error: status.last_error,
        }),
{
    CollectorIntegration {
        mode: status.config.mode,
        endpoint: status.config.endpoint,
        configured: true,
        token_configured: status.config.has_token,
        connected: status.connected,
        last_delivery_at_us: status.last_delivery_at_us,
        pending_count: status.pending,
        last_error: status.last_error,
    }
}

// ---------------------------------------------------------------------------
// Collector ingress
// ---------------------------------------------------------------------------
/// The media type of a `Content-Type` value: the text before the first
/// `;`, trimmed and ASCII-lowercased.
pub open spec fn media_type_spec(content_type: Seq<char>) -> Seq<char> {
    let end = match crate::text::first_occurrence_from(content_type, seq![';'], 0) {
        Some(i) => i,
        None => content_type.len() as int,
    };
    crate::text::ascii_lower_seq(crate::text::trim_spec(content_type.take(end)))
}

/// A capture upload must be unencoded JSON (`content_type` is `None` when
/// the header is absent or not text).
pub fn ingest_content_check(has_content_encoding: bool, content_type: Option<&str>) -> (r: Result<
    (),
    ApiError,
>)
    ensures
        has_content_encoding ==> (r matches Err(e) && api_error(
            422,
            "unsupported_content_encoding"@,
            "Collector captures must not use content encoding."@,
            e,
        )),
        !has_content_encoding && media_type_spec(
            match content_type {
                Some(c) => c@,
                None => Seq::empty(),
            },
        ) == "application/json"@ ==> r is Ok,
        !has_content_encoding && media_type_spec(
            match content_type {
                Some(c) => c@,
                None => Seq::empty(),
            },
        ) != "application/json"@ ==> (r matches Err(e) && api_error(
            422,
            "invalid_content_type"@,
            "Collector captures require application/json."@,
            e,
        )),
{
    if has_content_encoding {
        return Err(
            status(
                422,
                "unsupported_content_encoding",
                "Collector captures must not use content encoding.",
            ),
        );
    }
    let c = match content_type {
        Some(c) => chars_of(c),
        None => Vec::new(),
    };
    let semicolon: Vec<char> = vec![';'];
    assert(semicolon@ =~= seq![';']);
    proof {
        crate::text::lemma_first_occurrence_from(c@, seq![';'], 0);
    }
    let end = match crate::text::find_from(c.as_slice(), semicolon.as_slice(), 0) {
        Some(i) => i,
        None => c.len(),
    };
    let head = crate::text::sub_vec(c.as_slice(), 0, end);
    assert(head@ =~= c@.take(end as int));
    let media = crate::text::ascii_lower(crate::text::trim(head.as_slice()).as_slice());
    if crate::text::eq_str(media.as_slice(), "application/json") {
        Ok(())
    } else {
        Err(status(422, "invalid_content_type", "Collector captures require application/json."))
    }
}

/// The answer to a received capture: 202 `accepted`, or 200 `duplicate`.
pub fn receipt_status(outcome: ReceiveOutcome) -> (r: (u16, &'static str))
    ensures
        outcome == ReceiveOutcome::Accepted ==> r.0 == 202 && r.1@ == "accepted"@,
        outcome == ReceiveOutcome::Duplicate ==> r.0 == 200 && r.1@ == "duplicate"@,
{
    match outcome {
        ReceiveOutcome::Accepted => (202, "accepted"),
        ReceiveOutcome::Duplicate => (200, "duplicate"),
    }
}

/// The response to a failed target change: an unknown target, one that
/// cannot be enabled, or a failed hook update, each with the failure's
/// text; anything else is an internal error.
pub open spec fn target_error_spec(e: CodexTargetError, r: ApiError) -> bool {
    match e {
        CodexTargetError::UnknownTarget(_) => api_error(404, "not_found"@, target_error_message_spec(e), r),
        CodexTargetError::NoAvailableTargets | CodexTargetError::UnavailableTarget { .. } => api_error(
            422,
            "codex_target_unavailable"@,
            target_error_message_spec(e),
            r,
        ),
        CodexTargetError::TargetLifecycle { .. } => api_error(
            422,
            "codex_hook_update_failed"@,
            target_error_message_spec(e),
            r,
        ),
        CodexTargetError::Gate(_) | CodexTargetError::Rollback { .. } => api_error(
            500,
            "internal_error"@,
            "The request could not be completed."@,
            r,
        ),
    }
}

pub fn target_error(error: &CodexTargetError) -> (r: ApiError)
    ensures
        target_error_spec(*error, r),
{
    match error {
        CodexTargetError::UnknownTarget(_) => ApiError::Status {
            status: 404,
            code: "not_found",
            message: error.message(),
        },
        CodexTargetError::NoAvailableTargets | CodexTargetError::UnavailableTarget { .. } => {
            ApiError::Status { status: 422, code: "codex_target_unavailable", message: error.message() }
        },
        CodexTargetError::TargetLifecycle { .. } => ApiError::Status {
            status: 422,
            code: "codex_hook_update_failed",
            message: error.message(),
        },
        CodexTargetError::Gate(_) | CodexTargetError::Rollback { .. } => status(
            500,
            "internal_error",
            "The request could not be completed.",
        ),
    }
}

// ---------------------------------------------------------------------------
// Activity listings and details
// ---------------------------------------------------------------------------
/// Which kinds of activity a listing includes: subagent activity never,
/// internal (ambient) activity unless excluded.
#[derive(Clone, Copy, Debug, PartialEq, Eq, Structural)]
pub struct ActivityKindFilter {
    pub include_subagent: bool,
    pub include_internal: bool,
}

/// The kind filter of a request: internal activity is included by default.
pub fn activity_kind_filter(include_internal: Option<bool>) -> (r: ActivityKindFilter)
    ensures
        r == (ActivityKindFilter {
            include_subagent: false,
            include_internal: match include_internal {
                Some(b) => b,
                None => true,
            },
        }),
{
    ActivityKindFilter {
        include_subagent: false,
        include_internal: match include_internal {
            Some(b) => b,
            None => true,
        },
    }
}

/// The order a name asks for (`oldest` when none is given).
pub open spec fn activity_order_spec(order: Option<Seq<char>>) -> Option<ActivityOrder> {
    let o = match order {
        Some(s) => s,
        None => "oldest"@,
    };
    if o == "oldest"@ {
        Some(ActivityOrder::Oldest)
    } else if o == "newest"@ {
        Some(ActivityOrder::Newest)
    } else {
        None
    }
}

/// A checked activity listing.
#[derive(Clone, Copy, Debug, PartialEq, Eq, Structural)]
pub struct ActivityListQuery {
    pub scope: ActivityScope,
    pub limit: i64,
    pub order: ActivityOrder,
    pub filter: ActivityKindFilter,
    pub range: ActivityTimeRange,
    pub after_id: Option<i64>,
}

/// Checks an activity listing: the scope, the page size, the order, the
/// period and the cursor, in that order; the first failure answers.
pub fn activity_list_query(
    scope: Option<&str>,
    project_id: Option<&str>,
    legacy_project: bool,
    limit: Option<i64>,
    order: Option<&str>,
    include_internal: Option<bool>,
    period: Option<&str>,
    start_at_us: Option<i64>,
    after_id: Option<i64>,
    now_us: i64,
) -> (r: Result<ActivityListQuery, ApiError>)
    ensures
        match activity_scope_spec(
            crate::targets::opt_str(scope),
            crate::targets::opt_str(project_id),
            legacy_project,
        ) {
            Err(m) => r matches Err(e) && api_error(422, "invalid_pagination"@, m, e),
            Ok(s) => {
                let l = match limit {
                    Some(x) => x,
                    None => DEFAULT_PAGE_SIZE,
                };
                if !(1 <= l <= MAX_PAGE_SIZE) {
                    r matches Err(e) && api_error(
                        422,
                        "invalid_pagination"@,
                        "Page limit must be between 1 and 200."@,
                        e,
                    )
                } else {
                    match activity_order_spec(crate::targets::opt_str(order)) {
                        None => r matches Err(e) && api_error(
                            422,
                            "invalid_pagination"@,
                            "Activity page order is invalid."@,
                            e,
                        ),
                        Some(o) => match time_range_spec(
                            crate::targets::opt_str(period),
                            start_at_us,
                            now_us,
                        ) {
                            Err(m) => r matches Err(e) && api_error(422, "invalid_period"@, m, e),
                            Ok(since) => if after_id matches Some(c) && c <= 0 {
                                r matches Err(e) && api_error(
                                    422,
                                    "invalid_pagination"@,
                                    "Page cursor must be a positive ID."@,
                                    e,
                                )
                            } else {
                                r == Ok::<ActivityListQuery, ApiError>(
                                    ActivityListQuery {
                                        scope: s,
                                        limit: l,
                                        order: o,
                                        filter: ActivityKindFilter {
                                            include_subagent: false,
                                            include_internal: match include_internal {
                                                Some(b) => b,
                                                None => true,
                                            },
                                        },
                                        range: ActivityTimeRange { since_us: since },
                                        after_id,
                                    },
                                )
                            },
                        },
                    }
                }
            },
        },
{
    let s = activity_scope(scope, project_id, legacy_project)?;
    let l = page_limit(limit)?;
    let o = activity_order(order)?;
    let filter = activity_kind_filter(include_internal);
    let range = activity_time_range(period, start_at_us, now_us)?;
    validate_cursor(after_id)?;
    Ok(ActivityListQuery { scope: s, limit: l, order: o, filter, range, after_id })
}

/// A checked activity count: the scope and the period.
#[derive(Clone, Copy, Debug, PartialEq, Eq, Structural)]
pub struct ActivityCountQuery {
    pub scope: ActivityScope,
    pub filter: ActivityKindFilter,
    pub range: ActivityTimeRange,
}

pub fn activity_count_query(
    scope: Option<&str>,
    project_id: Option<&str>,
    legacy_project: bool,
    include_internal: Option<bool>,
    period: Option<&str>,
    start_at_us: Option<i64>,
    now_us: i64,
) -> (r: Result<ActivityCountQuery, ApiError>)
    ensures
        match activity_scope_spec(
            crate::targets::opt_str(scope),
            crate::targets::opt_str(project_id),
            legacy_project,
        ) {
            Err(m) => r matches Err(e) && api_error(422, "invalid_pagination"@, m, e),
            Ok(s) => match time_range_spec(crate::targets::opt_str(period), start_at_us, now_us) {
                Err(m) => r matches Err(e) && api_error(422, "invalid_period"@, m, e),
                Ok(since) => r == Ok::<ActivityCountQuery, ApiError>(
                    ActivityCountQuery {
                        scope: s,
                        filter: ActivityKindFilter {
                            include_subagent: false,
                            include_internal: match include_internal {
                                Some(b) => b,
                                None => true,
                            },
                        },
                        range: ActivityTimeRange { since_us: since },
                    },
                ),
            },
        },
{
    let s = activity_scope(scope, project_id, legacy_project)?;
    let filter = activity_kind_filter(include_internal);
    let range = activity_time_range(period, start_at_us, now_us)?;
    Ok(ActivityCountQuery { scope: s, filter, range })
}

/// Where a conversation page starts: at an offset, or after an id (from the
/// start when none).
#[derive(Clone, Copy, Debug, PartialEq, Eq, Structural)]
pub enum ConversationStart {
    Offset(i64),
    After(Option<i64>),
}

/// A checked conversation page of an activity's detail.
#[derive(Clone, Copy, Debug, PartialEq, Eq, Structural)]
pub struct DetailPage {
    pub limit: i64,
    pub filter: ActivityKindFilter,
    pub start: ConversationStart,
}

/// Checks a detail request: the page size, the cursor, then an offset,
/// which must be non-negative and cannot be combined with a cursor.
pub fn detail_page(
    conversation_limit: Option<i64>,
    conversation_after_id: Option<i64>,
    conversation_offset: Option<i64>,
    include_internal: Option<bool>,
) -> (r: Result<DetailPage, ApiError>)
    ensures
        ({
            let l = match conversation_limit {
                Some(x) => x,
                None => DEFAULT_PAGE_SIZE,
            };
            let filter = ActivityKindFilter {
                include_subagent: false,
                include_internal: match include_internal {
                    Some(b) => b,
                    None => true,
                },
            };
            if !(1 <= l <= MAX_PAGE_SIZE) {
                r matches Err(e) && api_error(
                    422,
                    "invalid_pagination"@,
                    "Page limit must be between 1 and 200."@,
                    e,
                )
            } else if conversation_after_id matches Some(c) && c <= 0 {
                r matches Err(e) && api_error(
                    422,
                    "invalid_pagination"@,
                    "Page cursor must be a positive ID."@,
                    e,
                )
            } else {
                match conversation_offset {
                    Some(offset) => if conversation_after_id is Some || offset < 0 {
                        r matches Err(e) && api_error(
                            422,
                            "invalid_pagination"@,
                            "Conversation offset must be non-negative and cannot be combined with a cursor."@,
                            e,
                        )
                    } else {
                        r == Ok::<DetailPage, ApiError>(
                            DetailPage { limit: l, filter, start: ConversationStart::Offset(offset) },
                        )
                    },
                    None => r == Ok::<DetailPage, ApiError>(
                        DetailPage {
                            limit: l,
                            filter,
                            start: ConversationStart::After(conversation_after_id),
                        },
                    ),
                }
            }
        }),
{
    let l = page_limit(conversation_limit)?;
    let filter = activity_kind_filter(include_internal);
    validate_cursor(conversation_after_id)?;
    match conversation_offset {
        Some(offset) => {
            if conversation_after_id.is_some() || offset < 0 {
                return Err(
                    invalid_pagination(
                        "Conversation offset must be non-negative and cannot be combined with a cursor.",
                    ),
                );
            }
            Ok(DetailPage { limit: l, filter, start: ConversationStart::Offset(offset) })
        },
        None => Ok(DetailPage { limit: l, filter, start: ConversationStart::After(conversation_after_id) }),
    }
}

/// What a request to summarise a result again found.
#[derive(Clone, Copy, Debug, PartialEq, Eq, Structural)]
pub enum RegenerationOutcome {
    Scheduled,
    AlreadyPending,
    Unavailable,
}

/// The answer to a regeneration: 202 when scheduled or already pending; an
/// error when the original result is gone.
pub fn regeneration_response(outcome: RegenerationOutcome) -> (r: Result<u16, ApiError>)
    ensures
        outcome != RegenerationOutcome::Unavailable ==> r == Ok::<u16, ApiError>(202),
        outcome == RegenerationOutcome::Unavailable ==> (r matches Err(e) && api_error(
            422,
            "result_summary_regeneration_unavailable"@,
            "The original assistant result is no longer available for regeneration."@,
            e,
        )),
{
    match outcome {
        RegenerationOutcome::Scheduled | RegenerationOutcome::AlreadyPending => Ok(202),
        RegenerationOutcome::Unavailable => Err(
            status(
                422,
                "result_summary_regeneration_unavailable",
                "The original assistant result is no longer available for regeneration.",
            ),
        ),
    }
}

} // verus!
