//! The decisions of remote delivery: which queued captures a relay pass
//! sends, what each collector answer does to a capture, and what the pass
//! reports; and the recovery of locally spooled captures.
use vstd::prelude::*;

use crate::collector::{exponential_retry_spec, response_retry_spec, exponential_retry_delay, response_retry_delay};

verus! {

/// The most captures one relay pass sends.
pub const RELAY_BATCH_SIZE: usize = 8;

/// What a relay pass does with the next queued capture.
#[derive(Clone, Copy, Debug, PartialEq, Eq, Structural)]
pub enum ScanDecision {
    /// The batch is full: stop scanning.
    Stop,
    /// Its retry is not due: leave it.
    Skip,
    /// Read and check it.
    Read,
}

/// The scan decision for a capture, with `selected` captures already in
/// the batch.
pub fn scan_decision(selected: usize, retry_due: bool) -> (r: ScanDecision)
    ensures
        selected >= RELAY_BATCH_SIZE ==> r == ScanDecision::Stop,
        selected < RELAY_BATCH_SIZE && !retry_due ==> r == ScanDecision::Skip,
        selected < RELAY_BATCH_SIZE && retry_due ==> r == ScanDecision::Read,
{
    if selected >= RELAY_BATCH_SIZE {
        ScanDecision::Stop
    } else if !retry_due {
        ScanDecision::Skip
    } else {
        ScanDecision::Read
    }
}

/// What a relay pass does with a capture it read.
#[derive(Clone, Copy, Debug, PartialEq, Eq, Structural)]
pub enum CaptureDecision {
    /// Unreadable or invalid: set it aside until restart.
    Defer,
    /// Bound to another destination: keep it, count it as blocked.
    Block,
    /// Send it.
    Send,
}

/// The decision for a read capture: `decoded` is `None` when it is not a
/// remote capture at all, otherwise whether it is valid and whether it is
/// bound to the configured destination.
pub fn capture_decision(decoded: Option<(bool, bool)>) -> (r: CaptureDecision)
    ensures
        match decoded {
            None => r == CaptureDecision::Defer,
            Some((valid, same_destination)) => if !valid {
                r == CaptureDecision::Defer
            } else if !same_destination {
                r == CaptureDecision::Block
            } else {
                r == CaptureDecision::Send
            },
        },
{
    match decoded {
        None => CaptureDecision::Defer,
        Some((valid, same_destination)) => if !valid {
            CaptureDecision::Defer
        } else if !same_destination {
            CaptureDecision::Block
        } else {
            CaptureDecision::Send
        },
    }
}

/// What a relay pass learned of one queued capture: whether its retry is
/// due and, when it was read, how it decoded (see `capture_decision`).
#[derive(Clone, Copy, Debug)]
pub struct RelayItem {
    pub retry_due: bool,
    pub decoded: Option<(bool, bool)>,
}

/// The captures one relay pass sends, sets aside and leaves for another
/// destination, by their position in the queue.
#[derive(Clone, Debug, PartialEq, Eq)]
pub struct RelayBatch {
    pub selected: Vec<usize>,
    pub deferred: Vec<usize>,
    pub blocked_destination: usize,
}

/// The decision for a read capture, as `capture_decision` makes it.
pub open spec fn capture_decision_spec(decoded: Option<(bool, bool)>) -> CaptureDecision {
    match decoded {
        None => CaptureDecision::Defer,
        Some((valid, same_destination)) => if !valid {
            CaptureDecision::Defer
        } else if !same_destination {
            CaptureDecision::Block
        } else {
            CaptureDecision::Send
        },
    }
}

/// A capture a pass sends when it reaches it with room in the batch.
pub open spec fn relay_sendable(item: RelayItem) -> bool {
    item.retry_due && item.decoded == Some((true, true))
}

/// The pass from position `i` on, with `acc` (selected, deferred,
/// blocked) gathered so far: it stops once the batch is full; a capture
/// whose retry is not due is passed over unread.
pub open spec fn relay_scan(
    items: Seq<RelayItem>,
    i: int,
    acc: (Seq<usize>, Seq<usize>, nat),
) -> (Seq<usize>, Seq<usize>, nat)
    decreases items.len() - i,
{
    if i < 0 || i >= items.len() || acc.0.len() >= RELAY_BATCH_SIZE {
        acc
    } else if !items[i].retry_due {
        relay_scan(items, i + 1, acc)
    } else {
        match capture_decision_spec(items[i].decoded) {
            CaptureDecision::Defer => relay_scan(items, i + 1, (acc.0, acc.1.push(i as usize), acc.2)),
            CaptureDecision::Block => relay_scan(items, i + 1, (acc.0, acc.1, acc.2 + 1)),
            CaptureDecision::Send => relay_scan(items, i + 1, (acc.0.push(i as usize), acc.1, acc.2)),
        }
    }
}

/// A whole relay pass over the queue in order.
pub open spec fn relay_batch_spec(items: Seq<RelayItem>) -> (Seq<usize>, Seq<usize>, nat) {
    relay_scan(items, 0, (Seq::empty(), Seq::empty(), 0))
}

/// Chooses what a relay pass does with the queued captures, in queue
/// order: at most `RELAY_BATCH_SIZE` are sent; captures not yet due,
/// invalid ones and those bound to another destination take no place in
/// the batch.
pub fn relay_batch(items: &[RelayItem]) -> (r: RelayBatch)
    ensures
        (r.selected@, r.deferred@, r.blocked_destination as nat) == relay_batch_spec(items@),
{
    let mut selected: Vec<usize> = Vec::new();
    let mut deferred: Vec<usize> = Vec::new();
    let mut blocked: usize = 0;
    let mut i: usize = 0;
    while i < items.len()
        invariant
            i <= items@.len(),
            selected@.len() <= RELAY_BATCH_SIZE,
            blocked <= i,
            relay_scan(items@, i as int, (selected@, deferred@, blocked as nat)) == relay_batch_spec(
                items@,
            ),
        ensures
            i >= items@.len() || selected@.len() >= RELAY_BATCH_SIZE,
            relay_scan(items@, i as int, (selected@, deferred@, blocked as nat)) == relay_batch_spec(
                items@,
            ),
        decreases items.len() - i,
    {
        if selected.len() >= RELAY_BATCH_SIZE {
            break;
        }
        let item = items[i];
        if item.retry_due {
            match capture_decision(item.decoded) {
                CaptureDecision::Defer => deferred.push(i),
                CaptureDecision::Block => blocked = blocked + 1,
                CaptureDecision::Send => selected.push(i),
            }
        }
        i = i + 1;
    }
    RelayBatch { selected, deferred, blocked_destination: blocked }
}

proof fn lemma_relay_scan(items: Seq<RelayItem>, i: int, acc: (Seq<usize>, Seq<usize>, nat))
    requires
        0 <= i <= items.len(),
        items.len() <= usize::MAX,
        acc.0.len() <= RELAY_BATCH_SIZE,
        forall|k: int| 0 <= k < acc.0.len() ==> acc.0[k] < i && relay_sendable(items[acc.0[k] as int]),
        forall|k: int, l: int| 0 <= k < l < acc.0.len() ==> acc.0[k] < acc.0[l],
        forall|j: int| 0 <= j < i && relay_sendable(#[trigger] items[j]) ==> acc.0.contains(j as usize),
    ensures
        ({
            let res = relay_scan(items, i, acc);
            &&& res.0.len() <= RELAY_BATCH_SIZE
            &&& forall|k: int| 0 <= k < res.0.len() ==> res.0[k] < items.len() && relay_sendable(items[res.0[k] as int])
            &&& forall|k: int, l: int| 0 <= k < l < res.0.len() ==> res.0[k] < res.0[l]
            &&& forall|j: int| 0 <= j < items.len() && relay_sendable(#[trigger] items[j]) ==> res.0.contains(
                j as usize,
            ) || (res.0.len() == RELAY_BATCH_SIZE && forall|k: int| 0 <= k < res.0.len() ==> res.0[k] < j)
        }),
    decreases items.len() - i,
{
    if i >= items.len() || acc.0.len() >= RELAY_BATCH_SIZE {
        assert forall|j: int| 0 <= j < items.len() && relay_sendable(#[trigger] items[j]) implies acc.0.contains(
            j as usize,
        ) || (acc.0.len() == RELAY_BATCH_SIZE && forall|k: int| 0 <= k < acc.0.len() ==> acc.0[k] < j) by {
            if j >= i {
                assert forall|k: int| 0 <= k < acc.0.len() implies acc.0[k] < j by {}
            }
        }
    } else if !items[i].retry_due {
        lemma_relay_scan(items, i + 1, acc);
    } else {
        match capture_decision_spec(items[i].decoded) {
            CaptureDecision::Defer => {
                lemma_relay_scan(items, i + 1, (acc.0, acc.1.push(i as usize), acc.2));
            },
            CaptureDecision::Block => {
                lemma_relay_scan(items, i + 1, (acc.0, acc.1, acc.2 + 1));
            },
            CaptureDecision::Send => {
                let next = acc.0.push(i as usize);
                assert forall|j: int| 0 <= j < i + 1 && relay_sendable(#[trigger] items[j]) implies next.contains(
                    j as usize,
                ) by {
                    if j == i {
                        assert(next[acc.0.len() as int] == i as usize);
                    } else {
                        let k = choose|k: int| 0 <= k < acc.0.len() && acc.0[k] == j as usize;
                        assert(next[k] == j as usize);
                    }
                }
                lemma_relay_scan(items, i + 1, (next, acc.1, acc.2));
            },
        }
    }
}

/// A relay pass sends, in queue order, the first captures that are due,
/// valid and bound to the configured destination, up to the batch size:
/// captures whose retry is not due, invalid ones and those for another
/// destination never take a place in the batch.
pub proof fn law_relay_batch_takes_the_first_sendable_captures(items: Seq<RelayItem>)
    requires
        items.len() <= usize::MAX,
    ensures
        ({
            let selected = relay_batch_spec(items).0;
            &&& selected.len() <= RELAY_BATCH_SIZE
            &&& forall|k: int| 0 <= k < selected.len() ==> selected[k] < items.len() && relay_sendable(
                items[selected[k] as int],
            )
            &&& forall|k: int, l: int| 0 <= k < l < selected.len() ==> selected[k] < selected[l]
            &&& forall|j: int| 0 <= j < items.len() && relay_sendable(#[trigger] items[j]) ==> selected.contains(
                j as usize,
            ) || (selected.len() == RELAY_BATCH_SIZE && forall|k: int| 0 <= k < selected.len() ==> selected[k] < j)
        }),
{
    lemma_relay_scan(items, 0, (Seq::empty(), Seq::empty(), 0));
}

/// How the collector answered a capture.
#[derive(Clone, Copy, Debug, PartialEq, Eq, Structural)]
pub enum SendOutcome {
    /// A success status.
    Accepted,
    /// Another status, with the `Retry-After` seconds it gave, if any.
    Refused { status: u16, retry_after_seconds: Option<u64> },
    /// No answer.
    Unreachable,
}

/// What an answer does to the capture: acknowledge it, or schedule its
/// retry after a delay; and the error the pass reports (`None`: cleared).
#[derive(Clone, Debug, PartialEq, Eq)]
pub struct SendEffect {
    pub acknowledge: bool,
    pub retry_delay_seconds: Option<u64>,
    pub last_error: Option<&'static str>,
}

/// The message for a refused capture.
pub open spec fn refusal_message(status: u16) -> Seq<char> {
    if status == 401 || status == 403 {
        "Collector access token was rejected."@
    } else if status == 404 {
        "Collector endpoint did not accept captures."@
    } else {
        "Collector did not accept the capture yet."@
    }
}

/// The effect of an answer to a capture that failed `attempts` times
/// before.
pub open spec fn send_effect_matches(outcome: SendOutcome, attempts: u8, r: SendEffect) -> bool {
    match outcome {
        SendOutcome::Accepted => r.acknowledge && r.retry_delay_seconds is None && r.last_error is None,
        SendOutcome::Refused { status, retry_after_seconds } => !r.acknowledge && r.retry_delay_seconds
            == Some(response_retry_spec(status, retry_after_seconds, attempts)) && (r.last_error matches Some(
            m,
        ) && m@ == refusal_message(status)),
        SendOutcome::Unreachable => !r.acknowledge && r.retry_delay_seconds == Some(
            exponential_retry_spec(attempts),
        ) && (r.last_error matches Some(m) && m@ == "Collector did not respond in time."@),
    }
}

pub fn send_effect(outcome: SendOutcome, attempts: u8) -> (r: SendEffect)
    ensures
        send_effect_matches(outcome, attempts, r),
{
    match outcome {
        SendOutcome::Accepted => SendEffect { acknowledge: true, retry_delay_seconds: None, last_error: None },
        SendOutcome::Refused { status, retry_after_seconds } => SendEffect {
            acknowledge: false,
            retry_delay_seconds: Some(response_retry_delay(status, retry_after_seconds, attempts)),
            last_error: Some(
                if status == 401 || status == 403 {
                    "Collector access token was rejected."
                } else if status == 404 {
                    "Collector endpoint did not accept captures."
                } else {
                    "Collector did not accept the capture yet."
                },
            ),
        },
        SendOutcome::Unreachable => SendEffect {
            acknowledge: false,
            retry_delay_seconds: Some(exponential_retry_delay(attempts)),
            last_error: Some("Collector did not respond in time."),
        },
    }
}

/// When a queued capture may be sent again, and how often it failed.
#[derive(Clone, Copy, Debug, PartialEq, Eq, Structural)]
pub struct RetryRecord {
    pub attempts: u8,
    pub retry_after_us: i64,
}

/// A capture is due when it has no retry record or its time has come.
pub fn retry_is_due(record: Option<RetryRecord>, now_us: i64) -> (r: bool)
    ensures
        r == match record {
            None => true,
            Some(x) => x.retry_after_us <= now_us,
        },
{
    match record {
        None => true,
        Some(x) => x.retry_after_us <= now_us,
    }
}

/// The failures recorded for a capture (none without a record).
pub fn retry_attempts(record: Option<RetryRecord>) -> (r: u8)
    ensures
        r == match record {
            None => 0u8,
            Some(x) => x.attempts,
        },
{
    match record {
        None => 0,
        Some(x) => x.attempts,
    }
}

/// A delay in seconds as microseconds, capped at `i64::MAX`.
pub open spec fn delay_us_spec(delay_seconds: u64) -> int {
    if delay_seconds * 1_000_000 > i64::MAX {
        i64::MAX as int
    } else {
        delay_seconds * 1_000_000
    }
}

/// The record after another failure: one more attempt (saturating), due
/// `delay_seconds` from now (saturating).
pub fn next_retry(record: Option<RetryRecord>, now_us: i64, delay_seconds: u64) -> (r: RetryRecord)
    ensures
        r.attempts == (if retry_attempts_spec(record) == u8::MAX {
            u8::MAX as int
        } else {
            retry_attempts_spec(record) + 1
        }),
        r.retry_after_us == crate::spool::saturating_i64(now_us + delay_us_spec(delay_seconds)),
{
    let previous = retry_attempts(record);
    let attempts = if previous == u8::MAX {
        u8::MAX
    } else {
        previous + 1
    };
    let delay_us: i64 = if delay_seconds > 9_223_372_036_854u64 {
        i64::MAX
    } else {
        (delay_seconds * 1_000_000) as i64
    };
    assert(delay_us == delay_us_spec(delay_seconds)) by (nonlinear_arith)
        requires
            delay_seconds > 9_223_372_036_854u64 ==> delay_us == i64::MAX,
            delay_seconds <= 9_223_372_036_854u64 ==> delay_us == delay_seconds * 1_000_000,
    ;
    RetryRecord { attempts, retry_after_us: crate::spool::saturating_add_i64(now_us, delay_us) }
}

pub open spec fn retry_attempts_spec(record: Option<RetryRecord>) -> int {
    match record {
        None => 0,
        Some(x) => x.attempts as int,
    }
}

/// The error a pass ends with: captures blocked by a destination change
/// are reported when nothing else is.
pub fn pass_error(blocked_destination: usize, last_error: Option<String>) -> (r: Option<String>)
    ensures
        blocked_destination > 0 && last_error is None ==> (r matches Some(m) && m@
            == "Queued captures belong to a previous collector destination."@),
        !(blocked_destination > 0 && last_error is None) ==> r == last_error,
{
    if blocked_destination > 0 && last_error.is_none() {
        Some("Queued captures belong to a previous collector destination.".to_owned())
    } else {
        last_error
    }
}

/// The error a connection check reports: none when the collector
/// accepted it.
pub fn verify_error(reachable: bool, status: u16) -> (r: Option<&'static str>)
    ensures
        reachable ==> r is None,
        !reachable && (status == 401 || status == 403) ==> (r matches Some(m) && m@
            == "Collector access token was rejected."@),
        !reachable && !(status == 401 || status == 403) ==> (r matches Some(m) && m@
            == "Collector did not accept the configured connection check."@),
{
    if reachable {
        None
    } else if status == 401 || status == 403 {
        Some("Collector access token was rejected.")
    } else {
        Some("Collector did not accept the configured connection check.")
    }
}

// ---------------------------------------------------------------------------
// Recovering spooled captures
// ---------------------------------------------------------------------------
/// A retained result's source expires `retention_us` after its capture.
pub fn result_is_expired(captured_at_us: i64, now_us: i64, retention_us: i64) -> (r: bool)
    ensures
        r == (captured_at_us <= crate::spool::saturating_i64(now_us - retention_us)),
{
    captured_at_us <= crate::spool::saturating_sub_i64(now_us, retention_us)
}

/// What reading and decoding a spooled item gave.
#[derive(Clone, Copy, Debug, PartialEq, Eq, Structural)]
pub enum SpooledItem {
    /// Not a regular file, or too large.
    Rejected,
    /// Reading failed otherwise.
    Unreadable,
    /// Not a capture this runtime can store.
    Undecodable,
    /// A prompt activity.
    Activity,
    /// A turn result captured at this time.
    Result { captured_at_us: i64 },
}

/// What a recovery pass does with an item.
#[derive(Clone, Copy, Debug, PartialEq, Eq, Structural)]
pub enum ItemPlan {
    /// Set it aside until restart.
    Defer,
    /// Leave it for the next pass.
    Retain,
    /// Remove it without storing it.
    Acknowledge,
    /// Store it; remove it once stored.
    Store,
}

/// The plan for an item: rejected and undecodable items are deferred,
/// unreadable ones retained; a result past retention (when the clock could
/// be read) is dropped; everything else is stored.
pub fn item_plan(item: SpooledItem, now_us: Option<i64>, retention_us: i64) -> (r: ItemPlan)
    ensures
        r == match item {
            SpooledItem::Rejected | SpooledItem::Undecodable => ItemPlan::Defer,
            SpooledItem::Unreadable => ItemPlan::Retain,
            SpooledItem::Activity => ItemPlan::Store,
            SpooledItem::Result { captured_at_us } => match now_us {
                Some(now) => if captured_at_us <= crate::spool::saturating_i64(now - retention_us) {
                    ItemPlan::Acknowledge
                } else {
                    ItemPlan::Store
                },
                None => ItemPlan::Store,
            },
        },
{
    match item {
        SpooledItem::Rejected => ItemPlan::Defer,
        SpooledItem::Undecodable => ItemPlan::Defer,
        SpooledItem::Unreadable => ItemPlan::Retain,
        SpooledItem::Activity => ItemPlan::Store,
        SpooledItem::Result { captured_at_us } => match now_us {
            Some(now) => if result_is_expired(captured_at_us, now, retention_us) {
                ItemPlan::Acknowledge
            } else {
                ItemPlan::Store
            },
            None => ItemPlan::Store,
        },
    }
}

/// Why a spooled payload cannot be stored.
#[derive(Clone, Debug, PartialEq, Eq)]
pub enum RecoveryError {
    Json(String),
    Envelope(String),
    UnsupportedProvider(String),
    Codex(String),
    Ingress(String),
    Identity(String),
    LegacyResult,
}

/// How a decoded payload is stored.
#[derive(Clone, Copy, Debug, PartialEq, Eq, Structural)]
pub enum RecoveryRoute {
    /// An activity from an envelope: with its prompt's display form when a
    /// user wrote it, with the envelope's activity context otherwise.
    EnvelopeActivity { project_prompt: bool, apply_context: bool },
    /// A result from an envelope.
    EnvelopeResult,
    /// A prompt from before envelopes, its origin resolved from its
    /// working directory.
    LegacyActivity,
}

/// The route of a payload: an envelope (it has a schema version) must come
/// from Codex; a payload from before envelopes must be a prompt.
pub fn recovery_route(
    has_schema_version: bool,
    provider: &str,
    is_result: bool,
    kind: crate::adapter::ActivityKind,
) -> (r: Result<RecoveryRoute, RecoveryError>)
    ensures
        has_schema_version && provider@ != "codex"@ ==> (r matches Err(RecoveryError::UnsupportedProvider(p))
            && p@ == provider@),
        has_schema_version && provider@ == "codex"@ && is_result ==> r == Ok::<RecoveryRoute, RecoveryError>(
            RecoveryRoute::EnvelopeResult,
        ),
        has_schema_version && provider@ == "codex"@ && !is_result ==> r == Ok::<RecoveryRoute, RecoveryError>(
            RecoveryRoute::EnvelopeActivity {
                project_prompt: kind == crate::adapter::ActivityKind::User,
                apply_context: kind != crate::adapter::ActivityKind::User,
            },
        ),
        !has_schema_version && is_result ==> r == Err::<RecoveryRoute, RecoveryError>(RecoveryError::LegacyResult),
        !has_schema_version && !is_result ==> r == Ok::<RecoveryRoute, RecoveryError>(RecoveryRoute::LegacyActivity),
{
    if has_schema_version {
        if !crate::text::eq_str(crate::text::chars_of(provider).as_slice(), "codex") {
            return Err(RecoveryError::UnsupportedProvider(provider.to_owned()));
        }
        if is_result {
            Ok(RecoveryRoute::EnvelopeResult)
        } else {
            let user = match kind {
                crate::adapter::ActivityKind::User => true,
                crate::adapter::ActivityKind::Subagent => false,
            };
            Ok(RecoveryRoute::EnvelopeActivity { project_prompt: user, apply_context: !user })
        }
    } else if is_result {
        Err(RecoveryError::LegacyResult)
    } else {
        Ok(RecoveryRoute::LegacyActivity)
    }
}

} // verus!
