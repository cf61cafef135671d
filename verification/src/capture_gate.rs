//! The capture switch: the user's intent, recorded in the data directory, that
//! decides whether captured prompts are kept; and the order in which the switch
//! and the Codex hooks change together.
use vstd::prelude::*;

use crate::paths::{path_join, path_join_spec};
use crate::text::{chars_of, eq_str, string_from_chars, trim, trim_spec};

verus! {

/// The switch file's name inside the data directory.
pub open spec fn gate_file_name() -> Seq<char> {
    "capture-enabled"@
}

/// Failures reading or writing the switch.
#[derive(Clone, Debug, PartialEq, Eq)]
pub enum CaptureGateError {
    MissingParent,
    Io(String),
    InvalidState(String),
}

/// The text of a switch failure.
pub open spec fn gate_error_message_spec(e: CaptureGateError) -> Seq<char> {
    match e {
        CaptureGateError::MissingParent => "capture gate has no parent directory"@,
        CaptureGateError::Io(m) => "capture gate filesystem operation failed: "@ + m@,
        CaptureGateError::InvalidState(s) => "capture gate state is invalid: "@ + s@,
    }
}

impl CaptureGateError {
    /// The failure's text.
    pub fn message(&self) -> (r: String)
        ensures
            r@ == gate_error_message_spec(*self),
    {
        let mut out: Vec<char> = Vec::new();
        match self {
            CaptureGateError::MissingParent => {
                crate::text::push_str(&mut out, "capture gate has no parent directory");
            },
            CaptureGateError::Io(m) => {
                crate::text::push_str(&mut out, "capture gate filesystem operation failed: ");
                crate::text::push_str(&mut out, m.as_str());
            },
            CaptureGateError::InvalidState(s) => {
                crate::text::push_str(&mut out, "capture gate state is invalid: ");
                crate::text::push_str(&mut out, s.as_str());
            },
        }
        proof {
            reveal_strlit("");
        }
        assert(out@ =~= gate_error_message_spec(*self));
        string_from_chars(out.as_slice())
    }
}

/// Failures of a capture lifecycle change.
#[derive(Clone, Debug, PartialEq, Eq)]
pub enum CaptureLifecycleError {
    Gate(CaptureGateError),
    Hook(String),
    Rollback { hook_error: String, rollback: CaptureGateError },
}

/// A write of the switch: the directory that holds the temporary file, the
/// switch file it is persisted over, and the text it holds.
#[derive(Clone, Debug, PartialEq, Eq)]
pub struct GateWrite {
    pub directory: String,
    pub path: String,
    pub contents: &'static str,
}

/// The capture switch of a data directory.
#[derive(Clone, Debug)]
pub struct CaptureGate {
    path: String,
    data_dir: String,
}

impl View for CaptureGate {
    type V = (Seq<char>, Seq<char>);

    /// The switch file path and the data directory.
    closed spec fn view(&self) -> (Seq<char>, Seq<char>) {
        (self.path@, self.data_dir@)
    }
}

/// What the switch file says: a missing file means capture is enabled;
/// otherwise its trimmed text must be `true` or `false`.
pub open spec fn gate_state_spec(contents: Option<Seq<char>>) -> Result<bool, Seq<char>> {
    match contents {
        None => Ok(true),
        Some(c) => if trim_spec(c) == "true"@ {
            Ok(true)
        } else if trim_spec(c) == "false"@ {
            Ok(false)
        } else {
            Err(trim_spec(c))
        },
    }
}

/// The text the switch file holds for a state.
pub open spec fn gate_contents_spec(enabled: bool) -> Seq<char> {
    if enabled {
        "true"@
    } else {
        "false"@
    }
}

impl CaptureGate {
    /// The switch of a data directory.
    pub fn new(data_dir: &str) -> (r: Self)
        ensures
            r@.0 == path_join_spec(data_dir@, gate_file_name()),
            r@.1 == data_dir@,
    {
        CaptureGate { path: path_join(data_dir, "capture-enabled"), data_dir: data_dir.to_owned() }
    }

    /// The switch file.
    pub fn path(&self) -> (r: &str)
        ensures
            r@ == self@.0,
    {
        self.path.as_str()
    }

    /// The lock file that serialises lifecycle changes, beside the switch.
    pub fn lock_path(&self) -> (r: String)
        ensures
            r@ == path_join_spec(self@.1, "capture-lifecycle.lock"@),
    {
        path_join(self.data_dir.as_str(), "capture-lifecycle.lock")
    }

    /// The state that the switch file's contents (`None`: no file) record.
    pub fn state_from(contents: Option<&str>) -> (r: Result<bool, CaptureGateError>)
        ensures
            contents is None ==> r == Ok::<bool, CaptureGateError>(true),
            contents matches Some(c) ==> match gate_state_spec(Some(c@)) {
                Ok(b) => r == Ok::<bool, CaptureGateError>(b),
                Err(t) => r matches Err(CaptureGateError::InvalidState(s)) && s@ == t,
            },
    {
        match contents {
            None => Ok(true),
            Some(c) => {
                let raw = chars_of(c);
                let t = trim(raw.as_slice());
                proof {
                    reveal_strlit("true");
                    reveal_strlit("false");
                }
                if eq_str(t.as_slice(), "true") {
                    Ok(true)
                } else if eq_str(t.as_slice(), "false") {
                    Ok(false)
                } else {
                    Err(CaptureGateError::InvalidState(string_from_chars(t.as_slice())))
                }
            },
        }
    }

    /// How to record `enabled`: a temporary file in the data directory
    /// holding the state's text, then persisted over the switch file.
    pub fn set_enabled(&self, enabled: bool) -> (r: GateWrite)
        ensures
            r.directory@ == self@.1,
            r.path@ == self@.0,
            r.contents@ == gate_contents_spec(enabled),
    {
        GateWrite {
            directory: self.data_dir.clone(),
            path: self.path.clone(),
            contents: CaptureGate::contents_for(enabled),
        }
    }

    /// The text to persist for `enabled`.
    pub fn contents_for(enabled: bool) -> (r: &'static str)
        ensures
            r@ == gate_contents_spec(enabled),
    {
        if enabled {
            "true"
        } else {
            "false"
        }
    }
}

// ---------------------------------------------------------------------------
// Changing the switch and the hooks together
// ---------------------------------------------------------------------------
/// Where an enable or disable stands.
#[derive(Clone, Debug, PartialEq, Eq)]
pub enum GateUpdate {
    /// Nothing done yet.
    Start { enabled: bool },
    /// The previous switch state is known; the new one is being written.
    Writing { enabled: bool, previous: bool },
    /// The switch holds the new state; the hooks are being updated.
    Hooks { enabled: bool, previous: bool },
    /// The hook update failed; the previous switch state is being restored.
    Restoring { previous: bool, hook_error: String },
    /// Finished.
    Finished,
}

/// What the caller does next.
#[derive(Debug)]
pub enum GateAction {
    /// Read the switch (and report it with `GateEvent::Read`).
    ReadGate,
    /// Persist this switch state (report with `GateEvent::Written`).
    WriteGate(bool),
    /// Enable (true) or disable (false) the Codex hooks (report with
    /// `GateEvent::HooksUpdated`).
    UpdateHooks(bool),
    /// Stop with this outcome.
    Done(Result<(), CaptureLifecycleError>),
}

/// What happened to the last action.
#[derive(Debug)]
pub enum GateEvent {
    Begin,
    Read(Result<bool, CaptureGateError>),
    Written(Result<(), CaptureGateError>),
    HooksUpdated(Result<(), String>),
}

/// The transition of a switch update: the switch is written before the hooks
/// change, and a failed hook update puts the previous switch state back.
pub open spec fn gate_step_spec(state: GateUpdate, event: GateEvent) -> (GateUpdate, GateAction) {
    match (state, event) {
        (GateUpdate::Start { enabled }, GateEvent::Begin) => (state, GateAction::ReadGate),
        (GateUpdate::Start { enabled }, GateEvent::Read(Ok(previous))) => (
            GateUpdate::Writing { enabled, previous },
            GateAction::WriteGate(enabled),
        ),
        (GateUpdate::Start { .. }, GateEvent::Read(Err(e))) => (
            GateUpdate::Finished,
            GateAction::Done(Err(CaptureLifecycleError::Gate(e))),
        ),
        (GateUpdate::Writing { enabled, previous }, GateEvent::Written(Ok(()))) => (
            GateUpdate::Hooks { enabled, previous },
            GateAction::UpdateHooks(enabled),
        ),
        (GateUpdate::Writing { .. }, GateEvent::Written(Err(e))) => (
            GateUpdate::Finished,
            GateAction::Done(Err(CaptureLifecycleError::Gate(e))),
        ),
        (GateUpdate::Hooks { .. }, GateEvent::HooksUpdated(Ok(()))) => (
            GateUpdate::Finished,
            GateAction::Done(Ok(())),
        ),
        (GateUpdate::Hooks { previous, .. }, GateEvent::HooksUpdated(Err(hook_error))) => (
            GateUpdate::Restoring { previous, hook_error },
            GateAction::WriteGate(previous),
        ),
        (GateUpdate::Restoring { hook_error, .. }, GateEvent::Written(Ok(()))) => (
            GateUpdate::Finished,
            GateAction::Done(Err(CaptureLifecycleError::Hook(hook_error))),
        ),
        (GateUpdate::Restoring { hook_error, .. }, GateEvent::Written(Err(rollback))) => (
            GateUpdate::Finished,
            GateAction::Done(Err(CaptureLifecycleError::Rollback { hook_error, rollback })),
        ),
        _ => (state, GateAction::Done(Ok(()))),
    }
}

/// An event that the state is waiting for.
pub open spec fn expected_event(state: GateUpdate, event: GateEvent) -> bool {
    match (state, event) {
        (GateUpdate::Start { .. }, GateEvent::Begin) => true,
        (GateUpdate::Start { .. }, GateEvent::Read(_)) => true,
        (GateUpdate::Writing { .. }, GateEvent::Written(_)) => true,
        (GateUpdate::Hooks { .. }, GateEvent::HooksUpdated(_)) => true,
        (GateUpdate::Restoring { .. }, GateEvent::Written(_)) => true,
        _ => false,
    }
}

/// Enabling capture: the switch opens first, then the hooks are installed.
pub fn enable_codex_capture() -> (r: GateUpdate)
    ensures
        r == (GateUpdate::Start { enabled: true }),
{
    GateUpdate::Start { enabled: true }
}

/// Disabling capture: the switch closes first, then the hooks are removed.
pub fn disable_codex_capture() -> (r: GateUpdate)
    ensures
        r == (GateUpdate::Start { enabled: false }),
{
    GateUpdate::Start { enabled: false }
}

/// One step of a switch update. The caller performs the returned action and
/// reports its outcome as the next event.
pub fn gate_update_step(state: GateUpdate, event: GateEvent) -> (r: (GateUpdate, GateAction))
    requires
        expected_event(state, event),
    ensures
        r == gate_step_spec(state, event),
{
    match (state, event) {
        (GateUpdate::Start { enabled }, GateEvent::Begin) => (
            GateUpdate::Start { enabled },
            GateAction::ReadGate,
        ),
        (GateUpdate::Start { enabled }, GateEvent::Read(Ok(previous))) => (
            GateUpdate::Writing { enabled, previous },
            GateAction::WriteGate(enabled),
        ),
        (GateUpdate::Start { .. }, GateEvent::Read(Err(e))) => (
            GateUpdate::Finished,
            GateAction::Done(Err(CaptureLifecycleError::Gate(e))),
        ),
        (GateUpdate::Writing { enabled, previous }, GateEvent::Written(Ok(()))) => (
            GateUpdate::Hooks { enabled, previous },
            GateAction::UpdateHooks(enabled),
        ),
        (GateUpdate::Writing { .. }, GateEvent::Written(Err(e))) => (
            GateUpdate::Finished,
            GateAction::Done(Err(CaptureLifecycleError::Gate(e))),
        ),
        (GateUpdate::Hooks { .. }, GateEvent::HooksUpdated(Ok(()))) => (
            GateUpdate::Finished,
            GateAction::Done(Ok(())),
        ),
        (GateUpdate::Hooks { previous, .. }, GateEvent::HooksUpdated(Err(hook_error))) => (
            GateUpdate::Restoring { previous, hook_error },
            GateAction::WriteGate(previous),
        ),
        (GateUpdate::Restoring { hook_error, .. }, GateEvent::Written(Ok(()))) => (
            GateUpdate::Finished,
            GateAction::Done(Err(CaptureLifecycleError::Hook(hook_error))),
        ),
        (GateUpdate::Restoring { hook_error, .. }, GateEvent::Written(Err(rollback))) => (
            GateUpdate::Finished,
            GateAction::Done(Err(CaptureLifecycleError::Rollback { hook_error, rollback })),
        ),
        (s, _) => (s, GateAction::Done(Ok(()))),
    }
}

/// The hook change that reconciliation makes for a switch state: install when
/// the switch is open, remove when it is closed.
pub fn reconcile_codex_capture(state: Result<bool, CaptureGateError>) -> (r: Result<
    bool,
    CaptureLifecycleError,
>)
    ensures
        state matches Ok(b) ==> r == Ok::<bool, CaptureLifecycleError>(b),
        state matches Err(e) ==> r == Err::<bool, CaptureLifecycleError>(
            CaptureLifecycleError::Gate(e),
        ),
{
    match state {
        Ok(b) => Ok(b),
        Err(e) => Err(CaptureLifecycleError::Gate(e)),
    }
}

/// The outcome of reconciliation once the hooks were updated.
pub fn reconcile_outcome(hooks: Result<(), String>) -> (r: Result<(), CaptureLifecycleError>)
    ensures
        hooks is Ok ==> r is Ok,
        hooks matches Err(e) ==> r == Err::<(), CaptureLifecycleError>(
            CaptureLifecycleError::Hook(e),
        ),
{
    match hooks {
        Ok(()) => Ok(()),
        Err(e) => Err(CaptureLifecycleError::Hook(e)),
    }
}

// ---------------------------------------------------------------------------
// Laws of the switch update
// ---------------------------------------------------------------------------
/// A successful run writes the new switch state, then updates the hooks to
/// match it, and succeeds.
pub proof fn law_successful_update_opens_gate_before_hooks(enabled: bool, previous: bool)
    ensures
        ({
            let s0 = GateUpdate::Start { enabled };
            let (s1, a1) = gate_step_spec(s0, GateEvent::Begin);
            let (s2, a2) = gate_step_spec(s1, GateEvent::Read(Ok(previous)));
            let (s3, a3) = gate_step_spec(s2, GateEvent::Written(Ok(())));
            let (s4, a4) = gate_step_spec(s3, GateEvent::HooksUpdated(Ok(())));
            &&& a1 == GateAction::ReadGate
            &&& a2 == GateAction::WriteGate(enabled)
            &&& a3 == GateAction::UpdateHooks(enabled)
            &&& a4 == GateAction::Done(Ok(()))
            &&& s4 == GateUpdate::Finished
        }),
{
}

/// When the hook update fails, the switch is written back to the state it
/// held before, and the hook error is reported (with the rollback error when
/// that write fails too).
pub proof fn law_failed_hook_update_restores_previous_gate(
    enabled: bool,
    previous: bool,
    hook_error: String,
    rollback: Option<CaptureGateError>,
)
    ensures
        ({
            let s2 = GateUpdate::Hooks { enabled, previous };
            let (s3, a3) = gate_step_spec(s2, GateEvent::HooksUpdated(Err(hook_error)));
            let restored = match rollback {
                Some(e) => Err(e),
                None => Ok(()),
            };
            let (s4, a4) = gate_step_spec(s3, GateEvent::Written(restored));
            &&& a3 == GateAction::WriteGate(previous)
            &&& a4 == GateAction::Done(Err(match rollback {
                Some(e) => CaptureLifecycleError::Rollback { hook_error, rollback: e },
                None => CaptureLifecycleError::Hook(hook_error),
            }))
            &&& s4 == GateUpdate::Finished
        }),
{
}

/// A failure to read or write the switch stops the update before the hooks are
/// touched.
pub proof fn law_gate_failure_leaves_hooks_untouched(
    enabled: bool,
    previous: bool,
    e: CaptureGateError,
)
    ensures
        gate_step_spec(GateUpdate::Start { enabled }, GateEvent::Read(Err(e))).1
            == GateAction::Done(Err(CaptureLifecycleError::Gate(e))),
        gate_step_spec(GateUpdate::Writing { enabled, previous }, GateEvent::Written(Err(e))).1
            == GateAction::Done(Err(CaptureLifecycleError::Gate(e))),
{
}

/// Whatever the switch held, the text written for a state reads back as that
/// state.
pub proof fn law_gate_contents_round_trip(enabled: bool)
    ensures
        gate_state_spec(Some(gate_contents_spec(enabled))) == Ok::<bool, Seq<char>>(enabled),
{
    reveal_strlit("true");
    reveal_strlit("false");
    let c = gate_contents_spec(enabled);
    assert(crate::text::trim_start_spec(c) == c);
    assert(crate::text::trim_end_spec(c) == c);
    if enabled {
        assert(c != "false"@) by {
            assert(c.len() == 4);
        }
    }
}

} // verus!
