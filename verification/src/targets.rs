//! The Codex installations Akra captures from ("targets"): how each is
//! described, which state every target should be in after a toggle, and how
//! detected installations that share one Codex home merge into one target.
use vstd::prelude::*;

use crate::lifecycle::{CodexHookCommand, CommandView};
use crate::paths::{hook_error_message_spec, HookCommandError};
use crate::text::{
    chars_eq, chars_of, contains_char, push_all, push_str, string_from_chars, CharSeq,
};
use crate::transaction::CodexHookLifecycleSet;

verus! {

/// The exact Codex installation that summarises a captured result.
#[derive(Clone, Debug, PartialEq, Eq)]
pub enum CodexRuntimeDescriptor {
    Native { capture_target: String, executable: String, codex_home: String },
    Wsl { capture_target: String, distro: String, executable: String, codex_home: String },
}

pub open spec fn runtime_target(r: CodexRuntimeDescriptor) -> Seq<char> {
    match r {
        CodexRuntimeDescriptor::Native { capture_target, .. } => capture_target@,
        CodexRuntimeDescriptor::Wsl { capture_target, .. } => capture_target@,
    }
}

impl CodexRuntimeDescriptor {
    /// The capture target this runtime belongs to.
    pub fn capture_target(&self) -> (r: &str)
        ensures
            r@ == runtime_target(*self),
    {
        match self {
            CodexRuntimeDescriptor::Native { capture_target, .. } => capture_target.as_str(),
            CodexRuntimeDescriptor::Wsl { capture_target, .. } => capture_target.as_str(),
        }
    }

    /// A copy of this descriptor.
    pub fn duplicate(&self) -> (r: Self)
        ensures
            r == *self,
    {
        match self {
            CodexRuntimeDescriptor::Native { capture_target, executable, codex_home } => {
                CodexRuntimeDescriptor::Native {
                    capture_target: capture_target.clone(),
                    executable: executable.clone(),
                    codex_home: codex_home.clone(),
                }
            },
            CodexRuntimeDescriptor::Wsl { capture_target, distro, executable, codex_home } => {
                CodexRuntimeDescriptor::Wsl {
                    capture_target: capture_target.clone(),
                    distro: distro.clone(),
                    executable: executable.clone(),
                    codex_home: codex_home.clone(),
                }
            },
        }
    }
}

/// Whether capture is off, installed but not yet seen, or seen working.
#[derive(Clone, Copy, Debug, PartialEq, Eq, Structural)]
pub enum CodexTargetActivation {
    Disabled,
    AwaitingCapture,
    Verified,
}

/// Whether one Codex client of a target has delivered a capture.
#[derive(Clone, Debug, PartialEq, Eq)]
pub struct CodexCaptureClientStatus {
    pub id: String,
    pub label: String,
    pub verified: bool,
    pub last_captured_at_us: Option<i64>,
}

/// The reported state of one target.
#[derive(Clone, Debug, PartialEq, Eq)]
pub struct CodexTargetStatus {
    pub id: String,
    pub label: String,
    pub environment: String,
    pub codex_home: Option<String>,
    pub hook_path: Option<String>,
    pub enabled: bool,
    pub available: bool,
    pub activation: CodexTargetActivation,
    pub clients: Vec<CodexCaptureClientStatus>,
    pub detail: Option<String>,
}

/// The last capture a client of a target delivered.
#[derive(Clone, Debug, PartialEq, Eq)]
pub struct CaptureClientObservation {
    pub target_id: String,
    pub client: String,
    pub last_captured_at_us: i64,
}

/// One Codex installation that hooks can be installed into.
#[derive(Debug)]
pub struct CodexTarget {
    pub id: String,
    pub label: String,
    pub environment: String,
    pub codex_home: Option<String>,
    pub hook_path: Option<String>,
    /// The normalised Codex home on this machine; empty when the target was
    /// given an opaque lifecycle instead.
    pub physical_codex_home: String,
    pub lifecycle: CodexHookLifecycleSet,
    pub command: Option<CodexHookCommand>,
    pub enable_error: Option<String>,
    pub summary_runtimes: Vec<CodexRuntimeDescriptor>,
}

/// Failures of target operations.
#[derive(Debug)]
pub enum CodexTargetError {
    Gate(crate::capture_gate::CaptureGateError),
    NoAvailableTargets,
    UnknownTarget(String),
    UnavailableTarget { target: String, detail: String },
    TargetLifecycle { target: String, source: Box<crate::transaction::CodexLifecycleError> },
    Rollback { source: Box<CodexTargetError>, rollback: Box<CodexTargetError> },
}

/// The text of a target failure.
pub open spec fn target_error_message_spec(e: CodexTargetError) -> Seq<char>
    decreases e,
{
    match e {
        CodexTargetError::Gate(g) => crate::capture_gate::gate_error_message_spec(g),
        CodexTargetError::NoAvailableTargets => "no available Codex installations were detected"@,
        CodexTargetError::UnknownTarget(t) => "unknown Codex capture target: "@ + t@,
        CodexTargetError::UnavailableTarget { target, detail } => "Codex capture target "@ + target@
            + " is unavailable: "@ + detail@,
        CodexTargetError::TargetLifecycle { target, source } => "Codex capture target "@ + target@
            + " hook update failed: "@ + crate::transaction::lifecycle_message_spec(*source),
        CodexTargetError::Rollback { source, rollback } => target_error_message_spec(*source)
            + "; additionally failed to restore Codex target state: "@ + target_error_message_spec(
            *rollback,
        ),
    }
}

impl CodexTargetError {
    /// Appends the failure's text to `out`.
    pub fn write_message(&self, out: &mut Vec<char>)
        ensures
            final(out)@ == old(out)@ + target_error_message_spec(*self),
        decreases self,
    {
        let ghost start = out@;
        match self {
            CodexTargetError::Gate(g) => {
                push_str(out, g.message().as_str());
            },
            CodexTargetError::NoAvailableTargets => {
                push_str(out, "no available Codex installations were detected");
            },
            CodexTargetError::UnknownTarget(t) => {
                push_str(out, "unknown Codex capture target: ");
                push_str(out, t.as_str());
            },
            CodexTargetError::UnavailableTarget { target, detail } => {
                push_str(out, "Codex capture target ");
                push_str(out, target.as_str());
                push_str(out, " is unavailable: ");
                push_str(out, detail.as_str());
            },
            CodexTargetError::TargetLifecycle { target, source } => {
                push_str(out, "Codex capture target ");
                push_str(out, target.as_str());
                push_str(out, " hook update failed: ");
                source.write_message(out);
            },
            CodexTargetError::Rollback { source, rollback } => {
                source.write_message(out);
                push_str(out, "; additionally failed to restore Codex target state: ");
                rollback.write_message(out);
            },
        }
        assert(out@ =~= start + target_error_message_spec(*self));
    }

    /// The failure's text.
    pub fn message(&self) -> (r: String)
        ensures
            r@ == target_error_message_spec(*self),
    {
        let mut out: Vec<char> = Vec::new();
        self.write_message(&mut out);
        assert(out@ =~= target_error_message_spec(*self));
        string_from_chars(out.as_slice())
    }
}

// ---------------------------------------------------------------------------
// Describing a target
// ---------------------------------------------------------------------------
/// `s` without trailing `/` and `\` characters.
pub open spec fn trim_end_separators(s: Seq<char>) -> Seq<char>
    decreases s.len(),
{
    if s.len() > 0 && (s.last() == '/' || s.last() == '\\') {
        trim_end_separators(s.drop_last())
    } else {
        s
    }
}

/// The manifest path shown for a Codex home, written in that home's own
/// separator style.
pub open spec fn display_hook_path_spec(display_home: Seq<char>) -> Seq<char> {
    trim_end_separators(display_home) + (if display_home.contains('\\') {
        seq!['\\']
    } else {
        seq!['/']
    }) + "hooks.json"@
}

pub fn display_hook_path(display_home: &str) -> (r: String)
    ensures
        r@ == display_hook_path_spec(display_home@),
{
    let d = chars_of(display_home);
    let mut end = d.len();
    assert(d@.take(end as int) =~= d@);
    while end > 0 && (d[end - 1] == '/' || d[end - 1] == '\\')
        invariant
            end <= d@.len(),
            trim_end_separators(d@) == trim_end_separators(d@.take(end as int)),
        decreases end,
    {
        assert(d@.take(end as int).drop_last() =~= d@.take(end - 1));
        end = end - 1;
    }
    let mut out: Vec<char> = Vec::new();
    let mut i: usize = 0;
    while i < end
        invariant
            i <= end <= d@.len(),
            out@ == d@.take(i as int),
        decreases end - i,
    {
        out.push(d[i]);
        assert(d@.take(i + 1) =~= d@.take(i as int).push(d@[i as int]));
        i = i + 1;
    }
    if contains_char(d.as_slice(), '\\') {
        out.push('\\');
    } else {
        out.push('/');
    }
    push_str(&mut out, "hooks.json");
    assert(out@ =~= display_hook_path_spec(display_home@));
    string_from_chars(out.as_slice())
}

/// The target of one Codex home. The physical home is already normalised;
/// a command that could not be built leaves the target unavailable with the
/// error's message as the reason.
pub fn target_from_home(
    id: String,
    label: String,
    environment: String,
    physical_codex_home: String,
    display_home: String,
    command: Result<CodexHookCommand, HookCommandError>,
    windows_host: bool,
) -> (r: CodexTarget)
    ensures
        r.id == id,
        r.label == label,
        r.environment == environment,
        r.codex_home == Some(display_home),
        r.hook_path matches Some(p) && p@ == display_hook_path_spec(display_home@),
        r.physical_codex_home == physical_codex_home,
        r.lifecycle@ == seq![crate::paths::path_join_spec(physical_codex_home@, "hooks.json"@)],
        command matches Ok(c) ==> (r.command matches Some(x) && x@ == c@) && r.enable_error is None,
        command matches Err(e) ==> r.command is None && (r.enable_error matches Some(m) && m@
            == hook_error_message_spec(e)),
        r.summary_runtimes@.len() == 0,
{
    let hook_path = display_hook_path(display_home.as_str());
    let mut homes: Vec<String> = Vec::new();
    homes.push(physical_codex_home.clone());
    let lifecycle = CodexHookLifecycleSet::from_codex_homes(&homes, windows_host);
    proof {
        reveal_with_fuel(crate::transaction::unique_homes, 2);
        assert(crate::transaction::string_views(homes@) =~= seq![physical_codex_home@]);
        assert(seq![physical_codex_home@].drop_last() =~= Seq::<Seq<char>>::empty());
    }
    let (command, enable_error) = match command {
        Ok(c) => (Some(c), None),
        Err(e) => (None, Some(e.message())),
    };
    CodexTarget {
        id,
        label,
        environment,
        codex_home: Some(display_home),
        hook_path: Some(hook_path),
        physical_codex_home,
        lifecycle,
        command,
        enable_error,
        summary_runtimes: Vec::new(),
    }
}

/// The Codex clients that can capture through a target of an environment.
pub open spec fn expected_clients_spec(environment: Seq<char>) -> Seq<(Seq<char>, Seq<char>)> {
    if environment == "windows"@ {
        seq![("app"@, "Codex App"@), ("cli"@, "Codex CLI"@)]
    } else if environment == "shared"@ {
        seq![("app"@, "Codex App"@), ("cli"@, "Codex CLI"@), ("wsl_cli"@, "Codex CLI · WSL"@)]
    } else if environment == "wsl"@ {
        seq![("wsl_cli"@, "Codex CLI · WSL"@)]
    } else {
        seq![("cli"@, "Codex CLI"@)]
    }
}

pub open spec fn client_pairs_view(v: Seq<(&str, &str)>) -> Seq<(Seq<char>, Seq<char>)> {
    v.map_values(|p: (&str, &str)| (p.0@, p.1@))
}

impl CodexTarget {
    /// The clients expected to capture through this target.
    pub fn expected_clients(&self) -> (r: Vec<(&'static str, &'static str)>)
        ensures
            client_pairs_view(r@) == expected_clients_spec(self.environment@),
    {
        let env = chars_of(self.environment.as_str());
        let mut r: Vec<(&'static str, &'static str)> = Vec::new();
        proof {
            reveal_strlit("windows");
            reveal_strlit("shared");
            reveal_strlit("wsl");
        }
        if crate::text::eq_str(env.as_slice(), "windows") {
            r.push(("app", "Codex App"));
            r.push(("cli", "Codex CLI"));
        } else if crate::text::eq_str(env.as_slice(), "shared") {
            r.push(("app", "Codex App"));
            r.push(("cli", "Codex CLI"));
            r.push(("wsl_cli", "Codex CLI · WSL"));
        } else if crate::text::eq_str(env.as_slice(), "wsl") {
            r.push(("wsl_cli", "Codex CLI · WSL"));
        } else {
            r.push(("cli", "Codex CLI"));
        }
        assert(client_pairs_view(r@) =~= expected_clients_spec(self.environment@));
        r
    }
}

// ---------------------------------------------------------------------------
// Status
// ---------------------------------------------------------------------------
/// An observation counts for a target when it is the target's and not older
/// than the target's manifest (when that time is known).
pub open spec fn observation_counts(
    o: CaptureClientObservation,
    target_id: Seq<char>,
    installed_at_us: Option<i64>,
) -> bool {
    o.target_id@ == target_id && match installed_at_us {
        Some(t) => o.last_captured_at_us >= t,
        None => true,
    }
}

/// The latest counted capture of one client.
pub open spec fn latest_capture(
    obs: Seq<CaptureClientObservation>,
    target_id: Seq<char>,
    installed_at_us: Option<i64>,
    client: Seq<char>,
) -> Option<i64>
    decreases obs.len(),
{
    if obs.len() == 0 {
        None
    } else {
        let prev = latest_capture(obs.drop_last(), target_id, installed_at_us, client);
        let o = obs.last();
        if observation_counts(o, target_id, installed_at_us) && o.client@ == client {
            match prev {
                Some(p) => if p >= o.last_captured_at_us {
                    Some(p)
                } else {
                    Some(o.last_captured_at_us)
                },
                None => Some(o.last_captured_at_us),
            }
        } else {
            prev
        }
    }
}

/// Whether any capture counts for the target.
pub open spec fn any_capture(
    obs: Seq<CaptureClientObservation>,
    target_id: Seq<char>,
    installed_at_us: Option<i64>,
) -> bool {
    exists|i: int| 0 <= i < obs.len() && observation_counts(#[trigger] obs[i], target_id, installed_at_us)
}

pub open spec fn activation_spec(enabled: bool, captured: bool) -> CodexTargetActivation {
    if !enabled {
        CodexTargetActivation::Disabled
    } else if !captured {
        CodexTargetActivation::AwaitingCapture
    } else {
        CodexTargetActivation::Verified
    }
}

fn latest_capture_exec(
    obs: &Vec<CaptureClientObservation>,
    target_id: &str,
    installed_at_us: Option<i64>,
    client: &str,
) -> (r: Option<i64>)
    ensures
        r == latest_capture(obs@, target_id@, installed_at_us, client@),
{
    let t = chars_of(target_id);
    let c = chars_of(client);
    let mut best: Option<i64> = None;
    let mut i: usize = 0;
    assert(obs@.take(0) =~= Seq::<CaptureClientObservation>::empty());
    while i < obs.len()
        invariant
            i <= obs@.len(),
            t@ == target_id@,
            c@ == client@,
            best == latest_capture(obs@.take(i as int), target_id@, installed_at_us, client@),
        decreases obs.len() - i,
    {
        let o = &obs[i];
        assert(obs@.take(i + 1).drop_last() =~= obs@.take(i as int));
        assert(obs@.take(i + 1).last() == obs@[i as int]);
        let target_matches = chars_eq(chars_of(o.target_id.as_str()).as_slice(), t.as_slice());
        let recent = match installed_at_us {
            Some(at) => o.last_captured_at_us >= at,
            None => true,
        };
        let client_matches = chars_eq(chars_of(o.client.as_str()).as_slice(), c.as_slice());
        if target_matches && recent && client_matches {
            best = match best {
                Some(p) => if p >= o.last_captured_at_us {
                    Some(p)
                } else {
                    Some(o.last_captured_at_us)
                },
                None => Some(o.last_captured_at_us),
            };
        }
        i = i + 1;
    }
    assert(obs@.take(obs@.len() as int) =~= obs@);
    best
}

fn any_capture_exec(
    obs: &Vec<CaptureClientObservation>,
    target_id: &str,
    installed_at_us: Option<i64>,
) -> (r: bool)
    ensures
        r == any_capture(obs@, target_id@, installed_at_us),
{
    let t = chars_of(target_id);
    let mut i: usize = 0;
    while i < obs.len()
        invariant
            i <= obs@.len(),
            t@ == target_id@,
            forall|j: int| 0 <= j < i ==> !observation_counts(#[trigger] obs@[j], target_id@, installed_at_us),
        decreases obs.len() - i,
    {
        let o = &obs[i];
        let target_matches = chars_eq(chars_of(o.target_id.as_str()).as_slice(), t.as_slice());
        let recent = match installed_at_us {
            Some(at) => o.last_captured_at_us >= at,
            None => true,
        };
        if target_matches && recent {
            assert(observation_counts(obs@[i as int], target_id@, installed_at_us));
            return true;
        }
        i = i + 1;
    }
    false
}

pub open spec fn client_status_ok(
    s: CodexCaptureClientStatus,
    expected: (Seq<char>, Seq<char>),
    obs: Seq<CaptureClientObservation>,
    target_id: Seq<char>,
    installed_at_us: Option<i64>,
) -> bool {
    let last = latest_capture(obs, target_id, installed_at_us, expected.0);
    &&& s.id@ == expected.0
    &&& s.label@ == expected.1
    &&& s.last_captured_at_us == last
    &&& s.verified == last is Some
}

impl CodexTarget {
    /// The reported status of this target. `installed_at_us` is when its
    /// manifest was last written, when known: earlier captures do not count.
    pub fn status(
        &self,
        enabled: bool,
        available: bool,
        detail: Option<String>,
        observations: &Vec<CaptureClientObservation>,
        installed_at_us: Option<i64>,
    ) -> (r: CodexTargetStatus)
        ensures
            r.id == self.id,
            r.label == self.label,
            r.environment == self.environment,
            r.codex_home == self.codex_home,
            r.hook_path == self.hook_path,
            r.enabled == enabled,
            r.available == available,
            r.detail == detail,
            r.activation == activation_spec(
                enabled,
                any_capture(observations@, self.id@, installed_at_us),
            ),
            r.clients@.len() == expected_clients_spec(self.environment@).len(),
            forall|k: int|
                0 <= k < r.clients@.len() ==> client_status_ok(
                    #[trigger] r.clients@[k],
                    expected_clients_spec(self.environment@)[k],
                    observations@,
                    self.id@,
                    installed_at_us,
                ),
    {
        let expected = self.expected_clients();
        let ghost ev = expected_clients_spec(self.environment@);
        let mut clients: Vec<CodexCaptureClientStatus> = Vec::new();
        let mut k: usize = 0;
        while k < expected.len()
            invariant
                k <= expected@.len(),
                ev.len() == expected@.len(),
                client_pairs_view(expected@) == ev,
                clients@.len() == k,
                forall|j: int|
                    0 <= j < k ==> client_status_ok(
                        #[trigger] clients@[j],
                        ev[j],
                        observations@,
                        self.id@,
                        installed_at_us,
                    ),
            decreases expected.len() - k,
        {
            let (id, label) = expected[k];
            assert(ev[k as int] == (id@, label@));
            let last = latest_capture_exec(observations, self.id.as_str(), installed_at_us, id);
            clients.push(
                CodexCaptureClientStatus {
                    id: id.to_owned(),
                    label: label.to_owned(),
                    verified: last.is_some(),
                    last_captured_at_us: last,
                },
            );
            k = k + 1;
        }
        let captured = any_capture_exec(observations, self.id.as_str(), installed_at_us);
        let activation = if !enabled {
            CodexTargetActivation::Disabled
        } else if !captured {
            CodexTargetActivation::AwaitingCapture
        } else {
            CodexTargetActivation::Verified
        };
        CodexTargetStatus {
            id: self.id.clone(),
            label: self.label.clone(),
            environment: self.environment.clone(),
            codex_home: self.codex_home.clone(),
            hook_path: self.hook_path.clone(),
            enabled,
            available,
            activation,
            clients,
            detail,
        }
    }
}

// ---------------------------------------------------------------------------
// The registry of targets
// ---------------------------------------------------------------------------
/// Every Codex installation Akra manages, in detection order.
#[derive(Debug)]
pub struct CodexTargetRegistry {
    pub targets: Vec<CodexTarget>,
}

/// Every summary runtime of the targets, target by target.
pub open spec fn all_runtimes(targets: Seq<CodexTarget>) -> Seq<CodexRuntimeDescriptor>
    decreases targets.len(),
{
    if targets.len() == 0 {
        Seq::empty()
    } else {
        all_runtimes(targets.drop_last()) + targets.last().summary_runtimes@
    }
}

/// The first runtime of a capture target.
pub open spec fn first_runtime_for(rs: Seq<CodexRuntimeDescriptor>, target: Seq<char>) -> Option<
    CodexRuntimeDescriptor,
>
    decreases rs.len(),
{
    if rs.len() == 0 {
        None
    } else if runtime_target(rs[0]) == target {
        Some(rs[0])
    } else {
        first_runtime_for(rs.drop_first(), target)
    }
}

/// The runtime that summarises a result of `capture_target`: for a record
/// without a target, the first runtime detected; otherwise the first of that
/// target, never one of another installation.
pub open spec fn summary_runtime_spec(targets: Seq<CodexTarget>, capture_target: Option<Seq<char>>) -> Option<
    CodexRuntimeDescriptor,
> {
    let rs = all_runtimes(targets);
    match capture_target {
        Some(t) => first_runtime_for(rs, t),
        None => if rs.len() > 0 {
            Some(rs[0])
        } else {
            None
        },
    }
}

proof fn lemma_first_runtime_append(a: Seq<CodexRuntimeDescriptor>, b: Seq<CodexRuntimeDescriptor>, t: Seq<char>)
    ensures
        first_runtime_for(a + b, t) == match first_runtime_for(a, t) {
            Some(r) => Some(r),
            None => first_runtime_for(b, t),
        },
    decreases a.len(),
{
    if a.len() == 0 {
        assert(a + b =~= b);
    } else {
        assert((a + b).drop_first() =~= a.drop_first() + b);
        assert((a + b)[0] == a[0]);
        lemma_first_runtime_append(a.drop_first(), b, t);
    }
}

pub open spec fn opt_str(o: Option<&str>) -> Option<Seq<char>> {
    match o {
        Some(s) => Some(s@),
        None => None,
    }
}

/// Whether some target can be enabled (its capture command is available).
pub open spec fn has_available(targets: Seq<CodexTarget>) -> bool {
    exists|i: int| 0 <= i < targets.len() && (#[trigger] targets[i]).command is Some
}

/// The hook states after toggling every target: disabling turns all off;
/// enabling turns on those that can be enabled and leaves the rest as read.
pub open spec fn apply_all_spec(targets: Seq<CodexTarget>, enabled: bool, states: Seq<bool>) -> Seq<bool> {
    Seq::new(
        states.len(),
        |i: int| if !enabled || targets[i].command is Some {
            enabled
        } else {
            states[i]
        },
    )
}

/// Where one target toggle leaves the shared switch: open when the target is
/// enabled, or while any other target is installed (or cannot be read).
pub open spec fn toggle_gate_spec(index: int, enabled: bool, installed: Seq<Option<bool>>) -> bool {
    enabled || exists|k: int|
        0 <= k < installed.len() && k != index && #[trigger] installed[k] != Some(false)
}

/// The hook states reconciliation writes: all off with a closed switch; with an
/// open switch, as read, and when none is on, the first available target on.
pub open spec fn reconcile_spec(targets: Seq<CodexTarget>, gate_enabled: bool, states: Seq<bool>, first: int) -> Seq<bool> {
    if !gate_enabled {
        Seq::new(states.len(), |i: int| false)
    } else if exists|k: int| 0 <= k < states.len() && #[trigger] states[k] {
        states
    } else {
        states.update(first, true)
    }
}

/// The first target that can be enabled.
pub open spec fn first_available(targets: Seq<CodexTarget>, i: int) -> bool {
    0 <= i < targets.len() && targets[i].command is Some && forall|j: int|
        0 <= j < i ==> (#[trigger] targets[j]).command is None
}

/// A hook write for a target that has no physical home: enable with this
/// command text, or disable.
#[derive(Debug)]
pub struct TargetWrite {
    pub index: usize,
    pub command: Option<String>,
}

/// How to write the desired hook states.
#[derive(Debug)]
pub enum WritePlan {
    /// One transaction over the physical homes: (home, command to install
    /// or `None` to remove).
    Homes(Vec<(String, Option<CodexHookCommand>)>),
    /// Targets without physical homes, written one by one; the error, when
    /// present, stops the run after these writes.
    Targets { writes: Vec<TargetWrite>, error: Option<CodexTargetError> },
}

impl CodexTargetRegistry {
    pub fn new(targets: Vec<CodexTarget>) -> (r: Self)
        ensures
            r.targets == targets,
    {
        CodexTargetRegistry { targets }
    }

    /// The single target of an opaque lifecycle set, installing `command`
    /// on every platform. `native_executable` is the Codex binary found for
    /// summaries, if any.
    pub fn legacy(
        lifecycle: CodexHookLifecycleSet,
        command: String,
        native_executable: Option<String>,
        codex_home: String,
    ) -> (r: Self)
        ensures
            r.targets@.len() == 1,
            r.targets@[0].id@ == "default"@,
            r.targets@[0].label@ == "Codex"@,
            r.targets@[0].environment@ == "local"@,
            r.targets@[0].codex_home is None,
            r.targets@[0].hook_path is None,
            r.targets@[0].physical_codex_home@.len() == 0,
            r.targets@[0].command matches Some(c) && c@.posix == command@ && c@.windows == Some(
                command@,
            ),
            r.targets@[0].enable_error is None,
            native_executable is None ==> r.targets@[0].summary_runtimes@.len() == 0,
            native_executable matches Some(e) ==> r.targets@[0].summary_runtimes@ == seq![
                CodexRuntimeDescriptor::Native {
                    capture_target: r.targets@[0].summary_runtimes@[0]->Native_capture_target,
                    executable: e,
                    codex_home,
                },
            ] && runtime_target(r.targets@[0].summary_runtimes@[0]) == "default"@,
    {
        let mut runtimes: Vec<CodexRuntimeDescriptor> = Vec::new();
        if let Some(e) = native_executable {
            runtimes.push(
                CodexRuntimeDescriptor::Native {
                    capture_target: "default".to_owned(),
                    executable: e,
                    codex_home,
                },
            );
        }
        let target = CodexTarget {
            id: "default".to_owned(),
            label: "Codex".to_owned(),
            environment: "local".to_owned(),
            codex_home: None,
            hook_path: None,
            physical_codex_home: String::new(),
            lifecycle,
            command: Some(CodexHookCommand::same(command.as_str())),
            enable_error: None,
            summary_runtimes: runtimes,
        };
        let mut targets: Vec<CodexTarget> = Vec::new();
        targets.push(target);
        CodexTargetRegistry { targets }
    }

    /// The single target of an explicitly chosen Codex home.
    pub fn explicit(
        physical_codex_home: String,
        codex_home: String,
        command: String,
        native_executable: Option<String>,
        windows_host: bool,
    ) -> (r: Self)
        ensures
            r.targets@.len() == 1,
            r.targets@[0].id@ == "explicit"@,
            r.targets@[0].label@ == "Codex"@,
            r.targets@[0].environment@ == "local"@,
            r.targets@[0].codex_home == Some(codex_home),
            r.targets@[0].physical_codex_home == physical_codex_home,
            r.targets@[0].command matches Some(c) && c@.posix == command@ && c@.windows == Some(
                command@,
            ),
            native_executable is None ==> r.targets@[0].summary_runtimes@.len() == 0,
            native_executable is Some ==> r.targets@[0].summary_runtimes@.len() == 1
                && runtime_target(r.targets@[0].summary_runtimes@[0]) == "explicit"@,
    {
        let same = CodexHookCommand::same(command.as_str());
        let mut target = target_from_home(
            "explicit".to_owned(),
            "Codex".to_owned(),
            "local".to_owned(),
            physical_codex_home,
            codex_home.clone(),
            Ok(same),
            windows_host,
        );
        if let Some(e) = native_executable {
            target.summary_runtimes.push(
                CodexRuntimeDescriptor::Native {
                    capture_target: "explicit".to_owned(),
                    executable: e,
                    codex_home,
                },
            );
        }
        let mut targets: Vec<CodexTarget> = Vec::new();
        targets.push(target);
        CodexTargetRegistry { targets }
    }

    /// The runtime that owns a captured result (see `summary_runtime_spec`).
    pub fn summary_runtime(&self, capture_target: Option<&str>) -> (r: Option<CodexRuntimeDescriptor>)
        ensures
            r == summary_runtime_spec(self.targets@, opt_str(capture_target)),
    {
        let ghost ts = self.targets@;
        let mut i: usize = 0;
        assert(ts.take(0) =~= Seq::<CodexTarget>::empty());
        while i < self.targets.len()
            invariant
                i <= ts.len(),
                ts == self.targets@,
                all_runtimes(ts.take(i as int)).len() == 0 || (capture_target is Some
                    && first_runtime_for(all_runtimes(ts.take(i as int)), opt_str(capture_target)->0) is None),
            decreases self.targets.len() - i,
        {
            let runtimes = &self.targets[i].summary_runtimes;
            let ghost before = all_runtimes(ts.take(i as int));
            assert(ts.take(i + 1).drop_last() =~= ts.take(i as int));
            assert(all_runtimes(ts.take(i + 1)) == before + runtimes@);
            let mut k: usize = 0;
            while k < runtimes.len()
                invariant
                    k <= runtimes@.len(),
                    i < ts.len(),
                    ts == self.targets@,
                    runtimes@ == ts[i as int].summary_runtimes@,
                    before == all_runtimes(ts.take(i as int)),
                    all_runtimes(ts.take(i + 1)) == before + runtimes@,
                    capture_target is None ==> before.len() == 0,
                    before.len() == 0 || (capture_target is Some && first_runtime_for(
                        before,
                        opt_str(capture_target)->0,
                    ) is None),
                    capture_target is Some ==> forall|j: int|
                        0 <= j < k ==> runtime_target(#[trigger] runtimes@[j]) != opt_str(capture_target)->0,
                    capture_target is None ==> k == 0,
                decreases runtimes.len() - k,
            {
                let runtime = &runtimes[k];
                match capture_target {
                    None => {
                        proof {
                            lemma_all_runtimes_prefix(ts, i + 1);
                            assert((before + runtimes@)[0] == runtimes@[0]);
                            assert(all_runtimes(ts)[0] == (before + runtimes@)[0]);
                        }
                        return Some(runtime.duplicate());
                    },
                    Some(t) => {
                        if chars_eq(chars_of(runtime.capture_target()).as_slice(), chars_of(t).as_slice()) {
                            proof {
                                assert(first_runtime_for(before, t@) is None);
                                lemma_first_runtime_skip(runtimes@, k as int, t@);
                                lemma_first_runtime_append(before, runtimes@, t@);
                                lemma_all_runtimes_prefix(ts, i + 1);
                                lemma_first_runtime_append(
                                    all_runtimes(ts.take(i + 1)),
                                    all_runtimes(ts.skip(i + 1)),
                                    t@,
                                );
                                assert(ts.take(i + 1) + ts.skip(i + 1) =~= ts);
                            }
                            return Some(runtime.duplicate());
                        }
                    },
                }
                k = k + 1;
            }
            proof {
                if capture_target is Some {
                    let t = opt_str(capture_target)->0;
                    lemma_first_runtime_none(runtimes@, t);
                    lemma_first_runtime_append(before, runtimes@, t);
                } else {
                    assert(runtimes@.len() == 0);
                    assert(before + runtimes@ =~= before);
                }
            }
            i = i + 1;
        }
        proof {
            assert(ts.take(ts.len() as int) =~= ts);
        }
        None
    }

    /// Whether any target's hooks are installed, given each target's state.
    pub fn is_any_enabled(states: &Vec<bool>) -> (r: bool)
        ensures
            r == exists|k: int| 0 <= k < states@.len() && #[trigger] states@[k],
    {
        let mut k: usize = 0;
        while k < states.len()
            invariant
                k <= states@.len(),
                forall|j: int| 0 <= j < k ==> !#[trigger] states@[j],
            decreases states.len() - k,
        {
            if states[k] {
                return true;
            }
            k = k + 1;
        }
        false
    }

    /// The desired states for turning every target on or off, given the
    /// states read. Enabling needs at least one available target.
    pub fn apply_all(&self, enabled: bool, states: &Vec<bool>) -> (r: Result<Vec<bool>, CodexTargetError>)
        requires
            states@.len() == self.targets@.len(),
        ensures
            (enabled && !has_available(self.targets@)) ==> (r matches Err(CodexTargetError::NoAvailableTargets)),
            !(enabled && !has_available(self.targets@)) ==> (r matches Ok(d) && d@ == apply_all_spec(
                self.targets@,
                enabled,
                states@,
            )),
    {
        if enabled {
            let mut any = false;
            let mut k: usize = 0;
            while k < self.targets.len()
                invariant
                    k <= self.targets@.len(),
                    any == exists|j: int| 0 <= j < k && (#[trigger] self.targets@[j]).command is Some,
                decreases self.targets.len() - k,
            {
                if self.targets[k].command.is_some() {
                    any = true;
                }
                k = k + 1;
            }
            if !any {
                return Err(CodexTargetError::NoAvailableTargets);
            }
        }
        let mut desired: Vec<bool> = Vec::new();
        let mut k: usize = 0;
        while k < states.len()
            invariant
                k <= states@.len() == self.targets@.len(),
                desired@ == apply_all_spec(self.targets@, enabled, states@).take(k as int),
            decreases states.len() - k,
        {
            let value = if !enabled || self.targets[k].command.is_some() {
                enabled
            } else {
                states[k]
            };
            desired.push(value);
            assert(desired@ =~= apply_all_spec(self.targets@, enabled, states@).take(k + 1));
            k = k + 1;
        }
        assert(desired@ =~= apply_all_spec(self.targets@, enabled, states@));
        Ok(desired)
    }

    /// The target named `id`, if any.
    pub fn find_target(&self, id: &str) -> (r: Option<usize>)
        ensures
            r matches Some(i) ==> i < self.targets@.len() && self.targets@[i as int].id@ == id@
                && forall|j: int| 0 <= j < i ==> (#[trigger] self.targets@[j]).id@ != id@,
            r is None ==> forall|j: int| 0 <= j < self.targets@.len() ==> (#[trigger] self.targets@[j]).id@ != id@,
    {
        let wanted = chars_of(id);
        let mut k: usize = 0;
        while k < self.targets.len()
            invariant
                k <= self.targets@.len(),
                wanted@ == id@,
                forall|j: int| 0 <= j < k ==> (#[trigger] self.targets@[j]).id@ != id@,
            decreases self.targets.len() - k,
        {
            if chars_eq(chars_of(self.targets[k].id.as_str()).as_slice(), wanted.as_slice()) {
                return Some(k);
            }
            k = k + 1;
        }
        None
    }

    /// Checks a single-target toggle: the target must exist, and can be
    /// enabled only with an available command. Returns its index.
    pub fn apply_target(&self, id: &str, enabled: bool) -> (r: Result<usize, CodexTargetError>)
        ensures
            (forall|j: int| 0 <= j < self.targets@.len() ==> (#[trigger] self.targets@[j]).id@ != id@)
                ==> (r matches Err(CodexTargetError::UnknownTarget(t)) && t@ == id@),
            r matches Ok(i) ==> i < self.targets@.len() && self.targets@[i as int].id@ == id@
                && (enabled ==> self.targets@[i as int].command is Some),
            r matches Err(CodexTargetError::UnavailableTarget { target, detail }) ==> target@ == id@
                && exists|i: int| 0 <= i < self.targets@.len() && (#[trigger] self.targets@[i]).id@ == id@
                    && self.targets@[i].command is None && detail@ == match self.targets@[i].enable_error {
                        Some(e) => e@,
                        None => "capture command is unavailable"@,
                    },
            (exists|i: int|
                0 <= i < self.targets@.len() && (#[trigger] self.targets@[i]).id@ == id@ && (forall|j: int|
                    0 <= j < i ==> (#[trigger] self.targets@[j]).id@ != id@) && (!enabled
                    || self.targets@[i].command is Some)) ==> r is Ok,
    {
        let index = match self.find_target(id) {
            Some(i) => i,
            None => return Err(CodexTargetError::UnknownTarget(id.to_owned())),
        };
        let target = &self.targets[index];
        if enabled && target.command.is_none() {
            let detail = match &target.enable_error {
                Some(e) => e.clone(),
                None => "capture command is unavailable".to_owned(),
            };
            return Err(CodexTargetError::UnavailableTarget { target: id.to_owned(), detail });
        }
        Ok(index)
    }

    /// Where a single-target toggle leaves the shared switch (see
    /// `toggle_gate_spec`); `installed[k]` is target `k`'s state, `None`
    /// when it could not be read.
    pub fn toggle_gate(index: usize, enabled: bool, installed: &Vec<Option<bool>>) -> (r: bool)
        ensures
            r == toggle_gate_spec(index as int, enabled, installed@),
    {
        if enabled {
            return true;
        }
        let mut k: usize = 0;
        while k < installed.len()
            invariant
                k <= installed@.len(),
                forall|j: int| 0 <= j < k && j != index ==> #[trigger] installed@[j] == Some(false),
            decreases installed.len() - k,
        {
            if k != index {
                match installed[k] {
                    Some(false) => {},
                    _ => {
                        assert(installed@[k as int] != Some(false));
                        return true;
                    },
                }
            }
            k = k + 1;
        }
        false
    }

    /// The desired states when reconciling with the persisted switch.
    pub fn reconcile(&self, gate_enabled: bool, states: &Vec<bool>) -> (r: Result<Vec<bool>, CodexTargetError>)
        requires
            states@.len() == self.targets@.len(),
        ensures
            !gate_enabled ==> (r matches Ok(d) && d@ == Seq::new(states@.len(), |i: int| false)),
            gate_enabled && (exists|k: int| 0 <= k < states@.len() && #[trigger] states@[k]) ==> (r matches Ok(
                d,
            ) && d@ == states@),
            gate_enabled && !(exists|k: int| 0 <= k < states@.len() && #[trigger] states@[k]) ==> (
            if has_available(self.targets@) {
                r matches Ok(d) && exists|i: int| first_available(self.targets@, i) && d@ == states@.update(i, true)
            } else {
                r matches Err(CodexTargetError::NoAvailableTargets)
            }),
    {
        let mut desired: Vec<bool> = Vec::new();
        if !gate_enabled {
            let mut k: usize = 0;
            while k < states.len()
                invariant
                    k <= states@.len(),
                    desired@ == Seq::new(k as nat, |i: int| false),
                decreases states.len() - k,
            {
                desired.push(false);
                assert(desired@ =~= Seq::new((k + 1) as nat, |i: int| false));
                k = k + 1;
            }
            assert(desired@ =~= Seq::new(states@.len(), |i: int| false));
            return Ok(desired);
        }
        let mut k: usize = 0;
        while k < states.len()
            invariant
                k <= states@.len(),
                desired@ == states@.take(k as int),
            decreases states.len() - k,
        {
            desired.push(states[k]);
            assert(states@.take(k + 1) =~= states@.take(k as int).push(states@[k as int]));
            k = k + 1;
        }
        assert(states@.take(states@.len() as int) =~= states@);
        if Self::is_any_enabled(states) {
            return Ok(desired);
        }
        let mut k: usize = 0;
        while k < self.targets.len()
            invariant
                k <= self.targets@.len() == desired@.len(),
                desired@ == states@,
                states@.len() == self.targets@.len(),
                gate_enabled,
                !(exists|j: int| 0 <= j < states@.len() && #[trigger] states@[j]),
                forall|j: int| 0 <= j < k ==> (#[trigger] self.targets@[j]).command is None,
            decreases self.targets.len() - k,
        {
            if self.targets[k].command.is_some() {
                desired.set(k, true);
                assert(first_available(self.targets@, k as int));
                return Ok(desired);
            }
            k = k + 1;
        }
        assert(!has_available(self.targets@));
        Err(CodexTargetError::NoAvailableTargets)
    }
}

proof fn lemma_all_runtimes_prefix(ts: Seq<CodexTarget>, i: int)
    requires
        0 <= i <= ts.len(),
    ensures
        all_runtimes(ts) == all_runtimes(ts.take(i)) + all_runtimes(ts.skip(i)),
    decreases ts.len(),
{
    if i == ts.len() {
        assert(ts.take(i) =~= ts);
        assert(ts.skip(i) =~= Seq::<CodexTarget>::empty());
        assert(all_runtimes(ts) + Seq::<CodexRuntimeDescriptor>::empty() =~= all_runtimes(ts));
    } else {
        lemma_all_runtimes_prefix(ts.drop_last(), i);
        assert(ts.drop_last().take(i) =~= ts.take(i));
        assert(ts.skip(i).drop_last() =~= ts.drop_last().skip(i));
        assert(ts.skip(i).last() == ts.last());
    }
}

proof fn lemma_first_runtime_skip(rs: Seq<CodexRuntimeDescriptor>, k: int, t: Seq<char>)
    requires
        0 <= k < rs.len(),
        runtime_target(rs[k]) == t,
        forall|j: int| 0 <= j < k ==> runtime_target(#[trigger] rs[j]) != t,
    ensures
        first_runtime_for(rs, t) == Some(rs[k]),
    decreases k,
{
    if k > 0 {
        assert forall|j: int| 0 <= j < k - 1 implies runtime_target(#[trigger] rs.drop_first()[j]) != t by {
            assert(rs.drop_first()[j] == rs[j + 1]);
        }
        lemma_first_runtime_skip(rs.drop_first(), k - 1, t);
    }
}

proof fn lemma_first_runtime_none(rs: Seq<CodexRuntimeDescriptor>, t: Seq<char>)
    requires
        forall|j: int| 0 <= j < rs.len() ==> runtime_target(#[trigger] rs[j]) != t,
    ensures
        first_runtime_for(rs, t) is None,
    decreases rs.len(),
{
    if rs.len() > 0 {
        assert forall|j: int| 0 <= j < rs.len() - 1 implies runtime_target(#[trigger] rs.drop_first()[j]) != t by {
            assert(rs.drop_first()[j] == rs[j + 1]);
        }
        lemma_first_runtime_none(rs.drop_first(), t);
    }
}

// ---------------------------------------------------------------------------
// Reporting and writing the targets
// ---------------------------------------------------------------------------
/// The command a target installs: its own, else the one found installed.
pub open spec fn effective_command(t: CodexTarget, fallback: Option<CodexHookCommand>) -> Option<
    CommandView,
> {
    match t.command {
        Some(c) => Some(c@),
        None => match fallback {
            Some(f) => Some(f@),
            None => None,
        },
    }
}

pub open spec fn home_update_view(u: (String, Option<CodexHookCommand>)) -> (Seq<char>, Option<CommandView>) {
    (u.0@, crate::transaction::opt_command_view(u.1))
}

/// The per-home updates that write the desired states: removal for a
/// disabled target; installation for an enabled one with a command; an
/// enabled target without any command is left as it is.
pub open spec fn home_updates_spec(
    targets: Seq<CodexTarget>,
    states: Seq<bool>,
    fallback: Seq<Option<CodexHookCommand>>,
) -> Seq<(Seq<char>, Option<CommandView>)>
    decreases targets.len(),
{
    if targets.len() == 0 {
        Seq::empty()
    } else {
        let n = targets.len() - 1;
        let prev = home_updates_spec(targets.drop_last(), states, fallback);
        let t = targets[n];
        if !states[n] {
            prev.push((t.physical_codex_home@, None))
        } else {
            match effective_command(t, fallback[n]) {
                Some(c) => prev.push((t.physical_codex_home@, Some(c))),
                None => prev,
            }
        }
    }
}

pub open spec fn unavailable_detail(t: CodexTarget) -> Seq<char> {
    match t.enable_error {
        Some(e) => e@,
        None => "capture command is unavailable"@,
    }
}

fn unavailable(target: &CodexTarget) -> (r: CodexTargetError)
    ensures
        r matches CodexTargetError::UnavailableTarget { target: id, detail } && id@ == target.id@
            && detail@ == unavailable_detail(*target),
{
    let detail = match &target.enable_error {
        Some(e) => e.clone(),
        None => "capture command is unavailable".to_owned(),
    };
    CodexTargetError::UnavailableTarget { target: target.id.clone(), detail }
}

fn pick_command<'a>(target: &'a CodexTarget, fallback: &'a Option<CodexHookCommand>) -> (r: Option<
    &'a CodexHookCommand,
>)
    ensures
        r is None <==> effective_command(*target, *fallback) is None,
        r matches Some(c) ==> effective_command(*target, *fallback) == Some(c@),
{
    match &target.command {
        Some(c) => Some(c),
        None => match fallback {
            Some(f) => Some(f),
            None => None,
        },
    }
}

impl CodexTargetRegistry {
    /// The status of every target, given each target's installed state
    /// (`Err` with the reason when it could not be read) and manifest time.
    pub fn statuses(
        &self,
        installed: &Vec<Result<bool, String>>,
        installed_at_us: &Vec<Option<i64>>,
        observations: &Vec<CaptureClientObservation>,
    ) -> (r: Vec<CodexTargetStatus>)
        requires
            installed@.len() == self.targets@.len(),
            installed_at_us@.len() == self.targets@.len(),
        ensures
            r@.len() == self.targets@.len(),
            forall|k: int|
                0 <= k < r@.len() ==> {
                    let s = #[trigger] r@[k];
                    let t = self.targets@[k];
                    &&& s.id == t.id
                    &&& s.activation == activation_spec(
                        s.enabled,
                        any_capture(observations@, t.id@, installed_at_us@[k]),
                    )
                    &&& match installed@[k] {
                        Ok(b) => s.enabled == b && s.available == (b || t.command is Some)
                            && s.detail == t.enable_error,
                        Err(e) => !s.enabled && !s.available && s.detail == Some(e),
                    }
                },
    {
        let mut out: Vec<CodexTargetStatus> = Vec::new();
        let mut k: usize = 0;
        while k < self.targets.len()
            invariant
                k <= self.targets@.len(),
                installed@.len() == self.targets@.len(),
                installed_at_us@.len() == self.targets@.len(),
                out@.len() == k,
                forall|j: int|
                    0 <= j < k ==> {
                        let s = #[trigger] out@[j];
                        let t = self.targets@[j];
                        &&& s.id == t.id
                        &&& s.activation == activation_spec(
                            s.enabled,
                            any_capture(observations@, t.id@, installed_at_us@[j]),
                        )
                        &&& match installed@[j] {
                            Ok(b) => s.enabled == b && s.available == (b || t.command is Some)
                                && s.detail == t.enable_error,
                            Err(e) => !s.enabled && !s.available && s.detail == Some(e),
                        }
                    },
            decreases self.targets.len() - k,
        {
            let target = &self.targets[k];
            let status = match &installed[k] {
                Ok(b) => target.status(
                    *b,
                    *b || target.command.is_some(),
                    target.enable_error.clone(),
                    observations,
                    installed_at_us[k],
                ),
                Err(e) => target.status(false, false, Some(e.clone()), observations, installed_at_us[k]),
            };
            out.push(status);
            k = k + 1;
        }
        out
    }

    /// Which targets' installed commands must be read before a change, so
    /// a target whose command cannot be rebuilt keeps the installed one:
    /// those installed without a command of their own.
    pub fn commands_to_snapshot(&self, states: &Vec<bool>) -> (r: Vec<usize>)
        requires
            states@.len() == self.targets@.len(),
        ensures
            forall|k: int| 0 <= k < r@.len() ==> r@[k] < self.targets@.len(),
            forall|i: int|
                0 <= i < self.targets@.len() ==> (r@.contains(i as usize) <==> (states@[i]
                    && (#[trigger] self.targets@[i]).command is None)),
    {
        let mut out: Vec<usize> = Vec::new();
        let mut k: usize = 0;
        while k < self.targets.len()
            invariant
                k <= self.targets@.len() == states@.len(),
                forall|j: int| 0 <= j < out@.len() ==> out@[j] < k,
                forall|i: int|
                    0 <= i < self.targets@.len() ==> (out@.contains(i as usize) <==> (i < k && states@[i]
                        && (#[trigger] self.targets@[i]).command is None)),
            decreases self.targets.len() - k,
        {
            if states[k] && self.targets[k].command.is_none() {
                let ghost before = out@;
                out.push(k);
                assert forall|i: int|
                    0 <= i < self.targets@.len() implies (out@.contains(i as usize) <==> (i < k + 1
                        && states@[i] && (#[trigger] self.targets@[i]).command is None)) by {
                    if i == k {
                        assert(out@[out@.len() - 1] == k);
                    }
                    if out@.contains(i as usize) && i != k {
                        let j = choose|j: int| 0 <= j < out@.len() && out@[j] == i as usize;
                        assert(before[j] == i as usize);
                    }
                    if before.contains(i as usize) {
                        let j = choose|j: int| 0 <= j < before.len() && before[j] == i as usize;
                        assert(out@[j] == i as usize);
                    }
                }
            }
            k = k + 1;
        }
        out
    }

    /// How to write the desired states (`fallback[k]`: target `k`'s
    /// installed command, when it has none of its own). When every target
    /// has a physical home, one transaction over the homes; otherwise each
    /// target in turn, stopping at the first enabled one without a command.
    pub fn write_states_with_fallback(
        &self,
        states: &Vec<bool>,
        fallback: &Vec<Option<CodexHookCommand>>,
    ) -> (r: WritePlan)
        requires
            states@.len() == self.targets@.len(),
            fallback@.len() == self.targets@.len(),
        ensures
            (forall|k: int| 0 <= k < self.targets@.len() ==> (#[trigger] self.targets@[k]).physical_codex_home@.len() > 0)
                ==> (r matches WritePlan::Homes(u) && u@.map_values(
                |p: (String, Option<CodexHookCommand>)| home_update_view(p),
            ) == home_updates_spec(self.targets@, states@, fallback@)),
            !(forall|k: int| 0 <= k < self.targets@.len() ==> (#[trigger] self.targets@[k]).physical_codex_home@.len() > 0)
                ==> (r matches WritePlan::Targets { writes, error } && (forall|j: int|
                0 <= j < writes@.len() ==> {
                    let w = #[trigger] writes@[j];
                    &&& w.index == j
                    &&& if states@[j] {
                        effective_command(self.targets@[j], fallback@[j]) matches Some(c) && (w.command matches Some(x) && x@ == c.posix)
                    } else {
                        w.command is None
                    }
                }) && (error is None ==> writes@.len() == self.targets@.len()) && (error matches Some(e) ==> (
                writes@.len() < self.targets@.len() && states@[writes@.len() as int]
                    && effective_command(self.targets@[writes@.len() as int], fallback@[writes@.len() as int]) is None
                    && (e matches CodexTargetError::UnavailableTarget { target, detail } && target@
                    == self.targets@[writes@.len() as int].id@ && detail@ == unavailable_detail(
                    self.targets@[writes@.len() as int],
                ))))),
    {
        let mut all_physical = true;
        let mut k: usize = 0;
        while k < self.targets.len()
            invariant
                k <= self.targets@.len(),
                all_physical == forall|j: int| 0 <= j < k ==> (#[trigger] self.targets@[j]).physical_codex_home@.len() > 0,
            decreases self.targets.len() - k,
        {
            if self.targets[k].physical_codex_home.as_str().is_empty() {
                all_physical = false;
            }
            k = k + 1;
        }
        if all_physical {
            let ghost ts = self.targets@;
            let mut updates: Vec<(String, Option<CodexHookCommand>)> = Vec::new();
            let mut k: usize = 0;
            assert(ts.take(0) =~= Seq::<CodexTarget>::empty());
            while k < self.targets.len()
                invariant
                    k <= ts.len(),
                    ts == self.targets@,
                    states@.len() == ts.len(),
                    fallback@.len() == ts.len(),
                    updates@.map_values(|p: (String, Option<CodexHookCommand>)| home_update_view(p))
                        == home_updates_spec(ts.take(k as int), states@, fallback@),
                decreases self.targets.len() - k,
            {
                let target = &self.targets[k];
                let ghost before = updates@;
                assert(ts.take(k + 1).drop_last() =~= ts.take(k as int));
                assert(ts.take(k + 1)[k as int] == ts[k as int]);
                if !states[k] {
                    updates.push((target.physical_codex_home.clone(), None));
                    assert(updates@.map_values(|p: (String, Option<CodexHookCommand>)| home_update_view(p))
                        =~= before.map_values(|p: (String, Option<CodexHookCommand>)| home_update_view(p)).push(
                        (target.physical_codex_home@, None),
                    ));
                } else {
                    match pick_command(target, &fallback[k]) {
                        Some(c) => {
                            updates.push((target.physical_codex_home.clone(), Some(c.duplicate())));
                            assert(updates@.map_values(|p: (String, Option<CodexHookCommand>)| home_update_view(p))
                                =~= before.map_values(|p: (String, Option<CodexHookCommand>)| home_update_view(p)).push(
                                (target.physical_codex_home@, Some(c@)),
                            ));
                        },
                        None => {},
                    }
                }
                k = k + 1;
            }
            assert(ts.take(ts.len() as int) =~= ts);
            return WritePlan::Homes(updates);
        }
        let mut writes: Vec<TargetWrite> = Vec::new();
        let mut k: usize = 0;
        while k < self.targets.len()
            invariant
                k <= self.targets@.len(),
                states@.len() == self.targets@.len(),
                fallback@.len() == self.targets@.len(),
                !(forall|j: int| 0 <= j < self.targets@.len() ==> (#[trigger] self.targets@[j]).physical_codex_home@.len() > 0),
                writes@.len() == k,
                forall|j: int|
                    0 <= j < writes@.len() ==> {
                        let w = #[trigger] writes@[j];
                        &&& w.index == j
                        &&& if states@[j] {
                            effective_command(self.targets@[j], fallback@[j]) matches Some(c) && (w.command matches Some(x) && x@ == c.posix)
                        } else {
                            w.command is None
                        }
                    },
            decreases self.targets.len() - k,
        {
            let target = &self.targets[k];
            if states[k] {
                match pick_command(target, &fallback[k]) {
                    Some(c) => {
                        writes.push(TargetWrite { index: k, command: Some(c.command().to_owned()) });
                    },
                    None => {
                        let e = unavailable(target);
                        return WritePlan::Targets { writes, error: Some(e) };
                    },
                }
            } else {
                writes.push(TargetWrite { index: k, command: None });
            }
            k = k + 1;
        }
        WritePlan::Targets { writes, error: None }
    }

    /// How to write one target's state (`fallback`: its installed command,
    /// when it has none of its own).
    pub fn write_target_with_fallback(
        &self,
        index: usize,
        enabled: bool,
        fallback: Option<&CodexHookCommand>,
    ) -> (r: Result<WritePlan, CodexTargetError>)
        requires
            index < self.targets@.len(),
        ensures
            ({
                let t = self.targets@[index as int];
                let command = match t.command {
                    Some(c) => Some(c@),
                    None => match fallback {
                        Some(f) => Some(f@),
                        None => None,
                    },
                };
                &&& (enabled && command is None) ==> (r matches Err(CodexTargetError::UnavailableTarget { target, detail })
                    && target@ == t.id@ && detail@ == unavailable_detail(t))
                &&& !(enabled && command is None) && t.physical_codex_home@.len() == 0 ==> (r matches Ok(
                    WritePlan::Targets { writes, error },
                ) && error is None && writes@.len() == 1 && writes@[0].index == index && if enabled {
                    writes@[0].command matches Some(x) && x@ == command->0.posix
                } else {
                    writes@[0].command is None
                })
                &&& !(enabled && command is None) && t.physical_codex_home@.len() > 0 ==> (r matches Ok(
                    WritePlan::Homes(u),
                ) && u@.len() == 1 && u@[0].0@ == t.physical_codex_home@ && if enabled {
                    u@[0].1 matches Some(x) && x@ == command->0
                } else {
                    u@[0].1 is None
                })
            }),
    {
        let target = &self.targets[index];
        let command: Option<&CodexHookCommand> = match &target.command {
            Some(c) => Some(c),
            None => fallback,
        };
        if enabled && command.is_none() {
            return Err(unavailable(target));
        }
        if target.physical_codex_home.as_str().is_empty() {
            let text = if enabled {
                match command {
                    Some(c) => Some(c.command().to_owned()),
                    None => None,
                }
            } else {
                None
            };
            let mut writes: Vec<TargetWrite> = Vec::new();
            writes.push(TargetWrite { index, command: text });
            Ok(WritePlan::Targets { writes, error: None })
        } else {
            let c = if enabled {
                match command {
                    Some(c) => Some(c.duplicate()),
                    None => None,
                }
            } else {
                None
            };
            let mut updates: Vec<(String, Option<CodexHookCommand>)> = Vec::new();
            updates.push((target.physical_codex_home.clone(), c));
            Ok(WritePlan::Homes(updates))
        }
    }
}

} // verus!
