//! The decisions of the command line: how a capture is accepted and
//! labelled, and how the capture switch is set up when the runtime starts.
use vstd::prelude::*;

use crate::text::{chars_of, push_str, string_from_chars};

verus! {

/// Whether a hook's payload fits the capture input limit.
pub fn capture_input_fits(len: usize) -> (r: bool)
    ensures
        r == (len <= crate::spool::MAX_CAPTURE_INPUT_BYTES),
{
    len <= crate::spool::MAX_CAPTURE_INPUT_BYTES
}

/// The capture target an envelope names: a result from WSL names its
/// distribution as `wsl:<distro>`; otherwise the target the hook was
/// installed for, if any.
pub open spec fn envelope_target_spec(is_result: bool, wsl_distro: Option<Seq<char>>, capture_target: Option<Seq<char>>) -> Option<Seq<char>> {
    if is_result && wsl_distro is Some {
        Some("wsl:"@ + wsl_distro->Some_0)
    } else {
        capture_target
    }
}

pub fn envelope_target(is_result: bool, wsl_distro: Option<&str>, capture_target: Option<&str>) -> (r: Option<String>)
    ensures
        match envelope_target_spec(
            is_result,
            crate::targets::opt_str(wsl_distro),
            crate::targets::opt_str(capture_target),
        ) {
            Some(t) => r matches Some(s) && s@ == t,
            None => r is None,
        },
{
    if is_result {
        if let Some(d) = wsl_distro {
            let mut out: Vec<char> = Vec::new();
            push_str(&mut out, "wsl:");
            push_str(&mut out, d);
            return Some(string_from_chars(out.as_slice()));
        }
    }
    match capture_target {
        Some(t) => Some(t.to_owned()),
        None => None,
    }
}

/// A WSL working directory on a Windows drive: `/mnt/<letter>` alone or
/// followed by `/`.
pub open spec fn is_wsl_windows_mount_spec(cwd: Seq<char>) -> bool {
    crate::text::starts_with_spec(cwd, "/mnt/"@) && {
        let rest = cwd.skip(5);
        rest.len() > 0 && crate::text::is_ascii_alpha_spec(rest[0]) && (rest.len() == 1 || rest[1] == '/')
    }
}

pub fn is_wsl_windows_mount(cwd: &str) -> (r: bool)
    ensures
        r == is_wsl_windows_mount_spec(cwd@),
{
    let c = chars_of(cwd);
    proof {
        reveal_strlit("/mnt/");
    }
    if !crate::text::starts_with_str(c.as_slice(), "/mnt/") {
        return false;
    }
    let rest = crate::text::sub_vec(c.as_slice(), 5, c.len());
    assert(rest@ =~= cwd@.skip(5));
    rest.len() > 0 && crate::text::is_ascii_alpha(rest[0]) && (rest.len() == 1 || rest[1] == '/')
}

/// How the runtime's start settles the capture switch.
#[derive(Clone, Copy, Debug, PartialEq, Eq, Structural)]
pub enum ServeStartup {
    /// The switch was set before: bring the hooks in line with it.
    Reconcile,
    /// No switch yet: record whether any target is enabled.
    Record(bool),
}

pub fn serve_startup(switch_file_exists: bool, any_target_enabled: bool) -> (r: ServeStartup)
    ensures
        switch_file_exists ==> r == ServeStartup::Reconcile,
        !switch_file_exists ==> r == ServeStartup::Record(any_target_enabled),
{
    if switch_file_exists {
        ServeStartup::Reconcile
    } else {
        ServeStartup::Record(any_target_enabled)
    }
}

/// Setup records a disabled switch when there is none yet.
pub fn setup_initial_switch(switch_file_exists: bool) -> (r: Option<bool>)
    ensures
        switch_file_exists ==> r is None,
        !switch_file_exists ==> r == Some(false),
{
    if switch_file_exists {
        None
    } else {
        Some(false)
    }
}

/// The word `status` reports for Codex: enabled when any target is.
pub fn status_word(any_target_enabled: bool) -> (r: &'static str)
    ensures
        any_target_enabled ==> r@ == "enabled"@,
        !any_target_enabled ==> r@ == "disabled"@,
{
    if any_target_enabled {
        "enabled"
    } else {
        "disabled"
    }
}

} // verus!
