//! The Codex hook manifest model and the rules for Akra-managed hooks in it.
use vstd::prelude::*;

use crate::text::{
    chars_of, chars_eq, ends_with_spec, eq_str, find_from, first_occurrence, is_whitespace,
    is_whitespace_spec, lemma_first_occurrence_from, occurs_at, starts_with_spec, string_from_chars,
    sub_vec, trim, trim_spec, ascii_lower, ascii_lower_seq, CharSeq,
};

verus! {

/// The capture command recorded for a hook: the POSIX `command`, and the
/// `commandWindows` override used by native Windows Codex when present.
#[derive(Clone, Debug, PartialEq, Eq)]
pub struct CodexHookCommand {
    pub(crate) command: String,
    pub(crate) command_windows: Option<String>,
}

/// The values of a hook command.
pub struct CommandView {
    pub posix: Seq<char>,
    pub windows: Option<Seq<char>>,
}

pub open spec fn opt_string_view(o: Option<String>) -> Option<Seq<char>> {
    match o {
        Some(s) => Some(s@),
        None => None,
    }
}

impl View for CodexHookCommand {
    type V = CommandView;

    closed spec fn view(&self) -> CommandView {
        CommandView { posix: self.command@, windows: opt_string_view(self.command_windows) }
    }
}

/// Which command a platform runs.
#[derive(Clone, Copy, Debug, PartialEq, Eq, Structural)]
pub enum HookPlatform {
    Posix,
    Windows,
}

/// The command a platform runs: Windows falls back to the POSIX command when
/// no override is recorded.
pub open spec fn command_for_spec(c: CommandView, platform: HookPlatform) -> Seq<char> {
    match platform {
        HookPlatform::Posix => c.posix,
        HookPlatform::Windows => match c.windows {
            Some(w) => w,
            None => c.posix,
        },
    }
}

impl CodexHookCommand {
    /// One command for every platform.
    pub fn same(command: &str) -> (r: Self)
        ensures
            r@.posix == command@,
            r@.windows == Some(command@),
    {
        CodexHookCommand { command: command.to_owned(), command_windows: Some(command.to_owned()) }
    }

    /// A POSIX command with no Windows override.
    pub fn posix(command: &str) -> (r: Self)
        ensures
            r@.posix == command@,
            r@.windows is None,
    {
        CodexHookCommand { command: command.to_owned(), command_windows: None }
    }

    /// Distinct POSIX and Windows commands.
    pub fn with_windows(command: &str, command_windows: &str) -> (r: Self)
        ensures
            r@.posix == command@,
            r@.windows == Some(command_windows@),
    {
        CodexHookCommand {
            command: command.to_owned(),
            command_windows: Some(command_windows.to_owned()),
        }
    }

    /// A command from its POSIX text and optional Windows override.
    pub fn from_parts(command: String, command_windows: Option<String>) -> (r: Self)
        ensures
            r@.posix == command@,
            r@.windows == opt_string_view(command_windows),
    {
        CodexHookCommand { command, command_windows }
    }

    /// The POSIX command.
    pub fn command(&self) -> (r: &str)
        ensures
            r@ == self@.posix,
    {
        self.command.as_str()
    }

    /// The Windows override, if any.
    pub fn command_windows(&self) -> (r: Option<&str>)
        ensures
            r is None <==> self@.windows is None,
            r matches Some(w) ==> self@.windows == Some(w@),
    {
        match &self.command_windows {
            Some(w) => Some(w.as_str()),
            None => None,
        }
    }

    /// The command that `platform` runs.
    pub fn command_for(&self, platform: HookPlatform) -> (r: &str)
        ensures
            r@ == command_for_spec(self@, platform),
    {
        match platform {
            HookPlatform::Posix => self.command.as_str(),
            HookPlatform::Windows => match &self.command_windows {
                Some(w) => w.as_str(),
                None => self.command.as_str(),
            },
        }
    }

    /// A copy with the same commands.
    pub fn duplicate(&self) -> (r: Self)
        ensures
            r@ == self@,
    {
        CodexHookCommand {
            command: self.command.clone(),
            command_windows: match &self.command_windows {
                Some(w) => Some(w.clone()),
                None => None,
            },
        }
    }
}

/// Hook events whose handlers Akra manages: it installs `UserPromptSubmit`
/// and `Stop`, and removes the `SubagentStart` handlers of older installs.
#[derive(Clone, Copy, Debug, PartialEq, Eq, Structural)]
pub enum HookEvent {
    UserPromptSubmit,
    SubagentStart,
    Stop,
}

/// The event name Codex uses in trust state keys.
pub open spec fn trust_label_spec(event: HookEvent) -> Seq<char> {
    match event {
        HookEvent::UserPromptSubmit => "user_prompt_submit"@,
        HookEvent::SubagentStart => "subagent_start"@,
        HookEvent::Stop => "stop"@,
    }
}

impl HookEvent {
    pub fn trust_label(self) -> (r: &'static str)
        ensures
            r@ == trust_label_spec(self),
    {
        match self {
            HookEvent::UserPromptSubmit => "user_prompt_submit",
            HookEvent::SubagentStart => "subagent_start",
            HookEvent::Stop => "stop",
        }
    }
}

/// The position of one hook handler: event, matcher group and handler index.
#[derive(Clone, Copy, Debug, PartialEq, Eq, Structural)]
pub struct HookLocation {
    pub event: HookEvent,
    pub group: usize,
    pub handler: usize,
}

impl HookLocation {
    pub fn new(event: HookEvent, group: usize, handler: usize) -> (r: Self)
        ensures
            r == (HookLocation { event, group, handler }),
    {
        HookLocation { event, group, handler }
    }
}

} // verus!
