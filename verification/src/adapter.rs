//! What a Codex hook payload becomes: a prompt activity, a subagent start,
//! or a turn result, with the identifiers and texts the capture keeps.
use vstd::prelude::*;

use crate::text::{chars_of, push_str, string_from_chars, trim, trim_spec};

verus! {

/// A Codex hook payload, decoded by its `hook_event_name`.
#[derive(Clone, Debug, PartialEq, Eq)]
pub enum CodexHook {
    UserPromptSubmit {
        session_id: String,
        turn_id: String,
        cwd: String,
        prompt: String,
        model: Option<String>,
    },
    SubagentStart {
        session_id: String,
        turn_id: String,
        cwd: String,
        model: Option<String>,
        agent_id: String,
        agent_type: String,
    },
    Stop {
        session_id: String,
        turn_id: String,
        cwd: String,
        model: Option<String>,
        last_assistant_message: Option<String>,
    },
    /// A hook this library does not consume, by name.
    Other(String),
}

/// Who produced an activity.
#[derive(Clone, Copy, Debug, PartialEq, Eq, Structural)]
pub enum ActivityKind {
    User,
    Subagent,
}

/// A prompt-producing activity, ready for the ingress checks.
#[derive(Clone, Debug, PartialEq, Eq)]
pub struct ActivityFields {
    pub provider: String,
    pub session_id: String,
    pub turn_id: String,
    pub cwd: String,
    pub prompt: String,
    pub model: Option<String>,
    pub kind: ActivityKind,
    pub agent_id: Option<String>,
    pub agent_type: Option<String>,
}

/// A turn's result, ready for the ingress checks.
#[derive(Clone, Debug, PartialEq, Eq)]
pub struct ResultFields {
    pub provider: String,
    pub session_id: String,
    pub turn_id: String,
    pub cwd: String,
    pub result: Option<String>,
    pub model: Option<String>,
}

/// What a consumed hook becomes.
#[derive(Clone, Debug, PartialEq, Eq)]
pub enum CodexCaptureFields {
    Activity(ActivityFields),
    Result(ResultFields),
}

/// Why a hook payload is not consumed.
#[derive(Clone, Debug, PartialEq, Eq)]
pub enum CodexAdapterError {
    Json(String),
    MissingHookName,
    UnexpectedHook(String),
    Ingress(String),
}

/// The text of an adapter error.
pub open spec fn adapter_error_message_spec(e: CodexAdapterError) -> Seq<char> {
    match e {
        CodexAdapterError::Json(m) => "invalid Codex hook payload: "@ + m@,
        CodexAdapterError::MissingHookName => "Codex hook payload is missing hook_event_name"@,
        CodexAdapterError::UnexpectedHook(n) => "unexpected Codex hook event: "@ + n@,
        CodexAdapterError::Ingress(m) => m@,
    }
}

impl CodexAdapterError {
    /// The error's text.
    pub fn message(&self) -> (r: String)
        ensures
            r@ == adapter_error_message_spec(*self),
    {
        proof {
            reveal_strlit("");
        }
        match self {
            CodexAdapterError::Json(m) => concat3("invalid Codex hook payload: ", m.as_str(), ""),
            CodexAdapterError::MissingHookName => "Codex hook payload is missing hook_event_name".to_owned(),
            CodexAdapterError::UnexpectedHook(n) => concat3("unexpected Codex hook event: ", n.as_str(), ""),
            CodexAdapterError::Ingress(m) => m.clone(),
        }
    }
}

/// The Codex hook adapter.
#[derive(Debug)]
pub struct CodexAdapter;

/// The turn id of a subagent start: the parent turn, `:subagent:` and the
/// agent id.
pub open spec fn subagent_turn_spec(turn_id: Seq<char>, agent_id: Seq<char>) -> Seq<char> {
    turn_id + ":subagent:"@ + agent_id
}

/// The activity text of a subagent start.
pub open spec fn subagent_prompt_spec(agent_type: Seq<char>) -> Seq<char> {
    "Subagent started: "@ + agent_type
}

/// The result of a stop: the last assistant message unless it is blank.
pub open spec fn stop_result_spec(message: Option<String>) -> Option<Seq<char>> {
    match message {
        Some(m) => if trim_spec(m@).len() == 0 {
            None
        } else {
            Some(m@)
        },
        None => None,
    }
}

pub open spec fn opt_view(o: Option<String>) -> Option<Seq<char>> {
    match o {
        Some(s) => Some(s@),
        None => None,
    }
}

/// What a hook becomes (`allow_stop`: whether results are consumed).
pub open spec fn capture_matches(hook: CodexHook, allow_stop: bool, r: Result<CodexCaptureFields, CodexAdapterError>) -> bool {
    match hook {
        CodexHook::UserPromptSubmit { session_id, turn_id, cwd, prompt, model } => r matches Ok(
            CodexCaptureFields::Activity(a),
        ) && a.provider@ == "codex"@ && a.session_id == session_id && a.turn_id == turn_id && a.cwd
            == cwd && a.prompt == prompt && a.model == model && a.kind == ActivityKind::User
            && a.agent_id is None && a.agent_type is None,
        CodexHook::SubagentStart { session_id, turn_id, cwd, model, agent_id, agent_type } => r matches Ok(
            CodexCaptureFields::Activity(a),
        ) && a.provider@ == "codex"@ && a.session_id == session_id && a.turn_id@ == subagent_turn_spec(
            turn_id@,
            agent_id@,
        ) && a.cwd == cwd && a.prompt@ == subagent_prompt_spec(agent_type@) && a.model == model
            && a.kind == ActivityKind::Subagent && a.agent_id == Some(agent_id) && a.agent_type
            == Some(agent_type),
        CodexHook::Stop { session_id, turn_id, cwd, model, last_assistant_message } => if allow_stop {
            r matches Ok(CodexCaptureFields::Result(x)) && x.provider@ == "codex"@ && x.session_id
                == session_id && x.turn_id == turn_id && x.cwd == cwd && opt_view(x.result)
                == stop_result_spec(last_assistant_message) && x.model == model
        } else {
            r matches Err(CodexAdapterError::UnexpectedHook(n)) && n@ == "Stop"@
        },
        CodexHook::Other(name) => r == Err::<CodexCaptureFields, CodexAdapterError>(
            CodexAdapterError::UnexpectedHook(name),
        ),
    }
}

fn concat3(a: &str, b: &str, c: &str) -> (r: String)
    ensures
        r@ == a@ + b@ + c@,
{
    let mut out: Vec<char> = Vec::new();
    push_str(&mut out, a);
    push_str(&mut out, b);
    push_str(&mut out, c);
    string_from_chars(out.as_slice())
}

fn convert(hook: CodexHook, allow_stop: bool) -> (r: Result<CodexCaptureFields, CodexAdapterError>)
    ensures
        capture_matches(hook, allow_stop, r),
{
    match hook {
        CodexHook::UserPromptSubmit { session_id, turn_id, cwd, prompt, model } => Ok(
            CodexCaptureFields::Activity(
                ActivityFields {
                    provider: "codex".to_owned(),
                    session_id,
                    turn_id,
                    cwd,
                    prompt,
                    model,
                    kind: ActivityKind::User,
                    agent_id: None,
                    agent_type: None,
                },
            ),
        ),
        CodexHook::SubagentStart { session_id, turn_id, cwd, model, agent_id, agent_type } => {
            let turn = concat3(turn_id.as_str(), ":subagent:", agent_id.as_str());
            let prompt = concat3("Subagent started: ", agent_type.as_str(), "");
            assert(prompt@ =~= subagent_prompt_spec(agent_type@)) by {
                reveal_strlit("");
            }
            Ok(
                CodexCaptureFields::Activity(
                    ActivityFields {
                        provider: "codex".to_owned(),
                        session_id,
                        turn_id: turn,
                        cwd,
                        prompt,
                        model,
                        kind: ActivityKind::Subagent,
                        agent_id: Some(agent_id),
                        agent_type: Some(agent_type),
                    },
                ),
            )
        },
        CodexHook::Stop { session_id, turn_id, cwd, model, last_assistant_message } => {
            if !allow_stop {
                return Err(CodexAdapterError::UnexpectedHook("Stop".to_owned()));
            }
            let ghost message = last_assistant_message;
            let result = match last_assistant_message {
                Some(m) => {
                    let t = trim(chars_of(m.as_str()).as_slice());
                    if t.len() == 0 {
                        None
                    } else {
                        Some(m)
                    }
                },
                None => None,
            };
            assert(opt_view(result) == stop_result_spec(message));
            Ok(
                CodexCaptureFields::Result(
                    ResultFields {
                        provider: "codex".to_owned(),
                        session_id,
                        turn_id,
                        cwd,
                        result,
                        model,
                    },
                ),
            )
        },
        CodexHook::Other(name) => Err(CodexAdapterError::UnexpectedHook(name)),
    }
}

impl CodexAdapter {
    /// Normalises the prompt-producing hooks (a stop is unexpected here).
    pub fn normalize(hook: CodexHook) -> (r: Result<CodexCaptureFields, CodexAdapterError>)
        ensures
            capture_matches(hook, false, r),
    {
        convert(hook, false)
    }

    /// Normalises every hook the capture pipeline consumes.
    pub fn normalize_capture(hook: CodexHook) -> (r: Result<CodexCaptureFields, CodexAdapterError>)
        ensures
            capture_matches(hook, true, r),
    {
        convert(hook, true)
    }
}

} // verus!
