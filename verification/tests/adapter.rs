use akra_hookers::adapter::{
    ActivityKind, CodexAdapter, CodexAdapterError, CodexCaptureFields, CodexHook,
};

fn stop(message: Option<&str>) -> CodexHook {
    CodexHook::Stop {
        session_id: "session".to_owned(),
        turn_id: "turn".to_owned(),
        cwd: "/work".to_owned(),
        model: Some("gpt".to_owned()),
        last_assistant_message: message.map(str::to_owned),
    }
}

#[test]
fn user_prompts_become_user_activities() {
    let hook = CodexHook::UserPromptSubmit {
        session_id: "s".to_owned(),
        turn_id: "t".to_owned(),
        cwd: "/w".to_owned(),
        prompt: "hello".to_owned(),
        model: None,
    };
    match CodexAdapter::normalize(hook).expect("activity") {
        CodexCaptureFields::Activity(a) => {
            assert_eq!(a.provider, "codex");
            assert_eq!(a.prompt, "hello");
            assert_eq!(a.kind, ActivityKind::User);
            assert!(a.agent_id.is_none());
        }
        other => panic!("unexpected {other:?}"),
    }
}

#[test]
fn subagent_starts_carry_a_stable_agent_identity() {
    let hook = CodexHook::SubagentStart {
        session_id: "s".to_owned(),
        turn_id: "turn-1".to_owned(),
        cwd: "/w".to_owned(),
        model: None,
        agent_id: "worker-7".to_owned(),
        agent_type: "explorer".to_owned(),
    };
    match CodexAdapter::normalize_capture(hook).expect("activity") {
        CodexCaptureFields::Activity(a) => {
            assert_eq!(a.turn_id, "turn-1:subagent:worker-7");
            assert_eq!(a.prompt, "Subagent started: explorer");
            assert_eq!(a.kind, ActivityKind::Subagent);
            assert_eq!(a.agent_id.as_deref(), Some("worker-7"));
            assert_eq!(a.agent_type.as_deref(), Some("explorer"));
        }
        other => panic!("unexpected {other:?}"),
    }
}

#[test]
fn stop_keeps_only_a_non_blank_final_result() {
    match CodexAdapter::normalize_capture(stop(Some("done"))).expect("result") {
        CodexCaptureFields::Result(r) => assert_eq!(r.result.as_deref(), Some("done")),
        other => panic!("unexpected {other:?}"),
    }
    match CodexAdapter::normalize_capture(stop(Some("  \n"))).expect("result") {
        CodexCaptureFields::Result(r) => assert_eq!(r.result, None),
        other => panic!("unexpected {other:?}"),
    }
    match CodexAdapter::normalize_capture(stop(None)).expect("result") {
        CodexCaptureFields::Result(r) => assert_eq!(r.model.as_deref(), Some("gpt")),
        other => panic!("unexpected {other:?}"),
    }
}

#[test]
fn the_prompt_normalizer_rejects_stop_and_unknown_hooks() {
    assert_eq!(
        CodexAdapter::normalize(stop(Some("done"))),
        Err(CodexAdapterError::UnexpectedHook("Stop".to_owned()))
    );
    assert_eq!(
        CodexAdapter::normalize_capture(CodexHook::Other("PreToolUse".to_owned())),
        Err(CodexAdapterError::UnexpectedHook("PreToolUse".to_owned()))
    );
}

#[test]
fn normalizes_subagent_start_with_stable_agent_identity() {
    let hook = CodexHook::SubagentStart {
        session_id: "parent-session".to_owned(),
        turn_id: "parent-turn".to_owned(),
        cwd: "C:\\dev\\project".to_owned(),
        model: Some("gpt-5".to_owned()),
        agent_id: "019ff551-8f05-7f42-a014-b787ede069cc".to_owned(),
        agent_type: "inspector".to_owned(),
    };
    let event = match CodexAdapter::normalize(hook).expect("subagent fixture normalizes") {
        CodexCaptureFields::Activity(a) => a,
        other => panic!("unexpected {other:?}"),
    };
    assert_eq!(event.kind, ActivityKind::Subagent);
    assert_eq!(
        event.agent_id.as_deref(),
        Some("019ff551-8f05-7f42-a014-b787ede069cc")
    );
    assert_eq!(event.agent_type.as_deref(), Some("inspector"));
    assert_eq!(
        event.turn_id,
        "parent-turn:subagent:019ff551-8f05-7f42-a014-b787ede069cc"
    );
}

#[test]
fn normalizes_stop_with_the_final_assistant_result() {
    let capture = CodexAdapter::normalize_capture(CodexHook::Stop {
        session_id: "session-1".to_owned(),
        turn_id: "turn-1".to_owned(),
        cwd: "C:\\dev\\project".to_owned(),
        model: Some("gpt-5.3-codex".to_owned()),
        last_assistant_message: Some("Implemented the feature and verified the tests.".to_owned()),
    })
    .expect("Stop fixture normalizes");
    let CodexCaptureFields::Result(event) = capture else {
        panic!("Stop must normalize as a result capture");
    };
    assert_eq!(event.provider, "codex");
    assert_eq!(event.session_id, "session-1");
    assert_eq!(event.turn_id, "turn-1");
    assert_eq!(event.cwd, r"C:\dev\project");
    assert_eq!(event.model.as_deref(), Some("gpt-5.3-codex"));
    assert_eq!(
        event.result.as_deref(),
        Some("Implemented the feature and verified the tests.")
    );
}

#[test]
fn normalizes_stop_without_a_final_assistant_result() {
    for last_message in [None, Some("   ".to_owned())] {
        let capture = CodexAdapter::normalize_capture(CodexHook::Stop {
            session_id: "session-1".to_owned(),
            turn_id: "turn-1".to_owned(),
            cwd: "/work/project".to_owned(),
            model: None,
            last_assistant_message: last_message,
        })
        .expect("Stop normalizes");
        let CodexCaptureFields::Result(event) = capture else {
            panic!("Stop must normalize as a result capture");
        };
        assert_eq!(event.result, None);
    }
}

#[test]
fn existing_prompt_normalizer_still_rejects_stop() {
    let error = CodexAdapter::normalize(CodexHook::Stop {
        session_id: "session-1".to_owned(),
        turn_id: "turn-1".to_owned(),
        cwd: "/work/project".to_owned(),
        model: None,
        last_assistant_message: Some("done".to_owned()),
    })
    .expect_err("legacy normalizer accepts only activity hooks");

    assert!(error
        .message()
        .contains("unexpected Codex hook event: Stop"));
}
