use akra_hookers::exec_call::{
    call_record, classify_call, error_message, event_lines, find_error_code, json_indicates_quota,
    parse_exec_events, parse_token_usage, prompt_failure_plan, result_failure_plan, CallOutcome,
    CodexExecEvents, CodexExecStatus, CodexTokenUsage, FailurePlan, JsonValue,
};
use akra_hookers::summary::SummarizationError;

fn to_json(value: &serde_json::Value) -> JsonValue {
    match value {
        serde_json::Value::Null => JsonValue::Null,
        serde_json::Value::Bool(b) => JsonValue::Bool(*b),
        serde_json::Value::Number(n) => JsonValue::Number(n.as_u64()),
        serde_json::Value::String(s) => JsonValue::String(s.clone()),
        serde_json::Value::Array(items) => JsonValue::Array(items.iter().map(to_json).collect()),
        serde_json::Value::Object(members) => JsonValue::Object(
            members.iter().map(|(k, v)| (k.clone(), to_json(v))).collect(),
        ),
    }
}

fn parse_stream(output: &[u8]) -> Result<CodexExecEvents, SummarizationError> {
    let lines: Vec<Result<JsonValue, String>> = event_lines(output)
        .iter()
        .map(|line| {
            serde_json::from_slice::<serde_json::Value>(line)
                .map(|v| to_json(&v))
                .map_err(|e| e.to_string())
        })
        .collect();
    parse_exec_events(&lines)
}

fn json(text: &str) -> JsonValue {
    to_json(&serde_json::from_str(text).expect("json"))
}

#[test]
fn json_event_stream_captures_per_call_tokens_and_quota_errors() {
    let completed = br#"{"type":"thread.started","thread_id":"thread-1"}
{"type":"turn.completed","usage":{"input_tokens":24763,"cached_input_tokens":24448,"output_tokens":122,"reasoning_output_tokens":7}}
"#;
    let events = parse_stream(completed).expect("completed stream");
    assert_eq!(events.thread_id.as_deref(), Some("thread-1"));
    assert_eq!(
        events.usage,
        Some(CodexTokenUsage {
            input_tokens: 24_763,
            cached_input_tokens: 24_448,
            output_tokens: 122,
            reasoning_output_tokens: 7,
        })
    );
    assert!(!events.quota_limited);

    let successful_quota_text = br#"{"type":"item.completed","item":{"type":"agent_message","text":"resolved the quota exceeded issue"}}
{"type":"turn.completed","usage":{"input_tokens":100,"cached_input_tokens":80,"output_tokens":20}}
"#;
    let events = parse_stream(successful_quota_text).expect("successful stream");
    assert!(!events.quota_limited);

    let quota = br#"{"type":"error","error":{"message":"Usage limit exceeded","codexErrorInfo":"UsageLimitExceeded"}}
{"type":"turn.failed"}
"#;
    let events = parse_stream(quota).expect("quota stream");
    assert!(events.quota_limited);
    assert_eq!(events.error_code.as_deref(), Some("UsageLimitExceeded"));
    assert_eq!(events.error_message.as_deref(), Some("Usage limit exceeded"));
}

#[test]
fn streams_fail_on_bad_json_or_missing_usage() {
    assert!(matches!(parse_stream(b"{\"type\":\"x\"}\nnot json\n"), Err(SummarizationError::Json(_))));
    assert_eq!(
        parse_stream(br#"{"type":"turn.completed","usage":{"output_tokens":1}}"#),
        Err(SummarizationError::InvalidEventStream("missing input_tokens".to_owned()))
    );
    assert_eq!(
        parse_stream(br#"{"type":"turn.completed","usage":{"input_tokens":18446744073709551615,"output_tokens":1}}"#),
        Err(SummarizationError::InvalidEventStream("input_tokens is too large".to_owned()))
    );
    let empty = parse_stream(b"  \n\r\n").expect("empty stream");
    assert_eq!(empty.usage, None);
    assert_eq!(event_lines(b" a \n\n b\r\n"), vec![b"a".to_vec(), b"b".to_vec()]);
}

#[test]
fn error_codes_are_found_directly_or_nested() {
    assert_eq!(find_error_code(&json(r#"{"code":"rate"}"#)).as_deref(), Some("rate"));
    assert_eq!(
        find_error_code(&json(r#"{"codex_error_info":{"UsageLimitExceeded":{"x":1}}}"#)).as_deref(),
        Some("UsageLimitExceeded")
    );
    assert_eq!(
        find_error_code(&json(r#"{"a":{"b":{"code":"deep"}},"z":{"code":"later"}}"#)).as_deref(),
        Some("deep")
    );
    assert_eq!(find_error_code(&json(r#"["code"]"#)), None);
    assert!(json_indicates_quota(&json(r#"{"x":["fine","Quota exceeded"]}"#)));
    assert!(json_indicates_quota(&json(r#"{"usage_limit_exceeded":1}"#)));
    assert!(!json_indicates_quota(&json(r#"{"x":[1,2,null]}"#)));
    assert_eq!(
        parse_token_usage(&json(r#"{"input_tokens":5,"output_tokens":6}"#)),
        Ok(CodexTokenUsage { input_tokens: 5, cached_input_tokens: 0, output_tokens: 6, reasoning_output_tokens: 0 })
    );
}

fn no_events() -> CodexExecEvents {
    CodexExecEvents { thread_id: None, usage: None, error_code: None, error_message: None, quota_limited: false }
}

#[test]
fn calls_are_classified_in_order() {
    let ok = Ok(no_events());
    assert_eq!(classify_call(&ok, true, Some(0), "", "", false, 5), CallOutcome::ReadFinalOutput);
    assert_eq!(
        classify_call(&ok, true, Some(0), "", "", true, 5),
        CallOutcome::Fail(SummarizationError::OutputTooLarge)
    );
    assert_eq!(
        classify_call(&ok, false, None, "", "boom", false, 5),
        CallOutcome::Fail(SummarizationError::CommandFailed(-1))
    );
    assert_eq!(
        classify_call(&ok, false, Some(2), "", "  Usage limit reached  ", false, 5),
        CallOutcome::Fail(SummarizationError::QuotaLimited {
            retry_at_us: 5 + 3_600_000_000,
            message: "Usage limit reached".to_owned(),
        })
    );
    let quota_events = Ok(CodexExecEvents {
        quota_limited: true,
        error_message: Some("limit".to_owned()),
        ..no_events()
    });
    assert_eq!(
        classify_call(&quota_events, true, Some(0), "", "", false, i64::MAX),
        CallOutcome::Fail(SummarizationError::QuotaLimited { retry_at_us: i64::MAX, message: "limit".to_owned() })
    );
    let bad = Err(SummarizationError::Json("bad".to_owned()));
    assert_eq!(
        classify_call(&bad, true, Some(0), "", "", false, 5),
        CallOutcome::Fail(SummarizationError::Json("bad".to_owned()))
    );
    assert_eq!(
        classify_call(&bad, false, Some(0), "quota exceeded", "", false, 0),
        CallOutcome::Fail(SummarizationError::QuotaLimited {
            retry_at_us: 3_600_000_000,
            message: "Codex usage limit exceeded".to_owned(),
        })
    );
}

#[test]
fn call_records_name_status_code_and_message() {
    let with_usage = CodexExecEvents {
        usage: Some(CodexTokenUsage { input_tokens: 1, cached_input_tokens: 0, output_tokens: 1, reasoning_output_tokens: 0 }),
        ..no_events()
    };
    let ok = call_record(&Ok(()), &with_usage);
    assert_eq!(ok.status, CodexExecStatus::Succeeded);
    assert_eq!(ok.error_code, None);
    assert_eq!(ok.error_message, None);
    let missing = call_record(&Ok(()), &no_events());
    assert_eq!(missing.error_code.as_deref(), Some("usage_missing"));
    assert_eq!(missing.error_message.as_deref(), Some("turn.completed did not include token usage"));
    let quota = call_record(
        &Err(SummarizationError::QuotaLimited { retry_at_us: 9, message: "m".to_owned() }),
        &no_events(),
    );
    assert_eq!(quota.status, CodexExecStatus::QuotaLimited);
    assert_eq!(quota.quota_retry_at_us, Some(9));
    assert_eq!(quota.error_code.as_deref(), Some("UsageLimitExceeded"));
    assert_eq!(quota.error_message.as_deref(), Some("Codex Spark usage limit exceeded: m"));
    let timeout = call_record(&Err(SummarizationError::Timeout), &no_events());
    assert_eq!(timeout.status, CodexExecStatus::TimedOut);
    assert_eq!(timeout.error_code.as_deref(), Some("timeout"));
    assert_eq!(
        error_message(&SummarizationError::CommandFailed(-3)),
        "Codex Spark exited unsuccessfully with code -3"
    );
    assert_eq!(
        error_message(&SummarizationError::QuotaCircuitOpen { retry_at_us: i64::MIN }),
        format!("Codex Spark quota circuit is open until {}", i64::MIN)
    );
    assert_eq!(
        error_message(&SummarizationError::CurationInputTooLarge(70000)),
        "curation input exceeds the 65536-byte limit: 70000"
    );
}

#[test]
fn failed_summaries_are_deferred_or_retried() {
    assert_eq!(
        result_failure_plan(&SummarizationError::QuotaCircuitOpen { retry_at_us: 77 }, 10, 1),
        FailurePlan::Defer { retry_at_us: 77 }
    );
    assert_eq!(
        result_failure_plan(&SummarizationError::Timeout, 10, 2),
        FailurePlan::Fail { retry_at_us: Some(30_000_010) }
    );
    assert_eq!(
        result_failure_plan(&SummarizationError::InvalidRuntimePath, 10, 2),
        FailurePlan::Fail { retry_at_us: None }
    );
    assert_eq!(
        result_failure_plan(&SummarizationError::Timeout, i64::MAX, 3),
        FailurePlan::Fail { retry_at_us: None }
    );
    assert_eq!(
        prompt_failure_plan(&SummarizationError::Timeout, 0, 5),
        FailurePlan::Fail { retry_at_us: Some(10_000_000) }
    );
}
