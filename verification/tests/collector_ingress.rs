use akra_hookers::adapter::{ActivityKind, CodexHook};
use akra_hookers::collector::{
    default_persisted_config, new_ingest_token, plan_config_load, receipt_digest,
    receipt_decision, remote_capture_check, CollectorError, PersistedConfig,
    PersistedRemoteCredential, ReceiveOutcome, RemoteCaptureHeader,
};
use akra_hookers::relay::{next_retry, retry_attempts, retry_is_due, RetryRecord};
use akra_hookers::spool::{CaptureEnvelopeError, CaptureEnvelopeFields};

fn header() -> RemoteCaptureHeader {
    RemoteCaptureHeader {
        protocol_version: 1,
        capture_id: "67e55044-10b1-426f-9247-bb680e5fe0c8".to_owned(),
        source_instance_id: "0d5f3f4e-7c6c-4a40-8f59-6c2e8b0b2c11".to_owned(),
        destination_id: "ab".repeat(32),
    }
}

fn envelope() -> CaptureEnvelopeFields {
    CaptureEnvelopeFields {
        provider: "codex".to_owned(),
        captured_at_us: 10,
        origin_identity: "github.com/acme/app".to_owned(),
        capture_source: None,
        kind: ActivityKind::User,
        agent_id: None,
        agent_type: None,
    }
}

fn prompt() -> CodexHook {
    CodexHook::UserPromptSubmit {
        session_id: "s".to_owned(),
        turn_id: "t".to_owned(),
        cwd: "/w".to_owned(),
        prompt: "p".to_owned(),
        model: None,
    }
}

#[test]
fn received_captures_need_a_valid_header_envelope_and_codex_payload() {
    assert_eq!(remote_capture_check(&header(), &envelope(), prompt()), Ok(()));
    let upper = RemoteCaptureHeader { destination_id: "AB".repeat(32), ..header() };
    assert_eq!(remote_capture_check(&upper, &envelope(), prompt()), Ok(()));
    for bad in [
        RemoteCaptureHeader { protocol_version: 2, ..header() },
        RemoteCaptureHeader { capture_id: "capture-1".to_owned(), ..header() },
        RemoteCaptureHeader { destination_id: "ab".repeat(31), ..header() },
        RemoteCaptureHeader { destination_id: format!("{}zz", "ab".repeat(31)), ..header() },
    ] {
        assert_eq!(
            remote_capture_check(&bad, &envelope(), prompt()),
            Err(CollectorError::InvalidRemoteCapture)
        );
    }
    let negative = CaptureEnvelopeFields { captured_at_us: -5, ..envelope() };
    assert_eq!(
        remote_capture_check(&header(), &negative, prompt()),
        Err(CollectorError::Envelope("capture timestamp must not be negative: -5".to_owned()))
    );
    let other = CaptureEnvelopeFields { provider: "zed".to_owned(), ..envelope() };
    assert_eq!(
        remote_capture_check(&header(), &other, prompt()),
        Err(CollectorError::InvalidRemoteCapture)
    );
    assert_eq!(
        remote_capture_check(&header(), &envelope(), CodexHook::Other("PreToolUse".to_owned())),
        Err(CollectorError::InvalidRemoteCapture)
    );
}

#[test]
fn envelope_failures_have_their_text() {
    assert_eq!(
        CaptureEnvelopeError::NegativeCaptureTime(i64::MIN).message(),
        "capture timestamp must not be negative: -9223372036854775808"
    );
    assert_eq!(
        CaptureEnvelopeError::UnsupportedSchemaVersion(7).message(),
        "unsupported capture envelope schema version: 7"
    );
    assert_eq!(
        CaptureEnvelopeError::BlankProvider.message(),
        "capture provider must not be blank"
    );
}

#[test]
fn receipts_identify_a_capture_by_its_digest() {
    let digest = receipt_digest("{}");
    assert_eq!(
        digest,
        "44136fa355b3678a1146ad16f7e8649e94fb4fc21fe77e8310c060f61caaff8a"
    );
    assert_eq!(receipt_decision(None, &digest), Ok(None));
    assert_eq!(
        receipt_decision(Some(&digest), &digest),
        Ok(Some(ReceiveOutcome::Duplicate))
    );
    assert_eq!(
        receipt_decision(Some("00"), &digest),
        Err(CollectorError::CaptureConflict)
    );
}

#[test]
fn retries_count_attempts_and_wait_their_delay() {
    assert!(retry_is_due(None, 0));
    assert_eq!(retry_attempts(None), 0);
    let first = next_retry(None, 1_000, 2);
    assert_eq!(first, RetryRecord { attempts: 1, retry_after_us: 2_001_000 });
    assert!(!retry_is_due(Some(first), 2_000_999));
    assert!(retry_is_due(Some(first), 2_001_000));
    let saturated = next_retry(
        Some(RetryRecord { attempts: u8::MAX, retry_after_us: 0 }),
        i64::MAX - 1,
        300,
    );
    assert_eq!(saturated, RetryRecord { attempts: u8::MAX, retry_after_us: i64::MAX });
}

fn stored(endpoint: &str) -> PersistedConfig {
    PersistedConfig {
        schema_version: 1,
        endpoint: endpoint.to_owned(),
        source_instance_id: "0d5f3f4e-7c6c-4a40-8f59-6c2e8b0b2c11".to_owned(),
    }
}

fn is_simple_uuid(text: &str) -> bool {
    text.len() == 32 && text.chars().all(|c| c.is_ascii_digit() || ('a'..='f').contains(&c))
}

#[test]
fn new_ingest_tokens_are_prefixed_random_and_valid() {
    let first = new_ingest_token();
    let second = new_ingest_token();
    let text = first.expose_secret();
    assert_eq!(text.len(), 79);
    assert!(text.starts_with("akra_collector_"));
    assert!(is_simple_uuid(&text[15..47]));
    assert!(is_simple_uuid(&text[47..]));
    assert_ne!(&text[15..47], &text[47..]);
    assert_ne!(first.expose_secret(), second.expose_secret());
}

#[test]
fn the_default_configuration_names_the_local_collector() {
    let config = default_persisted_config();
    assert_eq!(config.schema_version, 1);
    assert_eq!(config.endpoint, "http://127.0.0.1:42130");
    assert_eq!(config.source_instance_id.len(), 36);
    assert_ne!(config.source_instance_id, default_persisted_config().source_instance_id);
}

#[test]
fn loading_without_a_configuration_creates_the_default_and_clears_credentials() {
    let plan = plan_config_load(None, None, None).ok().expect("default plan");
    assert_eq!(plan.config.endpoint, "http://127.0.0.1:42130");
    assert!(plan.persist_config);
    assert!(plan.clear_credential);
    assert!(plan.persist_credential == None);
    assert!(plan.credential == None);
}

#[test]
fn a_legacy_inline_token_moves_into_the_remote_credential() {
    let plan = plan_config_load(
        Some(stored("https://collector.example")),
        Some("legacy-token".to_owned()),
        None,
    )
    .ok()
    .expect("plan");
    assert!(plan.persist_config);
    assert!(!plan.clear_credential);
    let expected = PersistedRemoteCredential {
        schema_version: 1,
        endpoint: "https://collector.example".to_owned(),
        token: "legacy-token".to_owned(),
    };
    assert!(plan.persist_credential == Some(expected.clone()));
    assert!(plan.credential == Some(expected));
}

#[test]
fn a_remote_configuration_keeps_its_stored_credential() {
    let credential = PersistedRemoteCredential {
        schema_version: 1,
        endpoint: "https://collector.example".to_owned(),
        token: "stored".to_owned(),
    };
    let plan = plan_config_load(
        Some(stored("https://collector.example")),
        None,
        Some(credential.clone()),
    )
    .ok()
    .expect("plan");
    assert!(!plan.persist_config);
    assert!(plan.persist_credential == None);
    assert!(plan.credential == Some(credential));
}

#[test]
fn a_local_configuration_drops_any_credential() {
    let credential = PersistedRemoteCredential {
        schema_version: 1,
        endpoint: "https://collector.example".to_owned(),
        token: "stored".to_owned(),
    };
    let plan = plan_config_load(
        Some(stored("http://127.0.0.1:42130")),
        None,
        Some(credential),
    )
    .ok()
    .expect("plan");
    assert!(plan.clear_credential);
    assert!(plan.credential == None);
    assert!(plan.persist_credential == None);
}

#[test]
fn loading_refuses_a_stored_insecure_address() {
    assert!(matches!(
        plan_config_load(Some(stored("http://collector.example")), None, None),
        Err(CollectorError::InsecureRemoteEndpoint)
    ));
}
