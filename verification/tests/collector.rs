use akra_hookers::collector::{
    constant_time_equal, decode_config, destination_id, exponential_retry_delay,
    raw_authority_host, response_retry_delay, CollectorConfigInput, CollectorEndpoint,
    CollectorError, CollectorMode, CollectorStore, CollectorToken, PersistedConfig,
    PersistedRemoteCredential, RelayReport,
};

const MAX_RETRY_DELAY_SECS: u64 = 5 * 60;

fn parse(address: &str) -> Result<CollectorEndpoint, CollectorError> {
    CollectorEndpoint::parse(address)
}

#[test]
fn endpoint_policy_accepts_exact_loopback_and_requires_remote_https() {
    for address in [
        "http://127.0.0.1:3000",
        "http://127.42.0.1:3000",
        "http://[::1]:3000",
        "http://localhost:3000",
        "https://collector.example",
    ] {
        parse(address).unwrap_or_else(|error| panic!("{address}: {error:?}"));
    }
    for address in [
        "http://collector.example",
        "http://127.0.0.1.evil.example:3000",
        "http://localhost.evil.example:3000",
        "http://2130706433:3000",
        "https://localhost.",
        "https://2130706433",
        "https://user@collector.example",
        "https://collector.example/path",
        "https://collector.example?token=x",
        "https://collector.example#fragment",
        "https://collector.example:0",
    ] {
        assert!(parse(address).is_err(), "accepted {address}");
    }
}

#[test]
fn endpoint_normalization_keeps_a_destination_identity_stable() {
    let first = parse("HTTPS://Collector.Example:443/").expect("normalized external endpoint");
    let second = parse("https://collector.example").expect("canonical external endpoint");

    assert_eq!(first.as_str(), "https://collector.example");
    assert_eq!(first, second);
    assert_eq!(destination_id(&first), destination_id(&second));
}

#[test]
fn endpoint_modes_and_refusals_are_exact() {
    let local = parse("http://127.0.0.1:42130").expect("default collector");
    assert_eq!(local.mode(), CollectorMode::Local);
    assert_eq!(local.as_str(), "http://127.0.0.1:42130");
    let named = parse("http://LocalHost:3000").expect("named loopback");
    assert_eq!(named.mode(), CollectorMode::Local);
    assert_eq!(named.as_str(), "http://localhost:3000");
    let remote = parse("https://collector.example").expect("remote");
    assert_eq!(remote.mode(), CollectorMode::Remote);
    assert!(remote.same_as(&parse("https://COLLECTOR.example:443").expect("same")));

    assert_eq!(parse("http://collector.example"), Err(CollectorError::InsecureRemoteEndpoint));
    assert_eq!(
        parse("https://localhost:3000"),
        Err(CollectorError::InvalidEndpoint("loopback collectors use http".to_owned()))
    );
    assert_eq!(
        parse("ftp://collector.example"),
        Err(CollectorError::InvalidEndpoint(
            "only http and https schemes are supported".to_owned()
        ))
    );
    assert_eq!(
        parse("https://user@collector.example"),
        Err(CollectorError::InvalidEndpoint("userinfo is not allowed".to_owned()))
    );
    assert_eq!(
        parse("https://collector.example:0"),
        Err(CollectorError::InvalidEndpoint(
            "port zero is not a connectable destination".to_owned()
        ))
    );
    assert_eq!(
        parse("https://2130706433"),
        Err(CollectorError::InvalidEndpoint("address host is ambiguous".to_owned()))
    );
    assert_eq!(
        parse(""),
        Err(CollectorError::InvalidEndpoint("address must be non-empty and bounded".to_owned()))
    );
    assert!(matches!(
        parse("not a url"),
        Err(CollectorError::InvalidEndpoint(message))
            if message.starts_with("address is not a valid URL: ")
    ));
}

#[test]
fn raw_host_is_read_as_typed() {
    assert_eq!(raw_authority_host("http://[::1]:3000").as_deref(), Some("::1"));
    assert_eq!(raw_authority_host("HTTPS://Collector.Example:443/").as_deref(), Some("Collector.Example"));
    assert_eq!(raw_authority_host("http://2130706433:3000").as_deref(), Some("2130706433"));
    assert_eq!(raw_authority_host("https://user@host"), None);
    assert_eq!(raw_authority_host("no scheme"), None);
}

#[test]
fn destination_identity_is_a_hex_digest_of_the_canonical_address() {
    let remote = parse("https://collector.example").expect("remote");
    let local = parse("http://127.0.0.1:42130").expect("local");
    let id = destination_id(&remote);
    assert_eq!(id.len(), 64);
    assert!(id.chars().all(|c| c.is_ascii_hexdigit() && !c.is_ascii_uppercase()));
    assert_ne!(id, destination_id(&local));
}

#[test]
fn tokens_are_printable_ascii_and_never_shown() {
    let token = CollectorToken::parse("top-secret-token".to_owned()).expect("token");
    assert_eq!(token.expose_secret(), "top-secret-token");
    assert!(!token.redacted().contains("top-secret-token"));
    assert_eq!(token.duplicate().expose_secret(), "top-secret-token");
    assert_eq!(CollectorToken::parse(String::new()).err(), Some(CollectorError::InvalidToken));
    assert_eq!(
        CollectorToken::parse("has space".to_owned()).err(),
        Some(CollectorError::InvalidToken)
    );
    assert_eq!(
        CollectorToken::parse("quote\"".to_owned()).err(),
        Some(CollectorError::InvalidToken)
    );
    assert!(CollectorToken::parse("x".repeat(4096)).is_ok());
    assert!(CollectorToken::parse("x".repeat(4097)).is_err());
}

fn remote_config() -> akra_hookers::collector::CollectorConfig {
    decode_config(
        PersistedConfig {
            schema_version: 1,
            endpoint: "https://collector.example".to_owned(),
            source_instance_id: "67e55044-10b1-426f-9247-bb680e5fe0c8".to_owned(),
        },
        Some(PersistedRemoteCredential {
            schema_version: 1,
            endpoint: "https://collector.example".to_owned(),
            token: "first-token".to_owned(),
        }),
    )
    .expect("remote config")
}

#[test]
fn persisted_configuration_decodes_only_when_consistent() {
    let config = remote_config();
    let view = config.view();
    assert!(view.has_token);
    assert_eq!(view.mode, CollectorMode::Remote);
    assert_eq!(view.endpoint, "https://collector.example");
    assert_eq!(config.destination_id, destination_id(&config.endpoint));

    let local = decode_config(
        PersistedConfig {
            schema_version: 1,
            endpoint: "http://127.0.0.1:42130".to_owned(),
            source_instance_id: "67e5504410b1426f9247bb680e5fe0c8".to_owned(),
        },
        None,
    )
    .expect("local config");
    assert!(!local.view().has_token);

    let bad_id = decode_config(
        PersistedConfig {
            schema_version: 1,
            endpoint: "http://127.0.0.1:42130".to_owned(),
            source_instance_id: "not-a-uuid".to_owned(),
        },
        None,
    );
    assert_eq!(bad_id.err(), Some(CollectorError::InvalidConfig));

    let missing_credential = decode_config(
        PersistedConfig {
            schema_version: 1,
            endpoint: "https://collector.example".to_owned(),
            source_instance_id: "67e55044-10b1-426f-9247-bb680e5fe0c8".to_owned(),
        },
        None,
    );
    assert_eq!(missing_credential.err(), Some(CollectorError::RemoteTokenRequired));

    let other_destination = decode_config(
        PersistedConfig {
            schema_version: 1,
            endpoint: "https://collector.example".to_owned(),
            source_instance_id: "{67e55044-10b1-426f-9247-bb680e5fe0c8}".to_owned(),
        },
        Some(PersistedRemoteCredential {
            schema_version: 1,
            endpoint: "https://other.example".to_owned(),
            token: "first-token".to_owned(),
        }),
    );
    assert_eq!(other_destination.err(), Some(CollectorError::RemoteTokenRequired));
}

#[test]
fn configuration_updates_keep_or_require_the_remote_token() {
    let store = CollectorStore::new("/state");
    assert_eq!(store.data_dir, "/state");
    let current = remote_config();

    let kept = store
        .update(
            &current,
            CollectorConfigInput { endpoint: "https://collector.example".to_owned(), token: None },
        )
        .expect("same endpoint keeps its token");
    assert_eq!(
        kept.remote_token.as_ref().map(|t| t.expose_secret().to_owned()),
        Some("first-token".to_owned())
    );

    let rotated = store
        .update(
            &current,
            CollectorConfigInput {
                endpoint: "https://collector.example".to_owned(),
                token: Some("rotated-token".to_owned()),
            },
        )
        .expect("rotation");
    assert_eq!(rotated.remote_token.expect("token").expose_secret(), "rotated-token");

    let moved = store.update(
        &current,
        CollectorConfigInput { endpoint: "https://other.example".to_owned(), token: None },
    );
    assert_eq!(moved.err(), Some(CollectorError::RemoteTokenRequired));

    let local = store
        .update(
            &current,
            CollectorConfigInput {
                endpoint: "http://localhost:42130".to_owned(),
                token: Some("ignored".to_owned()),
            },
        )
        .expect("local");
    assert!(local.remote_token.is_none());
    assert_eq!(local.endpoint.mode(), CollectorMode::Local);

    let bad_token = store.update(
        &current,
        CollectorConfigInput {
            endpoint: "https://collector.example".to_owned(),
            token: Some("bad token".to_owned()),
        },
    );
    assert_eq!(bad_token.err(), Some(CollectorError::InvalidToken));
}

#[test]
fn retry_schedule_is_bounded() {
    assert_eq!(response_retry_delay(429, Some(60 * 60), 1), MAX_RETRY_DELAY_SECS);
    assert_eq!(response_retry_delay(429, Some(7), 1), 7);
    assert_eq!(response_retry_delay(429, None, 3), 4);
    assert_eq!(response_retry_delay(401, None, 1), MAX_RETRY_DELAY_SECS);
    assert_eq!(response_retry_delay(503, None, 2), 2);
    assert_eq!(exponential_retry_delay(0), 1);
    assert_eq!(exponential_retry_delay(1), 1);
    assert_eq!(exponential_retry_delay(5), 16);
    assert_eq!(exponential_retry_delay(9), 256);
    assert_eq!(exponential_retry_delay(200), 256);
}

#[test]
fn secrets_compare_by_content() {
    assert!(constant_time_equal(b"secret", b"secret"));
    assert!(!constant_time_equal(b"secret", b"secreT"));
    assert!(!constant_time_equal(b"secret", b"secret\0"));
    assert!(constant_time_equal(b"", b""));
}

#[test]
fn an_empty_relay_report_counts_nothing() {
    let report = RelayReport::empty();
    assert_eq!(report.attempted, 0);
    assert_eq!(report.pending, 0);
    assert!(report.last_error.is_none());
}
