use akra_hookers::capture_source::{
    classify_session_meta, codex_client, is_codex_session_path, SessionMeta,
};

fn meta(originator: Option<&str>, source: Option<&str>) -> SessionMeta {
    SessionMeta {
        record_type: Some("session_meta".to_owned()),
        has_payload: true,
        originator: originator.map(str::to_owned),
        source: source.map(str::to_owned),
    }
}

#[test]
fn classifies_desktop_and_cli_session_metadata() {
    assert_eq!(
        classify_session_meta(&meta(Some("Codex Desktop"), Some("vscode"))),
        Some("app")
    );
    assert_eq!(classify_session_meta(&meta(Some("codex-tui"), Some("cli"))), Some("cli"));
}

#[test]
fn unknown_metadata_stays_diagnostic_only() {
    assert_eq!(classify_session_meta(&meta(Some("future-client"), None)), None);
}

#[test]
fn classification_needs_a_session_record_with_a_payload() {
    let mut other = meta(Some("Codex Desktop"), None);
    other.record_type = Some("turn_context".to_owned());
    assert_eq!(classify_session_meta(&other), None);
    let mut bare = meta(Some("Codex Desktop"), None);
    bare.has_payload = false;
    assert_eq!(classify_session_meta(&bare), None);
    assert_eq!(classify_session_meta(&meta(Some("codex_exec"), None)), Some("cli"));
    assert_eq!(classify_session_meta(&meta(None, Some("EXEC"))), Some("cli"));
    assert_eq!(classify_session_meta(&meta(None, Some("VSCode"))), Some("app"));
}

#[test]
fn client_is_wsl_inside_a_distribution_and_unknown_without_a_record() {
    let desktop = meta(Some("Codex Desktop"), None);
    assert_eq!(codex_client(Some(&desktop), Some("Ubuntu")), "wsl_cli");
    assert_eq!(codex_client(Some(&desktop), None), "app");
    assert_eq!(codex_client(None, None), "unknown");
    assert_eq!(codex_client(Some(&meta(Some("x"), None)), None), "unknown");
}

#[test]
fn only_codex_session_transcripts_are_read() {
    assert!(is_codex_session_path("/home/a/.codex/sessions/2025/01/rollout.jsonl", false));
    assert!(is_codex_session_path("/home/a/.CODEX/Sessions/x.jsonl", false));
    assert!(is_codex_session_path(r"C:\Users\a\.codex\sessions\x.jsonl", true));
    assert!(!is_codex_session_path(r"C:\Users\a\.codex\sessions\x.jsonl", false));
    assert!(!is_codex_session_path("/home/a/.codex/sessions/x.json", false));
    assert!(!is_codex_session_path("/home/a/.codex/other/x.jsonl", false));
    assert!(!is_codex_session_path("/home/a/sessions/.codex/x.jsonl", false));
    assert!(is_codex_session_path("/home/a/.codex/./sessions/x.jsonl", false));
    assert!(!is_codex_session_path("/home/a/.codex/sessions/..", false));
    assert!(!is_codex_session_path("/home/a/.codex/sessions/.jsonl", false));
}
