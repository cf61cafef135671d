use akra_hookers::lifecycle::{CodexHookCommand, HookEvent, HookLocation, HookPlatform};
use akra_hookers::trust::{
    hook_state_key, source_path_aliases, trust_entries, trust_sources, trusted_hash,
    trusted_hash_for_event, TrustSource,
};
use akra_hookers::manifest::CodexHooksFile;
use akra_hookers::transaction::{
    canonical_wsl_lock_path, config_edit, lock_path, wsl_lock_name, CodexLifecycleError,
    UpdatePlan,
};
use akra_hookers::trust_config::edited_config;

/// The trust edit of a plan for `/tmp/.codex`, applied to `original`.
fn prepare_config(
    original: &str,
    previous_locations: Vec<HookLocation>,
    installed: Option<(Vec<HookLocation>, CodexHookCommand)>,
) -> Result<String, CodexLifecycleError> {
    let (installed, command) = match installed {
        Some((locations, command)) => (Some(locations), Some(command)),
        None => (None, None),
    };
    let plan = UpdatePlan {
        manifest_path: "/tmp/.codex/hooks.json".to_owned(),
        config_path: "/tmp/.codex/config.toml".to_owned(),
        hooks: CodexHooksFile::empty(),
        write_manifest: true,
        read_config: true,
        removed: previous_locations,
        moved: vec![],
        installed,
        command,
    };
    let edit = config_edit(&plan, true, false).expect("an existing configuration is edited");
    edited_config("/tmp/.codex/config.toml", Some(original), &edit)
}

fn text(v: &[char]) -> String {
    v.iter().collect()
}

fn user_location(group: usize, handler: usize) -> HookLocation {
    HookLocation::new(HookEvent::UserPromptSubmit, group, handler)
}

#[test]
fn hash_matches_codex_0_147_normalized_hook_algorithm() {
    assert_eq!(
        trusted_hash("akra-hookers capture"),
        "sha256:bd757851234b867d380008403ac0e54873ab8ff31dc399fae293dd2d5362a26b"
    );
}

#[test]
fn windows_home_trusts_native_and_shared_wsl_paths() {
    let sources = trust_sources(r"C:\Users\alex\.codex\hooks.json", true);

    assert!(sources.contains(&TrustSource {
        hook_path: r"C:\Users\alex\.codex\hooks.json".to_owned(),
        platform: HookPlatform::Windows,
    }));
    assert!(sources.contains(&TrustSource {
        hook_path: "/mnt/c/Users/alex/.codex/hooks.json".to_owned(),
        platform: HookPlatform::Posix,
    }));
}

#[test]
fn extended_windows_home_trusts_codex_native_and_canonical_aliases() {
    let sources = trust_sources(r"\\?\C:\Users\alex\.codex\hooks.json", true);
    let windows = sources
        .iter()
        .find(|source| source.platform == HookPlatform::Windows)
        .expect("Windows source");
    let aliases: Vec<String> = source_path_aliases(windows)
        .iter()
        .map(|a| text(a))
        .collect();

    assert_eq!(windows.hook_path, r"C:\Users\alex\.codex\hooks.json");
    assert!(aliases.contains(&r"C:\Users\alex\.codex\hooks.json".to_owned()));
    assert!(aliases.contains(&"C:/Users/alex/.codex/hooks.json".to_owned()));
    assert!(aliases.contains(&r"\\?\C:\Users\alex\.codex\hooks.json".to_owned()));
    assert!(aliases.contains(&"//?/C:/Users/alex/.codex/hooks.json".to_owned()));
    assert!(sources.contains(&TrustSource {
        hook_path: "/mnt/c/Users/alex/.codex/hooks.json".to_owned(),
        platform: HookPlatform::Posix,
    }));
}

#[test]
fn wsl_unc_home_uses_native_linux_hook_key() {
    let sources = trust_sources(r"\\wsl.localhost\Ubuntu\home\akra\.codex\hooks.json", true);

    assert_eq!(
        sources,
        vec![TrustSource {
            hook_path: "/home/akra/.codex/hooks.json".to_owned(),
            platform: HookPlatform::Posix,
        }]
    );
}

#[test]
fn posix_home_trusts_only_its_own_path() {
    let sources = trust_sources("/tmp/.codex/hooks.json", false);
    assert_eq!(
        sources,
        vec![TrustSource {
            hook_path: "/tmp/.codex/hooks.json".to_owned(),
            platform: HookPlatform::Posix,
        }]
    );
}

#[test]
fn state_key_names_path_event_group_and_handler() {
    assert_eq!(
        hook_state_key("/tmp/.codex/hooks.json", user_location(1, 0)),
        "/tmp/.codex/hooks.json:user_prompt_submit:1:0"
    );
    assert_eq!(
        hook_state_key(
            "/tmp/.codex/hooks.json",
            HookLocation::new(HookEvent::SubagentStart, 12, 3)
        ),
        "/tmp/.codex/hooks.json:subagent_start:12:3"
    );
}

#[test]
fn shared_home_records_distinct_windows_and_posix_hashes() {
    let sources = trust_sources(r"C:\shared\.codex\hooks.json", true);
    let command = CodexHookCommand::with_windows("echo posix", "echo windows");
    let entries = trust_entries(&sources, &vec![user_location(0, 0)], &command);
    let keys: Vec<&str> = entries.iter().map(|e| e.key.as_str()).collect();
    let hashes: Vec<&str> = entries.iter().map(|e| e.trusted_hash.as_str()).collect();

    assert!(keys.contains(&r"C:\shared\.codex\hooks.json:user_prompt_submit:0:0"));
    assert!(keys.contains(&"/mnt/c/shared/.codex/hooks.json:user_prompt_submit:0:0"));
    assert!(hashes
        .contains(&"sha256:55c1a5ff19716528679009f5d9c76bb369aee7486ad00c0dd13b7f5d226a00d5"));
    assert!(hashes
        .contains(&"sha256:defd73615a929c0312e9d3926e8f765e1582b47a00ae2c7bb24cf9dfc619ca84"));
}

#[test]
fn posix_install_records_the_reference_hash_under_the_manifest_key() {
    let sources = trust_sources("/tmp/.codex/hooks.json", false);
    let command = CodexHookCommand::posix("akra-hookers capture");
    let entries = trust_entries(&sources, &vec![user_location(1, 0)], &command);
    assert_eq!(entries.len(), 1);
    assert_eq!(entries[0].key, "/tmp/.codex/hooks.json:user_prompt_submit:1:0");
    assert_eq!(
        entries[0].trusted_hash,
        "sha256:bd757851234b867d380008403ac0e54873ab8ff31dc399fae293dd2d5362a26b"
    );
}

#[test]
fn subagent_hash_differs_from_the_prompt_hash() {
    assert_ne!(
        trusted_hash_for_event(HookEvent::SubagentStart, "akra-hookers capture"),
        trusted_hash("akra-hookers capture")
    );
}

#[test]
fn wsl_named_mutex_canonicalizes_extended_unc_prefix() {
    let regular = r"\\wsl.localhost\Ubuntu\home\akra\.codex\hooks.json";
    let extended = r"\\?\UNC\wsl.localhost\Ubuntu\home\akra\.codex\hooks.json";

    assert_eq!(wsl_lock_name(regular), wsl_lock_name(extended));
}

#[test]
fn wsl_lock_path_is_lowercase_share_relative() {
    assert_eq!(
        canonical_wsl_lock_path("//wsl.localhost/Ubuntu/Home/hooks.json"),
        r"wsl.localhost\ubuntu\home\hooks.json"
    );
    assert_eq!(canonical_wsl_lock_path(r"C:\X\hooks.json"), r"c:\x\hooks.json");
}

#[test]
fn wsl_lock_name_hashes_the_canonical_path_bytes() {
    // FNV-1a of the empty string is the offset basis.
    assert_eq!(wsl_lock_name(""), "akra-hookers-codex-wsl-cbf29ce484222325-0");
    // FNV-1a 64 of "a" is af63dc4c8601ec8c.
    assert_eq!(wsl_lock_name("A"), "akra-hookers-codex-wsl-af63dc4c8601ec8c-1");
}

#[test]
fn lock_file_replaces_the_manifest_extension() {
    assert_eq!(
        lock_path("/home/akra/.codex/hooks.json"),
        "/home/akra/.codex/hooks.json.akra.lock"
    );
    assert_eq!(lock_path("/home/akra/notes"), "/home/akra/notes.json.akra.lock");
    assert_eq!(lock_path("/home/akra/.hidden"), "/home/akra/.hidden.json.akra.lock");
    assert_eq!(lock_path("/"), "/");
}

#[test]
fn config_update_preserves_unrelated_settings_and_trust_entries() {
    let original = r#"model = "gpt-test"

[hooks.state.'other.json:user_prompt_submit:0:0']
enabled = false
trusted_hash = "sha256:other"
"#;
    let command = CodexHookCommand::posix("akra-hookers capture");

    let updated = prepare_config(original, vec![], Some((vec![user_location(1, 0)], command)))
        .expect("config update");

    assert!(updated.contains("model = \"gpt-test\""));
    assert!(updated.contains("sha256:other"));
    assert!(updated.contains("/tmp/.codex/hooks.json:user_prompt_submit:1:0"));
    assert!(updated
        .contains("sha256:bd757851234b867d380008403ac0e54873ab8ff31dc399fae293dd2d5362a26b"));
}

#[test]
fn disabling_removes_only_matching_akra_state() {
    let original = r#"[hooks.state.'/tmp/.codex/hooks.json:user_prompt_submit:1:0']
enabled = true
trusted_hash = "sha256:akra"

[hooks.state.'other.json:user_prompt_submit:1:0']
enabled = true
trusted_hash = "sha256:other"
"#;

    let updated =
        prepare_config(original, vec![user_location(1, 0)], None).expect("config update");

    assert!(!updated.contains("sha256:akra"));
    assert!(updated.contains("sha256:other"));
}

#[test]
fn trust_edits_refuse_malformed_or_misshapen_configuration() {
    let command = CodexHookCommand::posix("akra-hookers capture");
    let malformed = prepare_config(
        "model = [",
        vec![],
        Some((vec![user_location(0, 0)], command.clone())),
    );
    assert!(matches!(
        malformed,
        Err(CodexLifecycleError::InvalidConfigToml { ref path, .. }) if path == "/tmp/.codex/config.toml"
    ));
    let misshapen = prepare_config("hooks = 1\n", vec![], Some((vec![user_location(0, 0)], command)));
    assert!(matches!(
        misshapen,
        Err(CodexLifecycleError::InvalidConfigShape(ref path)) if path == "/tmp/.codex/config.toml"
    ));
}

#[test]
fn a_new_configuration_holds_only_the_trust_entries() {
    let command = CodexHookCommand::posix("akra-hookers capture");
    let plan = UpdatePlan {
        manifest_path: "/tmp/.codex/hooks.json".to_owned(),
        config_path: "/tmp/.codex/config.toml".to_owned(),
        hooks: CodexHooksFile::empty(),
        write_manifest: true,
        read_config: true,
        removed: vec![],
        moved: vec![],
        installed: Some(vec![user_location(0, 0)]),
        command: Some(command),
    };
    let edit = config_edit(&plan, false, false).expect("an install writes trust");
    let text = edited_config("/tmp/.codex/config.toml", None, &edit).expect("new configuration");
    let document: toml_edit::DocumentMut = text.parse().expect("valid TOML");
    let entry = &document["hooks"]["state"]["/tmp/.codex/hooks.json:user_prompt_submit:0:0"];
    assert_eq!(entry["enabled"].as_bool(), Some(true));
    assert_eq!(
        entry["trusted_hash"].as_str(),
        Some("sha256:bd757851234b867d380008403ac0e54873ab8ff31dc399fae293dd2d5362a26b")
    );
}
