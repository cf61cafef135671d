use akra_hookers::lifecycle::{CodexHookCommand, HookEvent, HookLocation};
use akra_hookers::manifest::{
    is_legacy_managed_command, CodexHook, CodexHookEvents, CodexHooksFile, CodexMatcherGroup,
    JsonField,
};
use akra_hookers::trust_config::edited_config;
use akra_hookers::transaction::{
    apply_codex_hook_updates, config_edit, home_key, normalize_lexically, plan_update,
    rollback_order, CodexHookLifecycle, CodexHookLifecycleSet, SetQuery,
};

fn hook(command: &str, managed: Option<bool>) -> CodexHook {
    CodexHook {
        hook_type: "command".to_owned(),
        command: command.to_owned(),
        command_windows: None,
        asynchronous: None,
        timeout: None,
        managed,
        extra: Vec::new(),
    }
}

fn group(hooks: Vec<CodexHook>) -> CodexMatcherGroup {
    CodexMatcherGroup { hooks, extra: Vec::new() }
}

fn manifest(user_prompt: Vec<CodexMatcherGroup>, subagent: Vec<CodexMatcherGroup>) -> CodexHooksFile {
    manifest_with_stop(user_prompt, subagent, Vec::new())
}

fn manifest_with_stop(
    user_prompt: Vec<CodexMatcherGroup>,
    subagent: Vec<CodexMatcherGroup>,
    stop: Vec<CodexMatcherGroup>,
) -> CodexHooksFile {
    CodexHooksFile {
        description: Some("exact bytes".to_owned()),
        hooks: CodexHookEvents {
            user_prompt_submit: user_prompt,
            subagent_start: subagent,
            stop,
            extra: Vec::new(),
        },
        extra: vec![JsonField { name: "version".to_owned(), value: "1".to_owned() }],
    }
}

#[test]
fn legacy_commands_are_recognised_and_others_are_not() {
    assert!(is_legacy_managed_command("akra-hookers capture"));
    assert!(is_legacy_managed_command("  AKRA-HOOKERS.EXE capture "));
    assert!(is_legacy_managed_command(
        "/usr/local/bin/akra-hookers capture --data-dir /var/lib/akra"
    ));
    assert!(is_legacy_managed_command(
        "'/opt/Akra Tools/akra-hookers' capture --data-dir \"/home/a b/state\""
    ));
    assert!(!is_legacy_managed_command("other-tool capture"));
    assert!(!is_legacy_managed_command(
        "/usr/bin/akra-hookers capture --data-dir /state; rm -rf /"
    ));
    assert!(!is_legacy_managed_command(
        "/usr/bin/not-akra capture --data-dir /state"
    ));
    assert!(!is_legacy_managed_command("'' capture --data-dir /state"));
}

#[test]
fn removal_keeps_third_party_handlers_and_drops_emptied_groups() {
    let mut file = manifest(
        vec![
            group(vec![hook("third-party", None), hook("ignored", Some(true))]),
            group(vec![hook("akra-hookers capture", None)]),
        ],
        vec![group(vec![hook("x", Some(true))])],
    );
    let removed = file.remove_akra_hooks().managed_locations;
    assert_eq!(
        removed,
        vec![
            HookLocation::new(HookEvent::UserPromptSubmit, 0, 1),
            HookLocation::new(HookEvent::UserPromptSubmit, 1, 0),
            HookLocation::new(HookEvent::SubagentStart, 0, 0),
        ]
    );
    assert_eq!(file.hooks.user_prompt_submit.len(), 1);
    assert_eq!(file.hooks.user_prompt_submit[0].hooks.len(), 1);
    assert_eq!(file.hooks.user_prompt_submit[0].hooks[0].command, "third-party");
    assert!(file.hooks.subagent_start.is_empty());
    assert_eq!(file.description.as_deref(), Some("exact bytes"));
    assert_eq!(file.extra.len(), 1);
    assert!(!file.is_enabled());
}

#[test]
fn enable_appends_one_synchronous_managed_group_for_prompts_and_stops() {
    let mut file = manifest(vec![group(vec![hook("third-party", None)])], Vec::new());
    let command = CodexHookCommand::with_windows("wsl capture", "powershell.exe capture");
    file.remove_akra_hooks();
    let installed = file.append_akra_hooks(&command);
    assert_eq!(
        installed,
        vec![
            HookLocation::new(HookEvent::UserPromptSubmit, 1, 0),
            HookLocation::new(HookEvent::Stop, 0, 0),
        ]
    );
    assert!(file.hooks.subagent_start.is_empty());
    assert_eq!(file.hooks.stop[0].hooks[0].command, "wsl capture");
    assert_eq!(file.hooks.stop[0].hooks[0].managed, Some(true));
    let added = &file.hooks.user_prompt_submit[1].hooks[0];
    assert_eq!(added.hook_type, "command");
    assert_eq!(added.command, "wsl capture");
    assert_eq!(added.command_windows.as_deref(), Some("powershell.exe capture"));
    assert_eq!(added.timeout, Some(5));
    assert_eq!(added.managed, Some(true));
    assert_eq!(added.asynchronous, None);
    assert!(file.is_enabled());
    let managed = file.managed_command().expect("managed command");
    assert_eq!(managed, command);
}

#[test]
fn reenable_replaces_the_previous_managed_group() {
    let mut file = manifest(Vec::new(), Vec::new());
    let first = CodexHookCommand::same("akra-hookers capture --old");
    file.remove_akra_hooks();
    file.append_akra_hooks(&first);
    let second = CodexHookCommand::same("akra-hookers capture");
    let removed = file.remove_akra_hooks();
    assert_eq!(removed.managed_locations.len(), 2);
    assert!(removed.retained_moves.is_empty());
    file.append_akra_hooks(&second);
    assert_eq!(file.hooks.user_prompt_submit.len(), 1);
    assert_eq!(file.hooks.stop.len(), 1);
    assert!(file.hooks.subagent_start.is_empty());
    assert_eq!(file.managed_command(), Some(second));
}

#[test]
fn empty_manifest_is_not_enabled() {
    let file = CodexHooksFile::empty();
    assert!(!file.is_enabled());
    assert_eq!(file.managed_command(), None);
}

#[test]
fn lifecycle_paths_follow_the_codex_home() {
    let lifecycle = CodexHookLifecycle::new("/home/alex");
    assert_eq!(lifecycle.manifest_path(), "/home/alex/.codex/hooks.json");
    assert_eq!(lifecycle.config_path(), "/home/alex/.codex/config.toml");
    let custom = CodexHookLifecycle::from_codex_home("/srv/codex/");
    assert_eq!(custom.manifest_path(), "/srv/codex/hooks.json");
    assert_eq!(custom.config_path(), "/srv/codex/config.toml");
}

#[test]
fn lexical_normalisation_resolves_dot_components() {
    assert_eq!(normalize_lexically("/home/a/.codex/missing/.."), "/home/a/.codex");
    assert_eq!(normalize_lexically("/a/./b//c/"), "/a/b/c");
    assert_eq!(normalize_lexically("/.."), "/");
    assert_eq!(normalize_lexically("../x"), "x");
    assert_eq!(normalize_lexically("a/.."), "");
}

#[test]
fn lexical_aliases_create_one_manifest_lifecycle_and_lock() {
    let home = "/tmp/home/.codex".to_owned();
    let alias = normalize_lexically("/tmp/home/.codex/missing/..");
    let set = CodexHookLifecycleSet::from_codex_homes(&vec![home, alias], false);
    assert_eq!(set.len(), 1);
    assert_eq!(set.lifecycles()[0].manifest_path(), "/tmp/home/.codex/hooks.json");
}

#[test]
fn windows_home_keys_ignore_case() {
    assert_eq!(home_key(r"C:\Users\Alex", true), r"c:\users\alex");
    assert_eq!(home_key(r"C:\Users\Alex", false), r"C:\Users\Alex");
    let set = CodexHookLifecycleSet::from_codex_homes(
        &vec![r"C:\Users\Alex\.codex".to_owned(), r"c:\users\alex\.codex".to_owned()],
        true,
    );
    assert_eq!(set.len(), 1);
}

#[test]
fn per_home_updates_keep_the_first_intent_for_each_home() {
    let updates = apply_codex_hook_updates(
        vec![
            ("/h/first".to_owned(), Some(CodexHookCommand::same("windows capture"))),
            ("/h/second".to_owned(), Some(CodexHookCommand::posix("wsl capture"))),
            ("/h/first".to_owned(), None),
        ],
        false,
    );
    assert_eq!(updates.len(), 2);
    assert_eq!(updates[0].lifecycle.manifest_path(), "/h/first/hooks.json");
    assert_eq!(updates[0].command, Some(CodexHookCommand::same("windows capture")));
    assert_eq!(updates[1].command, Some(CodexHookCommand::posix("wsl capture")));
}

#[test]
fn set_status_reads_until_a_home_is_disabled() {
    let set = CodexHookLifecycleSet::from_codex_homes(
        &vec!["/a".to_owned(), "/b".to_owned()],
        false,
    );
    assert!(matches!(set.is_enabled(&Vec::new()), SetQuery::Read(0)));
    let mut enabled = CodexHooksFile::empty();
    enabled.append_akra_hooks(&CodexHookCommand::same("akra-hookers capture"));
    let read = vec![enabled];
    assert!(matches!(set.is_enabled(&read), SetQuery::Read(1)));
    let read = vec![CodexHooksFile::empty()];
    assert!(matches!(set.is_enabled(&read), SetQuery::Done(false)));
    let empty = CodexHookLifecycleSet::from_codex_homes(&Vec::new(), false);
    assert!(matches!(empty.is_enabled(&Vec::new()), SetQuery::Done(false)));
}

#[test]
fn set_managed_command_is_the_first_found() {
    let set = CodexHookLifecycleSet::from_codex_homes(
        &vec!["/a".to_owned(), "/b".to_owned()],
        false,
    );
    let mut second = CodexHooksFile::empty();
    second.append_akra_hooks(&CodexHookCommand::posix("b capture"));
    let read = vec![CodexHooksFile::empty()];
    assert!(matches!(set.managed_command(&read), SetQuery::Read(1)));
    let read = vec![CodexHooksFile::empty(), second];
    match set.managed_command(&read) {
        SetQuery::Done(Some(c)) => assert_eq!(c, CodexHookCommand::posix("b capture")),
        other => panic!("unexpected {other:?}"),
    }
}

#[test]
fn plans_write_trust_for_installs_and_clean_up_on_disable() {
    let lifecycle = CodexHookLifecycle::from_codex_home("/tmp/.codex");
    let update = lifecycle.enable("akra-hookers capture");
    let plan = plan_update(&update, false, CodexHooksFile::empty());
    assert!(plan.write_manifest);
    assert!(plan.read_config);
    assert_eq!(plan.config_path, "/tmp/.codex/config.toml");
    let edit = config_edit(&plan, false, false).expect("trust edit");
    assert!(edit.remove_keys.is_empty());
    assert_eq!(edit.entries.len(), 2);
    assert_eq!(edit.entries[0].key, "/tmp/.codex/hooks.json:user_prompt_submit:0:0");
    assert_eq!(
        edit.entries[0].trusted_hash,
        "sha256:bd757851234b867d380008403ac0e54873ab8ff31dc399fae293dd2d5362a26b"
    );
    assert_eq!(edit.entries[1].key, "/tmp/.codex/hooks.json:stop:0:0");

    let disable = lifecycle.disable();
    let plan = plan_update(&disable, true, plan.hooks);
    assert!(plan.write_manifest);
    assert!(plan.read_config);
    assert!(!plan.hooks.is_enabled());
    let edit = config_edit(&plan, true, false).expect("trust cleanup");
    assert_eq!(
        edit.remove_keys,
        vec![
            "/tmp/.codex/hooks.json:stop:0:0".to_owned(),
            "/tmp/.codex/hooks.json:user_prompt_submit:0:0".to_owned(),
        ]
    );
    assert!(edit.entries.is_empty());

    let missing = plan_update(&lifecycle.disable(), false, CodexHooksFile::empty());
    assert!(!missing.write_manifest);
    assert!(!missing.read_config);
    assert!(config_edit(&missing, false, false).is_none());
}

#[test]
fn rollback_restores_the_written_files_last_first() {
    assert_eq!(rollback_order(&vec![0, 1, 3]), vec![3, 1, 0]);
    assert!(rollback_order(&Vec::new()).is_empty());
}

#[test]
fn prompt_only_legacy_install_is_not_enabled_without_result_hook() {
    let legacy = manifest(
        vec![group(vec![hook("akra-hookers capture", Some(true))])],
        vec![group(vec![hook("akra-hookers capture", Some(true))])],
    );
    assert!(!legacy.is_enabled());
    assert!(legacy.managed_command().is_some());
}

#[test]
fn enable_creates_missing_hooks_configuration() {
    let command = r"C:\tools\akra-hookers.exe capture --data-dir C:\data";
    let lifecycle = CodexHookLifecycle::from_codex_home("/tmp/.codex");
    let plan = plan_update(&lifecycle.enable(command), false, CodexHooksFile::empty());
    let hooks = &plan.hooks;
    assert_eq!(hooks.hooks.user_prompt_submit.len(), 1);
    let prompt = &hooks.hooks.user_prompt_submit[0].hooks[0];
    assert_eq!(prompt.command, command);
    assert_eq!(prompt.command_windows.as_deref(), Some(command));
    assert_eq!(prompt.asynchronous, None);
    assert_eq!(hooks.hooks.stop[0].hooks[0].command, command);
    assert!(hooks.hooks.subagent_start.is_empty());
    assert!(hooks.is_enabled());
    let edit = config_edit(&plan, false, false).expect("trust edit");
    let config = edited_config("/tmp/.codex/config.toml", None, &edit).expect("trusted config");
    assert!(config.contains("enabled = true"));
    assert!(config.contains("stop:0:0"));
    assert!(config.contains("sha256:e94def78b62a7838e51bc8b77e885b5e85c89162fc063bc9a3c4cfd4c8237f36"));
}

const TRUST_EVENTS: [&str; 3] = ["user_prompt_submit", "subagent_start", "stop"];

fn field(name: &str, value: &str) -> JsonField {
    JsonField { name: name.to_owned(), value: value.to_owned() }
}

fn shifted_groups() -> Vec<CodexMatcherGroup> {
    vec![
        group(vec![hook("old managed group", Some(true))]),
        CodexMatcherGroup {
            hooks: vec![hook("third-party-a", None)],
            extra: vec![field("matcher", "\"third-party-a\"")],
        },
        CodexMatcherGroup {
            hooks: vec![hook("old managed handler", Some(true)), hook("third-party-b", None)],
            extra: vec![field("matcher", "\"mixed-group\"")],
        },
    ]
}

fn shifted_config() -> String {
    let mut config = String::new();
    for event in TRUST_EVENTS {
        for (group, handler, hash, marker) in [
            (0, 0, "sha256:old-managed-group", "managed-group"),
            (1, 0, "sha256:third-party-a", "third-party-a"),
            (2, 0, "sha256:old-managed-handler", "managed-handler"),
            (2, 1, "sha256:third-party-b", "third-party-b"),
        ] {
            let key = format!("/tmp/.codex/hooks.json:{event}:{group}:{handler}");
            config.push_str(&format!(
                "[hooks.state.'{key}']\nenabled = true\ntrusted_hash = \"{hash}\"\nmarker = \"{marker}\"\n\n"
            ));
        }
    }
    config
}

fn apply(
    update: &akra_hookers::transaction::CodexHookUpdate,
    hooks: CodexHooksFile,
    config: &str,
) -> (CodexHooksFile, String) {
    let plan = plan_update(update, true, hooks);
    let edit = config_edit(&plan, true, false).expect("trust edit");
    let text = edited_config("/tmp/.codex/config.toml", Some(config), &edit).expect("edited config");
    (plan.hooks, text)
}

fn assert_shifted(hooks: &CodexHooksFile, config: &str, managed: Option<&str>) {
    let document: toml_edit::DocumentMut = config.parse().expect("valid TOML");
    let state = document["hooks"]["state"].as_table_like().expect("state table");
    let events = [
        (&hooks.hooks.user_prompt_submit, "user_prompt_submit", true),
        (&hooks.hooks.subagent_start, "subagent_start", false),
        (&hooks.hooks.stop, "stop", true),
    ];
    for (groups, event, installed) in events {
        let expect_managed = managed.filter(|_| installed);
        assert_eq!(groups[0].hooks[0].command, "third-party-a");
        assert_eq!(groups[0].extra[0].value, "\"third-party-a\"");
        assert_eq!(groups[1].hooks.len(), 1);
        assert_eq!(groups[1].hooks[0].command, "third-party-b");
        assert_eq!(groups[1].extra[0].value, "\"mixed-group\"");
        assert_eq!(groups.len(), if expect_managed.is_some() { 3 } else { 2 });
        if let Some(command) = expect_managed {
            assert_eq!(groups[2].hooks[0].command, command);
        }
        let entry = |group: usize, handler: usize| {
            state
                .get(&format!("/tmp/.codex/hooks.json:{event}:{group}:{handler}"))
                .and_then(|item| item.as_table_like())
                .map(|table| {
                    (
                        table.get("trusted_hash").and_then(|v| v.as_str()).map(str::to_owned),
                        table.get("marker").and_then(|v| v.as_str()).map(str::to_owned),
                    )
                })
        };
        assert_eq!(
            entry(0, 0),
            Some((Some("sha256:third-party-a".to_owned()), Some("third-party-a".to_owned())))
        );
        assert_eq!(
            entry(1, 0),
            Some((Some("sha256:third-party-b".to_owned()), Some("third-party-b".to_owned())))
        );
        assert!(entry(2, 1).is_none(), "old third-party trust source must be removed");
        if expect_managed.is_none() {
            assert!(entry(2, 0).is_none(), "managed trust must be removed");
        } else {
            assert!(entry(2, 0).is_some());
        }
    }
}

#[test]
fn disable_remaps_third_party_trust_when_managed_groups_precede_it() {
    let lifecycle = CodexHookLifecycle::from_codex_home("/tmp/.codex");
    let hooks = manifest_with_stop(shifted_groups(), shifted_groups(), shifted_groups());
    let (hooks, config) = apply(&lifecycle.disable(), hooks, &shifted_config());
    assert_shifted(&hooks, &config, None);
}

#[test]
fn enable_reenable_and_disable_remap_third_party_trust_for_every_managed_event() {
    let lifecycle = CodexHookLifecycle::from_codex_home("/tmp/.codex");
    let hooks = manifest_with_stop(shifted_groups(), shifted_groups(), shifted_groups());
    let (hooks, config) = apply(&lifecycle.enable("current capture command"), hooks, &shifted_config());
    assert_shifted(&hooks, &config, Some("current capture command"));
    let (hooks, config) = apply(&lifecycle.enable("replacement capture command"), hooks, &config);
    assert_shifted(&hooks, &config, Some("replacement capture command"));
    let (hooks, config) = apply(&lifecycle.disable(), hooks, &config);
    assert_shifted(&hooks, &config, None);
}
