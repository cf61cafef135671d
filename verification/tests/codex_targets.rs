use akra_hookers::detection::{
    decode_windows_output, detect_windows_targets, home_identity, merge_or_push_wsl_target,
    parse_wsl_probe,
    wsl_distro_names, wsl_home_to_windows, HomeCandidate, WindowsDetection, WslCandidate,
};
use akra_hookers::lifecycle::CodexHookCommand;
use akra_hookers::paths::HookCommandError;
use akra_hookers::targets::{
    target_from_home, CaptureClientObservation, CodexRuntimeDescriptor, CodexTargetActivation,
    CodexTargetError, CodexTargetRegistry, WritePlan,
};

fn target(id: &str, home: &str, command: Option<&str>) -> akra_hookers::targets::CodexTarget {
    target_from_home(
        id.to_owned(),
        format!("{id} label"),
        "test".to_owned(),
        home.to_owned(),
        home.to_owned(),
        match command {
            Some(c) => Ok(CodexHookCommand::same(c)),
            None => Err(HookCommandError::InvalidCaptureTarget("bad".to_owned())),
        },
        false,
    )
}

#[test]
fn decodes_the_utf16_output_emitted_by_wsl_list() {
    let bytes = "Ubuntu\r\ndocker-desktop\r\n"
        .encode_utf16()
        .flat_map(u16::to_le_bytes)
        .collect::<Vec<_>>();
    assert_eq!(decode_windows_output(&bytes), "Ubuntu\r\ndocker-desktop\r\n");
}

#[test]
fn decodes_utf8_output_and_drops_nul_characters() {
    assert_eq!(decode_windows_output(b"Ubuntu\n"), "Ubuntu\n");
    assert_eq!(decode_windows_output(&[0x41, 0x00, 0x3D, 0xD8, 0x41, 0x00]), "A\u{FFFD}A");
    assert_eq!(decode_windows_output(&[0x41, 0x00, 0x3D, 0xD8, 0x00, 0xDE]), "A\u{1F600}");
}

#[test]
fn maps_shared_and_native_wsl_codex_homes() {
    assert_eq!(
        wsl_home_to_windows("Ubuntu", "/mnt/c/Users/alex/.codex").expect("shared"),
        r"C:\Users\alex\.codex"
    );
    assert_eq!(
        wsl_home_to_windows("Ubuntu", "/home/alex/.codex").expect("native"),
        r"\\wsl.localhost\Ubuntu\home\alex\.codex"
    );
    assert!(wsl_home_to_windows("Ubuntu; rm", "/home/alex/.codex").is_none());
}

#[test]
fn wsl_list_skips_docker_and_blank_lines() {
    assert_eq!(
        wsl_distro_names("Ubuntu\r\ndocker-desktop\r\n\r\n  Debian \n docker-desktop-data\n"),
        vec!["Ubuntu".to_owned(), "Debian".to_owned()]
    );
}

#[test]
fn probe_report_selects_the_codex_home_and_binary() {
    let probe = parse_wsl_probe(
        "Ubuntu",
        "HOME=/home/alex/\nCODEX_HOME=\nCODEX_BIN=/usr/bin/codex\n",
    )
    .expect("probe");
    assert_eq!(probe.codex_home, "/home/alex/.codex");
    assert_eq!(probe.codex_binary, "/usr/bin/codex");
    let custom = parse_wsl_probe("Ubuntu", "HOME=/h\nCODEX_HOME= /srv/codex \n").expect("probe");
    assert_eq!(custom.codex_home, "/srv/codex");
    assert_eq!(custom.codex_binary, "");
    assert!(parse_wsl_probe("Ubuntu", "CODEX_BIN=/usr/bin/codex\n").is_none());
}

#[test]
fn home_identity_ignores_case_separators_and_trailing_backslashes() {
    assert_eq!(home_identity("C:/Users/Alex/.codex/"), r"c:\users\alex\.codex");
    assert_eq!(home_identity(r"C:\Users\alex\.codex"), r"c:\users\alex\.codex");
}

#[test]
fn target_describes_its_manifest_in_the_home_separator_style() {
    let windows = target("first", r"C:\Users\alex\.codex\", Some("capture"));
    assert_eq!(windows.hook_path.as_deref(), Some(r"C:\Users\alex\.codex\hooks.json"));
    let posix = target("second", "/home/alex/.codex/", Some("capture"));
    assert_eq!(posix.hook_path.as_deref(), Some("/home/alex/.codex/hooks.json"));
    let broken = target("third", "/x", None);
    assert!(broken.command.is_none());
    assert_eq!(
        broken.enable_error.as_deref(),
        Some("invalid capture target identifier: bad")
    );
}

#[test]
fn shared_installation_reports_app_and_cli_capture_evidence_independently() {
    let mut t = target("windows-native", "/tmp/codex", Some("capture command"));
    t.environment = "windows".to_owned();
    let status = t.status(
        true,
        true,
        None,
        &vec![CaptureClientObservation {
            target_id: "windows-native".to_owned(),
            client: "cli".to_owned(),
            last_captured_at_us: 20,
        }],
        Some(10),
    );
    assert_eq!(status.activation, CodexTargetActivation::Verified);
    assert_eq!(status.clients.len(), 2);
    assert_eq!(status.clients[0].id, "app");
    assert!(!status.clients[0].verified);
    assert_eq!(status.clients[1].id, "cli");
    assert!(status.clients[1].verified);
    assert_eq!(status.clients[1].last_captured_at_us, Some(20));
}

#[test]
fn captures_older_than_the_manifest_do_not_verify_a_target() {
    let t = target("first", "/tmp/codex", Some("capture command"));
    let observations = vec![CaptureClientObservation {
        target_id: "first".to_owned(),
        client: "cli".to_owned(),
        last_captured_at_us: 5,
    }];
    let status = t.status(true, true, None, &observations, Some(10));
    assert_eq!(status.activation, CodexTargetActivation::AwaitingCapture);
    let off = t.status(false, true, None, &observations, None);
    assert_eq!(off.activation, CodexTargetActivation::Disabled);
}

#[test]
fn summary_runtime_lookup_preserves_target_binary_and_home() {
    let mut t = target("windows-custom", "/tmp/codex", Some("capture command"));
    t.summary_runtimes.push(CodexRuntimeDescriptor::Native {
        capture_target: "windows-custom".to_owned(),
        executable: r"C:\exact\codex.exe".to_owned(),
        codex_home: r"D:\exact\.codex".to_owned(),
    });
    t.summary_runtimes.push(CodexRuntimeDescriptor::Wsl {
        capture_target: "wsl:Ubuntu".to_owned(),
        distro: "Ubuntu".to_owned(),
        executable: "/home/alex/.local/bin/codex".to_owned(),
        codex_home: "/home/alex/.codex-custom".to_owned(),
    });
    let registry = CodexTargetRegistry::new(vec![t]);

    assert_eq!(
        registry.summary_runtime(Some("wsl:Ubuntu")),
        Some(CodexRuntimeDescriptor::Wsl {
            capture_target: "wsl:Ubuntu".to_owned(),
            distro: "Ubuntu".to_owned(),
            executable: "/home/alex/.local/bin/codex".to_owned(),
            codex_home: "/home/alex/.codex-custom".to_owned(),
        })
    );
    assert!(registry.summary_runtime(Some("wsl:Debian")).is_none());
    assert_eq!(
        registry
            .summary_runtime(None)
            .map(|r| r.capture_target().to_owned()),
        Some("windows-custom".to_owned())
    );
}

#[test]
fn enabling_everything_needs_an_available_target() {
    let registry = CodexTargetRegistry::new(vec![target("a", "/a", None), target("b", "/b", None)]);
    assert!(matches!(
        registry.apply_all(true, &vec![false, true]),
        Err(CodexTargetError::NoAvailableTargets)
    ));
    assert_eq!(
        registry.apply_all(false, &vec![true, true]).expect("disable"),
        vec![false, false]
    );
    let registry =
        CodexTargetRegistry::new(vec![target("a", "/a", None), target("b", "/b", Some("c"))]);
    assert_eq!(
        registry.apply_all(true, &vec![true, false]).expect("enable"),
        vec![true, true]
    );
    assert_eq!(
        registry.apply_all(true, &vec![false, false]).expect("enable"),
        vec![false, true]
    );
}

#[test]
fn individual_targets_keep_the_global_gate_enabled_until_the_last_hook_is_off() {
    assert!(CodexTargetRegistry::toggle_gate(0, true, &vec![Some(false), Some(false)]));
    assert!(CodexTargetRegistry::toggle_gate(0, false, &vec![Some(true), Some(true)]));
    assert!(!CodexTargetRegistry::toggle_gate(1, false, &vec![Some(false), Some(true)]));
    assert!(CodexTargetRegistry::toggle_gate(1, false, &vec![None, Some(true)]));
}

#[test]
fn single_target_toggles_check_the_target() {
    let registry =
        CodexTargetRegistry::new(vec![target("a", "/a", None), target("b", "/b", Some("c"))]);
    assert!(matches!(
        registry.apply_target("missing", true),
        Err(CodexTargetError::UnknownTarget(t)) if t == "missing"
    ));
    assert!(matches!(
        registry.apply_target("a", true),
        Err(CodexTargetError::UnavailableTarget { target, detail })
            if target == "a" && detail == "invalid capture target identifier: bad"
    ));
    assert_eq!(registry.apply_target("a", false).expect("disable"), 0);
    assert_eq!(registry.apply_target("b", true).expect("enable"), 1);
}

#[test]
fn reconcile_with_disabled_gate_removes_every_installed_hook() {
    let registry =
        CodexTargetRegistry::new(vec![target("a", "/a", Some("a")), target("b", "/b", Some("b"))]);
    assert_eq!(
        registry.reconcile(false, &vec![true, true]).expect("reconcile"),
        vec![false, false]
    );
    assert_eq!(
        registry.reconcile(true, &vec![false, true]).expect("keep"),
        vec![false, true]
    );
    assert_eq!(
        registry.reconcile(true, &vec![false, false]).expect("first"),
        vec![true, false]
    );
}

#[test]
fn physical_homes_are_written_as_one_transaction() {
    let registry =
        CodexTargetRegistry::new(vec![target("a", "/a", Some("a")), target("b", "/b", None)]);
    match registry.write_states_with_fallback(&vec![true, true], &vec![None, None]) {
        WritePlan::Homes(updates) => {
            assert_eq!(updates.len(), 1);
            assert_eq!(updates[0].0, "/a");
            assert_eq!(updates[0].1, Some(CodexHookCommand::same("a")));
        }
        other => panic!("unexpected {other:?}"),
    }
    match registry.write_states_with_fallback(
        &vec![false, true],
        &vec![None, Some(CodexHookCommand::posix("installed"))],
    ) {
        WritePlan::Homes(updates) => {
            assert_eq!(updates.len(), 2);
            assert_eq!(updates[0].1, None);
            assert_eq!(updates[1].1, Some(CodexHookCommand::posix("installed")));
        }
        other => panic!("unexpected {other:?}"),
    }
}

#[test]
fn windows_detection_merges_a_shared_wsl_home() {
    let detection = WindowsDetection {
        executable: r"C:\tools\akra-hookers.exe".to_owned(),
        data_dir: r"C:\state".to_owned(),
        powershell: Ok(r"C:\Windows\System32\WindowsPowerShell\v1.0\powershell.exe".to_owned()),
        default_home: HomeCandidate {
            display: r"C:\Users\alex\.codex".to_owned(),
            physical: r"C:\Users\alex\.codex".to_owned(),
        },
        configured_home: HomeCandidate {
            display: r"C:\Users\alex\.codex".to_owned(),
            physical: r"c:\users\alex\.codex\".to_owned(),
        },
        native_executable: None,
        wsl: vec![
            WslCandidate {
                probe: parse_wsl_probe(
                    "Ubuntu",
                    "HOME=/home/alex\nCODEX_HOME=/mnt/c/Users/alex/.codex\nCODEX_BIN=/usr/bin/codex\n",
                )
                .expect("probe"),
                windows_home: Some(r"C:\Users\alex\.codex".to_owned()),
                has_state: false,
            },
            WslCandidate {
                probe: parse_wsl_probe("Debian", "HOME=/home/alex\nCODEX_BIN=\n").expect("probe"),
                windows_home: Some(r"\\wsl.localhost\Debian\home\alex\.codex".to_owned()),
                has_state: false,
            },
            WslCandidate {
                probe: parse_wsl_probe("Arch", "HOME=/home/alex\nCODEX_BIN=/bin/codex\n")
                    .expect("probe"),
                windows_home: Some(r"\\wsl.localhost\Arch\home\alex\.codex".to_owned()),
                has_state: false,
            },
        ],
    };
    let targets = detect_windows_targets(&detection);
    assert_eq!(targets.len(), 2);
    assert_eq!(targets[0].id, "windows-native");
    assert_eq!(targets[0].environment, "shared");
    assert_eq!(targets[0].label, "Codex App + CLI + WSL");
    assert_eq!(targets[0].summary_runtimes.len(), 1);
    let command = targets[0].command.as_ref().expect("shared command");
    assert!(command.command().contains("WSL_DISTRO_NAME"));
    assert!(command
        .command_windows()
        .expect("Windows override")
        .contains("powershell.exe"));
    assert_eq!(targets[1].id, "wsl:Arch");
    assert_eq!(targets[1].environment, "wsl");
    assert_eq!(targets[1].label, "Codex · Arch");
}

#[test]
fn shared_windows_and_wsl_home_becomes_one_cross_platform_target() {
    let home = r"C:\shared\.codex";
    let executable = r"C:\tools & apps\akra-hookers.exe";
    let data_dir = r"C:\state&data";
    let powershell: Result<String, HookCommandError> =
        Ok(r"C:\Windows\System32\WindowsPowerShell\v1.0\powershell.exe".to_owned());
    let native = target_from_home(
        "windows-native".to_owned(),
        "Codex App + CLI".to_owned(),
        "windows".to_owned(),
        home.to_owned(),
        home.to_owned(),
        Ok(CodexHookCommand::same("native")),
        true,
    );
    let wsl = target_from_home(
        "wsl:Ubuntu".to_owned(),
        "Codex · Ubuntu".to_owned(),
        "wsl".to_owned(),
        home.to_owned(),
        "/mnt/c/shared/.codex".to_owned(),
        Ok(CodexHookCommand::posix("wsl")),
        true,
    );
    let mut targets = vec![native];
    merge_or_push_wsl_target(&mut targets, wsl, executable, data_dir, &powershell);
    assert_eq!(targets.len(), 1);
    assert_eq!(targets[0].environment, "shared");
    assert_eq!(targets[0].id, "windows-native");
    let command = targets[0].command.as_ref().expect("shared command");
    assert!(command.command().contains("WSL_DISTRO_NAME"));
    assert!(command.command().contains("/mnt/c/shared/.codex"));
    assert!(command.command_windows().expect("Windows override").contains("powershell.exe"));
    assert!(targets[0].enable_error.is_none());

    let missing: Result<String, HookCommandError> =
        Err(HookCommandError::InvalidCaptureTarget("powershell".to_owned()));
    let mut targets = vec![target_from_home(
        "windows-native".to_owned(),
        "Codex App + CLI".to_owned(),
        "windows".to_owned(),
        home.to_owned(),
        home.to_owned(),
        Ok(CodexHookCommand::same("native")),
        true,
    )];
    let wsl = target_from_home(
        "wsl:Ubuntu".to_owned(),
        "Codex · Ubuntu".to_owned(),
        "wsl".to_owned(),
        home.to_owned(),
        "/mnt/c/shared/.codex".to_owned(),
        Ok(CodexHookCommand::posix("wsl")),
        true,
    );
    merge_or_push_wsl_target(&mut targets, wsl, executable, data_dir, &missing);
    assert!(targets[0].command.is_none());
    assert_eq!(
        targets[0].enable_error.as_deref(),
        Some(HookCommandError::InvalidCaptureTarget("powershell".to_owned()).message().as_str())
    );
}
