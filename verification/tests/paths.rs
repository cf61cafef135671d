use std::path::PathBuf;

use akra_hookers::paths::{resolve_default_data_dir, resolve_user_home, DataPlatform};
use akra_hookers::paths::HookCommandError;
use akra_hookers::windows_paths::{
    hook_command as windows_hook_command, hook_command_for_target as windows_hook_command_for_target,
    hook_command_for_target_and_home as windows_hook_command_for_target_and_home,
    shared_wsl_hook_command, wsl_cwd_to_windows, wsl_hook_command, wsl_hook_command_for_target,
    wsl_hook_command_for_target_and_home,
};
use base64::Engine;

const SYSTEM_ROOT: &str = r"C:\Windows";

fn powershell() -> String {
    format!("{SYSTEM_ROOT}\\System32\\WindowsPowerShell\\v1.0\\powershell.exe")
}

/// The PowerShell script a native command carries in its encoded argument.
fn decoded_script(command: &str) -> String {
    let encoded = command.split_whitespace().last().expect("encoded command");
    let bytes = base64::engine::general_purpose::STANDARD
        .decode(encoded)
        .expect("base64");
    let utf16 = bytes
        .chunks_exact(2)
        .map(|chunk| u16::from_le_bytes([chunk[0], chunk[1]]))
        .collect::<Vec<_>>();
    String::from_utf16(&utf16).expect("PowerShell")
}

fn text(path: PathBuf) -> String {
    path.to_string_lossy().into_owned()
}

#[test]
fn explicit_directory_overrides_every_platform_default() {
    assert_eq!(
        resolve_default_data_dir(
            DataPlatform::Linux,
            Some("/srv/akra-state".to_owned()),
            Some("/mnt/c/Users/alex/AppData/Local".to_owned()),
            Some("/home/alex/.data".to_owned()),
            "/home/alex".to_owned(),
        ),
        "/srv/akra-state"
    );
}

#[test]
fn windows_uses_local_app_data() {
    let local_app_data = r"C:\Users\alex\AppData\Local";
    assert_eq!(
        resolve_default_data_dir(
            DataPlatform::Windows,
            None,
            Some(local_app_data.to_owned()),
            Some(r"C:\wrong-xdg".to_owned()),
            r"C:\Users\alex".to_owned(),
        ),
        r"C:\Users\alex\AppData\Local\akra-hookers"
    );
    assert_eq!(
        resolve_default_data_dir(DataPlatform::Windows, None, None, None, r"C:\Users\alex".to_owned()),
        r"C:\Users\alex\AppData\Local\akra-hookers"
    );
}

#[test]
fn ubuntu_uses_xdg_and_ignores_inherited_windows_environment() {
    let xdg_data_home = "/home/alex/.data";
    assert_eq!(
        resolve_default_data_dir(
            DataPlatform::Linux,
            None,
            Some("/mnt/c/Users/alex/AppData/Local".to_owned()),
            Some(xdg_data_home.to_owned()),
            "/home/alex".to_owned(),
        ),
        text(PathBuf::from(xdg_data_home).join("akra-hookers"))
    );
    assert_eq!(
        resolve_default_data_dir(
            DataPlatform::Linux,
            None,
            Some("/mnt/c/Users/alex/AppData/Local".to_owned()),
            None,
            "/home/alex".to_owned(),
        ),
        text(
            PathBuf::from("/home/alex")
                .join(".local")
                .join("share")
                .join("akra-hookers")
        )
    );
}

#[test]
fn apple_platforms_use_application_support() {
    for platform in [DataPlatform::MacOs, DataPlatform::Ios] {
        assert_eq!(
            resolve_default_data_dir(
                platform,
                None,
                None,
                Some("/wrong-xdg".to_owned()),
                "/sandbox/home".to_owned(),
            ),
            text(
                PathBuf::from("/sandbox/home")
                    .join("Library")
                    .join("Application Support")
                    .join("akra-hookers")
            )
        );
    }
}

#[test]
fn unix_home_wins_over_an_inherited_windows_profile() {
    let windows_profile = Some(r"C:\Users\alex".to_owned());
    let unix_home = Some("/home/alex".to_owned());
    assert_eq!(
        resolve_user_home(DataPlatform::Linux, windows_profile.clone(), unix_home.clone()),
        "/home/alex"
    );
    assert_eq!(
        resolve_user_home(DataPlatform::Other, windows_profile, unix_home),
        "/home/alex"
    );
}

#[test]
fn windows_home_prefers_the_user_profile() {
    assert_eq!(
        resolve_user_home(
            DataPlatform::Windows,
            Some(r"C:\Users\alex".to_owned()),
            Some("/home/alex".to_owned())
        ),
        r"C:\Users\alex"
    );
}

#[test]
fn wsl_hook_command_calls_the_windows_capture_binary_through_interop() {
    let command = wsl_hook_command(r"C:\tools\akra-hookers.exe", r"C:\state", "Ubuntu-24.04")
        .expect("WSL command");
    assert_eq!(
        command,
        r"'/mnt/c/tools/akra-hookers.exe' capture --data-dir 'C:\state' --wsl-distro 'Ubuntu-24.04'"
    );
}

#[test]
fn wsl_managed_hook_command_carries_its_installation_id() {
    let command = wsl_hook_command_for_target(
        r"C:\tools\akra-hookers.exe",
        r"C:\state",
        "Ubuntu-24.04",
        "wsl:Ubuntu-24.04",
    )
    .expect("WSL command");
    assert_eq!(
        command,
        r"'/mnt/c/tools/akra-hookers.exe' capture --data-dir 'C:\state' --capture-target 'wsl:Ubuntu-24.04' --wsl-distro 'Ubuntu-24.04'"
    );
}

#[test]
fn shared_wsl_hook_command_uses_the_runtime_distro_without_shell_injection() {
    let command = shared_wsl_hook_command(r"C:\tools & apps\akra-hookers.exe", r"C:\state&$()`'")
        .expect("shared WSL command");

    assert_eq!(
        command,
        r#"'/mnt/c/tools & apps/akra-hookers.exe' capture --data-dir 'C:\state&$()`'"'"'' --wsl-distro "${WSL_DISTRO_NAME:?WSL_DISTRO_NAME is unavailable}""#
    );
}

#[test]
fn wsl_working_directories_map_to_windows_accessible_paths() {
    assert_eq!(
        wsl_cwd_to_windows("Ubuntu", "/mnt/c/dev/project").expect("mounted path"),
        r"C:\dev\project"
    );
    assert_eq!(
        wsl_cwd_to_windows("Ubuntu", "/home/akra/project").expect("distro path"),
        r"\\wsl.localhost\Ubuntu\home\akra\project"
    );
}

#[test]
fn hook_command_encodes_shell_metacharacters_as_literal_arguments() {
    let command = windows_hook_command(
        &powershell(),
        r"C:\tools & apps\akra-hookers.exe",
        r"C:\state&$()`'%TEMP%",
    )
    .expect("command");
    assert!(command.starts_with(&format!(
        "{SYSTEM_ROOT}\\System32\\WindowsPowerShell\\v1.0\\powershell.exe "
    )));
    assert_eq!(
        decoded_script(&command),
        r"& 'C:\tools & apps\akra-hookers.exe' capture --data-dir 'C:\state&$()`''%TEMP%'"
    );
}

#[test]
fn managed_hook_command_carries_a_literal_capture_target() {
    let command = windows_hook_command_for_target(
        &powershell(),
        r"C:\tools\akra-hookers.exe",
        r"C:\state",
        "windows-native",
    )
    .expect("command");
    assert_eq!(
        decoded_script(&command),
        r"& 'C:\tools\akra-hookers.exe' capture --data-dir 'C:\state' --capture-target 'windows-native'"
    );
    assert!(matches!(
        windows_hook_command_for_target(
            &powershell(),
            r"C:\tools\akra-hookers.exe",
            r"C:\state",
            "unsafe target",
        ),
        Err(HookCommandError::InvalidCaptureTarget(_))
    ));
}

#[test]
fn managed_hook_commands_carry_the_exact_codex_home() {
    let command = windows_hook_command_for_target_and_home(
        &powershell(),
        r"C:\tools\akra-hookers.exe",
        r"C:\state",
        "windows-custom",
        r"D:\Codex User\.codex",
    )
    .expect("Windows command");
    assert!(decoded_script(&command).contains("--codex-home 'D:\\Codex User\\.codex'"));

    let wsl_command = wsl_hook_command_for_target_and_home(
        r"C:\tools\akra-hookers.exe",
        r"C:\state",
        "Ubuntu",
        "wsl:Ubuntu",
        "/home/alex/.codex-custom",
    )
    .expect("WSL command");
    assert!(wsl_command.contains("--codex-home '/home/alex/.codex-custom'"));
}
