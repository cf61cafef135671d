//! Data-directory resolution and POSIX hook command construction.
//!
//! Paths are carried as text (`String`), joined with POSIX `PathBuf` rules.
use vstd::prelude::*;

use crate::text::{
    chars_of, is_ascii_alphanumeric, is_ascii_alphanumeric_spec, push_all, push_str,
    replace_char, replace_char_spec, string_from_chars, string_push,
};

verus! {

/// Operating-system family whose conventions choose the default data directory.
#[derive(Clone, Copy, Debug, PartialEq, Eq, Structural)]
pub enum DataPlatform {
    Windows,
    Linux,
    MacOs,
    Ios,
    Other,
}

/// Environment values consulted for the default data directory. Each value
/// is already filtered: an empty variable is recorded as `None`.
#[derive(Clone, Debug)]
pub struct DataEnvironment {
    pub configured: Option<String>,
    pub local_app_data: Option<String>,
    pub xdg_data_home: Option<String>,
    pub user_profile: Option<String>,
    pub home: Option<String>,
}

/// Failures while building a capture hook command.
#[derive(Clone, Debug, PartialEq, Eq)]
pub enum HookCommandError {
    NonUnicodePath { path: String },
    MissingSystemRoot,
    UnsafePowerShell(String),
    UnsupportedWslPath(String),
    InvalidWslDistro(String),
    InvalidWslCwd(String),
    InvalidCaptureTarget(String),
}

/// The text of a hook-command error.
pub open spec fn hook_error_message_spec(e: HookCommandError) -> Seq<char> {
    match e {
        HookCommandError::NonUnicodePath { path } => "hook command path is not valid Unicode: "@
            + path@,
        HookCommandError::MissingSystemRoot => "SystemRoot is unavailable; refusing to search for PowerShell"@,
        HookCommandError::UnsafePowerShell(p) => "trusted Windows PowerShell executable is unavailable: "@
            + p@,
        HookCommandError::UnsupportedWslPath(p) => "Windows path cannot be represented inside WSL: "@
            + p@,
        HookCommandError::InvalidWslDistro(d) => "invalid WSL distribution name: "@ + d@,
        HookCommandError::InvalidWslCwd(c) => "WSL working directory is not an absolute Linux path: "@
            + c@,
        HookCommandError::InvalidCaptureTarget(t) => "invalid capture target identifier: "@ + t@,
    }
}

impl HookCommandError {
    /// A copy of this error.
    pub fn duplicate(&self) -> (r: Self)
        ensures
            r == *self,
    {
        match self {
            HookCommandError::NonUnicodePath { path } => HookCommandError::NonUnicodePath {
                path: path.clone(),
            },
            HookCommandError::MissingSystemRoot => HookCommandError::MissingSystemRoot,
            HookCommandError::UnsafePowerShell(p) => HookCommandError::UnsafePowerShell(p.clone()),
            HookCommandError::UnsupportedWslPath(p) => HookCommandError::UnsupportedWslPath(
                p.clone(),
            ),
            HookCommandError::InvalidWslDistro(d) => HookCommandError::InvalidWslDistro(d.clone()),
            HookCommandError::InvalidWslCwd(c) => HookCommandError::InvalidWslCwd(c.clone()),
            HookCommandError::InvalidCaptureTarget(t) => HookCommandError::InvalidCaptureTarget(
                t.clone(),
            ),
        }
    }

    /// The error's message.
    pub fn message(&self) -> (r: String)
        ensures
            r@ == hook_error_message_spec(*self),
    {
        let mut out: Vec<char> = Vec::new();
        match self {
            HookCommandError::NonUnicodePath { path } => {
                push_str(&mut out, "hook command path is not valid Unicode: ");
                push_str(&mut out, path.as_str());
            },
            HookCommandError::MissingSystemRoot => {
                push_str(&mut out, "SystemRoot is unavailable; refusing to search for PowerShell");
            },
            HookCommandError::UnsafePowerShell(p) => {
                push_str(&mut out, "trusted Windows PowerShell executable is unavailable: ");
                push_str(&mut out, p.as_str());
            },
            HookCommandError::UnsupportedWslPath(p) => {
                push_str(&mut out, "Windows path cannot be represented inside WSL: ");
                push_str(&mut out, p.as_str());
            },
            HookCommandError::InvalidWslDistro(d) => {
                push_str(&mut out, "invalid WSL distribution name: ");
                push_str(&mut out, d.as_str());
            },
            HookCommandError::InvalidWslCwd(c) => {
                push_str(&mut out, "WSL working directory is not an absolute Linux path: ");
                push_str(&mut out, c.as_str());
            },
            HookCommandError::InvalidCaptureTarget(t) => {
                push_str(&mut out, "invalid capture target identifier: ");
                push_str(&mut out, t.as_str());
            },
        }
        string_from_chars(out.as_slice())
    }
}

/// `PathBuf::join` on a POSIX host: an absolute component replaces the
/// base, otherwise a `/` is inserted unless the base is empty or already ends
/// with one.
pub open spec fn path_join_spec(base: Seq<char>, name: Seq<char>) -> Seq<char> {
    if name.len() > 0 && name[0] == '/' {
        name
    } else if base.len() == 0 || base.last() == '/' {
        base + name
    } else {
        base + seq!['/'] + name
    }
}

pub fn path_join(base: &str, name: &str) -> (r: String)
    ensures
        r@ == path_join_spec(base@, name@),
{
    let b = chars_of(base);
    let n = chars_of(name);
    if n.len() > 0 && n[0] == '/' {
        return string_from_chars(n.as_slice());
    }
    let mut out = b.clone();
    if !(b.len() == 0 || b[b.len() - 1] == '/') {
        out.push('/');
    }
    push_all(&mut out, n.as_slice());
    proof {
        if !(b@.len() == 0 || b@.last() == '/') {
            assert(out@ == b@ + seq!['/'] + n@);
        }
    }
    string_from_chars(out.as_slice())
}

/// `PathBuf::join` on a Windows host of a plain relative name (no root and
/// no drive prefix): a `\\` is inserted unless the base is empty or already
/// ends with a separator (`\\` or `/`).
pub open spec fn windows_join_spec(base: Seq<char>, name: Seq<char>) -> Seq<char> {
    if base.len() == 0 || base.last() == '\\' || base.last() == '/' {
        base + name
    } else {
        base + seq!['\\'] + name
    }
}

pub fn windows_join(base: &str, name: &str) -> (r: String)
    ensures
        r@ == windows_join_spec(base@, name@),
{
    let b = chars_of(base);
    let n = chars_of(name);
    let mut out = b.clone();
    if !(b.len() == 0 || b[b.len() - 1] == '\\' || b[b.len() - 1] == '/') {
        out.push('\\');
    }
    push_all(&mut out, n.as_slice());
    proof {
        if !(b@.len() == 0 || b@.last() == '\\' || b@.last() == '/') {
            assert(out@ == b@ + seq!['\\'] + n@);
        }
    }
    string_from_chars(out.as_slice())
}

/// A plain relative name joined onto a base as the platform's paths join.
pub open spec fn platform_join_spec(platform: DataPlatform, base: Seq<char>, name: Seq<char>) -> Seq<char> {
    match platform {
        DataPlatform::Windows => windows_join_spec(base, name),
        _ => path_join_spec(base, name),
    }
}

/// An environment value, or `None` when it is unset or empty.
pub open spec fn non_empty_spec(value: Option<Seq<char>>) -> Option<Seq<char>> {
    match value {
        Some(v) => if v.len() > 0 { Some(v) } else { None },
        None => None,
    }
}

pub fn non_empty(value: Option<String>) -> (r: Option<String>)
    ensures
        value is None ==> r is None,
        value matches Some(v) ==> (if v@.len() > 0 { r matches Some(w) && w@ == v@ } else { r is None }),
{
    match value {
        Some(v) => {
            if v.as_str().is_empty() {
                assert(v@.len() == 0);
                None
            } else {
                Some(v)
            }
        },
        None => None,
    }
}

pub open spec fn opt_view(o: Option<String>) -> Option<Seq<char>> {
    match o {
        Some(s) => Some(s@),
        None => None,
    }
}

/// The platform default data directory (before the application directory
/// name is appended).
pub open spec fn data_base_spec(
    platform: DataPlatform,
    local_app_data: Option<Seq<char>>,
    xdg_data_home: Option<Seq<char>>,
    home: Seq<char>,
) -> Seq<char> {
    match platform {
        DataPlatform::Windows => match local_app_data {
            Some(v) => v,
            None => windows_join_spec(windows_join_spec(home, "AppData"@), "Local"@),
        },
        DataPlatform::MacOs | DataPlatform::Ios => path_join_spec(
            path_join_spec(home, "Library"@),
            "Application Support"@,
        ),
        _ => match xdg_data_home {
            Some(v) => v,
            None => path_join_spec(path_join_spec(home, ".local"@), "share"@),
        },
    }
}

/// The data directory: an explicit configuration wins over every platform
/// default.
pub open spec fn default_data_dir_spec(
    platform: DataPlatform,
    configured: Option<Seq<char>>,
    local_app_data: Option<Seq<char>>,
    xdg_data_home: Option<Seq<char>>,
    home: Seq<char>,
) -> Seq<char> {
    match configured {
        Some(c) => c,
        None => platform_join_spec(
            platform,
            data_base_spec(platform, local_app_data, xdg_data_home, home),
            "akra-hookers"@,
        ),
    }
}

/// Chooses the data directory from the environment of `platform`.
pub fn resolve_default_data_dir(
    platform: DataPlatform,
    configured: Option<String>,
    local_app_data: Option<String>,
    xdg_data_home: Option<String>,
    home: String,
) -> (r: String)
    ensures
        r@ == default_data_dir_spec(
            platform,
            opt_view(configured),
            opt_view(local_app_data),
            opt_view(xdg_data_home),
            home@,
        ),
{
    if let Some(configured) = configured {
        return configured;
    }
    let base = match platform {
        DataPlatform::Windows => match local_app_data {
            Some(v) => v,
            None => windows_join(windows_join(home.as_str(), "AppData").as_str(), "Local"),
        },
        DataPlatform::MacOs | DataPlatform::Ios => path_join(
            path_join(home.as_str(), "Library").as_str(),
            "Application Support",
        ),
        _ => match xdg_data_home {
            Some(v) => v,
            None => path_join(path_join(home.as_str(), ".local").as_str(), "share"),
        },
    };
    match platform {
        DataPlatform::Windows => windows_join(base.as_str(), "akra-hookers"),
        _ => path_join(base.as_str(), "akra-hookers"),
    }
}

/// The user's home directory: Windows prefers `USERPROFILE`, every other
/// platform prefers `HOME`; `.` when neither is known.
pub open spec fn user_home_spec(
    platform: DataPlatform,
    user_profile: Option<Seq<char>>,
    home: Option<Seq<char>>,
) -> Seq<char> {
    let first = if platform == DataPlatform::Windows { user_profile } else { home };
    let second = if platform == DataPlatform::Windows { home } else { user_profile };
    match first {
        Some(v) => v,
        None => match second {
            Some(v) => v,
            None => seq!['.'],
        },
    }
}

pub fn resolve_user_home(
    platform: DataPlatform,
    user_profile: Option<String>,
    home: Option<String>,
) -> (r: String)
    ensures
        r@ == user_home_spec(platform, opt_view(user_profile), opt_view(home)),
{
    let (first, second) = match platform {
        DataPlatform::Windows => (user_profile, home),
        _ => (home, user_profile),
    };
    match first {
        Some(v) => v,
        None => match second {
            Some(v) => v,
            None => {
                let mut s = String::new();
                string_push(&mut s, '.');
                assert(s@ =~= seq!['.']);
                s
            },
        },
    }
}

/// The home directory from the (unfiltered) `USERPROFILE` and `HOME` values.
pub fn user_home(platform: DataPlatform, user_profile: Option<String>, home: Option<String>) -> (r:
    String)
    ensures
        r@ == user_home_spec(
            platform,
            non_empty_spec(opt_view(user_profile)),
            non_empty_spec(opt_view(home)),
        ),
{
    let p = non_empty(user_profile);
    let h = non_empty(home);
    resolve_user_home(platform, p, h)
}

/// The default data directory from (unfiltered) environment values.
pub fn default_data_dir(platform: DataPlatform, environment: DataEnvironment) -> (r: String)
    ensures
        r@ == default_data_dir_spec(
            platform,
            non_empty_spec(opt_view(environment.configured)),
            non_empty_spec(opt_view(environment.local_app_data)),
            non_empty_spec(opt_view(environment.xdg_data_home)),
            user_home_spec(
                platform,
                non_empty_spec(opt_view(environment.user_profile)),
                non_empty_spec(opt_view(environment.home)),
            ),
        ),
{
    let home = user_home(platform, environment.user_profile, environment.home);
    resolve_default_data_dir(
        platform,
        non_empty(environment.configured),
        non_empty(environment.local_app_data),
        non_empty(environment.xdg_data_home),
        home,
    )
}

// ---------------------------------------------------------------------------
// POSIX shell quoting and hook commands
// ---------------------------------------------------------------------------

/// The replacement that closes, escapes and reopens a single-quoted word.
pub open spec fn quote_escape() -> Seq<char> {
    seq!['\'', '"', '\'', '"', '\'']
}

/// A single-quoted POSIX shell word denoting exactly `value`.
pub open spec fn posix_quote_spec(value: Seq<char>) -> Seq<char> {
    seq!['\''] + replace_char_spec(value, '\'', quote_escape()) + seq!['\'']
}

pub fn posix_shell_text_argument(value: &str) -> (r: String)
    ensures
        r@ == posix_quote_spec(value@),
{
    let v = chars_of(value);
    let esc: Vec<char> = vec!['\'', '"', '\'', '"', '\''];
    assert(esc@ =~= quote_escape());
    let inner = replace_char(v.as_slice(), '\'', esc.as_slice());
    let mut out: Vec<char> = Vec::new();
    out.push('\'');
    push_all(&mut out, inner.as_slice());
    out.push('\'');
    assert(out@ =~= posix_quote_spec(value@));
    string_from_chars(out.as_slice())
}

/// A path as a quoted POSIX shell word. Every path held as text is valid
/// Unicode, so this cannot fail.
pub fn posix_shell_argument(path: &str) -> (r: Result<String, HookCommandError>)
    ensures
        r matches Ok(s) && s@ == posix_quote_spec(path@),
{
    Ok(posix_shell_text_argument(path))
}

/// Characters allowed in a capture target identifier.
pub open spec fn capture_target_char(c: char) -> bool {
    is_ascii_alphanumeric_spec(c) || c == '.' || c == '_' || c == '-' || c == ':'
}

/// A capture target is 1 to 128 characters drawn from `[A-Za-z0-9._:-]`.
pub open spec fn valid_capture_target_spec(target: Seq<char>) -> bool {
    &&& 0 < target.len() <= 128
    &&& forall|i: int| 0 <= i < target.len() ==> capture_target_char(#[trigger] target[i])
}

pub fn validate_capture_target(target: &str) -> (r: Result<(), HookCommandError>)
    ensures
        r is Ok <==> valid_capture_target_spec(target@),
        r is Err ==> (r matches Err(HookCommandError::InvalidCaptureTarget(t)) && t@ == target@),
{
    let t = chars_of(target);
    let mut ok = t.len() > 0 && t.len() <= 128;
    let mut i: usize = 0;
    while i < t.len()
        invariant
            i <= t@.len(),
            t@ == target@,
            ok == (0 < t@.len() <= 128 && forall|j: int| 0 <= j < i ==> capture_target_char(
                #[trigger] t@[j],
            )),
        decreases t.len() - i,
    {
        let c = t[i];
        let allowed = is_ascii_alphanumeric(c) || c == '.' || c == '_' || c == '-' || c == ':';
        proof {
            if !allowed {
                assert(!capture_target_char(t@[i as int]));
            }
        }
        ok = ok && allowed;
        i = i + 1;
    }
    if ok {
        Ok(())
    } else {
        Err(HookCommandError::InvalidCaptureTarget(target.to_owned()))
    }
}

/// An optional ` --flag 'value'` suffix.
pub open spec fn flag_spec(flag: Seq<char>, value: Option<Seq<char>>) -> Seq<char> {
    match value {
        Some(v) => flag + posix_quote_spec(v),
        None => Seq::empty(),
    }
}

/// The POSIX capture command for an executable and data directory.
pub open spec fn posix_hook_command_spec(
    executable: Seq<char>,
    data_dir: Seq<char>,
    capture_target: Option<Seq<char>>,
    codex_home: Option<Seq<char>>,
) -> Seq<char> {
    posix_quote_spec(executable) + " capture --data-dir "@ + posix_quote_spec(data_dir)
        + flag_spec(" --capture-target "@, capture_target) + flag_spec(
        " --codex-home "@,
        codex_home,
    )
}

pub open spec fn opt_str_view(o: Option<&str>) -> Option<Seq<char>> {
    match o {
        Some(s) => Some(s@),
        None => None,
    }
}

/// Appends ` <flag> 'value'` when a value is present.
pub fn push_quoted_flag(out: &mut Vec<char>, flag: &str, value: Option<&str>)
    ensures
        final(out)@ == old(out)@ + flag_spec(flag@, opt_str_view(value)),
{
    match value {
        Some(v) => {
            push_str(out, flag);
            let q = posix_shell_text_argument(v);
            push_str(out, q.as_str());
            assert(final(out)@ =~= old(out)@ + flag_spec(flag@, opt_str_view(value)));
        },
        None => {
            assert(old(out)@ + flag_spec(flag@, opt_str_view(value)) =~= old(out)@);
        },
    }
}

pub fn hook_command_with_target(
    executable: &str,
    data_dir: &str,
    capture_target: Option<&str>,
    codex_home: Option<&str>,
) -> (r: Result<String, HookCommandError>)
    ensures
        r matches Ok(s) && s@ == posix_hook_command_spec(
            executable@,
            data_dir@,
            opt_str_view(capture_target),
            opt_str_view(codex_home),
        ),
{
    let mut out: Vec<char> = Vec::new();
    let exe = posix_shell_argument(executable)?;
    let data = posix_shell_argument(data_dir)?;
    push_str(&mut out, exe.as_str());
    push_str(&mut out, " capture --data-dir ");
    push_str(&mut out, data.as_str());
    push_quoted_flag(&mut out, " --capture-target ", capture_target);
    push_quoted_flag(&mut out, " --codex-home ", codex_home);
    assert(out@ =~= posix_hook_command_spec(
        executable@,
        data_dir@,
        opt_str_view(capture_target),
        opt_str_view(codex_home),
    ));
    Ok(string_from_chars(out.as_slice()))
}

/// The capture command for `executable` writing into `data_dir`.
pub fn hook_command(executable: &str, data_dir: &str) -> (r: Result<String, HookCommandError>)
    ensures
        r matches Ok(s) && s@ == posix_hook_command_spec(executable@, data_dir@, None, None),
{
    hook_command_with_target(executable, data_dir, None, None)
}

/// The capture command tagged with a capture target; fails exactly when the
/// target is not a valid identifier.
pub fn hook_command_for_target(executable: &str, data_dir: &str, capture_target: &str) -> (r:
    Result<String, HookCommandError>)
    ensures
        valid_capture_target_spec(capture_target@) ==> (r matches Ok(s) && s@
            == posix_hook_command_spec(executable@, data_dir@, Some(capture_target@), None)),
        !valid_capture_target_spec(capture_target@) ==> (r matches Err(
            HookCommandError::InvalidCaptureTarget(t),
        ) && t@ == capture_target@),
{
    validate_capture_target(capture_target)?;
    hook_command_with_target(executable, data_dir, Some(capture_target), None)
}

/// The capture command tagged with a capture target and the exact Codex home.
pub fn hook_command_for_target_and_home(
    executable: &str,
    data_dir: &str,
    capture_target: &str,
    codex_home: &str,
) -> (r: Result<String, HookCommandError>)
    ensures
        valid_capture_target_spec(capture_target@) ==> (r matches Ok(s) && s@
            == posix_hook_command_spec(
            executable@,
            data_dir@,
            Some(capture_target@),
            Some(codex_home@),
        )),
        !valid_capture_target_spec(capture_target@) ==> (r matches Err(
            HookCommandError::InvalidCaptureTarget(t),
        ) && t@ == capture_target@),
{
    validate_capture_target(capture_target)?;
    hook_command_with_target(executable, data_dir, Some(capture_target), Some(codex_home))
}

} // verus!
