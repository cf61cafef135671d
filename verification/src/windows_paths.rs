//! Hook commands for Windows installations: PowerShell encoded commands for
//! native Codex, and interop commands run from WSL distributions.
use base64::Engine;
use vstd::prelude::*;

use crate::paths::{
    flag_spec, opt_str_view, posix_quote_spec, posix_shell_text_argument, push_quoted_flag,
    valid_capture_target_spec, validate_capture_target, HookCommandError,
};
use crate::text::{
    chars_of, concat_map, first_occurrence, find_from, is_ascii_alpha, is_ascii_alpha_spec,
    is_ascii_alphanumeric, is_ascii_alphanumeric_spec, is_whitespace, is_whitespace_spec,
    lemma_concat_map_take, lemma_first_occurrence_from, occurs_at, push_all, push_str,
    replace_char, replace_char_spec, starts_with_spec, starts_with_str, string_from_chars,
    sub_vec, to_ascii_lower, to_ascii_lower_spec, to_ascii_upper, to_ascii_upper_spec,
};

verus! {

// ---------------------------------------------------------------------------
// UTF-16LE and Base64
// ---------------------------------------------------------------------------

/// The UTF-16 little-endian bytes of one character.
pub open spec fn utf16le_of_char(c: char) -> Seq<u8> {
    let v = c as u32;
    if v < 0x10000 {
        seq![(v % 256) as u8, (v / 256) as u8]
    } else {
        let w = (v - 0x10000) as u32;
        let hi = (0xD800 + w / 0x400) as u32;
        let lo = (0xDC00 + w % 0x400) as u32;
        seq![(hi % 256) as u8, (hi / 256) as u8, (lo % 256) as u8, (lo / 256) as u8]
    }
}

/// The UTF-16 little-endian encoding of a character sequence.
pub open spec fn utf16le_spec(s: Seq<char>) -> Seq<u8> {
    concat_map(s, |c: char| utf16le_of_char(c))
}

pub fn utf16le_bytes(s: &str) -> (r: Vec<u8>)
    ensures
        r@ == utf16le_spec(s@),
{
    let ghost f = |c: char| utf16le_of_char(c);
    let v = chars_of(s);
    let mut out: Vec<u8> = Vec::new();
    let mut i: usize = 0;
    while i < v.len()
        invariant
            i <= v@.len(),
            v@ == s@,
            f == (|c: char| utf16le_of_char(c)),
            out@ == concat_map(v@.take(i as int), f),
        decreases v.len() - i,
    {
        proof {
            lemma_concat_map_take(v@, i as int, f);
        }
        let c = v[i];
        let cv: u32 = c as u32;
        if cv < 0x10000 {
            out.push((cv % 256) as u8);
            out.push((cv / 256) as u8);
        } else {
            let w: u32 = cv - 0x10000;
            let hi: u32 = 0xD800 + w / 0x400;
            let lo: u32 = 0xDC00 + w % 0x400;
            out.push((hi % 256) as u8);
            out.push((hi / 256) as u8);
            out.push((lo % 256) as u8);
            out.push((lo / 256) as u8);
        }
        assert(out@ =~= concat_map(v@.take(i as int), f) + f(v@[i as int]));
        i = i + 1;
    }
    assert(v@.take(v.len() as int) =~= v@);
    out
}

/// The character of the standard Base64 alphabet at `index` (0..64).
pub open spec fn base64_alphabet(index: int) -> char {
    if index < 26 {
        (('A' as u32) + index) as char
    } else if index < 52 {
        (('a' as u32) + (index - 26)) as char
    } else if index < 62 {
        (('0' as u32) + (index - 52)) as char
    } else if index == 62 {
        '+'
    } else {
        '/'
    }
}

/// Standard Base64 (RFC 4648, section 4) with `=` padding.
pub open spec fn base64_spec(b: Seq<u8>) -> Seq<char>
    decreases b.len(),
{
    if b.len() == 0 {
        Seq::empty()
    } else if b.len() == 1 {
        let b0 = b[0] as int;
        seq![base64_alphabet(b0 / 4), base64_alphabet((b0 % 4) * 16), '=', '=']
    } else if b.len() == 2 {
        let b0 = b[0] as int;
        let b1 = b[1] as int;
        seq![
            base64_alphabet(b0 / 4),
            base64_alphabet((b0 % 4) * 16 + b1 / 16),
            base64_alphabet((b1 % 16) * 4),
            '=',
        ]
    } else {
        let b0 = b[0] as int;
        let b1 = b[1] as int;
        let b2 = b[2] as int;
        seq![
            base64_alphabet(b0 / 4),
            base64_alphabet((b0 % 4) * 16 + b1 / 16),
            base64_alphabet((b1 % 16) * 4 + b2 / 64),
            base64_alphabet(b2 % 64),
        ] + base64_spec(b.skip(3))
    }
}

/// `base64::engine::general_purpose::STANDARD.encode`: the padded standard
/// Base64 text of `bytes`, as RFC 4648 section 4 defines it.
#[verifier::external_body]
fn base64_standard_encode(bytes: &[u8]) -> (r: String)
    ensures
        r@ == base64_spec(bytes@),
{
    base64::engine::general_purpose::STANDARD.encode(bytes)
}

// ---------------------------------------------------------------------------
// PowerShell commands
// ---------------------------------------------------------------------------

/// A single-quoted PowerShell string literal denoting exactly `value`.
pub open spec fn powershell_quote_spec(value: Seq<char>) -> Seq<char> {
    seq!['\''] + replace_char_spec(value, '\'', seq!['\'', '\'']) + seq!['\'']
}

pub fn powershell_text_literal(value: &str) -> (r: String)
    ensures
        r@ == powershell_quote_spec(value@),
{
    let v = chars_of(value);
    let esc: Vec<char> = vec!['\'', '\''];
    let inner = replace_char(v.as_slice(), '\'', esc.as_slice());
    let mut out: Vec<char> = Vec::new();
    out.push('\'');
    push_all(&mut out, inner.as_slice());
    out.push('\'');
    assert(esc@ =~= seq!['\'', '\'']);
    assert(out@ =~= powershell_quote_spec(value@));
    string_from_chars(out.as_slice())
}

/// A path as a PowerShell literal; every path held as text is valid Unicode.
pub fn powershell_literal(path: &str) -> (r: Result<String, HookCommandError>)
    ensures
        r matches Ok(s) && s@ == powershell_quote_spec(path@),
{
    Ok(powershell_text_literal(path))
}

/// An optional ` --flag 'value'` suffix in PowerShell quoting.
pub open spec fn ps_flag_spec(flag: Seq<char>, value: Option<Seq<char>>) -> Seq<char> {
    match value {
        Some(v) => flag + powershell_quote_spec(v),
        None => Seq::empty(),
    }
}

fn push_ps_flag(out: &mut Vec<char>, flag: &str, value: Option<&str>)
    ensures
        final(out)@ == old(out)@ + ps_flag_spec(flag@, opt_str_view(value)),
{
    match value {
        Some(v) => {
            push_str(out, flag);
            let q = powershell_text_literal(v);
            push_str(out, q.as_str());
            assert(final(out)@ =~= old(out)@ + ps_flag_spec(flag@, opt_str_view(value)));
        },
        None => {
            assert(old(out)@ + ps_flag_spec(flag@, opt_str_view(value)) =~= old(out)@);
        },
    }
}

/// The PowerShell script that runs the capture binary.
pub open spec fn capture_script_spec(
    executable: Seq<char>,
    data_dir: Seq<char>,
    wsl_distro: Option<Seq<char>>,
    capture_target: Option<Seq<char>>,
    codex_home: Option<Seq<char>>,
) -> Seq<char> {
    "& "@ + powershell_quote_spec(executable) + " capture --data-dir "@ + powershell_quote_spec(
        data_dir,
    ) + ps_flag_spec(" --capture-target "@, capture_target) + ps_flag_spec(
        " --codex-home "@,
        codex_home,
    ) + ps_flag_spec(" --wsl-distro "@, wsl_distro)
}

pub fn capture_script(
    executable: &str,
    data_dir: &str,
    wsl_distro: Option<&str>,
    capture_target: Option<&str>,
    codex_home: Option<&str>,
) -> (r: String)
    ensures
        r@ == capture_script_spec(
            executable@,
            data_dir@,
            opt_str_view(wsl_distro),
            opt_str_view(capture_target),
            opt_str_view(codex_home),
        ),
{
    let mut out: Vec<char> = Vec::new();
    push_str(&mut out, "& ");
    let exe = powershell_text_literal(executable);
    push_str(&mut out, exe.as_str());
    push_str(&mut out, " capture --data-dir ");
    let data = powershell_text_literal(data_dir);
    push_str(&mut out, data.as_str());
    push_ps_flag(&mut out, " --capture-target ", capture_target);
    push_ps_flag(&mut out, " --codex-home ", codex_home);
    push_ps_flag(&mut out, " --wsl-distro ", wsl_distro);
    assert(out@ =~= capture_script_spec(
        executable@,
        data_dir@,
        opt_str_view(wsl_distro),
        opt_str_view(capture_target),
        opt_str_view(codex_home),
    ));
    string_from_chars(out.as_slice())
}

/// The capture script as a PowerShell `-EncodedCommand` argument: Base64 of
/// its UTF-16LE bytes.
pub fn encoded_capture_script(
    executable: &str,
    data_dir: &str,
    wsl_distro: Option<&str>,
    capture_target: Option<&str>,
    codex_home: Option<&str>,
) -> (r: Result<String, HookCommandError>)
    ensures
        r matches Ok(s) && s@ == base64_spec(
            utf16le_spec(
                capture_script_spec(
                    executable@,
                    data_dir@,
                    opt_str_view(wsl_distro),
                    opt_str_view(capture_target),
                    opt_str_view(codex_home),
                ),
            ),
        ),
{
    let script = capture_script(executable, data_dir, wsl_distro, capture_target, codex_home);
    let bytes = utf16le_bytes(script.as_str());
    Ok(base64_standard_encode(bytes.as_slice()))
}

/// Characters that make a PowerShell executable path unsafe to run unquoted.
pub open spec fn unsafe_executable_char(c: char) -> bool {
    is_whitespace_spec(c) || c == '"' || c == '%' || c == '!' || c == '&' || c == '|' || c
        == '<' || c == '>' || c == '(' || c == ')' || c == '^'
}

pub open spec fn safe_executable_spec(path: Seq<char>) -> bool {
    forall|i: int| 0 <= i < path.len() ==> !unsafe_executable_char(#[trigger] path[i])
}

/// The executable path as the first word of a command line; rejected when it
/// holds whitespace or shell metacharacters.
pub fn windows_executable_argument(path: &str) -> (r: Result<String, HookCommandError>)
    ensures
        safe_executable_spec(path@) ==> (r matches Ok(s) && s@ == path@),
        !safe_executable_spec(path@) ==> (r matches Err(HookCommandError::UnsafePowerShell(p))
            && p@ == path@),
{
    let v = chars_of(path);
    let mut i: usize = 0;
    while i < v.len()
        invariant
            i <= v@.len(),
            v@ == path@,
            forall|j: int| 0 <= j < i ==> !unsafe_executable_char(#[trigger] v@[j]),
        decreases v.len() - i,
    {
        let c = v[i];
        if is_whitespace(c) || c == '"' || c == '%' || c == '!' || c == '&' || c == '|' || c
            == '<' || c == '>' || c == '(' || c == ')' || c == '^' {
            assert(unsafe_executable_char(path@[i as int]));
            return Err(HookCommandError::UnsafePowerShell(path.to_owned()));
        }
        i = i + 1;
    }
    Ok(path.to_owned())
}

/// The native Windows hook command line.
pub open spec fn windows_hook_command_spec(
    powershell: Seq<char>,
    executable: Seq<char>,
    data_dir: Seq<char>,
    capture_target: Option<Seq<char>>,
    codex_home: Option<Seq<char>>,
) -> Seq<char> {
    powershell + " -NoLogo -NoProfile -NonInteractive -ExecutionPolicy Bypass -EncodedCommand "@
        + base64_spec(
        utf16le_spec(capture_script_spec(executable, data_dir, None, capture_target, codex_home)),
    )
}

/// Builds the native command around the located `powershell.exe`.
pub fn hook_command_with_target(
    powershell: &str,
    executable: &str,
    data_dir: &str,
    capture_target: Option<&str>,
    codex_home: Option<&str>,
) -> (r: Result<String, HookCommandError>)
    ensures
        safe_executable_spec(powershell@) ==> (r matches Ok(s) && s@ == windows_hook_command_spec(
            powershell@,
            executable@,
            data_dir@,
            opt_str_view(capture_target),
            opt_str_view(codex_home),
        )),
        !safe_executable_spec(powershell@) ==> (r matches Err(
            HookCommandError::UnsafePowerShell(p),
        ) && p@ == powershell@),
{
    let encoded = encoded_capture_script(executable, data_dir, None, capture_target, codex_home)?;
    let ps = windows_executable_argument(powershell)?;
    let mut out: Vec<char> = Vec::new();
    push_str(&mut out, ps.as_str());
    push_str(&mut out, " -NoLogo -NoProfile -NonInteractive -ExecutionPolicy Bypass -EncodedCommand ");
    push_str(&mut out, encoded.as_str());
    Ok(string_from_chars(out.as_slice()))
}

/// The native command without a capture target.
pub fn hook_command(powershell: &str, executable: &str, data_dir: &str) -> (r: Result<
    String,
    HookCommandError,
>)
    ensures
        safe_executable_spec(powershell@) ==> (r matches Ok(s) && s@ == windows_hook_command_spec(
            powershell@,
            executable@,
            data_dir@,
            None,
            None,
        )),
        !safe_executable_spec(powershell@) ==> r is Err,
{
    hook_command_with_target(powershell, executable, data_dir, None, None)
}

/// The native command carrying a capture target.
pub fn hook_command_for_target(
    powershell: &str,
    executable: &str,
    data_dir: &str,
    capture_target: &str,
) -> (r: Result<String, HookCommandError>)
    ensures
        !valid_capture_target_spec(capture_target@) ==> (r matches Err(
            HookCommandError::InvalidCaptureTarget(t),
        ) && t@ == capture_target@),
        valid_capture_target_spec(capture_target@) && safe_executable_spec(powershell@) ==> (r matches Ok(
            s,
        ) && s@ == windows_hook_command_spec(
            powershell@,
            executable@,
            data_dir@,
            Some(capture_target@),
            None,
        )),
        valid_capture_target_spec(capture_target@) && !safe_executable_spec(powershell@)
            ==> (r matches Err(HookCommandError::UnsafePowerShell(p)) && p@ == powershell@),
{
    validate_capture_target(capture_target)?;
    hook_command_with_target(powershell, executable, data_dir, Some(capture_target), None)
}

/// The native command carrying a capture target and the exact Codex home.
pub fn hook_command_for_target_and_home(
    powershell: &str,
    executable: &str,
    data_dir: &str,
    capture_target: &str,
    codex_home: &str,
) -> (r: Result<String, HookCommandError>)
    ensures
        !valid_capture_target_spec(capture_target@) ==> (r matches Err(
            HookCommandError::InvalidCaptureTarget(t),
        ) && t@ == capture_target@),
        valid_capture_target_spec(capture_target@) && safe_executable_spec(powershell@) ==> (r matches Ok(
            s,
        ) && s@ == windows_hook_command_spec(
            powershell@,
            executable@,
            data_dir@,
            Some(capture_target@),
            Some(codex_home@),
        )),
        valid_capture_target_spec(capture_target@) && !safe_executable_spec(powershell@)
            ==> (r matches Err(HookCommandError::UnsafePowerShell(p)) && p@ == powershell@),
{
    validate_capture_target(capture_target)?;
    hook_command_with_target(
        powershell,
        executable,
        data_dir,
        Some(capture_target),
        Some(codex_home),
    )
}

// ---------------------------------------------------------------------------
// WSL paths and commands
// ---------------------------------------------------------------------------

/// A drive-letter Windows path as its `/mnt/<drive>/` WSL mount path.
pub open spec fn windows_path_to_wsl_spec(p: Seq<char>) -> Option<Seq<char>> {
    if p.len() >= 3 && p[1] == ':' && (p[2] == '\\' || p[2] == '/') && is_ascii_alpha_spec(p[0]) {
        Some(
            "/mnt/"@ + seq![to_ascii_lower_spec(p[0]), '/'] + replace_char_spec(
                p.skip(3),
                '\\',
                seq!['/'],
            ),
        )
    } else {
        None
    }
}

pub fn windows_path_to_wsl(path: &str) -> (r: Result<String, HookCommandError>)
    ensures
        windows_path_to_wsl_spec(path@) matches Some(w) ==> (r matches Ok(s) && s@ == w),
        windows_path_to_wsl_spec(path@) is None ==> (r matches Err(
            HookCommandError::UnsupportedWslPath(p),
        ) && p@ == path@),
{
    let v = chars_of(path);
    if v.len() < 3 || v[1] != ':' || !(v[2] == '\\' || v[2] == '/') || !is_ascii_alpha(v[0]) {
        return Err(HookCommandError::UnsupportedWslPath(path.to_owned()));
    }
    let rest = sub_vec(v.as_slice(), 3, v.len());
    let slash: Vec<char> = vec!['/'];
    let rest = replace_char(rest.as_slice(), '\\', slash.as_slice());
    let mut out: Vec<char> = Vec::new();
    push_str(&mut out, "/mnt/");
    out.push(to_ascii_lower(v[0]));
    out.push('/');
    push_all(&mut out, rest.as_slice());
    assert(slash@ =~= seq!['/']);
    assert(v@.subrange(3, v@.len() as int) =~= v@.skip(3));
    assert(out@ =~= windows_path_to_wsl_spec(path@)->0);
    Ok(string_from_chars(out.as_slice()))
}

/// Characters allowed in a WSL distribution name.
pub open spec fn distro_char(c: char) -> bool {
    is_ascii_alphanumeric_spec(c) || c == '.' || c == '_' || c == '-'
}

/// A distribution name is non-empty and drawn from `[A-Za-z0-9._-]`.
pub open spec fn valid_wsl_distro_spec(distro: Seq<char>) -> bool {
    &&& distro.len() > 0
    &&& forall|i: int| 0 <= i < distro.len() ==> distro_char(#[trigger] distro[i])
}

/// Whether every character is allowed in a distribution name (shared with
/// the summary runtime's validation).
pub fn is_valid_distro_name(distro: &str) -> (r: bool)
    ensures
        r == valid_wsl_distro_spec(distro@),
{
    let v = chars_of(distro);
    if v.len() == 0 {
        return false;
    }
    let mut i: usize = 0;
    while i < v.len()
        invariant
            i <= v@.len(),
            v@ == distro@,
            forall|j: int| 0 <= j < i ==> distro_char(#[trigger] v@[j]),
        decreases v.len() - i,
    {
        let c = v[i];
        if !(is_ascii_alphanumeric(c) || c == '.' || c == '_' || c == '-') {
            assert(!distro_char(distro@[i as int]));
            return false;
        }
        i = i + 1;
    }
    true
}

pub fn validate_wsl_distro(distro: &str) -> (r: Result<(), HookCommandError>)
    ensures
        r is Ok <==> valid_wsl_distro_spec(distro@),
        r is Err ==> (r matches Err(HookCommandError::InvalidWslDistro(d)) && d@ == distro@),
{
    if is_valid_distro_name(distro) {
        Ok(())
    } else {
        Err(HookCommandError::InvalidWslDistro(distro.to_owned()))
    }
}

/// The WSL command that calls the Windows capture binary through interop.
pub open spec fn wsl_hook_command_spec(
    wsl_executable: Seq<char>,
    data_dir: Seq<char>,
    distro: Seq<char>,
    capture_target: Option<Seq<char>>,
    codex_home: Option<Seq<char>>,
) -> Seq<char> {
    posix_quote_spec(wsl_executable) + " capture --data-dir "@ + posix_quote_spec(data_dir)
        + flag_spec(" --capture-target "@, capture_target) + flag_spec(
        " --codex-home "@,
        codex_home,
    ) + " --wsl-distro "@ + posix_quote_spec(distro)
}

/// The command's result: an invalid distribution or executable path fails,
/// in that order.
pub open spec fn wsl_hook_result_ok(executable: Seq<char>, distro: Seq<char>) -> bool {
    valid_wsl_distro_spec(distro) && windows_path_to_wsl_spec(executable) is Some
}

pub fn wsl_hook_command_with_target(
    executable: &str,
    data_dir: &str,
    distro: &str,
    capture_target: Option<&str>,
    codex_home: Option<&str>,
) -> (r: Result<String, HookCommandError>)
    ensures
        wsl_hook_result_ok(executable@, distro@) ==> (r matches Ok(s) && s@
            == wsl_hook_command_spec(
            windows_path_to_wsl_spec(executable@)->0,
            data_dir@,
            distro@,
            opt_str_view(capture_target),
            opt_str_view(codex_home),
        )),
        !valid_wsl_distro_spec(distro@) ==> (r matches Err(HookCommandError::InvalidWslDistro(d))
            && d@ == distro@),
        valid_wsl_distro_spec(distro@) && windows_path_to_wsl_spec(executable@) is None ==> (r matches Err(
            HookCommandError::UnsupportedWslPath(p),
        ) && p@ == executable@),
{
    validate_wsl_distro(distro)?;
    let wsl_exe = windows_path_to_wsl(executable)?;
    let mut out: Vec<char> = Vec::new();
    let q = posix_shell_text_argument(wsl_exe.as_str());
    push_str(&mut out, q.as_str());
    push_str(&mut out, " capture --data-dir ");
    let d = posix_shell_text_argument(data_dir);
    push_str(&mut out, d.as_str());
    push_quoted_flag(&mut out, " --capture-target ", capture_target);
    push_quoted_flag(&mut out, " --codex-home ", codex_home);
    push_str(&mut out, " --wsl-distro ");
    let dq = posix_shell_text_argument(distro);
    push_str(&mut out, dq.as_str());
    assert(out@ =~= wsl_hook_command_spec(
        windows_path_to_wsl_spec(executable@)->0,
        data_dir@,
        distro@,
        opt_str_view(capture_target),
        opt_str_view(codex_home),
    ));
    Ok(string_from_chars(out.as_slice()))
}

pub fn wsl_hook_command(executable: &str, data_dir: &str, distro: &str) -> (r: Result<
    String,
    HookCommandError,
>)
    ensures
        wsl_hook_result_ok(executable@, distro@) ==> (r matches Ok(s) && s@
            == wsl_hook_command_spec(
            windows_path_to_wsl_spec(executable@)->0,
            data_dir@,
            distro@,
            None,
            None,
        )),
        !wsl_hook_result_ok(executable@, distro@) ==> r is Err,
{
    wsl_hook_command_with_target(executable, data_dir, distro, None, None)
}

pub fn wsl_hook_command_for_target(
    executable: &str,
    data_dir: &str,
    distro: &str,
    capture_target: &str,
) -> (r: Result<String, HookCommandError>)
    ensures
        valid_capture_target_spec(capture_target@) && wsl_hook_result_ok(executable@, distro@)
            ==> (r matches Ok(s) && s@ == wsl_hook_command_spec(
            windows_path_to_wsl_spec(executable@)->0,
            data_dir@,
            distro@,
            Some(capture_target@),
            None,
        )),
        !valid_capture_target_spec(capture_target@) ==> (r matches Err(
            HookCommandError::InvalidCaptureTarget(t),
        ) && t@ == capture_target@),
        !wsl_hook_result_ok(executable@, distro@) ==> r is Err,
{
    validate_capture_target(capture_target)?;
    wsl_hook_command_with_target(executable, data_dir, distro, Some(capture_target), None)
}

pub fn wsl_hook_command_for_target_and_home(
    executable: &str,
    data_dir: &str,
    distro: &str,
    capture_target: &str,
    codex_home: &str,
) -> (r: Result<String, HookCommandError>)
    ensures
        valid_capture_target_spec(capture_target@) && wsl_hook_result_ok(executable@, distro@)
            ==> (r matches Ok(s) && s@ == wsl_hook_command_spec(
            windows_path_to_wsl_spec(executable@)->0,
            data_dir@,
            distro@,
            Some(capture_target@),
            Some(codex_home@),
        )),
        !valid_capture_target_spec(capture_target@) ==> (r matches Err(
            HookCommandError::InvalidCaptureTarget(t),
        ) && t@ == capture_target@),
        !wsl_hook_result_ok(executable@, distro@) ==> r is Err,
{
    validate_capture_target(capture_target)?;
    wsl_hook_command_with_target(
        executable,
        data_dir,
        distro,
        Some(capture_target),
        Some(codex_home),
    )
}

/// The distribution word of the shared command: resolved by the shell at run
/// time from `WSL_DISTRO_NAME`, failing loudly when it is unset.
pub open spec fn runtime_distro_word() -> Seq<char> {
    " --wsl-distro \"${WSL_DISTRO_NAME:?WSL_DISTRO_NAME is unavailable}\""@
}

/// The command for a Codex home shared by Windows and every WSL distribution.
pub open spec fn shared_wsl_hook_command_spec(
    wsl_executable: Seq<char>,
    data_dir: Seq<char>,
    capture_target: Option<Seq<char>>,
    codex_home: Option<Seq<char>>,
) -> Seq<char> {
    posix_quote_spec(wsl_executable) + " capture --data-dir "@ + posix_quote_spec(data_dir)
        + flag_spec(" --capture-target "@, capture_target) + flag_spec(
        " --codex-home "@,
        codex_home,
    ) + runtime_distro_word()
}

pub fn shared_wsl_hook_command_with_target(
    executable: &str,
    data_dir: &str,
    capture_target: Option<&str>,
    codex_home: Option<&str>,
) -> (r: Result<String, HookCommandError>)
    ensures
        windows_path_to_wsl_spec(executable@) matches Some(w) ==> (r matches Ok(s) && s@
            == shared_wsl_hook_command_spec(
            w,
            data_dir@,
            opt_str_view(capture_target),
            opt_str_view(codex_home),
        )),
        windows_path_to_wsl_spec(executable@) is None ==> (r matches Err(
            HookCommandError::UnsupportedWslPath(p),
        ) && p@ == executable@),
{
    let wsl_exe = windows_path_to_wsl(executable)?;
    let mut out: Vec<char> = Vec::new();
    let q = posix_shell_text_argument(wsl_exe.as_str());
    push_str(&mut out, q.as_str());
    push_str(&mut out, " capture --data-dir ");
    let d = posix_shell_text_argument(data_dir);
    push_str(&mut out, d.as_str());
    push_quoted_flag(&mut out, " --capture-target ", capture_target);
    push_quoted_flag(&mut out, " --codex-home ", codex_home);
    push_str(&mut out, " --wsl-distro \"${WSL_DISTRO_NAME:?WSL_DISTRO_NAME is unavailable}\"");
    assert(out@ =~= shared_wsl_hook_command_spec(
        windows_path_to_wsl_spec(executable@)->0,
        data_dir@,
        opt_str_view(capture_target),
        opt_str_view(codex_home),
    ));
    Ok(string_from_chars(out.as_slice()))
}

pub fn shared_wsl_hook_command(executable: &str, data_dir: &str) -> (r: Result<
    String,
    HookCommandError,
>)
    ensures
        windows_path_to_wsl_spec(executable@) matches Some(w) ==> (r matches Ok(s) && s@
            == shared_wsl_hook_command_spec(w, data_dir@, None, None)),
        windows_path_to_wsl_spec(executable@) is None ==> r is Err,
{
    shared_wsl_hook_command_with_target(executable, data_dir, None, None)
}

pub fn shared_wsl_hook_command_for_target(
    executable: &str,
    data_dir: &str,
    capture_target: &str,
) -> (r: Result<String, HookCommandError>)
    ensures
        valid_capture_target_spec(capture_target@) ==> (windows_path_to_wsl_spec(
            executable@,
        ) matches Some(w) ==> (r matches Ok(s) && s@ == shared_wsl_hook_command_spec(
            w,
            data_dir@,
            Some(capture_target@),
            None,
        ))),
        !valid_capture_target_spec(capture_target@) ==> (r matches Err(
            HookCommandError::InvalidCaptureTarget(t),
        ) && t@ == capture_target@),
        windows_path_to_wsl_spec(executable@) is None ==> r is Err,
        valid_capture_target_spec(capture_target@) && windows_path_to_wsl_spec(executable@) is None
            ==> (r matches Err(HookCommandError::UnsupportedWslPath(p)) && p@ == executable@),
{
    validate_capture_target(capture_target)?;
    shared_wsl_hook_command_with_target(executable, data_dir, Some(capture_target), None)
}

pub fn shared_wsl_hook_command_for_target_and_home(
    executable: &str,
    data_dir: &str,
    capture_target: &str,
    codex_home: &str,
) -> (r: Result<String, HookCommandError>)
    ensures
        valid_capture_target_spec(capture_target@) ==> (windows_path_to_wsl_spec(
            executable@,
        ) matches Some(w) ==> (r matches Ok(s) && s@ == shared_wsl_hook_command_spec(
            w,
            data_dir@,
            Some(capture_target@),
            Some(codex_home@),
        ))),
        !valid_capture_target_spec(capture_target@) ==> (r matches Err(
            HookCommandError::InvalidCaptureTarget(t),
        ) && t@ == capture_target@),
        windows_path_to_wsl_spec(executable@) is None ==> r is Err,
        valid_capture_target_spec(capture_target@) && windows_path_to_wsl_spec(executable@) is None
            ==> (r matches Err(HookCommandError::UnsupportedWslPath(p)) && p@ == executable@),
{
    validate_capture_target(capture_target)?;
    shared_wsl_hook_command_with_target(
        executable,
        data_dir,
        Some(capture_target),
        Some(codex_home),
    )
}

/// `s` with every leading `c` removed (`str::trim_start_matches`).
pub open spec fn trim_start_char_spec(s: Seq<char>, c: char) -> Seq<char>
    decreases s.len(),
{
    if s.len() > 0 && s[0] == c {
        trim_start_char_spec(s.drop_first(), c)
    } else {
        s
    }
}

proof fn lemma_trim_start_char(s: Seq<char>, c: char, i: int)
    requires
        0 <= i <= s.len(),
        forall|j: int| 0 <= j < i ==> #[trigger] s[j] == c,
        i == s.len() || s[i] != c,
    ensures
        trim_start_char_spec(s, c) == s.skip(i),
    decreases i,
{
    if i > 0 {
        assert(s.drop_first().skip(i - 1) =~= s.skip(i));
        assert forall|j: int| 0 <= j < i - 1 implies #[trigger] s.drop_first()[j] == c by {
            assert(s.drop_first()[j] == s[j + 1]);
        }
        lemma_trim_start_char(s.drop_first(), c, i - 1);
    } else {
        assert(s.skip(0) =~= s);
    }
}

/// The `/mnt/<drive>/...` form of a WSL path as its Windows drive path.
pub open spec fn mounted_cwd_spec(cwd: Seq<char>) -> Option<Seq<char>> {
    if starts_with_spec(cwd, "/mnt/"@) {
        let mounted = cwd.skip(5);
        let (drive, remainder) = match first_occurrence(mounted, seq!['/']) {
            Some(k) => (mounted.take(k), mounted.skip(k + 1)),
            None => (mounted, Seq::<char>::empty()),
        };
        if drive.len() == 1 && is_ascii_alpha_spec(drive[0]) {
            Some(
                seq![to_ascii_upper_spec(drive[0]), ':', '\\'] + replace_char_spec(
                    remainder,
                    '/',
                    seq!['\\'],
                ),
            )
        } else {
            None
        }
    } else {
        None
    }
}

/// A WSL working directory as a Windows-accessible path.
pub open spec fn wsl_cwd_to_windows_spec(distro: Seq<char>, cwd: Seq<char>) -> Option<Seq<char>> {
    match mounted_cwd_spec(cwd) {
        Some(p) => Some(p),
        None => if cwd.len() > 0 && cwd[0] == '/' {
            Some(
                "\\\\wsl.localhost\\"@ + distro + seq!['\\'] + replace_char_spec(
                    trim_start_char_spec(cwd, '/'),
                    '/',
                    seq!['\\'],
                ),
            )
        } else {
            None
        },
    }
}

fn mounted_cwd(cwd: &[char]) -> (r: Option<Vec<char>>)
    ensures
        mounted_cwd_spec(cwd@) matches Some(p) ==> (r matches Some(v) && v@ == p),
        mounted_cwd_spec(cwd@) is None ==> r is None,
{
    if !starts_with_str(cwd, "/mnt/") {
        return None;
    }
    proof {
        reveal_strlit("/mnt/");
    }
    let mounted = sub_vec(cwd, 5, cwd.len());
    assert(mounted@ =~= cwd@.skip(5));
    let slash: Vec<char> = vec!['/'];
    let found = find_from(mounted.as_slice(), slash.as_slice(), 0);
    proof {
        lemma_first_occurrence_from(mounted@, slash@, 0);
        assert(slash@ =~= seq!['/']);
    }
    let (drive, remainder) = match found {
        Some(k) => (sub_vec(mounted.as_slice(), 0, k), sub_vec(mounted.as_slice(), k + 1, mounted.len())),
        None => (mounted.clone(), Vec::new()),
    };
    proof {
        match found {
            Some(k) => {
                assert(drive@ =~= mounted@.take(k as int));
                assert(remainder@ =~= mounted@.skip(k + 1));
            },
            None => {
                assert(remainder@ =~= Seq::<char>::empty());
            },
        }
    }
    if drive.len() == 1 && is_ascii_alpha(drive[0]) {
        let back: Vec<char> = vec!['\\'];
        let rest = replace_char(remainder.as_slice(), '/', back.as_slice());
        let mut out: Vec<char> = Vec::new();
        out.push(to_ascii_upper(drive[0]));
        out.push(':');
        out.push('\\');
        push_all(&mut out, rest.as_slice());
        assert(back@ =~= seq!['\\']);
        assert(out@ =~= mounted_cwd_spec(cwd@)->0);
        Some(out)
    } else {
        None
    }
}

/// Maps a WSL working directory to a path Windows can open: a `/mnt/<drive>`
/// path to the drive path, any other absolute path to the distribution's
/// `\\wsl.localhost` share.
pub fn wsl_cwd_to_windows(distro: &str, cwd: &str) -> (r: Result<String, HookCommandError>)
    ensures
        !valid_wsl_distro_spec(distro@) ==> (r matches Err(HookCommandError::InvalidWslDistro(d))
            && d@ == distro@),
        valid_wsl_distro_spec(distro@) ==> (match wsl_cwd_to_windows_spec(distro@, cwd@) {
            Some(p) => r matches Ok(s) && s@ == p,
            None => r matches Err(HookCommandError::InvalidWslCwd(c)) && c@ == cwd@,
        }),
{
    validate_wsl_distro(distro)?;
    let c = chars_of(cwd);
    if let Some(p) = mounted_cwd(c.as_slice()) {
        return Ok(string_from_chars(p.as_slice()));
    }
    if c.len() > 0 && c[0] == '/' {
        let mut start: usize = 0;
        while start < c.len() && c[start] == '/'
            invariant
                start <= c@.len(),
                forall|j: int| 0 <= j < start ==> #[trigger] c@[j] == '/',
            decreases c.len() - start,
        {
            start = start + 1;
        }
        proof {
            lemma_trim_start_char(c@, '/', start as int);
        }
        let trimmed = sub_vec(c.as_slice(), start, c.len());
        assert(trimmed@ =~= c@.skip(start as int));
        let back: Vec<char> = vec!['\\'];
        let rest = replace_char(trimmed.as_slice(), '/', back.as_slice());
        let mut out: Vec<char> = Vec::new();
        push_str(&mut out, "\\\\wsl.localhost\\");
        push_str(&mut out, distro);
        out.push('\\');
        push_all(&mut out, rest.as_slice());
        assert(back@ =~= seq!['\\']);
        assert(out@ =~= wsl_cwd_to_windows_spec(distro@, cwd@)->0);
        return Ok(string_from_chars(out.as_slice()));
    }
    Err(HookCommandError::InvalidWslCwd(cwd.to_owned()))
}

} // verus!
