//! Finding the Codex installations of a machine from what was probed: the
//! output of `wsl.exe`, each distribution's environment, and the homes that
//! turn out to be shared between Windows and WSL.
use vstd::prelude::*;

use crate::lifecycle::CodexHookCommand;
use crate::paths::{validate_capture_target, HookCommandError};
use crate::targets::{target_from_home, CodexRuntimeDescriptor, CodexTarget, CodexTargetRegistry};
use crate::text::{
    chars_eq, chars_of, push_all, push_str, starts_with_spec, starts_with_str, string_from_chars,
    sub_vec, to_lowercase, trim, trim_spec, unicode_lowercase, replace_char, replace_char_spec,
};
use crate::windows_paths::{
    hook_command_for_target_and_home, shared_wsl_hook_command_for_target_and_home,
    wsl_cwd_to_windows, wsl_cwd_to_windows_spec, valid_wsl_distro_spec,
    wsl_hook_command_for_target_and_home, is_valid_distro_name,
};

verus! {

// ---------------------------------------------------------------------------
// Decoding what Windows programs print
// ---------------------------------------------------------------------------
/// Whether a `u32` is a Unicode scalar value (what `char::from_u32` accepts).
pub open spec fn is_scalar(v: u32) -> bool {
    v < 0xD800 || (0xE000 <= v && v <= 0x10FFFF)
}

/// The character of a scalar value, by `char::from_u32`: `None` for a
/// surrogate or a value above `0x10FFFF`.
#[verifier::external_body]
fn char_from_scalar(v: u32) -> (r: Option<char>)
    ensures
        is_scalar(v) ==> r == Some(v as char),
        !is_scalar(v) ==> r is None,
{
    char::from_u32(v)
}

pub open spec fn is_high_surrogate(u: u16) -> bool {
    0xD800 <= u && u <= 0xDBFF
}

pub open spec fn is_low_surrogate(u: u16) -> bool {
    0xDC00 <= u && u <= 0xDFFF
}

/// UTF-16 decoded with every unpaired surrogate replaced by U+FFFD
/// (`String::from_utf16_lossy`).
pub open spec fn utf16_lossy(units: Seq<u16>) -> Seq<char>
    decreases units.len(),
{
    if units.len() == 0 {
        Seq::empty()
    } else {
        let u = units[0];
        if u < 0xD800 || u > 0xDFFF {
            seq![(u as u32) as char] + utf16_lossy(units.drop_first())
        } else if is_high_surrogate(u) && units.len() >= 2 && is_low_surrogate(units[1]) {
            seq![(0x10000 + (u - 0xD800) * 0x400 + (units[1] - 0xDC00)) as char] + utf16_lossy(
                units.skip(2),
            )
        } else {
            seq!['\u{FFFD}'] + utf16_lossy(units.drop_first())
        }
    }
}

/// Decodes UTF-16, replacing unpaired surrogates.
pub fn utf16_decode_lossy(units: &[u16]) -> (r: Vec<char>)
    ensures
        r@ == utf16_lossy(units@),
{
    let mut out: Vec<char> = Vec::new();
    let mut i: usize = 0;
    assert(units@.skip(0) =~= units@);
    while i < units.len()
        invariant
            i <= units@.len(),
            out@ + utf16_lossy(units@.skip(i as int)) == utf16_lossy(units@),
        decreases units.len() - i,
    {
        let ghost rest = units@.skip(i as int);
        let u = units[i];
        assert(rest[0] == u);
        if u < 0xD800 || u > 0xDFFF {
            let v = u as u32;
            let c = char_from_scalar(v);
            let c = match c {
                Some(c) => c,
                None => '\u{FFFD}',
            };
            assert(rest.drop_first() =~= units@.skip(i + 1));
            out.push(c);
            assert(out@ + utf16_lossy(units@.skip(i + 1)) =~= utf16_lossy(units@));
            i = i + 1;
        } else if u <= 0xDBFF && i + 1 < units.len() && units[i + 1] >= 0xDC00 && units[i + 1]
            <= 0xDFFF {
            let low = units[i + 1];
            assert(rest[1] == low);
            let v: u32 = 0x10000 + ((u as u32) - 0xD800) * 0x400 + ((low as u32) - 0xDC00);
            assert(is_scalar(v));
            let c = match char_from_scalar(v) {
                Some(c) => c,
                None => '\u{FFFD}',
            };
            assert(rest.skip(2) =~= units@.skip(i + 2));
            out.push(c);
            assert(out@ + utf16_lossy(units@.skip(i + 2)) =~= utf16_lossy(units@));
            i = i + 2;
        } else {
            assert(rest.drop_first() =~= units@.skip(i + 1));
            out.push('\u{FFFD}');
            assert(out@ + utf16_lossy(units@.skip(i + 1)) =~= utf16_lossy(units@));
            i = i + 1;
        }
    }
    assert(units@.skip(units@.len() as int) =~= Seq::<u16>::empty());
    assert(out@ + Seq::<char>::empty() =~= out@);
    out
}

/// The text `String::from_utf8_lossy` makes of a byte sequence.
pub uninterp spec fn utf8_lossy(bytes: Seq<u8>) -> Seq<char>;

/// Decodes UTF-8 with `String::from_utf8_lossy`. Its contract names the
/// result and states the one fact the documentation gives exactly: valid
/// UTF-8 decodes unchanged. How invalid sequences are replaced is not
/// stated.
#[verifier::external_body]
fn utf8_decode_lossy(bytes: &[u8]) -> (r: String)
    ensures
        r@ == utf8_lossy(bytes@),
        vstd::utf8::valid_utf8(bytes@) ==> r@ == vstd::utf8::decode_utf8(bytes@),
{
    String::from_utf8_lossy(bytes).into_owned()
}

/// `s` without NUL characters.
pub open spec fn without_nul(s: Seq<char>) -> Seq<char> {
    s.filter(|c: char| c != '\0')
}

fn remove_nul(s: &[char]) -> (r: Vec<char>)
    ensures
        r@ == without_nul(s@),
{
    let mut out: Vec<char> = Vec::new();
    let mut i: usize = 0;
    assert(s@.take(0) =~= Seq::<char>::empty());
    proof {
        reveal(Seq::filter);
    }
    while i < s.len()
        invariant
            i <= s@.len(),
            out@ == s@.take(i as int).filter(|c: char| c != '\0'),
        decreases s.len() - i,
    {
        proof {
            assert(s@.take(i + 1) =~= s@.take(i as int).push(s@[i as int]));
            s@.take(i as int).lemma_filter_push(s@[i as int], |c: char| c != '\0');
        }
        if s[i] != '\0' {
            out.push(s[i]);
        }
        i = i + 1;
    }
    assert(s@.take(s@.len() as int) =~= s@);
    out
}

/// The little-endian 16-bit units of a byte sequence; a trailing odd byte
/// is dropped.
pub open spec fn le_units(bytes: Seq<u8>) -> Seq<u16> {
    Seq::new(
        bytes.len() / 2,
        |i: int| (bytes[2 * i] as u16 + (bytes[2 * i + 1] as u16) * 256) as u16,
    )
}

/// Output that has a zero byte at an odd position is taken for UTF-16.
pub open spec fn looks_utf16(bytes: Seq<u8>) -> bool {
    bytes.len() >= 2 && exists|k: int| 0 <= k && 2 * k + 1 < bytes.len() && #[trigger] bytes[2 * k + 1] == 0
}

/// What a Windows program printed, as text: UTF-16 when it looks like it,
/// UTF-8 otherwise, with NUL characters removed.
pub open spec fn decode_windows_output_spec(bytes: Seq<u8>) -> Seq<char> {
    if looks_utf16(bytes) {
        without_nul(utf16_lossy(le_units(bytes)))
    } else {
        without_nul(utf8_lossy(bytes))
    }
}

pub fn decode_windows_output(bytes: &[u8]) -> (r: String)
    ensures
        r@ == decode_windows_output_spec(bytes@),
{
    let mut looks = false;
    let len = bytes.len();
    if len >= 2 {
        let half = len / 2;
        let mut j: usize = 0;
        while j < half && !looks
            invariant
                j <= half,
                half == len / 2,
                len == bytes@.len(),
                len >= 2,
                forall|m: int| 0 <= m < j ==> #[trigger] bytes@[2 * m + 1] != 0,
                looks ==> looks_utf16(bytes@),
            decreases half - j + (if looks { 0int } else { 1int }),
        {
            assert(2 * j + 1 < len);
            if bytes[2 * j + 1] == 0 {
                assert(bytes@[2 * (j as int) + 1] == 0);
                looks = true;
            } else {
                j = j + 1;
            }
        }
        proof {
            if !looks {
                assert forall|m: int| 0 <= m && 2 * m + 1 < bytes@.len() implies #[trigger] bytes@[2
                    * m + 1] != 0 by {
                    assert(m < half);
                }
            }
        }
    }
    let chars = if looks {
        let mut units: Vec<u16> = Vec::new();
        let n = len / 2;
        let mut i: usize = 0;
        while i < n
            invariant
                i <= n == len / 2,
                len == bytes@.len(),
                units@ == le_units(bytes@).take(i as int),
            decreases n - i,
        {
            assert(2 * i + 1 < len);
            let lo = bytes[2 * i] as u16;
            let hi = bytes[2 * i + 1] as u16;
            units.push(lo + hi * 256);
            assert(units@ =~= le_units(bytes@).take(i + 1));
            i = i + 1;
        }
        assert(units@ =~= le_units(bytes@));
        utf16_decode_lossy(units.as_slice())
    } else {
        let text = utf8_decode_lossy(bytes);
        chars_of(text.as_str())
    };
    let cleaned = remove_nul(chars.as_slice());
    string_from_chars(cleaned.as_slice())
}

// ---------------------------------------------------------------------------
// Lines, distributions and probes
// ---------------------------------------------------------------------------
/// The complete lines read so far and the line being read.
pub open spec fn scan_lines(s: Seq<char>) -> (Seq<Seq<char>>, Seq<char>)
    decreases s.len(),
{
    if s.len() == 0 {
        (Seq::empty(), Seq::empty())
    } else {
        let prev = scan_lines(s.drop_last());
        if s.last() == '\n' {
            let line = if prev.1.len() > 0 && prev.1.last() == '\r' {
                prev.1.drop_last()
            } else {
                prev.1
            };
            (prev.0.push(line), Seq::empty())
        } else {
            (prev.0, prev.1.push(s.last()))
        }
    }
}

/// The lines of a text, as `str::lines` splits it: at `\n` or `\r\n`, with
/// no empty line after a final line ending.
pub open spec fn text_lines(s: Seq<char>) -> Seq<Seq<char>> {
    let (done, cur) = scan_lines(s);
    if cur.len() > 0 {
        done.push(cur)
    } else {
        done
    }
}

/// The lines of a text.
pub fn lines_of(text: &str) -> (r: Vec<Vec<char>>)
    ensures
        crate::text::views(r@) == text_lines(text@),
{
    let s = chars_of(text);
    let mut done: Vec<Vec<char>> = Vec::new();
    let mut cur: Vec<char> = Vec::new();
    let mut i: usize = 0;
    assert(s@.take(0) =~= Seq::<char>::empty());
    assert(crate::text::views(done@) =~= Seq::<Seq<char>>::empty());
    while i < s.len()
        invariant
            i <= s@.len(),
            s@ == text@,
            (crate::text::views(done@), cur@) == scan_lines(s@.take(i as int)),
        decreases s.len() - i,
    {
        assert(s@.take(i + 1).drop_last() =~= s@.take(i as int));
        let c = s[i];
        if c == '\n' {
            let mut line = cur;
            if line.len() > 0 && line[line.len() - 1] == '\r' {
                line.pop();
            }
            let ghost before = done@;
            done.push(line);
            cur = Vec::new();
            assert(crate::text::views(done@) =~= crate::text::views(before).push(line@));
        } else {
            cur.push(c);
        }
        i = i + 1;
    }
    assert(s@.take(s@.len() as int) =~= s@);
    if cur.len() > 0 {
        let ghost before = done@;
        done.push(cur);
        assert(crate::text::views(done@) =~= crate::text::views(before).push(cur@));
    }
    done
}

/// The distributions `wsl.exe --list --quiet` named: trimmed, non-empty
/// lines, without Docker Desktop's own distributions.
pub open spec fn distro_names_spec(output: Seq<char>) -> Seq<Seq<char>> {
    text_lines(output).map_values(|l: Seq<char>| trim_spec(l)).filter(
        |d: Seq<char>| d.len() > 0 && !starts_with_spec(d, "docker-desktop"@),
    )
}

pub fn wsl_distro_names(output: &str) -> (r: Vec<String>)
    ensures
        crate::transaction::string_views(r@) == distro_names_spec(output@),
{
    let lines = lines_of(output);
    let ghost trimmed = text_lines(output@).map_values(|l: Seq<char>| trim_spec(l));
    let ghost keep = |d: Seq<char>| d.len() > 0 && !starts_with_spec(d, "docker-desktop"@);
    let mut out: Vec<String> = Vec::new();
    let mut i: usize = 0;
    assert(trimmed.take(0) =~= Seq::<Seq<char>>::empty());
    proof {
        reveal(Seq::filter);
    }
    assert(crate::transaction::string_views(out@) =~= Seq::<Seq<char>>::empty());
    while i < lines.len()
        invariant
            i <= lines@.len() == trimmed.len(),
            trimmed == crate::text::views(lines@).map_values(|l: Seq<char>| trim_spec(l)),
            keep == (|d: Seq<char>| d.len() > 0 && !starts_with_spec(d, "docker-desktop"@)),
            crate::transaction::string_views(out@) == trimmed.take(i as int).filter(keep),
        decreases lines.len() - i,
    {
        let t = trim(lines[i].as_slice());
        assert(t@ == trimmed[i as int]);
        proof {
            assert(trimmed.take(i + 1) =~= trimmed.take(i as int).push(trimmed[i as int]));
            trimmed.take(i as int).lemma_filter_push(trimmed[i as int], keep);
        }
        if t.len() > 0 && !starts_with_str(t.as_slice(), "docker-desktop") {
            let ghost before = out@;
            out.push(string_from_chars(t.as_slice()));
            assert(crate::transaction::string_views(out@) =~= crate::transaction::string_views(
                before,
            ).push(t@));
        }
        i = i + 1;
    }
    assert(trimmed.take(trimmed.len() as int) =~= trimmed);
    out
}

/// What a probe of one distribution found.
#[derive(Clone, Debug, PartialEq, Eq)]
pub struct WslProbe {
    pub distro: String,
    pub codex_home: String,
    pub codex_binary: String,
}

/// The value of the last `key=value` line for `key` (split at the first
/// `=`).
pub open spec fn probe_value(lines: Seq<Seq<char>>, key: Seq<char>) -> Option<Seq<char>>
    decreases lines.len(),
{
    if lines.len() == 0 {
        None
    } else {
        let l = lines.last();
        match crate::text::first_occurrence(l, seq!['=']) {
            Some(k) => if l.take(k) == key {
                Some(l.skip(k + 1))
            } else {
                probe_value(lines.drop_last(), key)
            },
            None => probe_value(lines.drop_last(), key),
        }
    }
}

/// `s` without trailing `/` characters.
pub open spec fn trim_end_slashes(s: Seq<char>) -> Seq<char>
    decreases s.len(),
{
    if s.len() > 0 && s.last() == '/' {
        trim_end_slashes(s.drop_last())
    } else {
        s
    }
}

/// The probe a distribution's environment report gives: `HOME` is
/// required; `CODEX_HOME` overrides `$HOME/.codex`; `CODEX_BIN` is where
/// `codex` was found (empty when it was not). Values are trimmed.
pub open spec fn parse_probe_spec(output: Seq<char>) -> Option<(Seq<char>, Seq<char>)> {
    let lines = text_lines(output);
    match probe_value(lines, "HOME"@) {
        None => None,
        Some(home) => {
            let linux_home = trim_spec(home);
            let configured = match probe_value(lines, "CODEX_HOME"@) {
                Some(v) => trim_spec(v),
                None => Seq::empty(),
            };
            let codex_home = if configured.len() == 0 {
                trim_end_slashes(linux_home) + "/.codex"@
            } else {
                configured
            };
            let binary = match probe_value(lines, "CODEX_BIN"@) {
                Some(v) => trim_spec(v),
                None => Seq::empty(),
            };
            Some((codex_home, binary))
        },
    }
}

fn probe_value_exec(lines: &Vec<Vec<char>>, key: &str) -> (r: Option<Vec<char>>)
    ensures
        r matches Some(v) ==> probe_value(crate::text::views(lines@), key@) == Some(v@),
        r is None ==> probe_value(crate::text::views(lines@), key@) is None,
{
    let ghost lv = crate::text::views(lines@);
    let k = chars_of(key);
    let eq: Vec<char> = vec!['='];
    assert(eq@ =~= seq!['=']);
    let mut i = lines.len();
    assert(lv.take(i as int) =~= lv);
    while i > 0
        invariant
            i <= lines@.len(),
            lv == crate::text::views(lines@),
            k@ == key@,
            eq@ == seq!['='],
            probe_value(lv, key@) == probe_value(lv.take(i as int), key@),
        decreases i,
    {
        let line = &lines[i - 1];
        let ghost t = lv.take(i as int);
        assert(t.last() == line@);
        assert(t.drop_last() =~= lv.take(i - 1));
        let found = crate::text::find_from(line.as_slice(), eq.as_slice(), 0);
        match found {
            Some(p) => {
                proof {
                    crate::text::lemma_first_occurrence_from(line@, eq@, 0);
                }
                let name = sub_vec(line.as_slice(), 0, p);
                assert(name@ =~= line@.take(p as int));
                if chars_eq(name.as_slice(), k.as_slice()) {
                    let line_len = line.len();
                    assert(crate::text::occurs_at(line@, eq@, p as int));
                    assert(p + 1 <= line_len);
                    let value = sub_vec(line.as_slice(), p + 1, line_len);
                    assert(value@ =~= line@.skip(p + 1));
                    return Some(value);
                }
            },
            None => {},
        }
        i = i - 1;
    }
    assert(lv.take(0) =~= Seq::<Seq<char>>::empty());
    None
}

/// Parses a distribution's environment report (see `parse_probe_spec`).
pub fn parse_wsl_probe(distro: &str, output: &str) -> (r: Option<WslProbe>)
    ensures
        parse_probe_spec(output@) is None ==> r is None,
        parse_probe_spec(output@) matches Some((home, binary)) ==> (r matches Some(p) && p.distro@
            == distro@ && p.codex_home@ == home && p.codex_binary@ == binary),
{
    let lines = lines_of(output);
    proof {
        reveal_strlit("HOME");
        reveal_strlit("CODEX_HOME");
        reveal_strlit("CODEX_BIN");
        reveal_strlit("/.codex");
    }
    let home = match probe_value_exec(&lines, "HOME") {
        Some(h) => h,
        None => return None,
    };
    let linux_home = trim(home.as_slice());
    let configured = match probe_value_exec(&lines, "CODEX_HOME") {
        Some(v) => trim(v.as_slice()),
        None => Vec::new(),
    };
    let codex_home = if configured.len() == 0 {
        let mut end = linux_home.len();
        assert(linux_home@.take(end as int) =~= linux_home@);
        while end > 0 && linux_home[end - 1] == '/'
            invariant
                end <= linux_home@.len(),
                trim_end_slashes(linux_home@) == trim_end_slashes(linux_home@.take(end as int)),
            decreases end,
        {
            assert(linux_home@.take(end as int).drop_last() =~= linux_home@.take(end - 1));
            end = end - 1;
        }
        let mut h = sub_vec(linux_home.as_slice(), 0, end);
        assert(h@ =~= linux_home@.take(end as int));
        push_str(&mut h, "/.codex");
        h
    } else {
        assert(configured@.len() > 0);
        configured
    };
    let binary = match probe_value_exec(&lines, "CODEX_BIN") {
        Some(v) => trim(v.as_slice()),
        None => Vec::new(),
    };
    assert(parse_probe_spec(output@) matches Some((h, b)) && b == binary@ && h == codex_home@);
    Some(
        WslProbe {
            distro: distro.to_owned(),
            codex_home: string_from_chars(codex_home.as_slice()),
            codex_binary: string_from_chars(binary.as_slice()),
        },
    )
}

/// A distribution's Codex home as Windows reaches it.
pub fn wsl_home_to_windows(distro: &str, path: &str) -> (r: Option<String>)
    ensures
        !valid_wsl_distro_spec(distro@) ==> r is None,
        valid_wsl_distro_spec(distro@) ==> match wsl_cwd_to_windows_spec(distro@, path@) {
            Some(p) => r matches Some(s) && s@ == p,
            None => r is None,
        },
{
    match wsl_cwd_to_windows(distro, path) {
        Ok(p) => Some(p),
        Err(_) => None,
    }
}

/// The identity under which two Windows Codex homes (already normalised)
/// are the same: backslashes, no trailing backslash, lowercase.
pub open spec fn home_identity_spec(normalized_home: Seq<char>) -> Seq<char> {
    unicode_lowercase(trim_end_backslashes(replace_char_spec(normalized_home, '/', seq!['\\'])))
}

pub open spec fn trim_end_backslashes(s: Seq<char>) -> Seq<char>
    decreases s.len(),
{
    if s.len() > 0 && s.last() == '\\' {
        trim_end_backslashes(s.drop_last())
    } else {
        s
    }
}

pub fn home_identity(normalized_home: &str) -> (r: String)
    ensures
        r@ == home_identity_spec(normalized_home@),
{
    let h = chars_of(normalized_home);
    let back: Vec<char> = vec!['\\'];
    assert(back@ =~= seq!['\\']);
    let replaced = replace_char(h.as_slice(), '/', back.as_slice());
    let mut end = replaced.len();
    assert(replaced@.take(end as int) =~= replaced@);
    while end > 0 && replaced[end - 1] == '\\'
        invariant
            end <= replaced@.len(),
            trim_end_backslashes(replaced@) == trim_end_backslashes(replaced@.take(end as int)),
        decreases end,
    {
        assert(replaced@.take(end as int).drop_last() =~= replaced@.take(end - 1));
        end = end - 1;
    }
    let trimmed = sub_vec(replaced.as_slice(), 0, end);
    assert(trimmed@ =~= replaced@.take(end as int));
    let text = string_from_chars(trimmed.as_slice());
    to_lowercase(text.as_str())
}

// ---------------------------------------------------------------------------
// Assembling the targets
// ---------------------------------------------------------------------------
/// No two targets share a Codex home.
pub open spec fn distinct_homes(ts: Seq<CodexTarget>) -> bool {
    forall|i: int, j: int|
        0 <= i < j < ts.len() ==> home_identity_spec((#[trigger] ts[i]).physical_codex_home@)
            != home_identity_spec((#[trigger] ts[j]).physical_codex_home@)
}

/// The first target whose home has this identity.
fn find_home(targets: &Vec<CodexTarget>, identity: &str) -> (r: Option<usize>)
    ensures
        r matches Some(j) ==> j < targets@.len() && home_identity_spec(
            targets@[j as int].physical_codex_home@,
        ) == identity@ && forall|k: int|
            0 <= k < j ==> home_identity_spec((#[trigger] targets@[k]).physical_codex_home@)
                != identity@,
        r is None ==> forall|k: int|
            0 <= k < targets@.len() ==> home_identity_spec(
                (#[trigger] targets@[k]).physical_codex_home@,
            ) != identity@,
{
    let wanted = chars_of(identity);
    let mut k: usize = 0;
    while k < targets.len()
        invariant
            k <= targets@.len(),
            wanted@ == identity@,
            forall|m: int|
                0 <= m < k ==> home_identity_spec((#[trigger] targets@[m]).physical_codex_home@)
                    != identity@,
        decreases targets.len() - k,
    {
        let other = home_identity(targets[k].physical_codex_home.as_str());
        if chars_eq(chars_of(other.as_str()).as_slice(), wanted.as_slice()) {
            return Some(k);
        }
        k = k + 1;
    }
    None
}

/// Adds a detected target unless a target already has its home.
pub fn push_detected_target(targets: &mut Vec<CodexTarget>, target: CodexTarget)
    ensures
        (exists|k: int|
            0 <= k < old(targets)@.len() && home_identity_spec(
                (#[trigger] old(targets)@[k]).physical_codex_home@,
            ) == home_identity_spec(target.physical_codex_home@)) ==> final(targets)@ == old(
            targets,
        )@,
        !(exists|k: int|
            0 <= k < old(targets)@.len() && home_identity_spec(
                (#[trigger] old(targets)@[k]).physical_codex_home@,
            ) == home_identity_spec(target.physical_codex_home@)) ==> final(targets)@ == old(
            targets,
        )@.push(target),
        distinct_homes(old(targets)@) ==> distinct_homes(final(targets)@),
{
    let identity = home_identity(target.physical_codex_home.as_str());
    match find_home(targets, identity.as_str()) {
        Some(j) => {
            assert(home_identity_spec(targets@[j as int].physical_codex_home@)
                == home_identity_spec(target.physical_codex_home@));
        },
        None => {
            let ghost before = targets@;
            targets.push(target);
            proof {
                if distinct_homes(before) {
                    assert forall|i: int, j: int| 0 <= i < j < targets@.len() implies home_identity_spec(
                        (#[trigger] targets@[i]).physical_codex_home@,
                    ) != home_identity_spec((#[trigger] targets@[j]).physical_codex_home@) by {
                        if j == before.len() {
                            assert(targets@[i] == before[i]);
                        } else {
                            assert(targets@[i] == before[i]);
                            assert(targets@[j] == before[j]);
                        }
                    }
                }
            }
        },
    }
}

/// The native PowerShell command of a target, with the located PowerShell
/// (or the error locating it).
pub fn windows_command(
    powershell: &Result<String, HookCommandError>,
    executable: &str,
    data_dir: &str,
    capture_target: &str,
    codex_home: &str,
) -> (r: Result<String, HookCommandError>)
    ensures
        !crate::paths::valid_capture_target_spec(capture_target@) ==> (r matches Err(
            HookCommandError::InvalidCaptureTarget(t),
        ) && t@ == capture_target@),
        crate::paths::valid_capture_target_spec(capture_target@) ==> match powershell {
            Err(e) => r == Err::<String, HookCommandError>(*e),
            Ok(p) => (crate::windows_paths::safe_executable_spec(p@) ==> (r matches Ok(s) && s@
                == crate::windows_paths::windows_hook_command_spec(
                p@,
                executable@,
                data_dir@,
                Some(capture_target@),
                Some(codex_home@),
            ))) && (!crate::windows_paths::safe_executable_spec(p@) ==> (r matches Err(
                HookCommandError::UnsafePowerShell(q),
            ) && q@ == p@)),
        },
{
    validate_capture_target(capture_target)?;
    match powershell {
        Err(e) => Err(e.duplicate()),
        Ok(p) => hook_command_for_target_and_home(
            p.as_str(),
            executable,
            data_dir,
            capture_target,
            codex_home,
        ),
    }
}

fn concat_strings(a: &str, b: &str) -> (r: String)
    ensures
        r@ == a@ + b@,
{
    let mut out: Vec<char> = Vec::new();
    push_str(&mut out, a);
    push_str(&mut out, b);
    string_from_chars(out.as_slice())
}

/// The text of an optional home (empty when there is none).
pub open spec fn home_text(h: Option<String>) -> Seq<char> {
    match h {
        Some(x) => x@,
        None => Seq::empty(),
    }
}

/// The command of a target shared by Windows and WSL: with a valid id, an
/// executable that WSL reaches and a usable PowerShell, a POSIX command that
/// takes the distribution from `WSL_DISTRO_NAME` at run time (for the WSL
/// home) and the PowerShell command as the Windows override (for the
/// Windows home); otherwise no command and the error's message.
pub open spec fn shared_command_ok(
    id: Seq<char>,
    windows_home: Option<String>,
    wsl_home: Option<String>,
    executable: Seq<char>,
    data_dir: Seq<char>,
    powershell: Result<String, HookCommandError>,
    command: Option<CodexHookCommand>,
    error: Option<String>,
) -> bool {
    if crate::paths::valid_capture_target_spec(id) && crate::windows_paths::windows_path_to_wsl_spec(
        executable,
    ) is Some && (powershell matches Ok(p) && crate::windows_paths::safe_executable_spec(p@)) {
        &&& command matches Some(c)
        &&& c@.posix == crate::windows_paths::shared_wsl_hook_command_spec(
            crate::windows_paths::windows_path_to_wsl_spec(executable)->0,
            data_dir,
            Some(id),
            Some(home_text(wsl_home)),
        )
        &&& c@.windows == Some(
            crate::windows_paths::windows_hook_command_spec(
                powershell->Ok_0@,
                executable,
                data_dir,
                Some(id),
                Some(home_text(windows_home)),
            ),
        )
        &&& error is None
    } else {
        &&& command is None
        &&& error matches Some(m) && m@ == shared_command_error_message(id, executable, powershell)
    }
}

/// The message of the first reason a shared command cannot be made: an
/// invalid id, an executable that WSL cannot reach, PowerShell not found,
/// or a PowerShell that is not safe to run.
pub open spec fn shared_command_error_message(
    id: Seq<char>,
    executable: Seq<char>,
    powershell: Result<String, HookCommandError>,
) -> Seq<char> {
    if !crate::paths::valid_capture_target_spec(id) {
        "invalid capture target identifier: "@ + id
    } else if crate::windows_paths::windows_path_to_wsl_spec(executable) is None {
        "Windows path cannot be represented inside WSL: "@ + executable
    } else {
        match powershell {
            Err(e) => crate::paths::hook_error_message_spec(e),
            Ok(p) => "trusted Windows PowerShell executable is unavailable: "@ + p@,
        }
    }
}

/// What merging or pushing a WSL target does to the targets: a target
/// whose home no target has is added; otherwise the first target of that
/// home becomes shared, keeping its id, homes and hook path, taking the WSL
/// target's runtimes after its own and the shared command.
pub open spec fn merge_outcome(
    before: Seq<CodexTarget>,
    target: CodexTarget,
    executable: Seq<char>,
    data_dir: Seq<char>,
    powershell: Result<String, HookCommandError>,
    after: Seq<CodexTarget>,
) -> bool {
    &&& (forall|k: int|
            0 <= k < before.len() ==> home_identity_spec(
                (#[trigger] before[k]).physical_codex_home@,
            ) != home_identity_spec(target.physical_codex_home@)) ==> after == before.push(target)
    &&& (exists|k: int|
            0 <= k < before.len() && home_identity_spec(
                (#[trigger] before[k]).physical_codex_home@,
            ) == home_identity_spec(target.physical_codex_home@)) ==> ({
            let j = choose|j: int|
                0 <= j < before.len() && home_identity_spec(
                    (#[trigger] before[j]).physical_codex_home@,
                ) == home_identity_spec(target.physical_codex_home@) && forall|k: int|
                    0 <= k < j ==> home_identity_spec(
                        (#[trigger] before[k]).physical_codex_home@,
                    ) != home_identity_spec(target.physical_codex_home@);
            let e = before[j];
            let m = after[j];
            &&& after.len() == before.len()
            &&& forall|k: int|
                0 <= k < before.len() && k != j ==> #[trigger] after[k] == before[k]
            &&& m.id == e.id
            &&& m.environment@ == "shared"@
            &&& m.label@ == (if e.id@ == "windows-native"@ {
                "Codex App + CLI + WSL"@
            } else {
                "Codex shared home"@
            })
            &&& m.physical_codex_home == e.physical_codex_home
            &&& m.codex_home == e.codex_home
            &&& m.hook_path == e.hook_path
            &&& m.summary_runtimes@ == e.summary_runtimes@ + target.summary_runtimes@
            &&& shared_command_ok(
                e.id@,
                e.codex_home,
                target.codex_home,
                executable,
                data_dir,
                powershell,
                m.command,
                m.enable_error,
            )
        })
}

/// A WSL target whose home a detected target already has makes that target
/// shared: one command for WSL (taking the distribution at run time) and a
/// Windows override; otherwise the WSL target is added.
pub fn merge_or_push_wsl_target(
    targets: &mut Vec<CodexTarget>,
    target: CodexTarget,
    executable: &str,
    data_dir: &str,
    powershell: &Result<String, HookCommandError>,
)
    ensures
        merge_outcome(old(targets)@, target, executable@, data_dir@, *powershell, final(targets)@),
        distinct_homes(old(targets)@) ==> distinct_homes(final(targets)@),
{
    let identity = home_identity(target.physical_codex_home.as_str());
    let found = find_home(targets, identity.as_str());
    let j = match found {
        None => {
            let ghost before = targets@;
            push_detected_target(targets, target);
            return;
        },
        Some(j) => j,
    };
    let ghost before = targets@;
    let mut existing = targets.remove(j);
    let wsl_codex_home = match &target.codex_home {
        Some(h) => h.clone(),
        None => String::new(),
    };
    let windows_codex_home = match &existing.codex_home {
        Some(h) => h.clone(),
        None => String::new(),
    };
    existing.environment = "shared".to_owned();
    let native_id = chars_of("windows-native");
    proof {
        reveal_strlit("windows-native");
    }
    existing.label = if chars_eq(chars_of(existing.id.as_str()).as_slice(), native_id.as_slice()) {
        "Codex App + CLI + WSL".to_owned()
    } else {
        "Codex shared home".to_owned()
    };
    let command = match shared_wsl_hook_command_for_target_and_home(
        executable,
        data_dir,
        existing.id.as_str(),
        wsl_codex_home.as_str(),
    ) {
        Ok(posix) => match windows_command(
            powershell,
            executable,
            data_dir,
            existing.id.as_str(),
            windows_codex_home.as_str(),
        ) {
            Ok(native) => Ok(CodexHookCommand::with_windows(posix.as_str(), native.as_str())),
            Err(e) => Err(e),
        },
        Err(e) => Err(e),
    };
    match command {
        Ok(c) => {
            existing.command = Some(c);
            existing.enable_error = None;
        },
        Err(e) => {
            existing.command = None;
            existing.enable_error = Some(e.message());
        },
    }
    let CodexTarget { summary_runtimes: mut extra, .. } = target;
    let ghost runtimes_before = existing.summary_runtimes@;
    let ghost extra_view = extra@;
    existing.summary_runtimes.append(&mut extra);
    assert(existing.summary_runtimes@ == runtimes_before + extra_view);
    targets.insert(j, existing);
    proof {
        assert(targets@ =~= before.update(j as int, targets@[j as int]));
        if distinct_homes(before) {
            assert forall|a: int, b: int| 0 <= a < b < targets@.len() implies home_identity_spec(
                (#[trigger] targets@[a]).physical_codex_home@,
            ) != home_identity_spec((#[trigger] targets@[b]).physical_codex_home@) by {
                assert(targets@[a].physical_codex_home == before[a].physical_codex_home);
                assert(targets@[b].physical_codex_home == before[b].physical_codex_home);
            }
        }
    }
}

/// A Codex home as displayed and as normalised on this machine.
#[derive(Clone, Debug)]
pub struct HomeCandidate {
    pub display: String,
    pub physical: String,
}

/// A probed WSL distribution. `windows_home` is its Codex home as Windows
/// reaches it, normalised (`None` when it has no Windows path), and
/// `has_state` tells whether a Codex configuration or manifest exists there.
#[derive(Clone, Debug)]
pub struct WslCandidate {
    pub probe: WslProbe,
    pub windows_home: Option<String>,
    pub has_state: bool,
}

/// What was probed on a Windows machine.
#[derive(Debug)]
pub struct WindowsDetection {
    pub executable: String,
    pub data_dir: String,
    pub powershell: Result<String, HookCommandError>,
    pub default_home: HomeCandidate,
    pub configured_home: HomeCandidate,
    pub native_executable: Option<String>,
    pub wsl: Vec<WslCandidate>,
}

/// What was probed on a POSIX machine.
#[derive(Clone, Debug)]
pub struct PosixDetection {
    pub executable: String,
    pub data_dir: String,
    pub codex_home: HomeCandidate,
    pub native_executable: Option<String>,
}

fn native_runtimes(
    capture_target: &str,
    native_executable: &Option<String>,
    codex_home: &str,
) -> (r: Vec<CodexRuntimeDescriptor>)
    ensures
        native_executable is None ==> r@.len() == 0,
        native_executable matches Some(e) ==> r@.len() == 1 && r@[0] == (CodexRuntimeDescriptor::Native {
            capture_target: r@[0]->Native_capture_target,
            executable: *e,
            codex_home: r@[0]->Native_codex_home,
        }) && r@[0]->Native_capture_target@ == capture_target@ && r@[0]->Native_codex_home@
            == codex_home@,
{
    let mut r: Vec<CodexRuntimeDescriptor> = Vec::new();
    if let Some(e) = native_executable {
        r.push(
            CodexRuntimeDescriptor::Native {
                capture_target: capture_target.to_owned(),
                executable: e.clone(),
                codex_home: codex_home.to_owned(),
            },
        );
    }
    r
}

/// Whether a probed distribution yields a target: it must map to Windows
/// and have Codex installed or Codex state in its home.
pub open spec fn wsl_candidate_kept(c: WslCandidate) -> bool {
    c.windows_home is Some && (c.probe.codex_binary@.len() > 0 || c.has_state)
}

/// The label a target takes once a WSL distribution shares its home.
pub open spec fn shared_label(id: Seq<char>) -> Seq<char> {
    if id == "windows-native"@ {
        "Codex App + CLI + WSL"@
    } else {
        "Codex shared home"@
    }
}

/// The command of a Windows target: none when PowerShell was not found;
/// with a usable PowerShell, the encoded capture command for the target and
/// its home, for POSIX and Windows alike.
pub open spec fn windows_command_ok(input: WindowsDetection, t: CodexTarget, id: Seq<char>, display: Seq<char>) -> bool {
    match input.powershell {
        Err(_) => t.command is None,
        Ok(p) => crate::windows_paths::safe_executable_spec(p@) ==> (t.command matches Some(c)
            && c@.posix == crate::windows_paths::windows_hook_command_spec(
            p@,
            input.executable@,
            input.data_dir@,
            Some(id),
            Some(display),
        ) && c@.windows == Some(c@.posix)),
    }
}

/// A summary runtime as plain values: capture target, distribution (for a
/// WSL runtime), executable and Codex home.
pub open spec fn runtime_view(r: CodexRuntimeDescriptor) -> (Seq<char>, Option<Seq<char>>, Seq<char>, Seq<char>) {
    match r {
        CodexRuntimeDescriptor::Native { capture_target, executable, codex_home } => (
            capture_target@,
            None,
            executable@,
            codex_home@,
        ),
        CodexRuntimeDescriptor::Wsl { capture_target, distro, executable, codex_home } => (
            capture_target@,
            Some(distro@),
            executable@,
            codex_home@,
        ),
    }
}

pub open spec fn runtimes_view(rs: Seq<CodexRuntimeDescriptor>) -> Seq<
    (Seq<char>, Option<Seq<char>>, Seq<char>, Seq<char>),
> {
    rs.map_values(|r: CodexRuntimeDescriptor| runtime_view(r))
}

/// The native runtime of a Windows target: the detected native Codex, for
/// the target's home.
pub open spec fn native_runtimes_view(id: Seq<char>, native_executable: Option<String>, home: Seq<char>) -> Seq<
    (Seq<char>, Option<Seq<char>>, Seq<char>, Seq<char>),
> {
    match native_executable {
        Some(e) => seq![(id, None, e@, home)],
        None => Seq::empty(),
    }
}

/// The runtime a kept distribution brings: its Codex binary, when both it
/// and the distribution's Codex home are absolute.
pub open spec fn wsl_runtimes_view(c: WslCandidate) -> Seq<(Seq<char>, Option<Seq<char>>, Seq<char>, Seq<char>)> {
    let b = c.probe.codex_binary@;
    let h = c.probe.codex_home@;
    if b.len() > 0 && b[0] == '/' && h.len() > 0 && h[0] == '/' {
        seq![("wsl:"@ + c.probe.distro@, Some(c.probe.distro@), b, h)]
    } else {
        Seq::empty()
    }
}

/// The home identity of a distribution's Codex home as Windows reaches it.
pub open spec fn candidate_identity(c: WslCandidate) -> Seq<char> {
    home_identity_spec(c.windows_home->0@)
}

/// A kept distribution whose home has this identity.
pub open spec fn home_match(c: WslCandidate, identity: Seq<char>) -> bool {
    wsl_candidate_kept(c) && candidate_identity(c) == identity
}

/// How many of the distributions are kept with a home of this identity.
pub open spec fn match_count(cs: Seq<WslCandidate>, identity: Seq<char>) -> nat
    decreases cs.len(),
{
    if cs.len() == 0 {
        0
    } else {
        match_count(cs.drop_last(), identity) + if home_match(cs.last(), identity) {
            1nat
        } else {
            0nat
        }
    }
}

/// The runtimes the distributions with a home of this identity bring, in
/// order.
pub open spec fn attached_runtimes(cs: Seq<WslCandidate>, identity: Seq<char>) -> Seq<
    (Seq<char>, Option<Seq<char>>, Seq<char>, Seq<char>),
>
    decreases cs.len(),
{
    if cs.len() == 0 {
        Seq::empty()
    } else {
        attached_runtimes(cs.drop_last(), identity) + if home_match(cs.last(), identity) {
            wsl_runtimes_view(cs.last())
        } else {
            Seq::empty()
        }
    }
}

/// The Codex home of the last distribution with a home of this identity.
pub open spec fn last_match_home(cs: Seq<WslCandidate>, identity: Seq<char>) -> Option<String>
    decreases cs.len(),
{
    if cs.len() == 0 {
        None
    } else if home_match(cs.last(), identity) {
        Some(cs.last().probe.codex_home)
    } else {
        last_match_home(cs.drop_last(), identity)
    }
}

/// The hook path shown for a target: derived from its displayed home.
pub open spec fn hook_path_ok(t: CodexTarget) -> bool {
    t.codex_home is Some && (t.hook_path matches Some(p) && p@ == crate::targets::display_hook_path_spec(
        t.codex_home->0@,
    ))
}

/// A Windows target for a home, after the distributions `cs`: its id, home,
/// hook path, its native runtime followed by the runtimes of the
/// distributions sharing its home; in the Windows environment with its
/// PowerShell command when no kept distribution shares its home, and shared
/// (with the shared command of the last such distribution) when one does.
pub open spec fn windows_target_ok(
    input: WindowsDetection,
    cs: Seq<WslCandidate>,
    t: CodexTarget,
    id: Seq<char>,
    home: HomeCandidate,
    label: Seq<char>,
) -> bool {
    let identity = home_identity_spec(home.physical@);
    &&& t.id@ == id
    &&& t.physical_codex_home == home.physical
    &&& t.codex_home == Some(home.display)
    &&& hook_path_ok(t)
    &&& runtimes_view(t.summary_runtimes@) == native_runtimes_view(
        id,
        input.native_executable,
        home.display@,
    ) + attached_runtimes(cs, identity)
    &&& if match_count(cs, identity) == 0 {
        t.environment@ == "windows"@ && t.label@ == label && windows_command_ok(input, t, id, home.display@)
    } else {
        t.environment@ == "shared"@ && t.label@ == shared_label(id) && shared_command_ok(
            id,
            Some(home.display),
            last_match_home(cs, identity),
            input.executable@,
            input.data_dir@,
            input.powershell,
            t.command,
            t.enable_error,
        )
    }
}

/// The target made for the distribution `c`, the first kept one of its home
/// among `cs`: `wsl:<distro>` at the distribution's home as Windows reaches
/// it, with the runtimes of the distributions of that home; labelled by the
/// distribution with the WSL capture command when no other distribution
/// shares the home, and shared otherwise.
pub open spec fn wsl_target_for(input: WindowsDetection, cs: Seq<WslCandidate>, t: CodexTarget, c: WslCandidate) -> bool {
    let identity = candidate_identity(c);
    &&& t.id@ == "wsl:"@ + c.probe.distro@
    &&& t.physical_codex_home == c.windows_home->0
    &&& t.codex_home == Some(c.probe.codex_home)
    &&& hook_path_ok(t)
    &&& runtimes_view(t.summary_runtimes@) == attached_runtimes(cs, identity)
    &&& match_count(cs, identity) >= 1
    &&& if match_count(cs, identity) == 1 {
        &&& t.environment@ == "wsl"@
        &&& t.label@ == "Codex · "@ + c.probe.distro@
        &&& (crate::paths::valid_capture_target_spec(t.id@) && crate::windows_paths::wsl_hook_result_ok(
            input.executable@,
            c.probe.distro@,
        )) ==> (t.command matches Some(x) && x@.windows is None && x@.posix
            == crate::windows_paths::wsl_hook_command_spec(
            crate::windows_paths::windows_path_to_wsl_spec(input.executable@)->0,
            input.data_dir@,
            c.probe.distro@,
            Some(t.id@),
            Some(c.probe.codex_home@),
        ))
    } else {
        &&& t.environment@ == "shared"@
        &&& t.label@ == "Codex shared home"@
        &&& shared_command_ok(
            t.id@,
            Some(c.probe.codex_home),
            last_match_home(cs, identity),
            input.executable@,
            input.data_dir@,
            input.powershell,
            t.command,
            t.enable_error,
        )
    }
}

/// A WSL target after the distributions `cs`: the target of the first kept
/// distribution of its home.
pub open spec fn wsl_target_ok(input: WindowsDetection, cs: Seq<WslCandidate>, t: CodexTarget) -> bool {
    exists|k: int|
        0 <= k < cs.len() && wsl_candidate_kept(#[trigger] cs[k]) && (forall|q: int|
            0 <= q < k ==> !home_match(cs[q], candidate_identity(cs[k]))) && wsl_target_for(
            input,
            cs,
            t,
            cs[k],
        )
}

/// Whether the configured home is another home than the default one.
pub open spec fn custom_home_differs(input: WindowsDetection) -> bool {
    home_identity_spec(input.configured_home.physical@) != home_identity_spec(
        input.default_home.physical@,
    )
}

/// Where the WSL targets start: after the default target, and the custom
/// one when there is one.
pub open spec fn first_wsl_index(input: WindowsDetection) -> int {
    if custom_home_differs(input) {
        2
    } else {
        1
    }
}

/// The targets after the distributions `cs`: the default home first
/// (`windows-native`); then `windows-custom` when the configured home is
/// another one; then one WSL target per home no earlier target has; no home
/// twice; and a target for the home of every kept distribution.
pub open spec fn targets_after(input: WindowsDetection, cs: Seq<WslCandidate>, r: Seq<CodexTarget>) -> bool {
    &&& r.len() >= first_wsl_index(input)
    &&& windows_target_ok(input, cs, r[0], "windows-native"@, input.default_home, "Codex App + CLI"@)
    &&& custom_home_differs(input) ==> windows_target_ok(
        input,
        cs,
        r[1],
        "windows-custom"@,
        input.configured_home,
        "Codex custom home"@,
    )
    &&& forall|t: int| first_wsl_index(input) <= t < r.len() ==> wsl_target_ok(input, cs, #[trigger] r[t])
    &&& distinct_homes(r)
    &&& forall|k: int|
        0 <= k < cs.len() && wsl_candidate_kept(#[trigger] cs[k]) ==> exists|t: int|
            0 <= t < r.len() && home_identity_spec(r[t].physical_codex_home@) == candidate_identity(cs[k])
}

/// What the Windows detection gives: the targets after every probed
/// distribution.
pub open spec fn windows_targets_ok(input: WindowsDetection, r: Seq<CodexTarget>) -> bool {
    targets_after(input, input.wsl@, r)
}

proof fn lemma_prefix_step(cs: Seq<WslCandidate>, k: int, identity: Seq<char>)
    requires
        0 <= k < cs.len(),
    ensures
        match_count(cs.take(k + 1), identity) == match_count(cs.take(k), identity) + if home_match(
            cs[k],
            identity,
        ) {
            1nat
        } else {
            0nat
        },
        attached_runtimes(cs.take(k + 1), identity) == attached_runtimes(cs.take(k), identity) + if home_match(
            cs[k],
            identity,
        ) {
            wsl_runtimes_view(cs[k])
        } else {
            Seq::empty()
        },
        last_match_home(cs.take(k + 1), identity) == if home_match(cs[k], identity) {
            Some(cs[k].probe.codex_home)
        } else {
            last_match_home(cs.take(k), identity)
        },
        !home_match(cs[k], identity) ==> attached_runtimes(cs.take(k + 1), identity) == attached_runtimes(
            cs.take(k),
            identity,
        ),
{
    assert(cs.take(k + 1).drop_last() =~= cs.take(k));
    assert(cs.take(k + 1).last() == cs[k]);
    if !home_match(cs[k], identity) {
        assert(attached_runtimes(cs.take(k), identity) + Seq::empty() =~= attached_runtimes(cs.take(k), identity));
    }
}

proof fn lemma_no_match(cs: Seq<WslCandidate>, identity: Seq<char>)
    requires
        forall|q: int| 0 <= q < cs.len() ==> !home_match(#[trigger] cs[q], identity),
    ensures
        match_count(cs, identity) == 0,
        attached_runtimes(cs, identity) == Seq::<(Seq<char>, Option<Seq<char>>, Seq<char>, Seq<char>)>::empty(),
        last_match_home(cs, identity) is None,
    decreases cs.len(),
{
    if cs.len() > 0 {
        let d = cs.drop_last();
        assert forall|q: int| 0 <= q < d.len() implies !home_match(#[trigger] d[q], identity) by {
            assert(d[q] == cs[q]);
        }
        lemma_no_match(d, identity);
        assert(!home_match(cs[cs.len() - 1], identity));
        assert(attached_runtimes(d, identity) + Seq::empty() =~= Seq::<(Seq<char>, Option<Seq<char>>, Seq<char>, Seq<char>)>::empty());
    }
}

proof fn lemma_runtimes_concat(a: Seq<CodexRuntimeDescriptor>, b: Seq<CodexRuntimeDescriptor>)
    ensures
        runtimes_view(a + b) == runtimes_view(a) + runtimes_view(b),
{
    assert(runtimes_view(a + b) =~= runtimes_view(a) + runtimes_view(b));
}

proof fn lemma_windows_target_extends(
    input: WindowsDetection,
    cs: Seq<WslCandidate>,
    k: int,
    t: CodexTarget,
    id: Seq<char>,
    home: HomeCandidate,
    label: Seq<char>,
)
    requires
        0 <= k < cs.len(),
        windows_target_ok(input, cs.take(k), t, id, home, label),
        !home_match(cs[k], home_identity_spec(home.physical@)),
    ensures
        windows_target_ok(input, cs.take(k + 1), t, id, home, label),
{
    lemma_prefix_step(cs, k, home_identity_spec(home.physical@));
}

proof fn lemma_windows_target_merged(
    input: WindowsDetection,
    cs: Seq<WslCandidate>,
    k: int,
    e: CodexTarget,
    m: CodexTarget,
    target: CodexTarget,
    id: Seq<char>,
    home: HomeCandidate,
    label: Seq<char>,
)
    requires
        0 <= k < cs.len(),
        windows_target_ok(input, cs.take(k), e, id, home, label),
        home_match(cs[k], home_identity_spec(home.physical@)),
        m.id == e.id,
        m.physical_codex_home == e.physical_codex_home,
        m.codex_home == e.codex_home,
        m.hook_path == e.hook_path,
        m.environment@ == "shared"@,
        m.label@ == shared_label(e.id@),
        m.summary_runtimes@ == e.summary_runtimes@ + target.summary_runtimes@,
        runtimes_view(target.summary_runtimes@) == wsl_runtimes_view(cs[k]),
        target.codex_home == Some(cs[k].probe.codex_home),
        shared_command_ok(
            e.id@,
            e.codex_home,
            target.codex_home,
            input.executable@,
            input.data_dir@,
            input.powershell,
            m.command,
            m.enable_error,
        ),
    ensures
        windows_target_ok(input, cs.take(k + 1), m, id, home, label),
{
    let identity = home_identity_spec(home.physical@);
    lemma_prefix_step(cs, k, identity);
    lemma_runtimes_concat(e.summary_runtimes@, target.summary_runtimes@);
    assert(native_runtimes_view(id, input.native_executable, home.display@) + attached_runtimes(
        cs.take(k),
        identity,
    ) + wsl_runtimes_view(cs[k]) =~= native_runtimes_view(id, input.native_executable, home.display@)
        + attached_runtimes(cs.take(k + 1), identity));
}

proof fn lemma_wsl_target_extends(input: WindowsDetection, cs: Seq<WslCandidate>, k: int, t: CodexTarget)
    requires
        0 <= k < cs.len(),
        wsl_target_ok(input, cs.take(k), t),
        !home_match(cs[k], home_identity_spec(t.physical_codex_home@)),
    ensures
        wsl_target_ok(input, cs.take(k + 1), t),
{
    let a = cs.take(k);
    let b = cs.take(k + 1);
    let w = choose|w: int|
        0 <= w < a.len() && wsl_candidate_kept(#[trigger] a[w]) && (forall|q: int|
            0 <= q < w ==> !home_match(a[q], candidate_identity(a[w]))) && wsl_target_for(input, a, t, a[w]);
    assert(b[w] == a[w]);
    assert forall|q: int| 0 <= q < w implies !home_match(b[q], candidate_identity(b[w])) by {
        assert(b[q] == a[q]);
    }
    lemma_prefix_step(cs, k, candidate_identity(a[w]));
    assert(wsl_target_for(input, b, t, b[w]));
    assert(wsl_candidate_kept(b[w]));
}

proof fn lemma_wsl_target_merged(
    input: WindowsDetection,
    cs: Seq<WslCandidate>,
    k: int,
    e: CodexTarget,
    m: CodexTarget,
    target: CodexTarget,
)
    requires
        0 <= k < cs.len(),
        wsl_target_ok(input, cs.take(k), e),
        home_match(cs[k], home_identity_spec(e.physical_codex_home@)),
        m.id == e.id,
        m.physical_codex_home == e.physical_codex_home,
        m.codex_home == e.codex_home,
        m.hook_path == e.hook_path,
        m.environment@ == "shared"@,
        m.label@ == shared_label(e.id@),
        m.summary_runtimes@ == e.summary_runtimes@ + target.summary_runtimes@,
        runtimes_view(target.summary_runtimes@) == wsl_runtimes_view(cs[k]),
        target.codex_home == Some(cs[k].probe.codex_home),
        shared_command_ok(
            e.id@,
            e.codex_home,
            target.codex_home,
            input.executable@,
            input.data_dir@,
            input.powershell,
            m.command,
            m.enable_error,
        ),
        "windows-native"@[1] == 'i',
    ensures
        wsl_target_ok(input, cs.take(k + 1), m),
{
    let a = cs.take(k);
    let b = cs.take(k + 1);
    let w = choose|w: int|
        0 <= w < a.len() && wsl_candidate_kept(#[trigger] a[w]) && (forall|q: int|
            0 <= q < w ==> !home_match(a[q], candidate_identity(a[w]))) && wsl_target_for(input, a, e, a[w]);
    let identity = candidate_identity(a[w]);
    assert(b[w] == a[w]);
    assert forall|q: int| 0 <= q < w implies !home_match(b[q], candidate_identity(b[w])) by {
        assert(b[q] == a[q]);
    }
    lemma_prefix_step(cs, k, identity);
    lemma_runtimes_concat(e.summary_runtimes@, target.summary_runtimes@);
    reveal_strlit("wsl:");
    assert(e.id@[1] == 's');
    assert(e.id@ != "windows-native"@);
    assert(wsl_target_for(input, b, m, b[w]));
    assert(wsl_candidate_kept(b[w]));
}

proof fn lemma_wsl_target_new(input: WindowsDetection, cs: Seq<WslCandidate>, k: int, t: CodexTarget)
    requires
        0 <= k < cs.len(),
        wsl_candidate_kept(cs[k]),
        forall|q: int| 0 <= q < k ==> !home_match(#[trigger] cs[q], candidate_identity(cs[k])),
        t.id@ == "wsl:"@ + cs[k].probe.distro@,
        t.physical_codex_home == cs[k].windows_home->0,
        t.codex_home == Some(cs[k].probe.codex_home),
        hook_path_ok(t),
        runtimes_view(t.summary_runtimes@) == wsl_runtimes_view(cs[k]),
        t.environment@ == "wsl"@,
        t.label@ == "Codex · "@ + cs[k].probe.distro@,
        (crate::paths::valid_capture_target_spec(t.id@) && crate::windows_paths::wsl_hook_result_ok(
            input.executable@,
            cs[k].probe.distro@,
        )) ==> (t.command matches Some(x) && x@.windows is None && x@.posix
            == crate::windows_paths::wsl_hook_command_spec(
            crate::windows_paths::windows_path_to_wsl_spec(input.executable@)->0,
            input.data_dir@,
            cs[k].probe.distro@,
            Some(t.id@),
            Some(cs[k].probe.codex_home@),
        )),
    ensures
        wsl_target_ok(input, cs.take(k + 1), t),
{
    let a = cs.take(k);
    let b = cs.take(k + 1);
    let identity = candidate_identity(cs[k]);
    assert forall|q: int| 0 <= q < a.len() implies !home_match(#[trigger] a[q], identity) by {
        assert(a[q] == cs[q]);
    }
    lemma_no_match(a, identity);
    lemma_prefix_step(cs, k, identity);
    assert(Seq::<(Seq<char>, Option<Seq<char>>, Seq<char>, Seq<char>)>::empty() + wsl_runtimes_view(cs[k])
        =~= wsl_runtimes_view(cs[k]));
    assert(b[k] == cs[k]);
    assert forall|q: int| 0 <= q < k implies !home_match(b[q], candidate_identity(b[k])) by {
        assert(b[q] == cs[q]);
    }
    assert(wsl_target_for(input, b, t, b[k]));
    assert(wsl_candidate_kept(b[k]));
}

proof fn lemma_step_kept(
    input: WindowsDetection,
    cs: Seq<WslCandidate>,
    k: int,
    before: Seq<CodexTarget>,
    tgt: CodexTarget,
    after: Seq<CodexTarget>,
)
    requires
        0 <= k < cs.len(),
        "windows-custom"@ != "windows-native"@,
        "wsl:"@ == seq!['w', 's', 'l', ':'],
        "windows-native"@[1] == 'i',
        targets_after(input, cs.take(k), before),
        merge_outcome(before, tgt, input.executable@, input.data_dir@, input.powershell, after),
        distinct_homes(after),
        wsl_candidate_kept(cs[k]),
        tgt.id@ == "wsl:"@ + cs[k].probe.distro@,
        tgt.physical_codex_home == cs[k].windows_home->0,
        tgt.codex_home == Some(cs[k].probe.codex_home),
        hook_path_ok(tgt),
        runtimes_view(tgt.summary_runtimes@) == wsl_runtimes_view(cs[k]),
        tgt.environment@ == "wsl"@,
        tgt.label@ == "Codex · "@ + cs[k].probe.distro@,
        (crate::paths::valid_capture_target_spec(tgt.id@) && crate::windows_paths::wsl_hook_result_ok(
            input.executable@,
            cs[k].probe.distro@,
        )) ==> (tgt.command matches Some(x) && x@.windows is None && x@.posix
            == crate::windows_paths::wsl_hook_command_spec(
            crate::windows_paths::windows_path_to_wsl_spec(input.executable@)->0,
            input.data_dir@,
            cs[k].probe.distro@,
            Some(tgt.id@),
            Some(cs[k].probe.codex_home@),
        )),
    ensures
        targets_after(input, cs.take(k + 1), after),
{
    let a = cs.take(k);
    let b = cs.take(k + 1);
    assert(b.drop_last() =~= a);
    assert(b[k] == cs[k]);
    let identity = home_identity_spec(tgt.physical_codex_home@);
                let first = first_wsl_index(input);
                assert(identity == candidate_identity(cs[k]));
                assert(home_match(cs[k], identity));
                if exists|q: int|
                    0 <= q < before.len() && home_identity_spec(
                        (#[trigger] before[q]).physical_codex_home@,
                    ) == identity {
                    let j = choose|j: int|
                        0 <= j < before.len() && home_identity_spec(
                            (#[trigger] before[j]).physical_codex_home@,
                        ) == home_identity_spec(tgt.physical_codex_home@) && forall|q: int|
                            0 <= q < j ==> home_identity_spec(
                                (#[trigger] before[q]).physical_codex_home@,
                            ) != home_identity_spec(tgt.physical_codex_home@);
                    assert(after.len() == before.len());
                    assert forall|t: int| 0 <= t < before.len() && t != j implies home_identity_spec(
                        (#[trigger] before[t]).physical_codex_home@,
                    ) != identity by {
                        if home_identity_spec(before[t].physical_codex_home@) == identity {
                            if t < j {
                                assert(distinct_homes(before));
                            } else {
                                assert(home_identity_spec(before[j].physical_codex_home@)
                                    != home_identity_spec(before[t].physical_codex_home@));
                            }
                        }
                    }
                    if j == 0 {
                        lemma_windows_target_merged(
                            input,
                            cs,
                            k,
                            before[0],
                            after[0],
                            tgt,
                            "windows-native"@,
                            input.default_home,
                            "Codex App + CLI"@,
                        );
                    } else {
                        assert(after[0] == before[0]);
                        lemma_windows_target_extends(
                            input,
                            cs,
                            k,
                            before[0],
                            "windows-native"@,
                            input.default_home,
                            "Codex App + CLI"@,
                        );
                    }
                    if custom_home_differs(input) {
                        if j == 1 {
                            lemma_windows_target_merged(
                                input,
                                cs,
                                k,
                                before[1],
                                after[1],
                                tgt,
                                "windows-custom"@,
                                input.configured_home,
                                "Codex custom home"@,
                            );
                        } else {
                            assert(after[1] == before[1]);
                            lemma_windows_target_extends(
                                input,
                                cs,
                                k,
                                before[1],
                                "windows-custom"@,
                                input.configured_home,
                                "Codex custom home"@,
                            );
                        }
                    }
                    assert forall|t: int|
                        first <= t < after.len() implies wsl_target_ok(input, b, #[trigger] after[t]) by {
                        assert(wsl_target_ok(input, a, before[t]));
                        if t == j {
                            lemma_wsl_target_merged(input, cs, k, before[t], after[t], tgt);
                        } else {
                            assert(after[t] == before[t]);
                            lemma_wsl_target_extends(input, cs, k, before[t]);
                        }
                    }
                } else {
                    assert(after == before.push(tgt));
                    assert forall|t: int| 0 <= t < before.len() implies home_identity_spec(
                        (#[trigger] before[t]).physical_codex_home@,
                    ) != identity by {}
                    assert forall|q: int| 0 <= q < k implies !home_match(#[trigger] cs[q], identity) by {
                        if home_match(cs[q], identity) {
                            assert(a[q] == cs[q]);
                            assert(wsl_candidate_kept(a[q]));
                            let t = choose|t: int|
                                0 <= t < before.len() && home_identity_spec(before[t].physical_codex_home@)
                                    == candidate_identity(a[q]);
                            assert(home_identity_spec(before[t].physical_codex_home@) == identity);
                        }
                    }
                    assert(after[0] == before[0]);
                    lemma_windows_target_extends(
                        input,
                        cs,
                        k,
                        before[0],
                        "windows-native"@,
                        input.default_home,
                        "Codex App + CLI"@,
                    );
                    if custom_home_differs(input) {
                        assert(after[1] == before[1]);
                        lemma_windows_target_extends(
                            input,
                            cs,
                            k,
                            before[1],
                            "windows-custom"@,
                            input.configured_home,
                            "Codex custom home"@,
                        );
                    }
                    assert forall|t: int|
                        first <= t < after.len() implies wsl_target_ok(input, b, #[trigger] after[t]) by {
                        if t < before.len() {
                            assert(after[t] == before[t]);
                            assert(wsl_target_ok(input, a, before[t]));
                            lemma_wsl_target_extends(input, cs, k, before[t]);
                        } else {
                            lemma_wsl_target_new(input, cs, k, tgt);
                        }
                    }
                }
                assert forall|m: int|
                    0 <= m < b.len() && wsl_candidate_kept(#[trigger] b[m]) implies exists|t: int|
                        0 <= t < after.len() && home_identity_spec(after[t].physical_codex_home@)
                            == candidate_identity(b[m]) by {
                    if m < k {
                        assert(b[m] == a[m]);
                        assert(wsl_candidate_kept(a[m]));
                        let t = choose|t: int|
                            0 <= t < before.len() && home_identity_spec(before[t].physical_codex_home@)
                                == candidate_identity(a[m]);
                        assert(after.len() >= before.len());
                        if t < before.len() && after[t].physical_codex_home == before[t].physical_codex_home {
                        } else {
                            assert(false);
                        }
                    } else {
                        if exists|q: int|
                            0 <= q < before.len() && home_identity_spec(
                                (#[trigger] before[q]).physical_codex_home@,
                            ) == identity {
                            let q = choose|q: int|
                                0 <= q < before.len() && home_identity_spec(
                                    (#[trigger] before[q]).physical_codex_home@,
                                ) == identity;
                        } else {
                            assert(after[before.len() as int].physical_codex_home@
                                == cs[k].windows_home->0@);
                        }
                    }
                }
                assert(targets_after(input, b, after));
            }

proof fn lemma_step_skipped(input: WindowsDetection, cs: Seq<WslCandidate>, k: int, after: Seq<CodexTarget>)
    requires
        0 <= k < cs.len(),
        targets_after(input, cs.take(k), after),
        !wsl_candidate_kept(cs[k]),
    ensures
        targets_after(input, cs.take(k + 1), after),
{
    let a = cs.take(k);
    let b = cs.take(k + 1);
    assert(b.drop_last() =~= a);
    assert(b[k] == cs[k]);
                assert(!home_match(cs[k], home_identity_spec(input.default_home.physical@)));
                lemma_windows_target_extends(
                    input,
                    cs,
                    k,
                    after[0],
                    "windows-native"@,
                    input.default_home,
                    "Codex App + CLI"@,
                );
                if custom_home_differs(input) {
                    lemma_windows_target_extends(
                        input,
                        cs,
                        k,
                        after[1],
                        "windows-custom"@,
                        input.configured_home,
                        "Codex custom home"@,
                    );
                }
                assert forall|t: int|
                    first_wsl_index(input) <= t < after.len() implies wsl_target_ok(
                        input,
                        b,
                        #[trigger] after[t],
                    ) by {
                    lemma_wsl_target_extends(input, cs, k, after[t]);
                }
                assert forall|m: int|
                    0 <= m < b.len() && wsl_candidate_kept(#[trigger] b[m]) implies exists|t: int|
                        0 <= t < after.len() && home_identity_spec(after[t].physical_codex_home@)
                            == candidate_identity(b[m]) by {
                    assert(b[m] == a[m]);
                    assert(wsl_candidate_kept(a[m]));
                }
                assert(targets_after(input, b, after));
            }

/// The targets of a Windows machine: the default home (App and CLI), a
/// configured home when it is a different one, and each WSL distribution
/// with Codex, merged into the target whose home it shares.
pub fn detect_windows_targets(input: &WindowsDetection) -> (r: Vec<CodexTarget>)
    ensures
        windows_targets_ok(*input, r@),
{
    let ghost cs = input.wsl@;
    proof {
        reveal_strlit("windows-native");
        reveal_strlit("windows-custom");
        reveal_strlit("wsl:");
        assert(crate::paths::valid_capture_target_spec("windows-native"@));
        assert(crate::paths::valid_capture_target_spec("windows-custom"@));
        assert("windows-custom"@ != "windows-native"@) by {
            assert("windows-custom"@[8] != "windows-native"@[8]);
        }
        assert(cs.take(0) =~= Seq::<WslCandidate>::empty());
        lemma_no_match(cs.take(0), home_identity_spec(input.default_home.physical@));
        lemma_no_match(cs.take(0), home_identity_spec(input.configured_home.physical@));
    }
    let mut targets: Vec<CodexTarget> = Vec::new();
    let default_command = match windows_command(
        &input.powershell,
        input.executable.as_str(),
        input.data_dir.as_str(),
        "windows-native",
        input.default_home.display.as_str(),
    ) {
        Ok(c) => Ok(CodexHookCommand::same(c.as_str())),
        Err(e) => Err(e),
    };
    let mut default_target = target_from_home(
        "windows-native".to_owned(),
        "Codex App + CLI".to_owned(),
        "windows".to_owned(),
        input.default_home.physical.clone(),
        input.default_home.display.clone(),
        default_command,
        true,
    );
    default_target.summary_runtimes = native_runtimes(
        "windows-native",
        &input.native_executable,
        input.default_home.display.as_str(),
    );
    proof {
        reveal_strlit("Codex App + CLI");
        reveal_strlit("windows");
        assert(runtimes_view(default_target.summary_runtimes@) =~= native_runtimes_view(
            "windows-native"@,
            input.native_executable,
            input.default_home.display@,
        ) + attached_runtimes(cs.take(0), home_identity_spec(input.default_home.physical@)));
    }
    assert(windows_target_ok(
        *input,
        cs.take(0),
        default_target,
        "windows-native"@,
        input.default_home,
        "Codex App + CLI"@,
    ));
    push_detected_target(&mut targets, default_target);
    assert(targets@.len() == 1);
    let configured_identity = home_identity(input.configured_home.physical.as_str());
    let default_identity = home_identity(input.default_home.physical.as_str());
    if !chars_eq(
        chars_of(configured_identity.as_str()).as_slice(),
        chars_of(default_identity.as_str()).as_slice(),
    ) {
        let configured_command = match windows_command(
            &input.powershell,
            input.executable.as_str(),
            input.data_dir.as_str(),
            "windows-custom",
            input.configured_home.display.as_str(),
        ) {
            Ok(c) => Ok(CodexHookCommand::same(c.as_str())),
            Err(e) => Err(e),
        };
        let mut configured_target = target_from_home(
            "windows-custom".to_owned(),
            "Codex custom home".to_owned(),
            "windows".to_owned(),
            input.configured_home.physical.clone(),
            input.configured_home.display.clone(),
            configured_command,
            true,
        );
        configured_target.summary_runtimes = native_runtimes(
            "windows-custom",
            &input.native_executable,
            input.configured_home.display.as_str(),
        );
        proof {
            reveal_strlit("Codex custom home");
            assert(runtimes_view(configured_target.summary_runtimes@) =~= native_runtimes_view(
                "windows-custom"@,
                input.native_executable,
                input.configured_home.display@,
            ) + attached_runtimes(cs.take(0), home_identity_spec(input.configured_home.physical@)));
        }
        assert(windows_target_ok(
            *input,
            cs.take(0),
            configured_target,
            "windows-custom"@,
            input.configured_home,
            "Codex custom home"@,
        ));
        push_detected_target(&mut targets, configured_target);
        assert(targets@.len() == 2);
    }
    assert(targets_after(*input, cs.take(0), targets@));
    let mut k: usize = 0;
    while k < input.wsl.len()
        invariant
            k <= input.wsl@.len(),
            cs == input.wsl@,
            "windows-custom"@ != "windows-native"@,
            "wsl:"@ == seq!['w', 's', 'l', ':'],
            "windows-native"@[1] == 'i',
            targets_after(*input, cs.take(k as int), targets@),
        decreases input.wsl.len() - k,
    {
        let ghost a = cs.take(k as int);
        let ghost b = cs.take(k + 1);
        proof {
            assert(b.drop_last() =~= a);
            assert(b[k as int] == cs[k as int]);
        }
        let candidate = &input.wsl[k];
        let keep = match &candidate.windows_home {
            Some(_) => !candidate.probe.codex_binary.as_str().is_empty() || candidate.has_state,
            None => false,
        };
        if keep {
            let windows_home = match &candidate.windows_home {
                Some(h) => h.clone(),
                None => String::new(),
            };
            let probe = &candidate.probe;
            let target_id = concat_strings("wsl:", probe.distro.as_str());
            let label = concat_strings("Codex · ", probe.distro.as_str());
            let command = match wsl_hook_command_for_target_and_home(
                input.executable.as_str(),
                input.data_dir.as_str(),
                probe.distro.as_str(),
                target_id.as_str(),
                probe.codex_home.as_str(),
            ) {
                Ok(c) => Ok(CodexHookCommand::posix(c.as_str())),
                Err(e) => Err(e),
            };
            let mut target = target_from_home(
                target_id.clone(),
                label,
                "wsl".to_owned(),
                windows_home,
                probe.codex_home.clone(),
                command,
                true,
            );
            let binary = chars_of(probe.codex_binary.as_str());
            let home = chars_of(probe.codex_home.as_str());
            if binary.len() > 0 && binary[0] == '/' && home.len() > 0 && home[0] == '/' {
                target.summary_runtimes.push(
                    CodexRuntimeDescriptor::Wsl {
                        capture_target: target_id,
                        distro: probe.distro.clone(),
                        executable: probe.codex_binary.clone(),
                        codex_home: probe.codex_home.clone(),
                    },
                );
            }
            proof {
                reveal_strlit("wsl");
                reveal_strlit("Codex · ");
                assert(wsl_candidate_kept(cs[k as int]));
                assert(runtimes_view(target.summary_runtimes@) =~= wsl_runtimes_view(cs[k as int]));
                assert(hook_path_ok(target));
            }
            let ghost identity = home_identity_spec(target.physical_codex_home@);
            let ghost before = targets@;
            let ghost tgt = target;
            merge_or_push_wsl_target(
                &mut targets,
                target,
                input.executable.as_str(),
                input.data_dir.as_str(),
                &input.powershell,
            );
            proof {
                lemma_step_kept(*input, cs, k as int, before, tgt, targets@);
            }
        } else {
            proof {
                lemma_step_skipped(*input, cs, k as int, targets@);
            }
        }
        k = k + 1;
    }
    proof {
        assert(cs.take(cs.len() as int) =~= cs);
    }
    targets
}

/// What the POSIX detection gives: one `local` target for the Codex home,
/// installing the POSIX capture command, with the native runtime if found.
pub open spec fn posix_targets_ok(input: PosixDetection, r: Seq<CodexTarget>) -> bool {
    &&& r.len() == 1
    &&& r[0].id@ == "local"@
    &&& r[0].label@ == "Codex CLI"@
    &&& r[0].environment@ == "posix"@
    &&& r[0].physical_codex_home == input.codex_home.physical
    &&& r[0].codex_home == Some(input.codex_home.display)
    &&& (r[0].command matches Some(c) && c@.posix == crate::paths::posix_hook_command_spec(
        input.executable@,
        input.data_dir@,
        Some("local"@),
        Some(input.codex_home.display@),
    ) && c@.windows == Some(c@.posix))
    &&& input.native_executable is None ==> r[0].summary_runtimes@.len() == 0
    &&& input.native_executable matches Some(e) ==> r[0].summary_runtimes@.len() == 1
        && (r[0].summary_runtimes@[0] matches CodexRuntimeDescriptor::Native {
        capture_target,
        executable,
        codex_home,
    } && capture_target@ == "local"@ && executable == e && codex_home@ == input.codex_home.display@)
}

/// The target of a POSIX machine: its one Codex home.
pub fn detect_posix_targets(input: &PosixDetection) -> (r: Vec<CodexTarget>)
    ensures
        posix_targets_ok(*input, r@),
{
    proof {
        reveal_strlit("local");
        assert(crate::paths::valid_capture_target_spec("local"@));
    }
    let command = match crate::paths::hook_command_for_target_and_home(
        input.executable.as_str(),
        input.data_dir.as_str(),
        "local",
        input.codex_home.display.as_str(),
    ) {
        Ok(c) => Ok(CodexHookCommand::same(c.as_str())),
        Err(e) => Err(e),
    };
    let mut target = target_from_home(
        "local".to_owned(),
        "Codex CLI".to_owned(),
        "posix".to_owned(),
        input.codex_home.physical.clone(),
        input.codex_home.display.clone(),
        command,
        false,
    );
    target.summary_runtimes = native_runtimes(
        "local",
        &input.native_executable,
        input.codex_home.display.as_str(),
    );
    let mut r: Vec<CodexTarget> = Vec::new();
    r.push(target);
    r
}

/// What was probed, by host kind.
#[derive(Debug)]
pub enum Detection {
    Windows(WindowsDetection),
    Posix(PosixDetection),
}

impl CodexTargetRegistry {
    /// The registry of the installations detected on this machine.
    pub fn detect(detection: &Detection) -> (r: Self)
        ensures
            *detection matches Detection::Windows(w) ==> windows_targets_ok(w, r.targets@),
            *detection matches Detection::Posix(p) ==> posix_targets_ok(p, r.targets@),
    {
        let targets = match detection {
            Detection::Windows(w) => detect_windows_targets(w),
            Detection::Posix(p) => detect_posix_targets(p),
        };
        CodexTargetRegistry::new(targets)
    }
}

} // verus!
