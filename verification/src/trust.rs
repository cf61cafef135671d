//! Codex hook trust: where a managed hook is recorded in `config.toml`, and
//! the exact hash Codex expects for it.
use sha2::Digest;
use vstd::prelude::*;

use crate::lifecycle::{
    command_for_spec, trust_label_spec, CodexHookCommand, CommandView, HookEvent, HookLocation,
    HookPlatform,
};
use crate::text::{
    ascii_lower, ascii_lower_seq, chars_of, concat_map, find_from, first_occurrence,
    insert_sorted, is_ascii_alpha, is_ascii_alpha_spec, lemma_concat_map_take,
    lemma_first_occurrence_from, push_all, push_str, replace_char, replace_char_spec,
    starts_with, starts_with_spec, starts_with_str, string_from_chars, strictly_sorted, sub_vec,
    to_ascii_lower, to_ascii_lower_spec, views, CharSeq, CharVec, sorted_seq_of,
    lemma_sorted_seq_of,
};
use crate::windows_paths::trim_start_char_spec;

verus! {

/// A manifest path as Codex records it, with the platform whose command runs
/// from it.
#[derive(Clone, Debug, PartialEq, Eq)]
pub struct TrustSource {
    pub hook_path: String,
    pub platform: HookPlatform,
}

// ---------------------------------------------------------------------------
// Decimal and hexadecimal text
// ---------------------------------------------------------------------------

pub open spec fn digit_char(d: nat) -> char {
    ((('0' as u32) + d) as u32) as char
}

/// The decimal representation of `n`.
pub open spec fn decimal_spec(n: nat) -> Seq<char>
    decreases n,
{
    if n < 10 {
        seq![digit_char(n)]
    } else {
        decimal_spec(n / 10) + seq![digit_char(n % 10)]
    }
}

pub fn decimal_digits(n: usize) -> (r: Vec<char>)
    ensures
        r@ == decimal_spec(n as nat),
    decreases n,
{
    let d: u32 = (n % 10) as u32;
    let c = crate::text::char_from_ascii(48 + d);
    if n < 10 {
        let mut v: Vec<char> = Vec::new();
        v.push(c);
        assert(v@ =~= decimal_spec(n as nat));
        v
    } else {
        let mut v = decimal_digits(n / 10);
        v.push(c);
        assert(v@ =~= decimal_spec(n as nat));
        v
    }
}

pub fn decimal_digits_u64(n: u64) -> (r: Vec<char>)
    ensures
        r@ == decimal_spec(n as nat),
    decreases n,
{
    let d: u32 = (n % 10) as u32;
    let c = crate::text::char_from_ascii(48 + d);
    if n < 10 {
        let mut v: Vec<char> = Vec::new();
        v.push(c);
        assert(v@ =~= decimal_spec(n as nat));
        v
    } else {
        let mut v = decimal_digits_u64(n / 10);
        v.push(c);
        assert(v@ =~= decimal_spec(n as nat));
        v
    }
}

/// The decimal representation of an integer, with `-` before a negative
/// one.
pub open spec fn signed_decimal_spec(i: int) -> Seq<char> {
    if i < 0 {
        seq!['-'] + decimal_spec((-i) as nat)
    } else {
        decimal_spec(i as nat)
    }
}

pub fn decimal_digits_i64(i: i64) -> (r: Vec<char>)
    ensures
        r@ == signed_decimal_spec(i as int),
{
    if i < 0 {
        let magnitude: u64 = if i == i64::MIN {
            9223372036854775808u64
        } else {
            (-i) as u64
        };
        let digits = decimal_digits_u64(magnitude);
        let mut r: Vec<char> = Vec::new();
        r.push('-');
        crate::text::push_all(&mut r, digits.as_slice());
        assert(r@ =~= signed_decimal_spec(i as int));
        r
    } else {
        decimal_digits_u64(i as u64)
    }
}

pub open spec fn hex_digit(d: int) -> char {
    if d < 10 {
        (('0' as u32) + d) as char
    } else {
        (('a' as u32) + (d - 10)) as char
    }
}

/// The two lowercase hexadecimal digits of a byte.
pub open spec fn hex_byte(b: u8) -> Seq<char> {
    seq![hex_digit(b as int / 16), hex_digit(b as int % 16)]
}

/// Lowercase hexadecimal text of a byte sequence.
pub open spec fn hex_lower_spec(bytes: Seq<u8>) -> Seq<char> {
    concat_map(bytes, |b: u8| hex_byte(b))
}

pub fn hex_digit_exec(d: u8) -> (c: char)
    requires
        d < 16,
    ensures
        c == hex_digit(d as int),
{
    if d < 10 {
        crate::text::char_from_ascii(48 + d as u32)
    } else {
        crate::text::char_from_ascii(97 + (d as u32 - 10))
    }
}

pub fn hex_lower(bytes: &[u8]) -> (r: Vec<char>)
    ensures
        r@ == hex_lower_spec(bytes@),
{
    let ghost f = |b: u8| hex_byte(b);
    let mut out: Vec<char> = Vec::new();
    let mut i: usize = 0;
    while i < bytes.len()
        invariant
            i <= bytes@.len(),
            f == (|b: u8| hex_byte(b)),
            out@ == concat_map(bytes@.take(i as int), f),
        decreases bytes.len() - i,
    {
        proof {
            lemma_concat_map_take(bytes@, i as int, f);
        }
        let b = bytes[i];
        out.push(hex_digit_exec(b / 16));
        out.push(hex_digit_exec(b % 16));
        assert(out@ =~= concat_map(bytes@.take(i as int), f) + f(b));
        i = i + 1;
    }
    assert(bytes@.take(bytes.len() as int) =~= bytes@);
    out
}

// ---------------------------------------------------------------------------
// JSON text and SHA-256 (outside crates)
// ---------------------------------------------------------------------------

/// The JSON escape of one character inside a string literal.
pub open spec fn json_escape_char(c: char) -> Seq<char> {
    if c == '"' {
        seq!['\\', '"']
    } else if c == '\\' {
        seq!['\\', '\\']
    } else if c == '\u{8}' {
        seq!['\\', 'b']
    } else if c == '\t' {
        seq!['\\', 't']
    } else if c == '\n' {
        seq!['\\', 'n']
    } else if c == '\u{c}' {
        seq!['\\', 'f']
    } else if c == '\r' {
        seq!['\\', 'r']
    } else if (c as u32) < 0x20 {
        seq!['\\', 'u', '0', '0', hex_digit((c as u32) as int / 16), hex_digit((c as u32) as int % 16)]
    } else {
        seq![c]
    }
}

/// A JSON string literal denoting `s`.
pub open spec fn json_string_spec(s: Seq<char>) -> Seq<char> {
    seq!['"'] + concat_map(s, |c: char| json_escape_char(c)) + seq!['"']
}

/// `serde_json::to_string` of a string: the quoted literal, escaping `"`,
/// `\`, and the control characters below U+0020 (named escapes for
/// backspace, tab, newline, form feed and carriage return; `\u00XX` with
/// lowercase hex for the rest). Every other character is written as itself.
#[verifier::external_body]
pub(crate) fn json_string_literal(s: &str) -> (r: String)
    ensures
        r@ == json_string_spec(s@),
{
    serde_json::to_string(s).unwrap_or_default()
}

/// The SHA-256 digest of the UTF-8 encoding of a text.
pub uninterp spec fn sha256_of_utf8(text: Seq<char>) -> Seq<u8>;

/// `sha2::Sha256::digest` of the UTF-8 bytes of `text`: a 32-byte digest
/// that depends on the text alone.
#[verifier::external_body]
pub(crate) fn sha256_text(text: &str) -> (r: Vec<u8>)
    ensures
        r@ == sha256_of_utf8(text@),
        r@.len() == 32,
{
    sha2::Sha256::digest(text.as_bytes()).to_vec()
}

// ---------------------------------------------------------------------------
// Hook trust hashes
// ---------------------------------------------------------------------------

/// Seconds Codex waits for a managed capture hook.
pub const CAPTURE_HOOK_TIMEOUT_SECONDS: u64 = 5;

/// The canonical (key-sorted, compact) JSON identity Codex hashes for a
/// synchronous command hook with a 5 second timeout.
pub open spec fn hook_identity_spec(event: HookEvent, command: Seq<char>) -> Seq<char> {
    "{\"event_name\":"@ + json_string_spec(trust_label_spec(event))
        + ",\"hooks\":[{\"async\":false,\"command\":"@ + json_string_spec(command)
        + ",\"timeout\":5,\"type\":\"command\"}]}"@
}

/// The trusted hash Codex records for a managed hook.
pub open spec fn trusted_hash_spec(event: HookEvent, command: Seq<char>) -> Seq<char> {
    "sha256:"@ + hex_lower_spec(sha256_of_utf8(hook_identity_spec(event, command)))
}

pub fn hook_identity(event: HookEvent, command: &str) -> (r: String)
    ensures
        r@ == hook_identity_spec(event, command@),
{
    let mut out: Vec<char> = Vec::new();
    push_str(&mut out, "{\"event_name\":");
    let label = json_string_literal(event.trust_label());
    push_str(&mut out, label.as_str());
    push_str(&mut out, ",\"hooks\":[{\"async\":false,\"command\":");
    let quoted = json_string_literal(command);
    push_str(&mut out, quoted.as_str());
    push_str(&mut out, ",\"timeout\":5,\"type\":\"command\"}]}");
    string_from_chars(out.as_slice())
}

pub fn trusted_hash_for_event(event: HookEvent, command: &str) -> (r: String)
    ensures
        r@ == trusted_hash_spec(event, command@),
{
    let identity = hook_identity(event, command);
    let digest = sha256_text(identity.as_str());
    let hex = hex_lower(digest.as_slice());
    let mut out: Vec<char> = Vec::new();
    push_str(&mut out, "sha256:");
    push_all(&mut out, hex.as_slice());
    string_from_chars(out.as_slice())
}

/// The trusted hash of a `UserPromptSubmit` hook running `command`.
pub fn trusted_hash(command: &str) -> (r: String)
    ensures
        r@ == trusted_hash_spec(HookEvent::UserPromptSubmit, command@),
{
    trusted_hash_for_event(HookEvent::UserPromptSubmit, command)
}

// ---------------------------------------------------------------------------
// State keys
// ---------------------------------------------------------------------------

/// `<hook path>:<event label>:<group>:<handler>`.
pub open spec fn state_key_spec(hook_path: Seq<char>, location: HookLocation) -> Seq<char> {
    hook_path + seq![':'] + trust_label_spec(location.event) + seq![':'] + decimal_spec(
        location.group as nat,
    ) + seq![':'] + decimal_spec(location.handler as nat)
}

pub fn hook_state_key(hook_path: &str, location: HookLocation) -> (r: String)
    ensures
        r@ == state_key_spec(hook_path@, location),
{
    let mut out: Vec<char> = Vec::new();
    push_str(&mut out, hook_path);
    out.push(':');
    push_str(&mut out, location.event.trust_label());
    out.push(':');
    let g = decimal_digits(location.group);
    push_all(&mut out, g.as_slice());
    out.push(':');
    let h = decimal_digits(location.handler);
    push_all(&mut out, h.as_slice());
    assert(out@ =~= state_key_spec(hook_path@, location));
    string_from_chars(out.as_slice())
}

// ---------------------------------------------------------------------------
// Windows manifest paths
// ---------------------------------------------------------------------------

/// A Windows path with `/` separators turned into `\` and the extended-length
/// prefix removed (`\\?\UNC\host` becomes `\\host`).
pub open spec fn preferred_windows_path_spec(path: Seq<char>) -> Seq<char> {
    let n = replace_char_spec(path, '/', seq!['\\']);
    if starts_with_spec(n, "\\\\?\\UNC\\"@) {
        seq!['\\', '\\'] + n.skip(8)
    } else if starts_with_spec(n, "\\\\?\\"@) {
        n.skip(4)
    } else {
        n
    }
}

pub fn preferred_windows_path(path: &str) -> (r: Vec<char>)
    ensures
        r@ == preferred_windows_path_spec(path@),
{
    let p = chars_of(path);
    let back: Vec<char> = vec!['\\'];
    let n = replace_char(p.as_slice(), '/', back.as_slice());
    assert(back@ =~= seq!['\\']);
    if starts_with_str(n.as_slice(), "\\\\?\\UNC\\") {
        proof {
            reveal_strlit("\\\\?\\UNC\\");
        }
        let mut out: Vec<char> = vec!['\\', '\\'];
        let rest = sub_vec(n.as_slice(), 8, n.len());
        push_all(&mut out, rest.as_slice());
        assert(out@ =~= preferred_windows_path_spec(path@));
        out
    } else if starts_with_str(n.as_slice(), "\\\\?\\") {
        proof {
            reveal_strlit("\\\\?\\");
        }
        let out = sub_vec(n.as_slice(), 4, n.len());
        assert(out@ =~= preferred_windows_path_spec(path@));
        out
    } else {
        n
    }
}

/// A drive path (`C:\...`, also behind `\\?\`) as its WSL `/mnt/<drive>` path.
pub open spec fn windows_path_to_wsl_mount_spec(path: Seq<char>) -> Option<Seq<char>> {
    let n0 = replace_char_spec(path, '\\', seq!['/']);
    let n = if starts_with_spec(n0, "//?/"@) { n0.skip(4) } else { n0 };
    if n.len() >= 3 && n[1] == ':' && n[2] == '/' && is_ascii_alpha_spec(n[0]) {
        Some(
            "/mnt/"@ + seq![to_ascii_lower_spec(n[0]), '/'] + trim_start_char_spec(
                n.skip(3),
                '/',
            ),
        )
    } else {
        None
    }
}

/// Removes leading `c` characters.
pub fn trim_start_char(s: &[char], c: char) -> (r: Vec<char>)
    ensures
        r@ == trim_start_char_spec(s@, c),
{
    let mut start: usize = 0;
    assert(s@.skip(0) =~= s@);
    while start < s.len() && s[start] == c
        invariant
            start <= s@.len(),
            trim_start_char_spec(s@, c) == trim_start_char_spec(s@.skip(start as int), c),
        decreases s.len() - start,
    {
        assert(s@.skip(start as int).drop_first() =~= s@.skip(start + 1));
        start = start + 1;
    }
    assert(s@.skip(0) =~= s@);
    let r = sub_vec(s, start, s.len());
    assert(r@ =~= s@.skip(start as int));
    r
}

pub fn windows_path_to_wsl_mount(path: &str) -> (r: Option<Vec<char>>)
    ensures
        windows_path_to_wsl_mount_spec(path@) matches Some(m) ==> (r matches Some(v) && v@ == m),
        windows_path_to_wsl_mount_spec(path@) is None ==> r is None,
{
    let p = chars_of(path);
    let slash: Vec<char> = vec!['/'];
    let n0 = replace_char(p.as_slice(), '\\', slash.as_slice());
    assert(slash@ =~= seq!['/']);
    let n = if starts_with_str(n0.as_slice(), "//?/") {
        proof {
            reveal_strlit("//?/");
        }
        sub_vec(n0.as_slice(), 4, n0.len())
    } else {
        n0
    };
    assert(starts_with_spec(n0@, "//?/"@) ==> n@ =~= n0@.skip(4));
    if n.len() >= 3 && n[1] == ':' && n[2] == '/' && is_ascii_alpha(n[0]) {
        let tail = sub_vec(n.as_slice(), 3, n.len());
        let tail = trim_start_char(tail.as_slice(), '/');
        let mut out: Vec<char> = Vec::new();
        push_str(&mut out, "/mnt/");
        out.push(to_ascii_lower(n[0]));
        out.push('/');
        push_all(&mut out, tail.as_slice());
        assert(n@.subrange(3, n@.len() as int) =~= n@.skip(3));
        assert(out@ =~= windows_path_to_wsl_mount_spec(path@)->0);
        Some(out)
    } else {
        None
    }
}

/// The length of the `\\wsl.localhost\` (or `\\wsl$\`, or extended-length)
/// prefix of a lowercased, `/`-separated path.
pub open spec fn wsl_unc_prefix_len(lower: Seq<char>) -> Option<int> {
    if starts_with_spec(lower, "//wsl.localhost/"@) {
        Some(16)
    } else if starts_with_spec(lower, "//wsl$/"@) {
        Some(7)
    } else if starts_with_spec(lower, "//?/unc/wsl.localhost/"@) {
        Some(22)
    } else {
        None
    }
}

/// A `\\wsl.localhost\<distro>\...` path as the Linux path inside the
/// distribution.
pub open spec fn wsl_unc_to_posix_spec(path: Seq<char>) -> Option<Seq<char>> {
    let n = replace_char_spec(path, '\\', seq!['/']);
    match wsl_unc_prefix_len(ascii_lower_seq(n)) {
        Some(k) => {
            let remainder = n.skip(k);
            match first_occurrence(remainder, seq!['/']) {
                Some(j) => Some(seq!['/'] + trim_start_char_spec(remainder.skip(j + 1), '/')),
                None => None,
            }
        },
        None => None,
    }
}

pub fn wsl_unc_to_posix(path: &str) -> (r: Option<Vec<char>>)
    ensures
        wsl_unc_to_posix_spec(path@) matches Some(m) ==> (r matches Some(v) && v@ == m),
        wsl_unc_to_posix_spec(path@) is None ==> r is None,
{
    let p = chars_of(path);
    let slash: Vec<char> = vec!['/'];
    let n = replace_char(p.as_slice(), '\\', slash.as_slice());
    assert(slash@ =~= seq!['/']);
    let lower = ascii_lower(n.as_slice());
    let k: usize = if starts_with_str(lower.as_slice(), "//wsl.localhost/") {
        proof {
            reveal_strlit("//wsl.localhost/");
        }
        16
    } else if starts_with_str(lower.as_slice(), "//wsl$/") {
        proof {
            reveal_strlit("//wsl$/");
        }
        7
    } else if starts_with_str(lower.as_slice(), "//?/unc/wsl.localhost/") {
        proof {
            reveal_strlit("//?/unc/wsl.localhost/");
        }
        22
    } else {
        return None;
    };
    assert(lower@.len() == n@.len());
    let remainder = sub_vec(n.as_slice(), k, n.len());
    assert(remainder@ =~= n@.skip(k as int));
    let found = find_from(remainder.as_slice(), slash.as_slice(), 0);
    proof {
        lemma_first_occurrence_from(remainder@, slash@, 0);
    }
    match found {
        Some(j) => {
            let tail = sub_vec(remainder.as_slice(), j + 1, remainder.len());
            assert(tail@ =~= remainder@.skip(j + 1));
            let tail = trim_start_char(tail.as_slice(), '/');
            let mut out: Vec<char> = vec!['/'];
            push_all(&mut out, tail.as_slice());
            assert(out@ =~= wsl_unc_to_posix_spec(path@)->0);
            Some(out)
        },
        None => None,
    }
}

// ---------------------------------------------------------------------------
// Trust sources and their path aliases
// ---------------------------------------------------------------------------

pub open spec fn source_view(s: TrustSource) -> (Seq<char>, HookPlatform) {
    (s.hook_path@, s.platform)
}

/// The trust sources of a manifest on a POSIX host: the manifest path itself.
pub open spec fn posix_trust_sources_spec(manifest_path: Seq<char>) -> Seq<(Seq<char>, HookPlatform)> {
    seq![(manifest_path, HookPlatform::Posix)]
}

/// The trust sources of a manifest on a Windows host. A WSL share is trusted
/// under its Linux path only; a Windows path is trusted natively and, for a
/// drive path, also under its `/mnt` path, in path order.
pub open spec fn windows_trust_sources_spec(manifest_path: Seq<char>) -> Seq<(Seq<char>, HookPlatform)> {
    match wsl_unc_to_posix_spec(manifest_path) {
        Some(p) => seq![(p, HookPlatform::Posix)],
        None => {
            let native = preferred_windows_path_spec(manifest_path);
            match windows_path_to_wsl_mount_spec(manifest_path) {
                Some(m) => if crate::text::lex_lt(m, native) {
                    seq![(m, HookPlatform::Posix), (native, HookPlatform::Windows)]
                } else {
                    seq![(native, HookPlatform::Windows), (m, HookPlatform::Posix)]
                },
                None => seq![(native, HookPlatform::Windows)],
            }
        },
    }
}

pub open spec fn sources_view(v: Seq<TrustSource>) -> Seq<(Seq<char>, HookPlatform)> {
    v.map_values(|s: TrustSource| source_view(s))
}

pub fn trust_sources(manifest_path: &str, windows_host: bool) -> (r: Vec<TrustSource>)
    ensures
        windows_host ==> sources_view(r@) == windows_trust_sources_spec(manifest_path@),
        !windows_host ==> sources_view(r@) == posix_trust_sources_spec(manifest_path@),
{
    let mut out: Vec<TrustSource> = Vec::new();
    if !windows_host {
        out.push(TrustSource { hook_path: manifest_path.to_owned(), platform: HookPlatform::Posix });
        assert(sources_view(out@) =~= posix_trust_sources_spec(manifest_path@));
        return out;
    }
    if let Some(p) = wsl_unc_to_posix(manifest_path) {
        out.push(TrustSource { hook_path: string_from_chars(p.as_slice()), platform: HookPlatform::Posix });
        assert(sources_view(out@) =~= windows_trust_sources_spec(manifest_path@));
        return out;
    }
    let native = preferred_windows_path(manifest_path);
    match windows_path_to_wsl_mount(manifest_path) {
        Some(m) => {
            if crate::text::lex_less(m.as_slice(), native.as_slice()) {
                out.push(TrustSource { hook_path: string_from_chars(m.as_slice()), platform: HookPlatform::Posix });
                out.push(TrustSource { hook_path: string_from_chars(native.as_slice()), platform: HookPlatform::Windows });
            } else {
                out.push(TrustSource { hook_path: string_from_chars(native.as_slice()), platform: HookPlatform::Windows });
                out.push(TrustSource { hook_path: string_from_chars(m.as_slice()), platform: HookPlatform::Posix });
            }
        },
        None => {
            out.push(TrustSource { hook_path: string_from_chars(native.as_slice()), platform: HookPlatform::Windows });
        },
    }
    assert(sources_view(out@) =~= windows_trust_sources_spec(manifest_path@));
    out
}

/// The spellings under which Codex may look up a Windows manifest path: the
/// native path and its `/` form, plus the extended-length `\\?\` forms for a
/// drive path.
pub open spec fn windows_aliases_spec(path: Seq<char>) -> Set<Seq<char>> {
    let native = preferred_windows_path_spec(path);
    let base = set![native, replace_char_spec(native, '\\', seq!['/'])];
    if native.len() >= 3 && is_ascii_alpha_spec(native[0]) && native[1] == ':' && native[2] == '\\' {
        let extended = "\\\\?\\"@ + native;
        base.insert(extended).insert(replace_char_spec(extended, '\\', seq!['/']))
    } else {
        base
    }
}

/// The path aliases of a trust source.
pub open spec fn source_aliases_spec(source: (Seq<char>, HookPlatform)) -> Set<Seq<char>> {
    match source.1 {
        HookPlatform::Posix => set![replace_char_spec(source.0, '\\', seq!['/'])],
        HookPlatform::Windows => windows_aliases_spec(source.0),
    }
}

/// The aliases of a source, in path order.
pub fn source_path_aliases(source: &TrustSource) -> (r: Vec<CharVec>)
    ensures
        strictly_sorted(views(r@)),
        views(r@).to_set() == source_aliases_spec(source_view(*source)),
{
    let mut out: Vec<CharVec> = Vec::new();
    let p = chars_of(source.hook_path.as_str());
    let slash: Vec<char> = vec!['/'];
    assert(slash@ =~= seq!['/']);
    assert(views(out@).to_set() =~= Set::<CharSeq>::empty());
    match source.platform {
        HookPlatform::Posix => {
            let a = replace_char(p.as_slice(), '\\', slash.as_slice());
            insert_sorted(&mut out, a);
            assert(views(out@).to_set() =~= source_aliases_spec(source_view(*source)));
        },
        HookPlatform::Windows => {
            let native = preferred_windows_path(source.hook_path.as_str());
            let forward = replace_char(native.as_slice(), '\\', slash.as_slice());
            let drive = native.len() >= 3 && is_ascii_alpha(native[0]) && native[1] == ':'
                && native[2] == '\\';
            insert_sorted(&mut out, native.clone());
            insert_sorted(&mut out, forward);
            if drive {
                let mut extended: Vec<char> = Vec::new();
                push_str(&mut extended, "\\\\?\\");
                push_all(&mut extended, native.as_slice());
                let extended_forward = replace_char(extended.as_slice(), '\\', slash.as_slice());
                insert_sorted(&mut out, extended);
                insert_sorted(&mut out, extended_forward);
            }
            assert(views(out@).to_set() =~= source_aliases_spec(source_view(*source)));
        },
    }
    out
}

/// Every state key for the given sources and hook locations.
pub open spec fn state_keys_spec(
    sources: Seq<(Seq<char>, HookPlatform)>,
    locations: Seq<HookLocation>,
) -> Set<Seq<char>> {
    Set::new(
        |key: Seq<char>|
            exists|i: int, alias: Seq<char>, j: int|
                0 <= i < sources.len() && source_aliases_spec(sources[i]).contains(alias) && 0 <= j
                    < locations.len() && key == state_key_spec(alias, locations[j]),
    )
}

/// The set of state keys, in key order.
pub fn state_keys(sources: &Vec<TrustSource>, locations: &Vec<HookLocation>) -> (r: Vec<CharVec>)
    ensures
        strictly_sorted(views(r@)),
        views(r@).to_set() == state_keys_spec(sources_view(sources@), locations@),
{
    let mut out: Vec<CharVec> = Vec::new();
    let ghost sv = sources_view(sources@);
    let ghost target = state_keys_spec(sv, locations@);
    assert(views(out@).to_set() =~= Set::<CharSeq>::empty());
    let mut i: usize = 0;
    while i < sources.len()
        invariant
            i <= sources@.len(),
            sv == sources_view(sources@),
            target == state_keys_spec(sv, locations@),
            strictly_sorted(views(out@)),
            views(out@).to_set() == Set::new(
                |key: Seq<char>|
                    exists|a: int, alias: Seq<char>, b: int|
                        0 <= a < i && source_aliases_spec(sv[a]).contains(alias) && 0 <= b
                            < locations@.len() && key == state_key_spec(alias, locations@[b]),
            ),
        decreases sources.len() - i,
    {
        let aliases = source_path_aliases(&sources[i]);
        let ghost before = views(out@).to_set();
        let mut k: usize = 0;
        while k < aliases.len()
            invariant
                i < sources@.len(),
                k <= aliases@.len(),
                strictly_sorted(views(out@)),
                views(aliases@).to_set() == source_aliases_spec(sv[i as int]),
                sv == sources_view(sources@),
                views(out@).to_set() == before.union(Set::new(
                    |key: Seq<char>|
                        exists|a2: int, b: int|
                            0 <= a2 < k && 0 <= b < locations@.len() && key == state_key_spec(
                                views(aliases@)[a2],
                                locations@[b],
                            ),
                )),
            decreases aliases.len() - k,
        {
            let alias = string_from_chars(aliases[k].as_slice());
            let ghost before_inner = views(out@).to_set();
            let mut m: usize = 0;
            while m < locations.len()
                invariant
                    m <= locations@.len(),
                    k < aliases@.len(),
                    alias@ == views(aliases@)[k as int],
                    strictly_sorted(views(out@)),
                    views(out@).to_set() == before_inner.union(Set::new(
                        |key: Seq<char>|
                            exists|b: int|
                                0 <= b < m && key == state_key_spec(alias@, locations@[b]),
                    )),
                decreases locations.len() - m,
            {
                let key = hook_state_key(alias.as_str(), locations[m]);
                let ghost prev = views(out@).to_set();
                insert_sorted(&mut out, chars_of(key.as_str()));
                assert(views(out@).to_set() =~= before_inner.union(Set::new(
                    |key: Seq<char>|
                        exists|b: int| 0 <= b < m + 1 && key == state_key_spec(alias@, locations@[b]),
                ))) by {
                    assert forall|x: Seq<char>| #[trigger] views(out@).to_set().contains(x) implies before_inner.union(
                        Set::new(
                            |key: Seq<char>|
                                exists|b: int|
                                    0 <= b < m + 1 && key == state_key_spec(alias@, locations@[b]),
                        ),
                    ).contains(x) by {
                        if x == key@ {
                            assert(0 <= m < m + 1 && x == state_key_spec(alias@, locations@[m as int]));
                        } else {
                            assert(prev.contains(x));
                            if !before_inner.contains(x) {
                                let b = choose|b: int| 0 <= b < m && x == state_key_spec(alias@, locations@[b]);
                                assert(0 <= b < m + 1 && x == state_key_spec(alias@, locations@[b]));
                            }
                        }
                    }
                    assert forall|x: Seq<char>| before_inner.union(
                        Set::new(
                            |key: Seq<char>|
                                exists|b: int|
                                    0 <= b < m + 1 && key == state_key_spec(alias@, locations@[b]),
                        ),
                    ).contains(x) implies #[trigger] views(out@).to_set().contains(x) by {
                        if !before_inner.contains(x) {
                            let b = choose|b: int| 0 <= b < m + 1 && x == state_key_spec(alias@, locations@[b]);
                            if b < m {
                                assert(prev.contains(x));
                            }
                        }
                    }
                }
                m = m + 1;
            }
            assert(views(out@).to_set() =~= before.union(Set::new(
                |key: Seq<char>|
                    exists|a2: int, b: int|
                        0 <= a2 < k + 1 && 0 <= b < locations@.len() && key == state_key_spec(
                            views(aliases@)[a2],
                            locations@[b],
                        ),
            ))) by {
                assert forall|x: Seq<char>| #[trigger] views(out@).to_set().contains(x) implies before.union(
                    Set::new(
                        |key: Seq<char>|
                            exists|a2: int, b: int|
                                0 <= a2 < k + 1 && 0 <= b < locations@.len() && key
                                    == state_key_spec(views(aliases@)[a2], locations@[b]),
                    ),
                ).contains(x) by {
                    if !before_inner.contains(x) {
                        let b = choose|b: int| 0 <= b < locations@.len() && x == state_key_spec(alias@, locations@[b]);
                        assert(0 <= k < k + 1 && x == state_key_spec(views(aliases@)[k as int], locations@[b]));
                    } else if !before.contains(x) {
                        let (a2, b) = choose|a2: int, b: int|
                            0 <= a2 < k && 0 <= b < locations@.len() && x == state_key_spec(
                                views(aliases@)[a2],
                                locations@[b],
                            );
                        assert(0 <= a2 < k + 1);
                    }
                }
                assert forall|x: Seq<char>| before.union(
                    Set::new(
                        |key: Seq<char>|
                            exists|a2: int, b: int|
                                0 <= a2 < k + 1 && 0 <= b < locations@.len() && key
                                    == state_key_spec(views(aliases@)[a2], locations@[b]),
                    ),
                ).contains(x) implies #[trigger] views(out@).to_set().contains(x) by {
                    if !before.contains(x) {
                        let (a2, b) = choose|a2: int, b: int|
                            0 <= a2 < k + 1 && 0 <= b < locations@.len() && x == state_key_spec(
                                views(aliases@)[a2],
                                locations@[b],
                            );
                        if a2 == k {
                            assert(0 <= b < locations@.len() && x == state_key_spec(alias@, locations@[b]));
                        } else {
                            assert(before_inner.contains(x));
                        }
                    }
                }
            }
            k = k + 1;
        }
        assert(views(out@).to_set() =~= Set::new(
            |key: Seq<char>|
                exists|a: int, alias: Seq<char>, b: int|
                    0 <= a < i + 1 && source_aliases_spec(sv[a]).contains(alias) && 0 <= b
                        < locations@.len() && key == state_key_spec(alias, locations@[b]),
        )) by {
            assert forall|x: Seq<char>| #[trigger] views(out@).to_set().contains(x) implies (exists|a: int, alias: Seq<char>, b: int|
                    0 <= a < i + 1 && source_aliases_spec(sv[a]).contains(alias) && 0 <= b
                        < locations@.len() && x == state_key_spec(alias, locations@[b])) by {
                if !before.contains(x) {
                    let (a2, b) = choose|a2: int, b: int|
                        0 <= a2 < aliases@.len() && 0 <= b < locations@.len() && x == state_key_spec(
                            views(aliases@)[a2],
                            locations@[b],
                        );
                    assert(views(aliases@).to_set().contains(views(aliases@)[a2]));
                    assert(source_aliases_spec(sv[i as int]).contains(views(aliases@)[a2]));
                } else {
                    let (a, alias, b) = choose|a: int, alias: Seq<char>, b: int|
                        0 <= a < i && source_aliases_spec(sv[a]).contains(alias) && 0 <= b
                            < locations@.len() && x == state_key_spec(alias, locations@[b]);
                    assert(0 <= a < i + 1);
                }
            }
            assert forall|x: Seq<char>| (exists|a: int, alias: Seq<char>, b: int|
                    0 <= a < i + 1 && source_aliases_spec(sv[a]).contains(alias) && 0 <= b
                        < locations@.len() && x == state_key_spec(alias, locations@[b])) implies #[trigger] views(out@).to_set().contains(x) by {
                let (a, alias, b) = choose|a: int, alias: Seq<char>, b: int|
                    0 <= a < i + 1 && source_aliases_spec(sv[a]).contains(alias) && 0 <= b
                        < locations@.len() && x == state_key_spec(alias, locations@[b]);
                if a == i {
                    assert(views(aliases@).to_set().contains(alias));
                    let a2 = choose|a2: int| 0 <= a2 < views(aliases@).len() && views(aliases@)[a2] == alias;
                    assert(0 <= a2 < aliases@.len() && 0 <= b < locations@.len() && x == state_key_spec(views(aliases@)[a2], locations@[b]));
                } else {
                    assert(before.contains(x));
                }
            }
        }
        i = i + 1;
    }
    assert(views(out@).to_set() =~= target);
    out
}

// ---------------------------------------------------------------------------
// Trust entries written for an installed hook
// ---------------------------------------------------------------------------
/// One `[hooks.state."<key>"]` entry: `enabled = true` with this hash.
#[derive(Clone, Debug, PartialEq, Eq)]
pub struct TrustEntry {
    pub key: String,
    pub trusted_hash: String,
}

pub open spec fn entries_view(v: Seq<TrustEntry>) -> Seq<(Seq<char>, Seq<char>)> {
    v.map_values(|e: TrustEntry| (e.key@, e.trusted_hash@))
}

/// The entries of one alias: one per location, hashing the command that the
/// source's platform runs.
pub open spec fn alias_entries(
    platform: HookPlatform,
    alias: Seq<char>,
    locations: Seq<HookLocation>,
    command: CommandView,
) -> Seq<(Seq<char>, Seq<char>)> {
    locations.map_values(
        |l: HookLocation|
            (state_key_spec(alias, l), trusted_hash_spec(l.event, command_for_spec(command, platform))),
    )
}

/// The entries of one source: its aliases in path order, each with every
/// location.
pub open spec fn source_entries(
    source: (Seq<char>, HookPlatform),
    locations: Seq<HookLocation>,
    command: CommandView,
) -> Seq<(Seq<char>, Seq<char>)> {
    concat_map(
        sorted_seq_of(source_aliases_spec(source)),
        |a: Seq<char>| alias_entries(source.1, a, locations, command),
    )
}

/// Every entry written for an installed hook, in the order they are written
/// (a later entry with the same key replaces an earlier one).
pub open spec fn trust_entries_spec(
    sources: Seq<(Seq<char>, HookPlatform)>,
    locations: Seq<HookLocation>,
    command: CommandView,
) -> Seq<(Seq<char>, Seq<char>)> {
    concat_map(sources, |s: (Seq<char>, HookPlatform)| source_entries(s, locations, command))
}

fn push_alias_entries(
    out: &mut Vec<TrustEntry>,
    platform: HookPlatform,
    alias: &str,
    locations: &Vec<HookLocation>,
    command: &CodexHookCommand,
)
    ensures
        entries_view(final(out)@) == entries_view(old(out)@) + alias_entries(
            platform,
            alias@,
            locations@,
            command@,
        ),
{
    let ghost start = entries_view(out@);
    let mut m: usize = 0;
    while m < locations.len()
        invariant
            m <= locations@.len(),
            entries_view(out@) == start + alias_entries(
                platform,
                alias@,
                locations@.take(m as int),
                command@,
            ),
        decreases locations.len() - m,
    {
        let location = locations[m];
        let key = hook_state_key(alias, location);
        let hash = trusted_hash_for_event(location.event, command.command_for(platform));
        let ghost before = out@;
        out.push(TrustEntry { key, trusted_hash: hash });
        assert(entries_view(out@) =~= entries_view(before).push((key@, hash@)));
        assert(alias_entries(platform, alias@, locations@.take(m + 1), command@) =~= alias_entries(
            platform,
            alias@,
            locations@.take(m as int),
            command@,
        ).push((key@, hash@)));
        m = m + 1;
    }
    assert(locations@.take(locations@.len() as int) =~= locations@);
}

/// The trust entries to write for `command` installed at `locations`.
pub fn trust_entries(
    sources: &Vec<TrustSource>,
    locations: &Vec<HookLocation>,
    command: &CodexHookCommand,
) -> (r: Vec<TrustEntry>)
    ensures
        entries_view(r@) == trust_entries_spec(sources_view(sources@), locations@, command@),
{
    let ghost sv = sources_view(sources@);
    let ghost fs = |s: (Seq<char>, HookPlatform)| source_entries(s, locations@, command@);
    let mut out: Vec<TrustEntry> = Vec::new();
    assert(entries_view(out@) =~= Seq::<(Seq<char>, Seq<char>)>::empty());
    let mut i: usize = 0;
    while i < sources.len()
        invariant
            i <= sources@.len(),
            sv == sources_view(sources@),
            fs == (|s: (Seq<char>, HookPlatform)| source_entries(s, locations@, command@)),
            entries_view(out@) == concat_map(sv.take(i as int), fs),
        decreases sources.len() - i,
    {
        let source = &sources[i];
        let aliases = source_path_aliases(source);
        let ghost av = views(aliases@);
        let ghost src = sv[i as int];
        assert(src == source_view(*source));
        proof {
            lemma_sorted_seq_of(av);
            lemma_concat_map_take(sv, i as int, fs);
        }
        let ghost fa = |a: Seq<char>| alias_entries(src.1, a, locations@, command@);
        let ghost start = entries_view(out@);
        let mut k: usize = 0;
        while k < aliases.len()
            invariant
                k <= aliases@.len(),
                av == views(aliases@),
                fa == (|a: Seq<char>| alias_entries(src.1, a, locations@, command@)),
                src.1 == source.platform,
                entries_view(out@) == start + concat_map(av.take(k as int), fa),
            decreases aliases.len() - k,
        {
            let alias = string_from_chars(aliases[k].as_slice());
            proof {
                lemma_concat_map_take(av, k as int, fa);
            }
            push_alias_entries(&mut out, source.platform, alias.as_str(), locations, command);
            assert(entries_view(out@) =~= start + concat_map(av.take(k + 1), fa));
            k = k + 1;
        }
        assert(av.take(av.len() as int) =~= av);
        assert(entries_view(out@) =~= concat_map(sv.take(i + 1), fs));
        i = i + 1;
    }
    assert(sv.take(sv.len() as int) =~= sv);
    out
}

// ---------------------------------------------------------------------------
// Trust entries that follow a handler to its new place
// ---------------------------------------------------------------------------
/// The key moves of one alias: for every handler move, its state key before
/// and after.
pub open spec fn alias_moves(alias: Seq<char>, moves: Seq<(HookLocation, HookLocation)>) -> Seq<
    (Seq<char>, Seq<char>),
> {
    moves.map_values(
        |m: (HookLocation, HookLocation)| (state_key_spec(alias, m.0), state_key_spec(alias, m.1)),
    )
}

/// The key moves of one source: its aliases in path order, each with every
/// handler move.
pub open spec fn source_moves(
    source: (Seq<char>, HookPlatform),
    moves: Seq<(HookLocation, HookLocation)>,
) -> Seq<(Seq<char>, Seq<char>)> {
    concat_map(sorted_seq_of(source_aliases_spec(source)), |a: Seq<char>| alias_moves(a, moves))
}

/// Every state-key move, source by source.
pub open spec fn trust_moves_spec(
    sources: Seq<(Seq<char>, HookPlatform)>,
    moves: Seq<(HookLocation, HookLocation)>,
) -> Seq<(Seq<char>, Seq<char>)> {
    concat_map(sources, |s: (Seq<char>, HookPlatform)| source_moves(s, moves))
}

pub open spec fn pairs_view(v: Seq<(String, String)>) -> Seq<(Seq<char>, Seq<char>)> {
    v.map_values(|p: (String, String)| (p.0@, p.1@))
}

fn push_alias_moves(
    out: &mut Vec<(String, String)>,
    alias: &str,
    moves: &Vec<(HookLocation, HookLocation)>,
)
    ensures
        pairs_view(final(out)@) == pairs_view(old(out)@) + alias_moves(alias@, moves@),
{
    let ghost start = pairs_view(out@);
    let mut m: usize = 0;
    while m < moves.len()
        invariant
            m <= moves@.len(),
            pairs_view(out@) == start + alias_moves(alias@, moves@.take(m as int)),
        decreases moves.len() - m,
    {
        let (from, to) = moves[m];
        let pair = (hook_state_key(alias, from), hook_state_key(alias, to));
        let ghost before = pairs_view(out@);
        out.push(pair);
        assert(moves@.take(m + 1) =~= moves@.take(m as int).push(moves@[m as int]));
        assert(pairs_view(out@) =~= before.push((pair.0@, pair.1@)));
        assert(alias_moves(alias@, moves@.take(m + 1)) =~= alias_moves(alias@, moves@.take(m as int)).push(
            (state_key_spec(alias@, from), state_key_spec(alias@, to)),
        ));
        m = m + 1;
    }
    assert(moves@.take(moves@.len() as int) =~= moves@);
}

/// The state-key moves for the handler moves of a manifest with these trust
/// sources.
pub fn trust_moves(sources: &Vec<TrustSource>, moves: &Vec<(HookLocation, HookLocation)>) -> (r: Vec<
    (String, String),
>)
    ensures
        pairs_view(r@) == trust_moves_spec(sources_view(sources@), moves@),
{
    let ghost sv = sources_view(sources@);
    let ghost fs = |s: (Seq<char>, HookPlatform)| source_moves(s, moves@);
    let mut out: Vec<(String, String)> = Vec::new();
    assert(pairs_view(out@) =~= Seq::<(Seq<char>, Seq<char>)>::empty());
    let mut i: usize = 0;
    while i < sources.len()
        invariant
            i <= sources@.len(),
            sv == sources_view(sources@),
            fs == (|s: (Seq<char>, HookPlatform)| source_moves(s, moves@)),
            pairs_view(out@) == concat_map(sv.take(i as int), fs),
        decreases sources.len() - i,
    {
        let source = &sources[i];
        let aliases = source_path_aliases(source);
        let ghost av = views(aliases@);
        let ghost src = sv[i as int];
        assert(src == source_view(*source));
        proof {
            lemma_sorted_seq_of(av);
            lemma_concat_map_take(sv, i as int, fs);
        }
        let ghost fa = |a: Seq<char>| alias_moves(a, moves@);
        let ghost start = pairs_view(out@);
        let mut k: usize = 0;
        while k < aliases.len()
            invariant
                k <= aliases@.len(),
                av == views(aliases@),
                fa == (|a: Seq<char>| alias_moves(a, moves@)),
                pairs_view(out@) == start + concat_map(av.take(k as int), fa),
            decreases aliases.len() - k,
        {
            let alias = string_from_chars(aliases[k].as_slice());
            proof {
                lemma_concat_map_take(av, k as int, fa);
            }
            push_alias_moves(&mut out, alias.as_str(), moves);
            assert(pairs_view(out@) =~= start + concat_map(av.take(k + 1), fa));
            k = k + 1;
        }
        assert(av.take(av.len() as int) =~= av);
        assert(pairs_view(out@) =~= concat_map(sv.take(i + 1), fs));
        i = i + 1;
    }
    assert(sv.take(sv.len() as int) =~= sv);
    out
}

} // verus!
