//! Installing and removing Akra's Codex hooks as one transaction over every
//! Codex home: which files change, in which order, and how a failure is
//! rolled back. Reading, writing and locking files is left to the caller,
//! which reports each outcome back.
use vstd::prelude::*;

use crate::lifecycle::{CodexHookCommand, CommandView, HookLocation};
use crate::manifest::{
    file_name_bounds, file_name_spec, name_end, all_removed_locations, all_retained_moves, RemovedHooks, appended_locations, manifest_command, manifest_enabled,
    with_akra_hooks, without_akra_hooks, CodexHooksFile, HooksFileView,
};
use crate::paths::{path_join, path_join_spec};
use crate::text::{
    chars_eq, chars_of, push_all, push_str, replace_char, replace_char_spec, starts_with_spec,
    starts_with_str, string_from_chars, sub_vec, to_lowercase, unicode_lowercase, views, CharSeq,
    CharVec,
};
use crate::trust::{
    decimal_digits, decimal_digits_u64, decimal_spec, entries_view, hex_digit, hex_digit_exec, posix_trust_sources_spec,
    sources_view, state_keys, state_keys_spec, trust_entries, trust_entries_spec, trust_sources,
    pairs_view, trust_moves, trust_moves_spec,
    windows_trust_sources_spec, TrustEntry,
};

verus! {

/// Failures of a Codex hook lifecycle operation. Paths are carried as text.
#[derive(Debug)]
pub enum CodexLifecycleError {
    MissingManifestParent,
    Io(String),
    Json(String),
    UnsafeManifest(String),
    OversizedManifest(u64),
    UnsafeConfig(String),
    OversizedConfig(u64),
    InvalidConfigEncoding { path: String, source: String },
    InvalidConfigToml { path: String, source: String },
    InvalidConfigShape(String),
    ConcurrentManifestChange(String),
    ConcurrentConfigChange(String),
    Rollback { source: Box<CodexLifecycleError>, rollback: Box<CodexLifecycleError> },
}

/// The largest manifest or configuration file read, in bytes.
pub const MAX_CODEX_FILE_BYTES: u64 = 1048576;

/// The text of a lifecycle failure.
pub open spec fn lifecycle_message_spec(e: CodexLifecycleError) -> Seq<char>
    decreases e,
{
    match e {
        CodexLifecycleError::MissingManifestParent => "Codex hook manifest has no parent directory"@,
        CodexLifecycleError::Io(m) => "Codex lifecycle filesystem operation failed: "@ + m@,
        CodexLifecycleError::Json(m) => "Codex lifecycle serialization failed: "@ + m@,
        CodexLifecycleError::UnsafeManifest(p) => "Codex hook manifest must be a regular non-link file: "@
            + p@,
        CodexLifecycleError::OversizedManifest(n) => "Codex hook manifest is "@ + decimal_spec(
            n as nat,
        ) + " bytes, exceeding the 1048576-byte limit"@,
        CodexLifecycleError::UnsafeConfig(p) => "Codex config must be a regular non-link file: "@ + p@,
        CodexLifecycleError::OversizedConfig(n) => "Codex config is "@ + decimal_spec(n as nat)
            + " bytes, exceeding the 1048576-byte limit"@,
        CodexLifecycleError::InvalidConfigEncoding { path, source } => "Codex config is not valid UTF-8: "@
            + path@ + ": "@ + source@,
        CodexLifecycleError::InvalidConfigToml { path, source } => "Codex config is not valid TOML: "@
            + path@ + ": "@ + source@,
        CodexLifecycleError::InvalidConfigShape(p) => "Codex config has a non-table hooks/state value: "@
            + p@,
        CodexLifecycleError::ConcurrentManifestChange(p) => "Codex hook manifest changed during lifecycle update: "@
            + p@,
        CodexLifecycleError::ConcurrentConfigChange(p) => "Codex config changed during lifecycle update: "@
            + p@,
        CodexLifecycleError::Rollback { source, rollback } => lifecycle_message_spec(*source)
            + "; additionally failed to roll back a Codex hook manifest: "@ + lifecycle_message_spec(
            *rollback,
        ),
    }
}

impl CodexLifecycleError {
    /// Appends the failure's text to `out`.
    pub fn write_message(&self, out: &mut Vec<char>)
        ensures
            final(out)@ == old(out)@ + lifecycle_message_spec(*self),
        decreases self,
    {
        let ghost start = out@;
        match self {
            CodexLifecycleError::MissingManifestParent => {
                push_str(out, "Codex hook manifest has no parent directory");
            },
            CodexLifecycleError::Io(m) => {
                push_str(out, "Codex lifecycle filesystem operation failed: ");
                push_str(out, m.as_str());
            },
            CodexLifecycleError::Json(m) => {
                push_str(out, "Codex lifecycle serialization failed: ");
                push_str(out, m.as_str());
            },
            CodexLifecycleError::UnsafeManifest(p) => {
                push_str(out, "Codex hook manifest must be a regular non-link file: ");
                push_str(out, p.as_str());
            },
            CodexLifecycleError::OversizedManifest(n) => {
                push_str(out, "Codex hook manifest is ");
                push_all(out, decimal_digits_u64(*n).as_slice());
                push_str(out, " bytes, exceeding the 1048576-byte limit");
            },
            CodexLifecycleError::UnsafeConfig(p) => {
                push_str(out, "Codex config must be a regular non-link file: ");
                push_str(out, p.as_str());
            },
            CodexLifecycleError::OversizedConfig(n) => {
                push_str(out, "Codex config is ");
                push_all(out, decimal_digits_u64(*n).as_slice());
                push_str(out, " bytes, exceeding the 1048576-byte limit");
            },
            CodexLifecycleError::InvalidConfigEncoding { path, source } => {
                push_str(out, "Codex config is not valid UTF-8: ");
                push_str(out, path.as_str());
                push_str(out, ": ");
                push_str(out, source.as_str());
            },
            CodexLifecycleError::InvalidConfigToml { path, source } => {
                push_str(out, "Codex config is not valid TOML: ");
                push_str(out, path.as_str());
                push_str(out, ": ");
                push_str(out, source.as_str());
            },
            CodexLifecycleError::InvalidConfigShape(p) => {
                push_str(out, "Codex config has a non-table hooks/state value: ");
                push_str(out, p.as_str());
            },
            CodexLifecycleError::ConcurrentManifestChange(p) => {
                push_str(out, "Codex hook manifest changed during lifecycle update: ");
                push_str(out, p.as_str());
            },
            CodexLifecycleError::ConcurrentConfigChange(p) => {
                push_str(out, "Codex config changed during lifecycle update: ");
                push_str(out, p.as_str());
            },
            CodexLifecycleError::Rollback { source, rollback } => {
                source.write_message(out);
                push_str(out, "; additionally failed to roll back a Codex hook manifest: ");
                rollback.write_message(out);
            },
        }
        assert(out@ =~= start + lifecycle_message_spec(*self));
    }

    /// The failure's text.
    pub fn message(&self) -> (r: String)
        ensures
            r@ == lifecycle_message_spec(*self),
    {
        let mut out: Vec<char> = Vec::new();
        self.write_message(&mut out);
        assert(out@ =~= lifecycle_message_spec(*self));
        string_from_chars(out.as_slice())
    }
}

// ---------------------------------------------------------------------------
// Lexical path normalisation
// ---------------------------------------------------------------------------
/// One path component applied to the components kept so far: empty and `.`
/// components vanish, `..` removes the last kept one (none above the start).
pub open spec fn apply_segment(stack: Seq<CharSeq>, seg: CharSeq) -> Seq<CharSeq> {
    if seg.len() == 0 || seg == seq!['.'] {
        stack
    } else if seg == seq!['.', '.'] {
        if stack.len() > 0 {
            stack.drop_last()
        } else {
            stack
        }
    } else {
        stack.push(seg)
    }
}

/// The components kept after reading `p`, and the component being read.
pub open spec fn scan_segments(p: Seq<char>) -> (Seq<CharSeq>, CharSeq)
    decreases p.len(),
{
    if p.len() == 0 {
        (Seq::empty(), Seq::empty())
    } else {
        let prev = scan_segments(p.drop_last());
        if p.last() == '/' {
            (apply_segment(prev.0, prev.1), Seq::empty())
        } else {
            (prev.0, prev.1.push(p.last()))
        }
    }
}

/// The components of `p` after `.` and `..` are resolved lexically.
pub open spec fn normal_segments(p: Seq<char>) -> Seq<CharSeq> {
    apply_segment(scan_segments(p).0, scan_segments(p).1)
}

/// Components joined with `/`.
pub open spec fn join_segments(segs: Seq<CharSeq>) -> Seq<char>
    decreases segs.len(),
{
    if segs.len() == 0 {
        Seq::empty()
    } else if segs.len() == 1 {
        segs[0]
    } else {
        join_segments(segs.drop_last()) + seq!['/'] + segs.last()
    }
}

/// A POSIX path with `.` and `..` resolved without touching the file system,
/// as pushing and popping `PathBuf` components does.
pub open spec fn normalize_lexically_spec(p: Seq<char>) -> Seq<char> {
    if p.len() > 0 && p[0] == '/' {
        seq!['/'] + join_segments(normal_segments(p))
    } else {
        join_segments(normal_segments(p))
    }
}

fn apply_segment_exec(stack: &mut Vec<CharVec>, seg: Vec<char>)
    ensures
        views(final(stack)@) == apply_segment(views(old(stack)@), seg@),
{
    let ghost before = views(stack@);
    if seg.len() == 0 || (seg.len() == 1 && seg[0] == '.') {
        proof {
            if seg@.len() == 1 {
                assert(seg@ =~= seq!['.']);
            }
        }
        return;
    }
    assert(seg@ != seq!['.']) by {
        if seg@ == seq!['.'] {
            assert(seg@.len() == 1 && seg@[0] == '.');
        }
    }
    if seg.len() == 2 && seg[0] == '.' && seg[1] == '.' {
        assert(seg@ =~= seq!['.', '.']);
        if stack.len() > 0 {
            stack.pop();
            assert(views(stack@) =~= before.drop_last());
        }
        return;
    }
    assert(seg@ != seq!['.', '.']) by {
        if seg@ == seq!['.', '.'] {
            assert(seg@.len() == 2 && seg@[0] == '.' && seg@[1] == '.');
        }
    }
    stack.push(seg);
    assert(views(stack@) =~= before.push(seg@));
}

/// `path` with `.` and `..` components resolved lexically.
pub fn normalize_lexically(path: &str) -> (r: String)
    ensures
        r@ == normalize_lexically_spec(path@),
{
    let p = chars_of(path);
    let mut stack: Vec<CharVec> = Vec::new();
    let mut cur: Vec<char> = Vec::new();
    let mut i: usize = 0;
    assert(views(stack@) =~= Seq::<CharSeq>::empty());
    assert(p@.take(0) =~= Seq::<char>::empty());
    while i < p.len()
        invariant
            i <= p@.len(),
            p@ == path@,
            (views(stack@), cur@) == scan_segments(p@.take(i as int)),
        decreases p.len() - i,
    {
        let c = p[i];
        assert(p@.take(i + 1).drop_last() =~= p@.take(i as int));
        if c == '/' {
            let seg = cur;
            cur = Vec::new();
            apply_segment_exec(&mut stack, seg);
            assert(cur@ =~= Seq::<char>::empty());
        } else {
            cur.push(c);
        }
        i = i + 1;
    }
    assert(p@.take(p@.len() as int) =~= p@);
    apply_segment_exec(&mut stack, cur);
    let ghost segs = views(stack@);
    let mut out: Vec<char> = Vec::new();
    if p.len() > 0 && p[0] == '/' {
        out.push('/');
    }
    let ghost prefix = out@;
    let mut k: usize = 0;
    while k < stack.len()
        invariant
            k <= stack@.len(),
            segs == views(stack@),
            out@ == prefix + join_segments(segs.take(k as int)),
        decreases stack.len() - k,
    {
        assert(segs.take(k + 1).drop_last() =~= segs.take(k as int));
        if k > 0 {
            out.push('/');
        }
        push_all(&mut out, stack[k].as_slice());
        proof {
            if k == 0 {
                assert(join_segments(segs.take(1)) == segs.take(1)[0]);
                assert(out@ =~= prefix + join_segments(segs.take(1)));
            } else {
                assert(out@ =~= prefix + join_segments(segs.take(k + 1)));
            }
        }
        k = k + 1;
    }
    assert(segs.take(segs.len() as int) =~= segs);
    proof {
        if p@.len() > 0 && p@[0] == '/' {
            assert(prefix =~= seq!['/']);
        } else {
            assert(prefix =~= Seq::<char>::empty());
            assert(out@ =~= join_segments(segs));
        }
    }
    string_from_chars(out.as_slice())
}

/// The key under which two Codex homes count as the same: the path itself,
/// lowercased on a Windows host, where paths are case-insensitive.
pub open spec fn home_key_spec(home: Seq<char>, windows_host: bool) -> Seq<char> {
    if windows_host {
        unicode_lowercase(home)
    } else {
        home
    }
}

pub fn home_key(home: &str, windows_host: bool) -> (r: String)
    ensures
        r@ == home_key_spec(home@, windows_host),
{
    if windows_host {
        to_lowercase(home)
    } else {
        home.to_owned()
    }
}

// ---------------------------------------------------------------------------
// Lifecycles: one Codex home each
// ---------------------------------------------------------------------------
/// The name of the hook manifest inside a Codex home.
pub open spec fn manifest_file_name() -> Seq<char> {
    "hooks.json"@
}

/// The trust configuration next to a manifest path that ends in
/// `hooks.json`.
pub open spec fn config_path_spec(manifest_path: Seq<char>) -> Seq<char> {
    manifest_path.take(manifest_path.len() - 10) + "config.toml"@
}

/// The hook lifecycle of one Codex home, identified by its manifest path.
#[derive(Debug)]
pub struct CodexHookLifecycle {
    manifest_path: String,
}

impl View for CodexHookLifecycle {
    type V = Seq<char>;

    closed spec fn view(&self) -> Seq<char> {
        self.manifest_path@
    }
}

impl CodexHookLifecycle {
    /// The manifest path is `hooks.json` inside a directory.
    #[verifier::type_invariant]
    spec fn well_formed(self) -> bool {
        let m = self.manifest_path@;
        &&& m.len() >= 10
        &&& m.skip(m.len() - 10) == manifest_file_name()
        &&& (m.len() == 10 || m[m.len() - 11] == '/')
    }

    /// The lifecycle of the Codex home inside a user's home directory.
    pub fn new(home: &str) -> (r: Self)
        ensures
            r@ == path_join_spec(path_join_spec(home@, ".codex"@), manifest_file_name()),
            config_path_spec(r@) == path_join_spec(path_join_spec(home@, ".codex"@), "config.toml"@),
    {
        let codex_home = path_join(home, ".codex");
        Self::from_codex_home(codex_home.as_str())
    }

    /// The lifecycle of a Codex home directory.
    pub fn from_codex_home(codex_home: &str) -> (r: Self)
        ensures
            r@ == path_join_spec(codex_home@, manifest_file_name()),
            config_path_spec(r@) == path_join_spec(codex_home@, "config.toml"@),
    {
        let manifest_path = path_join(codex_home, "hooks.json");
        proof {
            reveal_strlit("hooks.json");
            reveal_strlit("config.toml");
            let m = manifest_path@;
            let h = codex_home@;
            if h.len() == 0 || h.last() == '/' {
                assert(m == h + manifest_file_name());
                assert(m.skip(m.len() - 10) =~= manifest_file_name());
                assert(m.take(m.len() - 10) =~= h);
                if h.len() > 0 {
                    assert(m[m.len() - 11] == h.last());
                }
            } else {
                assert(m == h + seq!['/'] + manifest_file_name());
                assert(m.skip(m.len() - 10) =~= manifest_file_name());
                assert(m.take(m.len() - 10) =~= h + seq!['/']);
                assert(m[m.len() - 11] == '/');
            }
        }
        CodexHookLifecycle { manifest_path }
    }

    /// The manifest path.
    pub fn manifest_path(&self) -> (r: &str)
        ensures
            r@ == self@,
    {
        self.manifest_path.as_str()
    }

    /// The Codex `config.toml` that holds the hooks' trust state.
    pub fn config_path(&self) -> (r: String)
        ensures
            r@ == config_path_spec(self@),
    {
        proof {
            use_type_invariant(self);
        }
        let m = chars_of(self.manifest_path.as_str());
        let mut out: Vec<char> = Vec::new();
        let mut i: usize = 0;
        let end = m.len() - 10;
        while i < end
            invariant
                i <= end <= m@.len(),
                out@ == m@.take(i as int),
            decreases end - i,
        {
            out.push(m[i]);
            assert(m@.take(i + 1) =~= m@.take(i as int).push(m@[i as int]));
            i = i + 1;
        }
        crate::text::push_str(&mut out, "config.toml");
        string_from_chars(out.as_slice())
    }

    /// A copy of this lifecycle.
    pub fn duplicate(&self) -> (r: Self)
        ensures
            r@ == self@,
    {
        proof {
            use_type_invariant(self);
        }
        CodexHookLifecycle { manifest_path: self.manifest_path.clone() }
    }
}

/// The homes that remain when later homes with the key of an earlier one are
/// dropped, in first-seen order.
pub open spec fn unique_homes(homes: Seq<Seq<char>>, windows_host: bool) -> Seq<Seq<char>>
    decreases homes.len(),
{
    if homes.len() == 0 {
        homes
    } else {
        let u = unique_homes(homes.drop_last(), windows_host);
        if exists|j: int|
            0 <= j < homes.len() - 1 && #[trigger] home_key_spec(homes[j], windows_host)
                == home_key_spec(homes.last(), windows_host) {
            u
        } else {
            u.push(homes.last())
        }
    }
}

pub open spec fn string_views(v: Seq<String>) -> Seq<Seq<char>> {
    v.map_values(|s: String| s@)
}

pub open spec fn lifecycle_views(v: Seq<CodexHookLifecycle>) -> Seq<Seq<char>> {
    v.map_values(|l: CodexHookLifecycle| l@)
}

/// The hook lifecycles of several Codex homes, handled together.
#[derive(Debug)]
pub struct CodexHookLifecycleSet {
    lifecycles: Vec<CodexHookLifecycle>,
}

impl View for CodexHookLifecycleSet {
    type V = Seq<Seq<char>>;

    closed spec fn view(&self) -> Seq<Seq<char>> {
        lifecycle_views(self.lifecycles@)
    }
}

/// Whether an earlier home has the key of home `i`.
fn seen_before(keys: &Vec<CharVec>, key: &[char]) -> (r: bool)
    ensures
        r == exists|j: int| 0 <= j < keys@.len() && #[trigger] keys@[j]@ == key@,
{
    let mut j: usize = 0;
    while j < keys.len()
        invariant
            j <= keys@.len(),
            forall|k: int| 0 <= k < j ==> keys@[k]@ != key@,
        decreases keys.len() - j,
    {
        if chars_eq(keys[j].as_slice(), key) {
            return true;
        }
        j = j + 1;
    }
    false
}

impl CodexHookLifecycleSet {
    /// One lifecycle per distinct Codex home, in first-seen order. The homes
    /// are expected already normalised.
    pub fn from_codex_homes(homes: &Vec<String>, windows_host: bool) -> (r: Self)
        ensures
            r@ == unique_homes(string_views(homes@), windows_host).map_values(
                |h: Seq<char>| path_join_spec(h, manifest_file_name()),
            ),
    {
        let ghost hv = string_views(homes@);
        let mut keys: Vec<CharVec> = Vec::new();
        let mut lifecycles: Vec<CodexHookLifecycle> = Vec::new();
        let mut i: usize = 0;
        assert(lifecycle_views(lifecycles@) =~= Seq::<Seq<char>>::empty());
        while i < homes.len()
            invariant
                i <= homes@.len(),
                hv == string_views(homes@),
                keys@.len() == i,
                forall|k: int| 0 <= k < i ==> #[trigger] keys@[k]@ == home_key_spec(hv[k], windows_host),
                lifecycle_views(lifecycles@) == unique_homes(hv.take(i as int), windows_host).map_values(
                    |h: Seq<char>| path_join_spec(h, manifest_file_name()),
                ),
            decreases homes.len() - i,
        {
            let home = homes[i].as_str();
            let key = home_key(home, windows_host);
            let key_chars = chars_of(key.as_str());
            let seen = seen_before(&keys, key_chars.as_slice());
            let ghost t = hv.take(i + 1);
            assert(t.drop_last() =~= hv.take(i as int));
            assert(t.last() == hv[i as int]);
            assert(seen == exists|j: int|
                0 <= j < t.len() - 1 && #[trigger] home_key_spec(t[j], windows_host)
                    == home_key_spec(t.last(), windows_host)) by {
                if seen {
                    let j = choose|j: int| 0 <= j < keys@.len() && #[trigger] keys@[j]@ == key_chars@;
                    assert(t[j] == hv[j]);
                    assert(home_key_spec(t[j], windows_host) == keys@[j]@);
                }
                if exists|j: int|
                    0 <= j < t.len() - 1 && #[trigger] home_key_spec(t[j], windows_host)
                        == home_key_spec(t.last(), windows_host) {
                    let j = choose|j: int|
                        0 <= j < t.len() - 1 && #[trigger] home_key_spec(t[j], windows_host)
                            == home_key_spec(t.last(), windows_host);
                    assert(t[j] == hv[j]);
                    assert(keys@[j]@ == key_chars@);
                }
            }
            if !seen {
                let ghost before = lifecycles@;
                lifecycles.push(CodexHookLifecycle::from_codex_home(home));
                assert(lifecycle_views(lifecycles@) =~= lifecycle_views(before).push(
                    path_join_spec(hv[i as int], manifest_file_name()),
                ));
            }
            keys.push(key_chars);
            i = i + 1;
        }
        assert(hv.take(hv.len() as int) =~= hv);
        CodexHookLifecycleSet { lifecycles }
    }

    /// The lifecycles, in order.
    pub fn lifecycles(&self) -> (r: &Vec<CodexHookLifecycle>)
        ensures
            lifecycle_views(r@) == self@,
    {
        &self.lifecycles
    }

    /// The number of lifecycles.
    pub fn len(&self) -> (r: usize)
        ensures
            r == self@.len(),
    {
        self.lifecycles.len()
    }
}

// ---------------------------------------------------------------------------
// Lock names
// ---------------------------------------------------------------------------
pub open spec fn wsl_extended_prefix() -> Seq<char> {
    "\\\\?\\unc\\wsl.localhost\\"@
}

pub open spec fn wsl_regular_prefix() -> Seq<char> {
    "\\\\wsl.localhost\\"@
}

pub open spec fn wsl_host_prefix() -> Seq<char> {
    "wsl.localhost\\"@
}

/// A WSL manifest path in the one spelling every process agrees on:
/// backslashes, lowercase, and the share written as `wsl.localhost\...`
/// whether it came with the `\\?\UNC\` prefix or the plain `\\` one.
pub open spec fn canonical_wsl_lock_path_spec(manifest: Seq<char>) -> Seq<char> {
    let lower = unicode_lowercase(replace_char_spec(manifest, '/', seq!['\\']));
    if starts_with_spec(lower, wsl_extended_prefix()) {
        wsl_host_prefix() + lower.skip(wsl_extended_prefix().len() as int)
    } else if starts_with_spec(lower, wsl_regular_prefix()) {
        wsl_host_prefix() + lower.skip(wsl_regular_prefix().len() as int)
    } else {
        lower
    }
}

pub fn canonical_wsl_lock_path(manifest: &str) -> (r: String)
    ensures
        r@ == canonical_wsl_lock_path_spec(manifest@),
{
    let m = chars_of(manifest);
    let backslash: Vec<char> = vec!['\\'];
    assert(backslash@ =~= seq!['\\']);
    let replaced = replace_char(m.as_slice(), '/', backslash.as_slice());
    let replaced_text = string_from_chars(replaced.as_slice());
    let lower_text = to_lowercase(replaced_text.as_str());
    let lower = chars_of(lower_text.as_str());
    proof {
        reveal_strlit("\\\\?\\unc\\wsl.localhost\\");
        reveal_strlit("\\\\wsl.localhost\\");
        reveal_strlit("wsl.localhost\\");
    }
    let skip = if starts_with_str(lower.as_slice(), "\\\\?\\unc\\wsl.localhost\\") {
        22
    } else if starts_with_str(lower.as_slice(), "\\\\wsl.localhost\\") {
        16
    } else {
        return lower_text;
    };
    let rest = sub_vec(lower.as_slice(), skip, lower.len());
    let mut out: Vec<char> = Vec::new();
    push_str(&mut out, "wsl.localhost\\");
    push_all(&mut out, rest.as_slice());
    assert(out@ =~= canonical_wsl_lock_path_spec(manifest@));
    string_from_chars(out.as_slice())
}

pub open spec fn fnv_offset() -> u64 {
    0xcbf2_9ce4_8422_2325
}

pub open spec fn fnv_prime() -> u64 {
    0x0000_0100_0000_01b3
}

/// The 64-bit FNV-1a hash of a byte sequence.
pub open spec fn fnv1a(bytes: Seq<u8>) -> u64
    decreases bytes.len(),
{
    if bytes.len() == 0 {
        fnv_offset()
    } else {
        (fnv1a(bytes.drop_last()) ^ (bytes.last() as u64)).wrapping_mul(fnv_prime())
    }
}

/// The last `n` hexadecimal digits of `v`, zero-padded (`{:0n$x}` for
/// values below `16^n`).
pub open spec fn hex_fixed(v: u64, n: nat) -> Seq<char>
    decreases n,
{
    if n == 0 {
        Seq::empty()
    } else {
        hex_fixed(v / 16, (n - 1) as nat).push(hex_digit((v % 16) as int))
    }
}

/// The name of the kernel mutex that serialises writers of one WSL manifest:
/// the FNV-1a hash of the canonical path's UTF-8 bytes as 16 hex digits,
/// then the byte length.
pub open spec fn wsl_lock_name_spec(manifest: Seq<char>) -> Seq<char> {
    let bytes = vstd::utf8::encode_utf8(canonical_wsl_lock_path_spec(manifest));
    "akra-hookers-codex-wsl-"@ + hex_fixed(fnv1a(bytes), 16) + seq!['-'] + decimal_spec(
        bytes.len(),
    )
}

fn fnv1a_exec(bytes: &[u8]) -> (r: u64)
    ensures
        r == fnv1a(bytes@),
{
    let mut hash: u64 = 0xcbf2_9ce4_8422_2325;
    let mut i: usize = 0;
    assert(bytes@.take(0) =~= Seq::<u8>::empty());
    while i < bytes.len()
        invariant
            i <= bytes@.len(),
            hash == fnv1a(bytes@.take(i as int)),
        decreases bytes.len() - i,
    {
        assert(bytes@.take(i + 1).drop_last() =~= bytes@.take(i as int));
        hash = hash ^ (bytes[i] as u64);
        hash = hash.wrapping_mul(0x0000_0100_0000_01b3);
        i = i + 1;
    }
    assert(bytes@.take(bytes@.len() as int) =~= bytes@);
    hash
}

fn hex16(v: u64) -> (r: Vec<char>)
    ensures
        r@ == hex_fixed(v, 16),
{
    let mut digits: Vec<char> = vec!['0'; 16];
    let mut rest = v;
    let mut i: usize = 16;
    assert(digits@.subrange(16, 16) =~= Seq::<char>::empty());
    while i > 0
        invariant
            i <= 16,
            digits@.len() == 16,
            hex_fixed(v, 16) == hex_fixed(rest, i as nat) + digits@.subrange(i as int, 16),
        decreases i,
    {
        let d = (rest % 16) as u8;
        let c = hex_digit_exec(d);
        let ghost before = digits@;
        digits.set(i - 1, c);
        assert(digits@.subrange(i - 1, 16) =~= seq![c] + before.subrange(i as int, 16));
        assert(hex_fixed(rest, i as nat) == hex_fixed(rest / 16, (i - 1) as nat).push(
            hex_digit((rest % 16) as int),
        ));
        assert(hex_fixed(rest / 16, (i - 1) as nat) + digits@.subrange(i - 1, 16) =~= hex_fixed(
            rest,
            i as nat,
        ) + before.subrange(i as int, 16));
        rest = rest / 16;
        i = i - 1;
    }
    assert(digits@.subrange(0, 16) =~= digits@);
    digits
}

pub fn wsl_lock_name(manifest: &str) -> (r: String)
    ensures
        r@ == wsl_lock_name_spec(manifest@),
{
    let path = canonical_wsl_lock_path(manifest);
    let bytes = path.as_str().as_bytes();
    let hash = fnv1a_exec(bytes);
    let mut out: Vec<char> = Vec::new();
    push_str(&mut out, "akra-hookers-codex-wsl-");
    let hex = hex16(hash);
    push_all(&mut out, hex.as_slice());
    out.push('-');
    let len = decimal_digits(bytes.len());
    push_all(&mut out, len.as_slice());
    assert(out@ =~= wsl_lock_name_spec(manifest@));
    string_from_chars(out.as_slice())
}

/// Where a file name's stem ends: at its last `.`, unless that dot is the
/// first character or there is none (then the whole name is the stem).
pub open spec fn stem_len(name: Seq<char>) -> int
    decreases name.len(),
{
    if name.len() <= 1 {
        name.len() as int
    } else if name.last() == '.' {
        name.len() - 1
    } else if stem_len(name.drop_last()) < name.len() - 1 {
        stem_len(name.drop_last())
    } else {
        name.len() as int
    }
}

/// The lock file beside a manifest: `Path::with_extension("json.akra.lock")`,
/// which replaces the file name's extension (a path without a file name is
/// left as it is).
pub open spec fn lock_path_spec(manifest: Seq<char>) -> Seq<char> {
    match file_name_spec(manifest) {
        None => manifest,
        Some(name) => manifest.take(name_end(manifest) - name.len() + stem_len(name))
            + ".json.akra.lock"@,
    }
}

fn stem_length(name: &[char]) -> (r: usize)
    ensures
        r == stem_len(name@),
{
    let n = name.len();
    if n <= 1 {
        return n;
    }
    let mut k: usize = n - 1;
    while k > 0 && name[k] != '.'
        invariant
            0 <= k < n == name@.len(),
            n >= 2,
            forall|j: int| k < j < n ==> name@[j] != '.',
        decreases k,
    {
        k = k - 1;
    }
    proof {
        lemma_stem_len(name@, k as int);
    }
    if k == 0 {
        n
    } else {
        k
    }
}

proof fn lemma_stem_len(name: Seq<char>, k: int)
    requires
        name.len() >= 2,
        0 <= k < name.len(),
        forall|j: int| k < j < name.len() ==> name[j] != '.',
        k > 0 ==> name[k] == '.',
    ensures
        stem_len(name) == if k == 0 { name.len() as int } else { k },
    decreases name.len(),
{
    let d = name.drop_last();
    if name.last() == '.' {
        if k != name.len() - 1 {
            assert(name[name.len() - 1] != '.');
        }
        assert(k == name.len() - 1);
    } else if name.len() == 2 {
        assert(k == 0) by {
            if k == 1 {
                assert(name[1] == name.last());
            }
        }
        assert(stem_len(d) == 1);
    } else {
        assert(k < name.len() - 1) by {
            if k == name.len() - 1 {
                assert(name[k] == name.last());
            }
        }
        if k > 0 {
            assert(d[k] == '.');
        }
        assert forall|j: int| k < j < d.len() implies d[j] != '.' by {
            assert(d[j] == name[j]);
        }
        lemma_stem_len(d, k);
    }
}

/// The lock file that serialises writers of a manifest.
pub fn lock_path(manifest: &str) -> (r: String)
    ensures
        r@ == lock_path_spec(manifest@),
{
    let m = chars_of(manifest);
    match file_name_bounds(m.as_slice()) {
        None => manifest.to_owned(),
        Some((start, end)) => {
            let name = sub_vec(m.as_slice(), start, end);
            let stem = stem_length(name.as_slice());
            proof {
                assert(stem <= name@.len()) by {
                    lemma_stem_le(name@);
                }
            }
            let mut out = sub_vec(m.as_slice(), 0, start + stem);
            push_str(&mut out, ".json.akra.lock");
            assert(out@ =~= lock_path_spec(manifest@));
            string_from_chars(out.as_slice())
        },
    }
}

proof fn lemma_stem_le(name: Seq<char>)
    ensures
        0 <= stem_len(name) <= name.len(),
    decreases name.len(),
{
    if name.len() > 1 && name.last() != '.' {
        lemma_stem_le(name.drop_last());
    }
}

// ---------------------------------------------------------------------------
// Reading the state of several homes
// ---------------------------------------------------------------------------
/// What to do next while answering a question over several manifests read
/// one at a time: read the manifest of lifecycle `Read(i)`, or stop.
#[derive(Debug)]
pub enum SetQuery<T> {
    Read(usize),
    Done(T),
}

/// Capture is enabled in every home (and there is at least one).
pub open spec fn all_enabled(manifests: Seq<HooksFileView>) -> bool {
    manifests.len() > 0 && forall|k: int|
        0 <= k < manifests.len() ==> manifest_enabled(#[trigger] manifests[k])
}

pub open spec fn manifest_views(v: Seq<CodexHooksFile>) -> Seq<HooksFileView> {
    v.map_values(|m: CodexHooksFile| m@)
}

/// The managed command of the first home that has one.
pub open spec fn first_command(manifests: Seq<HooksFileView>) -> Option<CommandView>
    decreases manifests.len(),
{
    if manifests.len() == 0 {
        None
    } else {
        match manifest_command(manifests[0]) {
            Some(c) => Some(c),
            None => first_command(manifests.drop_first()),
        }
    }
}

/// The answer of the enabled query to the manifests read so far from a set
/// of `len` homes: `false` once one of them is not enabled; whether every
/// home is enabled once all are read; otherwise the next manifest to read.
pub open spec fn enabled_query(len: nat, read: Seq<HooksFileView>) -> SetQuery<bool> {
    if exists|k: int| 0 <= k < read.len() && !manifest_enabled(#[trigger] read[k]) {
        SetQuery::Done(false)
    } else if read.len() == len {
        SetQuery::Done(all_enabled(read))
    } else {
        SetQuery::Read(read.len() as usize)
    }
}

/// Reading the manifests of a set's homes in order, as the enabled query
/// asks, ends with whether capture is enabled in every home (and there is
/// at least one): the query asks for manifest `j` after the first `j`, up
/// to the one where it answers.
pub proof fn law_enabled_query_answers(len: nat, ms: Seq<HooksFileView>)
    requires
        ms.len() == len,
        len <= usize::MAX,
    ensures
        exists|k: int|
            0 <= k <= len && enabled_query(len, #[trigger] ms.take(k)) == SetQuery::Done(all_enabled(ms))
                && forall|j: int| 0 <= j < k ==> enabled_query(len, #[trigger] ms.take(j)) == SetQuery::<
                bool,
            >::Read(j as usize),
{
    if exists|f: int| 0 <= f < len && !manifest_enabled(#[trigger] ms[f]) {
        let f0 = choose|f: int| 0 <= f < len && !manifest_enabled(#[trigger] ms[f]);
        let f = first_disabled(ms, f0);
        assert forall|j: int| 0 <= j < f + 1 implies enabled_query(len, #[trigger] ms.take(j))
            == SetQuery::<bool>::Read(j as usize) by {
            assert forall|k: int| 0 <= k < ms.take(j).len() implies manifest_enabled(
                #[trigger] ms.take(j)[k],
            ) by {
                assert(ms.take(j)[k] == ms[k]);
            }
        }
        assert(ms.take(f + 1)[f] == ms[f]);
        assert(!all_enabled(ms));
        assert(enabled_query(len, ms.take(f + 1)) == SetQuery::Done(all_enabled(ms)));
    } else {
        assert forall|j: int| 0 <= j < len implies enabled_query(len, #[trigger] ms.take(j))
            == SetQuery::<bool>::Read(j as usize) by {
            assert forall|k: int| 0 <= k < ms.take(j).len() implies manifest_enabled(
                #[trigger] ms.take(j)[k],
            ) by {
                assert(ms.take(j)[k] == ms[k]);
            }
        }
        assert(ms.take(len as int) =~= ms);
    }
}

proof fn first_disabled(ms: Seq<HooksFileView>, f: int) -> (r: int)
    requires
        0 <= f < ms.len(),
        !manifest_enabled(ms[f]),
    ensures
        0 <= r <= f,
        !manifest_enabled(ms[r]),
        forall|k: int| 0 <= k < r ==> manifest_enabled(#[trigger] ms[k]),
    decreases f,
{
    if exists|k: int| 0 <= k < f && !manifest_enabled(#[trigger] ms[k]) {
        let k = choose|k: int| 0 <= k < f && !manifest_enabled(#[trigger] ms[k]);
        first_disabled(ms, k)
    } else {
        f
    }
}

impl CodexHookLifecycleSet {
    /// Given the manifests of the first lifecycles, read in order, whether
    /// capture is enabled everywhere, or which manifest to read next. The
    /// answer is `false` as soon as one home is not enabled.
    pub fn is_enabled(&self, read: &Vec<CodexHooksFile>) -> (r: SetQuery<bool>)
        requires
            read@.len() <= self@.len(),
        ensures
            (exists|k: int| 0 <= k < read@.len() && !manifest_enabled(#[trigger] read@[k]@))
                ==> r == SetQuery::<bool>::Done(false),
            (forall|k: int| 0 <= k < read@.len() ==> manifest_enabled(#[trigger] read@[k]@)) ==> (
            if read@.len() == self@.len() {
                r == SetQuery::<bool>::Done(all_enabled(manifest_views(read@)))
            } else {
                r == SetQuery::<bool>::Read(read@.len() as usize)
            }),
            r == enabled_query(self@.len(), manifest_views(read@)),
    {
        let ghost mv = manifest_views(read@);
        assert(forall|k: int| 0 <= k < read@.len() ==> #[trigger] mv[k] == read@[k]@);
        let mut k: usize = 0;
        while k < read.len()
            invariant
                k <= read@.len(),
                forall|j: int| 0 <= j < k ==> manifest_enabled(#[trigger] read@[j]@),
            decreases read.len() - k,
        {
            if !read[k].is_enabled() {
                proof {
                    assert(manifest_views(read@)[k as int] == read@[k as int]@);
                }
                return SetQuery::Done(false);
            }
            k = k + 1;
        }
        proof {
            assert forall|j: int| 0 <= j < mv.len() implies manifest_enabled(#[trigger] mv[j]) by {
                assert(mv[j] == read@[j]@);
            }
        }
        if read.len() == self.lifecycles.len() {
            let r = read.len() > 0;
            proof {
                let mv = manifest_views(read@);
                assert(r == all_enabled(mv)) by {
                    if r {
                        assert forall|j: int| 0 <= j < mv.len() implies manifest_enabled(
                            #[trigger] mv[j],
                        ) by {
                            assert(mv[j] == read@[j]@);
                        }
                    }
                }
            }
            SetQuery::Done(r)
        } else {
            SetQuery::Read(read.len())
        }
    }

    /// Given the manifests of the first lifecycles, read in order, the first
    /// managed command found, or which manifest to read next.
    pub fn managed_command(&self, read: &Vec<CodexHooksFile>) -> (r: SetQuery<
        Option<CodexHookCommand>,
    >)
        requires
            read@.len() <= self@.len(),
        ensures
            first_command(manifest_views(read@)) matches Some(c) ==> (r matches SetQuery::Done(
                Some(x),
            ) && x@ == c),
            first_command(manifest_views(read@)) is None ==> (if read@.len() == self@.len() {
                r matches SetQuery::Done(None)
            } else {
                r == SetQuery::<Option<CodexHookCommand>>::Read(read@.len() as usize)
            }),
    {
        let ghost mv = manifest_views(read@);
        let mut k: usize = 0;
        assert(mv.skip(0) =~= mv);
        while k < read.len()
            invariant
                k <= read@.len(),
                mv == manifest_views(read@),
                first_command(mv) == first_command(mv.skip(k as int)),
            decreases read.len() - k,
        {
            let found = read[k].managed_command();
            assert(mv.skip(k as int)[0] == read@[k as int]@);
            match found {
                Some(c) => {
                    return SetQuery::Done(Some(c));
                },
                None => {
                    assert(mv.skip(k as int).drop_first() =~= mv.skip(k + 1));
                },
            }
            k = k + 1;
        }
        assert(mv.skip(k as int).len() == 0);
        if read.len() == self.lifecycles.len() {
            SetQuery::Done(None)
        } else {
            SetQuery::Read(read.len())
        }
    }
}

// ---------------------------------------------------------------------------
// Planning an update
// ---------------------------------------------------------------------------
/// The hook intent for one home: install `command`, or remove Akra's hooks.
#[derive(Debug)]
pub struct CodexHookUpdate {
    pub lifecycle: CodexHookLifecycle,
    pub command: Option<CodexHookCommand>,
}

pub open spec fn opt_command_view(c: Option<CodexHookCommand>) -> Option<CommandView> {
    match c {
        Some(x) => Some(x@),
        None => None,
    }
}

/// The updates for (home, command) pairs: one per distinct home, the first
/// one given for it.
pub open spec fn unique_updates(
    updates: Seq<(Seq<char>, Option<CommandView>)>,
    windows_host: bool,
) -> Seq<(Seq<char>, Option<CommandView>)>
    decreases updates.len(),
{
    if updates.len() == 0 {
        updates
    } else {
        let u = unique_updates(updates.drop_last(), windows_host);
        if exists|j: int|
            0 <= j < updates.len() - 1 && #[trigger] home_key_spec(updates[j].0, windows_host)
                == home_key_spec(updates.last().0, windows_host) {
            u
        } else {
            u.push(updates.last())
        }
    }
}

pub open spec fn pair_views(v: Seq<(String, Option<CodexHookCommand>)>) -> Seq<
    (Seq<char>, Option<CommandView>),
> {
    v.map_values(|p: (String, Option<CodexHookCommand>)| (p.0@, opt_command_view(p.1)))
}

pub open spec fn update_view(u: CodexHookUpdate) -> (Seq<char>, Option<CommandView>) {
    (u.lifecycle@, opt_command_view(u.command))
}

pub open spec fn update_views(v: Seq<CodexHookUpdate>) -> Seq<(Seq<char>, Option<CommandView>)> {
    v.map_values(|u: CodexHookUpdate| update_view(u))
}

/// Per-home hook intents as one transaction (homes already normalised): one
/// update per distinct home, the first intent for a home winning. The updates
/// are then planned, written and, on any failure, rolled back together.
pub fn apply_codex_hook_updates(
    updates: Vec<(String, Option<CodexHookCommand>)>,
    windows_host: bool,
) -> (r: Vec<CodexHookUpdate>)
    ensures
        update_views(r@) == unique_updates(pair_views(updates@), windows_host).map_values(
            |p: (Seq<char>, Option<CommandView>)| (path_join_spec(p.0, manifest_file_name()), p.1),
        ),
{
    let ghost pv = pair_views(updates@);
    let ghost f = |p: (Seq<char>, Option<CommandView>)|
        (path_join_spec(p.0, manifest_file_name()), p.1);
    let n = updates.len();
    let mut rest = updates;
    let mut keys: Vec<CharVec> = Vec::new();
    let mut out: Vec<CodexHookUpdate> = Vec::new();
    let mut i: usize = 0;
    assert(update_views(out@) =~= Seq::<(Seq<char>, Option<CommandView>)>::empty());
    while i < n
        invariant
            i <= n == pv.len(),
            rest@.len() == n - i,
            pair_views(rest@) == pv.skip(i as int),
            keys@.len() == i,
            f == (|p: (Seq<char>, Option<CommandView>)|
                (path_join_spec(p.0, manifest_file_name()), p.1)),
            forall|k: int| 0 <= k < i ==> #[trigger] keys@[k]@ == home_key_spec(pv[k].0, windows_host),
            update_views(out@) == unique_updates(pv.take(i as int), windows_host).map_values(f),
        decreases n - i,
    {
        let ghost before_rest = rest@;
        let (home, command) = rest.remove(0);
        proof {
            assert(pair_views(before_rest)[0] == (home@, opt_command_view(command)));
            assert(pair_views(rest@) =~= pair_views(before_rest).skip(1));
            assert(pv.skip(i as int).skip(1) =~= pv.skip(i + 1));
            assert(pv[i as int] == pv.skip(i as int)[0]);
        }
        let key = home_key(home.as_str(), windows_host);
        let key_chars = chars_of(key.as_str());
        let seen = seen_before(&keys, key_chars.as_slice());
        let ghost t = pv.take(i + 1);
        assert(t.drop_last() =~= pv.take(i as int));
        assert(t.last() == pv[i as int]);
        assert(seen == exists|j: int|
            0 <= j < t.len() - 1 && #[trigger] home_key_spec(t[j].0, windows_host)
                == home_key_spec(t.last().0, windows_host)) by {
            if seen {
                let j = choose|j: int| 0 <= j < keys@.len() && #[trigger] keys@[j]@ == key_chars@;
                assert(t[j] == pv[j]);
            }
            if exists|j: int|
                0 <= j < t.len() - 1 && #[trigger] home_key_spec(t[j].0, windows_host)
                    == home_key_spec(t.last().0, windows_host) {
                let j = choose|j: int|
                    0 <= j < t.len() - 1 && #[trigger] home_key_spec(t[j].0, windows_host)
                        == home_key_spec(t.last().0, windows_host);
                assert(t[j] == pv[j]);
                assert(keys@[j]@ == key_chars@);
            }
        }
        if !seen {
            let ghost before = out@;
            let lifecycle = CodexHookLifecycle::from_codex_home(home.as_str());
            let update = CodexHookUpdate { lifecycle, command };
            out.push(update);
            assert(update_views(out@) =~= update_views(before).push(f(pv[i as int])));
        }
        keys.push(key_chars);
        i = i + 1;
    }
    assert(pv.take(n as int) =~= pv);
    out
}

impl CodexHookLifecycle {
    /// The update that installs `command` (the same on every platform).
    pub fn enable(&self, command: &str) -> (r: CodexHookUpdate)
        ensures
            r.lifecycle@ == self@,
            (r.command matches Some(c) && c@.posix == command@ && c@.windows == Some(command@)),
    {
        CodexHookUpdate { lifecycle: self.duplicate(), command: Some(CodexHookCommand::same(command)) }
    }

    /// The update that removes Akra's hooks.
    pub fn disable(&self) -> (r: CodexHookUpdate)
        ensures
            r.lifecycle@ == self@,
            r.command is None,
    {
        CodexHookUpdate { lifecycle: self.duplicate(), command: None }
    }
}

impl CodexHookLifecycleSet {
    /// One update per home installing `command`.
    pub fn enable(&self, command: &str) -> (r: Vec<CodexHookUpdate>)
        ensures
            r@.len() == self@.len(),
            forall|k: int|
                0 <= k < r@.len() ==> (#[trigger] r@[k]).lifecycle@ == self@[k] && (r@[k].command
                    matches Some(c) && c@.posix == command@ && c@.windows == Some(command@)),
    {
        let mut out: Vec<CodexHookUpdate> = Vec::new();
        let mut k: usize = 0;
        while k < self.lifecycles.len()
            invariant
                k <= self.lifecycles@.len(),
                out@.len() == k,
                self@ == lifecycle_views(self.lifecycles@),
                forall|j: int|
                    0 <= j < k ==> (#[trigger] out@[j]).lifecycle@ == self@[j] && (out@[j].command
                        matches Some(c) && c@.posix == command@ && c@.windows == Some(command@)),
            decreases self.lifecycles.len() - k,
        {
            out.push(self.lifecycles[k].enable(command));
            k = k + 1;
        }
        out
    }

    /// One update per home removing Akra's hooks.
    pub fn disable(&self) -> (r: Vec<CodexHookUpdate>)
        ensures
            r@.len() == self@.len(),
            forall|k: int|
                0 <= k < r@.len() ==> (#[trigger] r@[k]).lifecycle@ == self@[k] && r@[k].command is None,
    {
        let mut out: Vec<CodexHookUpdate> = Vec::new();
        let mut k: usize = 0;
        while k < self.lifecycles.len()
            invariant
                k <= self.lifecycles@.len(),
                out@.len() == k,
                self@ == lifecycle_views(self.lifecycles@),
                forall|j: int|
                    0 <= j < k ==> (#[trigger] out@[j]).lifecycle@ == self@[j] && out@[j].command is None,
            decreases self.lifecycles.len() - k,
        {
            out.push(self.lifecycles[k].disable());
            k = k + 1;
        }
        out
    }
}

/// What one update will do to its home, decided from the manifest read.
#[derive(Debug)]
pub struct UpdatePlan {
    pub manifest_path: String,
    pub config_path: String,
    /// The manifest as it is to be written.
    pub hooks: CodexHooksFile,
    /// Whether the manifest is written: on install, or when one exists.
    pub write_manifest: bool,
    /// Whether the trust configuration must be read and edited.
    pub read_config: bool,
    /// Where Akra's previous handlers were.
    pub removed: Vec<HookLocation>,
    /// Where the other handlers that changed place were, and now are.
    pub moved: Vec<(HookLocation, HookLocation)>,
    /// Where Akra's new handlers are, when installing.
    pub installed: Option<Vec<HookLocation>>,
    pub command: Option<CodexHookCommand>,
}

/// The manifest an update leaves: Akra's handlers removed, then appended for
/// the command when installing.
pub open spec fn planned_manifest(m: HooksFileView, command: Option<CommandView>) -> HooksFileView {
    match command {
        Some(c) => with_akra_hooks(without_akra_hooks(m), c),
        None => without_akra_hooks(m),
    }
}

/// Plans one update against the manifest read from its home (`manifest_present`
/// tells whether the file existed; a missing one reads as empty).
pub fn plan_update(update: &CodexHookUpdate, manifest_present: bool, hooks: CodexHooksFile) -> (r:
    UpdatePlan)
    ensures
        r.manifest_path@ == update.lifecycle@,
        r.config_path@ == config_path_spec(update.lifecycle@),
        r.hooks@ == planned_manifest(hooks@, opt_command_view(update.command)),
        r.removed@ == all_removed_locations(hooks@),
        r.moved@ == all_retained_moves(hooks@),
        update.command is None ==> r.installed is None,
        update.command is Some ==> (r.installed matches Some(l) && l@ == appended_locations(
            without_akra_hooks(hooks@),
        )),
        opt_command_view(r.command) == opt_command_view(update.command),
        r.write_manifest == (update.command is Some || manifest_present),
        r.read_config == (update.command is Some || r.removed@.len() > 0 || r.moved@.len() > 0),
{
    let mut hooks = hooks;
    let removed = hooks.remove_akra_hooks();
    let command = match &update.command {
        Some(c) => Some(c.duplicate()),
        None => None,
    };
    let installed = match &update.command {
        Some(c) => Some(hooks.append_akra_hooks(c)),
        None => None,
    };
    let write_manifest = update.command.is_some() || manifest_present;
    let RemovedHooks { managed_locations: removed, retained_moves: moved } = removed;
    let read_config = installed.is_some() || removed.len() > 0 || moved.len() > 0;
    UpdatePlan {
        manifest_path: update.lifecycle.manifest_path().to_owned(),
        config_path: update.lifecycle.config_path(),
        hooks,
        write_manifest,
        read_config,
        removed,
        moved,
        installed,
        command,
    }
}

/// The edits to the trust configuration: the state keys of removed
/// handlers to delete and the state entries of moved handlers to carry to
/// their new keys (when a state table exists), then the entries to write,
/// in order.
#[derive(Debug)]
pub struct ConfigEdit {
    pub remove_keys: Vec<String>,
    pub moves: Vec<(String, String)>,
    pub entries: Vec<TrustEntry>,
}

/// The trust sources of a manifest on this kind of host.
pub open spec fn trust_sources_spec(manifest_path: Seq<char>, windows_host: bool) -> Seq<
    (Seq<char>, crate::lifecycle::HookPlatform),
> {
    if windows_host {
        windows_trust_sources_spec(manifest_path)
    } else {
        posix_trust_sources_spec(manifest_path)
    }
}

/// The trust-configuration edits of a plan. None when the configuration
/// neither exists nor receives entries (it is then left absent).
pub fn config_edit(plan: &UpdatePlan, config_present: bool, windows_host: bool) -> (r: Option<
    ConfigEdit,
>)
    ensures
        r is None <==> (!config_present && plan.installed is None),
        r matches Some(e) ==> pairs_view(e.moves@) == trust_moves_spec(
            trust_sources_spec(plan.manifest_path@, windows_host),
            plan.moved@,
        ),
        r matches Some(e) ==> {
            let sources = trust_sources_spec(plan.manifest_path@, windows_host);
            &&& crate::text::strictly_sorted(string_views(e.remove_keys@))
            &&& plan.removed@.len() == 0 ==> e.remove_keys@.len() == 0
            &&& plan.removed@.len() > 0 ==> string_views(e.remove_keys@).to_set()
                == state_keys_spec(sources, plan.removed@)
            &&& match (plan.installed, plan.command) {
                (Some(l), Some(c)) => entries_view(e.entries@) == trust_entries_spec(
                    sources,
                    l@,
                    c@,
                ),
                _ => e.entries@.len() == 0,
            }
        },
{
    if !config_present && plan.installed.is_none() {
        return None;
    }
    let sources = trust_sources(plan.manifest_path.as_str(), windows_host);
    let mut remove_keys: Vec<String> = Vec::new();
    if plan.removed.len() > 0 {
        let keys = state_keys(&sources, &plan.removed);
        let mut k: usize = 0;
        while k < keys.len()
            invariant
                k <= keys@.len(),
                remove_keys@.len() == k,
                forall|j: int| 0 <= j < k ==> #[trigger] remove_keys@[j]@ == keys@[j]@,
            decreases keys.len() - k,
        {
            remove_keys.push(string_from_chars(keys[k].as_slice()));
            k = k + 1;
        }
        assert(string_views(remove_keys@) =~= views(keys@));
    } else {
        assert(string_views(remove_keys@) =~= Seq::<Seq<char>>::empty());
    }
    let moves = trust_moves(&sources, &plan.moved);
    let entries = match (&plan.installed, &plan.command) {
        (Some(l), Some(c)) => trust_entries(&sources, l, c),
        _ => Vec::new(),
    };
    Some(ConfigEdit { remove_keys, moves, entries })
}

// ---------------------------------------------------------------------------
// Applying the prepared files, and rolling back
// ---------------------------------------------------------------------------
/// Which reader checks a prepared file.
#[derive(Clone, Copy, Debug, PartialEq, Eq, Structural)]
pub enum PreparedFileKind {
    Manifest,
    Config,
}

/// A file of the transaction: its bytes before, and the bytes intended
/// (`None`: absent before / not to be written).
#[derive(Debug)]
pub struct PreparedFile {
    pub kind: PreparedFileKind,
    pub path: String,
    pub original: Option<Vec<u8>>,
    pub intended: Option<Vec<u8>>,
}

pub open spec fn bytes_view(o: Option<Vec<u8>>) -> Option<Seq<u8>> {
    match o {
        Some(b) => Some(b@),
        None => None,
    }
}

/// A prepared file is written when it has intended bytes that differ from
/// what it held before.
pub open spec fn needs_write(c: PreparedFile) -> bool {
    c.intended is Some && bytes_view(c.original) != bytes_view(c.intended)
}

fn bytes_equal(a: &[u8], b: &[u8]) -> (r: bool)
    ensures
        r == (a@ == b@),
{
    if a.len() != b.len() {
        return false;
    }
    let mut i: usize = 0;
    while i < a.len()
        invariant
            i <= a@.len() == b@.len(),
            forall|j: int| 0 <= j < i ==> a@[j] == b@[j],
        decreases a.len() - i,
    {
        if a[i] != b[i] {
            return false;
        }
        i = i + 1;
    }
    assert(a@ =~= b@);
    true
}

/// Whether two optional byte contents are the same.
pub fn same_contents(a: &Option<Vec<u8>>, b: &Option<Vec<u8>>) -> (r: bool)
    ensures
        r == (bytes_view(*a) == bytes_view(*b)),
{
    match (a, b) {
        (Some(x), Some(y)) => bytes_equal(x.as_slice(), y.as_slice()),
        (None, None) => true,
        _ => false,
    }
}

/// The files of one planned update, trust configuration first so that a new
/// hook never appears without its trust entry.
pub fn update_files(
    plan: &UpdatePlan,
    config_original: Option<Vec<u8>>,
    config_intended: Option<Vec<u8>>,
    manifest_original: Option<Vec<u8>>,
    manifest_intended: Option<Vec<u8>>,
) -> (r: Vec<PreparedFile>)
    ensures
        r@.len() == 2,
        r@[0].kind == PreparedFileKind::Config && r@[0].path@ == plan.config_path@
            && r@[0].original == config_original && r@[0].intended == config_intended,
        r@[1].kind == PreparedFileKind::Manifest && r@[1].path@ == plan.manifest_path@
            && r@[1].original == manifest_original && r@[1].intended == manifest_intended,
{
    let mut r: Vec<PreparedFile> = Vec::new();
    r.push(
        PreparedFile {
            kind: PreparedFileKind::Config,
            path: plan.config_path.clone(),
            original: config_original,
            intended: config_intended,
        },
    );
    r.push(
        PreparedFile {
            kind: PreparedFileKind::Manifest,
            path: plan.manifest_path.clone(),
            original: manifest_original,
            intended: manifest_intended,
        },
    );
    r
}

/// The next file to write at or after `from`: the first that needs a write.
pub fn next_write(changes: &Vec<PreparedFile>, from: usize) -> (r: Option<usize>)
    ensures
        r matches Some(i) ==> from <= i < changes@.len() && needs_write(changes@[i as int])
            && forall|j: int| from <= j < i ==> !needs_write(#[trigger] changes@[j]),
        r is None ==> forall|j: int|
            from <= j < changes@.len() ==> !needs_write(#[trigger] changes@[j]),
{
    let mut i = from;
    while i < changes.len()
        invariant
            from <= i,
            forall|j: int| from <= j < i && j < changes@.len() ==> !needs_write(
                #[trigger] changes@[j],
            ),
        decreases changes.len() - i,
    {
        let change = &changes[i];
        if change.intended.is_some() && !same_contents(&change.original, &change.intended) {
            return Some(i);
        }
        i = i + 1;
    }
    None
}

/// Whether a file still holds what it held when the update was planned; a
/// write goes ahead only then.
pub fn unchanged_since_planning(change: &PreparedFile, current: &Option<Vec<u8>>) -> (r: bool)
    ensures
        r == (bytes_view(*current) == bytes_view(change.original)),
{
    same_contents(current, &change.original)
}

/// The error for a file another writer changed.
pub open spec fn concurrent_error_spec(change: PreparedFile) -> CodexLifecycleError {
    match change.kind {
        PreparedFileKind::Manifest => CodexLifecycleError::ConcurrentManifestChange(change.path),
        PreparedFileKind::Config => CodexLifecycleError::ConcurrentConfigChange(change.path),
    }
}

/// The error for a file another writer changed.
pub fn concurrent_change_error(change: &PreparedFile) -> (r: CodexLifecycleError)
    ensures
        r == concurrent_error_spec(*change),
        change.kind == PreparedFileKind::Manifest ==> (r matches
            CodexLifecycleError::ConcurrentManifestChange(p) && p@ == change.path@),
        change.kind == PreparedFileKind::Config ==> (r matches
            CodexLifecycleError::ConcurrentConfigChange(p) && p@ == change.path@),
{
    match change.kind {
        PreparedFileKind::Manifest => CodexLifecycleError::ConcurrentManifestChange(
            change.path.clone(),
        ),
        PreparedFileKind::Config => CodexLifecycleError::ConcurrentConfigChange(change.path.clone()),
    }
}

/// How to restore one written file during a rollback.
#[derive(Debug)]
pub enum RestoreAction {
    /// Someone else changed it after our write: leave it, report this error.
    Conflict(CodexLifecycleError),
    /// Write the original bytes back.
    WriteOriginal,
    /// It did not exist before: remove it.
    RemoveFile,
}

/// The restoration of a written file, given what it holds now.
pub fn restore_action(change: &PreparedFile, current: &Option<Vec<u8>>) -> (r: RestoreAction)
    ensures
        bytes_view(*current) != bytes_view(change.intended) ==> (r matches RestoreAction::Conflict(e)
            && e == concurrent_error_spec(*change)),
        bytes_view(*current) == bytes_view(change.intended) && change.original is Some
            ==> r is WriteOriginal,
        bytes_view(*current) == bytes_view(change.intended) && change.original is None
            ==> r is RemoveFile,
{
    if !same_contents(current, &change.intended) {
        return RestoreAction::Conflict(concurrent_change_error(change));
    }
    match &change.original {
        Some(_) => RestoreAction::WriteOriginal,
        None => RestoreAction::RemoveFile,
    }
}

/// The files to restore after a failure: the written ones, last first.
pub fn rollback_order(attempted: &Vec<usize>) -> (r: Vec<usize>)
    ensures
        r@ == attempted@.reverse(),
{
    let mut r: Vec<usize> = Vec::new();
    let mut k = attempted.len();
    while k > 0
        invariant
            k <= attempted@.len(),
            r@ == attempted@.skip(k as int).reverse(),
        decreases k,
    {
        k = k - 1;
        r.push(attempted[k]);
        assert(attempted@.skip(k as int).reverse() =~= attempted@.skip(k + 1).reverse().push(
            attempted@[k as int],
        ));
    }
    assert(attempted@.skip(0) =~= attempted@);
    r
}

/// The error a failed transaction reports: the failure itself, or, when the
/// rollback failed too, both (the first rollback failure).
pub fn rollback_outcome(source: CodexLifecycleError, rollback: Option<CodexLifecycleError>) -> (r:
    CodexLifecycleError)
    ensures
        rollback is None ==> r == source,
        rollback matches Some(e) ==> r == (CodexLifecycleError::Rollback {
            source: Box::new(source),
            rollback: Box::new(e),
        }),
{
    match rollback {
        None => source,
        Some(e) => CodexLifecycleError::Rollback { source: Box::new(source), rollback: Box::new(e) },
    }
}

} // verus!
