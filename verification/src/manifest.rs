//! The Codex `hooks.json` manifest as plain values, and the rules that find,
//! remove and install the handlers Akra manages in it.
use vstd::prelude::*;

use crate::lifecycle::{CodexHookCommand, HookEvent, HookLocation};
use crate::text::{
    ascii_lower, ascii_lower_seq, chars_eq, chars_of, contains_char, find_from, first_occurrence, occurs_at,
    is_whitespace, is_whitespace_spec, lemma_first_occurrence_from, sub_vec, trim, trim_spec,
};
use crate::trust::CAPTURE_HOOK_TIMEOUT_SECONDS;

verus! {

// ---------------------------------------------------------------------------
// Recognising commands written by earlier installers
// ---------------------------------------------------------------------------
/// The separator between the executable and the data directory of a legacy
/// capture command.
pub open spec fn legacy_separator() -> Seq<char> {
    " capture --data-dir "@
}

/// Characters that make an unquoted legacy path argument unsafe.
pub open spec fn legacy_metachar(c: char) -> bool {
    c == '\'' || c == '"' || c == '&' || c == '|' || c == '<' || c == '>' || c == '('
        || c == ')' || c == '^' || c == ';'
}

/// A path argument of a legacy command: trimmed, then either wholly quoted by
/// one kind of quote (which it must not contain inside, and not be empty), or a
/// non-empty bare word without whitespace or shell metacharacters.
pub open spec fn legacy_path_argument_spec(argument: Seq<char>) -> Option<Seq<char>> {
    let a = trim_spec(argument);
    if a.len() == 0 {
        None
    } else if a[0] == '\'' || a[0] == '"' {
        let q = a[0];
        if a.len() >= 2 && a.last() == q {
            let inner = a.subrange(1, a.len() - 1);
            if inner.len() > 0 && !inner.contains(q) {
                Some(inner)
            } else {
                None
            }
        } else {
            None
        }
    } else if forall|i: int|
        0 <= i < a.len() ==> !is_whitespace_spec(#[trigger] a[i]) && !legacy_metachar(a[i]) {
        Some(a)
    } else {
        None
    }
}

/// The last component of a POSIX path, as `Path::file_name` gives it: trailing
/// separators and `.` components are ignored; none for an empty path, the root,
/// `.` or a path that ends in `..`.
pub open spec fn file_name_spec(p: Seq<char>) -> Option<Seq<char>>
    decreases p.len(),
{
    if p.len() == 0 {
        None
    } else if p.last() == '/' {
        file_name_spec(p.drop_last())
    } else if p == seq!['.'] || (p.len() >= 2 && p.last() == '.' && p[p.len() - 2] == '/') {
        file_name_spec(p.drop_last())
    } else {
        let name = last_segment(p);
        if name == seq!['.', '.'] {
            None
        } else {
            Some(name)
        }
    }
}

/// What follows the last `/` of `p` (all of `p` when it has none).
pub open spec fn last_segment(p: Seq<char>) -> Seq<char>
    decreases p.len(),
{
    if p.len() == 0 {
        p
    } else if p.last() == '/' {
        Seq::empty()
    } else {
        last_segment(p.drop_last()).push(p.last())
    }
}

/// A file name that names the Akra capture binary, in any ASCII case.
pub open spec fn is_akra_binary_name(name: Seq<char>) -> bool {
    ascii_lower_seq(name) == "akra-hookers"@ || ascii_lower_seq(name) == "akra-hookers.exe"@
}

/// A command that an earlier installer wrote without the managed marker:
/// exactly `akra-hookers capture` (or `.exe`), in any ASCII case, or
/// `<executable> capture --data-dir <directory>` where both are safe path
/// arguments and the executable's file name is the Akra binary.
pub open spec fn legacy_managed_spec(command: Seq<char>) -> bool {
    let t = trim_spec(command);
    ||| ascii_lower_seq(t) == "akra-hookers capture"@
    ||| ascii_lower_seq(t) == "akra-hookers.exe capture"@
    ||| match first_occurrence(t, legacy_separator()) {
        Some(i) => {
            let executable = t.take(i);
            let data_dir = t.skip(i + legacy_separator().len());
            match legacy_path_argument_spec(executable) {
                Some(e) => legacy_path_argument_spec(data_dir) is Some && match file_name_spec(
                    e,
                ) {
                    Some(name) => is_akra_binary_name(name),
                    None => false,
                },
                None => false,
            }
        },
        None => false,
    }
}

fn is_legacy_metachar(c: char) -> (r: bool)
    ensures
        r == legacy_metachar(c),
{
    c == '\'' || c == '"' || c == '&' || c == '|' || c == '<' || c == '>' || c == '(' || c
        == ')' || c == '^' || c == ';'
}

/// The path inside a legacy command argument, if it is a safe one.
pub fn legacy_path_argument(argument: &[char]) -> (r: Option<Vec<char>>)
    ensures
        r matches Some(v) ==> legacy_path_argument_spec(argument@) == Some(v@),
        r is None ==> legacy_path_argument_spec(argument@) is None,
{
    let a = trim(argument);
    if a.len() == 0 {
        return None;
    }
    let first = a[0];
    if first == '\'' || first == '"' {
        if a.len() >= 2 && a[a.len() - 1] == first {
            let inner = sub_vec(a.as_slice(), 1, a.len() - 1);
            let has_quote = contains_char(inner.as_slice(), first);
            assert(inner@ == a@.subrange(1, a@.len() - 1));
            assert(a@[0] == first);
            if inner.len() > 0 && !has_quote {
                return Some(inner);
            }
            assert(inner@.len() == 0 || inner@.contains(first));
            return None;
        }
        assert(!(a@.len() >= 2 && a@.last() == first));
        return None;
    }
    let mut i: usize = 0;
    while i < a.len()
        invariant
            i <= a@.len(),
            a@ == trim_spec(argument@),
            a@.len() > 0,
            !(a@[0] == '\'' || a@[0] == '"'),
            forall|j: int|
                0 <= j < i ==> !is_whitespace_spec(#[trigger] a@[j]) && !legacy_metachar(a@[j]),
        decreases a.len() - i,
    {
        if is_whitespace(a[i]) || is_legacy_metachar(a[i]) {
            assert(!(forall|j: int|
                0 <= j < trim_spec(argument@).len() ==> !is_whitespace_spec(
                    #[trigger] trim_spec(argument@)[j],
                ) && !legacy_metachar(trim_spec(argument@)[j]))) by {
                assert(is_whitespace_spec(a@[i as int]) || legacy_metachar(a@[i as int]));
                assert(trim_spec(argument@)[i as int] == a@[i as int]);
            }
            return None;
        }
        i = i + 1;
    }
    Some(a)
}

proof fn lemma_last_segment_no_slash(p: Seq<char>)
    requires
        !p.contains('/'),
    ensures
        last_segment(p) == p,
    decreases p.len(),
{
    if p.len() > 0 {
        assert(!p.drop_last().contains('/')) by {
            if p.drop_last().contains('/') {
                let k = choose|k: int| 0 <= k < p.drop_last().len() && p.drop_last()[k] == '/';
                assert(p[k] == '/');
            }
        }
        assert(p[p.len() - 1] == p.last());
        lemma_last_segment_no_slash(p.drop_last());
        assert(p.drop_last().push(p.last()) =~= p);
    }
}

proof fn lemma_last_segment_at(p: Seq<char>, k: int)
    requires
        0 <= k < p.len(),
        p[k] == '/',
        forall|j: int| k < j < p.len() ==> p[j] != '/',
    ensures
        last_segment(p) == p.skip(k + 1),
    decreases p.len(),
{
    if k == p.len() - 1 {
        assert(p.skip(k + 1) =~= Seq::<char>::empty());
    } else {
        let q = p.drop_last();
        lemma_last_segment_at(q, k);
        assert(q.skip(k + 1).push(p.last()) =~= p.skip(k + 1));
    }
}

/// Where a path's file name ends: trailing separators and `.` components
/// do not count.
pub open spec fn name_end(p: Seq<char>) -> int
    decreases p.len(),
{
    if p.len() == 0 {
        0
    } else if p.last() == '/' || p == seq!['.'] || (p.len() >= 2 && p.last() == '.' && p[p.len()
        - 2] == '/') {
        name_end(p.drop_last())
    } else {
        p.len() as int
    }
}

/// Where the file name of a POSIX path stands in it, if it has one.
pub fn file_name_bounds(path: &[char]) -> (r: Option<(usize, usize)>)
    ensures
        r matches Some((s, e)) ==> s <= e == name_end(path@) <= path@.len()
            && file_name_spec(path@) == Some(path@.subrange(s as int, e as int)),
        r is None ==> file_name_spec(path@) is None,
{
    // Strip trailing separators and `.` components.
    let mut end: usize = path.len();
    assert(path@.take(end as int) =~= path@);
    while end > 0 && (path[end - 1] == '/' || (path[end - 1] == '.' && (end == 1 || path[end
        - 2] == '/')))
        invariant
            end <= path@.len(),
            file_name_spec(path@) == file_name_spec(path@.take(end as int)),
            name_end(path@) == name_end(path@.take(end as int)),
        decreases end,
    {
        let ghost p = path@.take(end as int);
        assert(p.drop_last() =~= path@.take(end - 1));
        if end == 1 && path[0] == '.' {
            assert(p =~= seq!['.']);
        }
        end = end - 1;
    }
    if end == 0 {
        assert(path@.take(0) =~= Seq::<char>::empty());
        return None;
    }
    let ghost p = path@.take(end as int);
    assert(p.last() == path@[end - 1]);
    assert(p.len() >= 2 ==> p[p.len() - 2] == path@[end - 2]);
    // Find the start of the last segment.
    let mut start: usize = end;
    while start > 0 && path[start - 1] != '/'
        invariant
            start <= end <= path@.len(),
            forall|j: int| start <= j < end ==> path@[j] != '/',
        decreases start,
    {
        start = start - 1;
    }
    let ghost name = path@.subrange(start as int, end as int);
    proof {
        if start == 0 {
            assert(!p.contains('/')) by {
                if p.contains('/') {
                    let k = choose|k: int| 0 <= k < p.len() && p[k] == '/';
                    assert(path@[k] == '/');
                }
            }
            lemma_last_segment_no_slash(p);
            assert(name =~= p);
        } else {
            lemma_last_segment_at(p, start - 1);
            assert(name =~= p.skip(start as int));
        }
        assert(p.len() > 0 && p.last() != '/');
        assert(!(p == seq!['.'] || (p.len() >= 2 && p.last() == '.' && p[p.len() - 2] == '/')))
            by {
            if p == seq!['.'] {
                assert(p.len() == 1 && p[0] == '.');
            }
        }
        assert(name_end(p) == end);
    }
    if end - start == 2 && path[start] == '.' && path[start + 1] == '.' {
        assert(name =~= seq!['.', '.']);
        None
    } else {
        assert(name != seq!['.', '.']) by {
            if name == seq!['.', '.'] {
                assert(name.len() == 2 && name[0] == '.' && name[1] == '.');
            }
        }
        Some((start, end))
    }
}

/// The file name of a POSIX path.
pub fn file_name(path: &[char]) -> (r: Option<Vec<char>>)
    ensures
        r matches Some(v) ==> file_name_spec(path@) == Some(v@),
        r is None ==> file_name_spec(path@) is None,
{
    match file_name_bounds(path) {
        Some((s, e)) => Some(sub_vec(path, s, e)),
        None => None,
    }
}

fn is_akra_binary(name: &[char]) -> (r: bool)
    ensures
        r == is_akra_binary_name(name@),
{
    let lower = ascii_lower(name);
    let a = chars_of("akra-hookers");
    let b = chars_of("akra-hookers.exe");
    chars_eq(lower.as_slice(), a.as_slice()) || chars_eq(lower.as_slice(), b.as_slice())
}

/// Whether a hook command was written by an earlier Akra installer.
pub fn is_legacy_managed_command(command: &str) -> (r: bool)
    ensures
        r == legacy_managed_spec(command@),
{
    let raw = chars_of(command);
    let t = trim(raw.as_slice());
    let lower = ascii_lower(t.as_slice());
    let plain = chars_of("akra-hookers capture");
    let plain_exe = chars_of("akra-hookers.exe capture");
    if chars_eq(lower.as_slice(), plain.as_slice()) || chars_eq(
        lower.as_slice(),
        plain_exe.as_slice(),
    ) {
        return true;
    }
    let separator = chars_of(" capture --data-dir ");
    let found = find_from(t.as_slice(), separator.as_slice(), 0);
    match found {
        None => false,
        Some(i) => {
            proof {
                lemma_first_occurrence_from(t@, separator@, 0);
                assert(occurs_at(t@, separator@, i as int));
            }
            let executable = sub_vec(t.as_slice(), 0, i);
            let sep_len = separator.len();
            let t_len = t.len();
            assert(i + sep_len <= t@.len());
            let data_dir = sub_vec(t.as_slice(), i + sep_len, t_len);
            assert(executable@ =~= t@.take(i as int));
            assert(data_dir@ =~= t@.skip(i + separator@.len()));
            match legacy_path_argument(executable.as_slice()) {
                None => false,
                Some(e) => {
                    if legacy_path_argument(data_dir.as_slice()).is_none() {
                        return false;
                    }
                    match file_name(e.as_slice()) {
                        Some(name) => is_akra_binary(name.as_slice()),
                        None => false,
                    }
                },
            }
        },
    }
}

// ---------------------------------------------------------------------------
// The manifest model
// ---------------------------------------------------------------------------
/// A member of a JSON object that this library does not interpret: its name
/// and its value as JSON text, kept so that a rewrite preserves it.
#[derive(Clone, Debug)]
pub struct JsonField {
    pub name: String,
    pub value: String,
}

/// One hook handler of the manifest.
#[derive(Debug)]
pub struct CodexHook {
    pub hook_type: String,
    pub command: String,
    pub command_windows: Option<String>,
    pub asynchronous: Option<bool>,
    pub timeout: Option<u64>,
    pub managed: Option<bool>,
    pub extra: Vec<JsonField>,
}

/// A matcher group: the handlers that run together for an event.
#[derive(Debug)]
pub struct CodexMatcherGroup {
    pub hooks: Vec<CodexHook>,
    pub extra: Vec<JsonField>,
}

/// The `hooks` object of the manifest, by event.
#[derive(Debug)]
pub struct CodexHookEvents {
    pub user_prompt_submit: Vec<CodexMatcherGroup>,
    pub subagent_start: Vec<CodexMatcherGroup>,
    pub stop: Vec<CodexMatcherGroup>,
    pub extra: Vec<JsonField>,
}

/// The whole `hooks.json` manifest.
#[derive(Debug)]
pub struct CodexHooksFile {
    pub description: Option<String>,
    pub hooks: CodexHookEvents,
    pub extra: Vec<JsonField>,
}

/// The value of a hook handler.
pub struct HookView {
    pub hook_type: Seq<char>,
    pub command: Seq<char>,
    pub command_windows: Option<Seq<char>>,
    pub asynchronous: Option<bool>,
    pub timeout: Option<u64>,
    pub managed: Option<bool>,
    pub extra: Seq<(Seq<char>, Seq<char>)>,
}

/// The value of a matcher group.
pub struct GroupView {
    pub hooks: Seq<HookView>,
    pub extra: Seq<(Seq<char>, Seq<char>)>,
}

/// The value of a manifest.
pub struct HooksFileView {
    pub description: Option<Seq<char>>,
    pub user_prompt_submit: Seq<GroupView>,
    pub subagent_start: Seq<GroupView>,
    pub stop: Seq<GroupView>,
    pub events_extra: Seq<(Seq<char>, Seq<char>)>,
    pub extra: Seq<(Seq<char>, Seq<char>)>,
}

pub open spec fn fields_view(s: Seq<JsonField>) -> Seq<(Seq<char>, Seq<char>)> {
    s.map_values(|f: JsonField| (f.name@, f.value@))
}

pub open spec fn opt_text(o: Option<String>) -> Option<Seq<char>> {
    match o {
        Some(s) => Some(s@),
        None => None,
    }
}

impl View for CodexHook {
    type V = HookView;

    open spec fn view(&self) -> HookView {
        HookView {
            hook_type: self.hook_type@,
            command: self.command@,
            command_windows: opt_text(self.command_windows),
            asynchronous: self.asynchronous,
            timeout: self.timeout,
            managed: self.managed,
            extra: fields_view(self.extra@),
        }
    }
}

pub open spec fn hooks_view(s: Seq<CodexHook>) -> Seq<HookView> {
    s.map_values(|h: CodexHook| h@)
}

impl View for CodexMatcherGroup {
    type V = GroupView;

    open spec fn view(&self) -> GroupView {
        GroupView { hooks: hooks_view(self.hooks@), extra: fields_view(self.extra@) }
    }
}

pub open spec fn groups_view(s: Seq<CodexMatcherGroup>) -> Seq<GroupView> {
    s.map_values(|g: CodexMatcherGroup| g@)
}

impl View for CodexHooksFile {
    type V = HooksFileView;

    open spec fn view(&self) -> HooksFileView {
        HooksFileView {
            description: opt_text(self.description),
            user_prompt_submit: groups_view(self.hooks.user_prompt_submit@),
            subagent_start: groups_view(self.hooks.subagent_start@),
            stop: groups_view(self.hooks.stop@),
            events_extra: fields_view(self.hooks.extra@),
            extra: fields_view(self.extra@),
        }
    }
}

/// The manifest that a missing `hooks.json` stands for.
pub open spec fn empty_manifest() -> HooksFileView {
    HooksFileView {
        description: None,
        user_prompt_submit: Seq::empty(),
        subagent_start: Seq::empty(),
        stop: Seq::empty(),
        events_extra: Seq::empty(),
        extra: Seq::empty(),
    }
}

impl CodexHooksFile {
    /// An empty manifest, as a missing file reads.
    pub fn empty() -> (r: Self)
        ensures
            r@ == empty_manifest(),
    {
        let r = CodexHooksFile {
            description: None,
            hooks: CodexHookEvents {
                user_prompt_submit: Vec::new(),
                subagent_start: Vec::new(),
                stop: Vec::new(),
                extra: Vec::new(),
            },
            extra: Vec::new(),
        };
        assert(r@.user_prompt_submit =~= Seq::<GroupView>::empty());
        assert(r@.subagent_start =~= Seq::<GroupView>::empty());
        assert(r@.stop =~= Seq::<GroupView>::empty());
        assert(r@.events_extra =~= Seq::<(Seq<char>, Seq<char>)>::empty());
        assert(r@.extra =~= Seq::<(Seq<char>, Seq<char>)>::empty());
        r
    }
}

// ---------------------------------------------------------------------------
// Which handlers are Akra's
// ---------------------------------------------------------------------------
/// A handler is Akra's when it is a command handler that carries the managed
/// marker, or whose command an earlier installer wrote.
pub open spec fn is_akra_hook_spec(h: HookView) -> bool {
    h.hook_type == "command"@ && (h.managed == Some(true) || legacy_managed_spec(h.command))
}

impl CodexHook {
    /// Whether this handler is one that Akra manages.
    pub fn is_akra_hook(&self) -> (r: bool)
        ensures
            r == is_akra_hook_spec(self@),
    {
        let ty = chars_of(self.hook_type.as_str());
        let command_word = chars_of("command");
        if !chars_eq(ty.as_slice(), command_word.as_slice()) {
            return false;
        }
        let marked = match self.managed {
            Some(m) => m,
            None => false,
        };
        marked || is_legacy_managed_command(self.command.as_str())
    }
}

/// The handlers that are not Akra's, in order.
pub open spec fn kept_hooks(hs: Seq<HookView>) -> Seq<HookView>
    decreases hs.len(),
{
    if hs.len() == 0 {
        hs
    } else {
        let k = kept_hooks(hs.drop_last());
        if is_akra_hook_spec(hs.last()) {
            k
        } else {
            k.push(hs.last())
        }
    }
}

/// The locations of the Akra handlers of one group, in order.
pub open spec fn handler_locations(event: HookEvent, group: int, hs: Seq<HookView>) -> Seq<
    HookLocation,
>
    decreases hs.len(),
{
    if hs.len() == 0 {
        Seq::empty()
    } else {
        let l = handler_locations(event, group, hs.drop_last());
        if is_akra_hook_spec(hs.last()) {
            l.push(HookLocation { event, group: group as usize, handler: (hs.len() - 1) as usize })
        } else {
            l
        }
    }
}

/// The groups of an event with Akra's handlers removed and emptied groups
/// dropped.
pub open spec fn stripped_groups(gs: Seq<GroupView>) -> Seq<GroupView>
    decreases gs.len(),
{
    if gs.len() == 0 {
        gs
    } else {
        let s = stripped_groups(gs.drop_last());
        let k = kept_hooks(gs.last().hooks);
        if k.len() > 0 {
            s.push(GroupView { hooks: k, extra: gs.last().extra })
        } else {
            s
        }
    }
}

/// The locations of every Akra handler of an event, group by group.
pub open spec fn removed_locations(event: HookEvent, gs: Seq<GroupView>) -> Seq<HookLocation>
    decreases gs.len(),
{
    if gs.len() == 0 {
        Seq::empty()
    } else {
        removed_locations(event, gs.drop_last()) + handler_locations(
            event,
            gs.len() - 1,
            gs.last().hooks,
        )
    }
}

/// Where each kept handler of one group moves: from its place in group
/// `group_old` to its place among the kept handlers of group `group_new`,
/// for those whose place changes.
pub open spec fn kept_moves(event: HookEvent, group_old: int, group_new: int, hs: Seq<HookView>) -> Seq<
    (HookLocation, HookLocation),
>
    decreases hs.len(),
{
    if hs.len() == 0 {
        Seq::empty()
    } else {
        let l = kept_moves(event, group_old, group_new, hs.drop_last());
        let j = hs.len() - 1;
        let k = kept_hooks(hs.drop_last()).len();
        if is_akra_hook_spec(hs.last()) || (group_old == group_new && j == k) {
            l
        } else {
            l.push(
                (
                    HookLocation { event, group: group_old as usize, handler: j as usize },
                    HookLocation { event, group: group_new as usize, handler: k as usize },
                ),
            )
        }
    }
}

/// Where the kept handlers of an event move once Akra's handlers and the
/// groups they empty are removed, group by group.
pub open spec fn retained_moves(event: HookEvent, gs: Seq<GroupView>) -> Seq<(HookLocation, HookLocation)>
    decreases gs.len(),
{
    if gs.len() == 0 {
        Seq::empty()
    } else {
        retained_moves(event, gs.drop_last()) + kept_moves(
            event,
            gs.len() - 1,
            stripped_groups(gs.drop_last()).len() as int,
            gs.last().hooks,
        )
    }
}

/// Akra's handlers taken out of one group: the rest, where the removed ones
/// were, and where the kept ones move (the group becomes group
/// `new_group`).
fn strip_hooks(
    event: HookEvent,
    group_index: usize,
    new_group: usize,
    hooks: Vec<CodexHook>,
    locations: &mut Vec<HookLocation>,
    moves: &mut Vec<(HookLocation, HookLocation)>,
) -> (kept: Vec<CodexHook>)
    ensures
        hooks_view(kept@) == kept_hooks(hooks_view(hooks@)),
        final(locations)@ == old(locations)@ + handler_locations(
            event,
            group_index as int,
            hooks_view(hooks@),
        ),
        final(moves)@ == old(moves)@ + kept_moves(
            event,
            group_index as int,
            new_group as int,
            hooks_view(hooks@),
        ),
{
    let ghost hv = hooks_view(hooks@);
    let ghost start = locations@;
    let ghost start_moves = moves@;
    let n = hooks.len();
    let mut rest = hooks;
    let mut kept: Vec<CodexHook> = Vec::new();
    let mut i: usize = 0;
    while i < n
        invariant
            i <= n == hv.len(),
            rest@.len() == n - i,
            hooks_view(rest@) == hv.skip(i as int),
            hooks_view(kept@) == kept_hooks(hv.take(i as int)),
            locations@ == start + handler_locations(event, group_index as int, hv.take(i as int)),
            moves@ == start_moves + kept_moves(event, group_index as int, new_group as int, hv.take(i as int)),
        decreases n - i,
    {
        let ghost before = rest@;
        let hook = rest.remove(0);
        proof {
            assert(hooks_view(before)[0] == hook@);
            assert(hooks_view(rest@) =~= hooks_view(before).skip(1));
            assert(hv.skip(i as int).skip(1) =~= hv.skip(i + 1));
            assert(hv.take(i + 1).drop_last() =~= hv.take(i as int));
            assert(hv.take(i + 1).last() == hv[i as int]);
            assert(hv[i as int] == hv.skip(i as int)[0]);
        }
        if hook.is_akra_hook() {
            locations.push(HookLocation::new(event, group_index, i));
            assert(locations@ =~= start + handler_locations(
                event,
                group_index as int,
                hv.take(i + 1),
            ));
            assert(moves@ =~= start_moves + kept_moves(event, group_index as int, new_group as int, hv.take(i + 1)));
        } else {
            let ghost k = kept@;
            let position = kept.len();
            if !(group_index == new_group && i == position) {
                moves.push((HookLocation::new(event, group_index, i), HookLocation::new(event, new_group, position)));
            }
            assert(moves@ =~= start_moves + kept_moves(event, group_index as int, new_group as int, hv.take(i + 1)));
            kept.push(hook);
            assert(hooks_view(kept@) =~= hooks_view(k).push(hv[i as int]));
        }
        i = i + 1;
    }
    assert(hv.take(n as int) =~= hv);
    kept
}

/// Akra's handlers removed from the groups of one event: emptied groups are
/// dropped, the removed handlers' locations appended to `locations` and the
/// moves of the kept handlers to `moves`.
pub fn remove_akra_event_hooks(
    event: HookEvent,
    groups: &mut Vec<CodexMatcherGroup>,
    locations: &mut Vec<HookLocation>,
    moves: &mut Vec<(HookLocation, HookLocation)>,
)
    ensures
        groups_view(final(groups)@) == stripped_groups(groups_view(old(groups)@)),
        final(locations)@ == old(locations)@ + removed_locations(
            event,
            groups_view(old(groups)@),
        ),
        final(moves)@ == old(moves)@ + retained_moves(event, groups_view(old(groups)@)),
{
    let mut rest: Vec<CodexMatcherGroup> = Vec::new();
    std::mem::swap(&mut rest, groups);
    let ghost gv = groups_view(rest@);
    let ghost start = locations@;
    let ghost start_moves = moves@;
    assert(groups_view(groups@) =~= Seq::<GroupView>::empty());
    let n = rest.len();
    let mut i: usize = 0;
    while i < n
        invariant
            i <= n == gv.len(),
            rest@.len() == n - i,
            groups_view(rest@) == gv.skip(i as int),
            groups_view(groups@) == stripped_groups(gv.take(i as int)),
            locations@ == start + removed_locations(event, gv.take(i as int)),
            moves@ == start_moves + retained_moves(event, gv.take(i as int)),
        decreases n - i,
    {
        let ghost before = rest@;
        let group = rest.remove(0);
        proof {
            assert(groups_view(before)[0] == group@);
            assert(groups_view(rest@) =~= groups_view(before).skip(1));
            assert(gv.skip(i as int).skip(1) =~= gv.skip(i + 1));
            assert(gv.take(i + 1).drop_last() =~= gv.take(i as int));
            assert(gv.take(i + 1).last() == gv[i as int]);
            assert(gv[i as int] == gv.skip(i as int)[0]);
        }
        let CodexMatcherGroup { hooks, extra } = group;
        let ghost before_locations = locations@;
        let new_group = groups.len();
        let kept = strip_hooks(event, i, new_group, hooks, locations, moves);
        assert(locations@ =~= start + removed_locations(event, gv.take(i + 1)));
        assert(moves@ =~= start_moves + retained_moves(event, gv.take(i + 1)));
        if kept.len() > 0 {
            let ghost g = groups@;
            let new_group = CodexMatcherGroup { hooks: kept, extra };
            groups.push(new_group);
            assert(groups_view(groups@) =~= groups_view(g).push(new_group@));
        }
        i = i + 1;
    }
    assert(gv.take(n as int) =~= gv);
}

/// The locations of Akra's handlers in the three events: user prompts,
/// then subagent starts, then stops.
pub open spec fn all_removed_locations(m: HooksFileView) -> Seq<HookLocation> {
    removed_locations(HookEvent::UserPromptSubmit, m.user_prompt_submit) + removed_locations(
        HookEvent::SubagentStart,
        m.subagent_start,
    ) + removed_locations(HookEvent::Stop, m.stop)
}

/// The manifest with Akra's handlers removed from the three events.
pub open spec fn without_akra_hooks(m: HooksFileView) -> HooksFileView {
    HooksFileView {
        user_prompt_submit: stripped_groups(m.user_prompt_submit),
        subagent_start: stripped_groups(m.subagent_start),
        stop: stripped_groups(m.stop),
        ..m
    }
}

/// Where the kept handlers of the three events move, in the order of
/// `all_removed_locations`.
pub open spec fn all_retained_moves(m: HooksFileView) -> Seq<(HookLocation, HookLocation)> {
    retained_moves(HookEvent::UserPromptSubmit, m.user_prompt_submit) + retained_moves(
        HookEvent::SubagentStart,
        m.subagent_start,
    ) + retained_moves(HookEvent::Stop, m.stop)
}

/// What removing Akra's handlers did: where each removed handler was, and
/// where each kept handler that changed place was and now is.
#[derive(Debug)]
pub struct RemovedHooks {
    pub managed_locations: Vec<HookLocation>,
    pub retained_moves: Vec<(HookLocation, HookLocation)>,
}

impl CodexHooksFile {
    /// Removes every Akra handler and reports where each one was and how
    /// the other handlers moved.
    pub fn remove_akra_hooks(&mut self) -> (r: RemovedHooks)
        ensures
            final(self)@ == without_akra_hooks(old(self)@),
            r.managed_locations@ == all_removed_locations(old(self)@),
            r.retained_moves@ == all_retained_moves(old(self)@),
    {
        let mut locations: Vec<HookLocation> = Vec::new();
        let mut moves: Vec<(HookLocation, HookLocation)> = Vec::new();
        remove_akra_event_hooks(
            HookEvent::UserPromptSubmit,
            &mut self.hooks.user_prompt_submit,
            &mut locations,
            &mut moves,
        );
        remove_akra_event_hooks(
            HookEvent::SubagentStart,
            &mut self.hooks.subagent_start,
            &mut locations,
            &mut moves,
        );
        remove_akra_event_hooks(HookEvent::Stop, &mut self.hooks.stop, &mut locations, &mut moves);
        assert(locations@ =~= all_removed_locations(old(self)@));
        assert(moves@ =~= all_retained_moves(old(self)@));
        RemovedHooks { managed_locations: locations, retained_moves: moves }
    }
}

// ---------------------------------------------------------------------------
// Installing Akra's handlers
// ---------------------------------------------------------------------------
/// The handler Akra installs for a command: a synchronous command handler
/// with the capture timeout and the managed marker.
pub open spec fn akra_hook_view(c: crate::lifecycle::CommandView) -> HookView {
    HookView {
        hook_type: "command"@,
        command: c.posix,
        command_windows: c.windows,
        asynchronous: None,
        timeout: Some(CAPTURE_HOOK_TIMEOUT_SECONDS),
        managed: Some(true),
        extra: Seq::empty(),
    }
}

/// The matcher group Akra installs: its handler alone.
pub open spec fn akra_group_view(c: crate::lifecycle::CommandView) -> GroupView {
    GroupView { hooks: seq![akra_hook_view(c)], extra: Seq::empty() }
}

/// The manifest with Akra's group appended to the user-prompt and stop
/// events; subagent starts get none.
pub open spec fn with_akra_hooks(m: HooksFileView, c: crate::lifecycle::CommandView) -> HooksFileView {
    HooksFileView {
        user_prompt_submit: m.user_prompt_submit.push(akra_group_view(c)),
        stop: m.stop.push(akra_group_view(c)),
        ..m
    }
}

/// Where `with_akra_hooks` puts Akra's handlers.
pub open spec fn appended_locations(m: HooksFileView) -> Seq<HookLocation> {
    seq![
        HookLocation {
            event: HookEvent::UserPromptSubmit,
            group: m.user_prompt_submit.len() as usize,
            handler: 0,
        },
        HookLocation { event: HookEvent::Stop, group: m.stop.len() as usize, handler: 0 },
    ]
}

impl CodexMatcherGroup {
    /// The group Akra installs for `command`.
    pub fn akra_hook(command: &CodexHookCommand) -> (r: Self)
        ensures
            r@ == akra_group_view(command@),
    {
        let hook = CodexHook {
            hook_type: "command".to_owned(),
            command: command.command().to_owned(),
            command_windows: match command.command_windows() {
                Some(w) => Some(w.to_owned()),
                None => None,
            },
            asynchronous: None,
            timeout: Some(CAPTURE_HOOK_TIMEOUT_SECONDS),
            managed: Some(true),
            extra: Vec::new(),
        };
        let mut hooks: Vec<CodexHook> = Vec::new();
        hooks.push(hook);
        let r = CodexMatcherGroup { hooks, extra: Vec::new() };
        proof {
            reveal_strlit("command");
            assert(fields_view(hook.extra@) =~= Seq::<(Seq<char>, Seq<char>)>::empty());
            assert(hook@ == akra_hook_view(command@));
            assert(r@.hooks =~= seq![akra_hook_view(command@)]);
            assert(r@.extra =~= Seq::<(Seq<char>, Seq<char>)>::empty());
        }
        r
    }
}

impl CodexHooksFile {
    /// Appends Akra's group for `command` to the user-prompt and stop events
    /// and returns where the two handlers now stand.
    pub fn append_akra_hooks(&mut self, command: &CodexHookCommand) -> (r: Vec<HookLocation>)
        ensures
            final(self)@ == with_akra_hooks(old(self)@, command@),
            r@ == appended_locations(old(self)@),
    {
        let ghost ups = self.hooks.user_prompt_submit@;
        let ghost stops = self.hooks.stop@;
        let user_prompt = HookLocation::new(
            HookEvent::UserPromptSubmit,
            self.hooks.user_prompt_submit.len(),
            0,
        );
        self.hooks.user_prompt_submit.push(CodexMatcherGroup::akra_hook(command));
        let stop = HookLocation::new(HookEvent::Stop, self.hooks.stop.len(), 0);
        self.hooks.stop.push(CodexMatcherGroup::akra_hook(command));
        assert(groups_view(self.hooks.user_prompt_submit@) =~= groups_view(ups).push(
            akra_group_view(command@),
        ));
        assert(groups_view(self.hooks.stop@) =~= groups_view(stops).push(akra_group_view(command@)));
        let mut r: Vec<HookLocation> = Vec::new();
        r.push(user_prompt);
        r.push(stop);
        assert(r@ =~= appended_locations(old(self)@));
        r
    }
}

// ---------------------------------------------------------------------------
// Reading Akra's state from the manifest
// ---------------------------------------------------------------------------
/// The first Akra handler at or after handler `j` of group `i`, in group
/// order and then handler order.
pub open spec fn first_akra_from(gs: Seq<GroupView>, i: int, j: int) -> Option<HookView>
    decreases gs.len() - i, gs[i].hooks.len() - j,
{
    if i < 0 || i >= gs.len() {
        None
    } else if j < 0 || j >= gs[i].hooks.len() {
        first_akra_from(gs, i + 1, 0)
    } else if is_akra_hook_spec(gs[i].hooks[j]) {
        Some(gs[i].hooks[j])
    } else {
        first_akra_from(gs, i, j + 1)
    }
}

/// The command of a handler.
pub open spec fn hook_command_view(h: HookView) -> crate::lifecycle::CommandView {
    crate::lifecycle::CommandView { posix: h.command, windows: h.command_windows }
}

/// Capture is enabled in a manifest when a user-prompt handler and a stop
/// handler are Akra's: an older install without the stop handler is not.
pub open spec fn manifest_enabled(m: HooksFileView) -> bool {
    first_akra_from(m.user_prompt_submit, 0, 0) is Some && first_akra_from(m.stop, 0, 0) is Some
}

/// The command of the first Akra user-prompt handler.
pub open spec fn manifest_command(m: HooksFileView) -> Option<crate::lifecycle::CommandView> {
    match first_akra_from(m.user_prompt_submit, 0, 0) {
        Some(h) => Some(hook_command_view(h)),
        None => None,
    }
}

/// The first Akra handler among the groups, searched in order.
fn find_akra_hook(groups: &Vec<CodexMatcherGroup>) -> (r: Option<(usize, usize)>)
    ensures
        r matches Some((i, j)) ==> i < groups@.len() && j < groups@[i as int].hooks@.len()
            && first_akra_from(groups_view(groups@), 0, 0) == Some(
            groups_view(groups@)[i as int].hooks[j as int],
        ),
        r is None ==> first_akra_from(groups_view(groups@), 0, 0) is None,
{
    let ghost gv = groups_view(groups@);
    let mut i: usize = 0;
    while i < groups.len()
        invariant
            i <= groups@.len() == gv.len(),
            gv == groups_view(groups@),
            first_akra_from(gv, 0, 0) == first_akra_from(gv, i as int, 0),
        decreases groups.len() - i,
    {
        let hooks = &groups[i].hooks;
        assert(gv[i as int].hooks == hooks_view(hooks@));
        let mut j: usize = 0;
        while j < hooks.len()
            invariant
                i < gv.len(),
                i < groups@.len(),
                gv == groups_view(groups@),
                hooks@ == groups@[i as int].hooks@,
                j <= hooks@.len() == gv[i as int].hooks.len(),
                gv[i as int].hooks == hooks_view(hooks@),
                first_akra_from(gv, 0, 0) == first_akra_from(gv, i as int, j as int),
            decreases hooks.len() - j,
        {
            if hooks[j].is_akra_hook() {
                assert(gv[i as int].hooks[j as int] == hooks@[j as int]@);
                return Some((i, j));
            }
            assert(gv[i as int].hooks[j as int] == hooks@[j as int]@);
            j = j + 1;
        }
        i = i + 1;
    }
    None
}

impl CodexHooksFile {
    /// Whether the manifest has an Akra user-prompt handler and an Akra stop
    /// handler.
    pub fn is_enabled(&self) -> (r: bool)
        ensures
            r == manifest_enabled(self@),
    {
        find_akra_hook(&self.hooks.user_prompt_submit).is_some() && find_akra_hook(
            &self.hooks.stop,
        ).is_some()
    }

    /// The command of the first Akra user-prompt handler, if any.
    pub fn managed_command(&self) -> (r: Option<CodexHookCommand>)
        ensures
            r is None <==> manifest_command(self@) is None,
            r matches Some(c) ==> manifest_command(self@) == Some(c@),
    {
        match find_akra_hook(&self.hooks.user_prompt_submit) {
            None => None,
            Some((i, j)) => {
                let hook = &self.hooks.user_prompt_submit[i].hooks[j];
                let c = CodexHookCommand::from_parts(
                    hook.command.clone(),
                    match &hook.command_windows {
                        Some(w) => Some(w.clone()),
                        None => None,
                    },
                );
                assert(groups_view(self.hooks.user_prompt_submit@)[i as int].hooks[j as int]
                    == hook@);
                Some(c)
            },
        }
    }
}

// ---------------------------------------------------------------------------
// Laws of the manifest rules
// ---------------------------------------------------------------------------
/// No handler of the groups is Akra's.
pub open spec fn no_akra_hooks(gs: Seq<GroupView>) -> bool {
    forall|i: int, j: int|
        0 <= i < gs.len() && 0 <= j < gs[i].hooks.len() ==> !is_akra_hook_spec(
            #[trigger] gs[i].hooks[j],
        )
}

proof fn lemma_kept_hooks_clean(hs: Seq<HookView>)
    ensures
        forall|k: int|
            0 <= k < kept_hooks(hs).len() ==> !is_akra_hook_spec(#[trigger] kept_hooks(hs)[k]),
    decreases hs.len(),
{
    if hs.len() > 0 {
        let k = kept_hooks(hs.drop_last());
        lemma_kept_hooks_clean(hs.drop_last());
        if !is_akra_hook_spec(hs.last()) {
            assert forall|x: int| 0 <= x < k.push(hs.last()).len() implies !is_akra_hook_spec(
                #[trigger] k.push(hs.last())[x],
            ) by {
                if x < k.len() {
                    assert(k.push(hs.last())[x] == k[x]);
                }
            }
        }
    }
}

proof fn lemma_kept_hooks_idempotent(hs: Seq<HookView>)
    ensures
        kept_hooks(kept_hooks(hs)) == kept_hooks(hs),
    decreases hs.len(),
{
    if hs.len() > 0 {
        let k = kept_hooks(hs.drop_last());
        lemma_kept_hooks_idempotent(hs.drop_last());
        if !is_akra_hook_spec(hs.last()) {
            assert(k.push(hs.last()).drop_last() =~= k);
        }
    }
}

proof fn lemma_stripped_clean(gs: Seq<GroupView>)
    ensures
        no_akra_hooks(stripped_groups(gs)),
        forall|i: int|
            0 <= i < stripped_groups(gs).len() ==> (#[trigger] stripped_groups(gs)[i]).hooks.len()
                > 0,
    decreases gs.len(),
{
    if gs.len() > 0 {
        lemma_stripped_clean(gs.drop_last());
        lemma_kept_hooks_clean(gs.last().hooks);
    }
}

proof fn lemma_stripped_idempotent(gs: Seq<GroupView>)
    ensures
        stripped_groups(stripped_groups(gs)) == stripped_groups(gs),
    decreases gs.len(),
{
    if gs.len() > 0 {
        let s = stripped_groups(gs.drop_last());
        let k = kept_hooks(gs.last().hooks);
        lemma_stripped_idempotent(gs.drop_last());
        if k.len() > 0 {
            let g = GroupView { hooks: k, extra: gs.last().extra };
            assert(s.push(g).drop_last() =~= s);
            lemma_kept_hooks_idempotent(gs.last().hooks);
        }
    }
}

proof fn lemma_first_akra_none(gs: Seq<GroupView>, i: int, j: int)
    requires
        no_akra_hooks(gs),
    ensures
        first_akra_from(gs, i, j) is None,
    decreases gs.len() - i, gs[i].hooks.len() - j,
{
    if i < 0 || i >= gs.len() {
    } else if j < 0 || j >= gs[i].hooks.len() {
        lemma_first_akra_none(gs, i + 1, 0);
    } else {
        assert(!is_akra_hook_spec(gs[i].hooks[j]));
        lemma_first_akra_none(gs, i, j + 1);
    }
}

proof fn lemma_first_akra_appended(gs: Seq<GroupView>, g: GroupView, i: int, j: int)
    requires
        no_akra_hooks(gs),
        g.hooks.len() > 0,
        is_akra_hook_spec(g.hooks[0]),
        0 <= i <= gs.len(),
        i == gs.len() ==> j == 0,
    ensures
        first_akra_from(gs.push(g), i, j) == Some(g.hooks[0]),
    decreases gs.len() - i, gs.push(g)[i].hooks.len() - j,
{
    let all = gs.push(g);
    if i == gs.len() {
        assert(all[i] == g);
        assert(all[i].hooks[0] == g.hooks[0]);
    } else if j < 0 || j >= all[i].hooks.len() {
        lemma_first_akra_appended(gs, g, i + 1, 0);
        assert(first_akra_from(all, i, j) == first_akra_from(all, i + 1, 0));
    } else {
        assert(all[i] == gs[i]);
        assert(!is_akra_hook_spec(gs[i].hooks[j]));
        lemma_first_akra_appended(gs, g, i, j + 1);
        assert(first_akra_from(all, i, j) == first_akra_from(all, i, j + 1));
    }
}

/// Once Akra's handlers are removed, the manifest has none left in any
/// event, reports capture disabled and has no managed command.
pub proof fn law_removal_leaves_no_akra_hook(m: HooksFileView)
    ensures
        no_akra_hooks(without_akra_hooks(m).user_prompt_submit),
        no_akra_hooks(without_akra_hooks(m).subagent_start),
        no_akra_hooks(without_akra_hooks(m).stop),
        !manifest_enabled(without_akra_hooks(m)),
        manifest_command(without_akra_hooks(m)) is None,
{
    lemma_stripped_clean(m.user_prompt_submit);
    lemma_stripped_clean(m.subagent_start);
    lemma_stripped_clean(m.stop);
    lemma_first_akra_none(stripped_groups(m.user_prompt_submit), 0, 0);
}

/// Enabling (removing Akra's handlers, then appending them for a command)
/// leaves a manifest that reports capture enabled with exactly that command:
/// one Akra handler for user prompts and one for stops, each the last group
/// of its event, and no Akra handler for subagent starts.
pub proof fn law_enable_reports_its_command(m: HooksFileView, c: crate::lifecycle::CommandView)
    ensures
        manifest_enabled(with_akra_hooks(without_akra_hooks(m), c)),
        manifest_command(with_akra_hooks(without_akra_hooks(m), c)) == Some(c),
        with_akra_hooks(without_akra_hooks(m), c).user_prompt_submit.last() == akra_group_view(c),
        with_akra_hooks(without_akra_hooks(m), c).stop.last() == akra_group_view(c),
        no_akra_hooks(with_akra_hooks(without_akra_hooks(m), c).user_prompt_submit.drop_last()),
        no_akra_hooks(with_akra_hooks(without_akra_hooks(m), c).stop.drop_last()),
        no_akra_hooks(with_akra_hooks(without_akra_hooks(m), c).subagent_start),
{
    let s = stripped_groups(m.user_prompt_submit);
    let t = stripped_groups(m.stop);
    lemma_stripped_clean(m.user_prompt_submit);
    lemma_stripped_clean(m.stop);
    lemma_stripped_clean(m.subagent_start);
    reveal_strlit("command");
    assert(akra_group_view(c).hooks[0] == akra_hook_view(c));
    lemma_first_akra_appended(s, akra_group_view(c), 0, 0);
    lemma_first_akra_appended(t, akra_group_view(c), 0, 0);
    assert(s.push(akra_group_view(c)).drop_last() =~= s);
    assert(t.push(akra_group_view(c)).drop_last() =~= t);
}

/// Removing Akra's handlers twice is removing them once.
pub proof fn law_removal_is_idempotent(m: HooksFileView)
    ensures
        without_akra_hooks(without_akra_hooks(m)) == without_akra_hooks(m),
{
    lemma_stripped_idempotent(m.user_prompt_submit);
    lemma_stripped_idempotent(m.subagent_start);
    lemma_stripped_idempotent(m.stop);
}

proof fn lemma_strip_appended_akra(gs: Seq<GroupView>, c: crate::lifecycle::CommandView)
    ensures
        stripped_groups(stripped_groups(gs).push(akra_group_view(c))) == stripped_groups(gs),
{
    let s = stripped_groups(gs);
    let g = akra_group_view(c);
    let all = s.push(g);
    assert(all.drop_last() =~= s);
    assert(g.hooks.drop_last() =~= Seq::<HookView>::empty());
    assert(g.hooks.last() == akra_hook_view(c));
    reveal_strlit("command");
    assert(is_akra_hook_spec(akra_hook_view(c)));
    reveal_with_fuel(kept_hooks, 2);
    assert(kept_hooks(g.hooks) =~= Seq::<HookView>::empty());
    lemma_stripped_idempotent(gs);
}

/// Enabling twice with one command gives the manifest that enabling once
/// gives: a re-enable replaces Akra's handlers instead of adding more.
pub proof fn law_enable_is_idempotent(m: HooksFileView, c: crate::lifecycle::CommandView)
    ensures
        with_akra_hooks(without_akra_hooks(with_akra_hooks(without_akra_hooks(m), c)), c)
            == with_akra_hooks(without_akra_hooks(m), c),
        without_akra_hooks(with_akra_hooks(without_akra_hooks(m), c)) == without_akra_hooks(m),
{
    lemma_strip_appended_akra(m.user_prompt_submit, c);
    lemma_strip_appended_akra(m.stop, c);
    lemma_stripped_idempotent(m.subagent_start);
}

/// The handlers of some groups that are not Akra's, in order.
pub open spec fn foreign_handlers(gs: Seq<GroupView>) -> Seq<HookView>
    decreases gs.len(),
{
    if gs.len() == 0 {
        Seq::empty()
    } else {
        foreign_handlers(gs.drop_last()) + kept_hooks(gs.last().hooks)
    }
}

proof fn lemma_foreign_stripped(gs: Seq<GroupView>)
    ensures
        foreign_handlers(stripped_groups(gs)) == foreign_handlers(gs),
    decreases gs.len(),
{
    if gs.len() > 0 {
        let s = stripped_groups(gs.drop_last());
        let k = kept_hooks(gs.last().hooks);
        lemma_foreign_stripped(gs.drop_last());
        if k.len() > 0 {
            let g = GroupView { hooks: k, extra: gs.last().extra };
            assert(s.push(g).drop_last() =~= s);
            lemma_kept_hooks_idempotent(gs.last().hooks);
        } else {
            assert(foreign_handlers(gs.drop_last()) + k =~= foreign_handlers(gs.drop_last()));
        }
    }
}

proof fn lemma_foreign_appended_akra(gs: Seq<GroupView>, c: crate::lifecycle::CommandView)
    ensures
        foreign_handlers(gs.push(akra_group_view(c))) == foreign_handlers(gs),
{
    let g = akra_group_view(c);
    assert(gs.push(g).drop_last() =~= gs);
    assert(g.hooks.drop_last() =~= Seq::<HookView>::empty());
    reveal_strlit("command");
    assert(is_akra_hook_spec(akra_hook_view(c)));
    reveal_with_fuel(kept_hooks, 2);
    assert(kept_hooks(g.hooks) =~= Seq::<HookView>::empty());
    assert(foreign_handlers(gs) + kept_hooks(g.hooks) =~= foreign_handlers(gs));
}

/// Enabling or disabling touches only Akra's handlers: every other handler
/// of every event stays, in order, and the rest of the manifest is kept.
pub proof fn law_other_hooks_are_kept(m: HooksFileView, c: crate::lifecycle::CommandView)
    ensures
        foreign_handlers(without_akra_hooks(m).user_prompt_submit) == foreign_handlers(m.user_prompt_submit),
        foreign_handlers(without_akra_hooks(m).subagent_start) == foreign_handlers(m.subagent_start),
        foreign_handlers(with_akra_hooks(without_akra_hooks(m), c).user_prompt_submit)
            == foreign_handlers(m.user_prompt_submit),
        foreign_handlers(with_akra_hooks(without_akra_hooks(m), c).subagent_start)
            == foreign_handlers(m.subagent_start),
        foreign_handlers(without_akra_hooks(m).stop) == foreign_handlers(m.stop),
        foreign_handlers(with_akra_hooks(without_akra_hooks(m), c).stop) == foreign_handlers(m.stop),
        with_akra_hooks(without_akra_hooks(m), c).description == m.description,
        with_akra_hooks(without_akra_hooks(m), c).events_extra == m.events_extra,
        with_akra_hooks(without_akra_hooks(m), c).extra == m.extra,
        without_akra_hooks(m).description == m.description,
        without_akra_hooks(m).events_extra == m.events_extra,
        without_akra_hooks(m).extra == m.extra,
{
    lemma_foreign_stripped(m.user_prompt_submit);
    lemma_foreign_stripped(m.subagent_start);
    lemma_foreign_appended_akra(stripped_groups(m.user_prompt_submit), c);
    lemma_foreign_stripped(m.stop);
    lemma_foreign_appended_akra(stripped_groups(m.stop), c);
}

/// A handler move that is sound for one group: from a handler of `hs` in
/// group `go` to the same handler among the kept handlers, in group `gn`.
pub open spec fn move_in_group(
    event: HookEvent,
    go: int,
    gn: int,
    hs: Seq<HookView>,
    m: (HookLocation, HookLocation),
) -> bool {
    &&& m.0.event == event && m.1.event == event
    &&& m.0.group == go && m.1.group == gn
    &&& m.0.handler < hs.len() && m.1.handler < kept_hooks(hs).len()
    &&& hs[m.0.handler as int] == kept_hooks(hs)[m.1.handler as int]
    &&& !is_akra_hook_spec(hs[m.0.handler as int])
}

proof fn lemma_kept_hooks_prefix(hs: Seq<HookView>)
    ensures
        hs.len() > 0 ==> kept_hooks(hs.drop_last()).len() <= kept_hooks(hs).len() && forall|k: int|
            0 <= k < kept_hooks(hs.drop_last()).len() ==> #[trigger] kept_hooks(hs)[k] == kept_hooks(
                hs.drop_last(),
            )[k],
{
}

proof fn lemma_kept_moves_sound(event: HookEvent, go: int, gn: int, hs: Seq<HookView>)
    requires
        0 <= go,
        0 <= gn,
        go <= usize::MAX,
        gn <= usize::MAX,
        hs.len() <= usize::MAX,
    ensures
        forall|i: int|
            0 <= i < kept_moves(event, go, gn, hs).len() ==> move_in_group(
                event,
                go,
                gn,
                hs,
                #[trigger] kept_moves(event, go, gn, hs)[i],
            ),
    decreases hs.len(),
{
    if hs.len() > 0 {
        let d = hs.drop_last();
        lemma_kept_moves_sound(event, go, gn, d);
        lemma_kept_hooks_prefix(hs);
        lemma_kept_hooks_len(d);
        let l = kept_moves(event, go, gn, d);
        assert forall|i: int| 0 <= i < kept_moves(event, go, gn, hs).len() implies move_in_group(
            event,
            go,
            gn,
            hs,
            #[trigger] kept_moves(event, go, gn, hs)[i],
        ) by {
            if i < l.len() {
                let m = l[i];
                assert(move_in_group(event, go, gn, d, m));
                assert(kept_moves(event, go, gn, hs)[i] == m);
                assert(hs[m.0.handler as int] == d[m.0.handler as int]);
            }
        }
    }
}

proof fn lemma_kept_hooks_len(hs: Seq<HookView>)
    ensures
        kept_hooks(hs).len() <= hs.len(),
    decreases hs.len(),
{
    if hs.len() > 0 {
        lemma_kept_hooks_len(hs.drop_last());
    }
}

proof fn lemma_stripped_prefix(gs: Seq<GroupView>)
    ensures
        gs.len() > 0 ==> stripped_groups(gs.drop_last()).len() <= stripped_groups(gs).len() && forall|g: int|
            0 <= g < stripped_groups(gs.drop_last()).len() ==> #[trigger] stripped_groups(gs)[g]
                == stripped_groups(gs.drop_last())[g],
{
}

proof fn lemma_stripped_len(gs: Seq<GroupView>)
    ensures
        stripped_groups(gs).len() <= gs.len(),
    decreases gs.len(),
{
    if gs.len() > 0 {
        lemma_stripped_len(gs.drop_last());
    }
}

/// Where Akra's handlers are removed, each move reported for an event takes
/// a handler that is not Akra's from its place in the manifest to the place
/// where the same handler stands once the removal is done, so trust state
/// can follow it.
pub proof fn law_moves_follow_kept_handlers(event: HookEvent, gs: Seq<GroupView>)
    requires
        gs.len() <= usize::MAX,
        forall|g: int| 0 <= g < gs.len() ==> (#[trigger] gs[g]).hooks.len() <= usize::MAX,
    ensures
        forall|i: int|
            0 <= i < retained_moves(event, gs).len() ==> {
                let m = #[trigger] retained_moves(event, gs)[i];
                &&& m.0.event == event && m.1.event == event
                &&& m.0.group < gs.len() && m.0.handler < gs[m.0.group as int].hooks.len()
                &&& m.1.group < stripped_groups(gs).len() && m.1.handler < stripped_groups(
                    gs,
                )[m.1.group as int].hooks.len()
                &&& gs[m.0.group as int].hooks[m.0.handler as int] == stripped_groups(
                    gs,
                )[m.1.group as int].hooks[m.1.handler as int]
                &&& !is_akra_hook_spec(gs[m.0.group as int].hooks[m.0.handler as int])
            },
    decreases gs.len(),
{
    if gs.len() > 0 {
        let d = gs.drop_last();
        assert forall|g: int| 0 <= g < d.len() implies (#[trigger] d[g]).hooks.len() <= usize::MAX by {
            assert(d[g] == gs[g]);
        }
        law_moves_follow_kept_handlers(event, d);
        lemma_stripped_prefix(gs);
        lemma_stripped_len(d);
        let n = gs.len() - 1;
        let gn = stripped_groups(d).len() as int;
        let hs = gs.last().hooks;
        assert(gs[n] == gs.last());
        lemma_kept_moves_sound(event, n, gn, hs);
        let old_moves = retained_moves(event, d);
        let new_moves = kept_moves(event, n, gn, hs);
        assert(retained_moves(event, gs) == old_moves + new_moves);
        assert forall|i: int| 0 <= i < retained_moves(event, gs).len() implies {
            let m = #[trigger] retained_moves(event, gs)[i];
            &&& m.0.event == event && m.1.event == event
            &&& m.0.group < gs.len() && m.0.handler < gs[m.0.group as int].hooks.len()
            &&& m.1.group < stripped_groups(gs).len() && m.1.handler < stripped_groups(
                gs,
            )[m.1.group as int].hooks.len()
            &&& gs[m.0.group as int].hooks[m.0.handler as int] == stripped_groups(
                gs,
            )[m.1.group as int].hooks[m.1.handler as int]
            &&& !is_akra_hook_spec(gs[m.0.group as int].hooks[m.0.handler as int])
        } by {
            if i < old_moves.len() {
                let m = old_moves[i];
                assert(retained_moves(event, gs)[i] == m);
                assert(gs[m.0.group as int] == d[m.0.group as int]);
            } else {
                let m = new_moves[i - old_moves.len()];
                assert(retained_moves(event, gs)[i] == m);
                assert(move_in_group(event, n, gn, hs, m));
                let k = kept_hooks(hs);
                assert(k.len() > 0);
                assert(stripped_groups(gs) == stripped_groups(d).push(
                    GroupView { hooks: k, extra: gs.last().extra },
                ));
                assert(stripped_groups(gs)[gn] == GroupView { hooks: k, extra: gs.last().extra });
            }
        }
    }
}

} // verus!
