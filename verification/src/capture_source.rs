//! Which Codex client produced a capture: read, best effort, from the first
//! record of the session transcript. Only diagnostics depend on it.
use vstd::prelude::*;

use crate::collector::last_index;
use crate::text::{ascii_lower, ascii_lower_seq, chars_of, eq_str, find_from, first_occurrence};

verus! {

/// A path separator: `/`, and `\` on a Windows host.
pub open spec fn is_separator(c: char, windows_host: bool) -> bool {
    c == '/' || (windows_host && c == '\\')
}

/// The pieces of a path between separators, empty ones included.
pub open spec fn path_pieces(p: Seq<char>, windows_host: bool) -> Seq<Seq<char>>
    decreases p.len(),
{
    if p.len() == 0 {
        seq![Seq::empty()]
    } else {
        let s = path_pieces(p.drop_last(), windows_host);
        if is_separator(p.last(), windows_host) {
            s.push(Seq::empty())
        } else {
            s.update(s.len() - 1, s.last().push(p.last()))
        }
    }
}

/// A piece that names a component: not empty and not `.`.
pub open spec fn is_component(x: Seq<char>) -> bool {
    x.len() > 0 && x != seq!['.']
}

/// The components of a path (`Path::components`, prefixes read as ordinary
/// names): its pieces without empty ones and `.`.
pub open spec fn path_components(p: Seq<char>, windows_host: bool) -> Seq<Seq<char>> {
    path_pieces(p, windows_host).filter(|x: Seq<char>| is_component(x))
}

/// The named components of a path: its components without `..`.
pub open spec fn normal_components(p: Seq<char>, windows_host: bool) -> Seq<Seq<char>> {
    path_components(p, windows_host).filter(|x: Seq<char>| x != seq!['.', '.'])
}

/// The last component of a path, unless it is `..` (`Path::file_name`).
pub open spec fn file_name_of(p: Seq<char>, windows_host: bool) -> Option<Seq<char>> {
    let c = path_components(p, windows_host);
    if c.len() > 0 && c.last() != seq!['.', '.'] {
        Some(c.last())
    } else {
        None
    }
}

/// What follows the last `.` of a file name, when the name has a `.` after
/// its first character (`Path::extension`).
pub open spec fn extension_of(name: Seq<char>) -> Option<Seq<char>> {
    match last_index(name, '.') {
        Some(i) => if i > 0 {
            Some(name.skip(i + 1))
        } else {
            None
        },
        None => None,
    }
}

/// A Codex session transcript: a `.jsonl` file below a `.codex/sessions`
/// pair of directories (in any ASCII case).
pub open spec fn is_codex_session_path_spec(p: Seq<char>, windows_host: bool) -> bool {
    let n = normal_components(p, windows_host);
    &&& exists|i: int|
        0 <= i < n.len() - 1 && ascii_lower_seq(#[trigger] n[i]) == ".codex"@ && ascii_lower_seq(
            n[i + 1],
        ) == "sessions"@
    &&& match file_name_of(p, windows_host) {
        Some(name) => extension_of(name) == Some("jsonl"@),
        None => false,
    }
}

pub open spec fn piece_views(v: Seq<Vec<char>>) -> Seq<Seq<char>> {
    v.map_values(|x: Vec<char>| x@)
}

fn path_pieces_exec(p: &[char], windows_host: bool) -> (r: Vec<Vec<char>>)
    ensures
        piece_views(r@) == path_pieces(p@, windows_host),
{
    let mut done: Vec<Vec<char>> = Vec::new();
    let mut current: Vec<char> = Vec::new();
    let mut i: usize = 0;
    assert(p@.take(0) =~= Seq::<char>::empty());
    assert(piece_views(done@).push(current@) =~= path_pieces(p@.take(0), windows_host));
    while i < p.len()
        invariant
            i <= p@.len(),
            piece_views(done@).push(current@) == path_pieces(p@.take(i as int), windows_host),
        decreases p.len() - i,
    {
        let c = p[i];
        let ghost before = piece_views(done@).push(current@);
        assert(p@.take(i + 1).drop_last() =~= p@.take(i as int));
        assert(p@.take(i + 1).last() == c);
        if c == '/' || (windows_host && c == '\\') {
            let finished = current;
            done.push(finished);
            current = Vec::new();
            assert(piece_views(done@).push(current@) =~= before.push(Seq::empty()));
        } else {
            current.push(c);
            assert(piece_views(done@).push(current@) =~= before.update(
                before.len() - 1,
                before.last().push(c),
            ));
        }
        i = i + 1;
    }
    assert(p@.take(p@.len() as int) =~= p@);
    done.push(current);
    assert(piece_views(done@) =~= path_pieces(p@, windows_host));
    done
}

fn components_exec(p: &[char], windows_host: bool) -> (r: Vec<Vec<char>>)
    ensures
        piece_views(r@) == path_components(p@, windows_host),
{
    let pieces = path_pieces_exec(p, windows_host);
    let ghost pv = piece_views(pieces@);
    let mut out: Vec<Vec<char>> = Vec::new();
    let mut i: usize = 0;
    proof {
        reveal(Seq::filter);
    }
    assert(pv.take(0) =~= Seq::<Seq<char>>::empty());
    while i < pieces.len()
        invariant
            i <= pieces@.len(),
            pv == piece_views(pieces@),
            piece_views(out@) == pv.take(i as int).filter(|x: Seq<char>| is_component(x)),
        decreases pieces.len() - i,
    {
        proof {
            assert(pv.take(i + 1) =~= pv.take(i as int).push(pv[i as int]));
            pv.take(i as int).lemma_filter_push(pv[i as int], |x: Seq<char>| is_component(x));
        }
        let piece = &pieces[i];
        let is_dot = piece.len() == 1 && piece[0] == '.';
        assert(is_dot == (pv[i as int] == seq!['.'])) by {
            if pv[i as int] == seq!['.'] {
                assert(pv[i as int][0] == '.');
            }
            if is_dot {
                assert(pv[i as int] =~= seq!['.']);
            }
        }
        if piece.len() > 0 && !is_dot {
            let ghost before = piece_views(out@);
            out.push(piece.clone());
            assert(piece_views(out@) =~= before.push(pv[i as int]));
        }
        i = i + 1;
    }
    assert(pv.take(pv.len() as int) =~= pv);
    out
}

fn is_dot_dot(x: &Vec<char>) -> (r: bool)
    ensures
        r == (x@ == seq!['.', '.']),
{
    let r = x.len() == 2 && x[0] == '.' && x[1] == '.';
    if r {
        assert(x@ =~= seq!['.', '.']);
    }
    r
}

/// Whether a transcript path names a Codex session transcript (see
/// `is_codex_session_path_spec`).
pub fn is_codex_session_path(path: &str, windows_host: bool) -> (r: bool)
    ensures
        r == is_codex_session_path_spec(path@, windows_host),
{
    let chars = chars_of(path);
    let comps = components_exec(chars.as_slice(), windows_host);
    let ghost cv = piece_views(comps@);
    // The named components.
    let mut normals: Vec<Vec<char>> = Vec::new();
    let mut i: usize = 0;
    proof {
        reveal(Seq::filter);
    }
    assert(cv.take(0) =~= Seq::<Seq<char>>::empty());
    while i < comps.len()
        invariant
            i <= comps@.len(),
            cv == piece_views(comps@),
            piece_views(normals@) == cv.take(i as int).filter(|x: Seq<char>| x != seq!['.', '.']),
        decreases comps.len() - i,
    {
        proof {
            assert(cv.take(i + 1) =~= cv.take(i as int).push(cv[i as int]));
            cv.take(i as int).lemma_filter_push(cv[i as int], |x: Seq<char>| x != seq!['.', '.']);
        }
        if !is_dot_dot(&comps[i]) {
            let ghost before = piece_views(normals@);
            normals.push(comps[i].clone());
            assert(piece_views(normals@) =~= before.push(cv[i as int]));
        }
        i = i + 1;
    }
    assert(cv.take(cv.len() as int) =~= cv);
    let ghost nv = piece_views(normals@);
    assert(nv == normal_components(path@, windows_host));
    proof {
        reveal_strlit(".codex");
        reveal_strlit("sessions");
        reveal_strlit("jsonl");
    }
    // A `.codex/sessions` pair.
    let mut found = false;
    let mut k: usize = 0;
    while k < normals.len() && k + 1 < normals.len() && !found
        invariant
            k <= normals@.len(),
            nv == piece_views(normals@),
            found ==> exists|j: int|
                0 <= j < nv.len() - 1 && ascii_lower_seq(#[trigger] nv[j]) == ".codex"@
                    && ascii_lower_seq(nv[j + 1]) == "sessions"@,
            !found ==> forall|j: int|
                0 <= j < k && j < nv.len() - 1 ==> !(ascii_lower_seq(#[trigger] nv[j]) == ".codex"@
                    && ascii_lower_seq(nv[j + 1]) == "sessions"@),
        decreases normals.len() - k,
    {
        let a = ascii_lower(normals[k].as_slice());
        let b = ascii_lower(normals[k + 1].as_slice());
        if eq_str(a.as_slice(), ".codex") && eq_str(b.as_slice(), "sessions") {
            found = true;
            assert(ascii_lower_seq(nv[k as int]) == ".codex"@);
        }
        k = k + 1;
    }
    if !found {
        assert(!(exists|j: int|
            0 <= j < nv.len() - 1 && ascii_lower_seq(#[trigger] nv[j]) == ".codex"@
                && ascii_lower_seq(nv[j + 1]) == "sessions"@));
        return false;
    }
    // The file name's extension.
    if comps.len() == 0 || is_dot_dot(&comps[comps.len() - 1]) {
        return false;
    }
    let name = &comps[comps.len() - 1];
    assert(name@ == cv.last());
    let dot = crate::collector::last_index_exec(name.as_slice(), '.');
    proof {
        crate::collector::lemma_last_index_bound(name@, '.');
    }
    match dot {
        Some(d) => {
            if d == 0 {
                return false;
            }
            assert(last_index(name@, '.') == Some(d as int));
            let len = name.len();
            assert(d < len);
            let ext = crate::text::sub_vec(name.as_slice(), d + 1, len);
            assert(ext@ =~= name@.skip(d + 1));
            eq_str(ext.as_slice(), "jsonl")
        },
        None => false,
    }
}

/// What the first record of a session transcript says, as far as the
/// classification reads it: the record's `type`, whether it has a
/// `payload`, and the payload's `originator` and `source` when they are
/// strings.
#[derive(Clone, Debug, PartialEq, Eq)]
pub struct SessionMeta {
    pub record_type: Option<String>,
    pub has_payload: bool,
    pub originator: Option<String>,
    pub source: Option<String>,
}

pub open spec fn opt_text(o: Option<String>) -> Seq<char> {
    match o {
        Some(s) => s@,
        None => Seq::empty(),
    }
}

pub open spec fn has_part(s: Seq<char>, p: Seq<char>) -> bool {
    first_occurrence(s, p) is Some
}

/// The client a session record names: `app` for the desktop app or the
/// editor extension, `cli` for the command-line and exec clients, none
/// otherwise (or when the record is not session metadata).
pub open spec fn classify_session_meta_spec(m: SessionMeta) -> Option<Seq<char>> {
    if !(m.record_type matches Some(t) && t@ == "session_meta"@) || !m.has_payload {
        None
    } else {
        let originator = ascii_lower_seq(opt_text(m.originator));
        let source = ascii_lower_seq(opt_text(m.source));
        if has_part(originator, "desktop"@) || source == "vscode"@ {
            Some("app"@)
        } else if has_part(originator, "exec"@) || source == "exec"@ || originator == "codex-tui"@
            || has_part(originator, "codex_cli"@) || source == "cli"@ {
            Some("cli"@)
        } else {
            None
        }
    }
}

fn has_part_exec(s: &[char], p: &str) -> (r: bool)
    ensures
        r == has_part(s@, p@),
{
    let pc = chars_of(p);
    find_from(s, pc.as_slice(), 0).is_some()
}

fn lower_text(o: &Option<String>) -> (r: Vec<char>)
    ensures
        r@ == ascii_lower_seq(opt_text(*o)),
{
    match o {
        Some(s) => ascii_lower(chars_of(s.as_str()).as_slice()),
        None => {
            let empty: Vec<char> = Vec::new();
            assert(ascii_lower_seq(Seq::<char>::empty()) =~= Seq::<char>::empty());
            empty
        },
    }
}

/// Classifies a session record (see `classify_session_meta_spec`).
pub fn classify_session_meta(meta: &SessionMeta) -> (r: Option<&'static str>)
    ensures
        match classify_session_meta_spec(*meta) {
            Some(v) => r matches Some(s) && s@ == v,
            None => r is None,
        },
{
    let is_meta = match &meta.record_type {
        Some(t) => eq_str(chars_of(t.as_str()).as_slice(), "session_meta"),
        None => false,
    };
    if !is_meta || !meta.has_payload {
        return None;
    }
    let originator = lower_text(&meta.originator);
    let source = lower_text(&meta.source);
    if has_part_exec(originator.as_slice(), "desktop") || eq_str(source.as_slice(), "vscode") {
        Some("app")
    } else if has_part_exec(originator.as_slice(), "exec") || eq_str(source.as_slice(), "exec")
        || eq_str(originator.as_slice(), "codex-tui") || has_part_exec(
        originator.as_slice(),
        "codex_cli",
    ) || eq_str(source.as_slice(), "cli") {
        Some("cli")
    } else {
        None
    }
}

/// The client of a capture: `wsl_cli` inside WSL; otherwise what the session
/// record (read only for a Codex session transcript) names, or `unknown`.
pub fn codex_client(session_meta: Option<&SessionMeta>, wsl_distro: Option<&str>) -> (r: &'static str)
    ensures
        wsl_distro is Some ==> r@ == "wsl_cli"@,
        wsl_distro is None ==> match session_meta {
            Some(m) => match classify_session_meta_spec(*m) {
                Some(v) => r@ == v,
                None => r@ == "unknown"@,
            },
            None => r@ == "unknown"@,
        },
{
    if wsl_distro.is_some() {
        return "wsl_cli";
    }
    match session_meta {
        Some(m) => match classify_session_meta(m) {
            Some(c) => c,
            None => "unknown",
        },
        None => "unknown",
    }
}

} // verus!
