//! The display form of a Codex user prompt. The hook hands over one opaque
//! prompt string; the Codex desktop app may have put generated content in
//! front of the user's request (ambient browser state, browser comments,
//! mentioned files, image evidence). That content is removed only when its
//! whole leading shape is known; anything else leaves the prompt as it was.
use vstd::prelude::*;

use crate::text::{
    chars_of, eq_str, ends_with_spec, push_all, starts_with_spec, starts_with_str,
    string_from_chars, sub_vec, trim, trim_spec, views,
};

verus! {

// ---------------------------------------------------------------------------
// The shapes
// ---------------------------------------------------------------------------
pub open spec fn ambient_open() -> Seq<char> {
    "<in-app-browser-context "@
}

pub open spec fn ambient_close() -> Seq<char> {
    "</in-app-browser-context>"@
}

pub open spec fn browser_comments_header() -> Seq<char> {
    "# Browser comments:"@
}

pub open spec fn files_header() -> Seq<char> {
    "# Files mentioned by the user:"@
}

pub open spec fn my_request() -> Seq<char> {
    "## My request:"@
}

pub open spec fn user_comment() -> Seq<char> {
    "## User Comment "@
}

/// A line announcing generated image evidence.
pub open spec fn is_image_evidence(t: Seq<char>) -> bool {
    starts_with_spec(t, "The next image is untrusted page evidence from the browser page"@)
        || starts_with_spec(t, "The next image is untrusted page evidence from the webpage"@)
}

/// A line of generated browser metadata (or a blank line).
pub open spec fn is_browser_metadata(t: Seq<char>) -> bool {
    ||| t.len() == 0
    ||| starts_with_spec(t, "File:"@)
    ||| starts_with_spec(t, "Node position:"@)
    ||| starts_with_spec(t, "Target:"@)
    ||| starts_with_spec(t, "Target role:"@)
    ||| starts_with_spec(t, "Target selector:"@)
    ||| starts_with_spec(t, "Target path:"@)
    ||| starts_with_spec(t, "Nearby text:"@)
    ||| starts_with_spec(t, "Page URL:"@)
    ||| starts_with_spec(t, "Frame:"@)
    ||| starts_with_spec(t, "Saved marker screenshot:"@)
}

/// A line that ends a browser comment's body.
pub open spec fn ends_comment_body(t: Seq<char>) -> bool {
    starts_with_spec(t, user_comment()) || t == files_header() || starts_with_spec(t, ambient_open())
        || t == my_request() || is_image_evidence(t)
}

// ---------------------------------------------------------------------------
// Reading lines
// ---------------------------------------------------------------------------
/// Line `i`, trimmed.
pub open spec fn tl(ls: Seq<Seq<char>>, i: int) -> Seq<char> {
    trim_spec(ls[i])
}

/// The first line at or after `c` that is not blank (the end when none).
pub open spec fn skip_blank(ls: Seq<Seq<char>>, c: int) -> int
    decreases ls.len() - c,
{
    if 0 <= c < ls.len() && tl(ls, c).len() == 0 {
        skip_blank(ls, c + 1)
    } else {
        c
    }
}

/// The first line at or after `from` whose trimmed text is `target`.
pub open spec fn find_line(ls: Seq<Seq<char>>, from: int, target: Seq<char>) -> Option<int>
    decreases ls.len() - from,
{
    if from < 0 || from >= ls.len() {
        None
    } else if tl(ls, from) == target {
        Some(from)
    } else {
        find_line(ls, from + 1, target)
    }
}

/// Lines joined with `\n`.
pub open spec fn join_lines(v: Seq<Seq<char>>) -> Seq<char>
    decreases v.len(),
{
    if v.len() == 0 {
        Seq::empty()
    } else if v.len() == 1 {
        v[0]
    } else {
        join_lines(v.drop_last()) + seq!['\n'] + v.last()
    }
}

/// Texts joined with a blank line between them.
pub open spec fn join_paragraphs(v: Seq<Seq<char>>) -> Seq<char>
    decreases v.len(),
{
    if v.len() == 0 {
        Seq::empty()
    } else if v.len() == 1 {
        v[0]
    } else {
        join_paragraphs(v.drop_last()) + seq!['\n', '\n'] + v.last()
    }
}

/// `s` without every leading repetition of `p` (`str::trim_start_matches`).
pub open spec fn strip_leading(s: Seq<char>, p: Seq<char>) -> Seq<char>
    decreases s.len(),
{
    if p.len() > 0 && starts_with_spec(s, p) {
        strip_leading(s.skip(p.len() as int), p)
    } else {
        s
    }
}

// ---------------------------------------------------------------------------
// The generated blocks
// ---------------------------------------------------------------------------
/// An ambient browser block opening at `s`: a `<in-app-browser-context ...>`
/// line, closed later by `</in-app-browser-context>`. The line after the
/// block.
pub open spec fn ambient_end(ls: Seq<Seq<char>>, s: int) -> Option<int> {
    let o = tl(ls, s);
    if starts_with_spec(o, ambient_open()) && ends_with_spec(o, seq!['>']) {
        match find_line(ls, s + 1, ambient_close()) {
            Some(i) => Some(i + 1),
            None => None,
        }
    } else {
        None
    }
}

/// Image evidence announced at `s` runs to the next `## My request:` line.
/// The line after it.
pub open spec fn image_end(ls: Seq<Seq<char>>, s: int) -> Option<int> {
    match find_line(ls, s + 1, my_request()) {
        Some(i) => Some(i + 1),
        None => None,
    }
}

/// The `Comment:` line that ends a comment's metadata, when every line
/// before it from `c` is browser metadata.
pub open spec fn comment_marker(ls: Seq<Seq<char>>, c: int) -> Option<int>
    decreases ls.len() - c,
{
    if c < 0 || c >= ls.len() {
        None
    } else if tl(ls, c) == "Comment:"@ {
        Some(c)
    } else if !is_browser_metadata(tl(ls, c)) {
        None
    } else {
        comment_marker(ls, c + 1)
    }
}

/// Where a comment's body starting at `c` ends.
pub open spec fn body_end(ls: Seq<Seq<char>>, c: int) -> int
    decreases ls.len() - c,
{
    if c < 0 || c >= ls.len() {
        c
    } else if ends_comment_body(tl(ls, c)) {
        c
    } else {
        body_end(ls, c + 1)
    }
}

/// The browser comments from `c`: each a `## User Comment <label>` header,
/// browser metadata up to `Comment:`, and a non-blank body. The line after
/// them and the bodies, when at least one comment was read.
pub open spec fn comments_from(
    ls: Seq<Seq<char>>,
    c: int,
    acc: Seq<Seq<char>>,
    consumed: bool,
) -> Option<(int, Seq<Seq<char>>)>
    decreases ls.len() - c,
{
    if 0 <= c < ls.len() && starts_with_spec(tl(ls, c), user_comment()) {
        if trim_spec(strip_leading(tl(ls, c), user_comment())).len() == 0 {
            None
        } else {
            match comment_marker(ls, c + 1) {
                None => None,
                Some(m) => {
                    let b = body_end(ls, m + 1);
                    let body = trim_spec(join_lines(ls.subrange(m + 1, b)));
                    if body.len() == 0 {
                        None
                    } else {
                        proof {
                            lemma_comment_marker_after(ls, c + 1);
                            lemma_body_end_after(ls, m + 1);
                            lemma_skip_blank_after(ls, b);
                        }
                        comments_from(ls, skip_blank(ls, b), acc.push(body), true)
                    }
                }
            }
        }
    } else if consumed {
        Some((c, acc))
    } else {
        None
    }
}

/// The text that stands for a mentioned file.
pub open spec fn file_entry(name: Seq<char>, path: Seq<char>) -> Seq<char> {
    "파일: "@ + trim_spec(name) + " ("@ + trim_spec(path) + ")"@
}

/// The mentioned files from `c`: `## <name>: <path>` lines, name and path
/// not blank. The line after them and their entries, when there is one.
pub open spec fn files_from(ls: Seq<Seq<char>>, c: int, acc: Seq<Seq<char>>) -> Option<
    (int, Seq<Seq<char>>),
>
    decreases ls.len() - c,
{
    if 0 <= c < ls.len() && starts_with_spec(tl(ls, c), "## "@) {
        let file = tl(ls, c).skip(3);
        match crate::text::first_occurrence(file, seq![':']) {
            None => None,
            Some(k) => if trim_spec(file.take(k)).len() == 0 || trim_spec(file.skip(k + 1)).len()
                == 0 {
                None
            } else {
                proof {
                    lemma_skip_blank_after(ls, c + 1);
                }
                files_from(ls, skip_blank(ls, c + 1), acc.push(file_entry(file.take(k), file.skip(k + 1))))
            },
        }
    } else if acc.len() > 0 {
        Some((c, acc))
    } else {
        None
    }
}

/// Where reading the leading blocks from `c` ends: `None` when a block is
/// malformed; otherwise whether anything was removed, the texts kept from
/// the blocks, and the first line of the rest.
pub open spec fn project_from(ls: Seq<Seq<char>>, c: int, changed: bool, kept: Seq<Seq<char>>) -> Option<
    (bool, Seq<Seq<char>>, int),
>
    decreases ls.len() - c,
{
    let c1 = skip_blank(ls, c);
    proof {
        lemma_skip_blank_after(ls, c);
    }
    if c < 0 || c1 >= ls.len() {
        Some((changed, kept, c1))
    } else {
        let line = tl(ls, c1);
        if starts_with_spec(line, ambient_open()) {
            match ambient_end(ls, c1) {
                None => None,
                Some(e) => {
                    let e2 = if e < ls.len() && tl(ls, e) == my_request() {
                        e + 1
                    } else {
                        e
                    };
                    proof {
                        lemma_find_line_after(ls, c1 + 1, ambient_close());
                    }
                    project_from(ls, e2, true, kept)
                },
            }
        } else if line == browser_comments_header() {
            match comments_from(ls, skip_blank(ls, c1 + 1), Seq::empty(), false) {
                None => None,
                Some((n, bodies)) => {
                    proof {
                        lemma_skip_blank_after(ls, c1 + 1);
                        lemma_comments_after(ls, skip_blank(ls, c1 + 1), Seq::empty(), false);
                    }
                    project_from(ls, n, true, kept + bodies)
                },
            }
        } else if line == files_header() {
            match files_from(ls, skip_blank(ls, c1 + 1), Seq::empty()) {
                None => None,
                Some((n, files)) => {
                    proof {
                        lemma_skip_blank_after(ls, c1 + 1);
                        lemma_files_after(ls, skip_blank(ls, c1 + 1), Seq::empty());
                    }
                    project_from(ls, n, true, kept + files)
                },
            }
        } else if changed && line == my_request() {
            project_from(ls, c1 + 1, changed, kept)
        } else if is_image_evidence(line) {
            match image_end(ls, c1) {
                None => None,
                Some(e) => {
                    proof {
                        lemma_find_line_after(ls, c1 + 1, my_request());
                    }
                    project_from(ls, e, true, kept)
                },
            }
        } else {
            Some((changed, kept, c1))
        }
    }
}

// ---------------------------------------------------------------------------
// Progress
// ---------------------------------------------------------------------------
pub proof fn lemma_skip_blank_after(ls: Seq<Seq<char>>, c: int)
    ensures
        skip_blank(ls, c) >= c,
        c >= 0 ==> skip_blank(ls, c) >= 0,
        0 <= c <= ls.len() ==> skip_blank(ls, c) <= ls.len(),
    decreases ls.len() - c,
{
    if 0 <= c < ls.len() && tl(ls, c).len() == 0 {
        lemma_skip_blank_after(ls, c + 1);
    }
}

pub proof fn lemma_find_line_after(ls: Seq<Seq<char>>, from: int, target: Seq<char>)
    ensures
        find_line(ls, from, target) matches Some(i) ==> from <= i < ls.len() && 0 <= i && tl(ls, i)
            == target,
    decreases ls.len() - from,
{
    if 0 <= from < ls.len() && tl(ls, from) != target {
        lemma_find_line_after(ls, from + 1, target);
    }
}

pub proof fn lemma_comment_marker_after(ls: Seq<Seq<char>>, c: int)
    ensures
        comment_marker(ls, c) matches Some(m) ==> c <= m < ls.len() && 0 <= m,
    decreases ls.len() - c,
{
    if 0 <= c < ls.len() && tl(ls, c) != "Comment:"@ && is_browser_metadata(tl(ls, c)) {
        lemma_comment_marker_after(ls, c + 1);
    }
}

pub proof fn lemma_body_end_after(ls: Seq<Seq<char>>, c: int)
    ensures
        body_end(ls, c) >= c,
        0 <= c <= ls.len() ==> body_end(ls, c) <= ls.len(),
    decreases ls.len() - c,
{
    if 0 <= c < ls.len() && !ends_comment_body(tl(ls, c)) {
        lemma_body_end_after(ls, c + 1);
    }
}

pub proof fn lemma_comments_after(ls: Seq<Seq<char>>, c: int, acc: Seq<Seq<char>>, consumed: bool)
    ensures
        comments_from(ls, c, acc, consumed) is Some ==> comments_from(ls, c, acc, consumed)->Some_0.0 >= c,
        comments_from(ls, c, acc, consumed) is Some && !consumed ==> comments_from(ls, c, acc, consumed)->Some_0.0 > c,
        comments_from(ls, c, acc, consumed) is Some && c <= ls.len() ==> comments_from(ls, c, acc, consumed)->Some_0.0 <= ls.len(),
    decreases ls.len() - c,
{
    if 0 <= c < ls.len() && starts_with_spec(tl(ls, c), user_comment()) {
        if trim_spec(strip_leading(tl(ls, c), user_comment())).len() != 0 {
            lemma_comment_marker_after(ls, c + 1);
            match comment_marker(ls, c + 1) {
                None => {},
                Some(m) => {
                    let b = body_end(ls, m + 1);
                    lemma_body_end_after(ls, m + 1);
                    lemma_skip_blank_after(ls, b);
                    lemma_comments_after(ls, skip_blank(ls, b), acc.push(trim_spec(join_lines(ls.subrange(m + 1, b)))), true);
                },
            }
        }
    }
}

// ---------------------------------------------------------------------------
// Every browser comment is kept
// ---------------------------------------------------------------------------
/// Whether line `i` opens a browser comment.
pub open spec fn is_comment_header(ls: Seq<Seq<char>>, i: int) -> bool {
    starts_with_spec(tl(ls, i), user_comment())
}

/// The lines from `c` up to (not including) `n` that open a browser
/// comment, in order.
pub open spec fn comment_headers(ls: Seq<Seq<char>>, c: int, n: int) -> Seq<int>
    decreases n - c,
{
    if c >= n {
        Seq::empty()
    } else {
        (if is_comment_header(ls, c) {
            seq![c]
        } else {
            Seq::empty()
        }) + comment_headers(ls, c + 1, n)
    }
}

/// The body of the browser comment whose header is line `h`: the lines
/// after its `Comment:` line up to the end of the body, joined and trimmed.
pub open spec fn comment_body(ls: Seq<Seq<char>>, h: int) -> Seq<char> {
    let m = comment_marker(ls, h + 1)->Some_0;
    trim_spec(join_lines(ls.subrange(m + 1, body_end(ls, m + 1))))
}

proof fn lemma_prefix_first(t: Seq<char>, p: Seq<char>)
    requires
        p.len() > 0,
        starts_with_spec(t, p),
    ensures
        t.len() > 0 && t[0] == p[0],
{
    assert(t.take(p.len() as int)[0] == t[0]);
}

proof fn lemma_metadata_not_header(t: Seq<char>)
    requires
        is_browser_metadata(t) || t == "Comment:"@,
    ensures
        !starts_with_spec(t, user_comment()),
{
    reveal_strlit("## User Comment ");
    reveal_strlit("Comment:");
    reveal_strlit("File:");
    reveal_strlit("Node position:");
    reveal_strlit("Target:");
    reveal_strlit("Target role:");
    reveal_strlit("Target selector:");
    reveal_strlit("Target path:");
    reveal_strlit("Nearby text:");
    reveal_strlit("Page URL:");
    reveal_strlit("Frame:");
    reveal_strlit("Saved marker screenshot:");
    if starts_with_spec(t, user_comment()) {
        lemma_prefix_first(t, user_comment());
        if starts_with_spec(t, "File:"@) {
            lemma_prefix_first(t, "File:"@);
        } else if starts_with_spec(t, "Node position:"@) {
            lemma_prefix_first(t, "Node position:"@);
        } else if starts_with_spec(t, "Target:"@) {
            lemma_prefix_first(t, "Target:"@);
        } else if starts_with_spec(t, "Target role:"@) {
            lemma_prefix_first(t, "Target role:"@);
        } else if starts_with_spec(t, "Target selector:"@) {
            lemma_prefix_first(t, "Target selector:"@);
        } else if starts_with_spec(t, "Target path:"@) {
            lemma_prefix_first(t, "Target path:"@);
        } else if starts_with_spec(t, "Nearby text:"@) {
            lemma_prefix_first(t, "Nearby text:"@);
        } else if starts_with_spec(t, "Page URL:"@) {
            lemma_prefix_first(t, "Page URL:"@);
        } else if starts_with_spec(t, "Frame:"@) {
            lemma_prefix_first(t, "Frame:"@);
        } else if starts_with_spec(t, "Saved marker screenshot:"@) {
            lemma_prefix_first(t, "Saved marker screenshot:"@);
        }
    }
}

proof fn lemma_marker_no_header(ls: Seq<Seq<char>>, c: int)
    requires
        comment_marker(ls, c) is Some,
    ensures
        forall|i: int| c <= i <= comment_marker(ls, c)->Some_0 ==> !is_comment_header(ls, i),
    decreases ls.len() - c,
{
    lemma_metadata_not_header(tl(ls, c));
    if tl(ls, c) != "Comment:"@ {
        lemma_marker_no_header(ls, c + 1);
    }
}

proof fn lemma_body_no_header(ls: Seq<Seq<char>>, c: int)
    requires
        0 <= c,
    ensures
        forall|i: int| c <= i < body_end(ls, c) ==> !is_comment_header(ls, i),
    decreases ls.len() - c,
{
    if 0 <= c < ls.len() && !ends_comment_body(tl(ls, c)) {
        lemma_body_no_header(ls, c + 1);
    }
}

proof fn lemma_blank_no_header(ls: Seq<Seq<char>>, c: int)
    ensures
        forall|i: int| c <= i < skip_blank(ls, c) ==> !is_comment_header(ls, i),
    decreases ls.len() - c,
{
    reveal_strlit("## User Comment ");
    if 0 <= c < ls.len() && tl(ls, c).len() == 0 {
        lemma_blank_no_header(ls, c + 1);
    }
}

proof fn lemma_headers_skip(ls: Seq<Seq<char>>, a: int, b: int, n: int)
    requires
        a <= b <= n,
        forall|i: int| a <= i < b ==> !is_comment_header(ls, i),
    ensures
        comment_headers(ls, a, n) == comment_headers(ls, b, n),
    decreases b - a,
{
    if a < b {
        lemma_headers_skip(ls, a + 1, b, n);
        assert(comment_headers(ls, a, n) =~= comment_headers(ls, a + 1, n));
    }
}

/// Reading browser comments keeps every comment, in order: the bodies read
/// from `c` are those already read, followed by the body of every comment
/// header between `c` and where the reading stops (one body per header), and
/// a first reading reads at least one comment.
pub proof fn law_comments_keep_every_body(ls: Seq<Seq<char>>, c: int, acc: Seq<Seq<char>>, consumed: bool)
    requires
        0 <= c,
        comments_from(ls, c, acc, consumed) is Some,
    ensures
        ({
            let (n, bodies) = comments_from(ls, c, acc, consumed)->Some_0;
            &&& c <= n
            &&& c <= ls.len() ==> n <= ls.len()
            &&& bodies == acc + comment_headers(ls, c, n).map_values(|h: int| comment_body(ls, h))
            &&& bodies.len() == acc.len() + comment_headers(ls, c, n).len()
            &&& !consumed ==> comment_headers(ls, c, n).len() > 0
        }),
    decreases ls.len() - c,
{
    lemma_comments_after(ls, c, acc, consumed);
    if 0 <= c < ls.len() && starts_with_spec(tl(ls, c), user_comment()) {
        let m = comment_marker(ls, c + 1)->Some_0;
        let b = body_end(ls, m + 1);
        let body = trim_spec(join_lines(ls.subrange(m + 1, b)));
        let next = skip_blank(ls, b);
        lemma_comment_marker_after(ls, c + 1);
        lemma_body_end_after(ls, m + 1);
        lemma_skip_blank_after(ls, b);
        lemma_marker_no_header(ls, c + 1);
        lemma_body_no_header(ls, m + 1);
        lemma_blank_no_header(ls, b);
        law_comments_keep_every_body(ls, next, acc.push(body), true);
        let (n, bodies) = comments_from(ls, c, acc, consumed)->Some_0;
        assert(comments_from(ls, c, acc, consumed) == comments_from(ls, next, acc.push(body), true));
        lemma_comments_after(ls, next, acc.push(body), true);
        lemma_headers_skip(ls, c + 1, next, n);
        let rest = comment_headers(ls, next, n);
        assert(comment_headers(ls, c, n) =~= seq![c] + rest);
        assert(comment_body(ls, c) == body);
        let f = |h: int| comment_body(ls, h);
        assert((seq![c] + rest).map_values(f) =~= seq![body] + rest.map_values(f));
        assert(acc + (seq![body] + rest.map_values(f)) =~= acc.push(body) + rest.map_values(f));
    } else {
        let (n, bodies) = comments_from(ls, c, acc, consumed)->Some_0;
        assert(n == c);
        assert(comment_headers(ls, c, n) =~= Seq::<int>::empty());
        assert(acc + Seq::<int>::empty().map_values(|h: int| comment_body(ls, h)) =~= acc);
    }
}

/// The lines from `c` up to (not including) `n` that are not blank, in
/// order.
pub open spec fn nonblank_lines(ls: Seq<Seq<char>>, c: int, n: int) -> Seq<int>
    decreases n - c,
{
    if c >= n {
        Seq::empty()
    } else {
        (if tl(ls, c).len() > 0 {
            seq![c]
        } else {
            Seq::empty()
        }) + nonblank_lines(ls, c + 1, n)
    }
}

/// The entry a `## <name>: <path>` line stands for.
pub open spec fn file_line_entry(ls: Seq<Seq<char>>, i: int) -> Seq<char> {
    let file = tl(ls, i).skip(3);
    let k = crate::text::first_occurrence(file, seq![':'])->Some_0;
    file_entry(file.take(k), file.skip(k + 1))
}

proof fn lemma_nonblank_skip(ls: Seq<Seq<char>>, a: int, n: int)
    requires
        a <= skip_blank(ls, a) <= n,
    ensures
        nonblank_lines(ls, a, n) == nonblank_lines(ls, skip_blank(ls, a), n),
    decreases ls.len() - a,
{
    if 0 <= a < ls.len() && tl(ls, a).len() == 0 {
        lemma_skip_blank_after(ls, a + 1);
        lemma_nonblank_skip(ls, a + 1, n);
        assert(nonblank_lines(ls, a, n) =~= nonblank_lines(ls, a + 1, n));
    }
}

/// Reading mentioned files keeps every file, in order: the entries read
/// from `c` are those already read, followed by the entry of every
/// non-blank line between `c` and where the reading stops (each a
/// `## <name>: <path>` line), and a first reading reads at least one file.
pub proof fn law_files_keep_every_entry(ls: Seq<Seq<char>>, c: int, acc: Seq<Seq<char>>)
    requires
        0 <= c,
        files_from(ls, c, acc) is Some,
    ensures
        ({
            let (n, entries) = files_from(ls, c, acc)->Some_0;
            &&& c <= n
            &&& entries == acc + nonblank_lines(ls, c, n).map_values(|i: int| file_line_entry(ls, i))
            &&& forall|j: int|
                0 <= j < nonblank_lines(ls, c, n).len() ==> starts_with_spec(
                    tl(ls, #[trigger] nonblank_lines(ls, c, n)[j]),
                    "## "@,
                )
            &&& acc.len() == 0 ==> nonblank_lines(ls, c, n).len() > 0
        }),
    decreases ls.len() - c,
{
    lemma_files_after(ls, c, acc);
    if 0 <= c < ls.len() && starts_with_spec(tl(ls, c), "## "@) {
        let file = tl(ls, c).skip(3);
        let k = crate::text::first_occurrence(file, seq![':'])->Some_0;
        let e = file_entry(file.take(k), file.skip(k + 1));
        let next = skip_blank(ls, c + 1);
        lemma_skip_blank_after(ls, c + 1);
        law_files_keep_every_entry(ls, next, acc.push(e));
        let (n, entries) = files_from(ls, c, acc)->Some_0;
        assert(files_from(ls, c, acc) == files_from(ls, next, acc.push(e)));
        lemma_files_after(ls, next, acc.push(e));
        lemma_nonblank_skip(ls, c + 1, n);
        reveal_strlit("## ");
        lemma_prefix_first(tl(ls, c), "## "@);
        let rest = nonblank_lines(ls, next, n);
        assert(nonblank_lines(ls, c, n) =~= seq![c] + rest);
        assert(file_line_entry(ls, c) == e);
        let f = |i: int| file_line_entry(ls, i);
        assert((seq![c] + rest).map_values(f) =~= seq![e] + rest.map_values(f));
        assert(acc + (seq![e] + rest.map_values(f)) =~= acc.push(e) + rest.map_values(f));
        assert forall|j: int| 0 <= j < nonblank_lines(ls, c, n).len() implies starts_with_spec(
            tl(ls, #[trigger] nonblank_lines(ls, c, n)[j]),
            "## "@,
        ) by {
            if j > 0 {
                assert(nonblank_lines(ls, c, n)[j] == rest[j - 1]);
            }
        }
    } else {
        let (n, entries) = files_from(ls, c, acc)->Some_0;
        assert(n == c);
        assert(nonblank_lines(ls, c, n) =~= Seq::<int>::empty());
        assert(acc + Seq::<int>::empty().map_values(|i: int| file_line_entry(ls, i)) =~= acc);
    }
}

pub proof fn lemma_files_after(ls: Seq<Seq<char>>, c: int, acc: Seq<Seq<char>>)
    ensures
        files_from(ls, c, acc) is Some ==> files_from(ls, c, acc)->Some_0.0 >= c,
        files_from(ls, c, acc) is Some && acc.len() == 0 ==> files_from(ls, c, acc)->Some_0.0 > c,
        files_from(ls, c, acc) is Some && c <= ls.len() ==> files_from(ls, c, acc)->Some_0.0 <= ls.len(),
    decreases ls.len() - c,
{
    if 0 <= c < ls.len() && starts_with_spec(tl(ls, c), "## "@) {
        let file = tl(ls, c).skip(3);
        match crate::text::first_occurrence(file, seq![':']) {
            None => {},
            Some(k) => {
                lemma_skip_blank_after(ls, c + 1);
                lemma_files_after(ls, skip_blank(ls, c + 1), acc.push(file_entry(file.take(k), file.skip(k + 1))));
            },
        }
    }
}

pub proof fn lemma_project_bounded(ls: Seq<Seq<char>>, c: int, changed: bool, kept: Seq<Seq<char>>)
    requires
        0 <= c <= ls.len(),
    ensures
        project_from(ls, c, changed, kept) matches Some((_, _, n)) ==> 0 <= n <= ls.len(),
    decreases ls.len() - c,
{
    let c1 = skip_blank(ls, c);
    lemma_skip_blank_after(ls, c);
    if c1 < ls.len() {
        let line = tl(ls, c1);
        if starts_with_spec(line, ambient_open()) {
            lemma_find_line_after(ls, c1 + 1, ambient_close());
            match ambient_end(ls, c1) {
                None => {},
                Some(e) => {
                    let e2 = if e < ls.len() && tl(ls, e) == my_request() {
                        e + 1
                    } else {
                        e
                    };
                    lemma_project_bounded(ls, e2, true, kept);
                },
            }
        } else if line == browser_comments_header() {
            lemma_skip_blank_after(ls, c1 + 1);
            lemma_comments_after(ls, skip_blank(ls, c1 + 1), Seq::empty(), false);
            match comments_from(ls, skip_blank(ls, c1 + 1), Seq::empty(), false) {
                None => {},
                Some((n, bodies)) => {
                    lemma_project_bounded(ls, n, true, kept + bodies);
                },
            }
        } else if line == files_header() {
            lemma_skip_blank_after(ls, c1 + 1);
            lemma_files_after(ls, skip_blank(ls, c1 + 1), Seq::empty());
            match files_from(ls, skip_blank(ls, c1 + 1), Seq::empty()) {
                None => {},
                Some((n, files)) => {
                    lemma_project_bounded(ls, n, true, kept + files);
                },
            }
        } else if changed && line == my_request() {
            lemma_project_bounded(ls, c1 + 1, changed, kept);
        } else if is_image_evidence(line) {
            lemma_find_line_after(ls, c1 + 1, my_request());
            match image_end(ls, c1) {
                None => {},
                Some(e) => {
                    lemma_project_bounded(ls, e, true, kept);
                },
            }
        }
    }
}

/// `a` is the start of `b`.
pub open spec fn starts_seq(a: Seq<Seq<char>>, b: Seq<Seq<char>>) -> bool {
    a.len() <= b.len() && b.take(a.len() as int) == a
}

proof fn lemma_starts_trans(a: Seq<Seq<char>>, b: Seq<Seq<char>>, c: Seq<Seq<char>>)
    requires
        starts_seq(a, b),
        starts_seq(b, c),
    ensures
        starts_seq(a, c),
{
    assert(c.take(a.len() as int) =~= c.take(b.len() as int).take(a.len() as int));
}

/// Reading the leading blocks never loses a kept text: what was kept
/// before stays at the start of what is kept at the end; and when the next
/// block is browser comments or mentioned files, every comment body or file
/// entry it holds is kept, in order, right after it.
pub proof fn law_projection_keeps_block_texts(ls: Seq<Seq<char>>, c: int, changed: bool, kept: Seq<Seq<char>>)
    requires
        0 <= c <= ls.len(),
        project_from(ls, c, changed, kept) is Some,
    ensures
        starts_seq(kept, project_from(ls, c, changed, kept)->Some_0.1),
        ({
            let c1 = skip_blank(ls, c);
            c1 < ls.len() && tl(ls, c1) == browser_comments_header() ==> (comments_from(
                ls,
                skip_blank(ls, c1 + 1),
                Seq::empty(),
                false,
            ) matches Some((_, bodies)) && starts_seq(
                kept + bodies,
                project_from(ls, c, changed, kept)->Some_0.1,
            ))
        }),
        ({
            let c1 = skip_blank(ls, c);
            c1 < ls.len() && tl(ls, c1) == files_header() ==> (files_from(
                ls,
                skip_blank(ls, c1 + 1),
                Seq::empty(),
            ) matches Some((_, files)) && starts_seq(kept + files, project_from(ls, c, changed, kept)->Some_0.1))
        }),
    decreases ls.len() - c,
{
    let c1 = skip_blank(ls, c);
    lemma_skip_blank_after(ls, c);
    let fin = project_from(ls, c, changed, kept)->Some_0.1;
    if c1 >= ls.len() {
        assert(fin.take(kept.len() as int) =~= kept);
    } else {
        let line = tl(ls, c1);
        if starts_with_spec(line, ambient_open()) {
            lemma_find_line_after(ls, c1 + 1, ambient_close());
            let e = ambient_end(ls, c1)->Some_0;
            let e2 = if e < ls.len() && tl(ls, e) == my_request() {
                e + 1
            } else {
                e
            };
            law_projection_keeps_block_texts(ls, e2, true, kept);
            reveal_strlit("<in-app-browser-context ");
            reveal_strlit("# Browser comments:");
            reveal_strlit("# Files mentioned by the user:");
            if line == browser_comments_header() {
                lemma_prefix_first(line, ambient_open());
            }
            if line == files_header() {
                lemma_prefix_first(line, ambient_open());
            }
        } else if line == browser_comments_header() {
            lemma_skip_blank_after(ls, c1 + 1);
            lemma_comments_after(ls, skip_blank(ls, c1 + 1), Seq::empty(), false);
            let (n, bodies) = comments_from(ls, skip_blank(ls, c1 + 1), Seq::empty(), false)->Some_0;
            law_projection_keeps_block_texts(ls, n, true, kept + bodies);
            assert(starts_seq(kept, kept + bodies)) by {
                assert((kept + bodies).take(kept.len() as int) =~= kept);
            }
            lemma_starts_trans(kept, kept + bodies, fin);
            reveal_strlit("# Browser comments:");
            reveal_strlit("# Files mentioned by the user:");
            assert(browser_comments_header() != files_header()) by {
                assert(browser_comments_header()[2] != files_header()[2]);
            }
        } else if line == files_header() {
            lemma_skip_blank_after(ls, c1 + 1);
            lemma_files_after(ls, skip_blank(ls, c1 + 1), Seq::empty());
            let (n, files) = files_from(ls, skip_blank(ls, c1 + 1), Seq::empty())->Some_0;
            law_projection_keeps_block_texts(ls, n, true, kept + files);
            assert(starts_seq(kept, kept + files)) by {
                assert((kept + files).take(kept.len() as int) =~= kept);
            }
            lemma_starts_trans(kept, kept + files, fin);
        } else if changed && line == my_request() {
            law_projection_keeps_block_texts(ls, c1 + 1, changed, kept);
        } else if is_image_evidence(line) {
            lemma_find_line_after(ls, c1 + 1, my_request());
            law_projection_keeps_block_texts(ls, image_end(ls, c1)->Some_0, true, kept);
        } else {
            assert(fin.take(kept.len() as int) =~= kept);
        }
    }
}

// ---------------------------------------------------------------------------
// The projection
// ---------------------------------------------------------------------------
/// Line endings made `\n`: `\r\n` and a lone `\r` alike.
pub open spec fn normalize_newlines(s: Seq<char>) -> Seq<char>
    decreases s.len(),
{
    if s.len() == 0 {
        Seq::empty()
    } else if s[0] == '\r' && s.len() > 1 && s[1] == '\n' {
        seq!['\n'] + normalize_newlines(s.skip(2))
    } else if s[0] == '\r' {
        seq!['\n'] + normalize_newlines(s.skip(1))
    } else {
        seq![s[0]] + normalize_newlines(s.skip(1))
    }
}

/// A projected prompt and how many characters it dropped, when the prompt
/// starts with known generated content and every such block is well formed:
/// the texts kept from the blocks and the rest of the prompt (trimmed), the
/// non-blank ones joined by blank lines.
pub open spec fn projection_spec(raw: Seq<char>) -> Option<(Seq<char>, int)> {
    let ls = crate::detection::text_lines(normalize_newlines(raw));
    match project_from(ls, 0, false, Seq::empty()) {
        None => None,
        Some((changed, kept, c)) => if !changed {
            None
        } else {
            let remaining = trim_spec(join_lines(ls.subrange(c, ls.len() as int)));
            let all = if remaining.len() > 0 {
                kept.push(remaining)
            } else {
                kept
            };
            let projected = join_paragraphs(all.filter(|v: Seq<char>| trim_spec(v).len() > 0));
            Some(
                (
                    projected,
                    if raw.len() >= projected.len() {
                        raw.len() - projected.len()
                    } else {
                        0
                    },
                ),
            )
        },
    }
}

/// How a prompt is displayed.
#[derive(Clone, Copy, Debug, PartialEq, Eq, Structural)]
pub enum PromptProjectionKind {
    /// The prompt as captured.
    Raw,
    /// The prompt without the desktop app's generated content.
    CodexWrapperRemoved,
}

/// The display form of a prompt, and how many characters it dropped.
#[derive(Clone, Debug, PartialEq, Eq)]
pub struct PromptProjection {
    pub text: String,
    pub kind: PromptProjectionKind,
    pub removed_chars: usize,
}

pub open spec fn trimmed(ls: Seq<Seq<char>>) -> Seq<Seq<char>> {
    ls.map_values(|l: Seq<char>| trim_spec(l))
}

/// The lines of a text with a `Vec` per line, and each line trimmed.
struct Lines {
    raw: Vec<Vec<char>>,
    trimmed: Vec<Vec<char>>,
}

impl Lines {
    spec fn ls(&self) -> Seq<Seq<char>> {
        views(self.raw@)
    }

    spec fn wf(&self) -> bool {
        &&& self.trimmed@.len() == self.raw@.len()
        &&& forall|i: int|
            0 <= i < self.raw@.len() ==> #[trigger] self.trimmed@[i]@ == trim_spec(self.raw@[i]@)
    }

    fn tl_is(&self, i: usize, p: &str) -> (r: bool)
        requires
            self.wf(),
            i < self.raw@.len(),
        ensures
            r == (tl(self.ls(), i as int) == p@),
    {
        assert(self.trimmed@[i as int]@ == tl(self.ls(), i as int));
        eq_str(self.trimmed[i].as_slice(), p)
    }

    fn tl_starts(&self, i: usize, p: &str) -> (r: bool)
        requires
            self.wf(),
            i < self.raw@.len(),
        ensures
            r == starts_with_spec(tl(self.ls(), i as int), p@),
    {
        assert(self.trimmed@[i as int]@ == tl(self.ls(), i as int));
        starts_with_str(self.trimmed[i].as_slice(), p)
    }

    fn tl_blank(&self, i: usize) -> (r: bool)
        requires
            self.wf(),
            i < self.raw@.len(),
        ensures
            r == (tl(self.ls(), i as int).len() == 0),
    {
        assert(self.trimmed@[i as int]@ == tl(self.ls(), i as int));
        self.trimmed[i].len() == 0
    }

    fn tl_image(&self, i: usize) -> (r: bool)
        requires
            self.wf(),
            i < self.raw@.len(),
        ensures
            r == is_image_evidence(tl(self.ls(), i as int)),
    {
        self.tl_starts(i, "The next image is untrusted page evidence from the browser page")
            || self.tl_starts(i, "The next image is untrusted page evidence from the webpage")
    }

    fn tl_metadata(&self, i: usize) -> (r: bool)
        requires
            self.wf(),
            i < self.raw@.len(),
        ensures
            r == is_browser_metadata(tl(self.ls(), i as int)),
    {
        self.tl_blank(i) || self.tl_starts(i, "File:") || self.tl_starts(i, "Node position:")
            || self.tl_starts(i, "Target:") || self.tl_starts(i, "Target role:") || self.tl_starts(
            i,
            "Target selector:",
        ) || self.tl_starts(i, "Target path:") || self.tl_starts(i, "Nearby text:")
            || self.tl_starts(i, "Page URL:") || self.tl_starts(i, "Frame:") || self.tl_starts(
            i,
            "Saved marker screenshot:",
        )
    }

    fn tl_ends_body(&self, i: usize) -> (r: bool)
        requires
            self.wf(),
            i < self.raw@.len(),
        ensures
            r == ends_comment_body(tl(self.ls(), i as int)),
    {
        self.tl_starts(i, "## User Comment ") || self.tl_is(i, "# Files mentioned by the user:")
            || self.tl_starts(i, "<in-app-browser-context ") || self.tl_is(i, "## My request:")
            || self.tl_image(i)
    }

    fn skip_blank(&self, c: usize) -> (r: usize)
        requires
            self.wf(),
            c <= self.raw@.len(),
        ensures
            r == skip_blank(self.ls(), c as int),
            c <= r <= self.raw@.len(),
    {
        let mut i = c;
        while i < self.raw.len() && self.tl_blank(i)
            invariant
                self.wf(),
                c <= i <= self.raw@.len(),
                skip_blank(self.ls(), c as int) == skip_blank(self.ls(), i as int),
            decreases self.raw.len() - i,
        {
            i = i + 1;
        }
        i
    }

    fn find_line(&self, from: usize, target: &str) -> (r: Option<usize>)
        requires
            self.wf(),
            from <= self.raw@.len(),
        ensures
            match find_line(self.ls(), from as int, target@) {
                Some(k) => r == Some(k as usize),
                None => r is None,
            },
    {
        let mut i = from;
        while i < self.raw.len()
            invariant
                self.wf(),
                from <= i <= self.raw@.len(),
                find_line(self.ls(), from as int, target@) == find_line(self.ls(), i as int, target@),
            decreases self.raw.len() - i,
        {
            if self.tl_is(i, target) {
                return Some(i);
            }
            i = i + 1;
        }
        None
    }

    fn comment_marker(&self, c: usize) -> (r: Option<usize>)
        requires
            self.wf(),
            c <= self.raw@.len(),
        ensures
            match comment_marker(self.ls(), c as int) {
                Some(k) => r == Some(k as usize),
                None => r is None,
            },
    {
        let mut i = c;
        while i < self.raw.len()
            invariant
                self.wf(),
                c <= i <= self.raw@.len(),
                comment_marker(self.ls(), c as int) == comment_marker(self.ls(), i as int),
            decreases self.raw.len() - i,
        {
            if self.tl_is(i, "Comment:") {
                return Some(i);
            }
            if !self.tl_metadata(i) {
                return None;
            }
            i = i + 1;
        }
        None
    }

    fn body_end(&self, c: usize) -> (r: usize)
        requires
            self.wf(),
            c <= self.raw@.len(),
        ensures
            r == body_end(self.ls(), c as int),
            c <= r <= self.raw@.len(),
    {
        let mut i = c;
        while i < self.raw.len() && !self.tl_ends_body(i)
            invariant
                self.wf(),
                c <= i <= self.raw@.len(),
                body_end(self.ls(), c as int) == body_end(self.ls(), i as int),
            decreases self.raw.len() - i,
        {
            i = i + 1;
        }
        i
    }

    /// Lines `a..b` joined with `\n`.
    fn join(&self, a: usize, b: usize) -> (r: Vec<char>)
        requires
            a <= b <= self.raw@.len(),
        ensures
            r@ == join_lines(self.ls().subrange(a as int, b as int)),
    {
        let mut out: Vec<char> = Vec::new();
        let mut i = a;
        assert(self.ls().subrange(a as int, a as int) =~= Seq::<Seq<char>>::empty());
        while i < b
            invariant
                a <= i <= b <= self.raw@.len(),
                out@ == join_lines(self.ls().subrange(a as int, i as int)),
            decreases b - i,
        {
            let ghost sub = self.ls().subrange(a as int, i + 1);
            assert(sub.drop_last() =~= self.ls().subrange(a as int, i as int));
            assert(sub.last() == self.raw@[i as int]@);
            if i > a {
                out.push('\n');
            } else {
                assert(sub.len() == 1);
                assert(out@ =~= Seq::<char>::empty());
            }
            push_all(&mut out, self.raw[i].as_slice());
            i = i + 1;
        }
        out
    }

    fn ambient_end(&self, s: usize) -> (r: Option<usize>)
        requires
            self.wf(),
            s < self.raw@.len(),
        ensures
            match ambient_end(self.ls(), s as int) {
                Some(k) => r == Some(k as usize),
                None => r is None,
            },
    {
        let n = self.raw.len();
        assert(self.trimmed@[s as int]@ == tl(self.ls(), s as int));
        let o = &self.trimmed[s];
        let closes = o.len() > 0 && o[o.len() - 1] == '>';
        assert(closes == ends_with_spec(o@, seq!['>'])) by {
            if o@.len() > 0 {
                assert(o@.skip(o@.len() - 1) =~= seq![o@[o@.len() - 1]]);
                assert(o@.skip(o@.len() - 1)[0] == o@[o@.len() - 1]);
                assert(seq!['>'][0] == '>');
            }
        }
        if !(self.tl_starts(s, "<in-app-browser-context ") && closes) {
            return None;
        }
        proof {
            lemma_find_line_after(self.ls(), s + 1, ambient_close());
        }
        match self.find_line(s + 1, "</in-app-browser-context>") {
            Some(i) => Some(i + 1),
            None => None,
        }
    }

    fn image_end(&self, s: usize) -> (r: Option<usize>)
        requires
            self.wf(),
            s < self.raw@.len(),
        ensures
            match image_end(self.ls(), s as int) {
                Some(k) => r == Some(k as usize),
                None => r is None,
            },
    {
        let n = self.raw.len();
        proof {
            lemma_find_line_after(self.ls(), s + 1, my_request());
        }
        match self.find_line(s + 1, "## My request:") {
            Some(i) => Some(i + 1),
            None => None,
        }
    }
}

fn strip_leading_exec(s: &[char], p: &str) -> (r: Vec<char>)
    requires
        p@.len() > 0,
    ensures
        r@ == strip_leading(s@, p@),
{
    let pc = chars_of(p);
    let mut i: usize = 0;
    assert(s@.skip(0) =~= s@);
    while pc.len() <= s.len() - i && crate::text::occurs_at_exec(s, pc.as_slice(), i)
        invariant
            i <= s@.len(),
            pc@ == p@,
            p@.len() > 0,
            strip_leading(s@, p@) == strip_leading(s@.skip(i as int), p@),
        decreases s.len() - i,
    {
        assert(s@.skip(i as int).take(p@.len() as int) =~= s@.subrange(i as int, i + p@.len()));
        assert(s@.skip(i as int).skip(p@.len() as int) =~= s@.skip(i + p@.len()));
        i = i + pc.len();
    }
    proof {
        if i + p@.len() <= s@.len() {
            assert(s@.skip(i as int).take(p@.len() as int) =~= s@.subrange(i as int, i + p@.len()));
        }
    }
    sub_vec(s, i, s.len())
}

impl Lines {
    /// The browser comments from `c` (see `comments_from`).
    fn comments(&self, c: usize) -> (r: Option<(usize, Vec<Vec<char>>)>)
        requires
            self.wf(),
            c <= self.raw@.len(),
        ensures
            match comments_from(self.ls(), c as int, Seq::empty(), false) {
                Some((n, bodies)) => r matches Some((m, v)) && m == n && views(v@) == bodies,
                None => r is None,
            },
    {
        let mut cursor = c;
        let mut bodies: Vec<Vec<char>> = Vec::new();
        let mut consumed = false;
        assert(views(bodies@) =~= Seq::<Seq<char>>::empty());
        while cursor < self.raw.len() && self.tl_starts(cursor, "## User Comment ")
            invariant
                self.wf(),
                c <= cursor <= self.raw@.len(),
                comments_from(self.ls(), c as int, Seq::empty(), false) == comments_from(
                    self.ls(),
                    cursor as int,
                    views(bodies@),
                    consumed,
                ),
            decreases self.raw.len() - cursor,
        {
            assert(self.trimmed@[cursor as int]@ == tl(self.ls(), cursor as int));
            proof {
                reveal_strlit("## User Comment ");
            }
            let label = strip_leading_exec(self.trimmed[cursor].as_slice(), "## User Comment ");
            if trim(label.as_slice()).len() == 0 {
                return None;
            }
            let marker = match self.comment_marker(cursor + 1) {
                Some(m) => m,
                None => return None,
            };
            proof {
                lemma_comment_marker_after(self.ls(), cursor + 1);
            }
            let b = self.body_end(marker + 1);
            let joined = self.join(marker + 1, b);
            let body = trim(joined.as_slice());
            if body.len() == 0 {
                return None;
            }
            let ghost before = views(bodies@);
            bodies.push(body);
            assert(views(bodies@) =~= before.push(trim_spec(join_lines(self.ls().subrange(marker + 1, b as int)))));
            consumed = true;
            cursor = self.skip_blank(b);
        }
        if consumed {
            Some((cursor, bodies))
        } else {
            None
        }
    }

    /// The mentioned files from `c` (see `files_from`).
    fn files(&self, c: usize) -> (r: Option<(usize, Vec<Vec<char>>)>)
        requires
            self.wf(),
            c <= self.raw@.len(),
        ensures
            match files_from(self.ls(), c as int, Seq::empty()) {
                Some((n, files)) => r matches Some((m, v)) && m == n && views(v@) == files,
                None => r is None,
            },
    {
        let mut cursor = c;
        let mut files: Vec<Vec<char>> = Vec::new();
        assert(views(files@) =~= Seq::<Seq<char>>::empty());
        while cursor < self.raw.len() && self.tl_starts(cursor, "## ")
            invariant
                self.wf(),
                c <= cursor <= self.raw@.len(),
                files_from(self.ls(), c as int, Seq::empty()) == files_from(
                    self.ls(),
                    cursor as int,
                    views(files@),
                ),
            decreases self.raw.len() - cursor,
        {
            assert(self.trimmed@[cursor as int]@ == tl(self.ls(), cursor as int));
            let t = &self.trimmed[cursor];
            proof {
                reveal_strlit("## ");
            }
            let file = sub_vec(t.as_slice(), 3, t.len());
            assert(file@ =~= tl(self.ls(), cursor as int).skip(3));
            let colon: Vec<char> = vec![':'];
            assert(colon@ =~= seq![':']);
            let k = match crate::text::find_from(file.as_slice(), colon.as_slice(), 0) {
                Some(k) => k,
                None => return None,
            };
            proof {
                crate::text::lemma_first_occurrence_from(file@, colon@, 0);
            }
            let name = trim(sub_vec(file.as_slice(), 0, k).as_slice());
            let path = trim(sub_vec(file.as_slice(), k + 1, file.len()).as_slice());
            assert(file@.subrange(0, k as int) =~= file@.take(k as int));
            assert(file@.subrange(k + 1, file@.len() as int) =~= file@.skip(k + 1));
            if name.len() == 0 || path.len() == 0 {
                return None;
            }
            let mut entry: Vec<char> = Vec::new();
            crate::text::push_str(&mut entry, "파일: ");
            push_all(&mut entry, name.as_slice());
            crate::text::push_str(&mut entry, " (");
            push_all(&mut entry, path.as_slice());
            crate::text::push_str(&mut entry, ")");
            let ghost before = views(files@);
            files.push(entry);
            assert(views(files@) =~= before.push(file_entry(file@.take(k as int), file@.skip(k + 1))));
            cursor = self.skip_blank(cursor + 1);
        }
        if files.len() > 0 {
            Some((cursor, files))
        } else {
            None
        }
    }
}

fn normalize_newlines_exec(s: &[char]) -> (r: Vec<char>)
    ensures
        r@ == normalize_newlines(s@),
{
    let mut out: Vec<char> = Vec::new();
    let mut i: usize = 0;
    assert(s@.skip(0) =~= s@);
    while i < s.len()
        invariant
            i <= s@.len(),
            out@ + normalize_newlines(s@.skip(i as int)) == normalize_newlines(s@),
        decreases s.len() - i,
    {
        let ghost rest = s@.skip(i as int);
        if s[i] == '\r' && i + 1 < s.len() && s[i + 1] == '\n' {
            assert(rest.skip(2) =~= s@.skip(i + 2));
            out.push('\n');
            assert(out@ + normalize_newlines(s@.skip(i + 2)) =~= normalize_newlines(s@));
            i = i + 2;
        } else {
            assert(rest.skip(1) =~= s@.skip(i + 1));
            if s[i] == '\r' {
                out.push('\n');
            } else {
                out.push(s[i]);
            }
            assert(out@ + normalize_newlines(s@.skip(i + 1)) =~= normalize_newlines(s@));
            i = i + 1;
        }
    }
    assert(s@.skip(i as int).len() == 0);
    assert(out@ + Seq::<char>::empty() =~= out@);
    out
}

fn trimmed_lines(raw: &Vec<Vec<char>>) -> (r: Vec<Vec<char>>)
    ensures
        r@.len() == raw@.len(),
        forall|i: int| 0 <= i < raw@.len() ==> #[trigger] r@[i]@ == trim_spec(raw@[i]@),
{
    let mut out: Vec<Vec<char>> = Vec::new();
    let mut i: usize = 0;
    while i < raw.len()
        invariant
            i <= raw@.len(),
            out@.len() == i,
            forall|j: int| 0 <= j < i ==> #[trigger] out@[j]@ == trim_spec(raw@[j]@),
        decreases raw.len() - i,
    {
        let t = trim(raw[i].as_slice());
        out.push(t);
        i = i + 1;
    }
    out
}

fn join_paragraphs_exec(v: &Vec<Vec<char>>) -> (r: Vec<char>)
    ensures
        r@ == join_paragraphs(views(v@)),
{
    let mut out: Vec<char> = Vec::new();
    let mut i: usize = 0;
    assert(views(v@).take(0) =~= Seq::<Seq<char>>::empty());
    while i < v.len()
        invariant
            i <= v@.len(),
            out@ == join_paragraphs(views(v@).take(i as int)),
        decreases v.len() - i,
    {
        let ghost t = views(v@).take(i + 1);
        assert(t.drop_last() =~= views(v@).take(i as int));
        assert(t.last() == v@[i as int]@);
        if i > 0 {
            out.push('\n');
            out.push('\n');
        } else {
            assert(out@ =~= Seq::<char>::empty());
        }
        push_all(&mut out, v[i].as_slice());
        assert(out@ =~= join_paragraphs(t));
        i = i + 1;
    }
    assert(views(v@).take(v@.len() as int) =~= views(v@));
    out
}

/// The display form of a Codex user prompt: without the desktop app's
/// generated leading content when its shape is known (see
/// `projection_spec`), otherwise the prompt unchanged.
pub fn project_codex_user_prompt(raw: &str) -> (r: PromptProjection)
    ensures
        match projection_spec(raw@) {
            Some((text, removed)) => r.text@ == text && r.kind == PromptProjectionKind::CodexWrapperRemoved
                && r.removed_chars == removed,
            None => r.text@ == raw@ && r.kind == PromptProjectionKind::Raw && r.removed_chars == 0,
        },
{
    let raw_chars = chars_of(raw);
    let normalized = normalize_newlines_exec(raw_chars.as_slice());
    let lines_raw = crate::detection::lines_of(string_from_chars(normalized.as_slice()).as_str());
    let tls = trimmed_lines(&lines_raw);
    let lines = Lines { raw: lines_raw, trimmed: tls };
    let ghost ls = lines.ls();
    let n = lines.raw.len();
    let mut cursor: usize = 0;
    let mut changed = false;
    let mut kept: Vec<Vec<char>> = Vec::new();
    assert(views(kept@) =~= Seq::<Seq<char>>::empty());
    let fallback = PromptProjection {
        text: raw.to_owned(),
        kind: PromptProjectionKind::Raw,
        removed_chars: 0,
    };
    assert(ls == crate::detection::text_lines(normalize_newlines(raw@)));
    loop
        invariant_except_break
            project_from(ls, 0, false, Seq::empty()) == project_from(ls, cursor as int, changed, views(kept@)),
        invariant
            lines.wf(),
            ls == lines.ls(),
            ls == crate::detection::text_lines(normalize_newlines(raw@)),
            n == lines.raw@.len(),
            cursor <= n,
            fallback.text@ == raw@ && fallback.kind == PromptProjectionKind::Raw && fallback.removed_chars == 0,
        ensures
            project_from(ls, 0, false, Seq::empty()) == Some::<(bool, Seq<Seq<char>>, int)>((changed, views(kept@), cursor as int)),
        decreases n - cursor,
    {
        let c1 = lines.skip_blank(cursor);
        proof {
            lemma_skip_blank_after(ls, cursor as int);
        }
        if c1 >= n {
            cursor = c1;
            break;
        }
        if lines.tl_starts(c1, "<in-app-browser-context ") {
            match lines.ambient_end(c1) {
                None => {
                    return fallback;
                },
                Some(e) => {
                    proof {
                        lemma_find_line_after(ls, c1 + 1, ambient_close());
                    }
                    cursor = if e < n && lines.tl_is(e, "## My request:") {
                        e + 1
                    } else {
                        e
                    };
                    changed = true;
                },
            }
        } else if lines.tl_is(c1, "# Browser comments:") {
            let start = lines.skip_blank(c1 + 1);
            proof {
                lemma_comments_after(ls, start as int, Seq::empty(), false);
            }
            match lines.comments(start) {
                None => {
                    return fallback;
                },
                Some((next, bodies)) => {
                    let ghost before = views(kept@);
                    let mut k: usize = 0;
                    while k < bodies.len()
                        invariant
                            k <= bodies@.len(),
                            views(kept@) == before + views(bodies@).take(k as int),
                        decreases bodies.len() - k,
                    {
                        let ghost prev = views(kept@);
                        let item = sub_vec(bodies[k].as_slice(), 0, bodies[k].len());
                        assert(bodies@[k as int]@.subrange(0, bodies@[k as int]@.len() as int) =~= bodies@[k as int]@);
                        assert(item@ == bodies@[k as int]@);
                        kept.push(item);
                        assert(views(kept@) =~= prev.push(item@));
                        assert(views(bodies@).take(k + 1) =~= views(bodies@).take(k as int).push(bodies@[k as int]@));
                        assert(views(kept@) =~= before + views(bodies@).take(k + 1));
                        k = k + 1;
                    }
                    assert(views(bodies@).take(bodies@.len() as int) =~= views(bodies@));
                    cursor = next;
                    changed = true;
                },
            }
        } else if lines.tl_is(c1, "# Files mentioned by the user:") {
            let start = lines.skip_blank(c1 + 1);
            proof {
                lemma_files_after(ls, start as int, Seq::empty());
            }
            match lines.files(start) {
                None => {
                    return fallback;
                },
                Some((next, files)) => {
                    let ghost before = views(kept@);
                    let mut k: usize = 0;
                    while k < files.len()
                        invariant
                            k <= files@.len(),
                            views(kept@) == before + views(files@).take(k as int),
                        decreases files.len() - k,
                    {
                        let ghost prev = views(kept@);
                        let item = sub_vec(files[k].as_slice(), 0, files[k].len());
                        assert(files@[k as int]@.subrange(0, files@[k as int]@.len() as int) =~= files@[k as int]@);
                        assert(item@ == files@[k as int]@);
                        kept.push(item);
                        assert(views(kept@) =~= prev.push(item@));
                        assert(views(files@).take(k + 1) =~= views(files@).take(k as int).push(files@[k as int]@));
                        assert(views(kept@) =~= before + views(files@).take(k + 1));
                        k = k + 1;
                    }
                    assert(views(files@).take(files@.len() as int) =~= views(files@));
                    cursor = next;
                    changed = true;
                },
            }
        } else if changed && lines.tl_is(c1, "## My request:") {
            cursor = c1 + 1;
        } else if lines.tl_image(c1) {
            match lines.image_end(c1) {
                None => {
                    return fallback;
                },
                Some(e) => {
                    proof {
                        lemma_find_line_after(ls, c1 + 1, my_request());
                    }
                    cursor = e;
                    changed = true;
                },
            }
        } else {
            cursor = c1;
            break;
        }
    }
    if !changed {
        return fallback;
    }
    let rest = lines.join(cursor, n);
    let remaining = trim(rest.as_slice());
    let ghost kept_before = views(kept@);
    let ghost remaining_view = remaining@;
    if remaining.len() > 0 {
        kept.push(remaining);
        assert(views(kept@) =~= kept_before.push(remaining_view));
    }
    let ghost all = views(kept@);
    assert(remaining_view == trim_spec(join_lines(ls.subrange(cursor as int, ls.len() as int))));
    assert(all == (if remaining_view.len() > 0 {
        kept_before.push(remaining_view)
    } else {
        kept_before
    }));
    let mut nonblank: Vec<Vec<char>> = Vec::new();
    let mut k: usize = 0;
    proof {
        reveal(Seq::filter);
    }
    assert(all.take(0).filter(|v: Seq<char>| trim_spec(v).len() > 0) =~= Seq::<Seq<char>>::empty());
    while k < kept.len()
        invariant
            k <= kept@.len(),
            all == views(kept@),
            views(nonblank@) == all.take(k as int).filter(|v: Seq<char>| trim_spec(v).len() > 0),
        decreases kept.len() - k,
    {
        proof {
            assert(all.take(k + 1) =~= all.take(k as int).push(all[k as int]));
            all.take(k as int).lemma_filter_push(all[k as int], |v: Seq<char>| trim_spec(v).len() > 0);
        }
        if trim(kept[k].as_slice()).len() > 0 {
            let ghost before = views(nonblank@);
            nonblank.push(sub_vec(kept[k].as_slice(), 0, kept[k].len()));
            assert(kept@[k as int]@.subrange(0, kept@[k as int]@.len() as int) =~= kept@[k as int]@);
            assert(views(nonblank@) =~= before.push(all[k as int]));
        }
        k = k + 1;
    }
    assert(all.take(all.len() as int) =~= all);
    let projected = join_paragraphs_exec(&nonblank);
    assert(projected@ == join_paragraphs(all.filter(|v: Seq<char>| trim_spec(v).len() > 0)));
    let raw_len = raw_chars.len();
    let removed = if raw_len >= projected.len() {
        raw_len - projected.len()
    } else {
        0
    };
    PromptProjection {
        text: string_from_chars(projected.as_slice()),
        kind: PromptProjectionKind::CodexWrapperRemoved,
        removed_chars: removed,
    }
}

} // verus!
