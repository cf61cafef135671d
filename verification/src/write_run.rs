//! Writing the prepared files of a hook update one step at a time, and the
//! rollback that puts back what was written when a step fails.
//!
//! The caller performs each action (a read, a write, a removal) and hands
//! back what came of it; the run decides what comes next. Each file is
//! written only while it still holds the bytes it held when the update was
//! planned, and a file is restored only while it still holds what was
//! written to it.
use vstd::prelude::*;

use crate::transaction::{
    bytes_view, concurrent_change_error, concurrent_error_spec, needs_write, next_write,
    restore_action, rollback_outcome, unchanged_since_planning, CodexLifecycleError, PreparedFile, RestoreAction,
};

verus! {

/// Where a run of writes stands.
pub enum WriteStage {
    /// Waiting for what file `i` holds now.
    Check(usize),
    /// Waiting for the write of file `i`.
    Write(usize),
    /// Rolling back: waiting for what file `attempted[position - 1]` holds.
    ReadBack { position: usize, source: CodexLifecycleError, failure: Option<CodexLifecycleError> },
    /// Rolling back: waiting for the restoration of `attempted[position - 1]`.
    Restore { position: usize, source: CodexLifecycleError, failure: Option<CodexLifecycleError> },
    /// The run is over.
    Finished,
}

/// What the caller does next.
pub enum WriteAction {
    /// Make the parent directory of file `i` and read what the file holds.
    ReadCurrent(usize),
    /// Write the intended bytes of file `i`, atomically.
    Write(usize),
    /// Read what file `i` holds.
    ReadBack(usize),
    /// Write the original bytes of file `i` back, atomically.
    WriteOriginal(usize),
    /// Remove file `i`, which did not exist before, and sync its directory.
    RemoveFile(usize),
    /// The run is over, with this result.
    Finish(Result<(), CodexLifecycleError>),
}

/// A run of writes: how many files were looked at, the files a write was
/// attempted on (in order), and the stage.
pub struct WriteRun {
    pub from: usize,
    pub attempted: Vec<usize>,
    pub stage: WriteStage,
}

/// What came of an action: the bytes read (absent file: `None`; for a
/// write, anything), or the error.
pub type WriteEvent = Result<Option<Vec<u8>>, CodexLifecycleError>;

/// The state of a run as plain values, with the action it asks for.
pub type RunStep = (int, Seq<usize>, WriteStage, WriteAction);

/// The files below `n` that need a write, in order.
pub open spec fn writes_below(changes: Seq<PreparedFile>, n: int) -> Seq<usize>
    decreases n,
{
    if n <= 0 {
        Seq::empty()
    } else {
        writes_below(changes, n - 1) + if needs_write(changes[n - 1]) {
            seq![(n - 1) as usize]
        } else {
            Seq::empty()
        }
    }
}

/// The first file at or after `from` that needs a write.
pub open spec fn next_write_spec(changes: Seq<PreparedFile>, from: int) -> Option<int>
    decreases changes.len() - from,
{
    if from < 0 || from >= changes.len() {
        None
    } else if needs_write(changes[from]) {
        Some(from)
    } else {
        next_write_spec(changes, from + 1)
    }
}

/// The error a failed run reports: its first failure, or, when the
/// rollback failed too, both.
pub open spec fn outcome_spec(source: CodexLifecycleError, failure: Option<CodexLifecycleError>) -> CodexLifecycleError {
    match failure {
        None => source,
        Some(e) => CodexLifecycleError::Rollback { source: Box::new(source), rollback: Box::new(e) },
    }
}

/// The first failure of a rollback is the one kept.
pub open spec fn first_failure(failure: Option<CodexLifecycleError>, e: CodexLifecycleError) -> Option<
    CodexLifecycleError,
> {
    match failure {
        Some(f) => Some(f),
        None => Some(e),
    }
}

/// The next file to check, or the end of a successful run.
pub open spec fn picked(changes: Seq<PreparedFile>, attempted: Seq<usize>, from: int) -> RunStep {
    match next_write_spec(changes, from) {
        Some(i) => (i, attempted, WriteStage::Check(i as usize), WriteAction::ReadCurrent(i as usize)),
        None => (from, attempted, WriteStage::Finished, WriteAction::Finish(Ok(()))),
    }
}

/// The rollback goes on with `attempted[position - 1]`, or ends.
pub open spec fn rollback_next(
    from: int,
    attempted: Seq<usize>,
    position: int,
    source: CodexLifecycleError,
    failure: Option<CodexLifecycleError>,
) -> RunStep {
    if position <= 0 {
        (from, attempted, WriteStage::Finished, WriteAction::Finish(Err(outcome_spec(source, failure))))
    } else {
        (
            from,
            attempted,
            WriteStage::ReadBack { position: position as usize, source, failure },
            WriteAction::ReadBack(attempted[position - 1]),
        )
    }
}

/// A run starts with the first file that needs a write.
pub open spec fn start_spec(changes: Seq<PreparedFile>) -> RunStep {
    picked(changes, Seq::empty(), 0)
}

/// One step of a run: a file is written only when it still holds its
/// planned bytes; after a write the next file is checked; the first failure
/// starts the rollback, which restores the attempted files last first, each
/// only while it still holds what was written, and keeps its own first
/// failure.
pub open spec fn step_spec(
    changes: Seq<PreparedFile>,
    from: int,
    attempted: Seq<usize>,
    stage: WriteStage,
    event: WriteEvent,
) -> RunStep {
    match stage {
        WriteStage::Check(i) => match event {
            Err(e) => rollback_next(from, attempted, attempted.len() as int, e, None),
            Ok(current) => if bytes_view(current) == bytes_view(changes[i as int].original) {
                (i + 1, attempted.push(i), WriteStage::Write(i), WriteAction::Write(i))
            } else {
                rollback_next(
                    from,
                    attempted,
                    attempted.len() as int,
                    concurrent_error_spec(changes[i as int]),
                    None,
                )
            },
        },
        WriteStage::Write(i) => match event {
            Err(e) => rollback_next(from, attempted, attempted.len() as int, e, None),
            Ok(_) => picked(changes, attempted, from),
        },
        WriteStage::ReadBack { position, source, failure } => {
            let a = attempted[position - 1];
            match event {
                Err(e) => rollback_next(from, attempted, position - 1, source, first_failure(failure, e)),
                Ok(current) => if bytes_view(current) != bytes_view(changes[a as int].intended) {
                    rollback_next(
                        from,
                        attempted,
                        position - 1,
                        source,
                        first_failure(failure, concurrent_error_spec(changes[a as int])),
                    )
                } else if changes[a as int].original is Some {
                    (
                        from,
                        attempted,
                        WriteStage::Restore { position, source, failure },
                        WriteAction::WriteOriginal(a),
                    )
                } else {
                    (
                        from,
                        attempted,
                        WriteStage::Restore { position, source, failure },
                        WriteAction::RemoveFile(a),
                    )
                },
            }
        },
        WriteStage::Restore { position, source, failure } => match event {
            Err(e) => rollback_next(from, attempted, position - 1, source, first_failure(failure, e)),
            Ok(_) => rollback_next(from, attempted, position - 1, source, failure),
        },
        WriteStage::Finished => (from, attempted, WriteStage::Finished, WriteAction::Finish(Ok(()))),
    }
}

/// A well-formed run: the attempted files are those below `from` that need
/// a write, and the stage names a file in range.
pub open spec fn run_wf(changes: Seq<PreparedFile>, from: int, attempted: Seq<usize>, stage: WriteStage) -> bool {
    &&& 0 <= from <= changes.len()
    &&& attempted == writes_below(changes, from)
    &&& match stage {
        WriteStage::Check(i) => i == from && i < changes.len() && needs_write(changes[i as int]),
        WriteStage::Write(i) => from == i + 1 && i < changes.len() && needs_write(changes[i as int]),
        WriteStage::ReadBack { position, .. } => 0 < position <= attempted.len(),
        WriteStage::Restore { position, .. } => 0 < position <= attempted.len(),
        WriteStage::Finished => true,
    }
}

proof fn lemma_writes_below(changes: Seq<PreparedFile>, n: int)
    requires
        0 <= n <= changes.len(),
        n <= usize::MAX,
    ensures
        writes_below(changes, n).len() <= n,
        forall|k: int|
            0 <= k < writes_below(changes, n).len() ==> (#[trigger] writes_below(changes, n)[k]) < n
                && needs_write(changes[writes_below(changes, n)[k] as int]),
        forall|k1: int, k2: int|
            0 <= k1 < k2 < writes_below(changes, n).len() ==> (#[trigger] writes_below(changes, n)[k1])
                < (#[trigger] writes_below(changes, n)[k2]),
    decreases n,
{
    if n > 0 {
        lemma_writes_below(changes, n - 1);
        let w = writes_below(changes, n);
        let p = writes_below(changes, n - 1);
        assert forall|k: int| 0 <= k < p.len() implies w[k] == p[k] by {}
        if needs_write(changes[n - 1]) {
            assert(w =~= p.push((n - 1) as usize));
        } else {
            assert(w =~= p);
        }
    }
}

proof fn lemma_writes_cover(changes: Seq<PreparedFile>, n: int, j: int)
    requires
        0 <= j < n <= changes.len(),
        n <= usize::MAX,
        needs_write(changes[j]),
    ensures
        exists|k: int|
            0 <= k < writes_below(changes, n).len() && #[trigger] writes_below(changes, n)[k] == j,
    decreases n,
{
    let w = writes_below(changes, n);
    if j == n - 1 {
        assert(w =~= writes_below(changes, n - 1).push((n - 1) as usize));
        assert(w[w.len() - 1] == j);
    } else {
        lemma_writes_cover(changes, n - 1, j);
        let k = choose|k: int|
            0 <= k < writes_below(changes, n - 1).len() && #[trigger] writes_below(changes, n - 1)[k]
                == j;
        assert(w[k] == j);
    }
}

proof fn lemma_writes_skip(changes: Seq<PreparedFile>, n: int, m: int)
    requires
        0 <= n <= m <= changes.len(),
        forall|j: int| n <= j < m ==> !needs_write(#[trigger] changes[j]),
    ensures
        writes_below(changes, m) == writes_below(changes, n),
    decreases m - n,
{
    if m > n {
        lemma_writes_skip(changes, n, m - 1);
        assert(writes_below(changes, m) =~= writes_below(changes, m - 1));
    }
}

proof fn lemma_next_write(changes: Seq<PreparedFile>, from: int)
    requires
        0 <= from <= changes.len(),
    ensures
        next_write_spec(changes, from) matches Some(i) ==> from <= i < changes.len() && needs_write(
            changes[i],
        ) && forall|j: int| from <= j < i ==> !needs_write(#[trigger] changes[j]),
        next_write_spec(changes, from) is None ==> forall|j: int|
            from <= j < changes.len() ==> !needs_write(#[trigger] changes[j]),
    decreases changes.len() - from,
{
    if from < changes.len() && !needs_write(changes[from]) {
        lemma_next_write(changes, from + 1);
    }
}

proof fn lemma_next_write_exec(changes: Seq<PreparedFile>, from: int, r: Option<usize>)
    requires
        0 <= from <= changes.len(),
        r matches Some(i) ==> from <= i < changes.len() && needs_write(changes[i as int])
            && forall|j: int| from <= j < i ==> !needs_write(#[trigger] changes[j]),
        r is None ==> forall|j: int| from <= j < changes.len() ==> !needs_write(#[trigger] changes[j]),
    ensures
        next_write_spec(changes, from) == (match r {
            Some(i) => Some(i as int),
            None => None::<int>,
        }),
    decreases changes.len() - from,
{
    if from < changes.len() {
        if !needs_write(changes[from]) {
            lemma_next_write_exec(changes, from + 1, r);
        } else {
            match r {
                Some(i) => {
                    if i > from {
                        assert(!needs_write(changes[from]));
                    }
                },
                None => {
                    assert(!needs_write(changes[from]));
                },
            }
        }
    }
}

/// What the files of a run hold, one entry per prepared file (`None`:
/// absent).
pub type Files = Seq<Option<Seq<u8>>>;

/// File `i` after a write or removal of it: changed when it succeeded; as
/// it was or changed when it failed (the atomic replacement may have
/// happened before the failure was reported).
pub open spec fn changed_by(fs: Files, fs2: Files, i: int, bytes: Option<Seq<u8>>, done: bool) -> bool {
    if done {
        fs2 == fs.update(i, bytes)
    } else {
        fs2 == fs || fs2 == fs.update(i, bytes)
    }
}

/// What an action, with what came of it, does to the files: a read leaves
/// them as they are and gives what the file holds; a write puts the
/// intended or the original bytes in place; a removal leaves no file.
pub open spec fn world_step(
    changes: Seq<PreparedFile>,
    action: WriteAction,
    event: WriteEvent,
    fs: Files,
    fs2: Files,
) -> bool {
    match action {
        WriteAction::ReadCurrent(i) => fs2 == fs && (event matches Ok(b) ==> bytes_view(b) == fs[i as int]),
        WriteAction::ReadBack(i) => fs2 == fs && (event matches Ok(b) ==> bytes_view(b) == fs[i as int]),
        WriteAction::Write(i) => changed_by(fs, fs2, i as int, bytes_view(changes[i as int].intended), event is Ok),
        WriteAction::WriteOriginal(i) => changed_by(
            fs,
            fs2,
            i as int,
            bytes_view(changes[i as int].original),
            event is Ok,
        ),
        WriteAction::RemoveFile(i) => changed_by(fs, fs2, i as int, None, event is Ok),
        WriteAction::Finish(_) => fs2 == fs,
    }
}

/// The intended bytes of file `i`.
pub open spec fn intended_at(changes: Seq<PreparedFile>, i: int) -> Option<Seq<u8>> {
    bytes_view(changes[i].intended)
}

/// What the end of a run leaves: after success, every file that needed a
/// write holds its intended bytes and held its planned bytes before, and
/// every other file is as it was; after a failure, unless the rollback
/// failed too, every file is as it was.
pub open spec fn finished_ok(changes: Seq<PreparedFile>, action: WriteAction, fs: Files, fs0: Files) -> bool {
    match action {
        WriteAction::Finish(Ok(_)) => forall|j: int|
            0 <= j < fs.len() ==> if needs_write(#[trigger] changes[j]) {
                fs[j] == intended_at(changes, j) && fs0[j] == bytes_view(changes[j].original)
            } else {
                fs[j] == fs0[j]
            },
        WriteAction::Finish(Err(e)) => !(e is Rollback) ==> fs == fs0,
        _ => false,
    }
}

/// What every run keeps: the attempted files held their planned bytes when
/// they were checked, and the files never attempted are as they were.
pub open spec fn run_base(changes: Seq<PreparedFile>, from: int, a: Seq<usize>, fs: Files, fs0: Files) -> bool {
    &&& changes.len() <= usize::MAX
    &&& fs.len() == changes.len()
    &&& fs0.len() == changes.len()
    &&& 0 <= from <= changes.len()
    &&& a == writes_below(changes, from)
    &&& forall|k: int|
        0 <= k < a.len() ==> fs0[#[trigger] a[k] as int] == bytes_view(changes[a[k] as int].original)
    &&& forall|j: int|
        0 <= j < fs.len() && !(j < from && needs_write(changes[j])) ==> #[trigger] fs[j] == fs0[j]
}

/// The rollback so far: the files still to restore hold their earlier or
/// their written bytes; unless a restoration failed, the others are back.
pub open spec fn rolled(
    changes: Seq<PreparedFile>,
    a: Seq<usize>,
    p: int,
    failure: Option<CodexLifecycleError>,
    fs: Files,
    fs0: Files,
) -> bool {
    &&& 0 <= p <= a.len()
    &&& forall|k: int|
        0 <= k < p ==> fs[#[trigger] a[k] as int] == fs0[a[k] as int] || fs[a[k] as int]
            == intended_at(changes, a[k] as int)
    &&& failure is None ==> forall|k: int| p <= k < a.len() ==> fs[#[trigger] a[k] as int] == fs0[a[k] as int]
}

/// The invariant of a run over the files `fs`, which held `fs0` when it
/// started, with the action it asks for.
pub open spec fn run_inv(
    changes: Seq<PreparedFile>,
    from: int,
    a: Seq<usize>,
    stage: WriteStage,
    action: WriteAction,
    fs: Files,
    fs0: Files,
) -> bool {
    &&& run_base(changes, from, a, fs, fs0)
    &&& run_wf(changes, from, a, stage)
    &&& match stage {
        WriteStage::Check(i) => action == WriteAction::ReadCurrent(i) && forall|k: int|
            0 <= k < a.len() ==> fs[#[trigger] a[k] as int] == intended_at(changes, a[k] as int),
        WriteStage::Write(i) => action == WriteAction::Write(i) && fs[i as int] == fs0[i as int]
            && forall|k: int|
            0 <= k < a.len() - 1 ==> fs[#[trigger] a[k] as int] == intended_at(changes, a[k] as int),
        WriteStage::ReadBack { position, failure, .. } => action == WriteAction::ReadBack(
            a[position - 1],
        ) && rolled(changes, a, position as int, failure, fs, fs0),
        WriteStage::Restore { position, failure, .. } => {
            let x = a[position - 1];
            &&& rolled(changes, a, position as int, failure, fs, fs0)
            &&& fs[x as int] == intended_at(changes, x as int)
            &&& if changes[x as int].original is Some {
                action == WriteAction::WriteOriginal(x)
            } else {
                action == WriteAction::RemoveFile(x)
            }
        },
        WriteStage::Finished => finished_ok(changes, action, fs, fs0),
    }
}

/// The invariant of a run step (state and action).
pub open spec fn inv_at(changes: Seq<PreparedFile>, st: RunStep, fs: Files, fs0: Files) -> bool {
    run_inv(changes, st.0, st.1, st.2, st.3, fs, fs0)
}

proof fn lemma_all_back(changes: Seq<PreparedFile>, from: int, a: Seq<usize>, fs: Files, fs0: Files)
    requires
        run_base(changes, from, a, fs, fs0),
        forall|k: int| 0 <= k < a.len() ==> fs[#[trigger] a[k] as int] == fs0[a[k] as int],
    ensures
        fs == fs0,
{
    assert forall|j: int| 0 <= j < fs.len() implies fs[j] == fs0[j] by {
        if j < from && needs_write(changes[j]) {
            lemma_writes_cover(changes, from, j);
            let k = choose|k: int| 0 <= k < a.len() && #[trigger] a[k] == j;
            assert(fs[a[k] as int] == fs0[a[k] as int]);
        }
    }
    assert(fs =~= fs0);
}

proof fn lemma_roll_on(
    changes: Seq<PreparedFile>,
    from: int,
    a: Seq<usize>,
    p: int,
    source: CodexLifecycleError,
    failure: Option<CodexLifecycleError>,
    fs: Files,
    fs0: Files,
)
    requires
        run_base(changes, from, a, fs, fs0),
        rolled(changes, a, p, failure, fs, fs0),
    ensures
        inv_at(changes, rollback_next(from, a, p, source, failure), fs, fs0),
{
    lemma_writes_below(changes, from);
    if p == 0 {
        if failure is None {
            lemma_all_back(changes, from, a, fs, fs0);
        }
    }
}

proof fn lemma_start(changes: Seq<PreparedFile>, fs0: Files)
    requires
        changes.len() <= usize::MAX,
        fs0.len() == changes.len(),
    ensures
        inv_at(changes, start_spec(changes), fs0, fs0),
{
    lemma_next_write(changes, 0);
    assert(writes_below(changes, 0) =~= Seq::<usize>::empty());
    if let Some(i) = next_write_spec(changes, 0) {
        lemma_writes_skip(changes, 0, i);
    }
}

proof fn lemma_step_check(
    changes: Seq<PreparedFile>,
    from: int,
    a: Seq<usize>,
    i: usize,
    action: WriteAction,
    event: WriteEvent,
    fs: Files,
    fs2: Files,
    fs0: Files,
)
    requires
        run_inv(changes, from, a, WriteStage::Check(i), action, fs, fs0),
        world_step(changes, action, event, fs, fs2),
    ensures
        inv_at(changes, step_spec(changes, from, a, WriteStage::Check(i), event), fs2, fs0),
{
    match event {
        Err(e) => {
            lemma_roll_on(changes, from, a, a.len() as int, e, None, fs, fs0);
        },
        Ok(current) => {
            if bytes_view(current) == bytes_view(changes[i as int].original) {
                let a2 = a.push(i);
                assert(writes_below(changes, i + 1) =~= a2);
                assert(fs[i as int] == fs0[i as int]);
                assert forall|k: int| 0 <= k < a2.len() implies fs0[#[trigger] a2[k] as int]
                    == bytes_view(changes[a2[k] as int].original) by {
                    if k < a.len() {
                        assert(a2[k] == a[k]);
                    }
                }
                assert forall|k: int| 0 <= k < a2.len() - 1 implies fs[#[trigger] a2[k] as int]
                    == intended_at(changes, a2[k] as int) by {
                    assert(a2[k] == a[k]);
                }
            } else {
                lemma_roll_on(
                    changes,
                    from,
                    a,
                    a.len() as int,
                    concurrent_error_spec(changes[i as int]),
                    None,
                    fs,
                    fs0,
                );
            }
        },
    }
}

proof fn lemma_step_write(
    changes: Seq<PreparedFile>,
    from: int,
    a: Seq<usize>,
    i: usize,
    action: WriteAction,
    event: WriteEvent,
    fs: Files,
    fs2: Files,
    fs0: Files,
)
    requires
        run_inv(changes, from, a, WriteStage::Write(i), action, fs, fs0),
        world_step(changes, action, event, fs, fs2),
    ensures
        inv_at(changes, step_spec(changes, from, a, WriteStage::Write(i), event), fs2, fs0),
{
    assert(writes_below(changes, i + 1) =~= writes_below(changes, i as int).push(i));
    lemma_writes_below(changes, i + 1);
    assert(a.len() >= 1 && a[a.len() - 1] == i);
    assert forall|k: int| 0 <= k < a.len() - 1 implies #[trigger] a[k] < i by {
        assert(a[k] < a[a.len() - 1]);
    }
    assert(fs2.len() == fs.len());
    assert forall|j: int| 0 <= j < fs2.len() && j != i implies #[trigger] fs2[j] == fs[j] by {}
    match event {
        Err(e) => {
            assert forall|k: int| 0 <= k < a.len() implies fs2[#[trigger] a[k] as int] == fs0[a[k] as int]
                || fs2[a[k] as int] == intended_at(changes, a[k] as int) by {
                if k < a.len() - 1 {
                    assert(a[k] < i);
                }
            }
            lemma_roll_on(changes, from, a, a.len() as int, e, None, fs2, fs0);
        },
        Ok(_) => {
            assert(fs2 == fs.update(i as int, intended_at(changes, i as int)));
            assert forall|k: int| 0 <= k < a.len() implies fs2[#[trigger] a[k] as int]
                == intended_at(changes, a[k] as int) by {
                if k < a.len() - 1 {
                    assert(a[k] < i);
                }
            }
            lemma_next_write(changes, from);
            match next_write_spec(changes, from) {
                Some(i2) => {
                    lemma_writes_skip(changes, from, i2);
                },
                None => {
                    assert forall|j: int| 0 <= j < fs2.len() implies if needs_write(
                        #[trigger] changes[j],
                    ) {
                        fs2[j] == intended_at(changes, j) && fs0[j] == bytes_view(changes[j].original)
                    } else {
                        fs2[j] == fs0[j]
                    } by {
                        if needs_write(changes[j]) {
                            lemma_writes_cover(changes, from, j);
                            let k = choose|k: int| 0 <= k < a.len() && #[trigger] a[k] == j;
                            assert(fs2[a[k] as int] == intended_at(changes, a[k] as int));
                            assert(fs0[a[k] as int] == bytes_view(changes[a[k] as int].original));
                        }
                    }
                },
            }
        },
    }
}

proof fn lemma_step_readback(
    changes: Seq<PreparedFile>,
    from: int,
    a: Seq<usize>,
    position: usize,
    source: CodexLifecycleError,
    failure: Option<CodexLifecycleError>,
    action: WriteAction,
    event: WriteEvent,
    fs: Files,
    fs2: Files,
    fs0: Files,
)
    requires
        run_inv(changes, from, a, WriteStage::ReadBack { position, source, failure }, action, fs, fs0),
        world_step(changes, action, event, fs, fs2),
    ensures
        inv_at(
            changes,
            step_spec(changes, from, a, WriteStage::ReadBack { position, source, failure }, event),
            fs2,
            fs0,
        ),
{
    lemma_writes_below(changes, from);
    let x = a[position - 1];
    match event {
        Err(e) => {
            lemma_roll_on(changes, from, a, position - 1, source, first_failure(failure, e), fs, fs0);
        },
        Ok(current) => {
            if bytes_view(current) != intended_at(changes, x as int) {
                lemma_roll_on(
                    changes,
                    from,
                    a,
                    position - 1,
                    source,
                    first_failure(failure, concurrent_error_spec(changes[x as int])),
                    fs,
                    fs0,
                );
            }
        },
    }
}

proof fn lemma_step_restore(
    changes: Seq<PreparedFile>,
    from: int,
    a: Seq<usize>,
    position: usize,
    source: CodexLifecycleError,
    failure: Option<CodexLifecycleError>,
    action: WriteAction,
    event: WriteEvent,
    fs: Files,
    fs2: Files,
    fs0: Files,
)
    requires
        run_inv(changes, from, a, WriteStage::Restore { position, source, failure }, action, fs, fs0),
        world_step(changes, action, event, fs, fs2),
    ensures
        inv_at(
            changes,
            step_spec(changes, from, a, WriteStage::Restore { position, source, failure }, event),
            fs2,
            fs0,
        ),
{
    lemma_writes_below(changes, from);
    let p = position as int;
    let x = a[p - 1];
    assert(fs0[x as int] == bytes_view(changes[x as int].original));
    assert(changed_by(fs, fs2, x as int, fs0[x as int], event is Ok));
    assert(x < from && needs_write(changes[x as int]));
    assert forall|k: int| 0 <= k < a.len() && k != p - 1 implies #[trigger] a[k] != x by {
        if k < p - 1 {
            assert(a[k] < a[p - 1]);
        } else {
            assert(a[p - 1] < a[k]);
        }
    }
    assert forall|j: int| 0 <= j < fs2.len() && j != x implies #[trigger] fs2[j] == fs[j] by {}
    assert forall|k: int| 0 <= k < p - 1 implies fs2[#[trigger] a[k] as int] == fs0[a[k] as int]
        || fs2[a[k] as int] == intended_at(changes, a[k] as int) by {
        assert(a[k] != x);
    }
    match event {
        Err(e) => {
            lemma_roll_on(changes, from, a, p - 1, source, first_failure(failure, e), fs2, fs0);
        },
        Ok(_) => {
            if failure is None {
                assert forall|k: int| p - 1 <= k < a.len() implies fs2[#[trigger] a[k] as int]
                    == fs0[a[k] as int] by {
                    if k != p - 1 {
                        assert(a[k] != x);
                    }
                }
            }
            lemma_roll_on(changes, from, a, p - 1, source, failure, fs2, fs0);
        },
    }
}

proof fn lemma_step(
    changes: Seq<PreparedFile>,
    from: int,
    a: Seq<usize>,
    stage: WriteStage,
    action: WriteAction,
    event: WriteEvent,
    fs: Files,
    fs2: Files,
    fs0: Files,
)
    requires
        run_inv(changes, from, a, stage, action, fs, fs0),
        !(stage is Finished),
        world_step(changes, action, event, fs, fs2),
    ensures
        inv_at(changes, step_spec(changes, from, a, stage, event), fs2, fs0),
{
    match stage {
        WriteStage::Check(i) => lemma_step_check(changes, from, a, i, action, event, fs, fs2, fs0),
        WriteStage::Write(i) => lemma_step_write(changes, from, a, i, action, event, fs, fs2, fs0),
        WriteStage::ReadBack { position, source, failure } => lemma_step_readback(
            changes,
            from,
            a,
            position,
            source,
            failure,
            action,
            event,
            fs,
            fs2,
            fs0,
        ),
        WriteStage::Restore { position, source, failure } => lemma_step_restore(
            changes,
            from,
            a,
            position,
            source,
            failure,
            action,
            event,
            fs,
            fs2,
            fs0,
        ),
        WriteStage::Finished => {},
    }
}

/// A run after the first `n` of `events`: its state and the action it asks
/// for.
pub open spec fn run_after(changes: Seq<PreparedFile>, events: Seq<WriteEvent>, n: nat) -> RunStep
    decreases n,
{
    if n == 0 {
        start_spec(changes)
    } else {
        let st = run_after(changes, events, (n - 1) as nat);
        step_spec(changes, st.0, st.1, st.2, events[n - 1])
    }
}

/// A trace of a run: `worlds[0]` when it starts and `worlds[m + 1]` once
/// the action of step `m` came out as `events[m]`, as the files allow; no
/// step is taken after the run is over.
pub open spec fn trace_ok(changes: Seq<PreparedFile>, events: Seq<WriteEvent>, worlds: Seq<Files>) -> bool {
    &&& worlds.len() == events.len() + 1
    &&& worlds[0].len() == changes.len()
    &&& forall|m: int|
        0 <= m < events.len() ==> !(run_after(changes, events, m as nat).2 is Finished) && world_step(
            changes,
            #[trigger] run_after(changes, events, m as nat).3,
            events[m],
            worlds[m],
            worlds[m + 1],
        )
}

proof fn lemma_run_after(changes: Seq<PreparedFile>, events: Seq<WriteEvent>, worlds: Seq<Files>, n: nat)
    requires
        changes.len() <= usize::MAX,
        n <= events.len(),
        trace_ok(changes, events, worlds),
    ensures
        inv_at(changes, run_after(changes, events, n), worlds[n as int], worlds[0]),
    decreases n,
{
    if n == 0 {
        lemma_start(changes, worlds[0]);
    } else {
        let m = (n - 1) as nat;
        lemma_run_after(changes, events, worlds, m);
        let st = run_after(changes, events, m);
        assert(world_step(changes, st.3, events[m as int], worlds[m as int], worlds[n as int]));
        lemma_step(
            changes,
            st.0,
            st.1,
            st.2,
            st.3,
            events[m as int],
            worlds[m as int],
            worlds[n as int],
            worlds[0],
        );
    }
}

/// A run of writes leaves the files as planned, or as they were.
///
/// Take a run over `changes`, driven by `events`, on files that hold
/// `worlds[0]` when it starts and `worlds[n + 1]` once the action of step
/// `n` has come out as `events[n]`, as reads, writes and removals do. When
/// the run ends in success, every file that needed a write holds its
/// intended bytes and held its planned bytes before it was written (no
/// other writer's bytes were replaced), and every other file is as it was.
/// When it ends in an error other than a failed rollback (a file changed by
/// another writer among them), every file is as it was before the run.
pub proof fn law_write_run_restores(changes: Seq<PreparedFile>, events: Seq<WriteEvent>, worlds: Seq<Files>)
    requires
        changes.len() <= usize::MAX,
        trace_ok(changes, events, worlds),
    ensures
        run_after(changes, events, events.len()).3 matches WriteAction::Finish(Ok(_)) ==> forall|j: int|
            0 <= j < changes.len() ==> if needs_write(#[trigger] changes[j]) {
                worlds.last()[j] == bytes_view(changes[j].intended) && worlds[0][j] == bytes_view(
                    changes[j].original,
                )
            } else {
                worlds.last()[j] == worlds[0][j]
            },
        run_after(changes, events, events.len()).3 matches WriteAction::Finish(Err(e)) && !(e is Rollback)
            ==> worlds.last() == worlds[0],
{
    lemma_run_after(changes, events, worlds, events.len());
}

impl WriteRun {
    fn pick(&mut self, changes: &Vec<PreparedFile>) -> (r: WriteAction)
        requires
            0 <= old(self).from <= changes@.len(),
            old(self).attempted@ == writes_below(changes@, old(self).from as int),
        ensures
            (final(self).from as int, final(self).attempted@, final(self).stage, r) == picked(
                changes@,
                old(self).attempted@,
                old(self).from as int,
            ),
            run_wf(changes@, final(self).from as int, final(self).attempted@, final(self).stage),
    {
        let found = next_write(changes, self.from);
        proof {
            lemma_next_write_exec(changes@, self.from as int, found);
            lemma_next_write(changes@, self.from as int);
        }
        match found {
            Some(i) => {
                proof {
                    lemma_writes_skip(changes@, self.from as int, i as int);
                }
                self.from = i;
                self.stage = WriteStage::Check(i);
                WriteAction::ReadCurrent(i)
            },
            None => {
                self.stage = WriteStage::Finished;
                WriteAction::Finish(Ok(()))
            },
        }
    }

    fn roll_on(
        &mut self,
        position: usize,
        source: CodexLifecycleError,
        failure: Option<CodexLifecycleError>,
    ) -> (r: WriteAction)
        requires
            position <= old(self).attempted@.len(),
        ensures
            (final(self).from as int, final(self).attempted@, final(self).stage, r) == rollback_next(
                old(self).from as int,
                old(self).attempted@,
                position as int,
                source,
                failure,
            ),
    {
        if position == 0 {
            self.stage = WriteStage::Finished;
            WriteAction::Finish(Err(rollback_outcome(source, failure)))
        } else {
            let a = self.attempted[position - 1];
            self.stage = WriteStage::ReadBack { position, source, failure };
            WriteAction::ReadBack(a)
        }
    }

    /// A run over `changes`, with its first action.
    pub fn start(changes: &Vec<PreparedFile>) -> (r: (WriteRun, WriteAction))
        ensures
            (r.0.from as int, r.0.attempted@, r.0.stage, r.1) == start_spec(changes@),
            run_wf(changes@, r.0.from as int, r.0.attempted@, r.0.stage),
    {
        let mut run = WriteRun { from: 0, attempted: Vec::new(), stage: WriteStage::Finished };
        assert(run.attempted@ =~= writes_below(changes@, 0));
        let action = run.pick(changes);
        (run, action)
    }

    /// The next action, given what came of the last one.
    pub fn step(&mut self, changes: &Vec<PreparedFile>, event: WriteEvent) -> (r: WriteAction)
        requires
            run_wf(changes@, old(self).from as int, old(self).attempted@, old(self).stage),
            !(old(self).stage is Finished),
        ensures
            (final(self).from as int, final(self).attempted@, final(self).stage, r) == step_spec(
                changes@,
                old(self).from as int,
                old(self).attempted@,
                old(self).stage,
                event,
            ),
            run_wf(changes@, final(self).from as int, final(self).attempted@, final(self).stage),
    {
        let mut stage = WriteStage::Finished;
        core::mem::swap(&mut stage, &mut self.stage);
        let ghost f0 = self.from as int;
        match stage {
            WriteStage::Check(i) => match event {
                Err(e) => {
                    let n = self.attempted.len();
                    self.roll_on(n, e, None)
                },
                Ok(current) => {
                    assert(i < changes.len());
                    if unchanged_since_planning(&changes[i], &current) {
                        self.attempted.push(i);
                        self.from = i + 1;
                        self.stage = WriteStage::Write(i);
                        assert(self.attempted@ =~= writes_below(changes@, i + 1));
                        WriteAction::Write(i)
                    } else {
                        let n = self.attempted.len();
                        let e = concurrent_change_error(&changes[i]);
                        self.roll_on(n, e, None)
                    }
                },
            },
            WriteStage::Write(i) => match event {
                Err(e) => {
                    let n = self.attempted.len();
                    let r = self.roll_on(n, e, None);
                    proof {
                        assert(writes_below(changes@, f0) =~= writes_below(changes@, i as int).push(i));
                    }
                    r
                },
                Ok(_) => self.pick(changes),
            },
            WriteStage::ReadBack { position, source, failure } => {
                let a = self.attempted[position - 1];
                proof {
                    lemma_writes_below(changes@, f0);
                }
                match event {
                    Err(e) => {
                        let kept = match failure {
                            Some(f) => Some(f),
                            None => Some(e),
                        };
                        self.roll_on(position - 1, source, kept)
                    },
                    Ok(current) => match restore_action(&changes[a], &current) {
                        RestoreAction::Conflict(e) => {
                            let kept = match failure {
                                Some(f) => Some(f),
                                None => Some(e),
                            };
                            self.roll_on(position - 1, source, kept)
                        },
                        RestoreAction::WriteOriginal => {
                            self.stage = WriteStage::Restore { position, source, failure };
                            WriteAction::WriteOriginal(a)
                        },
                        RestoreAction::RemoveFile => {
                            self.stage = WriteStage::Restore { position, source, failure };
                            WriteAction::RemoveFile(a)
                        },
                    },
                }
            },
            WriteStage::Restore { position, source, failure } => match event {
                Err(e) => {
                    let kept = match failure {
                        Some(f) => Some(f),
                        None => Some(e),
                    };
                    self.roll_on(position - 1, source, kept)
                },
                Ok(_) => self.roll_on(position - 1, source, failure),
            },
            WriteStage::Finished => {
                self.stage = WriteStage::Finished;
                WriteAction::Finish(Ok(()))
            },
        }
    }
}

} // verus!
