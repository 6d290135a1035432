//! Swapping downloaded client files into place.
//!
//! Every changed file has already been downloaded next to its destination
//! as a staged copy. The files are then put in place one after another: an
//! existing destination is first renamed to a backup, then the staged copy is
//! renamed onto the destination. When any rename fails, every file put in
//! place so far is taken out again, newest first, its backup (if any) is
//! renamed back, and every staged copy is removed. When all succeed, the
//! backups are removed.
//!
//! The renames themselves are done by the application: it performs each
//! action that `apply_step` returns and hands back what happened.

use vstd::prelude::*;

verus! {

/// The refusal given when the target folder was recognised as an original
/// ClassicUO installation and overwriting it was not confirmed.
pub open spec fn original_blocked_text() -> Seq<char> {
    "ORIGINAL_CUO_BLOCKED: 원본 ClassicUO 폴더로 감지됨. UI 확인을 거친 뒤 다시 시도하세요."@
}

/// Refuses to update a folder recognised as an original ClassicUO
/// installation unless the user confirmed it.
pub fn original_overwrite_guard(is_original_cuo: bool, allow_original_overwrite: bool) -> (r: Result<
    (),
    String,
>)
    ensures
        r is Err <==> (is_original_cuo && !allow_original_overwrite),
        r matches Err(e) ==> e@ == original_blocked_text(),
{
    if is_original_cuo && !allow_original_overwrite {
        Err(String::from_str("ORIGINAL_CUO_BLOCKED: 원본 ClassicUO 폴더로 감지됨. UI 확인을 거친 뒤 다시 시도하세요."))
    } else {
        Ok(())
    }
}

/// Where the swap stands.
#[derive(Debug, Clone, Copy, PartialEq, Eq, Structural)]
pub enum ApplyStage {
    /// Nothing done yet.
    Begin,
    /// Waiting to hear whether the current destination exists.
    Checking,
    /// Waiting for the rename of the current destination to its backup.
    BackingUp,
    /// Waiting for the rename of the staged copy onto the destination.
    Placing,
    /// Finished, one way or the other.
    Done,
}

/// State of the swap over `count` files, taken in index order. `backups[k]`
/// records, for each file already in place, whether its old version was kept
/// as a backup; the current file is the one at index `backups.len()`.
#[derive(Debug, Clone)]
pub struct ApplyState {
    pub count: usize,
    pub backups: Vec<bool>,
    pub stage: ApplyStage,
    /// Whether the current file's old version has been moved to its backup.
    pub backed_up: bool,
}

/// What the application reports back.
#[derive(Debug)]
pub enum ApplyEvent {
    /// Begin the swap.
    Start,
    /// Whether the current destination exists.
    DestExists(bool),
    /// Outcome of the last rename asked for.
    Renamed(Result<(), String>),
}

/// One clean-up step, carried out after the swap ends.
#[derive(Debug, Clone, Copy, PartialEq, Eq, Structural)]
pub enum Cleanup {
    /// Remove the file put in place at `index`, then rename its backup back
    /// when it has one.
    Revert { index: usize, has_backup: bool },
    /// Rename the backup of file `index` back onto its destination.
    RestoreBackup(usize),
    /// Remove the staged copy of file `index`.
    RemoveStaged(usize),
    /// Remove the backup of file `index`, when it has one.
    DropBackup { index: usize, has_backup: bool },
}

/// Why the swap failed.
#[derive(Debug, Clone)]
pub enum ApplyFailure {
    /// Renaming the existing file `index` to its backup failed.
    BackupFailed { index: usize, error: String },
    /// Renaming the staged copy of file `index` onto its destination failed.
    PlaceFailed { index: usize, error: String },
    /// An event that does not belong to the current stage.
    Unexpected,
}

/// What the application is asked to do next.
#[derive(Debug)]
pub enum ApplyAction {
    /// Tell whether the destination of file `index` exists.
    CheckDest(usize),
    /// Remove any old backup of file `index`, then rename its destination
    /// to the backup.
    BackUp(usize),
    /// Rename the staged copy of file `index` onto its destination.
    PutInPlace(usize),
    /// Carry out the clean-ups in order and report the result.
    Finish(Vec<Cleanup>, Result<(), ApplyFailure>),
}

impl ApplyState {
    /// The swap is consistent: before it begins no file is in place, and
    /// while it runs the current file is one of the `count` files.
    pub open spec fn wf(&self) -> bool {
        match self.stage {
            ApplyStage::Begin => self.backups.len() == 0,
            ApplyStage::Checking | ApplyStage::BackingUp | ApplyStage::Placing =>
                self.backups.len() < self.count,
            ApplyStage::Done => self.backups.len() <= self.count,
        }
    }

    /// A swap over `count` files, not yet begun.
    pub fn new(count: usize) -> (r: ApplyState)
        ensures
            r.count == count,
            r.backups@ == Seq::<bool>::empty(),
            r.stage == ApplyStage::Begin,
            !r.backed_up,
            r.wf(),
    {
        ApplyState { count, backups: Vec::new(), stage: ApplyStage::Begin, backed_up: false }
    }
}

/// Taking back the files already in place, newest first.
pub open spec fn rollback_cleanups(backups: Seq<bool>) -> Seq<Cleanup> {
    Seq::new(
        backups.len(),
        |k: int|
            Cleanup::Revert {
                index: (backups.len() - 1 - k) as usize,
                has_backup: backups[backups.len() - 1 - k],
            },
    )
}

/// Removing the staged copy of each of the `count` files.
pub open spec fn staged_cleanups(count: nat) -> Seq<Cleanup> {
    Seq::new(count, |k: int| Cleanup::RemoveStaged(k as usize))
}

/// Removing the backups of the files put in place, in order.
pub open spec fn backup_drops(backups: Seq<bool>) -> Seq<Cleanup> {
    Seq::new(backups.len(), |k: int| Cleanup::DropBackup { index: k as usize, has_backup: backups[k] })
}

/// Everything undone after a failure: the current file's backup is renamed
/// back when the failure came while placing it, then every file in place is
/// reverted newest first, then every staged copy is removed.
pub open spec fn abort_cleanups(s: ApplyState) -> Seq<Cleanup> {
    (if s.stage == ApplyStage::Placing && s.backed_up {
        seq![Cleanup::RestoreBackup(s.backups.len() as usize)]
    } else {
        Seq::empty()
    }) + rollback_cleanups(s.backups@) + staged_cleanups(s.count as nat)
}

/// The state after the swap ended.
pub open spec fn ended(s: ApplyState, r: ApplyState) -> bool {
    r.stage == ApplyStage::Done && r.count == s.count && r.backups@ == s.backups@ && !r.backed_up
}

/// The swap is running on a file that exists.
pub open spec fn running(s: ApplyState) -> bool {
    match s.stage {
        ApplyStage::Checking | ApplyStage::BackingUp | ApplyStage::Placing =>
            s.backups.len() < s.count,
        _ => false,
    }
}

/// The clean-ups of `a`, when it ends the swap.
pub open spec fn finish_cleanups(a: ApplyAction) -> Seq<Cleanup> {
    match a {
        ApplyAction::Finish(c, _) => c@,
        _ => Seq::empty(),
    }
}

/// The outcome `a` reports, when it ends the swap.
pub open spec fn finish_result(a: ApplyAction) -> Option<Result<(), ApplyFailure>> {
    match a {
        ApplyAction::Finish(_, res) => Some(res),
        _ => None,
    }
}

/// `f` is the failure of file `index` with the text `e`, while backing it up
/// (`backing_up`) or while placing it.
pub open spec fn is_rename_failure(f: ApplyFailure, backing_up: bool, index: int, e: Seq<char>) -> bool {
    if backing_up {
        f matches ApplyFailure::BackupFailed { index: i, error } && i == index && error@ == e
    } else {
        f matches ApplyFailure::PlaceFailed { index: i, error } && i == index && error@ == e
    }
}

/// The event reports a successful rename.
pub open spec fn renamed_ok(event: ApplyEvent) -> bool {
    event matches ApplyEvent::Renamed(Ok(_))
}

/// The outcome is the failure of file `index` with the text `e`.
pub open spec fn failed_with(res: Option<Result<(), ApplyFailure>>, backing_up: bool, index: int, e: Seq<char>) -> bool {
    match res {
        Some(Err(f)) => is_rename_failure(f, backing_up, index, e),
        _ => false,
    }
}

/// A swap state as plain values: (count, backups, stage, backed up).
pub open spec fn state_view(s: ApplyState) -> (int, Seq<bool>, ApplyStage, bool) {
    (s.count as int, s.backups@, s.stage, s.backed_up)
}

/// The swap over `count` files before it begins.
pub open spec fn start_view(count: int) -> (int, Seq<bool>, ApplyStage, bool) {
    (count, Seq::empty(), ApplyStage::Begin, false)
}

/// The event is the one the stage waits for, and reports success.
pub open spec fn went_well(s: ApplyState, e: ApplyEvent) -> bool {
    match s.stage {
        ApplyStage::Begin => e is Start,
        ApplyStage::Checking => running(s) && e is DestExists,
        ApplyStage::BackingUp | ApplyStage::Placing => running(s) && renamed_ok(e),
        ApplyStage::Done => false,
    }
}

/// The answer an event carries: whether the destination exists.
pub open spec fn answer(e: ApplyEvent) -> bool {
    match e {
        ApplyEvent::DestExists(b) => b,
        _ => false,
    }
}

/// The next state when the awaited event reports success; `exists` is the
/// answer to a destination check.
pub open spec fn success_next(v: (int, Seq<bool>, ApplyStage, bool), exists: bool) -> (
    int,
    Seq<bool>,
    ApplyStage,
    bool,
) {
    match v.2 {
        ApplyStage::Begin => if v.1.len() >= v.0 {
            (v.0, v.1, ApplyStage::Done, false)
        } else {
            (v.0, v.1, ApplyStage::Checking, false)
        },
        ApplyStage::Checking => if exists {
            (v.0, v.1, ApplyStage::BackingUp, true)
        } else {
            (v.0, v.1, ApplyStage::Placing, false)
        },
        ApplyStage::BackingUp => (v.0, v.1, ApplyStage::Placing, v.3),
        ApplyStage::Placing => if v.1.len() + 1 < v.0 {
            (v.0, v.1.push(v.3), ApplyStage::Checking, false)
        } else {
            (v.0, v.1.push(v.3), ApplyStage::Done, false)
        },
        ApplyStage::Done => v,
    }
}

/// `a` is what is asked next when the awaited event reports success.
pub open spec fn asks(v: (int, Seq<bool>, ApplyStage, bool), exists: bool, a: ApplyAction) -> bool {
    let i = v.1.len();
    match v.2 {
        ApplyStage::Begin => if i >= v.0 {
            finish_cleanups(a) == Seq::<Cleanup>::empty() && finish_result(a) == Some(Ok::<(), ApplyFailure>(()))
        } else {
            a == ApplyAction::CheckDest(i as usize)
        },
        ApplyStage::Checking => if exists {
            a == ApplyAction::BackUp(i as usize)
        } else {
            a == ApplyAction::PutInPlace(i as usize)
        },
        ApplyStage::BackingUp => a == ApplyAction::PutInPlace(i as usize),
        ApplyStage::Placing => if i + 1 < v.0 {
            a == ApplyAction::CheckDest((i + 1) as usize)
        } else {
            finish_cleanups(a) == backup_drops(v.1.push(v.3)) && finish_result(a) == Some(
                Ok::<(), ApplyFailure>(()),
            )
        },
        ApplyStage::Done => true,
    }
}

/// The state after the awaited events, each reporting success, with the
/// answers `xs` (an answer matters only for a destination check).
pub open spec fn after_successes(v: (int, Seq<bool>, ApplyStage, bool), xs: Seq<bool>) -> (
    int,
    Seq<bool>,
    ApplyStage,
    bool,
)
    decreases xs.len(),
{
    if xs.len() == 0 {
        v
    } else {
        success_next(after_successes(v, xs.drop_last()), xs.last())
    }
}

/// The answers of the events of one file whose destination exists or not:
/// the check, the backup rename when it exists, and the placing rename.
pub open spec fn file_answers(exists: bool) -> Seq<bool> {
    if exists {
        seq![true, false, false]
    } else {
        seq![false, false]
    }
}

/// The answers of the events of the files, in order.
pub open spec fn files_answers(ex: Seq<bool>) -> Seq<bool>
    decreases ex.len(),
{
    if ex.len() == 0 {
        Seq::empty()
    } else {
        files_answers(ex.drop_last()) + file_answers(ex.last())
    }
}

proof fn lemma_after_concat(v: (int, Seq<bool>, ApplyStage, bool), xs: Seq<bool>, ys: Seq<bool>)
    ensures
        after_successes(v, xs + ys) == after_successes(after_successes(v, xs), ys),
    decreases ys.len(),
{
    if ys.len() == 0 {
        assert(xs + ys =~= xs);
    } else {
        assert((xs + ys).drop_last() =~= xs + ys.drop_last());
        assert((xs + ys).last() == ys.last());
        lemma_after_concat(v, xs, ys.drop_last());
    }
}

proof fn lemma_one_file(n: int, ex: Seq<bool>, k: int)
    requires
        0 <= k < n,
        ex.len() == n,
    ensures
        after_successes((n, ex.take(k), ApplyStage::Checking, false), file_answers(ex[k])) == (if k + 1 < n {
            (n, ex.take(k + 1), ApplyStage::Checking, false)
        } else {
            (n, ex.take(k + 1), ApplyStage::Done, false)
        }),
{
    let v = (n, ex.take(k), ApplyStage::Checking, false);
    let xs = file_answers(ex[k]);
    assert(ex.take(k).push(ex[k]) =~= ex.take(k + 1));
    let e: Seq<bool> = Seq::empty();
    if ex[k] {
        let x1 = seq![true];
        let x2 = seq![true, false];
        assert(x1.drop_last() =~= e);
        assert(x2.drop_last() =~= x1);
        assert(xs.drop_last() =~= x2);
        assert(after_successes(v, e) == v);
        assert(after_successes(v, x1) == success_next(v, true));
        assert(after_successes(v, x2) == success_next(success_next(v, true), false));
    } else {
        let x1 = seq![false];
        assert(x1.drop_last() =~= e);
        assert(xs.drop_last() =~= x1);
        assert(after_successes(v, e) == v);
        assert(after_successes(v, x1) == success_next(v, false));
    }
}

proof fn lemma_files_progress(n: int, ex: Seq<bool>, k: int)
    requires
        0 <= k < n,
        ex.len() == n,
    ensures
        after_successes(start_view(n), seq![false] + files_answers(ex.take(k))) == (
            n,
            ex.take(k),
            ApplyStage::Checking,
            false,
        ),
        after_successes(start_view(n), seq![false] + files_answers(ex.take(k + 1))) == (if k + 1 < n {
            (n, ex.take(k + 1), ApplyStage::Checking, false)
        } else {
            (n, ex.take(k + 1), ApplyStage::Done, false)
        }),
    decreases k,
{
    if k == 0 {
        let e: Seq<bool> = Seq::empty();
        assert(ex.take(0) =~= e);
        assert(files_answers(e) == e);
        assert(seq![false] + files_answers(ex.take(0)) =~= seq![false]);
        assert(seq![false].drop_last() =~= e);
        assert(after_successes(start_view(n), e) == start_view(n));
        assert(after_successes(start_view(n), seq![false]) == success_next(start_view(n), false));
    } else {
        lemma_files_progress(n, ex, k - 1);
    }
    assert(ex.take(k + 1).drop_last() =~= ex.take(k));
    assert(ex.take(k + 1).last() == ex[k]);
    assert(seq![false] + files_answers(ex.take(k + 1)) =~= (seq![false] + files_answers(ex.take(k))) + file_answers(
        ex[k],
    ));
    lemma_after_concat(start_view(n), seq![false] + files_answers(ex.take(k)), file_answers(ex[k]));
    lemma_one_file(n, ex, k);
}

/// A swap in which every check and rename succeeds puts every file in
/// place, in order, backing up exactly the destinations that existed, and
/// ends by removing those backups and reporting success: after `Start` and
/// the events of each file, with `ex[k]` telling whether file `k`'s
/// destination existed, the swap is done with `backups == ex`, and the
/// action of its last step removes the backups of `ex` and succeeds.
pub proof fn lemma_successful_swap_places_every_file(ex: Seq<bool>, a: ApplyAction)
    requires
        ex.len() > 0,
    ensures
        after_successes(start_view(ex.len() as int), seq![false] + files_answers(ex)) == (
            ex.len() as int,
            ex,
            ApplyStage::Done,
            false,
        ),
        asks(
            (ex.len() as int, ex.take(ex.len() - 1), ApplyStage::Placing, ex.last()),
            false,
            a,
        ) ==> finish_cleanups(a) == backup_drops(ex) && finish_result(a) == Some(Ok::<(), ApplyFailure>(())),
{
    let n = ex.len() as int;
    lemma_files_progress(n, ex, n - 1);
    assert(ex.take(n) =~= ex);
    assert(ex.take(n - 1).push(ex.last()) =~= ex);
}

fn push_rollback(out: &mut Vec<Cleanup>, backups: &Vec<bool>)
    ensures
        final(out)@ == old(out)@ + rollback_cleanups(backups@),
{
    let n = backups.len();
    let mut k: usize = n;
    while k > 0
        invariant
            k <= n,
            n == backups.len(),
            out@ == old(out)@ + rollback_cleanups(backups@).take(n - k),
        decreases k,
    {
        k = k - 1;
        out.push(Cleanup::Revert { index: k, has_backup: backups[k] });
        assert(rollback_cleanups(backups@).take(n - k) =~= rollback_cleanups(backups@).take(
            n - k - 1,
        ).push(Cleanup::Revert { index: k, has_backup: backups@[k as int] }));
    }
    assert(rollback_cleanups(backups@).take(n as int) =~= rollback_cleanups(backups@));
}

fn push_staged(out: &mut Vec<Cleanup>, count: usize)
    ensures
        final(out)@ == old(out)@ + staged_cleanups(count as nat),
{
    let mut k: usize = 0;
    while k < count
        invariant
            k <= count,
            out@ == old(out)@ + staged_cleanups(count as nat).take(k as int),
        decreases count - k,
    {
        out.push(Cleanup::RemoveStaged(k));
        assert(staged_cleanups(count as nat).take(k + 1) =~= staged_cleanups(count as nat).take(
            k as int,
        ).push(Cleanup::RemoveStaged(k)));
        k = k + 1;
    }
    assert(staged_cleanups(count as nat).take(count as int) =~= staged_cleanups(count as nat));
}

fn backup_drop_list(backups: &Vec<bool>) -> (r: Vec<Cleanup>)
    ensures
        r@ == backup_drops(backups@),
{
    let mut out: Vec<Cleanup> = Vec::new();
    let mut k: usize = 0;
    while k < backups.len()
        invariant
            k <= backups.len(),
            out@ == backup_drops(backups@).take(k as int),
        decreases backups.len() - k,
    {
        out.push(Cleanup::DropBackup { index: k, has_backup: backups[k] });
        assert(backup_drops(backups@).take(k + 1) =~= backup_drops(backups@).take(k as int).push(
            Cleanup::DropBackup { index: k, has_backup: backups@[k as int] },
        ));
        k = k + 1;
    }
    assert(backup_drops(backups@).take(backups.len() as int) =~= backup_drops(backups@));
    out
}

/// The clean-ups after a failure in state `s`.
fn abort_list(s: &ApplyState) -> (r: Vec<Cleanup>)
    ensures
        r@ == abort_cleanups(*s),
{
    let mut out: Vec<Cleanup> = Vec::new();
    if s.stage == ApplyStage::Placing && s.backed_up {
        out.push(Cleanup::RestoreBackup(s.backups.len()));
    }
    push_rollback(&mut out, &s.backups);
    push_staged(&mut out, s.count);
    out
}

fn ended_state(s: &ApplyState) -> (r: ApplyState)
    ensures
        ended(*s, r),
{
    ApplyState { count: s.count, backups: s.backups.clone(), stage: ApplyStage::Done, backed_up: false }
}

/// One step of the swap: from the state and what the application reports,
/// the next state and what to do next.
///
/// - `Start` begins with the first file (or ends at once with nothing to do).
/// - `DestExists` asks to back the destination up when it exists, else to
///   put the staged copy in place.
/// - A successful rename moves on: from the backup to placing, and from
///   placing to the next file; after the last file every backup is removed
///   and the swap succeeds.
/// - A failed rename ends the swap with that failure, after restoring the
///   current file's backup when it was taken, reverting every file in place,
///   newest first, and removing every staged copy.
/// - Any other event ends a running swap the same way with `Unexpected`; a
///   swap that is over stays over.
pub fn apply_step(state: &ApplyState, event: ApplyEvent) -> (r: (ApplyState, ApplyAction))
    ensures
        // a finished swap does nothing more
        state.stage == ApplyStage::Done ==> ended(*state, r.0) && finish_cleanups(r.1)
            == Seq::<Cleanup>::empty() && finish_result(r.1) == Some(
            Err::<(), ApplyFailure>(ApplyFailure::Unexpected),
        ),
        // starting
        state.stage == ApplyStage::Begin && event is Start && state.backups.len() >= state.count ==> ended(*state, r.0)
            && finish_cleanups(r.1) == Seq::<Cleanup>::empty() && finish_result(r.1) == Some(
            Ok::<(), ApplyFailure>(()),
        ),
        state.stage == ApplyStage::Begin && event is Start && state.backups.len() < state.count ==> r.0.stage
            == ApplyStage::Checking && r.0.count == state.count && r.0.backups@ == state.backups@
            && !r.0.backed_up && r.1 == ApplyAction::CheckDest(state.backups.len()),
        // the current destination exists or not
        running(*state) && state.stage == ApplyStage::Checking && event == ApplyEvent::DestExists(true) ==> r.0.stage == ApplyStage::BackingUp && r.0.count == state.count && r.0.backups@
            == state.backups@ && r.0.backed_up && r.1 == ApplyAction::BackUp(state.backups.len()),
        running(*state) && state.stage == ApplyStage::Checking && event == ApplyEvent::DestExists(false) ==> r.0.stage == ApplyStage::Placing && r.0.count == state.count && r.0.backups@
            == state.backups@ && !r.0.backed_up && r.1 == ApplyAction::PutInPlace(
            state.backups.len(),
        ),
        // the backup rename went through
        running(*state) && state.stage == ApplyStage::BackingUp && renamed_ok(event) ==> r.0.stage == ApplyStage::Placing && r.0.count == state.count && r.0.backups@
            == state.backups@ && r.0.backed_up == state.backed_up && r.1 == ApplyAction::PutInPlace(
            state.backups.len(),
        ),
        // the staged copy is in place: the next file, or the end
        running(*state) && state.stage == ApplyStage::Placing && renamed_ok(event) && state.backups.len() + 1 < state.count ==> r.0.stage == ApplyStage::Checking
            && r.0.count == state.count && r.0.backups@ == state.backups@.push(state.backed_up)
            && !r.0.backed_up && r.1 == ApplyAction::CheckDest((state.backups.len() + 1) as usize),
        running(*state) && state.stage == ApplyStage::Placing && renamed_ok(event) && state.backups.len() + 1 == state.count ==> r.0.stage == ApplyStage::Done && r.0.count
            == state.count && r.0.backups@ == state.backups@.push(state.backed_up) && !r.0.backed_up
            && finish_cleanups(r.1) == backup_drops(state.backups@.push(state.backed_up))
            && finish_result(r.1) == Some(Ok::<(), ApplyFailure>(())),
        // a rename failed
        event matches ApplyEvent::Renamed(Err(e)) ==> (running(*state) && (state.stage
            == ApplyStage::BackingUp || state.stage == ApplyStage::Placing) ==> ended(*state, r.0)
            && finish_cleanups(r.1) == abort_cleanups(*state) && failed_with(
            finish_result(r.1),
            state.stage == ApplyStage::BackingUp,
            state.backups.len() as int,
            e@,
        )),
        // any other event while running
        state.stage != ApplyStage::Done && !(state.stage == ApplyStage::Begin && event is Start) && !(
        running(*state) && state.stage == ApplyStage::Checking && event is DestExists) && !(running(
            *state,
        ) && (state.stage == ApplyStage::BackingUp || state.stage == ApplyStage::Placing)
            && event is Renamed) ==> ended(*state, r.0) && finish_cleanups(r.1) == abort_cleanups(
            *state,
        ) && finish_result(r.1) == Some(Err::<(), ApplyFailure>(ApplyFailure::Unexpected)),
        // consistency is kept
        state.wf() ==> r.0.wf(),
        // every awaited success, in one clause
        went_well(*state, event) ==> (state_view(r.0) == success_next(state_view(*state), answer(event))
            && asks(state_view(*state), answer(event), r.1)),
{
    let i = state.backups.len();
    let running = i < state.count;
    match state.stage {
        ApplyStage::Done => {
            return (ended_state(state), ApplyAction::Finish(Vec::new(), Err(ApplyFailure::Unexpected)));
        },
        ApplyStage::Begin => {
            if let ApplyEvent::Start = event {
                if !running {
                    return (ended_state(state), ApplyAction::Finish(Vec::new(), Ok(())));
                }
                let next = ApplyState {
                    count: state.count,
                    backups: state.backups.clone(),
                    stage: ApplyStage::Checking,
                    backed_up: false,
                };
                return (next, ApplyAction::CheckDest(i));
            }
        },
        ApplyStage::Checking => {
            if let ApplyEvent::DestExists(exists) = event {
                if running {
                    let next = ApplyState {
                        count: state.count,
                        backups: state.backups.clone(),
                        stage: if exists {
                            ApplyStage::BackingUp
                        } else {
                            ApplyStage::Placing
                        },
                        backed_up: exists,
                    };
                    let action = if exists {
                        ApplyAction::BackUp(i)
                    } else {
                        ApplyAction::PutInPlace(i)
                    };
                    return (next, action);
                }
            }
        },
        ApplyStage::BackingUp | ApplyStage::Placing => {
            if let ApplyEvent::Renamed(outcome) = event {
                if running {
                    match outcome {
                        Err(error) => {
                            let failure = if state.stage == ApplyStage::BackingUp {
                                ApplyFailure::BackupFailed { index: i, error }
                            } else {
                                ApplyFailure::PlaceFailed { index: i, error }
                            };
                            return (ended_state(state), ApplyAction::Finish(abort_list(state), Err(failure)));
                        },
                        Ok(()) => {
                            if state.stage == ApplyStage::BackingUp {
                                let next = ApplyState {
                                    count: state.count,
                                    backups: state.backups.clone(),
                                    stage: ApplyStage::Placing,
                                    backed_up: state.backed_up,
                                };
                                return (next, ApplyAction::PutInPlace(i));
                            }
                            let mut backups = state.backups.clone();
                            backups.push(state.backed_up);
                            if i + 1 == state.count {
                                let drops = backup_drop_list(&backups);
                                let next = ApplyState {
                                    count: state.count,
                                    backups,
                                    stage: ApplyStage::Done,
                                    backed_up: false,
                                };
                                return (next, ApplyAction::Finish(drops, Ok(())));
                            }
                            let next = ApplyState {
                                count: state.count,
                                backups,
                                stage: ApplyStage::Checking,
                                backed_up: false,
                            };
                            return (next, ApplyAction::CheckDest(i + 1));
                        },
                    }
                }
            }
        },
    }
    (ended_state(state), ApplyAction::Finish(abort_list(state), Err(ApplyFailure::Unexpected)))
}

} // verus!
