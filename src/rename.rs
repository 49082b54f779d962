//! Applying the renames: the checks that refuse a run with colliding targets,
//! the list of renames handed to the workers, and the progress bookkeeping.

use vstd::prelude::*;
use crate::conflict::{count_groups, lemma_shared_target_is_one_group, count_key_groups, key, key_of, vviews};
use crate::path::{basename, basename_of, target_of, target_path};
use crate::state::{records, AppState, FileEntry, RecordView};
use crate::text::{decimal, fold, fold_chars_of, push_decimal, vec_eq};

verus! {

/// One rename: the file at `from` is to become `to`.
pub struct RenameJob {
    pub from: String,
    pub to: String,
}

/// What an apply request came to.
pub enum ApplyOutcome {
    /// A run is already in progress; nothing was done.
    Busy,
    /// No record that still exists has a new name.
    NothingToRename,
    /// Targets collide: `duplicates` targets are shared by several records,
    /// `existing` records would overwrite another file.
    Refused { duplicates: usize, existing: usize },
    /// The run started with these renames.
    Started(Vec<RenameJob>),
}

/// The positions of the records to rename: those that still exist and whose
/// proposed name differs from their base name.
pub open spec fn apply_positions(rs: Seq<RecordView>, exists: Seq<bool>) -> Seq<int>
    decreases rs.len(),
{
    if rs.len() == 0 {
        Seq::empty()
    } else if exists[rs.len() - 1] && rs.last().new_name != basename(rs.last().path) {
        apply_positions(rs.drop_last(), exists).push(rs.len() - 1)
    } else {
        apply_positions(rs.drop_last(), exists)
    }
}

/// The collision key of each record at positions `c`.
pub open spec fn target_keys(rs: Seq<RecordView>, c: Seq<int>, fold_case: bool) -> Seq<Seq<char>> {
    c.map_values(|i: int| key(rs[i].path, rs[i].new_name, fold_case))
}

/// The record at `i` would overwrite a file that is not itself.
pub open spec fn overwrites(
    rs: Seq<RecordView>,
    target_exists: Seq<bool>,
    i: int,
    fold_case: bool,
) -> bool {
    target_exists[i] && key(rs[i].path, rs[i].new_name, fold_case) != fold(fold_case, rs[i].path)
}

/// How many records at positions `c` would overwrite another file.
pub open spec fn count_overwrites(
    rs: Seq<RecordView>,
    target_exists: Seq<bool>,
    c: Seq<int>,
    fold_case: bool,
) -> nat
    decreases c.len(),
{
    if c.len() == 0 {
        0
    } else {
        count_overwrites(rs, target_exists, c.drop_last(), fold_case) + if overwrites(
            rs,
            target_exists,
            c.last(), fold_case,
        ) {
            1nat
        } else {
            0nat
        }
    }
}

/// The renames of the records at positions `c`.
pub open spec fn jobs_of(rs: Seq<RecordView>, c: Seq<int>) -> Seq<(Seq<char>, Seq<char>)> {
    c.map_values(|i: int| (rs[i].path, target_of(rs[i].path, rs[i].new_name)))
}

pub open spec fn job_views(jobs: Seq<RenameJob>) -> Seq<(Seq<char>, Seq<char>)> {
    jobs.map_values(|j: RenameJob| (j.from@, j.to@))
}

pub open spec fn nothing_status() -> Seq<char> {
    "変更対象のファイルはありません。"@
}

pub open spec fn conflict_status(duplicates: nat, existing: nat) -> Seq<char> {
    "衝突を検出: 新名の重複 "@ + decimal(duplicates) + " 件、既存ファイルとの衝突 "@ + decimal(
        existing,
    ) + " 件"@
}

pub open spec fn done_status(succeeded: nat, failed: nat) -> Seq<char> {
    "リネーム "@ + decimal(succeeded) + " 件、エラー "@ + decimal(failed) + " 件"@
}

/// Two existing records that both change, with one target: the apply check
/// finds exactly one group of duplicates, so the run is refused.
pub proof fn lemma_two_records_one_target(rs: Seq<RecordView>, fold_case: bool)
    requires
        rs.len() == 2,
        rs[0].new_name != basename(rs[0].path),
        rs[1].new_name != basename(rs[1].path),
        key(rs[0].path, rs[0].new_name, fold_case) == key(rs[1].path, rs[1].new_name, fold_case),
    ensures
        apply_positions(rs, seq![true, true]) == seq![0int, 1int],
        count_groups(target_keys(rs, apply_positions(rs, seq![true, true]), fold_case)) == 1,
{
    let e = seq![true, true];
    let first = rs.drop_last();
    assert(first.drop_last() =~= Seq::<RecordView>::empty());
    assert(first.len() == 1 && first.last() == rs[0]);
    assert(e[0] && e[1]);
    assert(apply_positions(first.drop_last(), e) == Seq::<int>::empty());
    assert(apply_positions(first, e) == apply_positions(first.drop_last(), e).push(0));
    assert(apply_positions(first, e) =~= seq![0int]);
    assert(apply_positions(rs, e) =~= seq![0int, 1int]);
    let k = key(rs[0].path, rs[0].new_name, fold_case);
    assert(target_keys(rs, seq![0int, 1int], fold_case) =~= seq![k, k]);
    lemma_shared_target_is_one_group(k);
}

/// The positions of the records to rename.
fn apply_indices(files: &Vec<FileEntry>, original_exists: &Vec<bool>) -> (r: Vec<usize>)
    requires
        original_exists.len() == files.len(),
    ensures
        r@.map_values(|i: usize| i as int) == apply_positions(records(files@), original_exists@),
        forall|k: int| 0 <= k < r.len() ==> #[trigger] r@[k] < files.len(),
        r.len() <= files.len(),
{
    let ghost rs = records(files@);
    let mut r: Vec<usize> = Vec::new();
    let mut i: usize = 0;
    assert(rs.take(0) =~= Seq::<RecordView>::empty());
    assert(r@.map_values(|i: usize| i as int) =~= Seq::<int>::empty());
    while i < files.len()
        invariant
            i <= files.len(),
            original_exists.len() == files.len(),
            rs == records(files@),
            r@.map_values(|i: usize| i as int) == apply_positions(rs.take(i as int), original_exists@),
            forall|k: int| 0 <= k < r.len() ==> #[trigger] r@[k] < i,
            r.len() <= i,
        decreases files.len() - i,
    {
        assert(rs.take(i + 1).drop_last() =~= rs.take(i as int));
        assert(rs.take(i + 1).last() == files@[i as int]@);
        let ghost before = r@;
        if original_exists[i] {
            let name = basename_of(files[i].original_path.as_str());
            if !(name == files[i].new_name) {
                r.push(i);
                assert(r@.map_values(|i: usize| i as int) =~= before.map_values(
                    |i: usize| i as int,
                ).push(i as int));
            }
        }
        i += 1;
    }
    assert(rs.take(i as int) =~= rs);
    r
}

/// Whether the record renamed to `name` from `path` would overwrite another
/// file, given whether its target exists.
fn overwrites_other(path: &str, name: &str, target_exists: bool, fold_case: bool) -> (r: bool)
    ensures
        r == (target_exists && key(path@, name@, fold_case) != fold(fold_case, path@)),
{
    if !target_exists {
        return false;
    }
    let k = key_of(path, name, fold_case);
    let own = fold_chars_of(fold_case, path);
    !vec_eq(&k, &own)
}

pub fn conflict_status_text(duplicates: usize, existing: usize) -> (r: String)
    ensures
        r@ == conflict_status(duplicates as nat, existing as nat),
{
    let mut r = String::from_str("衝突を検出: 新名の重複 ");
    push_decimal(&mut r, duplicates as u128);
    r.append(" 件、既存ファイルとの衝突 ");
    push_decimal(&mut r, existing as u128);
    r.append(" 件");
    r
}

pub fn done_status_text(succeeded: usize, failed: usize) -> (r: String)
    ensures
        r@ == done_status(succeeded as nat, failed as nat),
{
    let mut r = String::from_str("リネーム ");
    push_decimal(&mut r, succeeded as u128);
    r.append(" 件、エラー ");
    push_decimal(&mut r, failed as u128);
    r.append(" 件");
    r
}

/// `after` differs from `before` at most in its status line.
pub open spec fn only_status_changed(before: &AppState, after: &AppState) -> bool {
    &&& after.same_settings(before)
    &&& after.files == before.files
    &&& after.preview_files == before.preview_files
}

/// Handles an apply request. `original_exists[i]` and `target_exists[i]` tell
/// whether the path of record `i`, and its target, exist on disk now. A run
/// in progress makes this a no-op. Records that no longer exist are skipped.
/// If two records share a target, or a record would overwrite another file,
/// nothing is renamed and both counts are reported. Otherwise the run starts:
/// the progress counters are reset and the renames are returned.
pub fn apply_changes(
    data: &mut AppState,
    original_exists: &Vec<bool>,
    target_exists: &Vec<bool>,
) -> (r:
    ApplyOutcome)
    requires
        original_exists.len() == old(data).files.len(),
        target_exists.len() == old(data).files.len(),
    ensures
        ({
            let rs = records(old(data).files@);
            let fold_case = old(data).case_insensitive_targets;
            let c = apply_positions(rs, original_exists@);
            let dups = count_groups(target_keys(rs, c, fold_case));
            let existing = count_overwrites(rs, target_exists@, c, fold_case);
            if old(data).conversion_in_progress {
                &&& r is Busy
                &&& *final(data) == *old(data)
            } else if c.len() == 0 {
                &&& r is NothingToRename
                &&& only_status_changed(old(data), final(data))
                &&& final(data).status_message@ == nothing_status()
            } else if dups > 0 || existing > 0 {
                &&& r matches ApplyOutcome::Refused { duplicates, existing: e } && duplicates
                    == dups && e == existing
                &&& only_status_changed(old(data), final(data))
                &&& final(data).status_message@ == conflict_status(dups, existing)
            } else {
                &&& r matches ApplyOutcome::Started(jobs) && job_views(jobs@) == jobs_of(rs, c)
                &&& final(data).files == old(data).files
                &&& final(data).preview_files == old(data).preview_files
                &&& final(data).status_message == old(data).status_message
                &&& final(data).selected_dir == old(data).selected_dir
                &&& final(data).inputs() == old(data).inputs()
                &&& final(data).include_subdirectories == old(data).include_subdirectories
                &&& final(data).conversion_in_progress
                &&& final(data).conversion_total == c.len()
                &&& final(data).conversion_done == 0
            }
        }),
{
    if data.conversion_in_progress {
        return ApplyOutcome::Busy;
    }
    let ghost rs = records(data.files@);
    let fold_case = data.case_insensitive_targets;
    let idx = apply_indices(&data.files, original_exists);
    let ghost c = apply_positions(rs, original_exists@);
    if idx.len() == 0 {
        data.status_message = String::from_str("変更対象のファイルはありません。");
        return ApplyOutcome::NothingToRename;
    }
    let mut keys: Vec<Vec<char>> = Vec::new();
    let mut existing: usize = 0;
    let mut jobs: Vec<RenameJob> = Vec::new();
    let mut k: usize = 0;
    assert(c.take(0) =~= Seq::<int>::empty());
    assert(job_views(jobs@) =~= Seq::<(Seq<char>, Seq<char>)>::empty());
    while k < idx.len()
        invariant
            k <= idx.len(),
            idx.len() <= data.files.len(),
            target_exists.len() == data.files.len(),
            rs == records(data.files@),
            c == apply_positions(rs, original_exists@),
            idx@.map_values(|i: usize| i as int) == c,
            forall|j: int| 0 <= j < idx.len() ==> #[trigger] idx@[j] < data.files.len(),
            vviews(keys@) == target_keys(rs, c.take(k as int), fold_case),
            existing == count_overwrites(rs, target_exists@, c.take(k as int), fold_case),
            existing <= k,
            job_views(jobs@) == jobs_of(rs, c.take(k as int)),
        decreases idx.len() - k,
    {
        let i = idx[k];
        let f = &data.files[i];
        assert(c[k as int] == i as int);
        assert(rs[i as int] == f@);
        assert(c.take(k + 1).drop_last() =~= c.take(k as int));
        let kk = key_of(f.original_path.as_str(), f.new_name.as_str(), fold_case);
        let ghost keys_before = vviews(keys@);
        keys.push(kk);
        assert(vviews(keys@) =~= keys_before.push(kk@));
        assert(vviews(keys@) =~= target_keys(rs, c.take(k + 1), fold_case));
        if overwrites_other(f.original_path.as_str(), f.new_name.as_str(), target_exists[i], fold_case) {
            existing += 1;
        }
        let job = RenameJob {
            from: f.original_path.clone(),
            to: target_path(f.original_path.as_str(), f.new_name.as_str()),
        };
        let ghost jobs_before = job_views(jobs@);
        jobs.push(job);
        assert(job_views(jobs@) =~= jobs_before.push((job.from@, job.to@)));
        assert(job_views(jobs@) =~= jobs_of(rs, c.take(k + 1)));
        k += 1;
    }
    assert(c.take(k as int) =~= c);
    let dups = count_key_groups(&keys);
    if dups > 0 || existing > 0 {
        data.status_message = conflict_status_text(dups, existing);
        return ApplyOutcome::Refused { duplicates: dups, existing };
    }
    data.conversion_total = idx.len();
    data.conversion_done = 0;
    data.conversion_in_progress = true;
    ApplyOutcome::Started(jobs)
}

/// The progress after a tick reporting `n` completed renames: the count only
/// moves forward, and never past the total.
pub open spec fn tick(done: nat, total: nat, n: nat) -> nat {
    if done < n && n <= total {
        n
    } else {
        done
    }
}

/// The progress after the ticks `ticks`, in the order they arrived.
pub open spec fn after_ticks(done: nat, total: nat, ticks: Seq<nat>) -> nat
    decreases ticks.len(),
{
    if ticks.len() == 0 {
        done
    } else {
        tick(after_ticks(done, total, ticks.drop_last()), total, ticks.last())
    }
}

/// How many of `results` are successes.
pub open spec fn successes(results: Seq<bool>) -> nat
    decreases results.len(),
{
    if results.len() == 0 {
        0
    } else {
        successes(results.drop_last()) + if results.last() {
            1nat
        } else {
            0nat
        }
    }
}

/// Records a progress tick of a run in progress.
pub fn on_progress(data: &mut AppState, n: usize)
    ensures
        final(data).conversion_done == if old(data).conversion_in_progress {
            tick(old(data).conversion_done as nat, old(data).conversion_total as nat, n as nat)
        } else {
            old(data).conversion_done as nat
        },
        final(data).conversion_total == old(data).conversion_total,
        final(data).conversion_in_progress == old(data).conversion_in_progress,
        final(data).files == old(data).files,
        final(data).preview_files == old(data).preview_files,
        final(data).status_message == old(data).status_message,
        final(data).inputs() == old(data).inputs(),
        final(data).selected_dir == old(data).selected_dir,
        final(data).include_subdirectories == old(data).include_subdirectories,
{
    if data.conversion_in_progress && data.conversion_done < n && n <= data.conversion_total {
        data.conversion_done = n;
    }
}

/// Ends a run: reports the counts and allows the next one.
pub fn on_finished(data: &mut AppState, succeeded: usize, failed: usize)
    ensures
        final(data).status_message@ == done_status(succeeded as nat, failed as nat),
        !final(data).conversion_in_progress,
        final(data).conversion_done == old(data).conversion_done,
        final(data).conversion_total == old(data).conversion_total,
        final(data).files == old(data).files,
        final(data).preview_files == old(data).preview_files,
        final(data).inputs() == old(data).inputs(),
        final(data).selected_dir == old(data).selected_dir,
        final(data).include_subdirectories == old(data).include_subdirectories,
{
    data.status_message = done_status_text(succeeded, failed);
    data.conversion_in_progress = false;
}

/// The numbers of successes and failures among the results of a run.
pub fn summarize(results: &Vec<bool>) -> (r: (usize, usize))
    ensures
        r.0 == successes(results@),
        r.0 + r.1 == results.len(),
{
    let mut ok: usize = 0;
    let mut i: usize = 0;
    assert(results@.take(0) =~= Seq::<bool>::empty());
    while i < results.len()
        invariant
            i <= results.len(),
            ok == successes(results@.take(i as int)),
            ok <= i,
        decreases results.len() - i,
    {
        assert(results@.take(i + 1).drop_last() =~= results@.take(i as int));
        if results[i] {
            ok += 1;
        }
        i += 1;
    }
    assert(results@.take(i as int) =~= results@);
    (ok, results.len() - ok)
}

pub proof fn lemma_after_ticks_bounds(done: nat, total: nat, ticks: Seq<nat>)
    requires
        done <= total,
    ensures
        done <= after_ticks(done, total, ticks) <= total,
        forall|k: int|
            0 <= k < ticks.len() && #[trigger] ticks[k] <= total ==> ticks[k] <= after_ticks(
                done,
                total,
                ticks,
            ),
    decreases ticks.len(),
{
    if ticks.len() > 0 {
        lemma_after_ticks_bounds(done, total, ticks.drop_last());
        assert forall|k: int|
            0 <= k < ticks.len() && #[trigger] ticks[k] <= total implies ticks[k] <= after_ticks(
            done,
            total,
            ticks,
        ) by {
            if k < ticks.len() - 1 {
                assert(ticks.drop_last()[k] == ticks[k]);
            }
        }
    }
}

/// A run of `n` renames that all succeed: the workers report the counts 1 to
/// `n`, one tick per rename and in any order. Starting from zero, the
/// progress reaches the total `n`, the summary is `n` successes and no
/// failure, and the final status line reports exactly that.
pub proof fn lemma_complete_run(n: nat, ticks: Seq<nat>, results: Seq<bool>)
    requires
        ticks.len() == n,
        forall|v: nat| 1 <= v <= n ==> ticks.contains(v),
        results.len() == n,
        forall|k: int| 0 <= k < results.len() ==> results[k],
    ensures
        after_ticks(0, n, ticks) == n,
        successes(results) == n,
        results.len() - successes(results) == 0,
        done_status(successes(results), (results.len() - successes(results)) as nat)
            == done_status(n, 0),
{
    lemma_after_ticks_bounds(0, n, ticks);
    if n > 0 {
        assert(ticks.contains(n));
    }
    lemma_all_successes(results);
}

pub proof fn lemma_all_successes(results: Seq<bool>)
    requires
        forall|k: int| 0 <= k < results.len() ==> results[k],
    ensures
        successes(results) == results.len(),
    decreases results.len(),
{
    if results.len() > 0 {
        lemma_all_successes(results.drop_last());
    }
}

} // verus!
