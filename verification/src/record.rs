//! That nothing is lost on the way up: a model of what the tasks of a
//! traversal gave, and the proof that the result at the top holds exactly
//! the failures that occurred, wherever in the tree they occurred, or,
//! where there was none, exactly what the file tasks produced.

use crate::error::{Error, ErrorView, Errors, IoFailure};
use crate::walker::{
    admitted, dir_errors, dir_values, file_errors, file_values, lemma_dir_failure_reported,
    lemma_file_failure_reported, level_errors, merged_errors, merged_values,
};
use vstd::prelude::*;

verus! {

/// The record of one directory task of a traversal.
pub enum Record<T> {
    /// The task ended before its level started: the mirror directory could
    /// not be made, or the directory could not be listed.
    Refused(Error),
    /// The level ran: the outcome of making its mirror directory, where the
    /// traversal makes one; the failures of the entries whose kind could
    /// not be told; what its file tasks gave; the records of its
    /// subdirectory tasks, and what those tasks returned.
    Level {
        made: Option<Result<(), IoFailure>>,
        unreadable: Seq<ErrorView>,
        files: Seq<Result<Vec<T>, Error>>,
        dirs: Seq<Record<T>>,
        returned: Seq<Result<Vec<T>, Errors>>,
    },
}

/// Whether the file task that gave `result` failed with `failure`.
pub open spec fn file_failed_with<T>(result: Result<Vec<T>, Error>, failure: ErrorView) -> bool {
    result is Err && result->Err_0@ == failure
}

/// Whether the subdirectory task that gave `result` reported `failure`.
pub open spec fn dir_reported<T>(result: Result<Vec<T>, Errors>, failure: ErrorView) -> bool {
    result is Err && result->Err_0@.contains(failure)
}

/// Whether `result` is what merging the level's results gives.
pub open spec fn merges_to<T>(
    unreadable: Seq<ErrorView>,
    files: Seq<Result<Vec<T>, Error>>,
    dirs: Seq<Result<Vec<T>, Errors>>,
    result: Result<Vec<T>, Errors>,
) -> bool {
    &&& level_errors(unreadable, files, dirs).len() == 0 ==> (result matches Ok(values)
        && values@ == merged_values(files, dirs))
    &&& level_errors(unreadable, files, dirs).len() > 0 ==> (result matches Err(errors)
        && errors@ == level_errors(unreadable, files, dirs))
}

/// Whether `result` is what the task with the record `record` hands back: a
/// refused task its one failure, a level the merge of what its tasks gave.
pub open spec fn results_in<T>(record: Record<T>, result: Result<Vec<T>, Errors>) -> bool
    decreases record,
{
    match record {
        Record::Refused(error) => result matches Err(errors) && errors@ == seq![error@],
        Record::Level { made, unreadable, files, dirs, returned } => {
            &&& made is Some ==> admitted(made->0)
            &&& returned.len() == dirs.len()
            &&& forall|i: int| 0 <= i < dirs.len() ==> results_in(dirs[i], #[trigger] returned[i])
            &&& merges_to(unreadable, files, returned, result)
        },
    }
}

/// Whether `failure` occurred somewhere in `record`: a task failed with
/// it, or it is the failure of an entry whose kind could not be told.
pub open spec fn failed_with<T>(record: Record<T>, failure: ErrorView) -> bool
    decreases record,
{
    match record {
        Record::Refused(error) => error@ == failure,
        Record::Level { made, unreadable, files, dirs, returned } => {
            ||| unreadable.contains(failure)
            ||| exists|i: int|
                0 <= i < files.len() && file_failed_with(#[trigger] files[i], failure)
            ||| exists|i: int| 0 <= i < dirs.len() && failed_with(#[trigger] dirs[i], failure)
        },
    }
}

/// A failure in the merged collection of a level comes from one of its tasks.
proof fn lemma_reported_failure_has_cause<T>(
    files: Seq<Result<Vec<T>, Error>>,
    dirs: Seq<Result<Vec<T>, Errors>>,
    failure: ErrorView,
)
    requires
        merged_errors(files, dirs).contains(failure),
    ensures
        (exists|i: int|
            0 <= i < files.len() && file_failed_with(#[trigger] files[i], failure))
            || (exists|i: int|
            0 <= i < dirs.len() && dir_reported(#[trigger] dirs[i], failure)),
{
    let merged = merged_errors(files, dirs);
    let at = choose|at: int| 0 <= at < merged.len() && merged[at] == failure;
    if at < file_errors(files).len() {
        assert(file_errors(files)[at] == failure);
        lemma_file_cause(files, failure);
    } else {
        assert(dir_errors(dirs)[at - file_errors(files).len()] == failure);
        lemma_dir_cause(dirs, failure);
    }
}

proof fn lemma_file_cause<T>(files: Seq<Result<Vec<T>, Error>>, failure: ErrorView)
    requires
        file_errors(files).contains(failure),
    ensures
        exists|i: int|
            0 <= i < files.len() && file_failed_with(#[trigger] files[i], failure),
    decreases files.len(),
{
    let held = file_errors(files);
    let at = choose|at: int| 0 <= at < held.len() && held[at] == failure;
    if files.len() > 0 {
        let before = file_errors(files.drop_last());
        if at < before.len() {
            assert(before[at] == failure);
            lemma_file_cause(files.drop_last(), failure);
            let i = choose|i: int|
                0 <= i < files.drop_last().len() && file_failed_with(#[trigger] files.drop_last()[i], failure);
            assert(files[i] == files.drop_last()[i]);
        } else {
            assert(file_failed_with(files[files.len() - 1], failure));
        }
    }
}

proof fn lemma_dir_cause<T>(dirs: Seq<Result<Vec<T>, Errors>>, failure: ErrorView)
    requires
        dir_errors(dirs).contains(failure),
    ensures
        exists|i: int|
            0 <= i < dirs.len() && dir_reported(#[trigger] dirs[i], failure),
    decreases dirs.len(),
{
    let held = dir_errors(dirs);
    let at = choose|at: int| 0 <= at < held.len() && held[at] == failure;
    if dirs.len() > 0 {
        let before = dir_errors(dirs.drop_last());
        if at < before.len() {
            assert(before[at] == failure);
            lemma_dir_cause(dirs.drop_last(), failure);
            let i = choose|i: int|
                0 <= i < dirs.drop_last().len() && dir_reported(#[trigger] dirs.drop_last()[i], failure);
            assert(dirs[i] == dirs.drop_last()[i]);
        } else {
            let last = dirs[dirs.len() - 1];
            assert(last is Err);
            assert(last->Err_0@[at - before.len()] == failure);
        }
    }
}

/// No failure is lost and none is made up: what a traversal hands back at
/// the top holds a failure exactly if some task failed with it, however
/// deep in the tree, and whatever became of the other tasks.
pub proof fn lemma_failures_are_the_reported<T>(
    record: Record<T>,
    result: Result<Vec<T>, Errors>,
    failure: ErrorView,
)
    requires
        results_in(record, result),
    ensures
        failed_with(record, failure) <==> dir_reported(result, failure),
    decreases record,
{
    match record {
        Record::Refused(error) => {
            if error@ == failure {
                assert(result->Err_0@[0] == failure);
            }
        },
        Record::Level { made, unreadable, files, dirs, returned } => {
            let tasks = merged_errors(files, returned);
            let merged = level_errors(unreadable, files, returned);
            if failed_with(record, failure) {
                if unreadable.contains(failure) {
                    let at = choose|at: int| 0 <= at < unreadable.len() && unreadable[at] == failure;
                    assert(merged[at] == failure);
                } else {
                    if exists|i: int|
                        0 <= i < files.len() && file_failed_with(#[trigger] files[i], failure) {
                        let i = choose|i: int|
                            0 <= i < files.len() && file_failed_with(#[trigger] files[i], failure);
                        lemma_file_failure_reported(files, returned, i);
                    } else {
                        let i = choose|i: int|
                            0 <= i < dirs.len() && failed_with(#[trigger] dirs[i], failure);
                        assert(results_in(dirs[i], returned[i]));
                        lemma_failures_are_the_reported(dirs[i], returned[i], failure);
                        let below = returned[i]->Err_0@;
                        let which = choose|which: int|
                            0 <= which < below.len() && below[which] == failure;
                        lemma_dir_failure_reported(files, returned, i, which);
                    }
                    let at = choose|at: int| 0 <= at < tasks.len() && tasks[at] == failure;
                    assert(merged[unreadable.len() + at] == failure);
                }
                assert(merged.contains(failure));
                assert(merged.len() > 0);
            }
            if dir_reported(result, failure) {
                assert(merged.len() > 0);
                let at = choose|at: int| 0 <= at < merged.len() && merged[at] == failure;
                if at < unreadable.len() {
                    assert(unreadable[at] == failure);
                } else {
                    assert(tasks[at - unreadable.len()] == failure);
                    lemma_reported_failure_has_cause(files, returned, failure);
                    if exists|i: int|
                        0 <= i < returned.len() && dir_reported(#[trigger] returned[i], failure) {
                        let i = choose|i: int|
                            0 <= i < returned.len() && dir_reported(
                                #[trigger] returned[i],
                                failure,
                            );
                        assert(results_in(dirs[i], returned[i]));
                        lemma_failures_are_the_reported(dirs[i], returned[i], failure);
                        assert(failed_with(dirs[i], failure));
                    }
                }
            }
        },
    }
}

/// A traversal succeeds exactly if nothing failed anywhere in the tree.
pub proof fn lemma_success_means_no_failure<T>(record: Record<T>, result: Result<Vec<T>, Errors>)
    requires
        results_in(record, result),
    ensures
        result is Ok <==> forall|failure: ErrorView| !failed_with(record, failure),
{
    if result is Ok {
        assert forall|failure: ErrorView| !failed_with(record, failure) by {
            lemma_failures_are_the_reported(record, result, failure);
        }
    } else {
        let errors = result->Err_0@;
        assert(errors.len() > 0) by {
            match record {
                Record::Refused(error) => {},
                Record::Level { made, unreadable, files, dirs, returned } => {},
            }
        }
        lemma_failures_are_the_reported(record, result, errors[0]);
        assert(errors.contains(errors[0]));
        assert(failed_with(record, errors[0]));
    }
}

/// Whether the file task that gave `result` produced `value`.
pub open spec fn file_gave<T>(result: Result<Vec<T>, Error>, value: T) -> bool {
    result is Ok && result->Ok_0@.contains(value)
}

/// Whether the subdirectory task that gave `result` handed up `value`.
pub open spec fn dir_gave<T>(result: Result<Vec<T>, Errors>, value: T) -> bool {
    result is Ok && result->Ok_0@.contains(value)
}

/// Whether some file task in `record`, at any depth, produced `value`.
pub open spec fn produced<T>(record: Record<T>, value: T) -> bool
    decreases record,
{
    match record {
        Record::Refused(error) => false,
        Record::Level { made, unreadable, files, dirs, returned } => {
            ||| exists|i: int| 0 <= i < files.len() && file_gave(#[trigger] files[i], value)
            ||| exists|i: int| 0 <= i < dirs.len() && produced(#[trigger] dirs[i], value)
        },
    }
}

proof fn lemma_file_values_members<T>(files: Seq<Result<Vec<T>, Error>>, value: T)
    ensures
        file_values(files).contains(value) <==> exists|i: int|
            0 <= i < files.len() && file_gave(#[trigger] files[i], value),
    decreases files.len(),
{
    if files.len() > 0 {
        let shorter = files.drop_last();
        let last = files[files.len() - 1];
        let before = file_values(shorter);
        let all = file_values(files);
        lemma_file_values_members(shorter, value);
        if all.contains(value) {
            let at = choose|at: int| 0 <= at < all.len() && all[at] == value;
            if at < before.len() {
                assert(before[at] == value);
                let i = choose|i: int|
                    0 <= i < shorter.len() && file_gave(#[trigger] shorter[i], value);
                assert(file_gave(files[i], value));
            } else {
                assert(last->Ok_0@[at - before.len()] == value);
                assert(file_gave(files[files.len() - 1], value));
            }
        }
        if exists|i: int| 0 <= i < files.len() && file_gave(#[trigger] files[i], value) {
            let i = choose|i: int| 0 <= i < files.len() && file_gave(#[trigger] files[i], value);
            if i < shorter.len() {
                assert(file_gave(shorter[i], value));
                let at = choose|at: int| 0 <= at < before.len() && before[at] == value;
                assert(all[at] == value);
            } else {
                let held = last->Ok_0@;
                let at = choose|at: int| 0 <= at < held.len() && held[at] == value;
                assert(all[before.len() + at] == value);
            }
        }
    }
}

proof fn lemma_dir_values_members<T>(dirs: Seq<Result<Vec<T>, Errors>>, value: T)
    ensures
        dir_values(dirs).contains(value) <==> exists|i: int|
            0 <= i < dirs.len() && dir_gave(#[trigger] dirs[i], value),
    decreases dirs.len(),
{
    if dirs.len() > 0 {
        let shorter = dirs.drop_last();
        let last = dirs[dirs.len() - 1];
        let before = dir_values(shorter);
        let all = dir_values(dirs);
        lemma_dir_values_members(shorter, value);
        if all.contains(value) {
            let at = choose|at: int| 0 <= at < all.len() && all[at] == value;
            if at < before.len() {
                assert(before[at] == value);
                let i = choose|i: int|
                    0 <= i < shorter.len() && dir_gave(#[trigger] shorter[i], value);
                assert(dir_gave(dirs[i], value));
            } else {
                assert(last->Ok_0@[at - before.len()] == value);
                assert(dir_gave(dirs[dirs.len() - 1], value));
            }
        }
        if exists|i: int| 0 <= i < dirs.len() && dir_gave(#[trigger] dirs[i], value) {
            let i = choose|i: int| 0 <= i < dirs.len() && dir_gave(#[trigger] dirs[i], value);
            if i < shorter.len() {
                assert(dir_gave(shorter[i], value));
                let at = choose|at: int| 0 <= at < before.len() && before[at] == value;
                assert(all[at] == value);
            } else {
                let held = last->Ok_0@;
                let at = choose|at: int| 0 <= at < held.len() && held[at] == value;
                assert(all[before.len() + at] == value);
            }
        }
    }
}

/// A task that failed has a failure to show.
proof fn lemma_failure_is_shown<T>(record: Record<T>, result: Result<Vec<T>, Errors>)
    requires
        results_in(record, result),
        result is Err,
    ensures
        result->Err_0@.len() > 0,
{
    match record {
        Record::Refused(error) => {},
        Record::Level { made, unreadable, files, dirs, returned } => {},
    }
}

/// Nothing is missing from what a traversal hands up and nothing is
/// invented: where the traversal succeeds, its result holds a value
/// exactly if some file task produced it, however deep in the tree.
pub proof fn lemma_values_are_the_produced<T>(
    record: Record<T>,
    result: Result<Vec<T>, Errors>,
    value: T,
)
    requires
        results_in(record, result),
        result is Ok,
    ensures
        result->Ok_0@.contains(value) <==> produced(record, value),
    decreases record,
{
    match record {
        Record::Refused(error) => {},
        Record::Level { made, unreadable, files, dirs, returned } => {
            let values = result->Ok_0@;
            let front = file_values(files);
            let back = dir_values(returned);
            assert(level_errors(unreadable, files, returned).len() == 0);
            assert(values == front + back);
            lemma_file_values_members(files, value);
            lemma_dir_values_members(returned, value);
            assert forall|i: int| 0 <= i < dirs.len() implies (#[trigger] returned[i]) is Ok by {
                if returned[i] is Err {
                    assert(results_in(dirs[i], returned[i]));
                    lemma_failure_is_shown(dirs[i], returned[i]);
                    lemma_dir_failure_reported(files, returned, i, 0);
                }
            }
            if values.contains(value) {
                let at = choose|at: int| 0 <= at < values.len() && values[at] == value;
                if at < front.len() {
                    assert(front[at] == value);
                } else {
                    assert(back[at - front.len()] == value);
                    let i = choose|i: int|
                        0 <= i < returned.len() && dir_gave(#[trigger] returned[i], value);
                    assert(results_in(dirs[i], returned[i]));
                    lemma_values_are_the_produced(dirs[i], returned[i], value);
                    assert(produced(dirs[i], value));
                }
            }
            if produced(record, value) {
                if exists|i: int| 0 <= i < files.len() && file_gave(#[trigger] files[i], value) {
                    let at = choose|at: int| 0 <= at < front.len() && front[at] == value;
                    assert(values[at] == value);
                } else {
                    let i = choose|i: int| 0 <= i < dirs.len() && produced(#[trigger] dirs[i], value);
                    assert(returned[i] is Ok);
                    assert(results_in(dirs[i], returned[i]));
                    lemma_values_are_the_produced(dirs[i], returned[i], value);
                    assert(dir_gave(returned[i], value));
                    let at = choose|at: int| 0 <= at < back.len() && back[at] == value;
                    assert(values[front.len() + at] == value);
                }
            }
        },
    }
}

/// How many failures occurred in `record`: one for a refused task; for a
/// level one for every unreadable entry, one for every file task that
/// failed, and those of its subdirectories.
pub open spec fn failure_count<T>(record: Record<T>) -> nat
    decreases record, 0nat,
{
    match record {
        Record::Refused(error) => 1,
        Record::Level { made, unreadable, files, dirs, returned } => unreadable.len() + file_errors(
            files,
        ).len() + failures_below(dirs, dirs.len()),
    }
}

/// How many failures occurred in the first `upto` of the records `dirs`.
pub open spec fn failures_below<T>(dirs: Seq<Record<T>>, upto: nat) -> nat
    decreases dirs, upto,
{
    if upto == 0 || upto > dirs.len() {
        0
    } else {
        failures_below(dirs, (upto - 1) as nat) + failure_count(dirs[upto - 1])
    }
}

proof fn lemma_failures_below_counted<T>(
    dirs: Seq<Record<T>>,
    returned: Seq<Result<Vec<T>, Errors>>,
    upto: nat,
)
    requires
        returned.len() == dirs.len(),
        upto <= dirs.len(),
        forall|i: int| 0 <= i < dirs.len() ==> results_in(dirs[i], #[trigger] returned[i]),
    ensures
        dir_errors(returned.take(upto as int)).len() == failures_below(dirs, upto),
    decreases dirs, upto,
{
    if upto > 0 {
        let taken = returned.take(upto as int);
        assert(taken.drop_last() =~= returned.take(upto - 1));
        assert(taken.last() == returned[upto - 1]);
        lemma_failures_below_counted(dirs, returned, (upto - 1) as nat);
        assert(results_in(dirs[upto - 1], returned[upto - 1]));
        lemma_failures_are_counted(dirs[upto - 1], returned[upto - 1]);
    }
}

/// The result at the top holds as many failures as occurred: a traversal
/// that fails hands back one error for every failure in the whole tree,
/// and a traversal succeeds only where none occurred.
pub proof fn lemma_failures_are_counted<T>(record: Record<T>, result: Result<Vec<T>, Errors>)
    requires
        results_in(record, result),
    ensures
        result is Ok ==> failure_count(record) == 0,
        result is Err ==> result->Err_0@.len() == failure_count(record),
    decreases record, 0nat,
{
    match record {
        Record::Refused(error) => {},
        Record::Level { made, unreadable, files, dirs, returned } => {
            lemma_failures_below_counted(dirs, returned, dirs.len());
            assert(returned.take(dirs.len() as int) =~= returned);
        },
    }
}

/// Whether `second` records the same traversal as `first` but for the
/// outcomes of making the mirror directories: every task gave the same.
pub open spec fn same_tasks<T>(first: Record<T>, second: Record<T>) -> bool
    decreases first,
{
    match first {
        Record::Refused(error) => second == first,
        Record::Level { made, unreadable, files, dirs, returned } => {
            &&& second is Level
            &&& second->unreadable == unreadable
            &&& second->files == files
            &&& second->returned == returned
            &&& second->dirs.len() == dirs.len()
            &&& forall|i: int|
                0 <= i < dirs.len() ==> same_tasks(#[trigger] dirs[i], second->dirs[i])
        },
    }
}

/// Whether every level of `record` found its mirror directory made or
/// standing.
pub open spec fn mirrors_admitted<T>(record: Record<T>) -> bool
    decreases record,
{
    match record {
        Record::Refused(error) => true,
        Record::Level { made, unreadable, files, dirs, returned } => {
            &&& made is Some ==> admitted(made->0)
            &&& forall|i: int| 0 <= i < dirs.len() ==> mirrors_admitted(#[trigger] dirs[i])
        },
    }
}

/// A tree that is populated already changes nothing: whether the mirror
/// directories were made in this run or stood there from an earlier one,
/// a traversal whose tasks give the same hands back the same result.
pub proof fn lemma_standing_mirrors_change_nothing<T>(
    first: Record<T>,
    second: Record<T>,
    result: Result<Vec<T>, Errors>,
)
    requires
        results_in(first, result),
        same_tasks(first, second),
        mirrors_admitted(second),
    ensures
        results_in(second, result),
    decreases first,
{
    match first {
        Record::Refused(error) => {},
        Record::Level { made, unreadable, files, dirs, returned } => {
            assert forall|i: int| 0 <= i < second->dirs.len() implies results_in(
                second->dirs[i],
                #[trigger] second->returned[i],
            ) by {
                assert(results_in(dirs[i], returned[i]));
                assert(same_tasks(dirs[i], second->dirs[i]));
                assert(mirrors_admitted(second->dirs[i]));
                lemma_standing_mirrors_change_nothing(dirs[i], second->dirs[i], returned[i]);
            }
        },
    }
}

} // verus!
