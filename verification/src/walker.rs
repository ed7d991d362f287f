//! The decisions of the tree traversal, one directory at a time.
//!
//! For a directory the caller runs the pre-action, lists the source
//! directory, starts one task for every subdirectory and every file, and
//! waits for all of them. After each of these it asks this module what the
//! outcome means: [`prepared`] after the pre-action, [`classify`] after the
//! listing, [`merge`] after the wait.
//!
//! Only a directory that cannot be listed ends its level early. An entry
//! whose kind cannot be told is one failure of the level, beside which all
//! other entries are handled as usual.

use crate::error::{Error, ErrorLocation, ErrorView, Errors, InnerError, IoFailure, IoKind};
use crate::path::{join, join_spec, RelPath};
use vstd::prelude::*;
use vstd::std_specs::iter::IteratorSpec;

verus! {

/// What a directory entry is, as far as the traversal cares.
#[derive(Debug, Clone, Copy, PartialEq, Eq, Structural)]
pub enum EntryKind {
    Directory,
    File,
    /// Neither of the two: a symbolic link, a socket and the like.
    Other,
}

/// One entry of a listed directory: its name, and its kind or the failure
/// that kept its metadata from being read.
#[derive(Debug, PartialEq, Eq)]
pub struct Entry {
    pub name: String,
    pub kind: Result<EntryKind, IoFailure>,
}

/// How listing a directory failed.
#[derive(Debug, PartialEq, Eq)]
pub enum ListFailure {
    /// The directory could not be opened.
    Open(IoFailure),
    /// The next entry could not be read.
    Next(IoFailure),
}

/// What listing a directory gave: the entries read, and the failure that
/// ended the listing early, if one did.
#[derive(Debug, PartialEq, Eq)]
pub struct Listing {
    pub entries: Vec<Entry>,
    pub failure: Option<ListFailure>,
}

/// One directory of a traversal: where it is read and, if the traversal
/// mirrors directories, where its mirror is created.
#[derive(Debug, PartialEq, Eq)]
pub struct DirStep {
    pub relative: RelPath,
    pub source: String,
    pub dest: Option<String>,
}

/// The tasks of one directory level, and the failures that the level has
/// before any task runs: one for every entry whose kind could not be told.
#[derive(Debug, PartialEq, Eq)]
pub struct Work {
    pub dirs: Vec<RelPath>,
    pub files: Vec<RelPath>,
    pub unreadable: Errors,
}

/// The relative paths that a sequence of paths stands for.
pub open spec fn paths_view(paths: Seq<RelPath>) -> Seq<Seq<Seq<char>>> {
    Seq::new(paths.len(), |i: int| paths[i]@)
}

/// Whether `entry` is known to be of the kind `kind`.
pub open spec fn has_kind(entry: Entry, kind: EntryKind) -> bool {
    entry.kind is Ok && entry.kind->Ok_0 == kind
}

/// The entries known to be of the given kind, in listing order, as paths
/// below `relative`.
pub open spec fn children(relative: Seq<Seq<char>>, entries: Seq<Entry>, kind: EntryKind) -> Seq<
    Seq<Seq<char>>,
>
    decreases entries.len(),
{
    if entries.len() == 0 {
        Seq::empty()
    } else if has_kind(entries.last(), kind) {
        children(relative, entries.drop_last(), kind).push(relative.push(entries.last().name@))
    } else {
        children(relative, entries.drop_last(), kind)
    }
}

/// The located error that a failed listing of the directory at `source` becomes.
pub open spec fn listing_error(source: Seq<char>, failure: ListFailure) -> ErrorView {
    match failure {
        ListFailure::Open(cause) => ErrorView { location: source, inner: InnerError::Io(cause) },
        ListFailure::Next(cause) => ErrorView { location: source, inner: InnerError::Io(cause) },
    }
}

/// The located errors of the entries whose kind could not be told, in
/// listing order: each at the path of its entry in the directory at `source`.
pub open spec fn unreadable(source: Seq<char>, entries: Seq<Entry>) -> Seq<ErrorView>
    decreases entries.len(),
{
    if entries.len() == 0 {
        Seq::empty()
    } else {
        match entries.last().kind {
            Ok(_) => unreadable(source, entries.drop_last()),
            Err(failure) => unreadable(source, entries.drop_last()).push(
                ErrorView {
                    location: join_spec(source, entries.last().name@),
                    inner: InnerError::Io(failure),
                },
            ),
        }
    }
}

/// Whether the outcome of creating a mirror directory lets the level go
/// on: the directory was made, or it stood there already.
pub open spec fn admitted(outcome: Result<(), IoFailure>) -> bool {
    outcome is Ok || outcome->Err_0.kind == IoKind::AlreadyExists
}

/// Judges the outcome of creating the mirror directory at `dest`. That the
/// directory exists already is no failure; anything else ends this subtree
/// with one error located at `dest`.
pub fn prepared(dest: &str, outcome: Result<(), IoFailure>) -> (r: Result<(), Errors>)
    ensures
        r is Ok <==> admitted(outcome),
        !admitted(outcome) ==> r->Err_0@ == seq![
            ErrorView { location: dest@, inner: InnerError::Io(outcome->Err_0) },
        ],
{
    match outcome {
        Ok(_) => Ok(()),
        Err(failure) => {
            if failure.kind == IoKind::AlreadyExists {
                Ok(())
            } else {
                Err(Errors::single(failure.with_location(dest)))
            }
        },
    }
}

/// Turns the listing of the directory `step` into the tasks of its level:
/// one per subdirectory and one per file, in listing order; entries that
/// are neither are passed over. An entry whose kind could not be told
/// gives one error, located at the entry, and keeps no other entry from
/// its task. Only a listing that failed ends the level: it gives a single
/// error located at the directory, and no task.
pub fn classify(step: &DirStep, listing: Listing) -> (r: Result<Work, Errors>)
    ensures
        match listing.failure {
            None => r matches Ok(work) && paths_view(work.dirs@) == children(
                step.relative@,
                listing.entries@,
                EntryKind::Directory,
            ) && paths_view(work.files@) == children(
                step.relative@,
                listing.entries@,
                EntryKind::File,
            ) && work.unreadable@ == unreadable(step.source@, listing.entries@),
            Some(failure) => r matches Err(errors) && errors@ == seq![
                listing_error(step.source@, failure),
            ],
        },
{
    let Listing { entries, failure } = listing;
    match failure {
        Some(ListFailure::Open(cause)) => {
            Err(Errors::single(cause.with_location(step.source.as_str())))
        },
        Some(ListFailure::Next(cause)) => {
            Err(Errors::single(cause.with_location(step.source.as_str())))
        },
        None => {
            let mut dirs: Vec<RelPath> = Vec::new();
            let mut files: Vec<RelPath> = Vec::new();
            let mut failures = Errors::new();
            assert(entries@.take(0) =~= Seq::<Entry>::empty());
            assert(paths_view(dirs@) =~= Seq::<Seq<Seq<char>>>::empty());
            assert(paths_view(files@) =~= Seq::<Seq<Seq<char>>>::empty());
            for entry in it: entries.into_iter()
                invariant
                    it.seq() == entries@,
                    paths_view(dirs@) == children(
                        step.relative@,
                        it.seq().take(it.index() as int),
                        EntryKind::Directory,
                    ),
                    paths_view(files@) == children(
                        step.relative@,
                        it.seq().take(it.index() as int),
                        EntryKind::File,
                    ),
                    failures@ == unreadable(step.source@, it.seq().take(it.index() as int)),
            {
                proof {
                    let next = entries@.take(it.index() + 1);
                    assert(next.drop_last() =~= entries@.take(it.index() as int));
                    assert(next.last() == entry);
                }
                let ghost dirs_before = dirs@;
                let ghost files_before = files@;
                let Entry { name, kind } = entry;
                match kind {
                    Ok(EntryKind::Directory) => {
                        let child = step.relative.child(name.as_str());
                        dirs.push(child);
                        assert(paths_view(dirs@) =~= paths_view(dirs_before).push(child@));
                    },
                    Ok(EntryKind::File) => {
                        let child = step.relative.child(name.as_str());
                        files.push(child);
                        assert(paths_view(files@) =~= paths_view(files_before).push(child@));
                    },
                    Ok(EntryKind::Other) => {},
                    Err(cause) => {
                        let location = join(step.source.as_str(), name.as_str());
                        failures.push(cause.with_location(location.as_str()));
                    },
                }
            }
            assert(entries@.take(entries@.len() as int) =~= entries@);
            Ok(Work { dirs, files, unreadable: failures })
        },
    }
}

/// The failures among the results of the file tasks, in task order.
pub open spec fn file_errors<T>(files: Seq<Result<Vec<T>, Error>>) -> Seq<ErrorView>
    decreases files.len(),
{
    if files.len() == 0 {
        Seq::empty()
    } else {
        match files.last() {
            Ok(_) => file_errors(files.drop_last()),
            Err(error) => file_errors(files.drop_last()).push(error@),
        }
    }
}

/// What the successful file tasks produced, in task order.
pub open spec fn file_values<T>(files: Seq<Result<Vec<T>, Error>>) -> Seq<T>
    decreases files.len(),
{
    if files.len() == 0 {
        Seq::empty()
    } else {
        match files.last() {
            Ok(values) => file_values(files.drop_last()) + values@,
            Err(_) => file_values(files.drop_last()),
        }
    }
}

/// The failures of the subdirectory tasks, each collection whole, in task order.
pub open spec fn dir_errors<T>(dirs: Seq<Result<Vec<T>, Errors>>) -> Seq<ErrorView>
    decreases dirs.len(),
{
    if dirs.len() == 0 {
        Seq::empty()
    } else {
        match dirs.last() {
            Ok(_) => dir_errors(dirs.drop_last()),
            Err(errors) => dir_errors(dirs.drop_last()) + errors@,
        }
    }
}

/// What the successful subdirectory tasks produced, in task order.
pub open spec fn dir_values<T>(dirs: Seq<Result<Vec<T>, Errors>>) -> Seq<T>
    decreases dirs.len(),
{
    if dirs.len() == 0 {
        Seq::empty()
    } else {
        match dirs.last() {
            Ok(values) => dir_values(dirs.drop_last()) + values@,
            Err(_) => dir_values(dirs.drop_last()),
        }
    }
}

/// Every failure of one directory level: those of its files, then those of
/// its subdirectories.
pub open spec fn merged_errors<T>(
    files: Seq<Result<Vec<T>, Error>>,
    dirs: Seq<Result<Vec<T>, Errors>>,
) -> Seq<ErrorView> {
    file_errors(files) + dir_errors(dirs)
}

/// Everything one directory level produced: what its files gave, then what
/// its subdirectories gave.
pub open spec fn merged_values<T>(
    files: Seq<Result<Vec<T>, Error>>,
    dirs: Seq<Result<Vec<T>, Errors>>,
) -> Seq<T> {
    file_values(files) + dir_values(dirs)
}

/// Every failure of one directory level: those it had before its tasks
/// ran, then those of its tasks.
pub open spec fn level_errors<T>(
    unreadable: Seq<ErrorView>,
    files: Seq<Result<Vec<T>, Error>>,
    dirs: Seq<Result<Vec<T>, Errors>>,
) -> Seq<ErrorView> {
    unreadable + merged_errors(files, dirs)
}

/// Merges the results of one directory level: the failures `unreadable`
/// that the level had before its tasks ran, and what its tasks gave. The
/// level succeeds, with everything its tasks produced, if and only if
/// there is no failure at all; otherwise it fails with every failure.
pub fn merge<T>(
    unreadable: Errors,
    files: Vec<Result<Vec<T>, Error>>,
    dirs: Vec<Result<Vec<T>, Errors>>,
) -> (r: Result<Vec<T>, Errors>)
    ensures
        level_errors(unreadable@, files@, dirs@).len() == 0 ==> (r matches Ok(values) && values@
            == merged_values(files@, dirs@)),
        level_errors(unreadable@, files@, dirs@).len() > 0 ==> (r matches Err(errors) && errors@
            == level_errors(unreadable@, files@, dirs@)),
{
    let mut values: Vec<T> = Vec::new();
    let mut errors = unreadable;
    assert(files@.take(0) =~= Seq::<Result<Vec<T>, Error>>::empty());
    assert(errors@ =~= unreadable@ + file_errors(files@.take(0)));
    for result in it: files.into_iter()
        invariant
            it.seq() == files@,
            values@ == file_values(it.seq().take(it.index() as int)),
            errors@ == unreadable@ + file_errors(it.seq().take(it.index() as int)),
    {
        proof {
            let next = files@.take(it.index() + 1);
            assert(next.drop_last() =~= files@.take(it.index() as int));
            assert(next.last() == result);
        }
        match result {
            Ok(produced) => {
                let mut produced = produced;
                values.append(&mut produced);
            },
            Err(error) => {
                errors.push(error);
            },
        }
    }
    assert(files@.take(files@.len() as int) =~= files@);
    assert(dirs@.take(0) =~= Seq::<Result<Vec<T>, Errors>>::empty());
    assert(errors@ =~= unreadable@ + (file_errors(files@) + dir_errors(dirs@.take(0))));
    for result in it: dirs.into_iter()
        invariant
            it.seq() == dirs@,
            values@ == file_values(files@) + dir_values(it.seq().take(it.index() as int)),
            errors@ == unreadable@ + (file_errors(files@) + dir_errors(
                it.seq().take(it.index() as int),
            )),
    {
        proof {
            let next = dirs@.take(it.index() + 1);
            assert(next.drop_last() =~= dirs@.take(it.index() as int));
            assert(next.last() == result);
        }
        match result {
            Ok(produced) => {
                let mut produced = produced;
                values.append(&mut produced);
            },
            Err(failed) => {
                errors.join(failed);
            },
        }
    }
    assert(dirs@.take(dirs@.len() as int) =~= dirs@);
    if errors.is_empty() {
        Ok(values)
    } else {
        Err(errors)
    }
}

/// The number of file tasks that succeeded.
pub open spec fn succeeded<T>(files: Seq<Result<Vec<T>, Error>>) -> nat
    decreases files.len(),
{
    if files.len() == 0 {
        0
    } else if files.last() is Ok {
        succeeded(files.drop_last()) + 1
    } else {
        succeeded(files.drop_last())
    }
}

/// Every file task is accounted for: it either succeeded or left exactly
/// one failure in the merged collection.
pub proof fn lemma_every_file_accounted<T>(files: Seq<Result<Vec<T>, Error>>)
    ensures
        succeeded(files) + file_errors(files).len() == files.len(),
    decreases files.len(),
{
    if files.len() > 0 {
        lemma_every_file_accounted(files.drop_last());
    }
}

proof fn lemma_file_failure_held<T>(files: Seq<Result<Vec<T>, Error>>, at: int)
    requires
        0 <= at < files.len(),
        files[at] is Err,
    ensures
        file_errors(files).contains(files[at]->Err_0@),
    decreases files.len(),
{
    let failure = files[at]->Err_0@;
    let held = file_errors(files);
    if at == files.len() - 1 {
        assert(held[held.len() - 1] == failure);
    } else {
        lemma_file_failure_held(files.drop_last(), at);
        let shorter = file_errors(files.drop_last());
        let i = choose|i: int| 0 <= i < shorter.len() && shorter[i] == failure;
        assert(held[i] == failure);
    }
}

/// No failure of a file task is lost: it stands in the merged collection,
/// whatever became of the other tasks.
pub proof fn lemma_file_failure_reported<T>(
    files: Seq<Result<Vec<T>, Error>>,
    dirs: Seq<Result<Vec<T>, Errors>>,
    at: int,
)
    requires
        0 <= at < files.len(),
        files[at] is Err,
    ensures
        merged_errors(files, dirs).contains(files[at]->Err_0@),
{
    let failure = files[at]->Err_0@;
    lemma_file_failure_held(files, at);
    let held = file_errors(files);
    let i = choose|i: int| 0 <= i < held.len() && held[i] == failure;
    assert(merged_errors(files, dirs)[i] == failure);
}

/// No failure of a subdirectory is lost: every failure that a
/// subdirectory task reported stands in the merged collection.
pub proof fn lemma_dir_failure_reported<T>(
    files: Seq<Result<Vec<T>, Error>>,
    dirs: Seq<Result<Vec<T>, Errors>>,
    at: int,
    which: int,
)
    requires
        0 <= at < dirs.len(),
        dirs[at] is Err,
        0 <= which < dirs[at]->Err_0@.len(),
    ensures
        merged_errors(files, dirs).contains(dirs[at]->Err_0@[which]),
    decreases dirs.len(),
{
    let failure = dirs[at]->Err_0@[which];
    let front = file_errors(files);
    if at == dirs.len() - 1 {
        let before = dir_errors(dirs.drop_last());
        assert(dir_errors(dirs)[before.len() + which] == failure);
        assert(merged_errors(files, dirs)[front.len() + before.len() + which] == failure);
    } else {
        lemma_dir_failure_reported(files, dirs.drop_last(), at, which);
        let shorter = merged_errors(files, dirs.drop_last());
        let i = choose|i: int| 0 <= i < shorter.len() && shorter[i] == failure;
        if i < front.len() {
            assert(merged_errors(files, dirs)[i] == failure);
        } else {
            assert(dir_errors(dirs.drop_last())[i - front.len()] == failure);
            assert(dir_errors(dirs)[i - front.len()] == failure);
            assert(merged_errors(files, dirs)[i] == failure);
        }
    }
}

/// Every entry of the wanted kind becomes one task, for the path of that
/// entry below the directory.
pub proof fn lemma_entry_has_task(
    relative: Seq<Seq<char>>,
    entries: Seq<Entry>,
    kind: EntryKind,
    at: int,
)
    requires
        0 <= at < entries.len(),
        has_kind(entries[at], kind),
    ensures
        children(relative, entries, kind).contains(relative.push(entries[at].name@)),
    decreases entries.len(),
{
    let path = relative.push(entries[at].name@);
    let all = children(relative, entries, kind);
    if at == entries.len() - 1 {
        assert(all[all.len() - 1] == path);
    } else {
        lemma_entry_has_task(relative, entries.drop_last(), kind, at);
        let shorter = children(relative, entries.drop_last(), kind);
        let i = choose|i: int| 0 <= i < shorter.len() && shorter[i] == path;
        assert(all[i] == path);
    }
}

/// Every task stands for an entry of the wanted kind: no task is made up.
pub proof fn lemma_task_has_entry(
    relative: Seq<Seq<char>>,
    entries: Seq<Entry>,
    kind: EntryKind,
    which: int,
)
    requires
        0 <= which < children(relative, entries, kind).len(),
    ensures
        exists|at: int|
            0 <= at < entries.len() && has_kind(#[trigger] entries[at], kind) && children(
                relative,
                entries,
                kind,
            )[which] == relative.push(entries[at].name@),
    decreases entries.len(),
{
    let all = children(relative, entries, kind);
    if entries.len() > 0 {
        let shorter = children(relative, entries.drop_last(), kind);
        if which < shorter.len() {
            lemma_task_has_entry(relative, entries.drop_last(), kind, which);
            let at = choose|at: int|
                0 <= at < entries.drop_last().len() && has_kind(
                    #[trigger] entries.drop_last()[at],
                    kind,
                ) && shorter[which] == relative.push(entries.drop_last()[at].name@);
            assert(has_kind(entries[at], kind));
        } else {
            assert(has_kind(entries[entries.len() - 1], kind));
        }
    }
}

/// An entry whose kind could not be told leaves its failure among the
/// level's own, located at the entry; the entries beside it keep their tasks.
pub proof fn lemma_unreadable_entry_reported(source: Seq<char>, entries: Seq<Entry>, at: int)
    requires
        0 <= at < entries.len(),
        entries[at].kind is Err,
    ensures
        unreadable(source, entries).contains(
            ErrorView {
                location: join_spec(source, entries[at].name@),
                inner: InnerError::Io(entries[at].kind->Err_0),
            },
        ),
    decreases entries.len(),
{
    let failure = ErrorView {
        location: join_spec(source, entries[at].name@),
        inner: InnerError::Io(entries[at].kind->Err_0),
    };
    let all = unreadable(source, entries);
    if at == entries.len() - 1 {
        assert(all[all.len() - 1] == failure);
    } else {
        lemma_unreadable_entry_reported(source, entries.drop_last(), at);
        let shorter = unreadable(source, entries.drop_last());
        let i = choose|i: int| 0 <= i < shorter.len() && shorter[i] == failure;
        assert(all[i] == failure);
    }
}

/// Every entry is accounted for once: it has a task of one of the two
/// kinds, or it is passed over as neither, or it is among the unreadable.
pub proof fn lemma_every_entry_accounted(
    relative: Seq<Seq<char>>,
    source: Seq<char>,
    entries: Seq<Entry>,
)
    ensures
        children(relative, entries, EntryKind::Directory).len() + children(
            relative,
            entries,
            EntryKind::File,
        ).len() + children(relative, entries, EntryKind::Other).len() + unreadable(
            source,
            entries,
        ).len() == entries.len(),
    decreases entries.len(),
{
    if entries.len() > 0 {
        lemma_every_entry_accounted(relative, source, entries.drop_last());
    }
}

} // verus!
