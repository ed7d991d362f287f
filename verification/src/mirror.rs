//! That a build mirrors the template tree: a model of a directory tree, of
//! what the builder's traversal writes for it, and the proof that the two
//! agree.

use crate::builder::target_spec;
use crate::walker::{
    children, has_kind, lemma_entry_has_task, lemma_task_has_entry, Entry, EntryKind,
};
use vstd::prelude::*;

verus! {

/// A directory tree as a traversal finds it.
pub enum Tree {
    /// A regular file.
    File,
    /// Something that is neither a file nor a directory.
    Other,
    /// A directory: its listing, and for every entry what lies below it.
    Directory { entries: Seq<Entry>, below: Seq<Tree> },
}

/// What kind of entry a tree is listed as.
pub open spec fn kind_of(tree: Tree) -> EntryKind {
    match tree {
        Tree::File => EntryKind::File,
        Tree::Other => EntryKind::Other,
        Tree::Directory { .. } => EntryKind::Directory,
    }
}

/// A tree is well formed when every listing tells the truth: it has one
/// entry for each thing in the directory, of that thing's kind.
pub open spec fn truthful(tree: Tree) -> bool
    decreases tree,
{
    match tree {
        Tree::Directory { entries, below } => {
            &&& entries.len() == below.len()
            &&& forall|i: int|
                0 <= i < below.len() ==> has_kind(#[trigger] entries[i], kind_of(below[i]))
                    && truthful(below[i])
        },
        _ => true,
    }
}

/// Whether the build tree is to hold `path` for the template tree `tree`
/// that lies at `relative`: a directory stands under its own path, a file
/// under its path with a template's suffix taken off the name, and what
/// is neither stands nowhere.
pub open spec fn mirrored(tree: Tree, relative: Seq<Seq<char>>, path: Seq<Seq<char>>) -> bool
    decreases tree,
{
    match tree {
        Tree::File => path == target_spec(relative),
        Tree::Other => false,
        Tree::Directory { entries, below } => {
            ||| path == relative
            ||| exists|i: int|
                0 <= i < below.len() && 0 <= i < entries.len() && mirrored(
                    below[i],
                    relative.push((#[trigger] entries[i]).name@),
                    path,
                )
        },
    }
}

/// Whether a build that meets no failure writes `path` when its traversal
/// handles `tree` at `relative`: it makes the directory, writes the
/// target of every file task of the level, and handles the directory of
/// every subdirectory task in the same way.
pub open spec fn written(tree: Tree, relative: Seq<Seq<char>>, path: Seq<Seq<char>>) -> bool
    decreases tree,
{
    match tree {
        Tree::File => path == target_spec(relative),
        Tree::Other => false,
        Tree::Directory { entries, below } => {
            let files = children(relative, entries, EntryKind::File);
            let dirs = children(relative, entries, EntryKind::Directory);
            ||| path == relative
            ||| exists|task: int| 0 <= task < files.len() && path == target_spec(#[trigger] files[task])
            ||| exists|task: int, i: int|
                0 <= task < dirs.len() && 0 <= i < below.len() && 0 <= i < entries.len()
                    && has_kind(entries[i], EntryKind::Directory) && #[trigger] dirs[task]
                    == relative.push((#[trigger] entries[i]).name@) && written(
                    below[i],
                    dirs[task],
                    path,
                )
        },
    }
}

/// A build that meets no failure leaves behind exactly the mirror of the
/// template tree: every directory under its own relative path, every file
/// under its relative path without the template suffix, and nothing else.
/// What is neither a file nor a directory has no counterpart.
pub proof fn lemma_build_mirrors_tree(tree: Tree, relative: Seq<Seq<char>>, path: Seq<Seq<char>>)
    requires
        truthful(tree),
    ensures
        written(tree, relative, path) == mirrored(tree, relative, path),
    decreases tree,
{
    match tree {
        Tree::Directory { entries, below } => {
            let files = children(relative, entries, EntryKind::File);
            let dirs = children(relative, entries, EntryKind::Directory);
            if written(tree, relative, path) && path != relative {
                if exists|task: int|
                    0 <= task < files.len() && path == target_spec(#[trigger] files[task]) {
                    let task = choose|task: int|
                        0 <= task < files.len() && path == target_spec(#[trigger] files[task]);
                    lemma_task_has_entry(relative, entries, EntryKind::File, task);
                    let i = choose|i: int|
                        0 <= i < entries.len() && has_kind(#[trigger] entries[i], EntryKind::File)
                            && files[task] == relative.push(entries[i].name@);
                    assert(kind_of(below[i]) == EntryKind::File);
                    assert(mirrored(below[i], relative.push(entries[i].name@), path));
                } else {
                    let (task, i) = choose|task: int, i: int|
                        0 <= task < dirs.len() && 0 <= i < below.len() && 0 <= i < entries.len()
                            && has_kind(entries[i], EntryKind::Directory) && #[trigger] dirs[task]
                            == relative.push((#[trigger] entries[i]).name@) && written(
                            below[i],
                            dirs[task],
                            path,
                        );
                    lemma_build_mirrors_tree(below[i], dirs[task], path);
                    assert(mirrored(below[i], relative.push(entries[i].name@), path));
                }
            }
            if mirrored(tree, relative, path) && path != relative {
                let i = choose|i: int|
                    0 <= i < below.len() && 0 <= i < entries.len() && mirrored(
                        below[i],
                        relative.push((#[trigger] entries[i]).name@),
                        path,
                    );
                let child = relative.push(entries[i].name@);
                assert(has_kind(entries[i], kind_of(below[i])));
                match below[i] {
                    Tree::File => {
                        lemma_entry_has_task(relative, entries, EntryKind::File, i);
                        let task = choose|task: int| 0 <= task < files.len() && files[task] == child;
                        assert(path == target_spec(files[task]));
                    },
                    Tree::Other => {},
                    Tree::Directory { .. } => {
                        lemma_entry_has_task(relative, entries, EntryKind::Directory, i);
                        let task = choose|task: int| 0 <= task < dirs.len() && dirs[task] == child;
                        lemma_build_mirrors_tree(below[i], child, path);
                        assert(dirs[task] == relative.push(entries[i].name@) && written(
                            below[i],
                            dirs[task],
                            path,
                        ));
                    },
                }
            }
        },
        _ => {},
    }
}

} // verus!
