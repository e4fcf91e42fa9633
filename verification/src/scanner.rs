//! The verified half of the workspace scan: recognising git-internal paths
//! and overlaying git statuses onto freshly walked files.
//!
//! The walk itself reads the filesystem and stays outside the library; it
//! hands over plain file attributes, from which `FileItem::new` builds the
//! entries that these functions finish.

use vstd::prelude::*;

use crate::git_status::GitStatusCache;
use crate::text::{seq_contains, str_contains};
use crate::types::{FileItem, FileItemView};

verus! {

/// Whether the path runs through a git internal directory.
pub fn is_git_file(path: &str) -> (r: bool)
    ensures
        r == seq_contains(path@, "/.git/"@),
{
    str_contains(path, "/.git/")
}

/// Whether a freshly created path should enter the index, from the three
/// verdicts about it: it must not be a git internal, must be a regular
/// file, and must not be ignored by the repository.
pub fn should_add_verdict(git_internal: bool, regular_file: bool, repo_ignored: bool) -> (r: bool)
    ensures
        r == (!git_internal && regular_file && !repo_ignored),
{
    !git_internal && regular_file && !repo_ignored
}

/// Whether a watcher event path concerns the index: it is already indexed,
/// or it belongs to a create event and passes the should-add test.
pub fn event_path_relevant(indexed: bool, is_create: bool, should_add: bool) -> (r: bool)
    ensures
        r == (indexed || (is_create && should_add)),
{
    indexed || (is_create && should_add)
}

/// Sets each file's git status to the cache's entry for its absolute path,
/// or to nothing when the cache holds none; no other attribute changes.
pub fn apply_git_overlay(files: &mut Vec<FileItem>, cache: &GitStatusCache)
    requires
        cache.wf(),
    ensures
        final(files).deep_view().len() == old(files).deep_view().len(),
        forall|i: int|
            0 <= i < old(files).deep_view().len() ==> #[trigger] final(files).deep_view()[i]
                == (FileItemView {
                git_status: final(files).deep_view()[i].git_status,
                ..old(files).deep_view()[i]
            }),
        forall|i: int|
            0 <= i < old(files).deep_view().len() && final(files).deep_view()[i].git_status
                is Some ==> exists|j: int|
                0 <= j < cache.entries().len() && #[trigger] cache.entries()[j] == (
                    old(files).deep_view()[i].path,
                    final(files).deep_view()[i].git_status->Some_0,
                ),
        forall|i: int|
            0 <= i < old(files).deep_view().len() && final(files).deep_view()[i].git_status
                is None ==> forall|j: int|
                0 <= j < cache.paths@.len() ==> #[trigger] cache.paths@[j]@ != old(
                    files,
                ).deep_view()[i].path,
    {
        let ghost odv = files.deep_view();
        let mut i: usize = 0;
        while i < files.len()
            invariant
                i <= odv.len(),
                files@.len() == odv.len(),
                cache.wf(),
                odv == old(files).deep_view(),
                forall|k: int|
                    i <= k < odv.len() ==> #[trigger] files.deep_view()[k] == odv[k],
                forall|k: int|
                    0 <= k < i ==> #[trigger] files.deep_view()[k] == (FileItemView {
                        git_status: files.deep_view()[k].git_status,
                        ..odv[k]
                    }),
                forall|k: int|
                    0 <= k < i && files.deep_view()[k].git_status is Some ==> exists|j: int|
                        0 <= j < cache.entries().len() && #[trigger] cache.entries()[j] == (
                            odv[k].path,
                            files.deep_view()[k].git_status->Some_0,
                        ),
                forall|k: int|
                    0 <= k < i && files.deep_view()[k].git_status is None ==> forall|j: int|
                        0 <= j < cache.paths@.len() ==> #[trigger] cache.paths@[j]@ != odv[
                            k
                        ].path,
            decreases odv.len() - i,
        {
            let st = cache.lookup_status(files[i].path.as_str());
            let ghost raw = files@;
            let ghost prev = files.deep_view();
            files[i].git_status = st;
            proof {
                assert(files@ =~= raw.update(i as int, files@[i as int]));
                assert(files.deep_view()[i as int] == (FileItemView {
                    git_status: st,
                    ..prev[i as int]
                }));
                assert(prev[i as int] == odv[i as int]);
                assert forall|k: int|
                    0 <= k < odv.len() && k != i implies #[trigger] files.deep_view()[k] == prev[
                    k
                ] by {
                    assert(files@[k] == raw[k]);
                }
            }
            i = i + 1;
        }
    }

} // verus!
