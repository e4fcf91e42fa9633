//! The authoritative file index: a list of files strictly sorted by relative
//! path, mutated in place and published as immutable snapshots.
//!
//! Every mutation keeps the strict order (no two entries share a relative
//! path) and advances the scan generation, wrapping at the top of `u64`.

use vstd::prelude::*;

use crate::git_status::GitStatusCache;
use crate::seq_util::lemma_insert_to_multiset;
use crate::text::{
    lemma_seq_lt_asymmetric, lemma_seq_lt_connected, lemma_seq_lt_le_transitive,
    lemma_seq_lt_transitive, seq_le, seq_lt, str_cmp, str_lt,
};
use crate::types::{FileItem, FileItemView};

verus! {

/// Strictly ascending by relative path: sorted, and no duplicates.
pub open spec fn files_sorted(files: Seq<FileItemView>) -> bool {
    forall|i: int, j: int|
        0 <= i < j < files.len() ==> seq_lt(
            (#[trigger] files[i]).relative_path,
            (#[trigger] files[j]).relative_path,
        )
}

/// Some entry holds this relative path.
pub open spec fn contains_rel(files: Seq<FileItemView>, rel: Seq<char>) -> bool {
    exists|i: int| 0 <= i < files.len() && (#[trigger] files[i]).relative_path == rel
}

/// The generation after a mutation: one more, wrapping at the top.
pub open spec fn wrap_inc(g: u64) -> u64 {
    if g == u64::MAX {
        0
    } else {
        (g + 1) as u64
    }
}

/// A mutation always moves the generation: the successor of a generation,
/// even wrapping, differs from it.
pub proof fn lemma_wrap_inc_changes(g: u64)
    ensures
        wrap_inc(g) != g,
{
}

/// The generation after `t` further mutations, wrapping.
pub open spec fn wrap_add(g: u64, t: int) -> u64 {
    ((g + t) % 0x1_0000_0000_0000_0000) as u64
}

proof fn lemma_wrap_add_step(g: u64, t: int)
    requires
        t >= 0,
    ensures
        wrap_inc(wrap_add(g, t)) == wrap_add(g, t + 1),
{
    let m = 0x1_0000_0000_0000_0000int;
    let x = g + t;
    vstd::arithmetic::div_mod::lemma_fundamental_div_mod(x, m);
    let q = x / m;
    let r = x % m;
    if r + 1 < m {
        vstd::arithmetic::div_mod::lemma_fundamental_div_mod_converse(x + 1, m, q, r + 1);
    } else {
        vstd::arithmetic::div_mod::lemma_fundamental_div_mod_converse(x + 1, m, q + 1, 0);
    }
}

proof fn lemma_wrap_add_zero(g: u64)
    ensures
        wrap_add(g, 0) == g,
{
    let m = 0x1_0000_0000_0000_0000int;
    vstd::arithmetic::div_mod::lemma_fundamental_div_mod_converse(g as int, m, 0, g as int);
}

/// Fewer mutations than the generation space can hold never land back on
/// the start.
pub proof fn lemma_wrap_add_changes(g: u64, t: int)
    requires
        0 < t < 0x1_0000_0000_0000_0000,
    ensures
        wrap_add(g, t) != g,
{
    let m = 0x1_0000_0000_0000_0000int;
    let x = g + t;
    if g + t < m {
        vstd::arithmetic::div_mod::lemma_fundamental_div_mod_converse(x, m, 0, x);
    } else {
        vstd::arithmetic::div_mod::lemma_fundamental_div_mod_converse(x, m, 1, x - m);
    }
}

/// The authoritative mutable state: the sorted file list, the time of the
/// last bulk update, the git-status cache of the last scan, and the scan
/// generation.
pub struct FileSync {
    pub files: Vec<FileItem>,
    pub last_update: u64,
    pub git_status_cache: Option<GitStatusCache>,
    pub scan_generation: u64,
}

/// An immutable value-copy of the index, handed to searchers.
pub struct FileSnapshot {
    pub files: Vec<FileItem>,
    pub generation: u64,
}

impl FileSync {
    /// The index is well-formed: its files are strictly sorted by relative
    /// path.
    pub open spec fn wf(&self) -> bool {
        files_sorted(self.files.deep_view())
    }

    /// An empty index at generation zero.
    pub fn new() -> (r: FileSync)
        ensures
            r.wf(),
            r.files.deep_view().len() == 0,
            r.last_update == 0,
            r.git_status_cache is None,
            r.scan_generation == 0,
    {
        FileSync { files: Vec::new(), last_update: 0, git_status_cache: None, scan_generation: 0 }
    }

    /// Binary search for a relative path: the index holding it, or the
    /// position where it would be inserted.
    pub fn find_file_index(&self, path: &str) -> (r: Result<usize, usize>)
        requires
            self.wf(),
        ensures
            r is Ok ==> r->Ok_0 < self.files.deep_view().len()
                && self.files.deep_view()[r->Ok_0 as int].relative_path == path@,
            r is Err ==> {
                &&& r->Err_0 <= self.files.deep_view().len()
                &&& !contains_rel(self.files.deep_view(), path@)
                &&& forall|j: int|
                    0 <= j < r->Err_0 ==> seq_lt(
                        (#[trigger] self.files.deep_view()[j]).relative_path,
                        path@,
                    )
                &&& forall|j: int|
                    r->Err_0 <= j < self.files.deep_view().len() ==> seq_lt(
                        path@,
                        (#[trigger] self.files.deep_view()[j]).relative_path,
                    )
            },
    {
        let ghost dv = self.files.deep_view();
        let mut lo: usize = 0;
        let mut hi: usize = self.files.len();
        while lo < hi
            invariant
                self.wf(),
                dv == self.files.deep_view(),
                lo <= hi <= self.files@.len(),
                dv.len() == self.files@.len(),
                forall|i: int| 0 <= i < lo ==> seq_lt((#[trigger] dv[i]).relative_path, path@),
                forall|i: int|
                    hi <= i < dv.len() ==> seq_lt(path@, (#[trigger] dv[i]).relative_path),
            decreases hi - lo,
        {
            let mid = lo + (hi - lo) / 2;
            let c = str_cmp(self.files[mid].relative_path.as_str(), path);
            if c == 0 {
                return Ok(mid);
            } else if c < 0 {
                proof {
                    assert forall|i: int| 0 <= i < mid + 1 implies seq_lt(
                        (#[trigger] dv[i]).relative_path,
                        path@,
                    ) by {
                        if i < mid {
                            lemma_seq_lt_transitive(
                                dv[i].relative_path,
                                dv[mid as int].relative_path,
                                path@,
                            );
                        }
                    }
                }
                lo = mid + 1;
            } else {
                proof {
                    assert forall|i: int| mid <= i < dv.len() implies seq_lt(
                        path@,
                        (#[trigger] dv[i]).relative_path,
                    ) by {
                        if i > mid {
                            lemma_seq_lt_transitive(
                                path@,
                                dv[mid as int].relative_path,
                                dv[i].relative_path,
                            );
                        }
                    }
                }
                hi = mid;
            }
        }
        proof {
            assert forall|i: int| 0 <= i < dv.len() implies (#[trigger] dv[i]).relative_path
                != path@ by {
                if i < lo {
                    lemma_seq_lt_asymmetric(dv[i].relative_path, path@);
                } else {
                    lemma_seq_lt_asymmetric(path@, dv[i].relative_path);
                }
            }
        }
        Err(lo)
    }

    /// Whether the index holds a file under this relative path.
    pub fn contains_path(&self, path: &str) -> (r: bool)
        requires
            self.wf(),
        ensures
            r == contains_rel(self.files.deep_view(), path@),
    {
        match self.find_file_index(path) {
            Ok(i) => {
                proof {
                    assert(contains_rel(self.files.deep_view(), path@)) by {
                        assert(self.files.deep_view()[i as int].relative_path == path@);
                    }
                }
                true
            },
            Err(_) => false,
        }
    }

    /// Inserts a file at its sorted position; a file whose relative path is
    /// already present is left alone and nothing changes.
    pub fn insert_file_sorted(&mut self, file: FileItem)
        requires
            old(self).wf(),
        ensures
            final(self).wf(),
            final(self).last_update == old(self).last_update,
            final(self).git_status_cache == old(self).git_status_cache,
            contains_rel(old(self).files.deep_view(), file@.relative_path) ==> {
                &&& final(self).files.deep_view() == old(self).files.deep_view()
                &&& final(self).scan_generation == old(self).scan_generation
            },
            !contains_rel(old(self).files.deep_view(), file@.relative_path) ==> {
                &&& final(self).files.deep_view().to_multiset() == old(
                    self,
                ).files.deep_view().to_multiset().insert(file@)
                &&& final(self).files.deep_view().len() == old(self).files.deep_view().len() + 1
                &&& final(self).scan_generation == wrap_inc(old(self).scan_generation)
            },
    {
        let ghost dv = self.files.deep_view();
        match self.find_file_index(file.relative_path.as_str()) {
            Ok(_) => {
                // already indexed: nothing to do
            },
            Err(pos) => {
                self.files.insert(pos, file);
                self.scan_generation = bump_generation(self.scan_generation);
                proof {
                    let ndv = self.files.deep_view();
                    assert(ndv =~= dv.insert(pos as int, file@));
                    lemma_insert_to_multiset(dv, pos as int, file@);
                    assert forall|a: int, b: int| 0 <= a < b < ndv.len() implies seq_lt(
                        (#[trigger] ndv[a]).relative_path,
                        (#[trigger] ndv[b]).relative_path,
                    ) by {
                        if b < pos {
                        } else if b == pos {
                            assert(ndv[b] == file@ && ndv[a] == dv[a]);
                        } else {
                            assert(ndv[b] == dv[b - 1]);
                            if a < pos {
                                assert(ndv[a] == dv[a]);
                            } else if a == pos {
                                assert(ndv[a] == file@);
                            } else {
                                assert(ndv[a] == dv[a - 1]);
                            }
                        }
                    }
                }
            },
        }
    }

    /// Removes the file under this relative path, saying whether one was
    /// there; on removal the generation advances.
    pub fn remove_file_by_path(&mut self, path: &str) -> (r: bool)
        requires
            old(self).wf(),
        ensures
            final(self).wf(),
            final(self).last_update == old(self).last_update,
            final(self).git_status_cache == old(self).git_status_cache,
            r == contains_rel(old(self).files.deep_view(), path@),
            r ==> exists|i: int|
                {
                    &&& 0 <= i < old(self).files.deep_view().len()
                    &&& (#[trigger] old(self).files.deep_view()[i]).relative_path == path@
                    &&& final(self).files.deep_view() == old(self).files.deep_view().remove(i)
                },
            r ==> final(self).scan_generation == wrap_inc(old(self).scan_generation),
            !r ==> {
                &&& final(self).files.deep_view() == old(self).files.deep_view()
                &&& final(self).scan_generation == old(self).scan_generation
            },
    {
        let ghost dv = self.files.deep_view();
        match self.find_file_index(path) {
            Ok(index) => {
                self.files.remove(index);
                self.scan_generation = bump_generation(self.scan_generation);
                proof {
                    let ndv = self.files.deep_view();
                    assert(ndv =~= dv.remove(index as int));
                    assert(contains_rel(dv, path@)) by {
                        assert(dv[index as int].relative_path == path@);
                    }
                    assert forall|a: int, b: int| 0 <= a < b < ndv.len() implies seq_lt(
                        (#[trigger] ndv[a]).relative_path,
                        (#[trigger] ndv[b]).relative_path,
                    ) by {
                        let oa: int = if a < index {
                            a
                        } else {
                            a + 1
                        };
                        let ob: int = if b < index {
                            b
                        } else {
                            b + 1
                        };
                        assert(ndv[a] == dv[oa] && ndv[b] == dv[ob]);
                    }
                }
                true
            },
            Err(_) => false,
        }
    }

    /// Replaces the whole list with caller-sorted files, stores the new git
    /// cache and update time, and advances the generation.
    pub fn update_files(
        &mut self,
        files: Vec<FileItem>,
        git_status_cache: Option<GitStatusCache>,
        now: u64,
    )
        requires
            files_sorted(files.deep_view()),
        ensures
            final(self).wf(),
            final(self).files.deep_view() == files.deep_view(),
            final(self).git_status_cache == git_status_cache,
            final(self).last_update == now,
            final(self).scan_generation == wrap_inc(old(self).scan_generation),
    {
        self.files = files;
        self.git_status_cache = git_status_cache;
        self.last_update = now;
        self.scan_generation = bump_generation(self.scan_generation);
    }

    /// Stores, for each file in order, the access and modification scores
    /// read from the external frecency tracker, with their sum as the total;
    /// nothing else about any file changes.
    pub fn batch_update_frecency_scores(&mut self, scores: &Vec<(i64, i64)>)
        requires
            old(self).wf(),
            scores@.len() == old(self).files.deep_view().len(),
            forall|i: int|
                0 <= i < scores@.len() ==> i64::MIN <= (#[trigger] scores@[i]).0 + scores@[i].1
                    <= i64::MAX,
        ensures
            final(self).wf(),
            final(self).last_update == old(self).last_update,
            final(self).git_status_cache == old(self).git_status_cache,
            final(self).scan_generation == old(self).scan_generation,
            final(self).files.deep_view().len() == old(self).files.deep_view().len(),
            forall|i: int|
                0 <= i < scores@.len() ==> final(self).files.deep_view()[i] == (FileItemView {
                    access_frecency_score: scores@[i].0,
                    modification_frecency_score: scores@[i].1,
                    total_frecency_score: (scores@[i].0 + scores@[i].1) as i64,
                    ..old(self).files.deep_view()[i]
                }),
    {
        let ghost dv = self.files.deep_view();
        let mut i: usize = 0;
        while i < self.files.len()
            invariant
                scores@.len() == dv.len(),
                self.files@.len() == dv.len(),
                i <= dv.len(),
                forall|k: int|
                    0 <= k < scores@.len() ==> i64::MIN <= (#[trigger] scores@[k]).0
                        + scores@[k].1 <= i64::MAX,
                self.last_update == old(self).last_update,
                self.git_status_cache == old(self).git_status_cache,
                self.scan_generation == old(self).scan_generation,
                old(self).files.deep_view() == dv,
                forall|k: int|
                    i <= k < dv.len() ==> #[trigger] self.files.deep_view()[k] == dv[k],
                forall|k: int|
                    0 <= k < i ==> #[trigger] self.files.deep_view()[k] == (FileItemView {
                        access_frecency_score: scores@[k].0,
                        modification_frecency_score: scores@[k].1,
                        total_frecency_score: (scores@[k].0 + scores@[k].1) as i64,
                        ..dv[k]
                    }),
            decreases dv.len() - i,
        {
            let ghost before_raw = self.files@;
            let ghost before = self.files.deep_view();
            let (a, m) = (scores[i].0, scores[i].1);
            self.files[i].update_frecency_scores(a, m);
            proof {
                assert(self.files@ =~= before_raw.update(i as int, self.files@[i as int]));
                assert forall|k: int|
                    0 <= k < dv.len() && k != i implies #[trigger] self.files.deep_view()[k]
                    == before[k] by {
                    assert(self.files@[k] == before_raw[k]);
                }
                assert(self.files.deep_view()[i as int] == (FileItemView {
                    access_frecency_score: a,
                    modification_frecency_score: m,
                    total_frecency_score: (a + m) as i64,
                    ..before[i as int]
                }));
            }
            i = i + 1;
        }
        proof {
            assert forall|a: int, b: int|
                0 <= a < b < self.files.deep_view().len() implies seq_lt(
                (#[trigger] self.files.deep_view()[a]).relative_path,
                (#[trigger] self.files.deep_view()[b]).relative_path,
            ) by {
                assert(self.files.deep_view()[a].relative_path == dv[a].relative_path);
                assert(self.files.deep_view()[b].relative_path == dv[b].relative_path);
            }
        }
    }

    /// A value-copy of the current files with the current generation: the
    /// snapshot a searcher reads.
    pub fn create_search_snapshot(&self) -> (r: FileSnapshot)
        ensures
            r.files.deep_view() == self.files.deep_view(),
            r.generation == self.scan_generation,
    {
        FileSnapshot { files: clone_files(&self.files), generation: self.scan_generation }
    }
}


/// Ascending (not necessarily strict) by relative path.
pub open spec fn files_sorted_le(files: Seq<FileItemView>) -> bool {
    forall|i: int, j: int|
        0 <= i < j < files.len() ==> seq_le(
            (#[trigger] files[i]).relative_path,
            (#[trigger] files[j]).relative_path,
        )
}

/// Insertion sort of files by relative path.
fn sort_files_by_rel(files: Vec<FileItem>) -> (r: Vec<FileItem>)
    ensures
        files_sorted_le(r.deep_view()),
        r.deep_view().to_multiset() == files.deep_view().to_multiset(),
        r@.len() == files@.len(),
{
    let ghost orig_ms = files.deep_view().to_multiset();
    let mut v = files;
    if v.len() == 0 {
        return v;
    }
    let mut i: usize = 1;
    while i < v.len()
        invariant
            1 <= i <= v@.len(),
            v.deep_view().to_multiset() == orig_ms,
            v@.len() == files@.len(),
            forall|a: int, b: int|
                0 <= a < b < i ==> seq_le(
                    (#[trigger] v.deep_view()[a]).relative_path,
                    (#[trigger] v.deep_view()[b]).relative_path,
                ),
        decreases v@.len() - i,
    {
        let ghost w = v.deep_view();
        let x = v.remove(i);
        let ghost u = v.deep_view();
        proof {
            assert(u =~= w.remove(i as int));
            w.to_multiset_ensures();
            assert(w[i as int] == x@);
            assert(w.contains(x@));
        }
        let mut j: usize = 0;
        let mut searching = true;
        while searching
            invariant
                j <= i,
                i <= v@.len(),
                v.deep_view() == u,
                forall|k: int| 0 <= k < j ==> seq_lt((#[trigger] u[k]).relative_path, x@.relative_path),
                !searching ==> j == i || seq_le(x@.relative_path, u[j as int].relative_path),
            decreases i - j + (if searching {
                1int
            } else {
                0int
            }),
        {
            if j < i {
                if str_lt(v[j].relative_path.as_str(), x.relative_path.as_str()) {
                    j = j + 1;
                } else {
                    proof {
                        if !seq_lt(x@.relative_path, u[j as int].relative_path) {
                            lemma_seq_lt_connected(x@.relative_path, u[j as int].relative_path);
                        }
                    }
                    searching = false;
                }
            } else {
                searching = false;
            }
        }
        v.insert(j, x);
        proof {
            let n = v.deep_view();
            assert(n =~= u.insert(j as int, x@));
            lemma_insert_to_multiset(u, j as int, x@);
            assert(n.to_multiset() =~= w.to_multiset());
            assert forall|a: int, b: int| 0 <= a < b < i + 1 implies seq_le(
                (#[trigger] n[a]).relative_path,
                (#[trigger] n[b]).relative_path,
            ) by {
                if b < j {
                    assert(n[a] == w[a] && n[b] == w[b]);
                } else if b == j {
                    assert(n[b] == x@ && n[a] == w[a]);
                    assert(seq_lt(u[a].relative_path, x@.relative_path));
                } else {
                    assert(n[b] == u[b - 1]);
                    assert(u[b - 1] == w[b - 1]);
                    if a < j {
                        assert(n[a] == w[a]);
                        if a < b - 1 {
                        } else {
                            assert(a == b - 1 && j == b);
                            assert(false);
                        }
                    } else if a == j {
                        assert(n[a] == x@);
                        assert(j < i);
                        assert(seq_le(x@.relative_path, u[j as int].relative_path));
                        assert(u[j as int] == w[j as int]);
                        if b - 1 > j {
                            crate::text::lemma_seq_le_transitive(
                                x@.relative_path,
                                w[j as int].relative_path,
                                w[b - 1].relative_path,
                            );
                        }
                    } else {
                        assert(n[a] == u[a - 1] && u[a - 1] == w[a - 1]);
                    }
                }
            }
        }
        i = i + 1;
    }
    v
}

impl FileSync {
    /// Sorts scanner output by relative path and drops any later duplicate
    /// of a path, leaving exactly the strictly sorted list that
    /// `update_files` requires: every input path is represented, and every
    /// entry comes from the input.
    pub fn prepare_files_for_update(files: Vec<FileItem>) -> (r: Vec<FileItem>)
        ensures
            files_sorted(r.deep_view()),
            forall|i: int|
                0 <= i < r.deep_view().len() ==> files.deep_view().contains(
                    #[trigger] r.deep_view()[i],
                ),
            forall|j: int|
                0 <= j < files.deep_view().len() ==> contains_rel(
                    r.deep_view(),
                    (#[trigger] files.deep_view()[j]).relative_path,
                ),
    {
        let ghost in_dv = files.deep_view();
        let sorted = sort_files_by_rel(files);
        proof {
            sorted.deep_view().to_multiset_ensures();
            in_dv.to_multiset_ensures();
        }
        let mut out: Vec<FileItem> = Vec::new();
        let mut i: usize = 0;
        while i < sorted.len()
            invariant
                i <= sorted@.len(),
                sorted@.len() == sorted.deep_view().len(),
                files_sorted_le(sorted.deep_view()),
                sorted.deep_view().to_multiset() == in_dv.to_multiset(),
                files_sorted(out.deep_view()),
                forall|k: int|
                    0 <= k < out.deep_view().len() ==> sorted.deep_view().contains(
                        #[trigger] out.deep_view()[k],
                    ),
                forall|j: int|
                    0 <= j < i ==> contains_rel(
                        out.deep_view(),
                        (#[trigger] sorted.deep_view()[j]).relative_path,
                    ),
                out.deep_view().len() > 0 ==> exists|j: int|
                    0 <= j < i && #[trigger] sorted.deep_view()[j] == out.deep_view().last(),
            decreases sorted@.len() - i,
        {
            let ghost odv = out.deep_view();
            let ghost sdv = sorted.deep_view();
            let mut take = true;
            if out.len() > 0 {
                let last_idx = out.len() - 1;
                if str_cmp(
                    out[last_idx].relative_path.as_str(),
                    sorted[i].relative_path.as_str(),
                ) == 0 {
                    take = false;
                    proof {
                        assert(contains_rel(odv, sdv[i as int].relative_path)) by {
                            assert(odv[odv.len() - 1].relative_path == sdv[
                                i as int
                            ].relative_path);
                        }
                    }
                }
            }
            if take {
                let item = sorted[i].clone_item();
                out.push(item);
                proof {
                    assert(out.deep_view() =~= odv.push(sdv[i as int]));
                    let ndv = out.deep_view();
                    assert(sdv.contains(sdv[i as int]));
                    assert forall|a: int, b: int| 0 <= a < b < ndv.len() implies seq_lt(
                        (#[trigger] ndv[a]).relative_path,
                        (#[trigger] ndv[b]).relative_path,
                    ) by {
                        if b < ndv.len() - 1 {
                            assert(ndv[a] == odv[a] && ndv[b] == odv[b]);
                        } else {
                            assert(ndv[b] == sdv[i as int]);
                            if odv.len() > 0 {
                                let j0 = choose|j: int|
                                    0 <= j < i && #[trigger] sdv[j] == odv.last();
                                assert(seq_le(sdv[j0].relative_path, sdv[i as int].relative_path));
                                assert(odv.last().relative_path != sdv[i as int].relative_path);
                                if a < odv.len() - 1 {
                                    assert(seq_lt(
                                        odv[a].relative_path,
                                        odv.last().relative_path,
                                    ));
                                    lemma_seq_lt_le_transitive(
                                        odv[a].relative_path,
                                        odv.last().relative_path,
                                        sdv[i as int].relative_path,
                                    );
                                    assert(ndv[a] == odv[a]);
                                } else {
                                    assert(ndv[a] == odv.last());
                                }
                            }
                        }
                    }
                    assert(contains_rel(ndv, sdv[i as int].relative_path)) by {
                        assert(ndv[ndv.len() - 1].relative_path == sdv[i as int].relative_path);
                    }
                    assert forall|j: int| 0 <= j < i + 1 implies contains_rel(
                        ndv,
                        (#[trigger] sdv[j]).relative_path,
                    ) by {
                        if j < i {
                            assert(contains_rel(odv, sdv[j].relative_path));
                            let w = choose|k: int|
                                0 <= k < odv.len() && (#[trigger] odv[k]).relative_path == sdv[
                                    j
                                ].relative_path;
                            assert(ndv[w].relative_path == sdv[j].relative_path);
                        }
                    }
                }
            } else {
                proof {
                    assert forall|j: int| 0 <= j < i + 1 implies contains_rel(
                        odv,
                        (#[trigger] sdv[j]).relative_path,
                    ) by {}
                }
            }
            i = i + 1;
        }
        proof {
            let rdv = out.deep_view();
            let sdv = sorted.deep_view();
            assert forall|k: int| 0 <= k < rdv.len() implies in_dv.contains(
                #[trigger] rdv[k],
            ) by {
                assert(sdv.contains(rdv[k]));
                assert(sdv.to_multiset().count(rdv[k]) > 0);
                assert(in_dv.to_multiset().count(rdv[k]) > 0);
            }
            assert forall|j: int| 0 <= j < in_dv.len() implies contains_rel(
                rdv,
                (#[trigger] in_dv[j]).relative_path,
            ) by {
                assert(in_dv.contains(in_dv[j]));
                assert(in_dv.to_multiset().count(in_dv[j]) > 0);
                assert(sdv.to_multiset().count(in_dv[j]) > 0);
                assert(sdv.contains(in_dv[j]));
                let w = choose|k: int| 0 <= k < sdv.len() && #[trigger] sdv[k] == in_dv[j];
                assert(contains_rel(rdv, sdv[w].relative_path));
            }
        }
        out
    }
}


/// Some element of `rels` is this path.
pub open spec fn rels_contain(rels: Seq<Seq<char>>, rel: Seq<char>) -> bool {
    exists|k: int| 0 <= k < rels.len() && rels[k] == rel
}

/// In a strictly sorted list no two entries share a relative path.
pub proof fn lemma_sorted_rels_unique(files: Seq<FileItemView>)
    requires
        files_sorted(files),
    ensures
        forall|i: int, j: int|
            0 <= i < files.len() && 0 <= j < files.len() && i != j ==> (
            #[trigger] files[i]).relative_path != (#[trigger] files[j]).relative_path,
{
    assert forall|i: int, j: int|
        0 <= i < files.len() && 0 <= j < files.len() && i != j implies (
    #[trigger] files[i]).relative_path != (#[trigger] files[j]).relative_path by {
        if i < j {
            lemma_seq_lt_asymmetric(files[i].relative_path, files[j].relative_path);
        } else {
            lemma_seq_lt_asymmetric(files[j].relative_path, files[i].relative_path);
        }
    }
}

/// The status assigned to `rel` by the last matching update, if any.
pub open spec fn last_status_for(rel: Seq<char>, updates: Seq<(Seq<char>, u32)>) -> Option<u32>
    decreases updates.len(),
{
    if updates.len() == 0 {
        None
    } else if updates.last().0 == rel {
        Some(updates.last().1)
    } else {
        last_status_for(rel, updates.drop_last())
    }
}

impl FileSync {
    /// Removes every file whose relative path is listed; what remains is
    /// exactly the files whose paths were not listed.  The generation
    /// advances once per removal, so any removal moves it and none leaves
    /// it alone.
    pub fn remove_paths_from_index(&mut self, rel_paths: &Vec<String>)
        requires
            old(self).wf(),
        ensures
            final(self).wf(),
            final(self).last_update == old(self).last_update,
            final(self).git_status_cache == old(self).git_status_cache,
            forall|i: int|
                0 <= i < final(self).files.deep_view().len() ==> old(
                    self,
                ).files.deep_view().contains(#[trigger] final(self).files.deep_view()[i]),
            forall|i: int|
                0 <= i < final(self).files.deep_view().len() ==> !rels_contain(
                    rel_paths.deep_view(),
                    (#[trigger] final(self).files.deep_view()[i]).relative_path,
                ),
            forall|j: int|
                0 <= j < old(self).files.deep_view().len() && !rels_contain(
                    rel_paths.deep_view(),
                    (#[trigger] old(self).files.deep_view()[j]).relative_path,
                ) ==> final(self).files.deep_view().contains(old(self).files.deep_view()[j]),
            final(self).files.deep_view().len() == old(self).files.deep_view().len()
                ==> final(self).scan_generation == old(self).scan_generation,
            final(self).scan_generation == wrap_add(
                old(self).scan_generation,
                old(self).files.deep_view().len() - final(self).files.deep_view().len(),
            ),
            final(self).files.deep_view().len() < old(self).files.deep_view().len()
                ==> final(self).scan_generation != old(self).scan_generation,
    {
        let ghost odv = old(self).files.deep_view();
        let ghost rels = rel_paths.deep_view();
        proof {
            lemma_wrap_add_zero(self.scan_generation);
        }
        let mut t: usize = 0;
        while t < rel_paths.len()
            invariant
                t <= rel_paths@.len(),
                rels == rel_paths.deep_view(),
                rels.len() == rel_paths@.len(),
                self.wf(),
                self.last_update == old(self).last_update,
                self.git_status_cache == old(self).git_status_cache,
                odv == old(self).files.deep_view(),
                forall|i: int|
                    0 <= i < self.files.deep_view().len() ==> odv.contains(
                        #[trigger] self.files.deep_view()[i],
                    ),
                forall|i: int|
                    0 <= i < self.files.deep_view().len() ==> !rels_contain(
                        rels.take(t as int),
                        (#[trigger] self.files.deep_view()[i]).relative_path,
                    ),
                forall|j: int|
                    0 <= j < odv.len() && !rels_contain(
                        rels.take(t as int),
                        (#[trigger] odv[j]).relative_path,
                    ) ==> self.files.deep_view().contains(odv[j]),
                self.files.deep_view().len() <= odv.len(),
                self.files.deep_view().len() == odv.len() ==> (self.scan_generation == old(
                    self,
                ).scan_generation && self.files.deep_view() == odv),
                self.scan_generation == wrap_add(
                    old(self).scan_generation,
                    odv.len() - self.files.deep_view().len(),
                ),
            decreases rel_paths@.len() - t,
        {
            let ghost cur = self.files.deep_view();
            let p = &rel_paths[t];
            let removed = self.remove_file_by_path(p.as_str());
            proof {
                if removed {
                    lemma_wrap_add_step(
                        old(self).scan_generation,
                        odv.len() - cur.len(),
                    );
                }
                let ndv = self.files.deep_view();
                assert(rels.take(t + 1).drop_last() =~= rels.take(t as int));
                assert(rels.take(t + 1).last() == rels[t as int]);
                assert(rels[t as int] == p@);
                if removed {
                    let ri = choose|ri: int|
                        {
                            &&& 0 <= ri < cur.len()
                            &&& (#[trigger] cur[ri]).relative_path == p@
                            &&& ndv == cur.remove(ri)
                        };
                    lemma_sorted_rels_unique(cur);
                    assert forall|i: int|
                        0 <= i < ndv.len() implies odv.contains(#[trigger] ndv[i]) by {
                        let oi: int = if i < ri {
                            i
                        } else {
                            i + 1
                        };
                        assert(ndv[i] == cur[oi]);
                    }
                    assert forall|i: int| 0 <= i < ndv.len() implies !rels_contain(
                        rels.take(t + 1),
                        (#[trigger] ndv[i]).relative_path,
                    ) by {
                        let oi: int = if i < ri {
                            i
                        } else {
                            i + 1
                        };
                        assert(ndv[i] == cur[oi]);
                        assert(!rels_contain(rels.take(t as int), cur[oi].relative_path));
                        assert(cur[oi].relative_path != p@);
                        if rels_contain(rels.take(t + 1), ndv[i].relative_path) {
                            let k = choose|k: int|
                                0 <= k < rels.take(t + 1).len() && #[trigger] rels.take(t + 1)[k]
                                    == ndv[i].relative_path;
                            if k < t {
                                assert(rels.take(t as int)[k] == ndv[i].relative_path);
                            }
                        }
                    }
                    assert forall|j: int|
                        0 <= j < odv.len() && !rels_contain(
                            rels.take(t + 1),
                            (#[trigger] odv[j]).relative_path,
                        ) implies ndv.contains(odv[j]) by {
                        assert forall|k: int| 0 <= k < t implies rels.take(t as int)[k] != odv[
                            j
                        ].relative_path by {
                            if rels.take(t as int)[k] == odv[j].relative_path {
                                assert(rels.take(t + 1)[k] == odv[j].relative_path);
                            }
                        }
                        assert(!rels_contain(rels.take(t as int), odv[j].relative_path));
                        assert(cur.contains(odv[j]));
                        let ci = choose|ci: int|
                            0 <= ci < cur.len() && #[trigger] cur[ci] == odv[j];
                        assert(odv[j].relative_path != p@) by {
                            assert(rels.take(t + 1)[t as int] == p@);
                        }
                        assert(ci != ri);
                        let ni: int = if ci < ri {
                            ci
                        } else {
                            ci - 1
                        };
                        assert(ndv[ni] == cur[ci]);
                    }
                    assert(ndv.len() < cur.len());
                } else {
                    assert(ndv == cur);
                    assert forall|i: int| 0 <= i < ndv.len() implies !rels_contain(
                        rels.take(t + 1),
                        (#[trigger] ndv[i]).relative_path,
                    ) by {
                        assert(!contains_rel(cur, p@));
                        assert(ndv[i].relative_path != p@);
                        if rels_contain(rels.take(t + 1), ndv[i].relative_path) {
                            let k = choose|k: int|
                                0 <= k < rels.take(t + 1).len() && #[trigger] rels.take(t + 1)[k]
                                    == ndv[i].relative_path;
                            if k < t {
                                assert(rels.take(t as int)[k] == ndv[i].relative_path);
                            }
                        }
                    }
                    assert forall|j: int|
                        0 <= j < odv.len() && !rels_contain(
                            rels.take(t + 1),
                            (#[trigger] odv[j]).relative_path,
                        ) implies ndv.contains(odv[j]) by {
                        assert forall|k: int| 0 <= k < t implies rels.take(t as int)[k] != odv[
                            j
                        ].relative_path by {
                            if rels.take(t as int)[k] == odv[j].relative_path {
                                assert(rels.take(t + 1)[k] == odv[j].relative_path);
                            }
                        }
                        assert(!rels_contain(rels.take(t as int), odv[j].relative_path));
                    }
                }
            }
            t = t + 1;
        }
        proof {
            assert(rels.take(rels.len() as int) =~= rels);
            if self.files.deep_view().len() < odv.len() {
                assert(odv.len() <= usize::MAX) by {
                    assert(vstd::std_specs::vec::spec_vec_len(&old(self).files) == old(
                        self,
                    ).files@.len());
                }
                lemma_wrap_add_changes(
                    old(self).scan_generation,
                    odv.len() - self.files.deep_view().len(),
                );
            }
        }
    }
}


impl FileSync {
    /// Overwrites the git status of each file named by an update, later
    /// updates winning, and advances the generation; no other attribute of
    /// any file changes.
    pub fn apply_status_updates(&mut self, updates: &Vec<(String, u32)>)
        requires
            old(self).wf(),
        ensures
            final(self).wf(),
            final(self).last_update == old(self).last_update,
            final(self).git_status_cache == old(self).git_status_cache,
            final(self).scan_generation == wrap_inc(old(self).scan_generation),
            final(self).files.deep_view().len() == old(self).files.deep_view().len(),
            forall|i: int|
                0 <= i < old(self).files.deep_view().len()
                    ==> #[trigger] final(self).files.deep_view()[i] == (FileItemView {
                    git_status: match last_status_for(
                        old(self).files.deep_view()[i].relative_path,
                        crate::git_status::pair_views(updates@),
                    ) {
                        Some(b) => Some(b),
                        None => old(self).files.deep_view()[i].git_status,
                    },
                    ..old(self).files.deep_view()[i]
                }),
    {
        let ghost odv = old(self).files.deep_view();
        let ghost pv = crate::git_status::pair_views(updates@);
        let mut t: usize = 0;
        while t < updates.len()
            invariant
                t <= updates@.len(),
                pv == crate::git_status::pair_views(updates@),
                pv.len() == updates@.len(),
                self.wf(),
                self.last_update == old(self).last_update,
                self.git_status_cache == old(self).git_status_cache,
                self.scan_generation == old(self).scan_generation,
                odv == old(self).files.deep_view(),
                files_sorted(odv),
                self.files.deep_view().len() == odv.len(),
                forall|i: int|
                    0 <= i < odv.len() ==> #[trigger] self.files.deep_view()[i]
                        == (FileItemView {
                        git_status: match last_status_for(
                            odv[i].relative_path,
                            pv.take(t as int),
                        ) {
                            Some(b) => Some(b),
                            None => odv[i].git_status,
                        },
                        ..odv[i]
                    }),
            decreases updates@.len() - t,
        {
            let ghost cur = self.files.deep_view();
            proof {
                assert(pv.take(t + 1).drop_last() =~= pv.take(t as int));
                assert(pv.take(t + 1).last() == pv[t as int]);
            }
            let bits = updates[t].1;
            match self.find_file_index(updates[t].0.as_str()) {
                Ok(idx) => {
                    let ghost raw = self.files@;
                    self.files[idx].git_status = Some(bits);
                    proof {
                        assert(self.files@ =~= raw.update(idx as int, self.files@[idx as int]));
                        let ndv = self.files.deep_view();
                        assert(ndv[idx as int] == (FileItemView {
                            git_status: Some(bits),
                            ..cur[idx as int]
                        }));
                        assert forall|i: int| 0 <= i < odv.len() && i != idx implies
                            #[trigger] ndv[i] == cur[i] by {
                            assert(self.files@[i] == raw[i]);
                        }
                        assert forall|a: int, b: int| 0 <= a < b < ndv.len() implies seq_lt(
                            (#[trigger] ndv[a]).relative_path,
                            (#[trigger] ndv[b]).relative_path,
                        ) by {
                            assert(ndv[a].relative_path == odv[a].relative_path);
                            assert(ndv[b].relative_path == odv[b].relative_path);
                        }
                        lemma_sorted_rels_unique(odv);
                        assert(cur[idx as int].relative_path == odv[idx as int].relative_path);
                        assert(odv[idx as int].relative_path == pv[t as int].0);
                        assert forall|i: int| 0 <= i < odv.len() implies #[trigger] ndv[i]
                            == (FileItemView {
                            git_status: match last_status_for(
                                odv[i].relative_path,
                                pv.take(t + 1),
                            ) {
                                Some(b) => Some(b),
                                None => odv[i].git_status,
                            },
                            ..odv[i]
                        }) by {
                            if i == idx {
                                assert(last_status_for(odv[i].relative_path, pv.take(t + 1))
                                    == Some(pv[t as int].1));
                            } else {
                                assert(odv[i].relative_path != odv[idx as int].relative_path);
                                assert(last_status_for(odv[i].relative_path, pv.take(t + 1))
                                    == last_status_for(odv[i].relative_path, pv.take(t as int)));
                            }
                        }
                    }
                },
                Err(_) => {
                    proof {
                        let ndv = self.files.deep_view();
                        assert forall|i: int| 0 <= i < odv.len() implies #[trigger] ndv[i]
                            == (FileItemView {
                            git_status: match last_status_for(
                                odv[i].relative_path,
                                pv.take(t + 1),
                            ) {
                                Some(b) => Some(b),
                                None => odv[i].git_status,
                            },
                            ..odv[i]
                        }) by {
                            assert(!contains_rel(ndv, pv[t as int].0));
                            assert(ndv[i].relative_path != pv[t as int].0);
                            assert(odv[i].relative_path == ndv[i].relative_path);
                            assert(last_status_for(odv[i].relative_path, pv.take(t + 1))
                                == last_status_for(odv[i].relative_path, pv.take(t as int)));
                        }
                    }
                },
            }
            t = t + 1;
        }
        self.scan_generation = bump_generation(self.scan_generation);
        proof {
            assert(pv.take(pv.len() as int) =~= pv);
        }
    }

    /// Inserts the freshly created files, skipping any the repository at
    /// `git_workdir` ignores; files already present are left alone.  No file
    /// is lost, anything new comes from the given items, and without a
    /// repository every item's relative path is indexed afterwards.
    pub fn handle_create_events(&mut self, items: Vec<FileItem>, git_workdir: Option<&str>)
        requires
            old(self).wf(),
        ensures
            final(self).wf(),
            final(self).last_update == old(self).last_update,
            final(self).git_status_cache == old(self).git_status_cache,
            final(self).files.deep_view().len() >= old(self).files.deep_view().len(),
            forall|x: FileItemView|
                #[trigger] final(self).files.deep_view().to_multiset().count(x) >= old(
                    self,
                ).files.deep_view().to_multiset().count(x),
            forall|x: FileItemView|
                #[trigger] final(self).files.deep_view().to_multiset().count(x) > old(
                    self,
                ).files.deep_view().to_multiset().count(x) ==> items.deep_view().contains(x),
            (git_workdir is None) ==> forall|k: int|
                0 <= k < items.deep_view().len() ==> contains_rel(
                    final(self).files.deep_view(),
                    (#[trigger] items.deep_view()[k]).relative_path,
                ),
    {
        broadcast use vstd::multiset::group_multiset_axioms;

        let ghost odv = old(self).files.deep_view();
        let mut i: usize = 0;
        while i < items.len()
            invariant
                i <= items@.len(),
                self.wf(),
                self.last_update == old(self).last_update,
                self.git_status_cache == old(self).git_status_cache,
                self.files.deep_view().len() >= odv.len(),
                odv == old(self).files.deep_view(),
                forall|x: FileItemView|
                    #[trigger] self.files.deep_view().to_multiset().count(x)
                        >= odv.to_multiset().count(x),
                forall|x: FileItemView|
                    #[trigger] self.files.deep_view().to_multiset().count(x)
                        > odv.to_multiset().count(x) ==> items.deep_view().contains(x),
                (git_workdir is None) ==> forall|k: int|
                    0 <= k < i ==> contains_rel(
                        self.files.deep_view(),
                        (#[trigger] items.deep_view()[k]).relative_path,
                    ),
            decreases items@.len() - i,
        {
            let item = items[i].clone_item();
            let skip = match git_workdir {
                Some(workdir) => crate::git_status::path_ignored(workdir, item.path.as_str()),
                None => false,
            };
            if !skip {
                let ghost cur = self.files.deep_view();
                proof {
                    assert(items.deep_view().contains(item@)) by {
                        assert(items.deep_view()[i as int] == item@);
                    }
                }
                self.insert_file_sorted(item);
                proof {
                    let ndv = self.files.deep_view();
                    cur.to_multiset_ensures();
                    ndv.to_multiset_ensures();
                    assert forall|k: int|
                        0 <= k < cur.len() implies ndv.contains(#[trigger] cur[k]) by {
                        assert(cur.contains(cur[k]));
                        assert(cur.to_multiset().count(cur[k]) > 0);
                        assert(ndv.to_multiset().count(cur[k]) > 0);
                    }
                    if !contains_rel(cur, item@.relative_path) {
                        assert(ndv.to_multiset().count(item@) > 0);
                        assert(ndv.contains(item@));
                    }
                    assert(contains_rel(ndv, items.deep_view()[i as int].relative_path)) by {
                        if contains_rel(cur, item@.relative_path) {
                            assert(ndv == cur);
                        } else {
                            let w = choose|w: int| 0 <= w < ndv.len() && ndv[w] == item@;
                            assert(ndv[w].relative_path == item@.relative_path);
                        }
                    }
                    if git_workdir is None {
                        assert forall|k: int| 0 <= k < i implies contains_rel(
                            ndv,
                            (#[trigger] items.deep_view()[k]).relative_path,
                        ) by {
                            assert(contains_rel(cur, items.deep_view()[k].relative_path));
                            let w = choose|w: int|
                                0 <= w < cur.len() && (#[trigger] cur[w]).relative_path
                                    == items.deep_view()[k].relative_path;
                            assert(ndv.contains(cur[w]));
                            let w2 = choose|w2: int| 0 <= w2 < ndv.len() && ndv[w2] == cur[w];
                            assert(ndv[w2].relative_path == items.deep_view()[k].relative_path);
                        }
                    }
                }
            }
            i = i + 1;
        }
    }

    /// Refreshes the git status of the files named by the given relative
    /// paths from the repository at `git_workdir`, through a pathspec-
    /// narrowed status query; whatever the repository reports, nothing but
    /// the files' git status changes, and any change advances the
    /// generation.  Without a workdir nothing happens at all.
    pub fn update_git_status_for_paths(
        &mut self,
        git_workdir: Option<&str>,
        rel_paths: &Vec<String>,
    )
        requires
            old(self).wf(),
            forall|i: int|
                0 <= i < rel_paths@.len() ==> crate::text::no_nul(#[trigger] rel_paths@[i]@),
        ensures
            final(self).wf(),
            final(self).last_update == old(self).last_update,
            final(self).git_status_cache == old(self).git_status_cache,
            final(self).files.deep_view().len() == old(self).files.deep_view().len(),
            forall|i: int|
                0 <= i < old(self).files.deep_view().len()
                    ==> #[trigger] final(self).files.deep_view()[i] == (FileItemView {
                    git_status: final(self).files.deep_view()[i].git_status,
                    ..old(self).files.deep_view()[i]
                }),
            (git_workdir is None) ==> {
                &&& final(self).files.deep_view() == old(self).files.deep_view()
                &&& final(self).scan_generation == old(self).scan_generation
            },
            final(self).files.deep_view() != old(self).files.deep_view() ==> {
                final(self).scan_generation == wrap_inc(old(self).scan_generation)
            },
            final(self).scan_generation == old(self).scan_generation || final(self).scan_generation
                == wrap_inc(old(self).scan_generation),
    {
        match git_workdir {
            None => {},
            Some(workdir) => {
                match crate::git_status::git_status_entries_for_paths(workdir, rel_paths) {
                    None => {},
                    Some(updates) => {
                        self.apply_status_updates(&updates);
                    },
                }
            },
        }
    }
}

/// One more than the generation, wrapping at the top of `u64`.
fn bump_generation(g: u64) -> (r: u64)
    ensures
        r == wrap_inc(g),
{
    if g == u64::MAX {
        0
    } else {
        g + 1
    }
}

/// A value-copy of a file list.
pub fn clone_files(files: &Vec<FileItem>) -> (r: Vec<FileItem>)
    ensures
        r.deep_view() == files.deep_view(),
{
    let mut r: Vec<FileItem> = Vec::new();
    let mut i: usize = 0;
    while i < files.len()
        invariant
            i <= files@.len(),
            r@.len() == i,
            forall|k: int| 0 <= k < i ==> #[trigger] r.deep_view()[k] == files.deep_view()[k],
        decreases files@.len() - i,
    {
        let ghost prev = r.deep_view();
        r.push(files[i].clone_item());
        proof {
            assert(r.deep_view() =~= prev.push(files.deep_view()[i as int]));
        }
        i = i + 1;
    }
    proof {
        assert(r.deep_view() =~= files.deep_view());
    }
    r
}

} // verus!
