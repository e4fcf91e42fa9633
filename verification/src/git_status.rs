//! Git working-tree status: the status bits, their symbolic names, and a
//! binary-searchable cache of absolute path to status.
//!
//! Status values are the bit flags of libgit2's `git_status_t`, carried as a
//! plain `u32`.

use vstd::prelude::*;

use crate::seq_util::lemma_insert_to_multiset;
use crate::text::{
    lemma_seq_le_lt_transitive, lemma_seq_le_transitive, lemma_seq_lt_connected,
    lemma_seq_lt_le_transitive, seq_le, seq_lt, str_cmp, str_lt,
};

verus! {

pub const STATUS_CURRENT: u32 = 0;

pub const STATUS_INDEX_NEW: u32 = 1;

pub const STATUS_INDEX_MODIFIED: u32 = 2;

pub const STATUS_INDEX_DELETED: u32 = 4;

pub const STATUS_WT_NEW: u32 = 128;

pub const STATUS_WT_MODIFIED: u32 = 256;

pub const STATUS_WT_DELETED: u32 = 512;

pub const STATUS_WT_RENAMED: u32 = 2048;

pub const STATUS_IGNORED: u32 = 16384;

/// Status bits that count as "modified" for scoring purposes: changed or
/// new in the working tree or the index, or renamed in the working tree.
pub open spec fn is_modified_bits(s: u32) -> bool {
    s & (STATUS_WT_MODIFIED | STATUS_INDEX_MODIFIED | STATUS_WT_NEW | STATUS_INDEX_NEW
        | STATUS_WT_RENAMED) != 0
}

/// Whether the status marks the file as modified, new or renamed.
pub fn is_modified_status(status: u32) -> (r: bool)
    ensures
        r == is_modified_bits(status),
{
    status & (STATUS_WT_MODIFIED | STATUS_INDEX_MODIFIED | STATUS_WT_NEW | STATUS_INDEX_NEW
        | STATUS_WT_RENAMED) != 0
}

/// The symbolic name of a status: working-tree states take precedence over
/// index states, then ignored, then clean.
pub open spec fn git_status_label(status: Option<u32>) -> Seq<char> {
    match status {
        None => "clear"@,
        Some(s) => {
            if s & STATUS_WT_NEW != 0 {
                "untracked"@
            } else if s & STATUS_WT_MODIFIED != 0 {
                "modified"@
            } else if s & STATUS_WT_DELETED != 0 {
                "deleted"@
            } else if s & STATUS_WT_RENAMED != 0 {
                "renamed"@
            } else if s & STATUS_INDEX_NEW != 0 {
                "staged_new"@
            } else if s & STATUS_INDEX_MODIFIED != 0 {
                "staged_modified"@
            } else if s & STATUS_INDEX_DELETED != 0 {
                "staged_deleted"@
            } else if s & STATUS_IGNORED != 0 {
                "ignored"@
            } else if s & STATUS_CURRENT == STATUS_CURRENT || s == 0 {
                "clean"@
            } else {
                "unknown"@
            }
        },
    }
}

/// The symbolic status strings the picker can report.
pub open spec fn is_status_symbol(s: Seq<char>) -> bool {
    ||| s == "clear"@
    ||| s == "untracked"@
    ||| s == "modified"@
    ||| s == "deleted"@
    ||| s == "renamed"@
    ||| s == "staged_new"@
    ||| s == "staged_modified"@
    ||| s == "staged_deleted"@
    ||| s == "ignored"@
    ||| s == "clean"@
    ||| s == "unknown"@
}

/// Every status formats to one of the enumerated symbolic strings.
pub proof fn lemma_format_git_status_symbol(status: Option<u32>)
    ensures
        is_status_symbol(git_status_label(status)),
{
}

/// Formats a status as its symbolic name; `None` means the file is not in a
/// repository and formats as `clear`.
pub fn format_git_status(status: Option<u32>) -> (r: &'static str)
    ensures
        r@ == git_status_label(status),
{
    match status {
        None => "clear",
        Some(s) => {
            if s & STATUS_WT_NEW != 0 {
                "untracked"
            } else if s & STATUS_WT_MODIFIED != 0 {
                "modified"
            } else if s & STATUS_WT_DELETED != 0 {
                "deleted"
            } else if s & STATUS_WT_RENAMED != 0 {
                "renamed"
            } else if s & STATUS_INDEX_NEW != 0 {
                "staged_new"
            } else if s & STATUS_INDEX_MODIFIED != 0 {
                "staged_modified"
            } else if s & STATUS_INDEX_DELETED != 0 {
                "staged_deleted"
            } else if s & STATUS_IGNORED != 0 {
                "ignored"
            } else if s & STATUS_CURRENT == STATUS_CURRENT || s == 0 {
                "clean"
            } else {
                "unknown"
            }
        },
    }
}

/// A snapshot of the repository's statuses: two columns sorted by path and
/// searched by binary search.
pub struct GitStatusCache {
    pub paths: Vec<String>,
    pub statuses: Vec<u32>,
}

impl GitStatusCache {
    /// The cache's entries as path-and-bits pairs, in column order.
    pub open spec fn entries(&self) -> Seq<(Seq<char>, u32)> {
        Seq::new(
            self.paths@.len() as nat,
            |i: int|
                (
                    self.paths@[i]@,
                    if i < self.statuses@.len() {
                        self.statuses@[i]
                    } else {
                        0
                    },
                ),
        )
    }

    /// Well-formed: one status per path, and paths in ascending order.
    pub open spec fn wf(&self) -> bool {
        &&& self.paths@.len() == self.statuses@.len()
        &&& forall|i: int, j: int|
            0 <= i < j < self.paths@.len() ==> seq_le(
                #[trigger] self.paths@[i]@,
                #[trigger] self.paths@[j]@,
            )
    }

    /// Builds the cache from repository entries, sorting them by path.
    pub fn from_git_entries(entries: Vec<(String, u32)>) -> (r: GitStatusCache)
        ensures
            r.wf(),
            r.entries().to_multiset() == pair_views(entries@).to_multiset(),
    {
        let sorted = sort_entries_by_path(entries);
        let mut paths: Vec<String> = Vec::new();
        let mut statuses: Vec<u32> = Vec::new();
        let mut i: usize = 0;
        while i < sorted.len()
            invariant
                i <= sorted@.len(),
                paths@.len() == i,
                statuses@.len() == i,
                forall|k: int| 0 <= k < i ==> paths@[k] == sorted@[k].0,
                forall|k: int| 0 <= k < i ==> statuses@[k] == sorted@[k].1,
            decreases sorted@.len() - i,
        {
            let p = sorted[i].0.clone();
            let st = sorted[i].1;
            paths.push(p);
            statuses.push(st);
            i = i + 1;
        }
        let r = GitStatusCache { paths, statuses };
        proof {
            assert(r.entries() =~= pair_views(sorted@));
        }
        r
    }

    /// Binary search for the status recorded under an absolute path.
    pub fn lookup_status(&self, full_path: &str) -> (r: Option<u32>)
        requires
            self.wf(),
        ensures
            r is Some ==> exists|i: int|
                0 <= i < self.entries().len() && #[trigger] self.entries()[i] == (
                    full_path@,
                    r->Some_0,
                ),
            r is None ==> forall|i: int|
                0 <= i < self.paths@.len() ==> #[trigger] self.paths@[i]@ != full_path@,
    {
        let mut lo: usize = 0;
        let mut hi: usize = self.paths.len();
        while lo < hi
            invariant
                self.wf(),
                lo <= hi <= self.paths@.len(),
                forall|i: int| 0 <= i < lo ==> seq_lt(#[trigger] self.paths@[i]@, full_path@),
                forall|i: int|
                    hi <= i < self.paths@.len() ==> seq_lt(
                        full_path@,
                        #[trigger] self.paths@[i]@,
                    ),
            decreases hi - lo,
        {
            let mid = lo + (hi - lo) / 2;
            let c = str_cmp(self.paths[mid].as_str(), full_path);
            if c == 0 {
                proof {
                    assert(self.entries()[mid as int] == (full_path@, self.statuses@[mid as int]));
                }
                return Some(self.statuses[mid]);
            } else if c < 0 {
                proof {
                    assert forall|i: int| 0 <= i < mid + 1 implies seq_lt(
                        #[trigger] self.paths@[i]@,
                        full_path@,
                    ) by {
                        if i < mid {
                            lemma_seq_le_lt_transitive(
                                self.paths@[i]@,
                                self.paths@[mid as int]@,
                                full_path@,
                            );
                        }
                    }
                }
                lo = mid + 1;
            } else {
                proof {
                    assert forall|i: int| mid <= i < self.paths@.len() implies seq_lt(
                        full_path@,
                        #[trigger] self.paths@[i]@,
                    ) by {
                        if i > mid {
                            lemma_seq_lt_le_transitive(
                                full_path@,
                                self.paths@[mid as int]@,
                                self.paths@[i]@,
                            );
                        }
                    }
                }
                hi = mid;
            }
        }
        proof {
            assert forall|i: int|
                0 <= i < self.paths@.len() implies #[trigger] self.paths@[i]@ != full_path@ by {
                if i < lo {
                    crate::text::lemma_seq_lt_asymmetric(self.paths@[i]@, full_path@);
                } else {
                    crate::text::lemma_seq_lt_asymmetric(full_path@, self.paths@[i]@);
                }
            }
        }
        None
    }

    /// Reads the repository's statuses at `git_workdir` and builds the
    /// cache; nothing when there is no workdir or the repository cannot be
    /// read, which is not an error for the picker.
    pub fn read_git_status(git_workdir: Option<&str>) -> (r: Option<GitStatusCache>)
        ensures
            r is Some ==> r->Some_0.wf(),
            git_workdir is None ==> r is None,
    {
        match git_workdir {
            None => None,
            Some(workdir) => {
                match git_status_entries(workdir) {
                    None => None,
                    Some(entries) => Some(GitStatusCache::from_git_entries(entries)),
                }
            },
        }
    }
}

/// The value pairs of a sequence of owned entries.
pub open spec fn pair_views(s: Seq<(String, u32)>) -> Seq<(Seq<char>, u32)> {
    Seq::new(s.len(), |i: int| (s[i].0@, s[i].1))
}

/// Entries sorted ascending by path.
pub open spec fn entries_sorted(s: Seq<(String, u32)>) -> bool {
    forall|i: int, j: int| 0 <= i < j < s.len() ==> seq_le(#[trigger] s[i].0@, #[trigger] s[j].0@)
}

/// Insertion sort of repository entries by path.
fn sort_entries_by_path(entries: Vec<(String, u32)>) -> (r: Vec<(String, u32)>)
    ensures
        entries_sorted(r@),
        pair_views(r@).to_multiset() == pair_views(entries@).to_multiset(),
        r@.len() == entries@.len(),
{
    let ghost orig_ms = pair_views(entries@).to_multiset();
    let mut v = entries;
    if v.len() == 0 {
        return v;
    }
    let mut i: usize = 1;
    while i < v.len()
        invariant
            1 <= i <= v@.len(),
            pair_views(v@).to_multiset() == orig_ms,
            v@.len() == entries@.len(),
            forall|a: int, b: int|
                0 <= a < b < i ==> seq_le(#[trigger] v@[a].0@, #[trigger] v@[b].0@),
        decreases v@.len() - i,
    {
        let ghost w = v@;
        let x = v.remove(i);
        let ghost u = v@;
        proof {
            assert(pair_views(u) =~= pair_views(w).remove(i as int));
            pair_views(w).to_multiset_ensures();
            assert(pair_views(w)[i as int] == (x.0@, x.1));
            assert(pair_views(w).contains((x.0@, x.1)));
        }
        let mut j: usize = 0;
        let mut searching = true;
        while searching
            invariant
                j <= i,
                i <= v@.len(),
                v@ == u,
                forall|k: int| 0 <= k < j ==> seq_lt(#[trigger] v@[k].0@, x.0@),
                !searching ==> j == i || seq_le(x.0@, v@[j as int].0@),
            decreases i - j + (if searching {
                1int
            } else {
                0int
            }),
        {
            if j < i {
                if str_lt(v[j].0.as_str(), x.0.as_str()) {
                    j = j + 1;
                } else {
                    proof {
                        if !seq_lt(x.0@, v@[j as int].0@) {
                            lemma_seq_lt_connected(x.0@, v@[j as int].0@);
                        }
                    }
                    searching = false;
                }
            } else {
                searching = false;
            }
        }
        v.insert(j, x);
        proof {
            assert(pair_views(v@) =~= pair_views(u).insert(j as int, (x.0@, x.1)));
            lemma_insert_to_multiset(pair_views(u), j as int, (x.0@, x.1));
            assert(pair_views(v@).to_multiset() =~= pair_views(w).to_multiset());
            assert forall|a: int, b: int| 0 <= a < b < i + 1 implies seq_le(
                #[trigger] v@[a].0@,
                #[trigger] v@[b].0@,
            ) by {
                let n = v@;
                if b < j {
                    assert(n[a] == w[a] && n[b] == w[b]);
                } else if b == j {
                    assert(n[b] == x && n[a] == w[a]);
                    assert(seq_lt(u[a].0@, x.0@));
                } else {
                    assert(n[b] == u[b - 1]);
                    assert(u[b - 1] == w[b - 1]);
                    if a < j {
                        assert(n[a] == w[a]);
                        if a < b - 1 {
                        } else {
                            assert(a == b - 1 && j == b);
                            assert(false);
                        }
                    } else if a == j {
                        assert(n[a] == x);
                        assert(j < i);
                        assert(seq_le(x.0@, u[j as int].0@));
                        assert(u[j as int] == w[j as int]);
                        if b - 1 > j {
                            lemma_seq_le_transitive(x.0@, w[j as int].0@, w[b - 1].0@);
                        }
                    } else {
                        assert(n[a] == u[a - 1] && u[a - 1] == w[a - 1]);
                    }
                }
            }
        }
        i = i + 1;
    }
    v
}

/// Relies on git2: opens the repository at `workdir` and enumerates its
/// working-tree statuses with untracked files included; yields each entry's
/// absolute path (the workdir joined with the entry's path) and its status
/// bits.  The entries reflect the state on disk, so nothing is promised of
/// them.
#[verifier::external_body]
fn git_status_entries(workdir: &str) -> (r: Option<Vec<(String, u32)>>) {
    let repo = git2::Repository::open(workdir).ok()?;
    let mut opts = git2::StatusOptions::new();
    opts.include_untracked(true);
    let statuses = repo.statuses(Some(&mut opts)).ok()?;
    let base = std::path::Path::new(workdir);
    Some(
        statuses.iter().filter_map(
            |e| e.path().ok().map(|p| (base.join(p).to_string_lossy().into_owned(), e.status().bits())),
        ).collect(),
    )
}

/// Relies on git2: enumerates the repository's statuses narrowed to the
/// given pathspecs, untracked files included and ignored files excluded;
/// yields workdir-relative paths with status bits.  The entries reflect the
/// state on disk, so nothing is promised of them.  `StatusOptions::pathspec`
/// converts each pathspec to a C string and panics on an interior NUL, so
/// NUL-bearing pathspecs are excluded.
#[verifier::external_body]
pub(crate) fn git_status_entries_for_paths(workdir: &str, pathspecs: &Vec<String>) -> (r: Option<
    Vec<(String, u32)>,
>)
    requires
        forall|i: int| 0 <= i < pathspecs@.len() ==> crate::text::no_nul(pathspecs@[i]@),
{
    let repo = git2::Repository::open(workdir).ok()?;
    let mut opts = git2::StatusOptions::new();
    opts.include_untracked(true);
    opts.include_ignored(false);
    for p in pathspecs.iter() {
        opts.pathspec(p.as_str());
    }
    let statuses = repo.statuses(Some(&mut opts)).ok()?;
    Some(statuses.iter().filter_map(|e| e.path().ok().map(|p| (p.to_string(), e.status().bits()))).collect())
}

/// Relies on git2: whether the repository at `workdir` ignores `path`.  An
/// unopenable repository, or an error from the ignore check, counts as not
/// ignored, so the file still enters the index.
#[verifier::external_body]
pub(crate) fn path_ignored(workdir: &str, path: &str) -> (r: bool) {
    match git2::Repository::open(workdir) {
        Ok(repo) => repo.is_path_ignored(path).unwrap_or(false),
        Err(_) => false,
    }
}

} // verus!
