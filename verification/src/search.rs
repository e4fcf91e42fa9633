//! The query entry point: scores a snapshot's files against a query, sorts
//! the candidates by total score with modification time as the tie-breaker,
//! truncates to the requested number of results, and materialises the
//! ranked items with their score diagnostics.

use vstd::prelude::*;

use crate::index::FileSnapshot;
use crate::score::{
    compute_max_typos, frecency_entry_ok, match_and_score_files, match_entry_ok, opt_string_view,
    DEFAULT_DISTANCE_PENALTY,
};
use crate::types::{FileItem, FileItemView, Score, ScoringContext, SearchResult};

verus! {

/// Rank order of two scored entries: the higher total first, and between
/// equal totals the more recently modified file first.
pub open spec fn rank_geq(files: Seq<FileItemView>, a: (usize, Score), b: (usize, Score)) -> bool {
    ||| a.1.total > b.1.total
    ||| (a.1.total == b.1.total && files[a.0 as int].modified >= files[b.0 as int].modified)
}

/// Whether `a` ranks no worse than `b`.
fn rank_before(files: &Vec<FileItem>, a: &(usize, Score), b: &(usize, Score)) -> (r: bool)
    requires
        a.0 < files@.len(),
        b.0 < files@.len(),
    ensures
        r == rank_geq(files.deep_view(), *a, *b),
{
    a.1.total > b.1.total || (a.1.total == b.1.total && files[a.0].modified >= files[b.0].modified)
}

/// Insertion sort of scored entries into rank order.
fn sort_scored(files: &Vec<FileItem>, v: &mut Vec<(usize, Score)>)
    requires
        forall|i: int| 0 <= i < old(v)@.len() ==> (#[trigger] old(v)@[i]).0 < files@.len(),
    ensures
        final(v)@.len() == old(v)@.len(),
        final(v)@.to_multiset() == old(v)@.to_multiset(),
        forall|i: int| 0 <= i < final(v)@.len() ==> (#[trigger] final(v)@[i]).0 < files@.len(),
        forall|i: int, j: int|
            0 <= i < j < final(v)@.len() ==> rank_geq(
                files.deep_view(),
                #[trigger] final(v)@[i],
                #[trigger] final(v)@[j],
            ),
{
    let ghost orig = v@;
    if v.len() == 0 {
        return ;
    }
    let mut i: usize = 1;
    while i < v.len()
        invariant
            1 <= i <= v@.len(),
            v@.len() == orig.len(),
            v@.to_multiset() == orig.to_multiset(),
            forall|k: int| 0 <= k < v@.len() ==> (#[trigger] v@[k]).0 < files@.len(),
            forall|a: int, b: int|
                0 <= a < b < i ==> rank_geq(files.deep_view(), #[trigger] v@[a], #[trigger] v@[b]),
        decreases v@.len() - i,
    {
        let ghost w = v@;
        let x = v.remove(i);
        let ghost u = v@;
        proof {
            assert(u =~= w.remove(i as int));
            w.to_multiset_ensures();
            assert(w[i as int] == x);
            assert(w.contains(x));
        }
        let mut j: usize = 0;
        let mut searching = true;
        while searching
            invariant
                j <= i,
                i <= v@.len(),
                v@ == u,
                x.0 < files@.len(),
                forall|k: int| 0 <= k < v@.len() ==> (#[trigger] v@[k]).0 < files@.len(),
                forall|k: int| 0 <= k < j ==> rank_geq(files.deep_view(), #[trigger] u[k], x),
                !searching ==> j == i || rank_geq(files.deep_view(), x, u[j as int]),
            decreases i - j + (if searching {
                1int
            } else {
                0int
            }),
        {
            if j < i {
                if rank_before(files, &v[j], &x) {
                    j = j + 1;
                } else {
                    searching = false;
                }
            } else {
                searching = false;
            }
        }
        v.insert(j, x);
        proof {
            let n = v@;
            assert(n =~= u.insert(j as int, x));
            crate::seq_util::lemma_insert_to_multiset(u, j as int, x);
            assert(n.to_multiset() =~= w.to_multiset());
            let fdv = files.deep_view();
            assert forall|a: int, b: int| 0 <= a < b < i + 1 implies rank_geq(
                fdv,
                #[trigger] n[a],
                #[trigger] n[b],
            ) by {
                if b < j {
                    assert(n[a] == w[a] && n[b] == w[b]);
                } else if b == j {
                    assert(n[b] == x && n[a] == w[a]);
                    assert(rank_geq(fdv, u[a], x));
                } else {
                    assert(n[b] == u[b - 1]);
                    assert(u[b - 1] == w[b - 1]);
                    if a < j {
                        assert(n[a] == w[a]);
                        if a < b - 1 {
                        } else {
                            assert(a == b - 1 && j == b);
                            assert(false);
                        }
                    } else if a == j {
                        assert(n[a] == x);
                        assert(j < i);
                        assert(rank_geq(fdv, x, u[j as int]));
                        assert(u[j as int] == w[j as int]);
                    } else {
                        assert(n[a] == u[a - 1] && u[a - 1] == w[a - 1]);
                    }
                }
            }
        }
        i = i + 1;
    }
}

/// The view of the optional current-file argument.
pub open spec fn opt_ref_string_view(o: Option<&String>) -> Option<Seq<char>> {
    match o {
        Some(s) => Some(s@),
        None => None,
    }
}

/// Ranks a snapshot's files against a query.
///
/// Every returned item is a file of the snapshot carrying the score the
/// scorer assigns it; the results come in rank order (higher total first,
/// then the later-modified file); at most `max_results` are returned, out
/// of `total_matched` candidates.  A query shorter than two characters
/// matches every file of the snapshot, on frecency alone.
pub fn fuzzy_search_with_snapshot(
    snapshot: &FileSnapshot,
    query: &str,
    max_results: usize,
    max_threads: usize,
    current_file: Option<&String>,
) -> (r: SearchResult)
    requires
        snapshot.files@.len() <= u32::MAX,
    ensures
        r.total_files == snapshot.files@.len(),
        r.items@.len() == r.scores@.len(),
        r.items@.len() <= max_results,
        r.total_matched >= r.items@.len(),
        r.items@.len() == (if r.total_matched >= max_results {
            max_results as int
        } else {
            r.total_matched as int
        }),
        query@.len() < 2 ==> r.total_matched == snapshot.files@.len(),
        forall|k: int|
            0 <= k < r.items@.len() ==> snapshot.files.deep_view().contains(
                #[trigger] r.items.deep_view()[k],
            ),
        query@.len() < 2 ==> forall|k: int|
            0 <= k < r.items@.len() ==> frecency_entry_ok(
                #[trigger] r.items.deep_view()[k],
                opt_ref_string_view(current_file),
                DEFAULT_DISTANCE_PENALTY as int,
                r.scores@[k],
            ),
        query@.len() >= 2 ==> forall|k: int|
            0 <= k < r.items@.len() ==> match_entry_ok(
                #[trigger] r.items.deep_view()[k],
                query@,
                opt_ref_string_view(current_file),
                DEFAULT_DISTANCE_PENALTY as int,
                r.scores@[k],
            ),
        forall|i: int, j: int|
            0 <= i < j < r.items@.len() ==> (#[trigger] r.scores@[i]).total > (
            #[trigger] r.scores@[j]).total || (r.scores@[i].total == r.scores@[j].total
                && r.items.deep_view()[i].modified >= r.items.deep_view()[j].modified),
        crate::index::files_sorted(snapshot.files.deep_view()) ==> forall|i: int, j: int|
            0 <= i < j < r.items@.len() ==> (#[trigger] r.items.deep_view()[i]).relative_path != (
            #[trigger] r.items.deep_view()[j]).relative_path,
{
    let context = ScoringContext {
        query: query.to_owned(),
        current_file: match current_file {
            Some(s) => Some(s.clone()),
            None => None,
        },
        max_typos: compute_max_typos(query),
        max_threads: if max_threads == 0 {
            1
        } else {
            max_threads
        },
        directory_distance_penalty: DEFAULT_DISTANCE_PENALTY,
    };
    let ghost fdv = snapshot.files.deep_view();
    let ghost cur = opt_ref_string_view(current_file);
    proof {
        assert(opt_string_view(context.current_file) == cur);
    }
    let mut scored = match_and_score_files(&snapshot.files, &context);
    let total_matched = scored.len();
    let ghost scored0 = scored@;
    sort_scored(&snapshot.files, &mut scored);
    proof {
        scored0.to_multiset_ensures();
        scored@.to_multiset_ensures();
        assert forall|k: int| 0 <= k < scored@.len() implies {
            &&& (#[trigger] scored@[k]).0 < fdv.len()
            &&& (query@.len() < 2 ==> frecency_entry_ok(
                fdv[scored@[k].0 as int],
                cur,
                DEFAULT_DISTANCE_PENALTY as int,
                scored@[k].1,
            ))
            &&& (query@.len() >= 2 ==> match_entry_ok(
                fdv[scored@[k].0 as int],
                query@,
                cur,
                DEFAULT_DISTANCE_PENALTY as int,
                scored@[k].1,
            ))
        } by {
            assert(scored@.contains(scored@[k]));
            assert(scored@.to_multiset().count(scored@[k]) > 0);
            assert(scored0.to_multiset().count(scored@[k]) > 0);
            assert(scored0.contains(scored@[k]));
            let t = choose|t: int| 0 <= t < scored0.len() && #[trigger] scored0[t] == scored@[k];
            if query@.len() < 2 {
                assert(scored0[t].0 == t);
            }
        }
        assert forall|i: int, j: int|
            0 <= i < j < scored@.len() implies (#[trigger] scored@[i]).0 != (
        #[trigger] scored@[j]).0 by {
            if scored@[i].0 == scored@[j].0 {
                if scored@[i] == scored@[j] {
                    crate::seq_util::lemma_two_indices_count_two(scored@, i, j);
                    assert(scored0.to_multiset().count(scored@[i]) >= 2);
                    let w = crate::seq_util::lemma_count_two_two_indices(scored0, scored@[i]);
                    assert(scored0[w.0].0 == scored0[w.1].0);
                } else {
                    assert(scored@.contains(scored@[i]));
                    assert(scored@.to_multiset().count(scored@[i]) > 0);
                    assert(scored0.to_multiset().count(scored@[i]) > 0);
                    assert(scored0.contains(scored@[i]));
                    assert(scored@.contains(scored@[j]));
                    assert(scored@.to_multiset().count(scored@[j]) > 0);
                    assert(scored0.to_multiset().count(scored@[j]) > 0);
                    assert(scored0.contains(scored@[j]));
                    let a = choose|a: int|
                        0 <= a < scored0.len() && #[trigger] scored0[a] == scored@[i];
                    let b = choose|b: int|
                        0 <= b < scored0.len() && #[trigger] scored0[b] == scored@[j];
                    assert(a != b);
                    assert(scored0[a].0 == scored0[b].0);
                }
            }
        }
    }
    let ghost sorted_view = scored@;
    scored.truncate(max_results);
    proof {
        if max_results <= sorted_view.len() {
            assert(scored@ =~= sorted_view.subrange(0, max_results as int));
        }
        assert forall|i: int, j: int|
            0 <= i < j < scored@.len() implies (#[trigger] scored@[i]).0 != (
        #[trigger] scored@[j]).0 by {
            assert(scored@[i] == sorted_view[i] && scored@[j] == sorted_view[j]);
        }
    }
    let mut items: Vec<FileItem> = Vec::new();
    let mut scores: Vec<Score> = Vec::new();
    let mut k: usize = 0;
    while k < scored.len()
        invariant
            k <= scored@.len(),
            items@.len() == k,
            scores@.len() == k,
            forall|t: int| 0 <= t < scored@.len() ==> (#[trigger] scored@[t]).0 < fdv.len(),
            fdv == snapshot.files.deep_view(),
            forall|t: int|
                0 <= t < k ==> #[trigger] items.deep_view()[t] == fdv[scored@[t].0 as int],
            forall|t: int| 0 <= t < k ==> #[trigger] scores@[t] == scored@[t].1,
        decreases scored@.len() - k,
    {
        let idx = scored[k].0;
        let ghost prev_items = items.deep_view();
        items.push(snapshot.files[idx].clone_item());
        scores.push(scored[k].1);
        proof {
            assert(items.deep_view() =~= prev_items.push(fdv[idx as int]));
        }
        k = k + 1;
    }
    proof {
        assert forall|t: int| 0 <= t < items.deep_view().len() implies fdv.contains(
            #[trigger] items.deep_view()[t],
        ) by {
            assert(items.deep_view()[t] == fdv[scored@[t].0 as int]);
        }
        if crate::index::files_sorted(fdv) {
            crate::index::lemma_sorted_rels_unique(fdv);
            assert forall|i: int, j: int|
                0 <= i < j < items.deep_view().len() implies (
            #[trigger] items.deep_view()[i]).relative_path != (
            #[trigger] items.deep_view()[j]).relative_path by {
                assert(items.deep_view()[i] == fdv[scored@[i].0 as int]);
                assert(items.deep_view()[j] == fdv[scored@[j].0 as int]);
                assert(scored@[i].0 != scored@[j].0);
            }
        }
    }
    SearchResult { items, scores, total_matched, total_files: snapshot.files.len() }
}

} // verus!
