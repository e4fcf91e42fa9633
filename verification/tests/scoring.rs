//! Scoring behaviour: filename bonuses, frecency fallback, ranking.

use fff_core::git_status::STATUS_WT_MODIFIED;
use fff_core::index::FileSnapshot;
use fff_core::score::{
    calculate_filename_bonus, compute_max_typos, is_special_entry_point_file,
    match_and_score_files, score_all_by_frecency,
};
use fff_core::search::fuzzy_search_with_snapshot;
use fff_core::types::{FileItem, MatchType, ScoringContext};

fn item(rel: &str) -> FileItem {
    FileItem::new(format!("/w/{rel}"), rel.to_string(), 10, 0, None)
}

fn item_modified(rel: &str, modified: u64) -> FileItem {
    FileItem::new(format!("/w/{rel}"), rel.to_string(), 10, modified, None)
}

fn snapshot_of(files: Vec<FileItem>) -> FileSnapshot {
    FileSnapshot { files, generation: 1 }
}

fn context(query: &str, current_file: Option<&str>) -> ScoringContext {
    ScoringContext {
        query: query.to_string(),
        current_file: current_file.map(|s| s.to_string()),
        max_typos: compute_max_typos(query),
        max_threads: 1,
        directory_distance_penalty: -2,
    }
}

#[test]
fn entry_point_filenames() {
    for name in [
        "mod.rs", "lib.rs", "main.rs", "index.js", "index.jsx", "index.ts", "index.tsx",
        "index.mjs", "index.cjs", "index.vue", "__init__.py", "__main__.py", "main.go", "main.c",
        "index.php", "main.rb", "index.rb",
    ] {
        assert!(is_special_entry_point_file(name), "{name} is an entry point");
    }
    for name in ["other.rs", "mod.c", "index.html", "main.py", ""] {
        assert!(!is_special_entry_point_file(name), "{name} is not an entry point");
    }
}

#[test]
fn filename_bonus_branches() {
    // exact, case-insensitive: (base/5)*2
    let (bonus, mt, special) = calculate_filename_bonus("Main.RS", "main.rs", 100);
    assert_eq!((bonus, mt, special), (40, MatchType::ExactFilename, false));
    // substring of the lowercased name: base/5
    let (bonus, mt, special) = calculate_filename_bonus("readme", "README.md", 100);
    assert_eq!((bonus, mt, special), (20, MatchType::FuzzyFilename, false));
    // entry point: base*18/100
    let (bonus, mt, special) = calculate_filename_bonus("xyz", "mod.rs", 100);
    assert_eq!((bonus, mt, special), (18, MatchType::FuzzyPath, true));
    // none of these
    let (bonus, mt, special) = calculate_filename_bonus("xyz", "other.rs", 100);
    assert_eq!((bonus, mt, special), (0, MatchType::FuzzyPath, false));
}

#[test]
fn max_typos_is_a_quarter_clamped() {
    assert_eq!(compute_max_typos(""), 2);
    assert_eq!(compute_max_typos("ab"), 2);
    assert_eq!(compute_max_typos("abcdefgh"), 2);
    assert_eq!(compute_max_typos("abcdefghijkl"), 3);
    assert_eq!(compute_max_typos("abcdefghijklmnop"), 4);
    assert_eq!(compute_max_typos(&"a".repeat(40)), 6);
}

#[test]
fn short_query_scores_every_file_on_frecency() {
    let files = vec![item("a.rs"), item("b.rs"), item("c.rs")];
    let ctx = context("x", None);
    let scored = match_and_score_files(&files, &ctx);
    assert_eq!(scored.len(), files.len());
    for (i, (idx, score)) in scored.iter().enumerate() {
        assert_eq!(*idx, i);
        assert_eq!(score.match_type, MatchType::Frecency);
        assert_eq!(score.base_score, 0);
    }
}

#[test]
fn frecency_boost_weights_modification_four_times() {
    let mut f = item("a.rs");
    f.update_frecency_scores(10, 5);
    let files = vec![f];
    let ctx = context("", None);
    let scored = score_all_by_frecency(&files, &ctx);
    assert_eq!(scored[0].1.frecency_boost, 10 + 4 * 5);
    assert_eq!(scored[0].1.total, 30);
}

#[test]
fn exact_filename_beats_substring() {
    let snapshot = snapshot_of(vec![item("src/main.rs"), item("src/mainloop.rs")]);
    let result = fuzzy_search_with_snapshot(&snapshot, "main.rs", 10, 1, None);
    assert_eq!(result.total_files, 2);
    assert!(result.items.len() >= 1);
    assert_eq!(result.items[0].relative_path, "src/main.rs");
    assert_eq!(result.scores[0].match_type, MatchType::ExactFilename);
    if result.items.len() > 1 {
        assert_eq!(result.items[1].relative_path, "src/mainloop.rs");
    }
}

#[test]
fn entry_point_file_ranks_first() {
    let snapshot = snapshot_of(vec![item("src/lib.rs"), item("src/library.rs")]);
    let result = fuzzy_search_with_snapshot(&snapshot, "lib", 10, 1, None);
    assert_eq!(result.total_files, 2);
    assert!(result.items.len() >= 1);
    assert_eq!(result.items[0].relative_path, "src/lib.rs");
    // "lib" is contained in "lib.rs", so the substring branch fires before
    // the entry-point branch could
    assert_eq!(result.scores[0].match_type, MatchType::FuzzyFilename);
    assert!(result.scores[0].filename_bonus > 0);
}

#[test]
fn distance_penalty_prefers_the_nearer_file() {
    let snapshot = snapshot_of(vec![item("a/b/c/hello.txt"), item("x/y/z/hello.txt")]);
    let current = "a/b/c/other.txt".to_string();
    let result = fuzzy_search_with_snapshot(&snapshot, "hello", 10, 1, Some(&current));
    assert_eq!(result.total_files, 2);
    assert_eq!(result.items.len(), 2);
    assert_eq!(result.items[0].relative_path, "a/b/c/hello.txt");
    assert_eq!(result.scores[0].distance_penalty, 0);
    assert_eq!(result.items[1].relative_path, "x/y/z/hello.txt");
    assert_eq!(result.scores[1].distance_penalty, -2 * 6);
}

#[test]
fn current_file_is_demoted_on_empty_query() {
    let snapshot = snapshot_of(vec![item("bar.rs"), item("foo.rs")]);
    let current = "foo.rs".to_string();
    let result = fuzzy_search_with_snapshot(&snapshot, "", 10, 1, Some(&current));
    assert_eq!(result.items.len(), 2);
    let last = result.items.last().unwrap();
    assert_eq!(last.relative_path, "foo.rs", "the current file comes last");
    assert_eq!(result.scores[1].total, -300);
}

#[test]
fn current_file_demotion_is_milder_when_modified() {
    let mut f = item("foo.rs");
    f.git_status = Some(STATUS_WT_MODIFIED);
    let files = vec![f];
    let mut ctx = context("", Some("foo.rs"));
    ctx.directory_distance_penalty = -2;
    let scored = score_all_by_frecency(&files, &ctx);
    assert_eq!(scored[0].1.total, -150);
}

#[test]
fn results_are_ordered_by_total_then_modified() {
    // equal totals fall back to the later-modified file
    let snapshot = snapshot_of(vec![
        item_modified("dir/aa.txt", 100),
        item_modified("dir/bb.txt", 900),
        item_modified("dir/cc.txt", 500),
    ]);
    let result = fuzzy_search_with_snapshot(&snapshot, "", 10, 1, None);
    assert_eq!(result.items.len(), 3);
    for w in result.scores.windows(2) {
        assert!(w[0].total >= w[1].total);
    }
    let mods: Vec<u64> = result.items.iter().map(|f| f.modified).collect();
    assert_eq!(mods, vec![900, 500, 100]);
}

#[test]
fn zero_threads_still_searches() {
    let snapshot = snapshot_of(vec![item("alpha.rs"), item("beta.rs")]);
    let result = fuzzy_search_with_snapshot(&snapshot, "alpha", 10, 0, None);
    assert!(result.items.iter().any(|f| f.relative_path == "alpha.rs"));
}

#[test]
fn truncation_respects_max_results() {
    let files: Vec<FileItem> = (0..20).map(|i| item(&format!("f{i:02}.rs"))).collect();
    let snapshot = snapshot_of(files);
    let result = fuzzy_search_with_snapshot(&snapshot, "", 5, 1, None);
    assert_eq!(result.items.len(), 5);
    assert_eq!(result.scores.len(), 5);
    assert_eq!(result.total_matched, 20);
    assert_eq!(result.total_files, 20);
}

#[test]
fn lowercasing_reaches_the_substring_branch() {
    // if the case folding handed its argument back unchanged, neither side
    // would contain the other and the bonus would vanish
    let (bonus, mt, _) = calculate_filename_bonus("BUTTON", "button.tsx", 100);
    assert_eq!(mt, MatchType::FuzzyFilename);
    assert_eq!(bonus, 20);
}
