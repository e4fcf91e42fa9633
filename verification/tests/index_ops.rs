//! Index mutations: ordering, generations, snapshots, live updates.

use fff_core::index::{FileSnapshot, FileSync};
use fff_core::search::fuzzy_search_with_snapshot;
use fff_core::types::{Error, FileItem};

fn item(rel: &str) -> FileItem {
    FileItem::new(format!("/w/{rel}"), rel.to_string(), 10, 0, None)
}

fn rels(files: &[FileItem]) -> Vec<String> {
    files.iter().map(|f| f.relative_path.clone()).collect()
}

fn assert_strictly_sorted(index: &FileSync) {
    for w in index.files.windows(2) {
        assert!(
            w[0].relative_path < w[1].relative_path,
            "index not strictly sorted: {} !< {}",
            w[0].relative_path,
            w[1].relative_path
        );
    }
}

#[test]
fn mutations_keep_strict_order_and_advance_generation() {
    let mut index = FileSync::new();
    let mut last_gen = index.scan_generation;
    for rel in ["src/b.rs", "src/a.rs", "zz.txt", "a.txt", "src/c.rs"] {
        index.insert_file_sorted(item(rel));
        assert_strictly_sorted(&index);
        assert_eq!(index.scan_generation, last_gen + 1, "generation must advance");
        last_gen = index.scan_generation;
    }
    // duplicate insert: no change at all
    index.insert_file_sorted(item("src/a.rs"));
    assert_eq!(index.scan_generation, last_gen);
    assert_eq!(index.files.len(), 5);
    assert_strictly_sorted(&index);

    assert!(index.remove_file_by_path("zz.txt"));
    assert_eq!(index.scan_generation, last_gen + 1);
    assert_strictly_sorted(&index);
    assert!(!index.remove_file_by_path("zz.txt"));
    assert_eq!(index.scan_generation, last_gen + 1);

    let files = vec![item("a.rs"), item("b.rs")];
    index.update_files(files, None, 123);
    assert_eq!(index.scan_generation, last_gen + 2);
    assert_eq!(index.last_update, 123);
    assert_strictly_sorted(&index);
}

#[test]
fn contains_and_find() {
    let mut index = FileSync::new();
    for rel in ["b.rs", "d.rs", "f.rs"] {
        index.insert_file_sorted(item(rel));
    }
    assert!(index.contains_path("d.rs"));
    assert!(!index.contains_path("c.rs"));
    assert_eq!(index.find_file_index("b.rs"), Ok(0));
    assert_eq!(index.find_file_index("f.rs"), Ok(2));
    assert_eq!(index.find_file_index("a.rs"), Err(0));
    assert_eq!(index.find_file_index("c.rs"), Err(1));
    assert_eq!(index.find_file_index("z.rs"), Err(3));
}

#[test]
fn prepare_files_sorts_and_deduplicates() {
    let input = vec![item("c.rs"), item("a.rs"), item("b.rs"), item("a.rs")];
    let prepared = FileSync::prepare_files_for_update(input);
    assert_eq!(rels(&prepared), vec!["a.rs", "b.rs", "c.rs"]);
}

#[test]
fn snapshot_matches_index_at_publish_time() {
    let mut index = FileSync::new();
    for rel in ["one.rs", "two.rs", "three.rs"] {
        index.insert_file_sorted(item(rel));
    }
    let snapshot = index.create_search_snapshot();
    assert_eq!(snapshot.generation, index.scan_generation);
    assert_eq!(rels(&snapshot.files), rels(&index.files));
    // later mutations do not touch the published snapshot
    index.insert_file_sorted(item("four.rs"));
    assert_eq!(snapshot.files.len(), 3);
    assert_ne!(snapshot.generation, index.scan_generation);
}

#[test]
fn batch_frecency_update_sets_scores() {
    let mut index = FileSync::new();
    index.insert_file_sorted(item("a.rs"));
    index.insert_file_sorted(item("b.rs"));
    let scores = vec![(3i64, 4i64), (10i64, 0i64)];
    index.batch_update_frecency_scores(&scores);
    assert_eq!(index.files[0].access_frecency_score, 3);
    assert_eq!(index.files[0].modification_frecency_score, 4);
    assert_eq!(index.files[0].total_frecency_score, 7);
    assert_eq!(index.files[1].total_frecency_score, 10);
}

#[test]
fn remove_paths_removes_exactly_the_listed() {
    let mut index = FileSync::new();
    for rel in ["a.rs", "b.rs", "c.rs", "d.rs"] {
        index.insert_file_sorted(item(rel));
    }
    let gen_before = index.scan_generation;
    let gone = vec!["b.rs".to_string(), "missing.rs".to_string(), "d.rs".to_string()];
    index.remove_paths_from_index(&gone);
    assert_eq!(rels(&index.files), vec!["a.rs", "c.rs"]);
    // two removals advance the generation twice
    assert_eq!(index.scan_generation, gen_before + 2);
    // removing nothing leaves the generation alone
    index.remove_paths_from_index(&vec!["missing.rs".to_string()]);
    assert_eq!(index.scan_generation, gen_before + 2);
}

#[test]
fn status_refresh_without_workdir_changes_nothing() {
    let mut index = FileSync::new();
    index.insert_file_sorted(item("a.rs"));
    let gen_before = index.scan_generation;
    index.update_git_status_for_paths(None, &vec!["a.rs".to_string()]);
    assert_eq!(index.scan_generation, gen_before);
    assert_eq!(index.files[0].git_status, None);
}

#[test]
fn apply_status_updates_last_update_wins() {
    let mut index = FileSync::new();
    for rel in ["a.rs", "b.rs"] {
        index.insert_file_sorted(item(rel));
    }
    let before_gen = index.scan_generation;
    let updates = vec![
        ("a.rs".to_string(), 128u32),
        ("b.rs".to_string(), 256u32),
        ("a.rs".to_string(), 2u32),
        ("nope.rs".to_string(), 512u32),
    ];
    index.apply_status_updates(&updates);
    assert_eq!(index.files[0].git_status, Some(2));
    assert_eq!(index.files[1].git_status, Some(256));
    assert!(index.scan_generation != before_gen);
}

#[test]
fn create_events_without_a_repository_index_every_item() {
    let mut index = FileSync::new();
    index.insert_file_sorted(item("kept.rs"));
    index.handle_create_events(vec![item("one.rs"), item("two.rs"), item("kept.rs")], None);
    assert_eq!(rels(&index.files), vec!["kept.rs", "one.rs", "two.rs"]);
}

#[test]
fn live_insertion_shows_up_in_next_search() {
    let mut index = FileSync::new();
    index.insert_file_sorted(item("old_one.txt"));
    index.insert_file_sorted(item("old_two.txt"));
    // a create event arrives for new.txt
    index.handle_create_events(vec![item("new.txt")], None);
    let snapshot = index.create_search_snapshot();
    let result = fuzzy_search_with_snapshot(&snapshot, "new", 10, 1, None);
    assert_eq!(result.total_files, 3);
    assert!(
        result.items.iter().any(|f| f.relative_path == "new.txt"),
        "new.txt should be found after the create event"
    );
}

#[test]
fn interleaved_inserts_and_queries_stay_consistent() {
    let mut index = FileSync::new();
    let mut last_total_files = 0usize;
    for i in 0..100 {
        index.insert_file_sorted(item(&format!("dir{}/file{:03}.rs", i % 7, i)));
        let snapshot = index.create_search_snapshot();
        let result = fuzzy_search_with_snapshot(&snapshot, "", 200, 1, None);
        assert!(
            result.total_files >= last_total_files,
            "total_files must not decrease"
        );
        last_total_files = result.total_files;
        let mut seen: Vec<&str> = result.items.iter().map(|f| f.relative_path.as_str()).collect();
        let n = seen.len();
        seen.sort();
        seen.dedup();
        assert_eq!(seen.len(), n, "a query must never observe duplicate relative paths");
    }
    assert_eq!(last_total_files, 100);
}

#[test]
fn empty_snapshot_search_is_empty() {
    let snapshot = FileSnapshot { files: Vec::new(), generation: 0 };
    let result = fuzzy_search_with_snapshot(&snapshot, "query", 10, 1, None);
    assert_eq!(result.total_files, 0);
    assert_eq!(result.total_matched, 0);
    assert!(result.items.is_empty());
    assert!(result.scores.is_empty());
}

#[test]
fn generation_wraps_at_the_top() {
    let mut index = FileSync::new();
    index.scan_generation = u64::MAX;
    index.insert_file_sorted(item("wrap.rs"));
    assert_eq!(index.scan_generation, 0, "the generation wraps but still advances");
}

#[test]
fn error_messages_name_the_failure() {
    assert_eq!(Error::InvalidPath("/nope".to_string()).message(), "invalid path: /nope");
    assert_eq!(Error::AcquireFrecencyLock.message(), "failed to acquire frecency lock");
    assert_eq!(Error::AcquireItemLock.message(), "failed to acquire file picker lock");
}
