//! Git status formatting, classification, and the status cache.

use fff_core::git_status::{
    format_git_status, is_modified_status, GitStatusCache, STATUS_IGNORED, STATUS_INDEX_DELETED,
    STATUS_INDEX_MODIFIED, STATUS_INDEX_NEW, STATUS_WT_DELETED, STATUS_WT_MODIFIED, STATUS_WT_NEW,
    STATUS_WT_RENAMED,
};

#[test]
fn format_git_status_symbols() {
    assert_eq!(format_git_status(None), "clear");
    assert_eq!(format_git_status(Some(STATUS_WT_NEW)), "untracked");
    assert_eq!(format_git_status(Some(STATUS_WT_MODIFIED)), "modified");
    assert_eq!(format_git_status(Some(STATUS_WT_DELETED)), "deleted");
    assert_eq!(format_git_status(Some(STATUS_WT_RENAMED)), "renamed");
    assert_eq!(format_git_status(Some(STATUS_INDEX_NEW)), "staged_new");
    assert_eq!(format_git_status(Some(STATUS_INDEX_MODIFIED)), "staged_modified");
    assert_eq!(format_git_status(Some(STATUS_INDEX_DELETED)), "staged_deleted");
    assert_eq!(format_git_status(Some(STATUS_IGNORED)), "ignored");
    assert_eq!(format_git_status(Some(0)), "clean");
}

#[test]
fn format_git_status_precedence() {
    // working-tree states win over index states
    assert_eq!(format_git_status(Some(STATUS_WT_NEW | STATUS_INDEX_MODIFIED)), "untracked");
    assert_eq!(format_git_status(Some(STATUS_WT_MODIFIED | STATUS_INDEX_DELETED)), "modified");
    // index states win over ignored
    assert_eq!(format_git_status(Some(STATUS_INDEX_NEW | STATUS_IGNORED)), "staged_new");
}

#[test]
fn format_git_status_is_always_a_known_symbol() {
    let symbols = [
        "clear", "untracked", "modified", "deleted", "renamed", "staged_new", "staged_modified",
        "staged_deleted", "ignored", "clean", "unknown",
    ];
    for bits in 0u32..=0x8100 {
        let s = format_git_status(Some(bits));
        assert!(symbols.contains(&s), "unexpected symbol {s} for bits {bits}");
    }
}

#[test]
fn is_modified_status_bits() {
    assert!(is_modified_status(STATUS_WT_MODIFIED));
    assert!(is_modified_status(STATUS_INDEX_MODIFIED));
    assert!(is_modified_status(STATUS_WT_NEW));
    assert!(is_modified_status(STATUS_INDEX_NEW));
    assert!(is_modified_status(STATUS_WT_RENAMED));
    assert!(!is_modified_status(STATUS_WT_DELETED));
    assert!(!is_modified_status(STATUS_IGNORED));
    assert!(!is_modified_status(0));
}

#[test]
fn status_cache_sorts_and_looks_up() {
    let entries = vec![
        ("/w/src/zeta.rs".to_string(), STATUS_WT_MODIFIED),
        ("/w/src/alpha.rs".to_string(), STATUS_WT_NEW),
        ("/w/README.md".to_string(), STATUS_INDEX_MODIFIED),
    ];
    let cache = GitStatusCache::from_git_entries(entries);
    assert_eq!(cache.lookup_status("/w/src/alpha.rs"), Some(STATUS_WT_NEW));
    assert_eq!(cache.lookup_status("/w/src/zeta.rs"), Some(STATUS_WT_MODIFIED));
    assert_eq!(cache.lookup_status("/w/README.md"), Some(STATUS_INDEX_MODIFIED));
    assert_eq!(cache.lookup_status("/w/src/missing.rs"), None);
    assert_eq!(cache.lookup_status(""), None);
}

#[test]
fn read_git_status_without_workdir_is_none() {
    assert!(fff_core::git_status::GitStatusCache::read_git_status(None).is_none());
}

#[test]
fn status_cache_empty() {
    let cache = GitStatusCache::from_git_entries(Vec::new());
    assert_eq!(cache.lookup_status("/anything"), None);
}
