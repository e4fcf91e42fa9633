//! Path decomposition helpers and git-internal path detection.

use fff_core::path_util::{
    name_extension, name_stem, path_dir_components, path_directory, path_file_name,
    path_normal_components,
};
use fff_core::scanner::{event_path_relevant, is_git_file, should_add_verdict};
use fff_core::text::{str_cmp, str_contains, str_eq, str_eq_ignore_ascii_case};
use fff_core::types::{CurrentFileData, FileItem};

#[test]
fn normal_components_split_on_slashes() {
    assert_eq!(path_normal_components("a/b/c.txt"), vec!["a", "b", "c.txt"]);
    assert_eq!(path_normal_components("/a//b/"), vec!["a", "b"]);
    assert_eq!(path_normal_components("./a/../b"), vec!["a", "b"]);
    assert!(path_normal_components("").is_empty());
    assert!(path_normal_components("/").is_empty());
}

#[test]
fn dir_components_drop_the_file_name() {
    assert_eq!(path_dir_components("a/b/c.txt"), vec!["a", "b"]);
    assert!(path_dir_components("c.txt").is_empty());
    assert!(path_dir_components("").is_empty());
}

#[test]
fn file_name_is_the_last_component() {
    assert_eq!(path_file_name("a/b/c.txt"), "c.txt");
    assert_eq!(path_file_name("c.txt"), "c.txt");
    assert_eq!(path_file_name("a/b/"), "b");
    assert_eq!(path_file_name(""), "");
}

#[test]
fn stems_and_extensions() {
    assert_eq!(name_stem("main.rs"), "main");
    assert_eq!(name_extension("main.rs"), "rs");
    assert_eq!(name_stem("archive.tar.gz"), "archive.tar");
    assert_eq!(name_extension("archive.tar.gz"), "gz");
    assert_eq!(name_stem(".gitignore"), ".gitignore");
    assert_eq!(name_extension(".gitignore"), "");
    assert_eq!(name_stem("plain"), "plain");
    assert_eq!(name_extension("plain"), "");
}

#[test]
fn directory_is_the_parent_path() {
    assert_eq!(path_directory("a/b/c.txt"), "a/b");
    assert_eq!(path_directory("src/main.rs"), "src");
    assert_eq!(path_directory("main.rs"), "");
    assert_eq!(path_directory("/file.txt"), "/");
    assert_eq!(path_directory("./a.txt"), "");
    assert_eq!(path_directory(""), "");
}

#[test]
fn file_item_derives_its_attributes() {
    let f = FileItem::new(
        "/work/src/main.rs".to_string(),
        "src/main.rs".to_string(),
        42,
        1000,
        None,
    );
    assert_eq!(f.file_name, "main.rs");
    assert_eq!(f.extension, "rs");
    assert_eq!(f.directory, "src");
    assert_eq!(f.size, 42);
    assert_eq!(f.modified, 1000);
    assert_eq!(f.total_frecency_score, 0);
    assert!(!f.is_current_file);
}

#[test]
fn current_file_data_from_path() {
    let data = CurrentFileData::from_path("src/app/widget.rs").unwrap();
    assert_eq!(data.stem, "widget");
    assert_eq!(data.directory_parts, vec!["src", "app"]);
    assert!(CurrentFileData::from_path("").is_none());
    assert!(CurrentFileData::from_path("/").is_none());
}

#[test]
fn creation_and_relevance_verdicts() {
    assert!(should_add_verdict(false, true, false));
    assert!(!should_add_verdict(true, true, false));
    assert!(!should_add_verdict(false, false, false));
    assert!(!should_add_verdict(false, true, true));
    assert!(event_path_relevant(true, false, false));
    assert!(event_path_relevant(false, true, true));
    assert!(!event_path_relevant(false, true, false));
    assert!(!event_path_relevant(false, false, true));
}

#[test]
fn git_internal_paths_are_recognised() {
    assert!(is_git_file("/w/.git/config"));
    assert!(is_git_file("/w/sub/.git/HEAD"));
    assert!(!is_git_file("/w/src/main.rs"));
    assert!(!is_git_file("/w/.github/workflow.yml"));
    assert!(!is_git_file(".git"));
}

#[test]
fn string_comparison_is_lexicographic() {
    assert_eq!(str_cmp("abc", "abc"), 0);
    assert!(str_cmp("abc", "abd") < 0);
    assert!(str_cmp("abd", "abc") > 0);
    assert!(str_cmp("ab", "abc") < 0);
    assert!(str_cmp("abc", "ab") > 0);
    assert!(str_cmp("", "a") < 0);
    assert!(str_eq("same", "same"));
    assert!(!str_eq("same", "Same"));
}

#[test]
fn substring_search_finds_runs() {
    assert!(str_contains("hello world", "lo wo"));
    assert!(str_contains("hello", "hello"));
    assert!(str_contains("hello", ""));
    assert!(!str_contains("hello", "world"));
    assert!(!str_contains("he", "hello"));
}

#[test]
fn ascii_case_insensitive_equality() {
    assert!(str_eq_ignore_ascii_case("Main.RS", "main.rs"));
    assert!(str_eq_ignore_ascii_case("", ""));
    assert!(!str_eq_ignore_ascii_case("main.rs", "main.rb"));
    assert!(!str_eq_ignore_ascii_case("a", "ab"));
}
