//! Directory-distance penalty behaviour.

use fff_core::path_util::{
    calculate_directory_distance_penalty, calculate_directory_distance_penalty_optimized,
};

#[test]
fn test_calculate_directory_distance_penalty() {
    const PENALTY_PER_LEVEL: i32 = -2;

    // No current file = no penalty
    assert_eq!(calculate_directory_distance_penalty(None, "/path/to/file.txt", PENALTY_PER_LEVEL), 0);

    // Same directory = no penalty
    assert_eq!(
        calculate_directory_distance_penalty(
            Some("/path/to/current/file.txt"),
            "/path/to/current/other.txt",
            PENALTY_PER_LEVEL
        ),
        0
    );

    // 1 level up = 1 * penalty
    assert_eq!(
        calculate_directory_distance_penalty(
            Some("/path/to/current/file.txt"),
            "/path/to/file.txt",
            PENALTY_PER_LEVEL
        ),
        1 * PENALTY_PER_LEVEL
    );

    // 2 levels apart = 2 * penalty
    assert_eq!(
        calculate_directory_distance_penalty(
            Some("/path/to/current/file.txt"),
            "/path/to/other/file.txt",
            PENALTY_PER_LEVEL
        ),
        2 * PENALTY_PER_LEVEL
    );

    // 3 levels apart = 3 * penalty
    assert_eq!(
        calculate_directory_distance_penalty(
            Some("/path/to/current/file.txt"),
            "/path/to/another/dir/file.txt",
            PENALTY_PER_LEVEL
        ),
        3 * PENALTY_PER_LEVEL
    );

    // Completely different paths = 8 levels apart = 8 * penalty
    assert_eq!(
        calculate_directory_distance_penalty(Some("/a/b/c/d/file.txt"), "/x/y/z/w/file.txt", PENALTY_PER_LEVEL),
        8 * PENALTY_PER_LEVEL
    );

    // Files in root directory = same directory = no penalty
    assert_eq!(
        calculate_directory_distance_penalty(Some("/file1.txt"), "/file2.txt", PENALTY_PER_LEVEL),
        0
    );

    // Test with different penalty values to ensure logic is independent of -2
    const DIFFERENT_PENALTY: i32 = -5;
    assert_eq!(
        calculate_directory_distance_penalty(
            Some("/path/to/current/file.txt"),
            "/path/to/file.txt",
            DIFFERENT_PENALTY
        ),
        1 * DIFFERENT_PENALTY
    );
}

#[test]
fn distance_penalty_identical_paths_is_zero() {
    // a file is no distance from itself
    assert_eq!(
        calculate_directory_distance_penalty(Some("a/b/c/file.txt"), "a/b/c/file.txt", -2),
        0
    );
    assert_eq!(calculate_directory_distance_penalty(Some("file.txt"), "file.txt", -7), 0);
}

#[test]
fn distance_penalty_is_symmetric() {
    let pairs = [
        ("a/b/c/one.txt", "x/y/two.txt"),
        ("/path/to/current/file.txt", "/path/to/file.txt"),
        ("deep/er/est/f.rs", "deep/other/g.rs"),
    ];
    for (a, b) in pairs {
        assert_eq!(
            calculate_directory_distance_penalty(Some(a), b, -2),
            calculate_directory_distance_penalty(Some(b), a, -2)
        );
    }
}

#[test]
fn distance_penalty_clamps_at_ten_levels() {
    let far = "q/w/e/r/t/y/u/i/o/p/a/s/file.txt";
    let near = "z/file.txt";
    // 11 + 1 = 12 levels apart, clamped to 10
    assert_eq!(calculate_directory_distance_penalty(Some(far), near, -2), -20);
    assert_eq!(calculate_directory_distance_penalty(Some(far), near, 3), 30);
}

#[test]
fn distance_penalty_optimized_matches_plain() {
    let parts: Vec<String> = vec!["path".into(), "to".into(), "current".into()];
    assert_eq!(
        calculate_directory_distance_penalty_optimized(&parts, "path/to/file.txt", -2),
        -2
    );
    assert_eq!(
        calculate_directory_distance_penalty_optimized(&parts, "path/to/current/other.txt", -2),
        0
    );
}
