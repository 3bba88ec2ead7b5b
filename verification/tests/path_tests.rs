use torrent_sweep::paths::{basename_of, check_strict_ancestor, count_slashes, join_under, normalize};

#[test]
fn normalize_rewrites_backslashes() {
    assert_eq!(normalize("C:\\data\\a"), "C:/data/a".to_string());
    assert_eq!(normalize("/data/a"), "/data/a".to_string());
    assert_eq!(normalize(""), "".to_string());
}

#[test]
fn join_places_a_name_under_the_root() {
    assert_eq!(join_under("/data", "a/movie.mkv"), "/data/a/movie.mkv".to_string());
    assert_eq!(join_under("/data", "movie.mkv"), "/data/movie.mkv".to_string());
}

#[test]
fn join_normalizes_both_sides() {
    assert_eq!(join_under("C:\\data", "a\\movie.mkv"), "C:/data/a/movie.mkv".to_string());
}

#[test]
fn basename_is_the_final_component() {
    assert_eq!(basename_of("/data/b/junk.txt"), "junk.txt".to_string());
    assert_eq!(basename_of("junk.txt"), "junk.txt".to_string());
    assert_eq!(basename_of("/data/b/"), "".to_string());
}

#[test]
fn strict_ancestor_needs_a_separator_boundary() {
    assert!(check_strict_ancestor("/data", "/data/a"));
    assert!(check_strict_ancestor("/data", "/data/a/b.txt"));
    assert!(!check_strict_ancestor("/data", "/database"));
    assert!(!check_strict_ancestor("/data", "/data"));
    assert!(!check_strict_ancestor("/data/a", "/data"));
}

#[test]
fn slash_count_matches_component_depth() {
    assert_eq!(count_slashes("/data"), 1);
    assert_eq!(count_slashes("/data/a/b.txt"), 3);
    assert_eq!(count_slashes("nothing"), 0);
}
