use torrent_sweep::expected::{build_expected_set, ExpectedFileSet};

fn lists(items: &[&[&str]]) -> Vec<Vec<String>> {
    items
        .iter()
        .map(|names| names.iter().map(|n| n.to_string()).collect())
        .collect()
}

#[test]
fn keys_are_canonical_paths_under_the_root() {
    let set = build_expected_set(&lists(&[&["a/movie.mkv"]]), &"/data".to_string(), &None);
    assert!(set.contains_path(&"/data/a/movie.mkv".to_string()));
    assert!(!set.contains_path(&"/data/b/junk.txt".to_string()));
    assert!(!set.contains_path(&"a/movie.mkv".to_string()));
}

#[test]
fn backslashes_in_names_compare_equal_to_slashes() {
    let set = build_expected_set(&lists(&[&["a\\movie.mkv"]]), &"/data".to_string(), &None);
    assert!(set.contains_path(&"/data/a/movie.mkv".to_string()));
}

#[test]
fn every_name_of_every_item_becomes_a_key() {
    let set = build_expected_set(
        &lists(&[&["a/one.mkv", "a/two.mkv"], &["b/three.mkv"]]),
        &"/data".to_string(),
        &None,
    );
    assert!(set.contains_path(&"/data/a/one.mkv".to_string()));
    assert!(set.contains_path(&"/data/a/two.mkv".to_string()));
    assert!(set.contains_path(&"/data/b/three.mkv".to_string()));
}

#[test]
fn no_destination_is_recorded_without_a_destination_root() {
    let set = build_expected_set(&lists(&[&["a.mkv"]]), &"/data".to_string(), &None);
    assert_eq!(set.dest_of(&"/data/a.mkv".to_string()), Some(None));
    assert_eq!(set.dest_of(&"/data/missing.mkv".to_string()), None);
}

#[test]
fn destinations_mirror_the_name_under_the_destination_root() {
    let set = build_expected_set(
        &lists(&[&["a/movie.mkv"]]),
        &"/data".to_string(),
        &Some("/dest".to_string()),
    );
    assert_eq!(
        set.dest_of(&"/data/a/movie.mkv".to_string()),
        Some(Some("/dest/a/movie.mkv".to_string()))
    );
}

#[test]
fn a_colliding_later_item_wins() {
    let set = build_expected_set(
        &lists(&[&["same.mkv"], &["same.mkv"]]),
        &"/data".to_string(),
        &Some("/dest".to_string()),
    );
    // both inserts are recorded, but membership and value come from the last
    assert_eq!(set.source_count(), 2);
    assert!(set.contains_path(&"/data/same.mkv".to_string()));
    assert_eq!(
        set.dest_of(&"/data/same.mkv".to_string()),
        Some(Some("/dest/same.mkv".to_string()))
    );
}

#[test]
fn an_empty_set_contains_nothing() {
    let set = ExpectedFileSet::new();
    assert!(!set.contains_path(&"/data/a.mkv".to_string()));
    assert_eq!(set.source_count(), 0);
}
