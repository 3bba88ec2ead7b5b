use torrent_sweep::entry::{EntryKind, FilesystemEntry};
use torrent_sweep::expected::build_expected_set;
use torrent_sweep::expected::ExpectedFileSet;
use torrent_sweep::plan::{plan_dispositions, Action, Disposition, Mode, PlannedEntry};
use torrent_sweep::schedule::schedule_bottom_up;

const ROOT: &str = "/data";

/// The scenario tree: one expected file, an empty extra directory, and a
/// dangling file in a directory of its own.
fn scenario_order() -> Vec<FilesystemEntry> {
    let walk = vec![
        entry("/data", EntryKind::Directory),
        entry("/data/a", EntryKind::Directory),
        entry("/data/a/movie.mkv", EntryKind::File),
        entry("/data/a/extra", EntryKind::Directory),
        entry("/data/b", EntryKind::Directory),
        entry("/data/b/junk.txt", EntryKind::File),
    ];
    schedule_bottom_up(walk)
}

fn entry(path: &str, kind: EntryKind) -> FilesystemEntry {
    FilesystemEntry::new(path, kind, ROOT).expect("entry lies under the root")
}

fn expected_movie() -> ExpectedFileSet {
    build_expected_set(
        &vec![vec!["a/movie.mkv".to_string()]],
        &ROOT.to_string(),
        &None,
    )
}

fn record<'a>(plan: &'a [PlannedEntry], path: &str) -> &'a PlannedEntry {
    plan.iter()
        .find(|r| r.path == path)
        .expect("path present in the plan")
}

#[test]
fn report_only_classification_of_the_scenario_tree() {
    let order = scenario_order();
    let expected = expected_movie();
    let plan = plan_dispositions(&order, &expected, &ROOT.to_string(), Mode::Report, &None);
    assert_eq!(plan.len(), 6);
    assert_eq!(record(&plan, "/data/a/movie.mkv").disposition, Disposition::Retained);
    assert_eq!(
        record(&plan, "/data/a/extra").disposition,
        Disposition::DanglingEmptyDirectory
    );
    assert_eq!(record(&plan, "/data/b/junk.txt").disposition, Disposition::DanglingFile);
    // non-empty at classification time under report-only mode
    assert_eq!(record(&plan, "/data/b").disposition, Disposition::Retained);
    assert_eq!(record(&plan, "/data/a").disposition, Disposition::Retained);
    assert_eq!(record(&plan, "/data").disposition, Disposition::Retained);
    for r in &plan {
        assert_eq!(r.action, Action::Nothing);
    }
}

#[test]
fn destructive_run_prunes_the_emptied_directory() {
    let order = scenario_order();
    let expected = expected_movie();
    let plan = plan_dispositions(&order, &expected, &ROOT.to_string(), Mode::Delete, &None);
    assert_eq!(record(&plan, "/data/a/movie.mkv").disposition, Disposition::Retained);
    assert_eq!(record(&plan, "/data/a/movie.mkv").action, Action::Nothing);
    assert_eq!(
        record(&plan, "/data/a/extra").disposition,
        Disposition::DanglingEmptyDirectory
    );
    assert_eq!(record(&plan, "/data/a/extra").action, Action::RemoveDirectory);
    assert_eq!(record(&plan, "/data/b/junk.txt").disposition, Disposition::DanglingFile);
    assert_eq!(record(&plan, "/data/b/junk.txt").action, Action::RemoveFile);
    // dangling only after /data/b/junk.txt has been removed in the same pass
    assert_eq!(
        record(&plan, "/data/b").disposition,
        Disposition::DanglingEmptyDirectory
    );
    assert_eq!(record(&plan, "/data/b").action, Action::RemoveDirectory);
    // /data/a keeps its retained child
    assert_eq!(record(&plan, "/data/a").disposition, Disposition::Retained);
    // the storage root is never dangling, whatever it contains
    assert_eq!(record(&plan, "/data").disposition, Disposition::Retained);
}

#[test]
fn the_storage_root_is_never_dangling_even_when_empty() {
    let order = vec![entry("/data", EntryKind::Directory)];
    let expected = ExpectedFileSet::new();
    let plan = plan_dispositions(&order, &expected, &ROOT.to_string(), Mode::Delete, &None);
    assert_eq!(plan.len(), 1);
    assert_eq!(plan[0].disposition, Disposition::Retained);
    assert_eq!(plan[0].action, Action::Nothing);
}

#[test]
fn report_only_runs_are_idempotent() {
    let order = scenario_order();
    let expected = expected_movie();
    let first = plan_dispositions(&order, &expected, &ROOT.to_string(), Mode::Report, &None);
    let second = plan_dispositions(&order, &expected, &ROOT.to_string(), Mode::Report, &None);
    assert_eq!(first, second);
}

#[test]
fn move_mode_relocates_dangling_files_under_the_destination_root() {
    let order = scenario_order();
    let expected = expected_movie();
    let dest = Some("/dest".to_string());
    let plan = plan_dispositions(&order, &expected, &ROOT.to_string(), Mode::Move, &dest);
    assert_eq!(
        record(&plan, "/data/b/junk.txt").action,
        Action::MoveFileTo("/dest/junk.txt".to_string())
    );
    // the moved source is gone, so its directory empties within the pass
    assert_eq!(
        record(&plan, "/data/b").disposition,
        Disposition::DanglingEmptyDirectory
    );
    assert_eq!(record(&plan, "/data/b").action, Action::RemoveDirectory);
    assert_eq!(record(&plan, "/data/a/movie.mkv").action, Action::Nothing);
}

#[test]
fn copy_mode_leaves_the_sources_in_place() {
    let order = scenario_order();
    let expected = expected_movie();
    let dest = Some("/dest".to_string());
    let plan = plan_dispositions(&order, &expected, &ROOT.to_string(), Mode::Copy, &dest);
    assert_eq!(
        record(&plan, "/data/b/junk.txt").action,
        Action::CopyFileTo("/dest/junk.txt".to_string())
    );
    // nothing is removed, so the source's directory stays non-empty
    assert_eq!(record(&plan, "/data/b").disposition, Disposition::Retained);
    // a directory empty from the start is still recorded, but not touched
    assert_eq!(
        record(&plan, "/data/a/extra").disposition,
        Disposition::DanglingEmptyDirectory
    );
    assert_eq!(record(&plan, "/data/a/extra").action, Action::Nothing);
}

#[test]
fn a_dangling_file_is_one_missing_from_the_expected_set() {
    let order = vec![
        entry("/data/kept.txt", EntryKind::File),
        entry("/data", EntryKind::Directory),
    ];
    let expected = build_expected_set(
        &vec![vec!["kept.txt".to_string()]],
        &ROOT.to_string(),
        &None,
    );
    let plan = plan_dispositions(&order, &expected, &ROOT.to_string(), Mode::Delete, &None);
    assert_eq!(record(&plan, "/data/kept.txt").disposition, Disposition::Retained);
    assert_eq!(record(&plan, "/data").disposition, Disposition::Retained);
}
