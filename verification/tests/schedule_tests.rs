use torrent_sweep::entry::{EntryKind, FilesystemEntry};
use torrent_sweep::schedule::schedule_bottom_up;

fn entry(path: &str, kind: EntryKind, root: &str) -> FilesystemEntry {
    FilesystemEntry::new(path, kind, root).expect("entry lies under the root")
}

fn position(order: &[FilesystemEntry], path: &str) -> usize {
    order
        .iter()
        .position(|e| e.path == path)
        .expect("path present in the order")
}

#[test]
fn entries_outside_the_root_are_rejected() {
    assert!(FilesystemEntry::new("/elsewhere/file", EntryKind::File, "/data").is_none());
    assert!(FilesystemEntry::new("/database", EntryKind::Directory, "/data").is_none());
    assert!(FilesystemEntry::new("/data", EntryKind::Directory, "/data").is_some());
}

#[test]
fn entry_paths_are_canonicalized_on_construction() {
    let e = FilesystemEntry::new("C:\\data\\a", EntryKind::Directory, "C:\\data")
        .expect("entry lies under the root");
    assert_eq!(e.path, "C:/data/a");
    assert_eq!(e.depth, 1);
}

#[test]
fn depth_counts_components_below_the_root() {
    let root = "/data";
    assert_eq!(entry("/data", EntryKind::Directory, root).depth, 0);
    assert_eq!(entry("/data/a", EntryKind::Directory, root).depth, 1);
    assert_eq!(entry("/data/a/b.txt", EntryKind::File, root).depth, 2);
}

#[test]
fn children_always_precede_their_ancestors() {
    let root = "/data";
    let walk = vec![
        entry("/data", EntryKind::Directory, root),
        entry("/data/a", EntryKind::Directory, root),
        entry("/data/a/movie.mkv", EntryKind::File, root),
        entry("/data/a/extra", EntryKind::Directory, root),
        entry("/data/b", EntryKind::Directory, root),
        entry("/data/b/junk.txt", EntryKind::File, root),
    ];
    let order = schedule_bottom_up(walk);
    assert_eq!(order.len(), 6);
    let ancestor_pairs = [
        ("/data", "/data/a"),
        ("/data", "/data/b"),
        ("/data", "/data/a/movie.mkv"),
        ("/data", "/data/a/extra"),
        ("/data", "/data/b/junk.txt"),
        ("/data/a", "/data/a/movie.mkv"),
        ("/data/a", "/data/a/extra"),
        ("/data/b", "/data/b/junk.txt"),
    ];
    for (a, b) in ancestor_pairs {
        assert!(
            position(&order, b) < position(&order, a),
            "{} must come before {}",
            b,
            a
        );
    }
}

#[test]
fn deeper_entries_come_first_and_directories_lead_their_depth() {
    let root = "/data";
    let walk = vec![
        entry("/data/a/file.txt", EntryKind::File, root),
        entry("/data/a/sub", EntryKind::Directory, root),
        entry("/data", EntryKind::Directory, root),
        entry("/data/a", EntryKind::Directory, root),
    ];
    let order = schedule_bottom_up(walk);
    for w in order.windows(2) {
        assert!(w[0].depth >= w[1].depth);
        if w[0].depth == w[1].depth {
            assert!(
                matches!(w[0].kind, EntryKind::Directory) || matches!(w[1].kind, EntryKind::File)
            );
        }
    }
    // directories lead files of the same depth
    assert!(position(&order, "/data/a/sub") < position(&order, "/data/a/file.txt"));
}

#[test]
fn the_order_is_a_permutation_of_the_walk() {
    let root = "/data";
    let walk = vec![
        entry("/data/x", EntryKind::File, root),
        entry("/data", EntryKind::Directory, root),
        entry("/data/y", EntryKind::Directory, root),
    ];
    let order = schedule_bottom_up(walk);
    assert_eq!(order.len(), 3);
    for p in ["/data/x", "/data", "/data/y"] {
        assert_eq!(order.iter().filter(|e| e.path == p).count(), 1);
    }
}
