use vstd::prelude::*;

use crate::entry::{EntryKind, FilesystemEntry};
use crate::expected::{opt_view, ExpectedFileSet};
use crate::paths::{basename, basename_of, canon, check_strict_ancestor, is_strict_ancestor,
    join_canon, join_under, normalize};

verus! {

/// The configured disposition mode for dangling entries.
#[derive(Clone, Copy, Debug, PartialEq, Eq, Structural)]
pub enum Mode {
    /// Emit classification records only; never touch the tree.
    Report,
    /// Remove dangling files and dangling empty directories.
    Delete,
    /// Relocate dangling files under the destination root and remove
    /// dangling empty directories; the sources disappear.
    Move,
    /// Copy dangling files under the destination root; the tree is left
    /// untouched.
    Copy,
}

/// The classification of one walked entry.
#[derive(Clone, Copy, Debug, PartialEq, Eq, Structural)]
pub enum Disposition {
    Retained,
    DanglingFile,
    DanglingEmptyDirectory,
}

/// The single filesystem operation planned for one entry.
#[derive(Clone, Debug, PartialEq, Eq)]
pub enum Action {
    /// Nothing to do: the entry is retained, or the mode calls for a record
    /// only.
    Nothing,
    RemoveFile,
    RemoveDirectory,
    /// Relocate the file to this destination path; the source disappears.
    MoveFileTo(String),
    /// Copy the file to this destination path; the source stays in place.
    CopyFileTo(String),
}

/// One classification record: the entry's canonical path and kind, its
/// disposition, and the action the configured mode calls for.
#[derive(Clone, Debug, PartialEq, Eq)]
pub struct PlannedEntry {
    pub path: String,
    pub kind: EntryKind,
    pub disposition: Disposition,
    pub action: Action,
}

/// Modes that mutate the tree under the storage root as they go.
pub open spec fn mode_destructive(m: Mode) -> bool {
    m is Delete || m is Move
}

fn mode_destructive_exec(m: Mode) -> (r: bool)
    ensures
        r == mode_destructive(m),
{
    match m {
        Mode::Delete | Mode::Move => true,
        Mode::Report | Mode::Copy => false,
    }
}

/// A directory is empty at evaluation time when every walked entry strictly
/// beneath it has already been removed.
pub open spec fn dir_empty_at(
    entries: Seq<FilesystemEntry>,
    path: Seq<char>,
    removed: Set<Seq<char>>,
) -> bool {
    forall|j: int|
        0 <= j < entries.len() && is_strict_ancestor(path, (#[trigger] entries[j]).path@)
            ==> removed.contains(entries[j].path@)
}

/// The disposition of entry `e` of the walked snapshot, given which paths
/// have already been removed: a file dangles when it is not expected; a
/// directory dangles when it is not the storage root and is empty at
/// evaluation time.
pub open spec fn disposition_of(
    e: FilesystemEntry,
    expected: Map<Seq<char>, Option<Seq<char>>>,
    root: Seq<char>,
    entries: Seq<FilesystemEntry>,
    removed: Set<Seq<char>>,
) -> Disposition {
    match e.kind {
        EntryKind::File => if expected.contains_key(e.path@) {
            Disposition::Retained
        } else {
            Disposition::DanglingFile
        },
        EntryKind::Directory => if e.path@ != root && dir_empty_at(entries, e.path@, removed) {
            Disposition::DanglingEmptyDirectory
        } else {
            Disposition::Retained
        },
    }
}

/// The set of paths removed once the first `i` entries have been processed:
/// empty under a non-destructive mode, otherwise every dangling path seen so
/// far.
pub open spec fn removed_upto(
    entries: Seq<FilesystemEntry>,
    expected: Map<Seq<char>, Option<Seq<char>>>,
    root: Seq<char>,
    destructive: bool,
    i: int,
) -> Set<Seq<char>>
    decreases i,
{
    if i <= 0 {
        Set::empty()
    } else {
        let prev = removed_upto(entries, expected, root, destructive, i - 1);
        if destructive && !(disposition_of(entries[i - 1], expected, root, entries, prev)
            is Retained) {
            prev.insert(entries[i - 1].path@)
        } else {
            prev
        }
    }
}

/// The disposition the engine assigns to entry `i` of the ordered sequence.
pub open spec fn disposition_at(
    entries: Seq<FilesystemEntry>,
    expected: Map<Seq<char>, Option<Seq<char>>>,
    root: Seq<char>,
    destructive: bool,
    i: int,
) -> Disposition {
    disposition_of(
        entries[i],
        expected,
        root,
        entries,
        removed_upto(entries, expected, root, destructive, i),
    )
}

/// Relates the planned action to the mode, the entry and its disposition.
pub open spec fn action_ok(
    a: Action,
    m: Mode,
    e: FilesystemEntry,
    d: Disposition,
    dest_root: Option<Seq<char>>,
) -> bool {
    match d {
        Disposition::Retained => a is Nothing,
        Disposition::DanglingFile => match m {
            Mode::Report => a is Nothing,
            Mode::Delete => a is RemoveFile,
            Mode::Move => match a {
                Action::MoveFileTo(p) => match dest_root {
                    Option::Some(dn) => p@ == join_canon(dn, basename(e.path@)),
                    Option::None => false,
                },
                _ => false,
            },
            Mode::Copy => match a {
                Action::CopyFileTo(p) => match dest_root {
                    Option::Some(dn) => p@ == join_canon(dn, basename(e.path@)),
                    Option::None => false,
                },
                _ => false,
            },
        },
        Disposition::DanglingEmptyDirectory => match m {
            Mode::Report => a is Nothing,
            Mode::Delete => a is RemoveDirectory,
            Mode::Move => a is RemoveDirectory,
            Mode::Copy => a is Nothing,
        },
    }
}

/// The whole contract of a produced plan: one record per walked entry, in
/// order, carrying the entry's path and kind, the engine's disposition for
/// it, and the action the mode calls for.
pub open spec fn plan_ok(
    r: Seq<PlannedEntry>,
    entries: Seq<FilesystemEntry>,
    expected: Map<Seq<char>, Option<Seq<char>>>,
    root: Seq<char>,
    m: Mode,
    dest_root: Option<Seq<char>>,
) -> bool {
    &&& r.len() == entries.len()
    &&& forall|i: int|
        0 <= i < entries.len() ==> {
            &&& (#[trigger] r[i]).path@ == entries[i].path@
            &&& r[i].kind == entries[i].kind
            &&& r[i].disposition == disposition_at(entries, expected, root, mode_destructive(m), i)
            &&& action_ok(r[i].action, m, entries[i], r[i].disposition, dest_root)
        }
}

/// The set of canonical paths held by a list of path strings.
pub open spec fn strs_set(v: Seq<String>) -> Set<Seq<char>> {
    Set::new(|k: Seq<char>| exists|j: int| 0 <= j < v.len() && v[j]@ == k)
}

proof fn lemma_strs_set_push(v: Seq<String>, s: String)
    ensures
        strs_set(v.push(s)) == strs_set(v).insert(s@),
{
    assert forall|k: Seq<char>| #[trigger]
        strs_set(v.push(s)).contains(k) implies strs_set(v).insert(s@).contains(k) by {
        let j = choose|j: int| 0 <= j < v.push(s).len() && v.push(s)[j]@ == k;
        if j < v.len() {
            assert(v[j]@ == k);
        } else {
            assert(s@ == k);
        }
    }
    assert forall|k: Seq<char>| #[trigger]
        strs_set(v).insert(s@).contains(k) implies strs_set(v.push(s)).contains(k) by {
        if k == s@ {
            assert(v.push(s)[v.len() as int]@ == k);
        } else {
            let j = choose|j: int| 0 <= j < v.len() && v[j]@ == k;
            assert(v.push(s)[j]@ == k);
        }
    }
    assert(strs_set(v.push(s)) =~= strs_set(v).insert(s@));
}

fn removed_contains(removed: &Vec<String>, path: &String) -> (r: bool)
    ensures
        r == strs_set(removed@).contains(path@),
{
    let mut j: usize = 0;
    while j < removed.len()
        invariant
            j <= removed@.len(),
            forall|x: int| 0 <= x < j ==> removed@[x]@ != path@,
        decreases removed@.len() - j,
    {
        if removed[j] == *path {
            return true;
        }
        j = j + 1;
    }
    false
}

fn dir_empty_check(entries: &Vec<FilesystemEntry>, path: &String, removed: &Vec<String>) -> (r:
    bool)
    ensures
        r == dir_empty_at(entries@, path@, strs_set(removed@)),
{
    let mut j: usize = 0;
    while j < entries.len()
        invariant
            j <= entries@.len(),
            forall|x: int|
                0 <= x < j && is_strict_ancestor(path@, (#[trigger] entries@[x]).path@)
                    ==> strs_set(removed@).contains(entries@[x].path@),
        decreases entries@.len() - j,
    {
        if check_strict_ancestor(path.as_str(), entries[j].path.as_str()) {
            if !removed_contains(removed, &entries[j].path) {
                return false;
            }
        }
        j = j + 1;
    }
    true
}

fn dest_join(dest_root: &Option<String>, path: &String) -> (r: String)
    requires
        dest_root is Some,
    ensures
        match *dest_root {
            Option::Some(d) => r@ == join_canon(d@, basename(path@)),
            Option::None => false,
        },
{
    let base = basename_of(path.as_str());
    match dest_root {
        Option::Some(d) => join_under(d.as_str(), base.as_str()),
        Option::None => vstd::pervasive::unreached(),
    }
}

/// Classifies every entry of the bottom-up ordered snapshot against the
/// expected set and plans the configured action for each: a file dangles
/// when its path is not expected; a directory dangles when it is not the
/// storage root and every walked entry beneath it has already been removed
/// by this same pass (under a destructive mode) or it had none to begin
/// with. Actions mutate nothing here: the caller applies them, each in
/// isolation, in the order of the records.
pub fn plan_dispositions(
    entries: &Vec<FilesystemEntry>,
    expected: &ExpectedFileSet,
    root: &String,
    mode: Mode,
    dest_root: &Option<String>,
) -> (r: Vec<PlannedEntry>)
    requires
        (mode is Move || mode is Copy) ==> dest_root is Some,
    ensures
        plan_ok(r@, entries@, expected@, canon(root@), mode, opt_view(*dest_root)),
{
    let root_n = normalize(root.as_str());
    let destructive = mode_destructive_exec(mode);
    let mut removed: Vec<String> = Vec::new();
    let mut out: Vec<PlannedEntry> = Vec::new();
    let ghost ex = expected@;
    let ghost rn = canon(root@);
    let mut i: usize = 0;
    proof {
        assert(strs_set(removed@) =~= Set::<Seq<char>>::empty());
    }
    while i < entries.len()
        invariant
            i <= entries@.len(),
            out@.len() == i,
            root_n@ == rn,
            rn == canon(root@),
            destructive == mode_destructive(mode),
            (mode is Move || mode is Copy) ==> dest_root is Some,
            ex == expected@,
            strs_set(removed@) == removed_upto(entries@, ex, rn, destructive, i as int),
            forall|k: int|
                0 <= k < i ==> {
                    &&& (#[trigger] out@[k]).path@ == entries@[k].path@
                    &&& out@[k].kind == entries@[k].kind
                    &&& out@[k].disposition == disposition_at(entries@, ex, rn, destructive, k)
                    &&& action_ok(
                        out@[k].action,
                        mode,
                        entries@[k],
                        out@[k].disposition,
                        opt_view(*dest_root),
                    )
                },
        decreases entries@.len() - i,
    {
        let ghost prev = strs_set(removed@);
        let e = &entries[i];
        let disp: Disposition = match e.kind {
            EntryKind::File => {
                if expected.contains_path(&e.path) {
                    Disposition::Retained
                } else {
                    Disposition::DanglingFile
                }
            },
            EntryKind::Directory => {
                let at_root = e.path == root_n;
                if !at_root && dir_empty_check(entries, &e.path, &removed) {
                    Disposition::DanglingEmptyDirectory
                } else {
                    Disposition::Retained
                }
            },
        };
        proof {
            assert(disp == disposition_of(entries@[i as int], ex, rn, entries@, prev));
            assert(disp == disposition_at(entries@, ex, rn, destructive, i as int));
        }
        let act: Action = match disp {
            Disposition::Retained => Action::Nothing,
            Disposition::DanglingFile => match mode {
                Mode::Report => Action::Nothing,
                Mode::Delete => Action::RemoveFile,
                Mode::Move => Action::MoveFileTo(dest_join(dest_root, &e.path)),
                Mode::Copy => Action::CopyFileTo(dest_join(dest_root, &e.path)),
            },
            Disposition::DanglingEmptyDirectory => match mode {
                Mode::Report => Action::Nothing,
                Mode::Delete | Mode::Move => Action::RemoveDirectory,
                Mode::Copy => Action::Nothing,
            },
        };
        out.push(
            PlannedEntry { path: e.path.clone(), kind: e.kind, disposition: disp, action: act },
        );
        let dangles: bool = match disp {
            Disposition::Retained => false,
            _ => true,
        };
        if destructive && dangles {
            let ghost pre_removed = removed@;
            removed.push(e.path.clone());
            proof {
                lemma_strs_set_push(pre_removed, e.path);
            }
        }
        i = i + 1;
    }
    out
}

/// A non-destructive pass removes nothing: the removed set stays empty
/// however many entries have been processed.
pub proof fn lemma_nondestructive_removes_nothing(
    entries: Seq<FilesystemEntry>,
    expected: Map<Seq<char>, Option<Seq<char>>>,
    root: Seq<char>,
    i: int,
)
    ensures
        removed_upto(entries, expected, root, false, i) == Set::<Seq<char>>::empty(),
    decreases (if i > 0 { i } else { 0 }),
{
    if i > 0 {
        lemma_nondestructive_removes_nothing(entries, expected, root, i - 1);
    }
}

/// Report-only classification is a pure function of the unmodified snapshot:
/// each entry's disposition ignores the pass position, so running the
/// classifier twice over the same tree and expected set yields identical
/// classification records.
pub proof fn lemma_report_only_idempotent(
    entries: Seq<FilesystemEntry>,
    expected: Map<Seq<char>, Option<Seq<char>>>,
    root: Seq<char>,
    r1: Seq<PlannedEntry>,
    r2: Seq<PlannedEntry>,
    d1: Option<Seq<char>>,
    d2: Option<Seq<char>>,
)
    requires
        plan_ok(r1, entries, expected, root, Mode::Report, d1),
        plan_ok(r2, entries, expected, root, Mode::Report, d2),
    ensures
        r1.len() == r2.len(),
        forall|i: int|
            0 <= i < r1.len() ==> {
                &&& (#[trigger] r1[i]).path@ == r2[i].path@
                &&& r1[i].kind == r2[i].kind
                &&& r1[i].disposition == r2[i].disposition
                &&& r1[i].action == r2[i].action
                &&& r2[i].action == Action::Nothing
                &&& r1[i].disposition == disposition_of(
                    entries[i],
                    expected,
                    root,
                    entries,
                    Set::empty(),
                )
            },
{
    assert forall|i: int| 0 <= i < r1.len() implies {
        &&& (#[trigger] r1[i]).path@ == r2[i].path@
        &&& r1[i].kind == r2[i].kind
        &&& r1[i].disposition == r2[i].disposition
        &&& r1[i].action == r2[i].action
        &&& r2[i].action == Action::Nothing
        &&& r1[i].disposition == disposition_of(entries[i], expected, root, entries, Set::empty())
    } by {
        lemma_nondestructive_removes_nothing(entries, expected, root, i);
        assert(r1[i].disposition == disposition_at(entries, expected, root, false, i));
        assert(r2[i].disposition == disposition_at(entries, expected, root, false, i));
        assert(r1[i].action is Nothing);
        assert(r2[i].action is Nothing);
    }
}

/// Directory-deletion safety: the storage root is never classified as a
/// dangling empty directory, and neither is a directory that still has a
/// surviving walked entry beneath it at evaluation time.
pub proof fn lemma_directory_safety(
    entries: Seq<FilesystemEntry>,
    expected: Map<Seq<char>, Option<Seq<char>>>,
    root: Seq<char>,
    destructive: bool,
    i: int,
    j: int,
)
    requires
        0 <= i < entries.len(),
        entries[i].kind is Directory,
    ensures
        entries[i].path@ == root ==> disposition_at(entries, expected, root, destructive, i)
            == Disposition::Retained,
        (0 <= j < entries.len() && is_strict_ancestor(entries[i].path@, entries[j].path@)
            && !removed_upto(entries, expected, root, destructive, i).contains(entries[j].path@))
            ==> disposition_at(entries, expected, root, destructive, i) == Disposition::Retained,
        (!destructive && 0 <= j < entries.len() && is_strict_ancestor(
            entries[i].path@,
            entries[j].path@,
        )) ==> disposition_at(entries, expected, root, destructive, i) == Disposition::Retained,
{
    let removed = removed_upto(entries, expected, root, destructive, i);
    if 0 <= j < entries.len() && is_strict_ancestor(entries[i].path@, entries[j].path@)
        && !removed.contains(entries[j].path@) {
        assert(!dir_empty_at(entries, entries[i].path@, removed));
    }
    if !destructive {
        lemma_nondestructive_removes_nothing(entries, expected, root, i);
        if 0 <= j < entries.len() && is_strict_ancestor(entries[i].path@, entries[j].path@) {
            assert(!removed.contains(entries[j].path@));
            assert(!dir_empty_at(entries, entries[i].path@, removed));
        }
    }
}

} // verus!
