use vstd::multiset::Multiset;
use vstd::prelude::*;

use crate::entry::{entry_wf, EntryKind, FilesystemEntry};
use crate::paths::{is_strict_ancestor, lemma_ancestor_count};

verus! {

/// `a` may precede `b` in the bottom-up order: deeper entries first, and at
/// equal depth directories before files; equally ranked entries may stand in
/// either order.
pub open spec fn sched_le(a: FilesystemEntry, b: FilesystemEntry) -> bool {
    ||| a.depth > b.depth
    ||| (a.depth == b.depth && (a.kind is Directory || b.kind is File))
}

/// Every earlier entry of `s` may precede every later one.
pub open spec fn sched_sorted(s: Seq<FilesystemEntry>) -> bool {
    forall|i: int, j: int| 0 <= i < j < s.len() ==> sched_le(#[trigger] s[i], #[trigger] s[j])
}

fn sched_le_exec(a: &FilesystemEntry, b: &FilesystemEntry) -> (r: bool)
    ensures
        r == sched_le(*a, *b),
{
    if a.depth > b.depth {
        true
    } else if a.depth == b.depth {
        match a.kind {
            EntryKind::Directory => true,
            EntryKind::File => match b.kind {
                EntryKind::File => true,
                EntryKind::Directory => false,
            },
        }
    } else {
        false
    }
}

/// Orders the walked entries bottom-up: children strictly before the
/// directories that contain them, directories before files at equal depth.
pub fn schedule_bottom_up(entries: Vec<FilesystemEntry>) -> (r: Vec<FilesystemEntry>)
    ensures
        r@.to_multiset() == entries@.to_multiset(),
        r@.len() == entries@.len(),
        sched_sorted(r@),
        forall|i: int| 0 <= i < r@.len() ==> entries@.contains(#[trigger] r@[i]),
{
    let ghost all = entries@;
    let mut work = entries;
    let mut out: Vec<FilesystemEntry> = Vec::new();
    proof {
        broadcast use vstd::seq_lib::group_to_multiset_ensures;

        assert(out@.to_multiset().add(work@.to_multiset()) =~= all.to_multiset());
    }
    while work.len() > 0
        invariant
            out@.to_multiset().add(work@.to_multiset()) == all.to_multiset(),
            out@.len() + work@.len() == all.len(),
            sched_sorted(out@),
            forall|i: int, j: int|
                0 <= i < out@.len() && 0 <= j < work@.len() ==> sched_le(
                    #[trigger] out@[i],
                    #[trigger] work@[j],
                ),
        decreases work@.len(),
    {
        let mut mi: usize = 0;
        let mut k: usize = 1;
        while k < work.len()
            invariant
                1 <= k <= work@.len(),
                mi < k,
                forall|j: int| 0 <= j < k ==> sched_le(work@[mi as int], #[trigger] work@[j]),
            decreases work@.len() - k,
        {
            if !sched_le_exec(&work[mi], &work[k]) {
                mi = k;
            }
            k = k + 1;
        }
        let ghost pre = work@;
        let picked = work.remove(mi);
        proof {
            broadcast use vstd::seq_lib::group_to_multiset_ensures;

            assert(pre.remove(mi as int).to_multiset() =~= pre.to_multiset().remove(picked));
            assert(out@.push(picked).to_multiset() =~= out@.to_multiset().insert(picked));
            assert(out@.to_multiset().insert(picked).add(pre.to_multiset().remove(picked)) =~= out@.to_multiset().add(
                pre.to_multiset(),
            ));
            assert forall|j: int| 0 <= j < work@.len() implies sched_le(
                picked,
                #[trigger] work@[j],
            ) by {
                if j < mi {
                    assert(work@[j] == pre[j]);
                } else {
                    assert(work@[j] == pre[j + 1]);
                }
            }
        }
        out.push(picked);
    }
    proof {
        broadcast use vstd::seq_lib::group_to_multiset_ensures;

        assert(work@.to_multiset() =~= Multiset::<FilesystemEntry>::empty());
        assert(out@.to_multiset().add(work@.to_multiset()) =~= out@.to_multiset());
        assert forall|i: int| 0 <= i < out@.len() implies all.contains(#[trigger] out@[i]) by {
            assert(out@.contains(out@[i]));
            assert(out@.to_multiset().count(out@[i]) > 0);
            assert(all.to_multiset().count(out@[i]) > 0);
        }
    }
    out
}

/// Entries drawn from a pool of well-formed entries are well-formed too:
/// carries well-formedness from a walk to any reordering of it, such as the
/// one `schedule_bottom_up` returns.
pub proof fn lemma_contained_entries_wf(
    pool: Seq<FilesystemEntry>,
    picked: Seq<FilesystemEntry>,
    root: Seq<char>,
)
    requires
        forall|k: int| 0 <= k < pool.len() ==> entry_wf(#[trigger] pool[k], root),
        forall|i: int| 0 <= i < picked.len() ==> pool.contains(#[trigger] picked[i]),
    ensures
        forall|i: int| 0 <= i < picked.len() ==> entry_wf(#[trigger] picked[i], root),
{
    assert forall|i: int| 0 <= i < picked.len() implies entry_wf(#[trigger] picked[i], root) by {
        let j = choose|j: int| 0 <= j < pool.len() && pool[j] == picked[i];
        assert(entry_wf(pool[j], root));
    }
}

/// Bottom-up ordering law: in a schedule-sorted sequence of entries that are
/// all well-formed below one root, an entry strictly beneath another always
/// stands strictly before it.
pub proof fn lemma_bottom_up_order(
    s: Seq<FilesystemEntry>,
    root: Seq<char>,
    i: int,
    j: int,
)
    requires
        sched_sorted(s),
        forall|k: int| 0 <= k < s.len() ==> entry_wf(#[trigger] s[k], root),
        0 <= i < s.len(),
        0 <= j < s.len(),
        is_strict_ancestor(s[i].path@, s[j].path@),
    ensures
        j < i,
{
    lemma_ancestor_count(s[i].path@, s[j].path@);
    assert(s[j].depth > s[i].depth);
    if i == j {
        assert(false);
    }
    if i < j {
        assert(sched_le(s[i], s[j]));
        assert(false);
    }
}

} // verus!
