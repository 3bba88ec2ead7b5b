use vstd::prelude::*;

use crate::paths::{
    canon, check_strict_ancestor, count_char, count_slashes, is_at_or_below, is_strict_ancestor,
    lemma_ancestor_count, normalize,
};

verus! {

/// Whether an on-disk entry is a plain file or a directory.
#[derive(Clone, Copy, Debug, PartialEq, Eq, Structural)]
pub enum EntryKind {
    File,
    Directory,
}

/// One entry of the walked tree: its canonical path, its kind, and its depth
/// in path components below the walk root.
#[derive(Debug, Clone)]
pub struct FilesystemEntry {
    pub path: String,
    pub kind: EntryKind,
    pub depth: usize,
}

/// Well-formed relative to a canonical root: the path lies at or below the
/// root and the depth equals the number of separators the path adds to it.
pub open spec fn entry_wf(e: FilesystemEntry, root: Seq<char>) -> bool {
    &&& is_at_or_below(e.path@, root)
    &&& e.depth as int == count_char(e.path@, '/') - count_char(root, '/')
}

impl FilesystemEntry {
    /// Canonicalizes `path` and builds the entry when the result lies at or
    /// below the canonical form of `root`; rejects paths outside the root.
    pub fn new(path: &str, kind: EntryKind, root: &str) -> (r: Option<FilesystemEntry>)
        ensures
            match r {
                Some(e) => {
                    &&& e.path@ == canon(path@)
                    &&& e.kind == kind
                    &&& entry_wf(e, canon(root@))
                    &&& is_at_or_below(canon(path@), canon(root@))
                },
                None => !is_at_or_below(canon(path@), canon(root@)),
            },
    {
        let p = normalize(path);
        let rt = normalize(root);
        let below = if p == rt {
            true
        } else {
            check_strict_ancestor(rt.as_str(), p.as_str())
        };
        if !below {
            return None;
        }
        let dp = count_slashes(p.as_str());
        let dr = count_slashes(rt.as_str());
        proof {
            if p@ != rt@ {
                lemma_ancestor_count(rt@, p@);
            }
        }
        Some(FilesystemEntry { path: p, kind, depth: dp - dr })
    }
}

} // verus!
