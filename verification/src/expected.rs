use vstd::prelude::*;

use crate::paths::{join_canon, join_under};

verus! {

/// View of an optional destination path.
pub open spec fn opt_view(o: Option<String>) -> Option<Seq<char>> {
    match o {
        Option::None => Option::None,
        Option::Some(s) => Option::Some(s@),
    }
}

/// The mapping described by a sequence of (source, destination) pairs; a
/// later pair with the same source overrides an earlier one.
pub open spec fn pairs_map(s: Seq<(String, Option<String>)>) -> Map<Seq<char>, Option<Seq<char>>>
    decreases s.len(),
{
    if s.len() == 0 {
        Map::empty()
    } else {
        pairs_map(s.drop_last()).insert(s.last().0@, opt_view(s.last().1))
    }
}

/// A key is in the mapping exactly when some pair carries it.
pub proof fn lemma_pairs_map_key(s: Seq<(String, Option<String>)>, k: Seq<char>)
    ensures
        pairs_map(s).contains_key(k) <==> exists|j: int| 0 <= j < s.len() && s[j].0@ == k,
    decreases s.len(),
{
    if s.len() > 0 {
        lemma_pairs_map_key(s.drop_last(), k);
        if s.last().0@ == k {
            assert(s[s.len() - 1].0@ == k);
        } else {
            if exists|j: int| 0 <= j < s.len() && s[j].0@ == k {
                let j = choose|j: int| 0 <= j < s.len() && s[j].0@ == k;
                assert(s.drop_last()[j] == s[j]);
            }
            if exists|j: int| 0 <= j < s.len() - 1 && s.drop_last()[j].0@ == k {
                let j = choose|j: int| 0 <= j < s.len() - 1 && s.drop_last()[j].0@ == k;
                assert(s[j].0@ == k);
            }
        }
    }
}

/// The value of a key is the one of the last pair that carries it.
pub proof fn lemma_pairs_map_value(s: Seq<(String, Option<String>)>, i: int, k: Seq<char>)
    requires
        0 <= i < s.len(),
        s[i].0@ == k,
        forall|j: int| i < j < s.len() ==> s[j].0@ != k,
    ensures
        pairs_map(s).contains_key(k),
        pairs_map(s)[k] == opt_view(s[i].1),
    decreases s.len(),
{
    if i == s.len() - 1 {
    } else {
        assert(s.drop_last()[i] == s[i]);
        lemma_pairs_map_value(s.drop_last(), i, k);
    }
}

/// The expected file set: a mapping from each canonical expected source path
/// to its optional destination path, built once per run and then only read.
pub struct ExpectedFileSet {
    pub pairs: Vec<(String, Option<String>)>,
}

impl View for ExpectedFileSet {
    type V = Map<Seq<char>, Option<Seq<char>>>;

    open spec fn view(&self) -> Map<Seq<char>, Option<Seq<char>>> {
        pairs_map(self.pairs@)
    }
}

impl ExpectedFileSet {
    /// An empty expected set.
    pub fn new() -> (r: ExpectedFileSet)
        ensures
            r@ == Map::<Seq<char>, Option<Seq<char>>>::empty(),
    {
        ExpectedFileSet { pairs: Vec::new() }
    }

    /// Records that `source` is expected, with an optional destination; an
    /// earlier record for the same source is overridden (last write wins).
    pub fn insert(&mut self, source: String, dest: Option<String>)
        ensures
            final(self)@ == old(self)@.insert(source@, opt_view(dest)),
    {
        let ghost pre = self.pairs@;
        self.pairs.push((source, dest));
        proof {
            assert(self.pairs@.drop_last() =~= pre);
        }
    }

    /// Membership test: is `path` one of the expected source paths?
    pub fn contains_path(&self, path: &String) -> (r: bool)
        ensures
            r == self@.contains_key(path@),
    {
        let mut i: usize = self.pairs.len();
        while i > 0
            invariant
                i <= self.pairs@.len(),
                forall|j: int| i <= j < self.pairs@.len() ==> self.pairs@[j].0@ != path@,
            decreases i,
        {
            i = i - 1;
            if self.pairs[i].0 == *path {
                proof {
                    lemma_pairs_map_key(self.pairs@, path@);
                }
                return true;
            }
        }
        proof {
            lemma_pairs_map_key(self.pairs@, path@);
        }
        false
    }

    /// The destination recorded for `path`: `None` when `path` is not
    /// expected, otherwise the optional destination of its latest record.
    pub fn dest_of(&self, path: &String) -> (r: Option<Option<String>>)
        ensures
            match r {
                Option::Some(d) => self@.contains_key(path@) && opt_view(d) == self@[path@],
                Option::None => !self@.contains_key(path@),
            },
    {
        let mut i: usize = self.pairs.len();
        while i > 0
            invariant
                i <= self.pairs@.len(),
                forall|j: int| i <= j < self.pairs@.len() ==> self.pairs@[j].0@ != path@,
            decreases i,
        {
            i = i - 1;
            if self.pairs[i].0 == *path {
                proof {
                    lemma_pairs_map_value(self.pairs@, i as int, path@);
                }
                let d = match &self.pairs[i].1 {
                    Option::Some(s) => Option::Some(s.clone()),
                    Option::None => Option::None,
                };
                return Option::Some(d);
            }
        }
        proof {
            lemma_pairs_map_key(self.pairs@, path@);
        }
        Option::None
    }

    /// How many distinct source paths are recorded, counting each at most
    /// once however often it was inserted.
    pub fn source_count(&self) -> (n: usize)
        ensures
            n == self.pairs@.len(),
    {
        self.pairs.len()
    }
}

/// View of a list of file names.
pub open spec fn names_view(l: Seq<String>) -> Seq<Seq<char>> {
    l.map_values(|s: String| s@)
}

/// View of the per-item lists of file names.
pub open spec fn lists_view(v: Seq<Vec<String>>) -> Seq<Seq<Seq<char>>> {
    v.map_values(|l: Vec<String>| names_view(l@))
}

/// The destination planned for a file name when a relocation is requested.
pub open spec fn dest_for(dest_root: Option<Seq<char>>, name: Seq<char>) -> Option<Seq<char>> {
    match dest_root {
        Option::None => Option::None,
        Option::Some(d) => Option::Some(join_canon(d, name)),
    }
}

/// The expected map extended with every file name of one item.
pub open spec fn exp_map_names(
    m0: Map<Seq<char>, Option<Seq<char>>>,
    names: Seq<Seq<char>>,
    root: Seq<char>,
    dest_root: Option<Seq<char>>,
) -> Map<Seq<char>, Option<Seq<char>>>
    decreases names.len(),
{
    if names.len() == 0 {
        m0
    } else {
        exp_map_names(m0, names.drop_last(), root, dest_root).insert(
            join_canon(root, names.last()),
            dest_for(dest_root, names.last()),
        )
    }
}

/// The expected map of all items' file lists under the storage root.
pub open spec fn expected_map(
    lists: Seq<Seq<Seq<char>>>,
    root: Seq<char>,
    dest_root: Option<Seq<char>>,
) -> Map<Seq<char>, Option<Seq<char>>>
    decreases lists.len(),
{
    if lists.len() == 0 {
        Map::empty()
    } else {
        exp_map_names(expected_map(lists.drop_last(), root, dest_root), lists.last(), root, dest_root)
    }
}

/// Builds the expected file set: for every file name of every filtered item,
/// the canonical path of the name under the storage root becomes an expected
/// source, mapped to the name's destination under the destination root when
/// one is given. A later item's name overrides an earlier item's equal path.
pub fn build_expected_set(
    file_lists: &Vec<Vec<String>>,
    storage_root: &String,
    dest_root: &Option<String>,
) -> (r: ExpectedFileSet)
    ensures
        r@ == expected_map(lists_view(file_lists@), storage_root@, opt_view(*dest_root)),
{
    let ghost lists = lists_view(file_lists@);
    let ghost rootv = storage_root@;
    let ghost destv = opt_view(*dest_root);
    let mut set = ExpectedFileSet::new();
    let mut i: usize = 0;
    proof {
        assert(lists.subrange(0, 0) =~= Seq::<Seq<Seq<char>>>::empty());
    }
    while i < file_lists.len()
        invariant
            i <= file_lists@.len(),
            lists == lists_view(file_lists@),
            rootv == storage_root@,
            destv == opt_view(*dest_root),
            set@ == expected_map(lists.subrange(0, i as int), rootv, destv),
        decreases file_lists@.len() - i,
    {
        let names = &file_lists[i];
        let ghost namesv = names_view(names@);
        let ghost m0 = set@;
        let mut j: usize = 0;
        proof {
            assert(namesv.subrange(0, 0) =~= Seq::<Seq<char>>::empty());
        }
        while j < names.len()
            invariant
                j <= names@.len(),
                namesv == names_view(names@),
                rootv == storage_root@,
                destv == opt_view(*dest_root),
                set@ == exp_map_names(m0, namesv.subrange(0, j as int), rootv, destv),
            decreases names@.len() - j,
        {
            let name = &names[j];
            let source = join_under(storage_root.as_str(), name.as_str());
            let dest = match dest_root {
                Option::Some(d) => Option::Some(join_under(d.as_str(), name.as_str())),
                Option::None => Option::None,
            };
            proof {
                let taken = namesv.subrange(0, j + 1);
                assert(taken.drop_last() =~= namesv.subrange(0, j as int));
                assert(taken.last() == namesv[j as int]);
                assert(namesv[j as int] == name@);
            }
            set.insert(source, dest);
            j = j + 1;
        }
        proof {
            assert(namesv.subrange(0, names@.len() as int) =~= namesv);
            let taken = lists.subrange(0, i + 1);
            assert(taken.drop_last() =~= lists.subrange(0, i as int));
            assert(taken.last() == lists[i as int]);
            assert(lists[i as int] == namesv);
        }
        i = i + 1;
    }
    proof {
        assert(lists.subrange(0, lists.len() as int) =~= lists);
    }
    set
}

/// A key of the expected map arises from some (item, file-name) pair, and
/// every pair's canonical path under the root is a key of the map.
pub proof fn lemma_exp_map_names_keys(
    m0: Map<Seq<char>, Option<Seq<char>>>,
    names: Seq<Seq<char>>,
    root: Seq<char>,
    dest_root: Option<Seq<char>>,
    k: Seq<char>,
)
    ensures
        exp_map_names(m0, names, root, dest_root).contains_key(k) <==> (m0.contains_key(k)
            || exists|j: int| 0 <= j < names.len() && k == join_canon(root, #[trigger] names[j])),
    decreases names.len(),
{
    if names.len() > 0 {
        lemma_exp_map_names_keys(m0, names.drop_last(), root, dest_root, k);
        if k == join_canon(root, names.last()) {
            assert(k == join_canon(root, names[names.len() - 1]));
        } else {
            if exists|j: int| 0 <= j < names.len() && k == join_canon(root, #[trigger] names[j]) {
                let j = choose|j: int|
                    0 <= j < names.len() && k == join_canon(root, #[trigger] names[j]);
                assert(names.drop_last()[j] == names[j]);
            }
            if exists|j: int|
                0 <= j < names.len() - 1 && k == join_canon(root, #[trigger] names.drop_last()[j]) {
                let j = choose|j: int|
                    0 <= j < names.len() - 1 && k == join_canon(root, #[trigger] names.drop_last()[j]);
                assert(names[j] == names.drop_last()[j]);
            }
        }
    }
}

/// Every key of the expected map is the canonical path, under the storage
/// root, of some listed (item, file-name) pair — and every listed pair
/// contributes its canonical path as a key.
pub proof fn lemma_expected_map_keys(
    lists: Seq<Seq<Seq<char>>>,
    root: Seq<char>,
    dest_root: Option<Seq<char>>,
    k: Seq<char>,
)
    ensures
        expected_map(lists, root, dest_root).contains_key(k) <==> (exists|i: int, j: int|
            0 <= i < lists.len() && 0 <= j < (#[trigger] lists[i]).len() && k == join_canon(
                root,
                #[trigger] lists[i][j],
            )),
    decreases lists.len(),
{
    if lists.len() > 0 {
        lemma_expected_map_keys(lists.drop_last(), root, dest_root, k);
        lemma_exp_map_names_keys(
            expected_map(lists.drop_last(), root, dest_root),
            lists.last(),
            root,
            dest_root,
            k,
        );
        let n = lists.len() - 1;
        if expected_map(lists, root, dest_root).contains_key(k) {
            if expected_map(lists.drop_last(), root, dest_root).contains_key(k) {
                let (i, j) = choose|i: int, j: int|
                    0 <= i < lists.drop_last().len() && 0 <= j < (#[trigger] lists.drop_last()[i]).len()
                        && k == join_canon(root, #[trigger] lists.drop_last()[i][j]);
                assert(lists[i] == lists.drop_last()[i]);
                assert(0 <= i < lists.len() && 0 <= j < lists[i].len() && k == join_canon(
                    root,
                    lists[i][j],
                ));
            } else {
                let j = choose|j: int|
                    0 <= j < lists.last().len() && k == join_canon(root, #[trigger] lists.last()[j]);
                assert(lists[n] == lists.last());
                assert(0 <= n < lists.len() && 0 <= j < lists[n].len() && k == join_canon(
                    root,
                    lists[n][j],
                ));
            }
        }
        if exists|i: int, j: int|
            0 <= i < lists.len() && 0 <= j < (#[trigger] lists[i]).len() && k == join_canon(
                root,
                #[trigger] lists[i][j],
            ) {
            let (i, j) = choose|i: int, j: int|
                0 <= i < lists.len() && 0 <= j < (#[trigger] lists[i]).len() && k == join_canon(
                    root,
                    #[trigger] lists[i][j],
                );
            if i < n {
                assert(lists.drop_last()[i] == lists[i]);
                assert(0 <= i < lists.drop_last().len() && 0 <= j < lists.drop_last()[i].len()
                    && k == join_canon(root, lists.drop_last()[i][j]));
            } else {
                assert(lists.last() == lists[n]);
                assert(0 <= j < lists.last().len() && k == join_canon(root, lists.last()[j]));
            }
        }
    }
}

/// When no two distinct (item, file-name) pairs share a canonical path —
/// the collision-free case — each key of the expected map corresponds to
/// exactly one such pair.
pub proof fn lemma_expected_key_unique_origin(
    lists: Seq<Seq<Seq<char>>>,
    root: Seq<char>,
    k: Seq<char>,
    i1: int,
    j1: int,
    i2: int,
    j2: int,
)
    requires
        forall|a: int, b: int, c: int, d: int|
            (0 <= a < lists.len() && 0 <= b < lists[a].len() && 0 <= c < lists.len() && 0 <= d
                < lists[c].len() && !(a == c && b == d)) ==> #[trigger] join_canon(
                root,
                lists[a][b],
            ) != #[trigger] join_canon(root, lists[c][d]),
        0 <= i1 < lists.len(),
        0 <= j1 < lists[i1].len(),
        0 <= i2 < lists.len(),
        0 <= j2 < lists[i2].len(),
        k == join_canon(root, lists[i1][j1]),
        k == join_canon(root, lists[i2][j2]),
    ensures
        i1 == i2 && j1 == j2,
{
}

} // verus!
