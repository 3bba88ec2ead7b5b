use vstd::prelude::*;

verus! {

/// A snapshot of one tracked item as reported by the metadata service.
///
/// Completion is carried in thousandths so that the exact "fully complete"
/// test is an integer comparison: 1000 stands for a completion fraction of
/// one, anything lower for a partial item.
#[derive(Debug, Clone)]
pub struct TrackedItem {
    /// Opaque handle used to query the item's files from the service.
    pub id: String,
    pub category: String,
    pub tags: Vec<String>,
    pub completion_permille: u32,
}

/// The business criteria that decide which tracked items count toward the
/// expected file set. An absent field means "no constraint".
#[derive(Debug, Clone)]
pub struct Criteria {
    pub category: Option<String>,
    pub tags: Option<Vec<String>>,
}

/// The item carries tag `t`.
pub open spec fn has_tag(item: TrackedItem, t: Seq<char>) -> bool {
    exists|j: int| 0 <= j < item.tags@.len() && item.tags@[j]@ == t
}

/// The item satisfies every active criterion: it is fully complete, its
/// category equals a requested category, and it carries every requested tag.
pub open spec fn item_matches(item: TrackedItem, c: Criteria) -> bool {
    &&& item.completion_permille == 1000
    &&& match c.category {
        Option::None => true,
        Option::Some(cat) => item.category@ == cat@,
    }
    &&& match c.tags {
        Option::None => true,
        Option::Some(ts) => forall|j: int| 0 <= j < ts@.len() ==> has_tag(item, #[trigger] ts@[j]@),
    }
}

fn item_has_tag(item: &TrackedItem, t: &String) -> (r: bool)
    ensures
        r == has_tag(*item, t@),
{
    let mut j: usize = 0;
    while j < item.tags.len()
        invariant
            j <= item.tags@.len(),
            forall|x: int| 0 <= x < j ==> item.tags@[x]@ != t@,
        decreases item.tags@.len() - j,
    {
        if item.tags[j] == *t {
            return true;
        }
        j = j + 1;
    }
    false
}

/// Decides whether one item satisfies the criteria.
pub fn matches_criteria(item: &TrackedItem, c: &Criteria) -> (r: bool)
    ensures
        r == item_matches(*item, *c),
{
    if item.completion_permille != 1000 {
        return false;
    }
    match &c.category {
        Option::Some(cat) => {
            if !(item.category == *cat) {
                return false;
            }
        },
        Option::None => {},
    }
    match &c.tags {
        Option::Some(ts) => {
            let mut j: usize = 0;
            while j < ts.len()
                invariant
                    j <= ts@.len(),
                    item.completion_permille == 1000,
                    match c.category {
                        Option::None => true,
                        Option::Some(cat) => item.category@ == cat@,
                    },
                    c.tags matches Option::Some(l) && l == *ts,
                    forall|x: int| 0 <= x < j ==> has_tag(*item, #[trigger] ts@[x]@),
                decreases ts@.len() - j,
            {
                if !item_has_tag(item, &ts[j]) {
                    return false;
                }
                j = j + 1;
            }
        },
        Option::None => {},
    }
    true
}

/// Keeps exactly the items that satisfy the criteria: fully complete, with a
/// matching category when one is requested, and carrying every requested tag.
/// Relative order is preserved.
pub fn filter_items(items: Vec<TrackedItem>, criteria: &Criteria) -> (r: Vec<TrackedItem>)
    ensures
        r@ == items@.filter(|it: TrackedItem| item_matches(it, *criteria)),
{
    let ghost all = items@;
    let ghost pred = |it: TrackedItem| item_matches(it, *criteria);
    let mut work = items;
    let mut out: Vec<TrackedItem> = Vec::new();
    proof {
        reveal(Seq::filter);
        assert(all.subrange(0, 0) =~= Seq::<TrackedItem>::empty());
        assert(work@ =~= all.subrange(0, all.len() as int));
    }
    while work.len() > 0
        invariant
            work@.len() <= all.len(),
            work@ == all.subrange(all.len() - work@.len(), all.len() as int),
            out@ == all.subrange(0, all.len() - work@.len()).filter(pred),
            pred == (|it: TrackedItem| item_matches(it, *criteria)),
        decreases work@.len(),
    {
        let ghost k = all.len() - work@.len();
        let ghost pre = work@;
        let e = work.remove(0);
        let keep = matches_criteria(&e, criteria);
        proof {
            reveal(Seq::filter);
            assert(work@ =~= all.subrange(k + 1, all.len() as int));
            assert(e == all[k as int]);
            let taken = all.subrange(0, k + 1);
            assert(taken.drop_last() =~= all.subrange(0, k as int));
            assert(taken.last() == all[k as int]);
            if pred(e) {
                assert(taken.filter(pred) == all.subrange(0, k as int).filter(pred).push(e));
            } else {
                assert(taken.filter(pred) == all.subrange(0, k as int).filter(pred));
            }
        }
        if keep {
            out.push(e);
        }
    }
    proof {
        assert(all.subrange(0, all.len() as int) =~= all);
    }
    out
}

} // verus!
