use vstd::prelude::*;

verus! {

/// A character after separator canonicalization: a backslash becomes a slash,
/// every other character stays itself.
pub open spec fn canon_char(c: char) -> char {
    if c == '\\' {
        '/'
    } else {
        c
    }
}

/// Separator-canonical form of a path: every backslash replaced by a slash.
pub open spec fn canon(s: Seq<char>) -> Seq<char> {
    s.map_values(|c: char| canon_char(c))
}

/// Number of occurrences of `c` in `s`.
pub open spec fn count_char(s: Seq<char>, c: char) -> nat
    decreases s.len(),
{
    if s.len() == 0 {
        0
    } else {
        count_char(s.drop_last(), c) + (if s.last() == c {
            1nat
        } else {
            0nat
        })
    }
}

pub proof fn lemma_count_char_concat(a: Seq<char>, b: Seq<char>, c: char)
    ensures
        count_char(a + b, c) == count_char(a, c) + count_char(b, c),
    decreases b.len(),
{
    if b.len() == 0 {
        assert(a + b =~= a);
    } else {
        assert((a + b).drop_last() =~= a + b.drop_last());
        lemma_count_char_concat(a, b.drop_last(), c);
    }
}

pub proof fn lemma_count_char_at(s: Seq<char>, i: int, c: char)
    requires
        0 <= i < s.len(),
        s[i] == c,
    ensures
        count_char(s, c) >= 1,
    decreases s.len(),
{
    if i < s.len() - 1 {
        lemma_count_char_at(s.drop_last(), i, c);
    }
}

/// `a` is a strict ancestor directory of `b`: `b` begins with `a` followed by
/// a separator.
pub open spec fn is_strict_ancestor(a: Seq<char>, b: Seq<char>) -> bool {
    &&& a.len() < b.len()
    &&& b.subrange(0, a.len() as int) == a
    &&& b[a.len() as int] == '/'
}

/// `b` is `a` itself or lies strictly below it.
pub open spec fn is_at_or_below(b: Seq<char>, a: Seq<char>) -> bool {
    b == a || is_strict_ancestor(a, b)
}

/// A strict descendant carries strictly more separators than its ancestor.
pub proof fn lemma_ancestor_count(a: Seq<char>, b: Seq<char>)
    requires
        is_strict_ancestor(a, b),
    ensures
        count_char(b, '/') > count_char(a, '/'),
{
    let rest = b.subrange(a.len() as int, b.len() as int);
    assert(b =~= a + rest);
    lemma_count_char_concat(a, rest, '/');
    lemma_count_char_at(rest, 0, '/');
}

/// Counts the separators of `s`.
pub fn count_slashes(s: &str) -> (n: usize)
    ensures
        n as nat == count_char(s@, '/'),
{
    let len = s.unicode_len();
    let mut i: usize = 0;
    let mut n: usize = 0;
    while i < len
        invariant
            i <= len,
            len == s@.len(),
            n <= i,
            n as nat == count_char(s@.subrange(0, i as int), '/'),
        decreases len - i,
    {
        let c = s.get_char(i);
        proof {
            assert(s@.subrange(0, i + 1).drop_last() =~= s@.subrange(0, i as int));
        }
        if c == '/' {
            n = n + 1;
        }
        i = i + 1;
    }
    proof {
        assert(s@.subrange(0, len as int) =~= s@);
    }
    n
}

/// Relies on std's `String::push`: appends the given character to the end of
/// the string.
pub assume_specification[ String::push ](s: &mut String, c: char)
    ensures
        final(s)@ == old(s)@.push(c),
;

/// Rewrites every backslash of `s` into a slash.
pub fn normalize(s: &str) -> (r: String)
    ensures
        r@ == canon(s@),
{
    let len = s.unicode_len();
    let mut r = String::new();
    let mut i: usize = 0;
    while i < len
        invariant
            i <= len,
            len == s@.len(),
            r@ == canon(s@.subrange(0, i as int)),
        decreases len - i,
    {
        let c = s.get_char(i);
        if c == '\\' {
            r.push('/');
        } else {
            r.push(c);
        }
        proof {
            assert(canon(s@.subrange(0, i + 1)) =~= canon(s@.subrange(0, i as int)).push(
                canon_char(s@[i as int]),
            ));
        }
        i = i + 1;
    }
    proof {
        assert(s@.subrange(0, len as int) =~= s@);
    }
    r
}

/// The canonical path of `name` placed under `root`: the two joined with a
/// separator, then separator-canonicalized.
pub open spec fn join_canon(root: Seq<char>, name: Seq<char>) -> Seq<char> {
    canon(root + seq!['/'] + name)
}

/// Joins `name` under `root` with a separator and canonicalizes the result.
pub fn join_under(root: &str, name: &str) -> (r: String)
    ensures
        r@ == join_canon(root@, name@),
{
    let mut joined = String::from_str(root);
    joined.append("/");
    joined.append(name);
    proof {
        reveal_strlit("/");
        assert(joined@ =~= root@ + seq!['/'] + name@);
    }
    normalize(joined.as_str())
}

/// The final component of a path: everything after the last separator.
pub open spec fn basename(s: Seq<char>) -> Seq<char>
    decreases s.len(),
{
    if s.len() == 0 {
        s
    } else if s.last() == '/' {
        Seq::empty()
    } else {
        basename(s.drop_last()).push(s.last())
    }
}

pub proof fn lemma_basename_suffix(s: Seq<char>, k: int)
    requires
        0 <= k <= s.len(),
        forall|j: int| k <= j < s.len() ==> s[j] != '/',
        k > 0 ==> s[k - 1] == '/',
    ensures
        basename(s) == s.subrange(k, s.len() as int),
    decreases s.len(),
{
    if k == s.len() {
        if s.len() == 0 {
            assert(basename(s) =~= s.subrange(k, s.len() as int));
        } else {
            assert(s.last() == '/');
            assert(basename(s) =~= s.subrange(k, s.len() as int));
        }
    } else {
        assert(s.last() != '/');
        lemma_basename_suffix(s.drop_last(), k);
        assert(s.drop_last().subrange(k, s.len() - 1).push(s.last()) =~= s.subrange(
            k,
            s.len() as int,
        ));
    }
}

/// Extracts the final path component of `s`.
pub fn basename_of(s: &str) -> (r: String)
    ensures
        r@ == basename(s@),
{
    let len = s.unicode_len();
    let mut k: usize = 0;
    let mut i: usize = 0;
    while i < len
        invariant
            i <= len,
            len == s@.len(),
            k <= i,
            k > 0 ==> s@[k - 1] == '/',
            forall|j: int| k <= j < i ==> s@[j] != '/',
        decreases len - i,
    {
        if s.get_char(i) == '/' {
            k = i + 1;
        }
        i = i + 1;
    }
    let mut r = String::new();
    let mut m: usize = k;
    while m < len
        invariant
            k <= m <= len,
            len == s@.len(),
            r@ == s@.subrange(k as int, m as int),
        decreases len - m,
    {
        let c = s.get_char(m);
        r.push(c);
        proof {
            assert(s@.subrange(k as int, m + 1) =~= s@.subrange(k as int, m as int).push(
                s@[m as int],
            ));
        }
        m = m + 1;
    }
    proof {
        lemma_basename_suffix(s@, k as int);
    }
    r
}

/// Decides whether `a` is a strict ancestor directory of `b`.
pub fn check_strict_ancestor(a: &str, b: &str) -> (r: bool)
    ensures
        r == is_strict_ancestor(a@, b@),
{
    let alen = a.unicode_len();
    let blen = b.unicode_len();
    if alen >= blen {
        return false;
    }
    if b.get_char(alen) != '/' {
        return false;
    }
    let mut i: usize = 0;
    while i < alen
        invariant
            i <= alen,
            alen == a@.len(),
            blen == b@.len(),
            alen < blen,
            b@[alen as int] == '/',
            forall|j: int| 0 <= j < i ==> a@[j] == b@[j],
        decreases alen - i,
    {
        if a.get_char(i) != b.get_char(i) {
            proof {
                assert(b@.subrange(0, alen as int)[i as int] == b@[i as int]);
            }
            return false;
        }
        i = i + 1;
    }
    proof {
        assert(b@.subrange(0, alen as int) =~= a@);
    }
    true
}

} // verus!
