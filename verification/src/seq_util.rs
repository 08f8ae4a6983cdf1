use vstd::prelude::*;

verus! {

/// `i` is the first position of `x` in `s`.
pub open spec fn is_first_index<T>(s: Seq<T>, x: T, i: int) -> bool {
    &&& 0 <= i < s.len()
    &&& s[i] == x
    &&& forall|j: int| 0 <= j < i ==> s[j] != x
}

/// The first position of `x` in `s`, if `x` occurs in `s`.
pub open spec fn first_index<T>(s: Seq<T>, x: T) -> Option<int> {
    if s.contains(x) {
        Some(choose|i: int| is_first_index(s, x, i))
    } else {
        None
    }
}

pub proof fn lemma_first_index_unique<T>(s: Seq<T>, x: T, i: int)
    requires
        is_first_index(s, x, i),
    ensures
        first_index(s, x) == Some(i),
{
    assert(s.contains(x)) by {
        assert(s[i] == x);
    }
    let c = choose|c: int| is_first_index(s, x, c);
    assert(is_first_index(s, x, c));
    if c < i {
        assert(s[c] != x);
    } else if i < c {
        assert(s[i] != x);
    }
}

pub proof fn lemma_first_index_none<T>(s: Seq<T>, x: T)
    requires
        forall|j: int| 0 <= j < s.len() ==> s[j] != x,
    ensures
        first_index(s, x) is None,
{
    if s.contains(x) {
        let j = choose|j: int| 0 <= j < s.len() && s[j] == x;
        assert(s[j] == x);
    }
}

proof fn lemma_first_exists<T>(s: Seq<T>, x: T, j: int)
    requires
        0 <= j < s.len(),
        s[j] == x,
    ensures
        exists|i: int| is_first_index(s, x, i),
    decreases j,
{
    if exists|k: int| 0 <= k < j && s[k] == x {
        let k = choose|k: int| 0 <= k < j && s[k] == x;
        lemma_first_exists(s, x, k);
    } else {
        assert(is_first_index(s, x, j));
    }
}

pub proof fn lemma_first_index_some<T>(s: Seq<T>, x: T)
    requires
        s.contains(x),
    ensures
        first_index(s, x) is Some,
        is_first_index(s, x, first_index(s, x).unwrap()),
{
    let j = choose|j: int| 0 <= j < s.len() && s[j] == x;
    lemma_first_exists(s, x, j);
}

/// `first_index` as an optional machine index.
pub open spec fn opt_index(o: Option<usize>) -> Option<int> {
    match o {
        Some(i) => Some(i as int),
        None => None,
    }
}

/// `s` with every occurrence of `x` removed, order kept.
pub open spec fn remove_all<T>(s: Seq<T>, x: T) -> Seq<T> {
    s.filter(|y: T| y != x)
}

pub proof fn lemma_remove_all_push<T>(s: Seq<T>, a: T, x: T)
    ensures
        remove_all(s.push(a), x) == (if a != x {
            remove_all(s, x).push(a)
        } else {
            remove_all(s, x)
        }),
{
    reveal(Seq::filter);
    assert(s.push(a).drop_last() =~= s);
    assert(s.push(a).last() == a);
}

pub proof fn lemma_remove_nodup<T>(s: Seq<T>, k: int)
    requires
        s.no_duplicates(),
        0 <= k < s.len(),
    ensures
        s.remove(k).no_duplicates(),
        forall|x: T| #[trigger] s.remove(k).contains(x) <==> (s.contains(x) && x != s[k]),
{
    let r = s.remove(k);
    assert forall|i: int, j: int| 0 <= i < r.len() && 0 <= j < r.len() && i != j implies r[i]
        != r[j] by {
        let i2 = if i < k { i } else { i + 1 };
        let j2 = if j < k { j } else { j + 1 };
        assert(r[i] == s[i2]);
        assert(r[j] == s[j2]);
    }
    assert forall|x: T| #[trigger] r.contains(x) <==> (s.contains(x) && x != s[k]) by {
        if r.contains(x) {
            let i = choose|i: int| 0 <= i < r.len() && r[i] == x;
            let i2 = if i < k { i } else { i + 1 };
            assert(s[i2] == x);
        }
        if s.contains(x) && x != s[k] {
            let i = choose|i: int| 0 <= i < s.len() && s[i] == x;
            if i < k {
                assert(r[i] == x);
            } else {
                assert(r[i - 1] == x);
            }
        }
    }
}

pub proof fn lemma_remove_all_contains<T>(s: Seq<T>, x: T, y: T)
    ensures
        remove_all(s, x).contains(y) <==> (s.contains(y) && y != x),
    decreases s.len(),
{
    if s.len() > 0 {
        let t = s.drop_last();
        assert(s == t.push(s.last()));
        lemma_remove_all_push(t, s.last(), x);
        lemma_remove_all_contains(t, x, y);
        if s.contains(y) && y != x && !t.contains(y) {
            assert(s.last() == y);
            assert(remove_all(s, x).last() == y);
        }
        if remove_all(s, x).contains(y) && !remove_all(t, x).contains(y) {
            assert(s.last() == y);
        }
    } else {
        reveal(Seq::filter);
    }
}

} // verus!
