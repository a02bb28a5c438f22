//! The frontier queue: a list of pending URL strings, deduplicated by
//! content and kept in a deliberately randomized order.

use vstd::prelude::*;

verus! {

/// The character contents of the queue entries, in order.
pub open spec fn url_views(q: Seq<String>) -> Seq<Seq<char>> {
    q.map_values(|s: String| s@)
}

/// No two queue entries have identical string contents.
pub open spec fn no_dup_urls(q: Seq<String>) -> bool {
    url_views(q).no_duplicates()
}

/// Appending an element adds exactly it to the set of elements.
pub proof fn lemma_to_set_push<A>(s: Seq<A>, x: A)
    ensures
        s.push(x).to_set() == s.to_set().insert(x),
{
    assert forall|a: A| #[trigger] s.push(x).contains(a) implies s.contains(a) || a == x by {
        let i = choose|i: int| 0 <= i < s.push(x).len() && s.push(x)[i] == a;
        if i < s.len() {
            assert(s[i] == a);
        }
    }
    assert forall|a: A| s.contains(a) || a == x implies #[trigger] s.push(x).contains(a) by {
        if a == x {
            assert(s.push(x)[s.len() as int] == a);
        } else {
            let i = choose|i: int| 0 <= i < s.len() && s[i] == a;
            assert(s.push(x)[i] == a);
        }
    }
    assert(s.push(x).to_set() =~= s.to_set().insert(x));
}

/// The subsequence of `s` keeping the first occurrence of each value.
pub open spec fn dedup_first(s: Seq<Seq<char>>) -> Seq<Seq<char>>
    decreases s.len(),
{
    if s.len() == 0 {
        s
    } else {
        let rest = dedup_first(s.drop_last());
        if rest.contains(s.last()) {
            rest
        } else {
            rest.push(s.last())
        }
    }
}

/// Keeping first occurrences preserves membership, removes all duplicates,
/// and leaves a duplicate-free sequence unchanged.
pub proof fn lemma_dedup_first_elems(s: Seq<Seq<char>>)
    ensures
        forall|x: Seq<char>| #[trigger] dedup_first(s).contains(x) <==> s.contains(x),
        dedup_first(s).no_duplicates(),
        s.no_duplicates() ==> dedup_first(s) == s,
    decreases s.len(),
{
    if s.len() > 0 {
        let dl = s.drop_last();
        lemma_dedup_first_elems(dl);
        let rest = dedup_first(dl);
        assert forall|x: Seq<char>| #[trigger] dl.contains(x) implies s.contains(x) by {
            let i = choose|i: int| 0 <= i < dl.len() && dl[i] == x;
            assert(s[i] == x);
        }
        assert(s[s.len() - 1] == s.last());
        assert(s.contains(s.last()));
        assert forall|x: Seq<char>| #[trigger] s.contains(x) implies dl.contains(x) || x
            == s.last() by {
            let i = choose|i: int| 0 <= i < s.len() && s[i] == x;
            if i < s.len() - 1 {
                assert(dl[i] == x);
            }
        }
        if rest.contains(s.last()) {
            assert(dedup_first(s) == rest);
            assert forall|x: Seq<char>| #[trigger] s.contains(x) implies dedup_first(s).contains(
                x,
            ) by {
                if x == s.last() {
                } else {
                    assert(dl.contains(x));
                }
            }
            assert forall|x: Seq<char>| #[trigger] dedup_first(s).contains(x) implies s.contains(
                x,
            ) by {
                assert(dl.contains(x));
            }
        } else {
            assert(dedup_first(s) == rest.push(s.last()));
            assert forall|x: Seq<char>| #[trigger] rest.push(s.last()).contains(x) implies
                rest.contains(x) || x == s.last() by {
                let i = choose|i: int| 0 <= i < rest.push(s.last()).len() && rest.push(s.last())[i]
                    == x;
                if i < rest.len() {
                    assert(rest[i] == x);
                }
            }
            assert forall|x: Seq<char>| rest.contains(x) || x == s.last() implies #[trigger]
                rest.push(s.last()).contains(x) by {
                if x == s.last() {
                    assert(rest.push(s.last())[rest.len() as int] == x);
                } else {
                    let i = choose|i: int| 0 <= i < rest.len() && rest[i] == x;
                    assert(rest.push(s.last())[i] == x);
                }
            }
            assert forall|x: Seq<char>| #[trigger] s.contains(x) implies dedup_first(s).contains(
                x,
            ) by {
                if x != s.last() {
                    assert(dl.contains(x));
                    assert(rest.contains(x));
                }
            }
            assert forall|x: Seq<char>| #[trigger] dedup_first(s).contains(x) implies s.contains(
                x,
            ) by {
                if x != s.last() {
                    assert(rest.contains(x));
                    assert(dl.contains(x));
                }
            }
            assert forall|a: int, b: int|
                0 <= a < b < rest.push(s.last()).len() implies rest.push(s.last())[a] != rest.push(
                s.last(),
            )[b] by {
                if b < rest.len() {
                    assert(rest[a] != rest[b]);
                } else {
                    assert(rest.push(s.last())[a] == rest[a]);
                    assert(rest.contains(rest[a]));
                }
            }
        }
        if s.no_duplicates() {
            assert(dl.no_duplicates());
            assert(dedup_first(dl) == dl);
            assert(!dl.contains(s.last()));
            assert(dedup_first(s) =~= s);
        }
    }
}

/// Every element of a filtered sequence is an element of the original.
pub proof fn lemma_filter_elems<A>(s: Seq<A>, p: spec_fn(A) -> bool)
    ensures
        forall|x: A| #[trigger] s.filter(p).contains(x) ==> s.contains(x),
    decreases s.len(),
{
    reveal(Seq::filter);
    if s.len() > 0 {
        let dl = s.drop_last();
        lemma_filter_elems(dl, p);
        assert forall|x: A| #[trigger] s.filter(p).contains(x) implies s.contains(x) by {
            if dl.filter(p).contains(x) {
                let i = choose|i: int| 0 <= i < dl.len() && dl[i] == x;
                assert(s[i] == x);
            } else {
                assert(x == s.last());
                assert(s[s.len() - 1] == x);
            }
        }
    }
}

/// Filtering a duplicate-free sequence leaves it duplicate-free.
pub proof fn lemma_filter_no_dup<A>(s: Seq<A>, p: spec_fn(A) -> bool)
    requires
        s.no_duplicates(),
    ensures
        s.filter(p).no_duplicates(),
    decreases s.len(),
{
    reveal(Seq::filter);
    if s.len() > 0 {
        let dl = s.drop_last();
        assert(dl.no_duplicates());
        lemma_filter_no_dup(dl, p);
        if p(s.last()) {
            lemma_filter_elems(dl, p);
            assert(!dl.contains(s.last()));
            assert(!dl.filter(p).contains(s.last()));
        }
    }
}

/// A sequence whose every element satisfies the predicate filters to itself.
pub proof fn lemma_filter_all<A>(s: Seq<A>, p: spec_fn(A) -> bool)
    requires
        forall|i: int| 0 <= i < s.len() ==> #[trigger] p(s[i]),
    ensures
        s.filter(p) == s,
    decreases s.len(),
{
    reveal(Seq::filter);
    if s.len() > 0 {
        let dl = s.drop_last();
        assert(forall|i: int| 0 <= i < dl.len() ==> #[trigger] p(dl[i]));
        lemma_filter_all(dl, p);
        assert(p(s.last()));
        assert(s.filter(p) =~= s);
    }
}

/// What a filtered sequence holds: exactly the original's elements that
/// satisfy the predicate.
pub proof fn lemma_filter_set(s: Seq<Seq<char>>, p: spec_fn(Seq<char>) -> bool)
    ensures
        s.filter(p).to_set() == Set::new(|x: Seq<char>| s.contains(x) && p(x)),
{
    lemma_filter_elems(s, p);
    assert forall|x: Seq<char>| #[trigger]
        s.filter(p).to_set().contains(x) implies s.contains(x) && p(x) by {
        let i = choose|i: int| 0 <= i < s.filter(p).len() && s.filter(p)[i] == x;
        s.lemma_filter_pred(p, i);
    }
    assert forall|x: Seq<char>| s.contains(x) && p(x) implies #[trigger]
        s.filter(p).to_set().contains(x) by {
        let i = choose|i: int| 0 <= i < s.len() && s[i] == x;
        s.lemma_filter_contains(p, i);
    }
    assert(s.filter(p).to_set() =~= Set::new(|x: Seq<char>| s.contains(x) && p(x)));
}

/// Does `v` hold an entry whose contents equal `u`?
pub(crate) fn contains_url(v: &Vec<String>, u: &String) -> (r: bool)
    ensures
        r == url_views(v@).contains(u@),
{
    let n = v.len();
    let mut i: usize = 0;
    while i < n
        invariant
            n == v@.len(),
            i <= n,
            forall|j: int| 0 <= j < i ==> url_views(v@)[j] != u@,
        decreases n - i,
    {
        if v[i] == *u {
            proof {
                assert(url_views(v@)[i as int] == u@);
            }
            return true;
        }
        i = i + 1;
    }
    false
}

/// A copy of `q` keeping the first occurrence of each string content.
pub(crate) fn dedup_urls(q: &Vec<String>) -> (r: Vec<String>)
    ensures
        url_views(r@) == dedup_first(url_views(q@)),
        no_dup_urls(r@),
        url_views(r@).to_set() == url_views(q@).to_set(),
{
    let n = q.len();
    let mut out: Vec<String> = Vec::new();
    let mut i: usize = 0;
    while i < n
        invariant
            n == q@.len(),
            i <= n,
            no_dup_urls(out@),
            url_views(out@) == dedup_first(url_views(q@.subrange(0, i as int))),
            url_views(out@).to_set() == url_views(q@.subrange(0, i as int)).to_set(),
        decreases n - i,
    {
        let ghost prefix = q@.subrange(0, i as int);
        let already = contains_url(&out, &q[i]);
        if !already {
            let ghost old_out = out@;
            out.push(q[i].clone());
            proof {
                assert(url_views(out@) =~= url_views(old_out).push(q@[i as int]@));
                lemma_to_set_push(url_views(old_out), q@[i as int]@);
            }
        }
        proof {
            assert(q@.subrange(0, i + 1 as int) =~= prefix.push(q@[i as int]));
            let p1 = url_views(prefix.push(q@[i as int]));
            assert(p1 =~= url_views(prefix).push(q@[i as int]@));
            assert(p1.drop_last() =~= url_views(prefix));
            assert(p1.last() == q@[i as int]@);
            assert(url_views(out@) == dedup_first(p1));
            lemma_to_set_push(url_views(prefix), q@[i as int]@);
            assert(url_views(out@).to_set() =~= url_views(q@.subrange(0, i + 1 as int)).to_set());
        }
        i = i + 1;
    }
    proof {
        assert(q@.subrange(0, n as int) =~= q@);
    }
    out
}

} // verus!
