//! Facts about sequences that several modules need.

use vstd::prelude::*;

verus! {

/// `s` without what stood earlier in it.
pub open spec fn first_distinct<A>(s: Seq<A>) -> Seq<A>
    decreases s.len(),
{
    if s.len() == 0 {
        s
    } else {
        let rest = first_distinct(s.drop_last());
        if rest.contains(s.last()) {
            rest
        } else {
            rest.push(s.last())
        }
    }
}

/// What `first_distinct` keeps has no repetition, is what was there, and
/// begins as the sequence does.
pub proof fn lemma_first_distinct<A>(s: Seq<A>)
    ensures
        first_distinct(s).no_duplicates(),
        first_distinct(s).len() <= s.len(),
        forall|x: A| first_distinct(s).contains(x) <==> s.contains(x),
        s.len() > 0 ==> first_distinct(s).len() > 0 && first_distinct(s)[0] == s[0],
    decreases s.len(),
{
    if s.len() > 0 {
        let rest = s.drop_last();
        lemma_first_distinct(rest);
        let d = first_distinct(rest);
        assert forall|x: A| first_distinct(s).contains(x) <==> s.contains(x) by {
            assert(s =~= rest.push(s.last()));
            if rest.contains(x) {
                let k = choose|k: int| 0 <= k < rest.len() && rest[k] == x;
                assert(s[k] == x);
                let k2 = choose|k: int| 0 <= k < d.len() && d[k] == x;
                assert(first_distinct(s)[k2] == x);
            }
            if x == s.last() {
                assert(s[s.len() - 1] == x);
                if !d.contains(x) {
                    assert(first_distinct(s)[d.len() as int] == x);
                }
            }
            if first_distinct(s).contains(x) {
                let k = choose|k: int| 0 <= k < first_distinct(s).len() && first_distinct(s)[k] == x;
                if k < d.len() {
                    assert(d[k] == x);
                    assert(rest.contains(x));
                }
            }
        }
        if rest.len() == 0 {
            assert(!d.contains(s.last()));
        }
    }
}

/// What a beginning of a sequence keeps, the whole keeps first.
pub proof fn lemma_first_distinct_prefix<A>(a: Seq<A>, b: Seq<A>)
    ensures
        first_distinct(a).len() <= first_distinct(a + b).len(),
        first_distinct(a + b).take(first_distinct(a).len() as int) == first_distinct(a),
    decreases b.len(),
{
    let d = first_distinct(a);
    if b.len() == 0 {
        assert(a + b =~= a);
        assert(d.take(d.len() as int) =~= d);
    } else {
        lemma_first_distinct_prefix(a, b.drop_last());
        assert((a + b).drop_last() =~= a + b.drop_last());
        let e = first_distinct(a + b.drop_last());
        assert(first_distinct(a + b).take(d.len() as int) =~= e.take(d.len() as int));
    }
}

/// The first `limit` elements of `s`, or all when there are no more.
pub open spec fn at_most<A>(s: Seq<A>, limit: int) -> Seq<A> {
    if s.len() <= limit {
        s
    } else {
        s.take(limit)
    }
}

/// An optional value as a sequence.
pub open spec fn optional<A>(o: Option<A>) -> Seq<A> {
    match o {
        Some(a) => seq![a],
        None => seq![],
    }
}

/// Filtering a sequence with one more element at its end.
pub proof fn lemma_filter_push<A>(s: Seq<A>, x: A, keep: spec_fn(A) -> bool)
    ensures
        s.push(x).filter(keep) == if keep(x) {
            s.filter(keep).push(x)
        } else {
            s.filter(keep)
        },
{
    reveal(Seq::filter);
    assert(s.push(x).drop_last() =~= s);
}

/// Filtering twice by the same condition is filtering once.
pub proof fn lemma_filter_twice<A>(s: Seq<A>, keep: spec_fn(A) -> bool)
    ensures
        s.filter(keep).filter(keep) == s.filter(keep),
    decreases s.len(),
{
    reveal(Seq::filter);
    if s.len() > 0 {
        let rest = s.drop_last();
        lemma_filter_twice(rest, keep);
        lemma_filter_push(rest.filter(keep), s.last(), keep);
    }
}

/// The index of the first element of `s` that satisfies `p`, the length of
/// `s` when none does.
pub open spec fn first_where<A>(s: Seq<A>, p: spec_fn(A) -> bool) -> int
    decreases s.len(),
{
    if s.len() == 0 {
        0
    } else {
        let k = first_where(s.drop_last(), p);
        if k < s.len() - 1 {
            k
        } else if p(s.last()) {
            s.len() - 1
        } else {
            s.len() as int
        }
    }
}

/// What `first_where` finds.
pub proof fn lemma_first_where<A>(s: Seq<A>, p: spec_fn(A) -> bool)
    ensures
        0 <= first_where(s, p) <= s.len(),
        forall|j: int| 0 <= j < first_where(s, p) ==> !p(#[trigger] s[j]),
        first_where(s, p) < s.len() ==> p(s[first_where(s, p)]),
    decreases s.len(),
{
    if s.len() > 0 {
        let rest = s.drop_last();
        lemma_first_where(rest, p);
        assert forall|j: int| 0 <= j < first_where(s, p) implies !p(#[trigger] s[j]) by {
            if j < rest.len() {
                assert(rest[j] == s[j]);
            }
        }
        let k = first_where(rest, p);
        if k < rest.len() {
            assert(rest[k] == s[k]);
        }
    }
}

/// An index that is the first to satisfy the condition is what `first_where`
/// finds.
pub proof fn lemma_first_where_is<A>(s: Seq<A>, p: spec_fn(A) -> bool, k: int)
    requires
        0 <= k <= s.len(),
        forall|j: int| 0 <= j < k ==> !p(#[trigger] s[j]),
        k < s.len() ==> p(s[k]),
    ensures
        first_where(s, p) == k,
{
    lemma_first_where(s, p);
    let m = first_where(s, p);
    if m < k {
        assert(!p(s[m]));
    }
    if k < m {
        assert(!p(s[k]));
    }
}

/// Two conditions that agree on the elements of a sequence keep the same.
pub proof fn lemma_filter_congruent<A>(
    s: Seq<A>,
    f: spec_fn(A) -> bool,
    g: spec_fn(A) -> bool,
)
    requires
        forall|i: int| 0 <= i < s.len() ==> f(#[trigger] s[i]) == g(s[i]),
    ensures
        s.filter(f) == s.filter(g),
    decreases s.len(),
{
    reveal(Seq::filter);
    if s.len() > 0 {
        assert(f(s[s.len() - 1]) == g(s[s.len() - 1]));
        let rest = s.drop_last();
        assert forall|i: int| 0 <= i < rest.len() implies f(#[trigger] rest[i]) == g(rest[i]) by {
            assert(rest[i] == s[i]);
        }
        lemma_filter_congruent(rest, f, g);
    }
}

/// Filtering by one condition and the next is filtering by both.
pub proof fn lemma_filter_filter<A>(
    s: Seq<A>,
    f: spec_fn(A) -> bool,
    g: spec_fn(A) -> bool,
)
    ensures
        s.filter(f).filter(g) == s.filter(|x: A| f(x) && g(x)),
    decreases s.len(),
{
    reveal(Seq::filter);
    if s.len() > 0 {
        let rest = s.drop_last();
        lemma_filter_filter(rest, f, g);
        lemma_filter_push(rest.filter(f), s.last(), g);
    }
}

/// Filtering by one condition and the next is filtering by any condition that
/// amounts to both.
pub proof fn lemma_filter_both<A>(
    s: Seq<A>,
    f: spec_fn(A) -> bool,
    g: spec_fn(A) -> bool,
    both: spec_fn(A) -> bool,
)
    requires
        forall|i: int| 0 <= i < s.len() ==> both(#[trigger] s[i]) == (f(s[i]) && g(s[i])),
    ensures
        s.filter(f).filter(g) == s.filter(both),
{
    let h = |x: A| f(x) && g(x);
    lemma_filter_filter(s, f, g);
    lemma_filter_congruent(s, h, both);
}

/// What filtering keeps is what satisfies the condition.
pub proof fn lemma_filter_members<A>(s: Seq<A>, f: spec_fn(A) -> bool)
    ensures
        forall|x: A| #[trigger] s.filter(f).contains(x) <==> s.contains(x) && f(x),
        s.no_duplicates() ==> s.filter(f).no_duplicates(),
        s.filter(f).len() <= s.len(),
    decreases s.len(),
{
    reveal(Seq::filter);
    let t = s.filter(f);
    if s.len() > 0 {
        let rest = s.drop_last();
        let last = s.last();
        lemma_filter_members(rest, f);
        let u = rest.filter(f);
        assert(s =~= rest.push(last));
        assert forall|x: A| #[trigger] t.contains(x) <==> s.contains(x) && f(x) by {
            if t.contains(x) {
                let k = choose|k: int| 0 <= k < t.len() && t[k] == x;
                if k < u.len() {
                    assert(u[k] == x);
                    assert(u.contains(x));
                    let q = choose|q: int| 0 <= q < rest.len() && rest[q] == x;
                    assert(s[q] == x);
                } else {
                    assert(s[s.len() - 1] == x);
                }
            }
            if s.contains(x) && f(x) {
                let q = choose|q: int| 0 <= q < s.len() && s[q] == x;
                if q < rest.len() {
                    assert(rest[q] == x);
                    assert(u.contains(x));
                    let k = choose|k: int| 0 <= k < u.len() && u[k] == x;
                    assert(t[k] == x);
                } else {
                    assert(t[u.len() as int] == x);
                }
            }
        }
        if s.no_duplicates() {
            assert(rest.no_duplicates());
            if f(last) {
                assert(!u.contains(last)) by {
                    if u.contains(last) {
                        let q = choose|q: int| 0 <= q < rest.len() && rest[q] == last;
                        assert(s[q] == s[s.len() - 1]);
                    }
                }
                assert forall|i: int, j: int|
                    0 <= i < t.len() && 0 <= j < t.len() && i != j implies t[i] != t[j] by {
                    if i < u.len() {
                        assert(u.contains(u[i]));
                    }
                    if j < u.len() {
                        assert(u.contains(u[j]));
                    }
                }
            }
        }
    } else {
        assert(t =~= s);
    }
}

/// A condition that everything satisfies keeps everything.
pub proof fn lemma_filter_all<A>(s: Seq<A>, f: spec_fn(A) -> bool)
    requires
        forall|i: int| 0 <= i < s.len() ==> f(#[trigger] s[i]),
    ensures
        s.filter(f) == s,
    decreases s.len(),
{
    reveal(Seq::filter);
    if s.len() > 0 {
        let rest = s.drop_last();
        assert forall|i: int| 0 <= i < rest.len() implies f(#[trigger] rest[i]) by {
            assert(rest[i] == s[i]);
        }
        lemma_filter_all(rest, f);
        assert(f(s[s.len() - 1]));
        assert(s =~= rest.push(s.last()));
    } else {
        assert(s.filter(f) =~= s);
    }
}

/// A condition that nothing satisfies keeps nothing.
pub proof fn lemma_filter_none<A>(s: Seq<A>, f: spec_fn(A) -> bool)
    requires
        forall|i: int| 0 <= i < s.len() ==> !f(#[trigger] s[i]),
    ensures
        s.filter(f) == Seq::<A>::empty(),
    decreases s.len(),
{
    reveal(Seq::filter);
    if s.len() > 0 {
        let rest = s.drop_last();
        assert forall|i: int| 0 <= i < rest.len() implies !f(#[trigger] rest[i]) by {
            assert(rest[i] == s[i]);
        }
        lemma_filter_none(rest, f);
        assert(!f(s[s.len() - 1]));
    }
}

/// Without its first `d` elements a sequence without repetition has the rest.
pub proof fn lemma_filter_skip<A>(s: Seq<A>, d: int)
    requires
        s.no_duplicates(),
        0 <= d <= s.len(),
    ensures
        s.filter(|x: A| !s.take(d).contains(x)) == s.skip(d),
{
    let f = |x: A| !s.take(d).contains(x);
    let a = s.take(d);
    let b = s.skip(d);
    assert(s =~= a + b);
    Seq::filter_distributes_over_add(a, b, f);
    assert forall|i: int| 0 <= i < a.len() implies !f(#[trigger] a[i]) by {
        assert(a.contains(a[i]));
    }
    lemma_filter_none(a, f);
    assert forall|i: int| 0 <= i < b.len() implies f(#[trigger] b[i]) by {
        if a.contains(b[i]) {
            let k = choose|k: int| 0 <= k < a.len() && a[k] == b[i];
            assert(s[k] == s[d + i]);
        }
    }
    lemma_filter_all(b, f);
    assert(Seq::<A>::empty() + b =~= b);
}

/// A bounded beginning has as many elements as there are and fit, and they are
/// the first ones.
pub proof fn lemma_at_most<A>(s: Seq<A>, limit: int, i: int)
    requires
        limit >= 0,
    ensures
        at_most(s, limit).len() == if s.len() < limit {
            s.len() as int
        } else {
            limit
        },
        0 <= i < s.len() && i < limit ==> at_most(s, limit)[i] == s[i],
{
}

} // verus!
