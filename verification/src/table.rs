//! A small map from keys to values.

use crate::seqs;
use vstd::prelude::*;

verus! {

/// A key: two of them are the same when their views are.
pub trait TableKey: View + Sized {
    /// Tells whether two keys are the same.
    fn same_as(&self, other: &Self) -> (same: bool)
        ensures
            same == (self@ == other@),
    ;
}

impl TableKey for String {
    fn same_as(&self, other: &String) -> (same: bool) {
        *self == *other
    }
}

/// A map that holds its entries in a list, in the order in which their keys
/// came. Every operation looks through the list, so it suits a few dozen
/// entries.
#[derive(Debug)]
pub struct Table<K, V> {
    entries: Vec<(K, V)>,
}

/// Whether no two entries have the same key.
pub open spec fn distinct_keys<K, V>(s: Seq<(K, V)>) -> bool {
    forall|i: int, j: int| 0 <= i < j < s.len() ==> #[trigger] s[i].0 != #[trigger] s[j].0
}

/// Whether some entry has the key `k`.
pub open spec fn has_key<K, V>(s: Seq<(K, V)>, k: K) -> bool {
    exists|i: int| 0 <= i < s.len() && #[trigger] s[i].0 == k
}

/// The position of the key `k`.
pub open spec fn key_index<K, V>(s: Seq<(K, V)>, k: K) -> int {
    choose|i: int| 0 <= i < s.len() && #[trigger] s[i].0 == k
}

/// The entries with the value under `k` set: an entry keeps its place, a new
/// one comes last.
pub open spec fn with_entry<K, V>(s: Seq<(K, V)>, k: K, v: V) -> Seq<(K, V)> {
    if has_key(s, k) {
        s.update(key_index(s, k), (k, v))
    } else {
        s.push((k, v))
    }
}

/// The entries without the one under `k`.
pub open spec fn without_entry<K, V>(s: Seq<(K, V)>, k: K) -> Seq<(K, V)> {
    if has_key(s, k) {
        s.remove(key_index(s, k))
    } else {
        s
    }
}

/// The map that the entries make.
pub open spec fn as_map<K, V>(s: Seq<(K, V)>) -> Map<K, V> {
    Map::new(|k: K| has_key(s, k), |k: K| s[key_index(s, k)].1)
}

/// An entry is found under its key.
pub proof fn lemma_as_map_entry<K, V>(s: Seq<(K, V)>, i: int)
    requires
        distinct_keys(s),
        0 <= i < s.len(),
    ensures
        as_map(s).dom().contains(s[i].0),
        as_map(s)[s[i].0] == s[i].1,
{
    lemma_key_index(s, i);
}

/// A key stands in one place only.
pub proof fn lemma_key_index<K, V>(s: Seq<(K, V)>, i: int)
    requires
        distinct_keys(s),
        0 <= i < s.len(),
    ensures
        has_key(s, s[i].0),
        key_index(s, s[i].0) == i,
{
    let k = s[i].0;
    assert(has_key(s, k));
    let j = key_index(s, k);
    assert(0 <= j < s.len() && s[j].0 == k);
    if i < j {
        assert(s[i].0 != s[j].0);
    }
    if j < i {
        assert(s[j].0 != s[i].0);
    }
}

/// Adding an entry under a new key extends the map.
pub proof fn lemma_as_map_push<K, V>(s: Seq<(K, V)>, k: K, v: V)
    requires
        distinct_keys(s),
        !has_key(s, k),
    ensures
        distinct_keys(s.push((k, v))),
        as_map(s.push((k, v))) == as_map(s).insert(k, v),
{
    let t = s.push((k, v));
    assert forall|i: int, j: int| 0 <= i < j < t.len() implies #[trigger] t[i].0
        != #[trigger] t[j].0 by {
        if j == s.len() {
            assert(s[i].0 != k);
        } else {
            assert(s[i].0 != s[j].0);
        }
    }
    assert forall|x: K| as_map(t).dom().contains(x) <==> as_map(s).insert(k, v).dom().contains(
        x,
    ) by {
        if has_key(t, x) {
            let i = key_index(t, x);
            if i < s.len() {
                assert(s[i].0 == x);
            }
        }
        if has_key(s, x) {
            assert(t[key_index(s, x)].0 == x);
        }
        if x == k {
            assert(t[s.len() as int].0 == x);
        }
    }
    assert forall|x: K| as_map(t).dom().contains(x) implies as_map(t)[x] == as_map(s).insert(
        k,
        v,
    )[x] by {
        let i = key_index(t, x);
        lemma_as_map_entry(t, i);
        if i < s.len() {
            lemma_as_map_entry(s, i);
            assert(s[i] == t[i]);
            assert(x != k);
        }
    }
    assert(as_map(t) =~= as_map(s).insert(k, v));
}

/// Replacing the value of an entry replaces it in the map.
pub proof fn lemma_as_map_update<K, V>(s: Seq<(K, V)>, i: int, v: V)
    requires
        distinct_keys(s),
        0 <= i < s.len(),
    ensures
        distinct_keys(s.update(i, (s[i].0, v))),
        as_map(s.update(i, (s[i].0, v))) == as_map(s).insert(s[i].0, v),
{
    let k = s[i].0;
    let t = s.update(i, (k, v));
    assert forall|a: int, b: int| 0 <= a < b < t.len() implies #[trigger] t[a].0
        != #[trigger] t[b].0 by {
        assert(s[a].0 != s[b].0);
    }
    assert forall|x: K| as_map(t).dom().contains(x) <==> as_map(s).insert(k, v).dom().contains(
        x,
    ) by {
        if has_key(t, x) {
            let j = key_index(t, x);
            assert(s[j].0 == x);
        }
        if has_key(s, x) {
            assert(t[key_index(s, x)].0 == x);
        }
        if x == k {
            assert(t[i].0 == x);
        }
    }
    assert forall|x: K| as_map(t).dom().contains(x) implies as_map(t)[x] == as_map(s).insert(
        k,
        v,
    )[x] by {
        let j = key_index(t, x);
        lemma_as_map_entry(t, j);
        if j != i {
            lemma_as_map_entry(s, j);
            assert(s[j] == t[j]);
            if x == k {
                assert(t[i].0 == k);
                if i < j {
                    assert(t[i].0 != t[j].0);
                } else {
                    assert(t[j].0 != t[i].0);
                }
            }
        }
    }
    assert(as_map(t) =~= as_map(s).insert(k, v));
}

/// Keeping some entries restricts the map to them.
pub proof fn lemma_as_map_filter<K, V>(s: Seq<(K, V)>, keep: spec_fn((K, V)) -> bool)
    requires
        distinct_keys(s),
    ensures
        distinct_keys(s.filter(keep)),
        forall|k: K|
            #![trigger as_map(s.filter(keep)).dom().contains(k)]
            as_map(s.filter(keep)).dom().contains(k) <==> as_map(s).dom().contains(k) && keep(
                (k, as_map(s)[k]),
            ),
        forall|k: K| #[trigger]
            as_map(s.filter(keep)).dom().contains(k) ==> as_map(s.filter(keep))[k] == as_map(s)[k],
    decreases s.len(),
{
    reveal(Seq::filter);
    let t = s.filter(keep);
    if s.len() > 0 {
        let rest = s.drop_last();
        let (k, v) = s.last();
        assert(distinct_keys(rest)) by {
            assert forall|i: int, j: int| 0 <= i < j < rest.len() implies #[trigger] rest[i].0
                != #[trigger] rest[j].0 by {
                assert(s[i].0 != s[j].0);
            }
        }
        assert(!has_key(rest, k)) by {
            if has_key(rest, k) {
                let i = key_index(rest, k);
                assert(s[i].0 != s[s.len() - 1].0);
            }
        }
        lemma_as_map_filter(rest, keep);
        lemma_as_map_push(rest, k, v);
        assert(s =~= rest.push((k, v)));
        let u = rest.filter(keep);
        assert(!has_key(u, k)) by {
            if has_key(u, k) {
                assert(as_map(u).dom().contains(k));
                assert(as_map(rest).dom().contains(k));
            }
        }
        if keep((k, v)) {
            lemma_as_map_push(u, k, v);
        }
        assert forall|x: K| #![trigger as_map(t).dom().contains(x)]
            as_map(t).dom().contains(x) <==> as_map(s).dom().contains(x) && keep(
                (x, as_map(s)[x]),
            ) by {
            assert(as_map(u).dom().contains(x) <==> as_map(rest).dom().contains(x) && keep(
                (x, as_map(rest)[x]),
            ));
        }
        assert forall|x: K| #[trigger] as_map(t).dom().contains(x) implies as_map(t)[x]
            == as_map(s)[x] by {
            if x != k {
                assert(as_map(u).dom().contains(x));
            }
        }
    } else {
        assert(t =~= s);
    }
}

/// The map has as many keys as there are entries.
pub proof fn lemma_as_map_len<K, V>(s: Seq<(K, V)>)
    requires
        distinct_keys(s),
    ensures
        as_map(s).dom().finite(),
        as_map(s).dom().len() == s.len(),
    decreases s.len(),
{
    if s.len() == 0 {
        assert(as_map(s).dom() =~= Set::empty());
    } else {
        let rest = s.drop_last();
        let (k, v) = s.last();
        assert(distinct_keys(rest)) by {
            assert forall|i: int, j: int| 0 <= i < j < rest.len() implies #[trigger] rest[i].0
                != #[trigger] rest[j].0 by {
                assert(s[i].0 != s[j].0);
            }
        }
        assert(!has_key(rest, k)) by {
            if has_key(rest, k) {
                let i = key_index(rest, k);
                assert(s[i].0 != s[s.len() - 1].0);
            }
        }
        lemma_as_map_len(rest);
        lemma_as_map_push(rest, k, v);
        assert(s =~= rest.push((k, v)));
        assert(as_map(s).dom() =~= as_map(rest).dom().insert(k));
    }
}

impl<K: TableKey, V: View> Table<K, V> {
    /// The entries, each key and value by its view, in the order in which the
    /// keys came.
    pub closed spec fn listed(&self) -> Seq<(K::V, V::V)> {
        self.entries@.map_values(|e: (K, V)| (e.0@, e.1@))
    }

    /// Whether no key occurs twice.
    pub open spec fn wf(&self) -> bool {
        distinct_keys(self.listed())
    }

    /// An empty table.
    pub fn new() -> (t: Self)
        ensures
            t.wf(),
            t.listed() == Seq::<(K::V, V::V)>::empty(),
            t@ == Map::<K::V, V::V>::empty(),
    {
        let t = Table { entries: Vec::new() };
        assert(t.listed() =~= Seq::<(K::V, V::V)>::empty());
        assert(t@ =~= Map::<K::V, V::V>::empty());
        t
    }

    /// How many entries there are.
    pub fn len(&self) -> (n: usize)
        requires
            self.wf(),
        ensures
            n == self.listed().len(),
            n == self@.dom().len(),
            self@.dom().finite(),
    {
        proof {
            lemma_as_map_len(self.listed());
        }
        self.entries.len()
    }

    /// Whether there is no entry.
    pub fn is_empty(&self) -> (empty: bool)
        ensures
            empty == (self.listed().len() == 0),
            empty == (self@ == Map::<K::V, V::V>::empty()),
    {
        proof {
            if self.listed().len() == 0 {
                assert(self@ =~= Map::<K::V, V::V>::empty());
            } else {
                let k = self.listed()[0].0;
                assert(has_key(self.listed(), k));
                assert(self@.dom().contains(k));
            }
        }
        self.entries.is_empty()
    }

    /// Where the key stands, if it is there.
    pub fn position(&self, key: &K) -> (p: Option<usize>)
        ensures
            p is None <==> !has_key(self.listed(), key@),
            p matches Some(i) ==> i < self.listed().len() && self.listed()[i as int].0 == key@,
    {
        let mut i: usize = 0;
        while i < self.entries.len()
            invariant
                i <= self.entries.len(),
                forall|j: int| 0 <= j < i ==> (#[trigger] self.listed()[j]).0 != key@,
            decreases self.entries.len() - i,
        {
            if self.entries[i].0.same_as(key) {
                assert(self.listed()[i as int].0 == key@);
                return Some(i);
            }
            i = i + 1;
        }
        None
    }

    /// The key of an entry.
    pub fn key_at(&self, i: usize) -> (k: &K)
        requires
            i < self.listed().len(),
        ensures
            k@ == self.listed()[i as int].0,
    {
        &self.entries[i].0
    }

    /// The value of an entry.
    pub fn value_at(&self, i: usize) -> (v: &V)
        requires
            i < self.listed().len(),
        ensures
            v@ == self.listed()[i as int].1,
    {
        &self.entries[i].1
    }

    /// The value under a key.
    pub fn get(&self, key: &K) -> (v: Option<&V>)
        requires
            self.wf(),
        ensures
            v is Some <==> self@.dom().contains(key@),
            v matches Some(x) ==> x@ == self@[key@],
    {
        match self.position(key) {
            Some(i) => {
                proof {
                    lemma_as_map_entry(self.listed(), i as int);
                }
                Some(&self.entries[i].1)
            },
            None => None,
        }
    }

    /// Sets the value of an entry.
    pub fn set_at(&mut self, i: usize, value: V)
        requires
            old(self).wf(),
            i < old(self).listed().len(),
        ensures
            final(self).wf(),
            final(self).listed() == old(self).listed().update(
                i as int,
                (old(self).listed()[i as int].0, value@),
            ),
            final(self)@ == old(self)@.insert(old(self).listed()[i as int].0, value@),
    {
        proof {
            lemma_as_map_update(self.listed(), i as int, value@);
        }
        let ghost before = self.listed();
        let ghost k = self.entries@[i as int].0;
        self.entries[i].1 = value;
        assert(self.entries@[i as int].0 == k);
        assert(self.listed() =~= before.update(i as int, (before[i as int].0, value@)));
    }

    /// Sets the value under a key.
    pub fn insert(&mut self, key: K, value: V)
        requires
            old(self).wf(),
        ensures
            final(self).wf(),
            final(self)@ == old(self)@.insert(key@, value@),
            final(self).listed() == with_entry(old(self).listed(), key@, value@),
    {
        match self.position(&key) {
            Some(i) => {
                proof {
                    lemma_key_index(self.listed(), i as int);
                }
                self.set_at(i, value);
            },
            None => {
                proof {
                    lemma_as_map_push(self.listed(), key@, value@);
                }
                let ghost before = self.listed();
                let ghost e = (key@, value@);
                self.entries.push((key, value));
                assert(self.listed() =~= before.push(e));
            },
        }
    }

    /// Drops the entries that `keep` does not keep.
    pub fn retain<F: Fn(&K, &V) -> bool>(
        &mut self,
        keep: F,
        Ghost(kept): Ghost<spec_fn((K::V, V::V)) -> bool>,
    )
        requires
            old(self).wf(),
            forall|k: K, v: V| #[trigger] keep.requires((&k, &v)),
            forall|k: K, v: V, b: bool| #[trigger]
                keep.ensures((&k, &v), b) ==> b == kept((k@, v@)),
        ensures
            final(self).wf(),
            final(self).listed() == old(self).listed().filter(kept),
    {
        let ghost all = self.listed();
        let ghost mut done: int = 0;
        let mut i: usize = 0;
        proof {
            lemma_as_map_filter(all, kept);
            reveal(Seq::filter);
            assert(all.take(0) =~= Seq::empty());
            assert(all.take(0).filter(kept) =~= Seq::empty());
            assert(all.skip(0) =~= all);
        }
        while i < self.entries.len()
            invariant
                forall|k: K, v: V| #[trigger] keep.requires((&k, &v)),
                forall|k: K, v: V, b: bool| #[trigger]
                    keep.ensures((&k, &v), b) ==> b == kept((k@, v@)),
                0 <= done <= all.len(),
                i <= self.listed().len(),
                self.listed().len() == self.entries.len(),
                self.listed().take(i as int) == all.take(done).filter(kept),
                self.listed().skip(i as int) == all.skip(done),
            decreases self.entries.len() - i,
        {
            let ghost now = self.listed();
            let ghost e = now[i as int];
            proof {
                assert(now.skip(i as int).len() == now.len() - i);
                assert(all.skip(done).len() == all.len() - done);
                assert(now.skip(i as int)[0] == e);
                assert(all.skip(done)[0] == all[done]);
                assert(all.take(done + 1) =~= all.take(done).push(e));
                seqs::lemma_filter_push(all.take(done), e, kept);
                assert(all.skip(done + 1) =~= all.skip(done).skip(1));
                assert(now.skip(i as int).skip(1) =~= now.skip(i + 1));
            }
            if keep(&self.entries[i].0, &self.entries[i].1) {
                assert(now.take(i + 1) =~= now.take(i as int).push(e));
                i = i + 1;
            } else {
                self.entries.remove(i);
                assert(self.listed() =~= now.remove(i as int));
                assert(self.listed().take(i as int) =~= now.take(i as int));
                assert(self.listed().skip(i as int) =~= now.skip(i + 1));
            }
            proof {
                done = done + 1;
            }
        }
        proof {
            assert(self.listed().take(i as int) =~= self.listed());
            assert(self.listed().skip(i as int).len() == 0);
            assert(all.take(done) =~= all);
        }
    }

    /// Drops a key.
    pub fn remove(&mut self, key: &K) -> (found: bool)
        requires
            old(self).wf(),
        ensures
            final(self).wf(),
            found == old(self)@.dom().contains(key@),
            final(self)@ == old(self)@.remove(key@),
            final(self).listed() == without_entry(old(self).listed(), key@),
    {
        match self.position(key) {
            None => {
                assert(self@.remove(key@) =~= self@);
                false
            },
            Some(i) => {
                let ghost before = self.listed();
                self.entries.remove(i);
                let ghost after = self.listed();
                proof {
                    assert(after =~= before.remove(i as int));
                    lemma_key_index(before, i as int);
                    lemma_as_map_remove(before, i as int);
                }
                true
            },
        }
    }
}

/// Dropping an entry drops its key from the map.
proof fn lemma_as_map_remove<K, V>(s: Seq<(K, V)>, i: int)
    requires
        distinct_keys(s),
        0 <= i < s.len(),
    ensures
        distinct_keys(s.remove(i)),
        as_map(s).dom().contains(s[i].0),
        as_map(s.remove(i)) == as_map(s).remove(s[i].0),
{
    let t = s.remove(i);
    let k = s[i].0;
    lemma_as_map_entry(s, i);
    assert forall|a: int, b: int| 0 <= a < b < t.len() implies #[trigger] t[a].0
        != #[trigger] t[b].0 by {
        let a2 = if a < i {
            a
        } else {
            a + 1
        };
        let b2 = if b < i {
            b
        } else {
            b + 1
        };
        assert(s[a2].0 != s[b2].0);
    }
    assert forall|x: K| as_map(t).dom().contains(x) <==> as_map(s).remove(k).dom().contains(
        x,
    ) by {
        if has_key(t, x) {
            let j = key_index(t, x);
            let j2 = if j < i {
                j
            } else {
                j + 1
            };
            assert(s[j2].0 == x);
            if j2 < i {
                assert(s[j2].0 != s[i].0);
            } else {
                assert(s[i].0 != s[j2].0);
            }
        }
        if has_key(s, x) && x != k {
            let j = key_index(s, x);
            let j2 = if j < i {
                j
            } else {
                j - 1
            };
            assert(t[j2].0 == x);
        }
    }
    assert forall|x: K| as_map(t).dom().contains(x) implies as_map(t)[x] == as_map(s).remove(
        k,
    )[x] by {
        let j = key_index(t, x);
        lemma_as_map_entry(t, j);
        let j2 = if j < i {
            j
        } else {
            j + 1
        };
        lemma_as_map_entry(s, j2);
    }
    assert(as_map(t) =~= as_map(s).remove(k));
}

impl<K: TableKey, V: View> View for Table<K, V> {
    type V = Map<K::V, V::V>;

    open spec fn view(&self) -> Map<K::V, V::V> {
        as_map(self.listed())
    }
}

} // verus!
