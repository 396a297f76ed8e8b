//! A map with row ids as keys, kept in key order.
use crate::lists::ascends_unique;
use vstd::prelude::*;

verus! {

/// A map from row ids to `V` whose entries are walked in ascending key order.
#[derive(Debug)]
#[verifier::reject_recursive_types(V)]
pub struct IdMap<V> {
    entries: Vec<(i64, V)>,
}

/// Whether the keys of `l` are strictly ascending.
pub open spec fn in_order<U>(l: Seq<(i64, U)>) -> bool {
    forall|i: int, j: int| 0 <= i < j < l.len() ==> (#[trigger] l[i]).0 < (#[trigger] l[j]).0
}

pub open spec fn has_key<U>(l: Seq<(i64, U)>, k: i64) -> bool {
    exists|i: int| 0 <= i < l.len() && (#[trigger] l[i]).0 == k
}

/// The map that the entries `l` make up.
pub open spec fn map_of<U>(l: Seq<(i64, U)>) -> Map<i64, U> {
    Map::new(
        |k: i64| has_key(l, k),
        |k: i64| l[choose|i: int| 0 <= i < l.len() && (#[trigger] l[i]).0 == k].1,
    )
}

/// An entry in order is what the map holds under its key.
pub proof fn map_of_at<U>(l: Seq<(i64, U)>, i: int)
    requires
        in_order(l),
        0 <= i < l.len(),
    ensures
        map_of(l).dom().contains(l[i].0),
        map_of(l)[l[i].0] == l[i].1,
{
    let k = l[i].0;
    assert(has_key(l, k));
    let j = choose|j: int| 0 <= j < l.len() && (#[trigger] l[j]).0 == k;
    assert(i == j);
}

/// Two lists in order that make up one map are equal.
pub proof fn in_order_unique<U>(a: Seq<(i64, U)>, b: Seq<(i64, U)>)
    requires
        in_order(a),
        in_order(b),
        map_of(a) == map_of(b),
    ensures
        a == b,
{
    let ka = a.map_values(|p: (i64, U)| p.0);
    let kb = b.map_values(|p: (i64, U)| p.0);
    assert forall|x: i64| #[trigger] ka.contains(x) <==> kb.contains(x) by {
        if ka.contains(x) {
            let i = choose|i: int| 0 <= i < ka.len() && ka[i] == x;
            map_of_at(a, i);
            assert(map_of(b).dom().contains(x));
            let j = choose|j: int| 0 <= j < b.len() && (#[trigger] b[j]).0 == x;
            assert(kb[j] == x);
        }
        if kb.contains(x) {
            let i = choose|i: int| 0 <= i < kb.len() && kb[i] == x;
            map_of_at(b, i);
            assert(map_of(a).dom().contains(x));
            let j = choose|j: int| 0 <= j < a.len() && (#[trigger] a[j]).0 == x;
            assert(ka[j] == x);
        }
    }
    ascends_unique(ka, kb, |x: i64, y: i64| x < y);
    assert forall|i: int| 0 <= i < a.len() implies a[i] == b[i] by {
        assert(ka[i] == kb[i]);
        map_of_at(a, i);
        map_of_at(b, i);
    }
    assert(a.len() == ka.len() && b.len() == kb.len());
    assert(a =~= b);
}

/// The entries of `m` in key order.
pub open spec fn entries_of<U>(m: Map<i64, U>) -> Seq<(i64, U)> {
    choose|l: Seq<(i64, U)>| in_order(l) && #[trigger] map_of(l) == m
}

/// Entries in order are those of the map that they make up.
pub proof fn entries_of_list<U>(l: Seq<(i64, U)>)
    requires
        in_order(l),
    ensures
        entries_of(map_of(l)) == l,
{
    in_order_unique(l, entries_of(map_of(l)));
}

proof fn map_of_insert<U>(l: Seq<(i64, U)>, i: int, k: i64, v: U)
    requires
        in_order(l),
        in_order(l.insert(i, (k, v))),
        0 <= i <= l.len(),
        !has_key(l, k),
    ensures
        map_of(l.insert(i, (k, v))) == map_of(l).insert(k, v),
{
    let m = l.insert(i, (k, v));
    assert forall|x: i64| has_key(m, x) <==> has_key(l, x) || x == k by {
        if has_key(m, x) {
            let j = choose|j: int| 0 <= j < m.len() && (#[trigger] m[j]).0 == x;
            if j < i {
                assert(l[j].0 == x);
            } else if j > i {
                assert(l[j - 1].0 == x);
            }
        }
        if has_key(l, x) {
            let j = choose|j: int| 0 <= j < l.len() && (#[trigger] l[j]).0 == x;
            if j < i {
                assert(m[j].0 == x);
            } else {
                assert(m[j + 1].0 == x);
            }
        }
        if x == k {
            assert(m[i].0 == k);
        }
    }
    assert forall|x: i64| has_key(m, x) implies map_of(m)[x] == map_of(l).insert(k, v)[x] by {
        if x == k {
            map_of_at(m, i);
        } else {
            let j = choose|j: int| 0 <= j < l.len() && (#[trigger] l[j]).0 == x;
            map_of_at(l, j);
            if j < i {
                assert(m[j] == l[j]);
                map_of_at(m, j);
            } else {
                assert(m[j + 1] == l[j]);
                map_of_at(m, j + 1);
            }
        }
    }
    assert(map_of(m) =~= map_of(l).insert(k, v));
}

proof fn map_of_update<U>(l: Seq<(i64, U)>, i: int, v: U)
    requires
        in_order(l),
        0 <= i < l.len(),
    ensures
        in_order(l.update(i, (l[i].0, v))),
        map_of(l.update(i, (l[i].0, v))) == map_of(l).insert(l[i].0, v),
{
    let m = l.update(i, (l[i].0, v));
    let k = l[i].0;
    assert forall|a: int, b: int| 0 <= a < b < m.len() implies (#[trigger] m[a]).0 < (#[trigger] m[b]).0 by {
        assert(m[a].0 == l[a].0 && m[b].0 == l[b].0);
    }
    assert forall|x: i64| has_key(m, x) <==> has_key(l, x) by {
        if has_key(m, x) {
            let j = choose|j: int| 0 <= j < m.len() && (#[trigger] m[j]).0 == x;
            assert(l[j].0 == x);
        }
        if has_key(l, x) {
            let j = choose|j: int| 0 <= j < l.len() && (#[trigger] l[j]).0 == x;
            assert(m[j].0 == x);
        }
    }
    assert(has_key(l, k));
    assert forall|x: i64| has_key(m, x) implies map_of(m)[x] == map_of(l).insert(k, v)[x] by {
        let j = choose|j: int| 0 <= j < l.len() && (#[trigger] l[j]).0 == x;
        map_of_at(l, j);
        map_of_at(m, j);
        assert(m[j].0 == x);
        if x == k {
            assert(j == i);
        }
    }
    assert(map_of(m) =~= map_of(l).insert(k, v));
}

impl<V: DeepView> DeepView for IdMap<V> {
    type V = Map<i64, V::V>;

    open spec fn deep_view(&self) -> Map<i64, V::V> {
        map_of(self.list())
    }
}

impl<V> IdMap<V> {
    #[verifier::type_invariant]
    spec fn wf(&self) -> bool {
        forall|i: int, j: int|
            0 <= i < j < self.entries@.len() ==> (#[trigger] self.entries@[i]).0 < (#[trigger] self.entries@[j]).0
    }
}

impl<V: DeepView> IdMap<V> {
    /// The entries in key order.
    pub closed spec fn list(&self) -> Seq<(i64, V::V)> {
        self.entries.deep_view()
    }

    proof fn wf_list(&self)
        requires
            self.wf(),
        ensures
            in_order(self.list()),
    {
        let l = self.list();
        assert forall|i: int, j: int| 0 <= i < j < l.len() implies (#[trigger] l[i]).0 < (#[trigger] l[j]).0 by {
            assert(l[i].0 == self.entries@[i].0);
            assert(l[j].0 == self.entries@[j].0);
        }
    }

    pub fn new() -> (r: Self)
        ensures
            r.deep_view() == Map::<i64, V::V>::empty(),
            r.list() == Seq::<(i64, V::V)>::empty(),
    {
        let r = IdMap { entries: Vec::new() };
        assert(r.list() =~= Seq::<(i64, V::V)>::empty());
        assert(r.deep_view() =~= Map::<i64, V::V>::empty());
        r
    }

    pub fn len(&self) -> (r: usize)
        ensures
            r == self.list().len(),
            in_order(self.list()),
            self.list() == entries_of(self.deep_view()),
    {
        proof {
            use_type_invariant(self);
            self.wf_list();
            entries_of_list(self.list());
        }
        self.entries.len()
    }

    pub fn is_empty(&self) -> (r: bool)
        ensures
            r == (self.list().len() == 0),
    {
        self.entries.len() == 0
    }

    /// The first position whose key is not less than `k`.
    fn place(&self, k: &i64) -> (r: usize)
        ensures
            r <= self.list().len(),
            forall|i: int| 0 <= i < r ==> ((#[trigger] self.list()[i]).0 < *k),
            forall|i: int| r <= i < self.list().len() ==> !((#[trigger] self.list()[i]).0 < *k),
    {
        proof {
            use_type_invariant(self);
            self.wf_list();
        }
        let mut lo: usize = 0;
        let mut hi: usize = self.entries.len();
        while lo < hi
            invariant
                lo <= hi <= self.entries.len(),
                in_order(self.list()),
                forall|i: int| 0 <= i < lo ==> ((#[trigger] self.list()[i]).0 < *k),
                forall|i: int|
                    hi <= i < self.list().len() ==> !((#[trigger] self.list()[i]).0 < *k),
            decreases hi - lo,
        {
            let mid: usize = lo + (hi - lo) / 2;
            let ghost l = self.list();
            assert(l[mid as int].0 == self.entries@[mid as int].0);
            if self.entries[mid].0 < *k {
                assert forall|i: int| 0 <= i < mid + 1 implies ((#[trigger] l[i]).0 < *k) by {
                    if i < mid {
                    }
                }
                lo = mid + 1;
            } else {
                assert forall|i: int| mid <= i < l.len() implies !((#[trigger] l[i]).0 < *k) by {
                    if i > mid && (l[i].0 < *k) {
                    }
                }
                hi = mid;
            }
        }
        lo
    }

    /// The position of `k`, where the map has it.
    pub fn position(&self, k: &i64) -> (r: Option<usize>)
        ensures
            match r {
                Some(i) => i < self.list().len() && self.list()[i as int].0 == *k
                    && self.deep_view().dom().contains(*k) && self.deep_view()[*k]
                    == self.list()[i as int].1,
                None => !self.deep_view().dom().contains(*k),
            },
    {
        proof {
            use_type_invariant(self);
            self.wf_list();
        }
        let i: usize = self.place(k);
        let ghost l = self.list();
        if i < self.entries.len() && self.entries[i].0 == *k {
            proof {
                assert(l[i as int].0 == *k);
                map_of_at(l, i as int);
            }
            Some(i)
        } else {
            proof {
                if has_key(l, *k) {
                    let j = choose|j: int| 0 <= j < l.len() && (#[trigger] l[j]).0 == *k;
                    assert(j >= i);
                    if j > i {
                        assert((l[i as int].0 < l[j].0));
                    }
                    assert(self.entries@[i as int].0 == *k);
                }
            }
            None
        }
    }

    pub fn get(&self, k: &i64) -> (r: Option<&V>)
        ensures
            match r {
                Some(v) => self.deep_view().dom().contains(*k) && v.deep_view()
                    == self.deep_view()[*k],
                None => !self.deep_view().dom().contains(*k),
            },
    {
        match self.position(k) {
            Some(i) => {
                assert(self.list()[i as int].1 == self.entries@[i as int].1.deep_view());
                Some(&self.entries[i].1)
            },
            None => None,
        }
    }

    pub fn contains_key(&self, k: &i64) -> (r: bool)
        ensures
            r == self.deep_view().dom().contains(*k),
    {
        self.position(k).is_some()
    }

    /// The key at position `i` in key order.
    pub fn key_at(&self, i: usize) -> (r: i64)
        requires
            i < self.list().len(),
        ensures
            r == self.list()[i as int].0,
    {
        self.entries[i].0
    }

    /// The value at position `i` in key order.
    pub fn value_at(&self, i: usize) -> (r: &V)
        requires
            i < self.list().len(),
        ensures
            r.deep_view() == self.list()[i as int].1,
    {
        &self.entries[i].1
    }

    /// Puts `v` under `k`, in place of what was there.
    pub fn insert(&mut self, k: i64, v: V)
        ensures
            final(self).deep_view() == old(self).deep_view().insert(k, v.deep_view()),
    {
        proof {
            use_type_invariant(&*self);
            self.wf_list();
        }
        let at = self.position(&k);
        let i: usize = self.place(&k);
        let ghost l = self.list();
        let ghost x = v.deep_view();
        let mut e: Vec<(i64, V)> = Vec::new();
        std::mem::swap(&mut e, &mut self.entries);
        assert(e.deep_view() == l);
        let ghost key = k;
        match at {
            Some(j) => {
                e.set(j, (k, v));
                proof {
                    assert(e.deep_view() =~= l.update(j as int, (key, x)));
                    map_of_update(l, j as int, x);
                }
            },
            None => {
                e.insert(i, (k, v));
                proof {
                    let m = l.insert(i as int, (key, x));
                    assert(e.deep_view() =~= m);
                    assert forall|a: int, b: int| 0 <= a < b < m.len() implies (#[trigger] m[a]).0 < (#[trigger] m[b]).0 by {
                        let a0 = if a < i {
                            a
                        } else {
                            a - 1
                        };
                        let b0 = if b < i {
                            b
                        } else {
                            b - 1
                        };
                        if a != i {
                            assert(m[a] == l[a0]);
                        }
                        if b != i {
                            assert(m[b] == l[b0]);
                        }
                        if a == i {
                            assert(has_key(l, l[b0].0));
                        }
                    }
                    map_of_insert(l, i as int, key, x);
                }
            },
        }
        proof {
            let m = e.deep_view();
            assert forall|i: int, j: int| 0 <= i < j < e@.len() implies (#[trigger] e@[i]).0 < (#[trigger] e@[j]).0 by {
                assert(m[i].0 == e@[i].0);
                assert(m[j].0 == e@[j].0);
            }
        }
        self.entries = e;
    }
}

} // verus!
