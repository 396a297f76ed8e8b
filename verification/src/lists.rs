//! Sequences: filtering, flattening and strict order, as the contracts use them.
use crate::text::{less, lex_irreflexive, lex_lt, lex_total, lex_transitive, same};
use vstd::prelude::*;

verus! {

/// The items of `s` that satisfy `f`, in order.
pub open spec fn keep<T>(s: Seq<T>, f: spec_fn(T) -> bool) -> Seq<T>
    decreases s.len(),
{
    if s.len() == 0 {
        Seq::empty()
    } else if f(s.last()) {
        keep(s.drop_last(), f).push(s.last())
    } else {
        keep(s.drop_last(), f)
    }
}

/// What `f` makes of each item of `s`, one after the other.
pub open spec fn flat<T, U>(s: Seq<T>, f: spec_fn(T) -> Seq<U>) -> Seq<U>
    decreases s.len(),
{
    if s.len() == 0 {
        Seq::empty()
    } else {
        flat(s.drop_last(), f) + f(s.last())
    }
}

/// The values that `f` gives for the items of `s`, where it gives one.
pub open spec fn pick<T, U>(s: Seq<T>, f: spec_fn(T) -> Option<U>) -> Seq<U>
    decreases s.len(),
{
    if s.len() == 0 {
        Seq::empty()
    } else {
        match f(s.last()) {
            Some(x) => pick(s.drop_last(), f).push(x),
            None => pick(s.drop_last(), f),
        }
    }
}

pub broadcast proof fn take_next<T>(s: Seq<T>, i: int)
    requires
        0 <= i < s.len(),
    ensures
        #![trigger s.take(i + 1)]
        s.take(i + 1).drop_last() == s.take(i),
        s.take(i + 1).last() == s[i],
        s.take(i + 1).len() == i + 1,
{
    assert(s.take(i + 1).drop_last() =~= s.take(i));
}

pub broadcast proof fn take_all<T>(s: Seq<T>)
    ensures
        #[trigger] s.take(s.len() as int) == s,
{
    assert(s.take(s.len() as int) =~= s);
}

/// The first item of `s` that satisfies `f`.
pub open spec fn first_where<T>(s: Seq<T>, f: spec_fn(T) -> bool) -> Option<T>
    decreases s.len(),
{
    if s.len() == 0 {
        None
    } else if f(s[0]) {
        Some(s[0])
    } else {
        first_where(s.skip(1), f)
    }
}

/// Whether the texts of `s` stand in strictly ascending order.
pub open spec fn ascending(s: Seq<Seq<char>>) -> bool {
    forall|i: int, j: int| 0 <= i < j < s.len() ==> lex_lt(#[trigger] s[i], #[trigger] s[j])
}

/// A strictly ascending list holds the set `m`: there is one such list only.
pub open spec fn lists_set(s: Seq<Seq<char>>, m: Set<Seq<char>>) -> bool {
    &&& ascending(s)
    &&& forall|x: Seq<char>| #[trigger] s.contains(x) <==> m.contains(x)
}

/// Whether `lt` is a strict order.
pub open spec fn is_strict<T>(lt: spec_fn(T, T) -> bool) -> bool {
    &&& forall|x: T| !#[trigger] lt(x, x)
    &&& forall|x: T, y: T, z: T| #[trigger] lt(x, y) && #[trigger] lt(y, z) ==> lt(x, z)
}

/// Whether `s` is strictly ascending by `lt`.
pub open spec fn ascends<T>(s: Seq<T>, lt: spec_fn(T, T) -> bool) -> bool {
    forall|i: int, j: int| 0 <= i < j < s.len() ==> lt(#[trigger] s[i], #[trigger] s[j])
}

/// Two strictly ascending lists with the same members are equal.
pub proof fn ascends_unique<T>(a: Seq<T>, b: Seq<T>, lt: spec_fn(T, T) -> bool)
    requires
        is_strict(lt),
        ascends(a, lt),
        ascends(b, lt),
        forall|x: T| #[trigger] a.contains(x) <==> b.contains(x),
    ensures
        a == b,
    decreases a.len(),
{
    if a.len() == 0 {
        if b.len() > 0 {
            assert(b.contains(b[0]));
            assert(a.contains(b[0]));
        }
        assert(a =~= b);
    } else {
        assert(a.contains(a.last()));
        assert(b.len() > 0);
        assert(b.contains(b.last()));
        assert(a.contains(b.last()));
        let i = choose|i: int| 0 <= i < b.len() && b[i] == a.last();
        let j = choose|j: int| 0 <= j < a.len() && a[j] == b.last();
        if i != b.len() - 1 && j != a.len() - 1 {
            assert(lt(b[i], b[b.len() - 1]));
            assert(lt(a[j], a[a.len() - 1]));
        }
        assert(a.last() == b.last());
        let a1 = a.drop_last();
        let b1 = b.drop_last();
        assert forall|x: T| #[trigger] a1.contains(x) <==> b1.contains(x) by {
            if a1.contains(x) {
                let k = choose|k: int| 0 <= k < a1.len() && a1[k] == x;
                assert(a[k] == x);
                assert(a.contains(x));
                let m = choose|m: int| 0 <= m < b.len() && b[m] == x;
                assert(lt(a[k], a[a.len() - 1]));
                assert(m != b.len() - 1);
                assert(b1[m] == x);
            }
            if b1.contains(x) {
                let k = choose|k: int| 0 <= k < b1.len() && b1[k] == x;
                assert(b[k] == x);
                assert(b.contains(x));
                assert(a.contains(x));
                let m = choose|m: int| 0 <= m < a.len() && a[m] == x;
                assert(lt(b[k], b[b.len() - 1]));
                assert(m != a.len() - 1);
                assert(a1[m] == x);
            }
        }
        ascends_unique(a1, b1, lt);
        assert(a =~= a1.push(a.last()));
        assert(b =~= b1.push(b.last()));
    }
}

/// Two strictly ascending lists of texts with the same members are equal.
pub proof fn ascending_unique(a: Seq<Seq<char>>, b: Seq<Seq<char>>)
    requires
        ascending(a),
        ascending(b),
        forall|x: Seq<char>| #[trigger] a.contains(x) <==> b.contains(x),
    ensures
        a == b,
{
    let lt = |x: Seq<char>, y: Seq<char>| lex_lt(x, y);
    assert forall|x: Seq<char>| !#[trigger] lt(x, x) by {
        lex_irreflexive(x);
    }
    assert forall|x: Seq<char>, y: Seq<char>, z: Seq<char>| #[trigger] lt(x, y) && #[trigger] lt(y, z) implies lt(
        x,
        z,
    ) by {
        lex_transitive(x, y, z);
    }
    ascends_unique(a, b, lt);
}

/// Where `x` belongs in an ascending list: behind what is less.
spec fn place_of<T>(s: Seq<T>, x: T, lt: spec_fn(T, T) -> bool) -> int
    decreases s.len(),
{
    if s.len() > 0 && !lt(s.last(), x) {
        place_of(s.drop_last(), x, lt)
    } else {
        s.len() as int
    }
}

proof fn place_of_is<T>(s: Seq<T>, x: T, lt: spec_fn(T, T) -> bool)
    requires
        is_strict(lt),
        ascends(s, lt),
    ensures
        0 <= place_of(s, x, lt) <= s.len(),
        forall|i: int| 0 <= i < place_of(s, x, lt) ==> lt(#[trigger] s[i], x),
        forall|i: int| place_of(s, x, lt) <= i < s.len() ==> !lt(#[trigger] s[i], x),
    decreases s.len(),
{
    if s.len() > 0 {
        let n = s.len() - 1;
        let rest = s.drop_last();
        assert(s[n] == s.last());
        if lt(s.last(), x) {
            assert forall|i: int| 0 <= i < s.len() implies lt(#[trigger] s[i], x) by {
                if i < n {
                    assert(lt(s[i], s[n]));
                }
            }
        } else {
            assert forall|i: int, j: int| 0 <= i < j < rest.len() implies lt(
                #[trigger] rest[i],
                #[trigger] rest[j],
            ) by {
                assert(rest[i] == s[i] && rest[j] == s[j]);
            }
            place_of_is(rest, x, lt);
            assert forall|i: int| 0 <= i < place_of(s, x, lt) implies lt(#[trigger] s[i], x) by {
                assert(rest[i] == s[i]);
            }
            assert forall|i: int| place_of(s, x, lt) <= i < s.len() implies !lt(
                #[trigger] s[i],
                x,
            ) by {
                if i < n {
                    assert(rest[i] == s[i]);
                }
            }
        }
    }
}

/// Whatever is listed can be listed in order, each item once.
pub proof fn order_exists<T>(s: Seq<T>, lt: spec_fn(T, T) -> bool) -> (r: Seq<T>)
    requires
        is_strict(lt),
        forall|x: T, y: T| #[trigger] lt(x, y) || x == y || lt(y, x),
    ensures
        ascends(r, lt),
        forall|x: T| #[trigger] r.contains(x) <==> s.contains(x),
    decreases s.len(),
{
    if s.len() == 0 {
        s
    } else {
        let rest = s.drop_last();
        let x = s.last();
        let before = order_exists(rest, lt);
        assert forall|y: T| #[trigger] s.contains(y) <==> rest.contains(y) || y == x by {
            if rest.contains(y) {
                let i = choose|i: int| 0 <= i < rest.len() && rest[i] == y;
                assert(s[i] == y);
            }
            assert(s[s.len() - 1] == x);
            if s.contains(y) {
                let i = choose|i: int| 0 <= i < s.len() && s[i] == y;
                if i < rest.len() {
                    assert(rest[i] == y);
                }
            }
        }
        if before.contains(x) {
            before
        } else {
            let k = place_of(before, x, lt);
            place_of_is(before, x, lt);
            let after = before.insert(k, x);
            assert forall|i: int, j: int| 0 <= i < j < after.len() implies lt(
                #[trigger] after[i],
                #[trigger] after[j],
            ) by {
                if j < k {
                    assert(lt(before[i], before[j]));
                } else if i > k {
                    assert(lt(before[i - 1], before[j - 1]));
                } else if i < k && k < j {
                    assert(lt(before[i], before[j - 1]));
                } else if i == k {
                    assert(before.contains(before[j - 1]));
                    assert(!lt(before[j - 1], x));
                    assert(lt(x, before[j - 1]) || x == before[j - 1] || lt(before[j - 1], x));
                }
            }
            assert forall|y: T| #[trigger] after.contains(y) <==> before.contains(y) || y == x by {
                assert(after[k] == x);
                if before.contains(y) {
                    let i = choose|i: int| 0 <= i < before.len() && before[i] == y;
                    if i < k {
                        assert(after[i] == y);
                    } else {
                        assert(after[i + 1] == y);
                    }
                }
                if after.contains(y) {
                    let i = choose|i: int| 0 <= i < after.len() && after[i] == y;
                    if i < k {
                        assert(before[i] == y);
                    } else if i > k {
                        assert(before[i - 1] == y);
                    }
                }
            }
            after
        }
    }
}

/// The texts of `s` in ascending order, each once.
pub open spec fn sorted_of(s: Seq<Seq<char>>) -> Seq<Seq<char>> {
    choose|r: Seq<Seq<char>>| lists_set(r, s.to_set())
}

/// The sorted list holds what was listed, in ascending order.
pub proof fn sorted_of_lists(s: Seq<Seq<char>>)
    ensures
        lists_set(sorted_of(s), s.to_set()),
{
    let lt = |x: Seq<char>, y: Seq<char>| lex_lt(x, y);
    assert forall|x: Seq<char>| !#[trigger] lt(x, x) by {
        lex_irreflexive(x);
    }
    assert forall|x: Seq<char>, y: Seq<char>, z: Seq<char>|
        #[trigger] lt(x, y) && #[trigger] lt(y, z) implies lt(x, z) by {
        lex_transitive(x, y, z);
    }
    assert forall|x: Seq<char>, y: Seq<char>| #[trigger] lt(x, y) || x == y || lt(y, x) by {
        lex_total(x, y);
    }
    let r = order_exists(s, lt);
    assert forall|i: int, j: int| 0 <= i < j < r.len() implies lex_lt(
        #[trigger] r[i],
        #[trigger] r[j],
    ) by {
        assert(lt(r[i], r[j]));
    }
    assert(lists_set(r, s.to_set()));
}

/// The order of pairs of texts: by the first, then by the second.
pub open spec fn text_pair_lt(a: (Seq<char>, Seq<char>), b: (Seq<char>, Seq<char>)) -> bool {
    lex_lt(a.0, b.0) || (a.0 == b.0 && lex_lt(a.1, b.1))
}

pub open spec fn lists_pairs(
    r: Seq<(Seq<char>, Seq<char>)>,
    m: Set<(Seq<char>, Seq<char>)>,
) -> bool {
    &&& ascends(r, |a: (Seq<char>, Seq<char>), b: (Seq<char>, Seq<char>)| text_pair_lt(a, b))
    &&& forall|x: (Seq<char>, Seq<char>)| #[trigger] r.contains(x) <==> m.contains(x)
}

/// The pairs of `s` in ascending order, each once.
pub open spec fn sorted_pairs_of(s: Seq<(Seq<char>, Seq<char>)>) -> Seq<(Seq<char>, Seq<char>)> {
    choose|r: Seq<(Seq<char>, Seq<char>)>| lists_pairs(r, s.to_set())
}

proof fn text_pair_strict()
    ensures
        is_strict(|a: (Seq<char>, Seq<char>), b: (Seq<char>, Seq<char>)| text_pair_lt(a, b)),
{
    let lt = |a: (Seq<char>, Seq<char>), b: (Seq<char>, Seq<char>)| text_pair_lt(a, b);
    assert forall|x: (Seq<char>, Seq<char>)| !#[trigger] lt(x, x) by {
        lex_irreflexive(x.0);
        lex_irreflexive(x.1);
    }
    assert forall|x: (Seq<char>, Seq<char>), y: (Seq<char>, Seq<char>), z: (Seq<char>, Seq<char>)|
        #[trigger] lt(x, y) && #[trigger] lt(y, z) implies lt(x, z) by {
        if lex_lt(x.0, y.0) && lex_lt(y.0, z.0) {
            lex_transitive(x.0, y.0, z.0);
        }
        if lex_lt(x.1, y.1) && lex_lt(y.1, z.1) {
            lex_transitive(x.1, y.1, z.1);
        }
    }
}

/// The sorted list of pairs holds what was listed, in ascending order.
pub proof fn sorted_pairs_of_lists(s: Seq<(Seq<char>, Seq<char>)>)
    ensures
        lists_pairs(sorted_pairs_of(s), s.to_set()),
{
    let lt = |a: (Seq<char>, Seq<char>), b: (Seq<char>, Seq<char>)| text_pair_lt(a, b);
    text_pair_strict();
    assert forall|x: (Seq<char>, Seq<char>), y: (Seq<char>, Seq<char>)|
        #[trigger] lt(x, y) || x == y || lt(y, x) by {
        lex_total(x.0, y.0);
        lex_total(x.1, y.1);
    }
    let r = order_exists(s, lt);
    assert(lists_pairs(r, s.to_set()));
}

proof fn insert_members<T>(before: Seq<T>, i: int, x: T)
    requires
        0 <= i <= before.len(),
    ensures
        forall|y: T| #[trigger]
            before.insert(i, x).contains(y) <==> before.contains(y) || y == x,
{
    let after = before.insert(i, x);
    assert forall|y: T| #[trigger] after.contains(y) <==> before.contains(y) || y == x by {
        if after.contains(y) {
            let k = choose|k: int| 0 <= k < after.len() && after[k] == y;
            if k < i {
                assert(before[k] == y);
            } else if k > i {
                assert(before[k - 1] == y);
            }
        }
        if before.contains(y) {
            let k = choose|k: int| 0 <= k < before.len() && before[k] == y;
            if k < i {
                assert(after[k] == y);
            } else {
                assert(after[k + 1] == y);
            }
        }
        if y == x {
            assert(after[i] == y);
        }
    }
}

proof fn insert_ascends<T>(before: Seq<T>, i: int, x: T, lt: spec_fn(T, T) -> bool)
    requires
        is_strict(lt),
        ascends(before, lt),
        0 <= i <= before.len(),
        forall|j: int| 0 <= j < i ==> lt(#[trigger] before[j], x),
        i < before.len() ==> lt(x, before[i]),
    ensures
        ascends(before.insert(i, x), lt),
{
    let after = before.insert(i, x);
    assert forall|j: int| i <= j < before.len() implies lt(x, #[trigger] before[j]) by {
        if j > i {
            assert(lt(before[i], before[j]));
        }
    }
    assert forall|a: int, b: int| 0 <= a < b < after.len() implies lt(
        #[trigger] after[a],
        #[trigger] after[b],
    ) by {
        if b < i {
            assert(after[a] == before[a] && after[b] == before[b]);
        } else if a < i && b > i {
            assert(after[a] == before[a] && after[b] == before[b - 1]);
        } else if a == i {
            assert(after[b] == before[b - 1]);
        } else if a > i {
            assert(after[a] == before[a - 1] && after[b] == before[b - 1]);
        }
    }
}

/// The pairs of `v` in ascending order, each once.
pub fn sort_pairs(v: &Vec<(String, String)>) -> (r: Vec<(String, String)>)
    ensures
        r.deep_view() == sorted_pairs_of(v.deep_view()),
        lists_pairs(r.deep_view(), v.deep_view().to_set()),
{
    let ghost lt = |a: (Seq<char>, Seq<char>), b: (Seq<char>, Seq<char>)| text_pair_lt(a, b);
    let mut out: Vec<(String, String)> = Vec::new();
    let ghost d = v.deep_view();
    let mut n: usize = 0;
    while n < v.len()
        invariant
            n <= v.len(),
            d == v.deep_view(),
            lt == (|a: (Seq<char>, Seq<char>), b: (Seq<char>, Seq<char>)| text_pair_lt(a, b)),
            lists_pairs(out.deep_view(), d.take(n as int).to_set()),
        decreases v.len() - n,
    {
        let ghost before = out.deep_view();
        let ghost x = d[n as int];
        assert(x == (v@[n as int].0@, v@[n as int].1@));
        let a = &v[n].0;
        let b = &v[n].1;
        let mut i: usize = 0;
        while i < out.len() && (less(out[i].0.as_str(), a.as_str()) || (same(
            out[i].0.as_str(),
            a.as_str(),
        ) && less(out[i].1.as_str(), b.as_str())))
            invariant
                i <= out.len(),
                out.deep_view() == before,
                x == (a@, b@),
                forall|j: int| 0 <= j < i ==> text_pair_lt(#[trigger] before[j], x),
            decreases out.len() - i,
        {
            assert(before[i as int] == (out@[i as int].0@, out@[i as int].1@));
            i += 1;
        }
        proof {
            text_pair_strict();
            let s0 = d.take(n as int);
            let s1 = d.take(n + 1);
            assert(s1 =~= s0.push(x));
            assert forall|y: (Seq<char>, Seq<char>)| #[trigger]
                s1.to_set().contains(y) <==> s0.to_set().contains(y) || y == x by {
                if s0.contains(y) {
                    let k = choose|k: int| 0 <= k < s0.len() && s0[k] == y;
                    assert(s1[k] == y);
                }
                if s1.contains(y) {
                    let k = choose|k: int| 0 <= k < s1.len() && s1[k] == y;
                    if k < n {
                        assert(s0[k] == y);
                    }
                }
                assert(s1[n as int] == x);
            }
            assert(i < before.len() ==> before[i as int] == (
                out@[i as int].0@,
                out@[i as int].1@,
            ));
        }
        if i < out.len() && same(out[i].0.as_str(), a.as_str()) && same(
            out[i].1.as_str(),
            b.as_str(),
        ) {
            assert(before[i as int] == x);
        } else {
            out.insert(i, (a.clone(), b.clone()));
            proof {
                assert(out.deep_view() =~= before.insert(i as int, x));
                if i < before.len() {
                    lex_total(x.0, before[i as int].0);
                    lex_total(x.1, before[i as int].1);
                }
                insert_ascends(before, i as int, x, lt);
                insert_members(before, i as int, x);
            }
        }
        n += 1;
    }
    proof {
        assert(d.take(n as int) =~= d);
        text_pair_strict();
        ascends_unique(out.deep_view(), sorted_pairs_of(d), lt);
    }
    out
}

/// Whether `v` holds the text `x`.
pub fn holds(v: &Vec<String>, x: &str) -> (r: bool)
    ensures
        r == v.deep_view().contains(x@),
{
    let mut i: usize = 0;
    while i < v.len()
        invariant
            i <= v.len(),
            forall|j: int| 0 <= j < i ==> v@[j]@ != x@,
        decreases v.len() - i,
    {
        if same(v[i].as_str(), x) {
            assert(v.deep_view()[i as int] == x@);
            return true;
        }
        i += 1;
    }
    assert forall|j: int| 0 <= j < v.deep_view().len() implies v.deep_view()[j] != x@ by {
        assert(v@[j]@ != x@);
    }
    false
}

/// Puts `x` at its place in an ascending list, unless it is there already.
pub fn put_sorted(v: &mut Vec<String>, x: String)
    requires
        ascending(old(v).deep_view()),
    ensures
        ascending(final(v).deep_view()),
        forall|y: Seq<char>| #[trigger]
            final(v).deep_view().contains(y) <==> old(v).deep_view().contains(y) || y == x@,
{
    let ghost before = v.deep_view();
    let mut i: usize = 0;
    while i < v.len() && less(v[i].as_str(), x.as_str())
        invariant
            i <= v.len(),
            v.deep_view() == before,
            ascending(before),
            forall|j: int| 0 <= j < i ==> lex_lt(#[trigger] before[j], x@),
        decreases v.len() - i,
    {
        i += 1;
    }
    if i < v.len() && same(v[i].as_str(), x.as_str()) {
        assert(before[i as int] == x@);
        return;
    }
    v.insert(i, x);
    let ghost after = v.deep_view();
    proof {
        assert(after =~= before.insert(i as int, x@));
        assert forall|j: int| i <= j < before.len() implies lex_lt(x@, #[trigger] before[j]) by {
            lex_total(x@, before[i as int]);
            if j > i {
                lex_transitive(x@, before[i as int], before[j]);
            }
        }
        assert forall|a: int, b: int| 0 <= a < b < after.len() implies lex_lt(
            #[trigger] after[a],
            #[trigger] after[b],
        ) by {
            if a < i && b < i {
                assert(after[a] == before[a] && after[b] == before[b]);
            } else if a < i && b == i {
            } else if a < i {
                assert(after[b] == before[b - 1]);
                assert(after[a] == before[a]);
            } else if a == i {
                assert(after[b] == before[b - 1]);
            } else {
                assert(after[a] == before[a - 1] && after[b] == before[b - 1]);
            }
        }
        assert forall|y: Seq<char>| #[trigger] after.contains(y) <==> before.contains(y) || y
            == x@ by {
            if after.contains(y) {
                let k = choose|k: int| 0 <= k < after.len() && after[k] == y;
                if k < i {
                    assert(before[k] == y);
                } else if k > i {
                    assert(before[k - 1] == y);
                }
            }
            if before.contains(y) {
                let k = choose|k: int| 0 <= k < before.len() && before[k] == y;
                if k < i {
                    assert(after[k] == y);
                } else {
                    assert(after[k + 1] == y);
                }
            }
            if y == x@ {
                assert(after[i as int] == y);
            }
        }
    }
}

/// The texts of `v` in ascending order, each once.
pub fn sort_unique(v: &Vec<String>) -> (r: Vec<String>)
    ensures
        r.deep_view() == sorted_of(v.deep_view()),
        lists_set(r.deep_view(), v.deep_view().to_set()),
{
    let mut out: Vec<String> = Vec::new();
    let mut i: usize = 0;
    while i < v.len()
        invariant
            i <= v.len(),
            ascending(out.deep_view()),
            forall|y: Seq<char>| #[trigger]
                out.deep_view().contains(y) <==> v.deep_view().take(i as int).contains(y),
        decreases v.len() - i,
    {
        let ghost a = v.deep_view().take(i as int);
        let ghost b = v.deep_view().take(i + 1);
        put_sorted(&mut out, v[i].clone());
        proof {
            assert(b =~= a.push(v.deep_view()[i as int]));
            assert forall|y: Seq<char>| #[trigger] out.deep_view().contains(y) <==> b.contains(
                y,
            ) by {
                if a.contains(y) {
                    let k = choose|k: int| 0 <= k < a.len() && a[k] == y;
                    assert(b[k] == y);
                }
                if b.contains(y) {
                    let k = choose|k: int| 0 <= k < b.len() && b[k] == y;
                    if k < i {
                        assert(a[k] == y);
                    }
                }
                assert(b[i as int] == v@[i as int]@);
            }
        }
        i += 1;
    }
    assert(v.deep_view().take(i as int) =~= v.deep_view());
    assert(lists_set(out.deep_view(), v.deep_view().to_set()));
    proof {
        ascending_unique(out.deep_view(), sorted_of(v.deep_view()));
    }
    out
}

/// A copy of a list of pairs.
pub fn clone_pairs(v: &Vec<(String, String)>) -> (r: Vec<(String, String)>)
    ensures
        r.deep_view() == v.deep_view(),
{
    let mut out: Vec<(String, String)> = Vec::new();
    let mut i: usize = 0;
    while i < v.len()
        invariant
            i <= v.len(),
            out.deep_view() == v.deep_view().take(i as int),
        decreases v.len() - i,
    {
        let ghost before = out.deep_view();
        out.push((v[i].0.clone(), v[i].1.clone()));
        assert(out.deep_view() =~= before.push((v@[i as int].0@, v@[i as int].1@)));
        i += 1;
        assert(out.deep_view() =~= v.deep_view().take(i as int));
    }
    assert(v.deep_view().take(i as int) =~= v.deep_view());
    out
}

/// The place `i` put behind the places whose keys are not greater.
pub open spec fn placed_by(order: Seq<int>, i: int, keys: Seq<u64>) -> Seq<int>
    decreases order.len(),
{
    if order.len() == 0 || keys[order.last()] <= keys[i] {
        order.push(i)
    } else {
        placed_by(order.drop_last(), i, keys).push(order.last())
    }
}

/// The first `n` places in ascending order of their keys, places with one key in
/// their own order.
pub open spec fn stable_order(keys: Seq<u64>, n: nat) -> Seq<int>
    decreases n,
{
    if n == 0 || n > keys.len() {
        Seq::empty()
    } else {
        placed_by(stable_order(keys, (n - 1) as nat), n - 1, keys)
    }
}

proof fn placed_by_at(order: Seq<int>, i: int, keys: Seq<u64>, k: int)
    requires
        0 <= k <= order.len(),
        k > 0 ==> keys[order[k - 1]] <= keys[i],
        forall|j: int| k <= j < order.len() ==> keys[#[trigger] order[j]] > keys[i],
    ensures
        placed_by(order, i, keys) == order.insert(k, i),
    decreases order.len(),
{
    if k < order.len() {
        assert(keys[order.last()] > keys[i]);
        placed_by_at(order.drop_last(), i, keys, k);
    }
    assert(placed_by(order, i, keys) =~= order.insert(k, i));
}

pub open spec fn as_ints(s: Seq<usize>) -> Seq<int> {
    s.map_values(|x: usize| x as int)
}

/// The places of `keys` in ascending order of the keys, places with one key in their
/// own order.
pub fn order_by(keys: &Vec<u64>) -> (r: Vec<usize>)
    ensures
        as_ints(r@) == stable_order(keys@, keys@.len()),
        r.len() == keys.len(),
        forall|i: int| 0 <= i < r.len() ==> #[trigger] r@[i] < keys.len(),
{
    let mut out: Vec<usize> = Vec::new();
    let mut n: usize = 0;
    assert(as_ints(out@) =~= stable_order(keys@, 0));
    while n < keys.len()
        invariant
            n <= keys.len(),
            out.len() == n,
            as_ints(out@) == stable_order(keys@, n as nat),
            forall|i: int| 0 <= i < out.len() ==> #[trigger] out@[i] < keys.len(),
        decreases keys.len() - n,
    {
        let ghost before = as_ints(out@);
        let ghost o = out@;
        let mut k: usize = out.len();
        while k > 0 && keys[out[k - 1]] > keys[n]
            invariant
                k <= out.len(),
                n < keys.len(),
                out@ == o,
                before == as_ints(o),
                forall|i: int| 0 <= i < out.len() ==> #[trigger] out@[i] < keys.len(),
                forall|j: int| k <= j < before.len() ==> keys@[#[trigger] before[j]] > keys@[n as int],
            decreases k,
        {
            assert(before[k - 1] == out@[k - 1]);
            k -= 1;
        }
        assert(k > 0 ==> before[k - 1] == out@[k - 1]);
        out.insert(k, n);
        proof {
            placed_by_at(before, n as int, keys@, k as int);
            assert(as_ints(out@) =~= before.insert(k as int, n as int));
            assert forall|i: int| 0 <= i < out.len() implies #[trigger] out@[i] < keys.len() by {
                if i < k {
                    assert(out@[i] == o[i]);
                } else if i > k {
                    assert(out@[i] == o[i - 1]);
                }
            }
        }
        n += 1;
    }
    out
}

} // verus!
