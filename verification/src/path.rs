//! Paths with `/` between their names, read by components: repeated separators, a
//! separator at the end and `.` names count for nothing, but for a `.` at the start.
use crate::text::{chars_of, rfind_to, rfind_to_is_last, string_of};
use vstd::prelude::*;

verus! {

/// How many characters stand before the first name: one for the root, one for a `.` at
/// the start of a relative path.
pub open spec fn base_of(p: Seq<char>) -> int {
    if p.len() > 0 && (p[0] == '/' || (p[0] == '.' && (p.len() == 1 || p[1] == '/'))) {
        1
    } else {
        0
    }
}

/// Where the last name among the first `n` characters begins.
pub open spec fn name_start(p: Seq<char>, n: int) -> int {
    match rfind_to(p, '/', n) {
        Some(i) => if i >= base_of(p) {
            i + 1
        } else {
            base_of(p)
        },
        None => base_of(p),
    }
}

/// Where the name before the one that begins at `at` ends.
pub open spec fn end_before(p: Seq<char>, at: int) -> int {
    if at > base_of(p) {
        at - 1
    } else {
        base_of(p)
    }
}

/// Where the last component among the first `n` characters ends: empty names and `.` are
/// none.
pub open spec fn component_end(p: Seq<char>, n: int) -> int
    decreases n,
{
    if n <= base_of(p) || n > p.len() {
        n
    } else {
        let at = name_start(p, n);
        proof {
            name_start_bounds(p, n);
        }
        if at == n || p.subrange(at, n) == "."@ {
            component_end(p, end_before(p, at))
        } else {
            n
        }
    }
}

/// The last component's name, where the path ends in one: not in the root, in `.` or in
/// `..`.
pub open spec fn name_of(p: Seq<char>) -> Option<Seq<char>> {
    let n = component_end(p, p.len() as int);
    let name = p.subrange(name_start(p, n), n);
    if n > base_of(p) && name != ".."@ {
        Some(name)
    } else {
        None
    }
}

/// The path without its last component; none of the root and of the empty path.
pub open spec fn parent_of(p: Seq<char>) -> Option<Seq<char>> {
    let n = component_end(p, p.len() as int);
    if n > base_of(p) {
        Some(p.take(component_end(p, end_before(p, name_start(p, n)))))
    } else if n == 1 && p[0] == '.' {
        Some(Seq::empty())
    } else {
        None
    }
}

pub proof fn name_start_bounds(p: Seq<char>, n: int)
    requires
        base_of(p) < n <= p.len(),
    ensures
        base_of(p) <= name_start(p, n) <= n,
        base_of(p) <= end_before(p, name_start(p, n)) < n,
{
    rfind_to_is_last(p, '/', n);
}

pub proof fn component_end_bounds(p: Seq<char>, n: int)
    requires
        base_of(p) <= n <= p.len(),
    ensures
        base_of(p) <= component_end(p, n) <= n,
    decreases n,
{
    if n > base_of(p) {
        name_start_bounds(p, n);
        component_end_bounds(p, end_before(p, name_start(p, n)));
    }
}

/// A path is longer than the one above it.
pub proof fn parent_is_shorter(p: Seq<char>)
    ensures
        parent_of(p) matches Some(q) ==> q.len() < p.len(),
{
    let n = component_end(p, p.len() as int);
    component_end_bounds(p, p.len() as int);
    if n > base_of(p) {
        name_start_bounds(p, n);
        component_end_bounds(p, end_before(p, name_start(p, n)));
    }
}

fn find_base(v: &Vec<char>) -> (r: usize)
    ensures
        r == base_of(v@),
        r <= v.len(),
{
    if v.len() > 0 && (v[0] == '/' || (v[0] == '.' && (v.len() == 1 || v[1] == '/'))) {
        1
    } else {
        0
    }
}

fn find_name(v: &Vec<char>, base: usize, n: usize) -> (r: usize)
    requires
        base == base_of(v@),
        base < n <= v.len(),
    ensures
        r == name_start(v@, n as int),
        base <= r <= n,
{
    proof {
        name_start_bounds(v@, n as int);
    }
    let mut i: usize = n;
    while i > base
        invariant
            base <= i <= n,
            n <= v.len(),
            base == base_of(v@),
            rfind_to(v@, '/', n as int) == rfind_to(v@, '/', i as int),
        decreases i,
    {
        if v[i - 1] == '/' {
            return i;
        }
        i -= 1;
    }
    proof {
        rfind_to_is_last(v@, '/', i as int);
    }
    base
}

fn find_end(v: &Vec<char>, base: usize, from: usize) -> (r: usize)
    requires
        base == base_of(v@),
        base <= from <= v.len(),
    ensures
        r == component_end(v@, from as int),
        base <= r <= from,
{
    let mut n: usize = from;
    while n > base
        invariant
            base == base_of(v@),
            base <= n <= from,
            from <= v.len(),
            component_end(v@, from as int) == component_end(v@, n as int),
        decreases n,
    {
        let at = find_name(v, base, n);
        proof {
            name_start_bounds(v@, n as int);
            reveal_strlit(".");
            if n == at + 1 && v@[at as int] == '.' {
                assert(v@.subrange(at as int, n as int) =~= "."@);
            } else if at < n {
                assert(v@.subrange(at as int, n as int) != "."@) by {
                    if v@.subrange(at as int, n as int) == "."@ {
                        assert(v@.subrange(at as int, n as int).len() == 1);
                        assert(v@.subrange(at as int, n as int)[0] == '.');
                    }
                }
            }
        }
        if at == n || (n == at + 1 && v[at] == '.') {
            n = if at > base {
                at - 1
            } else {
                base
            };
        } else {
            return n;
        }
    }
    n
}

/// The last component's name, as `std::path::Path::file_name` has it.
pub fn file_name(p: &str) -> (r: Option<String>)
    ensures
        r.deep_view() == name_of(p@),
{
    let v = chars_of(p);
    let base = find_base(&v);
    let n = find_end(&v, base, v.len());
    if n == base {
        return None;
    }
    let at = find_name(&v, base, n);
    let ghost name = v@.subrange(at as int, n as int);
    proof {
        reveal_strlit("..");
    }
    if n - at == 2 && v[at] == '.' && v[at + 1] == '.' {
        assert(name =~= ".."@);
        return None;
    }
    assert(name != ".."@) by {
        if name == ".."@ {
            assert(name.len() == 2);
            assert(name[0] == '.' && name[1] == '.');
        }
    }
    Some(string_of(&v, at, n))
}

/// The path without its last component, as `std::path::Path::parent` has it.
pub fn parent(p: &str) -> (r: Option<String>)
    ensures
        r.deep_view() == parent_of(p@),
{
    let v = chars_of(p);
    let base = find_base(&v);
    let n = find_end(&v, base, v.len());
    if n > base {
        let at = find_name(&v, base, n);
        let end: usize = if at > base {
            at - 1
        } else {
            base
        };
        let k = find_end(&v, base, end);
        assert(v@.take(k as int) =~= v@.subrange(0, k as int));
        Some(string_of(&v, 0, k))
    } else if n == 1 && v[0] == '.' {
        let s = String::new();
        assert(s@ =~= Seq::empty());
        Some(s)
    } else {
        None
    }
}

} // verus!
