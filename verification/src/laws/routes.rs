//! What annotations tell: routes, their guards, and scheduled jobs.
use crate::extract::entrypoint::{
    class_prefix, declared_mapping, guard_names, is_controller_class, is_job_annotation, jobs_at,
    jobs_of, joined_path, mapping, mapping_from, marks_controller, route_of, routes_in, routes_of,
    HttpRouteView,
};
use crate::laws::basics::{
    appears, concat_members, cuts_are_at_the_ends, drop_all, push_members,
    searches_find_what_appears, sorting_keeps_members, trimmed_is_core, trimmed_of_is_core,
};
use crate::lists::first_where;
use crate::split::{rcut_once, tail_of};
use crate::store::model::{arg_named, arg_of, AnnotationView, RawSymbolView};
use crate::text::{drop_while, is_white, only, trimmed};
use vstd::prelude::*;

verus! {

/// Whether a name is the simple name, bare or behind a package.
pub open spec fn named(name: Seq<char>, simple: Seq<char>) -> bool {
    name == simple || exists|pkg: Seq<char>| name == #[trigger] (pkg + "."@ + simple)
}

proof fn named_is_tail(name: Seq<char>, simple: Seq<char>)
    requires
        !simple.contains('.'),
    ensures
        named(name, simple) <==> tail_of(name, '.') == simple,
{
    reveal_strlit(".");
    cuts_are_at_the_ends(simple, simple, '.');
    if name != simple && named(name, simple) {
        let pkg = choose|pkg: Seq<char>| name == #[trigger] (pkg + "."@ + simple);
        assert(name =~= pkg.push('.') + simple);
        cuts_are_at_the_ends(pkg, simple, '.');
    }
    if tail_of(name, '.') == simple && rcut_once(name, '.') is Some {
        let p = rcut_once(name, '.')->0;
        crate::text::rfind_to_is_last(name, '.', name.len() as int);
        assert(name =~= p.0 + "."@ + simple);
    }
}

/// Whether an argument has the name.
pub open spec fn has_arg(a: AnnotationView, key: Seq<char>) -> bool {
    exists|i: int| 0 <= i < a.args.len() && (#[trigger] a.args[i]).0 == key
}

/// Whether the first argument with the name has the value.
pub open spec fn is_arg(a: AnnotationView, key: Seq<char>, v: Seq<char>) -> bool {
    exists|i: int|
        0 <= i < a.args.len() && #[trigger] a.args[i] == (key, v) && forall|j: int|
            0 <= j < i ==> (#[trigger] a.args[j]).0 != key
}

/// An argument is found by its name; of several the first counts.
pub proof fn arguments_are_found_by_name(a: AnnotationView, key: Seq<char>, v: Seq<char>)
    ensures
        arg_of(a, key) is Some <==> has_arg(a, key),
        is_arg(a, key, v) ==> arg_of(a, key) == Some(v),
{
    arg_is_first(a.args, key);
    let found = first_where(a.args, arg_named(key));
    if has_arg(a, key) {
        let i = choose|i: int| 0 <= i < a.args.len() && (#[trigger] a.args[i]).0 == key;
        assert(found is Some);
    }
    if is_arg(a, key, v) {
        let i = choose|i: int|
            0 <= i < a.args.len() && #[trigger] a.args[i] == (key, v) && forall|j: int|
                0 <= j < i ==> (#[trigger] a.args[j]).0 != key;
        assert(a.args[i].0 == key);
        let k = choose|k: int|
            0 <= k < a.args.len() && #[trigger] a.args[k] == (key, (found->0).1) && forall|j: int|
                0 <= j < k ==> (#[trigger] a.args[j]).0 != key;
        assert(k == i) by {
            if k < i {
                assert(a.args[k].0 != key);
            } else if i < k {
                assert(a.args[i].0 != key);
            }
        }
    }
}

/// Whether the annotation maps requests.
pub open spec fn maps_requests(a: AnnotationView) -> bool {
    ||| named(a.name, "GetMapping"@)
    ||| named(a.name, "PostMapping"@)
    ||| named(a.name, "PutMapping"@)
    ||| named(a.name, "DeleteMapping"@)
    ||| named(a.name, "PatchMapping"@)
    ||| named(a.name, "RequestMapping"@)
}

proof fn mapping_names(name: Seq<char>)
    ensures
        named(name, "GetMapping"@) <==> tail_of(name, '.') == "GetMapping"@,
        named(name, "PostMapping"@) <==> tail_of(name, '.') == "PostMapping"@,
        named(name, "PutMapping"@) <==> tail_of(name, '.') == "PutMapping"@,
        named(name, "DeleteMapping"@) <==> tail_of(name, '.') == "DeleteMapping"@,
        named(name, "PatchMapping"@) <==> tail_of(name, '.') == "PatchMapping"@,
        named(name, "RequestMapping"@) <==> tail_of(name, '.') == "RequestMapping"@,
        "GetMapping"@ != "PostMapping"@,
        "GetMapping"@ != "PutMapping"@,
        "GetMapping"@ != "DeleteMapping"@,
        "GetMapping"@ != "PatchMapping"@,
        "GetMapping"@ != "RequestMapping"@,
        "PostMapping"@ != "PutMapping"@,
        "PostMapping"@ != "DeleteMapping"@,
        "PostMapping"@ != "PatchMapping"@,
        "PostMapping"@ != "RequestMapping"@,
        "PutMapping"@ != "DeleteMapping"@,
        "PutMapping"@ != "PatchMapping"@,
        "PutMapping"@ != "RequestMapping"@,
        "DeleteMapping"@ != "PatchMapping"@,
        "DeleteMapping"@ != "RequestMapping"@,
        "PatchMapping"@ != "RequestMapping"@,
{
    reveal_strlit("GetMapping");
    reveal_strlit("PostMapping");
    reveal_strlit("PutMapping");
    reveal_strlit("DeleteMapping");
    reveal_strlit("PatchMapping");
    reveal_strlit("RequestMapping");
    assert("GetMapping"@[0] == 'G' && "PutMapping"@[0] == 'P');
    named_is_tail(name, "GetMapping"@);
    named_is_tail(name, "PostMapping"@);
    named_is_tail(name, "PutMapping"@);
    named_is_tail(name, "DeleteMapping"@);
    named_is_tail(name, "PatchMapping"@);
    named_is_tail(name, "RequestMapping"@);
}

/// A shorthand mapping without a `method` argument takes the method in its name, a plain
/// one any method; nothing else maps requests.
pub proof fn shorthands_tell_their_method(a: AnnotationView)
    ensures
        mapping(a) is Some <==> maps_requests(a),
        !has_arg(a, "method"@) && named(a.name, "GetMapping"@) ==> (mapping(a)->0).0 == "GET"@,
        !has_arg(a, "method"@) && named(a.name, "PostMapping"@) ==> (mapping(a)->0).0 == "POST"@,
        !has_arg(a, "method"@) && named(a.name, "PutMapping"@) ==> (mapping(a)->0).0 == "PUT"@,
        !has_arg(a, "method"@) && named(a.name, "DeleteMapping"@) ==> (mapping(a)->0).0
            == "DELETE"@,
        !has_arg(a, "method"@) && named(a.name, "PatchMapping"@) ==> (mapping(a)->0).0
            == "PATCH"@,
        !has_arg(a, "method"@) && named(a.name, "RequestMapping"@) ==> (mapping(a)->0).0 == "ANY"@,
{
    mapping_names(a.name);
    arguments_are_found_by_name(a, "method"@, Seq::empty());
}

/// Two shorthands have one method only where they have one name.
pub proof fn different_shorthands_have_different_methods(a: AnnotationView, b: AnnotationView)
    requires
        maps_requests(a),
        maps_requests(b),
        !has_arg(a, "method"@),
        !has_arg(b, "method"@),
    ensures
        (mapping(a)->0).0 == (mapping(b)->0).0 <==> tail_of(a.name, '.') == tail_of(b.name, '.'),
{
    mapping_names(a.name);
    mapping_names(b.name);
    shorthands_tell_their_method(a);
    shorthands_tell_their_method(b);
    reveal_strlit("GET");
    reveal_strlit("POST");
    reveal_strlit("PUT");
    reveal_strlit("DELETE");
    reveal_strlit("PATCH");
    reveal_strlit("ANY");
    assert("GET"@[0] == 'G' && "PUT"@[0] == 'P' && "ANY"@[0] == 'A');
    assert("GET"@.len() == 3 && "POST"@.len() == 4 && "PUT"@.len() == 3);
    assert("DELETE"@.len() == 6 && "PATCH"@.len() == 5 && "ANY"@.len() == 3);
    assert("GET"@ != "POST"@ && "GET"@ != "PUT"@ && "GET"@ != "DELETE"@ && "GET"@ != "PATCH"@
        && "GET"@ != "ANY"@);
    assert("POST"@ != "PUT"@ && "POST"@ != "DELETE"@ && "POST"@ != "PATCH"@ && "POST"@ != "ANY"@);
    assert("PUT"@ != "DELETE"@ && "PUT"@ != "PATCH"@ && "PUT"@ != "ANY"@);
    assert("DELETE"@ != "PATCH"@ && "DELETE"@ != "ANY"@ && "PATCH"@ != "ANY"@);
}

/// A `method` argument such as `RequestMethod.POST`, in braces or not, gives the method,
/// whatever the annotation.
pub proof fn method_arguments_override(
    a: AnnotationView,
    qualifier: Seq<char>,
    verb: Seq<char>,
    braces: Seq<char>,
)
    requires
        maps_requests(a),
        verb.len() > 0,
        !verb.contains('.') && !is_white(verb[0]) && !is_white(verb.last()) && verb.last() != '}',
        forall|i: int| 0 <= i < braces.len() ==> #[trigger] braces[i] == '}',
    ensures
        is_arg(a, "method"@, qualifier + "."@ + verb + braces) ==> (mapping(a)->0).0 == verb,
        is_arg(a, "method"@, verb + braces) ==> (mapping(a)->0).0 == verb,
{
    mapping_names(a.name);
    reveal_strlit(".");
    let core = verb + braces;
    assert(!core.contains('.')) by {
        if core.contains('.') {
            let k = choose|k: int| 0 <= k < core.len() && core[k] == '.';
            if k < verb.len() {
                assert(verb[k] == '.');
            } else {
                assert(braces[k - verb.len()] == '}');
            }
        }
    }
    assert(core.last() == (if braces.len() == 0 {
        verb.last()
    } else {
        braces.last()
    }));
    assert(braces.len() > 0 ==> braces.last() == braces[braces.len() - 1]);
    assert(!is_white('}'));
    trimmed_is_core(Seq::empty(), core, Seq::empty());
    assert(Seq::<char>::empty() + core + Seq::<char>::empty() =~= core);
    drop_all(verb, braces, only('}'));
    assert(drop_while(verb, only('}')) == verb);
    let v1 = qualifier + "."@ + verb + braces;
    assert(v1 =~= qualifier.push('.') + core);
    cuts_are_at_the_ends(qualifier, core, '.');
    cuts_are_at_the_ends(core, core, '.');
    if is_arg(a, "method"@, v1) {
        arguments_are_found_by_name(a, "method"@, v1);
    }
    if is_arg(a, "method"@, core) {
        arguments_are_found_by_name(a, "method"@, core);
    }
}

/// The path of a mapping is the first of its `value`, else of its `path`, without the
/// quotes; without either it is empty.
pub proof fn paths_are_taken_from_the_arguments(
    a: AnnotationView,
    core: Seq<char>,
    rest: Seq<char>,
)
    requires
        maps_requests(a),
        !core.contains(','),
        !core.contains('"'),
    ensures
        is_arg(a, "value"@, "\""@ + core + "\""@) ==> (mapping(a)->0).1 == core,
        is_arg(a, "value"@, "\""@ + core + "\""@ + ","@ + rest) ==> (mapping(a)->0).1 == core,
        !has_arg(a, "value"@) && is_arg(a, "path"@, "\""@ + core + "\""@) ==> (mapping(a)->0).1
            == core,
        !has_arg(a, "value"@) && is_arg(a, "path"@, "\""@ + core + "\""@ + ","@ + rest) ==> (
        mapping(a)->0).1 == core,
        !has_arg(a, "value"@) && !has_arg(a, "path"@) ==> (mapping(a)->0).1.len() == 0,
{
    mapping_names(a.name);
    reveal_strlit("\"");
    reveal_strlit(",");
    reveal_strlit("");
    let q = "\""@;
    let v1 = q + core + q;
    let v2 = v1 + ","@ + rest;
    assert(!v1.contains(',')) by {
        if v1.contains(',') {
            let k = choose|k: int| 0 <= k < v1.len() && v1[k] == ',';
            if 1 <= k < 1 + core.len() {
                assert(core[k - 1] == ',');
            }
        }
    }
    assert(v2 =~= v1.push(',') + rest);
    cuts_are_at_the_ends(v1, rest, ',');
    assert(!is_white('"'));
    assert(v1.last() == '"');
    trimmed_is_core(Seq::empty(), v1, Seq::empty());
    assert(Seq::<char>::empty() + v1 + Seq::<char>::empty() =~= v1);
    if core.len() > 0 {
        assert(core[0] != '"') by {
            assert(core.contains(core[0]));
        }
        assert(core.last() != '"') by {
            assert(core.contains(core[core.len() - 1]));
        }
    }
    trimmed_of_is_core(q, core, q, '"');
    arguments_are_found_by_name(a, "value"@, v1);
    arguments_are_found_by_name(a, "value"@, v2);
    arguments_are_found_by_name(a, "path"@, v1);
    arguments_are_found_by_name(a, "path"@, v2);
    let e = Seq::<char>::empty();
    cuts_are_at_the_ends(e, e, ',');
    trimmed_is_core(e, e, e);
    trimmed_of_is_core(e, e, e, '"');
    assert(e + e + e =~= e);
    assert(""@ =~= e);
}

/// Whether a path part has neither white space nor slashes at its ends.
pub open spec fn is_bare(s: Seq<char>) -> bool {
    s.len() > 0 ==> !is_white(s[0]) && !is_white(s.last()) && s[0] != '/' && s.last() != '/'
}

pub open spec fn slashes(s: Seq<char>) -> bool {
    forall|i: int| 0 <= i < s.len() ==> #[trigger] s[i] == '/'
}

proof fn stripped_is_core(a: Seq<char>, core: Seq<char>, b: Seq<char>)
    requires
        slashes(a),
        slashes(b),
        is_bare(core),
    ensures
        crate::text::trimmed_of(trimmed(a + core + b), '/') == core,
{
    let s = a + core + b;
    let e = Seq::<char>::empty();
    assert(!is_white('/'));
    if s.len() > 0 {
        assert(!is_white(s[0])) by {
            if a.len() > 0 {
                assert(a[0] == '/');
            } else if core.len() == 0 {
                assert(b[0] == '/');
            }
        }
        assert(!is_white(s.last())) by {
            if b.len() > 0 {
                assert(b[b.len() - 1] == '/');
            } else if core.len() == 0 {
                assert(a[a.len() - 1] == '/');
            }
        }
    }
    trimmed_is_core(e, s, e);
    assert(e + s + e =~= s);
    trimmed_of_is_core(a, core, b, '/');
}

/// A prefix and a suffix make one path with single slashes between and before them, however
/// many stood around them; an empty part takes none.
pub proof fn paths_join_with_one_slash(
    a: Seq<char>,
    p: Seq<char>,
    b: Seq<char>,
    c: Seq<char>,
    s: Seq<char>,
    d: Seq<char>,
)
    requires
        slashes(a) && slashes(b) && slashes(c) && slashes(d),
        is_bare(p) && is_bare(s),
    ensures
        p.len() > 0 && s.len() > 0 ==> joined_path(a + p + b, c + s + d) == "/"@ + p + "/"@ + s,
        p.len() > 0 && s.len() == 0 ==> joined_path(a + p + b, c + s + d) == "/"@ + p,
        p.len() == 0 && s.len() > 0 ==> joined_path(a + p + b, c + s + d) == "/"@ + s,
        p.len() == 0 && s.len() == 0 ==> joined_path(a + p + b, c + s + d) == "/"@,
{
    stripped_is_core(a, p, b);
    stripped_is_core(c, s, d);
}

// ---------------------------------------------------------------------------
// Routes

/// Whether the annotations mark a controller.
pub open spec fn marked(annotations: Seq<AnnotationView>) -> bool {
    exists|i: int|
        0 <= i < annotations.len() && (named((#[trigger] annotations[i]).name, "Controller"@)
            || named(annotations[i].name, "RestController"@))
}

proof fn marked_is_marks(annotations: Seq<AnnotationView>)
    ensures
        marked(annotations) <==> marks_controller(annotations),
{
    reveal_strlit("Controller");
    reveal_strlit("RestController");
    assert forall|i: int| 0 <= i < annotations.len() implies (named(
        (#[trigger] annotations[i]).name,
        "Controller"@,
    ) <==> tail_of(annotations[i].name, '.') == "Controller"@) && (named(
        annotations[i].name,
        "RestController"@,
    ) <==> tail_of(annotations[i].name, '.') == "RestController"@) by {
        named_is_tail(annotations[i].name, "Controller"@);
        named_is_tail(annotations[i].name, "RestController"@);
    }
}

/// Whether the annotation at `i` is the first that maps requests.
pub open spec fn is_first_mapping(annotations: Seq<AnnotationView>, i: int) -> bool {
    &&& 0 <= i < annotations.len()
    &&& maps_requests(annotations[i])
    &&& forall|j: int| 0 <= j < i ==> !maps_requests(#[trigger] annotations[j])
}

proof fn mapping_is_first(annotations: Seq<AnnotationView>, from: int)
    requires
        0 <= from <= annotations.len(),
        forall|j: int| 0 <= j < from ==> !maps_requests(#[trigger] annotations[j]),
    ensures
        forall|i: int| #[trigger]
            is_first_mapping(annotations, i) ==> mapping_from(annotations, from) == mapping(
                annotations[i],
            ),
        mapping_from(annotations, from) is Some ==> exists|i: int| #[trigger]
            is_first_mapping(annotations, i),
    decreases annotations.len() - from,
{
    if from < annotations.len() {
        shorthands_tell_their_method(annotations[from]);
        if mapping(annotations[from]) is Some {
            assert(is_first_mapping(annotations, from));
            assert forall|i: int| #[trigger] is_first_mapping(annotations, i) implies i == from by {
                if i > from {
                    assert(!maps_requests(annotations[from]));
                } else if i < from {
                    assert(!maps_requests(annotations[i]));
                }
            }
        } else {
            mapping_is_first(annotations, from + 1);
        }
    } else {
        assert forall|i: int| !#[trigger] is_first_mapping(annotations, i) by {
            if is_first_mapping(annotations, i) {
                assert(!maps_requests(annotations[i]));
            }
        }
    }
}

/// Whether an annotation's simple name tells of a permission.
pub open spec fn guards(a: AnnotationView) -> bool {
    let n = tail_of(a.name, '.');
    ||| appears(n, "Permission"@)
    ||| appears(n, "RequiresRoles"@)
    ||| appears(n, "PreAuthorize"@)
    ||| appears(n, "Auth"@)
}

/// Whether one of the annotations is a guard with the simple name.
pub open spec fn guarded_by(annotations: Seq<AnnotationView>, g: Seq<char>) -> bool {
    exists|i: int|
        0 <= i < annotations.len() && guards(#[trigger] annotations[i]) && tail_of(
            annotations[i].name,
            '.',
        ) == g
}

proof fn guards_are_named(annotations: Seq<AnnotationView>, g: Seq<char>)
    ensures
        guard_names(annotations).contains(g) <==> guarded_by(annotations, g),
    decreases annotations.len(),
{
    if annotations.len() > 0 {
        let rest = annotations.drop_last();
        let last = annotations.last();
        let n = tail_of(last.name, '.');
        guards_are_named(rest, g);
        searches_find_what_appears(n, "Permission"@);
        searches_find_what_appears(n, "RequiresRoles"@);
        searches_find_what_appears(n, "PreAuthorize"@);
        searches_find_what_appears(n, "Auth"@);
        push_members(guard_names(rest), n, g);
        assert(annotations[annotations.len() - 1] == last);
        if guarded_by(rest, g) {
            let i = choose|i: int|
                0 <= i < rest.len() && guards(#[trigger] rest[i]) && tail_of(rest[i].name, '.')
                    == g;
            assert(annotations[i] == rest[i]);
        }
        if guarded_by(annotations, g) {
            let i = choose|i: int|
                0 <= i < annotations.len() && guards(#[trigger] annotations[i]) && tail_of(
                    annotations[i].name,
                    '.',
                ) == g;
            if i < rest.len() {
                assert(rest[i] == annotations[i]);
            }
        }
    }
}

/// Whether the method at `m` of the controller class at `c` declares the route: by the first
/// of its mappings, under the path of the controller's, guarded by the annotations of both.
pub open spec fn declares_route(
    syms: Seq<RawSymbolView>,
    c: int,
    m: int,
    r: HttpRouteView,
) -> bool {
    &&& 0 <= c < syms.len() && 0 <= m < syms.len()
    &&& syms[c].kind is Class && marked(syms[c].annotations)
    &&& syms[m].kind is Method && syms[m].parent == Some(c as usize)
    &&& r.symbol == m
    &&& exists|i: int|
        #![trigger is_first_mapping(syms[m].annotations, i)]
        is_first_mapping(syms[m].annotations, i) && {
            let x = mapping(syms[m].annotations[i])->0;
            &&& r.method == x.0
            &&& forall|j: int| #[trigger]
                is_first_mapping(syms[c].annotations, j) ==> r.path == joined_path(
                    (mapping(syms[c].annotations[j])->0).1,
                    x.1,
                )
            &&& (forall|j: int| !#[trigger] is_first_mapping(syms[c].annotations, j)) ==> r.path
                == joined_path(Seq::empty(), x.1)
        }
    &&& forall|g: Seq<char>| #[trigger]
        r.guards.contains(g) <==> guarded_by(syms[c].annotations, g) || guarded_by(
            syms[m].annotations,
            g,
        )
}

proof fn route_is_declared(syms: Seq<RawSymbolView>, c: int, m: int)
    requires
        0 <= c < syms.len(),
        0 <= m < syms.len() <= usize::MAX,
        is_controller_class(syms[c]),
    ensures
        route_of(syms, c, m) matches Some(r) ==> declares_route(syms, c, m, r),
        route_of(syms, c, m) is Some <==> syms[m].kind is Method && syms[m].parent == Some(
            c as usize,
        ) && exists|i: int| #[trigger] is_first_mapping(syms[m].annotations, i),
{
    marked_is_marks(syms[c].annotations);
    mapping_is_first(syms[m].annotations, 0);
    mapping_is_first(syms[c].annotations, 0);
    let ca = syms[c].annotations;
    let ma = syms[m].annotations;
    if exists|i: int| #[trigger] is_first_mapping(ma, i) {
        let i = choose|i: int| #[trigger] is_first_mapping(ma, i);
        shorthands_tell_their_method(ma[i]);
    }
    match route_of(syms, c, m) {
        Some(r) => {
            let i = choose|i: int| #[trigger] is_first_mapping(ma, i);
            assert(is_first_mapping(ma, i));
            assert(declared_mapping(syms[m]) == mapping(ma[i]));
            assert forall|j: int| #[trigger] is_first_mapping(ca, j) implies class_prefix(syms[c])
                == (mapping(ca[j])->0).1 by {
                shorthands_tell_their_method(ca[j]);
            }
            assert forall|g: Seq<char>| #[trigger]
                r.guards.contains(g) <==> guarded_by(ca, g) || guarded_by(ma, g) by {
                guards_are_named(ca, g);
                guards_are_named(ma, g);
                concat_members(guard_names(ca), guard_names(ma), g);
                sorting_keeps_members(guard_names(ca) + guard_names(ma), g);
            }
        },
        None => {},
    }
}

/// The routes of a file: each comes from a method of a controller that declares it.
pub proof fn routes_are_declared(syms: Seq<RawSymbolView>, r: HttpRouteView)
    requires
        syms.len() <= usize::MAX,
        routes_of(syms, syms.len()).contains(r),
    ensures
        exists|c: int, m: int| #[trigger] declares_route(syms, c, m, r),
{
    routes_of_members(syms, syms.len(), r);
    let (c, m) = choose|c: int, m: int| #[trigger] made_by(syms, c, m, r) && 0 <= c < syms.len();
    route_is_declared(syms, c, m);
}

/// Every method of a controller that maps requests has a route, which is the one it
/// declares.
pub proof fn declared_routes_are_found(syms: Seq<RawSymbolView>, c: int, m: int, i: int)
    requires
        syms.len() <= usize::MAX,
        0 <= c < syms.len() && 0 <= m < syms.len(),
        syms[c].kind is Class && marked(syms[c].annotations),
        syms[m].kind is Method && syms[m].parent == Some(c as usize),
        0 <= i < syms[m].annotations.len() && maps_requests(syms[m].annotations[i]),
    ensures
        exists|r: HttpRouteView| #[trigger]
            routes_of(syms, syms.len()).contains(r) && declares_route(syms, c, m, r),
{
    marked_is_marks(syms[c].annotations);
    first_mapping_exists(syms[m].annotations, i);
    route_is_declared(syms, c, m);
    let r = route_of(syms, c, m)->0;
    assert(made_by(syms, c, m, r));
    routes_of_members(syms, syms.len(), r);
    assert(routes_of(syms, syms.len()).contains(r) && declares_route(syms, c, m, r));
}

proof fn first_mapping_exists(annotations: Seq<AnnotationView>, i: int)
    requires
        0 <= i < annotations.len(),
        maps_requests(annotations[i]),
    ensures
        exists|k: int| #[trigger] is_first_mapping(annotations, k),
    decreases i,
{
    if exists|j: int| 0 <= j < i && maps_requests(#[trigger] annotations[j]) {
        let j = choose|j: int| 0 <= j < i && maps_requests(#[trigger] annotations[j]);
        first_mapping_exists(annotations, j);
    } else {
        assert(is_first_mapping(annotations, i));
    }
}

spec fn made_by(syms: Seq<RawSymbolView>, c: int, m: int, r: HttpRouteView) -> bool {
    0 <= m < syms.len() && is_controller_class(syms[c]) && route_of(syms, c, m) == Some(r)
}

proof fn routes_of_members(syms: Seq<RawSymbolView>, n: nat, r: HttpRouteView)
    requires
        n <= syms.len(),
    ensures
        routes_of(syms, n).contains(r) <==> exists|c: int, m: int| #[trigger]
            made_by(syms, c, m, r) && 0 <= c < n,
    decreases n,
{
    if n > 0 {
        let k = (n - 1) as nat;
        routes_of_members(syms, k, r);
        routes_in_members(syms, n - 1, syms.len(), r);
        concat_members(routes_of(syms, k), routes_in(syms, n - 1, syms.len()), r);
        if routes_of(syms, k).contains(r) {
            let (c, m) = choose|c: int, m: int| #[trigger] made_by(syms, c, m, r) && 0 <= c < k;
            assert(made_by(syms, c, m, r) && 0 <= c < n);
        }
        if is_controller_class(syms[n - 1]) && routes_in(syms, n - 1, syms.len()).contains(r) {
            let m = choose|m: int|
                0 <= m < syms.len() && #[trigger] route_of(syms, n - 1, m) == Some(r);
            assert(made_by(syms, n - 1, m, r));
        }
        if exists|c: int, m: int| #[trigger] made_by(syms, c, m, r) && 0 <= c < n {
            let (c, m) = choose|c: int, m: int| #[trigger] made_by(syms, c, m, r) && 0 <= c < n;
            if c < k {
                assert(made_by(syms, c, m, r) && 0 <= c < k);
            } else {
                assert(route_of(syms, n - 1, m) == Some(r));
            }
        }
    }
}

proof fn routes_in_members(syms: Seq<RawSymbolView>, c: int, n: nat, r: HttpRouteView)
    requires
        n <= syms.len(),
    ensures
        routes_in(syms, c, n).contains(r) <==> exists|m: int|
            0 <= m < n && #[trigger] route_of(syms, c, m) == Some(r),
    decreases n,
{
    if n > 0 {
        let k = (n - 1) as nat;
        routes_in_members(syms, c, k, r);
        match route_of(syms, c, n - 1) {
            Some(x) => {
                push_members(routes_in(syms, c, k), x, r);
            },
            None => {},
        }
    }
}

// ---------------------------------------------------------------------------
// Jobs

/// Whether the annotation at `i` of the symbol at `k` schedules a job of the name: the one
/// in the annotation, else the symbol's.
pub open spec fn schedules(
    syms: Seq<RawSymbolView>,
    k: int,
    i: int,
    job: (usize, Seq<char>),
) -> bool {
    &&& 0 <= k < syms.len()
    &&& 0 <= i < syms[k].annotations.len()
    &&& named(syms[k].annotations[i].name, "XxlJob"@) || named(
        syms[k].annotations[i].name,
        "JobHandler"@,
    )
    &&& job.0 == k
    &&& is_arg(syms[k].annotations[i], "value"@, job.1) || (!has_arg(
        syms[k].annotations[i],
        "value"@,
    ) && job.1 == syms[k].name)
}

/// The jobs of a file are those that its annotations schedule.
pub proof fn jobs_are_scheduled(syms: Seq<RawSymbolView>, n: nat, job: (usize, Seq<char>))
    requires
        n <= syms.len() <= usize::MAX,
    ensures
        jobs_of(syms, n).contains(job) <==> exists|k: int, i: int|
            0 <= k < n && #[trigger] schedules(syms, k, i, job),
    decreases n,
{
    if n > 0 {
        let p = (n - 1) as nat;
        jobs_are_scheduled(syms, p, job);
        let own = jobs_at(p as usize, syms[n - 1].name, syms[n - 1].annotations);
        let all = syms[n - 1].annotations;
        assert(all.take(all.len() as int) =~= all);
        jobs_at_members(syms, n - 1, all.len(), job);
        concat_members(jobs_of(syms, p), own, job);
        if jobs_of(syms, p).contains(job) {
            let (k, i) = choose|k: int, i: int|
                0 <= k < p && #[trigger] schedules(syms, k, i, job);
            assert(0 <= k < n && schedules(syms, k, i, job));
        }
        if own.contains(job) {
            let i = choose|i: int| 0 <= i < all.len() && #[trigger] schedules(syms, n - 1, i, job);
            assert(schedules(syms, n - 1, i, job));
        }
        if exists|k: int, i: int| 0 <= k < n && #[trigger] schedules(syms, k, i, job) {
            let (k, i) = choose|k: int, i: int|
                0 <= k < n && #[trigger] schedules(syms, k, i, job);
            if k < p {
                assert(0 <= k < p && schedules(syms, k, i, job));
            } else {
                assert(schedules(syms, n - 1, i, job));
            }
        }
    }
}

proof fn jobs_at_members(syms: Seq<RawSymbolView>, k: int, n: nat, job: (usize, Seq<char>))
    requires
        0 <= k < syms.len() <= usize::MAX,
        n <= syms[k].annotations.len(),
    ensures
        jobs_at(k as usize, syms[k].name, syms[k].annotations.take(n as int)).contains(job)
            <==> exists|i: int| 0 <= i < n && #[trigger] schedules(syms, k, i, job),
    decreases n,
{
    let all = syms[k].annotations;
    if n > 0 {
        let p = (n - 1) as nat;
        jobs_at_members(syms, k, p, job);
        let t = all.take(n as int);
        assert(t.drop_last() =~= all.take(p as int));
        let a = all[n - 1];
        assert(t.last() == a);
        reveal_strlit("XxlJob");
        reveal_strlit("JobHandler");
        named_is_tail(a.name, "XxlJob"@);
        named_is_tail(a.name, "JobHandler"@);
        let v = match arg_of(a, "value"@) {
            Some(v) => v,
            None => syms[k].name,
        };
        arguments_are_found_by_name(a, "value"@, job.1);
        value_is_first(a, "value"@);
        let before = jobs_at(k as usize, syms[k].name, all.take(p as int));
        push_members(before, (k as usize, v), job);
        assert(schedules(syms, k, n - 1, job) <==> is_job_annotation(a) && job == (k as usize, v));
    }
}

proof fn value_is_first(a: AnnotationView, key: Seq<char>)
    ensures
        arg_of(a, key) matches Some(v) ==> is_arg(a, key, v),
{
    arg_is_first(a.args, key);
}

proof fn arg_is_first(args: Seq<(Seq<char>, Seq<char>)>, key: Seq<char>)
    ensures
        first_where(args, arg_named(key)) matches Some(x) ==> exists|i: int|
            0 <= i < args.len() && #[trigger] args[i] == (key, x.1) && forall|j: int|
                0 <= j < i ==> (#[trigger] args[j]).0 != key,
        first_where(args, arg_named(key)) is None ==> forall|i: int|
            0 <= i < args.len() ==> (#[trigger] args[i]).0 != key,
    decreases args.len(),
{
    let f = arg_named(key);
    if args.len() > 0 {
        if f(args[0]) {
            assert(args[0] == (key, args[0].1));
        } else {
            let r = args.skip(1);
            arg_is_first(r, key);
            assert(first_where(args, f) == first_where(r, f));
            if first_where(args, f) is Some {
                let x = first_where(r, f)->0;
                let i = choose|i: int|
                    0 <= i < r.len() && #[trigger] r[i] == (key, x.1) && forall|j: int|
                        0 <= j < i ==> (#[trigger] r[j]).0 != key;
                assert(args[i + 1] == (key, x.1));
                assert forall|j: int| 0 <= j < i + 1 implies (#[trigger] args[j]).0 != key by {
                    if j > 0 {
                        assert(r[j - 1] == args[j]);
                    }
                }
            } else {
                assert forall|j: int| 0 <= j < args.len() implies (#[trigger] args[j]).0 != key by {
                    if j > 0 {
                        assert(r[j - 1] == args[j]);
                    }
                }
            }
        }
    }
}

} // verus!
