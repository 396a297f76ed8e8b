//! Entrypoint discovery from Java annotations.
//!
//! Dubbo and MQ entrypoints come from XML (see [`super::dubbo_xml`] and
//! [`super::spring`]); HTTP routes and job handlers are annotation-driven and
//! derived here from the symbol table a file produced.
use crate::lists::{sort_unique, sorted_of, take_all, take_next};
use crate::split::{after_last, before_first, head_of, tail_of};
use crate::store::model::{
    arg_of, Annotation, AnnotationView, JavaFile, RawSymbol, RawSymbolView, SymbolKind,
};
use crate::text::{
    contains_str, drop_while, first_at, only, owned, same, trim, trim_end_of, trim_of, trimmed,
    trimmed_of,
};
use vstd::prelude::*;

verus! {

#[derive(Debug)]
pub struct HttpRoute {
    /// `GET`, `POST`, … or `ANY` when the mapping does not constrain the method.
    pub method: String,
    /// Full path, class-level prefix included.
    pub path: String,
    /// Index of the handler method in the file's symbol vector.
    pub symbol: usize,
    /// Permission annotations guarding the route, e.g. `RequireListPermission`.
    pub guards: Vec<String>,
}

/// The content of a [`HttpRoute`].
#[verifier::ext_equal]
pub struct HttpRouteView {
    pub method: Seq<char>,
    pub path: Seq<char>,
    pub symbol: usize,
    pub guards: Seq<Seq<char>>,
}

impl DeepView for HttpRoute {
    type V = HttpRouteView;

    open spec fn deep_view(&self) -> HttpRouteView {
        HttpRouteView {
            method: self.method.deep_view(),
            path: self.path.deep_view(),
            symbol: self.symbol,
            guards: self.guards.deep_view(),
        }
    }
}

impl Clone for HttpRoute {
    fn clone(&self) -> (r: Self)
        ensures
            r.deep_view() == self.deep_view(),
    {
        HttpRoute {
            method: self.method.clone(),
            path: self.path.clone(),
            symbol: self.symbol,
            guards: self.guards.clone(),
        }
    }
}

/// The HTTP method that a mapping annotation stands for.
pub open spec fn verb_of(simple: Seq<char>) -> Option<Seq<char>> {
    if simple == "GetMapping"@ {
        Some("GET"@)
    } else if simple == "PostMapping"@ {
        Some("POST"@)
    } else if simple == "PutMapping"@ {
        Some("PUT"@)
    } else if simple == "DeleteMapping"@ {
        Some("DELETE"@)
    } else if simple == "PatchMapping"@ {
        Some("PATCH"@)
    } else if simple == "RequestMapping"@ {
        Some("ANY"@)
    } else {
        None
    }
}

fn verb(simple: &str) -> (r: Option<&'static str>)
    ensures
        r.deep_view() == verb_of(simple@),
{
    if same(simple, "GetMapping") {
        Some("GET")
    } else if same(simple, "PostMapping") {
        Some("POST")
    } else if same(simple, "PutMapping") {
        Some("PUT")
    } else if same(simple, "DeleteMapping") {
        Some("DELETE")
    } else if same(simple, "PatchMapping") {
        Some("PATCH")
    } else if same(simple, "RequestMapping") {
        Some("ANY")
    } else {
        None
    }
}

/// The paths that a mapping declares: `value` and `path` are interchangeable.
pub open spec fn mapped_paths(a: AnnotationView) -> Seq<char> {
    match arg_of(a, "value"@) {
        Some(v) => v,
        None => match arg_of(a, "path"@) {
            Some(p) => p,
            None => ""@,
        },
    }
}

/// The HTTP method and path fragment of a mapping annotation. `method` overrides a
/// bare mapping's verb; multi-path mappings take their first path, the rest being
/// aliases.
pub open spec fn mapping(a: AnnotationView) -> Option<(Seq<char>, Seq<char>)> {
    match verb_of(tail_of(a.name, '.')) {
        Some(v) => Some(
            (
                match arg_of(a, "method"@) {
                    Some(m) => drop_while(trimmed(tail_of(m, '.')), only('}')),
                    None => v,
                },
                trimmed_of(trimmed(head_of(mapped_paths(a), ',')), '"'),
            ),
        ),
        None => None,
    }
}

/// The HTTP method and path fragment a mapping annotation declares, if it is one.
pub fn mapping_of(a: &Annotation) -> (r: Option<(String, String)>)
    ensures
        r.deep_view() == mapping(a.deep_view()),
{
    let verb = match verb(after_last(a.name.as_str(), '.')) {
        Some(v) => v,
        None => {
            return None;
        },
    };
    let raw = match a.arg("value") {
        Some(v) => v,
        None => match a.arg("path") {
            Some(p) => p,
            None => "",
        },
    };
    let method = match a.arg("method") {
        Some(m) => trim_end_of(trim(after_last(m, '.')), '}'),
        None => verb,
    };
    let first = trim_of(trim(before_first(raw, ',')), '"');
    Some((owned(method), owned(first)))
}

/// A prefix and a suffix as one path, with one slash before each part.
pub open spec fn joined_path(prefix: Seq<char>, suffix: Seq<char>) -> Seq<char> {
    let p = trimmed_of(trimmed(prefix), '/');
    let s = trimmed_of(trimmed(suffix), '/');
    if p.len() == 0 && s.len() == 0 {
        "/"@
    } else if p.len() == 0 {
        "/"@ + s
    } else if s.len() == 0 {
        "/"@ + p
    } else {
        "/"@ + p + "/"@ + s
    }
}

pub fn join_path(prefix: &str, suffix: &str) -> (r: String)
    ensures
        r@ == joined_path(prefix@, suffix@),
{
    let p = trim_of(trim(prefix), '/');
    let s = trim_of(trim(suffix), '/');
    let mut out = owned("/");
    if p.is_empty() && s.is_empty() {
        return out;
    }
    if p.is_empty() {
        out.append(s);
    } else {
        out.append(p);
        if !s.is_empty() {
            out.append("/");
            out.append(s);
        }
    }
    out
}

/// Whether an annotation's simple name tells of a permission.
pub open spec fn hints_guard(n: Seq<char>) -> bool {
    ||| first_at(n, "Permission"@) is Some
    ||| first_at(n, "RequiresRoles"@) is Some
    ||| first_at(n, "PreAuthorize"@) is Some
    ||| first_at(n, "Auth"@) is Some
}

/// The simple names of the annotations that guard a symbol.
pub open spec fn guard_names(annotations: Seq<AnnotationView>) -> Seq<Seq<char>>
    decreases annotations.len(),
{
    if annotations.len() == 0 {
        Seq::empty()
    } else {
        let before = guard_names(annotations.drop_last());
        let n = tail_of(annotations.last().name, '.');
        if hints_guard(n) {
            before.push(n)
        } else {
            before
        }
    }
}

pub fn guards_of(sym: &RawSymbol) -> (r: Vec<String>)
    ensures
        r.deep_view() == guard_names(sym.deep_view().annotations),
{
    let ghost d = sym.annotations.deep_view();
    let mut out: Vec<String> = Vec::new();
    let mut i: usize = 0;
    assert(out.deep_view() =~= guard_names(d.take(0)));
    while i < sym.annotations.len()
        invariant
            i <= sym.annotations.len(),
            d == sym.annotations.deep_view(),
            out.deep_view() == guard_names(d.take(i as int)),
        decreases sym.annotations.len() - i,
    {
        broadcast use take_next;

        let ghost before = out.deep_view();
        assert(d[i as int] == sym.annotations@[i as int].deep_view());
        assert(d.take(i + 1).last() == d[i as int]);
        let n = after_last(sym.annotations[i].name.as_str(), '.');
        if contains_str(n, "Permission") || contains_str(n, "RequiresRoles") || contains_str(
            n,
            "PreAuthorize",
        ) || contains_str(n, "Auth") {
            out.push(owned(n));
            assert(out.deep_view() =~= before.push(n@));
        }
        i += 1;
    }
    broadcast use take_all;

    assert(d.take(i as int) == d);
    out
}

/// Whether one of the annotations marks a Spring MVC controller.
pub open spec fn marks_controller(annotations: Seq<AnnotationView>) -> bool {
    exists|i: int|
        0 <= i < annotations.len() && {
            ||| tail_of((#[trigger] annotations[i]).name, '.') == "Controller"@
            ||| tail_of(annotations[i].name, '.') == "RestController"@
        }
}

/// True when a type is a Spring MVC controller.
pub fn is_controller(sym: &RawSymbol) -> (r: bool)
    ensures
        r == marks_controller(sym.deep_view().annotations),
{
    let ghost d = sym.annotations.deep_view();
    let mut i: usize = 0;
    while i < sym.annotations.len()
        invariant
            i <= sym.annotations.len(),
            d == sym.annotations.deep_view(),
            forall|j: int|
                0 <= j < i ==> tail_of((#[trigger] d[j]).name, '.') != "Controller"@ && tail_of(
                    d[j].name,
                    '.',
                ) != "RestController"@,
        decreases sym.annotations.len() - i,
    {
        assert(d[i as int] == sym.annotations@[i as int].deep_view());
        let n = after_last(sym.annotations[i].name.as_str(), '.');
        if same(n, "Controller") || same(n, "RestController") {
            return true;
        }
        i += 1;
    }
    false
}

/// The first mapping among the annotations from `i` on.
pub open spec fn mapping_from(annotations: Seq<AnnotationView>, i: int) -> Option<
    (Seq<char>, Seq<char>),
>
    decreases annotations.len() - i,
{
    if i < 0 || i >= annotations.len() {
        None
    } else if mapping(annotations[i]) is Some {
        mapping(annotations[i])
    } else {
        mapping_from(annotations, i + 1)
    }
}

/// The mapping that a symbol's annotations declare.
pub open spec fn declared_mapping(s: RawSymbolView) -> Option<(Seq<char>, Seq<char>)> {
    mapping_from(s.annotations, 0)
}

fn find_mapping(sym: &RawSymbol) -> (r: Option<(String, String)>)
    ensures
        r.deep_view() == declared_mapping(sym.deep_view()),
{
    let ghost d = sym.annotations.deep_view();
    let mut i: usize = 0;
    while i < sym.annotations.len()
        invariant
            i <= sym.annotations.len(),
            d == sym.annotations.deep_view(),
            mapping_from(d, 0) == mapping_from(d, i as int),
        decreases sym.annotations.len() - i,
    {
        assert(d[i as int] == sym.annotations@[i as int].deep_view());
        match mapping_of(&sym.annotations[i]) {
            Some(m) => {
                return Some(m);
            },
            None => {},
        }
        i += 1;
    }
    None
}

pub open spec fn is_controller_class(s: RawSymbolView) -> bool {
    s.kind == SymbolKind::Class && marks_controller(s.annotations)
}

/// The path that a controller puts before those of its methods.
pub open spec fn class_prefix(s: RawSymbolView) -> Seq<char> {
    match declared_mapping(s) {
        Some(m) => m.1,
        None => Seq::empty(),
    }
}

/// The route that the method at `m` declares in the controller at `c`. The
/// controller's guards hold for every route inside it.
pub open spec fn route_of(syms: Seq<RawSymbolView>, c: int, m: int) -> Option<HttpRouteView> {
    if syms[m].kind == SymbolKind::Method && syms[m].parent == Some(c as usize) {
        match declared_mapping(syms[m]) {
            Some(x) => Some(
                HttpRouteView {
                    method: x.0,
                    path: joined_path(class_prefix(syms[c]), x.1),
                    symbol: m as usize,
                    guards: sorted_of(
                        guard_names(syms[c].annotations) + guard_names(syms[m].annotations),
                    ),
                },
            ),
            None => None,
        }
    } else {
        None
    }
}

/// The routes that the first `n` symbols declare in the controller at `c`.
pub open spec fn routes_in(syms: Seq<RawSymbolView>, c: int, n: nat) -> Seq<HttpRouteView>
    decreases n,
{
    if n == 0 || n > syms.len() {
        Seq::empty()
    } else {
        match route_of(syms, c, n - 1) {
            Some(r) => routes_in(syms, c, (n - 1) as nat).push(r),
            None => routes_in(syms, c, (n - 1) as nat),
        }
    }
}

/// The routes of the controllers among the first `n` symbols.
pub open spec fn routes_of(syms: Seq<RawSymbolView>, n: nat) -> Seq<HttpRouteView>
    decreases n,
{
    if n == 0 || n > syms.len() {
        Seq::empty()
    } else if is_controller_class(syms[n - 1]) {
        routes_of(syms, (n - 1) as nat) + routes_in(syms, n - 1, syms.len())
    } else {
        routes_of(syms, (n - 1) as nat)
    }
}

/// The routes of the controller at `c`, added to `out`.
fn add_routes(file: &JavaFile, c: usize, out: &mut Vec<HttpRoute>)
    requires
        c < file.symbols.len(),
    ensures
        final(out).deep_view() == old(out).deep_view() + routes_in(
            file.deep_view().symbols,
            c as int,
            file.deep_view().symbols.len(),
        ),
{
    let ghost d = file.symbols.deep_view();
    let ghost start = out.deep_view();
    let class = &file.symbols[c];
    assert(d[c as int] == class.deep_view());
    let prefix = match find_mapping(class) {
        Some(m) => m.1,
        None => String::new(),
    };
    let class_guards = guards_of(class);
    let mut m: usize = 0;
    assert(start + routes_in(d, c as int, 0) =~= start);
    while m < file.symbols.len()
        invariant
            m <= file.symbols.len(),
            c < file.symbols.len(),
            d == file.symbols.deep_view(),
            prefix@ == class_prefix(d[c as int]),
            class_guards.deep_view() == guard_names(d[c as int].annotations),
            out.deep_view() == start + routes_in(d, c as int, m as nat),
        decreases file.symbols.len() - m,
    {
        let ghost before = out.deep_view();
        let sym = &file.symbols[m];
        assert(d[m as int] == sym.deep_view());
        let inside = match sym.parent {
            Some(p) => p == c,
            None => false,
        };
        if sym.kind == SymbolKind::Method && inside {
            match find_mapping(sym) {
                Some(x) => {
                    let mut guards = class_guards.clone();
                    let mut own = guards_of(sym);
                    let ghost g0 = guards.deep_view();
                    let ghost g1 = own.deep_view();
                    guards.append(&mut own);
                    assert(guards.deep_view() =~= g0 + g1);
                    let route = HttpRoute {
                        method: x.0,
                        path: join_path(prefix.as_str(), x.1.as_str()),
                        symbol: m,
                        guards: sort_unique(&guards),
                    };
                    let ghost v = route.deep_view();
                    assert(Some(v) == route_of(d, c as int, m as int));
                    out.push(route);
                    assert(out.deep_view() =~= before.push(v));
                    assert(start + routes_in(d, c as int, m as nat).push(v) =~= before.push(v));
                },
                None => {},
            }
        }
        m += 1;
    }
}

/// Every HTTP route declared in a parsed file.
pub fn http_routes(file: &JavaFile) -> (r: Vec<HttpRoute>)
    ensures
        r.deep_view() == routes_of(file.deep_view().symbols, file.deep_view().symbols.len()),
{
    let ghost d = file.symbols.deep_view();
    let mut out: Vec<HttpRoute> = Vec::new();
    let mut c: usize = 0;
    assert(out.deep_view() =~= routes_of(d, 0));
    while c < file.symbols.len()
        invariant
            c <= file.symbols.len(),
            d == file.symbols.deep_view(),
            out.deep_view() == routes_of(d, c as nat),
        decreases file.symbols.len() - c,
    {
        assert(d[c as int] == file.symbols@[c as int].deep_view());
        if file.symbols[c].kind == SymbolKind::Class && is_controller(&file.symbols[c]) {
            add_routes(file, c, &mut out);
        }
        c += 1;
    }
    out
}

/// Every route points at a method of a controller that declares a mapping.
pub proof fn routes_point_at_handlers(syms: Seq<RawSymbolView>, n: nat, r: HttpRouteView)
    requires
        syms.len() <= usize::MAX,
        n <= syms.len(),
        routes_of(syms, n).contains(r),
    ensures
        r.symbol < syms.len(),
        syms[r.symbol as int].kind == SymbolKind::Method,
        declared_mapping(syms[r.symbol as int]) is Some,
        syms[r.symbol as int].parent matches Some(c) && c < syms.len() && is_controller_class(
            syms[c as int],
        ),
    decreases n,
{
    let prev = routes_of(syms, (n - 1) as nat);
    if prev.contains(r) {
        routes_point_at_handlers(syms, (n - 1) as nat, r);
    } else {
        let own = routes_in(syms, n - 1, syms.len());
        let k = choose|k: int| 0 <= k < routes_of(syms, n).len() && routes_of(syms, n)[k] == r;
        if k < prev.len() {
            assert(prev[k] == r);
        }
        assert(own[k - prev.len()] == r);
        routes_in_point(syms, n - 1, syms.len(), r);
    }
}

proof fn routes_in_point(syms: Seq<RawSymbolView>, c: int, n: nat, r: HttpRouteView)
    requires
        0 <= c < syms.len() <= usize::MAX,
        n <= syms.len(),
        routes_in(syms, c, n).contains(r),
    ensures
        r.symbol < syms.len(),
        route_of(syms, c, r.symbol as int) == Some(r),
    decreases n,
{
    let prev = routes_in(syms, c, (n - 1) as nat);
    if prev.contains(r) {
        routes_in_point(syms, c, (n - 1) as nat, r);
    } else {
        let k = choose|k: int| 0 <= k < routes_in(syms, c, n).len() && routes_in(syms, c, n)[k] == r;
        if k < prev.len() {
            assert(prev[k] == r);
        }
    }
}

pub open spec fn is_job_annotation(a: AnnotationView) -> bool {
    tail_of(a.name, '.') == "XxlJob"@ || tail_of(a.name, '.') == "JobHandler"@
}

/// The jobs that the annotations of the symbol at `idx` declare: under the name in
/// the annotation, else under the symbol's.
pub open spec fn jobs_at(
    idx: usize,
    name: Seq<char>,
    annotations: Seq<AnnotationView>,
) -> Seq<(usize, Seq<char>)>
    decreases annotations.len(),
{
    if annotations.len() == 0 {
        Seq::empty()
    } else {
        let before = jobs_at(idx, name, annotations.drop_last());
        let a = annotations.last();
        if is_job_annotation(a) {
            before.push(
                (
                    idx,
                    match arg_of(a, "value"@) {
                        Some(v) => v,
                        None => name,
                    },
                ),
            )
        } else {
            before
        }
    }
}

/// The jobs that the first `n` symbols declare.
pub open spec fn jobs_of(syms: Seq<RawSymbolView>, n: nat) -> Seq<(usize, Seq<char>)>
    decreases n,
{
    if n == 0 || n > syms.len() {
        Seq::empty()
    } else {
        jobs_of(syms, (n - 1) as nat) + jobs_at(
            (n - 1) as usize,
            syms[n - 1].name,
            syms[n - 1].annotations,
        )
    }
}

/// Job handler declared by an XXL-Job annotation, if this file has one.
///
/// Older handlers in these projects carry no annotation at all: they are plain
/// classes in a job package, exported over Dubbo and triggered by the scheduler.
/// Those are recognised by package placement at build time, not here.
pub fn xxl_job_handlers(file: &JavaFile) -> (r: Vec<(usize, String)>)
    ensures
        r.deep_view() == jobs_of(file.deep_view().symbols, file.deep_view().symbols.len()),
{
    let ghost d = file.symbols.deep_view();
    let mut out: Vec<(usize, String)> = Vec::new();
    let mut i: usize = 0;
    assert(out.deep_view() =~= jobs_of(d, 0));
    while i < file.symbols.len()
        invariant
            i <= file.symbols.len(),
            d == file.symbols.deep_view(),
            out.deep_view() == jobs_of(d, i as nat),
        decreases file.symbols.len() - i,
    {
        let sym = &file.symbols[i];
        let ghost v = sym.deep_view();
        assert(d[i as int] == v);
        let ghost start = out.deep_view();
        let ghost an = sym.annotations.deep_view();
        let mut k: usize = 0;
        assert(start + jobs_at(i, v.name, an.take(0)) =~= start);
        while k < sym.annotations.len()
            invariant
                k <= sym.annotations.len(),
                v == sym.deep_view(),
                an == sym.annotations.deep_view(),
                out.deep_view() == start + jobs_at(i, v.name, an.take(k as int)),
            decreases sym.annotations.len() - k,
        {
            broadcast use take_next;

            let ghost before = out.deep_view();
            let a = &sym.annotations[k];
            assert(an[k as int] == a.deep_view());
            assert(an.take(k + 1).last() == a.deep_view());
            let n = after_last(a.name.as_str(), '.');
            if same(n, "XxlJob") || same(n, "JobHandler") {
                let name = match a.value() {
                    Some(x) => owned(x),
                    None => sym.name.clone(),
                };
                let ghost x = (i, name@);
                out.push((i, name));
                assert(out.deep_view() =~= before.push(x));
                assert(start + jobs_at(i, v.name, an.take(k as int)).push(x) =~= before.push(x));
            }
            k += 1;
        }
        broadcast use take_all;

        assert(an.take(k as int) == an);
        i += 1;
    }
    out
}

} // verus!

