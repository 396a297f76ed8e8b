//! Calls are resolved across files to the methods they reach.
use crate::build::java_pass::{
    all_call_rows, call_rows, declarations, declares, field_type, field_types, file_rows,
    first_declared, impl_rows, implementors_of, index_of, listed, method_override_rows,
    override_rows, overriding, owner_of, resolution, stored, super_rows, super_target, unique_id,
    with_files, with_supers, with_symbol, with_symbols, without, Indexing, JavaIndexView,
    ParsedFileView, RefKind, RefRowView,
};
use crate::laws::basics::{
    concat_members, cuts_are_at_the_ends, first_word, keep_is_filter, push_members,
    trimmed_is_core,
};
use crate::lists::first_where;
use crate::split::rcut_once;
use crate::store::model::RawSymbolView;
use crate::text::is_white;
use vstd::prelude::*;

verus! {

/// Whether `id` is that of the first of the methods with the name.
pub open spec fn is_first_of(methods: Seq<(Seq<char>, i64)>, name: Seq<char>, id: i64) -> bool {
    exists|i: int|
        0 <= i < methods.len() && #[trigger] methods[i] == (name, id) && forall|j: int|
            0 <= j < i ==> (#[trigger] methods[j]).0 != name
}

/// Whether one of the methods has the name.
pub open spec fn has_method(methods: Seq<(Seq<char>, i64)>, name: Seq<char>) -> bool {
    exists|i: int| 0 <= i < methods.len() && (#[trigger] methods[i]).0 == name
}

/// The methods that a type is known to declare.
pub open spec fn methods_on(x: JavaIndexView, ty: Seq<char>) -> Seq<(Seq<char>, i64)> {
    if x.methods_by_type.dom().contains(ty) {
        x.methods_by_type[ty]
    } else {
        Seq::empty()
    }
}

/// Looking a method up finds the first with its name, and nothing where there is none.
pub proof fn lookup_finds_the_first(methods: Seq<(Seq<char>, i64)>, name: Seq<char>)
    ensures
        first_declared(methods, name) matches Some(id) ==> is_first_of(methods, name, id),
        first_declared(methods, name) is Some <==> has_method(methods, name),
        forall|id: i64| #[trigger]
            is_first_of(methods, name, id) ==> first_declared(methods, name) == Some(id),
    decreases methods.len(),
{
    if methods.len() == 0 {
        assert(first_where(methods, declares(name)) is None);
    } else {
        let rest = methods.skip(1);
        lookup_finds_the_first(rest, name);
        if methods[0].0 == name {
            assert(methods[0] == (name, methods[0].1));
            assert(is_first_of(methods, name, methods[0].1));
            assert forall|id: i64| #[trigger] is_first_of(methods, name, id) implies first_declared(
                methods,
                name,
            ) == Some(id) by {
                let i = choose|i: int|
                    0 <= i < methods.len() && #[trigger] methods[i] == (name, id) && forall|j: int|
                        0 <= j < i ==> (#[trigger] methods[j]).0 != name;
                if i > 0 {
                    assert(methods[0].0 != name);
                }
            }
        } else {
            assert(first_declared(methods, name) == first_declared(rest, name));
            if first_declared(rest, name) is Some {
                let id = first_declared(rest, name)->0;
                let i = choose|i: int|
                    0 <= i < rest.len() && #[trigger] rest[i] == (name, id) && forall|j: int|
                        0 <= j < i ==> (#[trigger] rest[j]).0 != name;
                assert(methods[i + 1] == (name, id));
                assert forall|j: int| 0 <= j < i + 1 implies (#[trigger] methods[j]).0 != name by {
                    if j > 0 {
                        assert(rest[j - 1] == methods[j]);
                    }
                }
                assert(is_first_of(methods, name, id));
                assert(methods[i + 1].0 == name);
            }
            if has_method(methods, name) {
                let i = choose|i: int| 0 <= i < methods.len() && (#[trigger] methods[i]).0 == name;
                assert(rest[i - 1] == methods[i]);
            }
            assert forall|id: i64| #[trigger] is_first_of(methods, name, id) implies first_declared(
                methods,
                name,
            ) == Some(id) by {
                let i = choose|i: int|
                    0 <= i < methods.len() && #[trigger] methods[i] == (name, id) && forall|j: int|
                        0 <= j < i ==> (#[trigger] methods[j]).0 != name;
                assert(rest[i - 1] == (name, id));
                assert forall|j: int| 0 <= j < i - 1 implies (#[trigger] rest[j]).0 != name by {
                    assert(rest[j] == methods[j + 1]);
                }
                assert(is_first_of(rest, name, id));
            }
        }
    }
}

/// Whether exactly one type of the project declares the name: the one at place `t`, whose
/// first declaration of it has the id.
pub open spec fn only_type_declares(
    types: Seq<(Seq<char>, Seq<(Seq<char>, i64)>)>,
    t: int,
    name: Seq<char>,
    id: i64,
) -> bool {
    &&& 0 <= t < types.len()
    &&& is_first_of(types[t].1, name, id)
    &&& forall|u: int| 0 <= u < types.len() && u != t ==> !has_method((#[trigger] types[u]).1, name)
}

/// A name alone leads somewhere exactly where one type declares it.
pub proof fn names_lead_to_the_only_type(
    types: Seq<(Seq<char>, Seq<(Seq<char>, i64)>)>,
    name: Seq<char>,
    id: i64,
)
    ensures
        unique_id(declarations(types), name) == Some(id) <==> exists|t: int|
            #[trigger] only_type_declares(types, t, name, id),
{
    crate::build::java_pass::unique_means_one_type(types, name, id);
    assert forall|t: int| #[trigger] only_type_declares(types, t, name, id)
        <==> crate::build::java_pass::only_declared_at(types, t, name, id) by {
        if 0 <= t < types.len() {
            lookup_finds_the_first(types[t].1, name);
            if only_type_declares(types, t, name, id) {
                assert forall|u: int| 0 <= u < types.len() && u != t implies first_declared(
                    (#[trigger] types[u]).1,
                    name,
                ) is None by {
                    lookup_finds_the_first(types[u].1, name);
                }
            }
            if crate::build::java_pass::only_declared_at(types, t, name, id) {
                assert forall|u: int| 0 <= u < types.len() && u != t implies !has_method(
                    (#[trigger] types[u]).1,
                    name,
                ) by {
                    lookup_finds_the_first(types[u].1, name);
                }
            }
        }
    }
    if exists|t: int| #[trigger] only_type_declares(types, t, name, id) {
        let t = choose|t: int| #[trigger] only_type_declares(types, t, name, id);
        assert(crate::build::java_pass::only_declared_at(types, t, name, id));
    }
    if unique_id(declarations(types), name) == Some(id) {
        let t = choose|t: int| #[trigger]
            crate::build::java_pass::only_declared_at(types, t, name, id);
        assert(only_type_declares(types, t, name, id));
    }
}

/// A call on a receiver. It is certain only through a field whose declared type declares
/// the method, and then it leads to that type's method. Where it does not, it leads to the
/// only type that declares the name, more likely through a known field than through
/// anything else; where there is no such type it leads nowhere. What encloses the call
/// plays no part.
pub proof fn receivers_decide_qualified_calls(
    x: JavaIndexView,
    types: Seq<(Seq<char>, Seq<(Seq<char>, i64)>)>,
    fields: Map<Seq<char>, Seq<char>>,
    owner: Option<Seq<char>>,
    r: Seq<char>,
    m: Seq<char>,
)
    requires
        !r.contains('.'),
    ensures
        ({
            let res = resolution(x, declarations(types), fields, owner, r + "."@ + m);
            let known = fields.dom().contains(r);
            let sure = known && has_method(methods_on(x, fields[r]), m);
            &&& sure ==> res.1 == 10 && res.0 is Some && is_first_of(
                methods_on(x, fields[r]),
                m,
                res.0->0,
            )
            &&& !sure ==> res.1 != 10
            &&& forall|t: int, id: i64|
                !sure && #[trigger] only_type_declares(types, t, m, id) ==> res == (
                    Some(id),
                    if known {
                        6u8
                    } else {
                        3u8
                    },
                )
            &&& !sure && (forall|t: int, id: i64| !#[trigger] only_type_declares(types, t, m, id))
                ==> res == (None::<i64>, 0u8)
            &&& res == resolution(x, declarations(types), fields, None, r + "."@ + m)
        }),
{
    reveal_strlit(".");
    assert(r + "."@ + m =~= r.push('.') + m);
    cuts_are_at_the_ends(r, m, '.');
    if fields.dom().contains(r) {
        lookup_finds_the_first(methods_on(x, fields[r]), m);
    }
    assert forall|t: int, id: i64| #[trigger] only_type_declares(types, t, m, id) implies unique_id(
        declarations(types),
        m,
    ) == Some(id) by {
        names_lead_to_the_only_type(types, m, id);
    }
    match unique_id(declarations(types), m) {
        Some(id) => {
            names_lead_to_the_only_type(types, m, id);
        },
        None => {},
    }
}

/// A call without a receiver. It is certain where the enclosing type declares the method,
/// and then it leads there. Else it leads to the only type that declares the name, as a
/// guess, or nowhere. The fields play no part.
pub proof fn owners_decide_plain_calls(
    x: JavaIndexView,
    types: Seq<(Seq<char>, Seq<(Seq<char>, i64)>)>,
    fields: Map<Seq<char>, Seq<char>>,
    owner: Option<Seq<char>>,
    m: Seq<char>,
)
    requires
        !m.contains('.'),
    ensures
        ({
            let res = resolution(x, declarations(types), fields, owner, m);
            let sure = owner is Some && has_method(methods_on(x, owner->0), m);
            &&& sure ==> res.1 == 10 && res.0 is Some && is_first_of(
                methods_on(x, owner->0),
                m,
                res.0->0,
            )
            &&& forall|t: int, id: i64|
                !sure && #[trigger] only_type_declares(types, t, m, id) ==> res == (Some(id), 3u8)
            &&& !sure && (forall|t: int, id: i64| !#[trigger] only_type_declares(types, t, m, id))
                ==> res == (None::<i64>, 0u8)
            &&& res == resolution(x, declarations(types), Map::empty(), owner, m)
        }),
{
    cuts_are_at_the_ends(m, m, '.');
    if owner is Some {
        lookup_finds_the_first(methods_on(x, owner->0), m);
    }
    assert forall|t: int, id: i64| #[trigger] only_type_declares(types, t, m, id) implies unique_id(
        declarations(types),
        m,
    ) == Some(id) by {
        names_lead_to_the_only_type(types, m, id);
    }
    match unique_id(declarations(types), m) {
        Some(id) => {
            names_lead_to_the_only_type(types, m, id);
        },
        None => {},
    }
}

// ---------------------------------------------------------------------------
// Fields

/// The type of a field is the first word of its signature, where the project has one type
/// of that name.
pub proof fn fields_have_their_declared_type(x: JavaIndexView, ty: Seq<char>, rest: Seq<char>)
    requires
        ty.len() > 0,
        !ty.contains('.') && !ty.contains('<'),
        forall|i: int| 0 <= i < ty.len() ==> !is_white(#[trigger] ty[i]),
    ensures
        x.simple_names.dom().contains(ty) ==> field_type(x, ty + " "@ + rest) == Some(
            x.simple_names[ty],
        ),
        !x.simple_names.dom().contains(ty) && !x.types.dom().contains(ty) ==> field_type(
            x,
            ty + " "@ + rest,
        ) is None,
{
    reveal_strlit(" ");
    assert(ty + " "@ + rest =~= ty.push(' ') + rest);
    first_word(ty, ' ', rest);
    cuts_are_at_the_ends(ty, ty, '<');
    cuts_are_at_the_ends(ty, ty, '.');
    trimmed_is_core(Seq::empty(), ty, Seq::empty());
    assert(Seq::<char>::empty() + ty + Seq::<char>::empty() =~= ty);
}

/// An identifier stands for the last field or constant of that name whose type is known,
/// and for nothing where there is none.
pub proof fn identifiers_are_fields(x: JavaIndexView, syms: Seq<RawSymbolView>, n: Seq<char>)
    ensures
        field_types(x, syms).dom().contains(n) <==> exists|i: int| is_typed(x, syms, i, n),
        forall|i: int|
            #[trigger] is_typed(x, syms, i, n) && (forall|j: int|
                i < j < syms.len() ==> !#[trigger] is_typed(x, syms, j, n)) ==> field_types(x, syms)[n]
                == field_type(x, syms[i].signature->0)->0,
    decreases syms.len(),
{
    if syms.len() > 0 {
        let rest = syms.drop_last();
        let last = syms.len() - 1;
        identifiers_are_fields(x, rest, n);
        assert forall|i: int| 0 <= i < last implies (#[trigger] is_typed(x, syms, i, n) <==> is_typed(
            x,
            rest,
            i,
            n,
        )) by {
            assert(rest[i] == syms[i]);
        }
        if exists|i: int| is_typed(x, rest, i, n) {
            let i = choose|i: int| is_typed(x, rest, i, n);
            assert(is_typed(x, syms, i, n));
        }
        if exists|i: int| is_typed(x, syms, i, n) {
            let i = choose|i: int| is_typed(x, syms, i, n);
            if i < last {
                assert(is_typed(x, rest, i, n));
            } else {
                assert(is_typed(x, syms, last, n));
            }
        }
        let s = syms[last];
        assert(s == syms.last());
        assert(is_typed(x, syms, last, n) ==> field_types(x, syms).dom().contains(n));
        if field_types(x, syms).dom().contains(n) && !field_types(x, rest).dom().contains(n) {
            assert(s.name == n);
            assert(is_typed(x, syms, last, n));
        }
        assert forall|i: int|
            #[trigger] is_typed(x, syms, i, n) && (forall|j: int|
                i < j < syms.len() ==> !#[trigger] is_typed(x, syms, j, n)) implies field_types(
            x,
            syms,
        )[n] == field_type(x, syms[i].signature->0)->0 by {
            if i < last {
                assert(!is_typed(x, syms, last, n));
                assert(is_typed(x, rest, i, n));
                assert forall|j: int| i < j < rest.len() implies !#[trigger] is_typed(
                    x,
                    rest,
                    j,
                    n,
                ) by {
                    assert(!is_typed(x, syms, j, n));
                }
                assert(field_types(x, rest)[n] == field_type(x, rest[i].signature->0)->0);
            }
        }
    } else {
        assert forall|i: int| !is_typed(x, syms, i, n) by {}
    }
}

/// Whether the symbol at `i` is a field or constant with the name and a known type.
pub open spec fn is_typed(
    x: JavaIndexView,
    syms: Seq<RawSymbolView>,
    i: int,
    n: Seq<char>,
) -> bool {
    &&& 0 <= i < syms.len()
    &&& syms[i].name == n
    &&& syms[i].kind is Field || syms[i].kind is Constant
    &&& syms[i].signature is Some
    &&& field_type(x, syms[i].signature->0) is Some
}

// ---------------------------------------------------------------------------
// Edges

/// The edge that a call of a symbol makes.
pub open spec fn edge_of(src: i64, call: Seq<char>, res: (Option<i64>, u8)) -> RefRowView {
    RefRowView { src, dst: res.0, raw: call, kind: RefKind::Call, confidence: res.1 }
}

/// Every call of a symbol is kept as an edge with its text, where it does not lead back to
/// the symbol, and there is no other edge.
pub proof fn every_call_is_an_edge(
    x: JavaIndexView,
    unique: Map<Seq<char>, Option<i64>>,
    fields: Map<Seq<char>, Seq<char>>,
    owner: Option<Seq<char>>,
    src: i64,
    calls: Seq<Seq<char>>,
    row: RefRowView,
)
    ensures
        call_rows(x, unique, fields, owner, src, calls).contains(row) <==> exists|i: int|
            0 <= i < calls.len() && row == edge_of(
                src,
                #[trigger] calls[i],
                resolution(x, unique, fields, owner, calls[i]),
            ) && row.dst != Some(src),
    decreases calls.len(),
{
    if calls.len() > 0 {
        let rest = calls.drop_last();
        let n = rest.len() as int;
        let c = calls.last();
        every_call_is_an_edge(x, unique, fields, owner, src, rest, row);
        let before = call_rows(x, unique, fields, owner, src, rest);
        let e = edge_of(src, c, resolution(x, unique, fields, owner, c));
        push_members(before, e, row);
        assert(calls[n] == c);
        if before.contains(row) {
            let i = choose|i: int|
                0 <= i < rest.len() && row == edge_of(
                    src,
                    #[trigger] rest[i],
                    resolution(x, unique, fields, owner, rest[i]),
                ) && row.dst != Some(src);
            assert(calls[i] == rest[i]);
        }
        if exists|i: int|
            0 <= i < calls.len() && row == edge_of(
                src,
                #[trigger] calls[i],
                resolution(x, unique, fields, owner, calls[i]),
            ) && row.dst != Some(src) {
            let i = choose|i: int|
                0 <= i < calls.len() && row == edge_of(
                    src,
                    #[trigger] calls[i],
                    resolution(x, unique, fields, owner, calls[i]),
                ) && row.dst != Some(src);
            if i < n {
                assert(rest[i] == calls[i]);
            }
        }
    }
}

/// Whether the row is one that the calls of the symbol at `k` of the file make.
pub open spec fn made_at(
    x: JavaIndexView,
    unique: Map<Seq<char>, Option<i64>>,
    f: ParsedFileView,
    k: int,
    row: RefRowView,
) -> bool {
    0 <= k < f.file.symbols.len() && k < f.ids.len() && call_rows(
        x,
        unique,
        field_types(x, f.file.symbols),
        owner_of(f.file.symbols[k].fqn),
        f.ids[k],
        f.file.symbols[k].calls,
    ).contains(row)
}

/// The edges of the project are those that the calls of its stored symbols make, each with
/// the row of its symbol, the fields of its file and the type that encloses it.
pub proof fn every_symbol_adds_its_calls(
    x: JavaIndexView,
    unique: Map<Seq<char>, Option<i64>>,
    fs: Seq<ParsedFileView>,
    row: RefRowView,
)
    ensures
        all_call_rows(x, unique, fs).contains(row) <==> exists|i: int, k: int|
            0 <= i < fs.len() && #[trigger] made_at(x, unique, fs[i], k, row),
    decreases fs.len(),
{
    if fs.len() > 0 {
        let rest = fs.drop_last();
        let n = rest.len() as int;
        every_symbol_adds_its_calls(x, unique, rest, row);
        let f = fs.last();
        assert(fs[n] == f);
        file_adds_its_calls(x, unique, f, stored(f), row);
        concat_members(all_call_rows(x, unique, rest), file_rows(x, unique, f, stored(f)), row);
        if all_call_rows(x, unique, rest).contains(row) {
            let (i, k) = choose|i: int, k: int|
                0 <= i < rest.len() && #[trigger] made_at(x, unique, rest[i], k, row);
            assert(rest[i] == fs[i]);
            assert(made_at(x, unique, fs[i], k, row));
        }
        if file_rows(x, unique, f, stored(f)).contains(row) {
            let k = choose|k: int| 0 <= k < stored(f) && #[trigger] made_at(x, unique, f, k, row);
            assert(made_at(x, unique, fs[n], k, row));
        }
        if exists|i: int, k: int| 0 <= i < fs.len() && #[trigger] made_at(x, unique, fs[i], k, row) {
            let (i, k) = choose|i: int, k: int|
                0 <= i < fs.len() && #[trigger] made_at(x, unique, fs[i], k, row);
            if i < n {
                assert(made_at(x, unique, rest[i], k, row));
            } else {
                assert(made_at(x, unique, f, k, row));
            }
        }
    }
}

proof fn file_adds_its_calls(
    x: JavaIndexView,
    unique: Map<Seq<char>, Option<i64>>,
    f: ParsedFileView,
    n: nat,
    row: RefRowView,
)
    requires
        n <= f.file.symbols.len(),
        n <= f.ids.len(),
    ensures
        file_rows(x, unique, f, n).contains(row) <==> exists|k: int|
            0 <= k < n && #[trigger] made_at(x, unique, f, k, row),
    decreases n,
{
    if n > 0 {
        let m = (n - 1) as nat;
        file_adds_its_calls(x, unique, f, m, row);
        let own = call_rows(
            x,
            unique,
            field_types(x, f.file.symbols),
            owner_of(f.file.symbols[n - 1].fqn),
            f.ids[n - 1],
            f.file.symbols[n - 1].calls,
        );
        concat_members(file_rows(x, unique, f, m), own, row);
        assert(made_at(x, unique, f, n - 1, row) <==> own.contains(row));
    }
}

/// A method's enclosing type is what stands before the `#` of its qualified name.
pub proof fn methods_are_enclosed_by_their_type(ty: Seq<char>, m: Seq<char>)
    requires
        !ty.contains('#'),
    ensures
        owner_of(Some(ty + "#"@ + m)) == Some(ty),
        owner_of(Some(ty)) is None,
{
    reveal_strlit("#");
    assert(ty + "#"@ + m =~= ty.push('#') + m);
    cuts_are_at_the_ends(ty, m, '#');
}

// ---------------------------------------------------------------------------
// Overrides

/// The edge from a supertype's method to one that overrides it.
pub open spec fn override_edge(
    from: i64,
    to: i64,
    impl_fqn: Seq<char>,
    name: Seq<char>,
    sure: bool,
) -> RefRowView {
    RefRowView {
        src: from,
        dst: Some(to),
        raw: impl_fqn + "#"@ + name,
        kind: RefKind::Override,
        confidence: if sure {
            10
        } else {
            7
        },
    }
}

/// How many of the methods have the name.
pub open spec fn overloads(methods: Seq<(Seq<char>, i64)>, name: Seq<char>) -> nat {
    methods.filter(|p: (Seq<char>, i64)| p.0 == name).len()
}

/// Whether the row links the method at `a` of a supertype to the like-named one at `b` of an
/// implementor. It is sure where the supertype has one implementor, which has one method of
/// that name.
pub open spec fn links(
    impl_fqn: Seq<char>,
    impl_methods: Seq<(Seq<char>, i64)>,
    only_impl: bool,
    super_methods: Seq<(Seq<char>, i64)>,
    a: int,
    b: int,
    row: RefRowView,
) -> bool {
    &&& 0 <= a < super_methods.len()
    &&& 0 <= b < impl_methods.len()
    &&& super_methods[a].0 == impl_methods[b].0
    &&& super_methods[a].1 != impl_methods[b].1
    &&& row == override_edge(
        super_methods[a].1,
        impl_methods[b].1,
        impl_fqn,
        super_methods[a].0,
        only_impl && overloads(impl_methods, super_methods[a].0) == 1,
    )
}

/// Whether the row links a method of a supertype to a like-named one of an implementor.
pub open spec fn is_linked(
    impl_fqn: Seq<char>,
    impl_methods: Seq<(Seq<char>, i64)>,
    only_impl: bool,
    super_methods: Seq<(Seq<char>, i64)>,
    row: RefRowView,
) -> bool {
    exists|a: int, b: int| #[trigger]
        links(impl_fqn, impl_methods, only_impl, super_methods, a, b, row)
}

/// Every method of a supertype leads to each like-named method of an implementor, and there
/// is no other override.
pub proof fn every_override_is_linked(
    impl_fqn: Seq<char>,
    impl_methods: Seq<(Seq<char>, i64)>,
    only_impl: bool,
    super_methods: Seq<(Seq<char>, i64)>,
    row: RefRowView,
)
    ensures
        impl_rows(impl_fqn, impl_methods, only_impl, super_methods).contains(row) <==> is_linked(
            impl_fqn,
            impl_methods,
            only_impl,
            super_methods,
            row,
        ),
    decreases super_methods.len(),
{
    if super_methods.len() > 0 {
        let rest = super_methods.drop_last();
        let n = rest.len() as int;
        let m = super_methods.last();
        assert(super_methods[n] == m);
        every_override_is_linked(impl_fqn, impl_methods, only_impl, rest, row);
        let f = |p: (Seq<char>, i64)| p.0 == m.0;
        let found = overriding(impl_methods, m.0);
        keep_is_filter(impl_methods, f);
        let conf: u8 = if only_impl && found.len() == 1 {
            10
        } else {
            7
        };
        let own = method_override_rows(impl_fqn, m.0, m.1, conf, found);
        concat_members(impl_rows(impl_fqn, impl_methods, only_impl, rest), own, row);
        matches_are_linked(impl_fqn, m.0, m.1, conf, found, row);
        if impl_rows(impl_fqn, impl_methods, only_impl, rest).contains(row) {
            let (a, b) = choose|a: int, b: int| #[trigger]
                links(impl_fqn, impl_methods, only_impl, rest, a, b, row);
            assert(rest[a] == super_methods[a]);
            assert(links(impl_fqn, impl_methods, only_impl, super_methods, a, b, row));
        }
        if own.contains(row) {
            let k = choose|k: int|
                0 <= k < found.len() && (#[trigger] found[k]).1 != m.1 && row == (RefRowView {
                    src: m.1,
                    dst: Some(found[k].1),
                    raw: impl_fqn + "#"@ + m.0,
                    kind: RefKind::Override,
                    confidence: conf,
                });
            filter_is_from(impl_methods, f, k);
            let b = choose|b: int| 0 <= b < impl_methods.len() && impl_methods[b] == found[k];
            assert(f(impl_methods[b]));
            assert(links(impl_fqn, impl_methods, only_impl, super_methods, n, b, row));
        }
        if exists|a: int, b: int| #[trigger]
            links(impl_fqn, impl_methods, only_impl, super_methods, a, b, row) {
            let (a, b) = choose|a: int, b: int| #[trigger]
                links(impl_fqn, impl_methods, only_impl, super_methods, a, b, row);
            if a < n {
                assert(rest[a] == super_methods[a]);
                assert(links(impl_fqn, impl_methods, only_impl, rest, a, b, row));
            } else {
                filter_has(impl_methods, f, b);
                assert(f(impl_methods[b]));
                assert(found.contains(impl_methods[b]));
                let k = choose|k: int| 0 <= k < found.len() && found[k] == impl_methods[b];
                assert(found[k].1 != m.1);
                assert(own.contains(row));
            }
        }
    }
}

proof fn filter_is_from<T>(s: Seq<T>, f: spec_fn(T) -> bool, k: int)
    requires
        0 <= k < s.filter(f).len(),
    ensures
        s.contains(s.filter(f)[k]),
        f(s.filter(f)[k]),
    decreases s.len(),
{
    reveal(Seq::filter);
    if s.len() > 0 {
        let rest = s.drop_last();
        if k < rest.filter(f).len() {
            filter_is_from(rest, f, k);
            let i = choose|i: int| 0 <= i < rest.len() && rest[i] == rest.filter(f)[k];
            assert(s[i] == rest.filter(f)[k]);
        } else {
            assert(s[s.len() - 1] == s.last());
        }
    }
}

proof fn filter_has<T>(s: Seq<T>, f: spec_fn(T) -> bool, b: int)
    requires
        0 <= b < s.len(),
        f(s[b]),
    ensures
        s.filter(f).contains(s[b]),
    decreases s.len(),
{
    reveal(Seq::filter);
    let rest = s.drop_last();
    if b < rest.len() {
        filter_has(rest, f, b);
        if f(s.last()) {
            push_members(rest.filter(f), s.last(), s[b]);
        }
    } else {
        push_members(rest.filter(f), s.last(), s[b]);
    }
}

proof fn matches_are_linked(
    impl_fqn: Seq<char>,
    name: Seq<char>,
    from: i64,
    conf: u8,
    found: Seq<(Seq<char>, i64)>,
    row: RefRowView,
)
    ensures
        method_override_rows(impl_fqn, name, from, conf, found).contains(row) <==> exists|k: int|
            0 <= k < found.len() && (#[trigger] found[k]).1 != from && row == (RefRowView {
                src: from,
                dst: Some(found[k].1),
                raw: impl_fqn + "#"@ + name,
                kind: RefKind::Override,
                confidence: conf,
            }),
    decreases found.len(),
{
    if found.len() > 0 {
        let rest = found.drop_last();
        let n = rest.len() as int;
        matches_are_linked(impl_fqn, name, from, conf, rest, row);
        let e = RefRowView {
            src: from,
            dst: Some(found.last().1),
            raw: impl_fqn + "#"@ + name,
            kind: RefKind::Override,
            confidence: conf,
        };
        let before = method_override_rows(impl_fqn, name, from, conf, rest);
        push_members(before, e, row);
        assert(found[n] == found.last());
        if before.contains(row) {
            let k = choose|k: int|
                0 <= k < rest.len() && (#[trigger] rest[k]).1 != from && row == (RefRowView {
                    src: from,
                    dst: Some(rest[k].1),
                    raw: impl_fqn + "#"@ + name,
                    kind: RefKind::Override,
                    confidence: conf,
                });
            assert(found[k] == rest[k]);
        }
        assert forall|k: int| 0 <= k < rest.len() implies rest[k] == #[trigger] found[k] by {}
    }
}

/// Whether the row links a method of the supertype of entry `e` to one of its implementor at
/// place `i`.
pub open spec fn links_entry(
    methods: Map<Seq<char>, Seq<(Seq<char>, i64)>>,
    e: (Seq<char>, Seq<Seq<char>>),
    i: int,
    row: RefRowView,
) -> bool {
    &&& methods.dom().contains(e.0)
    &&& 0 <= i < e.1.len()
    &&& methods.dom().contains(e.1[i])
    &&& is_linked(e.1[i], methods[e.1[i]], e.1.len() == 1, methods[e.0], row)
}

/// Interface methods lead to the methods of every implementor that override them.
pub proof fn implementors_are_linked(
    methods: Map<Seq<char>, Seq<(Seq<char>, i64)>>,
    l: Seq<(Seq<char>, Seq<Seq<char>>)>,
    row: RefRowView,
)
    ensures
        override_rows(methods, l).contains(row) <==> exists|s: int, i: int|
            0 <= s < l.len() && #[trigger] links_entry(methods, l[s], i, row),
    decreases l.len(),
{
    if l.len() > 0 {
        let rest = l.drop_last();
        let n = rest.len() as int;
        let e = l.last();
        assert(l[n] == e);
        implementors_are_linked(methods, rest, row);
        if methods.dom().contains(e.0) {
            supertype_is_linked(methods, e, e.1.len(), row);
            assert(e.1.take(e.1.len() as int) =~= e.1);
            concat_members(
                override_rows(methods, rest),
                super_rows(methods, methods[e.0], e.1, e.1),
                row,
            );
        }
        if override_rows(methods, rest).contains(row) {
            let (s, i) = choose|s: int, i: int|
                0 <= s < rest.len() && #[trigger] links_entry(methods, rest[s], i, row);
            assert(rest[s] == l[s]);
            assert(links_entry(methods, l[s], i, row));
        }
        if methods.dom().contains(e.0) && super_rows(methods, methods[e.0], e.1, e.1).contains(row) {
            let i = choose|i: int| 0 <= i < e.1.len() && #[trigger] links_entry(methods, e, i, row);
            assert(links_entry(methods, l[n], i, row));
        }
        if exists|s: int, i: int| 0 <= s < l.len() && #[trigger] links_entry(methods, l[s], i, row) {
            let (s, i) = choose|s: int, i: int|
                0 <= s < l.len() && #[trigger] links_entry(methods, l[s], i, row);
            if s < n {
                assert(links_entry(methods, rest[s], i, row));
            } else {
                assert(links_entry(methods, e, i, row));
            }
        }
    }
}

proof fn supertype_is_linked(
    methods: Map<Seq<char>, Seq<(Seq<char>, i64)>>,
    e: (Seq<char>, Seq<Seq<char>>),
    n: nat,
    row: RefRowView,
)
    requires
        n <= e.1.len(),
        methods.dom().contains(e.0),
    ensures
        super_rows(methods, methods[e.0], e.1, e.1.take(n as int)).contains(row) <==> exists|i: int|
            0 <= i < n && #[trigger] links_entry(methods, e, i, row),
    decreases n,
{
    if n > 0 {
        let m = (n - 1) as nat;
        let t = e.1.take(n as int);
        supertype_is_linked(methods, e, m, row);
        assert(t.drop_last() =~= e.1.take(m as int));
        assert(t.last() == e.1[n - 1]);
        let before = super_rows(methods, methods[e.0], e.1, e.1.take(m as int));
        if methods.dom().contains(e.1[n - 1]) {
            let own = impl_rows(
                e.1[n - 1],
                methods[e.1[n - 1]],
                e.1.len() == 1,
                methods[e.0],
            );
            every_override_is_linked(
                e.1[n - 1],
                methods[e.1[n - 1]],
                e.1.len() == 1,
                methods[e.0],
                row,
            );
            concat_members(before, own, row);
            assert(links_entry(methods, e, n - 1, row) <==> own.contains(row));
        } else {
            assert(!links_entry(methods, e, n - 1, row));
        }
    }
}

// ---------------------------------------------------------------------------
// The index

/// Whether the symbol at `k` of file `i` has a row and is a type with a qualified name.
pub open spec fn type_at(fs: Seq<ParsedFileView>, i: int, k: int) -> bool {
    &&& 0 <= i < fs.len()
    &&& 0 <= k < fs[i].file.symbols.len() && k < fs[i].ids.len()
    &&& fs[i].file.symbols[k].fqn is Some
    &&& {
        let kind = fs[i].file.symbols[k].kind;
        kind is Class || kind is Interface || kind is Enum || kind is Record || kind is Annotation
    }
}

/// Whether it is a method with a qualified name.
pub open spec fn method_at(fs: Seq<ParsedFileView>, i: int, k: int) -> bool {
    &&& 0 <= i < fs.len()
    &&& 0 <= k < fs[i].file.symbols.len() && k < fs[i].ids.len()
    &&& fs[i].file.symbols[k].fqn is Some
    &&& fs[i].file.symbols[k].kind is Method
}

spec fn earlier(i: int, k: int, fi: int, n: int) -> bool {
    i < fi || (i == fi && k < n)
}

spec fn building(fs: Seq<ParsedFileView>, fi: int, n: nat) -> Indexing {
    if fi < fs.len() {
        with_symbols(with_files(fs.take(fi)), fs[fi], n)
    } else {
        with_files(fs)
    }
}

/// The step from one symbol to the next, and from one file to the next.
proof fn building_steps(fs: Seq<ParsedFileView>, fi: int, n: nat)
    requires
        0 <= fi < fs.len(),
        n <= stored(fs[fi]),
    ensures
        n > 0 ==> building(fs, fi, n) == with_symbol(
            building(fs, fi, (n - 1) as nat),
            fs[fi].rel,
            fs[fi].file.symbols[n - 1],
            fs[fi].ids[n - 1],
        ),
        n == 0 && fi > 0 ==> building(fs, fi, n) == building(fs, fi - 1, stored(fs[fi - 1])),
        n == 0 && fi == 0 ==> building(fs, fi, n) == with_files(Seq::empty()),
        n == stored(fs[fi]) && fi == fs.len() - 1 ==> building(fs, fi, n) == with_files(fs),
{
    if n == 0 && fi > 0 {
        assert(fs.take(fi).drop_last() =~= fs.take(fi - 1));
    }
    if n == 0 && fi == 0 {
        assert(fs.take(0) =~= Seq::empty());
    }
    if fi == fs.len() - 1 {
        assert(fs.drop_last() =~= fs.take(fi));
    }
}

spec fn typed_so(fs: Seq<ParsedFileView>, i: int, k: int, q: Seq<char>) -> bool {
    type_at(fs, i, k) && fs[i].file.symbols[k].fqn == Some(q)
}

spec fn method_so(fs: Seq<ParsedFileView>, i: int, k: int, q: Seq<char>) -> bool {
    method_at(fs, i, k) && fs[i].file.symbols[k].fqn == Some(q)
}

spec fn documented_so(fs: Seq<ParsedFileView>, i: int, k: int, q: Seq<char>) -> bool {
    typed_so(fs, i, k, q) && fs[i].file.symbols[k].doc is Some
}

spec fn called_so(fs: Seq<ParsedFileView>, i: int, k: int, name: Seq<char>) -> bool {
    type_at(fs, i, k) && fs[i].file.symbols[k].name == name
}

spec fn inherits_so(
    fs: Seq<ParsedFileView>,
    i: int,
    k: int,
    e: (Seq<char>, Seq<Seq<char>>),
) -> bool {
    typed_so(fs, i, k, e.0) && fs[i].file.symbols[k].supertypes == e.1 && e.1.len() > 0
}

proof fn types_so_far(fs: Seq<ParsedFileView>, q: Seq<char>, fi: int, n: nat)
    requires
        0 <= fi < fs.len(),
        n <= stored(fs[fi]),
    ensures
        ({
            let x = building(fs, fi, n).index;
            &&& x.types.dom().contains(q) <==> exists|i: int, k: int| #[trigger]
                typed_so(fs, i, k, q) && earlier(i, k, fi, n as int)
            &&& x.type_files.dom().contains(q) <==> x.types.dom().contains(q)
            &&& x.types.dom().contains(q) ==> exists|i: int, k: int| #[trigger]
                typed_so(fs, i, k, q) && x.types[q] == fs[i].ids[k] && x.type_files[q] == fs[i].rel
            &&& x.type_docs.dom().contains(q) <==> exists|i: int, k: int| #[trigger]
                documented_so(fs, i, k, q) && earlier(i, k, fi, n as int)
            &&& x.type_docs.dom().contains(q) ==> exists|i: int, k: int| #[trigger]
                documented_so(fs, i, k, q) && fs[i].file.symbols[k].doc == Some(x.type_docs[q])
        }),
    decreases fi, n,
{
    building_steps(fs, fi, n);
    if n > 0 {
        let p = (n - 1) as nat;
        types_so_far(fs, q, fi, p);
        let x0 = building(fs, fi, p).index;
        let sym = fs[fi].file.symbols[n - 1];
        let here = typed_so(fs, fi, n - 1, q);
        let told = documented_so(fs, fi, n - 1, q);
        assert forall|i: int, k: int| earlier(i, k, fi, n as int) && !(i == fi && k == n - 1)
            implies #[trigger] earlier(i, k, fi, p as int) by {}
        if x0.types.dom().contains(q) {
            let (i, k) = choose|i: int, k: int| #[trigger]
                typed_so(fs, i, k, q) && earlier(i, k, fi, p as int);
            assert(typed_so(fs, i, k, q) && earlier(i, k, fi, n as int));
        }
        if x0.type_docs.dom().contains(q) {
            let (i, k) = choose|i: int, k: int| #[trigger]
                documented_so(fs, i, k, q) && earlier(i, k, fi, p as int);
            assert(documented_so(fs, i, k, q) && earlier(i, k, fi, n as int));
        }
        if exists|i: int, k: int| #[trigger]
            typed_so(fs, i, k, q) && earlier(i, k, fi, n as int) {
            let (i, k) = choose|i: int, k: int| #[trigger]
                typed_so(fs, i, k, q) && earlier(i, k, fi, n as int);
            if !here {
                assert(earlier(i, k, fi, p as int));
            }
        }
        if exists|i: int, k: int| #[trigger]
            documented_so(fs, i, k, q) && earlier(i, k, fi, n as int) {
            let (i, k) = choose|i: int, k: int| #[trigger]
                documented_so(fs, i, k, q) && earlier(i, k, fi, n as int);
            if !told {
                assert(earlier(i, k, fi, p as int));
            }
        }
        assert(here ==> earlier(fi, n - 1, fi, n as int));
    } else if fi > 0 {
        let m = stored(fs[fi - 1]);
        types_so_far(fs, q, fi - 1, m);
        assert forall|i: int, k: int| #[trigger] typed_so(fs, i, k, q) implies (earlier(
            i,
            k,
            fi,
            0,
        ) <==> earlier(i, k, fi - 1, m as int)) by {}
        assert forall|i: int, k: int| #[trigger] documented_so(fs, i, k, q) implies (earlier(
            i,
            k,
            fi,
            0,
        ) <==> earlier(i, k, fi - 1, m as int)) by {}
    }
}

proof fn methods_so_far(
    fs: Seq<ParsedFileView>,
    ty: Seq<char>,
    m: Seq<char>,
    id: i64,
    fi: int,
    n: nat,
)
    requires
        0 <= fi < fs.len(),
        n <= stored(fs[fi]),
        !m.contains('#'),
    ensures
        ({
            let x = building(fs, fi, n).index;
            let q = ty + "#"@ + m;
            &&& x.methods.dom().contains(q) <==> exists|i: int, k: int| #[trigger]
                method_so(fs, i, k, q) && earlier(i, k, fi, n as int)
            &&& x.methods.dom().contains(q) ==> exists|i: int, k: int| #[trigger]
                method_so(fs, i, k, q) && x.methods[q] == fs[i].ids[k]
            &&& methods_on(x, ty).contains((m, id)) <==> exists|i: int, k: int| #[trigger]
                method_so(fs, i, k, q) && earlier(i, k, fi, n as int) && fs[i].ids[k] == id
        }),
    decreases fi, n,
{
    reveal_strlit("#");
    let q = ty + "#"@ + m;
    assert(q =~= ty.push('#') + m);
    cuts_are_at_the_ends(ty, m, '#');
    building_steps(fs, fi, n);
    if n > 0 {
        let p = (n - 1) as nat;
        methods_so_far(fs, ty, m, id, fi, p);
        let x0 = building(fs, fi, p).index;
        let x1 = building(fs, fi, n).index;
        let sym = fs[fi].file.symbols[n - 1];
        let here = method_so(fs, fi, n - 1, q);
        assert forall|i: int, k: int| earlier(i, k, fi, n as int) && !(i == fi && k == n - 1)
            implies #[trigger] earlier(i, k, fi, p as int) by {}
        if sym.fqn is Some && sym.kind is Method {
            match rcut_once(sym.fqn->0, '#') {
                Some(c) => {
                    crate::text::rfind_to_is_last(sym.fqn->0, '#', sym.fqn->0.len() as int);
                    assert(sym.fqn->0 =~= c.0.push('#') + c.1);
                    push_members(methods_on(x0, c.0), (c.1, fs[fi].ids[n - 1]), (m, id));
                    assert(listed(x0.methods_by_type, c.0) == methods_on(x0, c.0));
                    if c.0 == ty {
                        assert(methods_on(x1, ty) == methods_on(x0, ty).push(
                            (c.1, fs[fi].ids[n - 1]),
                        ));
                        assert(c.1 == m <==> here);
                    } else {
                        assert(methods_on(x1, ty) == methods_on(x0, ty));
                        assert(!here);
                    }
                },
                None => {
                    assert(methods_on(x1, ty) == methods_on(x0, ty));
                    assert(!here);
                },
            }
        } else {
            assert(methods_on(x1, ty) == methods_on(x0, ty));
            assert(!here);
        }
        if x0.methods.dom().contains(q) {
            let (i, k) = choose|i: int, k: int| #[trigger]
                method_so(fs, i, k, q) && earlier(i, k, fi, p as int);
            assert(method_so(fs, i, k, q) && earlier(i, k, fi, n as int));
        }
        if methods_on(x0, ty).contains((m, id)) {
            let (i, k) = choose|i: int, k: int| #[trigger]
                method_so(fs, i, k, q) && earlier(i, k, fi, p as int) && fs[i].ids[k] == id;
            assert(method_so(fs, i, k, q) && earlier(i, k, fi, n as int) && fs[i].ids[k] == id);
        }
        if exists|i: int, k: int| #[trigger]
            method_so(fs, i, k, q) && earlier(i, k, fi, n as int) {
            let (i, k) = choose|i: int, k: int| #[trigger]
                method_so(fs, i, k, q) && earlier(i, k, fi, n as int);
            if !here {
                assert(earlier(i, k, fi, p as int));
            }
        }
        if exists|i: int, k: int| #[trigger]
            method_so(fs, i, k, q) && earlier(i, k, fi, n as int) && fs[i].ids[k] == id {
            let (i, k) = choose|i: int, k: int| #[trigger]
                method_so(fs, i, k, q) && earlier(i, k, fi, n as int) && fs[i].ids[k] == id;
            if !(i == fi && k == n - 1) {
                assert(earlier(i, k, fi, p as int));
            }
        }
        assert(here ==> earlier(fi, n - 1, fi, n as int));
    } else if fi > 0 {
        let c = stored(fs[fi - 1]);
        methods_so_far(fs, ty, m, id, fi - 1, c);
        assert forall|i: int, k: int| #[trigger] method_so(fs, i, k, q) implies (earlier(
            i,
            k,
            fi,
            0,
        ) <==> earlier(i, k, fi - 1, c as int)) by {}
    }
}

proof fn names_so_far(fs: Seq<ParsedFileView>, name: Seq<char>, fi: int, n: nat)
    requires
        0 <= fi < fs.len(),
        n <= stored(fs[fi]),
    ensures
        ({
            let s = building(fs, fi, n);
            &&& s.index.simple_names.dom().contains(name) <==> exists|i: int, k: int| #[trigger]
                called_so(fs, i, k, name) && earlier(i, k, fi, n as int)
            &&& s.index.simple_names.dom().contains(name) ==> exists|i: int, k: int| #[trigger]
                called_so(fs, i, k, name) && earlier(i, k, fi, n as int)
                    && fs[i].file.symbols[k].fqn == Some(s.index.simple_names[name])
            &&& s.ambiguous.contains(name) <==> exists|i: int, k: int, i2: int, k2: int|
                #![trigger called_so(fs, i, k, name), called_so(fs, i2, k2, name)]
                called_so(fs, i, k, name) && earlier(i, k, fi, n as int) && called_so(
                    fs,
                    i2,
                    k2,
                    name,
                ) && earlier(i2, k2, fi, n as int) && (i, k) != (i2, k2)
        }),
    decreases fi, n,
{
    building_steps(fs, fi, n);
    if n > 0 {
        let p = (n - 1) as nat;
        names_so_far(fs, name, fi, p);
        let s0 = building(fs, fi, p);
        let s1 = building(fs, fi, n);
        let sym = fs[fi].file.symbols[n - 1];
        let here = called_so(fs, fi, n - 1, name);
        assert(earlier(fi, n - 1, fi, n as int) && !earlier(fi, n - 1, fi, p as int));
        assert forall|i: int, k: int| earlier(i, k, fi, n as int) && !(i == fi && k == n - 1)
            implies #[trigger] earlier(i, k, fi, p as int) by {}
        assert forall|i: int, k: int| #[trigger] earlier(i, k, fi, p as int) implies earlier(
            i,
            k,
            fi,
            n as int,
        ) by {}
        if sym.fqn is Some && type_at(fs, fi, n - 1) {
            push_members(s0.ambiguous, sym.name, name);
        }
        if here {
            assert(s1.ambiguous.contains(name) <==> s0.ambiguous.contains(name)
                || s0.index.simple_names.dom().contains(name));
            assert(called_so(fs, fi, n - 1, name) && earlier(fi, n - 1, fi, n as int));
        } else {
            assert(s1.ambiguous.contains(name) <==> s0.ambiguous.contains(name));
            assert(s1.index.simple_names.dom().contains(name)
                <==> s0.index.simple_names.dom().contains(name));
        }
        if s0.index.simple_names.dom().contains(name) {
            let (i, k) = choose|i: int, k: int| #[trigger]
                called_so(fs, i, k, name) && earlier(i, k, fi, p as int)
                    && fs[i].file.symbols[k].fqn == Some(s0.index.simple_names[name]);
            assert(earlier(i, k, fi, n as int));
            assert((i, k) != (fi, n - 1));
        }
        if s0.ambiguous.contains(name) {
            let (i, k, i2, k2) = choose|i: int, k: int, i2: int, k2: int|
                #![trigger called_so(fs, i, k, name), called_so(fs, i2, k2, name)]
                called_so(fs, i, k, name) && earlier(i, k, fi, p as int) && called_so(
                    fs,
                    i2,
                    k2,
                    name,
                ) && earlier(i2, k2, fi, p as int) && (i, k) != (i2, k2);
            assert(earlier(i, k, fi, n as int) && earlier(i2, k2, fi, n as int));
        }
        if exists|i: int, k: int, i2: int, k2: int|
            #![trigger called_so(fs, i, k, name), called_so(fs, i2, k2, name)]
            called_so(fs, i, k, name) && earlier(i, k, fi, n as int) && called_so(fs, i2, k2, name)
                && earlier(i2, k2, fi, n as int) && (i, k) != (i2, k2) {
            let (i, k, i2, k2) = choose|i: int, k: int, i2: int, k2: int|
                #![trigger called_so(fs, i, k, name), called_so(fs, i2, k2, name)]
                called_so(fs, i, k, name) && earlier(i, k, fi, n as int) && called_so(
                    fs,
                    i2,
                    k2,
                    name,
                ) && earlier(i2, k2, fi, n as int) && (i, k) != (i2, k2);
            if i == fi && k == n - 1 {
                assert(earlier(i2, k2, fi, p as int));
            } else if i2 == fi && k2 == n - 1 {
                assert(earlier(i, k, fi, p as int));
            } else {
                assert(earlier(i, k, fi, p as int) && earlier(i2, k2, fi, p as int));
            }
        }
    } else if fi > 0 {
        let c = stored(fs[fi - 1]);
        names_so_far(fs, name, fi - 1, c);
        assert forall|i: int, k: int| #[trigger] called_so(fs, i, k, name) implies (earlier(
            i,
            k,
            fi,
            0,
        ) <==> earlier(i, k, fi - 1, c as int)) by {}
    }
}

proof fn supertypes_so_far(
    fs: Seq<ParsedFileView>,
    e: (Seq<char>, Seq<Seq<char>>),
    fi: int,
    n: nat,
)
    requires
        0 <= fi < fs.len(),
        n <= stored(fs[fi]),
    ensures
        building(fs, fi, n).supertypes.contains(e) <==> exists|i: int, k: int| #[trigger]
            inherits_so(fs, i, k, e) && earlier(i, k, fi, n as int),
        building(fs, fi, n).index.implementors == Map::<Seq<char>, Seq<Seq<char>>>::empty(),
    decreases fi, n,
{
    building_steps(fs, fi, n);
    if n > 0 {
        let p = (n - 1) as nat;
        supertypes_so_far(fs, e, fi, p);
        let s0 = building(fs, fi, p);
        let sym = fs[fi].file.symbols[n - 1];
        assert(earlier(fi, n - 1, fi, n as int));
        assert forall|i: int, k: int| earlier(i, k, fi, n as int) && !(i == fi && k == n - 1)
            implies #[trigger] earlier(i, k, fi, p as int) by {}
        if sym.fqn is Some && type_at(fs, fi, n - 1) && sym.supertypes.len() > 0 {
            push_members(s0.supertypes, (sym.fqn->0, sym.supertypes), e);
            assert(e == (sym.fqn->0, sym.supertypes) <==> inherits_so(fs, fi, n - 1, e));
        } else {
            assert(!inherits_so(fs, fi, n - 1, e));
        }
        if s0.supertypes.contains(e) {
            let (i, k) = choose|i: int, k: int| #[trigger]
                inherits_so(fs, i, k, e) && earlier(i, k, fi, p as int);
            assert(earlier(i, k, fi, n as int));
        }
        if exists|i: int, k: int| #[trigger]
            inherits_so(fs, i, k, e) && earlier(i, k, fi, n as int) {
            let (i, k) = choose|i: int, k: int| #[trigger]
                inherits_so(fs, i, k, e) && earlier(i, k, fi, n as int);
            if !(i == fi && k == n - 1) {
                assert(earlier(i, k, fi, p as int));
            }
        }
    } else if fi > 0 {
        let c = stored(fs[fi - 1]);
        supertypes_so_far(fs, e, fi - 1, c);
        assert forall|i: int, k: int| #[trigger] inherits_so(fs, i, k, e) implies (earlier(
            i,
            k,
            fi,
            0,
        ) <==> earlier(i, k, fi - 1, c as int)) by {}
    }
}

/// The types and the methods of the index are those that the files declare, with their rows,
/// files and comments.
pub proof fn the_index_holds_what_is_declared(
    fs: Seq<ParsedFileView>,
    q: Seq<char>,
    ty: Seq<char>,
    m: Seq<char>,
    id: i64,
)
    requires
        !m.contains('#'),
    ensures
        index_of(fs).types.dom().contains(q) <==> exists|i: int, k: int| #[trigger]
            type_at(fs, i, k) && fs[i].file.symbols[k].fqn == Some(q),
        index_of(fs).types.dom().contains(q) ==> exists|i: int, k: int| #[trigger]
            type_at(fs, i, k) && fs[i].file.symbols[k].fqn == Some(q) && index_of(fs).types[q]
                == fs[i].ids[k] && index_of(fs).type_files[q] == fs[i].rel,
        index_of(fs).type_docs.dom().contains(q) <==> exists|i: int, k: int| #[trigger]
            type_at(fs, i, k) && fs[i].file.symbols[k].fqn == Some(q)
                && fs[i].file.symbols[k].doc is Some,
        index_of(fs).type_docs.dom().contains(q) ==> exists|i: int, k: int| #[trigger]
            type_at(fs, i, k) && fs[i].file.symbols[k].fqn == Some(q)
                && fs[i].file.symbols[k].doc == Some(index_of(fs).type_docs[q]),
        methods_on(index_of(fs), ty).contains((m, id)) <==> exists|i: int, k: int| #[trigger]
            method_at(fs, i, k) && fs[i].file.symbols[k].fqn == Some(ty + "#"@ + m)
                && fs[i].ids[k] == id,
        index_of(fs).methods.dom().contains(ty + "#"@ + m) <==> exists|i: int, k: int| #[trigger]
            method_at(fs, i, k) && fs[i].file.symbols[k].fqn == Some(ty + "#"@ + m),
        index_of(fs).methods.dom().contains(ty + "#"@ + m) ==> exists|i: int, k: int| #[trigger]
            method_at(fs, i, k) && fs[i].file.symbols[k].fqn == Some(ty + "#"@ + m) && index_of(
                fs,
            ).methods[ty + "#"@ + m] == fs[i].ids[k],
{
    let x = index_of(fs);
    let mq = ty + "#"@ + m;
    if fs.len() > 0 {
        let fi = fs.len() - 1;
        let n = stored(fs[fi]);
        building_steps(fs, fi, n);
        types_so_far(fs, q, fi, n);
        methods_so_far(fs, ty, m, id, fi, n);
        assert forall|i: int, k: int| #[trigger] type_at(fs, i, k) implies earlier(
            i,
            k,
            fi,
            n as int,
        ) by {}
        assert forall|i: int, k: int| #[trigger] method_at(fs, i, k) implies earlier(
            i,
            k,
            fi,
            n as int,
        ) by {}
        assert forall|i: int, k: int| #[trigger] type_at(fs, i, k) && fs[i].file.symbols[k].fqn
            == Some(q) implies typed_so(fs, i, k, q) by {}
        assert forall|i: int, k: int| #[trigger] type_at(fs, i, k) && fs[i].file.symbols[k].fqn
            == Some(q) && fs[i].file.symbols[k].doc is Some implies documented_so(fs, i, k, q) by {}
        assert forall|i: int, k: int| #[trigger] method_at(fs, i, k) && fs[i].file.symbols[k].fqn
            == Some(mq) implies method_so(fs, i, k, mq) by {}
    } else {
        assert forall|i: int, k: int| !#[trigger] type_at(fs, i, k) by {}
        assert forall|i: int, k: int| !#[trigger] method_at(fs, i, k) by {}
    }
}

/// A simple name stands for a type exactly where one type alone has it, and then for that
/// type.
pub proof fn simple_names_are_unique(fs: Seq<ParsedFileView>, name: Seq<char>, i: int, k: int)
    ensures
        type_at(fs, i, k) && fs[i].file.symbols[k].name == name && (forall|i2: int, k2: int|
            #[trigger] type_at(fs, i2, k2) && fs[i2].file.symbols[k2].name == name ==> (i2, k2) == (
                i,
                k,
            )) ==> index_of(fs).simple_names.dom().contains(name) && Some(
            index_of(fs).simple_names[name],
        ) == fs[i].file.symbols[k].fqn,
        index_of(fs).simple_names.dom().contains(name) ==> exists|i2: int, k2: int| #[trigger]
            type_at(fs, i2, k2) && fs[i2].file.symbols[k2].name == name,
        forall|i2: int, k2: int|
            type_at(fs, i, k) && fs[i].file.symbols[k].name == name && #[trigger] type_at(
                fs,
                i2,
                k2,
            ) && fs[i2].file.symbols[k2].name == name && (i2, k2) != (i, k) ==> !index_of(
                fs,
            ).simple_names.dom().contains(name),
{
    let s = with_files(fs);
    without_is_exact(s.index.simple_names, s.ambiguous, name);
    if fs.len() > 0 {
        let fi = fs.len() - 1;
        let n = stored(fs[fi]);
        building_steps(fs, fi, n);
        names_so_far(fs, name, fi, n);
        assert forall|i: int, k: int| #[trigger] type_at(fs, i, k) implies earlier(
            i,
            k,
            fi,
            n as int,
        ) by {}
        assert forall|i: int, k: int| #[trigger] type_at(fs, i, k) && fs[i].file.symbols[k].name
            == name implies called_so(fs, i, k, name) by {}
    } else {
        assert forall|i: int, k: int| !#[trigger] type_at(fs, i, k) by {}
    }
}

proof fn without_is_exact(
    m: Map<Seq<char>, Seq<char>>,
    names: Seq<Seq<char>>,
    k: Seq<char>,
)
    ensures
        without(m, names).dom().contains(k) <==> m.dom().contains(k) && !names.contains(k),
        without(m, names).dom().contains(k) ==> without(m, names)[k] == m[k],
    decreases names.len(),
{
    if names.len() > 0 {
        let rest = names.drop_last();
        without_is_exact(m, rest, k);
        push_members(rest, names.last(), k);
        assert(names =~= rest.push(names.last()));
    }
}

/// What a supertype's name stands for: the type with that simple name, else the type with
/// that qualified name.
pub proof fn supertypes_are_named(x: JavaIndexView, name: Seq<char>)
    ensures
        x.simple_names.dom().contains(name) ==> super_target(x, name) == Some(x.simple_names[name]),
        !x.simple_names.dom().contains(name) && x.types.dom().contains(name) ==> super_target(
            x,
            name,
        ) == Some(name),
        !x.simple_names.dom().contains(name) && !x.types.dom().contains(name) ==> super_target(
            x,
            name,
        ) is None,
{
}

/// Whether the type at `k` of file `i` is the one and its supertype at `j` stands for `t`.
pub open spec fn implements_at(
    fs: Seq<ParsedFileView>,
    i: int,
    k: int,
    j: int,
    t: Seq<char>,
    fqn: Seq<char>,
) -> bool {
    &&& type_at(fs, i, k)
    &&& fs[i].file.symbols[k].fqn == Some(fqn)
    &&& 0 <= j < fs[i].file.symbols[k].supertypes.len()
    &&& super_target(index_of(fs), fs[i].file.symbols[k].supertypes[j]) == Some(t)
}

/// A type implements those that its supertypes name, and no other.
pub proof fn implementors_are_declared(fs: Seq<ParsedFileView>, t: Seq<char>, fqn: Seq<char>)
    ensures
        listed(index_of(fs).implementors, t).contains(fqn) <==> exists|i: int, k: int, j: int|
            #[trigger] implements_at(fs, i, k, j, t, fqn),
{
    let s = with_files(fs);
    let x = JavaIndexView { simple_names: without(s.index.simple_names, s.ambiguous), ..s.index };
    let y = index_of(fs);
    assert forall|name: Seq<char>| #[trigger] super_target(x, name) == super_target(y, name) by {}
    implementors_members(x, s.supertypes, t, fqn);
    if fs.len() > 0 {
        let fi = fs.len() - 1;
        let n = stored(fs[fi]);
        building_steps(fs, fi, n);
        if listed(y.implementors, t).contains(fqn) {
            let (e, j) = choose|e: int, j: int| #[trigger] adds_at(x, s.supertypes, e, j, t, fqn);
            assert(s.supertypes.contains(s.supertypes[e]));
            supertypes_so_far(fs, s.supertypes[e], fi, n);
            let (i, k) = choose|i: int, k: int| #[trigger]
                inherits_so(fs, i, k, s.supertypes[e]) && earlier(i, k, fi, n as int);
            assert(implements_at(fs, i, k, j, t, fqn));
        }
        if exists|i: int, k: int, j: int| #[trigger] implements_at(fs, i, k, j, t, fqn) {
            let (i, k, j) = choose|i: int, k: int, j: int| #[trigger]
                implements_at(fs, i, k, j, t, fqn);
            let entry = (fqn, fs[i].file.symbols[k].supertypes);
            assert(inherits_so(fs, i, k, entry) && earlier(i, k, fi, n as int));
            supertypes_so_far(fs, entry, fi, n);
            let e = choose|e: int| 0 <= e < s.supertypes.len() && s.supertypes[e] == entry;
            assert(adds_at(x, s.supertypes, e, j, t, fqn));
        }
    } else {
        assert(s.supertypes.len() == 0);
        if exists|i: int, k: int, j: int| #[trigger] implements_at(fs, i, k, j, t, fqn) {
            let (i, k, j) = choose|i: int, k: int, j: int| #[trigger]
                implements_at(fs, i, k, j, t, fqn);
            assert(type_at(fs, i, k));
        }
        if listed(y.implementors, t).contains(fqn) {
            let (e, j) = choose|e: int, j: int| #[trigger] adds_at(x, s.supertypes, e, j, t, fqn);
            assert(adds_at(x, s.supertypes, e, j, t, fqn));
        }
    }
}

spec fn adds_at(
    x: JavaIndexView,
    raw: Seq<(Seq<char>, Seq<Seq<char>>)>,
    e: int,
    j: int,
    t: Seq<char>,
    fqn: Seq<char>,
) -> bool {
    &&& 0 <= e < raw.len()
    &&& raw[e].0 == fqn
    &&& 0 <= j < raw[e].1.len()
    &&& super_target(x, raw[e].1[j]) == Some(t)
}

proof fn implementors_members(
    x: JavaIndexView,
    raw: Seq<(Seq<char>, Seq<Seq<char>>)>,
    t: Seq<char>,
    fqn: Seq<char>,
)
    ensures
        listed(implementors_of(x, raw), t).contains(fqn) <==> exists|e: int, j: int| #[trigger]
            adds_at(x, raw, e, j, t, fqn),
    decreases raw.len(),
{
    if raw.len() > 0 {
        let rest = raw.drop_last();
        let n = raw.len() - 1;
        implementors_members(x, rest, t, fqn);
        supers_members(x, implementors_of(x, rest), raw.last().0, raw.last().1, t, fqn);
        assert(raw[n] == raw.last());
        if listed(implementors_of(x, rest), t).contains(fqn) {
            let (e, j) = choose|e: int, j: int| #[trigger] adds_at(x, rest, e, j, t, fqn);
            assert(rest[e] == raw[e]);
            assert(adds_at(x, raw, e, j, t, fqn));
        }
        if raw.last().0 == fqn && exists|j: int|
            0 <= j < raw.last().1.len() && super_target(x, #[trigger] raw.last().1[j]) == Some(t) {
            let j = choose|j: int|
                0 <= j < raw.last().1.len() && super_target(x, #[trigger] raw.last().1[j]) == Some(
                    t,
                );
            assert(adds_at(x, raw, n, j, t, fqn));
        }
        if exists|e: int, j: int| #[trigger] adds_at(x, raw, e, j, t, fqn) {
            let (e, j) = choose|e: int, j: int| #[trigger] adds_at(x, raw, e, j, t, fqn);
            if e < n {
                assert(rest[e] == raw[e]);
                assert(adds_at(x, rest, e, j, t, fqn));
            } else {
                assert(super_target(x, raw.last().1[j]) == Some(t));
            }
        }
    } else {
        assert forall|e: int, j: int| !#[trigger] adds_at(x, raw, e, j, t, fqn) by {}
    }
}

proof fn supers_members(
    x: JavaIndexView,
    m: Map<Seq<char>, Seq<Seq<char>>>,
    own: Seq<char>,
    supers: Seq<Seq<char>>,
    t: Seq<char>,
    fqn: Seq<char>,
)
    ensures
        listed(with_supers(x, m, own, supers), t).contains(fqn) <==> listed(m, t).contains(fqn) || (
        own == fqn && exists|j: int|
            0 <= j < supers.len() && super_target(x, #[trigger] supers[j]) == Some(t)),
    decreases supers.len(),
{
    if supers.len() > 0 {
        let rest = supers.drop_last();
        let n = supers.len() - 1;
        supers_members(x, m, own, rest, t, fqn);
        let before = with_supers(x, m, own, rest);
        push_members(listed(before, t), own, fqn);
        assert(supers[n] == supers.last());
        assert forall|j: int| 0 <= j < n implies #[trigger] rest[j] == supers[j] by {}
        if exists|j: int| 0 <= j < rest.len() && super_target(x, #[trigger] rest[j]) == Some(t) {
            let j = choose|j: int|
                0 <= j < rest.len() && super_target(x, #[trigger] rest[j]) == Some(t);
            assert(super_target(x, supers[j]) == Some(t));
        }
        if exists|j: int| 0 <= j < supers.len() && super_target(x, #[trigger] supers[j]) == Some(t) {
            let j = choose|j: int|
                0 <= j < supers.len() && super_target(x, #[trigger] supers[j]) == Some(t);
            if j < n {
                assert(super_target(x, rest[j]) == Some(t));
            }
        }
    }
}

} // verus!
