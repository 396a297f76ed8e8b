//! What a build stores: entrypoints, columns, accesses and modules.
use crate::build::entry::{dubbo_row, http_row, id_at, java_rows, job_row, mq_row, EntryConfigView};
use crate::build::java_pass::{JavaIndexView, ParsedFileView};
use crate::build::xml_pass::{
    access_rows, declared_type, docs_of, entity_column, mapped_column, statement_rows, value_table,
    AccessRowView, FieldDocView, FieldRowView,
};
use crate::build::{best_module, contains_file, dir_of_pom, ids_of, line_feeds, module_depth};
use crate::extract::dubbo_xml::DubboServiceView;
use crate::extract::entrypoint::{jobs_of, routes_of, HttpRouteView};
use crate::extract::mybatis::{MapperFileView, ResultMappingView, StatementView};
use crate::extract::properties::resolved;
use crate::laws::basics::{
    cuts_are_at_the_ends, ends_of_texts, first_word, flat_members, push_members, trimmed_is_core,
};
use crate::laws::history::is_tight;
use crate::text::{count_of, has_prefix, is_white, lowered, only};
use crate::util::snake;
use vstd::prelude::*;

verus! {

/// A route is an entrypoint under its method and path, at the row of its symbol.
pub proof fn routes_are_entrypoints(f: ParsedFileView, file_id: i64, r: HttpRouteView)
    requires
        r.symbol < f.file.symbols.len(),
        r.symbol < f.ids.len(),
    ensures
        ({
            let e = http_row(f, file_id, r);
            let s = f.file.symbols[r.symbol as int];
            &&& e.kind is Http
            &&& s.fqn is Some ==> e.name == s.fqn->0
            &&& s.fqn is None ==> e.name == s.name
            &&& e.addr == r.method + " "@ + r.path
            &&& e.symbol_id == Some(f.ids[r.symbol as int])
            &&& e.file_id == Some(file_id)
            &&& e.config == (EntryConfigView::Http { guards: r.guards, method: r.method })
            &&& e.doc == s.doc
        }),
{
}

/// A job is an entrypoint under its name.
pub proof fn jobs_are_entrypoints(f: ParsedFileView, file_id: i64, j: (usize, Seq<char>))
    requires
        j.0 < f.file.symbols.len(),
        j.0 < f.ids.len(),
    ensures
        ({
            let e = job_row(f, file_id, j);
            let s = f.file.symbols[j.0 as int];
            &&& e.kind is Job
            &&& s.fqn is Some ==> e.name == s.fqn->0
            &&& s.fqn is None ==> e.name == s.name
            &&& e.addr == j.1
            &&& e.symbol_id == Some(f.ids[j.0 as int])
            &&& e.file_id == Some(file_id)
            &&& e.config is Job
            &&& e.doc == s.doc
        }),
{
}

/// A symbol that was not stored has no row.
pub proof fn unstored_symbols_have_no_row(ids: Seq<i64>, i: usize)
    ensures
        id_at(ids, i) is Some <==> i < ids.len(),
        i < ids.len() ==> id_at(ids, i) == Some(ids[i as int]),
{
}

/// The entrypoints of a file are its routes and its jobs, each once.
pub proof fn files_have_their_entrypoints(f: ParsedFileView, file_id: i64, i: int)
    ensures
        ({
            let syms = f.file.symbols;
            let rs = routes_of(syms, syms.len());
            let js = jobs_of(syms, syms.len());
            let all = java_rows(f, file_id);
            &&& all.len() == rs.len() + js.len()
            &&& 0 <= i < rs.len() ==> all[i] == http_row(f, file_id, rs[i])
            &&& rs.len() <= i < all.len() ==> all[i] == job_row(f, file_id, js[i - rs.len()])
        }),
{
}

/// A service is an entrypoint under its interface's simple name. The comment of its
/// declaration is preferred to that of the interface.
pub proof fn services_are_entrypoints(
    s: DubboServiceView,
    java: JavaIndexView,
    file_id: Option<i64>,
    pkg: Seq<char>,
    simple: Seq<char>,
)
    requires
        s.interface == pkg + "."@ + simple,
        !simple.contains('.'),
    ensures
        ({
            let e = dubbo_row(s, java, file_id);
            &&& e.kind is Dubbo
            &&& e.name == s.interface && e.addr == simple && e.file_id == file_id
            &&& java.types.dom().contains(s.interface) ==> e.symbol_id == Some(
                java.types[s.interface],
            )
            &&& !java.types.dom().contains(s.interface) ==> e.symbol_id is None
            &&& e.config == (EntryConfigView::Dubbo {
                reference: s.reference,
                timeout: s.timeout,
                retries: s.retries,
                version: s.version,
                group: s.group,
            })
            &&& s.doc is Some ==> e.doc == s.doc
            &&& s.doc is None && java.type_docs.dom().contains(s.interface) ==> e.doc == Some(
                java.type_docs[s.interface],
            )
            &&& s.doc is None && !java.type_docs.dom().contains(s.interface) ==> e.doc is None
        }),
{
    reveal_strlit(".");
    assert(s.interface =~= pkg.push('.') + simple);
    cuts_are_at_the_ends(pkg, simple, '.');
}

/// A binding is an entrypoint under its topic, with the placeholders resolved, in the file of
/// the listener, else in the one that wires it.
pub proof fn bindings_are_entrypoints(
    class: Seq<char>,
    expr: Seq<char>,
    java: JavaIndexView,
    props: Map<Seq<char>, Seq<char>>,
    file_ids: Map<Seq<char>, i64>,
    wiring: Seq<char>,
)
    ensures
        ({
            let e = mq_row((class, expr), java, props, file_ids, wiring);
            let topic = resolved(expr, props, 8);
            let own = java.type_files.dom().contains(class) && file_ids.dom().contains(
                java.type_files[class],
            );
            &&& e.kind is Mq && e.name == class && e.addr == topic
            &&& java.types.dom().contains(class) ==> e.symbol_id == Some(java.types[class])
            &&& !java.types.dom().contains(class) ==> e.symbol_id is None
            &&& own ==> e.file_id == Some(file_ids[java.type_files[class]])
            &&& !own && file_ids.dom().contains(wiring) ==> e.file_id == Some(file_ids[wiring])
            &&& !own && !file_ids.dom().contains(wiring) ==> e.file_id is None
            &&& e.config == (EntryConfigView::Mq {
                topic_expr: expr,
                resolved: topic != expr,
                wiring,
            })
            &&& java.type_docs.dom().contains(class) ==> e.doc == Some(java.type_docs[class])
            &&& !java.type_docs.dom().contains(class) ==> e.doc is None
        }),
{
}

// ---------------------------------------------------------------------------
// Columns

/// A field's documentation is that of the last row with its name; the version id of a
/// serializable class is no field.
pub proof fn fields_are_documented(rows: Seq<FieldRowView>, i: int, n: Seq<char>)
    ensures
        0 <= i < rows.len() && rows[i].name == n && n != "serialVersionUID"@ && (forall|j: int|
            i < j < rows.len() ==> (#[trigger] rows[j]).name != n) ==> docs_of(rows).dom().contains(
            n,
        ) && docs_of(rows)[n] == (FieldDocView {
            java_type: declared_type(rows[i].signature),
            doc: rows[i].doc,
        }),
        (forall|j: int| 0 <= j < rows.len() ==> (#[trigger] rows[j]).name != n) ==> !docs_of(
            rows,
        ).dom().contains(n),
        !docs_of(rows).dom().contains("serialVersionUID"@),
    decreases rows.len(),
{
    if rows.len() > 0 {
        let rest = rows.drop_last();
        fields_are_documented(rest, i, n);
        assert(rows[rows.len() - 1] == rows.last());
        assert forall|j: int| 0 <= j < rest.len() implies #[trigger] rest[j] == rows[j] by {}
    }
}

/// The declared type is the first word of a signature.
pub proof fn first_words_are_types(ty: Seq<char>, rest: Seq<char>)
    requires
        ty.len() > 0,
        forall|i: int| 0 <= i < ty.len() ==> !is_white(#[trigger] ty[i]),
    ensures
        declared_type(Some(ty + " "@ + rest)) == ty,
        declared_type(None).len() == 0,
{
    reveal_strlit(" ");
    assert(ty + " "@ + rest =~= ty.push(' ') + rest);
    first_word(ty, ' ', rest);
}

/// A mapped column takes its type and its description from the property's field.
pub proof fn columns_are_described_by_fields(
    m: ResultMappingView,
    docs: Map<Seq<char>, FieldDocView>,
    e: (Seq<char>, FieldDocView),
)
    ensures
        mapped_column(m, docs).name == m.column,
        mapped_column(m, docs).prop_name == m.property,
        mapped_column(m, docs).is_pk == m.is_pk,
        docs.dom().contains(m.property) ==> mapped_column(m, docs).java_type == Some(
            docs[m.property].java_type,
        ) && mapped_column(m, docs).doc == docs[m.property].doc,
        !docs.dom().contains(m.property) ==> mapped_column(m, docs).java_type is None
            && mapped_column(m, docs).doc is None,
        entity_column(e).name == snake(e.0),
        entity_column(e).prop_name == e.0,
        entity_column(e).java_type == Some(e.1.java_type),
        entity_column(e).doc == e.1.doc,
        !entity_column(e).is_pk,
{
}

/// An annotation's value names a table, in lower case and without white space around it.
pub proof fn annotations_name_tables(args: Map<Seq<char>, Seq<char>>, core: Seq<char>)
    requires
        is_tight(core),
    ensures
        args.dom().contains("value"@) && args["value"@] == core && core.len() > 0 ==> value_table(
            args,
        ) == Some(lowered(core)),
        args.dom().contains("value"@) && args["value"@] == core && core.len() == 0 ==> value_table(
            args,
        ) is None,
        !args.dom().contains("value"@) ==> value_table(args) is None,
{
    let e = Seq::<char>::empty();
    trimmed_is_core(e, core, e);
    assert(e + core + e =~= core);
}

/// A statement is the method of its namespace with its id. Every table of every statement
/// is an access of that method, and there is no other.
pub proof fn statements_access_their_tables(
    m: MapperFileView,
    methods: Map<Seq<char>, i64>,
    row: AccessRowView,
)
    ensures
        access_rows(m, methods).contains(row) <==> exists|i: int|
            0 <= i < m.statements.len() && is_access(m, #[trigger] m.statements[i], methods, row),
{
    let f = |s: StatementView| statement_rows(m.namespace, s, methods);
    flat_members(m.statements, f, row);
    assert forall|s: StatementView| #[trigger] statement_rows(m.namespace, s, methods).contains(row)
        <==> is_access(m, s, methods, row) by {
        let rs = statement_rows(m.namespace, s, methods);
        if rs.contains(row) {
            let k = choose|k: int| 0 <= k < rs.len() && rs[k] == row;
            assert(s.tables[k] == (row.table, row.op));
        }
        if is_access(m, s, methods, row) {
            let k = choose|k: int| 0 <= k < s.tables.len() && s.tables[k] == (row.table, row.op);
            assert(rs[k] == row);
        }
    }
    if access_rows(m, methods).contains(row) {
        let i = choose|i: int| 0 <= i < m.statements.len() && f(#[trigger] m.statements[i]).contains(row);
        assert(statement_rows(m.namespace, m.statements[i], methods).contains(row));
    }
    if exists|i: int|
        0 <= i < m.statements.len() && is_access(m, #[trigger] m.statements[i], methods, row) {
        let i = choose|i: int|
            0 <= i < m.statements.len() && is_access(m, #[trigger] m.statements[i], methods, row);
        assert(statement_rows(m.namespace, m.statements[i], methods).contains(row));
        assert(f(m.statements[i]).contains(row));
    }
}

/// Whether the row is an access of the statement to one of its tables.
pub open spec fn is_access(
    m: MapperFileView,
    s: StatementView,
    methods: Map<Seq<char>, i64>,
    row: AccessRowView,
) -> bool {
    &&& s.tables.contains((row.table, row.op))
    &&& m.namespace is Some && methods.dom().contains(m.namespace->0 + "#"@ + s.id)
        ==> row.symbol_id == Some(methods[m.namespace->0 + "#"@ + s.id])
    &&& m.namespace is None || !methods.dom().contains(m.namespace->0 + "#"@ + s.id)
        ==> row.symbol_id is None
}

// ---------------------------------------------------------------------------
// Modules and files

/// A module is the directory of its project file; that of the root is the root.
pub proof fn modules_are_directories(dir: Seq<char>)
    requires
        dir.len() > 0 && dir.last() != '/',
    ensures
        dir_of_pom(dir + "/pom.xml"@) == dir,
        dir_of_pom("pom.xml"@) == "."@,
{
    reveal_strlit("/pom.xml");
    reveal_strlit("pom.xml");
    let e = Seq::<char>::empty();
    assert(dir + "/pom.xml"@ =~= dir.push('/') + "pom.xml"@);
    ends_of_texts("pom.xml"@, dir.push('/'));
    ends_of_texts("pom.xml"@, e);
    assert(e + "pom.xml"@ =~= "pom.xml"@);
    assert(dir.push('/') =~= dir + seq!['/']);
    crate::laws::basics::drop_all(dir, seq!['/'], only('/'));
    assert(crate::text::drop_while(dir, only('/')) == dir);
}

/// A module holds the files below its directory, the root all; it is as deep as its path has
/// parts.
pub proof fn modules_hold_the_files_below(dir: Seq<char>, rest: Seq<char>, rel: Seq<char>)
    ensures
        contains_file("."@, rel),
        contains_file(dir, dir + "/"@ + rest),
        dir != "."@ && !has_prefix(rel, dir + "/"@) ==> !contains_file(dir, rel),
        module_depth("."@) == 0,
        dir != "."@ ==> module_depth(dir) == dir.filter(slash()).len() + 1,
{
    ends_of_texts(dir + "/"@, rest);
    count_is_filter(dir, '/');
}

pub open spec fn slash() -> spec_fn(char) -> bool {
    |c: char| c == '/'
}

proof fn count_is_filter(s: Seq<char>, c: char)
    requires
        c == '/',
    ensures
        count_of(s, c) == s.filter(slash()).len(),
    decreases s.len(),
{
    reveal(Seq::filter);
    if s.len() > 0 {
        count_is_filter(s.drop_last(), c);
    }
}

/// The module of a file is the deepest that holds it; of equally deep ones the first listed.
pub proof fn deepest_modules_own_files(l: Seq<(Seq<char>, i64)>, rel: Seq<char>, i: int)
    ensures
        0 <= i < l.len() && contains_file(l[i].0, rel) && (forall|j: int|
            0 <= j < l.len() && contains_file((#[trigger] l[j]).0, rel) ==> module_depth(l[j].0)
                < module_depth(l[i].0) || (module_depth(l[j].0) == module_depth(l[i].0) && i <= j))
            ==> best_module(l, rel) == Some((module_depth(l[i].0), l[i].1)),
        (forall|j: int| 0 <= j < l.len() ==> !contains_file((#[trigger] l[j]).0, rel))
            ==> best_module(l, rel) is None,
        best_module(l, rel) matches Some(b) ==> exists|j: int|
            0 <= j < l.len() && contains_file((#[trigger] l[j]).0, rel) && b == (
                module_depth(l[j].0),
                l[j].1,
            ),
    decreases l.len(),
{
    if l.len() > 0 {
        let rest = l.drop_last();
        deepest_modules_own_files(rest, rel, i);
        let last = l.last();
        assert(l[l.len() - 1] == last);
        assert forall|j: int| 0 <= j < rest.len() implies #[trigger] rest[j] == l[j] by {}
        let before = best_module(rest, rel);
        if before is Some {
            let j = choose|j: int|
                0 <= j < rest.len() && contains_file((#[trigger] rest[j]).0, rel) && before->0 == (
                    module_depth(rest[j].0),
                    rest[j].1,
                );
            assert(l[j] == rest[j]);
        }
        if 0 <= i < l.len() && contains_file(l[i].0, rel) && (forall|j: int|
            0 <= j < l.len() && contains_file((#[trigger] l[j]).0, rel) ==> module_depth(l[j].0)
                < module_depth(l[i].0) || (module_depth(l[j].0) == module_depth(l[i].0) && i <= j)) {
            if i < rest.len() {
                assert forall|j: int| 0 <= j < rest.len() && contains_file(
                    (#[trigger] rest[j]).0,
                    rel,
                ) implies module_depth(rest[j].0) < module_depth(rest[i].0) || (module_depth(
                    rest[j].0,
                ) == module_depth(rest[i].0) && i <= j) by {
                    assert(l[j] == rest[j]);
                }
                assert(contains_file(last.0, rel) ==> module_depth(last.0) <= module_depth(l[i].0));
            }
        }
        if forall|j: int| 0 <= j < l.len() ==> !contains_file((#[trigger] l[j]).0, rel) {
            assert forall|j: int| 0 <= j < rest.len() implies !contains_file(
                (#[trigger] rest[j]).0,
                rel,
            ) by {
                assert(!contains_file(l[j].0, rel));
            }
        }
    }
}

pub open spec fn is_line_feed() -> spec_fn(u8) -> bool {
    |b: u8| b == 10
}

/// Lines are counted by their line feeds.
pub proof fn line_feeds_are_counted(bytes: Seq<u8>)
    ensures
        line_feeds(bytes) == bytes.filter(is_line_feed()).len(),
    decreases bytes.len(),
{
    reveal(Seq::filter);
    if bytes.len() > 0 {
        line_feeds_are_counted(bytes.drop_last());
    }
}

/// The files of a commit that are still there are found by their paths.
pub proof fn commits_link_stored_files(
    files: Seq<Seq<char>>,
    ids: Map<Seq<char>, i64>,
    id: i64,
)
    ensures
        ids_of(files, ids).contains(id) <==> exists|i: int|
            0 <= i < files.len() && ids.dom().contains(#[trigger] files[i]) && ids[files[i]] == id,
        ids_of(files, ids).len() <= files.len(),
    decreases files.len(),
{
    if files.len() > 0 {
        let rest = files.drop_last();
        commits_link_stored_files(rest, ids, id);
        push_members(ids_of(rest, ids), ids[files.last()], id);
        assert(files[files.len() - 1] == files.last());
        assert forall|i: int| 0 <= i < rest.len() implies #[trigger] rest[i] == files[i] by {}
        if ids_of(rest, ids).contains(id) {
            let i = choose|i: int|
                0 <= i < rest.len() && ids.dom().contains(#[trigger] rest[i]) && ids[rest[i]] == id;
            assert(files[i] == rest[i]);
        }
        if exists|i: int|
            0 <= i < files.len() && ids.dom().contains(#[trigger] files[i]) && ids[files[i]] == id {
            let i = choose|i: int|
                0 <= i < files.len() && ids.dom().contains(#[trigger] files[i]) && ids[files[i]]
                    == id;
            if i < rest.len() {
                assert(rest[i] == files[i]);
            }
        }
    }
}

} // verus!
