//! Entrypoint rows: what the probes say of each way into the system.
use crate::build::java_pass::{JavaIndex, JavaIndexView, ParsedFile, ParsedFileView};
use crate::extract::dubbo_xml::{DubboServiceView, DubboXml};
use crate::extract::entrypoint::{
    http_routes, jobs_of, routes_of, routes_point_at_handlers, xxl_job_handlers, HttpRouteView,
};
use crate::extract::properties::{resolve, resolved};
use crate::split::{after_last, tail_of};
use crate::store::model::{EntrypointKind, RawSymbolView};
use crate::text::{owned, same};
use crate::textmap::TextMap;
use vstd::prelude::*;

verus! {

/// What is known of an entrypoint besides its name and address.
#[derive(Debug)]
pub enum EntryConfig {
    Http { guards: Vec<String>, method: String },
    /// A job that an annotation declares.
    Job,
    Dubbo {
        reference: Option<String>,
        timeout: Option<String>,
        retries: Option<String>,
        version: Option<String>,
        group: Option<String>,
    },
    /// A topic, as written and whether its placeholders were resolved, and the file
    /// that wires it.
    Mq { topic_expr: String, resolved: bool, wiring: String },
}

/// The content of an [`EntryConfig`].
pub enum EntryConfigView {
    Http { guards: Seq<Seq<char>>, method: Seq<char> },
    Job,
    Dubbo {
        reference: Option<Seq<char>>,
        timeout: Option<Seq<char>>,
        retries: Option<Seq<char>>,
        version: Option<Seq<char>>,
        group: Option<Seq<char>>,
    },
    Mq { topic_expr: Seq<char>, resolved: bool, wiring: Seq<char> },
}

impl DeepView for EntryConfig {
    type V = EntryConfigView;

    open spec fn deep_view(&self) -> EntryConfigView {
        match self {
            EntryConfig::Http { guards, method } => EntryConfigView::Http {
                guards: guards.deep_view(),
                method: method@,
            },
            EntryConfig::Job => EntryConfigView::Job,
            EntryConfig::Dubbo { reference, timeout, retries, version, group } => {
                EntryConfigView::Dubbo {
                    reference: reference.deep_view(),
                    timeout: timeout.deep_view(),
                    retries: retries.deep_view(),
                    version: version.deep_view(),
                    group: group.deep_view(),
                }
            },
            EntryConfig::Mq { topic_expr, resolved, wiring } => EntryConfigView::Mq {
                topic_expr: topic_expr@,
                resolved: *resolved,
                wiring: wiring@,
            },
        }
    }
}

/// A way into the system, as it is stored.
#[derive(Debug)]
pub struct EntrypointRow {
    pub kind: EntrypointKind,
    pub name: String,
    pub addr: String,
    pub symbol_id: Option<i64>,
    pub file_id: Option<i64>,
    pub config: EntryConfig,
    pub doc: Option<String>,
}

/// The content of a [`EntrypointRow`].
#[verifier::ext_equal]
pub struct EntrypointRowView {
    pub kind: EntrypointKind,
    pub name: Seq<char>,
    pub addr: Seq<char>,
    pub symbol_id: Option<i64>,
    pub file_id: Option<i64>,
    pub config: EntryConfigView,
    pub doc: Option<Seq<char>>,
}

impl DeepView for EntrypointRow {
    type V = EntrypointRowView;

    open spec fn deep_view(&self) -> EntrypointRowView {
        EntrypointRowView {
            kind: self.kind,
            name: self.name.deep_view(),
            addr: self.addr.deep_view(),
            symbol_id: self.symbol_id.deep_view(),
            file_id: self.file_id.deep_view(),
            config: self.config.deep_view(),
            doc: self.doc.deep_view(),
        }
    }
}

/// The name of an entrypoint: the qualified name of its symbol, where it has one.
pub open spec fn entry_name(sym: RawSymbolView) -> Seq<char> {
    match sym.fqn {
        Some(f) => f,
        None => sym.name,
    }
}

/// The row of the symbol at `i`.
pub open spec fn id_at(ids: Seq<i64>, i: usize) -> Option<i64> {
    if i < ids.len() {
        Some(ids[i as int])
    } else {
        None
    }
}

pub open spec fn http_row(f: ParsedFileView, file_id: i64, r: HttpRouteView) -> EntrypointRowView {
    let sym = f.file.symbols[r.symbol as int];
    EntrypointRowView {
        kind: EntrypointKind::Http,
        name: entry_name(sym),
        addr: r.method + " "@ + r.path,
        symbol_id: id_at(f.ids, r.symbol),
        file_id: Some(file_id),
        config: EntryConfigView::Http { guards: r.guards, method: r.method },
        doc: sym.doc,
    }
}

pub open spec fn job_row(f: ParsedFileView, file_id: i64, j: (usize, Seq<char>)) -> EntrypointRowView {
    let sym = f.file.symbols[j.0 as int];
    EntrypointRowView {
        kind: EntrypointKind::Job,
        name: entry_name(sym),
        addr: j.1,
        symbol_id: id_at(f.ids, j.0),
        file_id: Some(file_id),
        config: EntryConfigView::Job,
        doc: sym.doc,
    }
}

/// The routes and then the jobs of a file.
pub open spec fn java_rows(f: ParsedFileView, file_id: i64) -> Seq<EntrypointRowView> {
    let syms = f.file.symbols;
    routes_of(syms, syms.len()).map_values(|r: HttpRouteView| http_row(f, file_id, r)) + jobs_of(
        syms,
        syms.len(),
    ).map_values(|j: (usize, Seq<char>)| job_row(f, file_id, j))
}

proof fn jobs_within(syms: Seq<RawSymbolView>, n: nat)
    requires
        n <= syms.len() <= usize::MAX,
    ensures
        forall|i: int|
            0 <= i < jobs_of(syms, n).len() ==> (#[trigger] jobs_of(syms, n)[i]).0 < syms.len(),
    decreases n,
{
    if n > 0 {
        jobs_within(syms, (n - 1) as nat);
        let before = jobs_of(syms, (n - 1) as nat);
        let own = crate::extract::entrypoint::jobs_at(
            (n - 1) as usize,
            syms[n - 1].name,
            syms[n - 1].annotations,
        );
        jobs_at_own((n - 1) as usize, syms[n - 1].name, syms[n - 1].annotations);
        assert forall|i: int| 0 <= i < jobs_of(syms, n).len() implies (#[trigger] jobs_of(
            syms,
            n,
        )[i]).0 < syms.len() by {
            if i < before.len() {
                assert(jobs_of(syms, n)[i] == before[i]);
            } else {
                assert(jobs_of(syms, n)[i] == own[i - before.len()]);
            }
        }
    }
}

proof fn jobs_at_own(
    idx: usize,
    name: Seq<char>,
    annotations: Seq<crate::store::model::AnnotationView>,
)
    ensures
        forall|i: int|
            0 <= i < crate::extract::entrypoint::jobs_at(idx, name, annotations).len() ==> (
            #[trigger] crate::extract::entrypoint::jobs_at(idx, name, annotations)[i]).0 == idx,
    decreases annotations.len(),
{
    if annotations.len() > 0 {
        jobs_at_own(idx, name, annotations.drop_last());
        let before = crate::extract::entrypoint::jobs_at(idx, name, annotations.drop_last());
        let all = crate::extract::entrypoint::jobs_at(idx, name, annotations);
        assert forall|i: int| 0 <= i < all.len() implies (#[trigger] all[i]).0 == idx by {
            if i < before.len() {
                assert(all[i] == before[i]);
            }
        }
    }
}

fn find_id(ids: &Vec<i64>, i: usize) -> (r: Option<i64>)
    ensures
        r == id_at(ids@, i),
{
    if i < ids.len() {
        Some(ids[i])
    } else {
        None
    }
}

/// The HTTP routes and annotated jobs of a file, as they are stored.
pub fn index_http_routes(f: &ParsedFile, file_id: i64) -> (r: Vec<EntrypointRow>)
    ensures
        r.deep_view() == java_rows(f.deep_view(), file_id),
{
    let ghost v = f.deep_view();
    let ghost syms = v.file.symbols;
    let routes = http_routes(&f.file);
    let ghost rs = routes.deep_view();
    let ghost want = rs.map_values(|r: HttpRouteView| http_row(v, file_id, r));
    let mut out: Vec<EntrypointRow> = Vec::new();
    let mut i: usize = 0;
    assert(out.deep_view() =~= want.take(0));
    assert(v.ids =~= f.ids@);
    let total: usize = f.file.symbols.len();
    assert(syms.len() == total);
    while i < routes.len()
        invariant
            i <= routes.len(),
            v == f.deep_view(),
            v.ids == f.ids@,
            syms == v.file.symbols,
            syms.len() == total,
            rs == routes.deep_view(),
            rs == routes_of(syms, syms.len()),
            want == rs.map_values(|r: HttpRouteView| http_row(v, file_id, r)),
            out.deep_view() == want.take(i as int),
        decreases routes.len() - i,
    {
        let r = &routes[i];
        let ghost before = out.deep_view();
        proof {
            assert(rs[i as int] == r.deep_view());
            assert(rs.contains(rs[i as int]));
            routes_point_at_handlers(syms, syms.len(), rs[i as int]);
        }
        let sym = &f.file.symbols[r.symbol];
        assert(syms[r.symbol as int] == sym.deep_view());
        let mut addr = r.method.clone();
        addr.append(" ");
        addr.append(r.path.as_str());
        let row = EntrypointRow {
            kind: EntrypointKind::Http,
            name: match &sym.fqn {
                Some(q) => q.clone(),
                None => sym.name.clone(),
            },
            addr,
            symbol_id: find_id(&f.ids, r.symbol),
            file_id: Some(file_id),
            config: EntryConfig::Http { guards: r.guards.clone(), method: r.method.clone() },
            doc: sym.doc.clone(),
        };
        let ghost x = row.deep_view();
        assert(x =~= want[i as int]);
        out.push(row);
        assert(out.deep_view() =~= before.push(x));
        i += 1;
        assert(want.take(i as int) =~= before.push(x));
    }
    assert(want.take(i as int) =~= want);
    let jobs = xxl_job_handlers(&f.file);
    let ghost js = jobs.deep_view();
    let ghost more = js.map_values(|j: (usize, Seq<char>)| job_row(v, file_id, j));
    let mut k: usize = 0;
    assert(out.deep_view() =~= want + more.take(0));
    proof {
        jobs_within(syms, syms.len());
    }
    while k < jobs.len()
        invariant
            k <= jobs.len(),
            v == f.deep_view(),
            v.ids == f.ids@,
            syms == v.file.symbols,
            js == jobs.deep_view(),
            forall|i: int| 0 <= i < js.len() ==> (#[trigger] js[i]).0 < syms.len(),
            more == js.map_values(|j: (usize, Seq<char>)| job_row(v, file_id, j)),
            out.deep_view() == want + more.take(k as int),
        decreases jobs.len() - k,
    {
        let ghost before = out.deep_view();
        assert(js[k as int] == (jobs@[k as int].0, jobs@[k as int].1@));
        let at: usize = jobs[k].0;
        let sym = &f.file.symbols[at];
        assert(syms[at as int] == sym.deep_view());
        let row = EntrypointRow {
            kind: EntrypointKind::Job,
            name: match &sym.fqn {
                Some(q) => q.clone(),
                None => sym.name.clone(),
            },
            addr: jobs[k].1.clone(),
            symbol_id: find_id(&f.ids, at),
            file_id: Some(file_id),
            config: EntryConfig::Job,
            doc: sym.doc.clone(),
        };
        let ghost x = row.deep_view();
        assert(x =~= more[k as int]);
        out.push(row);
        assert(out.deep_view() =~= before.push(x));
        k += 1;
        assert(want + more.take(k as int) =~= before.push(x));
    }
    assert(more.take(k as int) =~= more);
    out
}

/// The value under a key.
pub open spec fn at_key<T>(m: Map<Seq<char>, T>, k: Seq<char>) -> Option<T> {
    if m.dom().contains(k) {
        Some(m[k])
    } else {
        None
    }
}

fn id_under(m: &TextMap<i64>, k: &str) -> (r: Option<i64>)
    ensures
        r == at_key(m.deep_view(), k@),
{
    match m.get(k) {
        Some(id) => Some(*id),
        None => None,
    }
}

fn text_under(m: &TextMap<String>, k: &str) -> (r: Option<String>)
    ensures
        r.deep_view() == at_key(m.deep_view(), k@),
{
    match m.get(k) {
        Some(t) => Some(t.clone()),
        None => None,
    }
}

/// The row of a Dubbo service. The XML comment is preferred; the interface's Javadoc
/// stands in where there is none.
pub open spec fn dubbo_row(
    s: DubboServiceView,
    java: JavaIndexView,
    file_id: Option<i64>,
) -> EntrypointRowView {
    EntrypointRowView {
        kind: EntrypointKind::Dubbo,
        name: s.interface,
        addr: tail_of(s.interface, '.'),
        symbol_id: at_key(java.types, s.interface),
        file_id,
        config: EntryConfigView::Dubbo {
            reference: s.reference,
            timeout: s.timeout,
            retries: s.retries,
            version: s.version,
            group: s.group,
        },
        doc: match s.doc {
            Some(d) => Some(d),
            None => at_key(java.type_docs, s.interface),
        },
    }
}

/// Dubbo entrypoints from `<dubbo:service>` declarations.
pub fn index_dubbo(d: &DubboXml, java: &JavaIndex, file_id: Option<i64>) -> (r: Vec<EntrypointRow>)
    ensures
        r.deep_view() == d.deep_view().services.map_values(
            |s: DubboServiceView| dubbo_row(s, java.deep_view(), file_id),
        ),
{
    let ghost j = java.deep_view();
    let ghost ss = d.services.deep_view();
    let ghost want = ss.map_values(|s: DubboServiceView| dubbo_row(s, j, file_id));
    let mut out: Vec<EntrypointRow> = Vec::new();
    let mut i: usize = 0;
    assert(out.deep_view() =~= want.take(0));
    while i < d.services.len()
        invariant
            i <= d.services.len(),
            j == java.deep_view(),
            ss == d.services.deep_view(),
            want == ss.map_values(|s: DubboServiceView| dubbo_row(s, j, file_id)),
            out.deep_view() == want.take(i as int),
        decreases d.services.len() - i,
    {
        let s = &d.services[i];
        let ghost before = out.deep_view();
        assert(ss[i as int] == s.deep_view());
        let doc = match &s.doc {
            Some(x) => Some(x.clone()),
            None => text_under(&java.type_docs, s.interface.as_str()),
        };
        let row = EntrypointRow {
            kind: EntrypointKind::Dubbo,
            name: s.interface.clone(),
            addr: owned(after_last(s.interface.as_str(), '.')),
            symbol_id: id_under(&java.types, s.interface.as_str()),
            file_id,
            config: EntryConfig::Dubbo {
                reference: s.reference.clone(),
                timeout: s.timeout.clone(),
                retries: s.retries.clone(),
                version: s.version.clone(),
                group: s.group.clone(),
            },
            doc,
        };
        let ghost x = row.deep_view();
        assert(x =~= want[i as int]);
        out.push(row);
        assert(out.deep_view() =~= before.push(x));
        i += 1;
        assert(want.take(i as int) =~= before.push(x));
    }
    assert(want.take(i as int) =~= want);
    out
}

/// The row of a topic binding. A listener's own file is more useful than the wiring
/// XML.
pub open spec fn mq_row(
    b: (Seq<char>, Seq<char>),
    java: JavaIndexView,
    props: Map<Seq<char>, Seq<char>>,
    file_ids: Map<Seq<char>, i64>,
    wiring: Seq<char>,
) -> EntrypointRowView {
    let topic = resolved(b.1, props, 8);
    EntrypointRowView {
        kind: EntrypointKind::Mq,
        name: b.0,
        addr: topic,
        symbol_id: at_key(java.types, b.0),
        file_id: if java.type_files.dom().contains(b.0) && file_ids.dom().contains(
            java.type_files[b.0],
        ) {
            Some(file_ids[java.type_files[b.0]])
        } else {
            at_key(file_ids, wiring)
        },
        config: EntryConfigView::Mq { topic_expr: b.1, resolved: topic != b.1, wiring },
        doc: at_key(java.type_docs, b.0),
    }
}

/// MQ consumers, pairing each listener class with its resolved topic, from the
/// bindings in the file `wiring`.
pub fn index_mq(
    bindings: &Vec<(String, String)>,
    java: &JavaIndex,
    props: &TextMap<String>,
    file_ids: &TextMap<i64>,
    wiring: &str,
) -> (r: Vec<EntrypointRow>)
    ensures
        r.deep_view() == bindings.deep_view().map_values(
            |b: (Seq<char>, Seq<char>)|
                mq_row(b, java.deep_view(), props.deep_view(), file_ids.deep_view(), wiring@),
        ),
{
    let ghost j = java.deep_view();
    let ghost p = props.deep_view();
    let ghost ids = file_ids.deep_view();
    let ghost bs = bindings.deep_view();
    let ghost want = bs.map_values(|b: (Seq<char>, Seq<char>)| mq_row(b, j, p, ids, wiring@));
    let mut out: Vec<EntrypointRow> = Vec::new();
    let mut i: usize = 0;
    assert(out.deep_view() =~= want.take(0));
    while i < bindings.len()
        invariant
            i <= bindings.len(),
            j == java.deep_view(),
            p == props.deep_view(),
            ids == file_ids.deep_view(),
            bs == bindings.deep_view(),
            want == bs.map_values(|b: (Seq<char>, Seq<char>)| mq_row(b, j, p, ids, wiring@)),
            out.deep_view() == want.take(i as int),
        decreases bindings.len() - i,
    {
        let class = &bindings[i].0;
        let expr = &bindings[i].1;
        let ghost before = out.deep_view();
        assert(bs[i as int] == (class@, expr@));
        let topic = resolve(expr.as_str(), props);
        let own: Option<i64> = match java.type_files.get(class.as_str()) {
            Some(rel) => id_under(file_ids, rel.as_str()),
            None => None,
        };
        let file_id = match own {
            Some(id) => Some(id),
            None => id_under(file_ids, wiring),
        };
        let changed = !same(topic.as_str(), expr.as_str());
        let row = EntrypointRow {
            kind: EntrypointKind::Mq,
            name: class.clone(),
            addr: topic,
            symbol_id: id_under(&java.types, class.as_str()),
            file_id,
            config: EntryConfig::Mq {
                topic_expr: expr.clone(),
                resolved: changed,
                wiring: owned(wiring),
            },
            doc: text_under(&java.type_docs, class.as_str()),
        };
        let ghost x = row.deep_view();
        assert(x =~= want[i as int]);
        out.push(row);
        assert(out.deep_view() =~= before.push(x));
        i += 1;
        assert(want.take(i as int) =~= before.push(x));
    }
    assert(want.take(i as int) =~= want);
    out
}

} // verus!

