//! Spring XML bean extraction, used to find MQ consumers.
//!
//! These projects wire message listeners in XML with the topic held in a
//! `${placeholder}`, so the listener class alone tells you nothing about which
//! topic it consumes. We pair each listener bean with the topic property of the
//! consumer bean that references it, then resolve placeholders against the
//! properties files.
use crate::extract::xmlutil::{
    attr, attr_of, comment_doc, document, events, prose_of, XmlEvent, XmlEventView, XmlTag,
    XmlTagView,
};
use crate::lists::{lists_pairs, sort_pairs, take_all, take_next};
use crate::text::{contains_str, first_at, same};
use crate::textmap::{has_key, in_order, map_of, map_of_at, TextMap};
use vstd::prelude::*;

verus! {

pub struct SpringBean {
    pub id: Option<String>,
    pub class: Option<String>,
    /// Literal `<property name= value=>` pairs.
    pub props: TextMap<String>,
    /// `<property name= ref=>` pairs.
    pub refs: TextMap<String>,
    pub doc: Option<String>,
}

/// The content of a [`SpringBean`].
#[verifier::ext_equal]
pub struct SpringBeanView {
    pub id: Option<Seq<char>>,
    pub class: Option<Seq<char>>,
    pub props: Map<Seq<char>, Seq<char>>,
    pub refs: Map<Seq<char>, Seq<char>>,
    pub doc: Option<Seq<char>>,
}

impl DeepView for SpringBean {
    type V = SpringBeanView;

    open spec fn deep_view(&self) -> SpringBeanView {
        SpringBeanView {
            id: self.id.deep_view(),
            class: self.class.deep_view(),
            props: self.props.deep_view(),
            refs: self.refs.deep_view(),
            doc: self.doc.deep_view(),
        }
    }
}

pub struct SpringXml {
    pub beans: Vec<SpringBean>,
    /// `<context:component-scan base-package="...">` entries.
    pub scan_packages: Vec<String>,
}

/// The content of a [`SpringXml`].
#[verifier::ext_equal]
pub struct SpringXmlView {
    pub beans: Seq<SpringBeanView>,
    pub scan_packages: Seq<Seq<char>>,
}

impl DeepView for SpringXml {
    type V = SpringXmlView;

    open spec fn deep_view(&self) -> SpringXmlView {
        SpringXmlView {
            beans: self.beans.deep_view(),
            scan_packages: self.scan_packages.deep_view(),
        }
    }
}

/// A document that is being read: the bean whose properties are being collected,
/// and the comment that awaits its bean.
pub struct SpringReader {
    pub out: SpringXml,
    pub cur: Option<SpringBean>,
    pub pending_doc: Option<String>,
}

/// The content of a [`SpringReader`].
#[verifier::ext_equal]
pub struct SpringReaderView {
    pub out: SpringXmlView,
    pub cur: Option<SpringBeanView>,
    pub pending_doc: Option<Seq<char>>,
}

impl DeepView for SpringReader {
    type V = SpringReaderView;

    open spec fn deep_view(&self) -> SpringReaderView {
        SpringReaderView {
            out: self.out.deep_view(),
            cur: self.cur.deep_view(),
            pending_doc: self.pending_doc.deep_view(),
        }
    }
}

/// The beans with the one that is being read behind them.
pub open spec fn flushed(s: SpringReaderView) -> SpringXmlView {
    match s.cur {
        Some(b) => SpringXmlView { beans: s.out.beans.push(b), ..s.out },
        None => s.out,
    }
}

/// The bean that a tag opens.
pub open spec fn bean_of(t: XmlTagView, doc: Option<Seq<char>>) -> SpringBeanView {
    SpringBeanView {
        id: match attr_of(t, "id"@) {
            Some(i) => Some(i),
            None => attr_of(t, "name"@),
        },
        class: attr_of(t, "class"@),
        props: Map::empty(),
        refs: Map::empty(),
        doc,
    }
}

/// A bean with the property that a tag gives it: a value, else a reference.
pub open spec fn with_property(b: SpringBeanView, t: XmlTagView) -> SpringBeanView {
    match attr_of(t, "name"@) {
        Some(name) => match attr_of(t, "value"@) {
            Some(v) => SpringBeanView { props: b.props.insert(name, v), ..b },
            None => match attr_of(t, "ref"@) {
                Some(r) => SpringBeanView { refs: b.refs.insert(name, r), ..b },
                None => b,
            },
        },
        None => b,
    }
}

/// What an element does. A nested bean replaces the outer one: only the flat
/// property view is needed, not the nesting structure.
pub open spec fn opened(s: SpringReaderView, t: XmlTagView) -> SpringReaderView {
    if t.name == "bean"@ {
        SpringReaderView {
            out: flushed(s),
            cur: Some(bean_of(t, s.pending_doc)),
            pending_doc: None,
        }
    } else if t.name == "property"@ {
        match s.cur {
            Some(b) => SpringReaderView { cur: Some(with_property(b, t)), ..s },
            None => s,
        }
    } else if t.name == "context:component-scan"@ {
        SpringReaderView {
            out: match attr_of(t, "base-package"@) {
                Some(p) => SpringXmlView {
                    scan_packages: s.out.scan_packages.push(p),
                    ..s.out
                },
                None => s.out,
            },
            pending_doc: None,
            ..s
        }
    } else {
        s
    }
}

/// What one event does.
pub open spec fn step(s: SpringReaderView, ev: XmlEventView) -> SpringReaderView {
    match ev {
        XmlEventView::Comment(c) => SpringReaderView { pending_doc: prose_of(c), ..s },
        XmlEventView::Start(t) => opened(s, t),
        XmlEventView::Empty(t) => opened(s, t),
        XmlEventView::End(n) => if n == "bean"@ {
            SpringReaderView { out: flushed(s), cur: None, ..s }
        } else {
            s
        },
        _ => s,
    }
}

pub open spec fn read(evs: Seq<XmlEventView>) -> SpringReaderView
    decreases evs.len(),
{
    if evs.len() == 0 {
        SpringReaderView {
            out: SpringXmlView { beans: Seq::empty(), scan_packages: Seq::empty() },
            cur: None,
            pending_doc: None,
        }
    } else {
        step(read(evs.drop_last()), evs.last())
    }
}

impl SpringReader {
    fn flush(&mut self)
        ensures
            final(self).deep_view() == (SpringReaderView {
                out: flushed(old(self).deep_view()),
                cur: None,
                ..old(self).deep_view()
            }),
    {
        let ghost s0 = self.deep_view();
        match self.cur.take() {
            Some(b) => {
                let ghost x = b.deep_view();
                self.out.beans.push(b);
                assert(self.deep_view().out.beans =~= s0.out.beans.push(x));
            },
            None => {},
        }
    }

    fn open(&mut self, t: &XmlTag)
        ensures
            final(self).deep_view() == opened(old(self).deep_view(), t.deep_view()),
    {
        let ghost s0 = self.deep_view();
        if same(t.name.as_str(), "bean") {
            self.flush();
            let id = match attr(t, "id") {
                Some(i) => Some(i),
                None => attr(t, "name"),
            };
            let doc = self.pending_doc.take();
            self.cur = Some(
                SpringBean {
                    id,
                    class: attr(t, "class"),
                    props: TextMap::new(),
                    refs: TextMap::new(),
                    doc,
                },
            );
        } else if same(t.name.as_str(), "property") {
            match self.cur.take() {
                Some(b) => {
                    let mut b = b;
                    match attr(t, "name") {
                        Some(name) => match attr(t, "value") {
                            Some(v) => {
                                b.props.insert(name, v);
                            },
                            None => match attr(t, "ref") {
                                Some(r) => {
                                    b.refs.insert(name, r);
                                },
                                None => {},
                            },
                        },
                        None => {},
                    }
                    self.cur = Some(b);
                },
                None => {},
            }
        } else if same(t.name.as_str(), "context:component-scan") {
            match attr(t, "base-package") {
                Some(p) => {
                    let ghost x = p@;
                    self.out.scan_packages.push(p);
                    assert(self.deep_view().out.scan_packages =~= s0.out.scan_packages.push(x));
                },
                None => {},
            }
            self.pending_doc = None;
        }
    }

    fn step(&mut self, ev: &XmlEvent)
        ensures
            final(self).deep_view() == step(old(self).deep_view(), ev.deep_view()),
    {
        match ev {
            XmlEvent::Comment(c) => {
                self.pending_doc = comment_doc(c.as_str());
            },
            XmlEvent::Start(t) => {
                self.open(t);
            },
            XmlEvent::Empty(t) => {
                self.open(t);
            },
            XmlEvent::End(n) => {
                if same(n.as_str(), "bean") {
                    self.flush();
                }
            },
            _ => {},
        }
    }
}

/// The beans that a document's events declare.
pub fn from_events(evs: &Vec<XmlEvent>) -> (r: SpringXml)
    ensures
        r.deep_view() == flushed(read(evs.deep_view())),
{
    let mut s = SpringReader {
        out: SpringXml { beans: Vec::new(), scan_packages: Vec::new() },
        cur: None,
        pending_doc: None,
    };
    let ghost d = evs.deep_view();
    assert(s.deep_view() =~= read(d.take(0)));
    let mut i: usize = 0;
    while i < evs.len()
        invariant
            i <= evs.len(),
            d == evs.deep_view(),
            s.deep_view() == read(d.take(i as int)),
        decreases evs.len() - i,
    {
        broadcast use take_next;

        s.step(&evs[i]);
        assert(d[i as int] == evs@[i as int].deep_view());
        i += 1;
        assert(d.take(i as int) == d.take((i - 1) + 1));
    }
    broadcast use take_all;

    assert(d.take(i as int) == d);
    s.flush();
    s.out
}

/// The beans in `xml`; whatever parsed before an error is kept.
pub fn parse(xml: &str) -> (r: Result<SpringXml, String>)
    ensures
        r is Ok,
        r->Ok_0.deep_view() == flushed(read(document(xml@))),
{
    Ok(from_events(&events(xml)))
}

// ---------------------------------------------------------------------------
// Topic bindings

/// The last bean among the first `n` whose id is `id`.
pub open spec fn bean_with_id(beans: Seq<SpringBeanView>, id: Seq<char>, n: int) -> Option<
    SpringBeanView,
>
    decreases n,
{
    if n <= 0 || n > beans.len() {
        None
    } else if beans[n - 1].id == Some(id) {
        Some(beans[n - 1])
    } else {
        bean_with_id(beans, id, n - 1)
    }
}

/// The class of the bean that `id` names.
pub open spec fn class_of(beans: Seq<SpringBeanView>, id: Seq<char>) -> Option<Seq<char>> {
    match bean_with_id(beans, id, beans.len() as int) {
        Some(b) => b.class,
        None => None,
    }
}

/// Whether one of the references names a bean of the class `c`.
pub open spec fn refers_to(
    beans: Seq<SpringBeanView>,
    refs: Map<Seq<char>, Seq<char>>,
    c: Seq<char>,
) -> bool {
    exists|k: Seq<char>| #[trigger] refs.dom().contains(k) && class_of(beans, refs[k]) == Some(c)
}

/// Whether one of the first `n` entries names a bean of the class `c`.
spec fn entry_refers_to(
    beans: Seq<SpringBeanView>,
    l: Seq<(Seq<char>, Seq<char>)>,
    n: int,
    c: Seq<char>,
) -> bool {
    exists|j: int| 0 <= j < n && class_of(beans, (#[trigger] l[j]).1) == Some(c)
}

proof fn entries_refer(
    beans: Seq<SpringBeanView>,
    l: Seq<(Seq<char>, Seq<char>)>,
    c: Seq<char>,
)
    requires
        in_order(l),
    ensures
        entry_refers_to(beans, l, l.len() as int, c) == refers_to(beans, map_of(l), c),
{
    let refs = map_of(l);
    if entry_refers_to(beans, l, l.len() as int, c) {
        let j = choose|j: int|
            0 <= j < l.len() && class_of(beans, (#[trigger] l[j]).1) == Some(c);
        map_of_at(l, j);
        assert(refs.dom().contains(l[j].0));
    }
    if refers_to(beans, refs, c) {
        let k = choose|k: Seq<char>| #[trigger]
            refs.dom().contains(k) && class_of(beans, refs[k]) == Some(c);
        assert(has_key(l, k));
        let j = choose|j: int| 0 <= j < l.len() && (#[trigger] l[j]).0 == k;
        map_of_at(l, j);
    }
}

/// Whether the consumer bean `b` binds the class `p.0` to the topic `p.1`: through
/// a reference to the listener, or by embedding the listener class.
pub open spec fn bean_binds(
    beans: Seq<SpringBeanView>,
    b: SpringBeanView,
    p: (Seq<char>, Seq<char>),
) -> bool {
    &&& b.props.dom().contains("topic"@)
    &&& b.props["topic"@] == p.1
    &&& {
        ||| refers_to(beans, b.refs, p.0)
        ||| b.refs == Map::<Seq<char>, Seq<char>>::empty() && b.class == Some(p.0) && first_at(
            p.0,
            "Listener"@,
        ) is Some
    }
}

/// Whether one of the first `n` beans binds `p`.
pub open spec fn binds(beans: Seq<SpringBeanView>, n: int, p: (Seq<char>, Seq<char>)) -> bool {
    exists|i: int| 0 <= i < n && bean_binds(beans, #[trigger] beans[i], p)
}

impl SpringXml {
    fn find_class(&self, id: &str) -> (r: Option<String>)
        ensures
            r.deep_view() == class_of(self.deep_view().beans, id@),
    {
        let ghost d = self.deep_view().beans;
        let mut n: usize = self.beans.len();
        while n > 0
            invariant
                n <= self.beans.len(),
                d == self.deep_view().beans,
                bean_with_id(d, id@, d.len() as int) == bean_with_id(d, id@, n as int),
            decreases n,
        {
            let b = &self.beans[n - 1];
            assert(d[n - 1] == b.deep_view());
            match &b.id {
                Some(x) => {
                    if same(x.as_str(), id) {
                        return b.class.clone();
                    }
                },
                None => {},
            }
            n -= 1;
        }
        None
    }

    /// What one consumer bean binds, added to `out`.
    fn add_bindings(&self, b: &SpringBean, out: &mut Vec<(String, String)>)
        ensures
            forall|p: (Seq<char>, Seq<char>)| #[trigger]
                final(out).deep_view().contains(p) <==> old(out).deep_view().contains(p)
                    || bean_binds(self.deep_view().beans, b.deep_view(), p),
    {
        let ghost beans = self.deep_view().beans;
        let ghost v = b.deep_view();
        let ghost start = out.deep_view();
        let topic = match b.props.get("topic") {
            Some(t) => t,
            None => {
                return;
            },
        };
        let n: usize = b.refs.len();
        let ghost l = b.refs.list();
        let mut i: usize = 0;
        while i < n
            invariant
                i <= n,
                n == l.len(),
                l == b.refs.list(),
                beans == self.deep_view().beans,
                forall|p: (Seq<char>, Seq<char>)| #[trigger]
                    out.deep_view().contains(p) <==> start.contains(p) || (p.1 == topic@
                        && entry_refers_to(beans, l, i as int, p.0)),
            decreases n - i,
        {
            let ghost before = out.deep_view();
            let target = b.refs.value_at(i);
            assert forall|c: Seq<char>| #[trigger] entry_refers_to(beans, l, i + 1, c)
                == entry_refers_to(beans, l, i as int, c) || class_of(beans, l[i as int].1) == Some(
                c,
            ) by {
                if class_of(beans, l[i as int].1) == Some(c) {
                    assert(entry_refers_to(beans, l, i + 1, c));
                }
                if entry_refers_to(beans, l, i + 1, c) && class_of(beans, l[i as int].1) != Some(
                    c,
                ) {
                    let j = choose|j: int|
                        0 <= j < i + 1 && class_of(beans, (#[trigger] l[j]).1) == Some(c);
                    assert(entry_refers_to(beans, l, i as int, c));
                }
                if entry_refers_to(beans, l, i as int, c) {
                    let j = choose|j: int|
                        0 <= j < i && class_of(beans, (#[trigger] l[j]).1) == Some(c);
                    assert(class_of(beans, l[j].1) == Some(c));
                }
            }
            match self.find_class(target.as_str()) {
                Some(class) => {
                    let ghost x = (class@, topic@);
                    out.push((class, topic.clone()));
                    proof {
                        assert(out.deep_view() =~= before.push(x));
                        assert forall|p: (Seq<char>, Seq<char>)| #[trigger]
                            out.deep_view().contains(p) <==> before.contains(p) || p == x by {
                            if before.contains(p) {
                                let k = choose|k: int| 0 <= k < before.len() && before[k] == p;
                                assert(out.deep_view()[k] == p);
                            }
                            assert(out.deep_view()[before.len() as int] == x);
                        }
                    }
                },
                None => {},
            }
            i += 1;
        }
        proof {
            assert(v.refs == map_of(l));
            if n == 0 {
                assert(v.refs =~= Map::<Seq<char>, Seq<char>>::empty());
            } else {
                map_of_at(l, 0);
            }
            assert forall|c: Seq<char>| entry_refers_to(beans, l, n as int, c) == #[trigger] refers_to(
                beans,
                v.refs,
                c,
            ) by {
                entries_refer(beans, l, c);
            }
        }
        // Some consumers embed the listener class directly.
        if n == 0 {
            match &b.class {
                Some(class) => {
                    if contains_str(class.as_str(), "Listener") {
                        let ghost before = out.deep_view();
                        let ghost x = (class@, topic@);
                        out.push((class.clone(), topic.clone()));
                        proof {
                            assert(out.deep_view() =~= before.push(x));
                            assert forall|p: (Seq<char>, Seq<char>)| #[trigger]
                                out.deep_view().contains(p) <==> before.contains(p) || p == x by {
                                if before.contains(p) {
                                    let k = choose|k: int| 0 <= k < before.len() && before[k] == p;
                                    assert(out.deep_view()[k] == p);
                                }
                                assert(out.deep_view()[before.len() as int] == x);
                            }
                        }
                    }
                },
                None => {},
            }
        }
    }

    /// Topic bindings discovered by joining consumer beans to listener beans, sorted
    /// and each once.
    ///
    /// Returns `(listener_class, topic_expr)`. `topic_expr` may still be a
    /// `${...}` placeholder for the caller to resolve.
    pub fn mq_bindings(&self) -> (r: Vec<(String, String)>)
        ensures
            lists_pairs(
                r.deep_view(),
                Set::new(
                    |p: (Seq<char>, Seq<char>)|
                        binds(self.deep_view().beans, self.deep_view().beans.len() as int, p),
                ),
            ),
    {
        let ghost beans = self.deep_view().beans;
        let mut out: Vec<(String, String)> = Vec::new();
        let mut i: usize = 0;
        while i < self.beans.len()
            invariant
                i <= self.beans.len(),
                beans == self.deep_view().beans,
                forall|p: (Seq<char>, Seq<char>)| #[trigger]
                    out.deep_view().contains(p) <==> binds(beans, i as int, p),
            decreases self.beans.len() - i,
        {
            let ghost before = out.deep_view();
            self.add_bindings(&self.beans[i], &mut out);
            proof {
                assert(beans[i as int] == self.beans@[i as int].deep_view());
                assert forall|p: (Seq<char>, Seq<char>)| #[trigger]
                    out.deep_view().contains(p) <==> binds(beans, i + 1, p) by {
                    assert(before.contains(p) <==> binds(beans, i as int, p));
                    if binds(beans, i + 1, p) {
                        let j = choose|j: int| 0 <= j < i + 1 && bean_binds(
                            beans,
                            #[trigger] beans[j],
                            p,
                        );
                        if j < i {
                            assert(binds(beans, i as int, p));
                        }
                    }
                    if binds(beans, i as int, p) {
                        let j = choose|j: int| 0 <= j < i && bean_binds(
                            beans,
                            #[trigger] beans[j],
                            p,
                        );
                        assert(bean_binds(beans, beans[j], p));
                    }
                    if bean_binds(beans, beans[i as int], p) {
                        assert(binds(beans, i + 1, p));
                    }
                }
            }
            i += 1;
        }
        sort_pairs(&out)
    }
}

} // verus!

