//! Dubbo XML provider/consumer extraction.
//!
//! `<dubbo:service>` elements are the authoritative list of RPC entrypoints,
//! including the ones whose Java interface looks unused. Commented-out services
//! are intentionally skipped: the reader reports them as comments, so retired
//! entrypoints never reach the knowledge base.
use crate::extract::xmlutil::{
    attr, attr_of, comment_doc, document, events, prose_of, XmlEvent, XmlEventView, XmlTag,
    XmlTagView,
};
use crate::lists::{take_all, take_next};
use crate::text::same;
use vstd::prelude::*;

verus! {

#[derive(Debug)]
pub struct DubboService {
    /// The exported interface FQN.
    pub interface: String,
    /// Spring bean id implementing it.
    pub reference: Option<String>,
    pub timeout: Option<String>,
    pub retries: Option<String>,
    pub version: Option<String>,
    pub group: Option<String>,
    /// Comment immediately above the element — in these projects it is often the
    /// only Chinese description of what the service is for.
    pub doc: Option<String>,
}

/// The content of a [`DubboService`].
#[verifier::ext_equal]
pub struct DubboServiceView {
    pub interface: Seq<char>,
    pub reference: Option<Seq<char>>,
    pub timeout: Option<Seq<char>>,
    pub retries: Option<Seq<char>>,
    pub version: Option<Seq<char>>,
    pub group: Option<Seq<char>>,
    pub doc: Option<Seq<char>>,
}

impl DeepView for DubboService {
    type V = DubboServiceView;

    open spec fn deep_view(&self) -> DubboServiceView {
        DubboServiceView {
            interface: self.interface.deep_view(),
            reference: self.reference.deep_view(),
            timeout: self.timeout.deep_view(),
            retries: self.retries.deep_view(),
            version: self.version.deep_view(),
            group: self.group.deep_view(),
            doc: self.doc.deep_view(),
        }
    }
}

impl Clone for DubboService {
    fn clone(&self) -> (r: Self)
        ensures
            r.deep_view() == self.deep_view(),
    {
        DubboService {
            interface: self.interface.clone(),
            reference: self.reference.clone(),
            timeout: self.timeout.clone(),
            retries: self.retries.clone(),
            version: self.version.clone(),
            group: self.group.clone(),
            doc: self.doc.clone(),
        }
    }
}

#[derive(Debug)]
pub struct DubboReference {
    pub interface: String,
    pub bean_id: Option<String>,
    pub doc: Option<String>,
}

/// The content of a [`DubboReference`].
#[verifier::ext_equal]
pub struct DubboReferenceView {
    pub interface: Seq<char>,
    pub bean_id: Option<Seq<char>>,
    pub doc: Option<Seq<char>>,
}

impl DeepView for DubboReference {
    type V = DubboReferenceView;

    open spec fn deep_view(&self) -> DubboReferenceView {
        DubboReferenceView {
            interface: self.interface.deep_view(),
            bean_id: self.bean_id.deep_view(),
            doc: self.doc.deep_view(),
        }
    }
}

impl Clone for DubboReference {
    fn clone(&self) -> (r: Self)
        ensures
            r.deep_view() == self.deep_view(),
    {
        DubboReference {
            interface: self.interface.clone(),
            bean_id: self.bean_id.clone(),
            doc: self.doc.clone(),
        }
    }
}

#[derive(Debug)]
pub struct DubboXml {
    pub services: Vec<DubboService>,
    pub references: Vec<DubboReference>,
}

/// The content of a [`DubboXml`].
#[verifier::ext_equal]
pub struct DubboXmlView {
    pub services: Seq<DubboServiceView>,
    pub references: Seq<DubboReferenceView>,
}

impl DeepView for DubboXml {
    type V = DubboXmlView;

    open spec fn deep_view(&self) -> DubboXmlView {
        DubboXmlView {
            services: self.services.deep_view(),
            references: self.references.deep_view(),
        }
    }
}

impl Clone for DubboXml {
    fn clone(&self) -> (r: Self)
        ensures
            r.deep_view() == self.deep_view(),
    {
        DubboXml {
            services: self.services.clone(),
            references: self.references.clone(),
        }
    }
}

/// A document that is being read, and the comment that awaits its element.
#[derive(Debug)]
pub struct DubboReader {
    pub out: DubboXml,
    pub pending_doc: Option<String>,
}

/// The content of a [`DubboReader`].
#[verifier::ext_equal]
pub struct DubboReaderView {
    pub out: DubboXmlView,
    pub pending_doc: Option<Seq<char>>,
}

impl DeepView for DubboReader {
    type V = DubboReaderView;

    open spec fn deep_view(&self) -> DubboReaderView {
        DubboReaderView {
            out: self.out.deep_view(),
            pending_doc: self.pending_doc.deep_view(),
        }
    }
}

pub open spec fn service_of(t: XmlTagView, doc: Option<Seq<char>>) -> DubboServiceView {
    DubboServiceView {
        interface: attr_of(t, "interface"@)->0,
        reference: attr_of(t, "ref"@),
        timeout: attr_of(t, "timeout"@),
        retries: attr_of(t, "retries"@),
        version: attr_of(t, "version"@),
        group: attr_of(t, "group"@),
        doc,
    }
}

pub open spec fn reference_of(t: XmlTagView, doc: Option<Seq<char>>) -> DubboReferenceView {
    DubboReferenceView { interface: attr_of(t, "interface"@)->0, bean_id: attr_of(t, "id"@), doc }
}

/// What an element does: a service or a reference takes the comment before it, and
/// any other element consumes it, so that it does not drift onto a later, unrelated
/// service.
pub open spec fn opened(s: DubboReaderView, t: XmlTagView) -> DubboReaderView {
    if t.name == "dubbo:service"@ {
        if attr_of(t, "interface"@) is Some {
            DubboReaderView {
                out: DubboXmlView {
                    services: s.out.services.push(service_of(t, s.pending_doc)),
                    ..s.out
                },
                pending_doc: None,
            }
        } else {
            s
        }
    } else if t.name == "dubbo:reference"@ {
        if attr_of(t, "interface"@) is Some {
            DubboReaderView {
                out: DubboXmlView {
                    references: s.out.references.push(reference_of(t, s.pending_doc)),
                    ..s.out
                },
                pending_doc: None,
            }
        } else {
            s
        }
    } else {
        DubboReaderView { pending_doc: None, ..s }
    }
}

/// What one event does. A commented-out bean is not documentation.
pub open spec fn step(s: DubboReaderView, ev: XmlEventView) -> DubboReaderView {
    match ev {
        XmlEventView::Comment(c) => DubboReaderView { pending_doc: prose_of(c), ..s },
        XmlEventView::Start(t) => opened(s, t),
        XmlEventView::Empty(t) => opened(s, t),
        _ => s,
    }
}

pub open spec fn read(evs: Seq<XmlEventView>) -> DubboReaderView
    decreases evs.len(),
{
    if evs.len() == 0 {
        DubboReaderView {
            out: DubboXmlView { services: Seq::empty(), references: Seq::empty() },
            pending_doc: None,
        }
    } else {
        step(read(evs.drop_last()), evs.last())
    }
}

impl DubboReader {
    fn open(&mut self, t: &XmlTag)
        ensures
            final(self).deep_view() == opened(old(self).deep_view(), t.deep_view()),
    {
        let ghost s0 = self.deep_view();
        if same(t.name.as_str(), "dubbo:service") {
            match attr(t, "interface") {
                Some(interface) => {
                    let doc = self.pending_doc.take();
                    let service = DubboService {
                        interface,
                        reference: attr(t, "ref"),
                        timeout: attr(t, "timeout"),
                        retries: attr(t, "retries"),
                        version: attr(t, "version"),
                        group: attr(t, "group"),
                        doc,
                    };
                    let ghost x = service.deep_view();
                    self.out.services.push(service);
                    assert(self.deep_view().out.services =~= s0.out.services.push(x));
                },
                None => {},
            }
        } else if same(t.name.as_str(), "dubbo:reference") {
            match attr(t, "interface") {
                Some(interface) => {
                    let doc = self.pending_doc.take();
                    let reference = DubboReference { interface, bean_id: attr(t, "id"), doc };
                    let ghost x = reference.deep_view();
                    self.out.references.push(reference);
                    assert(self.deep_view().out.references =~= s0.out.references.push(x));
                },
                None => {},
            }
        } else {
            self.pending_doc = None;
        }
    }

    fn step(&mut self, ev: &XmlEvent)
        ensures
            final(self).deep_view() == step(old(self).deep_view(), ev.deep_view()),
    {
        match ev {
            XmlEvent::Comment(c) => {
                self.pending_doc = comment_doc(c.as_str());
            },
            XmlEvent::Start(t) => {
                self.open(t);
            },
            XmlEvent::Empty(t) => {
                self.open(t);
            },
            _ => {},
        }
    }
}

/// The services and references that a document's events declare.
pub fn from_events(evs: &Vec<XmlEvent>) -> (r: DubboXml)
    ensures
        r.deep_view() == read(evs.deep_view()).out,
{
    let mut s = DubboReader {
        out: DubboXml { services: Vec::new(), references: Vec::new() },
        pending_doc: None,
    };
    let ghost d = evs.deep_view();
    assert(s.deep_view() =~= read(d.take(0)));
    let mut i: usize = 0;
    while i < evs.len()
        invariant
            i <= evs.len(),
            d == evs.deep_view(),
            s.deep_view() == read(d.take(i as int)),
        decreases evs.len() - i,
    {
        broadcast use take_next;

        s.step(&evs[i]);
        assert(d[i as int] == evs@[i as int].deep_view());
        i += 1;
        assert(d.take(i as int) == d.take((i - 1) + 1));
    }
    broadcast use take_all;

    assert(d.take(i as int) == d);
    s.out
}

/// The services and references in `xml`; whatever parsed before an error is kept.
pub fn parse(xml: &str) -> (r: Result<DubboXml, String>)
    ensures
        r is Ok,
        r->Ok_0.deep_view() == read(document(xml@)).out,
{
    Ok(from_events(&events(xml)))
}

/// Every service is declared by an element: comments add none.
pub proof fn comments_declare_nothing(evs: Seq<XmlEventView>, c: Seq<char>)
    ensures
        read(evs.push(XmlEventView::Comment(c))).out == read(evs).out,
{
    assert(evs.push(XmlEventView::Comment(c)).drop_last() =~= evs);
}

} // verus!

