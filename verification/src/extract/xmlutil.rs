//! Shared helpers over `quick_xml`'s reader.
//!
//! The reader's events are turned into plain values here: what a tag, a text or a
//! reference says, with the entity unescaping that mapper bodies need.
use crate::lists::{take_all, take_next};
use crate::split::{after_last, tail_of};
use crate::text::{contains_char, owned};
use crate::textmap::TextMap;
use crate::util::{clean_javadoc, javadoc};
use quick_xml::events::Event;
use vstd::prelude::*;

verus! {

// ---------------------------------------------------------------------------
// Raw events

/// An event as the reader reports it, with nothing decoded.
#[derive(Debug)]
pub enum RawEvent {
    /// A start tag: its qualified name, and what follows the name.
    Start(String, String),
    /// An empty-element tag, likewise.
    Empty(String, String),
    /// An end tag: its qualified name.
    End(String),
    /// Character data, still escaped.
    Text(String),
    CData(String),
    /// The name between `&` and `;`.
    GeneralRef(String),
    Comment(String),
    /// A declaration, a processing instruction or a document type.
    Other,
}

/// The content of a [`RawEvent`].
pub enum RawEventView {
    Start(Seq<char>, Seq<char>),
    Empty(Seq<char>, Seq<char>),
    End(Seq<char>),
    Text(Seq<char>),
    CData(Seq<char>),
    GeneralRef(Seq<char>),
    Comment(Seq<char>),
    Other,
}

impl DeepView for RawEvent {
    type V = RawEventView;

    open spec fn deep_view(&self) -> RawEventView {
        match self {
            RawEvent::Start(n, a) => RawEventView::Start(n@, a@),
            RawEvent::Empty(n, a) => RawEventView::Empty(n@, a@),
            RawEvent::End(n) => RawEventView::End(n@),
            RawEvent::Text(t) => RawEventView::Text(t@),
            RawEvent::CData(t) => RawEventView::CData(t@),
            RawEvent::GeneralRef(t) => RawEventView::GeneralRef(t@),
            RawEvent::Comment(t) => RawEventView::Comment(t@),
            RawEvent::Other => RawEventView::Other,
        }
    }
}

#[verifier::external_type_specification]
#[verifier::external_body]
#[verifier::reject_recursive_types(R)]
pub struct ExReader<R>(quick_xml::Reader<R>);

/// The events that a reader yields before it next reports the end or an error.
pub uninterp spec fn events_left(rd: quick_xml::Reader<&[u8]>) -> Seq<RawEventView>;

/// The events of a document up to its end or to the first error in it.
pub uninterp spec fn xml_events(xml: Seq<char>) -> Seq<RawEventView>;

/// A reader configured for the hand-maintained XML found in legacy projects:
/// mismatched end tags tolerated, since a strict parse would abandon files that
/// still hold useful facts.
///
/// `quick_xml::Reader::from_str` starts at the beginning of the text, so all of
/// the document's events are left.
#[verifier::external_body]
fn reader(xml: &str) -> (r: quick_xml::Reader<&[u8]>)
    ensures
        events_left(r) == xml_events(xml@),
{
    let mut r = quick_xml::Reader::from_str(xml);
    r.config_mut().check_end_names = false;
    r
}

/// `quick_xml::Reader::read_event` yields the events one after the other. The end
/// and an error are both `None`; nothing is said of a reader after that.
#[verifier::external_body]
fn next_event(rd: &mut quick_xml::Reader<&[u8]>) -> (r: Option<RawEvent>)
    ensures
        events_left(*old(rd)).len() == 0 ==> r is None,
        events_left(*old(rd)).len() > 0 ==> r.deep_view() == Some(events_left(*old(rd))[0])
            && events_left(*final(rd)) == events_left(*old(rd)).skip(1),
{
    let ev = rd.read_event().ok()?;
    let text = ev.to_string();
    Some(match ev {
        Event::Eof => return None,
        Event::Start(e) => RawEvent::Start(e.name().0.into(), e.attributes_raw().into()),
        Event::Empty(e) => RawEvent::Empty(e.name().0.into(), e.attributes_raw().into()),
        Event::End(e) => RawEvent::End(e.name().0.into()),
        Event::Text(_) => RawEvent::Text(text),
        Event::CData(_) => RawEvent::CData(text),
        Event::GeneralRef(_) => RawEvent::GeneralRef(text),
        Event::Comment(_) => RawEvent::Comment(text),
        _ => RawEvent::Other,
    })
}

/// The events of a document, up to its end or to the first error: legacy files
/// contain malformed islands, and whatever was read before them is kept.
pub fn raw_events(xml: &str) -> (r: Vec<RawEvent>)
    ensures
        r.deep_view() == xml_events(xml@),
{
    let mut rd = reader(xml);
    let mut out: Vec<RawEvent> = Vec::new();
    let ghost all = xml_events(xml@);
    assert(all.skip(0) =~= all);
    assert(out.deep_view() =~= all.take(0));
    loop
        invariant
            all == xml_events(xml@),
            out.len() <= all.len(),
            out.deep_view() == all.take(out.len() as int),
            events_left(rd) == all.skip(out.len() as int),
        decreases all.len() - out.len(),
    {
        let ghost n = out.len() as int;
        match next_event(&mut rd) {
            Some(ev) => {
                assert(all.skip(n).len() > 0);
                assert(all.skip(n)[0] == all[n]);
                assert(all.skip(n).skip(1) =~= all.skip(n + 1));
                let ghost before = out.deep_view();
                out.push(ev);
                assert(out.deep_view() =~= before.push(all[n]));
                assert(all.take(n + 1) =~= before.push(all[n]));
            },
            None => {
                assert(all.skip(n).len() == 0);
                assert(all.take(n) =~= all);
                return out;
            },
        }
    }
}

// ---------------------------------------------------------------------------
// Attributes

/// The raw attributes in the text behind a tag's name.
pub uninterp spec fn tag_attributes(raw: Seq<char>) -> Seq<(Seq<char>, Seq<char>)>;

/// `quick_xml::events::attributes::Attributes` yields the attributes in the text,
/// each with its name and its value as written; those it reports as errors are
/// passed over.
#[verifier::external_body]
fn attribute_pairs(raw: &str) -> (r: Vec<(String, String)>)
    ensures
        r.deep_view() == tag_attributes(raw@),
{
    quick_xml::events::attributes::Attributes::new(raw, 0)
        .flatten()
        .map(|a| (a.key.0.to_string(), a.value.to_string()))
        .collect()
}

/// The normalized form of an attribute's value, where it has one.
pub uninterp spec fn attribute_value(raw: Seq<char>) -> Option<Seq<char>>;

/// `quick_xml::events::attributes::Attribute::normalized_value` resolves the
/// references in a value and normalizes its white space, or fails.
#[verifier::external_body]
fn normalized(raw: &str) -> (r: Option<String>)
    ensures
        r.deep_view() == attribute_value(raw@),
{
    let key = quick_xml::name::QName("");
    let a = quick_xml::events::attributes::Attribute { key, value: raw.into() };
    a.normalized_value(quick_xml::XmlVersion::Implicit1_0).ok().map(|v| v.into_owned())
}

/// The attributes by their local names; of two with one name the later counts, and
/// a value that cannot be normalized is empty.
pub open spec fn attr_map(l: Seq<(Seq<char>, Seq<char>)>) -> Map<Seq<char>, Seq<char>>
    decreases l.len(),
{
    if l.len() == 0 {
        Map::empty()
    } else {
        attr_map(l.drop_last()).insert(
            tail_of(l.last().0, ':'),
            match attribute_value(l.last().1) {
                Some(v) => v,
                None => Seq::empty(),
            },
        )
    }
}

/// Attributes as a map, with entity references resolved and prefixes stripped.
pub fn attrs(raw: &str) -> (r: TextMap<String>)
    ensures
        r.deep_view() == attr_map(tag_attributes(raw@)),
{
    let pairs = attribute_pairs(raw);
    let mut m: TextMap<String> = TextMap::new();
    let ghost d = pairs.deep_view();
    let mut i: usize = 0;
    while i < pairs.len()
        invariant
            i <= pairs.len(),
            d == pairs.deep_view(),
            m.deep_view() == attr_map(d.take(i as int)),
        decreases pairs.len() - i,
    {
        broadcast use take_next;

        let key = owned(after_last(pairs[i].0.as_str(), ':'));
        let val = match normalized(pairs[i].1.as_str()) {
            Some(v) => v,
            None => String::new(),
        };
        m.insert(key, val);
        assert(d[i as int] == (pairs@[i as int].0@, pairs@[i as int].1@));
        i += 1;
        assert(d.take(i as int) == d.take((i - 1) + 1));
    }
    broadcast use take_all;

    assert(d.take(i as int) == d);
    m
}

// ---------------------------------------------------------------------------
// Text

/// The unescaped form of character data, where it is well-formed.
pub uninterp spec fn unescaped(raw: Seq<char>) -> Option<Seq<char>>;

/// `quick_xml::escape::unescape` replaces the references in a text, or fails.
#[verifier::external_body]
fn unescape(raw: &str) -> (r: Option<String>)
    ensures
        r.deep_view() == unescaped(raw@),
{
    quick_xml::escape::unescape(raw).ok().map(|c| c.into_owned())
}

/// The character that a character reference stands for.
pub uninterp spec fn char_ref(name: Seq<char>) -> Option<char>;

/// `quick_xml::events::BytesRef::resolve_char_ref` reads `#60` and `#x3C`; a name
/// that does not begin with `#` is no character reference.
#[verifier::external_body]
fn resolve_char_ref(name: &str) -> (r: Option<char>)
    ensures
        r == char_ref(name@),
        (name@.len() == 0 || name@[0] != '#') ==> r is None,
{
    quick_xml::events::BytesRef::new(name).resolve_char_ref().ok().flatten()
}

/// The five entities that XML itself defines.
pub open spec fn predefined(name: Seq<char>) -> Option<Seq<char>> {
    if name == "lt"@ {
        Some("<"@)
    } else if name == "gt"@ {
        Some(">"@)
    } else if name == "amp"@ {
        Some("&"@)
    } else if name == "apos"@ {
        Some("'"@)
    } else if name == "quot"@ {
        Some("\""@)
    } else {
        None
    }
}

/// `quick_xml::escape::resolve_predefined_entity` knows the five entities that XML
/// defines.
#[verifier::external_body]
fn resolve_predefined_entity(name: &str) -> (r: Option<String>)
    ensures
        r.deep_view() == predefined(name@),
{
    quick_xml::escape::resolve_predefined_entity(name).map(|s| s.to_string())
}

/// What a reference says: its character, or its predefined entity. An unknown
/// entity keeps its source form rather than vanishing.
pub open spec fn reference_text(name: Seq<char>) -> Seq<char> {
    match char_ref(name) {
        Some(c) => seq![c],
        None => match predefined(name) {
            Some(s) => s,
            None => "&"@ + name + ";"@,
        },
    }
}

/// The character data of an event, where it has any.
pub open spec fn text_in(ev: RawEventView) -> Option<Seq<char>> {
    match ev {
        RawEventView::Text(raw) => Some(
            match unescaped(raw) {
                Some(t) => t,
                None => raw,
            },
        ),
        RawEventView::CData(t) => Some(t),
        RawEventView::GeneralRef(name) => Some(reference_text(name)),
        _ => None,
    }
}

/// True for the events [`text_of`] can turn into character data.
pub fn is_text(ev: &RawEvent) -> (r: bool)
    ensures
        r == (text_in(ev.deep_view()) is Some),
{
    matches!(ev, RawEvent::Text(_) | RawEvent::CData(_) | RawEvent::GeneralRef(_))
}

/// What the character data `raw` says.
fn plain_text(raw: &str) -> (r: String)
    ensures
        Some(r@) == text_in(RawEventView::Text(raw@)),
{
    match unescape(raw) {
        Some(t) => t,
        None => owned(raw),
    }
}

/// What the reference `name` says.
fn entity_text(name: &str) -> (r: String)
    ensures
        r@ == reference_text(name@),
{
    match resolve_char_ref(name) {
        Some(c) => {
            let mut s = String::new();
            s.push(c);
            assert(s@ =~= seq![c]);
            s
        },
        None => match resolve_predefined_entity(name) {
            Some(s) => s,
            None => {
                let mut s = owned("&");
                s.append(name);
                s.append(";");
                s
            },
        },
    }
}

/// Character data of a text, CDATA or entity-reference event.
///
/// The reader reports `&lt;` as an event of its own rather than as part of the
/// surrounding text, so a caller that only handles `Text` would silently drop every
/// `<=` in a mapper's SQL — splitting statements mid-expression and losing table
/// references. Resolving the reference back into the stream keeps bodies intact.
pub fn text_of(ev: &RawEvent) -> (r: Option<String>)
    ensures
        r.deep_view() == text_in(ev.deep_view()),
{
    match ev {
        RawEvent::Text(t) => Some(plain_text(t.as_str())),
        // CDATA is literal by definition; unescaping it would be wrong.
        RawEvent::CData(c) => Some(c.clone()),
        RawEvent::GeneralRef(name) => Some(entity_text(name.as_str())),
        _ => None,
    }
}

/// An entity that is neither a character reference nor predefined stays as written.
pub proof fn unknown_entity_kept(name: Seq<char>)
    requires
        char_ref(name) is None,
        predefined(name) is None,
    ensures
        text_in(RawEventView::GeneralRef(name)) == Some("&"@ + name + ";"@),
{
}

/// A comment's prose, where it is documentation: a comment with markup in it is not.
pub open spec fn prose_of(raw: Seq<char>) -> Option<Seq<char>> {
    if raw.contains('<') {
        None
    } else {
        javadoc(raw)
    }
}

/// A comment's prose, or `None` when it is commented-out markup rather than
/// documentation. Legacy configs are full of disabled beans, and treating those
/// as a description of the next live element produces confidently wrong docs.
pub fn comment_doc(raw: &str) -> (r: Option<String>)
    ensures
        r.deep_view() == prose_of(raw@),
{
    if contains_char(raw, '<') {
        return None;
    }
    clean_javadoc(raw)
}

// ---------------------------------------------------------------------------
// Decoded events

/// A tag: its qualified name and its attributes.
pub struct XmlTag {
    pub name: String,
    pub attrs: TextMap<String>,
}

/// The content of a [`XmlTag`].
#[verifier::ext_equal]
pub struct XmlTagView {
    pub name: Seq<char>,
    pub attrs: Map<Seq<char>, Seq<char>>,
}

impl DeepView for XmlTag {
    type V = XmlTagView;

    open spec fn deep_view(&self) -> XmlTagView {
        XmlTagView {
            name: self.name.deep_view(),
            attrs: self.attrs.deep_view(),
        }
    }
}

/// An event with its attributes and character data decoded.
pub enum XmlEvent {
    Start(XmlTag),
    Empty(XmlTag),
    /// The qualified name of an end tag.
    End(String),
    Text(String),
    CData(String),
    /// What an entity or character reference stands for.
    Entity(String),
    Comment(String),
    Other,
}

/// The content of an [`XmlEvent`].
pub enum XmlEventView {
    Start(XmlTagView),
    Empty(XmlTagView),
    End(Seq<char>),
    Text(Seq<char>),
    CData(Seq<char>),
    Entity(Seq<char>),
    Comment(Seq<char>),
    Other,
}

impl DeepView for XmlEvent {
    type V = XmlEventView;

    open spec fn deep_view(&self) -> XmlEventView {
        match self {
            XmlEvent::Start(t) => XmlEventView::Start(t.deep_view()),
            XmlEvent::Empty(t) => XmlEventView::Empty(t.deep_view()),
            XmlEvent::End(n) => XmlEventView::End(n@),
            XmlEvent::Text(t) => XmlEventView::Text(t@),
            XmlEvent::CData(t) => XmlEventView::CData(t@),
            XmlEvent::Entity(t) => XmlEventView::Entity(t@),
            XmlEvent::Comment(t) => XmlEventView::Comment(t@),
            XmlEvent::Other => XmlEventView::Other,
        }
    }
}

/// Qualified element name, e.g. `dubbo:service`.
pub fn qname(e: &XmlTag) -> (r: String)
    ensures
        r@ == e.deep_view().name,
{
    e.name.clone()
}

/// Element name without its namespace prefix.
pub fn local(e: &XmlTag) -> (r: String)
    ensures
        r@ == tail_of(e.deep_view().name, ':'),
{
    owned(after_last(e.name.as_str(), ':'))
}

/// The attribute `key` of a tag.
pub open spec fn attr_of(t: XmlTagView, key: Seq<char>) -> Option<Seq<char>> {
    if t.attrs.dom().contains(key) {
        Some(t.attrs[key])
    } else {
        None
    }
}

/// A copy of the attribute `key`, where the tag has it.
pub fn attr(e: &XmlTag, key: &str) -> (r: Option<String>)
    ensures
        r.deep_view() == attr_of(e.deep_view(), key@),
{
    match e.attrs.get(key) {
        Some(v) => Some(v.clone()),
        None => None,
    }
}

pub open spec fn tag_of(name: Seq<char>, raw: Seq<char>) -> XmlTagView {
    XmlTagView { name, attrs: attr_map(tag_attributes(raw)) }
}

/// What a raw event says.
pub open spec fn decoded(ev: RawEventView) -> XmlEventView {
    match ev {
        RawEventView::Start(n, a) => XmlEventView::Start(tag_of(n, a)),
        RawEventView::Empty(n, a) => XmlEventView::Empty(tag_of(n, a)),
        RawEventView::End(n) => XmlEventView::End(n),
        RawEventView::Text(_) => XmlEventView::Text(text_in(ev)->0),
        RawEventView::CData(t) => XmlEventView::CData(t),
        RawEventView::GeneralRef(n) => XmlEventView::Entity(reference_text(n)),
        RawEventView::Comment(t) => XmlEventView::Comment(t),
        RawEventView::Other => XmlEventView::Other,
    }
}

fn decode(ev: &RawEvent) -> (r: XmlEvent)
    ensures
        r.deep_view() == decoded(ev.deep_view()),
{
    match ev {
        RawEvent::Start(n, a) => XmlEvent::Start(
            XmlTag { name: n.clone(), attrs: attrs(a.as_str()) },
        ),
        RawEvent::Empty(n, a) => XmlEvent::Empty(
            XmlTag { name: n.clone(), attrs: attrs(a.as_str()) },
        ),
        RawEvent::End(n) => XmlEvent::End(n.clone()),
        RawEvent::Text(t) => XmlEvent::Text(plain_text(t.as_str())),
        RawEvent::CData(t) => XmlEvent::CData(t.clone()),
        RawEvent::GeneralRef(n) => XmlEvent::Entity(entity_text(n.as_str())),
        RawEvent::Comment(t) => XmlEvent::Comment(t.clone()),
        RawEvent::Other => XmlEvent::Other,
    }
}

/// What the events of a document say.
pub open spec fn document(xml: Seq<char>) -> Seq<XmlEventView> {
    xml_events(xml).map_values(|e: RawEventView| decoded(e))
}

/// The events of a document, decoded.
pub fn events(xml: &str) -> (r: Vec<XmlEvent>)
    ensures
        r.deep_view() == document(xml@),
{
    let raw = raw_events(xml);
    let mut out: Vec<XmlEvent> = Vec::new();
    let ghost d = document(xml@);
    let mut i: usize = 0;
    while i < raw.len()
        invariant
            i <= raw.len(),
            raw.deep_view() == xml_events(xml@),
            d == document(xml@),
            out.deep_view() == d.take(i as int),
        decreases raw.len() - i,
    {
        let ghost before = out.deep_view();
        let ev = decode(&raw[i]);
        assert(raw.deep_view()[i as int] == raw@[i as int].deep_view());
        assert(ev.deep_view() == d[i as int]);
        out.push(ev);
        assert(out.deep_view() =~= before.push(d[i as int]));
        i += 1;
        assert(d.take(i as int) =~= before.push(d[i - 1]));
    }
    assert(d.take(i as int) =~= d);
    out
}

} // verus!

