//! Value types shared between extraction, structure and render layers.
use crate::lists::{clone_pairs, first_where};
use crate::text::same;
use vstd::prelude::*;

verus! {

/// What kind of symbol a row in `symbols` describes.
#[derive(Debug, Clone, Copy, PartialEq, Eq, Structural)]
pub enum SymbolKind {
    Class,
    Interface,
    Enum,
    EnumMember,
    Method,
    Field,
    Constant,
    Annotation,
    Record,
}

impl DeepView for SymbolKind {
    type V = SymbolKind;

    open spec fn deep_view(&self) -> SymbolKind {
        *self
    }
}

impl SymbolKind {
    pub open spec fn name(self) -> Seq<char> {
        match self {
            SymbolKind::Class => "class"@,
            SymbolKind::Interface => "interface"@,
            SymbolKind::Enum => "enum"@,
            SymbolKind::EnumMember => "enum_member"@,
            SymbolKind::Method => "method"@,
            SymbolKind::Field => "field"@,
            SymbolKind::Constant => "constant"@,
            SymbolKind::Annotation => "annotation"@,
            SymbolKind::Record => "record"@,
        }
    }

    pub fn as_str(self) -> (r: &'static str)
        ensures
            r@ == self.name(),
    {
        match self {
            SymbolKind::Class => "class",
            SymbolKind::Interface => "interface",
            SymbolKind::Enum => "enum",
            SymbolKind::EnumMember => "enum_member",
            SymbolKind::Method => "method",
            SymbolKind::Field => "field",
            SymbolKind::Constant => "constant",
            SymbolKind::Annotation => "annotation",
            SymbolKind::Record => "record",
        }
    }

    /// True for symbols that can own a body and therefore participate in call graphs.
    pub fn is_callable(self) -> (r: bool)
        ensures
            r == (self is Method),
    {
        matches!(self, SymbolKind::Method)
    }
}

/// A SQL operation observed against a table.
#[derive(Debug, Clone, Copy, PartialEq, Eq, Structural)]
pub enum TableOp {
    Select,
    Insert,
    Update,
    Delete,
}

impl DeepView for TableOp {
    type V = TableOp;

    open spec fn deep_view(&self) -> TableOp {
        *self
    }
}

impl TableOp {
    pub open spec fn name(self) -> Seq<char> {
        match self {
            TableOp::Select => "select"@,
            TableOp::Insert => "insert"@,
            TableOp::Update => "update"@,
            TableOp::Delete => "delete"@,
        }
    }

    pub fn as_str(self) -> (r: &'static str)
        ensures
            r@ == self.name(),
    {
        match self {
            TableOp::Select => "select",
            TableOp::Insert => "insert",
            TableOp::Update => "update",
            TableOp::Delete => "delete",
        }
    }
}

/// How the system can be entered from outside.
#[derive(Debug, Clone, Copy, PartialEq, Eq, Structural)]
pub enum EntrypointKind {
    /// Dubbo RPC service exported via `<dubbo:service>`.
    Dubbo,
    /// HTTP route from Spring MVC annotations.
    Http,
    /// Scheduled job (XXL-Job handler or job-module service).
    Job,
    /// Message queue consumer.
    Mq,
}

impl DeepView for EntrypointKind {
    type V = EntrypointKind;

    open spec fn deep_view(&self) -> EntrypointKind {
        *self
    }
}

impl EntrypointKind {
    pub open spec fn name(self) -> Seq<char> {
        match self {
            EntrypointKind::Dubbo => "dubbo"@,
            EntrypointKind::Http => "http"@,
            EntrypointKind::Job => "job"@,
            EntrypointKind::Mq => "mq"@,
        }
    }

    pub open spec fn label(self) -> Seq<char> {
        match self {
            EntrypointKind::Dubbo => "Dubbo 接口"@,
            EntrypointKind::Http => "HTTP 路由"@,
            EntrypointKind::Job => "定时任务"@,
            EntrypointKind::Mq => "消息消费"@,
        }
    }

    pub fn as_str(self) -> (r: &'static str)
        ensures
            r@ == self.name(),
    {
        match self {
            EntrypointKind::Dubbo => "dubbo",
            EntrypointKind::Http => "http",
            EntrypointKind::Job => "job",
            EntrypointKind::Mq => "mq",
        }
    }

    pub fn label_zh(self) -> (r: &'static str)
        ensures
            r@ == self.label(),
    {
        match self {
            EntrypointKind::Dubbo => "Dubbo 接口",
            EntrypointKind::Http => "HTTP 路由",
            EntrypointKind::Job => "定时任务",
            EntrypointKind::Mq => "消息消费",
        }
    }
}

/// A parsed annotation, reduced to what resolution needs.
#[derive(Debug)]
pub struct Annotation {
    pub name: String,
    /// Raw argument text keyed by parameter name; positional args use `"value"`.
    pub args: Vec<(String, String)>,
}

/// The content of a [`Annotation`].
#[verifier::ext_equal]
pub struct AnnotationView {
    pub name: Seq<char>,
    pub args: Seq<(Seq<char>, Seq<char>)>,
}

impl DeepView for Annotation {
    type V = AnnotationView;

    open spec fn deep_view(&self) -> AnnotationView {
        AnnotationView {
            name: self.name.deep_view(),
            args: self.args.deep_view(),
        }
    }
}

impl Clone for Annotation {
    fn clone(&self) -> (r: Self)
        ensures
            r.deep_view() == self.deep_view(),
    {
        Annotation {
            name: self.name.clone(),
            args: clone_pairs(&self.args),
        }
    }
}

/// Whether an argument is named `key`.
pub open spec fn arg_named(key: Seq<char>) -> spec_fn((Seq<char>, Seq<char>)) -> bool {
    |p: (Seq<char>, Seq<char>)| p.0 == key
}

/// The value of the first argument named `key`.
pub open spec fn arg_of(a: AnnotationView, key: Seq<char>) -> Option<Seq<char>> {
    match first_where(a.args, arg_named(key)) {
        Some(p) => Some(p.1),
        None => None,
    }
}

impl Annotation {
    pub fn arg(&self, key: &str) -> (r: Option<&str>)
        ensures
            r.deep_view() == arg_of(self.deep_view(), key@),
    {
        let ghost l = self.args.deep_view();
        let ghost f = arg_named(key@);
        let mut i: usize = 0;
        assert(l.skip(0) =~= l);
        while i < self.args.len()
            invariant
                i <= self.args.len(),
                l == self.args.deep_view(),
                f == arg_named(key@),
                first_where(l, f) == first_where(l.skip(i as int), f),
            decreases self.args.len() - i,
        {
            assert(l.skip(i as int)[0] == l[i as int]);
            assert(l[i as int] == (self.args@[i as int].0@, self.args@[i as int].1@));
            if same(self.args[i].0.as_str(), key) {
                return Some(self.args[i].1.as_str());
            }
            assert(l.skip(i as int).skip(1) =~= l.skip(i + 1));
            i += 1;
        }
        None
    }

    /// The conventional single argument, accepting both `@X("v")` and `@X(value = "v")`.
    pub fn value(&self) -> (r: Option<&str>)
        ensures
            r.deep_view() == arg_of(self.deep_view(), "value"@),
    {
        self.arg("value")
    }
}

/// One symbol as produced by a language probe, before it gets an id.
#[derive(Debug)]
pub struct RawSymbol {
    pub kind: SymbolKind,
    pub name: String,
    pub fqn: Option<String>,
    pub signature: Option<String>,
    pub start_line: u32,
    pub end_line: u32,
    pub doc: Option<String>,
    pub visibility: Option<String>,
    /// Index into the same batch's symbol vector.
    pub parent: Option<usize>,
    pub annotations: Vec<Annotation>,
    /// Unresolved callee names collected from the body.
    pub calls: Vec<String>,
    /// Names in the `extends`/`implements` clauses of a type declaration.
    ///
    /// These projects call services through their interfaces, so without the
    /// interface-to-implementation link a call graph stops dead at every service
    /// boundary and no trace ever reaches a table.
    pub supertypes: Vec<String>,
}

/// The content of a [`RawSymbol`].
#[verifier::ext_equal]
pub struct RawSymbolView {
    pub kind: SymbolKind,
    pub name: Seq<char>,
    pub fqn: Option<Seq<char>>,
    pub signature: Option<Seq<char>>,
    pub start_line: u32,
    pub end_line: u32,
    pub doc: Option<Seq<char>>,
    pub visibility: Option<Seq<char>>,
    pub parent: Option<usize>,
    pub annotations: Seq<AnnotationView>,
    pub calls: Seq<Seq<char>>,
    pub supertypes: Seq<Seq<char>>,
}

impl DeepView for RawSymbol {
    type V = RawSymbolView;

    open spec fn deep_view(&self) -> RawSymbolView {
        RawSymbolView {
            kind: self.kind,
            name: self.name.deep_view(),
            fqn: self.fqn.deep_view(),
            signature: self.signature.deep_view(),
            start_line: self.start_line,
            end_line: self.end_line,
            doc: self.doc.deep_view(),
            visibility: self.visibility.deep_view(),
            parent: self.parent.deep_view(),
            annotations: self.annotations.deep_view(),
            calls: self.calls.deep_view(),
            supertypes: self.supertypes.deep_view(),
        }
    }
}

impl Clone for RawSymbol {
    fn clone(&self) -> (r: Self)
        ensures
            r.deep_view() == self.deep_view(),
    {
        RawSymbol {
            kind: self.kind,
            name: self.name.clone(),
            fqn: self.fqn.clone(),
            signature: self.signature.clone(),
            start_line: self.start_line,
            end_line: self.end_line,
            doc: self.doc.clone(),
            visibility: self.visibility.clone(),
            parent: self.parent.clone(),
            annotations: self.annotations.clone(),
            calls: self.calls.clone(),
            supertypes: self.supertypes.clone(),
        }
    }
}

/// Per-file extraction result from the Java probe.
#[derive(Debug)]
pub struct JavaFile {
    pub package: Option<String>,
    pub imports: Vec<String>,
    pub symbols: Vec<RawSymbol>,
    pub had_parse_error: bool,
}

/// The content of a [`JavaFile`].
#[verifier::ext_equal]
pub struct JavaFileView {
    pub package: Option<Seq<char>>,
    pub imports: Seq<Seq<char>>,
    pub symbols: Seq<RawSymbolView>,
    pub had_parse_error: bool,
}

impl DeepView for JavaFile {
    type V = JavaFileView;

    open spec fn deep_view(&self) -> JavaFileView {
        JavaFileView {
            package: self.package.deep_view(),
            imports: self.imports.deep_view(),
            symbols: self.symbols.deep_view(),
            had_parse_error: self.had_parse_error,
        }
    }
}

impl Clone for JavaFile {
    fn clone(&self) -> (r: Self)
        ensures
            r.deep_view() == self.deep_view(),
    {
        JavaFile {
            package: self.package.clone(),
            imports: self.imports.clone(),
            symbols: self.symbols.clone(),
            had_parse_error: self.had_parse_error,
        }
    }
}

} // verus!

