//! Java pass: the project-wide symbol table, and the call edges it resolves.
use crate::lists::{first_where, take_all, take_next};
use crate::split::{
    after_last, before_first, cut_once, head_of, rcut_once, rsplit_once, split_once, tail_of, words,
    words_of,
};
use crate::store::model::{JavaFile, JavaFileView, RawSymbol, RawSymbolView, SymbolKind};
use crate::text::{owned, same, trim, trimmed};
use crate::textmap::TextMap;
use vstd::prelude::*;

verus! {

/// A parsed file with the ids of the rows of its symbols.
#[derive(Debug)]
pub struct ParsedFile {
    pub rel: String,
    pub file: JavaFile,
    pub ids: Vec<i64>,
}

/// The content of a [`ParsedFile`].
#[verifier::ext_equal]
pub struct ParsedFileView {
    pub rel: Seq<char>,
    pub file: JavaFileView,
    pub ids: Seq<i64>,
}

impl DeepView for ParsedFile {
    type V = ParsedFileView;

    open spec fn deep_view(&self) -> ParsedFileView {
        ParsedFileView {
            rel: self.rel.deep_view(),
            file: self.file.deep_view(),
            ids: self.ids.deep_view(),
        }
    }
}

/// What later passes need to know about the Java layer.
pub struct JavaIndex {
    /// FQN → symbol id, for every type.
    pub types: TextMap<i64>,
    /// Simple class name → FQN. Ambiguous names are dropped rather than guessed.
    pub simple_names: TextMap<String>,
    /// Type FQN → its file's relative path.
    pub type_files: TextMap<String>,
    /// `Type#method` → symbol id.
    pub methods: TextMap<i64>,
    /// Type FQN → method names it declares, with their symbol ids.
    pub methods_by_type: TextMap<Vec<(String, i64)>>,
    /// Type FQN → Javadoc, used when an entrypoint has no doc of its own.
    pub type_docs: TextMap<String>,
    /// Interface or superclass FQN → types that declare it as a supertype.
    pub implementors: TextMap<Vec<String>>,
}

/// The content of a [`JavaIndex`].
#[verifier::ext_equal]
pub struct JavaIndexView {
    pub types: Map<Seq<char>, i64>,
    pub simple_names: Map<Seq<char>, Seq<char>>,
    pub type_files: Map<Seq<char>, Seq<char>>,
    pub methods: Map<Seq<char>, i64>,
    pub methods_by_type: Map<Seq<char>, Seq<(Seq<char>, i64)>>,
    pub type_docs: Map<Seq<char>, Seq<char>>,
    pub implementors: Map<Seq<char>, Seq<Seq<char>>>,
}

impl DeepView for JavaIndex {
    type V = JavaIndexView;

    open spec fn deep_view(&self) -> JavaIndexView {
        JavaIndexView {
            types: self.types.deep_view(),
            simple_names: self.simple_names.deep_view(),
            type_files: self.type_files.deep_view(),
            methods: self.methods.deep_view(),
            methods_by_type: self.methods_by_type.deep_view(),
            type_docs: self.type_docs.deep_view(),
            implementors: self.implementors.deep_view(),
        }
    }
}

pub open spec fn empty_index() -> JavaIndexView {
    JavaIndexView {
        types: Map::empty(),
        simple_names: Map::empty(),
        type_files: Map::empty(),
        methods: Map::empty(),
        methods_by_type: Map::empty(),
        type_docs: Map::empty(),
        implementors: Map::empty(),
    }
}

impl JavaIndex {
    pub fn new() -> (r: Self)
        ensures
            r.deep_view() == empty_index(),
    {
        JavaIndex {
            types: TextMap::new(),
            simple_names: TextMap::new(),
            type_files: TextMap::new(),
            methods: TextMap::new(),
            methods_by_type: TextMap::new(),
            type_docs: TextMap::new(),
            implementors: TextMap::new(),
        }
    }
}

// ---------------------------------------------------------------------------
// The symbol table

/// An index that is being built.
pub struct Indexing {
    pub index: JavaIndexView,
    /// Simple names seen more than once cannot be resolved unambiguously.
    pub ambiguous: Seq<Seq<char>>,
    /// Supertype simple names per type, resolved once every type is known.
    pub supertypes: Seq<(Seq<char>, Seq<Seq<char>>)>,
}

/// Whether a symbol of the kind is a type.
pub open spec fn is_type(kind: SymbolKind) -> bool {
    ||| kind == SymbolKind::Class
    ||| kind == SymbolKind::Interface
    ||| kind == SymbolKind::Enum
    ||| kind == SymbolKind::Record
    ||| kind == SymbolKind::Annotation
}

/// The list under a key, or none.
pub open spec fn listed<T>(m: Map<Seq<char>, Seq<T>>, k: Seq<char>) -> Seq<T> {
    if m.dom().contains(k) {
        m[k]
    } else {
        Seq::empty()
    }
}

/// What one symbol adds to the index.
pub open spec fn with_symbol(s: Indexing, rel: Seq<char>, sym: RawSymbolView, id: i64) -> Indexing {
    match sym.fqn {
        Some(fqn) => if is_type(sym.kind) {
            Indexing {
                index: JavaIndexView {
                    types: s.index.types.insert(fqn, id),
                    type_files: s.index.type_files.insert(fqn, rel),
                    type_docs: match sym.doc {
                        Some(d) => s.index.type_docs.insert(fqn, d),
                        None => s.index.type_docs,
                    },
                    simple_names: s.index.simple_names.insert(sym.name, fqn),
                    ..s.index
                },
                ambiguous: if s.index.simple_names.dom().contains(sym.name) {
                    s.ambiguous.push(sym.name)
                } else {
                    s.ambiguous
                },
                supertypes: if sym.supertypes.len() > 0 {
                    s.supertypes.push((fqn, sym.supertypes))
                } else {
                    s.supertypes
                },
            }
        } else if sym.kind == SymbolKind::Method {
            Indexing {
                index: JavaIndexView {
                    methods: s.index.methods.insert(fqn, id),
                    methods_by_type: match rcut_once(fqn, '#') {
                        Some(p) => s.index.methods_by_type.insert(
                            p.0,
                            listed(s.index.methods_by_type, p.0).push((p.1, id)),
                        ),
                        None => s.index.methods_by_type,
                    },
                    ..s.index
                },
                ..s
            }
        } else {
            s
        },
        None => s,
    }
}

/// What the first `n` symbols of a file add; a symbol without a row adds nothing.
pub open spec fn with_symbols(s: Indexing, f: ParsedFileView, n: nat) -> Indexing
    decreases n,
{
    if n == 0 || n > f.file.symbols.len() || n > f.ids.len() {
        s
    } else {
        with_symbol(
            with_symbols(s, f, (n - 1) as nat),
            f.rel,
            f.file.symbols[n - 1],
            f.ids[n - 1],
        )
    }
}

/// How many symbols of a file have a row.
pub open spec fn stored(f: ParsedFileView) -> nat {
    if f.file.symbols.len() <= f.ids.len() {
        f.file.symbols.len()
    } else {
        f.ids.len()
    }
}

pub open spec fn with_files(fs: Seq<ParsedFileView>) -> Indexing
    decreases fs.len(),
{
    if fs.len() == 0 {
        Indexing { index: empty_index(), ambiguous: Seq::empty(), supertypes: Seq::empty() }
    } else {
        with_symbols(with_files(fs.drop_last()), fs.last(), stored(fs.last()))
    }
}

/// The names without those in the list.
pub open spec fn without(m: Map<Seq<char>, Seq<char>>, names: Seq<Seq<char>>) -> Map<
    Seq<char>,
    Seq<char>,
>
    decreases names.len(),
{
    if names.len() == 0 {
        m
    } else {
        without(m, names.drop_last()).remove(names.last())
    }
}

/// The type that a supertype's name stands for: by its simple name, else it is
/// qualified and needs no lookup.
pub open spec fn super_target(x: JavaIndexView, name: Seq<char>) -> Option<Seq<char>> {
    if x.simple_names.dom().contains(name) {
        Some(x.simple_names[name])
    } else if x.types.dom().contains(name) {
        Some(name)
    } else {
        None
    }
}

/// The implementors with those that one type's first supertypes add.
pub open spec fn with_supers(
    x: JavaIndexView,
    m: Map<Seq<char>, Seq<Seq<char>>>,
    fqn: Seq<char>,
    supers: Seq<Seq<char>>,
) -> Map<Seq<char>, Seq<Seq<char>>>
    decreases supers.len(),
{
    if supers.len() == 0 {
        m
    } else {
        let before = with_supers(x, m, fqn, supers.drop_last());
        match super_target(x, supers.last()) {
            Some(t) => before.insert(t, listed(before, t).push(fqn)),
            None => before,
        }
    }
}

pub open spec fn implementors_of(
    x: JavaIndexView,
    raw: Seq<(Seq<char>, Seq<Seq<char>>)>,
) -> Map<Seq<char>, Seq<Seq<char>>>
    decreases raw.len(),
{
    if raw.len() == 0 {
        Map::empty()
    } else {
        with_supers(x, implementors_of(x, raw.drop_last()), raw.last().0, raw.last().1)
    }
}

/// The index of a project's files.
pub open spec fn index_of(fs: Seq<ParsedFileView>) -> JavaIndexView {
    let s = with_files(fs);
    let x = JavaIndexView { simple_names: without(s.index.simple_names, s.ambiguous), ..s.index };
    JavaIndexView { implementors: implementors_of(x, s.supertypes), ..x }
}

fn clone_methods(v: &Vec<(String, i64)>) -> (r: Vec<(String, i64)>)
    ensures
        r.deep_view() == v.deep_view(),
{
    let ghost d = v.deep_view();
    let mut out: Vec<(String, i64)> = Vec::new();
    let mut i: usize = 0;
    while i < v.len()
        invariant
            i <= v.len(),
            d == v.deep_view(),
            out.deep_view() == d.take(i as int),
        decreases v.len() - i,
    {
        let ghost before = out.deep_view();
        out.push((v[i].0.clone(), v[i].1));
        assert(d[i as int] == (v@[i as int].0@, v@[i as int].1));
        assert(out.deep_view() =~= before.push(d[i as int]));
        i += 1;
        assert(d.take(i as int) =~= before.push(d[i - 1]));
    }
    assert(d.take(i as int) =~= d);
    out
}

/// The state of [`Indexing`] in memory.
pub struct Indexer {
    pub index: JavaIndex,
    pub ambiguous: Vec<String>,
    pub supertypes: Vec<(String, Vec<String>)>,
}

/// The content of a [`Indexer`].
#[verifier::ext_equal]
pub struct IndexerView {
    pub index: JavaIndexView,
    pub ambiguous: Seq<Seq<char>>,
    pub supertypes: Seq<(Seq<char>, Seq<Seq<char>>)>,
}

impl DeepView for Indexer {
    type V = IndexerView;

    open spec fn deep_view(&self) -> IndexerView {
        IndexerView {
            index: self.index.deep_view(),
            ambiguous: self.ambiguous.deep_view(),
            supertypes: self.supertypes.deep_view(),
        }
    }
}

/// An indexer as the index that is being built.
pub open spec fn indexing(s: IndexerView) -> Indexing {
    Indexing { index: s.index, ambiguous: s.ambiguous, supertypes: s.supertypes }
}

impl Indexer {
    fn add(&mut self, rel: &str, sym: &RawSymbol, id: i64)
        ensures
            indexing(final(self).deep_view()) == with_symbol(
                indexing(old(self).deep_view()),
                rel@,
                sym.deep_view(),
                id,
            ),
    {
        let ghost s0 = self.deep_view();
        let ghost v = sym.deep_view();
        let fqn = match &sym.fqn {
            Some(f) => f,
            None => {
                return;
            },
        };
        match sym.kind {
            SymbolKind::Class
            | SymbolKind::Interface
            | SymbolKind::Enum
            | SymbolKind::Record
            | SymbolKind::Annotation => {
                self.index.types.insert(fqn.clone(), id);
                self.index.type_files.insert(fqn.clone(), owned(rel));
                match &sym.doc {
                    Some(doc) => {
                        self.index.type_docs.insert(fqn.clone(), doc.clone());
                    },
                    None => {},
                }
                if self.index.simple_names.contains_key(sym.name.as_str()) {
                    self.ambiguous.push(sym.name.clone());
                    assert(self.deep_view().ambiguous =~= s0.ambiguous.push(v.name));
                }
                self.index.simple_names.insert(sym.name.clone(), fqn.clone());
                if sym.supertypes.len() > 0 {
                    let x = (fqn.clone(), sym.supertypes.clone());
                    self.supertypes.push(x);
                    assert(self.deep_view().supertypes =~= s0.supertypes.push(
                        (fqn@, v.supertypes),
                    ));
                }
            },
            SymbolKind::Method => {
                self.index.methods.insert(fqn.clone(), id);
                match rsplit_once(fqn.as_str(), '#') {
                    Some(p) => {
                        let mut list: Vec<(String, i64)> = match self.index.methods_by_type.get(
                            p.0,
                        ) {
                            Some(l) => clone_methods(l),
                            None => Vec::new(),
                        };
                        let ghost l0 = list.deep_view();
                        assert(l0 =~= listed(s0.index.methods_by_type, p.0@));
                        list.push((owned(p.1), id));
                        assert(list.deep_view() =~= l0.push((p.1@, id)));
                        self.index.methods_by_type.insert(owned(p.0), list);
                    },
                    None => {},
                }
            },
            _ => {},
        }
    }

    fn add_file(&mut self, f: &ParsedFile)
        ensures
            indexing(final(self).deep_view()) == with_symbols(
                indexing(old(self).deep_view()),
                f.deep_view(),
                stored(f.deep_view()),
            ),
    {
        let ghost s0 = indexing(self.deep_view());
        let ghost v = f.deep_view();
        let mut i: usize = 0;
        while i < f.file.symbols.len() && i < f.ids.len()
            invariant
                i <= f.file.symbols.len(),
                i <= f.ids.len(),
                v == f.deep_view(),
                indexing(self.deep_view()) == with_symbols(s0, v, i as nat),
            decreases f.file.symbols.len() - i,
        {
            assert(v.file.symbols[i as int] == f.file.symbols@[i as int].deep_view());
            assert(v.ids[i as int] == f.ids@[i as int]);
            self.add(f.rel.as_str(), &f.file.symbols[i], f.ids[i]);
            i += 1;
        }
    }

    fn drop_ambiguous(&mut self)
        ensures
            final(self).deep_view() == (IndexerView {
                index: JavaIndexView {
                    simple_names: without(
                        old(self).deep_view().index.simple_names,
                        old(self).deep_view().ambiguous,
                    ),
                    ..old(self).deep_view().index
                },
                ..old(self).deep_view()
            }),
    {
        let ghost s0 = self.deep_view();
        let mut i: usize = 0;
        let ghost names = s0.ambiguous;
        assert(names.take(0) =~= Seq::empty());
        while i < self.ambiguous.len()
            invariant
                i <= self.ambiguous.len(),
                names == s0.ambiguous,
                self.deep_view() == (IndexerView {
                    index: JavaIndexView {
                        simple_names: without(s0.index.simple_names, names.take(i as int)),
                        ..s0.index
                    },
                    ..s0
                }),
            decreases self.ambiguous.len() - i,
        {
            broadcast use take_next;

            assert(self.deep_view().ambiguous[i as int] == self.ambiguous@[i as int]@);
            assert(names.take(i + 1).last() == names[i as int]);
            let name = self.ambiguous[i].clone();
            self.index.simple_names.remove(name.as_str());
            i += 1;
        }
        broadcast use take_all;

        assert(names.take(i as int) == names);
    }
}

fn find_target(index: &JavaIndex, name: &str) -> (r: Option<String>)
    ensures
        r.deep_view() == super_target(index.deep_view(), name@),
{
    match index.simple_names.get(name) {
        Some(t) => Some(t.clone()),
        None => if index.types.contains_key(name) {
            Some(owned(name))
        } else {
            None
        },
    }
}

fn find_implementors(index: &JavaIndex, raw: &Vec<(String, Vec<String>)>) -> (r: TextMap<
    Vec<String>,
>)
    ensures
        r.deep_view() == implementors_of(index.deep_view(), raw.deep_view()),
{
    let ghost x = index.deep_view();
    let ghost d = raw.deep_view();
    let mut out: TextMap<Vec<String>> = TextMap::new();
    let mut i: usize = 0;
    while i < raw.len()
        invariant
            i <= raw.len(),
            x == index.deep_view(),
            d == raw.deep_view(),
            out.deep_view() == implementors_of(x, d.take(i as int)),
        decreases raw.len() - i,
    {
        broadcast use take_next;

        let fqn = &raw[i].0;
        let supers = &raw[i].1;
        let ghost start = out.deep_view();
        let ghost s = supers.deep_view();
        assert(d[i as int] == (fqn@, s));
        assert(d.take(i + 1).last() == d[i as int]);
        let mut k: usize = 0;
        assert(s.take(0) =~= Seq::empty());
        while k < supers.len()
            invariant
                k <= supers.len(),
                x == index.deep_view(),
                s == supers.deep_view(),
                out.deep_view() == with_supers(x, start, fqn@, s.take(k as int)),
            decreases supers.len() - k,
        {
            broadcast use take_next;

            assert(s[k as int] == supers@[k as int]@);
            assert(s.take(k + 1).last() == s[k as int]);
            match find_target(index, supers[k].as_str()) {
                Some(t) => {
                    let mut list: Vec<String> = match out.get(t.as_str()) {
                        Some(l) => l.clone(),
                        None => Vec::new(),
                    };
                    let ghost l0 = list.deep_view();
                    assert(l0 =~= listed(out.deep_view(), t@));
                    list.push(fqn.clone());
                    assert(list.deep_view() =~= l0.push(fqn@));
                    out.insert(t, list);
                },
                None => {},
            }
            k += 1;
        }
        assert(s.take(k as int) =~= s);
        i += 1;
    }
    assert(d.take(i as int) =~= d);
    out
}

/// The symbol table of a project's files.
pub fn build_index(files: &Vec<ParsedFile>) -> (r: JavaIndex)
    ensures
        r.deep_view() == index_of(files.deep_view()),
{
    let mut s = Indexer {
        index: JavaIndex::new(),
        ambiguous: Vec::new(),
        supertypes: Vec::new(),
    };
    let ghost d = files.deep_view();
    let mut i: usize = 0;
    assert(s.deep_view().ambiguous =~= Seq::empty());
    assert(s.deep_view().supertypes =~= Seq::empty());
    while i < files.len()
        invariant
            i <= files.len(),
            d == files.deep_view(),
            indexing(s.deep_view()) == with_files(d.take(i as int)),
        decreases files.len() - i,
    {
        broadcast use take_next;

        assert(d[i as int] == files@[i as int].deep_view());
        assert(d.take(i + 1).last() == d[i as int]);
        s.add_file(&files[i]);
        i += 1;
    }
    broadcast use take_all;

    assert(d.take(i as int) == d);
    s.drop_ambiguous();
    let implementors = find_implementors(&s.index, &s.supertypes);
    let mut index = s.index;
    index.implementors = implementors;
    index
}

// ---------------------------------------------------------------------------
// Call edges

/// Whether an edge is a call or the hop from an interface method to what overrides
/// it.
#[derive(Debug, Clone, Copy, PartialEq, Eq, Structural)]
pub enum RefKind {
    Call,
    Override,
}

impl DeepView for RefKind {
    type V = RefKind;

    open spec fn deep_view(&self) -> RefKind {
        *self
    }
}

impl RefKind {
    pub open spec fn name(self) -> Seq<char> {
        match self {
            RefKind::Call => "call"@,
            RefKind::Override => "override"@,
        }
    }

    pub fn as_str(self) -> (r: &'static str)
        ensures
            r@ == self.name(),
    {
        match self {
            RefKind::Call => "call",
            RefKind::Override => "override",
        }
    }
}

/// One edge of the call graph.
#[derive(Debug)]
pub struct RefRow {
    pub src: i64,
    /// The symbol it leads to, where that is known.
    pub dst: Option<i64>,
    /// The name as written: the raw evidence survives even where the graph cannot.
    pub raw: String,
    pub kind: RefKind,
    /// How the edge was derived, in tenths: `10` where the receiver's type is known
    /// and declares the method, or the enclosing class does; `6` where it does not
    /// but exactly one project type declares the name; `3` where only the name is
    /// known and exactly one type declares it; `0` where the edge leads nowhere.
    pub confidence: u8,
}

/// The content of a [`RefRow`].
#[verifier::ext_equal]
pub struct RefRowView {
    pub src: i64,
    pub dst: Option<i64>,
    pub raw: Seq<char>,
    pub kind: RefKind,
    pub confidence: u8,
}

impl DeepView for RefRow {
    type V = RefRowView;

    open spec fn deep_view(&self) -> RefRowView {
        RefRowView {
            src: self.src,
            dst: self.dst.deep_view(),
            raw: self.raw.deep_view(),
            kind: self.kind,
            confidence: self.confidence,
        }
    }
}

impl Clone for RefRow {
    fn clone(&self) -> (r: Self)
        ensures
            r.deep_view() == self.deep_view(),
    {
        RefRow {
            src: self.src,
            dst: self.dst.clone(),
            raw: self.raw.clone(),
            kind: self.kind,
            confidence: self.confidence,
        }
    }
}

/// Whether a declaration is of `method`.
pub open spec fn declares(method: Seq<char>) -> spec_fn((Seq<char>, i64)) -> bool {
    |p: (Seq<char>, i64)| p.0 == method
}

/// The id of the first declaration of `method` among those of a type.
pub open spec fn first_declared(methods: Seq<(Seq<char>, i64)>, method: Seq<char>) -> Option<i64> {
    match first_where(methods, declares(method)) {
        Some(p) => Some(p.1),
        None => None,
    }
}

/// The symbol id of `method` declared directly on `ty`.
pub open spec fn declared_on(x: JavaIndexView, ty: Seq<char>, method: Seq<char>) -> Option<i64> {
    if x.methods_by_type.dom().contains(ty) {
        first_declared(x.methods_by_type[ty], method)
    } else {
        None
    }
}

/// The symbol id of `method` declared directly on `type_fqn`.
fn method_on(idx: &JavaIndex, type_fqn: &str, method: &str) -> (r: Option<i64>)
    ensures
        r == declared_on(idx.deep_view(), type_fqn@, method@),
{
    let list = match idx.methods_by_type.get(type_fqn) {
        Some(l) => l,
        None => {
            return None;
        },
    };
    let ghost d = list.deep_view();
    let ghost f = declares(method@);
    let mut i: usize = 0;
    assert(d.skip(0) =~= d);
    while i < list.len()
        invariant
            i <= list.len(),
            d == list.deep_view(),
            idx.deep_view().methods_by_type.dom().contains(type_fqn@),
            idx.deep_view().methods_by_type[type_fqn@] == d,
            f == declares(method@),
            first_where(d, f) == first_where(d.skip(i as int), f),
        decreases list.len() - i,
    {
        assert(d.skip(i as int)[0] == d[i as int]);
        assert(d[i as int] == (list@[i as int].0@, list@[i as int].1));
        if same(list[i].0.as_str(), method) {
            assert(f(d[i as int]));
            return Some(list[i].1);
        }
        assert(!f(d[i as int]));
        assert(d.skip(i as int).skip(1) =~= d.skip(i + 1));
        i += 1;
    }
    None
}

/// The type that a field's signature names, where it names a type of the project.
/// Generics are dropped: `List<Coupon>` counts as `List`, which is then ignored
/// unless it names a project type.
pub open spec fn field_type(x: JavaIndexView, signature: Seq<char>) -> Option<Seq<char>> {
    let w = words_of(signature);
    if w.len() == 0 {
        None
    } else {
        let base = trimmed(head_of(w[0], '<'));
        let simple = tail_of(base, '.');
        if x.simple_names.dom().contains(simple) {
            Some(x.simple_names[simple])
        } else if x.types.dom().contains(base) {
            Some(base)
        } else {
            None
        }
    }
}

/// Identifier → declared type, for the fields among the symbols.
pub open spec fn field_types(x: JavaIndexView, syms: Seq<RawSymbolView>) -> Map<
    Seq<char>,
    Seq<char>,
>
    decreases syms.len(),
{
    if syms.len() == 0 {
        Map::empty()
    } else {
        let before = field_types(x, syms.drop_last());
        let s = syms.last();
        if (s.kind == SymbolKind::Field || s.kind == SymbolKind::Constant) && s.signature is Some
            && field_type(x, s.signature->0) is Some {
            before.insert(s.name, field_type(x, s.signature->0)->0)
        } else {
            before
        }
    }
}

fn find_field_type(idx: &JavaIndex, signature: &str) -> (r: Option<String>)
    ensures
        r.deep_view() == field_type(idx.deep_view(), signature@),
{
    let w = words(signature);
    if w.len() == 0 {
        return None;
    }
    assert(w.deep_view()[0] == w@[0]@);
    let base = trim(before_first(w[0].as_str(), '<'));
    let simple = after_last(base, '.');
    match idx.simple_names.get(simple) {
        Some(fqn) => Some(fqn.clone()),
        None => if idx.types.contains_key(base) {
            Some(owned(base))
        } else {
            None
        },
    }
}

/// Identifier → declared type FQN, for a file's fields.
///
/// These projects inject dependencies as annotated fields, so a field's declared
/// type is what makes `couponService.query(...)` resolvable at all.
fn field_type_map(jf: &JavaFile, idx: &JavaIndex) -> (r: TextMap<String>)
    ensures
        r.deep_view() == field_types(idx.deep_view(), jf.deep_view().symbols),
{
    let ghost x = idx.deep_view();
    let ghost d = jf.symbols.deep_view();
    let mut out: TextMap<String> = TextMap::new();
    let mut i: usize = 0;
    while i < jf.symbols.len()
        invariant
            i <= jf.symbols.len(),
            x == idx.deep_view(),
            d == jf.symbols.deep_view(),
            out.deep_view() == field_types(x, d.take(i as int)),
        decreases jf.symbols.len() - i,
    {
        broadcast use take_next;

        let sym = &jf.symbols[i];
        assert(d[i as int] == sym.deep_view());
        assert(d.take(i + 1).last() == d[i as int]);
        if sym.kind == SymbolKind::Field || sym.kind == SymbolKind::Constant {
            match &sym.signature {
                Some(sig) => match find_field_type(idx, sig.as_str()) {
                    Some(t) => {
                        out.insert(sym.name.clone(), t);
                    },
                    None => {},
                },
                None => {},
            }
        }
        i += 1;
    }
    broadcast use take_all;

    assert(d.take(i as int) == d);
    out
}

/// What is known of each method name once one more type is seen, with the methods it
/// declares: the id of the first declaration in the only type that declares the name, or
/// that several types do.
pub open spec fn seen_type(
    m: Map<Seq<char>, Option<i64>>,
    methods: Seq<(Seq<char>, i64)>,
) -> Map<Seq<char>, Option<i64>> {
    Map::new(
        |n: Seq<char>| m.dom().contains(n) || first_declared(methods, n) is Some,
        |n: Seq<char>|
            match first_declared(methods, n) {
                Some(id) => if m.dom().contains(n) {
                    None
                } else {
                    Some(id)
                },
                None => m[n],
            },
    )
}

/// What the types' declarations tell of each method name.
pub open spec fn declarations(l: Seq<(Seq<char>, Seq<(Seq<char>, i64)>)>) -> Map<
    Seq<char>,
    Option<i64>,
>
    decreases l.len(),
{
    if l.len() == 0 {
        Map::empty()
    } else {
        seen_type(declarations(l.drop_last()), l.last().1)
    }
}

proof fn first_where_push<T>(s: Seq<T>, x: T, f: spec_fn(T) -> bool)
    ensures
        first_where(s.push(x), f) == (match first_where(s, f) {
            Some(y) => Some(y),
            None => if f(x) {
                Some(x)
            } else {
                None
            },
        }),
    decreases s.len(),
{
    if s.len() == 0 {
        assert(s.push(x)[0] == x);
        assert(s.push(x).skip(1) =~= Seq::empty());
        assert(first_where(s.push(x).skip(1), f) is None);
    } else {
        assert(s.push(x)[0] == s[0]);
        assert(s.push(x).skip(1) =~= s.skip(1).push(x));
        first_where_push(s.skip(1), x, f);
    }
}

proof fn first_declared_push(l: Seq<(Seq<char>, i64)>, p: (Seq<char>, i64), n: Seq<char>)
    ensures
        first_declared(l.push(p), n) == (match first_declared(l, n) {
            Some(id) => Some(id),
            None => if p.0 == n {
                Some(p.1)
            } else {
                None
            },
        }),
{
    first_where_push(l, p, declares(n));
}

proof fn first_declared_found(l: Seq<(Seq<char>, i64)>, n: Seq<char>)
    ensures
        first_declared(l, n) is Some <==> exists|i: int| 0 <= i < l.len() && (#[trigger] l[i]).0 == n,
    decreases l.len(),
{
    if l.len() > 0 {
        let rest = l.drop_last();
        assert(l =~= rest.push(l.last()));
        first_declared_push(rest, l.last(), n);
        first_declared_found(rest, n);
        if first_declared(rest, n) is Some {
            let i = choose|i: int| 0 <= i < rest.len() && (#[trigger] rest[i]).0 == n;
            assert(l[i].0 == n);
        }
        if l.last().0 == n {
            assert(l[l.len() - 1].0 == n);
        }
        if exists|i: int| 0 <= i < l.len() && (#[trigger] l[i]).0 == n {
            let i = choose|i: int| 0 <= i < l.len() && (#[trigger] l[i]).0 == n;
            if i < rest.len() {
                assert(rest[i].0 == n);
            }
        }
    }
}

/// Whether the method at `k` has the name of one before it.
fn declared_before(methods: &Vec<(String, i64)>, k: usize) -> (r: bool)
    requires
        k < methods.len(),
    ensures
        r == (first_declared(methods.deep_view().take(k as int), methods@[k as int].0@) is Some),
{
    let ghost d = methods.deep_view();
    let ghost n = methods@[k as int].0@;
    proof {
        first_declared_found(d.take(k as int), n);
    }
    let mut j: usize = 0;
    while j < k
        invariant
            j <= k,
            k < methods.len(),
            d == methods.deep_view(),
            n == methods@[k as int].0@,
            (first_declared(d.take(k as int), n) is Some) <==> exists|i: int|
                0 <= i < k && (#[trigger] d.take(k as int)[i]).0 == n,
            forall|i: int| 0 <= i < j ==> (#[trigger] d[i]).0 != n,
        decreases k - j,
    {
        assert(d[j as int] == (methods@[j as int].0@, methods@[j as int].1));
        if same(methods[j].0.as_str(), methods[k].0.as_str()) {
            assert(d.take(k as int)[j as int].0 == n);
            return true;
        }
        j += 1;
    }
    assert forall|i: int| 0 <= i < k implies (#[trigger] d.take(k as int)[i]).0 != n by {
        assert(d.take(k as int)[i] == d[i]);
    }
    false
}

/// The id of `name` where one type alone declares it: its first declaration there.
pub open spec fn unique_id(u: Map<Seq<char>, Option<i64>>, name: Seq<char>) -> Option<i64> {
    if u.dom().contains(name) {
        u[name]
    } else {
        None
    }
}

/// The method names of the project, each with its id where one type alone declares
/// it.
fn unique_methods(idx: &JavaIndex) -> (r: TextMap<Option<i64>>)
    ensures
        r.deep_view() == declarations(idx.methods_by_type.list()),
{
    let n: usize = idx.methods_by_type.len();
    let ghost l = idx.methods_by_type.list();
    let mut out: TextMap<Option<i64>> = TextMap::new();
    let mut i: usize = 0;
    while i < n
        invariant
            i <= n,
            n == l.len(),
            l == idx.methods_by_type.list(),
            out.deep_view() == declarations(l.take(i as int)),
        decreases n - i,
    {
        broadcast use take_next;

        let methods = idx.methods_by_type.value_at(i);
        let ghost d = methods.deep_view();
        let ghost start = out.deep_view();
        assert(l.take(i + 1).last() == l[i as int]);
        let mut k: usize = 0;
        assert(d.take(0) =~= Seq::empty());
        assert(out.deep_view() =~= seen_type(start, d.take(0)));
        while k < methods.len()
            invariant
                k <= methods.len(),
                d == methods.deep_view(),
                out.deep_view() == seen_type(start, d.take(k as int)),
            decreases methods.len() - k,
        {
            let ghost done = d.take(k as int);
            let ghost before = out.deep_view();
            assert(d[k as int] == (methods@[k as int].0@, methods@[k as int].1));
            assert(d.take(k + 1) =~= done.push(d[k as int]));
            proof {
                assert forall|n: Seq<char>| #[trigger] first_declared(d.take(k + 1), n) == (
                match first_declared(done, n) {
                    Some(id) => Some(id),
                    None => if d[k as int].0 == n {
                        Some(d[k as int].1)
                    } else {
                        None
                    },
                }) by {
                    first_declared_push(done, d[k as int], n);
                }
            }
            if !declared_before(methods, k) {
                let name = methods[k].0.clone();
                let entry: Option<i64> = if out.contains_key(name.as_str()) {
                    None
                } else {
                    Some(methods[k].1)
                };
                assert(entry.deep_view() == entry);
                out.insert(name, entry);
            }
            assert(out.deep_view() =~= seen_type(start, d.take(k + 1)));
            k += 1;
        }
        assert(d.take(k as int) =~= d);
        i += 1;
    }
    assert(l.take(i as int) =~= l);
    out
}

/// Where a call leads, and how sure that is.
pub open spec fn resolution(
    x: JavaIndexView,
    unique: Map<Seq<char>, Option<i64>>,
    fields: Map<Seq<char>, Seq<char>>,
    owner: Option<Seq<char>>,
    call: Seq<char>,
) -> (Option<i64>, u8) {
    let (recv, method) = match cut_once(call, '.') {
        Some(p) => (Some(p.0), p.1),
        None => (None, call),
    };
    let own: Option<Seq<char>> = match recv {
        Some(r) => if fields.dom().contains(r) {
            Some(fields[r])
        } else {
            None
        },
        None => owner,
    };
    let only = unique_id(unique, method);
    if own is Some && declared_on(x, own->0, method) is Some {
        (declared_on(x, own->0, method), 10)
    } else if recv is Some && own is Some && only is Some {
        (only, 6)
    } else if only is Some {
        (only, 3)
    } else {
        (None, 0)
    }
}

fn resolve_call(
    idx: &JavaIndex,
    unique: &TextMap<Option<i64>>,
    fields: &TextMap<String>,
    owner: &Option<String>,
    call: &str,
) -> (r: (Option<i64>, u8))
    ensures
        r == resolution(
            idx.deep_view(),
            unique.deep_view(),
            fields.deep_view(),
            owner.deep_view(),
            call@,
        ),
{
    let cut = split_once(call, '.');
    let method = match cut {
        Some(p) => p.1,
        None => call,
    };
    let only: Option<i64> = match unique.get(method) {
        Some(u) => *u,
        None => None,
    };
    assert(only == unique_id(unique.deep_view(), method@));
    match cut {
        Some(p) => match fields.get(p.0) {
            Some(ty) => match method_on(idx, ty.as_str(), method) {
                Some(id) => {
                    return (Some(id), 10);
                },
                // Known receiver type, method declared elsewhere: typically an
                // interface call landing on an impl.
                None => if only.is_some() {
                    return (only, 6);
                },
            },
            None => {},
        },
        None => match owner {
            Some(o) => match method_on(idx, o.as_str(), method) {
                Some(id) => {
                    return (Some(id), 10);
                },
                None => {},
            },
            None => {},
        },
    }
    if only.is_some() {
        (only, 3)
    } else {
        (None, 0)
    }
}

/// The type that encloses a symbol.
pub open spec fn owner_of(fqn: Option<Seq<char>>) -> Option<Seq<char>> {
    match fqn {
        Some(f) => match cut_once(f, '#') {
            Some(p) => Some(p.0),
            None => None,
        },
        None => None,
    }
}

/// The edges of one symbol's calls. A self-loop is never recorded: it adds no
/// traversal information.
pub open spec fn call_rows(
    x: JavaIndexView,
    unique: Map<Seq<char>, Option<i64>>,
    fields: Map<Seq<char>, Seq<char>>,
    owner: Option<Seq<char>>,
    src: i64,
    calls: Seq<Seq<char>>,
) -> Seq<RefRowView>
    decreases calls.len(),
{
    if calls.len() == 0 {
        Seq::empty()
    } else {
        let before = call_rows(x, unique, fields, owner, src, calls.drop_last());
        let t = resolution(x, unique, fields, owner, calls.last());
        if t.0 == Some(src) {
            before
        } else {
            before.push(
                RefRowView {
                    src,
                    dst: t.0,
                    raw: calls.last(),
                    kind: RefKind::Call,
                    confidence: t.1,
                },
            )
        }
    }
}

/// The edges of the first `n` symbols of a file.
pub open spec fn file_rows(
    x: JavaIndexView,
    unique: Map<Seq<char>, Option<i64>>,
    f: ParsedFileView,
    n: nat,
) -> Seq<RefRowView>
    decreases n,
{
    if n == 0 || n > f.file.symbols.len() || n > f.ids.len() {
        Seq::empty()
    } else {
        file_rows(x, unique, f, (n - 1) as nat) + call_rows(
            x,
            unique,
            field_types(x, f.file.symbols),
            owner_of(f.file.symbols[n - 1].fqn),
            f.ids[n - 1],
            f.file.symbols[n - 1].calls,
        )
    }
}

/// The edges of the files' calls.
pub open spec fn all_call_rows(
    x: JavaIndexView,
    unique: Map<Seq<char>, Option<i64>>,
    fs: Seq<ParsedFileView>,
) -> Seq<RefRowView>
    decreases fs.len(),
{
    if fs.len() == 0 {
        Seq::empty()
    } else {
        all_call_rows(x, unique, fs.drop_last()) + file_rows(
            x,
            unique,
            fs.last(),
            stored(fs.last()),
        )
    }
}

fn add_call_rows(
    idx: &JavaIndex,
    unique: &TextMap<Option<i64>>,
    fields: &TextMap<String>,
    owner: &Option<String>,
    src: i64,
    calls: &Vec<String>,
    out: &mut Vec<RefRow>,
)
    ensures
        final(out).deep_view() == old(out).deep_view() + call_rows(
            idx.deep_view(),
            unique.deep_view(),
            fields.deep_view(),
            owner.deep_view(),
            src,
            calls.deep_view(),
        ),
{
    let ghost x = idx.deep_view();
    let ghost u = unique.deep_view();
    let ghost fl = fields.deep_view();
    let ghost o = owner.deep_view();
    let ghost d = calls.deep_view();
    let ghost start = out.deep_view();
    let mut i: usize = 0;
    assert(start + call_rows(x, u, fl, o, src, d.take(0)) =~= start);
    while i < calls.len()
        invariant
            i <= calls.len(),
            x == idx.deep_view(),
            u == unique.deep_view(),
            fl == fields.deep_view(),
            o == owner.deep_view(),
            d == calls.deep_view(),
            out.deep_view() == start + call_rows(x, u, fl, o, src, d.take(i as int)),
        decreases calls.len() - i,
    {
        broadcast use take_next;

        let ghost before = out.deep_view();
        assert(d[i as int] == calls@[i as int]@);
        assert(d.take(i + 1).last() == d[i as int]);
        let t = resolve_call(idx, unique, fields, owner, calls[i].as_str());
        let is_loop = match t.0 {
            Some(id) => id == src,
            None => false,
        };
        if !is_loop {
            let row = RefRow {
                src,
                dst: t.0,
                raw: calls[i].clone(),
                kind: RefKind::Call,
                confidence: t.1,
            };
            let ghost v = row.deep_view();
            out.push(row);
            assert(out.deep_view() =~= before.push(v));
            assert(start + call_rows(x, u, fl, o, src, d.take(i as int)).push(v) =~= before.push(
                v,
            ));
        }
        i += 1;
    }
    broadcast use take_all;

    assert(d.take(i as int) == d);
}

fn add_file_rows(
    idx: &JavaIndex,
    unique: &TextMap<Option<i64>>,
    f: &ParsedFile,
    out: &mut Vec<RefRow>,
)
    ensures
        final(out).deep_view() == old(out).deep_view() + file_rows(
            idx.deep_view(),
            unique.deep_view(),
            f.deep_view(),
            stored(f.deep_view()),
        ),
{
    let ghost x = idx.deep_view();
    let ghost u = unique.deep_view();
    let ghost v = f.deep_view();
    let ghost start = out.deep_view();
    // Field types visible to a method, by identifier.
    let fields = field_type_map(&f.file, idx);
    let mut i: usize = 0;
    assert(start + file_rows(x, u, v, 0) =~= start);
    while i < f.file.symbols.len() && i < f.ids.len()
        invariant
            i <= f.file.symbols.len(),
            i <= f.ids.len(),
            x == idx.deep_view(),
            u == unique.deep_view(),
            v == f.deep_view(),
            fields.deep_view() == field_types(x, v.file.symbols),
            out.deep_view() == start + file_rows(x, u, v, i as nat),
        decreases f.file.symbols.len() - i,
    {
        let sym = &f.file.symbols[i];
        let ghost before = out.deep_view();
        assert(v.file.symbols[i as int] == sym.deep_view());
        assert(v.ids[i as int] == f.ids@[i as int]);
        let owner: Option<String> = match &sym.fqn {
            Some(q) => match split_once(q.as_str(), '#') {
                Some(p) => Some(owned(p.0)),
                None => None,
            },
            None => None,
        };
        assert(owner.deep_view() == owner_of(v.file.symbols[i as int].fqn));
        add_call_rows(idx, unique, &fields, &owner, f.ids[i], &sym.calls, out);
        i += 1;
        assert(out.deep_view() =~= start + file_rows(x, u, v, i as nat));
    }
}

/// The interface method and the implementation methods that override it.
pub open spec fn overriding(impl_methods: Seq<(Seq<char>, i64)>, name: Seq<char>) -> Seq<
    (Seq<char>, i64),
> {
    crate::lists::keep(impl_methods, |p: (Seq<char>, i64)| p.0 == name)
}

/// The edges from one interface method to those that override it in one type.
pub open spec fn method_override_rows(
    impl_fqn: Seq<char>,
    name: Seq<char>,
    super_id: i64,
    confidence: u8,
    matches: Seq<(Seq<char>, i64)>,
) -> Seq<RefRowView>
    decreases matches.len(),
{
    if matches.len() == 0 {
        Seq::empty()
    } else {
        let before = method_override_rows(
            impl_fqn,
            name,
            super_id,
            confidence,
            matches.drop_last(),
        );
        if matches.last().1 == super_id {
            before
        } else {
            before.push(
                RefRowView {
                    src: super_id,
                    dst: Some(matches.last().1),
                    raw: impl_fqn + "#"@ + name,
                    kind: RefKind::Override,
                    confidence,
                },
            )
        }
    }
}

/// The edges from a supertype's methods to those of one implementor. Overload sets
/// collapse to the same name, so one interface method may link to several, which is
/// the safe direction for traversal. One implementor with one matching method is
/// unambiguous; several candidates mean the true target is a guess.
pub open spec fn impl_rows(
    impl_fqn: Seq<char>,
    impl_methods: Seq<(Seq<char>, i64)>,
    only_impl: bool,
    super_methods: Seq<(Seq<char>, i64)>,
) -> Seq<RefRowView>
    decreases super_methods.len(),
{
    if super_methods.len() == 0 {
        Seq::empty()
    } else {
        let m = super_methods.last();
        let found = overriding(impl_methods, m.0);
        impl_rows(impl_fqn, impl_methods, only_impl, super_methods.drop_last())
            + method_override_rows(
            impl_fqn,
            m.0,
            m.1,
            if only_impl && found.len() == 1 {
                10
            } else {
                7
            },
            found,
        )
    }
}

/// The edges from a supertype to its implementors.
pub open spec fn super_rows(
    methods: Map<Seq<char>, Seq<(Seq<char>, i64)>>,
    super_methods: Seq<(Seq<char>, i64)>,
    all: Seq<Seq<char>>,
    impls: Seq<Seq<char>>,
) -> Seq<RefRowView>
    decreases impls.len(),
{
    if impls.len() == 0 {
        Seq::empty()
    } else {
        let before = super_rows(methods, super_methods, all, impls.drop_last());
        if methods.dom().contains(impls.last()) {
            before + impl_rows(
                impls.last(),
                methods[impls.last()],
                all.len() == 1,
                super_methods,
            )
        } else {
            before
        }
    }
}

/// The edges from every interface method to what overrides it.
pub open spec fn override_rows(
    methods: Map<Seq<char>, Seq<(Seq<char>, i64)>>,
    l: Seq<(Seq<char>, Seq<Seq<char>>)>,
) -> Seq<RefRowView>
    decreases l.len(),
{
    if l.len() == 0 {
        Seq::empty()
    } else {
        let before = override_rows(methods, l.drop_last());
        if methods.dom().contains(l.last().0) {
            before + super_rows(methods, methods[l.last().0], l.last().1, l.last().1)
        } else {
            before
        }
    }
}

fn find_overriding(impl_methods: &Vec<(String, i64)>, name: &str) -> (r: Vec<i64>)
    ensures
        r@ == overriding(impl_methods.deep_view(), name@).map_values(
            |p: (Seq<char>, i64)| p.1,
        ),
{
    let ghost d = impl_methods.deep_view();
    let ghost f = |p: (Seq<char>, i64)| p.0 == name@;
    let ghost g = |p: (Seq<char>, i64)| p.1;
    let mut out: Vec<i64> = Vec::new();
    let mut i: usize = 0;
    assert(out@ =~= crate::lists::keep(d.take(0), f).map_values(g));
    while i < impl_methods.len()
        invariant
            i <= impl_methods.len(),
            d == impl_methods.deep_view(),
            f == (|p: (Seq<char>, i64)| p.0 == name@),
            g == (|p: (Seq<char>, i64)| p.1),
            out@ == crate::lists::keep(d.take(i as int), f).map_values(g),
        decreases impl_methods.len() - i,
    {
        broadcast use take_next;

        assert(d[i as int] == (impl_methods@[i as int].0@, impl_methods@[i as int].1));
        assert(d.take(i + 1).last() == d[i as int]);
        if same(impl_methods[i].0.as_str(), name) {
            assert(f(d[i as int]));
            out.push(impl_methods[i].1);
            assert(out@ =~= crate::lists::keep(d.take(i as int), f).push(d[i as int]).map_values(
                g,
            ));
        } else {
            assert(!f(d[i as int]));
        }
        i += 1;
    }
    broadcast use take_all;

    assert(d.take(i as int) == d);
    out
}

fn add_impl_rows(
    impl_fqn: &str,
    impl_methods: &Vec<(String, i64)>,
    only_impl: bool,
    super_methods: &Vec<(String, i64)>,
    out: &mut Vec<RefRow>,
)
    ensures
        final(out).deep_view() == old(out).deep_view() + impl_rows(
            impl_fqn@,
            impl_methods.deep_view(),
            only_impl,
            super_methods.deep_view(),
        ),
{
    let ghost start = out.deep_view();
    let ghost im = impl_methods.deep_view();
    let ghost d = super_methods.deep_view();
    let mut i: usize = 0;
    assert(start + impl_rows(impl_fqn@, im, only_impl, d.take(0)) =~= start);
    while i < super_methods.len()
        invariant
            i <= super_methods.len(),
            im == impl_methods.deep_view(),
            d == super_methods.deep_view(),
            out.deep_view() == start + impl_rows(impl_fqn@, im, only_impl, d.take(i as int)),
        decreases super_methods.len() - i,
    {
        broadcast use take_next;

        let ghost base = out.deep_view();
        let name = &super_methods[i].0;
        let super_id: i64 = super_methods[i].1;
        assert(d[i as int] == (name@, super_id));
        assert(d.take(i + 1).last() == d[i as int]);
        let found = find_overriding(impl_methods, name.as_str());
        let ghost fo = overriding(im, name@);
        assert(found.len() == fo.len());
        let confidence: u8 = if only_impl && found.len() == 1 {
            10
        } else {
            7
        };
        let mut k: usize = 0;
        assert(base + method_override_rows(impl_fqn@, name@, super_id, confidence, fo.take(0))
            =~= base);
        while k < found.len()
            invariant
                k <= found.len(),
                found@ == fo.map_values(|p: (Seq<char>, i64)| p.1),
                out.deep_view() == base + method_override_rows(
                    impl_fqn@,
                    name@,
                    super_id,
                    confidence,
                    fo.take(k as int),
                ),
            decreases found.len() - k,
        {
            let ghost before = out.deep_view();
            let ghost rows = method_override_rows(
                impl_fqn@,
                name@,
                super_id,
                confidence,
                fo.take(k as int),
            );
            proof {
                assert(fo.take(k + 1).drop_last() =~= fo.take(k as int));
                assert(fo.take(k + 1).last() == fo[k as int]);
                assert(found@[k as int] == fo[k as int].1);
            }
            if found[k] != super_id {
                let mut raw = owned(impl_fqn);
                raw.append("#");
                raw.append(name.as_str());
                let row = RefRow {
                    src: super_id,
                    dst: Some(found[k]),
                    raw,
                    kind: RefKind::Override,
                    confidence,
                };
                let ghost v = row.deep_view();
                out.push(row);
                assert(out.deep_view() =~= before.push(v));
                assert(base + rows.push(v) =~= before.push(v));
            }
            k += 1;
        }
        assert(fo.take(k as int) =~= fo);
        i += 1;
        assert(out.deep_view() =~= start + impl_rows(impl_fqn@, im, only_impl, d.take(i as int)));
    }
    broadcast use take_all;

    assert(d.take(i as int) == d);
}

/// Link every interface method to the implementations that override it.
///
/// This is the dynamic-dispatch hop. These projects always call services through
/// their interface, so a purely syntactic call graph stops at
/// `DefectiveService#findById` and never reaches the `...Impl` that actually
/// touches the database. Recording the override as its own edge kind keeps the
/// distinction visible while letting traversal continue.
pub fn link_overrides(idx: &JavaIndex) -> (r: Vec<RefRow>)
    ensures
        r.deep_view() == override_rows(
            idx.deep_view().methods_by_type,
            idx.implementors.list(),
        ),
{
    let ghost methods = idx.deep_view().methods_by_type;
    let n: usize = idx.implementors.len();
    let ghost l = idx.implementors.list();
    let mut out: Vec<RefRow> = Vec::new();
    let mut i: usize = 0;
    assert(out.deep_view() =~= override_rows(methods, l.take(0)));
    while i < n
        invariant
            i <= n,
            n == l.len(),
            l == idx.implementors.list(),
            methods == idx.deep_view().methods_by_type,
            out.deep_view() == override_rows(methods, l.take(i as int)),
        decreases n - i,
    {
        broadcast use take_next;

        let supertype = idx.implementors.key_at(i);
        let impls = idx.implementors.value_at(i);
        let ghost all = impls.deep_view();
        let ghost base = out.deep_view();
        assert(l.take(i + 1).last() == l[i as int]);
        match idx.methods_by_type.get(supertype.as_str()) {
            Some(super_methods) => {
                let ghost sm = super_methods.deep_view();
                let mut k: usize = 0;
                assert(base + super_rows(methods, sm, all, all.take(0)) =~= base);
                while k < impls.len()
                    invariant
                        k <= impls.len(),
                        all == impls.deep_view(),
                        sm == super_methods.deep_view(),
                        methods == idx.deep_view().methods_by_type,
                        out.deep_view() == base + super_rows(methods, sm, all, all.take(k as int)),
                    decreases impls.len() - k,
                {
                    broadcast use take_next;

                    assert(all[k as int] == impls@[k as int]@);
                    assert(all.take(k + 1).last() == all[k as int]);
                    match idx.methods_by_type.get(impls[k].as_str()) {
                        Some(impl_methods) => {
                            add_impl_rows(
                                impls[k].as_str(),
                                impl_methods,
                                impls.len() == 1,
                                super_methods,
                                &mut out,
                            );
                        },
                        None => {},
                    }
                    k += 1;
                    assert(out.deep_view() =~= base + super_rows(
                        methods,
                        sm,
                        all,
                        all.take(k as int),
                    ));
                }
                assert(all.take(k as int) =~= all);
            },
            None => {},
        }
        i += 1;
    }
    assert(l.take(i as int) =~= l);
    out
}

/// Resolve callee names to symbol ids.
///
/// Full type inference is out of scope, so each edge records how it was derived.
/// Anything less certain is kept unresolved with its name preserved. The calls of
/// the files come first, then the overrides.
pub fn resolve_refs(files: &Vec<ParsedFile>, idx: &JavaIndex) -> (r: Vec<RefRow>)
    ensures
        r.deep_view() == all_call_rows(
            idx.deep_view(),
            declarations(idx.methods_by_type.list()),
            files.deep_view(),
        ) + override_rows(idx.deep_view().methods_by_type, idx.implementors.list()),
{
    let unique = unique_methods(idx);
    let ghost x = idx.deep_view();
    let ghost u = unique.deep_view();
    let ghost d = files.deep_view();
    let mut out: Vec<RefRow> = Vec::new();
    let mut i: usize = 0;
    assert(out.deep_view() =~= all_call_rows(x, u, d.take(0)));
    while i < files.len()
        invariant
            i <= files.len(),
            x == idx.deep_view(),
            u == unique.deep_view(),
            d == files.deep_view(),
            out.deep_view() == all_call_rows(x, u, d.take(i as int)),
        decreases files.len() - i,
    {
        broadcast use take_next;

        assert(d[i as int] == files@[i as int].deep_view());
        assert(d.take(i + 1).last() == d[i as int]);
        add_file_rows(idx, &unique, &files[i], &mut out);
        i += 1;
    }
    broadcast use take_all;

    assert(d.take(i as int) == d);
    let mut rest = link_overrides(idx);
    let ghost a = out.deep_view();
    let ghost b = rest.deep_view();
    out.append(&mut rest);
    assert(out.deep_view() =~= a + b);
    out
}

/// How many of the edges lead somewhere.
pub fn count_resolved(rows: &Vec<RefRow>) -> (r: usize)
    ensures
        r == crate::lists::keep(rows.deep_view(), |x: RefRowView| x.dst is Some).len(),
{
    let ghost d = rows.deep_view();
    let ghost f = |x: RefRowView| x.dst is Some;
    let mut n: usize = 0;
    let mut i: usize = 0;
    while i < rows.len()
        invariant
            i <= rows.len(),
            d == rows.deep_view(),
            f == (|x: RefRowView| x.dst is Some),
            n <= i,
            n == crate::lists::keep(d.take(i as int), f).len(),
        decreases rows.len() - i,
    {
        broadcast use take_next;

        assert(d[i as int] == rows@[i as int].deep_view());
        assert(d.take(i + 1).last() == d[i as int]);
        assert(f(d[i as int]) == (rows@[i as int].dst is Some));
        if rows[i].dst.is_some() {
            n += 1;
        }
        i += 1;
    }
    broadcast use take_all;

    assert(d.take(i as int) == d);
    n
}

// ---------------------------------------------------------------------------
// Laws

/// No edge that a call makes leads back to the symbol it comes from.
pub proof fn calls_never_loop(
    x: JavaIndexView,
    unique: Map<Seq<char>, Option<i64>>,
    fields: Map<Seq<char>, Seq<char>>,
    owner: Option<Seq<char>>,
    src: i64,
    calls: Seq<Seq<char>>,
)
    ensures
        forall|i: int|
            0 <= i < call_rows(x, unique, fields, owner, src, calls).len() ==> {
                let row = #[trigger] call_rows(x, unique, fields, owner, src, calls)[i];
                row.src == src && row.dst != Some(src)
            },
    decreases calls.len(),
{
    if calls.len() > 0 {
        calls_never_loop(x, unique, fields, owner, src, calls.drop_last());
    }
}

/// An edge that a call makes is as sure as it is resolved: zero exactly where it
/// leads nowhere.
pub proof fn confidence_tells_resolution(
    x: JavaIndexView,
    unique: Map<Seq<char>, Option<i64>>,
    fields: Map<Seq<char>, Seq<char>>,
    owner: Option<Seq<char>>,
    call: Seq<char>,
)
    ensures
        resolution(x, unique, fields, owner, call).0 is Some <==> resolution(
            x,
            unique,
            fields,
            owner,
            call,
        ).1 > 0,
        resolution(x, unique, fields, owner, call).1 <= 10,
{
}

/// Whether the type at `i` alone declares `name`, first with the given id.
pub open spec fn only_declared_at(
    l: Seq<(Seq<char>, Seq<(Seq<char>, i64)>)>,
    i: int,
    name: Seq<char>,
    id: i64,
) -> bool {
    &&& 0 <= i < l.len()
    &&& first_declared(l[i].1, name) == Some(id)
    &&& forall|j: int|
        0 <= j < l.len() && j != i ==> first_declared((#[trigger] l[j]).1, name) is None
}

/// A name is resolved by itself exactly where one type declares it, however many overloads
/// stand in that type.
pub proof fn unique_means_one_type(
    l: Seq<(Seq<char>, Seq<(Seq<char>, i64)>)>,
    name: Seq<char>,
    id: i64,
)
    ensures
        unique_id(declarations(l), name) == Some(id) <==> exists|i: int|
            #[trigger] only_declared_at(l, i, name, id),
        declarations(l).dom().contains(name) <==> exists|i: int|
            0 <= i < l.len() && first_declared((#[trigger] l[i]).1, name) is Some,
    decreases l.len(),
{
    if l.len() > 0 {
        let rest = l.drop_last();
        let n = rest.len() as int;
        unique_means_one_type(rest, name, id);
        assert forall|j: int| 0 <= j < n implies #[trigger] rest[j] == l[j] by {}
        let here = first_declared(l[n].1, name);
        assert(l[n] == l.last());
        if exists|i: int| 0 <= i < l.len() && first_declared((#[trigger] l[i]).1, name) is Some {
            let i = choose|i: int|
                0 <= i < l.len() && first_declared((#[trigger] l[i]).1, name) is Some;
            if i < n {
                assert(first_declared(rest[i].1, name) is Some);
            }
        }
        if exists|i: int| 0 <= i < n && first_declared((#[trigger] rest[i]).1, name) is Some {
            let i = choose|i: int|
                0 <= i < n && first_declared((#[trigger] rest[i]).1, name) is Some;
            assert(first_declared(l[i].1, name) is Some);
        }
        if exists|i: int| #[trigger] only_declared_at(rest, i, name, id) {
            let i = choose|i: int| #[trigger] only_declared_at(rest, i, name, id);
            if here is None {
                assert(only_declared_at(l, i, name, id)) by {
                    assert forall|j: int| 0 <= j < l.len() && j != i implies first_declared(
                        (#[trigger] l[j]).1,
                        name,
                    ) is None by {
                        if j < n {
                            assert(rest[j] == l[j]);
                        }
                    }
                }
            }
        }
        if exists|i: int| #[trigger] only_declared_at(l, i, name, id) {
            let i = choose|i: int| #[trigger] only_declared_at(l, i, name, id);
            if i < n {
                assert(rest[i] == l[i]);
                assert(first_declared(l[n].1, name) is None);
                assert(only_declared_at(rest, i, name, id)) by {
                    assert forall|j: int| 0 <= j < n && j != i implies first_declared(
                        (#[trigger] rest[j]).1,
                        name,
                    ) is None by {
                        assert(rest[j] == l[j]);
                    }
                }
            }
        }
        if !declarations(rest).dom().contains(name) && here == Some(id) {
            assert(only_declared_at(l, n, name, id)) by {
                assert forall|j: int| 0 <= j < l.len() && j != n implies first_declared(
                    (#[trigger] l[j]).1,
                    name,
                ) is None by {
                    assert(rest[j] == l[j]);
                }
            }
        }
    }
}

/// An ambiguous simple name resolves to nothing.
pub proof fn ambiguous_names_dropped(
    m: Map<Seq<char>, Seq<char>>,
    names: Seq<Seq<char>>,
    name: Seq<char>,
)
    requires
        names.contains(name),
    ensures
        !without(m, names).dom().contains(name),
    decreases names.len(),
{
    if names.last() != name {
        let i = choose|i: int| 0 <= i < names.len() && names[i] == name;
        assert(names.drop_last()[i] == name);
        ambiguous_names_dropped(m, names.drop_last(), name);
    }
}

} // verus!

