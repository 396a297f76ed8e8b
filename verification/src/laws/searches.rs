//! Search: what is indexed, and how hits are shown.
use crate::laws::basics::{concat_members, first_word, keep_first, one_piece, pick_members};
use crate::search::{
    aliases_of, column_text, columns_text, commit_doc, domain_doc, entry_doc, file_doc, hit_of,
    index_of, label_of, normalized, note_doc, real_signature, symbol_doc, table_doc, term_doc,
    ColumnSourceView, CommitSourceView, DocView, DomainSourceView, EntrySourceView, FileSourceView,
    NoteSourceView, SourcesView, SymbolSourceView, TableSourceView, TermSourceView,
};
use crate::split::{joined, words_of};
use crate::text::{is_white, trimmed};
use crate::util::truncated;
use vstd::prelude::*;

verus! {

/// A file is found under its path, with its language.
pub proof fn files_are_indexed_by_path(f: FileSourceView)
    ensures
        file_doc(f).title == f.path && file_doc(f).body.len() == 0,
        file_doc(f).kind == "file"@ && file_doc(f).subject_id == f.id,
        file_doc(f).file == Some(f.path),
        f.lang is Some ==> file_doc(f).subject_kind == f.lang->0,
        f.lang is None ==> file_doc(f).subject_kind.len() == 0,
{
}

/// A symbol is found under its name, by its comment and its signature; an enum member's
/// arguments are no signature.
pub proof fn symbols_are_indexed(s: SymbolSourceView, args: Seq<char>)
    ensures
        symbol_doc(s).title == s.title && symbol_doc(s).kind == "symbol"@,
        symbol_doc(s).subject_kind == s.kind && symbol_doc(s).subject_id == s.id,
        symbol_doc(s).file == s.file,
        s.doc is Some && s.signature is None ==> symbol_doc(s).body == s.doc->0,
        s.doc is None && s.signature is None ==> symbol_doc(s).body.len() == 0,
        s.doc is None && s.signature is Some && s.signature->0.len() > 0 && s.signature->0[0] != '('
            ==> symbol_doc(s).body == s.signature->0,
        s.doc is Some && s.signature is Some && s.signature->0.len() > 0 && s.signature->0[0] != '('
            ==> symbol_doc(s).body == s.doc->0 + "\n"@ + s.signature->0,
        s.doc is Some && s.signature == Some("("@ + args) ==> symbol_doc(s).body == s.doc->0,
        s.doc is None && s.signature == Some("("@ + args) ==> symbol_doc(s).body.len() == 0,
{
    reveal_strlit("(");
    reveal_with_fuel(joined, 3);
    crate::laws::basics::ends_of_texts("("@, args);
    match s.signature {
        Some(g) => {
            if g.len() > 0 && g[0] != '(' {
                if crate::text::has_prefix(g, "("@) {
                    assert(g.take(1)[0] == g[0]);
                }
            }
        },
        None => {},
    }
    if s.doc is Some && real_signature(s.signature) is Some {
        let l = seq![s.doc->0, s.signature->0];
        assert(l.drop_last() =~= seq![s.doc->0]);
    }
}

/// A table's columns are part of its text: each with its type and what is said of it.
pub proof fn columns_are_searchable(
    t: TableSourceView,
    cols: Seq<ColumnSourceView>,
    c: ColumnSourceView,
)
    ensures
        table_doc(t).title == t.name && table_doc(t).kind == "table"@ && table_doc(t).subject_id
            == t.id && table_doc(t).file == t.file && table_doc(t).body == columns_text(t.columns),
        columns_text(cols).len() > 0 ==> columns_text(cols.push(c)) == columns_text(cols) + "；"@
            + column_text(c),
        columns_text(cols).len() == 0 ==> columns_text(cols.push(c)) == column_text(c),
        c.java_type is Some && c.doc is None ==> column_text(c) == c.name + " "@ + c.java_type->0,
        c.java_type is Some && c.doc is Some && trimmed(c.doc->0).len() > 0 ==> column_text(c)
            == c.name + " "@ + c.java_type->0 + " "@ + c.doc->0,
        c.java_type is Some && c.doc is Some && trimmed(c.doc->0).len() == 0 ==> column_text(c)
            == c.name + " "@ + c.java_type->0,
        c.java_type is None && c.doc is None ==> column_text(c) == c.name + " "@,
{
    assert(cols.push(c).drop_last() =~= cols);
    if c.java_type is None && c.doc is None {
        assert(column_text(c) =~= c.name + " "@);
    }
}

/// An entrypoint is found under its address, else its name, by its name and its comment; a
/// domain under its label, else its key, by its key and its rationale.
pub proof fn entries_and_domains_are_indexed(e: EntrySourceView, d: DomainSourceView)
    ensures
        e.addr is Some ==> entry_doc(e).title == e.addr->0,
        e.addr is None ==> entry_doc(e).title == e.name,
        e.doc is Some ==> entry_doc(e).body == e.name + "\n"@ + e.doc->0,
        e.doc is None ==> entry_doc(e).body == e.name,
        entry_doc(e).kind == "entrypoint"@ && entry_doc(e).subject_kind == e.kind && entry_doc(
            e,
        ).subject_id == e.id && entry_doc(e).file == e.file,
        d.label is Some ==> domain_doc(d).title == d.label->0,
        d.label is None ==> domain_doc(d).title == d.key,
        d.rationale is Some ==> domain_doc(d).body == d.key + "\n"@ + d.rationale->0,
        d.rationale is None ==> domain_doc(d).body == d.key,
        domain_doc(d).kind == "domain"@ && domain_doc(d).subject_id == d.id && domain_doc(d).file
            is None,
{
    reveal_with_fuel(joined, 3);
    if e.doc is Some {
        let l = seq![e.name, e.doc->0];
        assert(l.drop_last() =~= seq![e.name]);
    }
    if d.rationale is Some {
        let l = seq![d.key, d.rationale->0];
        assert(l.drop_last() =~= seq![d.key]);
    }
}

/// A term is found by its definition and its aliases, a commit by its subject.
pub proof fn terms_and_commits_are_indexed(
    t: TermSourceView,
    a: Seq<char>,
    c: CommitSourceView,
)
    ensures
        term_doc(t, seq![a]).title == t.term && term_doc(t, seq![a]).kind == "glossary"@,
        term_doc(t, seq![a]).subject_id == t.id,
        t.definition is Some ==> term_doc(t, seq![a]).body == t.definition->0 + "\n"@ + a,
        t.definition is None ==> term_doc(t, seq![a]).body == a,
        t.definition is Some ==> term_doc(t, Seq::empty()).body == t.definition->0,
        aliases_of(None).len() == 0,
        commit_doc(c).title == c.subject && commit_doc(c).kind == "commit"@ && commit_doc(
            c,
        ).subject_id == c.id && commit_doc(c).body.len() == 0,
{
    reveal_with_fuel(joined, 3);
    if t.definition is Some {
        let d = t.definition->0;
        let l = seq![d] + seq![a];
        assert(l =~= seq![d, a]);
        assert(l.drop_last() =~= seq![d]);
        assert(seq![d] + Seq::<Seq<char>>::empty() =~= seq![d]);
    } else {
        assert(Seq::<Seq<char>>::empty() + seq![a] =~= seq![a]);
    }
}

/// Notes are found, of insights those that a person has confirmed.
pub proof fn only_confirmed_insights_are_indexed(n: NoteSourceView)
    ensures
        ({
            let insight = n.kind == "business_rule"@ || n.kind == "landmine"@ || n.kind == "term"@;
            &&& note_doc(n) is Some <==> !insight || n.status == "confirmed"@
            &&& note_doc(n) matches Some(d) ==> d.title == n.title && d.body == n.body && d.kind
                == "note"@ && d.subject_kind == n.kind && d.subject_id == n.id && d.file is None
        }),
{
}

proof fn mapped_members<T>(s: Seq<T>, f: spec_fn(T) -> DocView, x: DocView)
    ensures
        s.map_values(f).contains(x) <==> exists|i: int| 0 <= i < s.len() && f(#[trigger] s[i]) == x,
{
    let m = s.map_values(f);
    if m.contains(x) {
        let k = choose|k: int| 0 <= k < m.len() && m[k] == x;
        assert(f(s[k]) == x);
    }
    if exists|i: int| 0 <= i < s.len() && f(#[trigger] s[i]) == x {
        let i = choose|i: int| 0 <= i < s.len() && f(#[trigger] s[i]) == x;
        assert(m[i] == x);
    }
}

/// Everything that is known is in the index, and nothing else.
pub proof fn the_index_holds_everything(s: SourcesView, x: DocView)
    ensures
        index_of(s).contains(x) <==> (exists|i: int|
            0 <= i < s.files.len() && file_doc(#[trigger] s.files[i]) == x) || (exists|i: int|
            0 <= i < s.symbols.len() && symbol_doc(#[trigger] s.symbols[i]) == x) || (exists|i: int|
            0 <= i < s.tables.len() && table_doc(#[trigger] s.tables[i]) == x) || (exists|i: int|
            0 <= i < s.entrypoints.len() && entry_doc(#[trigger] s.entrypoints[i]) == x) || (exists|
            i: int,
        |
            0 <= i < s.domains.len() && domain_doc(#[trigger] s.domains[i]) == x) || (exists|i: int|
            0 <= i < s.notes.len() && note_doc(#[trigger] s.notes[i]) == Some(x)) || (exists|i: int|
            0 <= i < s.terms.len() && term_doc(
                #[trigger] s.terms[i],
                aliases_of(s.terms[i].aliases_json),
            ) == x) || (exists|i: int|
            0 <= i < s.commits.len() && commit_doc(#[trigger] s.commits[i]) == x),
{
    let f1 = |f: FileSourceView| file_doc(f);
    let f2 = |x: SymbolSourceView| symbol_doc(x);
    let f3 = |t: TableSourceView| table_doc(t);
    let f4 = |e: EntrySourceView| entry_doc(e);
    let f5 = |d: DomainSourceView| domain_doc(d);
    let f6 = |n: NoteSourceView| note_doc(n);
    let f7 = |t: TermSourceView| term_doc(t, aliases_of(t.aliases_json));
    let f8 = |c: CommitSourceView| commit_doc(c);
    mapped_members(s.files, f1, x);
    mapped_members(s.symbols, f2, x);
    mapped_members(s.tables, f3, x);
    mapped_members(s.entrypoints, f4, x);
    mapped_members(s.domains, f5, x);
    pick_members(s.notes, f6, x);
    mapped_members(s.terms, f7, x);
    mapped_members(s.commits, f8, x);
    let a1 = s.files.map_values(f1);
    let a2 = a1 + s.symbols.map_values(f2);
    let a3 = a2 + s.tables.map_values(f3);
    let a4 = a3 + s.entrypoints.map_values(f4);
    let a5 = a4 + s.domains.map_values(f5);
    let a6 = a5 + crate::lists::pick(s.notes, f6);
    let a7 = a6 + s.terms.map_values(f7);
    concat_members(a1, s.symbols.map_values(f2), x);
    concat_members(a2, s.tables.map_values(f3), x);
    concat_members(a3, s.entrypoints.map_values(f4), x);
    concat_members(a4, s.domains.map_values(f5), x);
    concat_members(a5, crate::lists::pick(s.notes, f6), x);
    concat_members(a6, s.terms.map_values(f7), x);
    concat_members(a7, s.commits.map_values(f8), x);
    assert((exists|i: int| 0 <= i < s.files.len() && f1(#[trigger] s.files[i]) == x) == (exists|
        i: int,
    | 0 <= i < s.files.len() && file_doc(#[trigger] s.files[i]) == x));
    assert((exists|i: int| 0 <= i < s.symbols.len() && f2(#[trigger] s.symbols[i]) == x) == (exists|
        i: int,
    | 0 <= i < s.symbols.len() && symbol_doc(#[trigger] s.symbols[i]) == x));
    assert((exists|i: int| 0 <= i < s.tables.len() && f3(#[trigger] s.tables[i]) == x) == (exists|
        i: int,
    | 0 <= i < s.tables.len() && table_doc(#[trigger] s.tables[i]) == x));
    assert((exists|i: int| 0 <= i < s.entrypoints.len() && f4(#[trigger] s.entrypoints[i]) == x)
        == (exists|i: int|
        0 <= i < s.entrypoints.len() && entry_doc(#[trigger] s.entrypoints[i]) == x));
    assert((exists|i: int| 0 <= i < s.domains.len() && f5(#[trigger] s.domains[i]) == x) == (exists|
        i: int,
    | 0 <= i < s.domains.len() && domain_doc(#[trigger] s.domains[i]) == x));
    assert((exists|i: int| 0 <= i < s.notes.len() && f6(#[trigger] s.notes[i]) == Some(x))
        == (exists|i: int| 0 <= i < s.notes.len() && note_doc(#[trigger] s.notes[i]) == Some(x)));
    assert((exists|i: int| 0 <= i < s.terms.len() && f7(#[trigger] s.terms[i]) == x) == (exists|
        i: int,
    | 0 <= i < s.terms.len() && term_doc(
        #[trigger] s.terms[i],
        aliases_of(s.terms[i].aliases_json),
    ) == x));
    assert((exists|i: int| 0 <= i < s.commits.len() && f8(#[trigger] s.commits[i]) == x) == (exists|
        i: int,
    | 0 <= i < s.commits.len() && commit_doc(#[trigger] s.commits[i]) == x));
}

/// White space around a query's words, and between them, does not matter.
pub proof fn queries_are_their_words(w: Seq<char>, v: Seq<char>)
    requires
        w.len() > 0 && v.len() > 0,
        forall|i: int| 0 <= i < w.len() ==> !is_white(#[trigger] w[i]),
        forall|i: int| 0 <= i < v.len() ==> !is_white(#[trigger] v[i]),
    ensures
        normalized(w) == w,
        normalized(w + "  "@ + v) == w + " "@ + v,
        normalized(w + "\t"@ + v) == w + " "@ + v,
{
    reveal_strlit(" ");
    reveal_strlit("  ");
    reveal_strlit("\t");
    reveal_with_fuel(joined, 3);
    first_word(w, ' ', v);
    first_word(v, ' ', v);
    assert(words_of(w) =~= seq![w]);
    assert(words_of(v) =~= seq![v]);
    let two = w + "  "@ + v;
    let rest = seq![' '] + v;
    assert(two =~= w.push(' ') + rest);
    blank_words(v);
    assert(words_of(rest) =~= seq![v]);
    words_in_turn(w, ' ', rest);
    assert(words_of(two) =~= seq![w, v]);
    let tab = w + "\t"@ + v;
    assert(tab =~= w.push('\t') + v);
    words_in_turn(w, '\t', v);
    assert(words_of(tab) =~= seq![w, v]);
    assert(seq![w, v].drop_last() =~= seq![w]);
}

proof fn words_in_turn(w: Seq<char>, sep: char, rest: Seq<char>)
    requires
        w.len() > 0,
        forall|i: int| 0 <= i < w.len() ==> !is_white(#[trigger] w[i]),
        is_white(sep),
    ensures
        words_of(w.push(sep) + rest) == seq![w] + words_of(rest),
{
    let p = crate::text::whites();
    let f = |x: Seq<char>| crate::split::nonempty(x);
    one_piece(w, p);
    crate::laws::basics::pieces_meet_at(w, sep, rest, p);
    let more = crate::split::pieces_by(rest, p);
    keep_first(w, more, f);
}

proof fn blank_words(v: Seq<char>)
    requires
        v.len() > 0,
        forall|i: int| 0 <= i < v.len() ==> !is_white(#[trigger] v[i]),
    ensures
        words_of(seq![' '] + v) == seq![v],
{
    let p = crate::text::whites();
    let f = |x: Seq<char>| crate::split::nonempty(x);
    let e = Seq::<char>::empty();
    assert(seq![' '] + v =~= e.push(' ') + v);
    one_piece(e, p);
    one_piece(v, p);
    crate::laws::basics::pieces_meet_at(e, ' ', v, p);
    keep_first(e, seq![v], f);
    keep_first(v, Seq::empty(), f);
    assert(seq![v] + Seq::<Seq<char>>::empty() =~= seq![v]);
    assert(crate::lists::keep(Seq::<Seq<char>>::empty(), f) =~= Seq::empty());
}

/// A hit shows what was indexed, with the first 160 characters of the text at most.
pub proof fn hits_show_what_was_indexed(d: DocView)
    ensures
        hit_of(d).kind == d.kind && hit_of(d).subject_kind == d.subject_kind,
        hit_of(d).subject_id == d.subject_id && hit_of(d).title == d.title && hit_of(d).file
            == d.file,
        hit_of(d).snippet == truncated(d.body, 160),
        d.body.len() <= 160 ==> hit_of(d).snippet == d.body,
{
}

proof fn label_kinds()
    ensures
        "symbol"@ != "entrypoint"@,
        "symbol"@ != "file"@,
        "symbol"@ != "table"@,
        "symbol"@ != "domain"@,
        "symbol"@ != "note"@,
        "symbol"@ != "glossary"@,
        "symbol"@ != "commit"@,
        "entrypoint"@ != "file"@,
        "entrypoint"@ != "table"@,
        "entrypoint"@ != "domain"@,
        "entrypoint"@ != "note"@,
        "entrypoint"@ != "glossary"@,
        "entrypoint"@ != "commit"@,
        "file"@ != "table"@,
        "file"@ != "domain"@,
        "file"@ != "note"@,
        "file"@ != "glossary"@,
        "file"@ != "commit"@,
        "table"@ != "domain"@,
        "table"@ != "note"@,
        "table"@ != "glossary"@,
        "table"@ != "commit"@,
        "domain"@ != "note"@,
        "domain"@ != "glossary"@,
        "domain"@ != "commit"@,
        "note"@ != "glossary"@,
        "note"@ != "commit"@,
        "glossary"@ != "commit"@,

{
    reveal_strlit("symbol");
    reveal_strlit("entrypoint");
    reveal_strlit("file");
    reveal_strlit("table");
    reveal_strlit("domain");
    reveal_strlit("note");
    reveal_strlit("glossary");
    reveal_strlit("commit");
    assert("symbol"@.len() == 6 && "symbol"@[0] == 's');
    assert("entrypoint"@.len() == 10 && "entrypoint"@[0] == 'e');
    assert("file"@.len() == 4 && "file"@[0] == 'f');
    assert("table"@.len() == 5 && "table"@[0] == 't');
    assert("domain"@.len() == 6 && "domain"@[0] == 'd');
    assert("note"@.len() == 4 && "note"@[0] == 'n');
    assert("glossary"@.len() == 8 && "glossary"@[0] == 'g');
    assert("commit"@.len() == 6 && "commit"@[0] == 'c');

    assert("symbol"@ != "domain"@);
    assert("symbol"@ != "commit"@);
    assert("file"@ != "note"@);
    assert("domain"@ != "commit"@);
}
proof fn symbol_kinds()
    ensures
        "class"@ != "interface"@,
        "class"@ != "enum"@,
        "class"@ != "enum_member"@,
        "class"@ != "method"@,
        "class"@ != "field"@,
        "class"@ != "constant"@,
        "class"@ != "annotation"@,
        "class"@ != "record"@,
        "interface"@ != "enum"@,
        "interface"@ != "enum_member"@,
        "interface"@ != "method"@,
        "interface"@ != "field"@,
        "interface"@ != "constant"@,
        "interface"@ != "annotation"@,
        "interface"@ != "record"@,
        "enum"@ != "enum_member"@,
        "enum"@ != "method"@,
        "enum"@ != "field"@,
        "enum"@ != "constant"@,
        "enum"@ != "annotation"@,
        "enum"@ != "record"@,
        "enum_member"@ != "method"@,
        "enum_member"@ != "field"@,
        "enum_member"@ != "constant"@,
        "enum_member"@ != "annotation"@,
        "enum_member"@ != "record"@,
        "method"@ != "field"@,
        "method"@ != "constant"@,
        "method"@ != "annotation"@,
        "method"@ != "record"@,
        "field"@ != "constant"@,
        "field"@ != "annotation"@,
        "field"@ != "record"@,
        "constant"@ != "annotation"@,
        "constant"@ != "record"@,
        "annotation"@ != "record"@,

{
    reveal_strlit("class");
    reveal_strlit("interface");
    reveal_strlit("enum");
    reveal_strlit("enum_member");
    reveal_strlit("method");
    reveal_strlit("field");
    reveal_strlit("constant");
    reveal_strlit("annotation");
    reveal_strlit("record");
    assert("class"@.len() == 5 && "class"@[0] == 'c');
    assert("interface"@.len() == 9 && "interface"@[0] == 'i');
    assert("enum"@.len() == 4 && "enum"@[0] == 'e');
    assert("enum_member"@.len() == 11 && "enum_member"@[0] == 'e');
    assert("method"@.len() == 6 && "method"@[0] == 'm');
    assert("field"@.len() == 5 && "field"@[0] == 'f');
    assert("constant"@.len() == 8 && "constant"@[0] == 'c');
    assert("annotation"@.len() == 10 && "annotation"@[0] == 'a');
    assert("record"@.len() == 6 && "record"@[0] == 'r');

    assert("class"@ != "field"@);
    assert("method"@ != "record"@);
}
proof fn entry_kinds()
    ensures
        "dubbo"@ != "http"@,
        "dubbo"@ != "job"@,
        "dubbo"@ != "mq"@,
        "http"@ != "job"@,
        "http"@ != "mq"@,
        "job"@ != "mq"@,

{
    reveal_strlit("dubbo");
    reveal_strlit("http");
    reveal_strlit("job");
    reveal_strlit("mq");
    assert("dubbo"@.len() == 5 && "dubbo"@[0] == 'd');
    assert("http"@.len() == 4 && "http"@[0] == 'h');
    assert("job"@.len() == 3 && "job"@[0] == 'j');
    assert("mq"@.len() == 2 && "mq"@[0] == 'm');


}
proof fn file_kinds()
    ensures
        "java"@ != "xml"@,
        "java"@ != "properties"@,
        "java"@ != "yaml"@,
        "java"@ != "sql"@,
        "xml"@ != "properties"@,
        "xml"@ != "yaml"@,
        "xml"@ != "sql"@,
        "properties"@ != "yaml"@,
        "properties"@ != "sql"@,
        "yaml"@ != "sql"@,

{
    reveal_strlit("java");
    reveal_strlit("xml");
    reveal_strlit("properties");
    reveal_strlit("yaml");
    reveal_strlit("sql");
    assert("java"@.len() == 4 && "java"@[0] == 'j');
    assert("xml"@.len() == 3 && "xml"@[0] == 'x');
    assert("properties"@.len() == 10 && "properties"@[0] == 'p');
    assert("yaml"@.len() == 4 && "yaml"@[0] == 'y');
    assert("sql"@.len() == 3 && "sql"@[0] == 's');

    assert("java"@ != "yaml"@);
    assert("xml"@ != "sql"@);
}

/// A hit's label says what it is, and more precisely of what kind.
pub proof fn labels_say_what_hits_are(sub: Seq<char>)
    ensures
        label_of("symbol"@, "class"@) == "符号"@ + "·"@ + "类"@,
        label_of("symbol"@, "interface"@) == "符号"@ + "·"@ + "接口"@,
        label_of("symbol"@, "enum"@) == "符号"@ + "·"@ + "枚举"@,
        label_of("symbol"@, "enum_member"@) == "符号"@ + "·"@ + "枚举值"@,
        label_of("symbol"@, "method"@) == "符号"@ + "·"@ + "方法"@,
        label_of("symbol"@, "field"@) == "符号"@ + "·"@ + "字段"@,
        label_of("symbol"@, "constant"@) == "符号"@ + "·"@ + "常量"@,
        label_of("symbol"@, "annotation"@) == "符号"@ + "·"@ + "注解"@,
        label_of("symbol"@, "record"@) == "符号"@ + "·"@ + "记录"@,
        label_of("entrypoint"@, "dubbo"@) == "入口"@ + "·"@ + "Dubbo"@,
        label_of("entrypoint"@, "http"@) == "入口"@ + "·"@ + "HTTP"@,
        label_of("entrypoint"@, "job"@) == "入口"@ + "·"@ + "任务"@,
        label_of("entrypoint"@, "mq"@) == "入口"@ + "·"@ + "MQ"@,
        label_of("file"@, "java"@) == "文件"@ + "·"@ + "Java"@,
        label_of("file"@, "xml"@) == "文件"@ + "·"@ + "XML"@,
        label_of("file"@, "properties"@) == "文件"@ + "·"@ + "properties"@,
        label_of("file"@, "yaml"@) == "文件"@ + "·"@ + "YAML"@,
        label_of("file"@, "sql"@) == "文件"@ + "·"@ + "SQL"@,
        label_of("table"@, sub) == "数据表"@,
        label_of("domain"@, sub) == "领域"@,
        label_of("glossary"@, sub) == "术语"@,
        label_of("commit"@, sub) == "提交"@,
        sub.len() > 0 ==> label_of("note"@, sub) == "文档"@ + "·"@ + sub,
        sub.len() == 0 ==> label_of("note"@, sub) == "文档"@,
{
    label_kinds();
    symbol_kinds();
    entry_kinds();
    file_kinds();
    reveal_strlit("Dubbo");
    reveal_strlit("HTTP");
    reveal_strlit("Java");
    reveal_strlit("MQ");
    reveal_strlit("SQL");
    reveal_strlit("XML");
    reveal_strlit("YAML");
    reveal_strlit("properties");
    reveal_strlit("任务");
    reveal_strlit("字段");
    reveal_strlit("常量");
    reveal_strlit("接口");
    reveal_strlit("方法");
    reveal_strlit("枚举");
    reveal_strlit("枚举值");
    reveal_strlit("注解");
    reveal_strlit("类");
    reveal_strlit("记录");
}

} // verus!
