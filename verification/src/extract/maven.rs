//! Maven POM extraction: module tree and dependency coordinates.
use crate::extract::xmlutil::{document, events, local, XmlEvent, XmlEventView};
use crate::lists::{sort_unique, sorted_of, take_all, take_next};
use crate::split::{after_last, tail_of};
use crate::text::{owned, same, trim, trimmed};
use vstd::prelude::*;

verus! {

#[derive(Debug)]
pub struct Pom {
    pub artifact_id: Option<String>,
    pub group_id: Option<String>,
    pub version: Option<String>,
    pub packaging: Option<String>,
    /// Relative paths declared in `<modules>`.
    pub modules: Vec<String>,
    /// `group:artifact` of declared dependencies.
    pub dependencies: Vec<String>,
}

/// The content of a [`Pom`].
#[verifier::ext_equal]
pub struct PomView {
    pub artifact_id: Option<Seq<char>>,
    pub group_id: Option<Seq<char>>,
    pub version: Option<Seq<char>>,
    pub packaging: Option<Seq<char>>,
    pub modules: Seq<Seq<char>>,
    pub dependencies: Seq<Seq<char>>,
}

impl DeepView for Pom {
    type V = PomView;

    open spec fn deep_view(&self) -> PomView {
        PomView {
            artifact_id: self.artifact_id.deep_view(),
            group_id: self.group_id.deep_view(),
            version: self.version.deep_view(),
            packaging: self.packaging.deep_view(),
            modules: self.modules.deep_view(),
            dependencies: self.dependencies.deep_view(),
        }
    }
}

impl Clone for Pom {
    fn clone(&self) -> (r: Self)
        ensures
            r.deep_view() == self.deep_view(),
    {
        Pom {
            artifact_id: self.artifact_id.clone(),
            group_id: self.group_id.clone(),
            version: self.version.clone(),
            packaging: self.packaging.clone(),
            modules: self.modules.clone(),
            dependencies: self.dependencies.clone(),
        }
    }
}

pub open spec fn empty_pom() -> PomView {
    PomView {
        artifact_id: None,
        group_id: None,
        version: None,
        packaging: None,
        modules: Seq::empty(),
        dependencies: Seq::empty(),
    }
}

impl Default for Pom {
    fn default() -> (r: Self)
        ensures
            r.deep_view() == empty_pom(),
    {
        let r = Pom {
            artifact_id: None,
            group_id: None,
            version: None,
            packaging: None,
            modules: Vec::new(),
            dependencies: Vec::new(),
        };
        assert(r.deep_view() =~= empty_pom());
        r
    }
}

/// A POM that is being read.
#[derive(Debug)]
pub struct PomReader {
    pub pom: Pom,
    /// Element path, so we can tell `/project/artifactId` from a dependency's.
    pub path: Vec<String>,
    pub text: String,
    /// Coordinates of the dependency currently being read.
    pub dep_group: Option<String>,
    pub dep_artifact: Option<String>,
}

/// The content of a [`PomReader`].
#[verifier::ext_equal]
pub struct PomReaderView {
    pub pom: PomView,
    pub path: Seq<Seq<char>>,
    pub text: Seq<char>,
    pub dep_group: Option<Seq<char>>,
    pub dep_artifact: Option<Seq<char>>,
}

impl DeepView for PomReader {
    type V = PomReaderView;

    open spec fn deep_view(&self) -> PomReaderView {
        PomReaderView {
            pom: self.pom.deep_view(),
            path: self.path.deep_view(),
            text: self.text.deep_view(),
            dep_group: self.dep_group.deep_view(),
            dep_artifact: self.dep_artifact.deep_view(),
        }
    }
}

/// The parent of the innermost open element; the root is its own.
pub open spec fn parent_of(path: Seq<Seq<char>>) -> Option<Seq<char>> {
    if path.len() >= 2 {
        Some(path[path.len() - 2])
    } else if path.len() == 1 {
        Some(path[0])
    } else {
        None
    }
}

/// What the end of the element `name` with the text `val` adds.
///
/// The immediate parent element disambiguates identically named tags:
/// `<project>`'s own coordinates vs a `<dependency>`'s vs an `<exclusion>`'s
/// wildcards.
pub open spec fn closed(s: PomReaderView, name: Seq<char>, val: Seq<char>) -> PomReaderView {
    let at_root = parent_of(s.path) == Some("project"@);
    let in_dep = parent_of(s.path) == Some("dependency"@);
    if name == "artifactId"@ && at_root {
        PomReaderView { pom: PomView { artifact_id: Some(val), ..s.pom }, ..s }
    } else if name == "groupId"@ && at_root {
        PomReaderView { pom: PomView { group_id: Some(val), ..s.pom }, ..s }
    } else if name == "version"@ && at_root {
        PomReaderView { pom: PomView { version: Some(val), ..s.pom }, ..s }
    } else if name == "packaging"@ && at_root {
        PomReaderView { pom: PomView { packaging: Some(val), ..s.pom }, ..s }
    } else if name == "module"@ {
        if val.len() > 0 {
            PomReaderView { pom: PomView { modules: s.pom.modules.push(val), ..s.pom }, ..s }
        } else {
            s
        }
    } else if name == "groupId"@ && in_dep {
        PomReaderView { dep_group: Some(val), ..s }
    } else if name == "artifactId"@ && in_dep {
        PomReaderView { dep_artifact: Some(val), ..s }
    } else if name == "dependency"@ {
        let pom = if s.dep_group is Some && s.dep_artifact is Some {
            PomView {
                dependencies: s.pom.dependencies.push(
                    s.dep_group->0 + ":"@ + s.dep_artifact->0,
                ),
                ..s.pom
            }
        } else {
            s.pom
        };
        PomReaderView { pom, dep_group: None, dep_artifact: None, ..s }
    } else {
        s
    }
}

/// What one event does.
pub open spec fn step(s: PomReaderView, ev: XmlEventView) -> PomReaderView {
    match ev {
        XmlEventView::Start(t) => PomReaderView {
            path: s.path.push(tail_of(t.name, ':')),
            text: Seq::empty(),
            ..s
        },
        XmlEventView::Text(t) => PomReaderView { text: s.text + t, ..s },
        XmlEventView::End(n) => {
            let c = closed(s, tail_of(n, ':'), trimmed(s.text));
            PomReaderView {
                text: Seq::empty(),
                path: if s.path.len() > 0 {
                    s.path.drop_last()
                } else {
                    s.path
                },
                ..c
            }
        },
        _ => s,
    }
}

pub open spec fn read(evs: Seq<XmlEventView>) -> PomReaderView
    decreases evs.len(),
{
    if evs.len() == 0 {
        PomReaderView {
            pom: empty_pom(),
            path: Seq::empty(),
            text: Seq::empty(),
            dep_group: None,
            dep_artifact: None,
        }
    } else {
        step(read(evs.drop_last()), evs.last())
    }
}

/// The POM that the events describe, its dependencies sorted and each once.
pub open spec fn pom_of(evs: Seq<XmlEventView>) -> PomView {
    let p = read(evs).pom;
    PomView { dependencies: sorted_of(p.dependencies), ..p }
}

impl PomReader {
    fn parent_is(&self, name: &str) -> (r: bool)
        ensures
            r == (parent_of(self.deep_view().path) == Some(name@)),
    {
        let n: usize = self.path.len();
        if n == 0 {
            return false;
        }
        let k: usize = if n >= 2 {
            n - 2
        } else {
            0
        };
        assert(self.deep_view().path[k as int] == self.path@[k as int]@);
        same(self.path[k].as_str(), name)
    }

    fn close(&mut self, name: &str, val: String)
        ensures
            final(self).deep_view() == closed(old(self).deep_view(), name@, val@),
    {
        let at_root = self.parent_is("project");
        let in_dep = self.parent_is("dependency");
        let ghost s0 = self.deep_view();
        if same(name, "artifactId") && at_root {
            self.pom.artifact_id = Some(val);
        } else if same(name, "groupId") && at_root {
            self.pom.group_id = Some(val);
        } else if same(name, "version") && at_root {
            self.pom.version = Some(val);
        } else if same(name, "packaging") && at_root {
            self.pom.packaging = Some(val);
        } else if same(name, "module") {
            if !val.as_str().is_empty() {
                self.pom.modules.push(val);
                assert(self.deep_view().pom.modules =~= s0.pom.modules.push(val@));
            }
        } else if same(name, "groupId") && in_dep {
            self.dep_group = Some(val);
        } else if same(name, "artifactId") && in_dep {
            self.dep_artifact = Some(val);
        } else if same(name, "dependency") {
            let group = self.dep_group.take();
            let artifact = self.dep_artifact.take();
            match (group, artifact) {
                (Some(g), Some(a)) => {
                    let mut d = g;
                    d.append(":");
                    d.append(a.as_str());
                    self.pom.dependencies.push(d);
                    assert(self.deep_view().pom.dependencies =~= s0.pom.dependencies.push(d@));
                },
                _ => {},
            }
        }
    }

    fn step(&mut self, ev: &XmlEvent)
        ensures
            final(self).deep_view() == step(old(self).deep_view(), ev.deep_view()),
    {
        let ghost s0 = self.deep_view();
        match ev {
            XmlEvent::Start(t) => {
                let name = local(t);
                self.path.push(name);
                self.text = String::new();
                assert(self.deep_view().path =~= s0.path.push(name@));
            },
            XmlEvent::Text(t) => {
                self.text.append(t.as_str());
            },
            XmlEvent::End(n) => {
                let name = after_last(n.as_str(), ':');
                let val = owned(trim(self.text.as_str()));
                self.close(name, val);
                let ghost s1 = self.deep_view();
                self.text = String::new();
                if self.path.len() > 0 {
                    self.path.pop();
                    assert(self.deep_view().path =~= s1.path.drop_last());
                }
            },
            _ => {},
        }
    }
}

/// The POM that a document's events describe.
pub fn from_events(evs: &Vec<XmlEvent>) -> (r: Pom)
    ensures
        r.deep_view() == pom_of(evs.deep_view()),
{
    let mut s = PomReader {
        pom: Pom::default(),
        path: Vec::new(),
        text: String::new(),
        dep_group: None,
        dep_artifact: None,
    };
    let ghost d = evs.deep_view();
    assert(s.deep_view() =~= read(d.take(0)));
    let mut i: usize = 0;
    while i < evs.len()
        invariant
            i <= evs.len(),
            d == evs.deep_view(),
            s.deep_view() == read(d.take(i as int)),
        decreases evs.len() - i,
    {
        broadcast use take_next;

        s.step(&evs[i]);
        assert(d[i as int] == evs@[i as int].deep_view());
        i += 1;
        assert(d.take(i as int) == d.take((i - 1) + 1));
    }
    broadcast use take_all;

    assert(d.take(i as int) == d);
    let mut pom = s.pom;
    pom.dependencies = sort_unique(&pom.dependencies);
    pom
}

/// The POM in `xml`; whatever parsed before an error is kept.
pub fn parse(xml: &str) -> (r: Result<Pom, String>)
    ensures
        r is Ok,
        r->Ok_0.deep_view() == pom_of(document(xml@)),
{
    Ok(from_events(&events(xml)))
}

} // verus!

