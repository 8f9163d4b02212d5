//! The nuspec document: the metadata of a package, derived from the project
//! configuration, written as markup and read back.
use vstd::prelude::*;

use crate::cargo::{CargoConfig, ProjectConfig};
use crate::markup::{
    escape_attr, escape_attribute, escape_pcdata, escape_text, is_markup_text, lemma_attr_unique,
    lemma_field_unique, markup_text, matches_at, read_attr, read_field,
};

verus! {

pub const NUSPEC_HEAD: &'static str = "<?xml version=\"1.0\" encoding=\"utf-8\"?>\n<package xmlns=\"http://schemas.microsoft.com/packaging/2013/05/nuspec.xsd\">\n  <metadata>\n    <id>";

pub const ID_CLOSE: &'static str = "</id>\n    <version>";

pub const VERSION_CLOSE: &'static str = "</version>\n    <authors>";

pub const AUTHORS_CLOSE: &'static str = "</authors>\n    <description>";

pub const DESCRIPTION_CLOSE: &'static str = "</description>\n    <dependencies>";

pub const NUSPEC_TAIL: &'static str = "</dependencies>\n  </metadata>\n</package>\n";

pub const DEPENDENCY_OPEN: &'static str = "<dependency id=\"";

pub const DEPENDENCY_MID: &'static str = "\" version=\"";

pub const DEPENDENCY_CLOSE: &'static str = "\" />";

/// The metadata of a package as plain text values.
pub struct NuspecMeta {
    pub id: Seq<char>,
    pub version: Seq<char>,
    pub authors: Seq<char>,
    pub description: Seq<char>,
    pub dependencies: Seq<(Seq<char>, Seq<char>)>,
}

/// One dependency of a package: its id and the version it asks for.
pub struct NugetDependency {
    pub id: String,
    pub version: String,
}

/// The dependencies of a package, each id at most once.
pub struct NugetDependencies {
    pub entries: Vec<NugetDependency>,
}

impl View for NugetDependencies {
    type V = Seq<(Seq<char>, Seq<char>)>;

    open spec fn view(&self) -> Seq<(Seq<char>, Seq<char>)> {
        Seq::new(self.entries@.len(), |i: int| (self.entries@[i].id@, self.entries@[i].version@))
    }
}

impl NugetDependencies {
    /// No dependency declared twice.
    pub open spec fn wf(&self) -> bool {
        forall|i: int, j: int|
            0 <= i < j < self@.len() ==> #[trigger] self@[i].0 != #[trigger] self@[j].0
    }

    /// An empty set of dependencies.
    pub fn new() -> (r: NugetDependencies)
        ensures
            r@.len() == 0,
            r.wf(),
    {
        NugetDependencies { entries: Vec::new() }
    }
}

/// What a nuspec states: the package id, version, authors, description and
/// dependencies.
pub struct NugetSpecArgs {
    pub id: String,
    pub version: String,
    pub authors: String,
    pub description: String,
    pub dependencies: NugetDependencies,
}

impl View for NugetSpecArgs {
    type V = NuspecMeta;

    open spec fn view(&self) -> NuspecMeta {
        NuspecMeta {
            id: self.id@,
            version: self.version@,
            authors: self.authors@,
            description: self.description@,
            dependencies: self.dependencies@,
        }
    }
}

/// A nuspec document: the package id and version and the markup that describes
/// the package.
pub struct Nuspec {
    pub id: String,
    pub version: String,
    pub xml: String,
}

/// Why a nuspec could not be written.
#[derive(Debug, PartialEq, Eq, Clone, Copy)]
pub enum NuspecError {
    /// A field holds a character that no markup document may hold.
    Serialization,
}

/// The markup of one dependency.
pub open spec fn dependency_xml(d: (Seq<char>, Seq<char>)) -> Seq<char> {
    DEPENDENCY_OPEN@ + escape_attribute(d.0) + DEPENDENCY_MID@ + escape_attribute(d.1)
        + DEPENDENCY_CLOSE@
}

/// The markup of a list of dependencies, in their order.
pub open spec fn dependencies_xml(ds: Seq<(Seq<char>, Seq<char>)>) -> Seq<char>
    decreases ds.len(),
{
    if ds.len() == 0 {
        Seq::empty()
    } else {
        dependencies_xml(ds.drop_last()) + dependency_xml(ds.last())
    }
}

/// The nuspec document that describes `m`.
pub open spec fn nuspec_xml(m: NuspecMeta) -> Seq<char> {
    NUSPEC_HEAD@ + escape_pcdata(m.id) + ID_CLOSE@ + escape_pcdata(m.version) + VERSION_CLOSE@
        + escape_pcdata(m.authors) + AUTHORS_CLOSE@ + escape_pcdata(m.description)
        + DESCRIPTION_CLOSE@ + dependencies_xml(m.dependencies) + NUSPEC_TAIL@
}

/// Whether every field of `m` can be written as markup.
pub open spec fn meta_writable(m: NuspecMeta) -> bool {
    &&& markup_text(m.id)
    &&& markup_text(m.version)
    &&& markup_text(m.authors)
    &&& markup_text(m.description)
    &&& forall|i: int|
        0 <= i < m.dependencies.len() ==> dependency_writable(#[trigger] m.dependencies[i])
}

/// Whether the id and version of a dependency can be written as markup.
pub open spec fn dependency_writable(d: (Seq<char>, Seq<char>)) -> bool {
    markup_text(d.0) && markup_text(d.1)
}

/// Writes the markup of the dependencies of `deps`.
fn write_dependencies(deps: &NugetDependencies, out: &mut String)
    ensures
        final(out)@ == old(out)@ + dependencies_xml(deps@),
{
    let n = deps.entries.len();
    let mut i: usize = 0;
    while i < n
        invariant
            n == deps.entries@.len(),
            i <= n,
            out@ == old(out)@ + dependencies_xml(deps@.take(i as int)),
        decreases n - i,
    {
        let d = &deps.entries[i];
        let ghost before = out@;
        out.append(DEPENDENCY_OPEN);
        let a = escape_attr(d.id.as_str());
        out.append(a.as_str());
        out.append(DEPENDENCY_MID);
        let b = escape_attr(d.version.as_str());
        out.append(b.as_str());
        out.append(DEPENDENCY_CLOSE);
        proof {
            let t = deps@.take(i + 1);
            assert(t.drop_last() =~= deps@.take(i as int));
            assert(t.last() == deps@[i as int]);
            assert(out@ =~= before + dependency_xml(deps@[i as int]));
        }
        i = i + 1;
    }
    assert(deps@.take(n as int) =~= deps@);
}

/// Writes the nuspec document that describes `args`.
///
/// Fails exactly when a field holds a character that no markup document may hold.
pub fn nuspec(args: &NugetSpecArgs) -> (r: Result<Nuspec, NuspecError>)
    ensures
        r is Err <==> !meta_writable(args@),
        r is Err ==> r == Err::<Nuspec, NuspecError>(NuspecError::Serialization),
        r is Ok ==> r.unwrap().id@ == args.id@ && r.unwrap().version@ == args.version@
            && r.unwrap().xml@ == nuspec_xml(args@),
{
    if !is_markup_text(args.id.as_str()) || !is_markup_text(args.version.as_str())
        || !is_markup_text(args.authors.as_str()) || !is_markup_text(args.description.as_str()) {
        return Err(NuspecError::Serialization);
    }
    let n = args.dependencies.entries.len();
    let mut i: usize = 0;
    while i < n
        invariant
            n == args.dependencies.entries@.len(),
            i <= n,
            forall|j: int| 0 <= j < i ==> dependency_writable(#[trigger] args.dependencies@[j]),
        decreases n - i,
    {
        let d = &args.dependencies.entries[i];
        if !is_markup_text(d.id.as_str()) || !is_markup_text(d.version.as_str()) {
            assert(args.dependencies@[i as int].0 == d.id@);
            assert(args.dependencies@[i as int].1 == d.version@);
            assert(!dependency_writable(args@.dependencies[i as int]));
            return Err(NuspecError::Serialization);
        }
        assert(args.dependencies@[i as int].0 == d.id@);
        assert(args.dependencies@[i as int].1 == d.version@);
        assert(dependency_writable(args.dependencies@[i as int]));
        i = i + 1;
    }
    let mut out = String::from_str(NUSPEC_HEAD);
    out.append(escape_text(args.id.as_str()).as_str());
    out.append(ID_CLOSE);
    out.append(escape_text(args.version.as_str()).as_str());
    out.append(VERSION_CLOSE);
    out.append(escape_text(args.authors.as_str()).as_str());
    out.append(AUTHORS_CLOSE);
    out.append(escape_text(args.description.as_str()).as_str());
    out.append(DESCRIPTION_CLOSE);
    write_dependencies(&args.dependencies, &mut out);
    out.append(NUSPEC_TAIL);
    Ok(Nuspec { id: args.id.clone(), version: args.version.clone(), xml: out })
}

/// Where the pieces of the nuspec document of `m` stand, up to its dependencies.
#[verifier::spinoff_prover]
#[verifier::rlimit(60)]
proof fn lemma_nuspec_layout(m: NuspecMeta)
    ensures
        ({
            let x = nuspec_xml(m);
            let a0 = NUSPEC_HEAD@.len() as int;
            let e1 = escape_pcdata(m.id);
            let a1 = a0 + e1.len() + ID_CLOSE@.len();
            let e2 = escape_pcdata(m.version);
            let a2 = a1 + e2.len() + VERSION_CLOSE@.len();
            let e3 = escape_pcdata(m.authors);
            let a3 = a2 + e3.len() + AUTHORS_CLOSE@.len();
            let e4 = escape_pcdata(m.description);
            let a4 = a3 + e4.len() + DESCRIPTION_CLOSE@.len();
            &&& x.subrange(0, a0) == NUSPEC_HEAD@
            &&& x.subrange(a0, a0 + e1.len()) == e1
            &&& x.subrange(a0 + e1.len(), a1) == ID_CLOSE@
            &&& x.subrange(a1, a1 + e2.len()) == e2
            &&& x.subrange(a1 + e2.len(), a2) == VERSION_CLOSE@
            &&& x.subrange(a2, a2 + e3.len()) == e3
            &&& x.subrange(a2 + e3.len(), a3) == AUTHORS_CLOSE@
            &&& x.subrange(a3, a3 + e4.len()) == e4
            &&& x.subrange(a3 + e4.len(), a4) == DESCRIPTION_CLOSE@
            &&& a4 == dependencies_start(m)
            &&& x.subrange(a4, x.len() as int) == dependencies_xml(m.dependencies) + NUSPEC_TAIL@
        }),
{
    let x = nuspec_xml(m);
    let a0 = NUSPEC_HEAD@.len() as int;
    let e1 = escape_pcdata(m.id);
    let a1 = a0 + e1.len() + ID_CLOSE@.len();
    let e2 = escape_pcdata(m.version);
    let a2 = a1 + e2.len() + VERSION_CLOSE@.len();
    let e3 = escape_pcdata(m.authors);
    let a3 = a2 + e3.len() + AUTHORS_CLOSE@.len();
    let e4 = escape_pcdata(m.description);
    let a4 = a3 + e4.len() + DESCRIPTION_CLOSE@.len();
    assert(x.subrange(0, a0) =~= NUSPEC_HEAD@);
    assert(x.subrange(a0, a0 + e1.len()) =~= e1);
    assert(x.subrange(a0 + e1.len(), a1) =~= ID_CLOSE@);
    assert(x.subrange(a1, a1 + e2.len()) =~= e2);
    assert(x.subrange(a1 + e2.len(), a2) =~= VERSION_CLOSE@);
    assert(x.subrange(a2, a2 + e3.len()) =~= e3);
    assert(x.subrange(a2 + e3.len(), a3) =~= AUTHORS_CLOSE@);
    assert(x.subrange(a3, a3 + e4.len()) =~= e4);
    assert(x.subrange(a3 + e4.len(), a4) =~= DESCRIPTION_CLOSE@);
    assert(x.subrange(a4, x.len() as int) =~= dependencies_xml(m.dependencies) + NUSPEC_TAIL@);
}

/// Where the dependencies begin in the nuspec document of `m`.
pub open spec fn dependencies_start(m: NuspecMeta) -> int {
    (NUSPEC_HEAD@.len() + escape_pcdata(m.id).len() + ID_CLOSE@.len() + escape_pcdata(
        m.version,
    ).len() + VERSION_CLOSE@.len() + escape_pcdata(m.authors).len() + AUTHORS_CLOSE@.len()
        + escape_pcdata(m.description).len() + DESCRIPTION_CLOSE@.len()) as int
}

/// Where the dependency at index `k` begins in the nuspec document of `m`.
pub open spec fn dependency_start(m: NuspecMeta, k: int) -> int {
    dependencies_start(m) + dependencies_xml(m.dependencies.take(k)).len()
}

/// The markup of the first dependencies begins the markup of all of them.
proof fn lemma_dependencies_prefix(ds: Seq<(Seq<char>, Seq<char>)>, k: int)
    requires
        0 <= k <= ds.len(),
    ensures
        dependencies_xml(ds.take(k)).len() <= dependencies_xml(ds).len(),
        dependencies_xml(ds).subrange(0, dependencies_xml(ds.take(k)).len() as int)
            == dependencies_xml(ds.take(k)),
    decreases ds.len(),
{
    if k == ds.len() {
        assert(ds.take(k) =~= ds);
        assert(dependencies_xml(ds).subrange(0, dependencies_xml(ds).len() as int)
            =~= dependencies_xml(ds));
    } else {
        let d = ds.drop_last();
        lemma_dependencies_prefix(d, k);
        assert(d.take(k) =~= ds.take(k));
        let a = dependencies_xml(ds.take(k));
        assert(dependencies_xml(ds) == dependencies_xml(d) + dependency_xml(ds.last()));
        assert(dependencies_xml(ds).subrange(0, a.len() as int) =~= dependencies_xml(d).subrange(
            0,
            a.len() as int,
        ));
    }
}

/// Where the pieces of the dependency at index `k` stand, or, past the last one,
/// the closing text of the document.
#[verifier::spinoff_prover]
#[verifier::rlimit(60)]
proof fn lemma_dependency_at(m: NuspecMeta, k: int)
    requires
        0 <= k <= m.dependencies.len(),
    ensures
        ({
            let x = nuspec_xml(m);
            let p = dependency_start(m, k);
            &&& k == m.dependencies.len() ==> p + NUSPEC_TAIL@.len() == x.len() && x.subrange(
                p,
                p + NUSPEC_TAIL@.len(),
            ) == NUSPEC_TAIL@
            &&& k < m.dependencies.len() ==> {
                let d = m.dependencies[k];
                let b0 = p + DEPENDENCY_OPEN@.len();
                let i1 = escape_attribute(d.0);
                let b1 = b0 + i1.len() + DEPENDENCY_MID@.len();
                let i2 = escape_attribute(d.1);
                &&& b1 + i2.len() + DEPENDENCY_CLOSE@.len() <= x.len()
                &&& x.subrange(p, b0) == DEPENDENCY_OPEN@
                &&& x.subrange(b0, b0 + i1.len()) == i1
                &&& x.subrange(b0 + i1.len(), b1) == DEPENDENCY_MID@
                &&& x.subrange(b1, b1 + i2.len()) == i2
                &&& x.subrange(b1 + i2.len(), b1 + i2.len() + DEPENDENCY_CLOSE@.len())
                    == DEPENDENCY_CLOSE@
                &&& dependency_start(m, k + 1) == b1 + i2.len() + DEPENDENCY_CLOSE@.len()
            }
        }),
{
    let x = nuspec_xml(m);
    let ds = m.dependencies;
    let a4 = dependencies_start(m);
    let p = dependency_start(m, k);
    lemma_nuspec_layout(m);
    let all = dependencies_xml(ds);
    let rest = x.subrange(a4, x.len() as int);
    assert(rest == all + NUSPEC_TAIL@);
    if k == ds.len() {
        assert(ds.take(k) =~= ds);
        assert(x.subrange(p, p + NUSPEC_TAIL@.len()) =~= rest.subrange(
            all.len() as int,
            rest.len() as int,
        ));
    } else {
        lemma_dependencies_prefix(ds, k + 1);
        let t = ds.take(k + 1);
        assert(t.drop_last() =~= ds.take(k));
        assert(t.last() == ds[k]);
        let before = dependencies_xml(ds.take(k));
        let dx = dependency_xml(ds[k]);
        assert(dependencies_xml(t) == before + dx);
        let d = ds[k];
        let b0 = p + DEPENDENCY_OPEN@.len();
        let i1 = escape_attribute(d.0);
        let b1 = b0 + i1.len() + DEPENDENCY_MID@.len();
        let i2 = escape_attribute(d.1);
        let q = p + dx.len();
        assert(x.subrange(p, q) =~= dx) by {
            assert(x.subrange(p, q) =~= all.subrange(before.len() as int, (before.len() + dx.len()) as int));
            assert(all.subrange(0, (before.len() + dx.len()) as int) == before + dx);
            assert(all.subrange(before.len() as int, (before.len() + dx.len()) as int) =~= (before
                + dx).subrange(before.len() as int, (before.len() + dx.len()) as int));
        }
        assert(x.subrange(p, b0) =~= x.subrange(p, q).subrange(0, DEPENDENCY_OPEN@.len() as int));
        assert(x.subrange(b0, b0 + i1.len()) =~= x.subrange(p, q).subrange(
            b0 - p,
            b0 - p + i1.len(),
        ));
        assert(x.subrange(b0 + i1.len(), b1) =~= x.subrange(p, q).subrange(
            b0 - p + i1.len(),
            b1 - p,
        ));
        assert(x.subrange(b1, b1 + i2.len()) =~= x.subrange(p, q).subrange(
            b1 - p,
            b1 - p + i2.len(),
        ));
        assert(x.subrange(b1 + i2.len(), q) =~= x.subrange(p, q).subrange(
            b1 - p + i2.len(),
            q - p,
        ));
    }
}

/// Reads back the dependencies of a nuspec document, which begin at `p4`.
#[verifier::spinoff_prover]
#[verifier::rlimit(60)]
fn read_dependencies(xml: &str, p4: usize) -> (r: Option<NugetDependencies>)
    requires
        p4 <= xml@.len(),
    ensures
        forall|m: NuspecMeta| #[trigger]
            nuspec_xml(m) == xml@ && p4 == dependency_start(m, 0) ==> r is Some && r.unwrap()@
                == m.dependencies,
{
    proof {
        reveal_strlit("<dependency id=\"");
        reveal_strlit("\" version=\"");
        reveal_strlit("\" />");
        reveal_strlit("</dependencies>\n  </metadata>\n</package>\n");
    }
    let n = xml.unicode_len();
    let mut deps = NugetDependencies::new();
    let mut p = p4;
    proof {
        assert forall|m: NuspecMeta| #[trigger]
            nuspec_xml(m) == xml@ && p4 == dependency_start(m, 0) implies deps@
            == m.dependencies.take(0) by {
            assert(deps@ =~= m.dependencies.take(0));
        }
    }
    while matches_at(xml, p, DEPENDENCY_OPEN)
        invariant
            n == xml@.len(),
            p <= n,
            DEPENDENCY_OPEN@.len() >= 2 && DEPENDENCY_OPEN@[0] == '<' && DEPENDENCY_OPEN@[1] == 'd',
            NUSPEC_TAIL@.len() >= 2 && NUSPEC_TAIL@[0] == '<' && NUSPEC_TAIL@[1] == '/',
            DEPENDENCY_MID@.len() > 0 && DEPENDENCY_MID@[0] == '"',
            DEPENDENCY_CLOSE@.len() > 0 && DEPENDENCY_CLOSE@[0] == '"',
            forall|m: NuspecMeta| #[trigger]
                nuspec_xml(m) == xml@ && p4 == dependency_start(m, 0) ==> deps@.len() <= m.dependencies.len() && deps@
                    == m.dependencies.take(deps@.len() as int) && p == dependency_start(
                    m,
                    deps@.len() as int,
                ),
        decreases n - p,
    {
        let q = p + DEPENDENCY_OPEN.unicode_len();
        let (dep_id, q1) = match read_attr(xml, q, DEPENDENCY_MID) {
            Some(f) => f,
            None => {
                proof {
                    assert forall|m: NuspecMeta| #[trigger] nuspec_xml(m) == xml@ && p4 == dependency_start(m, 0) implies false by {
                        let k = deps@.len() as int;
                        lemma_dependency_at(m, k);
                        if k == m.dependencies.len() {
                            assert(xml@.subrange(p as int, p + NUSPEC_TAIL@.len())[1] == '/');
                            assert(xml@.subrange(p as int, p + DEPENDENCY_OPEN@.len())[1] == 'd');
                        }
                    }
                }
                return None;
            },
        };
        let (dep_version, q2) = match read_attr(xml, q1, DEPENDENCY_CLOSE) {
            Some(f) => f,
            None => {
                proof {
                    assert forall|m: NuspecMeta| #[trigger] nuspec_xml(m) == xml@ && p4 == dependency_start(m, 0) implies false by {
                        let k = deps@.len() as int;
                        lemma_dependency_at(m, k);
                        if k == m.dependencies.len() {
                            assert(xml@.subrange(p as int, p + NUSPEC_TAIL@.len())[1] == '/');
                            assert(xml@.subrange(p as int, p + DEPENDENCY_OPEN@.len())[1] == 'd');
                        }
                    }
                }
                return None;
            },
        };
        let ghost k = deps@.len() as int;
        proof {
            assert forall|m: NuspecMeta| #[trigger] nuspec_xml(m) == xml@ && p4 == dependency_start(m, 0) implies k
                < m.dependencies.len() && dep_id@ == m.dependencies[k].0 && dep_version@
                == m.dependencies[k].1 && q2 == dependency_start(m, k + 1) by {
                lemma_dependency_at(m, k);
                if k == m.dependencies.len() {
                    assert(xml@.subrange(p as int, p + NUSPEC_TAIL@.len())[1] == '/');
                    assert(xml@.subrange(p as int, p + DEPENDENCY_OPEN@.len())[1] == 'd');
                }
            }
        }
        deps.entries.push(NugetDependency { id: dep_id, version: dep_version });
        proof {
            assert forall|m: NuspecMeta| #[trigger] nuspec_xml(m) == xml@ && p4 == dependency_start(m, 0) implies deps@
                == m.dependencies.take(k + 1) by {
                assert(deps@ =~= m.dependencies.take(k + 1));
            }
        }
        p = q2;
    }
    if !matches_at(xml, p, NUSPEC_TAIL) || n - p != NUSPEC_TAIL.unicode_len() {
        proof {
            assert forall|m: NuspecMeta| #[trigger] nuspec_xml(m) == xml@ && p4 == dependency_start(m, 0) implies false by {
                let k = deps@.len() as int;
                lemma_dependency_at(m, k);
                if k < m.dependencies.len() {
                    assert(xml@.subrange(p as int, p + DEPENDENCY_OPEN@.len())
                        == DEPENDENCY_OPEN@);
                }
            }
        }
        return None;
    }
    proof {
        assert forall|m: NuspecMeta| #[trigger] nuspec_xml(m) == xml@ && p4 == dependency_start(m, 0) implies deps@ == m.dependencies by {
            let k = deps@.len() as int;
            lemma_dependency_at(m, k);
            if k < m.dependencies.len() {
                assert(xml@.subrange(p as int, p + DEPENDENCY_OPEN@.len()) == DEPENDENCY_OPEN@);
            }
            assert(m.dependencies.take(k) =~= m.dependencies);
        }
    }
    Some(deps)
}

/// Reads back the metadata of a nuspec document as `nuspec` writes it.
#[verifier::spinoff_prover]
#[verifier::rlimit(60)]
pub fn parse_nuspec(xml: &str) -> (r: Option<NugetSpecArgs>)
    ensures
        forall|m: NuspecMeta| #[trigger] nuspec_xml(m) == xml@ ==> r is Some && r.unwrap()@ == m,
{
    proof {
        reveal_strlit("</id>\n    <version>");
        reveal_strlit("</version>\n    <authors>");
        reveal_strlit("</authors>\n    <description>");
        reveal_strlit("</description>\n    <dependencies>");
        reveal_strlit("<dependency id=\"");
        reveal_strlit("\" version=\"");
        reveal_strlit("\" />");
        reveal_strlit("</dependencies>\n  </metadata>\n</package>\n");
    }
    if !matches_at(xml, 0, NUSPEC_HEAD) {
        proof {
            assert forall|m: NuspecMeta| #[trigger] nuspec_xml(m) == xml@ implies false by {
                lemma_nuspec_layout(m);
            }
        }
        return None;
    }
    let p0 = NUSPEC_HEAD.unicode_len();
    let n = xml.unicode_len();
    let (id, p1) = match read_field(xml, p0, ID_CLOSE) {
        Some(f) => f,
        None => {
            proof {
                assert forall|m: NuspecMeta| #[trigger] nuspec_xml(m) == xml@ implies false by {
                    lemma_nuspec_layout(m);
                }
            }
            return None;
        },
    };
    let (version, p2) = match read_field(xml, p1, VERSION_CLOSE) {
        Some(f) => f,
        None => {
            proof {
                assert forall|m: NuspecMeta| #[trigger] nuspec_xml(m) == xml@ implies false by {
                    lemma_nuspec_layout(m);
                }
            }
            return None;
        },
    };
    let (authors, p3) = match read_field(xml, p2, AUTHORS_CLOSE) {
        Some(f) => f,
        None => {
            proof {
                assert forall|m: NuspecMeta| #[trigger] nuspec_xml(m) == xml@ implies false by {
                    lemma_nuspec_layout(m);
                }
            }
            return None;
        },
    };
    let (description, p4) = match read_field(xml, p3, DESCRIPTION_CLOSE) {
        Some(f) => f,
        None => {
            proof {
                assert forall|m: NuspecMeta| #[trigger] nuspec_xml(m) == xml@ implies false by {
                    lemma_nuspec_layout(m);
                }
            }
            return None;
        },
    };
    proof {
        assert forall|m: NuspecMeta| #[trigger] nuspec_xml(m) == xml@ implies id@ == m.id
            && version@ == m.version && authors@ == m.authors && description@ == m.description
            && p4 == dependency_start(m, 0) by {
            lemma_nuspec_layout(m);
            assert(m.dependencies.take(0) =~= Seq::<(Seq<char>, Seq<char>)>::empty());
        }
    }
    let deps = match read_dependencies(xml, p4) {
        Some(d) => d,
        None => return None,
    };
    let r = NugetSpecArgs { id, version, authors, description, dependencies: deps };
    Some(r)
}

/// The authors of a project joined into one text, separated by `, `.
pub open spec fn join_authors(a: Seq<Seq<char>>) -> Seq<char>
    decreases a.len(),
{
    if a.len() == 0 {
        Seq::empty()
    } else if a.len() == 1 {
        a[0]
    } else {
        join_authors(a.drop_last()) + ", "@ + a.last()
    }
}

/// The nuspec metadata derived from a project configuration: the fields carried
/// over one for one, the authors joined, and no dependencies.
pub open spec fn generated_meta(c: ProjectConfig) -> NuspecMeta {
    NuspecMeta {
        id: c.name,
        version: c.version,
        authors: join_authors(c.authors),
        description: c.description,
        dependencies: Seq::empty(),
    }
}

impl NugetSpecArgs {
    /// The nuspec metadata of the project described by `cargo`.
    pub fn from_cargo(cargo: &CargoConfig) -> (r: NugetSpecArgs)
        ensures
            r@ == generated_meta(cargo@),
            r.dependencies.wf(),
    {
        let ghost a = cargo@.authors;
        let n = cargo.authors.len();
        let mut authors = String::new();
        if n > 0 {
            authors = cargo.authors[0].clone();
            assert(a.take(1) =~= seq![a[0]]);
            let sep = ", ";
            let mut i: usize = 1;
            while i < n
                invariant
                    a == cargo@.authors,
                    n == a.len(),
                    1 <= i <= n,
                    sep@ == ", "@,
                    authors@ == join_authors(a.take(i as int)),
                decreases n - i,
            {
                authors.append(sep);
                authors.append(cargo.authors[i].as_str());
                proof {
                    let t = a.take(i + 1);
                    assert(t.drop_last() =~= a.take(i as int));
                    assert(t.last() == a[i as int]);
                    assert(a[i as int] == cargo.authors@[i as int]@);
                    assert(t.len() > 1);
                }
                i = i + 1;
            }
            assert(a.take(n as int) =~= a);
        }
        let r = NugetSpecArgs {
            id: cargo.name.clone(),
            version: cargo.version.clone(),
            authors,
            description: cargo.description.clone(),
            dependencies: NugetDependencies::new(),
        };
        assert(r@.dependencies =~= Seq::<(Seq<char>, Seq<char>)>::empty());
        r
    }
}

/// Two metadata values whose documents agree up to the dependency at index `k`,
/// and whose documents are equal, have the same dependencies.
#[verifier::spinoff_prover]
#[verifier::rlimit(60)]
proof fn lemma_dependencies_unique(a: NuspecMeta, b: NuspecMeta, k: int)
    requires
        nuspec_xml(a) == nuspec_xml(b),
        0 <= k <= a.dependencies.len(),
        k <= b.dependencies.len(),
        a.dependencies.take(k) == b.dependencies.take(k),
        dependency_start(a, k) == dependency_start(b, k),
    ensures
        a.dependencies == b.dependencies,
    decreases a.dependencies.len() - k,
{
    reveal_strlit("<dependency id=\"");
    reveal_strlit("\" version=\"");
    reveal_strlit("\" />");
    reveal_strlit("</dependencies>\n  </metadata>\n</package>\n");
    let x = nuspec_xml(a);
    let p = dependency_start(a, k);
    lemma_dependency_at(a, k);
    lemma_dependency_at(b, k);
    let la = a.dependencies.len();
    let lb = b.dependencies.len();
    if k == la && k == lb {
        assert(a.dependencies.take(k) =~= a.dependencies);
        assert(b.dependencies.take(k) =~= b.dependencies);
    } else if k == la {
        assert(x.subrange(p, p + NUSPEC_TAIL@.len())[1] == x[p + 1]);
        assert(x.subrange(p, p + DEPENDENCY_OPEN@.len())[1] == x[p + 1]);
    } else if k == lb {
        assert(x.subrange(p, p + NUSPEC_TAIL@.len())[1] == x[p + 1]);
        assert(x.subrange(p, p + DEPENDENCY_OPEN@.len())[1] == x[p + 1]);
    } else {
        let da = a.dependencies[k];
        let db = b.dependencies[k];
        let b0 = p + DEPENDENCY_OPEN@.len();
        lemma_attr_unique(x, b0, da.0, db.0, DEPENDENCY_MID@);
        let b1 = b0 + escape_attribute(da.0).len() + DEPENDENCY_MID@.len();
        lemma_attr_unique(x, b1, da.1, db.1, DEPENDENCY_CLOSE@);
        assert(a.dependencies.take(k + 1) =~= a.dependencies.take(k).push(da));
        assert(b.dependencies.take(k + 1) =~= b.dependencies.take(k).push(db));
        lemma_dependencies_unique(a, b, k + 1);
    }
}

/// Reading back the nuspec document written for a project configuration gives
/// the metadata generated from that configuration: no other metadata has the
/// same document, so the document determines what it was written from.
#[verifier::spinoff_prover]
#[verifier::rlimit(60)]
pub proof fn lemma_nuspec_round_trip(c: ProjectConfig, m: NuspecMeta)
    requires
        nuspec_xml(m) == nuspec_xml(generated_meta(c)),
    ensures
        m == generated_meta(c),
{
    reveal_strlit("</id>\n    <version>");
    reveal_strlit("</version>\n    <authors>");
    reveal_strlit("</authors>\n    <description>");
    reveal_strlit("</description>\n    <dependencies>");
    let g = generated_meta(c);
    let x = nuspec_xml(g);
    lemma_nuspec_layout(m);
    lemma_nuspec_layout(g);
    let a0 = NUSPEC_HEAD@.len() as int;
    lemma_field_unique(x, a0, m.id, g.id, ID_CLOSE@);
    let a1 = a0 + escape_pcdata(m.id).len() + ID_CLOSE@.len();
    lemma_field_unique(x, a1, m.version, g.version, VERSION_CLOSE@);
    let a2 = a1 + escape_pcdata(m.version).len() + VERSION_CLOSE@.len();
    lemma_field_unique(x, a2, m.authors, g.authors, AUTHORS_CLOSE@);
    let a3 = a2 + escape_pcdata(m.authors).len() + AUTHORS_CLOSE@.len();
    lemma_field_unique(x, a3, m.description, g.description, DESCRIPTION_CLOSE@);
    assert(m.dependencies.take(0) =~= g.dependencies.take(0));
    assert(m.dependencies.take(0) =~= Seq::<(Seq<char>, Seq<char>)>::empty());
    assert(g.dependencies.take(0) =~= Seq::<(Seq<char>, Seq<char>)>::empty());
    lemma_dependencies_unique(m, g, 0);
}

} // verus!
