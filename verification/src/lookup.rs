//! What is installed, and where the index of a package is.

use vstd::prelude::*;

use crate::manifest;
use crate::manifest::WorkspaceManifest;
use crate::packages;
use crate::packages::{LocalPackage, PackageRegistry};
use crate::paths;
use crate::paths::join_path;
use crate::pieces;
use crate::pieces::{copy_opt, join_texts};
use crate::search::SearchSource;
use crate::store;
use crate::store::{list_all_bundles, resolve_bundle, resolve_bundle_spec, BundleInfo, Installed};
use crate::text;
use crate::text::chars_of;

verus! {

/// Who is told: an agent that uses the tools, or a user at a terminal.
#[derive(Debug, Clone, Copy, PartialEq, Eq, Structural)]
pub enum Audience {
    Agent,
    Terminal,
}

/// What is found of a registered package.
#[derive(Debug, Clone)]
pub struct Registered {
    /// The package's directory.
    pub dir: String,
    /// There is a code graph.
    pub indexed: bool,
    /// There is a documentation index.
    pub docs: bool,
}

// ---------------------------------------------------------------------------
// Names
// ---------------------------------------------------------------------------

/// The names of the registered packages.
pub open spec fn package_names(reg: PackageRegistry) -> Seq<Seq<char>> {
    reg.packages.entries@.map_values(|e: (String, LocalPackage)| e.1.name@)
}

/// The names of the installed bundles.
pub open spec fn bundle_names(s: Installed) -> Seq<Seq<char>> {
    store::all_bundles(s).map_values(|b: BundleInfo| b.full_name())
}

/// The names of all packages and bundles.
pub fn available_names(reg: &PackageRegistry, s: &Installed) -> (r: Vec<String>)
    ensures
        pieces::texts(r@) == package_names(*reg) + bundle_names(*s),
{
    let ghost a = package_names(*reg);
    let ghost b = bundle_names(*s);
    let mut r: Vec<String> = Vec::new();
    let mut i: usize = 0;
    assert(pieces::texts(r@) =~= a.take(0));
    while i < reg.packages.entries.len()
        invariant
            i <= reg.packages.entries@.len(),
            a == package_names(*reg),
            pieces::texts(r@) == a.take(i as int),
        decreases reg.packages.entries.len() - i,
    {
        let ghost before = pieces::texts(r@);
        r.push(reg.packages.entries[i].1.name.clone());
        proof {
            assert(pieces::texts(r@) =~= before.push(a[i as int]));
            assert(a.take(i + 1) =~= a.take(i as int).push(a[i as int]));
        }
        i = i + 1;
    }
    assert(a.take(a.len() as int) =~= a);
    let bs = list_all_bundles(s);
    let mut k: usize = 0;
    assert(pieces::texts(r@) =~= a + b.take(0));
    while k < bs.len()
        invariant
            k <= bs@.len(),
            b == bundle_names(*s),
            bs@.len() == store::all_bundles(*s).len(),
            forall|j: int| 0 <= j < bs@.len() ==> *(#[trigger] bs@[j]) == store::all_bundles(*s)[j],
            pieces::texts(r@) == a + b.take(k as int),
        decreases bs.len() - k,
    {
        let ghost before = pieces::texts(r@);
        r.push(bs[k].show_name());
        proof {
            assert(b[k as int] == bs@[k as int].full_name());
            assert(pieces::texts(r@) =~= before.push(b[k as int]));
            assert(pieces::texts(r@) =~= a + b.take(k + 1));
        }
        k = k + 1;
    }
    assert(b.take(b.len() as int) =~= b);
    r
}

// ---------------------------------------------------------------------------
// Code graphs
// ---------------------------------------------------------------------------

/// Where the code graph of a package is, or why there is none.
pub open spec fn graph_target(
    name: Seq<char>,
    registered: Option<Registered>,
    s: Installed,
    available: Seq<Seq<char>>,
    who: Audience,
) -> Result<Seq<char>, Seq<char>> {
    match registered {
        Some(p) => if p.indexed {
            Ok(p.dir@)
        } else if who == Audience::Agent {
            Err(
                "Package '"@ + name + "' is registered but not indexed. Run 'sempkg reindex "@
                    + name + "' first."@,
            )
        } else {
            Err(
                "Package '"@ + name + "' is not indexed. Run 'sempkg pkg reindex "@ + name
                    + "' first."@,
            )
        },
        None => match store::resolved(s, name) {
            Some(b) => if b.spec_is_indexed() {
                Ok(b.bundle_dir@)
            } else if who == Audience::Agent {
                Err(
                    "Bundle '"@ + name + "@"@ + b.version@
                        + "' is installed but has no codegraph index."@,
                )
            } else {
                Err("Bundle '"@ + name + "@"@ + b.version@ + "' has no codegraph index."@)
            },
            None => Err(
                "Package '"@ + name + "' not found."@ + (if available.len() > 0 {
                    " Available: "@ + pieces::join(available, ", "@)
                } else if who == Audience::Agent {
                    " No packages or bundles installed yet."@
                } else {
                    " No packages or bundles available."@
                }),
            ),
        },
    }
}

/// What a result says.
pub open spec fn told(r: Result<String, String>) -> Result<Seq<char>, Seq<char>> {
    match r {
        Ok(t) => Ok(t@),
        Err(e) => Err(e@),
    }
}

/// Find the code graph of a package. A registered package comes before a bundle, and a
/// bundle of the workspace before one of the user.
pub fn resolve_codegraph_path(
    name: &str,
    registered: &Option<Registered>,
    s: &Installed,
    available: &Vec<String>,
    who: Audience,
) -> (r: Result<String, String>)
    ensures
        told(r) == graph_target(name@, *registered, *s, pieces::texts(available@), who),
{
    match registered {
        Some(p) => {
            if p.indexed {
                return Ok(p.dir.clone());
            }
            let mut e = "Package '".to_owned();
            e.append(name);
            match who {
                Audience::Agent => {
                    e.append("' is registered but not indexed. Run 'sempkg reindex ");
                },
                Audience::Terminal => {
                    e.append("' is not indexed. Run 'sempkg pkg reindex ");
                },
            }
            e.append(name);
            e.append("' first.");
            return Err(e);
        },
        None => {},
    }
    match resolve_bundle(s, name) {
        Some(b) => {
            if b.is_indexed() {
                return Ok(b.bundle_dir.clone());
            }
            let mut e = "Bundle '".to_owned();
            e.append(name);
            e.append("@");
            e.append(b.version.as_str());
            match who {
                Audience::Agent => {
                    e.append("' is installed but has no codegraph index.");
                },
                Audience::Terminal => {
                    e.append("' has no codegraph index.");
                },
            }
            return Err(e);
        },
        None => {},
    }
    let mut e = "Package '".to_owned();
    e.append(name);
    e.append("' not found.");
    let ghost head = e@;
    assert(pieces::texts(available@).len() == available@.len());
    let mut hint = " Available: ".to_owned();
    if available.len() > 0 {
        hint.append(join_texts(available, ", ").as_str());
    } else {
        hint = match who {
            Audience::Agent => " No packages or bundles installed yet.".to_owned(),
            Audience::Terminal => " No packages or bundles available.".to_owned(),
        };
    }
    e.append(hint.as_str());
    Err(e)
}

// ---------------------------------------------------------------------------
// Documentation and source code
// ---------------------------------------------------------------------------

/// Where the documentation index of a directory is.
pub open spec fn docs_under(dir: Seq<char>) -> Seq<char> {
    paths::joined(paths::joined(dir, ".sempkg"@), "lance"@)
}

/// Where the documentation index of a local package is.
pub fn local_docs_dir(dir: &str) -> (r: String)
    ensures
        r@ == docs_under(dir@),
{
    join_path(join_path(dir, ".sempkg").as_str(), "lance")
}

/// Where the documentation index of a package is, or why there is none.
pub open spec fn docs_target(
    name: Seq<char>,
    registered: Option<Registered>,
    s: Installed,
    who: Audience,
) -> Result<Seq<char>, Seq<char>> {
    match registered {
        Some(p) => if p.docs {
            Ok(docs_under(p.dir@))
        } else {
            Err(
                "Package '"@ + name + "' has no LanceDB index. Run 'sempkg pkg lance-index "@ + name
                    + "' to build one."@,
            )
        },
        None => match store::resolved(s, name) {
            Some(b) => if b.spec_has_lance() {
                Ok(paths::joined(b.bundle_dir@, "lance"@))
            } else {
                Err(
                    "Bundle '"@ + name + "@"@ + b.version@
                        + "' does not have a LanceDB documentation index."@,
                )
            },
            None => Err(
                "'"@ + name + (if who == Audience::Agent {
                    "' not found. Use"@
                } else {
                    "' not found. Run"@
                }) + " 'sempkg list' to see available packages and bundles."@,
            ),
        },
    }
}

/// Find the documentation index of a package.
pub fn resolve_lance_path(
    name: &str,
    registered: &Option<Registered>,
    s: &Installed,
    who: Audience,
) -> (r: Result<String, String>)
    ensures
        told(r) == docs_target(name@, *registered, *s, who),
{
    match registered {
        Some(p) => {
            if p.docs {
                return Ok(local_docs_dir(p.dir.as_str()));
            }
            let mut e = "Package '".to_owned();
            e.append(name);
            e.append("' has no LanceDB index. Run 'sempkg pkg lance-index ");
            e.append(name);
            e.append("' to build one.");
            return Err(e);
        },
        None => {},
    }
    match resolve_bundle(s, name) {
        Some(b) => {
            if b.has_lance() {
                return Ok(join_path(b.bundle_dir.as_str(), "lance"));
            }
            let mut e = "Bundle '".to_owned();
            e.append(name);
            e.append("@");
            e.append(b.version.as_str());
            e.append("' does not have a LanceDB documentation index.");
            return Err(e);
        },
        None => {},
    }
    let mut e = "'".to_owned();
    e.append(name);
    match who {
        Audience::Agent => {
            e.append("' not found. Use");
        },
        Audience::Terminal => {
            e.append("' not found. Run");
        },
    }
    e.append(" 'sempkg list' to see available packages and bundles.");
    Err(e)
}

/// Where the source-code index of a bundle is, or why there is none.
pub open spec fn code_target(name: Seq<char>, s: Installed) -> Result<Seq<char>, Seq<char>> {
    match store::resolved_spec(s, name) {
        Some(b) => if b.spec_has_code() {
            Ok(paths::joined(b.bundle_dir@, "code"@))
        } else {
            Err(
                "Bundle '"@ + b.full_name()
                    + "' does not have a source-code index. Rebuild with 'sembundle build --include-source'."@,
            )
        },
        None => Err(
            "'"@ + name
                + "' not found or has no source-code index. Use 'sempkg list' to see available bundles."@,
        ),
    }
}

/// Find the source-code index of a bundle, by its name with or without its version.
pub fn resolve_code_path(name: &str, s: &Installed) -> (r: Result<String, String>)
    ensures
        told(r) == code_target(name@, *s),
{
    match resolve_bundle_spec(s, name) {
        Some(b) => {
            if b.has_code() {
                return Ok(join_path(b.bundle_dir.as_str(), "code"));
            }
            let mut e = "Bundle '".to_owned();
            e.append(b.show_name().as_str());
            e.append(
                "' does not have a source-code index. Rebuild with 'sembundle build --include-source'.",
            );
            Err(e)
        },
        None => {
            let mut e = "'".to_owned();
            e.append(name);
            e.append(
                "' not found or has no source-code index. Use 'sempkg list' to see available bundles.",
            );
            Err(e)
        },
    }
}

// ---------------------------------------------------------------------------
// What is searched
// ---------------------------------------------------------------------------

/// What a bundle offers to a search of all packages.
pub fn bundle_source(
    b: &BundleInfo,
    code_model: Option<(String, u32)>,
    docs_model: Option<(String, u32)>,
) -> (r: SearchSource)
    ensures
        r.package@ == b.full_name(),
        pieces::opt_text(r.code_dir) == (if b.spec_has_code() {
            Some(paths::joined(b.bundle_dir@, "code"@))
        } else {
            None
        }),
        pieces::opt_text(r.docs_dir) == (if b.spec_has_lance() {
            Some(paths::joined(b.bundle_dir@, "lance"@))
        } else {
            None
        }),
        pieces::opt_text(r.graph_dir) == (if b.spec_is_indexed() {
            Some(b.bundle_dir@)
        } else {
            None
        }),
        r.code_model == code_model,
        r.docs_model == docs_model,
{
    SearchSource {
        package: b.show_name(),
        code_dir: if b.has_code() {
            Some(join_path(b.bundle_dir.as_str(), "code"))
        } else {
            None
        },
        docs_dir: if b.has_lance() {
            Some(join_path(b.bundle_dir.as_str(), "lance"))
        } else {
            None
        },
        graph_dir: if b.is_indexed() {
            Some(b.bundle_dir.clone())
        } else {
            None
        },
        code_model,
        docs_model,
    }
}

/// What a local package offers to a search of all packages.
pub fn local_source(name: &str, found: &Registered, docs_model: Option<(String, u32)>) -> (r:
    SearchSource)
    ensures
        r.package@ == name@,
        r.code_dir is None,
        pieces::opt_text(r.docs_dir) == (if found.docs {
            Some(docs_under(found.dir@))
        } else {
            None
        }),
        pieces::opt_text(r.graph_dir) == (if found.indexed {
            Some(found.dir@)
        } else {
            None
        }),
        r.code_model is None,
        r.docs_model == docs_model,
{
    SearchSource {
        package: name.to_owned(),
        code_dir: None,
        docs_dir: if found.docs {
            Some(local_docs_dir(found.dir.as_str()))
        } else {
            None
        },
        graph_dir: if found.indexed {
            Some(found.dir.clone())
        } else {
            None
        },
        code_model: None,
        docs_model,
    }
}

// ---------------------------------------------------------------------------
// Lists
// ---------------------------------------------------------------------------

/// A text with spaces behind it, up to a width.
pub open spec fn padded(s: Seq<char>, width: nat) -> Seq<char>
    decreases width - s.len(),
{
    if s.len() >= width {
        s
    } else {
        padded(s.push(' '), width)
    }
}

fn pad(s: &str, width: usize) -> (r: String)
    ensures
        r@ == padded(s@, width as nat),
{
    let mut n: usize = chars_of(s).len();
    let mut r = s.to_owned();
    while n < width
        invariant
            n == r@.len(),
            padded(r@, width as nat) == padded(s@, width as nat),
        decreases width - n,
    {
        r.push(' ');
        n = n + 1;
    }
    r
}

/// Whether a package is indexed, in words.
pub open spec fn indexed_word(indexed: bool, otherwise: Seq<char>) -> Seq<char> {
    if indexed {
        "indexed"@
    } else {
        otherwise
    }
}

/// The marks of a bundle's indices.
pub open spec fn index_marks(b: BundleInfo) -> Seq<char> {
    (if b.spec_has_lance() {
        "  +lance"@
    } else {
        seq![]
    }) + (if b.spec_has_code() {
        "  +code"@
    } else {
        seq![]
    })
}

/// The marks of a bundle's indices.
pub fn show_marks(b: &BundleInfo) -> (r: String)
    ensures
        r@ == index_marks(*b),
{
    let mut r = String::new();
    if b.has_lance() {
        r.append("  +lance");
    }
    if b.has_code() {
        r.append("  +code");
    }
    assert(r@ =~= index_marks(*b));
    r
}

/// A text behind a mark, where it says anything.
pub open spec fn remark(mark: Seq<char>, t: Seq<char>) -> Seq<char> {
    if t.len() > 0 {
        mark + t
    } else {
        seq![]
    }
}

fn show_remark(mark: &str, t: &str) -> (r: String)
    ensures
        r@ == remark(mark@, t@),
{
    let mut r = String::new();
    assert(r@ =~= seq![]);
    if !t.is_empty() {
        r = mark.to_owned();
        r.append(t);
    }
    r
}

/// A local package, for an agent.
pub open spec fn package_item(p: LocalPackage, indexed: bool) -> Seq<char> {
    "  • **"@ + p.name@ + "** ["@ + indexed_word(indexed, "NOT indexed"@) + "]  "@ + p.path@
        + remark("  — "@, p.description@)
}

/// A bundle, for an agent.
pub open spec fn bundle_item(b: BundleInfo) -> Seq<char> {
    "  • **"@ + b.name@ + "** @ "@ + b.version@ + "  ["@ + indexed_word(
        b.spec_is_indexed(),
        "no graph"@,
    ) + "]  ["@ + store::scope_name(b.scope) + "]"@ + index_marks(b)
}

/// A local package, at a terminal.
pub open spec fn package_line(p: LocalPackage, indexed: bool) -> Seq<char> {
    "  "@ + padded(p.name@, 24) + " ["@ + indexed_word(indexed, "NOT indexed"@) + "]  "@ + p.path@
        + remark("  # "@, p.description@)
}

/// A bundle, at a terminal, with what the workspace says of it.
pub open spec fn bundle_line(b: BundleInfo, said: Option<Seq<char>>) -> Seq<char> {
    "  "@ + padded(b.name@, 20) + " @ "@ + padded(b.version@, 12) + " ["@ + indexed_word(
        b.spec_is_indexed(),
        "no graph"@,
    ) + "]  ["@ + store::scope_name(b.scope) + "]"@ + index_marks(b) + (match said {
        Some(d) => remark("  # "@, d),
        None => seq![],
    })
}

fn show_indexed(indexed: bool, otherwise: &str) -> (r: String)
    ensures
        r@ == indexed_word(indexed, otherwise@),
{
    if indexed {
        "indexed".to_owned()
    } else {
        otherwise.to_owned()
    }
}

/// Show a local package to an agent.
pub fn show_package_item(p: &LocalPackage, indexed: bool) -> (r: String)
    ensures
        r@ == package_item(*p, indexed),
{
    let mut r = "  • **".to_owned();
    r.append(p.name.as_str());
    r.append("** [");
    r.append(show_indexed(indexed, "NOT indexed").as_str());
    r.append("]  ");
    r.append(p.path.as_str());
    r.append(show_remark("  — ", p.description.as_str()).as_str());
    r
}

/// Show a bundle to an agent.
pub fn show_bundle_item(b: &BundleInfo) -> (r: String)
    ensures
        r@ == bundle_item(*b),
{
    let mut r = "  • **".to_owned();
    r.append(b.name.as_str());
    r.append("** @ ");
    r.append(b.version.as_str());
    r.append("  [");
    r.append(show_indexed(b.is_indexed(), "no graph").as_str());
    r.append("]  [");
    r.append(b.scope.as_str());
    r.append("]");
    r.append(show_marks(b).as_str());
    r
}

/// Show a local package at a terminal.
pub fn show_package_line(p: &LocalPackage, indexed: bool) -> (r: String)
    ensures
        r@ == package_line(*p, indexed),
{
    let mut r = "  ".to_owned();
    r.append(pad(p.name.as_str(), 24).as_str());
    r.append(" [");
    r.append(show_indexed(indexed, "NOT indexed").as_str());
    r.append("]  ");
    r.append(p.path.as_str());
    r.append(show_remark("  # ", p.description.as_str()).as_str());
    r
}

/// What a workspace says of a bundle.
pub open spec fn bundle_remark(m: Option<WorkspaceManifest>, name: Seq<char>) -> Option<Seq<char>> {
    match m {
        Some(mf) => match manifest::dependency_named(mf, name) {
            Some(d) => d@.description,
            None => None,
        },
        None => None,
    }
}

/// Show a bundle at a terminal, with what the workspace says of it.
pub fn show_bundle_line(b: &BundleInfo, m: &Option<WorkspaceManifest>) -> (r: String)
    requires
        match *m {
            Some(mf) => mf.wf(),
            None => true,
        },
    ensures
        r@ == bundle_line(*b, bundle_remark(*m, b.name@)),
{
    let mut r = "  ".to_owned();
    r.append(pad(b.name.as_str(), 20).as_str());
    r.append(" @ ");
    r.append(pad(b.version.as_str(), 12).as_str());
    r.append(" [");
    r.append(show_indexed(b.is_indexed(), "no graph").as_str());
    r.append("]  [");
    r.append(b.scope.as_str());
    r.append("]");
    r.append(show_marks(b).as_str());
    let said = match m {
        Some(mf) => match mf.find_dependency(b.name.as_str()) {
            Some(d) => copy_opt(&d.description),
            None => None,
        },
        None => None,
    };
    let ghost head = r@;
    match said {
        Some(d) => {
            r.append(show_remark("  # ", d.as_str()).as_str());
        },
        None => {
            assert(head + seq![] =~= head);
        },
    }
    r
}

/// The local packages, for an agent.
pub open spec fn package_items(reg: PackageRegistry, indexed: Seq<bool>) -> Seq<Seq<char>> {
    Seq::new(
        reg.packages.entries@.len(),
        |i: int| package_item(reg.packages.entries@[i].1, indexed[i]),
    )
}

/// The lines of the list for an agent.
pub open spec fn listing(reg: PackageRegistry, indexed: Seq<bool>, s: Installed) -> Seq<Seq<char>> {
    let ps = package_items(reg, indexed);
    let bs = store::all_bundles(s).map_values(|b: BundleInfo| bundle_item(b));
    (if ps.len() > 0 {
        seq!["**Local packages:**"@] + ps
    } else {
        seq![]
    }) + (if bs.len() > 0 && ps.len() > 0 {
        seq![Seq::<char>::empty()]
    } else {
        seq![]
    }) + (if bs.len() > 0 {
        seq!["**Installed bundles:**"@] + bs
    } else {
        seq![]
    })
}

/// List all packages and bundles for an agent. `indexed` says of each registered package
/// whether it is indexed.
pub fn list_packages(reg: &PackageRegistry, indexed: &Vec<bool>, s: &Installed) -> (r: String)
    requires
        indexed@.len() == reg.packages.entries@.len(),
    ensures
        r@ == (if reg.packages.entries@.len() == 0 && store::all_bundles(*s).len() == 0 {
            "No packages or bundles registered.\nUse 'sempkg pkg add <name> <path>' for local packages.\nUse 'sempkg sync' or 'sempkg install <name>@<version>' for bundles."@
        } else {
            pieces::join(listing(*reg, indexed@, *s), "\n"@)
        }),
{
    let bs = list_all_bundles(s);
    let n: usize = reg.packages.entries.len();
    if n == 0 && bs.len() == 0 {
        return "No packages or bundles registered.\nUse 'sempkg pkg add <name> <path>' for local packages.\nUse 'sempkg sync' or 'sempkg install <name>@<version>' for bundles.".to_owned();
    }
    let ghost pv = package_items(*reg, indexed@);
    let ghost bv = store::all_bundles(*s).map_values(|b: BundleInfo| bundle_item(b));
    let mut lines: Vec<String> = Vec::new();
    let ghost mut head: Seq<Seq<char>> = seq![];
    assert(pieces::texts(lines@) =~= seq![]);
    if n > 0 {
        lines.push("**Local packages:**".to_owned());
        let ghost title = seq!["**Local packages:**"@];
        let mut i: usize = 0;
        assert(pieces::texts(lines@) =~= title + pv.take(0));
        while i < n
            invariant
                i <= n,
                n == reg.packages.entries@.len(),
                indexed@.len() == n,
                pv == package_items(*reg, indexed@),
                pieces::texts(lines@) == title + pv.take(i as int),
            decreases n - i,
        {
            let ghost before = pieces::texts(lines@);
            lines.push(show_package_item(&reg.packages.entries[i].1, indexed[i]));
            proof {
                assert(lines@.last()@ == pv[i as int]);
                assert(pieces::texts(lines@) =~= before.push(pv[i as int]));
                assert(pieces::texts(lines@) =~= title + pv.take(i + 1));
            }
            i = i + 1;
        }
        assert(pv.take(n as int) =~= pv);
        if bs.len() > 0 {
            let ghost before = pieces::texts(lines@);
            let blank = String::new();
            assert(blank@ =~= Seq::<char>::empty());
            lines.push(blank);
            assert(pieces::texts(lines@) =~= before.push(Seq::<char>::empty()));
        }
    }
    proof {
        head = pieces::texts(lines@);
    }
    if bs.len() > 0 {
        lines.push("**Installed bundles:**".to_owned());
        let ghost title = seq!["**Installed bundles:**"@];
        let mut k: usize = 0;
        assert(pieces::texts(lines@) =~= head + title + bv.take(0));
        while k < bs.len()
            invariant
                k <= bs@.len(),
                bs@.len() == bv.len(),
                bv == store::all_bundles(*s).map_values(|b: BundleInfo| bundle_item(b)),
                forall|j: int|
                    0 <= j < bs@.len() ==> *(#[trigger] bs@[j]) == store::all_bundles(*s)[j],
                pieces::texts(lines@) == head + title + bv.take(k as int),
            decreases bs.len() - k,
        {
            let ghost before = pieces::texts(lines@);
            lines.push(show_bundle_item(bs[k]));
            proof {
                assert(bv[k as int] == bundle_item(*bs@[k as int]));
                assert(pieces::texts(lines@) =~= before.push(bv[k as int]));
                assert(pieces::texts(lines@) =~= head + title + bv.take(k + 1));
            }
            k = k + 1;
        }
        assert(bv.take(bv.len() as int) =~= bv);
    }
    assert(pieces::texts(lines@) =~= listing(*reg, indexed@, *s));
    join_texts(&lines, "\n")
}

// ---------------------------------------------------------------------------
// What a name means
// ---------------------------------------------------------------------------

/// A code graph is found just where the package has one: a registered package by its own
/// index, before any bundle of the name, else the bundle that the name means.
pub proof fn a_code_graph_is_found_where_it_is(
    name: Seq<char>,
    registered: Option<Registered>,
    s: Installed,
    available: Seq<Seq<char>>,
    who: Audience,
)
    ensures
        match graph_target(name, registered, s, available, who) {
            Ok(dir) => (registered matches Some(p) && p.indexed && p.dir@ == dir) || (registered
                is None && exists|b: BundleInfo|
                #![auto]
                (s.workspace@.contains(b) || s.global@.contains(b)) && b.name@ == name
                    && b.on_disk.graph && b.on_disk.graph_filled && b.on_disk.view && b.bundle_dir@
                    == dir),
            Err(_) => match registered {
                Some(p) => !p.indexed,
                None => forall|b: BundleInfo|
                    #![auto]
                    store::resolved(s, name) == Some(b) ==> !b.on_disk.graph
                        || !b.on_disk.graph_filled || !b.on_disk.view,
            },
        },
{
    store::a_name_means_an_installed_bundle(s, name);
    if registered is None && store::resolved(s, name) is Some {
        store::only_what_is_there_is_used(store::resolved(s, name)->0);
    }
}

/// A documentation index is found just where the package has one, and it is the one of that
/// very package.
pub proof fn a_documentation_index_is_found_where_it_is(
    name: Seq<char>,
    registered: Option<Registered>,
    s: Installed,
    who: Audience,
)
    ensures
        match docs_target(name, registered, s, who) {
            Ok(dir) => (registered matches Some(p) && p.docs && dir == paths::joined(
                paths::joined(p.dir@, ".sempkg"@),
                "lance"@,
            )) || (registered is None && exists|b: BundleInfo|
                #![auto]
                (s.workspace@.contains(b) || s.global@.contains(b)) && b.name@ == name
                    && b.lists_lance && b.on_disk.lance && dir == paths::joined(
                    b.bundle_dir@,
                    "lance"@,
                )),
            Err(_) => match registered {
                Some(p) => !p.docs,
                None => forall|b: BundleInfo|
                    #![auto]
                    store::resolved(s, name) == Some(b) ==> !b.lists_lance || !b.on_disk.lance,
            },
        },
{
    store::a_name_means_an_installed_bundle(s, name);
    if registered is None && store::resolved(s, name) is Some {
        store::only_what_is_there_is_used(store::resolved(s, name)->0);
    }
}

/// A source-code index is found just where the bundle that is meant has one, and it is the
/// one of that bundle.
pub proof fn a_source_code_index_is_found_where_it_is(name: Seq<char>, s: Installed)
    ensures
        match code_target(name, s) {
            Ok(dir) => store::resolved_spec(s, name) matches Some(b) && b.lists_code
                && b.on_disk.code && dir == paths::joined(b.bundle_dir@, "code"@),
            Err(_) => store::resolved_spec(s, name) matches Some(b) ==> !b.lists_code
                || !b.on_disk.code,
        },
{
}

/// Every package that is registered is listed.
pub proof fn every_package_is_listed(
    reg: PackageRegistry,
    indexed: Seq<bool>,
    s: Installed,
    i: int,
)
    requires
        indexed.len() == reg.packages.entries@.len(),
        0 <= i < reg.packages.entries@.len(),
    ensures
        listing(reg, indexed, s).contains(
            package_item(reg.packages.entries@[i].1, indexed[i]),
        ),
{
    assert(listing(reg, indexed, s)[i + 1] == package_items(reg, indexed)[i]);
}

/// Every bundle that is installed is listed, behind the packages.
pub proof fn every_bundle_is_listed(
    reg: PackageRegistry,
    indexed: Seq<bool>,
    s: Installed,
    b: BundleInfo,
)
    requires
        indexed.len() == reg.packages.entries@.len(),
        s.workspace@.contains(b) || s.global@.contains(b),
    ensures
        listing(reg, indexed, s).contains(bundle_item(b)),
        listing(reg, indexed, s).len() <= reg.packages.entries@.len() + s.workspace@.len()
            + s.global@.len() + 3,
{
    let ls = listing(reg, indexed, s);
    let ps = package_items(reg, indexed);
    let all = store::all_bundles(s);
    let bs = all.map_values(|b: BundleInfo| bundle_item(b));
    let j = if s.workspace@.contains(b) {
        choose|i: int| 0 <= i < s.workspace@.len() && s.workspace@[i] == b
    } else {
        s.workspace@.len() + choose|i: int| 0 <= i < s.global@.len() && s.global@[i] == b
    };
    assert(all[j] == b);
    assert(bs[j] == bundle_item(b));
    let from = if ps.len() > 0 {
        ps.len() + 3
    } else {
        1
    };
    assert(ls[from + j - 1] == bs[j] || ls[from + j] == bs[j]);
}

/// Every name that can be asked for is offered.
pub proof fn every_name_is_offered(reg: PackageRegistry, s: Installed)
    ensures
        forall|i: int|
            0 <= i < reg.packages.entries@.len() ==> package_names(reg).contains(
                (#[trigger] reg.packages.entries@[i]).1.name@,
            ),
        forall|b: BundleInfo|
            #[trigger] s.workspace@.contains(b) || s.global@.contains(b) ==> bundle_names(s).contains(
                b.name@ + "@"@ + b.version@,
            ),
        package_names(reg).len() == reg.packages.entries@.len(),
        bundle_names(s).len() == s.workspace@.len() + s.global@.len(),
{
    assert forall|i: int| 0 <= i < reg.packages.entries@.len() implies package_names(reg).contains(
        (#[trigger] reg.packages.entries@[i]).1.name@,
    ) by {
        assert(package_names(reg)[i] == reg.packages.entries@[i].1.name@);
    }
    let all = store::all_bundles(s);
    assert forall|b: BundleInfo|
        #[trigger] s.workspace@.contains(b) || s.global@.contains(b) implies bundle_names(
        s,
    ).contains(b.name@ + "@"@ + b.version@) by {
        let j = if s.workspace@.contains(b) {
            choose|i: int| 0 <= i < s.workspace@.len() && s.workspace@[i] == b
        } else {
            s.workspace@.len() + choose|i: int| 0 <= i < s.global@.len() && s.global@[i] == b
        };
        assert(all[j] == b);
        assert(bundle_names(s)[j] == b.full_name());
    }
}

/// A text that is padded keeps what it says, and is as wide as it has to be.
pub proof fn padding_adds_spaces_only(s: Seq<char>, width: nat)
    ensures
        padded(s, width).len() == if s.len() > width {
            s.len()
        } else {
            width
        },
        padded(s, width).take(s.len() as int) == s,
        forall|i: int| s.len() <= i < padded(s, width).len() ==> #[trigger] padded(s, width)[i] == ' ',
    decreases width - s.len(),
{
    if s.len() < width {
        let t = s.push(' ');
        padding_adds_spaces_only(t, width);
        let r = padded(t, width);
        assert(r.take(s.len() as int) =~= s) by {
            assert forall|i: int| 0 <= i < s.len() implies r[i] == s[i] by {
                assert(r.take(t.len() as int)[i] == t[i]);
            }
        }
        assert forall|i: int| s.len() <= i < r.len() implies #[trigger] r[i] == ' ' by {
            if i == s.len() {
                assert(r.take(t.len() as int)[i] == t[i]);
            }
        }
    } else {
        assert(s.take(s.len() as int) =~= s);
    }
}

/// A bundle is listed by its name and its version, and with the indices that it has; a package
/// by its name and its path.
pub proof fn items_say_what_they_are(p: LocalPackage, b: BundleInfo, indexed: bool)
    ensures
        text::starts_with(bundle_item(b), "  • **"@ + b.name@ + "** @ "@ + b.version@ + "  ["@),
        text::ends_with(bundle_item(b), index_marks(b)),
        text::starts_with(package_item(p, indexed), "  • **"@ + p.name@ + "** ["@),
        p.description@.len() == 0 ==> text::ends_with(package_item(p, indexed), "]  "@ + p.path@),
        p.description@.len() > 0 ==> text::ends_with(
            package_item(p, indexed),
            "]  "@ + p.path@ + "  — "@ + p.description@,
        ),
        b.spec_has_lance() && b.spec_has_code() ==> index_marks(b) == "  +lance"@ + "  +code"@,
        b.spec_has_lance() && !b.spec_has_code() ==> index_marks(b) == "  +lance"@,
        !b.spec_has_lance() && b.spec_has_code() ==> index_marks(b) == "  +code"@,
        !b.spec_has_lance() && !b.spec_has_code() ==> index_marks(b).len() == 0,
{
    let t = bundle_item(b);
    let head = "  • **"@ + b.name@ + "** @ "@ + b.version@ + "  ["@;
    assert(t.subrange(0, head.len() as int) =~= head);
    let marks = index_marks(b);
    assert(t.subrange(t.len() - marks.len(), t.len() as int) =~= marks);
    let u = package_item(p, indexed);
    let first = "  • **"@ + p.name@ + "** ["@;
    assert(u.subrange(0, first.len() as int) =~= first);
    let path = "]  "@ + p.path@;
    let said = "]  "@ + p.path@ + "  — "@ + p.description@;
    if p.description@.len() == 0 {
        assert(u.subrange(u.len() - path.len(), u.len() as int) =~= path);
    } else {
        assert(u.subrange(u.len() - said.len(), u.len() as int) =~= said);
    }
    assert("  +lance"@ + Seq::<char>::empty() =~= "  +lance"@);
    assert(Seq::<char>::empty() + "  +code"@ =~= "  +code"@);
}

/// What a workspace says of a bundle is the description of the dependency of that name.
pub proof fn remarks_are_descriptions(m: WorkspaceManifest, name: Seq<char>)
    ensures
        match manifest::dependency_named(m, name) {
            Some(d) => bundle_remark(Some(m), name) == d@.description,
            None => bundle_remark(Some(m), name) is None,
        },
        bundle_remark(None, name) is None,
{
}

} // verus!
