//! What the commands say at a terminal.

use vstd::prelude::*;

use crate::embedding;
use crate::embedding::EmbeddingModel;
use crate::lance::LanceMetadata;
use crate::lookup;
use crate::lookup::{show_bundle_line, show_marks, show_package_line};
use crate::manifest::WorkspaceManifest;
use crate::packages::{LocalPackage, PackageRegistry};
use crate::pieces;
use crate::pieces::{join_texts, write_decimal};
use crate::status;
use crate::status::show_flag;
use crate::store;
use crate::store::{list_all_bundles, BundleInfo, BundleScope, Installed};

verus! {

// ---------------------------------------------------------------------------
// Workspaces
// ---------------------------------------------------------------------------

/// What is said of a new manifest.
pub fn created_message(path: &str, has_registry: bool) -> (r: String)
    ensures
        r@ == "Created "@ + path@ + (if has_registry {
            "\nAdd dependencies with: sempkg add <name>@<version>"@
        } else {
            "\nAdd a registry with: sempkg add --registry-url <url> <name>@<version>"@
        }),
{
    let mut r = "Created ".to_owned();
    r.append(path);
    if has_registry {
        r.append("\nAdd dependencies with: sempkg add <name>@<version>");
    } else {
        r.append("\nAdd a registry with: sempkg add --registry-url <url> <name>@<version>");
    }
    r
}

/// What is said of a dependency that was added.
pub fn added_message(name: &str, version: &str, group: Option<&str>) -> (r: String)
    ensures
        r@ == "Added "@ + name@ + "@"@ + version@ + (match group {
            Some(g) => " to group '"@ + g@ + "' in sempkg.toml. Run 'sempkg sync --group "@ + g@
                + "' to install."@,
            None => " to sempkg.toml. Run 'sempkg sync' to install."@,
        }),
{
    let mut r = "Added ".to_owned();
    r.append(name);
    r.append("@");
    r.append(version);
    let ghost head = r@;
    match group {
        Some(g) => {
            r.append(" to group '");
            r.append(g);
            r.append("' in sempkg.toml. Run 'sempkg sync --group ");
            r.append(g);
            r.append("' to install.");
            assert(r@ =~= head + (" to group '"@ + g@
                + "' in sempkg.toml. Run 'sempkg sync --group "@ + g@ + "' to install."@));
        },
        None => {
            r.append(" to sempkg.toml. Run 'sempkg sync' to install.");
        },
    }
    r
}

/// What is said of a dependency that was removed.
pub fn removed_message(name: &str, group: Option<&str>) -> (r: String)
    ensures
        r@ == "Removed '"@ + name@ + (match group {
            Some(g) => "' from group '"@ + g@ + "' in sempkg.toml."@,
            None => "' from sempkg.toml."@,
        }),
{
    let mut r = "Removed '".to_owned();
    r.append(name);
    let ghost head = r@;
    match group {
        Some(g) => {
            r.append("' from group '");
            r.append(g);
            r.append("' in sempkg.toml.");
            assert(r@ =~= head + ("' from group '"@ + g@ + "' in sempkg.toml."@));
        },
        None => {
            r.append("' from sempkg.toml.");
        },
    }
    r
}

/// How a store is called.
pub open spec fn store_title(scope: BundleScope) -> Seq<char> {
    match scope {
        BundleScope::Workspace => "workspace store"@,
        BundleScope::Global => "global bundle store"@,
    }
}

/// What is said of the versions of a bundle that were removed from a store, where there
/// were any.
pub fn removed_versions(name: &str, versions: usize, scope: BundleScope) -> (r: Option<String>)
    ensures
        match r {
            Some(t) => versions > 0 && t@ == "Removed "@ + name@ + " from the "@ + store_title(
                scope,
            ) + " ("@ + pieces::decimal(versions as nat) + " version(s))."@,
            None => versions == 0,
        },
{
    if versions == 0 {
        return None;
    }
    let mut r = "Removed ".to_owned();
    r.append(name);
    r.append(" from the ");
    match scope {
        BundleScope::Workspace => {
            r.append("workspace store");
        },
        BundleScope::Global => {
            r.append("global bundle store");
        },
    }
    r.append(" (");
    r.append(write_decimal(versions as u64).as_str());
    r.append(" version(s)).");
    Some(r)
}

/// Whether a removal from the user's stores did anything: neither the registry of packages
/// nor the store of bundles had the name.
pub fn check_global_removal(name: &str, registered: bool, versions: usize) -> (r: Result<
    (),
    String,
>)
    ensures
        match r {
            Ok(_) => registered || versions > 0,
            Err(e) => !registered && versions == 0 && e@ == "'"@ + name@
                + "' not found in the global package registry or global bundle store."@,
        },
{
    if registered || versions > 0 {
        return Ok(());
    }
    let mut e = "'".to_owned();
    e.append(name);
    e.append("' not found in the global package registry or global bundle store.");
    Err(e)
}

/// What a sync says first: the groups that it installs beside the dependencies.
pub open spec fn groups_text(groups: Seq<Seq<char>>, all: bool) -> Option<Seq<char>> {
    if groups.len() > 0 {
        Some("Installing [dependencies] + groups: "@ + pieces::join(groups, ", "@))
    } else if all {
        Some("Installing [dependencies] + all dependency groups"@)
    } else {
        None
    }
}

/// What a sync says first.
pub fn groups_message(groups: &Vec<String>, all: bool) -> (r: Option<String>)
    ensures
        pieces::opt_text(r) == groups_text(pieces::texts(groups@), all),
{
    if groups.len() > 0 {
        let mut t = "Installing [dependencies] + groups: ".to_owned();
        t.append(join_texts(groups, ", ").as_str());
        Some(t)
    } else if all {
        Some("Installing [dependencies] + all dependency groups".to_owned())
    } else {
        None
    }
}

// ---------------------------------------------------------------------------
// Bundles
// ---------------------------------------------------------------------------

/// What is said of a bundle that was installed into a store.
pub fn installed_message(b: &BundleInfo, scope: BundleScope) -> (r: String)
    ensures
        r@ == "Installed "@ + b.name@ + "@"@ + b.version@ + " ["@ + store::scope_name(scope) + "]"@
            + lookup::index_marks(*b),
{
    let mut r = "Installed ".to_owned();
    r.append(b.name.as_str());
    r.append("@");
    r.append(b.version.as_str());
    r.append(" [");
    r.append(scope.as_str());
    r.append("]");
    r.append(show_marks(b).as_str());
    r
}

/// What is said of a bundle that was built or fetched from a source.
pub fn installed_from(b: &BundleInfo, source: &str) -> (r: String)
    ensures
        r@ == "Installed "@ + b.name@ + "@"@ + b.version@ + " from "@ + source@
            + lookup::index_marks(*b),
{
    let mut r = "Installed ".to_owned();
    r.append(b.name.as_str());
    r.append("@");
    r.append(b.version.as_str());
    r.append(" from ");
    r.append(source);
    r.append(show_marks(b).as_str());
    r
}

/// What is said of a bundle that is there already.
pub fn already_installed(name: &str, version: &str) -> (r: String)
    ensures
        r@ == name@ + "@"@ + version@ + " is already installed. Use --reinstall to rebuild."@,
{
    let mut r = name.to_owned();
    r.append("@");
    r.append(version);
    r.append(" is already installed. Use --reinstall to rebuild.");
    r
}

/// How a scope is written in a report.
pub open spec fn scope_title(s: BundleScope) -> Seq<char> {
    match s {
        BundleScope::Workspace => "Workspace"@,
        BundleScope::Global => "Global"@,
    }
}

/// Whether a bundle's graph cannot be queried for want of its view.
pub open spec fn view_missing(b: BundleInfo) -> bool {
    b.on_disk.graph && !b.on_disk.view
}

/// What is said of an installed bundle.
pub open spec fn bundle_text(b: BundleInfo) -> Seq<char> {
    "Bundle: "@ + b.name@ + "@"@ + b.version@ + "\n  Path:       "@ + b.bundle_dir@
        + "\n  Scope:      "@ + scope_title(b.scope) + "\n  Graph:      "@ + status::flag_text(
        b.on_disk.graph,
    ) + "\n  .codegraph: "@ + status::flag_text(b.on_disk.view) + "\n  Queryable:  "@
        + status::flag_text(b.spec_is_indexed()) + "\n  Lance:      "@ + status::flag_text(
        b.spec_has_lance(),
    ) + "\n  Code index: "@ + status::flag_text(b.spec_has_code()) + "\n  Source:     "@
        + b.manifest.source_repo@ + "\n  Commit:     "@ + b.manifest.commit_hash@
        + "\n  Created:    "@ + b.manifest.created_at@ + (if view_missing(b) {
        "\n\n  ! .codegraph view missing — run 'sempkg repair' to fix."@
    } else {
        seq![]
    })
}

/// What is said of an installed bundle.
pub fn bundle_status(b: &BundleInfo) -> (r: String)
    ensures
        r@ == bundle_text(*b),
{
    let mut r = "Bundle: ".to_owned();
    r.append(b.name.as_str());
    r.append("@");
    r.append(b.version.as_str());
    r.append("\n  Path:       ");
    r.append(b.bundle_dir.as_str());
    r.append("\n  Scope:      ");
    match b.scope {
        BundleScope::Workspace => {
            r.append("Workspace");
        },
        BundleScope::Global => {
            r.append("Global");
        },
    }
    r.append("\n  Graph:      ");
    r.append(show_flag(b.on_disk.graph));
    r.append("\n  .codegraph: ");
    r.append(show_flag(b.on_disk.view));
    r.append("\n  Queryable:  ");
    r.append(show_flag(b.is_indexed()));
    r.append("\n  Lance:      ");
    r.append(show_flag(b.has_lance()));
    r.append("\n  Code index: ");
    r.append(show_flag(b.has_code()));
    r.append("\n  Source:     ");
    r.append(b.manifest.source_repo.as_str());
    r.append("\n  Commit:     ");
    r.append(b.manifest.commit_hash.as_str());
    r.append("\n  Created:    ");
    r.append(b.manifest.created_at.as_str());
    let ghost head = r@;
    if b.on_disk.graph && !b.on_disk.view {
        r.append("\n\n  ! .codegraph view missing — run 'sempkg repair' to fix.");
    }
    assert(r@ =~= head + (if view_missing(*b) {
        "\n\n  ! .codegraph view missing — run 'sempkg repair' to fix."@
    } else {
        seq![]
    }));
    r
}

/// What is said of a registered package; `graph` is what its code graph says of itself,
/// or what is wrong with it, where the package is indexed.
pub fn package_status(p: &LocalPackage, graph: Option<&Result<String, String>>) -> (r: String)
    ensures
        r@ == "Package: "@ + p.name@ + " (local)\n  Path:    "@ + p.path@ + "\n  Indexed: "@ + (
        match graph {
            None => "false"@,
            Some(Ok(t)) => "true\n\n"@ + t@,
            Some(Err(e)) => "true\n  codegraph status error: "@ + e@,
        }),
{
    let mut r = "Package: ".to_owned();
    r.append(p.name.as_str());
    r.append(" (local)\n  Path:    ");
    r.append(p.path.as_str());
    r.append("\n  Indexed: ");
    let ghost head = r@;
    match graph {
        None => {
            r.append("false");
        },
        Some(Ok(t)) => {
            r.append("true\n\n");
            r.append(t.as_str());
            assert(r@ =~= head + ("true\n\n"@ + t@));
        },
        Some(Err(e)) => {
            r.append("true\n  codegraph status error: ");
            r.append(e.as_str());
            assert(r@ =~= head + ("true\n  codegraph status error: "@ + e@));
        },
    }
    r
}

/// What is said where neither a package nor a bundle has a name.
pub fn unknown_name(name: &str) -> (r: String)
    ensures
        r@ == "'"@ + name@ + "' not found. Run 'sempkg list' to see available packages."@,
{
    let mut r = "'".to_owned();
    r.append(name);
    r.append("' not found. Run 'sempkg list' to see available packages.");
    r
}

/// What is said after the views of bundles were repaired.
pub fn repair_summary(repaired: usize, fine: usize) -> (r: String)
    ensures
        r@ == pieces::decimal(repaired as nat) + " repaired, "@ + pieces::decimal(fine as nat)
            + " already OK."@,
{
    let mut r = write_decimal(repaired as u64);
    r.append(" repaired, ");
    r.append(write_decimal(fine as u64).as_str());
    r.append(" already OK.");
    r
}

/// What is recorded of a package's documentation, at a terminal.
pub fn docs_meta(meta: &Option<LanceMetadata>, package: &str) -> (r: Result<String, String>)
    ensures
        match *meta {
            Some(m) => r matches Ok(t) && t@ == "LanceDB metadata for '"@ + package@
                + "':\n  Table:       "@ + (match m.table_name {
                Some(t) => t@,
                None => "docs"@,
            }) + "\n  Documents:   "@ + pieces::decimal(
                (match m.document_count {
                    Some(n) => n,
                    None => 0,
                }) as nat,
            ) + "\n  Chunks:      "@ + pieces::decimal(
                (match m.chunk_count {
                    Some(n) => n,
                    None => 0,
                }) as nat,
            ) + "\n  FTS enabled: "@ + status::flag_text(m.fts_enabled == Some(true))
                + "\n  Indexed at:  "@ + (match m.created_at {
                Some(t) => t@,
                None => "unknown"@,
            }),
            None => r matches Err(e) && e@ == "No LanceDB metadata found for '"@ + package@ + "'."@,
        },
{
    let m = match meta {
        Some(m) => m,
        None => {
            let mut e = "No LanceDB metadata found for '".to_owned();
            e.append(package);
            e.append("'.");
            return Err(e);
        },
    };
    let mut r = "LanceDB metadata for '".to_owned();
    r.append(package);
    r.append("':\n  Table:       ");
    match &m.table_name {
        Some(t) => {
            r.append(t.as_str());
        },
        None => {
            r.append("docs");
        },
    }
    r.append("\n  Documents:   ");
    let documents: u64 = match m.document_count {
        Some(n) => n,
        None => 0,
    };
    r.append(write_decimal(documents).as_str());
    r.append("\n  Chunks:      ");
    let chunks: u64 = match m.chunk_count {
        Some(n) => n,
        None => 0,
    };
    r.append(write_decimal(chunks).as_str());
    r.append("\n  FTS enabled: ");
    let searchable = match m.fts_enabled {
        Some(b) => b,
        None => false,
    };
    r.append(show_flag(searchable));
    r.append("\n  Indexed at:  ");
    match &m.created_at {
        Some(t) => {
            r.append(t.as_str());
        },
        None => {
            r.append("unknown");
        },
    }
    Ok(r)
}

// ---------------------------------------------------------------------------
// Lists
// ---------------------------------------------------------------------------

/// The lines of registered packages at a terminal; `indexed` says of each whether it is
/// indexed.
pub open spec fn package_lines(reg: PackageRegistry, indexed: Seq<bool>) -> Seq<Seq<char>> {
    Seq::new(
        reg.packages.entries@.len(),
        |i: int| lookup::package_line(reg.packages.entries@[i].1, indexed[i]),
    )
}

/// The lines of bundles at a terminal, with what the workspace says of them.
pub open spec fn bundle_lines(bs: Seq<BundleInfo>, m: Option<WorkspaceManifest>) -> Seq<Seq<char>> {
    bs.map_values(|b: BundleInfo| lookup::bundle_line(b, lookup::bundle_remark(m, b.name@)))
}

fn show_packages(reg: &PackageRegistry, indexed: &Vec<bool>) -> (r: Vec<String>)
    requires
        indexed@.len() == reg.packages.entries@.len(),
    ensures
        pieces::texts(r@) == package_lines(*reg, indexed@),
{
    let ghost want = package_lines(*reg, indexed@);
    let mut r: Vec<String> = Vec::new();
    let mut i: usize = 0;
    assert(pieces::texts(r@) =~= want.take(0));
    while i < reg.packages.entries.len()
        invariant
            i <= reg.packages.entries@.len(),
            indexed@.len() == reg.packages.entries@.len(),
            want == package_lines(*reg, indexed@),
            pieces::texts(r@) == want.take(i as int),
        decreases reg.packages.entries.len() - i,
    {
        let ghost before = pieces::texts(r@);
        r.push(show_package_line(&reg.packages.entries[i].1, indexed[i]));
        proof {
            assert(pieces::texts(r@) =~= before.push(want[i as int]));
            assert(want.take(i + 1) =~= want.take(i as int).push(want[i as int]));
        }
        i = i + 1;
    }
    assert(want.take(want.len() as int) =~= want);
    r
}

fn show_bundles(bs: &Vec<&BundleInfo>, m: &Option<WorkspaceManifest>) -> (r: Vec<String>)
    requires
        match *m {
            Some(mf) => mf.wf(),
            None => true,
        },
    ensures
        pieces::texts(r@) == bundle_lines(bs@.map_values(|b: &BundleInfo| *b), *m),
{
    let ghost all = bs@.map_values(|b: &BundleInfo| *b);
    let ghost want = bundle_lines(all, *m);
    let mut r: Vec<String> = Vec::new();
    let mut i: usize = 0;
    assert(pieces::texts(r@) =~= want.take(0));
    while i < bs.len()
        invariant
            i <= bs@.len(),
            match *m {
                Some(mf) => mf.wf(),
                None => true,
            },
            all == bs@.map_values(|b: &BundleInfo| *b),
            want == bundle_lines(all, *m),
            pieces::texts(r@) == want.take(i as int),
        decreases bs.len() - i,
    {
        let ghost before = pieces::texts(r@);
        r.push(show_bundle_line(bs[i], m));
        proof {
            assert(all[i as int] == *bs@[i as int]);
            assert(pieces::texts(r@) =~= before.push(want[i as int]));
            assert(want.take(i + 1) =~= want.take(i as int).push(want[i as int]));
        }
        i = i + 1;
    }
    assert(want.take(want.len() as int) =~= want);
    r
}

/// What is listed at a terminal: the packages and the bundles, or how to get some.
pub open spec fn list_text(
    reg: PackageRegistry,
    indexed: Seq<bool>,
    s: Installed,
    m: Option<WorkspaceManifest>,
) -> Seq<char> {
    let ps = package_lines(reg, indexed);
    let bs = bundle_lines(store::all_bundles(s), m);
    if ps.len() == 0 && bs.len() == 0 {
        "No packages or bundles registered.\n  Local packages: sempkg pkg add <name> <path>\n  Bundles:        sempkg sync  or  sempkg install <name>@<version> --registry <url>"@
    } else if bs.len() == 0 {
        "Local packages:\n"@ + pieces::join(ps, "\n"@)
    } else if ps.len() == 0 {
        "Installed bundles:\n"@ + pieces::join(bs, "\n"@)
    } else {
        "Local packages:\n"@ + pieces::join(ps, "\n"@) + "\n\nInstalled bundles:\n"@ + pieces::join(
            bs,
            "\n"@,
        )
    }
}

/// List everything at a terminal.
pub fn list_all(
    reg: &PackageRegistry,
    indexed: &Vec<bool>,
    s: &Installed,
    m: &Option<WorkspaceManifest>,
) -> (r: String)
    requires
        indexed@.len() == reg.packages.entries@.len(),
        match *m {
            Some(mf) => mf.wf(),
            None => true,
        },
    ensures
        r@ == list_text(*reg, indexed@, *s, *m),
{
    let bundles = list_all_bundles(s);
    let ps = show_packages(reg, indexed);
    let bs = show_bundles(&bundles, m);
    proof {
        assert(bundles@.map_values(|b: &BundleInfo| *b) =~= store::all_bundles(*s));
        assert(pieces::texts(ps@).len() == ps@.len());
        assert(pieces::texts(bs@).len() == bs@.len());
    }
    if ps.len() == 0 && bs.len() == 0 {
        return "No packages or bundles registered.\n  Local packages: sempkg pkg add <name> <path>\n  Bundles:        sempkg sync  or  sempkg install <name>@<version> --registry <url>".to_owned();
    }
    if ps.len() == 0 {
        let mut r = "Installed bundles:\n".to_owned();
        r.append(join_texts(&bs, "\n").as_str());
        return r;
    }
    let mut r = "Local packages:\n".to_owned();
    r.append(join_texts(&ps, "\n").as_str());
    if bs.len() > 0 {
        r.append("\n\nInstalled bundles:\n");
        r.append(join_texts(&bs, "\n").as_str());
    }
    r
}

/// List the registered packages at a terminal.
pub fn list_registered(reg: &PackageRegistry, indexed: &Vec<bool>) -> (r: String)
    requires
        indexed@.len() == reg.packages.entries@.len(),
    ensures
        r@ == (if reg.packages.entries@.len() == 0 {
            "No local packages registered.\n  Use: sempkg pkg add <name> <path>"@
        } else {
            "Local packages:\n"@ + pieces::join(package_lines(*reg, indexed@), "\n"@)
        }),
{
    if reg.packages.entries.len() == 0 {
        return "No local packages registered.\n  Use: sempkg pkg add <name> <path>".to_owned();
    }
    let ps = show_packages(reg, indexed);
    let mut r = "Local packages:\n".to_owned();
    r.append(join_texts(&ps, "\n").as_str());
    r
}

// ---------------------------------------------------------------------------
// Models
// ---------------------------------------------------------------------------

/// What is said of an embedding model that was fetched: how to select it where the
/// workspace uses another.
pub fn pulled_message(pulled: EmbeddingModel, used: EmbeddingModel) -> (r: String)
    ensures
        r@ == (if pulled == used {
            "Model ready. Run `sempkg embed` to build vector indexes for your bundles."@
        } else {
            "To use "@ + embedding::model_title(pulled) + ", set `model_id = \""@
                + embedding::model_id(pulled)
                + "\"` under [embedding] in sempkg.toml,\nthen run `sempkg embed --force` to re-embed your bundles."@
        }),
{
    if pulled == used {
        return "Model ready. Run `sempkg embed` to build vector indexes for your bundles.".to_owned();
    }
    let mut r = "To use ".to_owned();
    r.append(pulled.display_name());
    r.append(", set `model_id = \"");
    r.append(pulled.id());
    r.append(
        "\"` under [embedding] in sempkg.toml,\nthen run `sempkg embed --force` to re-embed your bundles.",
    );
    r
}

/// What is said after tables were embedded.
pub fn embedded_message(rows: u64, tables: usize) -> (r: String)
    ensures
        r@ == "Done. Embedded "@ + pieces::decimal(rows as nat) + " rows across "@
            + pieces::decimal(tables as nat) + " table(s)."@,
{
    let mut r = "Done. Embedded ".to_owned();
    r.append(write_decimal(rows).as_str());
    r.append(" rows across ");
    r.append(write_decimal(tables as u64).as_str());
    r.append(" table(s).");
    r
}

/// Whether there is anything to embed: a package that was named has to have a table.
pub fn check_targets(targets: usize, asked: Option<&str>) -> (r: Result<bool, String>)
    ensures
        match r {
            Ok(b) => b == (targets > 0) && (targets > 0 || asked is None),
            Err(e) => targets == 0 && (asked matches Some(name) && e@
                == "No indexed docs/code tables found for '"@ + name@ + "'."@),
        },
{
    if targets > 0 {
        return Ok(true);
    }
    match asked {
        Some(name) => {
            let mut e = "No indexed docs/code tables found for '".to_owned();
            e.append(name);
            e.append("'.");
            Err(e)
        },
        None => Ok(false),
    }
}

/// A group cannot be named where what is removed is global.
pub fn check_remove_options(group: Option<&str>, global: bool) -> (r: Result<(), String>)
    ensures
        r is Err <==> (group is Some && global),
        r is Err ==> r->Err_0@ == "--group cannot be used with --global"@,
{
    if global && group.is_some() {
        Err("--group cannot be used with --global".to_owned())
    } else {
        Ok(())
    }
}

/// Everything is listed at a terminal: a line of its own for every registered package and for
/// every bundle, and both lists where there is something on both.
pub proof fn everything_is_listed(
    reg: PackageRegistry,
    indexed: Seq<bool>,
    s: Installed,
    m: Option<WorkspaceManifest>,
    i: int,
)
    ensures
        ({
            let ps = package_lines(reg, indexed);
            let bs = bundle_lines(s.workspace@ + s.global@, m);
            let t = list_text(reg, indexed, s, m);
            &&& ps.len() == reg.packages.entries@.len()
            &&& bs.len() == s.workspace@.len() + s.global@.len()
            &&& 0 <= i < ps.len() ==> ps[i] == lookup::package_line(
                reg.packages.entries@[i].1,
                indexed[i],
            )
            &&& 0 <= i < s.workspace@.len() ==> bs[i] == lookup::bundle_line(
                s.workspace@[i],
                lookup::bundle_remark(m, s.workspace@[i].name@),
            )
            &&& 0 <= i < s.global@.len() ==> bs[s.workspace@.len() + i] == lookup::bundle_line(
                s.global@[i],
                lookup::bundle_remark(m, s.global@[i].name@),
            )
            &&& ps.len() > 0 && bs.len() > 0 ==> t == "Local packages:\n"@ + pieces::join(ps, "\n"@)
                + "\n\nInstalled bundles:\n"@ + pieces::join(bs, "\n"@)
            &&& ps.len() > 0 && bs.len() == 0 ==> t == "Local packages:\n"@ + pieces::join(
                ps,
                "\n"@,
            )
            &&& ps.len() == 0 && bs.len() > 0 ==> t == "Installed bundles:\n"@ + pieces::join(
                bs,
                "\n"@,
            )
        }),
{
}

} // verus!
