//! Dependencies of a workspace: adding, removing and installing them, and the record of
//! what is installed.

use vstd::prelude::*;

use crate::github::{GitHubSource, SourceView};
use crate::manifest;
use crate::manifest::{
    DependencyEntry, DependencyView, LockEntry, LockFile, RegistryEntry, WorkspaceManifest,
};
use crate::paths;
use crate::paths::join_path;
use crate::pieces;
use crate::pieces::{copy_opt, has_member, join_texts};
use crate::rank;
use crate::registry;
use crate::sources;
use crate::sources::parse_manifest_git_source;
use crate::store::BundleInfo;
use crate::strmap::StringMap;
use crate::text::{same_text, trim_end_text, CharClass};

verus! {

// ---------------------------------------------------------------------------
// Putting a dependency in
// ---------------------------------------------------------------------------

/// What is put in for a dependency: where it has no description, the one that the
/// workspace has for it stays.
pub open spec fn described(m: WorkspaceManifest, name: Seq<char>, d: DependencyView) -> DependencyView {
    match d.description {
        Some(_) => d,
        None => DependencyView {
            description: match manifest::dependency_named(m, name) {
                Some(x) => x@.description,
                None => None,
            },
            ..d
        },
    }
}

/// The dependencies of a group.
pub open spec fn group_deps(m: WorkspaceManifest, group: Seq<char>) -> Map<
    Seq<char>,
    DependencyView,
> {
    if m.dependency_groups@.contains_key(group) {
        manifest::dep_views(m.dependency_groups@[group]@)
    } else {
        Map::empty()
    }
}

/// Two manifests differ in nothing but their registries and dependencies.
pub open spec fn same_settings(a: WorkspaceManifest, b: WorkspaceManifest) -> bool {
    a.workspace == b.workspace && a.packages == b.packages && a.reranker == b.reranker
        && a.embedding == b.embedding && a.query_expansion == b.query_expansion
}

/// The dependencies of a manifest after one was put in, by itself or into a group.
pub open spec fn has_inserted(
    old_m: WorkspaceManifest,
    new_m: WorkspaceManifest,
    name: Seq<char>,
    d: DependencyView,
    group: Option<Seq<char>>,
) -> bool {
    let e = described(old_m, name, d);
    match group {
        None => manifest::dep_views(new_m.dependencies@) == manifest::dep_views(
            old_m.dependencies@,
        ).insert(name, e) && new_m.dependency_groups == old_m.dependency_groups,
        Some(g) => new_m.dependencies == old_m.dependencies && new_m.dependency_groups@.remove(g)
            == old_m.dependency_groups@.remove(g) && new_m.dependency_groups@.contains_key(g)
            && group_deps(new_m, g) == group_deps(old_m, g).insert(name, e),
    }
}

/// Put a dependency into the manifest, in place of one of the same name.
pub fn insert_dep(
    mf: &mut WorkspaceManifest,
    name: &str,
    dep: DependencyEntry,
    group: Option<&str>,
)
    requires
        old(mf).wf(),
    ensures
        final(mf).wf(),
        has_inserted(*old(mf), *final(mf), name@, dep@, pieces::opt_str(group)),
        same_settings(*old(mf), *final(mf)),
        final(mf).registries == old(mf).registries,
{
    let ghost before = *mf;
    let mut dep = dep;
    if dep.description.is_none() {
        dep.description = match mf.find_dependency(name) {
            Some(d) => copy_opt(&d.description),
            None => None,
        };
    }
    let ghost e = dep@;
    proof {
        manifest::lemma_groups_wf(mf.dependency_groups);
    }
    match group {
        Some(g) => {
            let mut deps = match mf.dependency_groups.take(g) {
                Some(m) => m,
                None => StringMap::new(),
            };
            let ghost had = deps@;
            deps.insert(name.to_owned(), dep);
            proof {
                assert(manifest::dep_views(deps@) =~= manifest::dep_views(had).insert(name@, e));
                assert(manifest::dep_views(had) =~= group_deps(before, g@));
            }
            mf.dependency_groups.insert(g.to_owned(), deps);
            proof {
                assert(mf.dependency_groups@.remove(g@) =~= before.dependency_groups@.remove(g@));
                assert forall|k: Seq<char>| #[trigger]
                    mf.dependency_groups@.contains_key(k) implies mf.dependency_groups@[k].wf() by {
                    if k != g@ {
                        assert(before.dependency_groups@.contains_key(k));
                    }
                }
                manifest::lemma_groups_wf(mf.dependency_groups);
            }
        },
        None => {
            mf.dependencies.insert(name.to_owned(), dep);
            proof {
                assert(manifest::dep_views(mf.dependencies@) =~= manifest::dep_views(
                    before.dependencies@,
                ).insert(name@, e));
            }
        },
    }
}

/// A dependency that was put in is found as it was put in.
pub proof fn an_added_dependency_is_found(
    old_m: WorkspaceManifest,
    new_m: WorkspaceManifest,
    name: Seq<char>,
    d: DependencyView,
)
    requires
        has_inserted(old_m, new_m, name, d, None),
    ensures
        manifest::dependency_named(new_m, name) is Some,
        manifest::dependency_named(new_m, name)->0@ == described(old_m, name, d),
{
    let after = manifest::dep_views(new_m.dependencies@);
    assert(after.contains_key(name));
    assert(after[name] == described(old_m, name, d));
}

/// A description stays until another takes its place: putting a dependency in without a
/// description keeps the one that the workspace has for it, and every other dependency
/// keeps its own.
pub proof fn descriptions_are_kept(
    old_m: WorkspaceManifest,
    new_m: WorkspaceManifest,
    name: Seq<char>,
    d: DependencyView,
    other: Seq<char>,
)
    requires
        has_inserted(old_m, new_m, name, d, None),
        d.description is None,
        old_m.dependencies@.contains_key(name),
        old_m.dependencies@.contains_key(other),
        other != name,
    ensures
        new_m.dependencies@.contains_key(name),
        new_m.dependencies@[name]@.description == old_m.dependencies@[name]@.description,
        new_m.dependencies@.contains_key(other),
        new_m.dependencies@[other]@ == old_m.dependencies@[other]@,
{
    let before = manifest::dep_views(old_m.dependencies@);
    let after = manifest::dep_views(new_m.dependencies@);
    assert(after.contains_key(name));
    assert(after[name] == described(old_m, name, d));
    assert(after[name] == new_m.dependencies@[name]@);
    assert(before.contains_key(other));
    assert(after.contains_key(other));
    assert(after[other] == before[other]);
}

// ---------------------------------------------------------------------------
// Adding a bundle
// ---------------------------------------------------------------------------

/// A dependency on a bundle.
pub open spec fn bundle_dep(
    version: Seq<char>,
    registry: Option<Seq<char>>,
    url: Option<Seq<char>>,
    description: Option<Seq<char>>,
) -> DependencyView {
    DependencyView {
        version,
        registry,
        url,
        git: None,
        git_ref: None,
        subdir: None,
        full: false,
        local: None,
        include_source: false,
        source_glob: None,
        source_dirs: seq![],
        docs_dirs: seq![],
        exclude_dirs: seq![],
        description,
    }
}

fn make_bundle_dep(
    version: &str,
    registry: Option<String>,
    url: Option<String>,
    description: Option<String>,
) -> (r: DependencyEntry)
    ensures
        r@ == bundle_dep(
            version@,
            pieces::opt_text(registry),
            pieces::opt_text(url),
            pieces::opt_text(description),
        ),
{
    let r = DependencyEntry {
        version: version.to_owned(),
        registry,
        url,
        git: None,
        git_ref: None,
        subdir: None,
        full: false,
        local: None,
        include_source: false,
        source_glob: None,
        source_dirs: Vec::new(),
        docs_dirs: Vec::new(),
        exclude_dirs: Vec::new(),
        description,
    };
    assert(r@.source_dirs =~= seq![]);
    assert(r@.docs_dirs =~= seq![]);
    assert(r@.exclude_dirs =~= seq![]);
    r
}

/// The registries of a manifest, by name and address.
pub open spec fn registry_pairs(rs: Seq<RegistryEntry>) -> Seq<(Seq<char>, Seq<char>)> {
    rs.map_values(|r: RegistryEntry| (r.name@, r.url@))
}

/// The name of the registry that an address is given for.
pub open spec fn registry_label(registry: Option<Seq<char>>) -> Seq<char> {
    match registry {
        Some(n) => n,
        None => "default"@,
    }
}

/// What a dependency is added with.
#[derive(Debug, Clone)]
pub struct AddOptions {
    /// The address of the bundle itself.
    pub url: Option<String>,
    /// The address of a registry.
    pub registry_url: Option<String>,
    /// The name of a registry.
    pub registry: Option<String>,
    pub group: Option<String>,
    pub description: Option<String>,
}

/// The dependency that is added: from its own address, from the registry whose address is
/// given, or from the registry that is named, else the first.
pub open spec fn added_dep(m: WorkspaceManifest, version: Seq<char>, o: AddOptions) -> DependencyView {
    let named = pieces::opt_text(o.registry);
    let registry = match (o.url, o.registry_url) {
        (Some(_), _) => None,
        (None, Some(_)) => Some(registry_label(named)),
        (None, None) => match named {
            Some(n) => Some(n),
            None => if m.registries@.len() > 0 {
                Some(m.registries@[0].name@)
            } else {
                None
            },
        },
    };
    bundle_dep(version, registry, pieces::opt_text(o.url), pieces::opt_text(o.description))
}

/// The registries after a dependency is added: one whose address is given is recorded,
/// unless its name is known.
pub open spec fn added_registries(m: WorkspaceManifest, o: AddOptions) -> Seq<
    (Seq<char>, Seq<char>),
> {
    let rs = registry_pairs(m.registries@);
    match (o.url, o.registry_url) {
        (None, Some(u)) => {
            let n = registry_label(pieces::opt_text(o.registry));
            if manifest::registry_named(m.registries@, n) is Some {
                rs
            } else {
                rs.push((n, registry::base(u@)))
            }
        },
        _ => rs,
    }
}

/// There is nowhere that the dependency could come from.
pub open spec fn lacks_registry(m: WorkspaceManifest, o: AddOptions) -> bool {
    o.url is None && o.registry_url is None && m.registries@.len() == 0
}

/// Add a dependency on a bundle to the manifest.
pub fn add_bundle(
    mf: &mut WorkspaceManifest,
    spec: &str,
    name: &str,
    version: &str,
    o: &AddOptions,
) -> (r: Result<(), String>)
    requires
        old(mf).wf(),
    ensures
        final(mf).wf(),
        match r {
            Ok(_) => !lacks_registry(*old(mf), *o) && has_inserted(
                *old(mf),
                *final(mf),
                name@,
                added_dep(*old(mf), version@, *o),
                pieces::opt_text(o.group),
            ) && same_settings(*old(mf), *final(mf)) && registry_pairs(final(mf).registries@)
                == added_registries(*old(mf), *o),
            Err(e) => lacks_registry(*old(mf), *o) && *final(mf) == *old(mf) && e@
                == "No registries defined in sempkg.toml. Use --registry-url to add one: sempkg add --registry-url <url> "@
                + spec@
                + "\nOr use --url to add a direct download URL: sempkg add --url <url> "@ + spec@
                + "\nOr install directly from GitHub: sempkg add owner/repo@ref"@,
        },
{
    let ghost before = *mf;
    let group = match &o.group {
        Some(g) => Some(g.as_str()),
        None => None,
    };
    let description = copy_opt(&o.description);
    if o.url.is_some() {
        let dep = make_bundle_dep(version, None, copy_opt(&o.url), description);
        insert_dep(mf, name, dep, group);
        return Ok(());
    }
    match &o.registry_url {
        Some(u) => {
            let label = match &o.registry {
                Some(n) => n.clone(),
                None => "default".to_owned(),
            };
            if mf.get_registry(label.as_str()).is_none() {
                mf.registries.push(
                    RegistryEntry {
                        name: label.clone(),
                        url: trim_end_text(u.as_str(), CharClass::Is('/')),
                    },
                );
                assert(registry_pairs(mf.registries@) =~= registry_pairs(before.registries@).push(
                    (label@, registry::base(u@)),
                ));
            }
            let dep = make_bundle_dep(version, Some(label), None, description);
            insert_dep(mf, name, dep, group);
            Ok(())
        },
        None => {
            if mf.registries.len() == 0 {
                let mut e =
                    "No registries defined in sempkg.toml. Use --registry-url to add one: sempkg add --registry-url <url> ".to_owned();
                e.append(spec);
                e.append("\nOr use --url to add a direct download URL: sempkg add --url <url> ");
                e.append(spec);
                e.append("\nOr install directly from GitHub: sempkg add owner/repo@ref");
                return Err(e);
            }
            let label = match &o.registry {
                Some(n) => Some(n.clone()),
                None => match mf.default_registry() {
                    Some(r) => Some(r.name.clone()),
                    None => None,
                },
            };
            let dep = make_bundle_dep(version, label, None, description);
            insert_dep(mf, name, dep, group);
            Ok(())
        },
    }
}

// ---------------------------------------------------------------------------
// Removing
// ---------------------------------------------------------------------------

/// A dependency, or one of a group, is there.
pub open spec fn has_dep(m: WorkspaceManifest, name: Seq<char>, group: Option<Seq<char>>) -> bool {
    match group {
        None => m.dependencies@.contains_key(name),
        Some(g) => group_deps(m, g).contains_key(name),
    }
}

/// The dependencies of a manifest after one was taken out.
pub open spec fn has_removed(
    old_m: WorkspaceManifest,
    new_m: WorkspaceManifest,
    name: Seq<char>,
    group: Option<Seq<char>>,
) -> bool {
    match group {
        None => new_m.dependencies@ == old_m.dependencies@.remove(name) && new_m.dependency_groups
            == old_m.dependency_groups,
        Some(g) => new_m.dependencies == old_m.dependencies && new_m.dependency_groups@.remove(g)
            == old_m.dependency_groups@.remove(g) && new_m.dependency_groups@.contains_key(g)
            && group_deps(new_m, g) == group_deps(old_m, g).remove(name),
    }
}

/// Take a dependency out of the manifest.
pub fn remove_dep(mf: &mut WorkspaceManifest, name: &str, group: Option<&str>) -> (r: Result<
    (),
    String,
>)
    requires
        old(mf).wf(),
    ensures
        final(mf).wf(),
        same_settings(*old(mf), *final(mf)),
        final(mf).registries == old(mf).registries,
        match r {
            Ok(_) => has_dep(*old(mf), name@, pieces::opt_str(group)) && has_removed(
                *old(mf),
                *final(mf),
                name@,
                pieces::opt_str(group),
            ),
            Err(e) => !has_dep(*old(mf), name@, pieces::opt_str(group)) && manifest::dep_views(
                final(mf).dependencies@,
            ) == manifest::dep_views(old(mf).dependencies@) && final(mf).dependency_groups@
                == old(mf).dependency_groups@ && e@ == "'"@ + name@ + "' not found in sempkg.toml."@
                + (if group is None {
                " Use --group <name> to remove from a specific group."@
            } else {
                seq![]
            }),
        },
{
    let ghost before = *mf;
    proof {
        manifest::lemma_groups_wf(mf.dependency_groups);
    }
    let removed = match group {
        Some(g) => match mf.dependency_groups.take(g) {
            Some(m) => {
                let mut deps = m;
                let ghost had = deps@;
                if deps.contains_key(name) {
                    let _ = deps.remove(name);
                    proof {
                        assert(manifest::dep_views(deps@) =~= manifest::dep_views(had).remove(
                            name@,
                        ));
                    }
                    mf.dependency_groups.insert(g.to_owned(), deps);
                    proof {
                        assert(mf.dependency_groups@.remove(g@)
                            =~= before.dependency_groups@.remove(g@));
                    }
                    true
                } else {
                    mf.dependency_groups.insert(g.to_owned(), deps);
                    proof {
                        assert(mf.dependency_groups@ =~= before.dependency_groups@);
                    }
                    false
                }
            },
            None => {
                proof {
                    assert(mf.dependency_groups@ =~= before.dependency_groups@);
                }
                false
            },
        },
        None => {
            let b = mf.dependencies.remove(name);
            if !b {
                assert(mf.dependencies@ =~= before.dependencies@);
            }
            b
        },
    };
    proof {
        assert forall|k: Seq<char>| #[trigger]
            mf.dependency_groups@.contains_key(k) implies mf.dependency_groups@[k].wf() by {
            if group is None || k != group->0@ {
                assert(before.dependency_groups@.contains_key(k));
            }
        }
        manifest::lemma_groups_wf(mf.dependency_groups);
    }
    if removed {
        return Ok(());
    }
    let mut e = "'".to_owned();
    e.append(name);
    e.append("' not found in sempkg.toml.");
    let ghost head = e@;
    match group {
        None => {
            e.append(" Use --group <name> to remove from a specific group.");
        },
        Some(_) => {
            assert(head + seq![] =~= head);
        },
    }
    Err(e)
}

// ---------------------------------------------------------------------------
// Installing what a manifest asks for
// ---------------------------------------------------------------------------

/// What installing a dependency takes.
#[derive(Debug, Clone)]
pub enum SyncStep {
    /// Build it from a repository.
    GitHub(GitHubSource),
    /// Build it from a directory.
    Local(String),
    /// It is there; where it came from, and whether its signature was verified.
    Skip(String, bool),
    /// Download it from its own address.
    FromUrl(String),
    /// Download it from a registry, by the registry's name and address; whether its
    /// signature is verified.
    FromRegistry(String, String, bool),
}

pub ghost enum StepView {
    GitHub(SourceView),
    Local(Seq<char>),
    Skip(Seq<char>, bool),
    FromUrl(Seq<char>),
    FromRegistry(Seq<char>, Seq<char>, bool),
}

impl View for SyncStep {
    type V = StepView;

    open spec fn view(&self) -> StepView {
        match *self {
            SyncStep::GitHub(s) => StepView::GitHub(s@),
            SyncStep::Local(p) => StepView::Local(p@),
            SyncStep::Skip(l, b) => StepView::Skip(l@, b),
            SyncStep::FromUrl(u) => StepView::FromUrl(u@),
            SyncStep::FromRegistry(n, u, b) => StepView::FromRegistry(n@, u@, b),
        }
    }
}

/// The repository of a dependency: at the reference that was asked for, else at its
/// version.
pub open spec fn dep_repo(d: DependencyView, r: sources::RepoView) -> SourceView {
    SourceView {
        host: r.host,
        owner: r.owner,
        repo: r.repo,
        git_ref: match d.git_ref {
            Some(x) => Some(x),
            None => Some(d.version),
        },
        subdir: d.subdir,
    }
}

/// What installing a dependency takes, or why it cannot be installed. `installed` says that
/// its version is there, and `keyed` that signatures are verified.
pub open spec fn sync_target(
    m: WorkspaceManifest,
    dir: Seq<char>,
    name: Seq<char>,
    dep: DependencyEntry,
    reinstall: bool,
    installed: bool,
    keyed: bool,
) -> Result<StepView, Seq<char>> {
    let d = dep@;
    if d.git is Some {
        match sources::git_source(d.git->0) {
            Some(r) => Ok(StepView::GitHub(dep_repo(d, r))),
            None => Err(
                "Invalid git source '"@ + d.git->0 + "' for dependency '"@ + name
                    + "'. Expected github:owner/repo or github:host/owner/repo"@,
            ),
        }
    } else if d.local is Some {
        Ok(StepView::Local(paths::joined(dir, d.local->0)))
    } else if d.url is Some {
        if !reinstall && installed {
            Ok(StepView::Skip(d.url->0, false))
        } else {
            Ok(StepView::FromUrl(d.url->0))
        }
    } else {
        match manifest::dependency_registry(m, dep) {
            Some(r) => if !reinstall && installed {
                Ok(StepView::Skip(r.url@, keyed))
            } else {
                Ok(StepView::FromRegistry(r.name@, r.url@, keyed))
            },
            None => Err("No registry found for dependency '"@ + name + "'"@),
        }
    }
}

/// Tell what installing a dependency takes.
pub fn sync_step(
    mf: &WorkspaceManifest,
    dir: &str,
    name: &str,
    dep: &DependencyEntry,
    reinstall: bool,
    installed: bool,
    keyed: bool,
) -> (r: Result<SyncStep, String>)
    ensures
        match r {
            Ok(s) => sync_target(*mf, dir@, name@, *dep, reinstall, installed, keyed) == Ok::<
                StepView,
                Seq<char>,
            >(s@),
            Err(e) => sync_target(*mf, dir@, name@, *dep, reinstall, installed, keyed) == Err::<
                StepView,
                Seq<char>,
            >(e@),
        },
{
    match &dep.git {
        Some(g) => {
            return match parse_manifest_git_source(g.as_str()) {
                Some((host, owner, repo)) => {
                    let git_ref = match &dep.git_ref {
                        Some(x) => Some(x.clone()),
                        None => Some(dep.version.clone()),
                    };
                    Ok(
                        SyncStep::GitHub(
                            GitHubSource {
                                host,
                                owner,
                                repo,
                                git_ref,
                                subdir: copy_opt(&dep.subdir),
                            },
                        ),
                    )
                },
                None => {
                    let mut e = "Invalid git source '".to_owned();
                    e.append(g.as_str());
                    e.append("' for dependency '");
                    e.append(name);
                    e.append("'. Expected github:owner/repo or github:host/owner/repo");
                    Err(e)
                },
            };
        },
        None => {},
    }
    match &dep.local {
        Some(p) => {
            return Ok(SyncStep::Local(join_path(dir, p.as_str())));
        },
        None => {},
    }
    match &dep.url {
        Some(u) => {
            if !reinstall && installed {
                return Ok(SyncStep::Skip(u.clone(), false));
            }
            return Ok(SyncStep::FromUrl(u.clone()));
        },
        None => {},
    }
    match mf.registry_for(dep) {
        Some(r) => {
            if !reinstall && installed {
                Ok(SyncStep::Skip(r.url.clone(), keyed))
            } else {
                Ok(SyncStep::FromRegistry(r.name.clone(), r.url.clone(), keyed))
            }
        },
        None => {
            let mut e = "No registry found for dependency '".to_owned();
            e.append(name);
            e.append("'");
            Err(e)
        },
    }
}

/// A bundle that is installed is downloaded again only where that is asked for.
pub proof fn installed_bundles_are_left_alone(
    m: WorkspaceManifest,
    dir: Seq<char>,
    name: Seq<char>,
    dep: DependencyEntry,
    keyed: bool,
)
    ensures
        match sync_target(m, dir, name, dep, false, true, keyed) {
            Ok(s) => !(s is FromUrl) && !(s is FromRegistry),
            Err(_) => true,
        },
{
}

/// What is said of a dependency is done: a repository is fetched from where it is, at the
/// reference that was asked for or else at the version; a directory is built from where it
/// lies; an address is downloaded from; and anything else comes from a registry of the
/// manifest. A dependency that says several of these goes by the first.
pub proof fn dependencies_come_from_where_they_say(
    m: WorkspaceManifest,
    dir: Seq<char>,
    name: Seq<char>,
    dep: DependencyEntry,
    reinstall: bool,
    installed: bool,
    keyed: bool,
)
    ensures
        match sync_target(m, dir, name, dep, reinstall, installed, keyed) {
            Ok(StepView::GitHub(s)) => {
                &&& dep@.git is Some
                &&& s.git_ref == Some(
                    if dep@.git_ref is Some {
                        dep@.git_ref->0
                    } else {
                        dep@.version
                    },
                )
                &&& s.subdir == dep@.subdir
            },
            Ok(StepView::Local(p)) => dep@.git is None && dep@.local is Some && p == paths::joined(
                dir,
                dep@.local->0,
            ),
            Ok(StepView::FromUrl(u)) => dep@.git is None && dep@.local is None && dep@.url == Some(u),
            Ok(StepView::FromRegistry(n, u, _)) => dep@.git is None && dep@.local is None && dep@.url
                is None && exists|i: int|
                0 <= i < m.registries@.len() && (#[trigger] m.registries@[i]).name@ == n
                    && m.registries@[i].url@ == u,
            Ok(StepView::Skip(u, _)) => dep@.git is None && dep@.local is None && (dep@.url == Some(u)
                || dep@.url is None),
            Err(_) => dep@.local is None && dep@.url is None || dep@.git is Some,
        },
{
    manifest::a_dependency_has_its_registry(m, dep);
}

/// A dependency is skipped only where its version is installed and is not to be installed
/// again, and then it is, unless it is built from a repository or a directory.
pub proof fn only_installed_dependencies_are_skipped(
    m: WorkspaceManifest,
    dir: Seq<char>,
    name: Seq<char>,
    dep: DependencyEntry,
    reinstall: bool,
    installed: bool,
    keyed: bool,
)
    ensures
        ({
            let r = sync_target(m, dir, name, dep, reinstall, installed, keyed);
            &&& (r matches Ok(StepView::Skip(..))) ==> installed && !reinstall
            &&& dep@.git is None && dep@.local is None && dep@.url is Some && (!installed
                || reinstall) ==> r == Ok::<StepView, Seq<char>>(StepView::FromUrl(dep@.url->0))
            &&& dep@.git is None && dep@.local is None && dep@.url is None
                && m.registries@.len() > 0 && dep@.registry is None && (!installed || reinstall)
                ==> r == Ok::<StepView, Seq<char>>(
                StepView::FromRegistry(m.registries@[0].name@, m.registries@[0].url@, keyed),
            )
            &&& dep@.git is None && dep@.local is Some ==> r is Ok && (r->Ok_0 is Local)
        }),
{
}

/// What is said once everything is installed.
pub fn sync_report(installed: &Vec<String>) -> (r: String)
    ensures
        r@ == (if installed@.len() == 0 {
            "All dependencies already installed."@
        } else {
            "Installed: "@ + pieces::join(pieces::texts(installed@), ", "@)
        }),
{
    if installed.len() == 0 {
        return "All dependencies already installed.".to_owned();
    }
    let mut r = "Installed: ".to_owned();
    r.append(join_texts(installed, ", ").as_str());
    r
}

/// A sync that is under way.
pub struct SyncRun {
    /// What is installed, in its order.
    pub deps: StringMap<DependencyEntry>,
    /// Of each dependency that is done, whether it was skipped.
    pub skipped: Vec<bool>,
    /// Those that were not.
    pub done: Vec<String>,
}

/// The dependencies that a sync did not skip, each with its version.
pub open spec fn run_labels(es: Seq<(String, DependencyEntry)>, skipped: Seq<bool>) -> Seq<
    Seq<char>,
>
    decreases skipped.len(),
{
    if skipped.len() == 0 {
        seq![]
    } else {
        let before = run_labels(es, skipped.drop_last());
        let e = es[skipped.len() - 1];
        if skipped.last() {
            before
        } else {
            before.push(e.0@ + "@"@ + e.1.version@)
        }
    }
}

impl SyncRun {
    pub open spec fn wf(self) -> bool {
        self.skipped@.len() <= self.deps.entries@.len() && pieces::texts(self.done@) == run_labels(
            self.deps.entries@,
            self.skipped@,
        )
    }

    pub fn new(deps: StringMap<DependencyEntry>) -> (r: Self)
        ensures
            r.wf(),
            r.deps == deps,
            r.skipped@.len() == 0,
    {
        let r = SyncRun { deps, skipped: Vec::new(), done: Vec::new() };
        assert(pieces::texts(r.done@) =~= seq![]);
        r
    }

    /// The dependency whose turn it is.
    pub fn current(&self) -> (r: Option<&(String, DependencyEntry)>)
        requires
            self.wf(),
        ensures
            match r {
                Some(e) => self.skipped@.len() < self.deps.entries@.len() && *e
                    == self.deps.entries@[self.skipped@.len() as int],
                None => self.skipped@.len() == self.deps.entries@.len(),
            },
    {
        if self.skipped.len() < self.deps.entries.len() {
            Some(&self.deps.entries[self.skipped.len()])
        } else {
            None
        }
    }

    /// The dependency whose turn it was is installed, or was skipped.
    pub fn finish(&mut self, skipped: bool)
        requires
            old(self).wf(),
            old(self).skipped@.len() < old(self).deps.entries@.len(),
        ensures
            final(self).wf(),
            final(self).deps == old(self).deps,
            final(self).skipped@ == old(self).skipped@.push(skipped),
    {
        let at: usize = self.skipped.len();
        let ghost before = pieces::texts(self.done@);
        if !skipped {
            let mut label = self.deps.entries[at].0.clone();
            label.append("@");
            label.append(self.deps.entries[at].1.version.as_str());
            self.done.push(label);
            assert(pieces::texts(self.done@) =~= before.push(
                self.deps.entries@[at as int].0@ + "@"@ + self.deps.entries@[at as int].1.version@,
            ));
        }
        self.skipped.push(skipped);
        assert(self.skipped@.drop_last() =~= old(self).skipped@);
    }

    /// What is said once everything is installed: what was not skipped.
    pub fn report(&self) -> (r: String)
        requires
            self.wf(),
        ensures
            ({
                let labels = run_labels(self.deps.entries@, self.skipped@);
                r@ == (if labels.len() == 0 {
                    "All dependencies already installed."@
                } else {
                    "Installed: "@ + pieces::join(labels, ", "@)
                })
            }),
    {
        assert(pieces::texts(self.done@).len() == self.done@.len());
        sync_report(&self.done)
    }
}

// ---------------------------------------------------------------------------
// The record of what is installed
// ---------------------------------------------------------------------------

/// The checksums of a bundle, by file.
pub open spec fn sums(m: StringMap<String>) -> Seq<(Seq<char>, Seq<char>)> {
    m.entries@.map_values(|e: (String, String)| (e.0@, e.1@))
}

fn copy_sums(m: &StringMap<String>) -> (r: StringMap<String>)
    ensures
        sums(r) == sums(*m),
{
    let mut v: Vec<(String, String)> = Vec::new();
    let ghost want = sums(*m);
    let mut i: usize = 0;
    while i < m.entries.len()
        invariant
            i <= m.entries@.len(),
            want == sums(*m),
            v@.map_values(|e: (String, String)| (e.0@, e.1@)) == want.take(i as int),
        decreases m.entries.len() - i,
    {
        let ghost before = v@.map_values(|e: (String, String)| (e.0@, e.1@));
        v.push((m.entries[i].0.clone(), m.entries[i].1.clone()));
        proof {
            assert(v@.map_values(|e: (String, String)| (e.0@, e.1@)) =~= before.push(
                want[i as int],
            ));
            assert(want.take(i + 1) =~= want.take(i as int).push(want[i as int]));
        }
        i = i + 1;
    }
    assert(want.take(want.len() as int) =~= want);
    StringMap { entries: v }
}

/// The record of an installed bundle. `found` is what the store has of it.
pub fn installed_lock_entry(
    found: Option<&BundleInfo>,
    name: &str,
    version: &str,
    registry_url: &str,
    signed: bool,
    commit_sha: &Option<String>,
) -> (r: Result<LockEntry, String>)
    ensures
        match r {
            Ok(e) => found is Some && e.name@ == name@ && e.version@ == version@ && e.registry_url@
                == registry_url@ && e.sha256@ == found->0.archive_sha256@ && e.signed == signed
                && sums(e.manifest_checksums) == sums(found->0.manifest.checksums)
                && pieces::opt_text(e.commit_sha) == pieces::opt_text(*commit_sha),
            Err(t) => found is None && t@ == "Installed bundle "@ + name@ + "@"@ + version@
                + " is missing from the bundle store"@,
        },
{
    match found {
        Some(info) => Ok(
            LockEntry {
                name: name.to_owned(),
                version: version.to_owned(),
                registry_url: registry_url.to_owned(),
                sha256: info.archive_sha256.clone(),
                signed,
                manifest_checksums: copy_sums(&info.manifest.checksums),
                commit_sha: copy_opt(commit_sha),
            },
        ),
        None => {
            let mut t = "Installed bundle ".to_owned();
            t.append(name);
            t.append("@");
            t.append(version);
            t.append(" is missing from the bundle store");
            Err(t)
        },
    }
}

/// The entries of packages that are wanted or installed.
pub open spec fn kept_entries(
    ps: Seq<LockEntry>,
    wanted: Seq<Seq<char>>,
    installed: Seq<Seq<char>>,
) -> Seq<LockEntry>
    decreases ps.len(),
{
    if ps.len() == 0 {
        seq![]
    } else {
        let before = kept_entries(ps.drop_last(), wanted, installed);
        if wanted.contains(ps.last().name@) || installed.contains(ps.last().name@) {
            before.push(ps.last())
        } else {
            before
        }
    }
}

/// Forget what is neither wanted nor installed.
pub fn prune_lock(lock: &mut LockFile, wanted: &Vec<String>, installed: &Vec<String>)
    ensures
        final(lock).packages@ == kept_entries(
            old(lock).packages@,
            pieces::texts(wanted@),
            pieces::texts(installed@),
        ),
{
    let ghost all = lock.packages@;
    let ghost w = pieces::texts(wanted@);
    let ghost n = pieces::texts(installed@);
    let mut i: usize = 0;
    let ghost mut j: int = 0;
    proof {
        assert(all.take(0) =~= seq![]);
        assert(lock.packages@ =~= kept_entries(all.take(0), w, n) + all.skip(0));
    }
    while i < lock.packages.len()
        invariant
            0 <= j <= all.len(),
            w == pieces::texts(wanted@),
            n == pieces::texts(installed@),
            i == kept_entries(all.take(j), w, n).len(),
            lock.packages@ == kept_entries(all.take(j), w, n) + all.skip(j),
        decreases lock.packages@.len() - i,
    {
        let ghost kept = kept_entries(all.take(j), w, n);
        proof {
            assert(lock.packages@[i as int] == all.skip(j)[0]);
            assert(all.take(j + 1).drop_last() =~= all.take(j));
            assert(all.take(j + 1).last() == all[j]);
        }
        let name = lock.packages[i].name.as_str();
        let keep = has_member(wanted, name) || has_member(installed, name);
        if keep {
            i = i + 1;
            proof {
                assert(lock.packages@ =~= kept.push(all[j]) + all.skip(j + 1));
            }
        } else {
            let _ = lock.packages.remove(i);
            proof {
                assert(lock.packages@ =~= kept + all.skip(j + 1));
            }
        }
        proof {
            j = j + 1;
        }
    }
    proof {
        assert(all.skip(j).len() == 0);
        assert(all.take(j) =~= all);
        assert(lock.packages@ =~= kept_entries(all, w, n));
    }
}

/// What is wanted or installed keeps its record, and the record of anything else is gone.
pub proof fn wanted_records_are_kept(
    ps: Seq<LockEntry>,
    wanted: Seq<Seq<char>>,
    installed: Seq<Seq<char>>,
)
    ensures
        forall|e: LockEntry|
            #[trigger] kept_entries(ps, wanted, installed).contains(e) <==> ps.contains(e) && (
            wanted.contains(e.name@) || installed.contains(e.name@)),
    decreases ps.len(),
{
    if ps.len() > 0 {
        let t = ps.drop_last();
        wanted_records_are_kept(t, wanted, installed);
        let before = kept_entries(t, wanted, installed);
        let after = kept_entries(ps, wanted, installed);
        assert forall|e: LockEntry| #[trigger] after.contains(e) <==> ps.contains(e) && (
        wanted.contains(e.name@) || installed.contains(e.name@)) by {
            let good = wanted.contains(e.name@) || installed.contains(e.name@);
            if after.contains(e) {
                let i = choose|i: int| 0 <= i < after.len() && after[i] == e;
                if i < before.len() {
                    assert(before[i] == e);
                    assert(before.contains(e));
                    let k = choose|k: int| 0 <= k < t.len() && t[k] == e;
                    assert(ps[k] == e);
                } else {
                    assert(ps[ps.len() - 1] == e);
                }
            }
            if ps.contains(e) && good {
                let k = choose|k: int| 0 <= k < ps.len() && ps[k] == e;
                if k < t.len() {
                    assert(t[k] == e);
                    assert(before.contains(e));
                    let i = choose|i: int| 0 <= i < before.len() && before[i] == e;
                    assert(after[i] == e);
                } else {
                    assert(after[before.len() as int] == e);
                }
            }
        }
    }
}

// ---------------------------------------------------------------------------
// The dependency that a workspace is itself
// ---------------------------------------------------------------------------

/// A dependency on a local directory.
#[derive(Debug, Clone)]
pub struct LocalDep {
    pub name: String,
    pub group: Option<String>,
    /// The path as it is recorded.
    pub recorded: String,
    /// The path, taken from the workspace.
    pub path: String,
}

pub ghost struct LocalDepView {
    pub name: Seq<char>,
    pub group: Option<Seq<char>>,
    pub recorded: Seq<char>,
    pub path: Seq<char>,
}

impl View for LocalDep {
    type V = LocalDepView;

    open spec fn view(&self) -> LocalDepView {
        LocalDepView {
            name: self.name@,
            group: pieces::opt_text(self.group),
            recorded: self.recorded@,
            path: self.path@,
        }
    }
}

pub open spec fn local_views(v: Seq<LocalDep>) -> Seq<LocalDepView> {
    v.map_values(|d: LocalDep| d@)
}

/// The dependencies on local directories among some.
pub open spec fn locals_of(
    es: Seq<(String, DependencyEntry)>,
    group: Option<Seq<char>>,
    workspace: Seq<char>,
) -> Seq<LocalDepView>
    decreases es.len(),
{
    if es.len() == 0 {
        seq![]
    } else {
        let before = locals_of(es.drop_last(), group, workspace);
        match es.last().1@.local {
            Some(p) => before.push(
                LocalDepView {
                    name: es.last().0@,
                    group,
                    recorded: p,
                    path: paths::joined(workspace, p),
                },
            ),
            None => before,
        }
    }
}

/// The dependencies on local directories among those of groups.
pub open spec fn group_locals(
    gs: Seq<(String, StringMap<DependencyEntry>)>,
    workspace: Seq<char>,
) -> Seq<LocalDepView>
    decreases gs.len(),
{
    if gs.len() == 0 {
        seq![]
    } else {
        group_locals(gs.drop_last(), workspace) + locals_of(
            gs.last().1.entries@,
            Some(gs.last().0@),
            workspace,
        )
    }
}

fn push_locals(
    r: &mut Vec<LocalDep>,
    m: &StringMap<DependencyEntry>,
    group: Option<&str>,
    workspace: &str,
)
    ensures
        local_views(final(r)@) == local_views(old(r)@) + locals_of(
            m.entries@,
            pieces::opt_str(group),
            workspace@,
        ),
{
    let ghost before = local_views(r@);
    let ghost es = m.entries@;
    let ghost g = pieces::opt_str(group);
    let mut i: usize = 0;
    proof {
        assert(es.take(0) =~= seq![]);
        assert(local_views(r@) =~= before + locals_of(es.take(0), g, workspace@));
    }
    while i < m.entries.len()
        invariant
            i <= es.len(),
            es == m.entries@,
            g == pieces::opt_str(group),
            local_views(r@) == before + locals_of(es.take(i as int), g, workspace@),
        decreases m.entries.len() - i,
    {
        let e = &m.entries[i];
        proof {
            assert(es.take(i + 1).drop_last() =~= es.take(i as int));
            assert(es.take(i + 1).last() == es[i as int]);
        }
        let ghost sofar = local_views(r@);
        match &e.1.local {
            Some(p) => {
                let d = LocalDep {
                    name: e.0.clone(),
                    group: match group {
                        Some(x) => Some(x.to_owned()),
                        None => None,
                    },
                    recorded: p.clone(),
                    path: join_path(workspace, p.as_str()),
                };
                let ghost dv = d@;
                r.push(d);
                proof {
                    assert(local_views(r@) =~= sofar.push(dv));
                    assert(local_views(r@) =~= before + locals_of(es.take(i + 1), g, workspace@));
                }
            },
            None => {},
        }
        i = i + 1;
    }
    assert(es.take(es.len() as int) =~= es);
}

/// The dependencies of a manifest on local directories: those that are always installed,
/// then those of the groups.
pub fn local_dependencies(mf: &WorkspaceManifest, workspace: &str) -> (r: Vec<LocalDep>)
    ensures
        local_views(r@) == locals_of(mf.dependencies.entries@, None, workspace@) + group_locals(
            mf.dependency_groups.entries@,
            workspace@,
        ),
{
    let mut r: Vec<LocalDep> = Vec::new();
    push_locals(&mut r, &mf.dependencies, None, workspace);
    let ghost head = locals_of(mf.dependencies.entries@, None, workspace@);
    let ghost gs = mf.dependency_groups.entries@;
    let mut i: usize = 0;
    proof {
        assert(local_views(r@) =~= head);
        assert(gs.take(0) =~= seq![]);
        assert(local_views(r@) =~= head + group_locals(gs.take(0), workspace@));
    }
    while i < mf.dependency_groups.entries.len()
        invariant
            i <= gs.len(),
            gs == mf.dependency_groups.entries@,
            local_views(r@) == head + group_locals(gs.take(i as int), workspace@),
        decreases mf.dependency_groups.entries.len() - i,
    {
        proof {
            assert(gs.take(i + 1).drop_last() =~= gs.take(i as int));
            assert(gs.take(i + 1).last() == gs[i as int]);
        }
        let e = &mf.dependency_groups.entries[i];
        let ghost sofar = local_views(r@);
        push_locals(&mut r, &e.1, Some(e.0.as_str()), workspace);
        proof {
            assert(local_views(r@) =~= head + group_locals(gs.take(i + 1), workspace@));
        }
        i = i + 1;
    }
    assert(gs.take(gs.len() as int) =~= gs);
    r
}

/// The places of the paths that are the workspace.
pub open spec fn own_places(canonical: Seq<Option<String>>, workspace: Seq<char>) -> Seq<int>
    decreases canonical.len(),
{
    if canonical.len() == 0 {
        seq![]
    } else {
        let before = own_places(canonical.drop_last(), workspace);
        if pieces::opt_text(canonical.last()) == Some(workspace) {
            before.push(canonical.len() - 1)
        } else {
            before
        }
    }
}

/// A dependency by its name, and by its group where it has one.
pub open spec fn dep_label(d: LocalDepView) -> Seq<char> {
    match d.group {
        Some(g) => d.name + " (group "@ + g + ")"@,
        None => d.name,
    }
}

/// The first path that could not be found, or the number of paths.
pub open spec fn first_lost(canonical: Seq<Option<String>>) -> int
    decreases canonical.len(),
{
    if canonical.len() == 0 || canonical[0] is None {
        0
    } else {
        1 + first_lost(canonical.drop_first())
    }
}

/// The one dependency that is the workspace, or why there is not one.
pub open spec fn own_dependency(
    ds: Seq<LocalDepView>,
    canonical: Seq<Option<String>>,
    workspace: Seq<char>,
) -> Result<int, Seq<char>> {
    let lost = first_lost(canonical);
    let own = own_places(canonical, workspace);
    if lost < canonical.len() {
        Err(
            "Failed to canonicalize local dependency path '"@ + ds[lost].recorded
                + "' recorded in sempkg.toml"@,
        )
    } else if own.len() == 0 {
        Err(
            "No local dependency in sempkg.toml points at '"@ + workspace
                + "'. Add this workspace first with `sempkg add .`."@,
        )
    } else if own.len() == 1 {
        Ok(own[0])
    } else {
        Err(
            "Multiple local dependencies point at '"@ + workspace + "': "@ + pieces::join(
                own.map_values(|i: int| dep_label(ds[i])),
                ", "@,
            )
                + ". Remove duplicates or keep only one local workspace entry before running `sempkg refresh`."@,
        )
    }
}

fn show_dep(d: &LocalDep) -> (r: String)
    ensures
        r@ == dep_label(d@),
{
    let mut r = d.name.clone();
    match &d.group {
        Some(g) => {
            r.append(" (group ");
            r.append(g.as_str());
            r.append(")");
        },
        None => {},
    }
    r
}

/// Find the one dependency that is the workspace itself. `canonical` is the canonical path
/// of each dependency, where there is one.
pub fn find_local_dependency_for_workspace(
    ds: &Vec<LocalDep>,
    canonical: &Vec<Option<String>>,
    workspace: &str,
) -> (r: Result<usize, String>)
    requires
        ds@.len() == canonical@.len(),
    ensures
        match r {
            Ok(i) => own_dependency(local_views(ds@), canonical@, workspace@) == Ok::<
                int,
                Seq<char>,
            >(i as int) && i < ds@.len(),
            Err(e) => own_dependency(local_views(ds@), canonical@, workspace@) == Err::<
                int,
                Seq<char>,
            >(e@),
        },
{
    let ghost dv = local_views(ds@);
    let mut own: Vec<usize> = Vec::new();
    let mut names: Vec<String> = Vec::new();
    let mut i: usize = 0;
    proof {
        assert(canonical@.take(0) =~= seq![]);
        assert(canonical@.skip(0) =~= canonical@);
        assert(rank::places(own@) =~= seq![]);
        assert(pieces::texts(names@) =~= rank::places(own@).map_values(|k: int| dep_label(dv[k])));
    }
    while i < canonical.len()
        invariant
            i <= canonical@.len(),
            ds@.len() == canonical@.len(),
            dv == local_views(ds@),
            first_lost(canonical@) == i + first_lost(canonical@.skip(i as int)),
            rank::places(own@) == own_places(canonical@.take(i as int), workspace@),
            pieces::texts(names@) == rank::places(own@).map_values(|k: int| dep_label(dv[k])),
            forall|k: int| 0 <= k < own@.len() ==> #[trigger] own@[k] < ds@.len(),
        decreases canonical.len() - i,
    {
        proof {
            assert(canonical@.skip(i as int)[0] == canonical@[i as int]);
            assert(canonical@.skip(i as int).drop_first() =~= canonical@.skip(i + 1));
            assert(canonical@.take(i + 1).drop_last() =~= canonical@.take(i as int));
            assert(canonical@.take(i + 1).last() == canonical@[i as int]);
            assert(dv[i as int] == ds@[i as int]@);
        }
        match &canonical[i] {
            None => {
                let mut e = "Failed to canonicalize local dependency path '".to_owned();
                e.append(ds[i].recorded.as_str());
                e.append("' recorded in sempkg.toml");
                return Err(e);
            },
            Some(p) => {
                if same_text(p.as_str(), workspace) {
                    let ghost before = rank::places(own@);
                    let ghost named = pieces::texts(names@);
                    own.push(i);
                    names.push(show_dep(&ds[i]));
                    proof {
                        assert(rank::places(own@) =~= before.push(i as int));
                        assert(pieces::texts(names@) =~= named.push(dep_label(dv[i as int])));
                        assert(pieces::texts(names@) =~= rank::places(own@).map_values(
                            |k: int| dep_label(dv[k]),
                        ));
                    }
                }
            },
        }
        i = i + 1;
    }
    proof {
        assert(canonical@.skip(i as int).len() == 0);
        assert(canonical@.take(canonical@.len() as int) =~= canonical@);
        assert(rank::places(own@).len() == own@.len());
    }
    if own.len() == 1 {
        assert(rank::places(own@)[0] == own@[0]);
        return Ok(own[0]);
    }
    if own.len() == 0 {
        let mut e = "No local dependency in sempkg.toml points at '".to_owned();
        e.append(workspace);
        e.append("'. Add this workspace first with `sempkg add .`.");
        return Err(e);
    }
    let mut e = "Multiple local dependencies point at '".to_owned();
    e.append(workspace);
    e.append("': ");
    e.append(join_texts(&names, ", ").as_str());
    e.append(
        ". Remove duplicates or keep only one local workspace entry before running `sempkg refresh`.",
    );
    Err(e)
}

// ---------------------------------------------------------------------------
// What adding and removing come to
// ---------------------------------------------------------------------------

/// What is asked for is added: that version, from the address that is given, else from the
/// registry whose address is given, else from the registry that is named, else from the
/// first. Nothing else is said of the dependency.
pub proof fn what_is_asked_for_is_added(m: WorkspaceManifest, version: Seq<char>, o: AddOptions)
    ensures
        ({
            let d = added_dep(m, version, o);
            &&& d.version == version
            &&& d.url == pieces::opt_text(o.url)
            &&& d.description == pieces::opt_text(o.description)
            &&& d.git is None && d.git_ref is None && d.subdir is None && d.local is None
            &&& !d.full && !d.include_source && d.source_glob is None
            &&& d.source_dirs.len() == 0 && d.docs_dirs.len() == 0 && d.exclude_dirs.len() == 0
            &&& o.url is Some ==> d.registry is None
            &&& o.url is None && o.registry is Some ==> d.registry == Some(o.registry->0@)
            &&& o.url is None && o.registry is None && o.registry_url is Some ==> d.registry == Some(
                "default"@,
            )
            &&& o.url is None && o.registry is None && o.registry_url is None
                && m.registries@.len() > 0 ==> d.registry == Some(m.registries@[0].name@)
        }),
{
}

/// Adding keeps every registry that there is, in its place. A registry is recorded only
/// where its address is given, and then the dependency finds it by its name.
pub proof fn registries_are_recorded(m: WorkspaceManifest, version: Seq<char>, o: AddOptions)
    ensures
        ({
            let after = added_registries(m, o);
            let before = m.registries@;
            &&& before.len() <= after.len() <= before.len() + 1
            &&& forall|i: int|
                0 <= i < before.len() ==> #[trigger] after[i] == (before[i].name@, before[i].url@)
            &&& (o.url is Some || o.registry_url is None) ==> after.len() == before.len()
            &&& o.url is None && o.registry_url is Some ==> exists|i: int|
                0 <= i < after.len() && Some((#[trigger] after[i]).0) == added_dep(m, version, o).registry
            &&& after.len() > before.len() ==> after.last().1 == registry::base(o.registry_url->0@) && (
            forall|i: int| 0 <= i < before.len() ==> (#[trigger] before[i]).name@ != after.last().0)
        }),
{
    let n = registry_label(pieces::opt_text(o.registry));
    let after = added_registries(m, o);
    manifest::registries_are_found_by_name(m.registries@, n);
    if o.url is None && o.registry_url is Some {
        match manifest::registry_named(m.registries@, n) {
            Some(r) => {
                let i = choose|i: int| 0 <= i < m.registries@.len() && #[trigger] m.registries@[i] == r;
                assert(after[i].0 == n);
            },
            None => {
                assert(after[after.len() - 1].0 == n);
            },
        }
    }
}

/// A dependency that was put into a group is in that group as it was put in, and no other
/// dependency changed.
pub proof fn a_grouped_dependency_is_in_its_group(
    old_m: WorkspaceManifest,
    new_m: WorkspaceManifest,
    name: Seq<char>,
    d: DependencyView,
    group: Seq<char>,
    other: Seq<char>,
)
    requires
        has_inserted(old_m, new_m, name, d, Some(group)),
    ensures
        new_m.dependency_groups@.contains_key(group),
        new_m.dependency_groups@[group]@.contains_key(name),
        d.description is Some ==> new_m.dependency_groups@[group]@[name]@ == d,
        new_m.dependency_groups@[group]@[name]@.version == d.version,
        new_m.dependencies == old_m.dependencies,
        other != group && old_m.dependency_groups@.contains_key(other)
            ==> new_m.dependency_groups@.contains_key(other) && new_m.dependency_groups@[other]
            == old_m.dependency_groups@[other],
        other != name && old_m.dependency_groups@.contains_key(group)
            && old_m.dependency_groups@[group]@.contains_key(other)
            ==> new_m.dependency_groups@[group]@.contains_key(other)
            && new_m.dependency_groups@[group]@[other]@
            == old_m.dependency_groups@[group]@[other]@,
{
    let g = group_deps(new_m, group);
    assert(g.contains_key(name));
    assert(g[name] == described(old_m, name, d));
    assert(new_m.dependency_groups@[group]@.contains_key(name));
    if other != group && old_m.dependency_groups@.contains_key(other) {
        assert(old_m.dependency_groups@.remove(group).contains_key(other));
        assert(old_m.dependency_groups@.remove(group)[other] == old_m.dependency_groups@[other]);
        assert(new_m.dependency_groups@.remove(group).contains_key(other));
        assert(new_m.dependency_groups@.remove(group)[other] == new_m.dependency_groups@[other]);
    }
    if other != name && old_m.dependency_groups@.contains_key(group)
        && old_m.dependency_groups@[group]@.contains_key(other) {
        assert(group_deps(old_m, group).contains_key(other));
        assert(g.contains_key(other));
        assert(g[other] == group_deps(old_m, group)[other]);
        assert(new_m.dependency_groups@[group]@.contains_key(other));
    }
}

/// A dependency that was taken out is gone, and every other is still there.
pub proof fn a_removed_dependency_is_gone(
    old_m: WorkspaceManifest,
    new_m: WorkspaceManifest,
    name: Seq<char>,
    group: Option<Seq<char>>,
    other: Seq<char>,
)
    requires
        has_removed(old_m, new_m, name, group),
    ensures
        match group {
            None => !new_m.dependencies@.contains_key(name) && new_m.dependency_groups
                == old_m.dependency_groups && (other != name && old_m.dependencies@.contains_key(
                other,
            ) ==> new_m.dependencies@.contains_key(other) && new_m.dependencies@[other]
                == old_m.dependencies@[other]),
            Some(g) => !new_m.dependency_groups@[g]@.contains_key(name) && new_m.dependencies
                == old_m.dependencies && (other != name && old_m.dependency_groups@.contains_key(g)
                && old_m.dependency_groups@[g]@.contains_key(other)
                ==> new_m.dependency_groups@[g]@.contains_key(other)
                && new_m.dependency_groups@[g]@[other]@ == old_m.dependency_groups@[g]@[other]@),
        },
{
    match group {
        None => {},
        Some(g) => {
            let after = group_deps(new_m, g);
            let before = group_deps(old_m, g);
            assert(!after.contains_key(name));
            if new_m.dependency_groups@[g]@.contains_key(name) {
                assert(after.contains_key(name));
            }
            if other != name && old_m.dependency_groups@.contains_key(g)
                && old_m.dependency_groups@[g]@.contains_key(other) {
                assert(before.contains_key(other));
                assert(after.contains_key(other));
                assert(after[other] == before[other]);
                assert(new_m.dependency_groups@[g]@.contains_key(other));
            }
        },
    }
}

/// What was put in can be taken out again, and then the dependencies are as they were.
pub proof fn removing_undoes_adding(
    a: WorkspaceManifest,
    b: WorkspaceManifest,
    c: WorkspaceManifest,
    name: Seq<char>,
    d: DependencyView,
)
    requires
        has_inserted(a, b, name, d, None),
        has_removed(b, c, name, None),
        !a.dependencies@.contains_key(name),
    ensures
        manifest::dep_views(c.dependencies@) == manifest::dep_views(a.dependencies@),
        c.dependency_groups == a.dependency_groups,
{
    let va = manifest::dep_views(a.dependencies@);
    let vb = manifest::dep_views(b.dependencies@);
    let vc = manifest::dep_views(c.dependencies@);
    assert(!va.contains_key(name));
    assert(vc =~= vb.remove(name));
    assert(vb.remove(name) =~= va);
}

/// What a sync reports is what it did not skip: each such dependency by its name and its
/// version, in the order in which they came, and nothing else.
pub proof fn what_was_installed_is_reported(
    es: Seq<(String, DependencyEntry)>,
    skipped: Seq<bool>,
    more: bool,
)
    requires
        skipped.len() < es.len(),
    ensures
        run_labels(es, seq![]).len() == 0,
        run_labels(es, skipped.push(more)) == if more {
            run_labels(es, skipped)
        } else {
            run_labels(es, skipped).push(
                es[skipped.len() as int].0@ + "@"@ + es[skipped.len() as int].1.version@,
            )
        },
{
    assert(skipped.push(more).drop_last() =~= skipped);
}

/// Records are kept or dropped one by one, and stay in their order.
pub proof fn records_are_pruned_one_by_one(
    a: Seq<LockEntry>,
    b: Seq<LockEntry>,
    wanted: Seq<Seq<char>>,
    installed: Seq<Seq<char>>,
    e: LockEntry,
)
    ensures
        kept_entries(a + b, wanted, installed) == kept_entries(a, wanted, installed) + kept_entries(
            b,
            wanted,
            installed,
        ),
        kept_entries(seq![e], wanted, installed) == if wanted.contains(e.name@) || installed.contains(
            e.name@,
        ) {
            seq![e]
        } else {
            seq![]
        },
    decreases b.len(),
{
    let one = seq![e];
    assert(one.drop_last() =~= seq![]);
    assert(kept_entries(seq![], wanted, installed) =~= seq![]);
    assert(seq![].push(e) =~= one);
    if b.len() == 0 {
        assert(a + b =~= a);
        assert(kept_entries(a, wanted, installed) + seq![] =~= kept_entries(a, wanted, installed));
    } else {
        let t = b.drop_last();
        records_are_pruned_one_by_one(a, t, wanted, installed, e);
        assert((a + b).drop_last() =~= a + t);
        let ka = kept_entries(a, wanted, installed);
        assert(ka + kept_entries(t, wanted, installed).push(b.last()) =~= (ka + kept_entries(
            t,
            wanted,
            installed,
        )).push(b.last()));
    }
}

/// Every dependency on a directory is found, with its group and its path, and no other.
pub proof fn local_dependencies_are_found(
    es: Seq<(String, DependencyEntry)>,
    group: Option<Seq<char>>,
    workspace: Seq<char>,
)
    ensures
        forall|i: int|
            0 <= i < es.len() && (#[trigger] es[i]).1@.local is Some ==> exists|j: int|
                0 <= j < locals_of(es, group, workspace).len() && is_local(
                    #[trigger] locals_of(es, group, workspace)[j],
                    es[i],
                    group,
                    workspace,
                ),
        forall|j: int|
            0 <= j < locals_of(es, group, workspace).len() ==> exists|i: int|
                0 <= i < es.len() && is_local(
                    #[trigger] locals_of(es, group, workspace)[j],
                    #[trigger] es[i],
                    group,
                    workspace,
                ),
    decreases es.len(),
{
    if es.len() > 0 {
        let t = es.drop_last();
        local_dependencies_are_found(t, group, workspace);
        let before = locals_of(t, group, workspace);
        let after = locals_of(es, group, workspace);
        assert forall|i: int| 0 <= i < es.len() && (#[trigger] es[i]).1@.local is Some implies exists|
            j: int,
        |
            0 <= j < after.len() && is_local(#[trigger] after[j], es[i], group, workspace) by {
            if i < t.len() {
                assert(t[i] == es[i]);
                let j = choose|j: int|
                    0 <= j < before.len() && is_local(
                        #[trigger] before[j],
                        t[i],
                        group,
                        workspace,
                    );
                assert(after[j] == before[j]);
            } else {
                assert(is_local(after[before.len() as int], es[i], group, workspace));
            }
        }
        assert forall|j: int| 0 <= j < after.len() implies exists|i: int|
            0 <= i < es.len() && is_local(#[trigger] after[j], #[trigger] es[i], group, workspace) by {
            if j < before.len() {
                assert(after[j] == before[j]);
                let i = choose|i: int|
                    0 <= i < t.len() && is_local(before[j], #[trigger] t[i], group, workspace);
                assert(es[i] == t[i]);
            } else {
                assert(is_local(after[j], es[es.len() - 1], group, workspace));
            }
        }
    }
}

/// A local dependency is what an entry says.
pub open spec fn is_local(
    d: LocalDepView,
    e: (String, DependencyEntry),
    group: Option<Seq<char>>,
    workspace: Seq<char>,
) -> bool {
    d.name == e.0@ && d.group == group && Some(d.recorded) == e.1@.local && d.path == paths::joined(
        workspace,
        d.recorded,
    )
}

proof fn lemma_own_places(canonical: Seq<Option<String>>, workspace: Seq<char>)
    ensures
        forall|i: int|
            own_places(canonical, workspace).contains(i) <==> 0 <= i < canonical.len()
                && pieces::opt_text(#[trigger] canonical[i]) == Some(workspace),
        forall|a: int, b: int|
            0 <= a < b < own_places(canonical, workspace).len() ==> own_places(
                canonical,
                workspace,
            )[a] < own_places(canonical, workspace)[b],
    decreases canonical.len(),
{
    if canonical.len() > 0 {
        let t = canonical.drop_last();
        let last = canonical.len() - 1;
        lemma_own_places(t, workspace);
        let before = own_places(t, workspace);
        let after = own_places(canonical, workspace);
        assert forall|i: int|
            after.contains(i) <==> 0 <= i < canonical.len() && pieces::opt_text(
                #[trigger] canonical[i],
            ) == Some(workspace) by {
            if after.contains(i) {
                let k = choose|k: int| 0 <= k < after.len() && after[k] == i;
                if k < before.len() {
                    assert(before[k] == i);
                    assert(before.contains(i));
                    assert(t[i] == canonical[i]);
                }
            }
            if 0 <= i < canonical.len() && pieces::opt_text(canonical[i]) == Some(workspace) {
                if i < last {
                    assert(t[i] == canonical[i]);
                    assert(before.contains(i));
                    let k = choose|k: int| 0 <= k < before.len() && before[k] == i;
                    assert(after[k] == i);
                } else {
                    assert(after[before.len() as int] == i);
                }
            }
        }
        assert forall|a: int, b: int| 0 <= a < b < after.len() implies after[a] < after[b] by {
            assert(after[a] == before[a]);
            assert(before.contains(before[a]));
            assert(pieces::opt_text(t[before[a]]) == Some(workspace));
            if b < before.len() {
                assert(after[b] == before[b]);
            }
        }
    } else {
        assert forall|i: int|
            own_places(canonical, workspace).contains(i) <==> 0 <= i < canonical.len()
                && pieces::opt_text(#[trigger] canonical[i]) == Some(workspace) by {}
    }
}

proof fn lemma_first_lost(canonical: Seq<Option<String>>)
    ensures
        0 <= first_lost(canonical) <= canonical.len(),
        first_lost(canonical) < canonical.len() ==> canonical[first_lost(canonical)] is None,
        forall|i: int| 0 <= i < first_lost(canonical) ==> (#[trigger] canonical[i]) is Some,
    decreases canonical.len(),
{
    if canonical.len() > 0 && canonical[0] is Some {
        let t = canonical.drop_first();
        lemma_first_lost(t);
        assert forall|i: int| 0 <= i < first_lost(canonical) implies (#[trigger] canonical[i])
            is Some by {
            if i > 0 {
                assert(canonical[i] == t[i - 1]);
            }
        }
    }
}

/// The workspace's own dependency is found just where there is one and only one: every path
/// is there, and a single one of them is the workspace.
pub proof fn the_one_own_dependency_is_found(
    ds: Seq<LocalDepView>,
    canonical: Seq<Option<String>>,
    workspace: Seq<char>,
    i: int,
)
    ensures
        own_dependency(ds, canonical, workspace) == Ok::<int, Seq<char>>(i) <==> {
            &&& 0 <= i < canonical.len()
            &&& pieces::opt_text(canonical[i]) == Some(workspace)
            &&& forall|j: int| 0 <= j < canonical.len() ==> (#[trigger] canonical[j]) is Some
            &&& forall|j: int|
                0 <= j < canonical.len() && pieces::opt_text(#[trigger] canonical[j]) == Some(
                    workspace,
                ) ==> j == i
        },
{
    lemma_own_places(canonical, workspace);
    lemma_first_lost(canonical);
    let own = own_places(canonical, workspace);
    if own_dependency(ds, canonical, workspace) == Ok::<int, Seq<char>>(i) {
        assert(own.contains(own[0]));
        assert forall|j: int|
            0 <= j < canonical.len() && pieces::opt_text(#[trigger] canonical[j]) == Some(
                workspace,
            ) implies j == i by {
            assert(own.contains(j));
        }
    }
    if 0 <= i < canonical.len() && pieces::opt_text(canonical[i]) == Some(workspace) && (forall|
        j: int,
    |
        0 <= j < canonical.len() ==> (#[trigger] canonical[j]) is Some) && (forall|j: int|
        0 <= j < canonical.len() && pieces::opt_text(#[trigger] canonical[j]) == Some(workspace)
            ==> j == i) {
        assert(own.contains(i));
        if own.len() > 1 {
            assert(own.contains(own[0]) && own.contains(own[1]));
            assert(own[0] < own[1]);
            assert(canonical[own[0]] is Some && canonical[own[1]] is Some);
        }
        assert(own.contains(own[0]));
        assert(canonical[own[0]] is Some);
    }
}

/// Of a dependency on a bundle nothing is recorded but its version and where it comes from.
pub proof fn bundles_are_recorded_by_where_they_come_from(
    version: Seq<char>,
    registry: Option<Seq<char>>,
    url: Option<Seq<char>>,
    description: Option<Seq<char>>,
)
    ensures
        ({
            let d = bundle_dep(version, registry, url, description);
            &&& d.version == version && d.registry == registry && d.url == url
            &&& d.description == description
            &&& d.git is None && d.git_ref is None && d.subdir is None && d.local is None
            &&& !d.full && !d.include_source && d.source_glob is None
            &&& d.source_dirs.len() == 0 && d.docs_dirs.len() == 0 && d.exclude_dirs.len() == 0
        }),
{
}

/// Local dependencies of groups are found group by group, each with the group that it is in.
pub proof fn grouped_directories_are_found(
    a: Seq<(String, StringMap<DependencyEntry>)>,
    b: Seq<(String, StringMap<DependencyEntry>)>,
    g: (String, StringMap<DependencyEntry>),
    workspace: Seq<char>,
)
    ensures
        group_locals(a + b, workspace) == group_locals(a, workspace) + group_locals(b, workspace),
        group_locals(seq![g], workspace) == locals_of(g.1.entries@, Some(g.0@), workspace),
    decreases b.len(),
{
    reveal_with_fuel(group_locals, 2);
    assert(seq![g].drop_last() =~= Seq::<(String, StringMap<DependencyEntry>)>::empty());
    let own = locals_of(g.1.entries@, Some(g.0@), workspace);
    assert(Seq::<LocalDepView>::empty() + own =~= own);
    if b.len() == 0 {
        assert(a + b =~= a);
        assert(group_locals(a, workspace) + group_locals(b, workspace) =~= group_locals(
            a,
            workspace,
        ));
    } else {
        let t = b.drop_last();
        grouped_directories_are_found(a, t, g, workspace);
        assert((a + b).drop_last() =~= a + t);
        let x = group_locals(a, workspace);
        let y = group_locals(t, workspace);
        let z = locals_of(b.last().1.entries@, Some(b.last().0@), workspace);
        assert(x + y + z =~= x + (y + z));
    }
}

/// Directories among dependencies are found one by one, each below the workspace as it was
/// recorded.
pub proof fn directories_are_found_one_by_one(
    a: Seq<(String, DependencyEntry)>,
    b: Seq<(String, DependencyEntry)>,
    e: (String, DependencyEntry),
    group: Option<Seq<char>>,
    workspace: Seq<char>,
)
    ensures
        locals_of(a + b, group, workspace) == locals_of(a, group, workspace) + locals_of(
            b,
            group,
            workspace,
        ),
        match e.1@.local {
            Some(p) => locals_of(seq![e], group, workspace) == seq![
                LocalDepView {
                    name: e.0@,
                    group,
                    recorded: p,
                    path: paths::joined(workspace, p),
                },
            ],
            None => locals_of(seq![e], group, workspace).len() == 0,
        },
    decreases b.len(),
{
    reveal_with_fuel(locals_of, 2);
    assert(seq![e].drop_last() =~= Seq::<(String, DependencyEntry)>::empty());
    match e.1@.local {
        Some(p) => {
            assert(locals_of(seq![e], group, workspace) =~= seq![
                LocalDepView {
                    name: e.0@,
                    group,
                    recorded: p,
                    path: paths::joined(workspace, p),
                },
            ]);
        },
        None => {},
    }
    if b.len() == 0 {
        assert(a + b =~= a);
        assert(locals_of(a, group, workspace) + locals_of(b, group, workspace) =~= locals_of(
            a,
            group,
            workspace,
        ));
    } else {
        let t = b.drop_last();
        directories_are_found_one_by_one(a, t, e, group, workspace);
        assert((a + b).drop_last() =~= a + t);
        let x = locals_of(a, group, workspace);
        let y = locals_of(t, group, workspace);
        match b.last().1@.local {
            Some(p) => {
                let d = LocalDepView {
                    name: b.last().0@,
                    group,
                    recorded: p,
                    path: paths::joined(workspace, p),
                };
                assert((x + y).push(d) =~= x + y.push(d));
            },
            None => {},
        }
    }
}

/// A group that nothing was added to or removed from stays as it was.
pub proof fn other_groups_stay(
    old_m: WorkspaceManifest,
    new_m: WorkspaceManifest,
    name: Seq<char>,
    d: DependencyView,
    group: Seq<char>,
    other: Seq<char>,
)
    requires
        has_removed(old_m, new_m, name, Some(group)) || has_inserted(
            old_m,
            new_m,
            name,
            d,
            Some(group),
        ),
        other != group,
    ensures
        old_m.dependency_groups@.contains_key(other) == new_m.dependency_groups@.contains_key(
            other,
        ),
        old_m.dependency_groups@.contains_key(other) ==> new_m.dependency_groups@[other]
            == old_m.dependency_groups@[other],
        new_m.dependencies == old_m.dependencies,
{
    let a = old_m.dependency_groups@.remove(group);
    let b = new_m.dependency_groups@.remove(group);
    assert(a.contains_key(other) == old_m.dependency_groups@.contains_key(other));
    assert(b.contains_key(other) == new_m.dependency_groups@.contains_key(other));
    if old_m.dependency_groups@.contains_key(other) {
        assert(a[other] == b[other]);
    }
}

/// What is no dependency stays the same: every section of a manifest but the dependencies and
/// the registries.
pub proof fn settings_stay(a: WorkspaceManifest, b: WorkspaceManifest)
    requires
        same_settings(a, b),
    ensures
        a.workspace == b.workspace,
        a.packages == b.packages,
        a.reranker == b.reranker,
        a.embedding == b.embedding,
        a.query_expansion == b.query_expansion,
{
}

/// A dependency has nowhere to come from just where no address is given and the workspace has
/// no registry.
pub proof fn a_registry_is_enough(m: WorkspaceManifest, o: AddOptions)
    ensures
        o.url is Some ==> !lacks_registry(m, o),
        o.registry_url is Some ==> !lacks_registry(m, o),
        m.registries@.len() > 0 ==> !lacks_registry(m, o),
        o.url is None && o.registry_url is None && m.registries@.len() == 0 ==> lacks_registry(
            m,
            o,
        ),
{
}

} // verus!
