//! The workspace manifest and its lock: what a workspace depends on, and what was
//! installed for it.

use vstd::prelude::*;

use crate::embedding::EmbeddingConfig;
use crate::paths;
use crate::paths::join_path;
use crate::pieces;
use crate::pieces::{copy_opt, copy_texts};
use crate::query_expansion::QueryExpansionConfig;
use crate::reranker::RerankerConfig;
use crate::strmap;
use crate::strmap::StringMap;
use crate::text;
use crate::text::{
    chars_of, same_text, string_of, strip_front, trim_end_text, CharClass,
};
use crate::toml_doc;
use crate::toml_doc::{
    array_push, array_value, copy_section, flag_value, inline_insert, inline_value, new_array,
    new_doc, new_inline, new_rows, new_table, number_value, parse_doc, root_table, rows_item,
    rows_push, set_setting, show_doc, table_insert, table_item, table_remove, takes_rows,
    text_value, value_item, TomlNode,
};
use crate::toml_layout;
use crate::toml_layout::Layout;

verus! {

/// The manifest's file name.
pub const MANIFEST_FILE: &'static str = "sempkg.toml";

/// The lock's file name.
pub const LOCK_FILE: &'static str = "sempkg.lock";

// ---------------------------------------------------------------------------
// The manifest
// ---------------------------------------------------------------------------

#[derive(Debug, Clone)]
pub struct WorkspaceSection {
    /// An Ed25519 public key that bundle signatures are verified with.
    pub verify_key: Option<String>,
}

#[derive(Debug, Clone)]
pub struct RegistryEntry {
    pub name: String,
    pub url: String,
}

/// One dependency of a workspace.
#[derive(Debug, Clone)]
pub struct DependencyEntry {
    /// The version to install.
    pub version: String,
    /// The registry to fetch from; the first one where none is named.
    pub registry: Option<String>,
    /// The bundle's own address. With it no registry is asked.
    pub url: Option<String>,
    /// GitHub source, such as `github:pandas-dev/pandas`.
    pub git: Option<String>,
    /// The git reference that was asked for.
    pub git_ref: Option<String>,
    /// A subdirectory of the repository.
    pub subdir: Option<String>,
    /// Whether to clone the repository in place of downloading its archive.
    pub full: bool,
    /// A local directory that the bundle is built from.
    pub local: Option<String>,
    /// Whether to build the source-code index.
    pub include_source: bool,
    /// Which files the source-code index takes in.
    pub source_glob: Option<String>,
    /// Directories to index with codegraph; the source root where there are none.
    pub source_dirs: Vec<String>,
    /// Directories of documentation; the source root where there are none.
    pub docs_dirs: Vec<String>,
    /// Directories left out of every index.
    pub exclude_dirs: Vec<String>,
    /// One line on what the bundle provides.
    pub description: Option<String>,
}

/// What a dependency says.
pub ghost struct DependencyView {
    pub version: Seq<char>,
    pub registry: Option<Seq<char>>,
    pub url: Option<Seq<char>>,
    pub git: Option<Seq<char>>,
    pub git_ref: Option<Seq<char>>,
    pub subdir: Option<Seq<char>>,
    pub full: bool,
    pub local: Option<Seq<char>>,
    pub include_source: bool,
    pub source_glob: Option<Seq<char>>,
    pub source_dirs: Seq<Seq<char>>,
    pub docs_dirs: Seq<Seq<char>>,
    pub exclude_dirs: Seq<Seq<char>>,
    pub description: Option<Seq<char>>,
}

impl View for DependencyEntry {
    type V = DependencyView;

    open spec fn view(&self) -> DependencyView {
        DependencyView {
            version: self.version@,
            registry: pieces::opt_text(self.registry),
            url: pieces::opt_text(self.url),
            git: pieces::opt_text(self.git),
            git_ref: pieces::opt_text(self.git_ref),
            subdir: pieces::opt_text(self.subdir),
            full: self.full,
            local: pieces::opt_text(self.local),
            include_source: self.include_source,
            source_glob: pieces::opt_text(self.source_glob),
            source_dirs: pieces::texts(self.source_dirs@),
            docs_dirs: pieces::texts(self.docs_dirs@),
            exclude_dirs: pieces::texts(self.exclude_dirs@),
            description: pieces::opt_text(self.description),
        }
    }
}

impl DependencyEntry {
    /// A dependency that says the same.
    pub fn copy(&self) -> (r: Self)
        ensures
            r@ == self@,
    {
        DependencyEntry {
            version: self.version.clone(),
            registry: copy_opt(&self.registry),
            url: copy_opt(&self.url),
            git: copy_opt(&self.git),
            git_ref: copy_opt(&self.git_ref),
            subdir: copy_opt(&self.subdir),
            full: self.full,
            local: copy_opt(&self.local),
            include_source: self.include_source,
            source_glob: copy_opt(&self.source_glob),
            source_dirs: copy_texts(&self.source_dirs),
            docs_dirs: copy_texts(&self.docs_dirs),
            exclude_dirs: copy_texts(&self.exclude_dirs),
            description: copy_opt(&self.description),
        }
    }
}

/// A locally cloned repository.
#[derive(Debug, Clone)]
pub struct PackageEntry {
    /// Where the repository is. May begin with `~`.
    pub path: String,
    /// One line on what it is; empty where there is none.
    pub description: String,
}

/// The contents of `sempkg.toml`.
#[derive(Debug, Clone)]
pub struct WorkspaceManifest {
    pub workspace: Option<WorkspaceSection>,
    pub registries: Vec<RegistryEntry>,
    /// Dependencies that are always installed.
    pub dependencies: StringMap<DependencyEntry>,
    /// Named groups of dependencies, installed on request.
    pub dependency_groups: StringMap<StringMap<DependencyEntry>>,
    pub packages: StringMap<PackageEntry>,
    pub reranker: Option<RerankerConfig>,
    pub embedding: Option<EmbeddingConfig>,
    pub query_expansion: Option<QueryExpansionConfig>,
}

impl Default for WorkspaceManifest {
    fn default() -> (r: Self)
        ensures
            r.workspace is None,
            r.registries@.len() == 0,
            r.dependencies.entries@.len() == 0,
            r.dependency_groups.entries@.len() == 0,
            r.packages.entries@.len() == 0,
            r.reranker is None,
            r.embedding is None,
            r.query_expansion is None,
            r.wf(),
    {
        WorkspaceManifest {
            workspace: None,
            registries: Vec::new(),
            dependencies: StringMap::new(),
            dependency_groups: StringMap::new(),
            packages: StringMap::new(),
            reranker: None,
            embedding: None,
            query_expansion: None,
        }
    }
}

/// The first registry that bears a name.
pub open spec fn registry_named(rs: Seq<RegistryEntry>, name: Seq<char>) -> Option<RegistryEntry>
    decreases rs.len(),
{
    if rs.len() == 0 {
        None
    } else if rs[0].name@ == name {
        Some(rs[0])
    } else {
        registry_named(rs.drop_first(), name)
    }
}

/// The dependency of a name in the first group that has one.
pub open spec fn grouped(
    groups: Seq<(String, StringMap<DependencyEntry>)>,
    name: Seq<char>,
) -> Option<DependencyEntry>
    decreases groups.len(),
{
    if groups.len() == 0 {
        None
    } else if groups[0].1@.contains_key(name) {
        Some(groups[0].1@[name])
    } else {
        grouped(groups.drop_first(), name)
    }
}

/// The dependency of a name: one that is always installed, else one of a group.
pub open spec fn dependency_named(m: WorkspaceManifest, name: Seq<char>) -> Option<
    DependencyEntry,
> {
    if m.dependencies@.contains_key(name) {
        Some(m.dependencies@[name])
    } else {
        grouped(m.dependency_groups.entries@, name)
    }
}

/// The registry that a dependency comes from: the one that it names, else the first.
pub open spec fn dependency_registry(m: WorkspaceManifest, dep: DependencyEntry) -> Option<
    RegistryEntry,
> {
    match dep.registry {
        Some(name) => registry_named(m.registries@, name@),
        None => if m.registries@.len() > 0 {
            Some(m.registries@[0])
        } else {
            None
        },
    }
}

/// A registry is found by its name just where there is one of that name.
pub proof fn registries_are_found_by_name(rs: Seq<RegistryEntry>, name: Seq<char>)
    ensures
        match registry_named(rs, name) {
            Some(r) => r.name@ == name && exists|i: int|
                0 <= i < rs.len() && #[trigger] rs[i] == r && forall|j: int|
                    0 <= j < i ==> (#[trigger] rs[j]).name@ != name,
            None => forall|i: int| 0 <= i < rs.len() ==> (#[trigger] rs[i]).name@ != name,
        },
    decreases rs.len(),
{
    if rs.len() > 0 && rs[0].name@ != name {
        let rest = rs.drop_first();
        registries_are_found_by_name(rest, name);
        match registry_named(rest, name) {
            Some(r) => {
                let i = choose|i: int|
                    0 <= i < rest.len() && #[trigger] rest[i] == r && forall|j: int|
                        0 <= j < i ==> (#[trigger] rest[j]).name@ != name;
                assert(rs[i + 1] == r);
                assert forall|j: int| 0 <= j < i + 1 implies (#[trigger] rs[j]).name@ != name by {
                    if j > 0 {
                        assert(rest[j - 1] == rs[j]);
                    }
                }
            },
            None => {
                assert forall|i: int| 0 <= i < rs.len() implies (#[trigger] rs[i]).name@ != name by {
                    if i > 0 {
                        assert(rest[i - 1] == rs[i]);
                    }
                }
            },
        }
    }
}

/// A dependency comes from a registry of the manifest: from the first of the name that it
/// gives, or from the first of all where it gives none. There is none only where the
/// manifest has none such.
pub proof fn a_dependency_has_its_registry(m: WorkspaceManifest, dep: DependencyEntry)
    ensures
        match dependency_registry(m, dep) {
            Some(r) => exists|i: int|
                0 <= i < m.registries@.len() && #[trigger] m.registries@[i] == r && if dep.registry
                    is Some {
                    r.name@ == dep.registry->0@ && forall|j: int|
                        0 <= j < i ==> (#[trigger] m.registries@[j]).name@ != r.name@
                } else {
                    i == 0
                },
            None => if dep.registry is Some {
                forall|i: int|
                    0 <= i < m.registries@.len() ==> (#[trigger] m.registries@[i]).name@
                        != dep.registry->0@
            } else {
                m.registries@.len() == 0
            },
        },
{
    match dep.registry {
        Some(name) => registries_are_found_by_name(m.registries@, name@),
        None => {},
    }
}

/// What each entry of a map of dependencies says.
pub open spec fn dep_views(m: Map<Seq<char>, DependencyEntry>) -> Map<Seq<char>, DependencyView> {
    m.map_values(|d: DependencyEntry| d@)
}

/// The dependencies of a workspace with groups merged in, one after another. What is
/// already there stays.
pub open spec fn with_groups_merged(m: WorkspaceManifest, names: Seq<Seq<char>>) -> Map<
    Seq<char>,
    DependencyView,
>
    decreases names.len(),
{
    if names.len() == 0 {
        dep_views(m.dependencies@)
    } else {
        let before = with_groups_merged(m, names.drop_last());
        if m.dependency_groups@.contains_key(names.last()) {
            dep_views(m.dependency_groups@[names.last()]@).union_prefer_right(before)
        } else {
            before
        }
    }
}

/// The names that no group of the workspace has.
pub open spec fn unknown_groups(m: WorkspaceManifest, names: Seq<Seq<char>>) -> Seq<Seq<char>>
    decreases names.len(),
{
    if names.len() == 0 {
        seq![]
    } else {
        let before = unknown_groups(m, names.drop_last());
        if m.dependency_groups@.contains_key(names.last()) {
            before
        } else {
            before.push(names.last())
        }
    }
}

/// The groups that are asked for: all of them, or those that are named.
pub open spec fn selected_groups(
    m: WorkspaceManifest,
    groups: Seq<Seq<char>>,
    all_groups: bool,
) -> Seq<Seq<char>> {
    if all_groups {
        m.dependency_groups.keys()
    } else {
        groups
    }
}

fn merge_group(result: &mut StringMap<DependencyEntry>, group: &StringMap<DependencyEntry>)
    requires
        old(result).wf(),
        group.wf(),
    ensures
        final(result).wf(),
        dep_views(final(result)@) == dep_views(group@).union_prefer_right(dep_views(old(result)@)),
{
    let ghost before = result@;
    let mut i: usize = 0;
    proof {
        let none = group.entries@.take(0);
        assert(dep_views(strmap::contents(none)).union_prefer_right(dep_views(before))
            =~= dep_views(before));
    }
    while i < group.entries.len()
        invariant
            i <= group.entries@.len(),
            result.wf(),
            group.wf(),
            dep_views(result@) == dep_views(
                strmap::contents(group.entries@.take(i as int)),
            ).union_prefer_right(dep_views(before)),
        decreases group.entries.len() - i,
    {
        let key = group.entries[i].0.clone();
        let ghost e = group.entries@.take(i as int);
        let ghost x = group.entries@[i as int];
        let ghost was = result@;
        proof {
            assert forall|j: int| 0 <= j < e.len() implies (#[trigger] e[j]).0@ != x.0@ by {
                assert(strmap::text_lt(group.entries@[j].0@, x.0@));
                strmap::lemma_text_lt_irreflexive(x.0@);
            }
            strmap::lemma_appended(e, x);
            assert(e.push(x) =~= group.entries@.take(i + 1));
            strmap::lemma_slot(e, x.0@, e.len() as int);
            assert(!strmap::contents(e).contains_key(x.0@));
            assert(dep_views(was).contains_key(x.0@) == was.contains_key(x.0@));
        }
        if !result.contains_key(key.as_str()) {
            let copied = group.entries[i].1.copy();
            result.insert(key, copied);
            proof {
                assert(dep_views(result@) =~= dep_views(was).insert(x.0@, x.1@));
            }
        }
        proof {
            let g = dep_views(strmap::contents(e));
            let g2 = dep_views(strmap::contents(group.entries@.take(i + 1)));
            assert(g2 =~= g.insert(x.0@, x.1@));
            let b = dep_views(before);
            assert(g.union_prefer_right(b).contains_key(x.0@) == b.contains_key(x.0@));
            assert(dep_views(result@) =~= g2.union_prefer_right(b));
        }
        i = i + 1;
    }
    proof {
        assert(group.entries@.take(group.entries@.len() as int) =~= group.entries@);
    }
}

/// The maps of a map of groups are in order exactly where its entries are.
pub proof fn lemma_groups_wf(m: StringMap<StringMap<DependencyEntry>>)
    requires
        m.wf(),
    ensures
        (forall|i: int| 0 <= i < m.entries@.len() ==> (#[trigger] m.entries@[i]).1.wf()) == (
        forall|k: Seq<char>| #[trigger] m@.contains_key(k) ==> m@[k].wf()),
{
    let es = m.entries@;
    if forall|i: int| 0 <= i < es.len() ==> (#[trigger] es[i]).1.wf() {
        assert forall|k: Seq<char>| #[trigger] m@.contains_key(k) implies m@[k].wf() by {
            strmap::lemma_slot_bounds(es, k);
            assert(es[strmap::slot(es, k)].1.wf());
        }
    }
    if forall|k: Seq<char>| #[trigger] m@.contains_key(k) ==> m@[k].wf() {
        assert forall|i: int| 0 <= i < es.len() implies (#[trigger] es[i]).1.wf() by {
            strmap::lemma_unique_slot(es, i);
            assert(m@.contains_key(es[i].0@));
        }
    }
}

impl WorkspaceManifest {
    /// The maps are in order.
    pub open spec fn wf(&self) -> bool {
        &&& self.dependencies.wf()
        &&& self.dependency_groups.wf()
        &&& self.packages.wf()
        &&& forall|i: int|
            0 <= i < self.dependency_groups.entries@.len() ==> (
            #[trigger] self.dependency_groups.entries@[i]).1.wf()
    }

    /// The registry to fetch from where none is named.
    pub fn default_registry(&self) -> (r: Option<&RegistryEntry>)
        ensures
            match r {
                Some(e) => self.registries@.len() > 0 && *e == self.registries@[0],
                None => self.registries@.len() == 0,
            },
    {
        if self.registries.len() > 0 {
            Some(&self.registries[0])
        } else {
            None
        }
    }

    /// The first registry that bears a name.
    pub fn get_registry(&self, name: &str) -> (r: Option<&RegistryEntry>)
        ensures
            match r {
                Some(e) => registry_named(self.registries@, name@) == Some(*e),
                None => registry_named(self.registries@, name@) is None,
            },
    {
        let mut i: usize = 0;
        let ghost all = self.registries@;
        assert(all.skip(0) =~= all);
        while i < self.registries.len()
            invariant
                i <= self.registries@.len(),
                all == self.registries@,
                registry_named(all, name@) == registry_named(all.skip(i as int), name@),
            decreases self.registries.len() - i,
        {
            assert(all.skip(i as int).drop_first() =~= all.skip(i + 1));
            if same_text(self.registries[i].name.as_str(), name) {
                return Some(&self.registries[i]);
            }
            i = i + 1;
        }
        None
    }

    /// Find a dependency by name, in `[dependencies]` first and then in every group.
    pub fn find_dependency(&self, name: &str) -> (r: Option<&DependencyEntry>)
        ensures
            match r {
                Some(d) => dependency_named(*self, name@) == Some(*d),
                None => dependency_named(*self, name@) is None,
            },
    {
        match self.dependencies.get(name) {
            Some(d) => Some(d),
            None => {
                let mut i: usize = 0;
                let ghost all = self.dependency_groups.entries@;
                assert(all.skip(0) =~= all);
                while i < self.dependency_groups.entries.len()
                    invariant
                        i <= all.len(),
                        all == self.dependency_groups.entries@,
                        !self.dependencies@.contains_key(name@),
                        grouped(all, name@) == grouped(all.skip(i as int), name@),
                    decreases self.dependency_groups.entries.len() - i,
                {
                    assert(all.skip(i as int).drop_first() =~= all.skip(i + 1));
                    match self.dependency_groups.entries[i].1.get(name) {
                        Some(d) => {
                            return Some(d);
                        },
                        None => {},
                    }
                    i = i + 1;
                }
                None
            },
        }
    }

    /// The registry that a dependency comes from.
    pub fn registry_for(&self, dep: &DependencyEntry) -> (r: Option<&RegistryEntry>)
        ensures
            match r {
                Some(e) => dependency_registry(*self, *dep) == Some(*e),
                None => dependency_registry(*self, *dep) is None,
            },
    {
        match &dep.registry {
            Some(name) => self.get_registry(name.as_str()),
            None => self.default_registry(),
        }
    }

    /// Where the verification key is, taken from the manifest's directory.
    pub fn verify_key_path(&self, manifest_dir: &str) -> (r: Option<String>)
        ensures
            pieces::opt_text(r) == (match self.workspace {
                Some(w) => match w.verify_key {
                    Some(k) => Some(paths::joined(manifest_dir@, k@)),
                    None => None,
                },
                None => None,
            }),
    {
        match &self.workspace {
            Some(w) => match &w.verify_key {
                Some(k) => Some(join_path(manifest_dir, k.as_str())),
                None => None,
            },
            None => None,
        }
    }

    /// The dependencies to install for a selection of groups, and the names among the
    /// selected groups that there is no group of.
    pub fn resolve_deps(&self, groups: &Vec<String>, all_groups: bool) -> (r: (
        StringMap<DependencyEntry>,
        Vec<String>,
    ))
        requires
            self.wf(),
        ensures
            r.0.wf(),
            dep_views(r.0@) == with_groups_merged(
                *self,
                selected_groups(*self, pieces::texts(groups@), all_groups),
            ),
            pieces::texts(r.1@) == unknown_groups(
                *self,
                selected_groups(*self, pieces::texts(groups@), all_groups),
            ),
    {
        let mut result: StringMap<DependencyEntry> = StringMap::new();
        merge_group(&mut result, &self.dependencies);
        proof {
            assert(dep_views(result@) =~= dep_views(self.dependencies@));
        }
        let names = if all_groups {
            self.group_names()
        } else {
            copy_texts(groups)
        };
        let ghost all = pieces::texts(names@);
        let mut unknown: Vec<String> = Vec::new();
        let mut i: usize = 0;
        assert(all.take(0) =~= seq![]);
        while i < names.len()
            invariant
                i <= names@.len(),
                self.wf(),
                result.wf(),
                all == pieces::texts(names@),
                dep_views(result@) == with_groups_merged(*self, all.take(i as int)),
                pieces::texts(unknown@) == unknown_groups(*self, all.take(i as int)),
            decreases names.len() - i,
        {
            proof {
                assert(all.take(i + 1).drop_last() =~= all.take(i as int));
                assert(all.take(i + 1).last() == names@[i as int]@);
            }
            let at: usize = self.dependency_groups.position(names[i].as_str());
            if at < self.dependency_groups.entries.len() {
                merge_group(&mut result, &self.dependency_groups.entries[at].1);
            } else {
                let ghost before = pieces::texts(unknown@);
                unknown.push(names[i].clone());
                assert(pieces::texts(unknown@) =~= before.push(names@[i as int]@));
            }
            i = i + 1;
        }
        assert(all.take(names@.len() as int) =~= all);
        (result, unknown)
    }

    /// The names of the groups, in order.
    pub fn group_names(&self) -> (r: Vec<String>)
        ensures
            pieces::texts(r@) == self.dependency_groups.keys(),
    {
        let mut r: Vec<String> = Vec::new();
        let mut i: usize = 0;
        while i < self.dependency_groups.entries.len()
            invariant
                i <= self.dependency_groups.entries@.len(),
                pieces::texts(r@) == self.dependency_groups.keys().take(i as int),
            decreases self.dependency_groups.entries.len() - i,
        {
            let ghost before = pieces::texts(r@);
            r.push(self.dependency_groups.entries[i].0.clone());
            i = i + 1;
            proof {
                let ks = self.dependency_groups.keys();
                assert(pieces::texts(r@) =~= before.push(ks[i - 1]));
                assert(ks.take(i as int) =~= ks.take(i - 1).push(ks[i - 1]));
            }
        }
        assert(pieces::texts(r@) =~= self.dependency_groups.keys());
        r
    }
}

/// Whatever groups are selected, every dependency of the workspace itself is
/// installed, and as the workspace has it: no group can replace it.
pub proof fn own_dependencies_always_win(m: WorkspaceManifest, names: Seq<Seq<char>>, k: Seq<char>)
    requires
        m.dependencies@.contains_key(k),
    ensures
        with_groups_merged(m, names).contains_key(k),
        with_groups_merged(m, names)[k] == m.dependencies@[k]@,
    decreases names.len(),
{
    if names.len() > 0 {
        own_dependencies_always_win(m, names.drop_last(), k);
    }
}

/// Every dependency of a selected group is installed, and nothing is installed that
/// neither the workspace nor a selected group has.
pub proof fn selected_groups_are_installed(
    m: WorkspaceManifest,
    names: Seq<Seq<char>>,
    k: Seq<char>,
)
    ensures
        with_groups_merged(m, names).contains_key(k) <==> m.dependencies@.contains_key(k)
            || exists|i: int|
            0 <= i < names.len() && m.dependency_groups@.contains_key(#[trigger] names[i])
                && m.dependency_groups@[names[i]]@.contains_key(k),
    decreases names.len(),
{
    if names.len() > 0 {
        let init = names.drop_last();
        selected_groups_are_installed(m, init, k);
        let n = names.len() - 1;
        if exists|i: int|
            0 <= i < init.len() && m.dependency_groups@.contains_key(#[trigger] init[i])
                && m.dependency_groups@[init[i]]@.contains_key(k) {
            let i = choose|i: int|
                0 <= i < init.len() && m.dependency_groups@.contains_key(#[trigger] init[i])
                    && m.dependency_groups@[init[i]]@.contains_key(k);
            assert(names[i] == init[i]);
        }
        if exists|i: int|
            0 <= i < names.len() && m.dependency_groups@.contains_key(#[trigger] names[i])
                && m.dependency_groups@[names[i]]@.contains_key(k) {
            let i = choose|i: int|
                0 <= i < names.len() && m.dependency_groups@.contains_key(#[trigger] names[i])
                    && m.dependency_groups@[names[i]]@.contains_key(k);
            if i < n {
                assert(init[i] == names[i]);
            }
        }
        assert(names[n] == names.last());
    }
}

// ---------------------------------------------------------------------------
// The lock
// ---------------------------------------------------------------------------

/// One installed package.
#[derive(Debug, Clone)]
pub struct LockEntry {
    pub name: String,
    pub version: String,
    pub registry_url: String,
    pub sha256: String,
    pub signed: bool,
    pub manifest_checksums: StringMap<String>,
    /// The commit of a dependency that came from GitHub.
    pub commit_sha: Option<String>,
}

/// The contents of `sempkg.lock`.
#[derive(Debug, Clone)]
pub struct LockFile {
    pub packages: Vec<LockEntry>,
}

impl Default for LockFile {
    fn default() -> (r: Self)
        ensures
            r.packages@.len() == 0,
    {
        LockFile { packages: Vec::new() }
    }
}

/// Where the first entry of a package is, or the number of entries where it has none.
pub open spec fn lock_slot(ps: Seq<LockEntry>, name: Seq<char>) -> int
    decreases ps.len(),
{
    if ps.len() == 0 || ps[0].name@ == name {
        0
    } else {
        1 + lock_slot(ps.drop_first(), name)
    }
}

proof fn lemma_lock_slot(ps: Seq<LockEntry>, name: Seq<char>, i: int)
    requires
        0 <= i <= ps.len(),
        forall|j: int| 0 <= j < i ==> (#[trigger] ps[j]).name@ != name,
        i < ps.len() ==> ps[i].name@ == name,
    ensures
        lock_slot(ps, name) == i,
    decreases i,
{
    if i > 0 {
        let t = ps.drop_first();
        assert(ps[0].name@ != name);
        assert forall|j: int| 0 <= j < i - 1 implies (#[trigger] t[j]).name@ != name by {
            assert(t[j] == ps[j + 1]);
        }
        lemma_lock_slot(t, name, i - 1);
    }
}

proof fn lemma_lock_slot_bounds(ps: Seq<LockEntry>, name: Seq<char>)
    ensures
        0 <= lock_slot(ps, name) <= ps.len(),
        lock_slot(ps, name) < ps.len() ==> ps[lock_slot(ps, name)].name@ == name,
        forall|j: int| 0 <= j < lock_slot(ps, name) ==> (#[trigger] ps[j]).name@ != name,
    decreases ps.len(),
{
    if ps.len() > 0 && ps[0].name@ != name {
        let t = ps.drop_first();
        lemma_lock_slot_bounds(t, name);
        assert forall|j: int| 0 <= j < lock_slot(ps, name) implies (#[trigger] ps[j]).name@
            != name by {
            if j > 0 {
                assert(ps[j] == t[j - 1]);
            }
        }
    }
}

/// The entry of a package.
pub open spec fn locked(ps: Seq<LockEntry>, name: Seq<char>) -> Option<LockEntry> {
    if lock_slot(ps, name) < ps.len() {
        Some(ps[lock_slot(ps, name)])
    } else {
        None
    }
}

/// The entries with one put in: in the place of the package's entry, else at the end.
pub open spec fn upserted(ps: Seq<LockEntry>, e: LockEntry) -> Seq<LockEntry> {
    if lock_slot(ps, e.name@) < ps.len() {
        ps.update(lock_slot(ps, e.name@), e)
    } else {
        ps.push(e)
    }
}

impl LockFile {
    fn position(&self, name: &str) -> (i: usize)
        ensures
            i == lock_slot(self.packages@, name@),
            i <= self.packages@.len(),
    {
        let mut i: usize = 0;
        while i < self.packages.len() && !same_text(self.packages[i].name.as_str(), name)
            invariant
                i <= self.packages@.len(),
                forall|j: int| 0 <= j < i ==> (#[trigger] self.packages@[j]).name@ != name@,
            decreases self.packages.len() - i,
        {
            i = i + 1;
        }
        proof {
            lemma_lock_slot(self.packages@, name@, i as int);
        }
        i
    }

    /// The entry of a package.
    pub fn find(&self, name: &str) -> (r: Option<&LockEntry>)
        ensures
            match r {
                Some(e) => locked(self.packages@, name@) == Some(*e),
                None => locked(self.packages@, name@) is None,
            },
    {
        let i: usize = self.position(name);
        if i < self.packages.len() {
            Some(&self.packages[i])
        } else {
            None
        }
    }

    /// Record a package, in place of what was recorded of it.
    pub fn upsert(&mut self, entry: LockEntry)
        ensures
            final(self).packages@ == upserted(old(self).packages@, entry),
    {
        let i: usize = self.position(entry.name.as_str());
        if i < self.packages.len() {
            self.packages.set(i, entry);
        } else {
            self.packages.push(entry);
        }
    }
}

/// What was recorded of a package is found again, and the record of every other
/// package is left alone.
pub proof fn a_recorded_package_is_found(ps: Seq<LockEntry>, e: LockEntry, other: Seq<char>)
    requires
        other != e.name@,
    ensures
        locked(upserted(ps, e), e.name@) == Some(e),
        locked(upserted(ps, e), other) == locked(ps, other),
{
    let qs = upserted(ps, e);
    let i = lock_slot(ps, e.name@);
    let n = lock_slot(ps, other);
    lemma_lock_slot_bounds(ps, e.name@);
    lemma_lock_slot_bounds(ps, other);
    assert forall|j: int| 0 <= j < i implies (#[trigger] qs[j]).name@ != e.name@ by {
        assert(qs[j] == ps[j]);
    }
    lemma_lock_slot(qs, e.name@, i);
    if n < ps.len() {
        assert forall|j: int| 0 <= j < n implies (#[trigger] qs[j]).name@ != other by {
            if j != i {
                assert(qs[j] == ps[j]);
            }
        }
        assert(qs[n] == ps[n]);
        lemma_lock_slot(qs, other, n);
    } else {
        assert forall|j: int| 0 <= j < qs.len() implies (#[trigger] qs[j]).name@ != other by {
            if j < ps.len() && j != i {
                assert(qs[j] == ps[j]);
            }
        }
        lemma_lock_slot(qs, other, qs.len() as int);
    }
}

/// A lock without two entries of one package never gets two.
pub proof fn locks_stay_free_of_duplicates(ps: Seq<LockEntry>, e: LockEntry)
    requires
        forall|i: int, j: int|
            0 <= i < j < ps.len() ==> (#[trigger] ps[i]).name@ != (#[trigger] ps[j]).name@,
    ensures
        forall|i: int, j: int|
            0 <= i < j < upserted(ps, e).len() ==> (#[trigger] upserted(ps, e)[i]).name@ != (
            #[trigger] upserted(ps, e)[j]).name@,
{
    let qs = upserted(ps, e);
    let n = lock_slot(ps, e.name@);
    lemma_lock_slot_bounds(ps, e.name@);
    assert forall|i: int, j: int| 0 <= i < j < qs.len() implies (#[trigger] qs[i]).name@ != (
    #[trigger] qs[j]).name@ by {
        if i < ps.len() && j < ps.len() {
            assert(qs[i].name@ == ps[i].name@);
            assert(qs[j].name@ == ps[j].name@);
        } else {
            assert(qs[i] == ps[i]);
        }
    }
}

// ---------------------------------------------------------------------------
// Writing the manifest
// ---------------------------------------------------------------------------

/// The manifest that a new workspace begins with: no dependencies, and the registry
/// that was named, without the slashes at its end.
pub fn init_manifest(registry_url: Option<&str>) -> (r: WorkspaceManifest)
    ensures
        r.wf(),
        r.workspace is None,
        r.dependencies.entries@.len() == 0,
        r.dependency_groups.entries@.len() == 0,
        r.packages.entries@.len() == 0,
        r.reranker is None,
        r.embedding is None,
        r.query_expansion is None,
        match registry_url {
            Some(u) => r.registries@.len() == 1 && r.registries@[0].name@ == "default"@
                && r.registries@[0].url@ == text::trim_end(u@, CharClass::Is('/')),
            None => r.registries@.len() == 0,
        },
{
    let mut m = WorkspaceManifest::default();
    match registry_url {
        Some(u) => {
            m.registries.push(
                RegistryEntry {
                    name: "default".to_owned(),
                    url: trim_end_text(u, CharClass::Is('/')),
                },
            );
        },
        None => {},
    }
    m
}

/// What a manifest's file begins with.
pub const MANIFEST_HEADER: &'static str = "# sempkg workspace manifest\n# Run 'sempkg sync' to install dependencies.\n\n";

/// What a lock's file begins with.
pub const LOCK_HEADER: &'static str = "# Auto-generated by sempkg. DO NOT EDIT.\n# Commit this file to ensure reproducible installs.\n\n";

/// A new workspace has no manifest yet.
pub fn check_init(dir: &str, exists: bool) -> (r: Result<(), String>)
    ensures
        match r {
            Ok(_) => !exists,
            Err(e) => exists && e@ == "sempkg.toml already exists at "@ + dir@,
        },
{
    if exists {
        let mut e = "sempkg.toml already exists at ".to_owned();
        e.append(dir);
        return Err(e);
    }
    Ok(())
}

pub open spec fn text_node(t: Option<Seq<char>>) -> Option<TomlNode> {
    match t {
        Some(t) => Some(TomlNode::Text(t)),
        None => None,
    }
}

/// A flag is written only where it is set.
pub open spec fn flag_node(b: bool) -> Option<TomlNode> {
    if b {
        Some(TomlNode::Flag(true))
    } else {
        None
    }
}

/// A list is written only where it has something in it.
pub open spec fn list_node(l: Seq<Seq<char>>) -> Option<TomlNode> {
    if l.len() > 0 {
        Some(TomlNode::List(l))
    } else {
        None
    }
}

/// The inline table that a dependency is written as.
pub open spec fn dep_items(d: DependencyView) -> Seq<(Seq<char>, TomlNode)> {
    let e1 = toml_doc::with_node(seq![], "version"@, text_node(Some(d.version)));
    let e2 = toml_doc::with_node(e1, "registry"@, text_node(d.registry));
    let e3 = toml_doc::with_node(e2, "url"@, text_node(d.url));
    let e4 = toml_doc::with_node(e3, "git"@, text_node(d.git));
    let e5 = toml_doc::with_node(e4, "git_ref"@, text_node(d.git_ref));
    let e6 = toml_doc::with_node(e5, "subdir"@, text_node(d.subdir));
    let e7 = toml_doc::with_node(e6, "full"@, flag_node(d.full));
    let e8 = toml_doc::with_node(e7, "local"@, text_node(d.local));
    let e9 = toml_doc::with_node(e8, "include_source"@, flag_node(d.include_source));
    let e10 = toml_doc::with_node(e9, "source_glob"@, text_node(d.source_glob));
    let e11 = toml_doc::with_node(e10, "source_dirs"@, list_node(d.source_dirs));
    let e12 = toml_doc::with_node(e11, "docs_dirs"@, list_node(d.docs_dirs));
    let e13 = toml_doc::with_node(e12, "exclude_dirs"@, list_node(d.exclude_dirs));
    let e14 = toml_doc::with_node(e13, "description"@, text_node(d.description));
    e14
}

fn insert_opt(it: &mut toml_edit::InlineTable, key: &str, v: &Option<String>)
    ensures
        toml_doc::inline_entries(*final(it)) == toml_doc::with_node(
            toml_doc::inline_entries(*old(it)),
            key@,
            text_node(pieces::opt_text(*v)),
        ),
{
    proof {
        reveal(toml_doc::with_node);
    }
    match v {
        Some(t) => {
            inline_insert(it, key, text_value(t.as_str()));
        },
        None => {},
    }
}

fn insert_list(it: &mut toml_edit::InlineTable, key: &str, v: &Vec<String>)
    ensures
        toml_doc::inline_entries(*final(it)) == toml_doc::with_node(
            toml_doc::inline_entries(*old(it)),
            key@,
            list_node(pieces::texts(v@)),
        ),
{
    proof {
        reveal(toml_doc::with_node);
    }
    if v.len() > 0 {
        let mut arr = new_array();
        let mut i: usize = 0;
        assert(toml_doc::array_texts(arr) =~= pieces::texts(v@).take(0));
        while i < v.len()
            invariant
                i <= v@.len(),
                toml_doc::array_texts(arr) == pieces::texts(v@).take(i as int),
            decreases v.len() - i,
        {
            array_push(&mut arr, v[i].as_str());
            i = i + 1;
            assert(pieces::texts(v@).take(i as int) =~= pieces::texts(v@).take(i - 1).push(
                v@[i - 1]@,
            ));
        }
        assert(pieces::texts(v@).take(v@.len() as int) =~= pieces::texts(v@));
        inline_insert(it, key, array_value(arr));
    }
}

/// Build the inline table of a dependency: `{ version = "x", registry = "y" }`.
pub fn dep_inline(dep: &DependencyEntry) -> (it: toml_edit::InlineTable)
    ensures
        toml_doc::inline_entries(it) == dep_items(dep@),
{
    let mut it = new_inline();
    proof {
        reveal(toml_doc::with_node);
    }
    assert(toml_doc::inline_entries(it) =~= seq![]);
    inline_insert(&mut it, "version", text_value(dep.version.as_str()));
    insert_opt(&mut it, "registry", &dep.registry);
    insert_opt(&mut it, "url", &dep.url);
    insert_opt(&mut it, "git", &dep.git);
    insert_opt(&mut it, "git_ref", &dep.git_ref);
    insert_opt(&mut it, "subdir", &dep.subdir);
    if dep.full {
        inline_insert(&mut it, "full", flag_value(true));
    }
    insert_opt(&mut it, "local", &dep.local);
    if dep.include_source {
        inline_insert(&mut it, "include_source", flag_value(true));
    }
    insert_opt(&mut it, "source_glob", &dep.source_glob);
    insert_list(&mut it, "source_dirs", &dep.source_dirs);
    insert_list(&mut it, "docs_dirs", &dep.docs_dirs);
    insert_list(&mut it, "exclude_dirs", &dep.exclude_dirs);
    insert_opt(&mut it, "description", &dep.description);
    it
}

/// Everything that a dependency says stands in the inline table that it is written
/// as, under the name of its field, and what it does not say stands nowhere in it.
pub proof fn a_written_dependency_keeps_every_field(d: DependencyView)
    ensures
        toml_doc::lookup(dep_items(d), "version"@) == text_node(Some(d.version)),
        toml_doc::lookup(dep_items(d), "registry"@) == text_node(d.registry),
        toml_doc::lookup(dep_items(d), "url"@) == text_node(d.url),
        toml_doc::lookup(dep_items(d), "git"@) == text_node(d.git),
        toml_doc::lookup(dep_items(d), "git_ref"@) == text_node(d.git_ref),
        toml_doc::lookup(dep_items(d), "subdir"@) == text_node(d.subdir),
        toml_doc::lookup(dep_items(d), "full"@) == flag_node(d.full),
        toml_doc::lookup(dep_items(d), "local"@) == text_node(d.local),
        toml_doc::lookup(dep_items(d), "include_source"@) == flag_node(d.include_source),
        toml_doc::lookup(dep_items(d), "source_glob"@) == text_node(d.source_glob),
        toml_doc::lookup(dep_items(d), "source_dirs"@) == list_node(d.source_dirs),
        toml_doc::lookup(dep_items(d), "docs_dirs"@) == list_node(d.docs_dirs),
        toml_doc::lookup(dep_items(d), "exclude_dirs"@) == list_node(d.exclude_dirs),
        toml_doc::lookup(dep_items(d), "description"@) == text_node(d.description),
{
    broadcast use toml_doc::lemma_with_node;

    reveal_strlit("version");
    reveal_strlit("registry");
    reveal_strlit("url");
    reveal_strlit("git");
    reveal_strlit("git_ref");
    reveal_strlit("subdir");
    reveal_strlit("full");
    reveal_strlit("local");
    reveal_strlit("include_source");
    reveal_strlit("source_glob");
    reveal_strlit("source_dirs");
    reveal_strlit("docs_dirs");
    reveal_strlit("exclude_dirs");
    reveal_strlit("description");
    assert("version"@.len() == 7);
    assert("registry"@.len() == 8);
    assert("url"@.len() == 3);
    assert("git"@.len() == 3);
    assert("git_ref"@.len() == 7);
    assert("subdir"@.len() == 6);
    assert("full"@.len() == 4);
    assert("local"@.len() == 5);
    assert("include_source"@.len() == 14);
    assert("source_glob"@.len() == 11);
    assert("source_dirs"@.len() == 11);
    assert("docs_dirs"@.len() == 9);
    assert("exclude_dirs"@.len() == 12);
    assert("description"@.len() == 11);
    assert("version"@[0] != "git_ref"@[0]);
    assert("url"@[0] != "git"@[0]);
    assert("source_glob"@[0] != "description"@[0]);
    assert("source_dirs"@[0] != "description"@[0]);
    assert("source_glob"@[7] != "source_dirs"@[7]);
    let none: Seq<(Seq<char>, TomlNode)> = seq![];
    assert forall|k: Seq<char>| #[trigger] toml_doc::lookup(none, k) is None by {}
}

// ---------------------------------------------------------------------------
// The document
// ---------------------------------------------------------------------------

/// Name and contents of each dependency, in order.
pub open spec fn dep_rows(m: StringMap<DependencyEntry>) -> Seq<(Seq<char>, DependencyView)> {
    m.entries@.map_values(|e: (String, DependencyEntry)| (e.0@, e.1@))
}

/// The entries that dependencies are written as, one inline table each.
pub open spec fn dep_table(ds: Seq<(Seq<char>, DependencyView)>) -> Seq<(Seq<char>, TomlNode)>
    decreases ds.len(),
{
    if ds.len() == 0 {
        seq![]
    } else {
        toml_doc::put(
            dep_table(ds.drop_last()),
            ds.last().0,
            TomlNode::Inline(dep_items(ds.last().1)),
        )
    }
}

/// Name and dependencies of each group, in order.
pub open spec fn group_rows(m: StringMap<StringMap<DependencyEntry>>) -> Seq<
    (Seq<char>, Seq<(Seq<char>, DependencyView)>),
> {
    m.entries@.map_values(|e: (String, StringMap<DependencyEntry>)| (e.0@, dep_rows(e.1)))
}

/// The entries that groups are written as, one inline table of dependencies each.
pub open spec fn group_table(gs: Seq<(Seq<char>, Seq<(Seq<char>, DependencyView)>)>) -> Seq<
    (Seq<char>, TomlNode),
>
    decreases gs.len(),
{
    if gs.len() == 0 {
        seq![]
    } else {
        toml_doc::put(
            group_table(gs.drop_last()),
            gs.last().0,
            TomlNode::Inline(dep_table(gs.last().1)),
        )
    }
}

/// The inline table of a local package.
pub open spec fn package_items(p: PackageEntry) -> Seq<(Seq<char>, TomlNode)> {
    let e = toml_doc::put(seq![], "path"@, TomlNode::Text(p.path@));
    if p.description@.len() > 0 {
        toml_doc::put(e, "description"@, TomlNode::Text(p.description@))
    } else {
        e
    }
}

/// The entries that local packages are written as.
pub open spec fn package_table(ps: Seq<(String, PackageEntry)>) -> Seq<(Seq<char>, TomlNode)>
    decreases ps.len(),
{
    if ps.len() == 0 {
        seq![]
    } else {
        toml_doc::put(
            package_table(ps.drop_last()),
            ps.last().0@,
            TomlNode::Inline(package_items(ps.last().1)),
        )
    }
}

/// The tables that registries are written as.
pub open spec fn registry_rows(rs: Seq<RegistryEntry>) -> Seq<Seq<(Seq<char>, TomlNode)>> {
    rs.map_values(
        |r: RegistryEntry|
            toml_doc::put(
                toml_doc::put(seq![], "name"@, TomlNode::Text(r.name@)),
                "url"@,
                TomlNode::Text(r.url@),
            ),
    )
}

/// The entries of a section, none where the document does not have it.
pub open spec fn section_entries(doc: Seq<(Seq<char>, TomlNode)>, key: Seq<char>) -> Seq<
    (Seq<char>, TomlNode),
> {
    match toml_doc::lookup(doc, key) {
        Some(TomlNode::Section(e)) => e,
        _ => seq![],
    }
}

pub open spec fn with_workspace(doc: Seq<(Seq<char>, TomlNode)>, m: WorkspaceManifest) -> Seq<
    (Seq<char>, TomlNode),
> {
    toml_doc::set_or_dropped(
        doc,
        "workspace"@,
        match m.workspace {
            Some(ws) => Some(
                TomlNode::Section(
                    toml_doc::with_node(
                        seq![],
                        "verify_key"@,
                        text_node(pieces::opt_text(ws.verify_key)),
                    ),
                ),
            ),
            None => None,
        },
    )
}

pub open spec fn with_registries(doc: Seq<(Seq<char>, TomlNode)>, m: WorkspaceManifest) -> Seq<
    (Seq<char>, TomlNode),
> {
    toml_doc::set_or_dropped(
        doc,
        "registry"@,
        if m.registries@.len() > 0 {
            Some(TomlNode::Rows(registry_rows(m.registries@)))
        } else {
            None
        },
    )
}

pub open spec fn with_dependencies(doc: Seq<(Seq<char>, TomlNode)>, m: WorkspaceManifest) -> Seq<
    (Seq<char>, TomlNode),
> {
    toml_doc::set_or_dropped(
        doc,
        "dependencies"@,
        if m.dependencies.entries@.len() > 0 {
            Some(TomlNode::Section(dep_table(dep_rows(m.dependencies))))
        } else {
            None
        },
    )
}

pub open spec fn with_groups(doc: Seq<(Seq<char>, TomlNode)>, m: WorkspaceManifest) -> Seq<
    (Seq<char>, TomlNode),
> {
    toml_doc::set_or_dropped(
        doc,
        "dependency-groups"@,
        if m.dependency_groups.entries@.len() > 0 {
            Some(TomlNode::Section(group_table(group_rows(m.dependency_groups))))
        } else {
            None
        },
    )
}

pub open spec fn with_packages(doc: Seq<(Seq<char>, TomlNode)>, m: WorkspaceManifest) -> Seq<
    (Seq<char>, TomlNode),
> {
    toml_doc::set_or_dropped(
        doc,
        "packages"@,
        if m.packages.entries@.len() > 0 {
            Some(TomlNode::Section(package_table(m.packages.entries@)))
        } else {
            None
        },
    )
}

/// What `[embedding]` becomes: the settings are written over what it has.
pub open spec fn embedding_items(e: Seq<(Seq<char>, TomlNode)>, cfg: EmbeddingConfig) -> Seq<
    (Seq<char>, TomlNode),
> {
    let e1 = toml_doc::put(e, "enabled"@, TomlNode::Flag(cfg.enabled));
    let e2 = toml_doc::set_or_dropped(e1, "model"@, text_node(pieces::opt_text(cfg.model)));
    let e3 = toml_doc::put(e2, "n_ctx"@, TomlNode::Number(cfg.n_ctx as int));
    toml_doc::put(e3, "gpu_layers"@, TomlNode::Number(cfg.gpu_layers as int))
}

pub open spec fn with_embedding(doc: Seq<(Seq<char>, TomlNode)>, m: WorkspaceManifest) -> Seq<
    (Seq<char>, TomlNode),
> {
    match m.embedding {
        Some(cfg) => toml_doc::put(
            doc,
            "embedding"@,
            TomlNode::Section(embedding_items(section_entries(doc, "embedding"@), cfg)),
        ),
        None => doc,
    }
}

/// What `[query_expansion]` becomes, but for its sampling temperature.
pub open spec fn expansion_items(e: Seq<(Seq<char>, TomlNode)>, cfg: QueryExpansionConfig) -> Seq<
    (Seq<char>, TomlNode),
> {
    let e1 = toml_doc::put(e, "enabled"@, TomlNode::Flag(cfg.enabled));
    let e2 = toml_doc::set_or_dropped(e1, "model"@, text_node(pieces::opt_text(cfg.model)));
    let e3 = toml_doc::put(
        e2,
        "max_variants"@,
        TomlNode::Number((cfg.max_variants as i64) as int),
    );
    let e4 = toml_doc::put(e3, "max_tokens"@, TomlNode::Number(cfg.max_tokens as int));
    let e5 = toml_doc::put(e4, "n_ctx"@, TomlNode::Number(cfg.n_ctx as int));
    toml_doc::put(e5, "gpu_layers"@, TomlNode::Number(cfg.gpu_layers as int))
}

pub open spec fn with_expansion(doc: Seq<(Seq<char>, TomlNode)>, m: WorkspaceManifest) -> Seq<
    (Seq<char>, TomlNode),
> {
    match m.query_expansion {
        Some(cfg) => toml_doc::put(
            doc,
            "query_expansion"@,
            TomlNode::Section(expansion_items(section_entries(doc, "query_expansion"@), cfg)),
        ),
        None => doc,
    }
}

/// What `[reranker]` becomes.
pub open spec fn reranker_items(e: Seq<(Seq<char>, TomlNode)>, cfg: RerankerConfig) -> Seq<
    (Seq<char>, TomlNode),
> {
    let e1 = toml_doc::put(e, "enabled"@, TomlNode::Flag(cfg.enabled));
    let e2 = toml_doc::set_or_dropped(e1, "model"@, text_node(pieces::opt_text(cfg.model)));
    let e3 = toml_doc::put(e2, "top_k"@, TomlNode::Number((cfg.top_k as i64) as int));
    toml_doc::put(e3, "output_n"@, TomlNode::Number((cfg.output_n as i64) as int))
}

pub open spec fn with_reranker(doc: Seq<(Seq<char>, TomlNode)>, m: WorkspaceManifest) -> Seq<
    (Seq<char>, TomlNode),
> {
    match m.reranker {
        Some(cfg) => toml_doc::put(
            doc,
            "reranker"@,
            TomlNode::Section(reranker_items(section_entries(doc, "reranker"@), cfg)),
        ),
        None => doc,
    }
}

/// A document with a manifest written into it. The lists of the manifest are written
/// anew; its settings are written over those of the document, and a section of
/// settings that the manifest does not have stays as it is.
pub open spec fn updated(doc: Seq<(Seq<char>, TomlNode)>, m: WorkspaceManifest) -> Seq<
    (Seq<char>, TomlNode),
> {
    let d1 = with_workspace(doc, m);
    let d2 = with_registries(d1, m);
    let d3 = with_dependencies(d2, m);
    let d4 = with_groups(d3, m);
    let d5 = with_packages(d4, m);
    let d6 = with_embedding(d5, m);
    let d7 = with_expansion(d6, m);
    with_reranker(d7, m)
}

/// The document has something other than an array of tables where the registries go.
pub open spec fn registries_blocked(
    doc: Seq<(Seq<char>, TomlNode)>,
    m: WorkspaceManifest,
) -> bool {
    m.registries@.len() > 0 && match toml_doc::lookup(with_workspace(doc, m), "registry"@) {
        None => false,
        Some(n) => !(n is Rows),
    }
}

fn write_dependency_table(deps: &StringMap<DependencyEntry>) -> (t: toml_edit::Table)
    ensures
        toml_doc::table_entries(t) == dep_table(dep_rows(*deps)),
{
    let mut t = new_table();
    let ghost all = dep_rows(*deps);
    let mut i: usize = 0;
    assert(toml_doc::table_entries(t) =~= dep_table(all.take(0)));
    while i < deps.entries.len()
        invariant
            i <= deps.entries@.len(),
            all == dep_rows(*deps),
            toml_doc::table_entries(t) == dep_table(all.take(i as int)),
        decreases deps.entries.len() - i,
    {
        proof {
            assert(all.take(i + 1).drop_last() =~= all.take(i as int));
            assert(all.take(i + 1).last() == all[i as int]);
        }
        table_insert(
            &mut t,
            deps.entries[i].0.as_str(),
            value_item(inline_value(dep_inline(&deps.entries[i].1))),
        );
        i = i + 1;
    }
    assert(all.take(deps.entries@.len() as int) =~= all);
    t
}

fn write_group(deps: &StringMap<DependencyEntry>) -> (t: toml_edit::InlineTable)
    ensures
        toml_doc::inline_entries(t) == dep_table(dep_rows(*deps)),
{
    let mut t = new_inline();
    let ghost all = dep_rows(*deps);
    let mut i: usize = 0;
    assert(toml_doc::inline_entries(t) =~= dep_table(all.take(0)));
    while i < deps.entries.len()
        invariant
            i <= deps.entries@.len(),
            all == dep_rows(*deps),
            toml_doc::inline_entries(t) == dep_table(all.take(i as int)),
        decreases deps.entries.len() - i,
    {
        proof {
            assert(all.take(i + 1).drop_last() =~= all.take(i as int));
            assert(all.take(i + 1).last() == all[i as int]);
        }
        inline_insert(
            &mut t,
            deps.entries[i].0.as_str(),
            inline_value(dep_inline(&deps.entries[i].1)),
        );
        i = i + 1;
    }
    assert(all.take(deps.entries@.len() as int) =~= all);
    t
}

fn write_group_table(groups: &StringMap<StringMap<DependencyEntry>>) -> (t: toml_edit::Table)
    ensures
        toml_doc::table_entries(t) == group_table(group_rows(*groups)),
{
    let mut t = new_table();
    let ghost all = group_rows(*groups);
    let mut i: usize = 0;
    assert(toml_doc::table_entries(t) =~= group_table(all.take(0)));
    while i < groups.entries.len()
        invariant
            i <= groups.entries@.len(),
            all == group_rows(*groups),
            toml_doc::table_entries(t) == group_table(all.take(i as int)),
        decreases groups.entries.len() - i,
    {
        proof {
            assert(all.take(i + 1).drop_last() =~= all.take(i as int));
            assert(all.take(i + 1).last() == all[i as int]);
        }
        table_insert(
            &mut t,
            groups.entries[i].0.as_str(),
            value_item(inline_value(write_group(&groups.entries[i].1))),
        );
        i = i + 1;
    }
    assert(all.take(groups.entries@.len() as int) =~= all);
    t
}

fn write_package_table(packages: &StringMap<PackageEntry>) -> (t: toml_edit::Table)
    ensures
        toml_doc::table_entries(t) == package_table(packages.entries@),
{
    let mut t = new_table();
    let ghost all = packages.entries@;
    let mut i: usize = 0;
    assert(toml_doc::table_entries(t) =~= package_table(all.take(0)));
    while i < packages.entries.len()
        invariant
            i <= packages.entries@.len(),
            all == packages.entries@,
            toml_doc::table_entries(t) == package_table(all.take(i as int)),
        decreases packages.entries.len() - i,
    {
        proof {
            assert(all.take(i + 1).drop_last() =~= all.take(i as int));
            assert(all.take(i + 1).last() == all[i as int]);
        }
        let p = &packages.entries[i].1;
        let mut it = new_inline();
        assert(toml_doc::inline_entries(it) =~= seq![]);
        inline_insert(&mut it, "path", text_value(p.path.as_str()));
        if !p.description.as_str().is_empty() {
            inline_insert(&mut it, "description", text_value(p.description.as_str()));
        }
        assert(toml_doc::inline_entries(it) == package_items(*p));
        table_insert(
            &mut t,
            packages.entries[i].0.as_str(),
            value_item(inline_value(it)),
        );
        i = i + 1;
    }
    assert(all.take(packages.entries@.len() as int) =~= all);
    t
}

fn write_registries(rs: &Vec<RegistryEntry>) -> (a: toml_edit::ArrayOfTables)
    ensures
        toml_doc::row_entries(a) == registry_rows(rs@),
{
    let mut a = new_rows();
    let ghost all = registry_rows(rs@);
    let mut i: usize = 0;
    assert(toml_doc::row_entries(a) =~= all.take(0));
    while i < rs.len()
        invariant
            i <= rs@.len(),
            all == registry_rows(rs@),
            toml_doc::row_entries(a) == all.take(i as int),
        decreases rs.len() - i,
    {
        let mut t = new_table();
        assert(toml_doc::table_entries(t) =~= seq![]);
        table_insert(&mut t, "name", value_item(text_value(rs[i].name.as_str())));
        table_insert(&mut t, "url", value_item(text_value(rs[i].url.as_str())));
        assert(toml_doc::table_entries(t) == all[i as int]);
        rows_push(&mut a, t);
        i = i + 1;
        assert(all.take(i as int) =~= all.take(i - 1).push(all[i - 1]));
    }
    assert(all.take(rs@.len() as int) =~= all);
    a
}

/// The sections that are written anew from the lists of a manifest.
pub open spec fn is_list_section(k: Seq<char>) -> bool {
    k == "workspace"@
        || k == "registry"@
        || k == "dependencies"@
        || k == "dependency-groups"@
        || k == "packages"@
}

/// A setting that is written into a section of settings.
pub open spec fn is_setting(section: Seq<char>, key: Seq<char>) -> bool {
    key == "enabled"@ || key == "model"@ || if section == "embedding"@ {
        key == "n_ctx"@ || key == "gpu_layers"@
    } else if section == "query_expansion"@ {
        key == "max_variants"@ || key == "max_tokens"@ || key == "n_ctx"@ || key == "gpu_layers"@
    } else {
        key == "top_k"@ || key == "output_n"@
    }
}

/// A section of settings that a manifest has, and whether it names a model.
pub open spec fn settings_in(m: WorkspaceManifest, section: Seq<char>) -> Option<bool> {
    if section == "embedding"@ {
        match m.embedding {
            Some(cfg) => Some(cfg.model is Some),
            None => None,
        }
    } else if section == "query_expansion"@ {
        match m.query_expansion {
            Some(cfg) => Some(cfg.model is Some),
            None => None,
        }
    } else if section == "reranker"@ {
        match m.reranker {
            Some(cfg) => Some(cfg.model is Some),
            None => None,
        }
    } else {
        None
    }
}

/// A section of settings: where the settings stand.
pub open spec fn settings_rewritten(section: Seq<char>) -> spec_fn(Seq<Seq<char>>) -> bool {
    |p: Seq<Seq<char>>| p.len() > 0 && is_setting(section, p[0])
}

/// A section of settings: what loses its comments. It is the model, where none is named, and
/// a table that stands where a setting goes.
pub open spec fn settings_dropped(section: Seq<char>, named: bool) -> spec_fn(
    Seq<Seq<char>>,
) -> bool {
    |p: Seq<Seq<char>>|
        p.len() > 0 && is_setting(section, p[0]) && (p.len() > 1 || (p[0] == "model"@ && !named))
}

/// Where a manifest is written into a document: its lists, and its settings. A section of
/// settings that is no table is written anew.
pub open spec fn rewritten(l: Layout, m: WorkspaceManifest) -> spec_fn(Seq<Seq<char>>) -> bool {
    |p: Seq<Seq<char>>|
        p.len() > 0 && (is_list_section(p[0]) || (settings_in(m, p[0]) is Some && (
        !toml_layout::at_header(l, p[0]) || settings_rewritten(p[0])(p.skip(1)))))
}

/// What loses its comments where a manifest is written into a document.
pub open spec fn dropped(l: Layout, m: WorkspaceManifest) -> spec_fn(Seq<Seq<char>>) -> bool {
    |p: Seq<Seq<char>>|
        p.len() > 0 && (is_list_section(p[0]) || (settings_in(m, p[0]) matches Some(named) && (
        !toml_layout::at_header(l, p[0]) || settings_dropped(p[0], named)(p.skip(1)))))
}

/// What is kept of a document's layout: what the manifest is not written to is written as
/// before, and a setting that is written has the comments that it had.
pub open spec fn keeps_layout(before: Layout, after: Layout, m: WorkspaceManifest) -> bool {
    toml_layout::keeps(before, after, rewritten(before, m), dropped(before, m))
}

proof fn lemma_list_written(l: Layout, a: Layout, b: Layout, m: WorkspaceManifest, key: Seq<char>)
    requires
        keeps_layout(l, a, m),
        toml_layout::apart(a, b, key),
        is_list_section(key),
    ensures
        keeps_layout(l, b, m),
{
    toml_layout::lemma_replaced(a, b, key, rewritten(l, m), dropped(l, m));
    toml_layout::lemma_keeps_on(l, a, b, rewritten(l, m), dropped(l, m));
}

/// A section of settings was opened, changed and put back.
proof fn lemma_settings_written(
    l: Layout,
    a: Layout,
    b: Layout,
    m: WorkspaceManifest,
    key: Seq<char>,
    opened: Layout,
    closed_with: Layout,
)
    requires
        keeps_layout(l, a, m),
        settings_in(m, key) is Some,
        toml_layout::apart(a, b, key),
        toml_layout::at_header(a, key) ==> toml_layout::under(a, key) == opened,
        toml_layout::under(b, key) == closed_with,
        toml_layout::keeps(
            opened,
            closed_with,
            settings_rewritten(key),
            settings_dropped(key, settings_in(m, key)->0),
        ),
    ensures
        keeps_layout(l, b, m),
{
    lemma_section_names_differ();
    let r = rewritten(l, m);
    let d = dropped(l, m);
    if toml_layout::at_header(l, key) {
        assert(seq![key].skip(1) =~= seq![]);
        assert(!r(seq![key]));
        toml_layout::lemma_header_stays(l, a, key, r, d);
        toml_layout::lemma_under(
            a,
            b,
            key,
            settings_rewritten(key),
            settings_dropped(key, settings_in(m, key)->0),
            r,
            d,
        );
    } else {
        toml_layout::lemma_replaced(a, b, key, r, d);
    }
    toml_layout::lemma_keeps_on(l, a, b, r, d);
}

proof fn lemma_setting_written(
    s: Layout,
    a: Layout,
    b: Layout,
    section: Seq<char>,
    named: bool,
    key: Seq<char>,
)
    requires
        toml_layout::keeps(s, a, settings_rewritten(section), settings_dropped(section, named)),
        toml_layout::is_set(a, b, key) || (toml_layout::apart(a, b, key) && key == "model"@
            && !named),
        is_setting(section, key),
    ensures
        toml_layout::keeps(s, b, settings_rewritten(section), settings_dropped(section, named)),
{
    let r = settings_rewritten(section);
    let d = settings_dropped(section, named);
    if toml_layout::is_set(a, b, key) {
        toml_layout::lemma_set(a, b, key, r, d);
    } else {
        toml_layout::lemma_replaced(a, b, key, r, d);
    }
    toml_layout::lemma_keeps_on(s, a, b, r, d);
}

fn open_section(doc: &toml_edit::Table, key: &str) -> (t: toml_edit::Table)
    ensures
        toml_doc::table_entries(t) == section_entries(toml_doc::table_entries(*doc), key@),
        toml_layout::at_header(toml_doc::table_layout(*doc), key@) ==> toml_layout::under(
            toml_doc::table_layout(*doc),
            key@,
        ) == toml_doc::table_layout(t),
{
    match copy_section(doc, key) {
        Some(t) => t,
        None => {
            let t = new_table();
            assert(toml_doc::table_entries(t) =~= seq![]);
            t
        },
    }
}

fn set_model(t: &mut toml_edit::Table, model: &Option<String>)
    ensures
        toml_doc::table_entries(*final(t)) == toml_doc::set_or_dropped(
            toml_doc::table_entries(*old(t)),
            "model"@,
            text_node(pieces::opt_text(*model)),
        ),
        if model is Some {
            toml_layout::is_set(
                toml_doc::table_layout(*old(t)),
                toml_doc::table_layout(*final(t)),
                "model"@,
            )
        } else {
            toml_layout::apart(
                toml_doc::table_layout(*old(t)),
                toml_doc::table_layout(*final(t)),
                "model"@,
            )
        },
{
    match model {
        Some(m) => {
            set_setting(t, "model", text_value(m.as_str()));
        },
        None => {
            table_remove(t, "model");
        },
    }
}

fn set_number(t: &mut toml_edit::Table, key: &str, n: i64)
    ensures
        toml_doc::table_entries(*final(t)) == toml_doc::put(
            toml_doc::table_entries(*old(t)),
            key@,
            TomlNode::Number(n as int),
        ),
        toml_layout::is_set(
            toml_doc::table_layout(*old(t)),
            toml_doc::table_layout(*final(t)),
            key@,
        ),
{
    set_setting(t, key, number_value(n));
}

/// Write the settings that every section of settings has.
fn set_common(
    t: &mut toml_edit::Table,
    enabled: bool,
    model: &Option<String>,
    Ghost(section): Ghost<Seq<char>>,
)
    ensures
        toml_doc::table_entries(*final(t)) == toml_doc::set_or_dropped(
            toml_doc::put(toml_doc::table_entries(*old(t)), "enabled"@, TomlNode::Flag(enabled)),
            "model"@,
            text_node(pieces::opt_text(*model)),
        ),
        toml_layout::keeps(
            toml_doc::table_layout(*old(t)),
            toml_doc::table_layout(*final(t)),
            settings_rewritten(section),
            settings_dropped(section, model is Some),
        ),
{
    let ghost s = toml_doc::table_layout(*t);
    proof {
        toml_layout::lemma_keeps_self(
            s,
            settings_rewritten(section),
            settings_dropped(section, model is Some),
        );
    }
    set_setting(t, "enabled", flag_value(enabled));
    let ghost l = toml_doc::table_layout(*t);
    proof {
        lemma_setting_written(s, s, l, section, model is Some, "enabled"@);
    }
    set_model(t, model);
    proof {
        lemma_setting_written(
            s,
            l,
            toml_doc::table_layout(*t),
            section,
            model is Some,
            "model"@,
        );
    }
}

/// Write a number among the settings.
fn add_number(
    t: &mut toml_edit::Table,
    key: &str,
    n: i64,
    Ghost(before): Ghost<Layout>,
    Ghost(section): Ghost<Seq<char>>,
    Ghost(named): Ghost<bool>,
)
    requires
        is_setting(section, key@),
        toml_layout::keeps(
            before,
            toml_doc::table_layout(*old(t)),
            settings_rewritten(section),
            settings_dropped(section, named),
        ),
    ensures
        toml_doc::table_entries(*final(t)) == toml_doc::put(
            toml_doc::table_entries(*old(t)),
            key@,
            TomlNode::Number(n as int),
        ),
        toml_layout::keeps(
            before,
            toml_doc::table_layout(*final(t)),
            settings_rewritten(section),
            settings_dropped(section, named),
        ),
{
    let ghost l = toml_doc::table_layout(*t);
    set_number(t, key, n);
    proof {
        lemma_setting_written(
            before,
            l,
            toml_doc::table_layout(*t),
            section,
            named,
            key@,
        );
    }
}

/// Write the lists of a manifest into a document.
fn write_lists(doc: &mut toml_edit::Table, manifest: &WorkspaceManifest) -> (r: Result<(), String>)
    ensures
        match r {
            Ok(_) => !registries_blocked(toml_doc::table_entries(*old(doc)), *manifest)
                && toml_doc::table_entries(*final(doc)) == with_packages(
                with_groups(
                    with_dependencies(
                        with_registries(
                            with_workspace(toml_doc::table_entries(*old(doc)), *manifest),
                            *manifest,
                        ),
                        *manifest,
                    ),
                    *manifest,
                ),
                *manifest,
            ) && keeps_layout(
                toml_doc::table_layout(*old(doc)),
                toml_doc::table_layout(*final(doc)),
                *manifest,
            ),
            Err(e) => registries_blocked(toml_doc::table_entries(*old(doc)), *manifest) && e@
                == "registry must be an array of tables"@,
        },
{
    let ghost l = toml_doc::table_layout(*doc);
    proof {
        toml_layout::lemma_keeps_self(l, rewritten(l, *manifest), dropped(l, *manifest));
    }
    match &manifest.workspace {
        Some(ws) => {
            let mut t = new_table();
            proof {
                assert(toml_doc::table_entries(t) =~= seq![]);
                reveal(toml_doc::with_node);
            }
            match &ws.verify_key {
                Some(k) => {
                    table_insert(&mut t, "verify_key", value_item(text_value(k.as_str())));
                },
                None => {},
            }
            table_insert(doc, "workspace", table_item(t));
        },
        None => {
            table_remove(doc, "workspace");
        },
    }
    let ghost l1 = toml_doc::table_layout(*doc);
    if manifest.registries.len() > 0 {
        if !takes_rows(doc, "registry") {
            return Err("registry must be an array of tables".to_owned());
        }
        table_insert(doc, "registry", rows_item(write_registries(&manifest.registries)));
    } else {
        table_remove(doc, "registry");
    }
    let ghost l2 = toml_doc::table_layout(*doc);
    if manifest.dependencies.len() > 0 {
        table_insert(
            doc,
            "dependencies",
            table_item(write_dependency_table(&manifest.dependencies)),
        );
    } else {
        table_remove(doc, "dependencies");
    }
    let ghost l3 = toml_doc::table_layout(*doc);
    if manifest.dependency_groups.len() > 0 {
        table_insert(
            doc,
            "dependency-groups",
            table_item(write_group_table(&manifest.dependency_groups)),
        );
    } else {
        table_remove(doc, "dependency-groups");
    }
    let ghost l4 = toml_doc::table_layout(*doc);
    if manifest.packages.len() > 0 {
        table_insert(doc, "packages", table_item(write_package_table(&manifest.packages)));
    } else {
        table_remove(doc, "packages");
    }
    proof {
        lemma_list_written(l, l, l1, *manifest, "workspace"@);
        lemma_list_written(l, l1, l2, *manifest, "registry"@);
        lemma_list_written(l, l2, l3, *manifest, "dependencies"@);
        lemma_list_written(l, l3, l4, *manifest, "dependency-groups"@);
        lemma_list_written(l, l4, toml_doc::table_layout(*doc), *manifest, "packages"@);
    }
    Ok(())
}

/// Write `[embedding]` into a document.
fn write_embedding(doc: &mut toml_edit::Table, manifest: &WorkspaceManifest, Ghost(l): Ghost<Layout>)
    requires
        keeps_layout(l, toml_doc::table_layout(*old(doc)), *manifest),
    ensures
        toml_doc::table_entries(*final(doc)) == with_embedding(
            toml_doc::table_entries(*old(doc)),
            *manifest,
        ),
        keeps_layout(l, toml_doc::table_layout(*final(doc)), *manifest),
{
    match &manifest.embedding {
        Some(cfg) => {
            let ghost section = "embedding"@;
            let ghost named = cfg.model is Some;
            proof {
                lemma_section_names_differ();
            }
            let mut t = open_section(doc, "embedding");
            let ghost opened = toml_doc::table_layout(t);
            set_common(&mut t, cfg.enabled, &cfg.model, Ghost(section));
            add_number(
                &mut t,
                "n_ctx",
                cfg.n_ctx as i64,
                Ghost(opened),
                Ghost(section),
                Ghost(named),
            );
            add_number(
                &mut t,
                "gpu_layers",
                cfg.gpu_layers as i64,
                Ghost(opened),
                Ghost(section),
                Ghost(named),
            );
            let ghost a = toml_doc::table_layout(*doc);
            let ghost changed = toml_doc::table_layout(t);
            table_insert(doc, "embedding", table_item(t));
            proof {
                let b = toml_doc::table_layout(*doc);
                lemma_settings_written(l, a, b, *manifest, section, opened, changed);
            }
        },
        None => {},
    }
}

/// Write `[query_expansion]` into a document.
fn write_expansion(doc: &mut toml_edit::Table, manifest: &WorkspaceManifest, Ghost(l): Ghost<Layout>)
    requires
        keeps_layout(l, toml_doc::table_layout(*old(doc)), *manifest),
    ensures
        toml_doc::table_entries(*final(doc)) == with_expansion(
            toml_doc::table_entries(*old(doc)),
            *manifest,
        ),
        keeps_layout(l, toml_doc::table_layout(*final(doc)), *manifest),
{
    match &manifest.query_expansion {
        Some(cfg) => {
            let ghost section = "query_expansion"@;
            let ghost named = cfg.model is Some;
            proof {
                lemma_section_names_differ();
            }
            let mut t = open_section(doc, "query_expansion");
            let ghost opened = toml_doc::table_layout(t);
            set_common(&mut t, cfg.enabled, &cfg.model, Ghost(section));
            add_number(
                &mut t,
                "max_variants",
                cfg.max_variants as i64,
                Ghost(opened),
                Ghost(section),
                Ghost(named),
            );
            add_number(
                &mut t,
                "max_tokens",
                cfg.max_tokens as i64,
                Ghost(opened),
                Ghost(section),
                Ghost(named),
            );
            add_number(
                &mut t,
                "n_ctx",
                cfg.n_ctx as i64,
                Ghost(opened),
                Ghost(section),
                Ghost(named),
            );
            add_number(
                &mut t,
                "gpu_layers",
                cfg.gpu_layers as i64,
                Ghost(opened),
                Ghost(section),
                Ghost(named),
            );
            let ghost a = toml_doc::table_layout(*doc);
            let ghost changed = toml_doc::table_layout(t);
            table_insert(doc, "query_expansion", table_item(t));
            proof {
                let b = toml_doc::table_layout(*doc);
                lemma_settings_written(l, a, b, *manifest, section, opened, changed);
            }
        },
        None => {},
    }
}

/// Write `[reranker]` into a document.
fn write_reranker(doc: &mut toml_edit::Table, manifest: &WorkspaceManifest, Ghost(l): Ghost<Layout>)
    requires
        keeps_layout(l, toml_doc::table_layout(*old(doc)), *manifest),
    ensures
        toml_doc::table_entries(*final(doc)) == with_reranker(
            toml_doc::table_entries(*old(doc)),
            *manifest,
        ),
        keeps_layout(l, toml_doc::table_layout(*final(doc)), *manifest),
{
    match &manifest.reranker {
        Some(cfg) => {
            let ghost section = "reranker"@;
            let ghost named = cfg.model is Some;
            proof {
                lemma_section_names_differ();
            }
            let mut t = open_section(doc, "reranker");
            let ghost opened = toml_doc::table_layout(t);
            set_common(&mut t, cfg.enabled, &cfg.model, Ghost(section));
            add_number(
                &mut t,
                "top_k",
                cfg.top_k as i64,
                Ghost(opened),
                Ghost(section),
                Ghost(named),
            );
            add_number(
                &mut t,
                "output_n",
                cfg.output_n as i64,
                Ghost(opened),
                Ghost(section),
                Ghost(named),
            );
            let ghost a = toml_doc::table_layout(*doc);
            let ghost changed = toml_doc::table_layout(t);
            table_insert(doc, "reranker", table_item(t));
            proof {
                let b = toml_doc::table_layout(*doc);
                lemma_settings_written(l, a, b, *manifest, section, opened, changed);
            }
        },
        None => {},
    }
}

/// Write a manifest into the document of its file. What the manifest does not know of
/// stays, as it is written, and what is set anew keeps its comments. It fails where the
/// document has something else in the registries' place.
///
/// The sampling temperature of `[query_expansion]` is the caller's to write.
pub fn update_document(doc: &mut toml_edit::Table, manifest: &WorkspaceManifest) -> (r: Result<
    (),
    String,
>)
    ensures
        match r {
            Ok(_) => !registries_blocked(toml_doc::table_entries(*old(doc)), *manifest)
                && toml_doc::table_entries(*final(doc)) == updated(
                toml_doc::table_entries(*old(doc)),
                *manifest,
            ) && keeps_layout(
                toml_doc::table_layout(*old(doc)),
                toml_doc::table_layout(*final(doc)),
                *manifest,
            ),
            Err(e) => registries_blocked(toml_doc::table_entries(*old(doc)), *manifest) && e@
                == "registry must be an array of tables"@,
        },
{
    let ghost l = toml_doc::table_layout(*doc);
    match write_lists(doc, manifest) {
        Ok(_) => {},
        Err(e) => {
            return Err(e);
        },
    }
    write_embedding(doc, manifest, Ghost(l));
    write_expansion(doc, manifest, Ghost(l));
    write_reranker(doc, manifest, Ghost(l));
    Ok(())
}

/// The sections that a manifest is written into.
pub open spec fn is_manifest_section(k: Seq<char>) -> bool {
    k == "workspace"@
        || k == "registry"@
        || k == "dependencies"@
        || k == "dependency-groups"@
        || k == "packages"@
        || k == "embedding"@
        || k == "query_expansion"@
        || k == "reranker"@
}

proof fn lemma_section_names_differ()
    ensures
        "workspace"@ != "registry"@,
        "workspace"@ != "dependencies"@,
        "workspace"@ != "dependency-groups"@,
        "workspace"@ != "packages"@,
        "workspace"@ != "embedding"@,
        "workspace"@ != "query_expansion"@,
        "workspace"@ != "reranker"@,
        "registry"@ != "dependencies"@,
        "registry"@ != "dependency-groups"@,
        "registry"@ != "packages"@,
        "registry"@ != "embedding"@,
        "registry"@ != "query_expansion"@,
        "registry"@ != "reranker"@,
        "dependencies"@ != "dependency-groups"@,
        "dependencies"@ != "packages"@,
        "dependencies"@ != "embedding"@,
        "dependencies"@ != "query_expansion"@,
        "dependencies"@ != "reranker"@,
        "dependency-groups"@ != "packages"@,
        "dependency-groups"@ != "embedding"@,
        "dependency-groups"@ != "query_expansion"@,
        "dependency-groups"@ != "reranker"@,
        "packages"@ != "embedding"@,
        "packages"@ != "query_expansion"@,
        "packages"@ != "reranker"@,
        "embedding"@ != "query_expansion"@,
        "embedding"@ != "reranker"@,
        "query_expansion"@ != "reranker"@,
{
    reveal_strlit("workspace");
    reveal_strlit("registry");
    reveal_strlit("dependencies");
    reveal_strlit("dependency-groups");
    reveal_strlit("packages");
    reveal_strlit("embedding");
    reveal_strlit("query_expansion");
    reveal_strlit("reranker");
    assert("workspace"@.len() == 9);
    assert("registry"@.len() == 8);
    assert("dependencies"@.len() == 12);
    assert("dependency-groups"@.len() == 17);
    assert("packages"@.len() == 8);
    assert("embedding"@.len() == 9);
    assert("query_expansion"@.len() == 15);
    assert("reranker"@.len() == 8);
    assert("workspace"@[0] != "embedding"@[0]);
    assert("registry"@[0] != "packages"@[0]);
    assert("registry"@[2] != "reranker"@[2]);
    assert("packages"@[0] != "reranker"@[0]);
}

/// What each section of a written document is.
proof fn lemma_updated(doc: Seq<(Seq<char>, TomlNode)>, m: WorkspaceManifest, k: Seq<char>)
    requires
        toml_doc::distinct(doc),
    ensures
        !is_manifest_section(k) ==> toml_doc::lookup(updated(doc, m), k) == toml_doc::lookup(
            doc,
            k,
        ),
        toml_doc::lookup(updated(doc, m), "workspace"@) == toml_doc::lookup(
            with_workspace(doc, m),
            "workspace"@,
        ),
        toml_doc::lookup(updated(doc, m), "registry"@) == toml_doc::lookup(
            with_registries(doc, m),
            "registry"@,
        ),
        toml_doc::lookup(updated(doc, m), "packages"@) == toml_doc::lookup(
            with_packages(doc, m),
            "packages"@,
        ),
        toml_doc::lookup(updated(doc, m), "dependencies"@) == toml_doc::lookup(
            with_dependencies(doc, m),
            "dependencies"@,
        ),
        toml_doc::lookup(updated(doc, m), "dependency-groups"@) == toml_doc::lookup(
            with_groups(doc, m),
            "dependency-groups"@,
        ),
        toml_doc::lookup(updated(doc, m), "embedding"@) == toml_doc::lookup(
            with_embedding(doc, m),
            "embedding"@,
        ),
        toml_doc::lookup(updated(doc, m), "query_expansion"@) == toml_doc::lookup(
            with_expansion(doc, m),
            "query_expansion"@,
        ),
        toml_doc::lookup(updated(doc, m), "reranker"@) == toml_doc::lookup(
            with_reranker(doc, m),
            "reranker"@,
        ),
{
    lemma_section_names_differ();
    let d1 = with_workspace(doc, m);
    let d2 = with_registries(d1, m);
    let d3 = with_dependencies(d2, m);
    let d4 = with_groups(d3, m);
    let d5 = with_packages(d4, m);
    let d6 = with_embedding(d5, m);
    let d7 = with_expansion(d6, m);
    let d8 = with_reranker(d7, m);
    lemma_steps(doc, m, k);
    lemma_steps(doc, m, "workspace"@);
    lemma_steps(doc, m, "registry"@);
    lemma_steps(doc, m, "packages"@);
    lemma_steps(doc, m, "dependencies"@);
    lemma_steps(doc, m, "dependency-groups"@);
    lemma_steps(doc, m, "embedding"@);
    lemma_steps(doc, m, "query_expansion"@);
    lemma_steps(doc, m, "reranker"@);
    assert(d8 == updated(doc, m));
}

/// Each step of writing a document changes its own section and no other.
proof fn lemma_steps(doc: Seq<(Seq<char>, TomlNode)>, m: WorkspaceManifest, k: Seq<char>)
    requires
        toml_doc::distinct(doc),
    ensures
        ({
            let d1 = with_workspace(doc, m);
            let d2 = with_registries(d1, m);
            let d3 = with_dependencies(d2, m);
            let d4 = with_groups(d3, m);
            let d5 = with_packages(d4, m);
            let d6 = with_embedding(d5, m);
            let d7 = with_expansion(d6, m);
            let d8 = with_reranker(d7, m);
            &&& k != "workspace"@ ==> toml_doc::lookup(d1, k) == toml_doc::lookup(doc, k)
            &&& toml_doc::lookup(d2, k) == (if k == "registry"@ {
                toml_doc::lookup(with_registries(doc, m), k)
            } else {
                toml_doc::lookup(d1, k)
            })
            &&& toml_doc::lookup(d3, k) == (if k == "dependencies"@ {
                toml_doc::lookup(with_dependencies(doc, m), k)
            } else {
                toml_doc::lookup(d2, k)
            })
            &&& toml_doc::lookup(d4, k) == (if k == "dependency-groups"@ {
                toml_doc::lookup(with_groups(doc, m), k)
            } else {
                toml_doc::lookup(d3, k)
            })
            &&& toml_doc::lookup(d5, k) == (if k == "packages"@ {
                toml_doc::lookup(with_packages(doc, m), k)
            } else {
                toml_doc::lookup(d4, k)
            })
            &&& k != "embedding"@ ==> toml_doc::lookup(d6, k) == toml_doc::lookup(d5, k)
            &&& k == "embedding"@ && toml_doc::lookup(d5, k) == toml_doc::lookup(doc, k)
                ==> toml_doc::lookup(d6, k) == toml_doc::lookup(with_embedding(doc, m), k)
            &&& k != "query_expansion"@ ==> toml_doc::lookup(d7, k) == toml_doc::lookup(d6, k)
            &&& k == "query_expansion"@ && toml_doc::lookup(d6, k) == toml_doc::lookup(doc, k)
                ==> toml_doc::lookup(d7, k) == toml_doc::lookup(with_expansion(doc, m), k)
            &&& k != "reranker"@ ==> toml_doc::lookup(d8, k) == toml_doc::lookup(d7, k)
            &&& k == "reranker"@ && toml_doc::lookup(d7, k) == toml_doc::lookup(doc, k)
                ==> toml_doc::lookup(d8, k) == toml_doc::lookup(with_reranker(doc, m), k)
        }),
{
    let d1 = with_workspace(doc, m);
    let n1 = match m.workspace {
        Some(ws) => Some(
            TomlNode::Section(
                toml_doc::with_node(
                    seq![],
                    "verify_key"@,
                    text_node(pieces::opt_text(ws.verify_key)),
                ),
            ),
        ),
        None => None,
    };
    toml_doc::lemma_set_or_dropped(doc, "workspace"@, n1, k);
    let d2 = with_registries(d1, m);
    let n2 = if m.registries@.len() > 0 {
        Some(TomlNode::Rows(registry_rows(m.registries@)))
    } else {
        None
    };
    toml_doc::lemma_set_or_dropped(d1, "registry"@, n2, k);
    toml_doc::lemma_set_or_dropped(doc, "registry"@, n2, k);
    let d3 = with_dependencies(d2, m);
    let n3 = if m.dependencies.entries@.len() > 0 {
        Some(TomlNode::Section(dep_table(dep_rows(m.dependencies))))
    } else {
        None
    };
    toml_doc::lemma_set_or_dropped(d2, "dependencies"@, n3, k);
    toml_doc::lemma_set_or_dropped(doc, "dependencies"@, n3, k);
    let d4 = with_groups(d3, m);
    let n4 = if m.dependency_groups.entries@.len() > 0 {
        Some(TomlNode::Section(group_table(group_rows(m.dependency_groups))))
    } else {
        None
    };
    toml_doc::lemma_set_or_dropped(d3, "dependency-groups"@, n4, k);
    toml_doc::lemma_set_or_dropped(doc, "dependency-groups"@, n4, k);
    let d5 = with_packages(d4, m);
    let n5 = if m.packages.entries@.len() > 0 {
        Some(TomlNode::Section(package_table(m.packages.entries@)))
    } else {
        None
    };
    toml_doc::lemma_set_or_dropped(d4, "packages"@, n5, k);
    toml_doc::lemma_set_or_dropped(doc, "packages"@, n5, k);
    let d6 = with_embedding(d5, m);
    match m.embedding {
        Some(cfg) => {
            let x = TomlNode::Section(embedding_items(section_entries(d5, "embedding"@), cfg));
            let y = TomlNode::Section(embedding_items(section_entries(doc, "embedding"@), cfg));
            toml_doc::lemma_put(d5, "embedding"@, x, k);
            toml_doc::lemma_put(doc, "embedding"@, y, k);
        },
        None => {},
    }
    let d7 = with_expansion(d6, m);
    match m.query_expansion {
        Some(cfg) => {
            let x = TomlNode::Section(
                expansion_items(section_entries(d6, "query_expansion"@), cfg),
            );
            let y = TomlNode::Section(
                expansion_items(section_entries(doc, "query_expansion"@), cfg),
            );
            toml_doc::lemma_put(d6, "query_expansion"@, x, k);
            toml_doc::lemma_put(doc, "query_expansion"@, y, k);
        },
        None => {},
    }
    match m.reranker {
        Some(cfg) => {
            let x = TomlNode::Section(reranker_items(section_entries(d7, "reranker"@), cfg));
            let y = TomlNode::Section(reranker_items(section_entries(doc, "reranker"@), cfg));
            toml_doc::lemma_put(d7, "reranker"@, x, k);
            toml_doc::lemma_put(doc, "reranker"@, y, k);
        },
        None => {},
    }
}

/// Writing a manifest leaves every section that is not the manifest's alone.
pub proof fn foreign_sections_are_kept(
    doc: Seq<(Seq<char>, TomlNode)>,
    m: WorkspaceManifest,
    k: Seq<char>,
)
    requires
        toml_doc::distinct(doc),
        !is_manifest_section(k),
    ensures
        toml_doc::lookup(updated(doc, m), k) == toml_doc::lookup(doc, k),
{
    lemma_updated(doc, m, k);
}

/// A section of settings that the manifest does not have is kept as the document has
/// it.
pub proof fn unmanaged_settings_are_kept(doc: Seq<(Seq<char>, TomlNode)>, m: WorkspaceManifest)
    requires
        toml_doc::distinct(doc),
    ensures
        m.embedding is None ==> toml_doc::lookup(updated(doc, m), "embedding"@)
            == toml_doc::lookup(doc, "embedding"@),
        m.query_expansion is None ==> toml_doc::lookup(updated(doc, m), "query_expansion"@)
            == toml_doc::lookup(doc, "query_expansion"@),
        m.reranker is None ==> toml_doc::lookup(updated(doc, m), "reranker"@)
            == toml_doc::lookup(doc, "reranker"@),
{
    lemma_updated(doc, m, "embedding"@);
}

/// Inside a section of settings that the manifest has, its own settings are written
/// and every other entry is kept.
pub proof fn other_settings_of_a_section_are_kept(
    doc: Seq<(Seq<char>, TomlNode)>,
    m: WorkspaceManifest,
    k: Seq<char>,
)
    requires
        toml_doc::distinct(doc),
        toml_doc::distinct(section_entries(doc, "embedding"@)),
        toml_doc::distinct(section_entries(doc, "query_expansion"@)),
        toml_doc::distinct(section_entries(doc, "reranker"@)),
        k != "enabled"@ && k != "model"@,
    ensures
        m.embedding is Some && k != "n_ctx"@ && k != "gpu_layers"@ ==> toml_doc::lookup(
            section_entries(updated(doc, m), "embedding"@),
            k,
        ) == toml_doc::lookup(section_entries(doc, "embedding"@), k),
        m.query_expansion is Some && k != "max_variants"@ && k != "max_tokens"@ && k != "n_ctx"@ && k
            != "gpu_layers"@ ==> toml_doc::lookup(
            section_entries(updated(doc, m), "query_expansion"@),
            k,
        ) == toml_doc::lookup(section_entries(doc, "query_expansion"@), k),
        m.reranker is Some && k != "top_k"@ && k != "output_n"@ ==> toml_doc::lookup(
            section_entries(updated(doc, m), "reranker"@),
            k,
        ) == toml_doc::lookup(section_entries(doc, "reranker"@), k),
{
    lemma_updated(doc, m, k);
    match m.embedding {
        Some(cfg) => {
            let e = section_entries(doc, "embedding"@);
            toml_doc::lemma_put(
                doc,
                "embedding"@,
                TomlNode::Section(embedding_items(e, cfg)),
                "embedding"@,
            );
            let e1 = toml_doc::put(e, "enabled"@, TomlNode::Flag(cfg.enabled));
            toml_doc::lemma_put(e, "enabled"@, TomlNode::Flag(cfg.enabled), k);
            let n = text_node(pieces::opt_text(cfg.model));
            let e2 = toml_doc::set_or_dropped(e1, "model"@, n);
            toml_doc::lemma_set_or_dropped(e1, "model"@, n, k);
            let x = TomlNode::Number(cfg.n_ctx as int);
            toml_doc::lemma_put(e2, "n_ctx"@, x, k);
            let e3 = toml_doc::put(e2, "n_ctx"@, x);
            toml_doc::lemma_put(e3, "gpu_layers"@, TomlNode::Number(cfg.gpu_layers as int), k);
        },
        None => {},
    }
    match m.query_expansion {
        Some(cfg) => {
            let e = section_entries(doc, "query_expansion"@);
            toml_doc::lemma_put(
                doc,
                "query_expansion"@,
                TomlNode::Section(expansion_items(e, cfg)),
                "query_expansion"@,
            );
            let e1 = toml_doc::put(e, "enabled"@, TomlNode::Flag(cfg.enabled));
            toml_doc::lemma_put(e, "enabled"@, TomlNode::Flag(cfg.enabled), k);
            let n = text_node(pieces::opt_text(cfg.model));
            let e2 = toml_doc::set_or_dropped(e1, "model"@, n);
            toml_doc::lemma_set_or_dropped(e1, "model"@, n, k);
            let v = TomlNode::Number((cfg.max_variants as i64) as int);
            toml_doc::lemma_put(e2, "max_variants"@, v, k);
            let e3 = toml_doc::put(e2, "max_variants"@, v);
            let t = TomlNode::Number(cfg.max_tokens as int);
            toml_doc::lemma_put(e3, "max_tokens"@, t, k);
            let e4 = toml_doc::put(e3, "max_tokens"@, t);
            let x = TomlNode::Number(cfg.n_ctx as int);
            toml_doc::lemma_put(e4, "n_ctx"@, x, k);
            let e5 = toml_doc::put(e4, "n_ctx"@, x);
            toml_doc::lemma_put(e5, "gpu_layers"@, TomlNode::Number(cfg.gpu_layers as int), k);
        },
        None => {},
    }
    match m.reranker {
        Some(cfg) => {
            let e = section_entries(doc, "reranker"@);
            toml_doc::lemma_put(
                doc,
                "reranker"@,
                TomlNode::Section(reranker_items(e, cfg)),
                "reranker"@,
            );
            let e1 = toml_doc::put(e, "enabled"@, TomlNode::Flag(cfg.enabled));
            toml_doc::lemma_put(e, "enabled"@, TomlNode::Flag(cfg.enabled), k);
            let n = text_node(pieces::opt_text(cfg.model));
            let e2 = toml_doc::set_or_dropped(e1, "model"@, n);
            toml_doc::lemma_set_or_dropped(e1, "model"@, n, k);
            let x = TomlNode::Number((cfg.top_k as i64) as int);
            toml_doc::lemma_put(e2, "top_k"@, x, k);
            let e3 = toml_doc::put(e2, "top_k"@, x);
            toml_doc::lemma_put(
                e3,
                "output_n"@,
                TomlNode::Number((cfg.output_n as i64) as int),
                k,
            );
        },
        None => {},
    }
}

proof fn lemma_setting_names_differ()
    ensures
        "enabled"@ != "model"@,
        "enabled"@ != "n_ctx"@,
        "enabled"@ != "gpu_layers"@,
        "enabled"@ != "top_k"@,
        "enabled"@ != "output_n"@,
        "enabled"@ != "max_variants"@,
        "enabled"@ != "max_tokens"@,
        "model"@ != "n_ctx"@,
        "model"@ != "gpu_layers"@,
        "model"@ != "top_k"@,
        "model"@ != "output_n"@,
        "model"@ != "max_variants"@,
        "model"@ != "max_tokens"@,
        "n_ctx"@ != "gpu_layers"@,
        "n_ctx"@ != "max_variants"@,
        "n_ctx"@ != "max_tokens"@,
        "top_k"@ != "output_n"@,
        "max_variants"@ != "max_tokens"@,
        "max_variants"@ != "gpu_layers"@,
        "max_tokens"@ != "gpu_layers"@,
{
    reveal_strlit("enabled");
    reveal_strlit("model");
    reveal_strlit("n_ctx");
    reveal_strlit("gpu_layers");
    reveal_strlit("top_k");
    reveal_strlit("output_n");
    reveal_strlit("max_variants");
    reveal_strlit("max_tokens");
    assert("enabled"@.len() == 7 && "output_n"@.len() == 8 && "max_variants"@.len() == 12);
    assert("model"@.len() == 5 && "n_ctx"@.len() == 5 && "top_k"@.len() == 5);
    assert("gpu_layers"@.len() == 10 && "max_tokens"@.len() == 10);
    assert("model"@[0] == 'm' && "n_ctx"@[0] == 'n' && "top_k"@[0] == 't');
    assert("gpu_layers"@[0] == 'g' && "max_tokens"@[0] == 'm');
}

/// The settings of a manifest stand in the written document, each under its name. Those of
/// `[query_expansion]` but for its sampling temperature.
pub proof fn settings_are_written(doc: Seq<(Seq<char>, TomlNode)>, m: WorkspaceManifest)
    requires
        toml_doc::distinct(doc),
        toml_doc::distinct(section_entries(doc, "embedding"@)),
        toml_doc::distinct(section_entries(doc, "query_expansion"@)),
        toml_doc::distinct(section_entries(doc, "reranker"@)),
    ensures
        match m.embedding {
            Some(c) => {
                let e = section_entries(updated(doc, m), "embedding"@);
                &&& toml_doc::lookup(e, "enabled"@) == Some(TomlNode::Flag(c.enabled))
                &&& toml_doc::lookup(e, "model"@) == text_node(pieces::opt_text(c.model))
                &&& toml_doc::lookup(e, "n_ctx"@) == Some(TomlNode::Number(c.n_ctx as int))
                &&& toml_doc::lookup(e, "gpu_layers"@) == Some(TomlNode::Number(c.gpu_layers as int))
            },
            None => true,
        },
        match m.query_expansion {
            Some(c) => {
                let e = section_entries(updated(doc, m), "query_expansion"@);
                &&& toml_doc::lookup(e, "enabled"@) == Some(TomlNode::Flag(c.enabled))
                &&& toml_doc::lookup(e, "model"@) == text_node(pieces::opt_text(c.model))
                &&& toml_doc::lookup(e, "max_variants"@) == Some(
                    TomlNode::Number((c.max_variants as i64) as int),
                )
                &&& toml_doc::lookup(e, "max_tokens"@) == Some(TomlNode::Number(c.max_tokens as int))
                &&& toml_doc::lookup(e, "n_ctx"@) == Some(TomlNode::Number(c.n_ctx as int))
                &&& toml_doc::lookup(e, "gpu_layers"@) == Some(TomlNode::Number(c.gpu_layers as int))
            },
            None => true,
        },
        match m.reranker {
            Some(c) => {
                let e = section_entries(updated(doc, m), "reranker"@);
                &&& toml_doc::lookup(e, "enabled"@) == Some(TomlNode::Flag(c.enabled))
                &&& toml_doc::lookup(e, "model"@) == text_node(pieces::opt_text(c.model))
                &&& toml_doc::lookup(e, "top_k"@) == Some(TomlNode::Number((c.top_k as i64) as int))
                &&& toml_doc::lookup(e, "output_n"@) == Some(
                    TomlNode::Number((c.output_n as i64) as int),
                )
            },
            None => true,
        },
{
    lemma_updated(doc, m, "embedding"@);
    lemma_setting_names_differ();
    match m.embedding {
        Some(c) => {
            let e = section_entries(doc, "embedding"@);
            toml_doc::lemma_put(doc, "embedding"@, TomlNode::Section(embedding_items(e, c)), "embedding"@);
            let n0 = TomlNode::Flag(c.enabled);
            toml_doc::lemma_put(e, "enabled"@, n0, "enabled"@);
            toml_doc::lemma_put(e, "enabled"@, n0, "model"@);
            toml_doc::lemma_put(e, "enabled"@, n0, "n_ctx"@);
            toml_doc::lemma_put(e, "enabled"@, n0, "gpu_layers"@);
            let e0 = toml_doc::put(e, "enabled"@, n0);
            let n1 = text_node(pieces::opt_text(c.model));
            toml_doc::lemma_set_or_dropped(e0, "model"@, n1, "enabled"@);
            toml_doc::lemma_set_or_dropped(e0, "model"@, n1, "model"@);
            toml_doc::lemma_set_or_dropped(e0, "model"@, n1, "n_ctx"@);
            toml_doc::lemma_set_or_dropped(e0, "model"@, n1, "gpu_layers"@);
            let e1 = toml_doc::set_or_dropped(e0, "model"@, n1);
            let n2 = TomlNode::Number(c.n_ctx as int);
            toml_doc::lemma_put(e1, "n_ctx"@, n2, "enabled"@);
            toml_doc::lemma_put(e1, "n_ctx"@, n2, "model"@);
            toml_doc::lemma_put(e1, "n_ctx"@, n2, "n_ctx"@);
            toml_doc::lemma_put(e1, "n_ctx"@, n2, "gpu_layers"@);
            let e2 = toml_doc::put(e1, "n_ctx"@, n2);
            let n3 = TomlNode::Number(c.gpu_layers as int);
            toml_doc::lemma_put(e2, "gpu_layers"@, n3, "enabled"@);
            toml_doc::lemma_put(e2, "gpu_layers"@, n3, "model"@);
            toml_doc::lemma_put(e2, "gpu_layers"@, n3, "n_ctx"@);
            toml_doc::lemma_put(e2, "gpu_layers"@, n3, "gpu_layers"@);
        },
        None => {},
    }
    match m.query_expansion {
        Some(c) => {
            let e = section_entries(doc, "query_expansion"@);
            toml_doc::lemma_put(doc, "query_expansion"@, TomlNode::Section(expansion_items(e, c)), "query_expansion"@);
            let n0 = TomlNode::Flag(c.enabled);
            toml_doc::lemma_put(e, "enabled"@, n0, "enabled"@);
            toml_doc::lemma_put(e, "enabled"@, n0, "model"@);
            toml_doc::lemma_put(e, "enabled"@, n0, "max_variants"@);
            toml_doc::lemma_put(e, "enabled"@, n0, "max_tokens"@);
            toml_doc::lemma_put(e, "enabled"@, n0, "n_ctx"@);
            toml_doc::lemma_put(e, "enabled"@, n0, "gpu_layers"@);
            let e0 = toml_doc::put(e, "enabled"@, n0);
            let n1 = text_node(pieces::opt_text(c.model));
            toml_doc::lemma_set_or_dropped(e0, "model"@, n1, "enabled"@);
            toml_doc::lemma_set_or_dropped(e0, "model"@, n1, "model"@);
            toml_doc::lemma_set_or_dropped(e0, "model"@, n1, "max_variants"@);
            toml_doc::lemma_set_or_dropped(e0, "model"@, n1, "max_tokens"@);
            toml_doc::lemma_set_or_dropped(e0, "model"@, n1, "n_ctx"@);
            toml_doc::lemma_set_or_dropped(e0, "model"@, n1, "gpu_layers"@);
            let e1 = toml_doc::set_or_dropped(e0, "model"@, n1);
            let n2 = TomlNode::Number((c.max_variants as i64) as int);
            toml_doc::lemma_put(e1, "max_variants"@, n2, "enabled"@);
            toml_doc::lemma_put(e1, "max_variants"@, n2, "model"@);
            toml_doc::lemma_put(e1, "max_variants"@, n2, "max_variants"@);
            toml_doc::lemma_put(e1, "max_variants"@, n2, "max_tokens"@);
            toml_doc::lemma_put(e1, "max_variants"@, n2, "n_ctx"@);
            toml_doc::lemma_put(e1, "max_variants"@, n2, "gpu_layers"@);
            let e2 = toml_doc::put(e1, "max_variants"@, n2);
            let n3 = TomlNode::Number(c.max_tokens as int);
            toml_doc::lemma_put(e2, "max_tokens"@, n3, "enabled"@);
            toml_doc::lemma_put(e2, "max_tokens"@, n3, "model"@);
            toml_doc::lemma_put(e2, "max_tokens"@, n3, "max_variants"@);
            toml_doc::lemma_put(e2, "max_tokens"@, n3, "max_tokens"@);
            toml_doc::lemma_put(e2, "max_tokens"@, n3, "n_ctx"@);
            toml_doc::lemma_put(e2, "max_tokens"@, n3, "gpu_layers"@);
            let e3 = toml_doc::put(e2, "max_tokens"@, n3);
            let n4 = TomlNode::Number(c.n_ctx as int);
            toml_doc::lemma_put(e3, "n_ctx"@, n4, "enabled"@);
            toml_doc::lemma_put(e3, "n_ctx"@, n4, "model"@);
            toml_doc::lemma_put(e3, "n_ctx"@, n4, "max_variants"@);
            toml_doc::lemma_put(e3, "n_ctx"@, n4, "max_tokens"@);
            toml_doc::lemma_put(e3, "n_ctx"@, n4, "n_ctx"@);
            toml_doc::lemma_put(e3, "n_ctx"@, n4, "gpu_layers"@);
            let e4 = toml_doc::put(e3, "n_ctx"@, n4);
            let n5 = TomlNode::Number(c.gpu_layers as int);
            toml_doc::lemma_put(e4, "gpu_layers"@, n5, "enabled"@);
            toml_doc::lemma_put(e4, "gpu_layers"@, n5, "model"@);
            toml_doc::lemma_put(e4, "gpu_layers"@, n5, "max_variants"@);
            toml_doc::lemma_put(e4, "gpu_layers"@, n5, "max_tokens"@);
            toml_doc::lemma_put(e4, "gpu_layers"@, n5, "n_ctx"@);
            toml_doc::lemma_put(e4, "gpu_layers"@, n5, "gpu_layers"@);
        },
        None => {},
    }
    match m.reranker {
        Some(c) => {
            let e = section_entries(doc, "reranker"@);
            toml_doc::lemma_put(doc, "reranker"@, TomlNode::Section(reranker_items(e, c)), "reranker"@);
            let n0 = TomlNode::Flag(c.enabled);
            toml_doc::lemma_put(e, "enabled"@, n0, "enabled"@);
            toml_doc::lemma_put(e, "enabled"@, n0, "model"@);
            toml_doc::lemma_put(e, "enabled"@, n0, "top_k"@);
            toml_doc::lemma_put(e, "enabled"@, n0, "output_n"@);
            let e0 = toml_doc::put(e, "enabled"@, n0);
            let n1 = text_node(pieces::opt_text(c.model));
            toml_doc::lemma_set_or_dropped(e0, "model"@, n1, "enabled"@);
            toml_doc::lemma_set_or_dropped(e0, "model"@, n1, "model"@);
            toml_doc::lemma_set_or_dropped(e0, "model"@, n1, "top_k"@);
            toml_doc::lemma_set_or_dropped(e0, "model"@, n1, "output_n"@);
            let e1 = toml_doc::set_or_dropped(e0, "model"@, n1);
            let n2 = TomlNode::Number((c.top_k as i64) as int);
            toml_doc::lemma_put(e1, "top_k"@, n2, "enabled"@);
            toml_doc::lemma_put(e1, "top_k"@, n2, "model"@);
            toml_doc::lemma_put(e1, "top_k"@, n2, "top_k"@);
            toml_doc::lemma_put(e1, "top_k"@, n2, "output_n"@);
            let e2 = toml_doc::put(e1, "top_k"@, n2);
            let n3 = TomlNode::Number((c.output_n as i64) as int);
            toml_doc::lemma_put(e2, "output_n"@, n3, "enabled"@);
            toml_doc::lemma_put(e2, "output_n"@, n3, "model"@);
            toml_doc::lemma_put(e2, "output_n"@, n3, "top_k"@);
            toml_doc::lemma_put(e2, "output_n"@, n3, "output_n"@);
        },
        None => {},
    }
}

proof fn lemma_dep_table(ds: Seq<(Seq<char>, DependencyView)>, i: int)
    requires
        0 <= i < ds.len(),
        forall|a: int, b: int| 0 <= a < b < ds.len() ==> (#[trigger] ds[a]).0 != (#[trigger] ds[b]).0,
    ensures
        toml_doc::lookup(dep_table(ds), ds[i].0) == Some(TomlNode::Inline(dep_items(ds[i].1))),
    decreases ds.len(),
{
    let init = ds.drop_last();
    let n = ds.len() - 1;
    toml_doc::lemma_put(
        dep_table(init),
        ds.last().0,
        TomlNode::Inline(dep_items(ds.last().1)),
        ds[i].0,
    );
    if i < n {
        assert(ds[i].0 != ds[n].0);
        assert forall|a: int, b: int| 0 <= a < b < init.len() implies (#[trigger] init[a]).0 != (
        #[trigger] init[b]).0 by {
            assert(init[a] == ds[a]);
            assert(init[b] == ds[b]);
        }
        lemma_dep_table(init, i);
    }
}

/// Every dependency of the manifest stands in the written document, under its name
/// and with all that it says; and a manifest without dependencies leaves no section
/// of them.
pub proof fn dependencies_are_written(
    doc: Seq<(Seq<char>, TomlNode)>,
    m: WorkspaceManifest,
    name: Seq<char>,
)
    requires
        toml_doc::distinct(doc),
        m.wf(),
    ensures
        m.dependencies@.contains_key(name) ==> toml_doc::lookup(
            section_entries(updated(doc, m), "dependencies"@),
            name,
        ) == Some(TomlNode::Inline(dep_items(m.dependencies@[name]@))),
        m.dependencies.entries@.len() == 0 ==> toml_doc::lookup(
            updated(doc, m),
            "dependencies"@,
        ) is None,
{
    lemma_updated(doc, m, name);
    let es = m.dependencies.entries@;
    let n3 = if es.len() > 0 {
        Some(TomlNode::Section(dep_table(dep_rows(m.dependencies))))
    } else {
        None
    };
    toml_doc::lemma_set_or_dropped(doc, "dependencies"@, n3, "dependencies"@);
    if m.dependencies@.contains_key(name) {
        strmap::lemma_slot_bounds(es, name);
        let i = strmap::slot(es, name);
        let ds = dep_rows(m.dependencies);
        assert forall|a: int, b: int| 0 <= a < b < ds.len() implies (#[trigger] ds[a]).0 != (
        #[trigger] ds[b]).0 by {
            assert(strmap::text_lt(es[a].0@, es[b].0@));
            strmap::lemma_text_lt_irreflexive(es[a].0@);
        }
        lemma_dep_table(ds, i);
        assert(ds[i] == (es[i].0@, es[i].1@));
    }
}

proof fn lemma_group_table(gs: Seq<(Seq<char>, Seq<(Seq<char>, DependencyView)>)>, i: int)
    requires
        0 <= i < gs.len(),
        forall|a: int, b: int| 0 <= a < b < gs.len() ==> (#[trigger] gs[a]).0 != (#[trigger] gs[b]).0,
    ensures
        toml_doc::lookup(group_table(gs), gs[i].0) == Some(TomlNode::Inline(dep_table(gs[i].1))),
    decreases gs.len(),
{
    let init = gs.drop_last();
    let n = gs.len() - 1;
    toml_doc::lemma_put(
        group_table(init),
        gs.last().0,
        TomlNode::Inline(dep_table(gs.last().1)),
        gs[i].0,
    );
    if i < n {
        assert(gs[i].0 != gs[n].0);
        assert forall|a: int, b: int| 0 <= a < b < init.len() implies (#[trigger] init[a]).0 != (
        #[trigger] init[b]).0 by {
            assert(init[a] == gs[a]);
            assert(init[b] == gs[b]);
        }
        lemma_group_table(init, i);
    }
}

/// Every dependency of a group stands in the written document, in its group and under its
/// name; and a manifest without groups leaves no section of them.
pub proof fn grouped_dependencies_are_written(
    doc: Seq<(Seq<char>, TomlNode)>,
    m: WorkspaceManifest,
    group: Seq<char>,
    name: Seq<char>,
)
    requires
        toml_doc::distinct(doc),
        m.wf(),
    ensures
        m.dependency_groups@.contains_key(group) && m.dependency_groups@[group]@.contains_key(name)
            ==> (toml_doc::lookup(
            section_entries(updated(doc, m), "dependency-groups"@),
            group,
        ) matches Some(TomlNode::Inline(e)) && toml_doc::lookup(e, name) == Some(
            TomlNode::Inline(dep_items(m.dependency_groups@[group]@[name]@)),
        )),
        m.dependency_groups.entries@.len() == 0 ==> toml_doc::lookup(
            updated(doc, m),
            "dependency-groups"@,
        ) is None,
{
    lemma_updated(doc, m, name);
    let gs = m.dependency_groups.entries@;
    let rows = group_rows(m.dependency_groups);
    let n4 = if gs.len() > 0 {
        Some(TomlNode::Section(group_table(rows)))
    } else {
        None
    };
    toml_doc::lemma_set_or_dropped(doc, "dependency-groups"@, n4, "dependency-groups"@);
    if m.dependency_groups@.contains_key(group) && m.dependency_groups@[group]@.contains_key(name) {
        strmap::lemma_slot_bounds(gs, group);
        let g = strmap::slot(gs, group);
        assert forall|a: int, b: int| 0 <= a < b < rows.len() implies (#[trigger] rows[a]).0 != (
        #[trigger] rows[b]).0 by {
            assert(strmap::text_lt(gs[a].0@, gs[b].0@));
            strmap::lemma_text_lt_irreflexive(gs[a].0@);
        }
        lemma_group_table(rows, g);
        assert(rows[g] == (gs[g].0@, dep_rows(gs[g].1)));
        lemma_groups_wf(m.dependency_groups);
        let es = gs[g].1.entries@;
        strmap::lemma_slot_bounds(es, name);
        let i = strmap::slot(es, name);
        let ds = dep_rows(gs[g].1);
        assert forall|a: int, b: int| 0 <= a < b < ds.len() implies (#[trigger] ds[a]).0 != (
        #[trigger] ds[b]).0 by {
            assert(strmap::text_lt(es[a].0@, es[b].0@));
            strmap::lemma_text_lt_irreflexive(es[a].0@);
        }
        lemma_dep_table(ds, i);
        assert(ds[i] == (es[i].0@, es[i].1@));
    }
}

proof fn lemma_package_table(ps: Seq<(String, PackageEntry)>, i: int)
    requires
        0 <= i < ps.len(),
        forall|a: int, b: int|
            0 <= a < b < ps.len() ==> (#[trigger] ps[a]).0@ != (#[trigger] ps[b]).0@,
    ensures
        toml_doc::lookup(package_table(ps), ps[i].0@) == Some(
            TomlNode::Inline(package_items(ps[i].1)),
        ),
    decreases ps.len(),
{
    let init = ps.drop_last();
    let n = ps.len() - 1;
    toml_doc::lemma_put(
        package_table(init),
        ps.last().0@,
        TomlNode::Inline(package_items(ps.last().1)),
        ps[i].0@,
    );
    if i < n {
        assert(ps[i].0@ != ps[n].0@);
        assert forall|a: int, b: int| 0 <= a < b < init.len() implies (#[trigger] init[a]).0@ != (
        #[trigger] init[b]).0@ by {
            assert(init[a] == ps[a]);
            assert(init[b] == ps[b]);
        }
        lemma_package_table(init, i);
    }
}

/// Every local package of the manifest stands in the written document, under its name;
/// and a manifest without any leaves no section of them.
pub proof fn packages_are_written(
    doc: Seq<(Seq<char>, TomlNode)>,
    m: WorkspaceManifest,
    name: Seq<char>,
)
    requires
        toml_doc::distinct(doc),
        m.wf(),
    ensures
        m.packages@.contains_key(name) ==> toml_doc::lookup(
            section_entries(updated(doc, m), "packages"@),
            name,
        ) == Some(TomlNode::Inline(package_items(m.packages@[name]))),
        m.packages.entries@.len() == 0 ==> toml_doc::lookup(updated(doc, m), "packages"@) is None,
{
    lemma_updated(doc, m, name);
    let ps = m.packages.entries@;
    let n5 = if ps.len() > 0 {
        Some(TomlNode::Section(package_table(ps)))
    } else {
        None
    };
    toml_doc::lemma_set_or_dropped(doc, "packages"@, n5, "packages"@);
    if m.packages@.contains_key(name) {
        strmap::lemma_slot_bounds(ps, name);
        let i = strmap::slot(ps, name);
        assert forall|a: int, b: int| 0 <= a < b < ps.len() implies (#[trigger] ps[a]).0@ != (
        #[trigger] ps[b]).0@ by {
            assert(strmap::text_lt(ps[a].0@, ps[b].0@));
            strmap::lemma_text_lt_irreflexive(ps[a].0@);
        }
        lemma_package_table(ps, i);
    }
}

/// The registries stand in the written document, in their order and with their names and
/// addresses, and so does the key of the workspace; what the manifest does not have, the
/// document does not keep.
pub proof fn registries_and_keys_are_written(
    doc: Seq<(Seq<char>, TomlNode)>,
    m: WorkspaceManifest,
)
    requires
        toml_doc::distinct(doc),
    ensures
        toml_doc::lookup(updated(doc, m), "registry"@) == (if m.registries@.len() > 0 {
            Some(TomlNode::Rows(registry_rows(m.registries@)))
        } else {
            None
        }),
        m.workspace is None ==> toml_doc::lookup(updated(doc, m), "workspace"@) is None,
        match m.workspace {
            Some(ws) => toml_doc::lookup(
                section_entries(updated(doc, m), "workspace"@),
                "verify_key"@,
            ) == text_node(pieces::opt_text(ws.verify_key)),
            None => true,
        },
{
    lemma_updated(doc, m, "registry"@);
    let n2 = if m.registries@.len() > 0 {
        Some(TomlNode::Rows(registry_rows(m.registries@)))
    } else {
        None
    };
    toml_doc::lemma_set_or_dropped(doc, "registry"@, n2, "registry"@);
    let n1 = match m.workspace {
        Some(ws) => Some(
            TomlNode::Section(
                toml_doc::with_node(
                    seq![],
                    "verify_key"@,
                    text_node(pieces::opt_text(ws.verify_key)),
                ),
            ),
        ),
        None => None,
    };
    toml_doc::lemma_set_or_dropped(doc, "workspace"@, n1, "workspace"@);
    match m.workspace {
        Some(ws) => {
            let none: Seq<(Seq<char>, TomlNode)> = seq![];
            reveal(toml_doc::with_node);
            match text_node(pieces::opt_text(ws.verify_key)) {
                Some(n) => toml_doc::lemma_put(none, "verify_key"@, n, "verify_key"@),
                None => toml_doc::lemma_place(none, "verify_key"@),
            }
        },
        None => {},
    }
}

// ---------------------------------------------------------------------------
// The file
// ---------------------------------------------------------------------------

/// The entries of a manifest's file: those of the TOML behind its header. A file that is
/// no TOML, or that is not there, has none.
pub open spec fn file_entries(existing: Option<Seq<char>>) -> Seq<(Seq<char>, TomlNode)> {
    match existing {
        Some(s) => match toml_doc::doc_read(text::without_prefix(s, MANIFEST_HEADER@)) {
            Some(d) => d.entries,
            None => seq![],
        },
        None => seq![],
    }
}

/// How the entries of a manifest's file are written.
pub open spec fn file_layout(existing: Option<Seq<char>>) -> Layout {
    match existing {
        Some(s) => match toml_doc::doc_read(text::without_prefix(s, MANIFEST_HEADER@)) {
            Some(d) => d.layout,
            None => Map::empty(),
        },
        None => Map::empty(),
    }
}

/// The text of a manifest's file for entries: its header, and a document that has them and
/// keeps the layout of the file before.
pub open spec fn is_file_of(
    s: Seq<char>,
    e: Seq<(Seq<char>, TomlNode)>,
    before: Layout,
    m: WorkspaceManifest,
) -> bool {
    exists|d: toml_edit::DocumentMut| #[trigger]
        toml_doc::doc_entries(d) == e && keeps_layout(before, toml_doc::doc_layout(d), m) && s
            == MANIFEST_HEADER@ + toml_doc::doc_text(d)
}

/// Write a manifest: the text of its file, from the file as it is. What the manifest does
/// not know of stays in the file, as it is written there, and what is set anew keeps its
/// comments.
///
/// The sampling temperature of `[query_expansion]` is the caller's to write.
pub fn save_manifest(existing: Option<&str>, manifest: &WorkspaceManifest) -> (r: Result<
    String,
    String,
>)
    ensures
        ({
            let before = file_entries(pieces::opt_str(existing));
            match r {
                Ok(t) => !registries_blocked(before, *manifest) && is_file_of(
                    t@,
                    updated(before, *manifest),
                    file_layout(pieces::opt_str(existing)),
                    *manifest,
                ),
                Err(e) => registries_blocked(before, *manifest) && e@
                    == "registry must be an array of tables"@,
            }
        }),
{
    let mut doc = match existing {
        Some(s) => {
            let cs = chars_of(s);
            let header = chars_of(MANIFEST_HEADER);
            let body = match strip_front(cs.as_slice(), header.as_slice()) {
                Some(rest) => string_of(rest),
                None => s.to_owned(),
            };
            match parse_doc(body.as_str()) {
                Some(d) => d,
                None => new_doc(),
            }
        },
        None => new_doc(),
    };
    let ghost before = file_entries(pieces::opt_str(existing));
    proof {
        assert(toml_doc::doc_entries(doc) =~= before);
    }
    let ghost read = toml_doc::doc_layout(doc);
    match update_document(root_table(&mut doc), manifest) {
        Ok(_) => {},
        Err(e) => {
            return Err(e);
        },
    }
    let mut r = MANIFEST_HEADER.to_owned();
    r.append(show_doc(&doc).as_str());
    proof {
        let layout = file_layout(pieces::opt_str(existing));
        assert(layout == read || layout =~= Map::empty());
        if layout != read {
            reveal(toml_layout::keeps);
        }
        assert(toml_doc::doc_entries(doc) == updated(before, *manifest));
        assert(keeps_layout(layout, toml_doc::doc_layout(doc), *manifest));
    }
    Ok(r)
}

/// What the manifest is not written to is written as before, comments and all: every entry
/// outside its sections, the sections of settings that it does not have, and in those that
/// it has everything but its own settings.
pub proof fn the_rest_is_written_as_before(
    before: Layout,
    after: Layout,
    m: WorkspaceManifest,
    p: Seq<Seq<char>>,
)
    requires
        keeps_layout(before, after, m),
        before.dom().contains(p),
        p.len() > 0,
        !is_list_section(p[0]),
        settings_in(m, p[0]) is Some ==> toml_layout::at_header(before, p[0]) && (p.len() == 1
            || !is_setting(p[0], p[1])),
    ensures
        after.dom().contains(p),
        after[p] == before[p],
{
    reveal(toml_layout::keeps);
    assert(p.len() > 1 ==> p.skip(1)[0] == p[1]);
    assert(!rewritten(before, m)(p));
}

/// A setting that is written anew keeps its comments, those above it and those on its line;
/// only a model that is no longer named goes with its comments.
pub proof fn settings_keep_their_comments(
    before: Layout,
    after: Layout,
    m: WorkspaceManifest,
    section: Seq<char>,
    key: Seq<char>,
)
    requires
        keeps_layout(before, after, m),
        settings_in(m, section) is Some,
        toml_layout::at_header(before, section),
        before.dom().contains(seq![section, key]),
        before[seq![section, key]] is Value,
        key != "model"@ || settings_in(m, section)->0,
    ensures
        after.dom().contains(seq![section, key]),
        toml_layout::same_comments(before[seq![section, key]], after[seq![section, key]]),
{
    reveal(toml_layout::keeps);
    lemma_section_names_differ();
    let p = seq![section, key];
    assert(p.skip(1) =~= seq![key]);
    assert(!dropped(before, m)(p));
}

/// The header comes once, however often a manifest is written: the body of a file that was
/// written is the document behind its header.
pub proof fn the_header_is_not_repeated(body: Seq<char>)
    ensures
        text::without_prefix(MANIFEST_HEADER@ + body, MANIFEST_HEADER@) == body,
{
    let h = MANIFEST_HEADER@;
    let s = h + body;
    assert(s.subrange(0, h.len() as int) =~= h);
    assert(s.skip(h.len() as int) =~= body);
}

/// The groups that a workspace does not have are named one by one, in the order in which they
/// were asked for.
pub proof fn unknown_groups_are_named(
    m: WorkspaceManifest,
    a: Seq<Seq<char>>,
    b: Seq<Seq<char>>,
    name: Seq<char>,
)
    ensures
        unknown_groups(m, a + b) == unknown_groups(m, a) + unknown_groups(m, b),
        m.dependency_groups@.contains_key(name) ==> unknown_groups(m, seq![name]).len() == 0,
        !m.dependency_groups@.contains_key(name) ==> unknown_groups(m, seq![name]) == seq![name],
        selected_groups(m, a, false) == a,
        selected_groups(m, a, true) == m.dependency_groups.keys(),
    decreases b.len(),
{
    reveal_with_fuel(unknown_groups, 2);
    let one = seq![name];
    assert(one.drop_last() =~= Seq::<Seq<char>>::empty());
    assert(Seq::<Seq<char>>::empty().push(name) =~= one);
    if b.len() == 0 {
        assert(a + b =~= a);
        assert(unknown_groups(m, a) + unknown_groups(m, b) =~= unknown_groups(m, a));
    } else {
        let t = b.drop_last();
        unknown_groups_are_named(m, a, t, name);
        assert((a + b).drop_last() =~= a + t);
        let x = unknown_groups(m, a);
        let y = unknown_groups(m, t);
        assert((x + y).push(b.last()) =~= x + y.push(b.last()));
    }
}

/// The record of a package is its first, and there is none only where no record is of the
/// package.
pub proof fn the_first_record_is_found(ps: Seq<LockEntry>, name: Seq<char>, i: int)
    ensures
        0 <= i < ps.len() && ps[i].name@ == name && (forall|j: int|
            0 <= j < i ==> (#[trigger] ps[j]).name@ != name) ==> locked(ps, name) == Some(ps[i]),
        (forall|j: int| 0 <= j < ps.len() ==> (#[trigger] ps[j]).name@ != name) ==> locked(ps, name)
            is None,
{
    lemma_first_record(ps, name);
}

proof fn lemma_first_record(ps: Seq<LockEntry>, name: Seq<char>)
    ensures
        0 <= lock_slot(ps, name) <= ps.len(),
        lock_slot(ps, name) < ps.len() ==> ps[lock_slot(ps, name)].name@ == name,
        forall|j: int| 0 <= j < lock_slot(ps, name) ==> (#[trigger] ps[j]).name@ != name,
    decreases ps.len(),
{
    if ps.len() > 0 && ps[0].name@ != name {
        let t = ps.drop_first();
        lemma_first_record(t, name);
        assert forall|j: int| 0 <= j < lock_slot(ps, name) implies (#[trigger] ps[j]).name@ != name by {
            if j > 0 {
                assert(ps[j] == t[j - 1]);
            }
        }
    }
}

/// A dependency is found by its name: one that is always installed before one of a group, and
/// of those of groups the one of the first group that has it. None is found only where there
/// is none.
pub proof fn dependencies_are_found_by_name(m: WorkspaceManifest, name: Seq<char>, i: int)
    ensures
        m.dependencies@.contains_key(name) ==> dependency_named(m, name) == Some(
            m.dependencies@[name],
        ),
        ({
            let gs = m.dependency_groups.entries@;
            &&& !m.dependencies@.contains_key(name) && 0 <= i < gs.len() && gs[i].1@.contains_key(
                name,
            ) && (forall|j: int| 0 <= j < i ==> !(#[trigger] gs[j]).1@.contains_key(name))
                ==> dependency_named(m, name) == Some(gs[i].1@[name])
            &&& !m.dependencies@.contains_key(name) && (forall|j: int|
                0 <= j < gs.len() ==> !(#[trigger] gs[j]).1@.contains_key(name))
                ==> dependency_named(m, name) is None
        }),
{
    lemma_grouped(m.dependency_groups.entries@, name, i);
}

proof fn lemma_grouped(gs: Seq<(String, StringMap<DependencyEntry>)>, name: Seq<char>, i: int)
    ensures
        0 <= i < gs.len() && gs[i].1@.contains_key(name) && (forall|j: int|
            0 <= j < i ==> !(#[trigger] gs[j]).1@.contains_key(name)) ==> grouped(gs, name) == Some(
            gs[i].1@[name],
        ),
        (forall|j: int| 0 <= j < gs.len() ==> !(#[trigger] gs[j]).1@.contains_key(name)) ==> grouped(
            gs,
            name,
        ) is None,
    decreases gs.len(),
{
    if gs.len() > 0 && !gs[0].1@.contains_key(name) {
        let t = gs.drop_first();
        lemma_grouped(t, name, i - 1);
        assert(forall|j: int| 0 <= j < t.len() ==> #[trigger] t[j] == gs[j + 1]);
        if 0 < i < gs.len() && (forall|j: int|
            0 <= j < i ==> !(#[trigger] gs[j]).1@.contains_key(name)) {
            assert(t[i - 1] == gs[i]);
            assert forall|j: int| 0 <= j < i - 1 implies !(#[trigger] t[j]).1@.contains_key(name) by {
                assert(t[j] == gs[j + 1]);
            }
        }
        if forall|j: int| 0 <= j < gs.len() ==> !(#[trigger] gs[j]).1@.contains_key(name) {
            assert forall|j: int| 0 <= j < t.len() implies !(#[trigger] t[j]).1@.contains_key(name) by {
                assert(t[j] == gs[j + 1]);
            }
        }
    } else if gs.len() > 0 {
        if 0 < i < gs.len() && (forall|j: int|
            0 <= j < i ==> !(#[trigger] gs[j]).1@.contains_key(name)) {
            assert(!gs[0].1@.contains_key(name));
        }
    }
}

/// A group that is merged in adds its dependencies and changes none that is there.
pub proof fn merged_groups_only_add(
    m: WorkspaceManifest,
    names: Seq<Seq<char>>,
    group: Seq<char>,
    k: Seq<char>,
)
    ensures
        ({
            let before = with_groups_merged(m, names);
            let after = with_groups_merged(m, names.push(group));
            &&& before.contains_key(k) ==> after.contains_key(k) && after[k] == before[k]
            &&& !before.contains_key(k) && m.dependency_groups@.contains_key(group)
                && m.dependency_groups@[group]@.contains_key(k) ==> after.contains_key(k)
                && after[k] == m.dependency_groups@[group]@[k]@
            &&& after.contains_key(k) ==> before.contains_key(k) || (
            m.dependency_groups@.contains_key(group)
                && m.dependency_groups@[group]@.contains_key(k))
        }),
        m.dependencies@.contains_key(k) <==> with_groups_merged(m, Seq::empty()).contains_key(k),
{
    assert(names.push(group).drop_last() =~= names);
}

} // verus!
