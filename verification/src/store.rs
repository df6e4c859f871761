//! Installed bundles: where they are kept, what they hold, and which of them a name
//! means.

use vstd::prelude::*;
use vstd::slice::slice_subrange;

use crate::error::SempkgError;
use crate::paths;
use crate::paths::{components_of, join_path};
use crate::pieces;
use crate::pieces::has_member;
use crate::reranker;
use crate::reranker::home_dir;
use crate::strmap::StringMap;
use crate::text;
use crate::text::{chars_of, rfind_class, same_text, starts_with_text, string_of, CharClass};
use crate::versions;
use crate::versions::is_earlier;

verus! {

// ---------------------------------------------------------------------------
// Places
// ---------------------------------------------------------------------------

/// The bundles of a directory.
pub open spec fn bundles_under(dir: Seq<char>) -> Seq<char> {
    paths::joined(paths::joined(dir, ".sempkg"@), "bundles"@)
}

/// Where the bundles of a workspace are kept.
pub fn workspace_store_dir(workspace_dir: &str) -> (r: String)
    ensures
        r@ == bundles_under(workspace_dir@),
{
    join_path(join_path(workspace_dir, ".sempkg").as_str(), "bundles")
}

/// Where the bundles of a user are kept, under a home directory.
pub fn global_store_dir_in(home: &Option<String>) -> (r: String)
    ensures
        r@ == bundles_under(reranker::home_or_dot(pieces::opt_text(*home))),
{
    let base = match home {
        Some(h) => h.clone(),
        None => ".".to_owned(),
    };
    workspace_store_dir(base.as_str())
}

/// Where the bundles of the user are kept.
pub fn global_store_dir() -> (r: String)
    ensures
        exists|home: Option<Seq<char>>|
            r@ == bundles_under(#[trigger] reranker::home_or_dot(home)),
{
    let home = home_dir();
    let r = global_store_dir_in(&home);
    assert(r@ == bundles_under(reranker::home_or_dot(pieces::opt_text(home))));
    r
}

/// Whether bundles are those of a workspace or of the user.
#[derive(Debug, Clone, Copy, PartialEq, Eq, Structural)]
pub enum BundleScope {
    Workspace,
    Global,
}

pub open spec fn scope_name(s: BundleScope) -> Seq<char> {
    match s {
        BundleScope::Workspace => "workspace"@,
        BundleScope::Global => "global"@,
    }
}

impl BundleScope {
    pub fn as_str(&self) -> (r: &'static str)
        ensures
            r@ == scope_name(*self),
    {
        match self {
            BundleScope::Workspace => "workspace",
            BundleScope::Global => "global",
        }
    }
}

/// A place where bundles are kept.
#[derive(Debug, Clone)]
pub struct BundleStore {
    pub store_dir: String,
    pub scope: BundleScope,
}

impl BundleStore {
    pub fn new(store_dir: String, scope: BundleScope) -> (r: Self)
        ensures
            r.store_dir@ == store_dir@,
            r.scope == scope,
    {
        BundleStore { store_dir, scope }
    }

    pub fn workspace(workspace_dir: &str) -> (r: Self)
        ensures
            r.store_dir@ == bundles_under(workspace_dir@),
            r.scope == BundleScope::Workspace,
    {
        Self::new(workspace_store_dir(workspace_dir), BundleScope::Workspace)
    }

    pub fn global() -> (r: Self)
        ensures
            exists|home: Option<Seq<char>>|
                r.store_dir@ == bundles_under(#[trigger] reranker::home_or_dot(home)),
            r.scope == BundleScope::Global,
    {
        Self::new(global_store_dir(), BundleScope::Global)
    }

    /// Where a version of a bundle is kept.
    pub fn bundle_dir(&self, name: &str, version: &str) -> (r: String)
        ensures
            r@ == paths::joined(paths::joined(self.store_dir@, name@), version@),
    {
        join_path(join_path(self.store_dir.as_str(), name).as_str(), version)
    }
}

// ---------------------------------------------------------------------------
// Manifests
// ---------------------------------------------------------------------------

/// What a bundle says of itself.
#[derive(Debug, Clone)]
pub struct BundleManifest {
    pub name: String,
    pub version: String,
    pub source_repo: String,
    pub commit_hash: String,
    pub created_at: String,
    /// The indices that the bundle has beside its code graph.
    pub extensions: Vec<String>,
    /// The SHA-256 of each file.
    pub checksums: StringMap<String>,
}

/// What a manifest says of the indices of a bundle.
pub trait ManifestExt {
    spec fn listed(&self) -> Seq<Seq<char>>;

    /// Whether the documentation index, which goes by this name, is listed.
    fn has_lance(&self, lance_ext: &str) -> (b: bool)
        ensures
            b == self.listed().contains(lance_ext@),
    ;

    /// Whether the source-code index, which goes by this name, is listed.
    fn has_code(&self, code_ext: &str) -> (b: bool)
        ensures
            b == self.listed().contains(code_ext@),
    ;
}

impl ManifestExt for BundleManifest {
    open spec fn listed(&self) -> Seq<Seq<char>> {
        pieces::texts(self.extensions@)
    }

    fn has_lance(&self, lance_ext: &str) -> (b: bool) {
        has_member(&self.extensions, lance_ext)
    }

    fn has_code(&self, code_ext: &str) -> (b: bool) {
        has_member(&self.extensions, code_ext)
    }
}

/// What is found in the directory of a bundle.
#[derive(Debug, Clone, Copy, PartialEq, Eq, Structural)]
pub struct OnDisk {
    /// `lance` is a directory.
    pub lance: bool,
    /// `code` is a directory.
    pub code: bool,
    /// `graph` exists.
    pub graph: bool,
    /// `graph` is a directory with something in it.
    pub graph_filled: bool,
    /// `.codegraph` exists.
    pub view: bool,
}

/// An installed bundle.
#[derive(Debug, Clone)]
pub struct BundleInfo {
    pub name: String,
    pub version: String,
    pub bundle_dir: String,
    pub manifest: BundleManifest,
    pub archive_sha256: String,
    pub scope: BundleScope,
    /// The manifest lists the documentation index.
    pub lists_lance: bool,
    /// The manifest lists the source-code index.
    pub lists_code: bool,
    pub on_disk: OnDisk,
}

impl BundleInfo {
    pub open spec fn spec_has_lance(&self) -> bool {
        self.lists_lance && self.on_disk.lance
    }

    pub open spec fn spec_has_code(&self) -> bool {
        self.lists_code && self.on_disk.code
    }

    pub open spec fn spec_is_indexed(&self) -> bool {
        self.on_disk.view && self.on_disk.graph && self.on_disk.graph_filled
    }

    /// What a bundle is called with its version.
    pub open spec fn full_name(&self) -> Seq<char> {
        self.name@ + "@"@ + self.version@
    }

    /// Whether the documentation can be searched: the index is listed and there.
    pub fn has_lance(&self) -> (b: bool)
        ensures
            b == self.spec_has_lance(),
    {
        self.lists_lance && self.on_disk.lance
    }

    /// Whether the source code can be searched: the index is listed and there.
    pub fn has_code(&self) -> (b: bool)
        ensures
            b == self.spec_has_code(),
    {
        self.lists_code && self.on_disk.code
    }

    /// Whether the code graph can be asked: it is there, with something in it, and where
    /// it is looked for.
    pub fn is_indexed(&self) -> (b: bool)
        ensures
            b == self.spec_is_indexed(),
    {
        self.on_disk.view && self.on_disk.graph && self.on_disk.graph_filled
    }

    /// What the bundle is called with its version.
    pub fn show_name(&self) -> (r: String)
        ensures
            r@ == self.full_name(),
    {
        let mut r = self.name.clone();
        r.append("@");
        r.append(self.version.as_str());
        r
    }
}

// ---------------------------------------------------------------------------
// Installing and removing
// ---------------------------------------------------------------------------

/// Where to install a bundle. A version that is there already is not installed again.
pub fn install_target(store: &BundleStore, manifest: &BundleManifest, exists: bool) -> (r: Result<
    String,
    SempkgError,
>)
    ensures
        match r {
            Ok(d) => !exists && d@ == paths::joined(
                paths::joined(store.store_dir@, manifest.name@),
                manifest.version@,
            ),
            Err(e) => exists && (e matches SempkgError::AlreadyInstalled { name, version } && name@
                == manifest.name@ && version@ == manifest.version@),
        },
{
    if exists {
        return Err(
            SempkgError::AlreadyInstalled {
                name: manifest.name.clone(),
                version: manifest.version.clone(),
            },
        );
    }
    Ok(store.bundle_dir(manifest.name.as_str(), manifest.version.as_str()))
}

/// The path of an entry leads out of the directory that it is unpacked in.
pub open spec fn is_unsafe_entry(key: Seq<char>) -> bool {
    paths::is_absolute(key) || paths::components(key).contains(".."@)
}

/// Where an entry of a bundle is unpacked. A path that leads anywhere else is refused.
pub fn entry_target(dest: &str, key: &str) -> (r: Result<String, String>)
    ensures
        match r {
            Ok(p) => !is_unsafe_entry(key@) && p@ == paths::joined(dest@, key@),
            Err(e) => is_unsafe_entry(key@) && e@
                == "Refusing to extract unsafe bundle entry path: "@ + key@,
        },
{
    let parts = components_of(key);
    if starts_with_text(key, "/") || has_member(&parts, "..") {
        proof {
            lemma_absolute(key@);
        }
        let mut e = "Refusing to extract unsafe bundle entry path: ".to_owned();
        e.append(key);
        return Err(e);
    }
    proof {
        lemma_absolute(key@);
    }
    Ok(join_path(dest, key))
}

proof fn lemma_absolute(p: Seq<char>)
    ensures
        text::starts_with(p, "/"@) == paths::is_absolute(p),
{
    reveal_strlit("/");
    assert("/"@.len() == 1);
    assert("/"@[0] == '/');
    if p.len() > 0 {
        assert(p.subrange(0, 1) =~= seq![p[0]]);
        assert("/"@ =~= seq!['/']);
    }
    if paths::is_absolute(p) {
        assert(p.subrange(0, 1) =~= "/"@);
    } else if text::starts_with(p, "/"@) {
        assert(p.subrange(0, 1)[0] == p[0]);
    }
}

/// What is unpacked stays in the directory that it is unpacked in: the path goes on from
/// the directory, and no part of it leads back up.
pub proof fn unpacked_entries_stay_inside(dest: Seq<char>, key: Seq<char>)
    requires
        !is_unsafe_entry(key),
        dest.len() > 0,
    ensures
        text::starts_with(paths::joined(dest, key), dest),
        !paths::components(key).contains(".."@),
{
    let p = paths::joined(dest, key);
    assert(p.subrange(0, dest.len() as int) =~= dest);
}

/// A bundle that is removed has to be there.
pub fn check_removal(name: &str, version: &str, exists: bool) -> (r: Result<(), SempkgError>)
    ensures
        match r {
            Ok(_) => exists,
            Err(e) => !exists && (e matches SempkgError::BundleNotFound { name: n, version: v }
                && n@ == name@ && v@ == version@),
        },
{
    if exists {
        Ok(())
    } else {
        Err(SempkgError::BundleNotFound { name: name.to_owned(), version: version.to_owned() })
    }
}

/// Whether the link to a bundle's code graph is to be made: it is not there, and there is
/// a code graph.
pub fn create_codegraph_view(on_disk: OnDisk) -> (b: bool)
    ensures
        b == (on_disk.graph && !on_disk.view),
{
    on_disk.graph && !on_disk.view
}

/// Repair the link to a bundle's code graph: whether it is to be made, and whether the
/// bundle counts as repaired.
pub fn repair_codegraph_view(on_disk: OnDisk) -> (r: (bool, bool))
    ensures
        r.0 == (on_disk.graph && !on_disk.view),
        r.1 == !on_disk.view,
{
    (create_codegraph_view(on_disk), !on_disk.view)
}

// ---------------------------------------------------------------------------
// Finding bundles
// ---------------------------------------------------------------------------

/// The bundle of a name with the latest version, the last of these where there are several.
pub open spec fn latest_named(bs: Seq<BundleInfo>, name: Seq<char>) -> Option<BundleInfo>
    decreases bs.len(),
{
    if bs.len() == 0 {
        None
    } else {
        let b = bs.last();
        match latest_named(bs.drop_last(), name) {
            Some(best) => if b.name@ == name && !versions::earlier(b.version@, best.version@) {
                Some(b)
            } else {
                Some(best)
            },
            None => if b.name@ == name {
                Some(b)
            } else {
                None
            },
        }
    }
}

/// The bundle of a name in a store; the latest of several versions.
pub fn get<'a>(bundles: &'a Vec<BundleInfo>, name: &str) -> (r: Option<&'a BundleInfo>)
    ensures
        match r {
            Some(b) => latest_named(bundles@, name@) == Some(*b),
            None => latest_named(bundles@, name@) is None,
        },
{
    let mut best: Option<usize> = None;
    let mut i: usize = 0;
    assert(bundles@.take(0) =~= seq![]);
    while i < bundles.len()
        invariant
            i <= bundles@.len(),
            match best {
                Some(k) => k < bundles@.len() && latest_named(bundles@.take(i as int), name@)
                    == Some(bundles@[k as int]),
                None => latest_named(bundles@.take(i as int), name@) is None,
            },
        decreases bundles.len() - i,
    {
        proof {
            assert(bundles@.take(i + 1).drop_last() =~= bundles@.take(i as int));
            assert(bundles@.take(i + 1).last() == bundles@[i as int]);
        }
        if same_text(bundles[i].name.as_str(), name) {
            let replaces = match best {
                Some(k) => !is_earlier(bundles[i].version.as_str(), bundles[k].version.as_str()),
                None => true,
            };
            if replaces {
                best = Some(i);
            }
        }
        i = i + 1;
    }
    assert(bundles@.take(bundles@.len() as int) =~= bundles@);
    match best {
        Some(k) => Some(&bundles[k]),
        None => None,
    }
}

/// The first bundle of a name and a version.
pub open spec fn versioned(bs: Seq<BundleInfo>, name: Seq<char>, version: Seq<char>) -> Option<
    BundleInfo,
>
    decreases bs.len(),
{
    if bs.len() == 0 {
        None
    } else if bs[0].name@ == name && bs[0].version@ == version {
        Some(bs[0])
    } else {
        versioned(bs.drop_first(), name, version)
    }
}

/// A version of a bundle in a store.
pub fn get_version<'a>(bundles: &'a Vec<BundleInfo>, name: &str, version: &str) -> (r: Option<
    &'a BundleInfo,
>)
    ensures
        match r {
            Some(b) => versioned(bundles@, name@, version@) == Some(*b),
            None => versioned(bundles@, name@, version@) is None,
        },
{
    let mut i: usize = 0;
    assert(bundles@.skip(0) =~= bundles@);
    while i < bundles.len()
        invariant
            i <= bundles@.len(),
            versioned(bundles@, name@, version@) == versioned(
                bundles@.skip(i as int),
                name@,
                version@,
            ),
        decreases bundles.len() - i,
    {
        proof {
            assert(bundles@.skip(i as int)[0] == bundles@[i as int]);
            assert(bundles@.skip(i as int).drop_first() =~= bundles@.skip(i + 1));
        }
        if same_text(bundles[i].name.as_str(), name) && same_text(
            bundles[i].version.as_str(),
            version,
        ) {
            return Some(&bundles[i]);
        }
        i = i + 1;
    }
    None
}

/// The bundles that are installed: those of the workspace, where there is one, and those
/// of the user.
#[derive(Debug, Clone)]
pub struct Installed {
    pub workspace: Vec<BundleInfo>,
    pub global: Vec<BundleInfo>,
}

/// The bundle that a name means: one of the workspace, else one of the user.
pub open spec fn resolved(s: Installed, name: Seq<char>) -> Option<BundleInfo> {
    match latest_named(s.workspace@, name) {
        Some(b) => Some(b),
        None => latest_named(s.global@, name),
    }
}

/// Find the bundle that a name means.
pub fn resolve_bundle<'a>(s: &'a Installed, name: &str) -> (r: Option<&'a BundleInfo>)
    ensures
        match r {
            Some(b) => resolved(*s, name@) == Some(*b),
            None => resolved(*s, name@) is None,
        },
{
    match get(&s.workspace, name) {
        Some(b) => Some(b),
        None => get(&s.global, name),
    }
}

/// The bundle of a name and a version, else the latest bundle of the name.
pub open spec fn resolved_version(s: Installed, name: Seq<char>, version: Seq<char>) -> Option<
    BundleInfo,
> {
    match versioned(s.workspace@, name, version) {
        Some(b) => Some(b),
        None => match versioned(s.global@, name, version) {
            Some(b) => Some(b),
            None => resolved(s, name),
        },
    }
}

/// The bundle that a name with or without a version means. The version is what follows
/// the last `@`.
pub open spec fn resolved_spec(s: Installed, spec: Seq<char>) -> Option<BundleInfo> {
    let at = text::rfind(spec, CharClass::Is('@'));
    if 0 < at < spec.len() - 1 {
        resolved_version(s, spec.take(at), spec.skip(at + 1))
    } else {
        resolved(s, spec)
    }
}

/// Find the bundle that a name with or without a version means. Where that version is not
/// installed, the latest bundle of the name is taken.
pub fn resolve_bundle_spec<'a>(s: &'a Installed, spec: &str) -> (r: Option<&'a BundleInfo>)
    ensures
        match r {
            Some(b) => resolved_spec(*s, spec@) == Some(*b),
            None => resolved_spec(*s, spec@) is None,
        },
{
    let cs = chars_of(spec);
    match rfind_class(cs.as_slice(), CharClass::Is('@')) {
        Some(at) => {
            assert(at < cs.len());
            if at > 0 && at + 1 < cs.len() {
                let name = string_of(slice_subrange(cs.as_slice(), 0, at));
                let version = string_of(slice_subrange(cs.as_slice(), at + 1, cs.len()));
                proof {
                    assert(name@ =~= spec@.take(at as int));
                    assert(version@ =~= spec@.skip(at + 1));
                }
                match get_version(&s.workspace, name.as_str(), version.as_str()) {
                    Some(b) => {
                        return Some(b);
                    },
                    None => {},
                }
                match get_version(&s.global, name.as_str(), version.as_str()) {
                    Some(b) => {
                        return Some(b);
                    },
                    None => {},
                }
                return resolve_bundle(s, name.as_str());
            }
        },
        None => {},
    }
    resolve_bundle(s, spec)
}

/// All bundles, those of the workspace first.
pub open spec fn all_bundles(s: Installed) -> Seq<BundleInfo> {
    s.workspace@ + s.global@
}

/// All bundles, those of the workspace first.
pub fn list_all_bundles(s: &Installed) -> (r: Vec<&BundleInfo>)
    ensures
        r@.len() == all_bundles(*s).len(),
        forall|i: int| 0 <= i < r@.len() ==> *(#[trigger] r@[i]) == all_bundles(*s)[i],
{
    let mut r: Vec<&BundleInfo> = Vec::new();
    let mut i: usize = 0;
    while i < s.workspace.len()
        invariant
            i <= s.workspace@.len(),
            r@.len() == i,
            forall|j: int| 0 <= j < i ==> *(#[trigger] r@[j]) == s.workspace@[j],
        decreases s.workspace.len() - i,
    {
        r.push(&s.workspace[i]);
        i = i + 1;
    }
    let mut k: usize = 0;
    while k < s.global.len()
        invariant
            k <= s.global@.len(),
            r@.len() == s.workspace@.len() + k,
            forall|j: int| 0 <= j < r@.len() ==> *(#[trigger] r@[j]) == all_bundles(*s)[j],
        decreases s.global.len() - k,
    {
        r.push(&s.global[k]);
        k = k + 1;
    }
    r
}

/// A name means a bundle of the workspace wherever the workspace has one.
pub proof fn the_workspace_comes_first(s: Installed, name: Seq<char>)
    requires
        latest_named(s.workspace@, name) is Some,
    ensures
        resolved(s, name) == latest_named(s.workspace@, name),
        resolved(s, name)->0.name@ == name,
        s.workspace@.contains(resolved(s, name)->0),
{
    lemma_latest_named(s.workspace@, name);
}

/// A name means the latest version that is installed: it is one of the bundles of that name,
/// and no version of them is later.
pub proof fn the_latest_version_is_found(bs: Seq<BundleInfo>, name: Seq<char>, i: int)
    requires
        0 <= i < bs.len(),
        bs[i].name@ == name,
    ensures
        match latest_named(bs, name) {
            Some(b) => b.name@ == name && bs.contains(b) && !versions::earlier(
                b.version@,
                bs[i].version@,
            ),
            None => false,
        },
    decreases bs.len(),
{
    let t = bs.drop_last();
    let x = bs.last();
    assert(bs[bs.len() - 1] == x);
    if i < t.len() {
        the_latest_version_is_found(t, name, i);
        let best = latest_named(t, name)->0;
        let k = choose|k: int| 0 <= k < t.len() && t[k] == best;
        assert(bs[k] == best);
        if x.name@ == name && !versions::earlier(x.version@, best.version@) {
            versions::versions_are_ordered(x.version@, best.version@, bs[i].version@);
        }
    } else {
        versions::lemma_not_earlier_than_itself(x.version@);
        lemma_latest_named(t, name);
        match latest_named(t, name) {
            Some(best) => {
                let k = choose|k: int| 0 <= k < t.len() && t[k] == best;
                assert(bs[k] == best);
                if versions::earlier(x.version@, best.version@) {
                    versions::lemma_not_both_earlier(x.version@, best.version@);
                }
            },
            None => {},
        }
    }
}

proof fn lemma_latest_named(bs: Seq<BundleInfo>, name: Seq<char>)
    ensures
        match latest_named(bs, name) {
            Some(b) => b.name@ == name && bs.contains(b),
            None => true,
        },
    decreases bs.len(),
{
    if bs.len() > 0 {
        let t = bs.drop_last();
        assert(bs[bs.len() - 1] == bs.last());
        lemma_latest_named(t, name);
        match latest_named(t, name) {
            Some(best) => {
                let k = choose|k: int| 0 <= k < t.len() && t[k] == best;
                assert(bs[k] == best);
            },
            None => {},
        }
    }
}

/// A version is found just where it is installed: what is found is of that name and that
/// version.
pub proof fn installed_versions_are_found(
    bs: Seq<BundleInfo>,
    name: Seq<char>,
    version: Seq<char>,
)
    ensures
        match versioned(bs, name, version) {
            Some(b) => bs.contains(b) && b.name@ == name && b.version@ == version,
            None => forall|i: int|
                0 <= i < bs.len() ==> (#[trigger] bs[i]).name@ != name || bs[i].version@ != version,
        },
    decreases bs.len(),
{
    if bs.len() > 0 {
        if bs[0].name@ == name && bs[0].version@ == version {
            assert(bs.contains(bs[0]));
        } else {
            let t = bs.drop_first();
            installed_versions_are_found(t, name, version);
            match versioned(t, name, version) {
                Some(b) => {
                    let i = choose|i: int| 0 <= i < t.len() && t[i] == b;
                    assert(bs[i + 1] == b);
                },
                None => {
                    assert forall|i: int| 0 <= i < bs.len() implies (#[trigger] bs[i]).name@ != name
                        || bs[i].version@ != version by {
                        if i > 0 {
                            assert(t[i - 1] == bs[i]);
                        }
                    }
                },
            }
        }
    }
}

proof fn lemma_some_named(bs: Seq<BundleInfo>, name: Seq<char>)
    ensures
        match latest_named(bs, name) {
            Some(b) => bs.contains(b) && b.name@ == name,
            None => forall|i: int| 0 <= i < bs.len() ==> (#[trigger] bs[i]).name@ != name,
        },
{
    if exists|i: int| 0 <= i < bs.len() && (#[trigger] bs[i]).name@ == name {
        let i = choose|i: int| 0 <= i < bs.len() && (#[trigger] bs[i]).name@ == name;
        the_latest_version_is_found(bs, name, i);
    } else {
        lemma_none_named(bs, name);
    }
}

proof fn lemma_none_named(bs: Seq<BundleInfo>, name: Seq<char>)
    requires
        forall|i: int| 0 <= i < bs.len() ==> (#[trigger] bs[i]).name@ != name,
    ensures
        latest_named(bs, name) is None,
    decreases bs.len(),
{
    if bs.len() > 0 {
        let t = bs.drop_last();
        assert forall|i: int| 0 <= i < t.len() implies (#[trigger] t[i]).name@ != name by {
            assert(t[i] == bs[i]);
        }
        lemma_none_named(t, name);
        assert(bs[bs.len() - 1].name@ != name);
    }
}

/// A name means an installed bundle of that name just where there is one, in the workspace or
/// with the user.
pub proof fn a_name_means_an_installed_bundle(s: Installed, name: Seq<char>)
    ensures
        match resolved(s, name) {
            Some(b) => b.name@ == name && (s.workspace@.contains(b) || s.global@.contains(b)),
            None => (forall|i: int|
                0 <= i < s.workspace@.len() ==> (#[trigger] s.workspace@[i]).name@ != name) && (
            forall|i: int| 0 <= i < s.global@.len() ==> (#[trigger] s.global@[i]).name@ != name),
        },
{
    lemma_some_named(s.workspace@, name);
    lemma_some_named(s.global@, name);
}

/// A version that is asked for is the one that is found, wherever it is installed, in the
/// workspace before elsewhere. Where it is not, the name alone decides.
pub proof fn the_version_asked_for_is_found(s: Installed, name: Seq<char>, version: Seq<char>)
    ensures
        ({
            let here = exists|i: int|
                0 <= i < s.workspace@.len() && (#[trigger] s.workspace@[i]).name@ == name
                    && s.workspace@[i].version@ == version;
            let there = exists|i: int|
                0 <= i < s.global@.len() && (#[trigger] s.global@[i]).name@ == name
                    && s.global@[i].version@ == version;
            let r = resolved_version(s, name, version);
            &&& here || there ==> r is Some && r->0.name@ == name && r->0.version@ == version
            &&& here ==> s.workspace@.contains(r->0)
            &&& !here && there ==> s.global@.contains(r->0)
            &&& !here && !there ==> r == resolved(s, name)
        }),
{
    installed_versions_are_found(s.workspace@, name, version);
    installed_versions_are_found(s.global@, name, version);
}

/// A name with a version behind an `@` asks for that version, and a name alone for the latest.
pub proof fn a_version_follows_the_name(s: Installed, name: Seq<char>, version: Seq<char>)
    requires
        name.len() > 0,
        version.len() > 0,
        forall|i: int| 0 <= i < version.len() ==> #[trigger] version[i] != '@',
    ensures
        resolved_spec(s, name + seq!['@'] + version) == resolved_version(s, name, version),
        (forall|i: int| 0 <= i < name.len() ==> #[trigger] name[i] != '@') ==> resolved_spec(s, name)
            == resolved(s, name),
{
    let k = CharClass::Is('@');
    let spec = name + seq!['@'] + version;
    assert forall|j: int| name.len() < j < spec.len() implies !text::in_class(k, #[trigger] spec[j]) by {
        assert(spec[j] == version[j - name.len() - 1]);
    }
    assert(spec[name.len() as int] == '@');
    text::lemma_rfind(spec, k, name.len() as int);
    assert(spec.take(name.len() as int) =~= name);
    assert(spec.skip(name.len() as int + 1) =~= version);
    if forall|i: int| 0 <= i < name.len() ==> #[trigger] name[i] != '@' {
        text::lemma_rfind(name, k, -1);
    }
}

/// Everything that is installed is listed, the workspace's bundles before the others.
pub proof fn everything_installed_is_listed(s: Installed)
    ensures
        all_bundles(s).len() == s.workspace@.len() + s.global@.len(),
        forall|i: int|
            0 <= i < s.workspace@.len() ==> all_bundles(s)[i] == #[trigger] s.workspace@[i],
        forall|i: int|
            0 <= i < s.global@.len() ==> all_bundles(s)[s.workspace@.len() + i]
                == #[trigger] s.global@[i],
{
}

/// An index of a bundle is used just where the manifest lists it and it is there, and its
/// code graph where it is there, filled, and where it is looked for.
pub proof fn only_what_is_there_is_used(b: BundleInfo)
    ensures
        b.spec_has_lance() ==> b.lists_lance && b.on_disk.lance,
        b.spec_has_code() ==> b.lists_code && b.on_disk.code,
        b.spec_is_indexed() ==> b.on_disk.graph && b.on_disk.graph_filled && b.on_disk.view,
        b.lists_lance && b.on_disk.lance ==> b.spec_has_lance(),
        b.lists_code && b.on_disk.code ==> b.spec_has_code(),
        b.on_disk.graph && b.on_disk.graph_filled && b.on_disk.view ==> b.spec_is_indexed(),
{
}

/// An `@` at either end of a name is part of the name: no version follows it, or no name comes
/// before it.
pub proof fn an_at_sign_alone_asks_for_no_version(s: Installed, name: Seq<char>)
    requires
        name.len() > 0,
        forall|i: int| 0 <= i < name.len() ==> #[trigger] name[i] != '@',
    ensures
        resolved_spec(s, name + seq!['@']) == resolved(s, name + seq!['@']),
        resolved_spec(s, seq!['@'] + name) == resolved(s, seq!['@'] + name),
{
    let k = CharClass::Is('@');
    let a = name + seq!['@'];
    text::lemma_rfind(a, k, name.len() as int);
    let b = seq!['@'] + name;
    assert forall|j: int| 0 < j < b.len() implies !text::in_class(k, #[trigger] b[j]) by {
        assert(b[j] == name[j - 1]);
    }
    text::lemma_rfind(b, k, 0);
}

} // verus!
