//! Building bundles from repositories and local directories: names, versions, what goes
//! into a bundle, and what is recorded of it.

use vstd::prelude::*;

use crate::github;
use crate::github::{GitHubSource, ResolvedSource};
use crate::manifest::{DependencyEntry, DependencyView};
use crate::paths;
use crate::paths::{components_of, join_path};
use crate::pieces;
use crate::pieces::{byte_size, copy_opt, copy_texts, join_texts, replace_text};
use crate::registry;
use crate::sources;
use crate::sources::format_manifest_git_source;
use crate::text;
use crate::text::{
    chars_of, class_has, same_text, string_of, trim_class, trim_start_class, trim_text, CharClass,
};

verus! {

// ---------------------------------------------------------------------------
// Names and versions of local directories
// ---------------------------------------------------------------------------

/// A character of a package's name: one that a name cannot have becomes a dash.
pub open spec fn package_char(c: char) -> char {
    if text::char_is_alnum(c) || c == '-' || c == '_' || c == '.' {
        c
    } else {
        '-'
    }
}

/// What a local package is called: as asked, else by its directory.
pub fn local_package_name(asked: Option<&str>, dir_name: Option<&str>) -> (r: String)
    ensures
        r@ == (match asked {
            Some(n) => n@,
            None => match dir_name {
                Some(d) => d@.map_values(|c: char| package_char(c)),
                None => "local-package"@,
            },
        }),
{
    match asked {
        Some(n) => n.to_owned(),
        None => match dir_name {
            Some(d) => {
                let cs = chars_of(d);
                let ghost want = d@.map_values(|c: char| package_char(c));
                let mut out: Vec<char> = Vec::new();
                let mut i: usize = 0;
                while i < cs.len()
                    invariant
                        i <= cs@.len(),
                        cs@ == d@,
                        want == d@.map_values(|c: char| package_char(c)),
                        out@ == want.take(i as int),
                    decreases cs.len() - i,
                {
                    let c = cs[i];
                    let named = !class_has(CharClass::NotAlnum, c);
                    if named || c == '-' || c == '_' || c == '.' {
                        out.push(c);
                    } else {
                        out.push('-');
                    }
                    i = i + 1;
                    assert(want[i - 1] == package_char(c));
                    assert(out@ =~= want.take(i as int));
                }
                assert(want.take(want.len() as int) =~= want);
                string_of(out.as_slice())
            },
            None => "local-package".to_owned(),
        },
    }
}

/// The arguments that make git describe a directory's commit.
pub open spec fn describe_args(path: Seq<char>) -> Seq<Seq<char>> {
    seq!["-C"@, path, "describe"@, "--tags"@, "--always"@, "--abbrev=12"@]
}

/// The arguments that make git tell the short name of a directory's commit.
pub open spec fn short_head_args(path: Seq<char>) -> Seq<Seq<char>> {
    seq!["-C"@, path, "rev-parse"@, "--short=12"@, "HEAD"@]
}

/// How git is asked to describe a directory's commit.
pub fn git_describe_args(path: &str) -> (r: Vec<String>)
    ensures
        pieces::texts(r@) == describe_args(path@),
{
    let mut r: Vec<String> = Vec::new();
    r.push("-C".to_owned());
    r.push(path.to_owned());
    r.push("describe".to_owned());
    r.push("--tags".to_owned());
    r.push("--always".to_owned());
    r.push("--abbrev=12".to_owned());
    assert(pieces::texts(r@) =~= describe_args(path@));
    r
}

/// How git is asked for the short name of a directory's commit.
pub fn git_short_head_args(path: &str) -> (r: Vec<String>)
    ensures
        pieces::texts(r@) == short_head_args(path@),
{
    let mut r: Vec<String> = Vec::new();
    r.push("-C".to_owned());
    r.push(path.to_owned());
    r.push("rev-parse".to_owned());
    r.push("--short=12".to_owned());
    r.push("HEAD".to_owned());
    assert(pieces::texts(r@) =~= short_head_args(path@));
    r
}

/// How git is asked for a directory's commit.
pub fn git_head_args(path: &str) -> (r: Vec<String>)
    ensures
        pieces::texts(r@) == seq!["-C"@, path@, "rev-parse"@, "HEAD"@],
{
    let mut r: Vec<String> = Vec::new();
    r.push("-C".to_owned());
    r.push(path.to_owned());
    r.push("rev-parse".to_owned());
    r.push("HEAD".to_owned());
    assert(pieces::texts(r@) =~= seq!["-C"@, path@, "rev-parse"@, "HEAD"@]);
    r
}

/// The version in the description that git gives, without the `v` before it.
pub open spec fn described_version(success: bool, stdout: Seq<char>) -> Option<Seq<char>> {
    let t = text::trim(stdout, CharClass::Space);
    if success && t.len() > 0 {
        Some(text::trim_start(t, CharClass::Is('v')))
    } else {
        None
    }
}

/// The short name of a commit that git gives.
pub open spec fn short_name(success: bool, stdout: Seq<char>) -> Option<Seq<char>> {
    let t = text::trim(stdout, CharClass::Space);
    if success && t.len() > 0 {
        Some(t)
    } else {
        None
    }
}

/// The version that git describes, else the short name that it gives its commit. Each is
/// whether git succeeded and what it printed.
pub open spec fn git_version(described: (bool, Seq<char>), named: (bool, Seq<char>)) -> Option<
    Seq<char>,
> {
    match described_version(described.0, described.1) {
        Some(v) => Some(v),
        None => short_name(named.0, named.1),
    }
}

/// The version that git describes, without the `v` before it.
pub fn git_description(success: bool, stdout: &str) -> (r: Option<String>)
    ensures
        pieces::opt_text(r) == described_version(success, stdout@),
{
    if !success {
        return None;
    }
    let cs = chars_of(stdout);
    let t = trim_class(cs.as_slice(), CharClass::Space);
    if t.len() == 0 {
        return None;
    }
    Some(string_of(trim_start_class(t, CharClass::Is('v'))))
}

/// The short name that git gives a commit.
pub fn git_short_name(success: bool, stdout: &str) -> (r: Option<String>)
    ensures
        pieces::opt_text(r) == short_name(success, stdout@),
{
    if !success {
        return None;
    }
    let t = trim_text(stdout);
    if t.as_str().is_empty() {
        None
    } else {
        Some(t)
    }
}

/// The version that git gives a directory: what it describes, else the short name of the
/// commit. Each is whether git succeeded and what it printed.
pub fn local_git_version(described: (bool, &str), named: (bool, &str)) -> (r: Option<String>)
    ensures
        pieces::opt_text(r) == git_version(
            (described.0, described.1@),
            (named.0, named.1@),
        ),
{
    match git_description(described.0, described.1) {
        Some(v) => Some(v),
        None => git_short_name(named.0, named.1),
    }
}

/// The commit that git names: forty characters, in lower case.
pub fn local_git_sha(success: bool, stdout: &str) -> (r: Option<String>)
    ensures
        ({
            let t = text::lowercased(text::trim(stdout@, CharClass::Space));
            pieces::opt_text(r) == (if success && pieces::byte_len(t) == 40 {
                Some(t)
            } else {
                None
            })
        }),
{
    if !success {
        return None;
    }
    let t = trim_text(stdout).as_str().to_lowercase();
    if byte_size(t.as_str()) == 40 {
        Some(t)
    } else {
        None
    }
}

/// A local source has to be a directory.
pub fn check_local_path(path: &str, exists: bool, is_dir: bool) -> (r: Result<(), String>)
    ensures
        match r {
            Ok(_) => exists && is_dir,
            Err(e) => if !exists {
                e@ == "Local path '"@ + path@ + "' does not exist."@
            } else {
                !is_dir && e@ == "Local path '"@ + path@ + "' is not a directory."@
            },
        },
{
    if exists && is_dir {
        return Ok(());
    }
    let mut e = "Local path '".to_owned();
    e.append(path);
    if !exists {
        e.append("' does not exist.");
    } else {
        e.append("' is not a directory.");
    }
    Err(e)
}

// ---------------------------------------------------------------------------
// What goes into a bundle
// ---------------------------------------------------------------------------

/// What a bundle is built with.
#[derive(Debug, Clone)]
pub struct SourceOptions {
    pub include_source: bool,
    pub source_glob: Option<String>,
    pub source_dirs: Vec<String>,
    pub docs_dirs: Vec<String>,
    pub exclude_dirs: Vec<String>,
}

/// The options of a bundle that is not built here.
pub fn no_options() -> (r: SourceOptions)
    ensures
        !r.include_source,
        r.source_glob is None,
        r.source_dirs@.len() == 0,
        r.docs_dirs@.len() == 0,
        r.exclude_dirs@.len() == 0,
{
    SourceOptions {
        include_source: false,
        source_glob: None,
        source_dirs: Vec::new(),
        docs_dirs: Vec::new(),
        exclude_dirs: Vec::new(),
    }
}

/// Directories below a root.
pub open spec fn below(root: Seq<char>, dirs: Seq<Seq<char>>) -> Seq<Seq<char>> {
    dirs.map_values(|d: Seq<char>| paths::joined(root, d))
}

/// Directories below a root, or the root where there are none.
pub open spec fn below_or_root(root: Seq<char>, dirs: Seq<Seq<char>>) -> Seq<Seq<char>> {
    if dirs.len() == 0 {
        seq![root]
    } else {
        below(root, dirs)
    }
}

fn join_all(root: &str, dirs: &Vec<String>) -> (r: Vec<String>)
    ensures
        pieces::texts(r@) == below(root@, pieces::texts(dirs@)),
{
    let ghost want = below(root@, pieces::texts(dirs@));
    let mut r: Vec<String> = Vec::new();
    let mut i: usize = 0;
    assert(pieces::texts(r@) =~= want.take(0));
    while i < dirs.len()
        invariant
            i <= dirs@.len(),
            want == below(root@, pieces::texts(dirs@)),
            pieces::texts(r@) == want.take(i as int),
        decreases dirs.len() - i,
    {
        let ghost before = pieces::texts(r@);
        r.push(join_path(root, dirs[i].as_str()));
        proof {
            assert(want[i as int] == paths::joined(root@, dirs@[i as int]@));
            assert(pieces::texts(r@) =~= before.push(want[i as int]));
            assert(want.take(i + 1) =~= want.take(i as int).push(want[i as int]));
        }
        i = i + 1;
    }
    assert(want.take(want.len() as int) =~= want);
    r
}

fn join_all_or_root(root: &str, dirs: &Vec<String>) -> (r: Vec<String>)
    ensures
        pieces::texts(r@) == below_or_root(root@, pieces::texts(dirs@)),
{
    assert(pieces::texts(dirs@).len() == dirs@.len());
    if dirs.len() == 0 {
        let mut r: Vec<String> = Vec::new();
        r.push(root.to_owned());
        assert(pieces::texts(r@) =~= seq![root@]);
        r
    } else {
        join_all(root, dirs)
    }
}

/// What a bundle is built from.
#[derive(Debug, Clone)]
pub struct BuildPlan {
    pub name: String,
    pub version: String,
    pub source_repo: String,
    pub commit_hash: String,
    pub tag: Option<String>,
    /// The file that the bundle is written to.
    pub file_name: String,
    pub source_dirs: Vec<String>,
    pub docs_dirs: Vec<String>,
    pub exclude_dirs: Vec<String>,
    pub include_source: bool,
    pub source_glob: Option<String>,
}

/// A plan builds from a root with options.
pub open spec fn builds_from(p: BuildPlan, root: Seq<char>, o: SourceOptions) -> bool {
    pieces::texts(p.source_dirs@) == below_or_root(root, pieces::texts(o.source_dirs@))
        && pieces::texts(p.docs_dirs@) == below_or_root(root, pieces::texts(o.docs_dirs@))
        && pieces::texts(p.exclude_dirs@) == below(root, pieces::texts(o.exclude_dirs@))
        && p.include_source == o.include_source && pieces::opt_text(p.source_glob)
        == pieces::opt_text(o.source_glob)
}

/// What a bundle of a repository is built from. A tag is recorded where the reference is
/// one.
pub fn github_build_plan(r: &ResolvedSource, root: &str, o: &SourceOptions) -> (p: BuildPlan)
    ensures
        builds_from(p, root@, *o),
        p.name@ == r.package_name@,
        p.version@ == r.version@,
        p.source_repo@ == r.source_repo_url@,
        p.commit_hash@ == r.commit_sha@,
        pieces::opt_text(p.tag) == (if r.is_tag {
            Some(r.git_ref@)
        } else {
            None
        }),
        p.file_name@ == r.package_name@ + "-"@ + r.version@ + ".sembundle"@,
{
    BuildPlan {
        name: r.package_name.clone(),
        version: r.version.clone(),
        source_repo: r.source_repo_url.clone(),
        commit_hash: r.commit_sha.clone(),
        tag: if r.is_tag {
            Some(r.git_ref.clone())
        } else {
            None
        },
        file_name: registry::archive_name(r.package_name.as_str(), r.version.as_str()),
        source_dirs: join_all_or_root(root, &o.source_dirs),
        docs_dirs: join_all_or_root(root, &o.docs_dirs),
        exclude_dirs: join_all(root, &o.exclude_dirs),
        include_source: o.include_source,
        source_glob: copy_opt(&o.source_glob),
    }
}

/// What a bundle of a local directory is built from.
pub fn local_build_plan(
    name: &str,
    version: &str,
    root: &str,
    commit: &Option<String>,
    o: &SourceOptions,
) -> (p: BuildPlan)
    ensures
        builds_from(p, root@, *o),
        p.name@ == name@,
        p.version@ == version@,
        p.source_repo@ == "local:"@ + root@,
        p.commit_hash@ == (match *commit {
            Some(c) => c@,
            None => seq![],
        }),
        p.tag is None,
        p.file_name@ == name@ + "-"@ + version@ + ".sembundle"@,
{
    let mut repo = "local:".to_owned();
    repo.append(root);
    let commit_hash = match commit {
        Some(c) => c.clone(),
        None => {
            let r = String::new();
            assert(r@ =~= seq![]);
            r
        },
    };
    BuildPlan {
        name: name.to_owned(),
        version: version.to_owned(),
        source_repo: repo,
        commit_hash,
        tag: None,
        file_name: registry::archive_name(name, version),
        source_dirs: join_all_or_root(root, &o.source_dirs),
        docs_dirs: join_all_or_root(root, &o.docs_dirs),
        exclude_dirs: join_all(root, &o.exclude_dirs),
        include_source: o.include_source,
        source_glob: copy_opt(&o.source_glob),
    }
}

// ---------------------------------------------------------------------------
// Which way a repository is installed
// ---------------------------------------------------------------------------

/// A source with the name and the version that were asked for.
pub fn with_overrides(r: ResolvedSource, name: Option<&str>, version: Option<&str>) -> (s:
    ResolvedSource)
    ensures
        s.package_name@ == (match name {
            Some(n) => n@,
            None => r.package_name@,
        }),
        s.version@ == (match version {
            Some(v) => v@,
            None => r.version@,
        }),
        s.host == r.host,
        s.owner == r.owner,
        s.repo == r.repo,
        s.git_ref == r.git_ref,
        s.commit_sha == r.commit_sha,
        s.is_tag == r.is_tag,
        s.source_repo_url == r.source_repo_url,
{
    let mut s = r;
    match name {
        Some(n) => {
            s.package_name = n.to_owned();
        },
        None => {},
    }
    match version {
        Some(v) => {
            s.version = v.to_owned();
        },
        None => {},
    }
    s
}

/// How a bundle of a repository comes to be installed.
#[derive(Debug, Clone, Copy, PartialEq, Eq, Structural)]
pub enum GitHubRoute {
    /// It is there, and is only recorded.
    AlreadyInstalled,
    /// A release may have it: look there before building.
    TryRelease,
    /// Build it.
    Build,
}

/// How a bundle of a repository comes to be installed. What is there is not built again
/// unless that is asked for, and a bundle that a release has is not built unless that is
/// asked for.
pub fn github_route(reinstall: bool, installed: bool, force_build: bool) -> (r: GitHubRoute)
    ensures
        r == (if !reinstall && installed {
            GitHubRoute::AlreadyInstalled
        } else if force_build {
            GitHubRoute::Build
        } else {
            GitHubRoute::TryRelease
        }),
{
    if !reinstall && installed {
        GitHubRoute::AlreadyInstalled
    } else if force_build {
        GitHubRoute::Build
    } else {
        GitHubRoute::TryRelease
    }
}

/// Where the source is within a repository.
pub fn source_root(root: &str, subdir: &Option<String>, is_dir: bool) -> (r: Result<String, String>)
    ensures
        match *subdir {
            None => r is Ok && r->Ok_0@ == root@,
            Some(s) => match r {
                Ok(p) => is_dir && p@ == paths::joined(root@, s@),
                Err(e) => !is_dir && e@ == "Subdir '"@ + s@
                    + "' not found in the repository archive."@,
            },
        },
{
    match subdir {
        None => Ok(root.to_owned()),
        Some(s) => {
            if is_dir {
                Ok(join_path(root, s.as_str()))
            } else {
                let mut e = "Subdir '".to_owned();
                e.append(s.as_str());
                e.append("' not found in the repository archive.");
                Err(e)
            }
        },
    }
}

/// Where a built bundle came from.
pub fn build_label(r: &ResolvedSource) -> (t: String)
    ensures
        t@ == "github:"@ + r.host@ + "/"@ + r.owner@ + "/"@ + r.repo@ + "@"@ + r.git_ref@,
{
    let mut t = "github:".to_owned();
    t.append(r.host.as_str());
    t.append("/");
    t.append(r.owner.as_str());
    t.append("/");
    t.append(r.repo.as_str());
    t.append("@");
    t.append(r.git_ref.as_str());
    t
}

// ---------------------------------------------------------------------------
// What is recorded
// ---------------------------------------------------------------------------

/// A dependency that is built here.
pub open spec fn built_dep(
    version: Seq<char>,
    git: Option<Seq<char>>,
    git_ref: Option<Seq<char>>,
    subdir: Option<Seq<char>>,
    full: bool,
    local: Option<Seq<char>>,
    o: SourceOptions,
    description: Option<Seq<char>>,
) -> DependencyView {
    DependencyView {
        version,
        registry: None,
        url: None,
        git,
        git_ref,
        subdir,
        full,
        local,
        include_source: o.include_source,
        source_glob: pieces::opt_text(o.source_glob),
        source_dirs: pieces::texts(o.source_dirs@),
        docs_dirs: pieces::texts(o.docs_dirs@),
        exclude_dirs: pieces::texts(o.exclude_dirs@),
        description,
    }
}

/// What is recorded of a bundle of a repository: enough to build it again.
pub fn github_dependency(
    r: &ResolvedSource,
    src: &GitHubSource,
    full: bool,
    o: &SourceOptions,
    description: &Option<String>,
) -> (d: DependencyEntry)
    ensures
        d@ == built_dep(
            r.version@,
            Some(sources::git_source_text(r.host@, r.owner@, r.repo@)),
            src@.git_ref,
            src@.subdir,
            full,
            None,
            *o,
            pieces::opt_text(*description),
        ),
{
    DependencyEntry {
        version: r.version.clone(),
        registry: None,
        url: None,
        git: Some(
            format_manifest_git_source(r.host.as_str(), r.owner.as_str(), r.repo.as_str()),
        ),
        git_ref: copy_opt(&src.git_ref),
        subdir: copy_opt(&src.subdir),
        full,
        local: None,
        include_source: o.include_source,
        source_glob: copy_opt(&o.source_glob),
        source_dirs: copy_texts(&o.source_dirs),
        docs_dirs: copy_texts(&o.docs_dirs),
        exclude_dirs: copy_texts(&o.exclude_dirs),
        description: copy_opt(description),
    }
}

/// What is recorded of a bundle of a local directory.
pub fn local_dependency(
    version: &str,
    stored: &str,
    o: &SourceOptions,
    description: &Option<String>,
) -> (d: DependencyEntry)
    ensures
        d@ == built_dep(
            version@,
            None,
            None,
            None,
            false,
            Some(stored@),
            *o,
            pieces::opt_text(*description),
        ),
{
    DependencyEntry {
        version: version.to_owned(),
        registry: None,
        url: None,
        git: None,
        git_ref: None,
        subdir: None,
        full: false,
        local: Some(stored.to_owned()),
        include_source: o.include_source,
        source_glob: copy_opt(&o.source_glob),
        source_dirs: copy_texts(&o.source_dirs),
        docs_dirs: copy_texts(&o.docs_dirs),
        exclude_dirs: copy_texts(&o.exclude_dirs),
        description: copy_opt(description),
    }
}

/// A path is that of another or below it.
pub open spec fn is_below(p: Seq<char>, dir: Seq<char>) -> bool {
    let ps = paths::components(p);
    let ds = paths::components(dir);
    paths::is_absolute(p) == paths::is_absolute(dir) && ds.len() <= ps.len() && ps.take(
        ds.len() as int,
    ) == ds
}

/// How a local directory is recorded: relative to the workspace where it is in it, so that
/// the manifest stays good when the workspace moves. Both paths are canonical.
pub open spec fn recorded_path(canonical: Seq<char>, workspace: Seq<char>) -> Seq<char> {
    if is_below(canonical, workspace) {
        let rest = paths::components(canonical).skip(paths::components(workspace).len() as int);
        if rest.len() == 0 {
            "."@
        } else {
            pieces::replaced(pieces::join(rest, "/"@), "\\"@, "/"@)
        }
    } else {
        canonical
    }
}

fn is_abs(p: &str) -> (r: bool)
    ensures
        r == paths::is_absolute(p@),
{
    let cs = chars_of(p);
    cs.len() > 0 && cs[0] == '/'
}

/// How a local directory is recorded.
pub fn stored_path(canonical: &str, workspace: &str) -> (r: String)
    ensures
        r@ == recorded_path(canonical@, workspace@),
{
    let ps = components_of(canonical);
    let ds = components_of(workspace);
    let ghost pv = paths::components(canonical@);
    let ghost dv = paths::components(workspace@);
    proof {
        assert(pieces::texts(ps@).len() == ps@.len());
        assert(pieces::texts(ds@).len() == ds@.len());
    }
    if is_abs(canonical) != is_abs(workspace) || ds.len() > ps.len() {
        return canonical.to_owned();
    }
    let mut i: usize = 0;
    while i < ds.len()
        invariant
            i <= ds@.len() <= ps@.len(),
            pv == pieces::texts(ps@),
            dv == pieces::texts(ds@),
            pv == paths::components(canonical@),
            dv == paths::components(workspace@),
            forall|j: int| 0 <= j < i ==> pv[j] == #[trigger] dv[j],
        decreases ds.len() - i,
    {
        assert(pv[i as int] == ps@[i as int]@);
        assert(dv[i as int] == ds@[i as int]@);
        if !same_text(ps[i].as_str(), ds[i].as_str()) {
            proof {
                if pv.take(dv.len() as int) == dv {
                    assert(pv.take(dv.len() as int)[i as int] == dv[i as int]);
                }
            }
            return canonical.to_owned();
        }
        i = i + 1;
    }
    assert(pv.take(dv.len() as int) =~= dv);
    let ghost rest = pv.skip(dv.len() as int);
    let mut tail: Vec<String> = Vec::new();
    let mut k: usize = ds.len();
    assert(pieces::texts(tail@) =~= rest.take(0));
    while k < ps.len()
        invariant
            ds@.len() <= k <= ps@.len(),
            pv == pieces::texts(ps@),
            rest == pv.skip(ds@.len() as int),
            pieces::texts(tail@) == rest.take(k - ds@.len()),
        decreases ps.len() - k,
    {
        let ghost before = pieces::texts(tail@);
        tail.push(ps[k].clone());
        proof {
            assert(rest[k - ds@.len()] == ps@[k as int]@);
            assert(pieces::texts(tail@) =~= before.push(rest[k - ds@.len()]));
            assert(rest.take(k + 1 - ds@.len()) =~= rest.take(k - ds@.len()).push(
                rest[k - ds@.len()],
            ));
        }
        k = k + 1;
    }
    assert(rest.take(rest.len() as int) =~= rest);
    assert(pieces::texts(tail@).len() == tail@.len());
    if tail.len() == 0 {
        return ".".to_owned();
    }
    proof {
        reveal_strlit("\\");
        assert("\\"@.len() == 1);
    }
    replace_text(join_texts(&tail, "/").as_str(), "\\", "/")
}

/// What is said once a dependency is recorded.
pub fn recorded_message(name: &str, version: &str, group: Option<&str>) -> (r: String)
    ensures
        r@ == "Recorded "@ + name@ + "@"@ + version@ + (match group {
            Some(g) => " in group '"@ + g@ + "' in sempkg.toml."@,
            None => " in sempkg.toml."@,
        }),
{
    let mut r = "Recorded ".to_owned();
    r.append(name);
    r.append("@");
    r.append(version);
    let mut tail = " in sempkg.toml.".to_owned();
    match group {
        Some(g) => {
            tail = " in group '".to_owned();
            tail.append(g);
            tail.append("' in sempkg.toml.");
        },
        None => {},
    }
    r.append(tail.as_str());
    r
}

/// A workspace that is its own source is recorded as `.`, wherever it is.
pub proof fn a_workspace_records_itself_as_dot(workspace: Seq<char>)
    ensures
        recorded_path(workspace, workspace) == "."@,
{
    let ds = paths::components(workspace);
    assert(ds.take(ds.len() as int) =~= ds);
}

/// What is recorded of a repository leads back to it: installing the dependency builds the
/// same repository at the same reference.
pub proof fn recorded_repositories_are_found_again(
    r: ResolvedSource,
    version: Seq<char>,
    git_ref: Option<Seq<char>>,
    subdir: Option<Seq<char>>,
    full: bool,
    o: SourceOptions,
    description: Option<Seq<char>>,
)
    requires
        sources::slash_free(r.host@),
        sources::slash_free(r.owner@),
        sources::slash_free(r.repo@),
    ensures
        ({
            let d = built_dep(
                version,
                Some(sources::git_source_text(r.host@, r.owner@, r.repo@)),
                git_ref,
                subdir,
                full,
                None,
                o,
                description,
            );
            &&& sources::git_source(d.git->0) is Some
            &&& sources::git_source(d.git->0)->0.owner == r.owner@
            &&& sources::git_source(d.git->0)->0.repo == r.repo@
            &&& !sources::is_github_com(r.host@) ==> sources::git_source(d.git->0)->0.host
                == r.host@
            &&& d.git_ref == git_ref
            &&& d.subdir == subdir
        }),
{
    sources::written_git_sources_are_read_back(r.host@, r.owner@, r.repo@);
}

// ---------------------------------------------------------------------------
// What is built and recorded
// ---------------------------------------------------------------------------

/// The version that git describes is what git prints, but for the `v` in front; a failed
/// description is none, and then the short name of the commit counts.
pub proof fn described_versions_lose_only_their_v(
    version: Seq<char>,
    named: (bool, Seq<char>),
    success: bool,
)
    requires
        version.len() > 0,
        version[0] != 'v',
        text::trim(seq!['v'] + version, CharClass::Space) == seq!['v'] + version,
        text::trim(version, CharClass::Space) == version,
    ensures
        git_version((true, seq!['v'] + version), named) == Some(version),
        git_version((true, version), named) == Some(version),
        git_version((false, version), (true, version)) == Some(version),
        git_version((success, Seq::empty()), (true, version)) == Some(version),
        git_version((false, version), (false, version)) is None,
{
    let k = CharClass::Is('v');
    let t = seq!['v'] + version;
    assert(t[0] == 'v' && t[1] == version[0]);
    text::lemma_trim_start(t, k, 1);
    assert(t.skip(1) =~= version);
    text::lemma_trim_start(version, k, 0);
    assert(version.skip(0) =~= version);
    assert(text::trim(Seq::<char>::empty(), CharClass::Space).len() == 0);
}

/// A bundle is built from every directory that is asked for, below the root, and from the
/// root itself where none is asked for; whatever else is asked for is in the plan.
pub proof fn every_directory_is_built_from(p: BuildPlan, root: Seq<char>, o: SourceOptions, i: int)
    requires
        builds_from(p, root, o),
    ensures
        o.source_dirs@.len() == 0 ==> p.source_dirs@.len() == 1 && p.source_dirs@[0]@ == root,
        o.docs_dirs@.len() == 0 ==> p.docs_dirs@.len() == 1 && p.docs_dirs@[0]@ == root,
        o.source_dirs@.len() > 0 ==> p.source_dirs@.len() == o.source_dirs@.len(),
        o.docs_dirs@.len() > 0 ==> p.docs_dirs@.len() == o.docs_dirs@.len(),
        p.exclude_dirs@.len() == o.exclude_dirs@.len(),
        0 <= i < o.source_dirs@.len() ==> p.source_dirs@[i]@ == paths::joined(
            root,
            o.source_dirs@[i]@,
        ),
        0 <= i < o.docs_dirs@.len() ==> p.docs_dirs@[i]@ == paths::joined(root, o.docs_dirs@[i]@),
        0 <= i < o.exclude_dirs@.len() ==> p.exclude_dirs@[i]@ == paths::joined(
            root,
            o.exclude_dirs@[i]@,
        ),
        p.include_source == o.include_source,
        o.source_glob matches Some(g) ==> p.source_glob is Some && p.source_glob->0@ == g@,
        o.source_glob is None ==> p.source_glob is None,
{
    let src = pieces::texts(p.source_dirs@);
    let docs = pieces::texts(p.docs_dirs@);
    let out = pieces::texts(p.exclude_dirs@);
    assert(src.len() == p.source_dirs@.len());
    assert(docs.len() == p.docs_dirs@.len());
    assert(out.len() == p.exclude_dirs@.len());
    if o.source_dirs@.len() == 0 {
        assert(src[0] == p.source_dirs@[0]@);
    }
    if o.docs_dirs@.len() == 0 {
        assert(docs[0] == p.docs_dirs@[0]@);
    }
    if 0 <= i < o.source_dirs@.len() {
        assert(src[i] == p.source_dirs@[i]@);
        assert(pieces::texts(o.source_dirs@)[i] == o.source_dirs@[i]@);
    }
    if 0 <= i < o.docs_dirs@.len() {
        assert(docs[i] == p.docs_dirs@[i]@);
        assert(pieces::texts(o.docs_dirs@)[i] == o.docs_dirs@[i]@);
    }
    if 0 <= i < o.exclude_dirs@.len() {
        assert(out[i] == p.exclude_dirs@[i]@);
        assert(pieces::texts(o.exclude_dirs@)[i] == o.exclude_dirs@[i]@);
    }
}

/// A directory in the workspace is recorded by the names that lead to it from there; one that
/// is not in the workspace is recorded as it is.
pub proof fn directories_are_recorded_from_the_workspace(
    canonical: Seq<char>,
    workspace: Seq<char>,
    rest: Seq<Seq<char>>,
)
    requires
        rest.len() > 0,
        forall|i: int, j: int|
            0 <= i < rest.len() && 0 <= j < rest[i].len() ==> #[trigger] rest[i][j] != '\\',
    ensures
        paths::is_absolute(canonical) == paths::is_absolute(workspace) && paths::components(
            canonical,
        ) == paths::components(workspace) + rest && !pieces::join(rest, "/"@).contains('\\')
            ==> recorded_path(canonical, workspace) == pieces::join(rest, "/"@),
        paths::is_absolute(canonical) != paths::is_absolute(workspace) ==> recorded_path(
            canonical,
            workspace,
        ) == canonical,
        paths::components(canonical).len() < paths::components(workspace).len() ==> recorded_path(
            canonical,
            workspace,
        ) == canonical,
{
    let cs = paths::components(canonical);
    let ws = paths::components(workspace);
    if cs == ws + rest {
        assert(cs.take(ws.len() as int) =~= ws);
        assert(cs.skip(ws.len() as int) =~= rest);
        let j = pieces::join(rest, "/"@);
        if !j.contains('\\') {
            reveal_strlit("\\");
            reveal_strlit("/");
            assert("\\"@ =~= seq!['\\']);
            lemma_unreplaced(j, "/"@);
        }
    }
}

proof fn lemma_unreplaced(s: Seq<char>, with: Seq<char>)
    requires
        !s.contains('\\'),
    ensures
        pieces::replaced(s, seq!['\\'], with) == s,
    decreases s.len(),
{
    if s.len() > 0 {
        let t = s.drop_last();
        if t.contains('\\') {
            let i = choose|i: int| 0 <= i < t.len() && t[i] == '\\';
            assert(s[i] == '\\');
        }
        lemma_unreplaced(t, with);
        assert(s =~= t + seq![s.last()]);
        assert(s.contains(s[s.len() - 1]));
        pieces::characters_are_replaced_one_by_one(t, seq![s.last()], '\\', s.last(), with);
    } else {
        assert(s =~= Seq::<char>::empty());
        pieces::characters_are_replaced_one_by_one(s, s, '\\', 'a', with);
    }
}

/// A dependency that is built here is recorded with all that it takes to build it again.
pub proof fn what_is_built_is_recorded(
    version: Seq<char>,
    git: Option<Seq<char>>,
    git_ref: Option<Seq<char>>,
    subdir: Option<Seq<char>>,
    full: bool,
    local: Option<Seq<char>>,
    o: SourceOptions,
    description: Option<Seq<char>>,
    i: int,
)
    ensures
        ({
            let d = built_dep(version, git, git_ref, subdir, full, local, o, description);
            &&& d.version == version && d.git == git && d.git_ref == git_ref && d.subdir == subdir
            &&& d.full == full && d.local == local && d.description == description
            &&& d.registry is None && d.url is None
            &&& d.include_source == o.include_source
            &&& o.source_glob matches Some(g) ==> d.source_glob == Some(g@)
            &&& d.source_dirs.len() == o.source_dirs@.len()
            &&& d.docs_dirs.len() == o.docs_dirs@.len()
            &&& d.exclude_dirs.len() == o.exclude_dirs@.len()
            &&& 0 <= i < o.source_dirs@.len() ==> d.source_dirs[i] == o.source_dirs@[i]@
            &&& 0 <= i < o.docs_dirs@.len() ==> d.docs_dirs[i] == o.docs_dirs@[i]@
            &&& 0 <= i < o.exclude_dirs@.len() ==> d.exclude_dirs[i] == o.exclude_dirs@[i]@
        }),
{
}

} // verus!
