//! Adding a bundle that is built from its sources, step by step: what is done next after
//! each thing that was done.

use vstd::prelude::*;

use crate::deps;
use crate::deps::LocalDep;
use crate::github;
use crate::github::{archive_tarball_url, GitHubSource, ReleaseAsset, ResolvedSource, SourceView};
use crate::manifest::{DependencyEntry, DependencyView};
use crate::packing;
use crate::packing::{
    build_label, git_describe_args, git_description, git_short_head_args, git_short_name,
    github_build_plan, github_dependency, github_route, local_build_plan, local_dependency,
    local_package_name, no_options, source_root, stored_path, with_overrides, BuildPlan,
    GitHubRoute, SourceOptions,
};
use crate::paths;
use crate::pieces;
use crate::pieces::{copy_opt, copy_texts};
use crate::sources;
use crate::sources::format_manifest_git_source;

verus! {

/// What was asked for when a source was added.
pub struct AddRequest {
    pub group: Option<String>,
    /// Build, though a release may have the bundle.
    pub force_build: bool,
    pub reinstall: bool,
    /// Clone the repository in place of unpacking its archive.
    pub full: bool,
    pub name: Option<String>,
    pub version: Option<String>,
    pub options: SourceOptions,
    pub description: Option<String>,
}

/// What is written down of a bundle that was installed.
pub struct Record {
    pub name: String,
    pub dep: DependencyEntry,
    /// Where the lock says that it came from.
    pub source: String,
    pub commit_sha: Option<String>,
}

/// What adding a source does next.
pub enum Action {
    /// Ask git for the version, with these arguments.
    AskGit(Vec<String>),
    /// See whether the bundle is installed.
    Check,
    /// Look for the bundle among the assets of the release.
    FindRelease,
    /// Download the bundle from this address.
    Download(String),
    /// Download and unpack the archive of the repository from this address.
    FetchArchive(String),
    /// Clone the repository.
    Clone,
    Build(BuildPlan),
    /// Put the bundle that is at hand into the store; it came from here.
    Install(String),
    Record(Record),
}

/// How far adding a source has come.
#[derive(Debug, Clone, Copy, PartialEq, Eq, Structural)]
pub enum Stage {
    /// Git is asked to describe the commit.
    Describing,
    /// Git is asked for the short name of the commit.
    Naming,
    Checking,
    LookingForRelease,
    Downloading,
    Fetching,
    Building,
    Installing,
    Recording,
}

fn text_of(t: &Option<String>) -> (r: Option<&str>)
    ensures
        pieces::opt_str(r) == pieces::opt_text(*t),
{
    match t {
        Some(s) => Some(s.as_str()),
        None => None,
    }
}

// ---------------------------------------------------------------------------
// Repositories
// ---------------------------------------------------------------------------

/// A repository that is being added.
pub struct GitHubAdd {
    pub src: GitHubSource,
    pub request: AddRequest,
    /// The commit that the source stands for, under the name and the version that were
    /// asked for.
    pub resolved: ResolvedSource,
    /// The bundle came from a release.
    pub released: bool,
    /// Where the bundle comes from.
    pub label: String,
    pub stage: Stage,
}

/// A step fetches the source of a repository.
pub open spec fn fetches(a: Action, full: bool, r: ResolvedSource) -> bool {
    if full {
        a is Clone
    } else {
        a matches Action::FetchArchive(u) && u@ == github::archive_url(r)
    }
}

/// The directory that a repository is built from.
pub open spec fn repo_root(root: Seq<char>, subdir: Option<Seq<char>>) -> Seq<char> {
    match subdir {
        Some(s) => paths::joined(root, s),
        None => root,
    }
}

/// A plan builds a repository.
pub open spec fn builds_repo(
    p: BuildPlan,
    r: ResolvedSource,
    root: Seq<char>,
    o: SourceOptions,
) -> bool {
    &&& packing::builds_from(p, root, o)
    &&& p.name@ == r.package_name@
    &&& p.version@ == r.version@
    &&& p.source_repo@ == r.source_repo_url@
    &&& p.commit_hash@ == r.commit_sha@
    &&& pieces::opt_text(p.tag) == (if r.is_tag {
        Some(r.git_ref@)
    } else {
        None
    })
    &&& p.file_name@ == r.package_name@ + "-"@ + r.version@ + ".sembundle"@
}

/// What is recorded of a repository that was built here.
pub open spec fn built_repo(
    r: ResolvedSource,
    src: SourceView,
    full: bool,
    o: SourceOptions,
    description: Option<Seq<char>>,
) -> DependencyView {
    packing::built_dep(
        r.version@,
        Some(sources::git_source_text(r.host@, r.owner@, r.repo@)),
        src.git_ref,
        src.subdir,
        full,
        None,
        o,
        description,
    )
}

/// What is recorded of a repository whose bundle a release has: nothing of how to build it.
pub open spec fn released_repo(
    r: ResolvedSource,
    src: SourceView,
    description: Option<Seq<char>>,
) -> DependencyView {
    DependencyView {
        version: r.version@,
        registry: None,
        url: None,
        git: Some(sources::git_source_text(r.host@, r.owner@, r.repo@)),
        git_ref: src.git_ref,
        subdir: src.subdir,
        full: false,
        local: None,
        include_source: false,
        source_glob: None,
        source_dirs: seq![],
        docs_dirs: seq![],
        exclude_dirs: seq![],
        description,
    }
}

/// A step records a repository.
pub open spec fn records_repo(a: Action, r: ResolvedSource, d: DependencyView) -> bool {
    a matches Action::Record(x) && x.name@ == r.package_name@ && x.dep@ == d && x.source@
        == sources::git_source_text(r.host@, r.owner@, r.repo@) && pieces::opt_text(x.commit_sha)
        == Some(r.commit_sha@)
}

impl GitHubAdd {
    /// What is added stays the same from step to step.
    pub open spec fn goes_on(self, before: GitHubAdd) -> bool {
        self.src == before.src && self.request == before.request && self.resolved
            == before.resolved
    }

    /// Where the bundle comes from stays the same, too.
    pub open spec fn keeps_origin(self, before: GitHubAdd) -> bool {
        self.released == before.released && self.label == before.label
    }

    /// Begin to add a repository that was resolved.
    pub fn new(src: GitHubSource, request: AddRequest, resolved: ResolvedSource) -> (r: Self)
        ensures
            r.src == src,
            r.request == request,
            r.stage == Stage::Checking,
            !r.released,
            r.label@.len() == 0,
            r.resolved.package_name@ == (match request.name {
                Some(n) => n@,
                None => resolved.package_name@,
            }),
            r.resolved.version@ == (match request.version {
                Some(v) => v@,
                None => resolved.version@,
            }),
            r.resolved.host == resolved.host,
            r.resolved.owner == resolved.owner,
            r.resolved.repo == resolved.repo,
            r.resolved.git_ref == resolved.git_ref,
            r.resolved.commit_sha == resolved.commit_sha,
            r.resolved.is_tag == resolved.is_tag,
            r.resolved.source_repo_url == resolved.source_repo_url,
    {
        let resolved = with_overrides(resolved, text_of(&request.name), text_of(&request.version));
        let label = String::new();
        assert(label@ =~= seq![]);
        GitHubAdd {
            src,
            request,
            resolved,
            released: false,
            label,
            stage: Stage::Checking,
        }
    }

    fn fetch(&self) -> (a: Action)
        ensures
            fetches(a, self.request.full, self.resolved),
    {
        if self.request.full {
            Action::Clone
        } else {
            Action::FetchArchive(archive_tarball_url(&self.resolved))
        }
    }

    fn record(&self, full: bool, o: &SourceOptions) -> (a: Action)
        ensures
            records_repo(
                a,
                self.resolved,
                built_repo(
                    self.resolved,
                    self.src@,
                    full,
                    *o,
                    pieces::opt_text(self.request.description),
                ),
            ),
    {
        let r = &self.resolved;
        Action::Record(
            Record {
                name: r.package_name.clone(),
                dep: github_dependency(r, &self.src, full, o, &self.request.description),
                source: format_manifest_git_source(
                    r.host.as_str(),
                    r.owner.as_str(),
                    r.repo.as_str(),
                ),
                commit_sha: Some(r.commit_sha.clone()),
            },
        )
    }

    /// Go on now that it is known whether the bundle is installed. One that is there is only
    /// recorded, unless it is to be installed again; a release is looked at before anything
    /// is built, unless building is asked for.
    pub fn checked(&mut self, installed: bool) -> (a: Action)
        requires
            old(self).stage == Stage::Checking,
        ensures
            final(self).goes_on(*old(self)),
            final(self).keeps_origin(*old(self)),
            ({
                let q = old(self).request;
                if !q.reinstall && installed {
                    final(self).stage == Stage::Recording && records_repo(
                        a,
                        old(self).resolved,
                        built_repo(
                            old(self).resolved,
                            old(self).src@,
                            q.full,
                            q.options,
                            pieces::opt_text(q.description),
                        ),
                    )
                } else if q.force_build {
                    final(self).stage == Stage::Fetching && fetches(a, q.full, old(self).resolved)
                } else {
                    final(self).stage == Stage::LookingForRelease && a is FindRelease
                }
            }),
    {
        match github_route(self.request.reinstall, installed, self.request.force_build) {
            GitHubRoute::AlreadyInstalled => {
                self.stage = Stage::Recording;
                self.record(self.request.full, &self.request.options)
            },
            GitHubRoute::Build => {
                self.stage = Stage::Fetching;
                self.fetch()
            },
            GitHubRoute::TryRelease => {
                self.stage = Stage::LookingForRelease;
                Action::FindRelease
            },
        }
    }

    /// Go on now that the assets of the release are known: a bundle among them is
    /// downloaded, and without one the source is fetched.
    pub fn looked(&mut self, found: Option<ReleaseAsset>) -> (a: Action)
        requires
            old(self).stage == Stage::LookingForRelease,
        ensures
            final(self).goes_on(*old(self)),
            match found {
                Some(asset) => final(self).stage == Stage::Downloading && final(self).released
                    && final(self).label@ == asset.bundle_url@ && (a matches Action::Download(u)
                    && u@ == asset.bundle_url@),
                None => final(self).stage == Stage::Fetching && final(self).keeps_origin(
                    *old(self),
                ) && fetches(a, old(self).request.full, old(self).resolved),
            },
    {
        match found {
            Some(asset) => {
                self.stage = Stage::Downloading;
                self.released = true;
                self.label = asset.bundle_url.clone();
                Action::Download(asset.bundle_url)
            },
            None => {
                self.stage = Stage::Fetching;
                self.fetch()
            },
        }
    }

    /// Go on now that the bundle was downloaded: it is installed.
    pub fn downloaded(&mut self) -> (a: Action)
        requires
            old(self).stage == Stage::Downloading,
        ensures
            final(self).goes_on(*old(self)),
            final(self).keeps_origin(*old(self)),
            final(self).stage == Stage::Installing,
            a matches Action::Install(from) && from@ == old(self).label@,
    {
        self.stage = Stage::Installing;
        Action::Install(self.label.clone())
    }

    /// Go on now that the source was fetched to a directory: the bundle is built from it, or
    /// from its subdirectory where one was asked for, which has to be there.
    pub fn fetched(&mut self, root: &str, subdir_is_dir: bool) -> (r: Result<Action, String>)
        requires
            old(self).stage == Stage::Fetching,
        ensures
            final(self).goes_on(*old(self)),
            final(self).keeps_origin(*old(self)),
            match r {
                Ok(a) => (old(self).src@.subdir is None || subdir_is_dir) && final(self).stage
                    == Stage::Building && (a matches Action::Build(p) && builds_repo(
                    p,
                    old(self).resolved,
                    repo_root(root@, old(self).src@.subdir),
                    old(self).request.options,
                )),
                Err(e) => final(self).stage == Stage::Fetching && old(self).src@.subdir is Some
                    && !subdir_is_dir && e@ == "Subdir '"@
                    + old(self).src@.subdir->0 + "' not found in the repository archive."@,
            },
    {
        match source_root(root, &self.src.subdir, subdir_is_dir) {
            Ok(dir) => {
                self.stage = Stage::Building;
                Ok(
                    Action::Build(
                        github_build_plan(&self.resolved, dir.as_str(), &self.request.options),
                    ),
                )
            },
            Err(e) => Err(e),
        }
    }

    /// Go on now that the bundle was built: it is installed.
    pub fn built(&mut self) -> (a: Action)
        requires
            old(self).stage == Stage::Building,
        ensures
            final(self).goes_on(*old(self)),
            final(self).keeps_origin(*old(self)),
            final(self).stage == Stage::Installing,
            a matches Action::Install(from) && from@ == "github:"@ + old(self).resolved.host@ + "/"@
                + old(self).resolved.owner@ + "/"@ + old(self).resolved.repo@ + "@"@ + old(
                self,
            ).resolved.git_ref@,
    {
        self.stage = Stage::Installing;
        Action::Install(build_label(&self.resolved))
    }

    /// Go on now that the bundle was installed: it is recorded. Of a bundle that a release
    /// has, nothing is recorded of how to build it.
    pub fn installed(&mut self) -> (a: Action)
        requires
            old(self).stage == Stage::Installing,
        ensures
            final(self).goes_on(*old(self)),
            final(self).keeps_origin(*old(self)),
            final(self).stage == Stage::Recording,
            records_repo(
                a,
                old(self).resolved,
                if old(self).released {
                    released_repo(
                        old(self).resolved,
                        old(self).src@,
                        pieces::opt_text(old(self).request.description),
                    )
                } else {
                    built_repo(
                        old(self).resolved,
                        old(self).src@,
                        old(self).request.full,
                        old(self).request.options,
                        pieces::opt_text(old(self).request.description),
                    )
                },
            ),
    {
        self.stage = Stage::Recording;
        if self.released {
            let none = no_options();
            let a = self.record(false, &none);
            proof {
                assert(pieces::texts(none.source_dirs@) =~= seq![]);
                assert(pieces::texts(none.docs_dirs@) =~= seq![]);
                assert(pieces::texts(none.exclude_dirs@) =~= seq![]);
            }
            a
        } else {
            self.record(self.request.full, &self.request.options)
        }
    }
}

// ---------------------------------------------------------------------------
// Directories
// ---------------------------------------------------------------------------

/// A directory that is being added.
pub struct LocalAdd {
    pub request: AddRequest,
    /// The directory itself, without links on the way to it.
    pub root: String,
    /// The workspace that it is added to.
    pub workspace: String,
    pub name: String,
    pub version: String,
    pub commit: Option<String>,
    pub stage: Stage,
}

/// The name that a directory is added under.
pub open spec fn local_name(asked: Option<Seq<char>>, dir_name: Option<Seq<char>>) -> Seq<char> {
    match asked {
        Some(n) => n,
        None => match dir_name {
            Some(d) => d.map_values(|c: char| packing::package_char(c)),
            None => "local-package"@,
        },
    }
}

/// A step asks git for the version with these arguments.
pub open spec fn asks_git(a: Action, args: Seq<Seq<char>>) -> bool {
    a matches Action::AskGit(v) && pieces::texts(v@) == args
}

impl LocalAdd {
    /// What is added stays the same from step to step, but for its version.
    pub open spec fn same_directory(self, before: LocalAdd) -> bool {
        self.request == before.request && self.root == before.root && self.workspace
            == before.workspace && self.name == before.name && self.commit == before.commit
    }

    /// What is added stays the same from step to step.
    pub open spec fn goes_on(self, before: LocalAdd) -> bool {
        self.same_directory(before) && self.version == before.version
    }

    /// What an answer of git makes of the version, and how far adding then is.
    pub open spec fn follows(self, before: LocalAdd, success: bool, stdout: Seq<char>) -> bool {
        if before.stage == Stage::Describing {
            match packing::described_version(success, stdout) {
                Some(v) => self.version@ == v && self.stage == Stage::Checking,
                None => self.version == before.version && self.stage == Stage::Naming,
            }
        } else {
            self.stage == Stage::Checking && self.version@ == (match packing::short_name(
                success,
                stdout,
            ) {
                Some(v) => v,
                None => before.version@,
            })
        }
    }

    /// What is recorded of the directory.
    pub open spec fn is_recorded_by(self, a: Action) -> bool {
        let stored = packing::recorded_path(self.root@, self.workspace@);
        a matches Action::Record(x) && x.name@ == self.name@ && x.dep@ == packing::built_dep(
            self.version@,
            None,
            None,
            None,
            false,
            Some(stored),
            self.request.options,
            pieces::opt_text(self.request.description),
        ) && x.source@ == "local:"@ + stored && pieces::opt_text(x.commit_sha) == pieces::opt_text(
            self.commit,
        )
    }

    /// Begin to add a directory that is there. `dir_name` is what it is called, and `commit`
    /// the commit that its repository is at.
    pub fn new(
        request: AddRequest,
        root: &str,
        workspace: &str,
        dir_name: &Option<String>,
        commit: &Option<String>,
    ) -> (r: Self)
        ensures
            r.request == request,
            r.root@ == root@,
            r.workspace@ == workspace@,
            r.name@ == local_name(
                pieces::opt_text(request.name),
                pieces::opt_text(*dir_name),
            ),
            pieces::opt_text(r.commit) == pieces::opt_text(*commit),
            match request.version {
                Some(v) => r.stage == Stage::Checking && r.version@ == v@,
                None => r.stage == Stage::Describing && r.version@ == "local"@,
            },
    {
        let name = local_package_name(text_of(&request.name), text_of(dir_name));
        let (version, stage) = match &request.version {
            Some(v) => (v.clone(), Stage::Checking),
            None => ("local".to_owned(), Stage::Describing),
        };
        LocalAdd {
            request,
            root: root.to_owned(),
            workspace: workspace.to_owned(),
            name,
            version,
            commit: copy_opt(commit),
            stage,
        }
    }

    /// What is done first: where no version was asked for, git is asked to describe one.
    pub fn begin(&self) -> (a: Action)
        requires
            self.stage == Stage::Describing || self.stage == Stage::Checking,
        ensures
            if self.stage == Stage::Describing {
                asks_git(a, packing::describe_args(self.root@))
            } else {
                a is Check
            },
    {
        match self.stage {
            Stage::Describing => Action::AskGit(git_describe_args(self.root.as_str())),
            _ => Action::Check,
        }
    }

    /// Go on now that git answered. What it describes is the version; where it describes
    /// nothing it is asked for the short name of the commit, and where it has none either the
    /// version stays what it was.
    pub fn answered(&mut self, success: bool, stdout: &str) -> (a: Action)
        requires
            old(self).stage == Stage::Describing || old(self).stage == Stage::Naming,
        ensures
            final(self).same_directory(*old(self)),
            final(self).follows(*old(self), success, stdout@),
            match final(self).stage {
                Stage::Naming => asks_git(a, packing::short_head_args(old(self).root@)),
                _ => a is Check,
            },
    {
        match self.stage {
            Stage::Describing => match git_description(success, stdout) {
                Some(v) => {
                    self.version = v;
                    self.stage = Stage::Checking;
                    Action::Check
                },
                None => {
                    self.stage = Stage::Naming;
                    Action::AskGit(git_short_head_args(self.root.as_str()))
                },
            },
            _ => {
                match git_short_name(success, stdout) {
                    Some(v) => {
                        self.version = v;
                    },
                    None => {},
                }
                self.stage = Stage::Checking;
                Action::Check
            },
        }
    }

    fn record(&self) -> (a: Action)
        ensures
            self.is_recorded_by(a),
    {
        let stored = stored_path(self.root.as_str(), self.workspace.as_str());
        let mut source = "local:".to_owned();
        source.append(stored.as_str());
        Action::Record(
            Record {
                name: self.name.clone(),
                dep: local_dependency(
                    self.version.as_str(),
                    stored.as_str(),
                    &self.request.options,
                    &self.request.description,
                ),
                source,
                commit_sha: copy_opt(&self.commit),
            },
        )
    }

    /// Go on now that it is known whether the bundle is installed: one that is there is only
    /// recorded, unless it is to be installed again.
    pub fn checked(&mut self, installed: bool) -> (a: Action)
        requires
            old(self).stage == Stage::Checking,
        ensures
            final(self).goes_on(*old(self)),
            if !old(self).request.reinstall && installed {
                final(self).stage == Stage::Recording && old(self).is_recorded_by(a)
            } else {
                final(self).stage == Stage::Building && (a matches Action::Build(p) && {
                    &&& packing::builds_from(p, old(self).root@, old(self).request.options)
                    &&& p.name@ == old(self).name@
                    &&& p.version@ == old(self).version@
                    &&& p.source_repo@ == "local:"@ + old(self).root@
                    &&& p.commit_hash@ == (match old(self).commit {
                        Some(c) => c@,
                        None => seq![],
                    })
                    &&& p.tag is None
                    &&& p.file_name@ == old(self).name@ + "-"@ + old(self).version@ + ".sembundle"@
                })
            },
    {
        if !self.request.reinstall && installed {
            self.stage = Stage::Recording;
            self.record()
        } else {
            self.stage = Stage::Building;
            Action::Build(
                local_build_plan(
                    self.name.as_str(),
                    self.version.as_str(),
                    self.root.as_str(),
                    &self.commit,
                    &self.request.options,
                ),
            )
        }
    }

    /// Go on now that the bundle was built: it is installed.
    pub fn built(&mut self) -> (a: Action)
        requires
            old(self).stage == Stage::Building,
        ensures
            final(self).goes_on(*old(self)),
            final(self).stage == Stage::Installing,
            a matches Action::Install(from) && from@ == old(self).root@,
    {
        self.stage = Stage::Installing;
        Action::Install(self.root.clone())
    }

    /// Go on now that the bundle was installed: it is recorded.
    pub fn installed(&mut self) -> (a: Action)
        requires
            old(self).stage == Stage::Installing,
        ensures
            final(self).goes_on(*old(self)),
            final(self).stage == Stage::Recording,
            old(self).is_recorded_by(a),
    {
        self.stage = Stage::Recording;
        self.record()
    }
}

// ---------------------------------------------------------------------------
// Adding again what was recorded
// ---------------------------------------------------------------------------

/// The options that a dependency was recorded with.
pub fn recorded_options(dep: &DependencyEntry) -> (o: SourceOptions)
    ensures
        o.include_source == dep.include_source,
        pieces::opt_text(o.source_glob) == dep@.source_glob,
        pieces::texts(o.source_dirs@) == dep@.source_dirs,
        pieces::texts(o.docs_dirs@) == dep@.docs_dirs,
        pieces::texts(o.exclude_dirs@) == dep@.exclude_dirs,
{
    SourceOptions {
        include_source: dep.include_source,
        source_glob: copy_opt(&dep.source_glob),
        source_dirs: copy_texts(&dep.source_dirs),
        docs_dirs: copy_texts(&dep.docs_dirs),
        exclude_dirs: copy_texts(&dep.exclude_dirs),
    }
}

/// A request asks for a dependency as it was recorded.
pub open spec fn asks_for(q: AddRequest, name: Seq<char>, d: DependencyView) -> bool {
    &&& !q.force_build
    &&& q.full == d.full
    &&& pieces::opt_text(q.name) == Some(name)
    &&& q.options.include_source == d.include_source
    &&& pieces::opt_text(q.options.source_glob) == d.source_glob
    &&& pieces::texts(q.options.source_dirs@) == d.source_dirs
    &&& pieces::texts(q.options.docs_dirs@) == d.docs_dirs
    &&& pieces::texts(q.options.exclude_dirs@) == d.exclude_dirs
    &&& pieces::opt_text(q.description) == d.description
}

/// The request that adds a dependency again in a sync. The version of a repository follows
/// from its reference; that of a directory is the one that was recorded.
pub fn sync_request(name: &str, dep: &DependencyEntry, reinstall: bool) -> (q: AddRequest)
    ensures
        asks_for(q, name@, dep@),
        q.reinstall == reinstall,
        q.group is None,
        pieces::opt_text(q.version) == (if dep@.git is Some {
            None
        } else {
            Some(dep@.version)
        }),
{
    let version = match &dep.git {
        Some(_) => None,
        None => Some(dep.version.clone()),
    };
    AddRequest {
        group: None,
        force_build: false,
        reinstall,
        full: dep.full,
        name: Some(name.to_owned()),
        version,
        options: recorded_options(dep),
        description: copy_opt(&dep.description),
    }
}

/// The request that builds the bundle of a workspace anew.
pub fn refresh_request(local: &LocalDep, dep: &DependencyEntry) -> (q: AddRequest)
    ensures
        asks_for(q, local.name@, dep@),
        q.reinstall,
        pieces::opt_text(q.group) == pieces::opt_text(local.group),
        pieces::opt_text(q.version) == Some(dep@.version),
{
    AddRequest {
        group: copy_opt(&local.group),
        force_build: false,
        reinstall: true,
        full: dep.full,
        name: Some(local.name.clone()),
        version: Some(dep.version.clone()),
        options: recorded_options(dep),
        description: copy_opt(&dep.description),
    }
}

/// A repository that was built here and recorded is built the same way by a sync: from the
/// same repository, subdirectory and options, and at the reference that it was added with;
/// where it was added without one, at its version.
pub proof fn what_was_built_is_built_again(
    r: ResolvedSource,
    src: SourceView,
    full: bool,
    o: SourceOptions,
    description: Option<Seq<char>>,
    q: AddRequest,
)
    requires
        sources::slash_free(r.host@),
        sources::slash_free(r.owner@),
        sources::slash_free(r.repo@),
        asks_for(q, r.package_name@, built_repo(r, src, full, o, description)),
    ensures
        ({
            let d = built_repo(r, src, full, o, description);
            &&& sources::git_source(d.git->0) matches Some(repo) && deps::dep_repo(d, repo)
                == (SourceView {
                host: if sources::is_github_com(r.host@) {
                    "github.com"@
                } else {
                    r.host@
                },
                owner: r.owner@,
                repo: r.repo@,
                git_ref: match src.git_ref {
                    Some(x) => Some(x),
                    None => Some(r.version@),
                },
                subdir: src.subdir,
            })
            &&& q.full == full
            &&& q.options.include_source == o.include_source
            &&& pieces::opt_text(q.options.source_glob) == pieces::opt_text(o.source_glob)
            &&& pieces::texts(q.options.source_dirs@) == pieces::texts(o.source_dirs@)
            &&& pieces::texts(q.options.docs_dirs@) == pieces::texts(o.docs_dirs@)
            &&& pieces::texts(q.options.exclude_dirs@) == pieces::texts(o.exclude_dirs@)
            &&& pieces::opt_text(q.description) == description
        }),
{
    sources::written_git_sources_are_read_back(r.host@, r.owner@, r.repo@);
}

/// A directory for which no version was asked is added under the version that git describes,
/// else under the short name of its commit, else as `local`. It is `first` at the beginning,
/// `second` after the first answer, and `third` after the second, which is not asked for
/// where the first tells the version.
pub proof fn directories_are_versioned_by_git(
    first: LocalAdd,
    second: LocalAdd,
    third: LocalAdd,
    described: (bool, Seq<char>),
    named: (bool, Seq<char>),
)
    requires
        first.stage == Stage::Describing,
        first.version@ == "local"@,
        second.follows(first, described.0, described.1),
        if second.stage == Stage::Naming {
            third.follows(second, named.0, named.1)
        } else {
            third == second
        },
    ensures
        third.stage == Stage::Checking,
        third.version@ == (match packing::git_version(described, named) {
            Some(v) => v,
            None => "local"@,
        }),
{
}

/// A repository that is cloned is cloned only where all of it is asked for; otherwise its
/// archive is fetched, from the address of the reference.
pub proof fn only_full_repositories_are_cloned(a: Action, full: bool, r: ResolvedSource)
    requires
        fetches(a, full, r),
    ensures
        full ==> a is Clone,
        !full ==> a is FetchArchive && a->FetchArchive_0@ == github::archive_url(r),
{
}

/// What is built of a repository bears the name and the version of the repository, is told
/// its commit, and has its tag where the reference is one.
pub proof fn built_bundles_bear_their_name(
    p: BuildPlan,
    r: ResolvedSource,
    root: Seq<char>,
    o: SourceOptions,
)
    requires
        builds_repo(p, r, root, o),
    ensures
        p.name@ == r.package_name@,
        p.version@ == r.version@,
        p.commit_hash@ == r.commit_sha@,
        p.source_repo@ == r.source_repo_url@,
        r.is_tag ==> p.tag is Some && p.tag->0@ == r.git_ref@,
        !r.is_tag ==> p.tag is None,
        p.file_name@ == github::bundle_file(r.package_name@, r.version@),
        packing::builds_from(p, root, o),
{
}

/// What is recorded of a repository leads back to it: its name, its version, the reference and
/// the subdirectory that were asked for, and its commit. Of a bundle that a release had,
/// nothing is recorded of how to build it.
pub proof fn recorded_repositories_lead_back(
    a: Action,
    r: ResolvedSource,
    src: SourceView,
    full: bool,
    o: SourceOptions,
    description: Option<Seq<char>>,
)
    ensures
        records_repo(a, r, released_repo(r, src, description)) || records_repo(
            a,
            r,
            built_repo(r, src, full, o, description),
        ) ==> {
            &&& a is Record
            &&& a->Record_0.name@ == r.package_name@
            &&& a->Record_0.dep@.version == r.version@
            &&& a->Record_0.dep@.git == Some(sources::git_source_text(r.host@, r.owner@, r.repo@))
            &&& a->Record_0.dep@.git_ref == src.git_ref
            &&& a->Record_0.dep@.subdir == src.subdir
            &&& a->Record_0.dep@.description == description
            &&& a->Record_0.dep@.url is None && a->Record_0.dep@.local is None
            &&& a->Record_0.commit_sha is Some && a->Record_0.commit_sha->0@ == r.commit_sha@
        },
        records_repo(a, r, released_repo(r, src, description)) ==> {
            &&& !a->Record_0.dep@.include_source && !a->Record_0.dep@.full
            &&& a->Record_0.dep@.source_dirs.len() == 0 && a->Record_0.dep@.docs_dirs.len() == 0
        },
        records_repo(a, r, built_repo(r, src, full, o, description)) ==> {
            &&& a->Record_0.dep@.full == full
            &&& a->Record_0.dep@.include_source == o.include_source
        },
{
}

/// A repository is built from the subdirectory that was asked for, or as a whole.
pub proof fn the_subdirectory_is_built(root: Seq<char>, subdir: Seq<char>)
    ensures
        repo_root(root, Some(subdir)) == paths::joined(root, subdir),
        repo_root(root, None) == root,
{
}

/// A directory is called as was asked, else by its own name, in which only characters that no
/// name can have are replaced.
pub proof fn directories_are_called_by_their_name(asked: Seq<char>, dir: Seq<char>, i: int)
    requires
        0 <= i < dir.len(),
    ensures
        local_name(Some(asked), Some(dir)) == asked,
        local_name(None, Some(dir)).len() == dir.len(),
        'a' <= dir[i] <= 'z' || 'A' <= dir[i] <= 'Z' || '0' <= dir[i] <= '9' || dir[i] == '-'
            || dir[i] == '_' || dir[i] == '.' ==> local_name(None, Some(dir))[i] == dir[i],
        dir[i] == ' ' || dir[i] == '/' || dir[i] == '@' ==> local_name(None, Some(dir))[i] == '-',
{
}

/// What is added stays the same from step to step.
pub proof fn what_is_added_stays_the_same(a: GitHubAdd, b: GitHubAdd, c: LocalAdd, d: LocalAdd)
    ensures
        a.goes_on(b) ==> a.src == b.src && a.request == b.request && a.resolved == b.resolved,
        a.keeps_origin(b) ==> a.released == b.released && a.label == b.label,
        c.same_directory(d) ==> c.request == d.request && c.root == d.root && c.workspace
            == d.workspace && c.name == d.name && c.commit == d.commit,
        c.goes_on(d) ==> c.version == d.version && c.request == d.request && c.root == d.root
            && c.name == d.name,
{
}

/// What is recorded of a directory leads back to it: its name, its version, where it is from
/// the workspace, and its commit.
pub proof fn recorded_directories_lead_back(l: LocalAdd, a: Action)
    requires
        l.is_recorded_by(a),
    ensures
        a is Record,
        a->Record_0.name@ == l.name@,
        a->Record_0.dep@.version == l.version@,
        a->Record_0.dep@.local == Some(packing::recorded_path(l.root@, l.workspace@)),
        a->Record_0.dep@.git is None && a->Record_0.dep@.url is None,
        a->Record_0.dep@.include_source == l.request.options.include_source,
        l.commit is None ==> a->Record_0.commit_sha is None,
        l.commit matches Some(c) ==> a->Record_0.commit_sha is Some && a->Record_0.commit_sha->0@
            == c@,
{
}

} // verus!
