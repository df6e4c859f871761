//! How sources are written: `name@version`, GitHub sources in a manifest, and local
//! directories.

use vstd::prelude::*;

use crate::github;
use crate::github::{cut, parse_source, GitHubSource, SourceView};
use crate::paths;
use crate::paths::join_path;
use crate::pieces;
use crate::pieces::{split_class, width_of};
use crate::reranker::home_dir;
use crate::text;
use crate::text::{
    chars_of, contains_text, same_text, starts_with_text, string_of, strip_front, trim_class,
    CharClass,
};

verus! {

// ---------------------------------------------------------------------------
// Names with versions
// ---------------------------------------------------------------------------

/// Read `name@version`. The name ends at the first `@`.
pub fn parse_spec(spec: &str) -> (r: Result<(String, String), String>)
    ensures
        match r {
            Ok((n, v)) => github::after(spec@, '@') is Some && n@ == github::before(spec@, '@')
                && v@ == github::after(spec@, '@')->0,
            Err(e) => github::after(spec@, '@') is None && e@ == "Invalid spec '"@ + spec@
                + "'. Expected format: name@version"@,
        },
{
    let cs = chars_of(spec);
    let (head, tail) = cut(cs.as_slice(), '@');
    match tail {
        Some(t) => Ok((string_of(head), string_of(t))),
        None => {
            let mut e = "Invalid spec '".to_owned();
            e.append(spec);
            e.append("'. Expected format: name@version");
            Err(e)
        },
    }
}

// ---------------------------------------------------------------------------
// GitHub sources
// ---------------------------------------------------------------------------

/// A repository on a host.
pub ghost struct RepoView {
    pub host: Seq<char>,
    pub owner: Seq<char>,
    pub repo: Seq<char>,
}

/// The repository that a manifest names: `github:owner/repo` on github.com, or
/// `github:host/owner/repo`.
pub open spec fn git_source(git: Seq<char>) -> Option<RepoView> {
    if text::starts_with(git, "github:"@) {
        let parts = pieces::split(git.skip("github:"@.len() as int), CharClass::Is('/'));
        if parts.len() == 2 {
            Some(RepoView { host: "github.com"@, owner: parts[0], repo: parts[1] })
        } else if parts.len() == 3 {
            Some(RepoView { host: parts[0], owner: parts[1], repo: parts[2] })
        } else {
            None
        }
    } else {
        None
    }
}

/// Read the repository that a manifest names.
pub fn parse_manifest_git_source(git: &str) -> (r: Option<(String, String, String)>)
    ensures
        match r {
            Some((h, o, p)) => git_source(git@) == Some(
                RepoView { host: h@, owner: o@, repo: p@ },
            ),
            None => git_source(git@) is None,
        },
{
    let cs = chars_of(git);
    let pat = chars_of("github:");
    match strip_front(cs.as_slice(), pat.as_slice()) {
        None => None,
        Some(rest) => {
            let parts = split_class(rest, CharClass::Is('/'));
            assert(rest@ =~= git@.skip("github:"@.len() as int));
            assert(pieces::rows(parts@).len() == parts@.len());
            if parts.len() == 2 {
                Some(
                    (
                        "github.com".to_owned(),
                        string_of(parts[0].as_slice()),
                        string_of(parts[1].as_slice()),
                    ),
                )
            } else if parts.len() == 3 {
                Some(
                    (
                        string_of(parts[0].as_slice()),
                        string_of(parts[1].as_slice()),
                        string_of(parts[2].as_slice()),
                    ),
                )
            } else {
                None
            }
        },
    }
}

/// A host is github.com, in whatever case it is written.
pub open spec fn is_github_com(host: Seq<char>) -> bool {
    pieces::ascii_lowered(host) == "github.com"@
}

/// How a manifest names a repository.
pub open spec fn git_source_text(host: Seq<char>, owner: Seq<char>, repo: Seq<char>) -> Seq<char> {
    if is_github_com(host) {
        "github:"@ + owner + "/"@ + repo
    } else {
        "github:"@ + host + "/"@ + owner + "/"@ + repo
    }
}

/// Write the repository that a manifest names.
pub fn format_manifest_git_source(host: &str, owner: &str, repo: &str) -> (r: String)
    ensures
        r@ == git_source_text(host@, owner@, repo@),
{
    let hs = chars_of(host);
    let low = pieces::lower_ascii(hs.as_slice());
    let mut r = "github:".to_owned();
    if !same_text(low.as_str(), "github.com") {
        r.append(host);
        r.append("/");
    }
    r.append(owner);
    r.append("/");
    r.append(repo);
    r
}

/// A text without slashes.
pub open spec fn slash_free(s: Seq<char>) -> bool {
    forall|i: int| 0 <= i < s.len() ==> #[trigger] s[i] != '/'
}

proof fn lemma_split_one(s: Seq<char>)
    requires
        slash_free(s),
    ensures
        pieces::split(s, CharClass::Is('/')) =~= seq![s],
{
    let k = CharClass::Is('/');
    assert forall|j: int| 0 <= j < s.len() implies !text::in_class(k, #[trigger] s[j]) by {}
    text::lemma_find(s, k, s.len() as int);
}

proof fn lemma_split_join(a: Seq<char>, rest: Seq<char>)
    requires
        slash_free(a),
    ensures
        pieces::split(a + "/"@ + rest, CharClass::Is('/')) == seq![a] + pieces::split(
            rest,
            CharClass::Is('/'),
        ),
{
    reveal_strlit("/");
    assert("/"@.len() == 1);
    assert("/"@[0] == '/');
    let k = CharClass::Is('/');
    let s = a + "/"@ + rest;
    assert forall|j: int| 0 <= j < a.len() implies !text::in_class(k, #[trigger] s[j]) by {
        assert(s[j] == a[j]);
    }
    assert(text::in_class(k, s[a.len() as int]));
    text::lemma_find(s, k, a.len() as int);
    assert(s.take(a.len() as int) =~= a);
    assert(s.skip((a.len() + 1) as int) =~= rest);
}

/// What is written of a repository is read back: github.com however it was written, and
/// any other host as it was.
pub proof fn written_git_sources_are_read_back(
    host: Seq<char>,
    owner: Seq<char>,
    repo: Seq<char>,
)
    requires
        slash_free(host),
        slash_free(owner),
        slash_free(repo),
    ensures
        git_source(git_source_text(host, owner, repo)) == Some(
            RepoView {
                host: if is_github_com(host) {
                    "github.com"@
                } else {
                    host
                },
                owner,
                repo,
            },
        ),
{
    let g = "github:"@;
    let t = git_source_text(host, owner, repo);
    let rest = t.skip(g.len() as int);
    assert(t.subrange(0, g.len() as int) =~= g);
    lemma_split_one(repo);
    lemma_split_join(owner, repo);
    if is_github_com(host) {
        assert(rest =~= owner + "/"@ + repo);
    } else {
        assert(rest =~= host + "/"@ + (owner + "/"@ + repo));
        lemma_split_join(host, owner + "/"@ + repo);
    }
}

// ---------------------------------------------------------------------------
// Local directories
// ---------------------------------------------------------------------------

/// A path that begins with a drive.
pub open spec fn has_drive(s: Seq<char>) -> bool {
    s.len() >= 3 && pieces::char_width(s[0]) == 1 && s[1] == ':' && (s[2] == '\\' || s[2] == '/')
}

/// A source that looks like a local directory: an absolute path, or one that begins at the
/// current, the parent or the home directory.
pub open spec fn looks_local(s: Seq<char>) -> bool {
    !text::has_text(s, "://"@) && !text::has_text(s, "github:"@) && (text::starts_with(s, "/"@)
        || s == "."@ || s == ".."@ || text::starts_with(s, "./"@) || text::starts_with(s, "../"@)
        || text::starts_with(s, ".\\"@) || text::starts_with(s, "..\\"@) || text::starts_with(
        s,
        "~/"@,
    ) || text::starts_with(s, "~\\"@) || has_drive(s))
}

/// The local directory that a source means. One below the home directory needs a home.
pub open spec fn local_source(spec: Seq<char>, home: Option<Seq<char>>) -> Option<Seq<char>> {
    let s = text::trim(spec, CharClass::Space);
    if !looks_local(s) {
        None
    } else if text::starts_with(s, "~/"@) || text::starts_with(s, "~\\"@) {
        match home {
            Some(h) => Some(paths::joined(h, s.skip(2))),
            None => None,
        }
    } else {
        Some(s)
    }
}

fn is_drive(cs: &[char]) -> (r: bool)
    ensures
        r == has_drive(cs@),
{
    cs.len() >= 3 && width_of(cs[0]) == 1 && cs[1] == ':' && (cs[2] == '\\' || cs[2] == '/')
}

fn is_local(s: &str) -> (r: bool)
    ensures
        r == looks_local(s@),
{
    if contains_text(s, "://") || contains_text(s, "github:") {
        return false;
    }
    let cs = chars_of(s);
    starts_with_text(s, "/") || same_text(s, ".") || same_text(s, "..") || starts_with_text(s, "./")
        || starts_with_text(s, "../") || starts_with_text(s, ".\\") || starts_with_text(s, "..\\")
        || starts_with_text(s, "~/") || starts_with_text(s, "~\\") || is_drive(cs.as_slice())
}

/// Read a local directory, with a home directory for `~`.
pub fn parse_local_source_in(spec: &str, home: &Option<String>) -> (r: Option<String>)
    ensures
        pieces::opt_text(r) == local_source(spec@, pieces::opt_text(*home)),
{
    let all = chars_of(spec);
    let cs = trim_class(all.as_slice(), CharClass::Space);
    let s = string_of(cs);
    if !is_local(s.as_str()) {
        return None;
    }
    if starts_with_text(s.as_str(), "~/") || starts_with_text(s.as_str(), "~\\") {
        proof {
            reveal_strlit("~/");
            reveal_strlit("~\\");
            assert("~/"@.len() == 2);
            assert("~\\"@.len() == 2);
        }
        match home {
            Some(h) => {
                let rest = string_of(vstd::slice::slice_subrange(cs, 2, cs.len()));
                assert(rest@ =~= s@.skip(2));
                Some(join_path(h.as_str(), rest.as_str()))
            },
            None => None,
        }
    } else {
        Some(s)
    }
}

/// Read a local directory.
pub fn parse_local_source(spec: &str) -> (r: Option<String>)
    ensures
        exists|home: Option<Seq<char>>|
            pieces::opt_text(r) == #[trigger] local_source(spec@, home),
{
    let home = home_dir();
    let r = parse_local_source_in(spec, &home);
    assert(pieces::opt_text(r) == local_source(spec@, pieces::opt_text(home)));
    r
}

// ---------------------------------------------------------------------------
// What is added
// ---------------------------------------------------------------------------

/// Where a dependency that is added comes from.
#[derive(Debug, Clone)]
pub enum AddRoute {
    /// A directory on this machine.
    Local(String),
    /// A repository.
    GitHub(GitHubSource),
    /// A registry, or the address of a bundle; the name and the version.
    Bundle(String, String),
    /// It cannot be told; what is said of it.
    Unclear(String),
}

pub ghost enum RouteView {
    Local(Seq<char>),
    GitHub(SourceView),
    Bundle(Seq<char>, Seq<char>),
    Unclear(Seq<char>),
}

impl View for AddRoute {
    type V = RouteView;

    open spec fn view(&self) -> RouteView {
        match *self {
            AddRoute::Local(p) => RouteView::Local(p@),
            AddRoute::GitHub(s) => RouteView::GitHub(s@),
            AddRoute::Bundle(n, v) => RouteView::Bundle(n@, v@),
            AddRoute::Unclear(e) => RouteView::Unclear(e@),
        }
    }
}

/// What may be a directory or a repository: what is named, else the address where that is
/// one of a repository.
pub open spec fn source_input(spec: Option<Seq<char>>, url: Option<Seq<char>>) -> Option<
    Seq<char>,
> {
    match spec {
        Some(s) => Some(s),
        None => match url {
            Some(u) => if github::github_source(u) is Some {
                Some(u)
            } else {
                None
            },
            None => None,
        },
    }
}

/// Where a dependency that is added comes from. A directory comes before a repository, and
/// both before a registry.
pub open spec fn route(
    spec: Option<Seq<char>>,
    url: Option<Seq<char>>,
    home: Option<Seq<char>>,
) -> RouteView {
    let input = source_input(spec, url);
    if input is Some && local_source(input->0, home) is Some {
        RouteView::Local(local_source(input->0, home)->0)
    } else if input is Some && github::github_source(input->0) is Some {
        RouteView::GitHub(github::github_source(input->0)->0)
    } else {
        match spec {
            None => RouteView::Unclear(
                "Direct bundle URLs still require <SPEC> in name@version format. Use `sempkg add <name>@<version> --url <bundle-asset-url>` for assets, or pass a GitHub source URL to `--url` to build from source."@,
            ),
            Some(s) => match github::after(s, '@') {
                Some(v) => RouteView::Bundle(github::before(s, '@'), v),
                None => RouteView::Unclear(
                    "Invalid spec '"@ + s + "'. Expected format: name@version"@,
                ),
            },
        }
    }
}

/// Tell where a dependency that is added comes from.
pub fn add_route(spec: Option<&str>, url: Option<&str>, home: &Option<String>) -> (r: AddRoute)
    ensures
        r@ == route(pieces::opt_str(spec), pieces::opt_str(url), pieces::opt_text(*home)),
{
    let input = match spec {
        Some(s) => Some(s),
        None => match url {
            Some(u) => {
                if parse_source(u).is_some() {
                    Some(u)
                } else {
                    None
                }
            },
            None => None,
        },
    };
    assert(pieces::opt_str(input) == source_input(pieces::opt_str(spec), pieces::opt_str(url)));
    match input {
        Some(i) => {
            match parse_local_source_in(i, home) {
                Some(p) => {
                    return AddRoute::Local(p);
                },
                None => {},
            }
            match parse_source(i) {
                Some(g) => {
                    return AddRoute::GitHub(g);
                },
                None => {},
            }
        },
        None => {},
    }
    match spec {
        None => AddRoute::Unclear(
            "Direct bundle URLs still require <SPEC> in name@version format. Use `sempkg add <name>@<version> --url <bundle-asset-url>` for assets, or pass a GitHub source URL to `--url` to build from source.".to_owned(),
        ),
        Some(s) => match parse_spec(s) {
            Ok((n, v)) => AddRoute::Bundle(n, v),
            Err(e) => AddRoute::Unclear(e),
        },
    }
}

// ---------------------------------------------------------------------------
// How sources are told apart
// ---------------------------------------------------------------------------

/// A bundle is named by its name and its version: what is told of it puts the text together
/// again, and a text of that form is never unclear.
pub proof fn bundles_are_named_with_their_version(
    spec: Option<Seq<char>>,
    url: Option<Seq<char>>,
    home: Option<Seq<char>>,
)
    ensures
        match route(spec, url, home) {
            RouteView::Bundle(n, v) => spec == Some(n + seq!['@'] + v) && forall|i: int|
                0 <= i < n.len() ==> #[trigger] n[i] != '@',
            RouteView::Unclear(_) => spec is Some ==> forall|i: int|
                0 <= i < spec->0.len() ==> #[trigger] spec->0[i] != '@',
            _ => true,
        },
{
    if spec is Some {
        github::cut_texts_are_whole(spec->0, '@');
    }
}

/// A name with a version is a bundle of that name and that version, unless it is a directory
/// or a repository.
pub proof fn a_name_with_a_version_is_a_bundle(
    name: Seq<char>,
    version: Seq<char>,
    url: Option<Seq<char>>,
    home: Option<Seq<char>>,
)
    requires
        forall|i: int| 0 <= i < name.len() ==> #[trigger] name[i] != '@',
        local_source(name + seq!['@'] + version, home) is None,
        github::github_source(name + seq!['@'] + version) is None,
    ensures
        route(Some(name + seq!['@'] + version), url, home) == RouteView::Bundle(name, version),
{
    github::joined_texts_are_cut(name, '@', version);
}

/// A path is a directory, wherever it begins: at the root, at the current or the parent
/// directory, or at home. It is never taken for a repository or a bundle.
pub proof fn a_path_is_a_directory(rest: Seq<char>, url: Option<Seq<char>>, home: Seq<char>)
    requires
        rest.len() > 0,
        forall|i: int| 0 <= i < rest.len() ==> #[trigger] rest[i] != ':',
        !text::in_class(CharClass::Space, rest.last()),
    ensures
        route(Some("/"@ + rest), url, Some(home)) == RouteView::Local("/"@ + rest),
        route(Some("./"@ + rest), url, Some(home)) == RouteView::Local("./"@ + rest),
        route(Some("../"@ + rest), url, Some(home)) == RouteView::Local("../"@ + rest),
        route(Some("~/"@ + rest), url, Some(home)) == RouteView::Local(
            paths::joined(home, rest),
        ),
{
    reveal_strlit("/");
    reveal_strlit("./");
    reveal_strlit("../");
    reveal_strlit("~/");
    reveal_strlit(".");
    reveal_strlit("..");
    lemma_local("/"@, rest);
    lemma_local("./"@, rest);
    lemma_local("../"@, rest);
    lemma_local("~/"@, rest);
    lemma_front("/"@, rest);
    lemma_front("./"@, rest);
    lemma_front("../"@, rest);
    lemma_front("~/"@, rest);
    assert(("~/"@ + rest).skip(2) =~= rest);
    reveal_strlit("~\\");
    assert forall|p: Seq<char>| p == "/"@ + rest || p == "./"@ + rest || p == "../"@ + rest implies
        !text::starts_with(p, "~/"@) && !text::starts_with(p, "~\\"@) by {
        assert(p[0] != '~');
        lemma_not_front(p, "~/"@);
        lemma_not_front(p, "~\\"@);
    }
}

proof fn lemma_front(a: Seq<char>, b: Seq<char>)
    ensures
        text::starts_with(a + b, a),
{
    assert((a + b).subrange(0, a.len() as int) =~= a);
}

proof fn lemma_not_front(s: Seq<char>, pat: Seq<char>)
    requires
        pat.len() > 0,
        s.len() > 0,
        s[0] != pat[0],
    ensures
        !text::starts_with(s, pat),
{
    if text::starts_with(s, pat) {
        assert(s.subrange(0, pat.len() as int)[0] == s[0]);
    }
}

/// Texts without a colon hold neither an address nor a repository, and nothing falls off
/// them where no white space stands at their ends.
proof fn lemma_local(front: Seq<char>, rest: Seq<char>)
    requires
        front.len() > 0,
        rest.len() > 0,
        forall|i: int| 0 <= i < front.len() ==> #[trigger] front[i] != ':',
        forall|i: int| 0 <= i < rest.len() ==> #[trigger] rest[i] != ':',
        front[0] == '/' || front[0] == '.' || front[0] == '~',
        !text::in_class(CharClass::Space, rest.last()),
    ensures
        text::trim(front + rest, CharClass::Space) == front + rest,
        !text::has_text(front + rest, "://"@),
        !text::has_text(front + rest, "github:"@),
{
    let s = front + rest;
    reveal_strlit("://");
    reveal_strlit("github:");
    assert(s[0] == front[0]);
    text::lemma_trim_start(s, CharClass::Space, 0);
    assert(s.skip(0) =~= s);
    assert(s.last() == rest.last());
    text::lemma_trim_end(s, CharClass::Space, s.len() as int);
    assert(s.take(s.len() as int) =~= s);
    assert forall|i: int| 0 <= i < s.len() implies #[trigger] s[i] != ':' by {
        if i < front.len() {
            assert(s[i] == front[i]);
        } else {
            assert(s[i] == rest[i - front.len()]);
        }
    }
    lemma_lacks(s, "://"@, 0);
    lemma_lacks(s, "github:"@, 6);
}

/// A text without a character does not hold a text that has it.
proof fn lemma_lacks(s: Seq<char>, pat: Seq<char>, at: int)
    requires
        0 <= at < pat.len(),
        pat[at] == ':',
        forall|i: int| 0 <= i < s.len() ==> #[trigger] s[i] != ':',
    ensures
        !text::has_text(s, pat),
{
    if text::has_text(s, pat) {
        let i = choose|i: int| text::occurs_at(s, pat, i);
        assert(s.subrange(i, i + pat.len())[at] == s[i + at]);
    }
}

/// What a manifest names is read by its parts: behind `github:` an owner and a repository on
/// github.com, or a host before them; and nothing else is a repository.
pub proof fn named_repositories_have_two_or_three_parts(git: Seq<char>)
    ensures
        match git_source(git) {
            Some(r) => exists|rest: Seq<char>|
                git == #[trigger] ("github:"@ + rest) && {
                    let parts = pieces::split(rest, CharClass::Is('/'));
                    ||| parts == seq![r.owner, r.repo] && r.host == "github.com"@
                    ||| parts == seq![r.host, r.owner, r.repo]
                },
            None => true,
        },
{
    let n = "github:"@.len() as int;
    if text::starts_with(git, "github:"@) {
        let rest = git.skip(n);
        assert(git =~= "github:"@ + rest);
        let parts = pieces::split(rest, CharClass::Is('/'));
        if parts.len() == 2 {
            assert(parts =~= seq![parts[0], parts[1]]);
        }
        if parts.len() == 3 {
            assert(parts =~= seq![parts[0], parts[1], parts[2]]);
        }
    }
}

/// A source that spells a repository is added from that repository, though it may look like a
/// name with a version.
pub proof fn a_repository_is_no_bundle(
    spec: Seq<char>,
    url: Option<Seq<char>>,
    home: Option<Seq<char>>,
    owner: Seq<char>,
    repo: Seq<char>,
    git_ref: Option<Seq<char>>,
)
    requires
        github::plain_name(owner),
        !owner.contains('.'),
        github::plain_name(repo),
        !text::ends_with(repo, ".git"@),
        git_ref matches Some(r) ==> !r.contains('#'),
        text::trim(spec, CharClass::Space) == github::shorthand_text(
            owner,
            repo,
            false,
            git_ref,
            None,
        ),
        !text::has_text(text::trim(spec, CharClass::Space), "://"@),
    ensures
        route(Some(spec), url, home) == RouteView::GitHub(
            SourceView { host: "github.com"@, owner, repo, git_ref, subdir: None },
        ),
{
    github::spelled_sources_are_sources(spec, owner, repo, false, git_ref, None);
    let s = text::trim(spec, CharClass::Space);
    assert(s[0] == owner[0]);
    assert(owner.contains(owner[0]));
    reveal_strlit("/");
    reveal_strlit(".");
    reveal_strlit("..");
    reveal_strlit("./");
    reveal_strlit("../");
    reveal_strlit(".\\");
    reveal_strlit("..\\");
    reveal_strlit("~/");
    reveal_strlit("~\\");
    if text::starts_with(s, "/"@) {
        assert(s.subrange(0, 1)[0] == '/');
    }
    if text::starts_with(s, "./"@) {
        assert(s.subrange(0, 2)[0] == '.');
    }
    if text::starts_with(s, "../"@) {
        assert(s.subrange(0, 3)[0] == '.');
    }
    if text::starts_with(s, ".\\"@) {
        assert(s.subrange(0, 2)[0] == '.');
    }
    if text::starts_with(s, "..\\"@) {
        assert(s.subrange(0, 3)[0] == '.');
    }
    if text::starts_with(s, "~/"@) {
        assert(s.subrange(0, 2)[0] == '~');
    }
    if text::starts_with(s, "~\\"@) {
        assert(s.subrange(0, 2)[0] == '~');
    }
    if s == "."@ {
        assert("."@[0] == '.');
    }
    if s == ".."@ {
        assert(".."@[0] == '.');
    }
    if owner.len() > 1 {
        assert(s[1] == owner[1]);
    } else {
        assert(s[1] == '/');
    }
}

/// A repository on github.com is named without its host, however the host is written, and any
/// other with it.
pub proof fn only_other_hosts_are_named(host: Seq<char>, owner: Seq<char>, repo: Seq<char>)
    ensures
        pieces::ascii_lowered(host) == "github.com"@ ==> git_source_text(host, owner, repo)
            == "github:"@ + owner + "/"@ + repo,
        pieces::ascii_lowered(host) != "github.com"@ ==> git_source_text(host, owner, repo)
            == "github:"@ + host + "/"@ + owner + "/"@ + repo,
{
}

/// A path that begins with a drive is a directory.
pub proof fn a_drive_is_a_directory(drive: char, rest: Seq<char>, back: bool, home: Option<Seq<char>>)
    requires
        (drive as u32) < 0x80,
        drive != '~' && drive != '.' && drive != '/' && !text::char_is_space(drive),
        rest.len() > 0 && !text::char_is_space(rest.last()),
        ({
            let s = seq![drive, ':', if back {
                '\\'
            } else {
                '/'
            }] + rest;
            !text::has_text(s, "://"@) && !text::has_text(s, "github:"@)
        }),
    ensures
        ({
            let s = seq![drive, ':', if back {
                '\\'
            } else {
                '/'
            }] + rest;
            local_source(s, home) == Some(s)
        }),
{
    let s = seq![drive, ':', if back {
        '\\'
    } else {
        '/'
    }] + rest;
    let k = CharClass::Space;
    assert(s[0] == drive);
    assert(s.last() == rest.last());
    text::lemma_trim_start(s, k, 0);
    assert(s.skip(0) =~= s);
    text::lemma_trim_end(s, k, s.len() as int);
    assert(s.take(s.len() as int) =~= s);
    assert(s[1] == ':');
    assert(has_drive(s));
    reveal_strlit("~/");
    reveal_strlit("~\\");
    if text::starts_with(s, "~/"@) {
        assert(s.subrange(0, 2)[0] == '~');
    }
    if text::starts_with(s, "~\\"@) {
        assert(s.subrange(0, 2)[0] == '~');
    }
}

} // verus!
