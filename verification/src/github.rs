//! GitHub sources: how a reference is written, where it leads, and what to make of
//! what GitHub answers.

use vstd::prelude::*;
use vstd::slice::slice_subrange;

use crate::pieces;

use crate::pieces::{lower_ascii, take_bytes, write_decimal};
use crate::text;
use crate::text::{
    chars_of, contains_text, drop_suffix, ends_with_text, find_class, is_all_hex, same_text,
    starts_with_text, string_of, strip_front, to_ascii_lower, to_ascii_upper, trim_class,
    trim_start_class, trim_text, CharClass,
};

verus! {

// ---------------------------------------------------------------------------
// Sources
// ---------------------------------------------------------------------------

/// A GitHub source reference that is not yet resolved to a commit.
#[derive(Debug, Clone)]
pub struct GitHubSource {
    /// GitHub host (`github.com`, `github.company.com`).
    pub host: String,
    pub owner: String,
    pub repo: String,
    /// Tag, branch or SHA as supplied. `None` means the default branch.
    pub git_ref: Option<String>,
    /// Repo-relative subdirectory, for a part of a monorepo.
    pub subdir: Option<String>,
}

/// What a source reference says.
pub ghost struct SourceView {
    pub host: Seq<char>,
    pub owner: Seq<char>,
    pub repo: Seq<char>,
    pub git_ref: Option<Seq<char>>,
    pub subdir: Option<Seq<char>>,
}

impl View for GitHubSource {
    type V = SourceView;

    open spec fn view(&self) -> SourceView {
        SourceView {
            host: self.host@,
            owner: self.owner@,
            repo: self.repo@,
            git_ref: pieces::opt_text(self.git_ref),
            subdir: pieces::opt_text(self.subdir),
        }
    }
}

/// What an optional source reference says.
pub open spec fn source_view(s: Option<GitHubSource>) -> Option<SourceView> {
    match s {
        Some(g) => Some(g@),
        None => None,
    }
}

/// What stands before the first `c`, or all of `s` where there is none.
pub open spec fn before(s: Seq<char>, c: char) -> Seq<char> {
    s.take(text::find(s, CharClass::Is(c)))
}

/// What stands behind the first `c`, if there is one.
pub open spec fn after(s: Seq<char>, c: char) -> Option<Seq<char>> {
    let i = text::find(s, CharClass::Is(c));
    if i < s.len() {
        Some(s.skip(i + 1))
    } else {
        None
    }
}

/// Cut `s` at the first `c`.
pub fn cut<'a>(s: &'a [char], c: char) -> (r: (&'a [char], Option<&'a [char]>))
    ensures
        r.0@ == before(s@, c),
        match r.1 {
            Some(t) => after(s@, c) == Some(t@),
            None => after(s@, c) is None,
        },
{
    let i: usize = find_class(s, CharClass::Is(c));
    if i < s.len() {
        assert(s@.subrange(0, i as int) =~= s@.take(i as int));
        assert(s@.subrange(i + 1, s@.len() as int) =~= s@.skip(i + 1));
        (slice_subrange(s, 0, i), Some(slice_subrange(s, i + 1, s.len())))
    } else {
        assert(s@.take(i as int) =~= s@);
        (s, None)
    }
}

/// The text of an optional piece.
pub fn owned(s: Option<&[char]>) -> (r: Option<String>)
    ensures
        match s {
            Some(t) => r is Some && r->0@ == t@,
            None => r is None,
        },
{
    match s {
        Some(t) => Some(string_of(t)),
        None => None,
    }
}

/// A character that an owner or a repository may have in its name.
pub open spec fn ident_char(c: char) -> bool {
    text::char_is_alnum(c) || c == '-' || c == '_' || c == '.'
}

/// A name that an owner or a repository may have. The names of the current and
/// the parent directory are none, so that a name can never walk a path.
pub open spec fn valid_ident(s: Seq<char>) -> bool {
    s.len() > 0 && s != "."@ && s != ".."@ && forall|i: int|
        0 <= i < s.len() ==> ident_char(#[trigger] s[i])
}

pub fn validate_ident(s: &[char]) -> (r: Option<String>)
    ensures
        match r {
            Some(t) => valid_ident(s@) && t@ == s@,
            None => !valid_ident(s@),
        },
{
    let name = string_of(s);
    if s.len() == 0 || same_text(name.as_str(), ".") || same_text(name.as_str(), "..") {
        return None;
    }
    let mut i: usize = 0;
    while i < s.len()
        invariant
            i <= s@.len(),
            forall|j: int| 0 <= j < i ==> ident_char(#[trigger] s@[j]),
        decreases s.len() - i,
    {
        let c = s[i];
        if !(c.is_alphanumeric() || c == '-' || c == '_' || c == '.') {
            assert(!ident_char(s@[i as int]));
            return None;
        }
        i = i + 1;
    }
    Some(name)
}

/// A host that serves GitHub: `github.com` itself or an enterprise instance.
pub open spec fn github_host(h: Seq<char>) -> bool {
    h == "github.com"@ || text::starts_with(h, "github."@) || text::has_text(h, ".github."@)
}

pub fn is_github_host(host: &str) -> (r: bool)
    ensures
        r == github_host(host@),
{
    same_text(host, "github.com") || starts_with_text(host, "github.") || contains_text(
        host,
        ".github.",
    )
}

/// A text that begins with an owner's name and a slash, and is no URL.
pub open spec fn owner_repo_like(s: Seq<char>) -> bool {
    let owner = before(s, '/');
    !text::has_text(s, "://"@) && after(s, '/') is Some && owner.len() > 0 && forall|i: int|
        0 <= i < owner.len() ==> text::char_is_alnum(#[trigger] owner[i]) || owner[i] == '-'
            || owner[i] == '_'
}

pub fn looks_like_owner_repo(s: &str) -> (r: bool)
    ensures
        r == owner_repo_like(s@),
{
    if contains_text(s, "://") {
        return false;
    }
    let cs = chars_of(s);
    let (owner, rest) = cut(cs.as_slice(), '/');
    if rest.is_none() || owner.len() == 0 {
        return false;
    }
    let mut i: usize = 0;
    while i < owner.len()
        invariant
            i <= owner@.len(),
            owner@ == before(s@, '/'),
            forall|j: int|
                0 <= j < i ==> text::char_is_alnum(#[trigger] owner@[j]) || owner@[j] == '-'
                    || owner@[j] == '_',
        decreases owner.len() - i,
    {
        let c = owner[i];
        if !(c.is_alphanumeric() || c == '-' || c == '_') {
            assert(!owner_repo_like(s@)) by {
                let o = before(s@, '/');
                assert(o[i as int] == c);
            }
            return false;
        }
        i = i + 1;
    }
    true
}

/// What `owner/repo[.git][@ref][#subdir]` says.
pub open spec fn shorthand(s: Seq<char>) -> Option<SourceView> {
    let body = before(s, '#');
    let path = before(body, '@');
    match after(path, '/') {
        None => None,
        Some(tail) => {
            let owner = before(path, '/');
            let repo = text::without_suffix(tail, ".git"@);
            if valid_ident(owner) && valid_ident(repo) {
                Some(
                    SourceView {
                        host: "github.com"@,
                        owner,
                        repo,
                        git_ref: after(body, '@'),
                        subdir: after(s, '#'),
                    },
                )
            } else {
                None
            }
        },
    }
}

pub fn parse_shorthand(spec: &str) -> (r: Option<GitHubSource>)
    ensures
        source_view(r) == shorthand(spec@),
{
    let cs = chars_of(spec);
    let (body, fragment) = cut(cs.as_slice(), '#');
    let (path, at_ref) = cut(body, '@');
    let (owner, tail) = cut(path, '/');
    match tail {
        None => None,
        Some(tail) => {
            let git = chars_of(".git");
            let repo = drop_suffix(tail, git.as_slice());
            match validate_ident(owner) {
                None => None,
                Some(owner) => match validate_ident(repo) {
                    None => None,
                    Some(repo) => Some(
                        GitHubSource {
                            host: "github.com".to_owned(),
                            owner,
                            repo,
                            git_ref: owned(at_ref),
                            subdir: owned(fragment),
                        },
                    ),
                },
            }
        },
    }
}

// ---------------------------------------------------------------------------
// URLs
// ---------------------------------------------------------------------------

/// What a GitHub source is read from in a URL.
#[derive(Debug, Clone)]
pub struct UrlParts {
    pub host: Option<String>,
    pub path: String,
    /// The URL as a whole, in its normal form.
    pub rendered: String,
    pub fragment: Option<String>,
}

/// The text of each part of a URL.
pub ghost struct UrlView {
    pub host: Option<Seq<char>>,
    pub path: Seq<char>,
    pub rendered: Seq<char>,
    pub fragment: Option<Seq<char>>,
}

impl View for UrlParts {
    type V = UrlView;

    open spec fn view(&self) -> UrlView {
        UrlView {
            host: pieces::opt_text(self.host),
            path: self.path@,
            rendered: self.rendered@,
            fragment: pieces::opt_text(self.fragment),
        }
    }
}

/// The parts of a URL as `reqwest::Url` reads them; nothing where the text is no URL.
pub uninterp spec fn url_parts(url: Seq<char>) -> Option<UrlView>;

/// `reqwest::Url::parse` and the readers of the value that it gives (`host_str`,
/// `path`, `fragment`, and the URL written out): whether a text is a URL, and what
/// its parts are, depends on the text alone.
#[verifier::external_body]
fn read_url(url: &str) -> (r: Option<UrlParts>)
    ensures
        match r {
            Some(p) => url_parts(url@) == Some(p@),
            None => url_parts(url@) is None,
        },
{
    reqwest::Url::parse(url).ok().map(
        |u| UrlParts {
            host: u.host_str().map(str::to_owned),
            path: u.path().to_owned(),
            rendered: u.to_string(),
            fragment: u.fragment().map(str::to_owned),
        },
    )
}

/// The reference that a URL has behind its first `@`, up to a query or a fragment.
pub open spec fn url_at_ref(rendered: Seq<char>) -> Option<Seq<char>> {
    match after(rendered, '@') {
        None => None,
        Some(t) => {
            let r = t.take(text::find(t, CharClass::RefEnd));
            if r.len() > 0 {
                Some(r)
            } else {
                None
            }
        },
    }
}

/// The reference that the path behind `owner/repo/` names: what follows `tree/`, or
/// what follows `releases/tag/`.
pub open spec fn path_ref(tail: Option<Seq<char>>) -> Option<Seq<char>> {
    match tail {
        None => None,
        Some(t) => match after(t, '/') {
            None => None,
            Some(last) => if before(t, '/') == "tree"@ {
                Some(last)
            } else if before(t, '/') == "releases"@ && text::starts_with(last, "tag/"@) {
                Some(last.skip(4))
            } else {
                None
            },
        },
    }
}

/// What a GitHub URL says. A reference behind an `@` comes before one in the path.
pub open spec fn url_source(u: UrlView) -> Option<SourceView> {
    match u.host {
        None => None,
        Some(h) => {
            let host = pieces::ascii_lowered(h);
            let full = text::trim_start(u.path, CharClass::Is('/'));
            let rest = text::without_suffix(before(full, '@'), ".git"@);
            let at_ref = match after(full, '@') {
                Some(r) => Some(r),
                None => url_at_ref(u.rendered),
            };
            if !github_host(host) || full.len() == 0 {
                None
            } else {
                match after(rest, '/') {
                    None => None,
                    Some(tail) => {
                        let owner = before(rest, '/');
                        let repo = before(tail, '/');
                        if valid_ident(owner) && valid_ident(repo) {
                            Some(
                                SourceView {
                                    host,
                                    owner,
                                    repo,
                                    git_ref: match at_ref {
                                        Some(r) => Some(r),
                                        None => path_ref(after(tail, '/')),
                                    },
                                    subdir: u.fragment,
                                },
                            )
                        } else {
                            None
                        }
                    },
                }
            }
        },
    }
}

fn find_path_ref(tail: Option<&[char]>) -> (r: Option<String>)
    ensures
        pieces::opt_text(r) == path_ref(
            match tail {
                Some(t) => Some(t@),
                None => None,
            },
        ),
{
    match tail {
        None => None,
        Some(t) => {
            let (kind, last) = cut(t, '/');
            match last {
                None => None,
                Some(last) => {
                    let kind = string_of(kind);
                    if same_text(kind.as_str(), "tree") {
                        Some(string_of(last))
                    } else if same_text(kind.as_str(), "releases") {
                        let tag = chars_of("tag/");
                        proof {
                            reveal_strlit("tag/");
                        }
                        owned(strip_front(last, tag.as_slice()))
                    } else {
                        None
                    }
                },
            }
        },
    }
}

fn find_url_at_ref(rendered: &str) -> (r: Option<String>)
    ensures
        pieces::opt_text(r) == url_at_ref(rendered@),
{
    let cs = chars_of(rendered);
    let (_, t) = cut(cs.as_slice(), '@');
    match t {
        None => None,
        Some(t) => {
            let end: usize = find_class(t, CharClass::RefEnd);
            if end > 0 {
                assert(t@.subrange(0, end as int) =~= t@.take(end as int));
                Some(string_of(slice_subrange(t, 0, end)))
            } else {
                None
            }
        },
    }
}

/// Read a GitHub source from the parts of a URL.
pub fn source_from_url(u: &UrlParts) -> (r: Option<GitHubSource>)
    ensures
        source_view(r) == url_source(u@),
{
    match &u.host {
        None => None,
        Some(h) => {
            let hc = chars_of(h.as_str());
            let host = lower_ascii(hc.as_slice());
            if !is_github_host(host.as_str()) {
                return None;
            }
            let pc = chars_of(u.path.as_str());
            let full = trim_start_class(pc.as_slice(), CharClass::Is('/'));
            if full.len() == 0 {
                return None;
            }
            let (path, in_path) = cut(full, '@');
            let at_ref: Option<String> = match in_path {
                Some(t) => Some(string_of(t)),
                None => find_url_at_ref(u.rendered.as_str()),
            };
            let git = chars_of(".git");
            let rest = drop_suffix(path, git.as_slice());
            let (owner, tail) = cut(rest, '/');
            match tail {
                None => None,
                Some(tail) => {
                    let (repo, more) = cut(tail, '/');
                    match validate_ident(owner) {
                        None => None,
                        Some(owner) => match validate_ident(repo) {
                            None => None,
                            Some(repo) => {
                                let git_ref = match at_ref {
                                    Some(t) => Some(t),
                                    None => find_path_ref(more),
                                };
                                Some(
                                    GitHubSource {
                                        host,
                                        owner,
                                        repo,
                                        git_ref,
                                        subdir: pieces::copy_opt(&u.fragment),
                                    },
                                )
                            },
                        },
                    }
                },
            }
        },
    }
}

/// What a GitHub URL in full says.
pub open spec fn github_url(url: Seq<char>) -> Option<SourceView> {
    match url_parts(url) {
        None => None,
        Some(u) => url_source(u),
    }
}

pub fn parse_github_url(url: &str) -> (r: Option<GitHubSource>)
    ensures
        source_view(r) == github_url(url@),
{
    match read_url(url) {
        None => None,
        Some(u) => source_from_url(&u),
    }
}

/// What a source spec says: a URL in full, or the shorthand. Anything else, a bare
/// `name@version` above all, is no GitHub source.
pub open spec fn github_source(spec: Seq<char>) -> Option<SourceView> {
    let s = text::trim(spec, CharClass::Space);
    if text::starts_with(s, "https://"@) || text::starts_with(s, "http://"@) {
        github_url(s)
    } else if owner_repo_like(s) {
        shorthand(s)
    } else {
        None
    }
}

/// Try to read `spec` as a GitHub source.
///
/// Accepted forms: `owner/repo`, `owner/repo@ref`, `owner/repo@ref#subdir`, and on
/// a GitHub host `https://host/owner/repo`, with `.git`, `@ref`, `/tree/<ref>` or
/// `/releases/tag/<tag>` behind it.
pub fn parse_source(spec: &str) -> (r: Option<GitHubSource>)
    ensures
        source_view(r) == github_source(spec@),
{
    let cs = chars_of(spec);
    let s = string_of(trim_class(cs.as_slice(), CharClass::Space));
    if starts_with_text(s.as_str(), "https://") || starts_with_text(s.as_str(), "http://") {
        parse_github_url(s.as_str())
    } else if looks_like_owner_repo(s.as_str()) {
        parse_shorthand(s.as_str())
    } else {
        None
    }
}

/// Whatever is read as a GitHub source, its owner and its repository are plain names: they
/// do not step out of a directory, and they hold no path.
pub proof fn owners_and_repositories_walk_no_path(spec: Seq<char>)
    ensures
        match github_source(spec) {
            Some(s) => {
                &&& valid_ident(s.owner) && !s.owner.contains('/') && !s.owner.contains('\\')
                &&& valid_ident(s.repo) && !s.repo.contains('/') && !s.repo.contains('\\')
            },
            None => true,
        },
{
    assert(!ident_char('/') && !ident_char('\\'));
}

/// A bare name with a version is no GitHub source, so that it is left to the registries.
pub proof fn a_bare_name_is_no_source(spec: Seq<char>)
    requires
        !text::trim(spec, CharClass::Space).contains('/'),
    ensures
        github_source(spec) is None,
{
    let s = text::trim(spec, CharClass::Space);
    let k = CharClass::Is('/');
    text::lemma_find_bounds(s, k);
    if text::find(s, k) < s.len() {
        assert(text::in_class(k, s[text::find(s, k)]));
    }
    reveal_strlit("https://");
    reveal_strlit("http://");
    if text::starts_with(s, "https://"@) {
        assert("https://"@[7] == '/');
        assert(s[7] == '/');
    }
    if text::starts_with(s, "http://"@) {
        assert("http://"@[6] == '/');
        assert(s[6] == '/');
    }
}

// ---------------------------------------------------------------------------
// Resolution
// ---------------------------------------------------------------------------

/// A GitHub reference with its commit.
#[derive(Debug, Clone)]
pub struct ResolvedSource {
    /// GitHub host (`github.com`, `github.company.com`).
    pub host: String,
    pub owner: String,
    pub repo: String,
    /// The tag, branch or SHA that the archive is taken at.
    pub git_ref: String,
    /// The commit's SHA in full.
    pub commit_sha: String,
    /// Whether `git_ref` is a tag.
    pub is_tag: bool,
    /// The repository's name as a package name.
    pub package_name: String,
    /// The reference without a leading `v`, or the first twelve characters of the SHA.
    pub version: String,
    /// `https://github.com/{owner}/{repo}`
    pub source_repo_url: String,
}

/// Where the API of a host is.
pub open spec fn api_root(host: Seq<char>) -> Seq<char> {
    if host == "github.com"@ {
        "https://api.github.com"@
    } else {
        "https://"@ + host + "/api/v3"@
    }
}

pub fn api_base(host: &str) -> (r: String)
    ensures
        r@ == api_root(host@),
{
    if same_text(host, "github.com") {
        "https://api.github.com".to_owned()
    } else {
        let mut r = "https://".to_owned();
        r.append(host);
        r.append("/api/v3");
        r
    }
}

/// Where the pages of a host are.
pub open spec fn web_root(host: Seq<char>) -> Seq<char> {
    "https://"@ + host
}

pub fn web_base(host: &str) -> (r: String)
    ensures
        r@ == web_root(host@),
{
    let mut r = "https://".to_owned();
    r.append(host);
    r
}

/// The API's address of a repository.
pub open spec fn repo_api(host: Seq<char>, owner: Seq<char>, repo: Seq<char>) -> Seq<char> {
    api_root(host) + "/repos/"@ + owner + "/"@ + repo
}

/// The address that a repository's default branch is asked at.
pub fn repo_url(host: &str, owner: &str, repo: &str) -> (r: String)
    ensures
        r@ == repo_api(host@, owner@, repo@),
{
    let mut r = api_base(host);
    r.append("/repos/");
    r.append(owner);
    r.append("/");
    r.append(repo);
    r
}

/// The address that a reference's commit is asked at.
pub fn commit_url(host: &str, owner: &str, repo: &str, git_ref: &str) -> (r: String)
    ensures
        r@ == repo_api(host@, owner@, repo@) + "/commits/"@ + git_ref@,
{
    let mut r = repo_url(host, owner, repo);
    r.append("/commits/");
    r.append(git_ref);
    r
}

/// The address that answers whether a reference is a tag.
pub fn tag_ref_url(host: &str, owner: &str, repo: &str, git_ref: &str) -> (r: String)
    ensures
        r@ == repo_api(host@, owner@, repo@) + "/git/refs/tags/"@ + git_ref@,
{
    let mut r = repo_url(host, owner, repo);
    r.append("/git/refs/tags/");
    r.append(git_ref);
    r
}

/// The address of the release that a resolved tag has.
pub fn release_url(resolved: &ResolvedSource) -> (r: String)
    ensures
        r@ == repo_api(resolved.host@, resolved.owner@, resolved.repo@) + "/releases/tags/"@
            + resolved.git_ref@,
{
    let mut r = repo_url(
        resolved.host.as_str(),
        resolved.owner.as_str(),
        resolved.repo.as_str(),
    );
    r.append("/releases/tags/");
    r.append(resolved.git_ref.as_str());
    r
}

/// What a failing status of the API means.
#[derive(Debug, Clone, Copy, PartialEq, Eq)]
pub enum ApiFailure {
    /// The rate limit is used up.
    RateLimited,
    /// The repository or the reference is not there.
    NotFound,
    /// Any other failing status.
    Status(u16),
}

/// Read a status of the API: 403 is the rate limit, 404 means that nothing is there,
/// and every other status of 400 and above fails too.
pub fn api_failure(status: u16) -> (r: Option<ApiFailure>)
    ensures
        r == (if status == 403 {
            Some(ApiFailure::RateLimited)
        } else if status == 404 {
            Some(ApiFailure::NotFound)
        } else if status >= 400 {
            Some(ApiFailure::Status(status))
        } else {
            None
        }),
{
    if status == 403 {
        Some(ApiFailure::RateLimited)
    } else if status == 404 {
        Some(ApiFailure::NotFound)
    } else if status >= 400 {
        Some(ApiFailure::Status(status))
    } else {
        None
    }
}

/// What is said of a failed request for a reference's commit.
pub open spec fn ref_failure_text(
    f: ApiFailure,
    remaining: Seq<char>,
    place: Seq<char>,
    git_ref: Seq<char>,
    url: Seq<char>,
) -> Seq<char> {
    match f {
        ApiFailure::RateLimited => "GitHub API rate limit hit (remaining: "@ + remaining
            + "). Set the GITHUB_TOKEN environment variable to raise the limit."@,
        ApiFailure::NotFound => "Repository or ref not found: "@ + place + " @ "@ + git_ref
            + ". Check that the repo is public and the tag/branch/SHA exists."@,
        ApiFailure::Status(n) => "GitHub API error "@ + pieces::decimal(n as nat) + ": "@ + url,
    }
}

/// `place` is `host/owner/repo`.
pub fn ref_failure_message(
    f: ApiFailure,
    remaining: &str,
    place: &str,
    git_ref: &str,
    url: &str,
) -> (r: String)
    ensures
        r@ == ref_failure_text(f, remaining@, place@, git_ref@, url@),
{
    match f {
        ApiFailure::RateLimited => {
            let mut r = "GitHub API rate limit hit (remaining: ".to_owned();
            r.append(remaining);
            r.append("). Set the GITHUB_TOKEN environment variable to raise the limit.");
            r
        },
        ApiFailure::NotFound => {
            let mut r = "Repository or ref not found: ".to_owned();
            r.append(place);
            r.append(" @ ");
            r.append(git_ref);
            r.append(". Check that the repo is public and the tag/branch/SHA exists.");
            r
        },
        ApiFailure::Status(n) => {
            let mut r = "GitHub API error ".to_owned();
            r.append(write_decimal(n as u64).as_str());
            r.append(": ");
            r.append(url);
            r
        },
    }
}

/// What is said of any other failed request to the API.
pub open spec fn api_failure_text(f: ApiFailure, remaining: Seq<char>, url: Seq<char>) -> Seq<
    char,
> {
    match f {
        ApiFailure::RateLimited => "GitHub API rate limit hit (remaining: "@ + remaining
            + "). Set GITHUB_TOKEN to raise the limit."@,
        ApiFailure::NotFound => "GitHub API 404: "@ + url
            + " — check the repo/ref exists and is public."@,
        ApiFailure::Status(n) => "GitHub API error "@ + pieces::decimal(n as nat) + ": "@ + url,
    }
}

pub fn api_failure_message(f: ApiFailure, remaining: &str, url: &str) -> (r: String)
    ensures
        r@ == api_failure_text(f, remaining@, url@),
{
    match f {
        ApiFailure::RateLimited => {
            let mut r = "GitHub API rate limit hit (remaining: ".to_owned();
            r.append(remaining);
            r.append("). Set GITHUB_TOKEN to raise the limit.");
            r
        },
        ApiFailure::NotFound => {
            let mut r = "GitHub API 404: ".to_owned();
            r.append(url);
            r.append(" — check the repo/ref exists and is public.");
            r
        },
        ApiFailure::Status(n) => {
            let mut r = "GitHub API error ".to_owned();
            r.append(write_decimal(n as u64).as_str());
            r.append(": ");
            r.append(url);
            r
        },
    }
}

/// A text of exactly forty hexadecimal digits.
pub open spec fn is_sha(s: Seq<char>) -> bool {
    s.len() == 40 && text::all_hex(s)
}

/// A reference that can only be a commit: forty hexadecimal digits or more.
pub open spec fn is_commit_ref(s: Seq<char>) -> bool {
    s.len() >= 40 && text::all_hex(s)
}

/// Whether a reference names a commit.
pub fn commit_ref(s: &str) -> (r: bool)
    ensures
        r == is_commit_ref(s@),
{
    let cs = chars_of(s);
    cs.len() >= 40 && is_all_hex(cs.as_slice())
}

/// The SHA that the body of an answer is, where it is one: white space around it
/// falls off and its letters become small.
pub open spec fn body_sha(body: Seq<char>) -> Option<Seq<char>> {
    let s = text::lowercased(text::trim(body, CharClass::Space));
    if is_sha(s) {
        Some(s)
    } else {
        None
    }
}

pub fn sha_from_body(body: &str) -> (r: Option<String>)
    ensures
        pieces::opt_text(r) == body_sha(body@),
{
    let sha = trim_text(body).as_str().to_lowercase();
    let cs = chars_of(sha.as_str());
    if cs.len() == 40 && is_all_hex(cs.as_slice()) {
        Some(sha)
    } else {
        None
    }
}

/// What the body of an answer for a commit is.
#[derive(Debug, Clone)]
pub enum CommitBody {
    /// The SHA itself.
    Sha(String),
    /// A text that tells the SHA as JSON.
    Told(String),
}

/// Read the body of an answer for a commit: it is the SHA, in any case of its letters, or
/// else it is to be read as JSON, with all letters in lower case.
pub fn read_commit_body(body: &str) -> (r: CommitBody)
    ensures
        match r {
            CommitBody::Sha(s) => body_sha(body@) == Some(s@),
            CommitBody::Told(t) => body_sha(body@) is None && t@ == text::lowercased(
                text::trim(body@, CharClass::Space),
            ),
        },
{
    match sha_from_body(body) {
        Some(s) => CommitBody::Sha(s),
        None => CommitBody::Told(trim_text(body).as_str().to_lowercase()),
    }
}

/// The SHA that the JSON of an answer tells, where it tells one.
pub fn read_sha(told: Option<&str>) -> (r: Result<String, String>)
    ensures
        match r {
            Ok(s) => told matches Some(t) && s@ == text::lowercased(t@),
            Err(e) => told is None && e@ == "Could not parse commit SHA from GitHub response"@,
        },
{
    match told {
        Some(t) => Ok(t.to_lowercase()),
        None => Err("Could not parse commit SHA from GitHub response".to_owned()),
    }
}

/// The version that a reference gives a package: the reference without a leading `v`, or
/// the first twelve bytes of the SHA where the reference is one.
pub open spec fn ref_version(git_ref: Seq<char>, commit_sha: Seq<char>) -> Seq<char> {
    if is_commit_ref(git_ref) {
        pieces::byte_prefix(commit_sha, 12)
    } else if git_ref.len() > 0 && git_ref[0] == 'v' {
        git_ref.skip(1)
    } else {
        git_ref
    }
}

fn without_v(git_ref: &str) -> (r: String)
    ensures
        r@ == (if git_ref@.len() > 0 && git_ref@[0] == 'v' {
            git_ref@.skip(1)
        } else {
            git_ref@
        }),
{
    let cs = chars_of(git_ref);
    if cs.len() > 0 && cs[0] == 'v' {
        let rest = slice_subrange(cs.as_slice(), 1, cs.len());
        assert(rest@ =~= git_ref@.skip(1));
        string_of(rest)
    } else {
        git_ref.to_owned()
    }
}

/// Put together what the API answered for a source: the reference that it has, or
/// the default branch, the commit of that reference, and whether it is a tag.
pub fn resolve(src: &GitHubSource, git_ref: &str, commit_sha: &str, is_tag: bool) -> (r:
    ResolvedSource)
    requires
        is_commit_ref(git_ref@) ==> pieces::byte_boundary(commit_sha@, 12),
    ensures
        r.host@ == src.host@,
        r.owner@ == src.owner@,
        r.repo@ == src.repo@,
        r.git_ref@ == git_ref@,
        r.commit_sha@ == commit_sha@,
        r.is_tag == is_tag,
        r.package_name@ == bundle_name(src.repo@),
        r.version@ == ref_version(git_ref@, commit_sha@),
        r.source_repo_url@ == web_root(src.host@) + "/"@ + src.owner@ + "/"@ + src.repo@,
{
    let version = if commit_ref(git_ref) {
        take_bytes(commit_sha, 12)
    } else {
        without_v(git_ref)
    };
    let mut url = web_base(src.host.as_str());
    url.append("/");
    url.append(src.owner.as_str());
    url.append("/");
    url.append(src.repo.as_str());
    ResolvedSource {
        host: src.host.clone(),
        owner: src.owner.clone(),
        repo: src.repo.clone(),
        git_ref: git_ref.to_owned(),
        commit_sha: commit_sha.to_owned(),
        is_tag,
        package_name: sanitize_bundle_name(src.repo.as_str()),
        version,
        source_repo_url: url,
    }
}

// ---------------------------------------------------------------------------
// Release assets
// ---------------------------------------------------------------------------

/// A `.sembundle` asset of a GitHub release.
#[derive(Debug, Clone)]
pub struct ReleaseAsset {
    pub bundle_url: String,
    pub sig_url: Option<String>,
}

/// One asset that a release lists.
#[derive(Debug, Clone)]
pub struct AssetEntry {
    pub name: String,
    pub browser_download_url: String,
}

/// The first asset that bears a name.
pub open spec fn asset_named(assets: Seq<AssetEntry>, name: Seq<char>) -> Option<AssetEntry>
    decreases assets.len(),
{
    if assets.len() == 0 {
        None
    } else if assets[0].name@ == name {
        Some(assets[0])
    } else {
        asset_named(assets.drop_first(), name)
    }
}

/// The first asset whose name has an ending.
pub open spec fn asset_ending(assets: Seq<AssetEntry>, ending: Seq<char>) -> Option<AssetEntry>
    decreases assets.len(),
{
    if assets.len() == 0 {
        None
    } else if text::ends_with(assets[0].name@, ending) {
        Some(assets[0])
    } else {
        asset_ending(assets.drop_first(), ending)
    }
}

fn find_asset(assets: &Vec<AssetEntry>, name: &str) -> (r: Option<usize>)
    ensures
        match r {
            Some(i) => i < assets@.len() && asset_named(assets@, name@) == Some(assets@[i as int]),
            None => asset_named(assets@, name@) is None,
        },
{
    let mut i: usize = 0;
    assert(assets@.skip(0) =~= assets@);
    while i < assets.len()
        invariant
            i <= assets@.len(),
            asset_named(assets@, name@) == asset_named(assets@.skip(i as int), name@),
        decreases assets.len() - i,
    {
        assert(assets@.skip(i as int).drop_first() =~= assets@.skip(i + 1));
        if same_text(assets[i].name.as_str(), name) {
            return Some(i);
        }
        i = i + 1;
    }
    None
}

fn find_asset_ending(assets: &Vec<AssetEntry>, ending: &str) -> (r: Option<usize>)
    ensures
        match r {
            Some(i) => i < assets@.len() && asset_ending(assets@, ending@) == Some(
                assets@[i as int],
            ),
            None => asset_ending(assets@, ending@) is None,
        },
{
    let mut i: usize = 0;
    assert(assets@.skip(0) =~= assets@);
    while i < assets.len()
        invariant
            i <= assets@.len(),
            asset_ending(assets@, ending@) == asset_ending(assets@.skip(i as int), ending@),
        decreases assets.len() - i,
    {
        assert(assets@.skip(i as int).drop_first() =~= assets@.skip(i + 1));
        if ends_with_text(assets[i].name.as_str(), ending) {
            return Some(i);
        }
        i = i + 1;
    }
    None
}

/// The file name that a package's bundle has.
pub open spec fn bundle_file(name: Seq<char>, version: Seq<char>) -> Seq<char> {
    name + "-"@ + version + ".sembundle"@
}

/// The asset to install from: the bundle of that very name and version, else the
/// first bundle that there is.
pub open spec fn chosen_asset(
    assets: Seq<AssetEntry>,
    name: Seq<char>,
    version: Seq<char>,
) -> Option<AssetEntry> {
    match asset_named(assets, bundle_file(name, version)) {
        Some(a) => Some(a),
        None => asset_ending(assets, ".sembundle"@),
    }
}

/// Look for a bundle among the assets of the release that `resolved` leads to. Only
/// a tag has a release. With it goes the first signature that the release has.
pub fn find_release_bundle_asset(resolved: &ResolvedSource, assets: &Vec<AssetEntry>) -> (r: Option<
    ReleaseAsset,
>)
    ensures
        match r {
            Some(a) => {
                let chosen = chosen_asset(assets@, resolved.package_name@, resolved.version@);
                &&& resolved.is_tag
                &&& chosen is Some
                &&& a.bundle_url@ == chosen->0.browser_download_url@
                &&& match asset_ending(assets@, ".sembundle.sig"@) {
                    Some(s) => a.sig_url is Some && a.sig_url->0@ == s.browser_download_url@,
                    None => a.sig_url is None,
                }
            },
            None => !resolved.is_tag || chosen_asset(
                assets@,
                resolved.package_name@,
                resolved.version@,
            ) is None,
        },
{
    if !resolved.is_tag {
        return None;
    }
    let mut name = resolved.package_name.clone();
    name.append("-");
    name.append(resolved.version.as_str());
    name.append(".sembundle");
    let chosen = match find_asset(assets, name.as_str()) {
        Some(i) => Some(i),
        None => find_asset_ending(assets, ".sembundle"),
    };
    match chosen {
        None => None,
        Some(i) => {
            let sig_url = match find_asset_ending(assets, ".sembundle.sig") {
                Some(j) => Some(assets[j].browser_download_url.clone()),
                None => None,
            };
            Some(ReleaseAsset { bundle_url: assets[i].browser_download_url.clone(), sig_url })
        },
    }
}

proof fn lemma_asset_named(assets: Seq<AssetEntry>, name: Seq<char>)
    ensures
        match asset_named(assets, name) {
            Some(a) => exists|i: int|
                0 <= i < assets.len() && a == #[trigger] assets[i] && a.name@ == name && forall|
                    j: int,
                |
                    0 <= j < i ==> (#[trigger] assets[j]).name@ != name,
            None => forall|i: int| 0 <= i < assets.len() ==> (#[trigger] assets[i]).name@ != name,
        },
    decreases assets.len(),
{
    if assets.len() > 0 && assets[0].name@ != name {
        let rest = assets.drop_first();
        lemma_asset_named(rest, name);
        match asset_named(rest, name) {
            Some(a) => {
                let i = choose|i: int|
                    0 <= i < rest.len() && a == #[trigger] rest[i] && a.name@ == name && forall|
                        j: int,
                    |
                        0 <= j < i ==> (#[trigger] rest[j]).name@ != name;
                assert(assets[i + 1] == a);
                assert forall|j: int| 0 <= j < i + 1 implies (#[trigger] assets[j]).name@ != name by {
                    if j > 0 {
                        assert(rest[j - 1] == assets[j]);
                    }
                }
            },
            None => {
                assert forall|i: int| 0 <= i < assets.len() implies (#[trigger] assets[i]).name@
                    != name by {
                    if i > 0 {
                        assert(rest[i - 1] == assets[i]);
                    }
                }
            },
        }
    }
}

/// A name is some text with an ending behind it.
pub open spec fn has_ending(name: Seq<char>, ending: Seq<char>) -> bool {
    exists|t: Seq<char>| name == #[trigger] (t + ending)
}

proof fn lemma_has_ending(name: Seq<char>, ending: Seq<char>)
    ensures
        text::ends_with(name, ending) == has_ending(name, ending),
{
    if text::ends_with(name, ending) {
        let t = name.take(name.len() - ending.len());
        assert(name =~= t + ending);
    }
    if has_ending(name, ending) {
        let t = choose|t: Seq<char>| name == #[trigger] (t + ending);
        assert((t + ending).subrange(t.len() as int, (t + ending).len() as int) =~= ending);
    }
}

proof fn lemma_asset_ending(assets: Seq<AssetEntry>, ending: Seq<char>)
    ensures
        match asset_ending(assets, ending) {
            Some(a) => exists|i: int|
                0 <= i < assets.len() && a == #[trigger] assets[i] && has_ending(a.name@, ending)
                    && forall|j: int|
                    0 <= j < i ==> !has_ending((#[trigger] assets[j]).name@, ending),
            None => forall|i: int|
                0 <= i < assets.len() ==> !has_ending((#[trigger] assets[i]).name@, ending),
        },
    decreases assets.len(),
{
    if assets.len() > 0 {
        lemma_has_ending(assets[0].name@, ending);
        if !has_ending(assets[0].name@, ending) {
            let rest = assets.drop_first();
            lemma_asset_ending(rest, ending);
            match asset_ending(rest, ending) {
                Some(a) => {
                    let i = choose|i: int|
                        0 <= i < rest.len() && a == #[trigger] rest[i] && has_ending(a.name@, ending)
                            && forall|j: int|
                            0 <= j < i ==> !has_ending((#[trigger] rest[j]).name@, ending);
                    assert(assets[i + 1] == a);
                    assert forall|j: int| 0 <= j < i + 1 implies !has_ending(
                        (#[trigger] assets[j]).name@,
                        ending,
                    ) by {
                        if j > 0 {
                            assert(rest[j - 1] == assets[j]);
                        }
                    }
                },
                None => {
                    assert forall|i: int| 0 <= i < assets.len() implies !has_ending(
                        (#[trigger] assets[i]).name@,
                        ending,
                    ) by {
                        if i > 0 {
                            assert(rest[i - 1] == assets[i]);
                        }
                    }
                },
            }
        }
    }
}

/// What is installed from a release is a bundle of that release: one of its assets, with the
/// ending of bundles. The bundle of the package and the version is taken wherever it is
/// there, and some bundle wherever there is one.
pub proof fn a_release_gives_a_bundle(
    assets: Seq<AssetEntry>,
    name: Seq<char>,
    version: Seq<char>,
)
    ensures
        match chosen_asset(assets, name, version) {
            Some(a) => {
                &&& assets.contains(a)
                &&& has_ending(a.name@, ".sembundle"@)
                &&& (exists|i: int|
                    0 <= i < assets.len() && (#[trigger] assets[i]).name@ == name + "-"@ + version
                        + ".sembundle"@) ==> a.name@ == name + "-"@ + version + ".sembundle"@
            },
            None => forall|i: int|
                0 <= i < assets.len() ==> !has_ending((#[trigger] assets[i]).name@, ".sembundle"@),
        },
{
    let file = name + "-"@ + version + ".sembundle"@;
    lemma_asset_named(assets, file);
    lemma_asset_ending(assets, ".sembundle"@);
    assert(file == (name + "-"@ + version) + ".sembundle"@);
    assert(has_ending(file, ".sembundle"@));
}

/// The signature that goes with a release is one of its assets, with the ending of
/// signatures, and there is one wherever the release has any.
pub proof fn a_release_gives_its_signature(assets: Seq<AssetEntry>)
    ensures
        match asset_ending(assets, ".sembundle.sig"@) {
            Some(a) => assets.contains(a) && has_ending(a.name@, ".sembundle.sig"@),
            None => forall|i: int|
                0 <= i < assets.len() ==> !has_ending(
                    (#[trigger] assets[i]).name@,
                    ".sembundle.sig"@,
                ),
        },
{
    lemma_asset_ending(assets, ".sembundle.sig"@);
}

// ---------------------------------------------------------------------------
// Archives and clones
// ---------------------------------------------------------------------------

/// The page of a repository.
pub open spec fn repo_page(r: ResolvedSource) -> Seq<char> {
    web_root(r.host@) + "/"@ + r.owner@ + "/"@ + r.repo@
}

/// Where the archive of a resolved source is: a tag's, a commit's or a branch's.
pub open spec fn archive_url(r: ResolvedSource) -> Seq<char> {
    repo_page(r) + (if r.is_tag {
        "/archive/refs/tags/"@
    } else if is_commit_ref(r.git_ref@) {
        "/archive/"@
    } else {
        "/archive/refs/heads/"@
    }) + r.git_ref@ + ".tar.gz"@
}

pub fn archive_tarball_url(resolved: &ResolvedSource) -> (r: String)
    ensures
        r@ == archive_url(*resolved),
{
    let mut r = web_base(resolved.host.as_str());
    r.append("/");
    r.append(resolved.owner.as_str());
    r.append("/");
    r.append(resolved.repo.as_str());
    if resolved.is_tag {
        r.append("/archive/refs/tags/");
    } else if commit_ref(resolved.git_ref.as_str()) {
        r.append("/archive/");
    } else {
        r.append("/archive/refs/heads/");
    }
    r.append(resolved.git_ref.as_str());
    r.append(".tar.gz");
    r
}

/// The calls of git that clone a resolved source into a directory. A tag or a branch
/// is cloned alone; a commit is checked out behind a clone of every branch.
pub open spec fn clone_calls(r: ResolvedSource, dir: Seq<char>) -> Seq<Seq<Seq<char>>> {
    let url = repo_page(r) + ".git"@;
    if is_sha(r.git_ref@) {
        seq![
            seq!["clone"@, "--depth"@, "1"@, "--no-single-branch"@, url, dir],
            seq!["checkout"@, r.git_ref@],
        ]
    } else {
        seq![
            seq![
                "clone"@,
                "--depth"@,
                "1"@,
                "--branch"@,
                r.git_ref@,
                "--single-branch"@,
                url,
                dir,
            ],
        ]
    }
}

/// The texts of each call.
pub open spec fn call_texts(v: Seq<Vec<String>>) -> Seq<Seq<Seq<char>>> {
    v.map_values(|x: Vec<String>| pieces::texts(x@))
}

pub fn git_clone_calls(resolved: &ResolvedSource, dir: &str) -> (r: Vec<Vec<String>>)
    ensures
        call_texts(r@) == clone_calls(*resolved, dir@),
{
    let mut url = web_base(resolved.host.as_str());
    url.append("/");
    url.append(resolved.owner.as_str());
    url.append("/");
    url.append(resolved.repo.as_str());
    url.append(".git");
    let cs = chars_of(resolved.git_ref.as_str());
    let mut calls: Vec<Vec<String>> = Vec::new();
    let mut first: Vec<String> = Vec::new();
    first.push("clone".to_owned());
    first.push("--depth".to_owned());
    first.push("1".to_owned());
    if cs.len() == 40 && is_all_hex(cs.as_slice()) {
        first.push("--no-single-branch".to_owned());
        first.push(url);
        first.push(dir.to_owned());
        let mut second: Vec<String> = Vec::new();
        second.push("checkout".to_owned());
        second.push(resolved.git_ref.clone());
        proof {
            assert(pieces::texts(first@) =~= clone_calls(*resolved, dir@)[0]);
            assert(pieces::texts(second@) =~= clone_calls(*resolved, dir@)[1]);
        }
        calls.push(first);
        calls.push(second);
    } else {
        first.push("--branch".to_owned());
        first.push(resolved.git_ref.clone());
        first.push("--single-branch".to_owned());
        first.push(url);
        first.push(dir.to_owned());
        proof {
            assert(pieces::texts(first@) =~= clone_calls(*resolved, dir@)[0]);
        }
        calls.push(first);
    }
    assert(call_texts(calls@) =~= clone_calls(*resolved, dir@));
    calls
}

// ---------------------------------------------------------------------------
// Languages
// ---------------------------------------------------------------------------

/// The language that files with an extension (in small letters) are written in.
pub open spec fn extension_language(e: Seq<char>) -> Option<Seq<char>> {
    if e == "py"@ {
        Some("python"@)
    } else if e == "rs"@ {
        Some("rust"@)
    } else if e == "cpp"@ || e == "cc"@ || e == "cxx"@ || e == "h"@ || e == "hpp"@ {
        Some("cpp"@)
    } else if e == "c"@ {
        Some("c"@)
    } else if e == "ts"@ || e == "tsx"@ {
        Some("typescript"@)
    } else if e == "js"@ || e == "jsx"@ {
        Some("javascript"@)
    } else if e == "go"@ {
        Some("go"@)
    } else if e == "java"@ {
        Some("java"@)
    } else if e == "cs"@ {
        Some("csharp"@)
    } else if e == "rb"@ {
        Some("ruby"@)
    } else if e == "swift"@ {
        Some("swift"@)
    } else if e == "kt"@ {
        Some("kotlin"@)
    } else if e == "scala"@ {
        Some("scala"@)
    } else if e == "hs"@ {
        Some("haskell"@)
    } else if e == "ex"@ || e == "exs"@ {
        Some("elixir"@)
    } else if e == "php"@ {
        Some("php"@)
    } else if e == "lua"@ {
        Some("lua"@)
    } else if e == "r"@ {
        Some("r"@)
    } else if e == "jl"@ {
        Some("julia"@)
    } else if e == "zig"@ {
        Some("zig"@)
    } else if e == "nim"@ {
        Some("nim"@)
    } else {
        None
    }
}

/// The languages that an extension can name.
pub open spec fn languages() -> Seq<Seq<char>> {
    seq![
        "python"@,
        "rust"@,
        "cpp"@,
        "c"@,
        "typescript"@,
        "javascript"@,
        "go"@,
        "java"@,
        "csharp"@,
        "ruby"@,
        "swift"@,
        "kotlin"@,
        "scala"@,
        "haskell"@,
        "elixir"@,
        "php"@,
        "lua"@,
        "r"@,
        "julia"@,
        "zig"@,
        "nim"@,
    ]
}

fn language_names() -> (r: Vec<String>)
    ensures
        pieces::texts(r@) == languages(),
{
    let mut r: Vec<String> = Vec::new();
    r.push("python".to_owned());
    r.push("rust".to_owned());
    r.push("cpp".to_owned());
    r.push("c".to_owned());
    r.push("typescript".to_owned());
    r.push("javascript".to_owned());
    r.push("go".to_owned());
    r.push("java".to_owned());
    r.push("csharp".to_owned());
    r.push("ruby".to_owned());
    r.push("swift".to_owned());
    r.push("kotlin".to_owned());
    r.push("scala".to_owned());
    r.push("haskell".to_owned());
    r.push("elixir".to_owned());
    r.push("php".to_owned());
    r.push("lua".to_owned());
    r.push("r".to_owned());
    r.push("julia".to_owned());
    r.push("zig".to_owned());
    r.push("nim".to_owned());
    assert(pieces::texts(r@) =~= languages());
    r
}

/// Every language that an extension names is one of the list.
pub proof fn lemma_language_listed(e: Seq<char>)
    ensures
        extension_language(e) matches Some(l) ==> languages().contains(l),
{
    let all = languages();
    match extension_language(e) {
        Some(l) => {
            assert(all[0] == "python"@);
            assert(all[1] == "rust"@);
            assert(all[2] == "cpp"@);
            assert(all[3] == "c"@);
            assert(all[4] == "typescript"@);
            assert(all[5] == "javascript"@);
            assert(all[6] == "go"@);
            assert(all[7] == "java"@);
            assert(all[8] == "csharp"@);
            assert(all[9] == "ruby"@);
            assert(all[10] == "swift"@);
            assert(all[11] == "kotlin"@);
            assert(all[12] == "scala"@);
            assert(all[13] == "haskell"@);
            assert(all[14] == "elixir"@);
            assert(all[15] == "php"@);
            assert(all[16] == "lua"@);
            assert(all[17] == "r"@);
            assert(all[18] == "julia"@);
            assert(all[19] == "zig"@);
            assert(all[20] == "nim"@);
        },
        None => {},
    }
}

fn language_for(ext: &str) -> (r: Option<String>)
    ensures
        pieces::opt_text(r) == extension_language(ext@),
{
    if same_text(ext, "py") {
        Some("python".to_owned())
    } else if same_text(ext, "rs") {
        Some("rust".to_owned())
    } else if same_text(ext, "cpp") || same_text(ext, "cc") || same_text(ext, "cxx") || same_text(ext, "h") || same_text(ext, "hpp") {
        Some("cpp".to_owned())
    } else if same_text(ext, "c") {
        Some("c".to_owned())
    } else if same_text(ext, "ts") || same_text(ext, "tsx") {
        Some("typescript".to_owned())
    } else if same_text(ext, "js") || same_text(ext, "jsx") {
        Some("javascript".to_owned())
    } else if same_text(ext, "go") {
        Some("go".to_owned())
    } else if same_text(ext, "java") {
        Some("java".to_owned())
    } else if same_text(ext, "cs") {
        Some("csharp".to_owned())
    } else if same_text(ext, "rb") {
        Some("ruby".to_owned())
    } else if same_text(ext, "swift") {
        Some("swift".to_owned())
    } else if same_text(ext, "kt") {
        Some("kotlin".to_owned())
    } else if same_text(ext, "scala") {
        Some("scala".to_owned())
    } else if same_text(ext, "hs") {
        Some("haskell".to_owned())
    } else if same_text(ext, "ex") || same_text(ext, "exs") {
        Some("elixir".to_owned())
    } else if same_text(ext, "php") {
        Some("php".to_owned())
    } else if same_text(ext, "lua") {
        Some("lua".to_owned())
    } else if same_text(ext, "r") {
        Some("r".to_owned())
    } else if same_text(ext, "jl") {
        Some("julia".to_owned())
    } else if same_text(ext, "zig") {
        Some("zig".to_owned())
    } else if same_text(ext, "nim") {
        Some("nim".to_owned())
    } else {
        None
    }
}

/// How many of the extensions name a language.
pub open spec fn language_count(exts: Seq<Seq<char>>, lang: Seq<char>) -> nat
    decreases exts.len(),
{
    if exts.len() == 0 {
        0
    } else {
        let n = language_count(exts.drop_last(), lang);
        if extension_language(pieces::ascii_lowered(exts.last())) == Some(lang) {
            n + 1
        } else {
            n
        }
    }
}

fn count_language(exts: &Vec<String>, lang: &str) -> (n: usize)
    ensures
        n == language_count(pieces::texts(exts@), lang@),
{
    let mut n: usize = 0;
    let mut i: usize = 0;
    while i < exts.len()
        invariant
            i <= exts@.len(),
            n <= i,
            n == language_count(pieces::texts(exts@).take(i as int), lang@),
        decreases exts.len() - i,
    {
        let ghost all = pieces::texts(exts@);
        assert(all.take(i + 1).drop_last() =~= all.take(i as int));
        assert(all.take(i + 1).last() == exts@[i as int]@);
        let cs = chars_of(exts[i].as_str());
        let e = lower_ascii(cs.as_slice());
        match language_for(e.as_str()) {
            Some(l) => {
                if same_text(l.as_str(), lang) {
                    n = n + 1;
                }
            },
            None => {},
        }
        i = i + 1;
    }
    assert(pieces::texts(exts@).take(exts@.len() as int) =~= pieces::texts(exts@));
    n
}

proof fn lemma_uncounted(exts: Seq<Seq<char>>, lang: Seq<char>)
    requires
        !languages().contains(lang),
    ensures
        language_count(exts, lang) == 0,
    decreases exts.len(),
{
    if exts.len() > 0 {
        lemma_uncounted(exts.drop_last(), lang);
        lemma_language_listed(pieces::ascii_lowered(exts.last()));
    }
}

/// The language that most of a tree's files are written in, from the extensions of
/// the files: one that no other language outnumbers, or `unknown` where no extension
/// names a language. Which of several equally frequent languages comes out is open.
pub fn detect_language(exts: &Vec<String>) -> (r: String)
    ensures
        ({
            let all = pieces::texts(exts@);
            if forall|l: Seq<char>| #[trigger] language_count(all, l) == 0 {
                r@ == "unknown"@
            } else {
                language_count(all, r@) > 0 && forall|l: Seq<char>| #[trigger]
                    language_count(all, l) <= language_count(all, r@)
            }
        }),
{
    let names = language_names();
    let ghost all = pieces::texts(exts@);
    let mut best = "unknown".to_owned();
    let mut most: usize = 0;
    let mut i: usize = 0;
    while i < names.len()
        invariant
            i <= names@.len(),
            all == pieces::texts(exts@),
            pieces::texts(names@) == languages(),
            most == 0 ==> best@ == "unknown"@,
            most > 0 ==> most == language_count(all, best@),
            forall|j: int| 0 <= j < i ==> language_count(all, #[trigger] languages()[j]) <= most,
        decreases names.len() - i,
    {
        assert(languages()[i as int] == names@[i as int]@);
        let n: usize = count_language(exts, names[i].as_str());
        if n > most {
            most = n;
            best = names[i].clone();
        }
        i = i + 1;
    }
    proof {
        assert forall|l: Seq<char>| #[trigger] language_count(all, l) <= most by {
            if languages().contains(l) {
                let j = choose|j: int| 0 <= j < languages().len() && languages()[j] == l;
                assert(language_count(all, languages()[j]) <= most);
            } else {
                lemma_uncounted(all, l);
            }
        }
        if most == 0 {
            assert forall|l: Seq<char>| #[trigger] language_count(all, l) == 0 by {}
        } else {
            assert(language_count(all, best@) > 0);
        }
    }
    best
}

// ---------------------------------------------------------------------------
// Tokens
// ---------------------------------------------------------------------------

/// A host as the end of a variable's name: letters and digits as capitals, `_` in
/// place of everything else.
pub open spec fn env_suffix(host: Seq<char>) -> Seq<char> {
    host.map_values(
        |c: char|
            if text::is_ascii_alnum(c) {
                text::ascii_upper(c)
            } else {
                '_'
            },
    )
}

pub fn host_env_suffix(host: &str) -> (r: String)
    ensures
        r@ == env_suffix(host@),
{
    let cs = chars_of(host);
    let mut r = String::new();
    let mut i: usize = 0;
    while i < cs.len()
        invariant
            i <= cs@.len(),
            r@ == env_suffix(cs@.take(i as int)),
        decreases cs.len() - i,
    {
        let c = cs[i];
        let d = if ('A' <= c && c <= 'Z') || ('a' <= c && c <= 'z') || ('0' <= c && c <= '9') {
            to_ascii_upper(c)
        } else {
            '_'
        };
        r.push(d);
        i = i + 1;
        assert(env_suffix(cs@.take(i as int)) =~= env_suffix(cs@.take(i - 1)).push(d));
    }
    assert(cs@.take(cs@.len() as int) =~= cs@);
    r
}

/// The variables that a host's token is looked for in, the first one first: those
/// that name the host, for an enterprise host those of any such host, and last those
/// of GitHub itself.
pub open spec fn token_keys(host: Seq<char>) -> Seq<Seq<char>> {
    let own = seq!["GITHUB_TOKEN_"@ + env_suffix(host), "GH_TOKEN_"@ + env_suffix(host)];
    let enterprise = if pieces::ascii_lowered(host) == pieces::ascii_lowered("github.com"@) {
        seq![]
    } else {
        seq!["GITHUB_ENTERPRISE_TOKEN"@, "GH_ENTERPRISE_TOKEN"@]
    };
    own + enterprise + seq!["GITHUB_TOKEN"@, "GH_TOKEN"@]
}

pub fn token_variables(host: &str) -> (r: Vec<String>)
    ensures
        pieces::texts(r@) == token_keys(host@),
{
    let suffix = host_env_suffix(host);
    let mut r: Vec<String> = Vec::new();
    let mut a = "GITHUB_TOKEN_".to_owned();
    a.append(suffix.as_str());
    r.push(a);
    let mut b = "GH_TOKEN_".to_owned();
    b.append(suffix.as_str());
    r.push(b);
    let hc = chars_of(host);
    let gc = chars_of("github.com");
    if !(lower_ascii(hc.as_slice()) == lower_ascii(gc.as_slice())) {
        r.push("GITHUB_ENTERPRISE_TOKEN".to_owned());
        r.push("GH_ENTERPRISE_TOKEN".to_owned());
    }
    r.push("GITHUB_TOKEN".to_owned());
    r.push("GH_TOKEN".to_owned());
    assert(pieces::texts(r@) =~= token_keys(host@));
    r
}

/// The value of a variable among those that are set.
pub open spec fn env_value(env: Seq<(String, String)>, key: Seq<char>) -> Option<Seq<char>>
    decreases env.len(),
{
    if env.len() == 0 {
        None
    } else if env[0].0@ == key {
        Some(env[0].1@)
    } else {
        env_value(env.drop_first(), key)
    }
}

fn lookup(env: &Vec<(String, String)>, key: &str) -> (r: Option<String>)
    ensures
        pieces::opt_text(r) == env_value(env@, key@),
{
    let mut i: usize = 0;
    assert(env@.skip(0) =~= env@);
    while i < env.len()
        invariant
            i <= env@.len(),
            env_value(env@, key@) == env_value(env@.skip(i as int), key@),
        decreases env.len() - i,
    {
        assert(env@.skip(i as int).drop_first() =~= env@.skip(i + 1));
        if same_text(env[i].0.as_str(), key) {
            return Some(env[i].1.clone());
        }
        i = i + 1;
    }
    None
}

/// The value of the first of the variables that is set to more than white space.
pub open spec fn first_token(env: Seq<(String, String)>, keys: Seq<Seq<char>>) -> Option<Seq<char>>
    decreases keys.len(),
{
    if keys.len() == 0 {
        None
    } else {
        match env_value(env, keys[0]) {
            Some(v) if text::trim(v, CharClass::Space).len() > 0 => Some(v),
            _ => first_token(env, keys.drop_first()),
        }
    }
}

/// The token for a host among the variables of the environment.
pub fn github_token_for_host(host: &str, env: &Vec<(String, String)>) -> (r: Option<String>)
    ensures
        pieces::opt_text(r) == first_token(env@, token_keys(host@)),
{
    let keys = token_variables(host);
    let mut i: usize = 0;
    let ghost all = token_keys(host@);
    assert(all.skip(0) =~= all);
    while i < keys.len()
        invariant
            i <= keys@.len(),
            all == token_keys(host@),
            pieces::texts(keys@) == all,
            first_token(env@, all) == first_token(env@, all.skip(i as int)),
        decreases keys.len() - i,
    {
        assert(all.skip(i as int).drop_first() =~= all.skip(i + 1));
        assert(all.skip(i as int)[0] == keys@[i as int]@);
        match lookup(env, keys[i].as_str()) {
            Some(v) => {
                let vc = chars_of(v.as_str());
                if trim_class(vc.as_slice(), CharClass::Space).len() > 0 {
                    return Some(v);
                }
            },
            None => {},
        }
        i = i + 1;
    }
    None
}

/// The token for `github.com`.
pub fn github_token(env: &Vec<(String, String)>) -> (r: Option<String>)
    ensures
        pieces::opt_text(r) == first_token(env@, token_keys("github.com"@)),
{
    github_token_for_host("github.com", env)
}

// ---------------------------------------------------------------------------
// Package names
// ---------------------------------------------------------------------------

/// A character of a package name: a small letter or a digit, `-` for anything else.
pub open spec fn name_char(c: char) -> char {
    if text::is_ascii_alnum(c) {
        text::ascii_lower(c)
    } else {
        '-'
    }
}

/// A text with one `-` in place of every run of them.
pub open spec fn single_dashes(s: Seq<char>) -> Seq<char>
    decreases s.len(),
{
    if s.len() == 0 {
        s
    } else {
        let head = single_dashes(s.drop_last());
        if s.len() > 1 && s.last() == '-' && s[s.len() - 2] == '-' {
            head
        } else {
            head.push(s.last())
        }
    }
}

/// The package name that a repository's name gives.
pub open spec fn bundle_name(s: Seq<char>) -> Seq<char> {
    let t = single_dashes(
        text::trim(s.map_values(|c: char| name_char(c)), CharClass::Is('-')),
    );
    if t.len() < 2 {
        t + "00"@
    } else {
        t
    }
}

/// Turn any repository name into a package name.
pub fn sanitize_bundle_name(s: &str) -> (r: String)
    ensures
        r@ == bundle_name(s@),
{
    let cs = chars_of(s);
    let mut mapped: Vec<char> = Vec::new();
    let mut i: usize = 0;
    while i < cs.len()
        invariant
            i <= cs@.len(),
            mapped@ == cs@.take(i as int).map_values(|c: char| name_char(c)),
        decreases cs.len() - i,
    {
        let c = cs[i];
        let d = if ('A' <= c && c <= 'Z') || ('a' <= c && c <= 'z') || ('0' <= c && c <= '9') {
            to_ascii_lower(c)
        } else {
            '-'
        };
        mapped.push(d);
        i = i + 1;
        assert(mapped@ =~= cs@.take(i as int).map_values(|c: char| name_char(c)));
    }
    assert(cs@.take(cs@.len() as int) =~= cs@);
    let body = trim_class(mapped.as_slice(), CharClass::Is('-'));
    let mut r = String::new();
    let mut n: usize = 0;
    let mut j: usize = 0;
    while j < body.len()
        invariant
            j <= body@.len(),
            n == r@.len(),
            n <= j,
            r@ == single_dashes(body@.take(j as int)),
        decreases body.len() - j,
    {
        assert(body@.take(j + 1).drop_last() =~= body@.take(j as int));
        if !(j > 0 && body[j] == '-' && body[j - 1] == '-') {
            r.push(body[j]);
            n = n + 1;
        }
        j = j + 1;
    }
    assert(body@.take(body@.len() as int) =~= body@);
    if n < 2 {
        r.append("00");
    }
    r
}

/// A well-formed package name: two characters or more, small letters, digits and
/// single dashes, with no dash at either end.
pub open spec fn well_formed_name(t: Seq<char>) -> bool {
    &&& t.len() >= 2
    &&& t[0] != '-'
    &&& t.last() != '-'
    &&& forall|i: int|
        0 <= i < t.len() ==> text::is_ascii_lower(#[trigger] t[i]) || text::is_ascii_digit(t[i])
            || t[i] == '-'
    &&& forall|i: int| 0 < i < t.len() && #[trigger] t[i] == '-' ==> t[i - 1] != '-'
}

proof fn lemma_single_dashes(s: Seq<char>)
    requires
        s.len() > 0,
    ensures
        single_dashes(s).len() > 0,
        single_dashes(s).len() <= s.len(),
        single_dashes(s)[0] == s[0],
        single_dashes(s).last() == s.last(),
        forall|i: int| 0 <= i < single_dashes(s).len() ==> s.contains(#[trigger] single_dashes(s)[i]),
        forall|i: int|
            0 < i < single_dashes(s).len() && #[trigger] single_dashes(s)[i] == '-'
                ==> single_dashes(s)[i - 1] != '-',
    decreases s.len(),
{
    let init = s.drop_last();
    let d = single_dashes(s);
    if s.len() == 1 {
        assert(single_dashes(init).len() == 0);
        assert(d =~= s);
        assert(s.contains(s[0]));
    } else {
        lemma_single_dashes(init);
        let h = single_dashes(init);
        assert forall|i: int| 0 <= i < d.len() implies s.contains(#[trigger] d[i]) by {
            if i < h.len() {
                assert(d[i] == h[i]);
                let j = choose|j: int| 0 <= j < init.len() && init[j] == h[i];
                assert(s[j] == init[j]);
            } else {
                assert(d[i] == s[s.len() - 1]);
            }
        }
        assert(init.last() == s[s.len() - 2]);
        assert forall|i: int| 0 < i < d.len() && #[trigger] d[i] == '-' implies d[i - 1] != '-' by {
            if i < h.len() {
                assert(d[i] == h[i]);
                assert(d[i - 1] == h[i - 1]);
            } else {
                assert(d[i - 1] == h.last());
            }
        }
    }
}

proof fn lemma_single_dashes_keeps(s: Seq<char>)
    requires
        forall|i: int| 0 < i < s.len() && #[trigger] s[i] == '-' ==> s[i - 1] != '-',
    ensures
        single_dashes(s) == s,
    decreases s.len(),
{
    if s.len() > 0 {
        let init = s.drop_last();
        assert forall|i: int| 0 < i < init.len() && #[trigger] init[i] == '-' implies init[i - 1]
            != '-' by {
            assert(s[i] == init[i]);
        }
        lemma_single_dashes_keeps(init);
        assert(s[s.len() - 1] == s.last());
        assert(init.push(s.last()) =~= s);
    }
}

/// A trimmed text has nothing of the class at its ends, and holds only what it held.
pub proof fn lemma_trim(s: Seq<char>, k: CharClass)
    ensures
        text::trim(s, k).len() > 0 ==> !text::in_class(k, text::trim(s, k)[0]) && !text::in_class(
            k,
            text::trim(s, k).last(),
        ),
        forall|i: int|
            0 <= i < text::trim(s, k).len() ==> s.contains(#[trigger] text::trim(s, k)[i]),
{
    lemma_trim_start_ends(s, k);
    lemma_trim_end_ends(text::trim_start(s, k), k);
    let a = text::trim_start(s, k);
    let b = text::trim_end(a, k);
    assert forall|i: int| 0 <= i < b.len() implies s.contains(#[trigger] b[i]) by {
        let j = choose|j: int| 0 <= j < a.len() && a[j] == b[i];
        assert(s.contains(a[j]));
    }
}

proof fn lemma_trim_start_ends(s: Seq<char>, k: CharClass)
    ensures
        text::trim_start(s, k).len() > 0 ==> !text::in_class(k, text::trim_start(s, k)[0]),
        forall|i: int|
            0 <= i < text::trim_start(s, k).len() ==> s.contains(
                #[trigger] text::trim_start(s, k)[i],
            ),
    decreases s.len(),
{
    if s.len() > 0 && text::in_class(k, s[0]) {
        let t = s.drop_first();
        lemma_trim_start_ends(t, k);
        let r = text::trim_start(t, k);
        assert forall|i: int| 0 <= i < r.len() implies s.contains(#[trigger] r[i]) by {
            let j = choose|j: int| 0 <= j < t.len() && t[j] == r[i];
            assert(s[j + 1] == t[j]);
        }
    }
}

proof fn lemma_trim_end_ends(s: Seq<char>, k: CharClass)
    ensures
        text::trim_end(s, k).len() > 0 ==> !text::in_class(k, text::trim_end(s, k).last())
            && text::trim_end(s, k)[0] == s[0],
        forall|i: int|
            0 <= i < text::trim_end(s, k).len() ==> s.contains(#[trigger] text::trim_end(s, k)[i]),
    decreases s.len(),
{
    if s.len() > 0 && text::in_class(k, s.last()) {
        let t = s.drop_last();
        lemma_trim_end_ends(t, k);
        let r = text::trim_end(t, k);
        assert forall|i: int| 0 <= i < r.len() implies s.contains(#[trigger] r[i]) by {
            let j = choose|j: int| 0 <= j < t.len() && t[j] == r[i];
            assert(s[j] == t[j]);
        }
    }
}

/// Every repository name becomes a well-formed package name.
pub proof fn sanitized_names_are_well_formed(s: Seq<char>)
    ensures
        well_formed_name(bundle_name(s)),
{
    let m = s.map_values(|c: char| name_char(c));
    let t = text::trim(m, CharClass::Is('-'));
    lemma_trim(m, CharClass::Is('-'));
    let d = single_dashes(t);
    assert forall|i: int| 0 <= i < m.len() implies text::is_ascii_lower(#[trigger] m[i])
        || text::is_ascii_digit(m[i]) || m[i] == '-' by {
        assert(m[i] == name_char(s[i]));
    }
    reveal_strlit("00");
    if t.len() > 0 {
        lemma_single_dashes(t);
    } else {
        assert(d.len() == 0);
    }
    let r = bundle_name(s);
    assert forall|i: int| 0 <= i < r.len() implies text::is_ascii_lower(#[trigger] r[i])
        || text::is_ascii_digit(r[i]) || r[i] == '-' by {
        if i < d.len() {
            assert(r[i] == d[i]);
            assert(t.contains(d[i]));
            let j = choose|j: int| 0 <= j < t.len() && t[j] == d[i];
            assert(m.contains(t[j]));
            let x = choose|x: int| 0 <= x < m.len() && m[x] == t[j];
            assert(m[x] == r[i]);
        }
    }
    assert forall|i: int| 0 < i < r.len() && #[trigger] r[i] == '-' implies r[i - 1] != '-' by {
        if i < d.len() {
            assert(d[i] == r[i]);
            assert(d[i - 1] == r[i - 1]);
        }
    }
}

/// A well-formed package name stays as it is.
pub proof fn well_formed_names_are_kept(t: Seq<char>)
    requires
        well_formed_name(t),
    ensures
        bundle_name(t) == t,
{
    let m = t.map_values(|c: char| name_char(c));
    assert forall|i: int| 0 <= i < t.len() implies #[trigger] m[i] == t[i] by {
        assert(text::is_ascii_lower(t[i]) || text::is_ascii_digit(t[i]) || t[i] == '-');
    }
    assert(m =~= t);
    text::lemma_trim_start(t, CharClass::Is('-'), 0);
    assert(t.skip(0) =~= t);
    text::lemma_trim_end(t, CharClass::Is('-'), t.len() as int);
    assert(t.take(t.len() as int) =~= t);
    lemma_single_dashes_keeps(t);
}

/// Sanitizing a name twice gives what sanitizing it once gives.
pub proof fn sanitizing_is_idempotent(s: Seq<char>)
    ensures
        bundle_name(bundle_name(s)) == bundle_name(s),
{
    sanitized_names_are_well_formed(s);
    well_formed_names_are_kept(bundle_name(s));
}

/// A text that is cut at a character is put together again from what stands before the first
/// such character and what stands behind it.
pub proof fn cut_texts_are_whole(s: Seq<char>, c: char)
    ensures
        forall|i: int| 0 <= i < before(s, c).len() ==> #[trigger] before(s, c)[i] != c,
        match after(s, c) {
            Some(t) => s == before(s, c) + seq![c] + t,
            None => s == before(s, c),
        },
{
    let k = CharClass::Is(c);
    text::lemma_find_bounds(s, k);
    let n = text::find(s, k);
    assert forall|i: int| 0 <= i < before(s, c).len() implies #[trigger] before(s, c)[i] != c by {
        assert(!text::in_class(k, s[i]));
    }
    if n < s.len() {
        assert(s =~= s.take(n) + seq![c] + s.skip(n + 1));
    } else {
        assert(s.take(n) =~= s);
    }
}

/// Two texts with a character between them are cut apart there, where the first does not
/// have the character.
pub proof fn joined_texts_are_cut(a: Seq<char>, c: char, b: Seq<char>)
    requires
        forall|i: int| 0 <= i < a.len() ==> #[trigger] a[i] != c,
    ensures
        before(a + seq![c] + b, c) == a,
        after(a + seq![c] + b, c) == Some(b),
{
    let k = CharClass::Is(c);
    let s = a + seq![c] + b;
    assert forall|j: int| 0 <= j < a.len() implies !text::in_class(k, #[trigger] s[j]) by {
        assert(s[j] == a[j]);
    }
    assert(s[a.len() as int] == c);
    text::lemma_find(s, k, a.len() as int);
    assert(s.take(a.len() as int) =~= a);
    assert(s.skip(a.len() as int + 1) =~= b);
}

// ---------------------------------------------------------------------------
// What a source says
// ---------------------------------------------------------------------------

/// A name of ASCII letters, digits, `-`, `_` and `.` that is no step of a path.
pub open spec fn plain_name(s: Seq<char>) -> bool {
    s.len() > 0 && s != "."@ && s != ".."@ && forall|i: int|
        0 <= i < s.len() ==> ('a' <= #[trigger] s[i] <= 'z' || 'A' <= s[i] <= 'Z' || '0' <= s[i]
            <= '9' || s[i] == '-' || s[i] == '_' || s[i] == '.')
}

/// How a source is written in short.
pub open spec fn shorthand_text(
    owner: Seq<char>,
    repo: Seq<char>,
    dot_git: bool,
    git_ref: Option<Seq<char>>,
    subdir: Option<Seq<char>>,
) -> Seq<char> {
    let path = owner + seq!['/'] + (if dot_git {
        repo + ".git"@
    } else {
        repo
    });
    let body = match git_ref {
        Some(r) => path + seq!['@'] + r,
        None => path,
    };
    match subdir {
        Some(d) => body + seq!['#'] + d,
        None => body,
    }
}

proof fn lemma_uncut(s: Seq<char>, c: char)
    requires
        forall|i: int| 0 <= i < s.len() ==> #[trigger] s[i] != c,
    ensures
        before(s, c) == s,
        after(s, c) is None,
{
    text::lemma_find(s, CharClass::Is(c), s.len() as int);
    assert(s.take(s.len() as int) =~= s);
}

proof fn lemma_dot_git(s: Seq<char>)
    ensures
        text::without_suffix(s + ".git"@, ".git"@) == s,
{
    let t = s + ".git"@;
    assert(t.subrange(t.len() - ".git"@.len(), t.len() as int) =~= ".git"@);
    assert(t.take(s.len() as int) =~= s);
}

/// A source that is written in short is read back: the owner, the repository, with `.git`
/// behind it or without, the reference and the subdirectory.
pub proof fn written_sources_are_read_back(
    owner: Seq<char>,
    repo: Seq<char>,
    dot_git: bool,
    git_ref: Option<Seq<char>>,
    subdir: Option<Seq<char>>,
)
    requires
        plain_name(owner),
        plain_name(repo),
        !text::ends_with(repo, ".git"@),
        git_ref matches Some(r) ==> !r.contains('#'),
    ensures
        shorthand(shorthand_text(owner, repo, dot_git, git_ref, subdir)) == Some(
            SourceView { host: "github.com"@, owner, repo, git_ref, subdir },
        ),
{
    reveal_strlit(".git");
    let tail = if dot_git {
        repo + ".git"@
    } else {
        repo
    };
    let path = owner + seq!['/'] + tail;
    let body = match git_ref {
        Some(r) => path + seq!['@'] + r,
        None => path,
    };
    let s = shorthand_text(owner, repo, dot_git, git_ref, subdir);
    assert forall|i: int| 0 <= i < path.len() implies #[trigger] path[i] != '#' && path[i] != '@' by {
        if i < owner.len() {
            assert(path[i] == owner[i]);
        } else if i > owner.len() && i - owner.len() - 1 < repo.len() {
            assert(path[i] == repo[i - owner.len() - 1]);
        }
    }
    assert forall|i: int| 0 <= i < body.len() implies #[trigger] body[i] != '#' by {
        if i < path.len() {
            assert(body[i] == path[i]);
        } else if i > path.len() {
            let r = git_ref->0;
            assert(body[i] == r[i - path.len() - 1]);
            assert(r.contains(r[i - path.len() - 1]));
        }
    }
    match subdir {
        Some(d) => joined_texts_are_cut(body, '#', d),
        None => lemma_uncut(s, '#'),
    }
    match git_ref {
        Some(r) => joined_texts_are_cut(path, '@', r),
        None => lemma_uncut(path, '@'),
    }
    joined_texts_are_cut(owner, '/', tail);
    lemma_dot_git(repo);
    assert forall|i: int| 0 <= i < owner.len() implies ident_char(#[trigger] owner[i]) by {}
    assert forall|i: int| 0 <= i < repo.len() implies ident_char(#[trigger] repo[i]) by {}
}

/// A text that spells a source, with white space around it or without, is that source.
pub proof fn spelled_sources_are_sources(
    spec: Seq<char>,
    owner: Seq<char>,
    repo: Seq<char>,
    dot_git: bool,
    git_ref: Option<Seq<char>>,
    subdir: Option<Seq<char>>,
)
    requires
        plain_name(owner),
        !owner.contains('.'),
        plain_name(repo),
        !text::ends_with(repo, ".git"@),
        git_ref matches Some(r) ==> !r.contains('#'),
        text::trim(spec, CharClass::Space) == shorthand_text(owner, repo, dot_git, git_ref, subdir),
        !text::has_text(text::trim(spec, CharClass::Space), "://"@),
    ensures
        github_source(spec) == Some(
            SourceView { host: "github.com"@, owner, repo, git_ref, subdir },
        ),
{
    written_sources_are_read_back(owner, repo, dot_git, git_ref, subdir);
    let s = text::trim(spec, CharClass::Space);
    let rest = s.skip(owner.len() as int + 1);
    assert(s =~= owner + seq!['/'] + rest);
    assert forall|i: int| 0 <= i < owner.len() implies #[trigger] owner[i] != '/' && (
    text::char_is_alnum(owner[i]) || owner[i] == '-' || owner[i] == '_') by {
        assert(owner.contains(owner[i]));
    }
    joined_texts_are_cut(owner, '/', rest);
    reveal_strlit("https://");
    reveal_strlit("http://");
    reveal_strlit("://");
    if text::starts_with(s, "https://"@) {
        assert("https://"@[5] == ':' && "https://"@[6] == '/' && "https://"@[7] == '/');
        assert(s[5] == ':' && s[6] == '/' && s[7] == '/');
        assert(s.subrange(5, 8) =~= "://"@);
        assert(text::occurs_at(s, "://"@, 5));
    }
    if text::starts_with(s, "http://"@) {
        assert("http://"@[4] == ':' && "http://"@[5] == '/' && "http://"@[6] == '/');
        assert(s[4] == ':' && s[5] == '/' && s[6] == '/');
        assert(s.subrange(4, 7) =~= "://"@);
        assert(text::occurs_at(s, "://"@, 4));
    }
}

/// GitHub itself is a host of GitHub, and so is every host whose name begins with `github.`
/// or has `.github.` inside.
pub proof fn enterprise_hosts_are_hosts(a: Seq<char>, b: Seq<char>)
    ensures
        github_host("github.com"@),
        github_host("github."@ + b),
        github_host(a + ".github."@ + b),
{
    reveal_strlit("github.");
    let s = "github."@ + b;
    assert(s.subrange(0, "github."@.len() as int) =~= "github."@);
    let t = a + ".github."@ + b;
    assert(t.subrange(a.len() as int, a.len() + ".github."@.len() as int) =~= ".github."@);
    assert(text::occurs_at(t, ".github."@, a.len() as int));
}

/// The URL of a repository names the repository, with `.git` behind it or without; a `tree`
/// or the tag of a release in it is the reference, and so is what stands behind an `@`. The
/// fragment is the subdirectory.
pub proof fn urls_name_their_repository(
    u: UrlView,
    host: Seq<char>,
    owner: Seq<char>,
    repo: Seq<char>,
    git_ref: Seq<char>,
)
    requires
        u.host == Some(host),
        github_host(pieces::ascii_lowered(host)),
        plain_name(owner),
        plain_name(repo),
        !git_ref.contains('@'),
        !text::ends_with(u.path, ".git"@) || u.path == seq!['/'] + owner + seq!['/'] + repo
            + ".git"@,
        !text::ends_with(repo, ".git"@),
        !u.rendered.contains('@'),
    ensures
        ({
            let base = seq!['/'] + owner + seq!['/'] + repo;
            let said = SourceView {
                host: pieces::ascii_lowered(host),
                owner,
                repo,
                git_ref: None,
                subdir: u.fragment,
            };
            &&& u.path == base || u.path == base + ".git"@ ==> url_source(u) == Some(said)
            &&& u.path == base + "/tree/"@ + git_ref ==> url_source(u) == Some(
                SourceView { git_ref: Some(git_ref), ..said },
            )
            &&& u.path == base + "/releases/tag/"@ + git_ref ==> url_source(u) == Some(
                SourceView { git_ref: Some(git_ref), ..said },
            )
        }),
{
    let base = seq!['/'] + owner + seq!['/'] + repo;
    let plain = owner + seq!['/'] + repo;
    reveal_strlit(".git");
    reveal_strlit("/tree/");
    reveal_strlit("tree");
    reveal_strlit("/releases/tag/");
    reveal_strlit("releases");
    reveal_strlit("tag/");
    let k = CharClass::Is('/');
    if u.path == base || u.path == base + ".git"@ || u.path == base + "/tree/"@ + git_ref || u.path
        == base + "/releases/tag/"@ + git_ref {
        assert(u.path[0] == '/');
        assert(u.path[1] == owner[0]);
        assert(u.path.len() > 1);
        text::lemma_trim_start(u.path, k, 1);
        let full = u.path.skip(1);
        assert forall|i: int| 0 <= i < u.path.len() implies #[trigger] u.path[i] != '@' by {
            if 1 <= i < 1 + owner.len() {
                assert(u.path[i] == owner[i - 1]);
            } else if 1 + owner.len() < i < 2 + owner.len() + repo.len() {
                assert(u.path[i] == repo[i - 2 - owner.len()]);
            } else if i >= base.len() {
                let behind = u.path.skip(base.len() as int);
                assert(behind[i - base.len()] == u.path[i]);
                if u.path == base + "/tree/"@ + git_ref {
                    assert(behind =~= "/tree/"@ + git_ref);
                    if i - base.len() >= 6 {
                        assert(git_ref.contains(git_ref[i - base.len() - 6]));
                    }
                } else if u.path == base + "/releases/tag/"@ + git_ref {
                    assert(behind =~= "/releases/tag/"@ + git_ref);
                    if i - base.len() >= 14 {
                        assert(git_ref.contains(git_ref[i - base.len() - 14]));
                    }
                } else if u.path == base + ".git"@ {
                    assert(behind =~= ".git"@);
                }
            }
        }
        assert forall|i: int| 0 <= i < full.len() implies #[trigger] full[i] != '@' by {
            assert(full[i] == u.path[i + 1]);
        }
        lemma_uncut(full, '@');
        assert forall|i: int| 0 <= i < u.rendered.len() implies #[trigger] u.rendered[i] != '@' by {
            assert(u.rendered.contains(u.rendered[i]));
        }
        lemma_uncut(u.rendered, '@');
        assert forall|i: int| 0 <= i < owner.len() implies ident_char(#[trigger] owner[i])
            && owner[i] != '/' by {}
        assert forall|i: int| 0 <= i < repo.len() implies ident_char(#[trigger] repo[i]) && repo[i]
            != '/' by {}
        if text::ends_with(full, ".git"@) {
            assert(u.path.subrange(u.path.len() - 4, u.path.len() as int) =~= full.subrange(
                full.len() - 4,
                full.len() as int,
            ));
            assert(text::ends_with(u.path, ".git"@));
        }
        let rest = text::without_suffix(full, ".git"@);
        let tail = rest.skip(owner.len() as int + 1);
        if u.path == base + ".git"@ {
            assert(full =~= plain + ".git"@);
            lemma_dot_git(plain);
        } else {
            assert(rest == full);
        }
        assert(rest =~= owner + seq!['/'] + tail);
        joined_texts_are_cut(owner, '/', tail);
        if u.path == base || u.path == base + ".git"@ {
            assert(tail =~= repo);
            lemma_uncut(repo, '/');
        } else if u.path == base + "/tree/"@ + git_ref {
            let last = "tree"@ + seq!['/'] + git_ref;
            assert(tail =~= repo + seq!['/'] + last);
            joined_texts_are_cut(repo, '/', last);
            joined_texts_are_cut("tree"@, '/', git_ref);
        } else {
            let tag = "tag/"@ + git_ref;
            let last = "releases"@ + seq!['/'] + tag;
            assert(tail =~= repo + seq!['/'] + last);
            joined_texts_are_cut(repo, '/', last);
            joined_texts_are_cut("releases"@, '/', tag);
            assert("tree"@.len() != "releases"@.len());
            assert(tag.subrange(0, 4) =~= "tag/"@);
            assert(tag.skip(4) =~= git_ref);
        }
    }
}

proof fn lemma_narrow(s: Seq<char>, n: nat)
    requires
        n <= s.len(),
        forall|j: int| 0 <= j < n ==> (#[trigger] s[j] as u32) < 0x80,
    ensures
        pieces::byte_len(s.take(n as int)) == n,
    decreases n,
{
    let t = s.take(n as int);
    if n > 0 {
        lemma_narrow(s, (n - 1) as nat);
        assert(t.drop_last() =~= s.take(n - 1));
        assert(t.last() == s[n - 1]);
    }
}

/// The version of a tag is the tag, without a `v` in front. Only where the reference is a
/// commit itself is the version the beginning of the commit.
pub proof fn tags_are_versions(git_ref: Seq<char>, sha: Seq<char>, i: int)
    ensures
        ref_version(seq!['v'] + git_ref, sha) == git_ref,
        git_ref.len() > 0 && git_ref[0] != 'v' && git_ref.len() < 40 ==> ref_version(git_ref, sha)
            == git_ref,
        0 <= i < git_ref.len() && git_ref[0] != 'v' && 'g' <= git_ref[i] <= 'z' ==> ref_version(
            git_ref,
            sha,
        ) == git_ref,
        is_commit_ref(git_ref) && sha.len() >= 12 && (forall|j: int|
            0 <= j < 12 ==> (#[trigger] sha[j] as u32) < 0x80) ==> ref_version(git_ref, sha)
            == sha.take(12),
{
    let v = seq!['v'] + git_ref;
    assert(v[0] == 'v');
    assert(v.skip(1) =~= git_ref);
    if is_commit_ref(v) {
        assert(text::is_ascii_hex(v[0]));
    }
    if is_commit_ref(git_ref) && sha.len() >= 12 && (forall|j: int|
        0 <= j < 12 ==> (#[trigger] sha[j] as u32) < 0x80) {
        lemma_narrow(sha, 12);
        pieces::lemma_byte_prefix(sha, 12, 12);
    }
}

/// Counting the files of a language goes file by file.
pub proof fn files_are_counted_one_by_one(
    a: Seq<Seq<char>>,
    b: Seq<Seq<char>>,
    e: Seq<char>,
    lang: Seq<char>,
)
    ensures
        language_count(a + b, lang) == language_count(a, lang) + language_count(b, lang),
        language_count(seq![e], lang) == (if extension_language(pieces::ascii_lowered(e)) == Some(
            lang,
        ) {
            1nat
        } else {
            0
        }),
    decreases b.len(),
{
    reveal_with_fuel(language_count, 2);
    assert(seq![e].drop_last() =~= seq![]);
    if b.len() == 0 {
        assert(a + b =~= a);
    } else {
        files_are_counted_one_by_one(a, b.drop_last(), e, lang);
        assert((a + b).drop_last() =~= a + b.drop_last());
    }
}

proof fn lemma_env_value(env: Seq<(String, String)>, key: Seq<char>, j: int)
    requires
        0 <= j < env.len(),
        env[j].0@ == key,
        forall|a: int| 0 <= a < j ==> (#[trigger] env[a]).0@ != key,
    ensures
        env_value(env, key) == Some(env[j].1@),
    decreases j,
{
    if j > 0 {
        assert(env[0].0@ != key);
        let t = env.drop_first();
        assert forall|a: int| 0 <= a < j - 1 implies (#[trigger] t[a]).0@ != key by {
            assert(t[a] == env[a + 1]);
        }
        lemma_env_value(t, key, j - 1);
    }
}

proof fn lemma_env_found(env: Seq<(String, String)>, key: Seq<char>)
    ensures
        match env_value(env, key) {
            Some(v) => exists|a: int| 0 <= a < env.len() && (#[trigger] env[a]).0@ == key && env[a].1@ == v,
            None => forall|a: int| 0 <= a < env.len() ==> (#[trigger] env[a]).0@ != key,
        },
    decreases env.len(),
{
    if env.len() > 0 && env[0].0@ != key {
        let t = env.drop_first();
        lemma_env_found(t, key);
        match env_value(t, key) {
            Some(v) => {
                let a = choose|a: int| 0 <= a < t.len() && (#[trigger] t[a]).0@ == key && t[a].1@ == v;
                assert(env[a + 1] == t[a]);
            },
            None => {
                assert forall|a: int| 0 <= a < env.len() implies (#[trigger] env[a]).0@ != key by {
                    if a > 0 {
                        assert(env[a] == t[a - 1]);
                    }
                }
            },
        }
    }
}

/// The token is the value of the first of the variables that is set to something: what a
/// later one says does not matter, nor what an earlier one says that is blank.
pub proof fn the_first_token_is_used(
    env: Seq<(String, String)>,
    keys: Seq<Seq<char>>,
    i: int,
    j: int,
)
    requires
        0 <= i < keys.len(),
        0 <= j < env.len(),
        env[j].0@ == keys[i],
        forall|a: int| 0 <= a < j ==> (#[trigger] env[a]).0@ != keys[i],
        text::trim(env[j].1@, CharClass::Space).len() > 0,
        forall|a: int, b: int|
            0 <= a < env.len() && 0 <= b < i && (#[trigger] env[a]).0@ == #[trigger] keys[b]
                ==> text::trim(env[a].1@, CharClass::Space).len() == 0,
    ensures
        first_token(env, keys) == Some(env[j].1@),
    decreases i,
{
    if i == 0 {
        lemma_env_value(env, keys[0], j);
    } else {
        lemma_env_found(env, keys[0]);
        let t = keys.drop_first();
        assert forall|a: int, b: int|
            0 <= a < env.len() && 0 <= b < i - 1 && (#[trigger] env[a]).0@ == #[trigger] t[b]
            implies text::trim(env[a].1@, CharClass::Space).len() == 0 by {
            assert(t[b] == keys[b + 1]);
        }
        assert(t[i - 1] == keys[i]);
        the_first_token_is_used(env, t, i - 1, j);
    }
}

/// Without a variable that is set to something there is no token.
pub proof fn no_variable_gives_no_token(env: Seq<(String, String)>, keys: Seq<Seq<char>>)
    requires
        forall|a: int, b: int|
            0 <= a < env.len() && 0 <= b < keys.len() && (#[trigger] env[a]).0@
                == #[trigger] keys[b] ==> text::trim(env[a].1@, CharClass::Space).len() == 0,
    ensures
        first_token(env, keys) is None,
    decreases keys.len(),
{
    if keys.len() > 0 {
        lemma_env_found(env, keys[0]);
        let t = keys.drop_first();
        assert forall|a: int, b: int|
            0 <= a < env.len() && 0 <= b < t.len() && (#[trigger] env[a]).0@ == #[trigger] t[b]
            implies text::trim(env[a].1@, CharClass::Space).len() == 0 by {
            assert(t[b] == keys[b + 1]);
        }
        no_variable_gives_no_token(env, t);
    }
}

/// The variable of a host is looked at before those of any host, and the variables of an
/// enterprise host are not looked at for GitHub itself.
pub proof fn the_token_of_a_host_comes_first(host: Seq<char>)
    ensures
        token_keys(host)[0] == "GITHUB_TOKEN_"@ + env_suffix(host),
        token_keys(host)[1] == "GH_TOKEN_"@ + env_suffix(host),
        token_keys(host)[token_keys(host).len() - 2] == "GITHUB_TOKEN"@,
        token_keys(host).last() == "GH_TOKEN"@,
        host == "github.com"@ ==> token_keys(host).len() == 4,
        token_keys(host).len() == 6 ==> token_keys(host)[2] == "GITHUB_ENTERPRISE_TOKEN"@
            && token_keys(host)[3] == "GH_ENTERPRISE_TOKEN"@,
        host.len() != 10 ==> token_keys(host).len() == 6,
        env_suffix(host).len() == host.len(),
        forall|i: int|
            0 <= i < host.len() ==> {
                let c = #[trigger] env_suffix(host)[i];
                &&& 'A' <= host[i] <= 'Z' || '0' <= host[i] <= '9' ==> c == host[i]
                &&& 'a' <= host[i] <= 'z' ==> c as u32 == host[i] as u32 - 32
                &&& host[i] == '.' || host[i] == '-' ==> c == '_'
            },
{
    reveal_strlit("github.com");
    assert(pieces::ascii_lowered(host).len() == host.len());
    assert(pieces::ascii_lowered("github.com"@).len() == 10);
}

/// What stands behind an `@` in the path of a URL is the reference.
pub proof fn urls_may_name_their_reference(
    u: UrlView,
    host: Seq<char>,
    owner: Seq<char>,
    repo: Seq<char>,
    git_ref: Seq<char>,
)
    requires
        u.host == Some(host),
        github_host(pieces::ascii_lowered(host)),
        plain_name(owner),
        plain_name(repo),
        !text::ends_with(owner + seq!['/'] + repo, ".git"@),
        u.path == seq!['/'] + owner + seq!['/'] + repo + seq!['@'] + git_ref,
    ensures
        url_source(u) == Some(
            SourceView {
                host: pieces::ascii_lowered(host),
                owner,
                repo,
                git_ref: Some(git_ref),
                subdir: u.fragment,
            },
        ),
{
    let plain = owner + seq!['/'] + repo;
    let k = CharClass::Is('/');
    assert(u.path[0] == '/');
    assert(u.path[1] == owner[0]);
    text::lemma_trim_start(u.path, k, 1);
    let full = u.path.skip(1);
    assert(full =~= plain + seq!['@'] + git_ref);
    assert forall|i: int| 0 <= i < plain.len() implies #[trigger] plain[i] != '@' by {
        if i < owner.len() {
            assert(plain[i] == owner[i]);
        } else if i > owner.len() {
            assert(plain[i] == repo[i - owner.len() - 1]);
        }
    }
    joined_texts_are_cut(plain, '@', git_ref);
    assert forall|i: int| 0 <= i < owner.len() implies ident_char(#[trigger] owner[i]) && owner[i]
        != '/' by {}
    assert forall|i: int| 0 <= i < repo.len() implies ident_char(#[trigger] repo[i]) && repo[i]
        != '/' by {}
    joined_texts_are_cut(owner, '/', repo);
    lemma_uncut(repo, '/');
}

/// A commit is read whatever the case of its letters, and comes out in small letters.
pub proof fn commits_are_read_in_any_case(body: Seq<char>, i: int)
    requires
        body.len() == 40,
        forall|j: int|
            0 <= j < 40 ==> ('0' <= #[trigger] body[j] <= '9' || 'a' <= body[j] <= 'f' || 'A'
                <= body[j] <= 'F'),
        0 <= i < 40,
    ensures
        body_sha(body) is Some,
        body_sha(body)->0.len() == 40,
        'A' <= body[i] <= 'F' ==> body_sha(body)->0[i] as u32 == body[i] as u32 + 32,
        !('A' <= body[i] <= 'F') ==> body_sha(body)->0[i] == body[i],
{
    let k = CharClass::Space;
    assert(!text::char_is_space(body[0]) && !text::char_is_space(body[39]));
    text::lemma_trim_start(body, k, 0);
    assert(body.skip(0) =~= body);
    text::lemma_trim_end(body, k, 40);
    assert(body.take(40) =~= body);
    assert forall|j: int| 0 <= j < body.len() implies (#[trigger] body[j] as u32) < 0x80 by {}
    let s = pieces::ascii_lowered(body);
    assert forall|j: int| 0 <= j < s.len() implies text::is_ascii_hex(#[trigger] s[j]) by {
        assert('0' <= body[j] <= '9' || 'a' <= body[j] <= 'f' || 'A' <= body[j] <= 'F');
    }
}

/// Every language has its extensions.
pub proof fn every_language_has_its_extensions()
    ensures
        extension_language("py"@) == Some("python"@),
        extension_language("rs"@) == Some("rust"@),
        extension_language("cpp"@) == Some("cpp"@),
        extension_language("cc"@) == Some("cpp"@),
        extension_language("cxx"@) == Some("cpp"@),
        extension_language("h"@) == Some("cpp"@),
        extension_language("hpp"@) == Some("cpp"@),
        extension_language("c"@) == Some("c"@),
        extension_language("ts"@) == Some("typescript"@),
        extension_language("tsx"@) == Some("typescript"@),
        extension_language("js"@) == Some("javascript"@),
        extension_language("jsx"@) == Some("javascript"@),
        extension_language("go"@) == Some("go"@),
        extension_language("java"@) == Some("java"@),
        extension_language("cs"@) == Some("csharp"@),
        extension_language("rb"@) == Some("ruby"@),
        extension_language("swift"@) == Some("swift"@),
        extension_language("kt"@) == Some("kotlin"@),
        extension_language("scala"@) == Some("scala"@),
        extension_language("hs"@) == Some("haskell"@),
        extension_language("ex"@) == Some("elixir"@),
        extension_language("exs"@) == Some("elixir"@),
        extension_language("php"@) == Some("php"@),
        extension_language("lua"@) == Some("lua"@),
        extension_language("r"@) == Some("r"@),
        extension_language("jl"@) == Some("julia"@),
        extension_language("zig"@) == Some("zig"@),
        extension_language("nim"@) == Some("nim"@),
{
    reveal_strlit("py");
    reveal_strlit("rs");
    reveal_strlit("cpp");
    reveal_strlit("cc");
    reveal_strlit("cxx");
    reveal_strlit("h");
    reveal_strlit("hpp");
    reveal_strlit("c");
    reveal_strlit("ts");
    reveal_strlit("tsx");
    reveal_strlit("js");
    reveal_strlit("jsx");
    reveal_strlit("go");
    reveal_strlit("java");
    reveal_strlit("cs");
    reveal_strlit("rb");
    reveal_strlit("swift");
    reveal_strlit("kt");
    reveal_strlit("scala");
    reveal_strlit("hs");
    reveal_strlit("ex");
    reveal_strlit("exs");
    reveal_strlit("php");
    reveal_strlit("lua");
    reveal_strlit("r");
    reveal_strlit("jl");
    reveal_strlit("zig");
    reveal_strlit("nim");
    assert("py"@[0] == 'p' && "py"@[1] == 'y' && "py"@.len() == 2);
    assert("rs"@[0] == 'r' && "rs"@[1] == 's' && "rs"@.len() == 2);
    assert("cpp"@[0] == 'c' && "cpp"@[1] == 'p' && "cpp"@[2] == 'p' && "cpp"@.len() == 3);
    assert("cc"@[0] == 'c' && "cc"@[1] == 'c' && "cc"@.len() == 2);
    assert("cxx"@[0] == 'c' && "cxx"@[1] == 'x' && "cxx"@[2] == 'x' && "cxx"@.len() == 3);
    assert("h"@[0] == 'h' && "h"@.len() == 1);
    assert("hpp"@[0] == 'h' && "hpp"@[1] == 'p' && "hpp"@[2] == 'p' && "hpp"@.len() == 3);
    assert("c"@[0] == 'c' && "c"@.len() == 1);
    assert("ts"@[0] == 't' && "ts"@[1] == 's' && "ts"@.len() == 2);
    assert("tsx"@[0] == 't' && "tsx"@[1] == 's' && "tsx"@[2] == 'x' && "tsx"@.len() == 3);
    assert("js"@[0] == 'j' && "js"@[1] == 's' && "js"@.len() == 2);
    assert("jsx"@[0] == 'j' && "jsx"@[1] == 's' && "jsx"@[2] == 'x' && "jsx"@.len() == 3);
    assert("go"@[0] == 'g' && "go"@[1] == 'o' && "go"@.len() == 2);
    assert("java"@[0] == 'j' && "java"@[1] == 'a' && "java"@[2] == 'v' && "java"@[3] == 'a' && "java"@.len() == 4);
    assert("cs"@[0] == 'c' && "cs"@[1] == 's' && "cs"@.len() == 2);
    assert("rb"@[0] == 'r' && "rb"@[1] == 'b' && "rb"@.len() == 2);
    assert("swift"@[0] == 's' && "swift"@[1] == 'w' && "swift"@[2] == 'i' && "swift"@[3] == 'f' && "swift"@[4] == 't' && "swift"@.len() == 5);
    assert("kt"@[0] == 'k' && "kt"@[1] == 't' && "kt"@.len() == 2);
    assert("scala"@[0] == 's' && "scala"@[1] == 'c' && "scala"@[2] == 'a' && "scala"@[3] == 'l' && "scala"@[4] == 'a' && "scala"@.len() == 5);
    assert("hs"@[0] == 'h' && "hs"@[1] == 's' && "hs"@.len() == 2);
    assert("ex"@[0] == 'e' && "ex"@[1] == 'x' && "ex"@.len() == 2);
    assert("exs"@[0] == 'e' && "exs"@[1] == 'x' && "exs"@[2] == 's' && "exs"@.len() == 3);
    assert("php"@[0] == 'p' && "php"@[1] == 'h' && "php"@[2] == 'p' && "php"@.len() == 3);
    assert("lua"@[0] == 'l' && "lua"@[1] == 'u' && "lua"@[2] == 'a' && "lua"@.len() == 3);
    assert("r"@[0] == 'r' && "r"@.len() == 1);
    assert("jl"@[0] == 'j' && "jl"@[1] == 'l' && "jl"@.len() == 2);
    assert("zig"@[0] == 'z' && "zig"@[1] == 'i' && "zig"@[2] == 'g' && "zig"@.len() == 3);
    assert("nim"@[0] == 'n' && "nim"@[1] == 'i' && "nim"@[2] == 'm' && "nim"@.len() == 3);
}

} // verus!
