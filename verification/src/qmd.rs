//! Searching a bundle that carries a QMD index, and indexing a project with QMD.
//!
//! A search stays inside the bundle: where the index has collections, only the bundle's
//! own is searched. Indexing keeps QMD away from the user's own collections.

use vstd::prelude::*;

use crate::paths;
use crate::paths::join_path;
use crate::pieces;
use crate::pieces::join_texts;
use crate::text;
use crate::text::contains_text;

verus! {

// ---------------------------------------------------------------------------
// Paths
// ---------------------------------------------------------------------------

/// The database of a bundle's index.
pub open spec fn index_path(dir: Seq<char>) -> Seq<char> {
    paths::joined(paths::joined(paths::joined(dir, "qmd"@), "index"@), "index.sqlite"@)
}

/// The database of a bundle's index.
pub fn qmd_db_path(bundle_dir: &str) -> (r: String)
    ensures
        r@ == index_path(bundle_dir@),
{
    join_path(
        join_path(join_path(bundle_dir, "qmd").as_str(), "index").as_str(),
        "index.sqlite",
    )
}

/// What is recorded of a bundle's index.
pub fn qmd_metadata_path(bundle_dir: &str) -> (r: String)
    ensures
        r@ == paths::joined(paths::joined(bundle_dir@, "qmd"@), "metadata.json"@),
{
    join_path(join_path(bundle_dir, "qmd").as_str(), "metadata.json")
}

/// What is recorded of a bundle's index.
#[derive(Debug, Clone)]
pub struct QmdMetadata {
    pub qmd_version: Option<String>,
    pub embed_model: Option<String>,
    pub chunk_strategy: Option<String>,
    pub collection_name: Option<String>,
    pub document_count: Option<u64>,
    pub chunk_count: Option<u64>,
    pub created_at: Option<String>,
}

// ---------------------------------------------------------------------------
// Searching
// ---------------------------------------------------------------------------

/// A document that was found.
#[derive(Debug, Clone)]
pub struct SearchResult {
    pub path: String,
    pub snippet: String,
}

/// A way of searching. They are tried in this order.
#[derive(Debug, Clone, Copy, PartialEq, Eq, Structural)]
pub enum Strategy {
    /// By full text, in one collection.
    ScopedText,
    /// By full text.
    Text,
    /// By comparing contents, in one collection.
    ScopedScan,
    /// By comparing contents.
    Scan,
}

/// The query of a way of searching.
pub open spec fn statement(s: Strategy) -> Seq<char> {
    match s {
        Strategy::ScopedText => SCOPED_TEXT@,
        Strategy::Text => UNSCOPED_TEXT@,
        Strategy::ScopedScan => SCOPED_SCAN@,
        Strategy::Scan => UNSCOPED_SCAN@,
    }
}

pub const SCOPED_TEXT: &'static str = "SELECT d.path, snippet(documents_fts, -1, '**', '**', '...', 64) AS snip FROM documents AS d JOIN documents_fts ON d.rowid = documents_fts.rowid JOIN collections AS c ON d.collection_id = c.id WHERE documents_fts MATCH ?1 AND c.name = ?2 ORDER BY rank LIMIT ?3";

pub const UNSCOPED_TEXT: &'static str = "SELECT d.path, snippet(documents_fts, -1, '**', '**', '...', 64) AS snip FROM documents AS d JOIN documents_fts ON d.rowid = documents_fts.rowid WHERE documents_fts MATCH ?1 ORDER BY rank LIMIT ?2";

pub const SCOPED_SCAN: &'static str = "SELECT d.path, substr(d.content, 1, 400) AS snip FROM documents d JOIN collections c ON d.collection_id = c.id WHERE d.content LIKE ?1 AND c.name = ?2 LIMIT ?3";

pub const UNSCOPED_SCAN: &'static str = "SELECT path, substr(content, 1, 400) AS snip FROM documents WHERE content LIKE ?1 LIMIT ?2";

/// One question to a bundle's index: a query and what is bound to it. The collection is
/// bound where there is one, and the limit comes last.
#[derive(Debug, Clone)]
pub struct Question {
    pub statement: String,
    pub wanted: String,
    pub collection: Option<String>,
}

/// What a question is.
pub ghost struct QuestionView {
    pub statement: Seq<char>,
    pub wanted: Seq<char>,
    pub collection: Option<Seq<char>>,
}

impl View for Question {
    type V = QuestionView;

    open spec fn view(&self) -> QuestionView {
        QuestionView {
            statement: self.statement@,
            wanted: self.wanted@,
            collection: pieces::opt_text(self.collection),
        }
    }
}

pub open spec fn question_views(v: Seq<Question>) -> Seq<QuestionView> {
    v.map_values(|q: Question| q@)
}

/// The question that a way of searching asks: a text search is for the query, a scan for
/// contents that hold it.
pub open spec fn question(s: Strategy, query: Seq<char>, collection: Option<Seq<char>>) -> QuestionView {
    QuestionView {
        statement: statement(s),
        wanted: match s {
            Strategy::ScopedText | Strategy::Text => query,
            Strategy::ScopedScan | Strategy::Scan => "%"@ + query + "%"@,
        },
        collection: match s {
            Strategy::ScopedText | Strategy::ScopedScan => collection,
            Strategy::Text | Strategy::Scan => None,
        },
    }
}

/// The questions of a search, in the order in which they are asked until one is answered.
pub open spec fn questions(query: Seq<char>, collection: Option<Seq<char>>) -> Seq<QuestionView> {
    if collection is Some {
        seq![
            question(Strategy::ScopedText, query, collection),
            question(Strategy::Text, query, collection),
            question(Strategy::ScopedScan, query, collection),
            question(Strategy::Scan, query, collection),
        ]
    } else {
        seq![
            question(Strategy::Text, query, collection),
            question(Strategy::Scan, query, collection),
        ]
    }
}

fn ask(s: Strategy, query: &str, collection: Option<&str>) -> (r: Question)
    ensures
        r@ == question(s, query@, pieces::opt_str(collection)),
{
    let statement = match s {
        Strategy::ScopedText => SCOPED_TEXT,
        Strategy::Text => UNSCOPED_TEXT,
        Strategy::ScopedScan => SCOPED_SCAN,
        Strategy::Scan => UNSCOPED_SCAN,
    };
    let wanted = match s {
        Strategy::ScopedText | Strategy::Text => query.to_owned(),
        Strategy::ScopedScan | Strategy::Scan => {
            let mut t = "%".to_owned();
            t.append(query);
            t.append("%");
            t
        },
    };
    let bound = match s {
        Strategy::ScopedText | Strategy::ScopedScan => match collection {
            Some(c) => Some(c.to_owned()),
            None => None,
        },
        Strategy::Text | Strategy::Scan => None,
    };
    Question { statement: statement.to_owned(), wanted, collection: bound }
}

/// The questions of a search.
pub fn search_plan(query: &str, collection: Option<&str>) -> (r: Vec<Question>)
    ensures
        question_views(r@) == questions(query@, pieces::opt_str(collection)),
{
    let mut r: Vec<Question> = Vec::new();
    if collection.is_some() {
        r.push(ask(Strategy::ScopedText, query, collection));
    }
    r.push(ask(Strategy::Text, query, collection));
    if collection.is_some() {
        r.push(ask(Strategy::ScopedScan, query, collection));
    }
    r.push(ask(Strategy::Scan, query, collection));
    assert(question_views(r@) =~= questions(query@, pieces::opt_str(collection)));
    r
}

/// What a search does next.
#[derive(Debug, Clone, Copy, PartialEq, Eq, Structural)]
pub enum NextQuestion {
    /// It asks the question in this place.
    Ask(usize),
    /// It has its answer.
    Answered,
    /// Nothing is left to ask.
    Failed,
}

/// What a search does after so many of its questions, of which the last was answered or
/// not: the first answer counts, whatever it holds.
pub fn after_question(plan_len: usize, asked: usize, answered: bool) -> (r: NextQuestion)
    ensures
        r == (if asked > 0 && answered {
            NextQuestion::Answered
        } else if asked < plan_len {
            NextQuestion::Ask(asked)
        } else {
            NextQuestion::Failed
        }),
{
    if asked > 0 && answered {
        NextQuestion::Answered
    } else if asked < plan_len {
        NextQuestion::Ask(asked)
    } else {
        NextQuestion::Failed
    }
}

/// In a search of one collection the first question is about that collection alone.
pub proof fn a_collection_is_searched_first(query: Seq<char>, collection: Seq<char>)
    ensures
        ({
            let qs = questions(query, Some(collection));
            qs.len() == 4 && qs[0].collection == Some(collection) && qs[2].collection == Some(
                collection,
            )
        }),
{
}

/// A document as it is shown.
pub open spec fn shown(r: SearchResult) -> Seq<char> {
    "**"@ + r.path@ + "**\n\n"@ + r.snippet@
}

pub open spec fn all_shown(rs: Seq<SearchResult>) -> Seq<Seq<char>> {
    rs.map_values(|r: SearchResult| shown(r))
}

/// Documents as Markdown.
pub fn format_results(results: &Vec<SearchResult>, query: &str) -> (t: String)
    ensures
        t@ == (if results@.len() == 0 {
            "No results for '"@ + query@ + "'."@
        } else {
            pieces::join(all_shown(results@), "\n\n---\n\n"@)
        }),
{
    if results.len() == 0 {
        let mut t = "No results for '".to_owned();
        t.append(query);
        t.append("'.");
        return t;
    }
    let ghost want = all_shown(results@);
    let mut parts: Vec<String> = Vec::new();
    let mut i: usize = 0;
    assert(pieces::texts(parts@) =~= want.take(0));
    while i < results.len()
        invariant
            i <= results@.len(),
            want == all_shown(results@),
            pieces::texts(parts@) == want.take(i as int),
        decreases results.len() - i,
    {
        let mut t = "**".to_owned();
        t.append(results[i].path.as_str());
        t.append("**\n\n");
        t.append(results[i].snippet.as_str());
        let ghost before = pieces::texts(parts@);
        parts.push(t);
        proof {
            assert(pieces::texts(parts@) =~= before.push(want[i as int]));
            assert(want.take(i + 1) =~= want.take(i as int).push(want[i as int]));
        }
        i = i + 1;
    }
    assert(want.take(want.len() as int) =~= want);
    join_texts(&parts, "\n\n---\n\n")
}

// ---------------------------------------------------------------------------
// Indexing
// ---------------------------------------------------------------------------

/// The database of a project's own index.
pub open spec fn project_index(project: Seq<char>) -> Seq<char> {
    index_path(paths::joined(project, ".sempkg"@))
}

/// The database of a project's own index.
pub fn project_db_path(project_dir: &str) -> (r: String)
    ensures
        r@ == project_index(project_dir@),
{
    qmd_db_path(join_path(project_dir, ".sempkg").as_str())
}

/// The directory that QMD takes for the user's home while it indexes a project.
pub open spec fn private_home(project: Seq<char>) -> Seq<char> {
    paths::joined(paths::joined(project, ".sempkg"@), "qmd-home"@)
}

/// The directory that QMD takes for the user's home while it indexes a project.
pub fn isolated_home(project_dir: &str) -> (r: String)
    ensures
        r@ == private_home(project_dir@),
{
    join_path(join_path(project_dir, ".sempkg").as_str(), "qmd-home")
}

/// The variables by which QMD finds a home.
pub open spec fn home_variables() -> Seq<Seq<char>> {
    seq![
        "QMD_HOME"@,
        "QMD_DATA_DIR"@,
        "XDG_DATA_HOME"@,
        "XDG_CONFIG_HOME"@,
        "APPDATA"@,
        "LOCALAPPDATA"@,
    ]
}

/// The variables that keep QMD away from the user's own collections: each is set to the
/// project's private home.
pub fn isolation_variables() -> (r: Vec<String>)
    ensures
        pieces::texts(r@) == home_variables(),
{
    let mut r: Vec<String> = Vec::new();
    r.push("QMD_HOME".to_owned());
    r.push("QMD_DATA_DIR".to_owned());
    r.push("XDG_DATA_HOME".to_owned());
    r.push("XDG_CONFIG_HOME".to_owned());
    r.push("APPDATA".to_owned());
    r.push("LOCALAPPDATA".to_owned());
    assert(pieces::texts(r@) =~= home_variables());
    r
}

/// The arguments that register a project's files as a collection.
pub fn collection_args(db: &str, project_dir: &str, collection_name: &str, glob_pattern: &str) -> (r:
    Vec<String>)
    ensures
        pieces::texts(r@) == seq![
            "--index"@,
            db@,
            "collection"@,
            "add"@,
            project_dir@,
            "--name"@,
            collection_name@,
            "--pattern"@,
            glob_pattern@,
        ],
{
    let mut r: Vec<String> = Vec::new();
    r.push("--index".to_owned());
    r.push(db.to_owned());
    r.push("collection".to_owned());
    r.push("add".to_owned());
    r.push(project_dir.to_owned());
    r.push("--name".to_owned());
    r.push(collection_name.to_owned());
    r.push("--pattern".to_owned());
    r.push(glob_pattern.to_owned());
    assert(pieces::texts(r@) =~= seq![
        "--index"@,
        db@,
        "collection"@,
        "add"@,
        project_dir@,
        "--name"@,
        collection_name@,
        "--pattern"@,
        glob_pattern@,
    ]);
    r
}

/// The arguments that bring an index up to date.
pub fn update_args(db: &str) -> (r: Vec<String>)
    ensures
        pieces::texts(r@) == seq!["--index"@, db@, "update"@],
{
    let mut r: Vec<String> = Vec::new();
    r.push("--index".to_owned());
    r.push(db.to_owned());
    r.push("update".to_owned());
    assert(pieces::texts(r@) =~= seq!["--index"@, db@, "update"@]);
    r
}

/// Whether the index can be brought up to date after a collection was registered: that
/// the collection is there already is no failure.
pub fn after_registration(outcome: &Result<String, String>) -> (r: Result<(), String>)
    ensures
        match *outcome {
            Ok(_) => r is Ok,
            Err(e) => match r {
                Ok(_) => text::has_text(text::lowercased(e@), "already"@),
                Err(x) => !text::has_text(text::lowercased(e@), "already"@) && x@ == e@,
            },
        },
{
    match outcome {
        Ok(_) => Ok(()),
        Err(e) => {
            if contains_text(e.to_lowercase().as_str(), "already") {
                Ok(())
            } else {
                Err(e.clone())
            }
        },
    }
}

/// Every way of searching is tried: by full text and by comparing contents, in the collection
/// and in all of them, for the query that was asked.
pub proof fn every_way_of_searching_is_tried(query: Seq<char>, collection: Seq<char>)
    ensures
        ({
            let qs = questions(query, Some(collection));
            &&& qs.len() == 4
            &&& qs[0].wanted == query && qs[0].collection == Some(collection)
            &&& qs[1].wanted == query && qs[1].collection is None
            &&& qs[2].wanted == "%"@ + query + "%"@ && qs[2].collection == Some(collection)
            &&& qs[3].wanted == "%"@ + query + "%"@ && qs[3].collection is None
        }),
        ({
            let qs = questions(query, None);
            &&& qs.len() == 2
            &&& qs[0].wanted == query && qs[0].collection is None
            &&& qs[1].wanted == "%"@ + query + "%"@ && qs[1].collection is None
        }),
{
}

} // verus!
