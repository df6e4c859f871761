//! The tools that an agent can call, and the messages that it calls them with.

use vstd::prelude::*;

use crate::json;
use crate::json::{Json, JsonView};
use crate::pieces;
use crate::reranker::RerankerConfig;
use crate::text::same_text;

verus! {

// ---------------------------------------------------------------------------
// The tools
// ---------------------------------------------------------------------------

/// An argument of a tool.
#[derive(Debug, Clone)]
pub struct Param {
    pub name: String,
    /// `string` or `integer`.
    pub kind: String,
    pub description: String,
}

/// A tool that an agent can call.
#[derive(Debug, Clone)]
pub struct Tool {
    pub name: String,
    pub description: String,
    pub params: Vec<Param>,
    /// The names of the arguments that have to be given.
    pub required: Vec<String>,
}

pub ghost struct ParamView {
    pub name: Seq<char>,
    pub kind: Seq<char>,
    pub description: Seq<char>,
}

pub ghost struct ToolView {
    pub name: Seq<char>,
    pub description: Seq<char>,
    pub params: Seq<ParamView>,
    pub required: Seq<Seq<char>>,
}

impl View for Param {
    type V = ParamView;

    open spec fn view(&self) -> ParamView {
        ParamView { name: self.name@, kind: self.kind@, description: self.description@ }
    }
}

pub open spec fn param_views(v: Seq<Param>) -> Seq<ParamView> {
    v.map_values(|p: Param| p@)
}

impl View for Tool {
    type V = ToolView;

    open spec fn view(&self) -> ToolView {
        ToolView {
            name: self.name@,
            description: self.description@,
            params: param_views(self.params@),
            required: pieces::texts(self.required@),
        }
    }
}

pub open spec fn tool_views(v: Seq<Tool>) -> Seq<ToolView> {
    v.map_values(|t: Tool| t@)
}

/// An argument that is a text.
pub open spec fn word(name: Seq<char>, description: Seq<char>) -> ParamView {
    ParamView { name, kind: "string"@, description }
}

/// An argument that is a number.
pub open spec fn number(name: Seq<char>, description: Seq<char>) -> ParamView {
    ParamView { name, kind: "integer"@, description }
}

fn new_tool(name: &str, description: &str) -> (r: Tool)
    ensures
        r@ == (ToolView {
            name: name@,
            description: description@,
            params: seq![],
            required: seq![],
        }),
{
    let r = Tool {
        name: name.to_owned(),
        description: description.to_owned(),
        params: Vec::new(),
        required: Vec::new(),
    };
    assert(r@.params =~= seq![]);
    assert(r@.required =~= seq![]);
    r
}

fn add_param(t: &mut Tool, name: &str, kind: &str, description: &str)
    ensures
        final(t)@ == (ToolView {
            params: old(t)@.params.push(
                ParamView { name: name@, kind: kind@, description: description@ },
            ),
            ..old(t)@
        }),
{
    let ghost before = t@.params;
    t.params.push(
        Param {
            name: name.to_owned(),
            kind: kind.to_owned(),
            description: description.to_owned(),
        },
    );
    assert(t@.params =~= before.push(
        ParamView { name: name@, kind: kind@, description: description@ },
    ));
}

fn add_required(t: &mut Tool, name: &str)
    ensures
        final(t)@ == (ToolView { required: old(t)@.required.push(name@), ..old(t)@ }),
{
    let ghost before = t@.required;
    t.required.push(name.to_owned());
    assert(t@.required =~= before.push(name@));
}

pub open spec fn list_packages_tool() -> ToolView {
    ToolView {
        name: "list_packages"@,
        description: "List all registered local packages and installed bundles with their index and LanceDB doc status."@,
        params: seq![],
        required: seq![],
    }
}

fn make_list_packages() -> (r: Tool)
    ensures
        r@ == list_packages_tool(),
{
    let t = new_tool(
        "list_packages",
        "List all registered local packages and installed bundles with their index and LanceDB doc status.",
    );
    assert(t@.params =~= list_packages_tool().params);
    assert(t@.required =~= list_packages_tool().required);
    t
}

pub open spec fn search_symbols_tool() -> ToolView {
    ToolView {
        name: "search_symbols"@,
        description: "Search for symbols (functions, classes, variables) in a specific package using CodeGraph. Results are scoped exclusively to the named package."@,
        params: seq![
            word("package"@, "Package or bundle name"@),
            word("query"@, "Symbol name or pattern to search"@),
            word("kind"@, "Optional symbol kind filter (function, class, variable, ...)"@),
            number("limit"@, "Max results (default 20)"@),
        ],
        required: seq!["package"@, "query"@],
    }
}

fn make_search_symbols() -> (r: Tool)
    ensures
        r@ == search_symbols_tool(),
{
    let mut t = new_tool(
        "search_symbols",
        "Search for symbols (functions, classes, variables) in a specific package using CodeGraph. Results are scoped exclusively to the named package.",
    );
    add_param(&mut t, "package", "string", "Package or bundle name");
    add_param(&mut t, "query", "string", "Symbol name or pattern to search");
    add_param(&mut t, "kind", "string", "Optional symbol kind filter (function, class, variable, ...)");
    add_param(&mut t, "limit", "integer", "Max results (default 20)");
    add_required(&mut t, "package");
    add_required(&mut t, "query");
    assert(t@.params =~= search_symbols_tool().params);
    assert(t@.required =~= search_symbols_tool().required);
    t
}

pub open spec fn get_context_tool() -> ToolView {
    ToolView {
        name: "get_context"@,
        description: "Get AI-optimised code context for a task description, scoped to a specific package."@,
        params: seq![
            word("package"@, "Package or bundle name"@),
            word("task"@, "Natural-language description of the task"@),
            number("limit"@, "Max symbols to return (default 20)"@),
        ],
        required: seq!["package"@, "task"@],
    }
}

fn make_get_context() -> (r: Tool)
    ensures
        r@ == get_context_tool(),
{
    let mut t = new_tool(
        "get_context",
        "Get AI-optimised code context for a task description, scoped to a specific package.",
    );
    add_param(&mut t, "package", "string", "Package or bundle name");
    add_param(&mut t, "task", "string", "Natural-language description of the task");
    add_param(&mut t, "limit", "integer", "Max symbols to return (default 20)");
    add_required(&mut t, "package");
    add_required(&mut t, "task");
    assert(t@.params =~= get_context_tool().params);
    assert(t@.required =~= get_context_tool().required);
    t
}

pub open spec fn get_callers_tool() -> ToolView {
    ToolView {
        name: "get_callers"@,
        description: "Find all callers of a symbol in a specific package."@,
        params: seq![
            word("package"@, "Package or bundle name"@),
            word("symbol"@, "Fully-qualified or short symbol name"@),
            number("limit"@, "Max results (default 20)"@),
        ],
        required: seq!["package"@, "symbol"@],
    }
}

fn make_get_callers() -> (r: Tool)
    ensures
        r@ == get_callers_tool(),
{
    let mut t = new_tool(
        "get_callers",
        "Find all callers of a symbol in a specific package.",
    );
    add_param(&mut t, "package", "string", "Package or bundle name");
    add_param(&mut t, "symbol", "string", "Fully-qualified or short symbol name");
    add_param(&mut t, "limit", "integer", "Max results (default 20)");
    add_required(&mut t, "package");
    add_required(&mut t, "symbol");
    assert(t@.params =~= get_callers_tool().params);
    assert(t@.required =~= get_callers_tool().required);
    t
}

pub open spec fn get_callees_tool() -> ToolView {
    ToolView {
        name: "get_callees"@,
        description: "Find all functions/methods called by a symbol in a specific package."@,
        params: seq![
            word("package"@, "Package or bundle name"@),
            word("symbol"@, "Fully-qualified or short symbol name"@),
            number("limit"@, "Max results (default 20)"@),
        ],
        required: seq!["package"@, "symbol"@],
    }
}

fn make_get_callees() -> (r: Tool)
    ensures
        r@ == get_callees_tool(),
{
    let mut t = new_tool(
        "get_callees",
        "Find all functions/methods called by a symbol in a specific package.",
    );
    add_param(&mut t, "package", "string", "Package or bundle name");
    add_param(&mut t, "symbol", "string", "Fully-qualified or short symbol name");
    add_param(&mut t, "limit", "integer", "Max results (default 20)");
    add_required(&mut t, "package");
    add_required(&mut t, "symbol");
    assert(t@.params =~= get_callees_tool().params);
    assert(t@.required =~= get_callees_tool().required);
    t
}

pub open spec fn get_impact_tool() -> ToolView {
    ToolView {
        name: "get_impact"@,
        description: "Analyse the downstream impact of changing a symbol (what breaks if this changes)."@,
        params: seq![
            word("package"@, "Package or bundle name"@),
            word("symbol"@, "Symbol to analyse"@),
            number("depth"@, "Call graph depth (default 3)"@),
        ],
        required: seq!["package"@, "symbol"@],
    }
}

fn make_get_impact() -> (r: Tool)
    ensures
        r@ == get_impact_tool(),
{
    let mut t = new_tool(
        "get_impact",
        "Analyse the downstream impact of changing a symbol (what breaks if this changes).",
    );
    add_param(&mut t, "package", "string", "Package or bundle name");
    add_param(&mut t, "symbol", "string", "Symbol to analyse");
    add_param(&mut t, "depth", "integer", "Call graph depth (default 3)");
    add_required(&mut t, "package");
    add_required(&mut t, "symbol");
    assert(t@.params =~= get_impact_tool().params);
    assert(t@.required =~= get_impact_tool().required);
    t
}

pub open spec fn list_files_tool() -> ToolView {
    ToolView {
        name: "list_files"@,
        description: "List source files tracked by CodeGraph in a specific package. The optional filter supports both glob patterns (e.g. **/*.rs, src/**/mod.rs) and plain case-insensitive substring matching (e.g. auth, storage). Patterns containing * or ? are treated as globs; all other values are substrings. A 'No files matched' response means the filter was valid but nothing matched — try a shorter substring or broader glob. A 'Filter error' response means the glob pattern was syntactically invalid. Use limit to cap the number of results (default 200)."@,
        params: seq![
            word("package"@, "Package or bundle name"@),
            word("filter"@, "Optional glob pattern (e.g. **/*.rs) or substring (e.g. auth)"@),
            number("limit"@, "Max files to return (default 200)"@),
        ],
        required: seq!["package"@],
    }
}

fn make_list_files() -> (r: Tool)
    ensures
        r@ == list_files_tool(),
{
    let mut t = new_tool(
        "list_files",
        "List source files tracked by CodeGraph in a specific package. The optional filter supports both glob patterns (e.g. **/*.rs, src/**/mod.rs) and plain case-insensitive substring matching (e.g. auth, storage). Patterns containing * or ? are treated as globs; all other values are substrings. A 'No files matched' response means the filter was valid but nothing matched — try a shorter substring or broader glob. A 'Filter error' response means the glob pattern was syntactically invalid. Use limit to cap the number of results (default 200).",
    );
    add_param(&mut t, "package", "string", "Package or bundle name");
    add_param(&mut t, "filter", "string", "Optional glob pattern (e.g. **/*.rs) or substring (e.g. auth)");
    add_param(&mut t, "limit", "integer", "Max files to return (default 200)");
    add_required(&mut t, "package");
    assert(t@.params =~= list_files_tool().params);
    assert(t@.required =~= list_files_tool().required);
    t
}

pub open spec fn search_docs_tool() -> ToolView {
    ToolView {
        name: "search_docs"@,
        description: "Search the LanceDB documentation index for a specific bundle. Returns BM25-ranked excerpts scoped to that bundle only."@,
        params: seq![
            word("package"@, "Bundle name"@),
            word("query"@, "Documentation search query"@),
            number("limit"@, "Max results (default 10)"@),
        ],
        required: seq!["package"@, "query"@],
    }
}

fn make_search_docs() -> (r: Tool)
    ensures
        r@ == search_docs_tool(),
{
    let mut t = new_tool(
        "search_docs",
        "Search the LanceDB documentation index for a specific bundle. Returns BM25-ranked excerpts scoped to that bundle only.",
    );
    add_param(&mut t, "package", "string", "Bundle name");
    add_param(&mut t, "query", "string", "Documentation search query");
    add_param(&mut t, "limit", "integer", "Max results (default 10)");
    add_required(&mut t, "package");
    add_required(&mut t, "query");
    assert(t@.params =~= search_docs_tool().params);
    assert(t@.required =~= search_docs_tool().required);
    t
}

pub open spec fn docs_metadata_tool() -> ToolView {
    ToolView {
        name: "docs_metadata"@,
        description: "Show LanceDB metadata (table name, document count, chunk count, FTS status) for a bundle."@,
        params: seq![
            word("package"@, "Bundle name"@),
        ],
        required: seq!["package"@],
    }
}

fn make_docs_metadata() -> (r: Tool)
    ensures
        r@ == docs_metadata_tool(),
{
    let mut t = new_tool(
        "docs_metadata",
        "Show LanceDB metadata (table name, document count, chunk count, FTS status) for a bundle.",
    );
    add_param(&mut t, "package", "string", "Bundle name");
    add_required(&mut t, "package");
    assert(t@.params =~= docs_metadata_tool().params);
    assert(t@.required =~= docs_metadata_tool().required);
    t
}

pub open spec fn search_code_tool() -> ToolView {
    ToolView {
        name: "search_code"@,
        description: "Search the embedded source-code index for a bundle. Returns BM25-ranked symbol excerpts with their file location, kind, and signature. Only available for bundles built with --include-source."@,
        params: seq![
            word("package"@, "Bundle name"@),
            word("query"@, "Natural-language or keyword code search query"@),
            word("kind"@, "Optional kind filter: function, class, struct, enum, trait, impl, ..."@),
            number("limit"@, "Max results (default 10)"@),
        ],
        required: seq!["package"@, "query"@],
    }
}

fn make_search_code() -> (r: Tool)
    ensures
        r@ == search_code_tool(),
{
    let mut t = new_tool(
        "search_code",
        "Search the embedded source-code index for a bundle. Returns BM25-ranked symbol excerpts with their file location, kind, and signature. Only available for bundles built with --include-source.",
    );
    add_param(&mut t, "package", "string", "Bundle name");
    add_param(&mut t, "query", "string", "Natural-language or keyword code search query");
    add_param(&mut t, "kind", "string", "Optional kind filter: function, class, struct, enum, trait, impl, ...");
    add_param(&mut t, "limit", "integer", "Max results (default 10)");
    add_required(&mut t, "package");
    add_required(&mut t, "query");
    assert(t@.params =~= search_code_tool().params);
    assert(t@.required =~= search_code_tool().required);
    t
}

pub open spec fn read_symbol_tool() -> ToolView {
    ToolView {
        name: "read_symbol"@,
        description: "Fetch the full source body of a named symbol from the embedded code index. Returns the complete implementation, file path, and line range. Only available for bundles built with --include-source."@,
        params: seq![
            word("package"@, "Bundle name"@),
            word("symbol"@, "Symbol name to look up (short or qualified)"@),
        ],
        required: seq!["package"@, "symbol"@],
    }
}

fn make_read_symbol() -> (r: Tool)
    ensures
        r@ == read_symbol_tool(),
{
    let mut t = new_tool(
        "read_symbol",
        "Fetch the full source body of a named symbol from the embedded code index. Returns the complete implementation, file path, and line range. Only available for bundles built with --include-source.",
    );
    add_param(&mut t, "package", "string", "Bundle name");
    add_param(&mut t, "symbol", "string", "Symbol name to look up (short or qualified)");
    add_required(&mut t, "package");
    add_required(&mut t, "symbol");
    assert(t@.params =~= read_symbol_tool().params);
    assert(t@.required =~= read_symbol_tool().required);
    t
}

pub open spec fn read_code_tool() -> ToolView {
    ToolView {
        name: "read_code"@,
        description: "Read the exact source body of the symbol that contains a given file and line number. Use this after search_symbols, get_callers, get_callees, or get_impact return a file path and line number — pass those directly here to retrieve the precise implementation without doing a secondary search. Only available for bundles built with --include-source."@,
        params: seq![
            word("package"@, "Bundle name"@),
            word("file"@, "Source file path as returned by codegraph (e.g. src/foo.rs)"@),
            number("line"@, "Line number within that file (1-based)"@),
        ],
        required: seq!["package"@, "file"@, "line"@],
    }
}

fn make_read_code() -> (r: Tool)
    ensures
        r@ == read_code_tool(),
{
    let mut t = new_tool(
        "read_code",
        "Read the exact source body of the symbol that contains a given file and line number. Use this after search_symbols, get_callers, get_callees, or get_impact return a file path and line number — pass those directly here to retrieve the precise implementation without doing a secondary search. Only available for bundles built with --include-source.",
    );
    add_param(&mut t, "package", "string", "Bundle name");
    add_param(&mut t, "file", "string", "Source file path as returned by codegraph (e.g. src/foo.rs)");
    add_param(&mut t, "line", "integer", "Line number within that file (1-based)");
    add_required(&mut t, "package");
    add_required(&mut t, "file");
    add_required(&mut t, "line");
    assert(t@.params =~= read_code_tool().params);
    assert(t@.required =~= read_code_tool().required);
    t
}

pub open spec fn query_tool() -> ToolView {
    ToolView {
        name: "query"@,
        description: "Unified cross-package search. Submit a natural-language question or keyword query (e.g. 'Where does ADC sampling happen?') and receive ranked results from every installed bundle and local package. Searches code indexes, documentation indexes, and CodeGraph symbol tables across all packages in a single call, then re-ranks all candidates together with the local reranker (when available). Returns rich markdown with package provenance, relevance score, source file, line range, and a source snippet for each hit. Use the other MCP tools (read_code, read_symbol, search_symbols, …) to drill into specific results."@,
        params: seq![
            word("query"@, "Natural-language or keyword search query"@),
            number("limit"@, "Max results to return after reranking (default 10)"@),
        ],
        required: seq!["query"@],
    }
}

fn make_query() -> (r: Tool)
    ensures
        r@ == query_tool(),
{
    let mut t = new_tool(
        "query",
        "Unified cross-package search. Submit a natural-language question or keyword query (e.g. 'Where does ADC sampling happen?') and receive ranked results from every installed bundle and local package. Searches code indexes, documentation indexes, and CodeGraph symbol tables across all packages in a single call, then re-ranks all candidates together with the local reranker (when available). Returns rich markdown with package provenance, relevance score, source file, line range, and a source snippet for each hit. Use the other MCP tools (read_code, read_symbol, search_symbols, …) to drill into specific results.",
    );
    add_param(&mut t, "query", "string", "Natural-language or keyword search query");
    add_param(&mut t, "limit", "integer", "Max results to return after reranking (default 10)");
    add_required(&mut t, "query");
    assert(t@.params =~= query_tool().params);
    assert(t@.required =~= query_tool().required);
    t
}

/// The tools, in the order in which they are offered.
pub open spec fn tool_list() -> Seq<ToolView> {
    seq![
        list_packages_tool(),
        search_symbols_tool(),
        get_context_tool(),
        get_callers_tool(),
        get_callees_tool(),
        get_impact_tool(),
        list_files_tool(),
        search_docs_tool(),
        docs_metadata_tool(),
        search_code_tool(),
        read_symbol_tool(),
        read_code_tool(),
        query_tool(),
    ]
}

/// The tools that an agent can call.
pub fn all_tools() -> (r: Vec<Tool>)
    ensures
        tool_views(r@) == tool_list(),
{
    let mut r: Vec<Tool> = Vec::new();
    r.push(make_list_packages());
    r.push(make_search_symbols());
    r.push(make_get_context());
    r.push(make_get_callers());
    r.push(make_get_callees());
    r.push(make_get_impact());
    r.push(make_list_files());
    r.push(make_search_docs());
    r.push(make_docs_metadata());
    r.push(make_search_code());
    r.push(make_read_symbol());
    r.push(make_read_code());
    r.push(make_query());
    assert(tool_views(r@) =~= tool_list());
    r
}

// ---------------------------------------------------------------------------
// Calls
// ---------------------------------------------------------------------------

/// A call of a tool, with its arguments.
#[derive(Debug, Clone)]
pub enum ToolCall {
    ListPackages,
    SearchSymbols { package: String, query: String, kind: Option<String>, limit: u64 },
    GetContext { package: String, task: String, limit: u64 },
    GetCallers { package: String, symbol: String, limit: u64 },
    GetCallees { package: String, symbol: String, limit: u64 },
    GetImpact { package: String, symbol: String, depth: u64 },
    ListFiles { package: String, filter: Option<String>, limit: u64 },
    SearchDocs { package: String, query: String, limit: u64 },
    DocsMetadata { package: String },
    SearchCode { package: String, query: String, kind: Option<String>, limit: u64 },
    ReadSymbol { package: String, symbol: String },
    ReadCode { package: String, file: String, line: u32 },
    Query { query: String, limit: u64 },
    /// No tool has the name; what is answered.
    Unknown(String),
}

pub ghost enum CallView {
    ListPackages,
    SearchSymbols(Seq<char>, Seq<char>, Option<Seq<char>>, u64),
    GetContext(Seq<char>, Seq<char>, u64),
    GetCallers(Seq<char>, Seq<char>, u64),
    GetCallees(Seq<char>, Seq<char>, u64),
    GetImpact(Seq<char>, Seq<char>, u64),
    ListFiles(Seq<char>, Option<Seq<char>>, u64),
    SearchDocs(Seq<char>, Seq<char>, u64),
    DocsMetadata(Seq<char>),
    SearchCode(Seq<char>, Seq<char>, Option<Seq<char>>, u64),
    ReadSymbol(Seq<char>, Seq<char>),
    ReadCode(Seq<char>, Seq<char>, u32),
    Query(Seq<char>, u64),
    Unknown(Seq<char>),
}

impl View for ToolCall {
    type V = CallView;

    open spec fn view(&self) -> CallView {
        match *self {
            ToolCall::ListPackages => CallView::ListPackages,
            ToolCall::SearchSymbols { package, query, kind, limit } => CallView::SearchSymbols(
                package@,
                query@,
                pieces::opt_text(kind),
                limit,
            ),
            ToolCall::GetContext { package, task, limit } => CallView::GetContext(
                package@,
                task@,
                limit,
            ),
            ToolCall::GetCallers { package, symbol, limit } => CallView::GetCallers(
                package@,
                symbol@,
                limit,
            ),
            ToolCall::GetCallees { package, symbol, limit } => CallView::GetCallees(
                package@,
                symbol@,
                limit,
            ),
            ToolCall::GetImpact { package, symbol, depth } => CallView::GetImpact(
                package@,
                symbol@,
                depth,
            ),
            ToolCall::ListFiles { package, filter, limit } => CallView::ListFiles(
                package@,
                pieces::opt_text(filter),
                limit,
            ),
            ToolCall::SearchDocs { package, query, limit } => CallView::SearchDocs(
                package@,
                query@,
                limit,
            ),
            ToolCall::DocsMetadata { package } => CallView::DocsMetadata(package@),
            ToolCall::SearchCode { package, query, kind, limit } => CallView::SearchCode(
                package@,
                query@,
                pieces::opt_text(kind),
                limit,
            ),
            ToolCall::ReadSymbol { package, symbol } => CallView::ReadSymbol(package@, symbol@),
            ToolCall::ReadCode { package, file, line } => CallView::ReadCode(package@, file@, line),
            ToolCall::Query { query, limit } => CallView::Query(query@, limit),
            ToolCall::Unknown(t) => CallView::Unknown(t@),
        }
    }
}

/// The call that a name and arguments mean. Texts that are not given are empty, and
/// numbers that are not given have a default.
pub open spec fn call_of(name: Seq<char>, args: JsonView) -> CallView {
    let package = json::word(args, "package"@);
    let query = json::word(args, "query"@);
    let symbol = json::word(args, "symbol"@);
    let kind = json::as_text(json::member(args, "kind"@));
    if name == "list_packages"@ {
        CallView::ListPackages
    } else if name == "search_symbols"@ {
        CallView::SearchSymbols(package, query, kind, json::count(args, "limit"@, 20))
    } else if name == "get_context"@ {
        CallView::GetContext(
            package,
            json::word(args, "task"@),
            json::count(args, "limit"@, 20),
        )
    } else if name == "get_callers"@ {
        CallView::GetCallers(package, symbol, json::count(args, "limit"@, 20))
    } else if name == "get_callees"@ {
        CallView::GetCallees(package, symbol, json::count(args, "limit"@, 20))
    } else if name == "get_impact"@ {
        CallView::GetImpact(package, symbol, json::count(args, "depth"@, 3))
    } else if name == "list_files"@ {
        CallView::ListFiles(
            package,
            json::as_text(json::member(args, "filter"@)),
            json::count(args, "limit"@, 200),
        )
    } else if name == "search_docs"@ {
        CallView::SearchDocs(package, query, json::count(args, "limit"@, 10))
    } else if name == "docs_metadata"@ {
        CallView::DocsMetadata(package)
    } else if name == "search_code"@ {
        CallView::SearchCode(package, query, kind, json::count(args, "limit"@, 10))
    } else if name == "read_symbol"@ {
        CallView::ReadSymbol(package, symbol)
    } else if name == "read_code"@ {
        CallView::ReadCode(
            package,
            json::word(args, "file"@),
            json::count(args, "line"@, 0) as u32,
        )
    } else if name == "query"@ {
        CallView::Query(query, json::count(args, "limit"@, 10))
    } else {
        CallView::Unknown("Unknown tool: "@ + name)
    }
}

fn text_arg(args: &Json, key: &str) -> (r: Option<String>)
    ensures
        pieces::opt_text(r) == json::as_text(json::member(args@, key@)),
{
    match args.text_member(key) {
        Some(t) => Some(t.to_owned()),
        None => None,
    }
}

/// Read a call of a tool.
pub fn dispatch_tool(name: &str, args: &Json) -> (r: ToolCall)
    ensures
        r@ == call_of(name@, args@),
{
    let package = args.word("package");
    if same_text(name, "list_packages") {
        return ToolCall::ListPackages;
    }
    if same_text(name, "search_symbols") {
        return ToolCall::SearchSymbols {
            package,
            query: args.word("query"),
            kind: text_arg(args, "kind"),
            limit: args.count("limit", 20),
        };
    }
    if same_text(name, "get_context") {
        return ToolCall::GetContext {
            package,
            task: args.word("task"),
            limit: args.count("limit", 20),
        };
    }
    if same_text(name, "get_callers") {
        return ToolCall::GetCallers {
            package,
            symbol: args.word("symbol"),
            limit: args.count("limit", 20),
        };
    }
    if same_text(name, "get_callees") {
        return ToolCall::GetCallees {
            package,
            symbol: args.word("symbol"),
            limit: args.count("limit", 20),
        };
    }
    if same_text(name, "get_impact") {
        return ToolCall::GetImpact {
            package,
            symbol: args.word("symbol"),
            depth: args.count("depth", 3),
        };
    }
    if same_text(name, "list_files") {
        return ToolCall::ListFiles {
            package,
            filter: text_arg(args, "filter"),
            limit: args.count("limit", 200),
        };
    }
    if same_text(name, "search_docs") {
        return ToolCall::SearchDocs {
            package,
            query: args.word("query"),
            limit: args.count("limit", 10),
        };
    }
    if same_text(name, "docs_metadata") {
        return ToolCall::DocsMetadata { package };
    }
    if same_text(name, "search_code") {
        return ToolCall::SearchCode {
            package,
            query: args.word("query"),
            kind: text_arg(args, "kind"),
            limit: args.count("limit", 10),
        };
    }
    if same_text(name, "read_symbol") {
        return ToolCall::ReadSymbol { package, symbol: args.word("symbol") };
    }
    if same_text(name, "read_code") {
        return ToolCall::ReadCode {
            package,
            file: args.word("file"),
            line: #[verifier::truncate]
            (args.count("line", 0) as u32),
        };
    }
    if same_text(name, "query") {
        return ToolCall::Query { query: args.word("query"), limit: args.count("limit", 10) };
    }
    let mut t = "Unknown tool: ".to_owned();
    t.append(name);
    ToolCall::Unknown(t)
}

/// Every tool that is offered can be called.
pub proof fn offered_tools_can_be_called(i: int, args: JsonView)
    requires
        0 <= i < tool_list().len(),
    ensures
        !(call_of(tool_list()[i].name, args) is Unknown),
{
    assert(tool_list()[0].name == "list_packages"@);
    assert(tool_list()[1].name == "search_symbols"@);
    assert(tool_list()[2].name == "get_context"@);
    assert(tool_list()[3].name == "get_callers"@);
    assert(tool_list()[4].name == "get_callees"@);
    assert(tool_list()[5].name == "get_impact"@);
    assert(tool_list()[6].name == "list_files"@);
    assert(tool_list()[7].name == "search_docs"@);
    assert(tool_list()[8].name == "docs_metadata"@);
    assert(tool_list()[9].name == "search_code"@);
    assert(tool_list()[10].name == "read_symbol"@);
    assert(tool_list()[11].name == "read_code"@);
    assert(tool_list()[12].name == "query"@);
}

/// An argument that has to be given is an argument that the tool has.
pub proof fn required_arguments_are_arguments(i: int, j: int)
    requires
        0 <= i < tool_list().len(),
        0 <= j < tool_list()[i].required.len(),
    ensures
        exists|k: int|
            0 <= k < tool_list()[i].params.len() && (#[trigger] tool_list()[i].params[k]).name
                == tool_list()[i].required[j],
{
    if i == 1 {
        assert(tool_list()[1].params[0].name == "package"@);
        assert(tool_list()[1].required[0] == "package"@);
        assert(tool_list()[1].params[1].name == "query"@);
        assert(tool_list()[1].required[1] == "query"@);
    }
    if i == 2 {
        assert(tool_list()[2].params[0].name == "package"@);
        assert(tool_list()[2].required[0] == "package"@);
        assert(tool_list()[2].params[1].name == "task"@);
        assert(tool_list()[2].required[1] == "task"@);
    }
    if i == 3 {
        assert(tool_list()[3].params[0].name == "package"@);
        assert(tool_list()[3].required[0] == "package"@);
        assert(tool_list()[3].params[1].name == "symbol"@);
        assert(tool_list()[3].required[1] == "symbol"@);
    }
    if i == 4 {
        assert(tool_list()[4].params[0].name == "package"@);
        assert(tool_list()[4].required[0] == "package"@);
        assert(tool_list()[4].params[1].name == "symbol"@);
        assert(tool_list()[4].required[1] == "symbol"@);
    }
    if i == 5 {
        assert(tool_list()[5].params[0].name == "package"@);
        assert(tool_list()[5].required[0] == "package"@);
        assert(tool_list()[5].params[1].name == "symbol"@);
        assert(tool_list()[5].required[1] == "symbol"@);
    }
    if i == 6 {
        assert(tool_list()[6].params[0].name == "package"@);
        assert(tool_list()[6].required[0] == "package"@);
    }
    if i == 7 {
        assert(tool_list()[7].params[0].name == "package"@);
        assert(tool_list()[7].required[0] == "package"@);
        assert(tool_list()[7].params[1].name == "query"@);
        assert(tool_list()[7].required[1] == "query"@);
    }
    if i == 8 {
        assert(tool_list()[8].params[0].name == "package"@);
        assert(tool_list()[8].required[0] == "package"@);
    }
    if i == 9 {
        assert(tool_list()[9].params[0].name == "package"@);
        assert(tool_list()[9].required[0] == "package"@);
        assert(tool_list()[9].params[1].name == "query"@);
        assert(tool_list()[9].required[1] == "query"@);
    }
    if i == 10 {
        assert(tool_list()[10].params[0].name == "package"@);
        assert(tool_list()[10].required[0] == "package"@);
        assert(tool_list()[10].params[1].name == "symbol"@);
        assert(tool_list()[10].required[1] == "symbol"@);
    }
    if i == 11 {
        assert(tool_list()[11].params[0].name == "package"@);
        assert(tool_list()[11].required[0] == "package"@);
        assert(tool_list()[11].params[1].name == "file"@);
        assert(tool_list()[11].required[1] == "file"@);
        assert(tool_list()[11].params[2].name == "line"@);
        assert(tool_list()[11].required[2] == "line"@);
    }
    if i == 12 {
        assert(tool_list()[12].params[0].name == "query"@);
        assert(tool_list()[12].required[0] == "query"@);
    }
}

// ---------------------------------------------------------------------------
// Messages
// ---------------------------------------------------------------------------

/// The protocol that is spoken.
pub const PROTOCOL_VERSION: &'static str = "2024-11-05";

/// The name of the server.
pub const SERVER_NAME: &'static str = "sempkg";

/// What a client is told first.
pub const INSTRUCTIONS: &'static str = "sempkg exposes CodeGraph and QMD intelligence for registered packages and installed bundles. All queries are package-scoped. Start with list_packages to discover available packages and bundles.";

/// Which request a message belongs to.
#[derive(Debug, Clone)]
pub enum RpcId {
    Number(i64),
    Text(String),
    Null,
}

pub ghost enum IdView {
    Number(i64),
    Text(Seq<char>),
    Null,
}

impl View for RpcId {
    type V = IdView;

    open spec fn view(&self) -> IdView {
        match *self {
            RpcId::Number(n) => IdView::Number(n),
            RpcId::Text(t) => IdView::Text(t@),
            RpcId::Null => IdView::Null,
        }
    }
}

/// A request of a client.
#[derive(Debug)]
pub struct RpcRequest {
    pub id: Option<RpcId>,
    pub method: String,
    pub params: Json,
}

/// What a request is answered.
#[derive(Debug, Clone)]
pub enum RpcOutcome {
    /// What the server is.
    Welcome,
    /// The tools.
    Tools,
    /// The text of a tool.
    Text(String),
    /// Nothing in particular.
    Empty,
    /// An error, by its code and what is said of it.
    Error(i32, String),
}

pub ghost enum OutcomeView {
    Welcome,
    Tools,
    Text(Seq<char>),
    Empty,
    Error(int, Seq<char>),
}

impl View for RpcOutcome {
    type V = OutcomeView;

    open spec fn view(&self) -> OutcomeView {
        match *self {
            RpcOutcome::Welcome => OutcomeView::Welcome,
            RpcOutcome::Tools => OutcomeView::Tools,
            RpcOutcome::Text(t) => OutcomeView::Text(t@),
            RpcOutcome::Empty => OutcomeView::Empty,
            RpcOutcome::Error(c, t) => OutcomeView::Error(c as int, t@),
        }
    }
}

/// A reply to a request.
#[derive(Debug, Clone)]
pub struct RpcResponse {
    pub id: RpcId,
    pub outcome: RpcOutcome,
}

pub open spec fn is_reply(r: RpcResponse, id: IdView, outcome: OutcomeView) -> bool {
    r.id@ == id && r.outcome@ == outcome
}

/// What becomes of a message.
#[derive(Debug, Clone)]
pub enum Handled {
    /// It is answered.
    Reply(RpcResponse),
    /// It wants no answer.
    Silent,
    /// A tool is called, and its text answers this request.
    Call(RpcId, ToolCall),
}

/// The id of a request.
pub open spec fn request_id(r: RpcRequest) -> IdView {
    match r.id {
        Some(id) => id@,
        None => IdView::Null,
    }
}

/// The arguments of a call.
pub open spec fn call_args(params: JsonView) -> JsonView {
    match json::member(params, "arguments"@) {
        Some(a) => a,
        None => JsonView::Object(seq![]),
    }
}

/// What becomes of a request.
pub open spec fn is_handled(req: RpcRequest, h: Handled) -> bool {
    let id = request_id(req);
    let method = req.method@;
    if method == "initialize"@ {
        h matches Handled::Reply(r) && is_reply(r, id, OutcomeView::Welcome)
    } else if method == "notifications/initialized"@ {
        h is Silent
    } else if method == "tools/list"@ {
        h matches Handled::Reply(r) && is_reply(r, id, OutcomeView::Tools)
    } else if method == "tools/call"@ {
        h matches Handled::Call(i, c) && i@ == id && c@ == call_of(
            json::word(req.params@, "name"@),
            call_args(req.params@),
        )
    } else if method == "ping"@ {
        h matches Handled::Reply(r) && is_reply(r, id, OutcomeView::Empty)
    } else {
        h matches Handled::Reply(r) && is_reply(
            r,
            id,
            OutcomeView::Error(-32601, "Method not found: "@ + method),
        )
    }
}

fn id_of(req: &RpcRequest) -> (r: RpcId)
    ensures
        r@ == request_id(*req),
{
    match &req.id {
        Some(RpcId::Number(n)) => RpcId::Number(*n),
        Some(RpcId::Text(t)) => RpcId::Text(t.clone()),
        Some(RpcId::Null) => RpcId::Null,
        None => RpcId::Null,
    }
}

/// Handle a message: a request, or why it is none. Every request is answered under its own
/// id, but for the notification that the client is ready.
pub fn handle_message(message: &Result<RpcRequest, String>) -> (h: Handled)
    ensures
        match *message {
            Ok(req) => is_handled(req, h),
            Err(e) => h matches Handled::Reply(r) && is_reply(
                r,
                IdView::Null,
                OutcomeView::Error(-32700, "Parse error: "@ + e@),
            ),
        },
{
    let req = match message {
        Ok(r) => r,
        Err(e) => {
            let mut t = "Parse error: ".to_owned();
            t.append(e.as_str());
            return Handled::Reply(
                RpcResponse { id: RpcId::Null, outcome: RpcOutcome::Error(-32700, t) },
            );
        },
    };
    let id = id_of(req);
    let method = req.method.as_str();
    if same_text(method, "initialize") {
        return Handled::Reply(RpcResponse { id, outcome: RpcOutcome::Welcome });
    }
    if same_text(method, "notifications/initialized") {
        return Handled::Silent;
    }
    if same_text(method, "tools/list") {
        return Handled::Reply(RpcResponse { id, outcome: RpcOutcome::Tools });
    }
    if same_text(method, "tools/call") {
        let name = req.params.word("name");
        let none = Json::Object(Vec::new());
        assert(none@ == JsonView::Object(seq![])) by {
            assert(json::members(Seq::<(String, Json)>::empty()) =~= seq![]);
        }
        let call = match req.params.get("arguments") {
            Some(a) => dispatch_tool(name.as_str(), a),
            None => dispatch_tool(name.as_str(), &none),
        };
        return Handled::Call(id, call);
    }
    if same_text(method, "ping") {
        return Handled::Reply(RpcResponse { id, outcome: RpcOutcome::Empty });
    }
    let mut t = "Method not found: ".to_owned();
    t.append(method);
    Handled::Reply(RpcResponse { id, outcome: RpcOutcome::Error(-32601, t) })
}

/// The reply that carries the text of a tool.
pub fn tool_reply(id: RpcId, text: String) -> (r: RpcResponse)
    ensures
        is_reply(r, id@, OutcomeView::Text(text@)),
{
    RpcResponse { id, outcome: RpcOutcome::Text(text) }
}

// ---------------------------------------------------------------------------
// How much is fetched
// ---------------------------------------------------------------------------

/// How many candidates are fetched: as many as the reranker looks at, where it is on and
/// loaded, else as many as are asked for.
pub open spec fn fetch_limit(cfg: Option<RerankerConfig>, loaded: bool, limit: nat) -> nat {
    match cfg {
        Some(c) => if c.enabled && loaded {
            c.top_k as nat
        } else {
            limit
        },
        None => limit,
    }
}

/// How many candidates are fetched.
pub fn reranker_fetch_limit(cfg: &Option<RerankerConfig>, loaded: bool, limit: usize) -> (r: usize)
    ensures
        r == fetch_limit(*cfg, loaded, limit as nat),
{
    match cfg {
        Some(c) => {
            if c.enabled && loaded {
                c.top_k
            } else {
                limit
            }
        },
        None => limit,
    }
}

/// How many symbols are fetched for the context of a task: at least twice as many as are
/// asked for.
pub fn context_fetch_limit(cfg: &Option<RerankerConfig>, loaded: bool, limit: usize) -> (r: usize)
    requires
        limit * 2 <= usize::MAX,
    ensures
        r == (if fetch_limit(*cfg, loaded, limit as nat) > limit * 2 {
            fetch_limit(*cfg, loaded, limit as nat)
        } else {
            (limit * 2) as nat
        }),
{
    let n: usize = reranker_fetch_limit(cfg, loaded, limit);
    if n > limit * 2 {
        n
    } else {
        limit * 2
    }
}

/// How many candidates each index gives to a query over all packages: at least twenty.
pub fn query_fetch_limit(cfg: &Option<RerankerConfig>, loaded: bool, limit: usize) -> (r: usize)
    ensures
        r == (if fetch_limit(*cfg, loaded, limit as nat) > 20 {
            fetch_limit(*cfg, loaded, limit as nat)
        } else {
            20
        }),
{
    let n: usize = reranker_fetch_limit(cfg, loaded, limit);
    if n > 20 {
        n
    } else {
        20
    }
}

proof fn lemma_tool_names()
    ensures
        "list_packages"@ != "docs_metadata"@,
        "list_packages"@.len() == 13,
        "docs_metadata"@.len() == 13,
        "search_symbols"@.len() == 14,
        "get_context"@.len() == 11,
        "get_callers"@.len() == 11,
        "get_callees"@.len() == 11,
        "search_docs"@.len() == 11,
        "search_code"@.len() == 11,
        "read_symbol"@.len() == 11,
        "get_impact"@.len() == 10,
        "list_files"@.len() == 10,
        "read_code"@.len() == 9,
        "query"@.len() == 5,
        "get_context"@ != "get_callers"@,
        "get_context"@ != "get_callees"@,
        "get_callers"@ != "get_callees"@,
        "search_docs"@ != "search_code"@,
        "search_docs"@ != "get_context"@,
        "search_docs"@ != "get_callers"@,
        "search_docs"@ != "get_callees"@,
        "search_code"@ != "get_context"@,
        "search_code"@ != "get_callers"@,
        "search_code"@ != "get_callees"@,
        "read_symbol"@ != "get_context"@,
        "read_symbol"@ != "get_callers"@,
        "read_symbol"@ != "get_callees"@,
        "read_symbol"@ != "search_docs"@,
        "read_symbol"@ != "search_code"@,
        "get_impact"@ != "list_files"@,
{
    reveal_strlit("list_packages");
    reveal_strlit("docs_metadata");
    reveal_strlit("search_symbols");
    reveal_strlit("get_context");
    reveal_strlit("get_callers");
    reveal_strlit("get_callees");
    reveal_strlit("search_docs");
    reveal_strlit("search_code");
    reveal_strlit("read_symbol");
    reveal_strlit("get_impact");
    reveal_strlit("list_files");
    reveal_strlit("read_code");
    reveal_strlit("query");
    assert("list_packages"@[0] == 'l' && "docs_metadata"@[0] == 'd');
    assert("get_context"@[0] == 'g' && "get_callers"@[0] == 'g' && "get_callees"@[0] == 'g');
    assert("search_docs"@[0] == 's' && "search_code"@[0] == 's' && "read_symbol"@[0] == 'r');
    assert("get_context"@[5] == 'o' && "get_callers"@[5] == 'a' && "get_callees"@[5] == 'a');
    assert("get_callers"@[9] == 'r' && "get_callees"@[9] == 'e');
    assert("search_docs"@[7] == 'd' && "search_code"@[7] == 'c');
    assert("get_impact"@[0] == 'g' && "list_files"@[0] == 'l');
}

/// The arguments that are given to a tool are those that it is called with, whichever they
/// are.
pub proof fn given_arguments_are_used(
    args: JsonView,
    package: Seq<char>,
    query: Seq<char>,
    symbol: Seq<char>,
    task: Seq<char>,
    file: Seq<char>,
    limit: u64,
    depth: u64,
    line: u64,
)
    requires
        json::member(args, "package"@) == Some(JsonView::Text(package)),
        json::member(args, "query"@) == Some(JsonView::Text(query)),
        json::member(args, "symbol"@) == Some(JsonView::Text(symbol)),
        json::member(args, "task"@) == Some(JsonView::Text(task)),
        json::member(args, "file"@) == Some(JsonView::Text(file)),
        json::member(args, "limit"@) matches Some(JsonView::Number(n, _, _)) && n == Some(limit),
        json::member(args, "depth"@) matches Some(JsonView::Number(n, _, _)) && n == Some(depth),
        json::member(args, "line"@) matches Some(JsonView::Number(n, _, _)) && n == Some(line),
        line <= u32::MAX,
    ensures
        ({
            let kind = match json::member(args, "kind"@) {
                Some(JsonView::Text(t)) => Some(t),
                _ => None,
            };
            let filter = match json::member(args, "filter"@) {
                Some(JsonView::Text(t)) => Some(t),
                _ => None,
            };
            &&& call_of("list_packages"@, args) == CallView::ListPackages
            &&& call_of("search_symbols"@, args) == CallView::SearchSymbols(
                package,
                query,
                kind,
                limit,
            )
            &&& call_of("get_context"@, args) == CallView::GetContext(package, task, limit)
            &&& call_of("get_callers"@, args) == CallView::GetCallers(package, symbol, limit)
            &&& call_of("get_callees"@, args) == CallView::GetCallees(package, symbol, limit)
            &&& call_of("get_impact"@, args) == CallView::GetImpact(package, symbol, depth)
            &&& call_of("list_files"@, args) == CallView::ListFiles(package, filter, limit)
            &&& call_of("search_docs"@, args) == CallView::SearchDocs(package, query, limit)
            &&& call_of("docs_metadata"@, args) == CallView::DocsMetadata(package)
            &&& call_of("search_code"@, args) == CallView::SearchCode(package, query, kind, limit)
            &&& call_of("read_symbol"@, args) == CallView::ReadSymbol(package, symbol)
            &&& call_of("read_code"@, args) == CallView::ReadCode(package, file, line as u32)
            &&& call_of("query"@, args) == CallView::Query(query, limit)
        }),
{
    lemma_tool_names();
}

/// Numbers that are not given have their defaults.
pub proof fn numbers_that_are_not_given_have_defaults(args: JsonView)
    requires
        json::member(args, "limit"@) is None,
        json::member(args, "depth"@) is None,
    ensures
        call_of("search_symbols"@, args)->SearchSymbols_3 == 20,
        call_of("get_context"@, args)->GetContext_2 == 20,
        call_of("get_callers"@, args)->GetCallers_2 == 20,
        call_of("get_callees"@, args)->GetCallees_2 == 20,
        call_of("get_impact"@, args)->GetImpact_2 == 3,
        call_of("list_files"@, args)->ListFiles_2 == 200,
        call_of("search_docs"@, args)->SearchDocs_2 == 10,
        call_of("search_code"@, args)->SearchCode_3 == 10,
        call_of("query"@, args)->Query_1 == 10,
{
    lemma_tool_names();
}

/// A call of a tool goes out under the id of its request, with the name and the arguments
/// that the request has.
pub proof fn calls_keep_their_request(
    req: RpcRequest,
    h: Handled,
    name: Seq<char>,
    args: JsonView,
)
    requires
        is_handled(req, h),
        req.method@ == "tools/call"@,
        json::member(req.params@, "name"@) == Some(JsonView::Text(name)),
        json::member(req.params@, "arguments"@) == Some(args),
    ensures
        h is Call,
        h->Call_1@ == call_of(name, args),
        match req.id {
            Some(id) => h->Call_0@ == id@,
            None => h->Call_0@ == IdView::Null,
        },
{
    reveal_strlit("tools/call");
    reveal_strlit("initialize");
    reveal_strlit("notifications/initialized");
    reveal_strlit("tools/list");
    assert("tools/call"@[0] == 't' && "initialize"@[0] == 'i' && "tools/call"@[6] == 'c'
        && "tools/list"@[6] == 'l');
    assert("notifications/initialized"@.len() != "tools/call"@.len());
}

/// No request but the notification that the client is ready goes without an answer, and every
/// answer has the id of its request.
pub proof fn every_request_is_answered(req: RpcRequest, h: Handled)
    requires
        is_handled(req, h),
        req.method@ != "notifications/initialized"@,
    ensures
        !(h is Silent),
        h matches Handled::Reply(r) ==> match req.id {
            Some(id) => r.id@ == id@,
            None => r.id@ == IdView::Null,
        },
        h matches Handled::Reply(r) ==> (r.outcome@ is Error <==> req.method@ != "initialize"@
            && req.method@ != "tools/list"@ && req.method@ != "ping"@),
{
}

/// A reranker that is on and loaded is given as many candidates as it looks at; without one
/// as many are fetched as are asked for.
pub proof fn a_reranker_gets_its_candidates(cfg: RerankerConfig, limit: nat)
    ensures
        cfg.enabled ==> fetch_limit(Some(cfg), true, limit) == cfg.top_k,
        !cfg.enabled ==> fetch_limit(Some(cfg), true, limit) == limit,
        fetch_limit(Some(cfg), false, limit) == limit,
        fetch_limit(None, true, limit) == limit,
{
}

} // verus!
