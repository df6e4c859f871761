//! Capabilities behind an HTTP endpoint that speaks the OpenAI wire format: what is sent,
//! and what is made of the reply.

use vstd::prelude::*;

use crate::json;
use crate::json::{number, push_member, text_list, Json, JsonNumber, JsonView};
use crate::pieces;
use crate::pieces::write_decimal;
use crate::providers::OpenAiProviderConfig;
use crate::text;
use crate::text::{starts_with_text, trim_end_text, trim_text, CharClass};

verus! {

// ---------------------------------------------------------------------------
// The endpoint
// ---------------------------------------------------------------------------

/// The base of an API, without the slashes that it may end in.
pub open spec fn base(cfg: OpenAiProviderConfig) -> Seq<char> {
    text::trim_end(cfg.api_base@, CharClass::Is('/'))
}

/// Where embeddings are asked for.
pub fn embeddings_url(cfg: &OpenAiProviderConfig) -> (r: String)
    ensures
        r@ == base(*cfg) + "/embeddings"@,
{
    let mut r = trim_end_text(cfg.api_base.as_str(), CharClass::Is('/'));
    r.append("/embeddings");
    r
}

/// Where a chat is held.
pub fn chat_url(cfg: &OpenAiProviderConfig) -> (r: String)
    ensures
        r@ == base(*cfg) + "/chat/completions"@,
{
    let mut r = trim_end_text(cfg.api_base.as_str(), CharClass::Is('/'));
    r.append("/chat/completions");
    r
}

/// How the vectors of a remote model are recorded.
pub fn remote_model_id(cfg: &OpenAiProviderConfig) -> (r: String)
    ensures
        r@ == "openai:"@ + cfg.model@,
{
    let mut r = "openai:".to_owned();
    r.append(cfg.model.as_str());
    r
}

/// The key of an API, which is never part of the settings: they name the variable that
/// holds it. `found` is what that variable holds.
pub fn resolve_api_key(cfg: &OpenAiProviderConfig, found: Option<&str>) -> (r: Result<
    String,
    String,
>)
    ensures
        match r {
            Ok(k) => pieces::opt_str(found) == Some(k@),
            Err(e) => found is None && e@ == "OpenAI provider requires the `"@ + cfg.api_key_env@
                + "` environment variable to be set (api_key_env in [*.openai] config block). Set it to your API key and retry."@,
        },
{
    match found {
        Some(k) => Ok(k.to_owned()),
        None => {
            let mut e = "OpenAI provider requires the `".to_owned();
            e.append(cfg.api_key_env.as_str());
            e.append(
                "` environment variable to be set (api_key_env in [*.openai] config block). Set it to your API key and retry.",
            );
            Err(e)
        },
    }
}

// ---------------------------------------------------------------------------
// Requests
// ---------------------------------------------------------------------------

/// The request for the vectors of texts.
pub open spec fn embeddings_tree(model: Seq<char>, inputs: Seq<Seq<char>>) -> JsonView {
    JsonView::Object(
        seq![
            ("model"@, JsonView::Text(model)),
            ("input"@, JsonView::List(json::text_trees(inputs))),
        ],
    )
}

/// The request for the vectors of texts.
pub fn embeddings_request(model: &str, inputs: &Vec<String>) -> (r: Json)
    ensures
        r@ == embeddings_tree(model@, pieces::texts(inputs@)),
{
    let mut v: Vec<(String, Json)> = Vec::new();
    assert(json::members(v@) =~= seq![]);
    push_member(&mut v, "model", Json::Text(model.to_owned()));
    push_member(&mut v, "input", text_list(inputs));
    let r = Json::Object(v);
    assert(json::members(v@) =~= embeddings_tree(
        model@,
        pieces::texts(inputs@),
    )->Object_0);
    r
}

/// One turn of a chat.
pub open spec fn message_tree(role: Seq<char>, content: Seq<char>) -> JsonView {
    JsonView::Object(
        seq![("role"@, JsonView::Text(role)), ("content"@, JsonView::Text(content))],
    )
}

fn message(role: &str, content: &str) -> (r: Json)
    ensures
        r@ == message_tree(role@, content@),
{
    let mut v: Vec<(String, Json)> = Vec::new();
    assert(json::members(v@) =~= seq![]);
    push_member(&mut v, "role", Json::Text(role.to_owned()));
    push_member(&mut v, "content", Json::Text(content.to_owned()));
    let r = Json::Object(v);
    assert(json::members(v@) =~= message_tree(role@, content@)->Object_0);
    r
}

/// The turns of a chat: what the model is told, and what it is asked.
pub open spec fn messages_tree(system: Seq<char>, user: Seq<char>) -> JsonView {
    JsonView::List(seq![message_tree("system"@, system), message_tree("user"@, user)])
}

fn messages(system: &str, user: &str) -> (r: Json)
    ensures
        r@ == messages_tree(system@, user@),
{
    let mut v: Vec<Json> = Vec::new();
    assert(json::trees(v@) =~= seq![]);
    v.push(message("system", system));
    let ghost one = v@;
    assert(one.drop_last() =~= seq![]);
    assert(json::trees(one) =~= seq![message_tree("system"@, system@)]);
    v.push(message("user", user));
    assert(v@.drop_last() =~= one);
    assert(json::trees(v@) =~= messages_tree(system@, user@)->List_0);
    Json::List(v)
}

/// A number that is no whole one, by how it is written.
pub open spec fn fraction_tree(shown: Seq<char>) -> JsonView {
    JsonView::Number(None, None, shown)
}

fn fraction(shown: &str) -> (r: Json)
    ensures
        r@ == fraction_tree(shown@),
{
    Json::Number(JsonNumber { whole: None, signed: None, shown: shown.to_owned() })
}

/// What a model is told that judges relevance.
pub const JUDGE: &'static str = "You are a relevance judge. Answer only \"yes\" if the Document answers the Query, or \"no\" if it does not. No other text.";

/// What a model is asked that judges relevance.
pub open spec fn judge_question(query: Seq<char>, document: Seq<char>) -> Seq<char> {
    "Query: "@ + query + "\n\nDocument:\n"@ + document
        + "\n\nDoes this document answer the query? (yes/no)"@
}

/// The request for a judgement: a short answer, with the likelihoods of its words.
pub open spec fn judge_tree(model: Seq<char>, query: Seq<char>, document: Seq<char>) -> JsonView {
    JsonView::Object(
        seq![
            ("model"@, JsonView::Text(model)),
            ("messages"@, messages_tree(JUDGE@, judge_question(query, document))),
            ("max_tokens"@, json::number_tree(5)),
            ("temperature"@, fraction_tree("0.0"@)),
            ("logprobs"@, JsonView::Flag(true)),
            ("top_logprobs"@, json::number_tree(5)),
        ],
    )
}

/// The request for a judgement.
pub fn judge_request(model: &str, query: &str, document: &str) -> (r: Json)
    ensures
        r@ == judge_tree(model@, query@, document@),
{
    let mut user = "Query: ".to_owned();
    user.append(query);
    user.append("\n\nDocument:\n");
    user.append(document);
    user.append("\n\nDoes this document answer the query? (yes/no)");
    let mut v: Vec<(String, Json)> = Vec::new();
    assert(json::members(v@) =~= seq![]);
    push_member(&mut v, "model", Json::Text(model.to_owned()));
    push_member(&mut v, "messages", messages(JUDGE, user.as_str()));
    push_member(&mut v, "max_tokens", number(5));
    push_member(&mut v, "temperature", fraction("0.0"));
    push_member(&mut v, "logprobs", Json::Flag(true));
    push_member(&mut v, "top_logprobs", number(5));
    let r = Json::Object(v);
    assert(json::members(v@) =~= judge_tree(model@, query@, document@)->Object_0);
    r
}

/// What a model is told that expands queries.
pub open spec fn expander(max_variants: nat) -> Seq<char> {
    "You expand search queries into typed variants. Output ONLY lines in this format, no preamble:\nlex: <keyword/BM25 variant>\nvec: <semantic search phrase>\nhyde: <short hypothetical document excerpt>\nProduce at most "@
        + pieces::decimal(max_variants) + " lines total."@
}

/// The request for variants of a query.
pub open spec fn expand_tree(model: Seq<char>, query: Seq<char>, max_variants: nat) -> JsonView {
    JsonView::Object(
        seq![
            ("model"@, JsonView::Text(model)),
            ("messages"@, messages_tree(expander(max_variants), query)),
            ("max_tokens"@, json::number_tree(256)),
            ("temperature"@, fraction_tree("0.7"@)),
        ],
    )
}

/// The request for variants of a query.
pub fn expand_request(model: &str, query: &str, max_variants: usize) -> (r: Json)
    ensures
        r@ == expand_tree(model@, query@, max_variants as nat),
{
    let mut system = "You expand search queries into typed variants. Output ONLY lines in this format, no preamble:\nlex: <keyword/BM25 variant>\nvec: <semantic search phrase>\nhyde: <short hypothetical document excerpt>\nProduce at most ".to_owned();
    system.append(write_decimal(max_variants as u64).as_str());
    system.append(" lines total.");
    let mut v: Vec<(String, Json)> = Vec::new();
    assert(json::members(v@) =~= seq![]);
    push_member(&mut v, "model", Json::Text(model.to_owned()));
    push_member(&mut v, "messages", messages(system.as_str(), query));
    push_member(&mut v, "max_tokens", number(256));
    push_member(&mut v, "temperature", fraction("0.7"));
    let r = Json::Object(v);
    assert(json::members(v@) =~= expand_tree(model@, query@, max_variants as nat)->Object_0);
    r
}

// ---------------------------------------------------------------------------
// Replies
// ---------------------------------------------------------------------------

/// The text of a reply; a reply without one is the empty text.
pub fn reply_text(message: &Json) -> (r: String)
    ensures
        r@ == json::word(message@, "content"@),
{
    message.word("content")
}

/// A judgement that was put into words.
#[derive(Debug, Clone)]
pub enum Answer {
    Yes,
    No,
    /// Something else, which may be a number.
    Other(String),
}

/// What a word of a reply says, whatever the case of its letters and the white space
/// around it.
pub open spec fn plain(t: Seq<char>) -> Seq<char> {
    text::lowercased(text::trim(t, CharClass::Space))
}

/// The judgement that a text is. "yes" counts before "no".
pub open spec fn is_answer(t: Seq<char>, a: Answer) -> bool {
    if text::starts_with(plain(t), "yes"@) {
        a is Yes
    } else if text::starts_with(plain(t), "no"@) {
        a is No
    } else {
        a matches Answer::Other(s) && s@ == plain(t)
    }
}

/// The judgement that a text is.
pub fn read_answer(t: &str) -> (a: Answer)
    ensures
        is_answer(t@, a),
{
    let p = trim_text(t).to_lowercase();
    if starts_with_text(p.as_str(), "yes") {
        Answer::Yes
    } else if starts_with_text(p.as_str(), "no") {
        Answer::No
    } else {
        Answer::Other(p)
    }
}

/// How a number is written, where a value is one.
pub open spec fn as_number(v: Option<JsonView>) -> Option<Seq<char>> {
    match v {
        Some(JsonView::Number(_, _, shown)) => Some(shown),
        _ => None,
    }
}

/// How likely a candidate for the first word is, where it is a word that begins so.
pub open spec fn likelihood(entry: JsonView, word: Seq<char>) -> Option<Seq<char>> {
    match (json::as_text(json::member(entry, "token"@)), as_number(json::member(entry, "logprob"@))) {
        (Some(t), Some(p)) => if text::starts_with(plain(t), word) {
            Some(p)
        } else {
            None
        },
        _ => None,
    }
}

/// How likely the first candidate is that begins with a word.
pub open spec fn first_likelihood(entries: Seq<JsonView>, word: Seq<char>) -> Option<Seq<char>>
    decreases entries.len(),
{
    if entries.len() == 0 {
        None
    } else {
        match likelihood(entries[0], word) {
            Some(p) => Some(p),
            None => first_likelihood(entries.drop_first(), word),
        }
    }
}

/// The items of a member that is a list.
pub open spec fn list_member(v: JsonView, key: Seq<char>) -> Option<Seq<JsonView>> {
    match json::member(v, key) {
        Some(JsonView::List(items)) => Some(items),
        _ => None,
    }
}

/// The candidates for a reply's first word.
pub open spec fn first_candidates(logprobs: Option<JsonView>) -> Seq<JsonView> {
    match logprobs {
        Some(v) => match list_member(v, "content"@) {
            Some(items) => if items.len() > 0 {
                match list_member(items[0], "top_logprobs"@) {
                    Some(entries) => entries,
                    None => seq![],
                }
            } else {
                seq![]
            },
            None => seq![],
        },
        None => seq![],
    }
}

/// What a reply says of a document: how likely "yes" is, and how likely "no" is, where it
/// tells, and the judgement in words that counts where it does not. The likelihoods are
/// logarithms.
#[derive(Debug, Clone)]
pub struct Verdict {
    pub yes: Option<String>,
    pub no: Option<String>,
    pub answer: Answer,
}

/// What a reply says of a document.
pub open spec fn is_verdict(message: JsonView, logprobs: Option<JsonView>, v: Verdict) -> bool {
    let entries = first_candidates(logprobs);
    pieces::opt_text(v.yes) == first_likelihood(entries, "yes"@) && pieces::opt_text(v.no)
        == first_likelihood(entries, "no"@) && is_answer(json::word(message, "content"@), v.answer)
}

fn find_likelihood(entries: &Vec<Json>, word: &str) -> (r: Option<String>)
    ensures
        pieces::opt_text(r) == first_likelihood(json::trees(entries@), word@),
{
    let ghost all = json::trees(entries@);
    proof {
        json::lemma_trees(entries@);
        assert(all.skip(0) =~= all);
    }
    let mut i: usize = 0;
    while i < entries.len()
        invariant
            i <= entries@.len(),
            all == json::trees(entries@),
            all.len() == entries@.len(),
            forall|j: int| 0 <= j < entries@.len() ==> all[j] == json::tree(#[trigger] entries@[j]),
            first_likelihood(all, word@) == first_likelihood(all.skip(i as int), word@),
        decreases entries.len() - i,
    {
        let e = &entries[i];
        proof {
            assert(all.skip(i as int)[0] == all[i as int]);
            assert(all[i as int] == e@);
            assert(all.skip(i as int).drop_first() =~= all.skip(i + 1));
        }
        match (e.text_member("token"), e.get("logprob")) {
            (Some(t), Some(Json::Number(n))) => {
                let p = trim_text(t).to_lowercase();
                if starts_with_text(p.as_str(), word) {
                    return Some(n.shown.clone());
                }
            },
            _ => {},
        }
        i = i + 1;
    }
    None
}

fn candidates<'a>(logprobs: Option<&'a Json>) -> (r: Option<&'a Vec<Json>>)
    ensures
        match r {
            Some(v) => json::trees(v@) == first_candidates(
                match logprobs {
                    Some(j) => Some(j@),
                    None => None,
                },
            ),
            None => first_candidates(
                match logprobs {
                    Some(j) => Some(j@),
                    None => None,
                },
            ).len() == 0,
        },
{
    match logprobs {
        Some(j) => match j.get("content") {
            Some(Json::List(items)) => {
                proof {
                    json::lemma_trees(items@);
                }
                if items.len() == 0 {
                    return None;
                }
                assert(json::trees(items@)[0] == json::tree(items@[0]));
                match items[0].get("top_logprobs") {
                    Some(Json::List(entries)) => Some(entries),
                    _ => None,
                }
            },
            _ => None,
        },
        None => None,
    }
}

/// What a reply says of a document.
pub fn read_verdict(message: &Json, logprobs: Option<&Json>) -> (v: Verdict)
    ensures
        is_verdict(
            message@,
            match logprobs {
                Some(j) => Some(j@),
                None => None,
            },
            v,
        ),
{
    let (yes, no) = match candidates(logprobs) {
        Some(entries) => (find_likelihood(entries, "yes"), find_likelihood(entries, "no")),
        None => (None, None),
    };
    let content = message.word("content");
    Verdict { yes, no, answer: read_answer(content.as_str()) }
}

/// How a document is scored.
#[derive(Debug, Clone)]
pub enum Scoring {
    /// By the likelihood of "yes" against that of "no"; where both are nil, as the answer
    /// says.
    Against(String, String, Answer),
    /// By the likelihood of "yes", one at most.
    Alone(String),
    /// As the answer says: "yes" is one, "no" is nil, a number is itself between nil and
    /// one, and anything else is nil.
    InWords(Answer),
}

/// How a document is scored by what a reply says of it: likelihoods count before words,
/// and that of "no" alone says nothing.
pub open spec fn is_scoring(v: Verdict, s: Scoring) -> bool {
    match (v.yes, v.no) {
        (Some(y), Some(n)) => s matches Scoring::Against(a, b, w) && a@ == y@ && b@ == n@ && w
            == v.answer,
        (Some(y), None) => s matches Scoring::Alone(a) && a@ == y@,
        _ => s == Scoring::InWords(v.answer),
    }
}

/// How a document is scored by what a reply says of it.
pub fn chat_score(v: Verdict) -> (s: Scoring)
    ensures
        is_scoring(v, s),
{
    match (v.yes, v.no) {
        (Some(y), Some(n)) => Scoring::Against(y, n, v.answer),
        (Some(y), None) => Scoring::Alone(y),
        (None, _) => Scoring::InWords(v.answer),
    }
}

/// The likelihood of a word is that of the first candidate that begins with the word, whatever
/// stands behind it.
pub proof fn the_first_likelihood_counts(entries: Seq<JsonView>, word: Seq<char>, i: int)
    ensures
        0 <= i < entries.len() && likelihood(entries[i], word) is Some && (forall|j: int|
            0 <= j < i ==> likelihood(#[trigger] entries[j], word) is None) ==> first_likelihood(
            entries,
            word,
        ) == likelihood(entries[i], word),
        (forall|j: int| 0 <= j < entries.len() ==> likelihood(#[trigger] entries[j], word) is None)
            ==> first_likelihood(entries, word) is None,
    decreases entries.len(),
{
    if entries.len() > 0 && likelihood(entries[0], word) is None {
        let t = entries.drop_first();
        the_first_likelihood_counts(t, word, i - 1);
        assert(forall|j: int| 0 <= j < t.len() ==> #[trigger] t[j] == entries[j + 1]);
        if 0 <= i < entries.len() && likelihood(entries[i], word) is Some && (forall|j: int|
            0 <= j < i ==> likelihood(#[trigger] entries[j], word) is None) {
            assert(t[i - 1] == entries[i]);
            assert forall|j: int| 0 <= j < i - 1 implies likelihood(#[trigger] t[j], word) is None by {
                assert(t[j] == entries[j + 1]);
            }
        }
        if forall|j: int| 0 <= j < entries.len() ==> likelihood(#[trigger] entries[j], word) is None {
            assert forall|j: int| 0 <= j < t.len() implies likelihood(#[trigger] t[j], word) is None by {
                assert(t[j] == entries[j + 1]);
            }
        }
    } else if entries.len() > 0 {
        if 0 < i < entries.len() && (forall|j: int|
            0 <= j < i ==> likelihood(#[trigger] entries[j], word) is None) {
            assert(likelihood(entries[0], word) is None);
        }
    }
}

/// Both likelihoods count where both are known, that of "yes" where it is known alone, and
/// what the answer says in every other case.
pub proof fn likelihoods_count_before_words(v: Verdict, s: Scoring)
    requires
        is_scoring(v, s),
    ensures
        v.yes is Some && v.no is Some ==> s is Against && s->Against_0@ == v.yes->0@ && s->Against_1@
            == v.no->0@ && s->Against_2 == v.answer,
        v.yes is Some && v.no is None ==> s is Alone && s->Alone_0@ == v.yes->0@,
        v.yes is None ==> s is InWords && s->InWords_0 == v.answer,
{
}

/// An answer is "yes" or "no" where it begins so, whatever its case and the white space around
/// it.
pub proof fn answers_are_read(t: Seq<char>, a: Answer)
    requires
        is_answer(t, a),
    ensures
        ({
            let p = text::lowercased(text::trim(t, CharClass::Space));
            &&& text::starts_with(p, "yes"@) <==> a is Yes
            &&& text::starts_with(p, "no"@) <==> a is No
            &&& a is Other ==> a->Other_0@ == p
        }),
{
    reveal_strlit("yes");
    reveal_strlit("no");
    let p = plain(t);
    if text::starts_with(p, "yes"@) && text::starts_with(p, "no"@) {
        assert(p.subrange(0, 3)[0] == 'y');
        assert(p.subrange(0, 2)[0] == 'n');
        assert(p[0] == 'y' && p[0] == 'n');
    }
}

/// What a reply says of a document is what its words and their likelihoods say.
pub proof fn verdicts_are_read(message: JsonView, logprobs: Option<JsonView>, v: Verdict)
    requires
        is_verdict(message, logprobs, v),
    ensures
        is_answer(json::word(message, "content"@), v.answer),
        v.yes is Some ==> first_likelihood(first_candidates(logprobs), "yes"@) == Some(v.yes->0@),
        v.no is Some ==> first_likelihood(first_candidates(logprobs), "no"@) == Some(v.no->0@),
        v.yes is None ==> first_likelihood(first_candidates(logprobs), "yes"@) is None,
        v.no is None ==> first_likelihood(first_candidates(logprobs), "no"@) is None,
        logprobs is None ==> v.yes is None && v.no is None,
{
}

} // verus!
