//! What models that run in this process are given, and how long they write.

use vstd::prelude::*;

use crate::chunker;
use crate::embedding;
use crate::embedding::EmbeddingModel;
use crate::pieces;
use crate::pieces::write_decimal;
use crate::text::chars_of;

verus! {

// ---------------------------------------------------------------------------
// Loading
// ---------------------------------------------------------------------------

/// What a model is for.
#[derive(Debug, Clone, Copy, PartialEq, Eq, Structural)]
pub enum Task {
    Embedding,
    Reranking,
    Expansion,
}

/// What is said of a model whose file is missing.
pub open spec fn missing_text(t: Task, path: Seq<char>) -> Seq<char> {
    match t {
        Task::Embedding => "Embedding model not found at "@ + path
            + ". Run `sempkg embedding pull` to download it."@,
        Task::Reranking => "Reranker model not found at "@ + path
            + ". Run `sempkg reranker pull` to download it."@,
        Task::Expansion => "Query-expansion model not found at "@ + path
            + ". Run `sempkg query-expansion pull`."@,
    }
}

/// Whether a model can be loaded: its file has to be there.
pub fn check_model(t: Task, path: &str, present: bool) -> (r: Result<(), String>)
    ensures
        match r {
            Ok(_) => present,
            Err(e) => !present && e@ == missing_text(t, path@),
        },
{
    if present {
        return Ok(());
    }
    let mut e = String::new();
    match t {
        Task::Embedding => {
            e.append("Embedding model not found at ");
            e.append(path);
            e.append(". Run `sempkg embedding pull` to download it.");
        },
        Task::Reranking => {
            e.append("Reranker model not found at ");
            e.append(path);
            e.append(". Run `sempkg reranker pull` to download it.");
        },
        Task::Expansion => {
            e.append("Query-expansion model not found at ");
            e.append(path);
            e.append(". Run `sempkg query-expansion pull`.");
        },
    }
    assert(e@ =~= missing_text(t, path@));
    Err(e)
}

/// What is said of a file whose vectors have another dimension than those of its model.
pub fn dimension_warning(m: EmbeddingModel, dim: usize) -> (r: Option<String>)
    ensures
        match r {
            None => dim == embedding::dimension(m),
            Some(w) => dim != embedding::dimension(m) && w@ == "sempkg: warning — "@
                + embedding::model_id(m) + " reports dim "@ + pieces::decimal(dim as nat) + " but "@
                + embedding::model_id(m) + " expects "@ + pieces::decimal(
                embedding::dimension(m) as nat,
            )
                + "; using "@ + pieces::decimal(dim as nat)
                + ". Is `model_id`/`model` pointing at the right GGUF?"@,
        },
{
    if dim == m.dim() {
        return None;
    }
    let told = write_decimal(dim as u64);
    let mut w = "sempkg: warning — ".to_owned();
    w.append(m.id());
    w.append(" reports dim ");
    w.append(told.as_str());
    w.append(" but ");
    w.append(m.id());
    w.append(" expects ");
    w.append(write_decimal(m.dim() as u64).as_str());
    w.append("; using ");
    w.append(told.as_str());
    w.append(". Is `model_id`/`model` pointing at the right GGUF?");
    Some(w)
}

// ---------------------------------------------------------------------------
// Reading
// ---------------------------------------------------------------------------

/// How many of the tokens of a text a vector is made of: as many as the context holds, and
/// one at least. A text without tokens has the zero vector.
pub fn embedded_tokens(tokens: usize, n_ctx: usize) -> (r: usize)
    ensures
        r <= tokens,
        tokens > 0 ==> r > 0,
        n_ctx > 0 ==> r == (if tokens < n_ctx {
            tokens
        } else {
            n_ctx
        }),
        n_ctx == 0 ==> r == (if tokens == 0 {
            0usize
        } else {
            1
        }),
{
    let room: usize = if n_ctx == 0 {
        1
    } else {
        n_ctx
    };
    if tokens < room {
        tokens
    } else {
        room
    }
}

/// How many of the tokens of a question about a document are read: as many as the context
/// holds.
pub fn scored_tokens(tokens: usize, n_ctx: usize) -> (r: usize)
    ensures
        r == (if tokens < n_ctx {
            tokens
        } else {
            n_ctx
        }),
{
    if tokens < n_ctx {
        tokens
    } else {
        n_ctx
    }
}

// ---------------------------------------------------------------------------
// Writing
// ---------------------------------------------------------------------------

/// What a model was found to write next.
#[derive(Debug, Clone)]
pub enum Sampled {
    /// The end of its text.
    End,
    /// A piece of text.
    Piece(String),
    /// Something that is no text.
    Unreadable,
}

/// The text that a model writes.
pub struct Generation {
    pub text: String,
    /// How many tokens the prompt has.
    pub prompt: i32,
    /// How many tokens were written.
    pub step: i32,
    pub max_tokens: i32,
    pub max_variants: usize,
}

/// A text has all the lines that are wanted: two more than there are variants.
pub open spec fn is_enough(t: Seq<char>, max_variants: nat) -> bool {
    chunker::breaks(t) > max_variants + 2
}

fn count_breaks(s: &str) -> (n: u128)
    ensures
        n == chunker::breaks(s@),
{
    let cs = chars_of(s);
    let mut n: u128 = 0;
    let mut i: usize = 0;
    assert(cs@.take(0) =~= seq![]);
    while i < cs.len()
        invariant
            i <= cs@.len(),
            n == chunker::breaks(cs@.take(i as int)),
            n <= i,
        decreases cs.len() - i,
    {
        assert(cs@.take(i + 1).drop_last() =~= cs@.take(i as int));
        if cs[i] == '\n' {
            n = n + 1;
        }
        i = i + 1;
    }
    assert(cs@.take(cs@.len() as int) =~= cs@);
    n
}

impl Generation {
    /// The place of every token that can still be written is a number.
    pub open spec fn wf(self) -> bool {
        0 <= self.prompt && 0 <= self.step && self.prompt + self.max_tokens <= i32::MAX
    }

    /// Begin to write behind a prompt, which has to leave room in the context.
    pub fn start(
        prompt_tokens: usize,
        n_ctx: usize,
        max_tokens: i32,
        max_variants: usize,
    ) -> (r: Result<Self, String>)
        requires
            prompt_tokens < n_ctx ==> prompt_tokens <= i32::MAX && prompt_tokens + max_tokens
                <= i32::MAX,
        ensures
            match r {
                Ok(g) => prompt_tokens < n_ctx && g.wf() && g.text@.len() == 0 && g.prompt
                    == prompt_tokens && g.step == 0 && g.max_tokens == max_tokens && g.max_variants
                    == max_variants,
                Err(e) => prompt_tokens >= n_ctx && e@ == "prompt exceeds context window"@,
            },
    {
        if prompt_tokens >= n_ctx {
            return Err("prompt exceeds context window".to_owned());
        }
        Ok(
            Generation {
                text: String::new(),
                prompt: prompt_tokens as i32,
                step: 0,
                max_tokens,
                max_variants,
            },
        )
    }

    /// Whether another token may be written.
    pub fn wants_more(&self) -> (r: bool)
        ensures
            r == (self.step < self.max_tokens),
    {
        self.step < self.max_tokens
    }

    /// Take what the model writes next. Returns where its token stands, which the model
    /// has to be told before it goes on; nothing where the text is done.
    pub fn take(&mut self, next: &Sampled) -> (r: Option<i32>)
        requires
            old(self).wf(),
            old(self).step < old(self).max_tokens,
        ensures
            final(self).wf(),
            final(self).prompt == old(self).prompt,
            final(self).max_tokens == old(self).max_tokens,
            final(self).max_variants == old(self).max_variants,
            final(self).text@ == (match *next {
                Sampled::Piece(p) => old(self).text@ + p@,
                _ => old(self).text@,
            }),
            r == (if next is End || (next is Piece && is_enough(
                final(self).text@,
                old(self).max_variants as nat,
            )) {
                None
            } else {
                Some((old(self).prompt + old(self).step) as i32)
            }),
            final(self).step == (match r {
                Some(_) => old(self).step + 1,
                None => old(self).step as int,
            }),
    {
        match next {
            Sampled::End => {
                return None;
            },
            Sampled::Piece(p) => {
                self.text.append(p.as_str());
                if count_breaks(self.text.as_str()) > self.max_variants as u128 + 2 {
                    return None;
                }
            },
            Sampled::Unreadable => {},
        }
        let at: i32 = self.prompt + self.step;
        self.step = self.step + 1;
        Some(at)
    }
}

/// A text is enough just where it has more line breaks than the lines that are wanted: all
/// variants and two more.
pub proof fn writing_goes_on_until_it_is_enough(t: Seq<char>, line: Seq<char>, max_variants: nat)
    ensures
        is_enough(t, max_variants) ==> is_enough(t + line, max_variants),
        is_enough(t, max_variants) <==> chunker::breaks(t) >= max_variants + 3,
        !is_enough(Seq::empty(), max_variants),
{
    chunker::line_breaks_add_up(t, line, 'a');
}

} // verus!
