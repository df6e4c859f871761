//! Query expansion: the prompt that asks a model for search variants, and what is
//! kept of the answer.

use vstd::prelude::*;
use vstd::slice::slice_subrange;

use crate::accel::GpuMode;
use crate::github::cut;
use crate::github;
use crate::pieces;
use crate::pieces::{has_member, lines_of, lower_ascii, split_class};
use crate::providers::{OpenAiProviderConfig, ProviderKind};
use crate::paths;
use crate::paths::join_path;
use crate::reranker;
use crate::reranker::{expand_tilde_in, home_dir, model_dir_in};
use crate::text;
use crate::text::{
    chars_of, same_text, search, string_of, strip_front, trim_class, trim_start_class, CharClass,
};

verus! {

/// Which retrieval backend a variant goes to.
#[derive(Debug, Clone, Copy, PartialEq, Eq, Structural)]
pub enum ExpansionKind {
    /// Keyword (full-text) search.
    Lexical,
    /// Semantic (vector) search, for `vec:` and `hyde:` variants.
    Vector,
}

/// One search variant with the backend that it goes to.
#[derive(Debug, Clone)]
pub struct ExpandedQuery {
    pub text: String,
    pub kind: ExpansionKind,
}

/// What a variant says.
pub ghost struct VariantView {
    pub text: Seq<char>,
    pub kind: ExpansionKind,
}

impl View for ExpandedQuery {
    type V = VariantView;

    open spec fn view(&self) -> VariantView {
        VariantView { text: self.text@, kind: self.kind }
    }
}

/// What each variant says.
pub open spec fn variant_views(v: Seq<ExpandedQuery>) -> Seq<VariantView> {
    v.map_values(|x: ExpandedQuery| x@)
}

// ---------------------------------------------------------------------------
// Words
// ---------------------------------------------------------------------------

/// A word that says nothing of a query's topic: natural-language glue, and the
/// filler that an expansion model is prone to.
pub open spec fn is_stopword(t: Seq<char>) -> bool {
    t == "a"@
        || t == "an"@
        || t == "and"@
        || t == "the"@
        || t == "to"@
        || t == "of"@
        || t == "for"@
        || t == "with"@
        || t == "in"@
        || t == "on"@
        || t == "at"@
        || t == "by"@
        || t == "from"@
        || t == "as"@
        || t == "into"@
        || t == "than"@
        || t == "that"@
        || t == "this"@
        || t == "these"@
        || t == "those"@
        || t == "or"@
        || t == "nor"@
        || t == "but"@
        || t == "is"@
        || t == "are"@
        || t == "be"@
        || t == "how"@
        || t == "what"@
        || t == "when"@
        || t == "where"@
        || t == "which"@
        || t == "who"@
        || t == "why"@
        || t == "do"@
        || t == "does"@
        || t == "using"@
        || t == "use"@
        || t == "via"@
        || t == "about"@
        || t == "best"@
        || t == "practices"@
        || t == "practice"@
        || t == "recommended"@
        || t == "approach"@
        || t == "approaches"@
        || t == "common"@
        || t == "general"@
        || t == "way"@
        || t == "ways"@
        || t == "guide"@
        || t == "tutorial"@
        || t == "example"@
        || t == "examples"@
        || t == "overview"@
        || t == "introduction"@
        || t == "tips"@
}

fn stopword(t: &str) -> (r: bool)
    ensures
        r == is_stopword(t@),
{
    same_text(t, "a")
        || same_text(t, "an")
        || same_text(t, "and")
        || same_text(t, "the")
        || same_text(t, "to")
        || same_text(t, "of")
        || same_text(t, "for")
        || same_text(t, "with")
        || same_text(t, "in")
        || same_text(t, "on")
        || same_text(t, "at")
        || same_text(t, "by")
        || same_text(t, "from")
        || same_text(t, "as")
        || same_text(t, "into")
        || same_text(t, "than")
        || same_text(t, "that")
        || same_text(t, "this")
        || same_text(t, "these")
        || same_text(t, "those")
        || same_text(t, "or")
        || same_text(t, "nor")
        || same_text(t, "but")
        || same_text(t, "is")
        || same_text(t, "are")
        || same_text(t, "be")
        || same_text(t, "how")
        || same_text(t, "what")
        || same_text(t, "when")
        || same_text(t, "where")
        || same_text(t, "which")
        || same_text(t, "who")
        || same_text(t, "why")
        || same_text(t, "do")
        || same_text(t, "does")
        || same_text(t, "using")
        || same_text(t, "use")
        || same_text(t, "via")
        || same_text(t, "about")
        || same_text(t, "best")
        || same_text(t, "practices")
        || same_text(t, "practice")
        || same_text(t, "recommended")
        || same_text(t, "approach")
        || same_text(t, "approaches")
        || same_text(t, "common")
        || same_text(t, "general")
        || same_text(t, "way")
        || same_text(t, "ways")
        || same_text(t, "guide")
        || same_text(t, "tutorial")
        || same_text(t, "example")
        || same_text(t, "examples")
        || same_text(t, "overview")
        || same_text(t, "introduction")
        || same_text(t, "tips")
}

/// A word that a usable variant does not end in: what ends in one is a fragment.
pub open spec fn is_dangling(t: Seq<char>) -> bool {
    t == "a"@
        || t == "an"@
        || t == "the"@
        || t == "to"@
        || t == "of"@
        || t == "for"@
        || t == "with"@
        || t == "in"@
        || t == "on"@
        || t == "at"@
        || t == "by"@
        || t == "from"@
        || t == "as"@
        || t == "into"@
        || t == "than"@
        || t == "that"@
        || t == "and"@
        || t == "or"@
        || t == "nor"@
        || t == "but"@
        || t == "is"@
        || t == "are"@
        || t == "be"@
        || t == "how"@
        || t == "what"@
        || t == "when"@
        || t == "which"@
        || t == "this"@
        || t == "these"@
        || t == "those"@
        || t == "using"@
        || t == "via"@
        || t == "about"@
}

fn dangling(t: &str) -> (r: bool)
    ensures
        r == is_dangling(t@),
{
    same_text(t, "a")
        || same_text(t, "an")
        || same_text(t, "the")
        || same_text(t, "to")
        || same_text(t, "of")
        || same_text(t, "for")
        || same_text(t, "with")
        || same_text(t, "in")
        || same_text(t, "on")
        || same_text(t, "at")
        || same_text(t, "by")
        || same_text(t, "from")
        || same_text(t, "as")
        || same_text(t, "into")
        || same_text(t, "than")
        || same_text(t, "that")
        || same_text(t, "and")
        || same_text(t, "or")
        || same_text(t, "nor")
        || same_text(t, "but")
        || same_text(t, "is")
        || same_text(t, "are")
        || same_text(t, "be")
        || same_text(t, "how")
        || same_text(t, "what")
        || same_text(t, "when")
        || same_text(t, "which")
        || same_text(t, "this")
        || same_text(t, "these")
        || same_text(t, "those")
        || same_text(t, "using")
        || same_text(t, "via")
        || same_text(t, "about")
}

/// The fewest characters that a usable variant has.
pub const MIN_VARIANT_CHARS: usize = 4;

/// The words among pieces that carry content, in small letters.
pub open spec fn content_words(ps: Seq<Seq<char>>) -> Seq<Seq<char>>
    decreases ps.len(),
{
    if ps.len() == 0 {
        seq![]
    } else {
        let head = content_words(ps.drop_last());
        let t = pieces::ascii_lowered(ps.last());
        if ps.last().len() == 0 || is_stopword(t) {
            head
        } else {
            head.push(t)
        }
    }
}

/// The content words of a text.
pub open spec fn content_of(s: Seq<char>) -> Seq<Seq<char>> {
    content_words(pieces::split(s, CharClass::NotAlnum))
}

fn content_tokens_of(s: &[char]) -> (r: Vec<String>)
    ensures
        pieces::texts(r@) == content_of(s@),
{
    let ps = split_class(s, CharClass::NotAlnum);
    let mut r: Vec<String> = Vec::new();
    let mut i: usize = 0;
    let ghost all = pieces::rows(ps@);
    while i < ps.len()
        invariant
            i <= ps@.len(),
            all == pieces::rows(ps@),
            pieces::texts(r@) == content_words(all.take(i as int)),
        decreases ps.len() - i,
    {
        let ghost before = pieces::texts(r@);
        let t = lower_ascii(ps[i].as_slice());
        proof {
            assert(all.take(i + 1).drop_last() =~= all.take(i as int));
            assert(all.take(i + 1).last() == ps@[i as int]@);
        }
        if ps[i].len() > 0 && !stopword(t.as_str()) {
            r.push(t);
            assert(pieces::texts(r@) =~= before.push(t@));
        }
        i = i + 1;
    }
    assert(all.take(ps@.len() as int) =~= all);
    r
}

/// The lower-case content words of a text, with function words removed.
pub fn content_tokens(s: &str) -> (r: Vec<String>)
    ensures
        pieces::texts(r@) == content_of(s@),
{
    let cs = chars_of(s);
    content_tokens_of(cs.as_slice())
}

/// The last piece that is not empty.
pub open spec fn last_word(ps: Seq<Seq<char>>) -> Option<Seq<char>>
    decreases ps.len(),
{
    if ps.len() == 0 {
        None
    } else if ps.last().len() > 0 {
        Some(ps.last())
    } else {
        last_word(ps.drop_last())
    }
}

/// Whether the last word of a text leaves it dangling.
pub open spec fn ends_dangling(s: Seq<char>) -> bool {
    match last_word(pieces::split(s, CharClass::NotAlnum)) {
        Some(w) => is_dangling(pieces::ascii_lowered(w)),
        None => false,
    }
}

fn is_cut_short(s: &[char]) -> (r: bool)
    ensures
        r == ends_dangling(s@),
{
    let ps = split_class(s, CharClass::NotAlnum);
    let ghost all = pieces::rows(ps@);
    let mut i: usize = ps.len();
    assert(all.take(ps@.len() as int) =~= all);
    while i > 0
        invariant
            i <= ps@.len(),
            all == pieces::rows(ps@),
            all == pieces::split(s@, CharClass::NotAlnum),
            last_word(all) == last_word(all.take(i as int)),
        decreases i,
    {
        assert(all.take(i as int).last() == ps@[i - 1]@);
        assert(all.take(i as int).drop_last() =~= all.take(i - 1));
        if ps[i - 1].len() > 0 {
            let w = lower_ascii(ps[i - 1].as_slice());
            return dangling(w.as_str());
        }
        i = i - 1;
    }
    false
}

/// Two lists of words have one in common.
pub open spec fn share_word(a: Seq<Seq<char>>, b: Seq<Seq<char>>) -> bool {
    exists|i: int| 0 <= i < a.len() && b.contains(#[trigger] a[i])
}

/// A variant that is safe to search by: it is long enough, does not break off, has
/// content, and shares a content word with the query where the query has any.
pub open spec fn acceptable(variant: Seq<char>, original: Seq<Seq<char>>) -> bool {
    let t = text::trim(variant, CharClass::Space);
    &&& t.len() >= MIN_VARIANT_CHARS
    &&& !ends_dangling(t)
    &&& content_of(t).len() > 0
    &&& original.len() == 0 || share_word(content_of(t), original)
}

/// Whether an expansion may be searched by, given the content words of the query.
pub fn variant_is_acceptable(variant: &str, original_tokens: &Vec<String>) -> (r: bool)
    ensures
        r == acceptable(variant@, pieces::texts(original_tokens@)),
{
    let cs = chars_of(variant);
    let t = trim_class(cs.as_slice(), CharClass::Space);
    if t.len() < MIN_VARIANT_CHARS || is_cut_short(t) {
        return false;
    }
    let words = content_tokens_of(t);
    if words.len() == 0 {
        return false;
    }
    if original_tokens.len() == 0 {
        return true;
    }
    let ghost ws = pieces::texts(words@);
    let ghost os = pieces::texts(original_tokens@);
    let mut i: usize = 0;
    while i < words.len()
        invariant
            i <= words@.len(),
            ws == pieces::texts(words@),
            ws == content_of(text::trim(variant@, CharClass::Space)),
            os == pieces::texts(original_tokens@),
            t@ == text::trim(variant@, CharClass::Space),
            t@.len() >= MIN_VARIANT_CHARS,
            !ends_dangling(t@),
            forall|j: int| 0 <= j < i ==> !os.contains(#[trigger] ws[j]),
        decreases words.len() - i,
    {
        if has_member(original_tokens, words[i].as_str()) {
            assert(os.contains(ws[i as int]));
            return true;
        }
        i = i + 1;
    }
    false
}

// ---------------------------------------------------------------------------
// The answer of the model
// ---------------------------------------------------------------------------

/// A text without the `<think>` block that it begins with.
pub open spec fn without_think(s: Seq<char>) -> Seq<char> {
    let t = text::trim_start(s, CharClass::Space);
    if text::starts_with(t, "<think>"@) {
        let rest = t.skip("<think>"@.len() as int);
        let end = text::find_text(rest, "</think>"@);
        if end >= 0 {
            text::trim_start(rest.skip(end + "</think>"@.len()), CharClass::Space)
        } else {
            t
        }
    } else {
        t
    }
}

fn skip_think(s: &[char]) -> (r: &[char])
    ensures
        r@ == without_think(s@),
{
    let t = trim_start_class(s, CharClass::Space);
    let open = chars_of("<think>");
    let close = chars_of("</think>");
    match strip_front(t, open.as_slice()) {
        None => t,
        Some(rest) => match search(rest, close.as_slice()) {
            None => t,
            Some(end) => {
                assert(end + close@.len() <= rest.len());
                let behind = slice_subrange(rest, end + close.len(), rest.len());
                assert(behind@ =~= rest@.skip(end + close@.len()));
                trim_start_class(behind, CharClass::Space)
            },
        },
    }
}

/// Take off the `<think>` block that a model puts in front of its answer.
pub fn strip_think(text: &str) -> (r: String)
    ensures
        r@ == without_think(text@),
{
    let cs = chars_of(text);
    string_of(skip_think(cs.as_slice()))
}

/// A line of the answer without the bullet before it and the white space around it.
pub open spec fn whole_text(line: Seq<char>) -> Seq<char> {
    text::trim(
        text::trim_start(text::trim(line, CharClass::Space), CharClass::Bullet),
        CharClass::Space,
    )
}

/// What stands before the first colon of a line.
pub open spec fn prefix_text(line: Seq<char>) -> Seq<char> {
    text::trim(github::before(whole_text(line), ':'), CharClass::Space)
}

/// What stands behind the first colon of a line, nothing where it has none.
pub open spec fn rest_text(line: Seq<char>) -> Seq<char> {
    match github::after(whole_text(line), ':') {
        Some(rest) => text::trim(rest, CharClass::Space),
        None => seq![],
    }
}

/// A line begins with a prefix that names a backend; `prefix` is what stands before its
/// first colon, in lower case.
pub open spec fn has_prefix(line: Seq<char>, prefix: Seq<char>) -> bool {
    github::after(whole_text(line), ':') is Some && (prefix == "lex"@ || prefix == "vec"@ || prefix
        == "hyde"@)
}

/// What a line of the answer offers, given what stands before its first colon in lower case:
/// the backend that this names and the text behind it. A line without a known prefix is a
/// semantic variant as a whole.
pub open spec fn offered_as(line: Seq<char>, prefix: Seq<char>) -> Option<VariantView> {
    let known = has_prefix(line, prefix);
    let content = if known {
        rest_text(line)
    } else {
        whole_text(line)
    };
    if content.len() == 0 {
        None
    } else {
        Some(
            VariantView {
                text: content,
                kind: if known && prefix == "lex"@ {
                    ExpansionKind::Lexical
                } else {
                    ExpansionKind::Vector
                },
            },
        )
    }
}

/// What a line of the answer offers.
pub open spec fn offered(line: Seq<char>) -> Option<VariantView> {
    offered_as(line, text::lowercased(prefix_text(line)))
}

/// A line of the answer, with what is compared of it without regard to case: what stands
/// before its first colon, the line as a whole and what stands behind the colon, each in
/// lower case.
#[derive(Debug, Clone)]
pub struct LoweredLine {
    pub line: String,
    pub prefix: String,
    pub whole: String,
    pub rest: String,
}

pub ghost struct LineView {
    pub line: Seq<char>,
    pub prefix: Seq<char>,
    pub whole: Seq<char>,
    pub rest: Seq<char>,
}

impl View for LoweredLine {
    type V = LineView;

    open spec fn view(&self) -> LineView {
        LineView { line: self.line@, prefix: self.prefix@, whole: self.whole@, rest: self.rest@ }
    }
}

pub open spec fn line_views(v: Seq<LoweredLine>) -> Seq<LineView> {
    v.map_values(|x: LoweredLine| x@)
}

/// A line with its parts in lower case.
pub open spec fn lowered_line(line: Seq<char>) -> LineView {
    LineView {
        line,
        prefix: text::lowercased(prefix_text(line)),
        whole: text::lowercased(whole_text(line)),
        rest: text::lowercased(rest_text(line)),
    }
}

/// The lower-case form of what a line offers.
pub open spec fn offered_lower(x: LineView) -> Seq<char> {
    if has_prefix(x.line, x.prefix) {
        x.rest
    } else {
        x.whole
    }
}

/// A variant that was kept, and its lower-case form.
pub ghost struct Kept {
    pub variant: VariantView,
    pub lower: Seq<char>,
}

/// A lower-case form is that of the query or of one of the variants so far.
pub open spec fn is_repeated(lower: Seq<char>, original: Seq<char>, kept: Seq<Kept>) -> bool {
    lower == original || exists|i: int| 0 <= i < kept.len() && (#[trigger] kept[i]).lower == lower
}

/// The variants that lines give, each line in turn, given what is compared of them in lower
/// case: as long as there are fewer than `max`, those that offer an acceptable text that
/// repeats neither the query nor another variant. `original` is the query in lower case, and
/// `tokens` its content words.
pub open spec fn kept_variants(
    ls: Seq<LineView>,
    original: Seq<char>,
    tokens: Seq<Seq<char>>,
    max: nat,
) -> Seq<Kept>
    decreases ls.len(),
{
    if ls.len() == 0 {
        seq![]
    } else {
        let kept = kept_variants(ls.drop_last(), original, tokens, max);
        match offered_as(ls.last().line, ls.last().prefix) {
            Some(v) if kept.len() < max && acceptable(v.text, tokens) && !is_repeated(
                offered_lower(ls.last()),
                original,
                kept,
            ) => kept.push(Kept { variant: v, lower: offered_lower(ls.last()) }),
            _ => kept,
        }
    }
}

pub open spec fn kept_views(kept: Seq<Kept>) -> Seq<VariantView> {
    kept.map_values(|k: Kept| k.variant)
}

/// The parts of a line: the whole, what stands before its first colon, and what stands
/// behind it.
fn parts_of(line: &[char]) -> (r: (&[char], &[char], Option<&[char]>))
    ensures
        r.0@ == whole_text(line@),
        r.1@ == prefix_text(line@),
        match r.2 {
            Some(t) => github::after(whole_text(line@), ':') is Some && t@ == rest_text(line@),
            None => github::after(whole_text(line@), ':') is None,
        },
{
    let whole = trim_class(
        trim_start_class(trim_class(line, CharClass::Space), CharClass::Bullet),
        CharClass::Space,
    );
    let (prefix, rest) = cut(whole, ':');
    let rest = match rest {
        Some(t) => Some(trim_class(t, CharClass::Space)),
        None => None,
    };
    (whole, trim_class(prefix, CharClass::Space), rest)
}

/// Put the parts of a line that are compared into lower case.
pub fn lower_line(line: &str) -> (r: LoweredLine)
    ensures
        r@ == lowered_line(line@),
{
    let cs = chars_of(line);
    let (whole, prefix, rest) = parts_of(cs.as_slice());
    let rest = match rest {
        Some(t) => string_of(t),
        None => {
            let t = String::new();
            assert(t@ =~= seq![]);
            t
        },
    };
    LoweredLine {
        line: line.to_owned(),
        prefix: string_of(prefix).as_str().to_lowercase(),
        whole: string_of(whole).as_str().to_lowercase(),
        rest: rest.as_str().to_lowercase(),
    }
}

/// What a line offers, and the lower-case form of it.
fn read_line(x: &LoweredLine) -> (r: Option<(ExpandedQuery, &str)>)
    ensures
        match r {
            Some((v, lower)) => offered_as(x@.line, x@.prefix) == Some(v@) && lower@
                == offered_lower(x@),
            None => offered_as(x@.line, x@.prefix) is None,
        },
{
    let cs = chars_of(x.line.as_str());
    let (whole, _, rest) = parts_of(cs.as_slice());
    let p = x.prefix.as_str();
    let lexical = same_text(p, "lex");
    let known = lexical || same_text(p, "vec") || same_text(p, "hyde");
    match rest {
        Some(t) => {
            if known {
                if t.len() == 0 {
                    return None;
                }
                let kind = if lexical {
                    ExpansionKind::Lexical
                } else {
                    ExpansionKind::Vector
                };
                return Some((ExpandedQuery { text: string_of(t), kind }, x.rest.as_str()));
            }
        },
        None => {},
    }
    if whole.len() == 0 {
        None
    } else {
        Some(
            (
                ExpandedQuery { text: string_of(whole), kind: ExpansionKind::Vector },
                x.whole.as_str(),
            ),
        )
    }
}

/// Keep the variants that lines offer, given what is compared of them in lower case.
/// `original_lower` is the query in lower case, `original_tokens` its content words.
pub fn variants_from(
    lines: &Vec<LoweredLine>,
    original_lower: &str,
    original_tokens: &Vec<String>,
    max_variants: usize,
) -> (out: Vec<ExpandedQuery>)
    ensures
        variant_views(out@) == kept_views(
            kept_variants(
                line_views(lines@),
                original_lower@,
                pieces::texts(original_tokens@),
                max_variants as nat,
            ),
        ),
{
    let mut seen: Vec<String> = Vec::new();
    seen.push(original_lower.to_owned());
    let mut out: Vec<ExpandedQuery> = Vec::new();
    let ghost all = line_views(lines@);
    let ghost tokens = pieces::texts(original_tokens@);
    let mut i: usize = 0;
    proof {
        assert(all.take(0) =~= seq![]);
        assert(variant_views(out@) =~= kept_views(seq![]));
    }
    while i < lines.len()
        invariant
            i <= lines@.len(),
            all == line_views(lines@),
            tokens == pieces::texts(original_tokens@),
            variant_views(out@) == kept_views(
                kept_variants(all.take(i as int), original_lower@, tokens, max_variants as nat),
            ),
            seen@.len() == out@.len() + 1,
            seen@[0]@ == original_lower@,
            forall|j: int|
                0 <= j < out@.len() ==> (#[trigger] seen@[j + 1])@ == kept_variants(
                    all.take(i as int),
                    original_lower@,
                    tokens,
                    max_variants as nat,
                )[j].lower,
        decreases lines.len() - i,
    {
        let ghost kept = kept_variants(
            all.take(i as int),
            original_lower@,
            tokens,
            max_variants as nat,
        );
        proof {
            assert(all.take(i + 1).drop_last() =~= all.take(i as int));
            assert(all.take(i + 1).last() == lines@[i as int]@);
            assert(variant_views(out@).len() == kept.len());
        }
        match read_line(&lines[i]) {
            None => {},
            Some((v, lower)) => {
                let known = has_member(&seen, lower);
                proof {
                    let ss = pieces::texts(seen@);
                    if known {
                        let j = choose|j: int| 0 <= j < ss.len() && ss[j] == lower@;
                        if j > 0 {
                            assert(seen@[(j - 1) + 1]@ == kept[j - 1].lower);
                        }
                        assert(is_repeated(lower@, original_lower@, kept));
                    } else {
                        assert(ss[0] == seen@[0]@);
                        assert forall|j: int| 0 <= j < kept.len() implies (#[trigger] kept[j]).lower
                            != lower@ by {
                            assert(seen@[j + 1]@ == kept[j].lower);
                            assert(ss[j + 1] == seen@[j + 1]@);
                        }
                        assert(!is_repeated(lower@, original_lower@, kept));
                    }
                }
                if out.len() < max_variants && variant_is_acceptable(
                    v.text.as_str(),
                    original_tokens,
                ) && !known {
                    let ghost sv = seen@;
                    let ghost ov = variant_views(out@);
                    let ghost now = kept.push(Kept { variant: v@, lower: lower@ });
                    seen.push(lower.to_owned());
                    out.push(v);
                    proof {
                        assert(variant_views(out@) =~= ov.push(v@));
                        assert(kept_views(now) =~= kept_views(kept).push(v@));
                        assert forall|j: int| 0 <= j < out@.len() implies (#[trigger] seen@[j
                            + 1])@ == now[j].lower by {
                            if j < kept.len() {
                                assert(seen@[j + 1] == sv[j + 1]);
                            }
                        }
                    }
                }
            },
        }
        i = i + 1;
    }
    assert(all.take(lines@.len() as int) =~= all);
    out
}

/// Whether a text is, but for case, the query or one of the variants so far.
pub open spec fn is_taken(t: Seq<char>, original: Seq<char>, kept: Seq<VariantView>) -> bool {
    text::lowercased(t) == text::lowercased(text::trim(original, CharClass::Space)) || exists|
        i: int,
    |
        0 <= i < kept.len() && text::lowercased(#[trigger] kept[i].text) == text::lowercased(t)
}

/// The variants that the lines of an answer give: each line in turn, as long as
/// there are fewer than `max`, that offers an acceptable text not yet taken.
pub open spec fn variants(ls: Seq<Seq<char>>, original: Seq<char>, max: nat) -> Seq<VariantView>
    decreases ls.len(),
{
    if ls.len() == 0 {
        seq![]
    } else {
        let kept = variants(ls.drop_last(), original, max);
        match offered(ls.last()) {
            Some(v) if kept.len() < max && acceptable(v.text, content_of(original)) && !is_taken(
                v.text,
                original,
                kept,
            ) => kept.push(v),
            _ => kept,
        }
    }
}

/// The variants that an answer gives.
pub open spec fn variants_of(raw: Seq<char>, original: Seq<char>, max: nat) -> Seq<VariantView> {
    variants(pieces::lines(without_think(raw)), original, max)
}

/// Read the typed lines of a model's answer.
///
/// A line looks like `lex: ...`, `vec: ...` or `hyde: ...`; one without a known
/// prefix counts as `vec:`. No variant repeats another or the query, case aside, and
/// there are at most `max_variants`.
pub fn parse_variants(raw: &str, original: &str, max_variants: usize) -> (out: Vec<ExpandedQuery>)
    ensures
        variant_views(out@) == variants_of(raw@, original@, max_variants as nat),
{
    let rc = chars_of(raw);
    let ls = lines_of(skip_think(rc.as_slice()));
    let oc = chars_of(original);
    let original_lower = string_of(trim_class(oc.as_slice(), CharClass::Space)).as_str()
        .to_lowercase();
    let original_tokens = content_tokens(original);
    let mut lines: Vec<LoweredLine> = Vec::new();
    let ghost all = pieces::rows(ls@);
    let mut i: usize = 0;
    assert(line_views(lines@) =~= lowered_lines(all.take(0)));
    while i < ls.len()
        invariant
            i <= ls@.len(),
            all == pieces::rows(ls@),
            line_views(lines@) == lowered_lines(all.take(i as int)),
        decreases ls.len() - i,
    {
        let ghost before = line_views(lines@);
        lines.push(lower_line(string_of(ls[i].as_slice()).as_str()));
        proof {
            assert(all.take(i + 1) =~= all.take(i as int).push(ls@[i as int]@));
            assert(line_views(lines@) =~= before.push(lowered_line(ls@[i as int]@)));
            assert(lowered_lines(all.take(i + 1)) =~= lowered_lines(all.take(i as int)).push(
                lowered_line(ls@[i as int]@),
            ));
        }
        i = i + 1;
    }
    proof {
        assert(all.take(ls@.len() as int) =~= all);
        lemma_kept(all, original@, max_variants as nat);
    }
    variants_from(&lines, original_lower.as_str(), &original_tokens, max_variants)
}

/// Lines with their parts in lower case.
pub open spec fn lowered_lines(ls: Seq<Seq<char>>) -> Seq<LineView> {
    ls.map_values(|l: Seq<char>| lowered_line(l))
}

/// The variants that lines give are those that are kept when their parts are compared in
/// lower case.
proof fn lemma_kept(ls: Seq<Seq<char>>, original: Seq<char>, max: nat)
    ensures
        ({
            let kept = kept_variants(
                lowered_lines(ls),
                text::lowercased(text::trim(original, CharClass::Space)),
                content_of(original),
                max,
            );
            &&& kept_views(kept) == variants(ls, original, max)
            &&& forall|i: int|
                0 <= i < kept.len() ==> (#[trigger] kept[i]).lower == text::lowercased(
                    kept[i].variant.text,
                )
        }),
    decreases ls.len(),
{
    let o = text::lowercased(text::trim(original, CharClass::Space));
    let tokens = content_of(original);
    let kept = kept_variants(lowered_lines(ls), o, tokens, max);
    if ls.len() == 0 {
        assert(kept_views(kept) =~= variants(ls, original, max));
    } else {
        let t = ls.drop_last();
        lemma_kept(t, original, max);
        let before = kept_variants(lowered_lines(t), o, tokens, max);
        let vs = variants(t, original, max);
        let x = lowered_line(ls.last());
        assert(lowered_lines(ls).drop_last() =~= lowered_lines(t));
        assert(lowered_lines(ls).last() == x);
        assert(vs.len() == before.len());
        match offered(ls.last()) {
            Some(v) => {
                assert(offered_lower(x) == text::lowercased(v.text));
                assert(is_repeated(offered_lower(x), o, before) == is_taken(
                    v.text,
                    original,
                    vs,
                )) by {
                    if is_repeated(offered_lower(x), o, before) && offered_lower(x) != o {
                        let i = choose|i: int|
                            0 <= i < before.len() && (#[trigger] before[i]).lower == offered_lower(
                                x,
                            );
                        assert(vs[i] == before[i].variant);
                        assert(text::lowercased(vs[i].text) == text::lowercased(v.text));
                    }
                    if is_taken(v.text, original, vs) && offered_lower(x) != o {
                        let i = choose|i: int|
                            0 <= i < vs.len() && text::lowercased(#[trigger] vs[i].text)
                                == text::lowercased(v.text);
                        assert(vs[i] == before[i].variant);
                        assert(before[i].lower == offered_lower(x));
                    }
                }
                if kept != before {
                    assert(kept_views(kept) =~= vs.push(v));
                }
            },
            None => {},
        }
        assert(kept_views(kept) =~= variants(ls, original, max));
        assert forall|i: int| 0 <= i < kept.len() implies (#[trigger] kept[i]).lower
            == text::lowercased(kept[i].variant.text) by {
            if i < before.len() {
                assert(kept[i] == before[i]);
            }
        }
    }
}

/// There are never more variants than asked for.
pub proof fn variants_are_capped(raw: Seq<char>, original: Seq<char>, max: nat)
    ensures
        variants_of(raw, original, max).len() <= max,
{
    lemma_variants(pieces::lines(without_think(raw)), original, max);
}

/// Every variant is acceptable for the query that it comes from.
pub proof fn variants_are_acceptable(raw: Seq<char>, original: Seq<char>, max: nat)
    ensures
        forall|i: int|
            0 <= i < variants_of(raw, original, max).len() ==> acceptable(
                #[trigger] variants_of(raw, original, max)[i].text,
                content_of(original),
            ),
{
    lemma_variants(pieces::lines(without_think(raw)), original, max);
}

/// No variant repeats another one or the query itself, whatever the case of its
/// letters.
pub proof fn variants_do_not_repeat(raw: Seq<char>, original: Seq<char>, max: nat)
    ensures
        forall|i: int|
            0 <= i < variants_of(raw, original, max).len() ==> text::lowercased(
                #[trigger] variants_of(raw, original, max)[i].text,
            ) != text::lowercased(text::trim(original, CharClass::Space)),
        forall|i: int, j: int|
            0 <= i < j < variants_of(raw, original, max).len() ==> text::lowercased(
                #[trigger] variants_of(raw, original, max)[i].text,
            ) != text::lowercased(#[trigger] variants_of(raw, original, max)[j].text),
{
    lemma_variants(pieces::lines(without_think(raw)), original, max);
}

/// A larger limit only adds variants behind those of a smaller one.
pub proof fn variants_of_a_larger_limit_extend(
    raw: Seq<char>,
    original: Seq<char>,
    small: nat,
    large: nat,
)
    requires
        small <= large,
    ensures
        variants_of(raw, original, small).len() <= variants_of(raw, original, large).len(),
        variants_of(raw, original, large).take(
            variants_of(raw, original, small).len() as int,
        ) == variants_of(raw, original, small),
{
    lemma_variants_extend(pieces::lines(without_think(raw)), original, small, large);
}

proof fn lemma_variants_extend(ls: Seq<Seq<char>>, original: Seq<char>, small: nat, large: nat)
    requires
        small <= large,
    ensures
        ({
            let a = variants(ls, original, small);
            let b = variants(ls, original, large);
            a.len() <= b.len() && b.take(a.len() as int) == a && (a.len() < small ==> a == b)
        }),
    decreases ls.len(),
{
    let a = variants(ls, original, small);
    let b = variants(ls, original, large);
    if ls.len() == 0 {
        assert(b.take(0) =~= a);
    } else {
        lemma_variants_extend(ls.drop_last(), original, small, large);
        lemma_variants(ls.drop_last(), original, small);
        let a0 = variants(ls.drop_last(), original, small);
        let b0 = variants(ls.drop_last(), original, large);
        if a0.len() < small {
            assert(b.take(a.len() as int) =~= a);
        } else {
            assert(a == a0);
            assert(b.take(a.len() as int) =~= b0.take(a.len() as int));
        }
    }
}

proof fn lemma_variants(ls: Seq<Seq<char>>, original: Seq<char>, max: nat)
    ensures
        variants(ls, original, max).len() <= max,
        forall|i: int|
            0 <= i < variants(ls, original, max).len() ==> acceptable(
                #[trigger] variants(ls, original, max)[i].text,
                content_of(original),
            ),
        forall|i: int|
            0 <= i < variants(ls, original, max).len() ==> text::lowercased(
                #[trigger] variants(ls, original, max)[i].text,
            ) != text::lowercased(text::trim(original, CharClass::Space)),
        forall|i: int, j: int|
            0 <= i < j < variants(ls, original, max).len() ==> text::lowercased(
                #[trigger] variants(ls, original, max)[i].text,
            ) != text::lowercased(#[trigger] variants(ls, original, max)[j].text),
    decreases ls.len(),
{
    if ls.len() > 0 {
        lemma_variants(ls.drop_last(), original, max);
        let kept = variants(ls.drop_last(), original, max);
        let now = variants(ls, original, max);
        if now != kept {
            assert forall|i: int, j: int| 0 <= i < j < now.len() implies text::lowercased(
                #[trigger] now[i].text,
            ) != text::lowercased(#[trigger] now[j].text) by {
                assert(now[i] == kept[i]);
                if j < kept.len() {
                    assert(now[j] == kept[j]);
                }
            }
            assert forall|i: int| 0 <= i < now.len() implies acceptable(
                #[trigger] now[i].text,
                content_of(original),
            ) by {
                if i < kept.len() {
                    assert(now[i] == kept[i]);
                }
            }
            assert forall|i: int| 0 <= i < now.len() implies text::lowercased(
                #[trigger] now[i].text,
            ) != text::lowercased(text::trim(original, CharClass::Space)) by {
                if i < kept.len() {
                    assert(now[i] == kept[i]);
                }
            }
        }
    }
}

// ---------------------------------------------------------------------------
// Settings and prompt
// ---------------------------------------------------------------------------

/// Where the default model is downloaded from. The place is public.
pub const DEFAULT_GGUF_URL: &'static str = "https://huggingface.co/tobil/qmd-query-expansion-1.7B-gguf/resolve/main/qmd-query-expansion-1.7B-q4_k_m.gguf";

/// The `[query_expansion]` section of the settings, but for its fractional numbers.
#[derive(Debug, Clone)]
pub struct QueryExpansionConfig {
    /// Whether query expansion is active.
    pub enabled: bool,
    pub provider: ProviderKind,
    /// The model's file. May begin with `~`.
    pub model: Option<String>,
    /// Where to download the model from, in place of the default address.
    pub model_url: Option<String>,
    /// Settings for a remote backend.
    pub openai: Option<OpenAiProviderConfig>,
    /// How many variants are kept.
    pub max_variants: usize,
    /// How many tokens the model may generate.
    pub max_tokens: i32,
    /// The context window.
    pub n_ctx: u32,
    pub gpu: GpuMode,
    /// CPU threads; `0` means all cores.
    pub n_threads: u32,
    /// Layers to offload; `0` leaves it to `gpu`.
    pub gpu_layers: u32,
    /// Whether variants may only reinforce what the query itself found.
    pub additive_only: bool,
    /// Whether packages that the query did not surface are weighed down.
    pub topical_anchoring: bool,
}

/// The settings where nothing is set.
pub open spec fn is_default(c: QueryExpansionConfig) -> bool {
    &&& c.enabled
    &&& c.provider == ProviderKind::Local
    &&& c.model is None
    &&& c.model_url is None
    &&& c.openai is None
    &&& c.max_variants == 4
    &&& c.max_tokens == 256
    &&& c.n_ctx == 2048
    &&& c.gpu == GpuMode::Auto
    &&& c.n_threads == 0
    &&& c.gpu_layers == 0
    &&& c.additive_only
    &&& c.topical_anchoring
}

impl Default for QueryExpansionConfig {
    fn default() -> (r: Self)
        ensures
            is_default(r),
    {
        QueryExpansionConfig {
            enabled: true,
            provider: ProviderKind::Local,
            model: None,
            model_url: None,
            openai: None,
            max_variants: 4,
            max_tokens: 256,
            n_ctx: 2048,
            gpu: GpuMode::Auto,
            n_threads: 0,
            gpu_layers: 0,
            additive_only: true,
            topical_anchoring: true,
        }
    }
}

/// The expansion model's own file.
pub open spec fn default_model_file(home: Option<Seq<char>>) -> Seq<char> {
    paths::joined(reranker::model_dir(home), "qmd-query-expansion-1.7b-q4_k_m.gguf"@)
}

/// The expansion model's file, for a user with a given home directory.
pub open spec fn expansion_path(cfg: QueryExpansionConfig, home: Option<Seq<char>>) -> Seq<char> {
    reranker::tilde_expanded(
        match cfg.model {
            Some(m) => m@,
            None => default_model_file(home),
        },
        home,
    )
}

impl QueryExpansionConfig {
    /// The model file for a user whose home directory is `home`.
    pub fn model_path_in(&self, home: &Option<String>) -> (r: String)
        ensures
            r@ == expansion_path(*self, pieces::opt_text(*home)),
    {
        let raw = match &self.model {
            Some(m) => m.clone(),
            None => join_path(model_dir_in(home).as_str(), "qmd-query-expansion-1.7b-q4_k_m.gguf"),
        };
        expand_tilde_in(raw.as_str(), home)
    }

    /// The model file, with `~` expanded.
    pub fn resolved_model_path(&self) -> (r: String)
        ensures
            exists|home: Option<Seq<char>>| r@ == #[trigger] expansion_path(*self, home),
    {
        let home = home_dir();
        let r = self.model_path_in(&home);
        assert(r@ == expansion_path(*self, pieces::opt_text(home)));
        r
    }
}

/// The prompt that asks the model for variants of a query.
pub fn build_prompt(query: &str) -> (r: String)
    ensures
        r@ == "<|im_start|>system\nYou rewrite a code/documentation search query into a few search variants that preserve its specific technical meaning. Each variant MUST reuse the query's domain terms (identifiers, API names, concepts) or a precise synonym. Do NOT add generic filler such as \"best practices\", \"recommended approaches\", \"how to\", \"overview\", or \"examples\". Do NOT broaden the topic. Output one variant per line, each prefixed with `lex:` (keyword terms), `vec:` (a semantic paraphrase), or `hyde:` (one sentence a matching doc/comment would contain). No prose, no numbering.<|im_end|>\n<|im_start|>user\n/no_think Expand this search query: "@
            + query@ + "<|im_end|>\n<|im_start|>assistant\n"@,
{
    let mut r = "<|im_start|>system\nYou rewrite a code/documentation search query into a few search variants that preserve its specific technical meaning. Each variant MUST reuse the query's domain terms (identifiers, API names, concepts) or a precise synonym. Do NOT add generic filler such as \"best practices\", \"recommended approaches\", \"how to\", \"overview\", or \"examples\". Do NOT broaden the topic. Output one variant per line, each prefixed with `lex:` (keyword terms), `vec:` (a semantic paraphrase), or `hyde:` (one sentence a matching doc/comment would contain). No prose, no numbering.<|im_end|>\n<|im_start|>user\n/no_think Expand this search query: ".to_owned();
    r.append(query);
    r.append("<|im_end|>\n<|im_start|>assistant\n");
    r
}

/// No usable variant is lost: while there is room, every line that offers an acceptable text
/// is among the variants, under this text or one that differs in case alone.
pub proof fn no_usable_variant_is_lost(
    ls: Seq<Seq<char>>,
    original: Seq<char>,
    max: nat,
    i: int,
)
    requires
        0 <= i < ls.len(),
        offered(ls[i]) is Some,
        acceptable(offered(ls[i])->0.text, content_of(original)),
        text::lowercased(offered(ls[i])->0.text) != text::lowercased(
            text::trim(original, CharClass::Space),
        ),
        variants(ls, original, max).len() < max,
    ensures
        exists|j: int|
            0 <= j < variants(ls, original, max).len() && text::lowercased(
                (#[trigger] variants(ls, original, max)[j]).text,
            ) == text::lowercased(offered(ls[i])->0.text),
    decreases ls.len(),
{
    let t = ls.drop_last();
    let before = variants(t, original, max);
    let after = variants(ls, original, max);
    let v = offered(ls[i])->0;
    if i < t.len() {
        assert(t[i] == ls[i]);
        no_usable_variant_is_lost(t, original, max, i);
        let j = choose|j: int|
            0 <= j < before.len() && text::lowercased((#[trigger] before[j]).text)
                == text::lowercased(v.text);
        assert(after[j] == before[j]);
    } else if is_taken(v.text, original, before) {
        let j = choose|j: int|
            0 <= j < before.len() && text::lowercased(#[trigger] before[j].text)
                == text::lowercased(v.text);
        assert(after[j] == before[j]);
    } else {
        assert(after[before.len() as int] == v);
    }
}

/// Every variant is what some line of the answer offers.
pub proof fn variants_are_offered(ls: Seq<Seq<char>>, original: Seq<char>, max: nat, j: int)
    requires
        0 <= j < variants(ls, original, max).len(),
    ensures
        exists|i: int|
            0 <= i < ls.len() && offered(#[trigger] ls[i]) == Some(variants(ls, original, max)[j]),
    decreases ls.len(),
{
    let t = ls.drop_last();
    let before = variants(t, original, max);
    if j < before.len() {
        variants_are_offered(t, original, max, j);
        let i = choose|i: int| 0 <= i < t.len() && offered(#[trigger] t[i]) == Some(before[j]);
        assert(ls[i] == t[i]);
    } else {
        assert(ls[ls.len() - 1] == ls.last());
    }
}

proof fn lemma_untrimmed(s: Seq<char>)
    requires
        s.len() > 0,
        !text::char_is_space(s[0]),
        !text::char_is_space(s.last()),
    ensures
        text::trim(s, CharClass::Space) == s,
{
    let k = CharClass::Space;
    text::lemma_trim_start(s, k, 0);
    assert(s.skip(0) =~= s);
    text::lemma_trim_end(s, k, s.len() as int);
    assert(s.take(s.len() as int) =~= s);
}

proof fn lemma_typed(name: Seq<char>, content: Seq<char>)
    requires
        name.len() > 0,
        forall|i: int| 0 <= i < name.len() ==> 'a' <= #[trigger] name[i] <= 'z',
        content.len() > 0,
        !text::char_is_space(content[0]),
        !text::char_is_space(content.last()),
    ensures
        whole_text(name + seq![':'] + content) == name + seq![':'] + content,
        text::lowercased(prefix_text(name + seq![':'] + content)) == name,
        rest_text(name + seq![':'] + content) == content,
        github::after(whole_text(name + seq![':'] + content), ':') is Some,
{
    let line = name + seq![':'] + content;
    assert(line[0] == name[0]);
    assert(line.last() == content.last());
    lemma_untrimmed(line);
    text::lemma_trim_start(line, CharClass::Bullet, 0);
    assert(line.skip(0) =~= line);
    github::joined_texts_are_cut(name, ':', content);
    lemma_untrimmed(name);
    lemma_untrimmed(content);
    assert forall|i: int| 0 <= i < name.len() implies (#[trigger] name[i] as u32) < 0x80 by {}
    assert(pieces::ascii_lowered(name) =~= name);
}

/// A line says which backend it is for: `lex:` is for the search by words, `vec:` and `hyde:`
/// are for the search by vectors. What stands behind is what is searched for.
pub proof fn typed_lines_say_their_backend(content: Seq<char>)
    requires
        content.len() > 0,
        !text::char_is_space(content[0]),
        !text::char_is_space(content.last()),
    ensures
        offered("lex:"@ + content) == Some(
            VariantView { text: content, kind: ExpansionKind::Lexical },
        ),
        offered("vec:"@ + content) == Some(
            VariantView { text: content, kind: ExpansionKind::Vector },
        ),
        offered("hyde:"@ + content) == Some(
            VariantView { text: content, kind: ExpansionKind::Vector },
        ),
{
    reveal_strlit("lex:");
    reveal_strlit("vec:");
    reveal_strlit("hyde:");
    reveal_strlit("lex");
    reveal_strlit("vec");
    reveal_strlit("hyde");
    assert("lex:"@ =~= "lex"@ + seq![':']);
    assert("vec:"@ =~= "vec"@ + seq![':']);
    assert("hyde:"@ =~= "hyde"@ + seq![':']);
    lemma_typed("lex"@, content);
    lemma_typed("vec"@, content);
    lemma_typed("hyde"@, content);
    assert("vec"@[0] == 'v' && "lex"@[0] == 'l');
    assert("hyde"@.len() != "lex"@.len());
}

/// A line without a colon is a variant as it stands, for the search by vectors, whatever
/// bullet and white space are around it.
pub proof fn bare_lines_are_variants(line: Seq<char>)
    requires
        whole_text(line).len() > 0,
        !whole_text(line).contains(':'),
    ensures
        offered(line) == Some(
            VariantView { text: whole_text(line), kind: ExpansionKind::Vector },
        ),
{
    let w = whole_text(line);
    let k = CharClass::Is(':');
    text::lemma_find_bounds(w, k);
    if text::find(w, k) < w.len() {
        assert(w.contains(w[text::find(w, k)]));
    }
}

/// The content words of a text are found one by one: each word that is no stopword, in small
/// letters.
pub proof fn content_words_are_found_one_by_one(
    a: Seq<Seq<char>>,
    b: Seq<Seq<char>>,
    w: Seq<char>,
)
    ensures
        content_words(a + b) == content_words(a) + content_words(b),
        w.len() > 0 && !is_stopword(pieces::ascii_lowered(w)) ==> content_words(seq![w]) == seq![
            pieces::ascii_lowered(w),
        ],
        w.len() == 0 || is_stopword(pieces::ascii_lowered(w)) ==> content_words(seq![w]).len()
            == 0,
    decreases b.len(),
{
    reveal_with_fuel(content_words, 2);
    assert(seq![w].drop_last() =~= Seq::<Seq<char>>::empty());
    if w.len() > 0 && !is_stopword(pieces::ascii_lowered(w)) {
        assert(content_words(seq![w]) =~= seq![pieces::ascii_lowered(w)]);
    }
    if b.len() == 0 {
        assert(a + b =~= a);
        assert(content_words(a) + content_words(b) =~= content_words(a));
    } else {
        let t = b.drop_last();
        content_words_are_found_one_by_one(a, t, w);
        assert((a + b).drop_last() =~= a + t);
        let x = pieces::ascii_lowered(b.last());
        assert((content_words(a) + content_words(t)).push(x) =~= content_words(a) + content_words(
            t,
        ).push(x));
    }
}

/// A text that shares a word with the query, is long enough and does not break off is
/// accepted; one that shares none is not, where the query has a word to share.
pub proof fn variants_stay_on_topic(
    variant: Seq<char>,
    original: Seq<Seq<char>>,
    word: Seq<char>,
)
    ensures
        ({
            let t = text::trim(variant, CharClass::Space);
            let words = content_words(pieces::split(t, CharClass::NotAlnum));
            &&& t.len() >= 4 && !ends_dangling(t) && words.contains(word) && original.contains(word)
                ==> acceptable(variant, original)
            &&& acceptable(variant, original) && original.len() > 0 ==> exists|w: Seq<char>|
                words.contains(w) && #[trigger] original.contains(w)
            &&& acceptable(variant, original) ==> t.len() >= 4 && !ends_dangling(t) && words.len() > 0
        }),
{
    let t = text::trim(variant, CharClass::Space);
    let words = content_of(t);
    if words.contains(word) && original.contains(word) {
        let i = choose|i: int| 0 <= i < words.len() && words[i] == word;
        assert(original.contains(words[i]));
    }
    if acceptable(variant, original) && original.len() > 0 {
        let i = choose|i: int| 0 <= i < words.len() && original.contains(#[trigger] words[i]);
        assert(words.contains(words[i]) && original.contains(words[i]));
    }
}

/// What a model thinks is left out of its answer, and an answer without a thought stays.
pub proof fn thoughts_are_left_out(thought: Seq<char>, answer: Seq<char>)
    requires
        forall|j: int|
            0 <= j < thought.len() ==> !#[trigger] text::occurs_at(
                thought + "</think>"@ + answer,
                "</think>"@,
                j,
            ),
        answer.len() > 0 ==> !text::char_is_space(answer[0]),
    ensures
        without_think("<think>"@ + thought + "</think>"@ + answer) == answer,
        !text::starts_with(answer, "<think>"@) ==> without_think(answer) == answer,
{
    reveal_strlit("<think>");
    reveal_strlit("</think>");
    let k = CharClass::Space;
    let s = "<think>"@ + thought + "</think>"@ + answer;
    assert(s[0] == '<');
    text::lemma_trim_start(s, k, 0);
    assert(s.skip(0) =~= s);
    assert(s.subrange(0, "<think>"@.len() as int) =~= "<think>"@);
    let rest = s.skip("<think>"@.len() as int);
    assert(rest =~= thought + "</think>"@ + answer);
    let n = thought.len() as int;
    assert(rest.subrange(n, n + "</think>"@.len() as int) =~= "</think>"@);
    text::lemma_find_text(rest, "</think>"@, n);
    assert(rest.skip(n + "</think>"@.len() as int) =~= answer);
    text::lemma_trim_start(answer, k, 0);
    assert(answer.skip(0) =~= answer);
}

/// A word that leaves a text dangling carries no content.
pub proof fn dangling_words_carry_no_content(t: Seq<char>)
    requires
        is_dangling(t),
    ensures
        is_stopword(t),
{
}

/// Where nothing is set, queries are expanded here into at most four variants, which only
/// reinforce what the query found.
pub proof fn expansion_is_on_by_default(c: QueryExpansionConfig)
    requires
        is_default(c),
    ensures
        c.enabled && c.additive_only && c.topical_anchoring,
        c.provider == ProviderKind::Local,
        c.model is None && c.model_url is None && c.openai is None,
        c.max_variants == 4 && c.max_tokens == 256 && c.n_ctx == 2048,
        c.n_threads == 0 && c.gpu_layers == 0,
{
}

} // verus!
