//! Indexing a project's documentation: which files are taken in, and the rows that
//! they become.

use vstd::prelude::*;
use vstd::slice::slice_subrange;

use crate::chunker;
use crate::chunker::{chunk_text, ChunkInfo};
use crate::error::SempkgError;
use crate::github;
use crate::pieces;
use crate::pieces::split_class;
use crate::text;
use crate::text::{chars_of, find_class, string_of, trim_class, CharClass};

verus! {

// ---------------------------------------------------------------------------
// Patterns
// ---------------------------------------------------------------------------

/// How far a list of patterns has been read: the patterns so far, the one being read,
/// and how many braces are open in it.
pub ghost struct Scan {
    pub done: Seq<Seq<char>>,
    pub current: Seq<char>,
    pub depth: nat,
}

/// The patterns with one more at the end, unless it is blank.
pub open spec fn with_pattern(done: Seq<Seq<char>>, p: Seq<char>) -> Seq<Seq<char>> {
    let t = text::trim(p, CharClass::Space);
    if t.len() > 0 {
        done.push(t)
    } else {
        done
    }
}

/// Read a list of patterns. A comma ends a pattern unless it stands in braces.
pub open spec fn scan(s: Seq<char>) -> Scan
    decreases s.len(),
{
    if s.len() == 0 {
        Scan { done: seq![], current: seq![], depth: 0 }
    } else {
        let b = scan(s.drop_last());
        let c = s.last();
        if c == '{' {
            Scan { done: b.done, current: b.current.push(c), depth: b.depth + 1 }
        } else if c == '}' {
            Scan {
                done: b.done,
                current: b.current.push(c),
                depth: if b.depth > 0 {
                    (b.depth - 1) as nat
                } else {
                    0
                },
            }
        } else if c == ',' && b.depth == 0 {
            Scan { done: with_pattern(b.done, b.current), current: seq![], depth: 0 }
        } else {
            Scan { done: b.done, current: b.current.push(c), depth: b.depth }
        }
    }
}

/// The patterns of a list, before their braces are expanded.
pub open spec fn listed(s: Seq<char>) -> Seq<Seq<char>> {
    with_pattern(scan(s).done, scan(s).current)
}

/// A pattern for each alternative of its first pair of braces.
pub open spec fn braced(p: Seq<char>) -> Seq<Seq<char>> {
    let open = text::find(p, CharClass::Is('{'));
    let close = open + text::find(p.skip(open), CharClass::Is('}'));
    if open >= p.len() || close >= p.len() {
        seq![p]
    } else {
        pieces::split(p.subrange(open + 1, close), CharClass::Is(',')).map_values(
            |alt: Seq<char>|
                p.take(open) + text::trim(alt, CharClass::Space) + p.skip(close + 1),
        )
    }
}

/// All patterns with their braces expanded.
pub open spec fn all_braced(ps: Seq<Seq<char>>) -> Seq<Seq<char>>
    decreases ps.len(),
{
    if ps.len() == 0 {
        seq![]
    } else {
        all_braced(ps.drop_last()) + braced(ps.last())
    }
}

/// The patterns that a list stands for.
pub open spec fn patterns(s: Seq<char>) -> Seq<Seq<char>> {
    all_braced(listed(s))
}

/// Expand the first pair of braces of a pattern.
pub fn expand_braces(pattern: &str) -> (r: Vec<String>)
    ensures
        pieces::texts(r@) == braced(pattern@),
{
    let cs = chars_of(pattern);
    let open: usize = find_class(cs.as_slice(), CharClass::Is('{'));
    let mut r: Vec<String> = Vec::new();
    let tail = slice_subrange(cs.as_slice(), open, cs.len());
    assert(tail@ =~= pattern@.skip(open as int));
    let width: usize = find_class(tail, CharClass::Is('}'));
    if open >= cs.len() || width >= tail.len() {
        r.push(pattern.to_owned());
        assert(pieces::texts(r@) =~= seq![pattern@]);
        return r;
    }
    let close: usize = open + width;
    proof {
        text::lemma_find_bounds(tail@, CharClass::Is('}'));
        if width == 0 {
            assert(tail@[0] == '{');
            assert(text::in_class(CharClass::Is('}'), tail@[0]));
        }
    }
    let front = string_of(slice_subrange(cs.as_slice(), 0, open));
    let back = string_of(slice_subrange(cs.as_slice(), close + 1, cs.len()));
    let inner = slice_subrange(cs.as_slice(), open + 1, close);
    let alts = split_class(inner, CharClass::Is(','));
    let ghost want = braced(pattern@);
    let ghost pre = pattern@.take(open as int);
    let ghost post = pattern@.skip(close + 1);
    proof {
        assert(front@ =~= pre);
        assert(back@ =~= post);
        assert(inner@ =~= pattern@.subrange(open + 1, close as int));
    }
    let mut i: usize = 0;
    assert(pieces::texts(r@) =~= want.take(0));
    while i < alts.len()
        invariant
            i <= alts@.len(),
            front@ == pre,
            back@ == post,
            want.len() == alts@.len(),
            forall|j: int|
                0 <= j < want.len() ==> #[trigger] want[j] == pre + text::trim(
                    alts@[j]@,
                    CharClass::Space,
                ) + post,
            pieces::texts(r@) == want.take(i as int),
        decreases alts.len() - i,
    {
        let ghost before = pieces::texts(r@);
        let mut t = front.clone();
        t.append(string_of(trim_class(alts[i].as_slice(), CharClass::Space)).as_str());
        t.append(back.as_str());
        r.push(t);
        proof {
            assert(pieces::texts(r@) =~= before.push(want[i as int]));
            assert(want.take(i + 1) =~= want.take(i as int).push(want[i as int]));
        }
        i = i + 1;
    }
    assert(want.take(alts@.len() as int) =~= want);
    r
}

fn push_pattern(done: &mut Vec<String>, current: &Vec<char>)
    ensures
        pieces::texts(final(done)@) == with_pattern(pieces::texts(old(done)@), current@),
{
    let t = trim_class(current.as_slice(), CharClass::Space);
    if t.len() > 0 {
        let ghost before = pieces::texts(done@);
        done.push(string_of(t));
        assert(pieces::texts(done@) =~= before.push(t@));
    }
}

/// Split a list of patterns at its commas and expand the braces of each.
///
/// `**/*.{md,rst}, **/*.rs` stands for `**/*.md`, `**/*.rst` and `**/*.rs`.
pub fn expand_patterns(spec: &str) -> (r: Vec<String>)
    ensures
        pieces::texts(r@) == patterns(spec@),
{
    let cs = chars_of(spec);
    let mut done: Vec<String> = Vec::new();
    let mut current: Vec<char> = Vec::new();
    let mut depth: usize = 0;
    let mut i: usize = 0;
    assert(cs@.take(0) =~= seq![]);
    assert(pieces::texts(done@) =~= seq![]);
    while i < cs.len()
        invariant
            i <= cs@.len(),
            depth <= i,
            pieces::texts(done@) == scan(cs@.take(i as int)).done,
            current@ == scan(cs@.take(i as int)).current,
            depth == scan(cs@.take(i as int)).depth,
        decreases cs.len() - i,
    {
        let c = cs[i];
        proof {
            assert(cs@.take(i + 1).drop_last() =~= cs@.take(i as int));
            assert(cs@.take(i + 1).last() == c);
        }
        if c == '{' {
            depth = depth + 1;
            current.push(c);
        } else if c == '}' {
            if depth > 0 {
                depth = depth - 1;
            }
            current.push(c);
        } else if c == ',' && depth == 0 {
            push_pattern(&mut done, &current);
            current = Vec::new();
        } else {
            current.push(c);
        }
        i = i + 1;
    }
    push_pattern(&mut done, &current);
    assert(cs@.take(cs@.len() as int) =~= cs@);
    let ghost all = listed(spec@);
    let mut r: Vec<String> = Vec::new();
    let mut k: usize = 0;
    assert(pieces::texts(r@) =~= all_braced(all.take(0)));
    while k < done.len()
        invariant
            k <= done@.len(),
            all == pieces::texts(done@),
            pieces::texts(r@) == all_braced(all.take(k as int)),
        decreases done.len() - k,
    {
        proof {
            assert(all.take(k + 1).drop_last() =~= all.take(k as int));
            assert(all.take(k + 1).last() == done@[k as int]@);
        }
        let ghost before = pieces::texts(r@);
        let mut more = expand_braces(done[k].as_str());
        let ghost added = pieces::texts(more@);
        r.append(&mut more);
        assert(pieces::texts(r@) =~= before + added);
        k = k + 1;
    }
    assert(all.take(done@.len() as int) =~= all);
    r
}

/// What is wrong with a glob pattern, where anything is.
pub uninterp spec fn glob_error(pattern: Seq<char>) -> Option<Seq<char>>;

/// Whether a path matches a glob pattern, where the case of letters counts or not.
pub uninterp spec fn glob_match(pattern: Seq<char>, path: Seq<char>, cased: bool) -> bool;

/// `glob::Pattern::new`: whether a text is a pattern depends on the text alone, and so does
/// what is said of one that is not.
#[verifier::external_body]
pub(crate) fn pattern_problem(pattern: &str) -> (r: Option<String>)
    ensures
        pieces::opt_text(r) == glob_error(pattern@),
{
    glob::Pattern::new(pattern).err().map(|e| e.to_string())
}

/// `glob::Pattern::matches_with`, where wildcards match separators and leading dots too:
/// whether a path matches depends on the pattern, the path, and whether the case of letters
/// counts. A text that is no pattern matches nothing.
#[verifier::external_body]
pub(crate) fn glob_matches(pattern: &str, path: &str, cased: bool) -> (r: bool)
    ensures
        r == (glob_error(pattern@) is None && glob_match(pattern@, path@, cased)),
{
    let options = glob::MatchOptions {
        case_sensitive: cased,
        require_literal_separator: false,
        require_literal_leading_dot: false,
    };
    glob::Pattern::new(pattern).map(|p| p.matches_with(path, options)).unwrap_or(false)
}

/// One of the patterns matches a file; the case of letters counts. A text that is no pattern matches nothing.
pub open spec fn is_matched(patterns: Seq<Seq<char>>, path: Seq<char>) -> bool {
    exists|i: int|
        0 <= i < patterns.len() && glob_error(#[trigger] patterns[i]) is None && glob_match(
            patterns[i],
            path,
            true,
        )
}

/// Whether one of the patterns matches a file.
pub fn matches_any(patterns: &Vec<String>, path: &str) -> (r: bool)
    ensures
        r == is_matched(pieces::texts(patterns@), path@),
{
    let ghost ps = pieces::texts(patterns@);
    let mut i: usize = 0;
    while i < patterns.len()
        invariant
            i <= patterns@.len(),
            ps == pieces::texts(patterns@),
            forall|j: int|
                0 <= j < i ==> !(glob_error(#[trigger] ps[j]) is None && glob_match(
                    ps[j],
                    path@,
                    true,
                )),
        decreases patterns.len() - i,
    {
        assert(ps[i as int] == patterns@[i as int]@);
        if glob_matches(patterns[i].as_str(), path, true) {
            return true;
        }
        i = i + 1;
    }
    false
}

// ---------------------------------------------------------------------------
// Rows
// ---------------------------------------------------------------------------

/// The largest chunk of a document, in bytes.
pub const CHUNK_LIMIT: usize = 800;

/// One row of the documentation table.
#[derive(Debug, Clone)]
pub struct IndexRow {
    pub path: String,
    pub chunk: ChunkInfo,
}

/// The rows of a document are its chunks, each under the document's path.
pub open spec fn are_rows(rows: Seq<IndexRow>, path: Seq<char>, s: Seq<char>) -> bool {
    let spans = chunker::chunk_spans(s, CHUNK_LIMIT as nat);
    rows.len() == spans.len() && forall|i: int|
        0 <= i < rows.len() ==> (#[trigger] rows[i]).path@ == path && chunker::is_chunk(
            s,
            rows[i].chunk,
            spans[i],
        )
}

/// The rows that a document becomes.
pub fn document_rows(path: &str, text: &str) -> (r: Vec<IndexRow>)
    requires
        chunker::breaks(text@) < u32::MAX,
    ensures
        are_rows(r@, path@, text@),
{
    let chunks = chunk_text(text, CHUNK_LIMIT);
    let mut r: Vec<IndexRow> = Vec::new();
    let ghost all = chunks@;
    let ghost spans = chunker::chunk_spans(text@, CHUNK_LIMIT as nat);
    let mut i: usize = 0;
    while i < chunks.len()
        invariant
            i <= chunks@.len(),
            chunker::are_chunks(text@, chunks@, spans),
            r@.len() == i,
            forall|j: int|
                0 <= j < i ==> (#[trigger] r@[j]).path@ == path@ && chunker::is_chunk(
                    text@,
                    r@[j].chunk,
                    spans[j],
                ),
        decreases chunks.len() - i,
    {
        let c = &chunks[i];
        r.push(
            IndexRow {
                path: path.to_owned(),
                chunk: ChunkInfo {
                    text: c.text.clone(),
                    start_line: c.start_line,
                    end_line: c.end_line,
                    start_byte: c.start_byte,
                    end_byte: c.end_byte,
                },
            },
        );
        i = i + 1;
    }
    r
}

/// How many rows documents become.
pub open spec fn row_count(docs: Seq<(String, String)>) -> nat
    decreases docs.len(),
{
    if docs.len() == 0 {
        0
    } else {
        row_count(docs.drop_last()) + chunker::chunk_spans(
            docs.last().1@,
            CHUNK_LIMIT as nat,
        ).len()
    }
}

/// The rows of documents, given by path and text: those of each document in turn.
pub open spec fn are_all_rows(rows: Seq<IndexRow>, docs: Seq<(String, String)>) -> bool
    decreases docs.len(),
{
    if docs.len() == 0 {
        rows.len() == 0
    } else {
        let n = row_count(docs.drop_last()) as int;
        n <= rows.len() && are_all_rows(rows.take(n), docs.drop_last()) && are_rows(
            rows.skip(n),
            docs.last().0@,
            docs.last().1@,
        )
    }
}

/// A document whose lines can be numbered.
pub open spec fn fits(doc: (String, String)) -> bool {
    chunker::breaks(doc.1@) < u32::MAX
}

/// The message where there is nothing to index.
pub const NOTHING_MATCHED: &'static str = "no documents matched — check glob pattern";

/// The rows of an index over documents, each given by its path and its text. An index has
/// something to search in, or it is refused.
pub fn index_documents(docs: &Vec<(String, String)>) -> (r: Result<Vec<IndexRow>, SempkgError>)
    requires
        forall|i: int| 0 <= i < docs@.len() ==> fits(#[trigger] docs@[i]),
    ensures
        match r {
            Ok(rows) => row_count(docs@) > 0 && rows@.len() == row_count(docs@) && are_all_rows(
                rows@,
                docs@,
            ),
            Err(e) => row_count(docs@) == 0 && (e matches SempkgError::LanceError(m) && m@
                == NOTHING_MATCHED@),
        },
{
    let mut rows: Vec<IndexRow> = Vec::new();
    let mut i: usize = 0;
    while i < docs.len()
        invariant
            i <= docs@.len(),
            forall|i: int| 0 <= i < docs@.len() ==> fits(#[trigger] docs@[i]),
            rows@.len() == row_count(docs@.take(i as int)),
            are_all_rows(rows@, docs@.take(i as int)),
        decreases docs.len() - i,
    {
        assert(fits(docs@[i as int]));
        let mut more = document_rows(docs[i].0.as_str(), docs[i].1.as_str());
        let ghost before = rows@;
        let ghost added = more@;
        rows.append(&mut more);
        proof {
            let now = docs@.take(i + 1);
            assert(now.drop_last() =~= docs@.take(i as int));
            assert(now.last() == docs@[i as int]);
            assert(rows@.take(before.len() as int) =~= before);
            assert(rows@.skip(before.len() as int) =~= added);
        }
        i = i + 1;
    }
    assert(docs@.take(docs@.len() as int) =~= docs@);
    if rows.len() == 0 {
        return Err(SempkgError::LanceError(NOTHING_MATCHED.to_owned()));
    }
    Ok(rows)
}

// ---------------------------------------------------------------------------
// What lists of patterns and indices come to
// ---------------------------------------------------------------------------

proof fn lemma_scan_both(a: Seq<char>, b: Seq<char>)
    requires
        scan(a).depth == 0,
    ensures
        scan(a + seq![','] + b) == (Scan {
            done: with_pattern(scan(a).done, scan(a).current) + scan(b).done,
            current: scan(b).current,
            depth: scan(b).depth,
        }),
    decreases b.len(),
{
    let all = a + seq![','] + b;
    let before = with_pattern(scan(a).done, scan(a).current);
    if b.len() == 0 {
        assert(all.drop_last() =~= a);
        assert(all.last() == ',');
        assert(before + scan(b).done =~= before);
    } else {
        let t = b.drop_last();
        lemma_scan_both(a, t);
        assert(all.drop_last() =~= a + seq![','] + t);
        assert(all.last() == b.last());
        let p = text::trim(scan(t).current, CharClass::Space);
        assert((before + scan(t).done).push(p) =~= before + scan(t).done.push(p));
    }
}

/// A comma between two lists of patterns puts the patterns of the one behind those of the
/// other, where the braces of the first are closed.
pub proof fn lists_of_patterns_go_one_after_another(a: Seq<char>, b: Seq<char>)
    requires
        scan(a).depth == 0,
    ensures
        listed(a + seq![','] + b) == listed(a) + listed(b),
        patterns(a + seq![','] + b) == patterns(a) + patterns(b),
{
    lemma_scan_both(a, b);
    let x = listed(a);
    let p = text::trim(scan(b).current, CharClass::Space);
    assert((x + scan(b).done).push(p) =~= x + scan(b).done.push(p));
    assert(listed(a + seq![','] + b) =~= x + listed(b));
    patterns_are_expanded_one_by_one(x, listed(b), seq![]);
}

/// Patterns are expanded one by one, in their order.
pub proof fn patterns_are_expanded_one_by_one(
    a: Seq<Seq<char>>,
    b: Seq<Seq<char>>,
    p: Seq<char>,
)
    ensures
        all_braced(a + b) == all_braced(a) + all_braced(b),
        all_braced(seq![p]) == braced(p),
    decreases b.len(),
{
    reveal_with_fuel(all_braced, 2);
    assert(seq![p].drop_last() =~= Seq::<Seq<char>>::empty());
    assert(Seq::<Seq<char>>::empty() + braced(p) =~= braced(p));
    if b.len() == 0 {
        assert(a + b =~= a);
        assert(all_braced(a) + all_braced(b) =~= all_braced(a));
    } else {
        let t = b.drop_last();
        patterns_are_expanded_one_by_one(a, t, p);
        assert((a + b).drop_last() =~= a + t);
        assert(all_braced(a) + all_braced(t) + braced(b.last()) =~= all_braced(a) + (all_braced(t)
            + braced(b.last())));
    }
}

proof fn lemma_scan_plain(s: Seq<char>)
    requires
        forall|i: int|
            0 <= i < s.len() ==> #[trigger] s[i] != '{' && s[i] != '}' && s[i] != ',',
    ensures
        scan(s) == (Scan { done: seq![], current: s, depth: 0 }),
    decreases s.len(),
{
    if s.len() > 0 {
        let t = s.drop_last();
        assert forall|i: int| 0 <= i < t.len() implies #[trigger] t[i] != '{' && t[i] != '}' && t[i]
            != ',' by {
            assert(t[i] == s[i]);
        }
        lemma_scan_plain(t);
        assert(s.last() == s[s.len() - 1]);
        assert(t.push(s.last()) =~= s);
    } else {
        assert(s =~= Seq::<char>::empty());
    }
}

/// A pattern by itself, without braces, is that pattern without the white space around it.
pub proof fn a_plain_pattern_is_itself(s: Seq<char>)
    requires
        forall|i: int|
            0 <= i < s.len() ==> #[trigger] s[i] != '{' && s[i] != '}' && s[i] != ',',
        text::trim(s, CharClass::Space).len() > 0,
    ensures
        patterns(s) == seq![text::trim(s, CharClass::Space)],
        scan(s).depth == 0,
{
    lemma_scan_plain(s);
    let t = text::trim(s, CharClass::Space);
    assert(listed(s) =~= seq![t]);
    patterns_are_expanded_one_by_one(seq![], seq![], t);
    github::lemma_trim(s, CharClass::Space);
    let k = CharClass::Is('{');
    text::lemma_find_bounds(t, k);
    if text::find(t, k) < t.len() {
        assert(s.contains(t[text::find(t, k)]));
    }
}

/// A comma in braces ends no pattern, and braces count in pairs.
pub proof fn commas_in_braces_end_no_pattern(s: Seq<char>)
    requires
        scan(s).depth > 0,
    ensures
        scan(s.push(',')) == (Scan { current: scan(s).current.push(','), ..scan(s) }),
        scan(s.push('{')) == (Scan {
            current: scan(s).current.push('{'),
            depth: scan(s).depth + 1,
            ..scan(s)
        }),
        scan(s.push('}')) == (Scan {
            current: scan(s).current.push('}'),
            depth: (scan(s).depth - 1) as nat,
            ..scan(s)
        }),
{
    assert(s.push(',').drop_last() =~= s);
    assert(s.push('{').drop_last() =~= s);
    assert(s.push('}').drop_last() =~= s);
}

/// Alternatives in braces stand for one pattern each, with what is before and behind the
/// braces around it.
pub proof fn braces_stand_for_every_alternative(
    a: Seq<char>,
    alts: Seq<Seq<char>>,
    b: Seq<char>,
)
    requires
        forall|i: int| 0 <= i < a.len() ==> #[trigger] a[i] != '{',
        alts.len() > 0,
        forall|i: int, j: int|
            0 <= i < alts.len() && 0 <= j < alts[i].len() ==> #[trigger] alts[i][j] != ','
                && alts[i][j] != '}' && alts[i][j] != '{',
        !pieces::join(alts, seq![',']).contains('}'),
    ensures
        braced(a + seq!['{'] + pieces::join(alts, seq![',']) + seq!['}'] + b) == Seq::new(
            alts.len(),
            |i: int| a + text::trim(alts[i], CharClass::Space) + b,
        ),
{
    let inner = pieces::join(alts, seq![',']);
    let p = a + seq!['{'] + inner + seq!['}'] + b;
    let open = a.len() as int;
    let ko = CharClass::Is('{');
    assert forall|i: int| 0 <= i < open implies !text::in_class(ko, #[trigger] p[i]) by {
        assert(p[i] == a[i]);
    }
    assert(p[open] == '{');
    text::lemma_find(p, ko, open);
    let kc = CharClass::Is('}');
    let t = p.skip(open);
    let n = inner.len() as int + 1;
    assert forall|i: int| 0 <= i < n implies !text::in_class(kc, #[trigger] t[i]) by {
        if i > 0 {
            assert(t[i] == inner[i - 1]);
            assert(inner.contains(inner[i - 1]));
        } else {
            assert(t[0] == '{');
        }
    }
    assert(t[n] == '}');
    text::lemma_find(t, kc, n);
    assert(p.subrange(open + 1, open + n) =~= inner);
    assert(p.take(open) =~= a);
    assert(p.skip(open + n + 1) =~= b);
    assert forall|i: int, j: int|
        0 <= i < alts.len() && 0 <= j < alts[i].len() implies #[trigger] alts[i][j] != ',' by {}
    pieces::joined_pieces_are_split_again(alts, ',');
    assert(braced(p) =~= Seq::new(
        alts.len(),
        |i: int| a + text::trim(alts[i], CharClass::Space) + b,
    ));
}

/// Every chunk of every document is a row, under the path of its document.
pub proof fn every_chunk_is_a_row(
    rows: Seq<IndexRow>,
    docs: Seq<(String, String)>,
    d: int,
    i: int,
)
    requires
        are_all_rows(rows, docs),
        0 <= d < docs.len(),
        0 <= i < chunker::chunk_spans(docs[d].1@, 800).len(),
    ensures
        exists|k: int|
            0 <= k < rows.len() && (#[trigger] rows[k]).path@ == docs[d].0@ && chunker::is_chunk(
                docs[d].1@,
                rows[k].chunk,
                chunker::chunk_spans(docs[d].1@, 800)[i],
            ),
    decreases docs.len(),
{
    let t = docs.drop_last();
    let n = row_count(t) as int;
    let span = chunker::chunk_spans(docs[d].1@, 800)[i];
    if d < t.len() {
        assert(t[d] == docs[d]);
        let head = rows.take(n);
        every_chunk_is_a_row(head, t, d, i);
        let k = choose|k: int|
            0 <= k < head.len() && (#[trigger] head[k]).path@ == t[d].0@ && chunker::is_chunk(
                t[d].1@,
                head[k].chunk,
                span,
            );
        assert(rows[k] == head[k]);
    } else {
        let own = rows.skip(n);
        assert(own[i].path@ == docs[d].0@);
        assert(rows[n + i] == own[i]);
    }
}

/// The rows of documents add up, so that no row is there twice.
pub proof fn rows_add_up(a: Seq<(String, String)>, b: Seq<(String, String)>, d: (String, String))
    ensures
        row_count(a + b) == row_count(a) + row_count(b),
        row_count(seq![d]) == chunker::chunk_spans(d.1@, 800).len(),
    decreases b.len(),
{
    reveal_with_fuel(row_count, 2);
    assert(seq![d].drop_last() =~= Seq::<(String, String)>::empty());
    if b.len() == 0 {
        assert(a + b =~= a);
    } else {
        rows_add_up(a, b.drop_last(), d);
        assert((a + b).drop_last() =~= a + b.drop_last());
    }
}

/// A file is indexed wherever one of the patterns matches it, whichever that is.
pub proof fn any_pattern_is_enough(a: Seq<Seq<char>>, b: Seq<Seq<char>>, p: Seq<char>, path: Seq<char>)
    ensures
        is_matched(a + b, path) == (is_matched(a, path) || is_matched(b, path)),
        is_matched(seq![p], path) == (glob_error(p) is None && glob_match(p, path, true)),
        !is_matched(Seq::empty(), path),
{
    let ab = a + b;
    if is_matched(a, path) {
        let i = choose|i: int|
            0 <= i < a.len() && glob_error(#[trigger] a[i]) is None && glob_match(a[i], path, true);
        assert(ab[i] == a[i]);
    }
    if is_matched(b, path) {
        let i = choose|i: int|
            0 <= i < b.len() && glob_error(#[trigger] b[i]) is None && glob_match(b[i], path, true);
        assert(ab[a.len() + i] == b[i]);
    }
    if is_matched(ab, path) {
        let i = choose|i: int|
            0 <= i < ab.len() && glob_error(#[trigger] ab[i]) is None && glob_match(
                ab[i],
                path,
                true,
            );
        if i < a.len() {
            assert(a[i] == ab[i]);
        } else {
            assert(b[i - a.len()] == ab[i]);
        }
    }
    let one = seq![p];
    assert(one[0] == p);
}

/// A blank pattern is none.
pub proof fn blank_patterns_are_none(s: Seq<char>)
    requires
        forall|i: int|
            0 <= i < s.len() ==> #[trigger] s[i] != '{' && s[i] != '}' && s[i] != ',',
        text::trim(s, CharClass::Space).len() == 0,
    ensures
        patterns(s).len() == 0,
{
    lemma_scan_plain(s);
    assert(listed(s).len() == 0);
}

/// An index grows document by document: the rows of one more document stand behind the others,
/// and a document without chunks adds none.
pub proof fn indices_grow_document_by_document(
    rows: Seq<IndexRow>,
    docs: Seq<(String, String)>,
    more: Seq<IndexRow>,
    doc: (String, String),
)
    requires
        are_all_rows(rows, docs),
        rows.len() == row_count(docs),
        are_rows(more, doc.0@, doc.1@),
    ensures
        are_all_rows(rows + more, docs.push(doc)),
        (rows + more).len() == row_count(docs.push(doc)),
        are_all_rows(Seq::empty(), Seq::empty()),
{
    let all = rows + more;
    let n = rows.len() as int;
    assert(docs.push(doc).drop_last() =~= docs);
    assert(all.take(n) =~= rows);
    assert(all.skip(n) =~= more);
}

} // verus!
