//! Cutting a document into chunks for the index. A chunk is an exact slice of the
//! document, so that every line of it can be traced back.

use vstd::prelude::*;
use vstd::slice::slice_subrange;

use crate::pieces;
use crate::pieces::width_of;
use crate::text;
use crate::text::{chars_of, string_of};

verus! {

/// One chunk of a document.
#[derive(Debug, Clone)]
pub struct ChunkInfo {
    pub text: String,
    /// The line of the chunk's first character; the first line is 1.
    pub start_line: u32,
    /// The line of the chunk's last character.
    pub end_line: u32,
    /// The byte that the chunk begins at.
    pub start_byte: u32,
    /// The byte behind the chunk.
    pub end_byte: u32,
}

/// A stretch of a document: its first character and the one behind it.
pub type Span = (int, int);

/// How many bytes a stretch takes.
pub open spec fn bytes(s: Seq<char>, a: int, b: int) -> nat {
    pieces::byte_len(s.subrange(a, b))
}

/// How many line breaks a text has.
pub open spec fn breaks(s: Seq<char>) -> nat
    decreases s.len(),
{
    if s.len() == 0 {
        0
    } else {
        breaks(s.drop_last()) + (if s.last() == '\n' {
            1nat
        } else {
            0
        })
    }
}

/// The line that a character stands on; the first line is 1.
pub open spec fn line_of(s: Seq<char>, i: int) -> nat {
    breaks(s.take(i)) + 1
}

/// Where the line that begins at `p` ends, within a stretch that ends at `end`.
pub open spec fn next_line(s: Seq<char>, p: int, end: int) -> int
    decreases end - p,
{
    if p >= end {
        end
    } else if s[p] == '\n' {
        p + 1
    } else {
        next_line(s, p + 1, end)
    }
}

/// The longest piece of a line from `off` on, up to `hi`, that is no larger than
/// `max`; `j` is known to fit.
pub open spec fn fit(s: Seq<char>, off: int, j: int, hi: int, max: nat) -> int
    decreases hi - j,
{
    if j < hi && bytes(s, off, j + 1) <= max {
        fit(s, off, j + 1, hi, max)
    } else {
        j
    }
}

/// Where an overlong line is cut next: as late as the limit allows, or at its end
/// where not even one character fits.
pub open spec fn hard_stop(s: Seq<char>, off: int, hi: int, max: nat) -> int {
    let j = fit(s, off, off, hi, max);
    if j == off {
        hi
    } else {
        j
    }
}

/// The pieces that an overlong line is cut into.
pub open spec fn hard_cuts(s: Seq<char>, off: int, hi: int, max: nat) -> Seq<Span>
    decreases hi - off,
    via hard_cuts_decreases
{
    if off >= hi {
        seq![]
    } else {
        let stop = hard_stop(s, off, hi, max);
        seq![(off, stop)] + hard_cuts(s, stop, hi, max)
    }
}

#[via_fn]
proof fn hard_cuts_decreases(s: Seq<char>, off: int, hi: int, max: nat) {
    lemma_fit(s, off, off, hi, max);
}

proof fn lemma_fit(s: Seq<char>, off: int, j: int, hi: int, max: nat)
    requires
        off <= j,
    ensures
        j <= fit(s, off, j, hi, max),
        j <= hi ==> fit(s, off, j, hi, max) <= hi,
        fit(s, off, j, hi, max) > j ==> bytes(s, off, fit(s, off, j, hi, max)) <= max,
        j < hi && bytes(s, off, j + 1) <= max ==> fit(s, off, j, hi, max) > j,
    decreases hi - j,
{
    if j < hi && bytes(s, off, j + 1) <= max {
        lemma_fit(s, off, j + 1, hi, max);
    }
}

/// The stretches that a large paragraph is cut into: as many whole lines as the limit
/// allows, beginning at `win`, with the lines from `lo` on still to come. A line that
/// is too large by itself is cut inside.
pub open spec fn windows(s: Seq<char>, win: int, lo: int, end: int, max: nat) -> Seq<Span>
    decreases end - lo,
    via windows_decreases
{
    if lo >= end {
        if end > win {
            seq![(win, end)]
        } else {
            seq![]
        }
    } else {
        let hi = next_line(s, lo, end);
        let flush = bytes(s, win, hi) > max && lo > win;
        let out = if flush {
            seq![(win, lo)]
        } else {
            seq![]
        };
        if bytes(s, lo, hi) > max {
            out + hard_cuts(s, lo, hi, max) + windows(s, hi, hi, end, max)
        } else {
            out + windows(
                s,
                if flush {
                    lo
                } else {
                    win
                },
                hi,
                end,
                max,
            )
        }
    }
}

#[via_fn]
proof fn windows_decreases(s: Seq<char>, win: int, lo: int, end: int, max: nat) {
    lemma_next_line(s, lo, end);
}

proof fn lemma_next_line(s: Seq<char>, p: int, end: int)
    ensures
        p < end ==> p < next_line(s, p, end) <= end,
        p >= end ==> next_line(s, p, end) == end,
    decreases end - p,
{
    if p < end && s[p] != '\n' {
        lemma_next_line(s, p + 1, end);
    }
}

/// A stretch without the line breaks at its end.
pub open spec fn cut_breaks(s: Seq<char>, a: int, b: int) -> int
    decreases b - a,
{
    if b > a && (s[b - 1] == '\n' || s[b - 1] == '\r') {
        cut_breaks(s, a, b - 1)
    } else {
        b
    }
}

/// The stretches without the line breaks at their ends; those that had nothing else
/// fall out.
pub open spec fn kept(s: Seq<char>, spans: Seq<Span>) -> Seq<Span>
    decreases spans.len(),
{
    if spans.len() == 0 {
        seq![]
    } else {
        let head = kept(s, spans.drop_last());
        let (a, b) = spans.last();
        if cut_breaks(s, a, b) > a {
            head.push((a, cut_breaks(s, a, b)))
        } else {
            head
        }
    }
}

/// The first character of a stretch that is not white space.
pub open spec fn skip_space(s: Seq<char>, a: int, b: int) -> int
    decreases b - a,
{
    if a < b && text::char_is_space(s[a]) {
        skip_space(s, a + 1, b)
    } else {
        a
    }
}

/// The end of a stretch without the white space there.
pub open spec fn drop_space(s: Seq<char>, a: int, b: int) -> int
    decreases b - a,
{
    if a < b && text::char_is_space(s[b - 1]) {
        drop_space(s, a, b - 1)
    } else {
        b
    }
}

/// Where the paragraph that begins at `p` ends: at two line breaks, or at the end.
pub open spec fn para_end(s: Seq<char>, p: int) -> int
    decreases s.len() - p,
{
    if p + 2 > s.len() {
        s.len() as int
    } else if s[p] == '\n' && s[p + 1] == '\n' {
        p
    } else {
        para_end(s, p + 1)
    }
}

proof fn lemma_para_end(s: Seq<char>, p: int)
    requires
        0 <= p <= s.len(),
    ensures
        p <= para_end(s, p) <= s.len(),
        para_end(s, p) < s.len() ==> para_end(s, p) + 2 <= s.len() && s[para_end(s, p)] == '\n'
            && s[para_end(s, p) + 1] == '\n',
    decreases s.len() - p,
{
    if p + 2 <= s.len() && !(s[p] == '\n' && s[p + 1] == '\n') {
        lemma_para_end(s, p + 1);
    }
}

/// The paragraphs from `p` on, without the white space around them.
pub open spec fn paragraphs(s: Seq<char>, p: int) -> Seq<Span>
    decreases s.len() - p,
    via paragraphs_decreases
{
    if p < 0 || p > s.len() {
        seq![]
    } else {
        let e = para_end(s, p);
        let a = skip_space(s, p, e);
        let own = if a < e {
            seq![(a, drop_space(s, a, e))]
        } else {
            seq![]
        };
        if e < s.len() {
            own + paragraphs(s, e + 2)
        } else {
            own
        }
    }
}

#[via_fn]
proof fn paragraphs_decreases(s: Seq<char>, p: int) {
    if 0 <= p <= s.len() {
        lemma_para_end(s, p);
    }
}

/// The stretches that paragraphs are packed into: neighbours go together as long as
/// the whole stays within the limit, and a paragraph that is too large by itself is
/// cut at its lines. `cur` is what is being packed, `k` the next paragraph.
pub open spec fn packed(
    s: Seq<char>,
    ps: Seq<Span>,
    k: int,
    cur: Option<Span>,
    max: nat,
) -> Seq<Span>
    decreases ps.len() - k,
{
    let out = match cur {
        Some(c) => seq![c],
        None => seq![],
    };
    if k < 0 || k >= ps.len() {
        out
    } else {
        let p = ps[k];
        let first = match cur {
            Some(c) => c.0,
            None => p.0,
        };
        if bytes(s, first, p.1) <= max {
            packed(s, ps, k + 1, Some((first, p.1)), max)
        } else if bytes(s, p.0, p.1) <= max {
            out + packed(s, ps, k + 1, Some(p), max)
        } else {
            out + windows(s, p.0, p.0, p.1, max) + packed(s, ps, k + 1, None, max)
        }
    }
}

/// The chunks of a document as stretches of it.
pub open spec fn chunk_spans(s: Seq<char>, max: nat) -> Seq<Span> {
    let by_paragraph = kept(s, packed(s, paragraphs(s, 0), 0, None, max));
    if by_paragraph.len() == 0 {
        kept(s, windows(s, 0, 0, s.len() as int, max))
    } else {
        by_paragraph
    }
}

/// A chunk is the stretch of the document that its numbers name.
pub open spec fn is_chunk(s: Seq<char>, c: ChunkInfo, span: Span) -> bool {
    &&& c.text@ == s.subrange(span.0, span.1)
    &&& c.start_line == line_of(s, span.0)
    &&& c.end_line == line_of(s, span.1 - 1)
    &&& c.start_byte == pieces::byte_len(s.take(span.0)) as u32
    &&& c.end_byte == pieces::byte_len(s.take(span.1)) as u32
}

/// The chunks are, one by one, the stretches.
pub open spec fn are_chunks(s: Seq<char>, cs: Seq<ChunkInfo>, spans: Seq<Span>) -> bool {
    cs.len() == spans.len() && forall|i: int|
        0 <= i < cs.len() ==> is_chunk(s, #[trigger] cs[i], spans[i])
}

// ---------------------------------------------------------------------------
// Doing it
// ---------------------------------------------------------------------------

/// The stretches that indices name.
pub open spec fn spans_of(v: Seq<(usize, usize)>) -> Seq<Span> {
    v.map_values(|x: (usize, usize)| (x.0 as int, x.1 as int))
}

/// Each position holds the number of bytes before it.
pub open spec fn offsets(s: Seq<char>, offs: Seq<u128>) -> bool {
    offs.len() == s.len() + 1 && forall|i: int|
        0 <= i <= s.len() ==> #[trigger] offs[i] == pieces::byte_len(s.take(i))
}

proof fn lemma_bytes(s: Seq<char>, a: int, b: int)
    requires
        0 <= a <= b <= s.len(),
    ensures
        bytes(s, a, b) == pieces::byte_len(s.take(b)) - pieces::byte_len(s.take(a)),
{
    assert(s.take(b) =~= s.take(a) + s.subrange(a, b));
    pieces::lemma_byte_len_concat(s.take(a), s.subrange(a, b));
}

fn byte_offsets(cs: &Vec<char>) -> (offs: Vec<u128>)
    ensures
        offsets(cs@, offs@),
{
    let mut offs: Vec<u128> = Vec::new();
    let mut n: u128 = 0;
    let mut i: usize = 0;
    assert(cs@.take(0) =~= seq![]);
    offs.push(0);
    while i < cs.len()
        invariant
            i <= cs@.len(),
            i <= usize::MAX,
            n == pieces::byte_len(cs@.take(i as int)),
            n <= 4 * i,
            offs@.len() == i + 1,
            forall|j: int| 0 <= j <= i ==> #[trigger] offs@[j] == pieces::byte_len(cs@.take(j)),
        decreases cs.len() - i,
    {
        proof {
            assert(cs@.take(i + 1).drop_last() =~= cs@.take(i as int));
        }
        n = n + width_of(cs[i]) as u128;
        offs.push(n);
        i = i + 1;
    }
    offs
}

fn size(offs: &Vec<u128>, a: usize, b: usize, Ghost(s): Ghost<Seq<char>>) -> (n: u128)
    requires
        offsets(s, offs@),
        a <= b <= s.len(),
    ensures
        n == bytes(s, a as int, b as int),
{
    proof {
        lemma_bytes(s, a as int, b as int);
    }
    offs[b] - offs[a]
}

fn line_end(cs: &Vec<char>, p: usize, end: usize) -> (hi: usize)
    requires
        p < end <= cs@.len(),
    ensures
        hi == next_line(cs@, p as int, end as int),
        p < hi <= end,
{
    let mut i: usize = p;
    while i < end && cs[i] != '\n'
        invariant
            p <= i <= end,
            end <= cs@.len(),
            next_line(cs@, p as int, end as int) == next_line(cs@, i as int, end as int),
        decreases end - i,
    {
        i = i + 1;
    }
    proof {
        lemma_next_line(cs@, p as int, end as int);
    }
    if i < end {
        i + 1
    } else {
        end
    }
}

fn push_hard_cuts(
    cs: &Vec<char>,
    offs: &Vec<u128>,
    lo: usize,
    hi: usize,
    max: usize,
    out: &mut Vec<(usize, usize)>,
)
    requires
        offsets(cs@, offs@),
        lo <= hi <= cs@.len(),
    ensures
        spans_of(final(out)@) == spans_of(old(out)@) + hard_cuts(
            cs@,
            lo as int,
            hi as int,
            max as nat,
        ),
{
    let mut off: usize = lo;
    let ghost want = spans_of(out@) + hard_cuts(cs@, lo as int, hi as int, max as nat);
    while off < hi
        invariant
            lo <= off <= hi <= cs@.len(),
            offsets(cs@, offs@),
            spans_of(out@) + hard_cuts(cs@, off as int, hi as int, max as nat) == want,
        decreases hi - off,
    {
        let mut j: usize = off;
        while j < hi && size(offs, off, j + 1, Ghost(cs@)) <= max as u128
            invariant
                off <= j <= hi <= cs@.len(),
                offsets(cs@, offs@),
                fit(cs@, off as int, off as int, hi as int, max as nat) == fit(
                    cs@,
                    off as int,
                    j as int,
                    hi as int,
                    max as nat,
                ),
            decreases hi - j,
        {
            j = j + 1;
        }
        let stop: usize = if j == off {
            hi
        } else {
            j
        };
        let ghost before = spans_of(out@);
        out.push((off, stop));
        proof {
            assert(spans_of(out@) =~= before + seq![(off as int, stop as int)]);
            assert(stop == hard_stop(cs@, off as int, hi as int, max as nat));
            assert(spans_of(out@) + hard_cuts(cs@, stop as int, hi as int, max as nat) =~= before
                + hard_cuts(cs@, off as int, hi as int, max as nat));
        }
        off = stop;
    }
    proof {
        assert(hard_cuts(cs@, off as int, hi as int, max as nat) =~= seq![]);
        assert(spans_of(out@) =~= want);
    }
}

/// Cut the stretch `[start, end)` into stretches that begin and end at lines.
fn push_oversized_on_lines(
    cs: &Vec<char>,
    offs: &Vec<u128>,
    start: usize,
    end: usize,
    max: usize,
    out: &mut Vec<(usize, usize)>,
)
    requires
        offsets(cs@, offs@),
        start <= end <= cs@.len(),
    ensures
        spans_of(final(out)@) == spans_of(old(out)@) + windows(
            cs@,
            start as int,
            start as int,
            end as int,
            max as nat,
        ),
{
    let mut win: usize = start;
    let mut lo: usize = start;
    let ghost want = spans_of(out@) + windows(
        cs@,
        start as int,
        start as int,
        end as int,
        max as nat,
    );
    while lo < end
        invariant
            start <= win <= lo <= end <= cs@.len(),
            offsets(cs@, offs@),
            spans_of(out@) + windows(cs@, win as int, lo as int, end as int, max as nat) == want,
        decreases end - lo,
    {
        let hi: usize = line_end(cs, lo, end);
        let ghost before = spans_of(out@);
        let ghost old_win = win;
        let flush = size(offs, win, hi, Ghost(cs@)) > max as u128 && lo > win;
        if flush {
            out.push((win, lo));
            win = lo;
        }
        let ghost pre: Seq<Span> = if flush {
            seq![(old_win as int, lo as int)]
        } else {
            seq![]
        };
        assert(spans_of(out@) =~= before + pre);
        if size(offs, lo, hi, Ghost(cs@)) > max as u128 {
            push_hard_cuts(cs, offs, lo, hi, max, out);
            win = hi;
            proof {
                let h = hard_cuts(cs@, lo as int, hi as int, max as nat);
                let w = windows(cs@, hi as int, hi as int, end as int, max as nat);
                assert(spans_of(out@) + w =~= before + (pre + h + w));
            }
        } else {
            proof {
                let w = windows(cs@, win as int, hi as int, end as int, max as nat);
                assert(spans_of(out@) + w =~= before + (pre + w));
            }
        }
        lo = hi;
    }
    if end > win {
        let ghost before = spans_of(out@);
        out.push((win, end));
        proof {
            assert(spans_of(out@) =~= before + seq![(win as int, end as int)]);
        }
    } else {
        proof {
            assert(spans_of(out@) =~= want);
        }
    }
}

fn find_para_end(cs: &Vec<char>, p: usize) -> (e: usize)
    requires
        p <= cs@.len(),
    ensures
        e == para_end(cs@, p as int),
        p <= e <= cs@.len(),
        e < cs@.len() ==> e + 2 <= cs@.len(),
{
    let mut i: usize = p;
    while i < cs.len() && cs.len() - i >= 2 && !(cs[i] == '\n' && cs[i + 1] == '\n')
        invariant
            p <= i <= cs@.len(),
            para_end(cs@, p as int) == para_end(cs@, i as int),
        decreases cs.len() - i,
    {
        i = i + 1;
    }
    proof {
        lemma_para_end(cs@, p as int);
    }
    if i < cs.len() && cs.len() - i >= 2 {
        i
    } else {
        cs.len()
    }
}

fn find_paragraphs(cs: &Vec<char>) -> (ps: Vec<(usize, usize)>)
    ensures
        spans_of(ps@) == paragraphs(cs@, 0),
        forall|i: int| 0 <= i < ps@.len() ==> (#[trigger] ps@[i]).0 <= ps@[i].1 <= cs@.len(),
{
    let mut ps: Vec<(usize, usize)> = Vec::new();
    let mut p: usize = 0;
    let ghost want = paragraphs(cs@, 0);
    assert(spans_of(ps@) + paragraphs(cs@, 0) =~= want);
    loop
        invariant_except_break
            p <= cs@.len(),
            spans_of(ps@) + paragraphs(cs@, p as int) == want,
        invariant
            forall|i: int| 0 <= i < ps@.len() ==> (#[trigger] ps@[i]).0 <= ps@[i].1 <= cs@.len(),
        ensures
            spans_of(ps@) == want,
        decreases cs@.len() - p,
    {
        let e: usize = find_para_end(cs, p);
        let mut a: usize = p;
        while a < e && cs[a].is_whitespace()
            invariant
                p <= a <= e <= cs@.len(),
                skip_space(cs@, p as int, e as int) == skip_space(cs@, a as int, e as int),
            decreases e - a,
        {
            a = a + 1;
        }
        let ghost before = spans_of(ps@);
        if a < e {
            let mut b: usize = e;
            while a < b && cs[b - 1].is_whitespace()
                invariant
                    a <= b <= e <= cs@.len(),
                    drop_space(cs@, a as int, e as int) == drop_space(cs@, a as int, b as int),
                decreases b,
            {
                b = b - 1;
            }
            ps.push((a, b));
            proof {
                assert(spans_of(ps@) =~= before + seq![(a as int, b as int)]);
            }
        }
        if e >= cs.len() {
            proof {
                assert(spans_of(ps@) =~= want);
            }
            break;
        }
        proof {
            assert(spans_of(ps@) + paragraphs(cs@, e + 2) =~= before + paragraphs(cs@, p as int));
        }
        p = e + 2;
    }
    ps
}

fn pack(
    cs: &Vec<char>,
    offs: &Vec<u128>,
    ps: &Vec<(usize, usize)>,
    max: usize,
) -> (out: Vec<(usize, usize)>)
    requires
        offsets(cs@, offs@),
        spans_of(ps@) == paragraphs(cs@, 0),
        forall|i: int| 0 <= i < ps@.len() ==> (#[trigger] ps@[i]).0 <= ps@[i].1 <= cs@.len(),
    ensures
        spans_of(out@) == packed(cs@, paragraphs(cs@, 0), 0, None, max as nat),
{
    let mut out: Vec<(usize, usize)> = Vec::new();
    let mut cur: Option<(usize, usize)> = None;
    let mut k: usize = 0;
    let ghost all = paragraphs(cs@, 0);
    let ghost want = packed(cs@, all, 0, None, max as nat);
    proof {
        assert(spans_of(out@) + want =~= want);
        lemma_paragraphs(cs@, 0);
    }
    while k < ps.len()
        invariant
            k <= ps@.len(),
            offsets(cs@, offs@),
            all == spans_of(ps@),
            all == paragraphs(cs@, 0),
            forall|i: int| 0 <= i < ps@.len() ==> (#[trigger] ps@[i]).0 <= ps@[i].1 <= cs@.len(),
            ordered_within(all, 0, cs@.len() as int),
            match cur {
                Some(c) => c.0 <= c.1 && c.1 <= cs@.len() && (k < ps@.len() ==> c.1 <= ps@[k as int].0),
                None => true,
            },
            spans_of(out@) + packed(cs@, all, k as int, span_of(cur), max as nat) == want,
        decreases ps.len() - k,
    {
        let (a, b) = ps[k];
        let ghost before = spans_of(out@);
        let ghost was = span_of(cur);
        proof {
            assert(all[k as int] == (a as int, b as int));
            if k + 1 < ps@.len() {
                assert(all[k + 1] == (ps@[k + 1].0 as int, ps@[k + 1].1 as int));
                assert(all[k as int].1 <= all[k + 1].0);
            }
        }
        let first: usize = match cur {
            Some(c) => c.0,
            None => a,
        };
        if size(offs, first, b, Ghost(cs@)) <= max as u128 {
            cur = Some((first, b));
        } else {
            let ghost pre: Seq<Span> = match was {
                Some(c) => seq![c],
                None => seq![],
            };
            match cur {
                Some(c) => {
                    out.push(c);
                },
                None => {},
            }
            assert(spans_of(out@) =~= before + pre);
            if size(offs, a, b, Ghost(cs@)) <= max as u128 {
                cur = Some((a, b));
                proof {
                    let rest = packed(cs@, all, k + 1, span_of(cur), max as nat);
                    assert(spans_of(out@) + rest =~= before + (pre + rest));
                }
            } else {
                push_oversized_on_lines(cs, offs, a, b, max, &mut out);
                cur = None;
                proof {
                    let w = windows(cs@, a as int, a as int, b as int, max as nat);
                    let rest = packed(cs@, all, k + 1, None, max as nat);
                    assert(spans_of(out@) + rest =~= before + (pre + w + rest));
                }
            }
        }
        k = k + 1;
    }
    let ghost before = spans_of(out@);
    match cur {
        Some(c) => {
            out.push(c);
            proof {
                assert(spans_of(out@) =~= before + seq![(c.0 as int, c.1 as int)]);
            }
        },
        None => {
            proof {
                assert(spans_of(out@) =~= want);
            }
        },
    }
    out
}

/// The stretch that is being packed.
pub open spec fn span_of(c: Option<(usize, usize)>) -> Option<Span> {
    match c {
        Some(x) => Some((x.0 as int, x.1 as int)),
        None => None,
    }
}

/// Stretches that follow one another between two places, none of them empty.
pub open spec fn ordered_within(spans: Seq<Span>, from: int, to: int) -> bool {
    &&& forall|i: int|
        0 <= i < spans.len() ==> from <= (#[trigger] spans[i]).0 < spans[i].1 <= to
    &&& forall|i: int, j: int|
        0 <= i < j < spans.len() ==> (#[trigger] spans[i]).1 <= (#[trigger] spans[j]).0
}

proof fn lemma_ordered_concat(x: Seq<Span>, y: Seq<Span>, from: int, mid: int, to: int)
    requires
        ordered_within(x, from, mid),
        ordered_within(y, mid, to),
        from <= mid <= to,
    ensures
        ordered_within(x + y, from, to),
{
    let z = x + y;
    assert forall|i: int| 0 <= i < z.len() implies from <= (#[trigger] z[i]).0 < z[i].1 <= to by {
        if i < x.len() {
            assert(z[i] == x[i]);
        } else {
            assert(z[i] == y[i - x.len()]);
        }
    }
    assert forall|i: int, j: int| 0 <= i < j < z.len() implies (#[trigger] z[i]).1 <= (
    #[trigger] z[j]).0 by {
        if j < x.len() {
            assert(z[i] == x[i] && z[j] == x[j]);
        } else if i >= x.len() {
            assert(z[i] == y[i - x.len()] && z[j] == y[j - x.len()]);
        } else {
            assert(z[i] == x[i] && z[j] == y[j - x.len()]);
        }
    }
}

proof fn lemma_skip_space(s: Seq<char>, a: int, b: int)
    requires
        a <= b,
    ensures
        a <= skip_space(s, a, b) <= b,
        skip_space(s, a, b) < b ==> !text::char_is_space(s[skip_space(s, a, b)]),
        forall|i: int| a <= i < skip_space(s, a, b) ==> text::char_is_space(#[trigger] s[i]),
    decreases b - a,
{
    if a < b && text::char_is_space(s[a]) {
        lemma_skip_space(s, a + 1, b);
    }
}

proof fn lemma_drop_space(s: Seq<char>, a: int, b: int)
    requires
        a <= b,
    ensures
        a <= drop_space(s, a, b) <= b,
        drop_space(s, a, b) > a ==> !text::char_is_space(s[drop_space(s, a, b) - 1]),
        forall|i: int| drop_space(s, a, b) <= i < b ==> text::char_is_space(#[trigger] s[i]),
    decreases b - a,
{
    if a < b && text::char_is_space(s[b - 1]) {
        lemma_drop_space(s, a, b - 1);
    }
}

/// The paragraphs follow one another, and all that they leave out is white space.
proof fn lemma_paragraphs(s: Seq<char>, p: int)
    requires
        0 <= p <= s.len(),
    ensures
        ordered_within(paragraphs(s, p), p, s.len() as int),
        forall|i: int|
            p <= i < s.len() && !text::char_is_space(#[trigger] s[i]) ==> covered(
                paragraphs(s, p),
                i,
            ),
    decreases s.len() - p,
{
    lemma_para_end(s, p);
    let e = para_end(s, p);
    let a = skip_space(s, p, e);
    lemma_skip_space(s, p, e);
    let own: Seq<Span> = if a < e {
        seq![(a, drop_space(s, a, e))]
    } else {
        seq![]
    };
    if a < e {
        lemma_drop_space(s, a, e);
        assert(own[0] == (a, drop_space(s, a, e)));
        if drop_space(s, a, e) == a {
            assert(text::char_is_space(s[a]));
        }
    }
    assert(ordered_within(own, p, e));
    assert forall|i: int| p <= i < e && !text::char_is_space(#[trigger] s[i]) implies covered(
        own,
        i,
    ) by {
        assert(a <= i);
        assert(i < drop_space(s, a, e));
        assert(own[0].0 <= i < own[0].1);
    }
    if e < s.len() {
        lemma_paragraphs(s, e + 2);
        let rest = paragraphs(s, e + 2);
        assert(ordered_within(rest, e, s.len() as int)) by {
            assert forall|i: int| 0 <= i < rest.len() implies e <= (#[trigger] rest[i]).0
                < rest[i].1 <= s.len() by {}
        }
        lemma_ordered_concat(own, rest, p, e, s.len() as int);
        assert forall|i: int|
            p <= i < s.len() && !text::char_is_space(#[trigger] s[i]) implies covered(
            paragraphs(s, p),
            i,
        ) by {
            if i < e {
                lemma_covered_left(own, rest, i);
            } else {
                assert(text::char_is_space('\n'));
                assert(i >= e + 2);
                lemma_covered_right(own, rest, i);
            }
        }
    }
}

/// A character stands in one of the stretches.
pub open spec fn covered(spans: Seq<Span>, i: int) -> bool {
    exists|k: int| 0 <= k < spans.len() && (#[trigger] spans[k]).0 <= i < spans[k].1
}

proof fn lemma_covered_left(x: Seq<Span>, y: Seq<Span>, i: int)
    requires
        covered(x, i),
    ensures
        covered(x + y, i),
{
    let k = choose|k: int| 0 <= k < x.len() && (#[trigger] x[k]).0 <= i < x[k].1;
    assert((x + y)[k] == x[k]);
}

proof fn lemma_covered_right(x: Seq<Span>, y: Seq<Span>, i: int)
    requires
        covered(y, i),
    ensures
        covered(x + y, i),
{
    let k = choose|k: int| 0 <= k < y.len() && (#[trigger] y[k]).0 <= i < y[k].1;
    assert((x + y)[k + x.len()] == y[k]);
}

// ---------------------------------------------------------------------------
// Chunks
// ---------------------------------------------------------------------------

proof fn lemma_breaks_concat(x: Seq<char>, y: Seq<char>)
    ensures
        breaks(x + y) == breaks(x) + breaks(y),
    decreases y.len(),
{
    if y.len() == 0 {
        assert(x + y =~= x);
    } else {
        lemma_breaks_concat(x, y.drop_last());
        assert((x + y).drop_last() =~= x + y.drop_last());
        assert((x + y).last() == y.last());
    }
}

proof fn lemma_breaks_bound(s: Seq<char>, i: int)
    requires
        0 <= i <= s.len(),
    ensures
        breaks(s.take(i)) <= breaks(s),
{
    lemma_breaks_concat(s.take(i), s.skip(i));
    assert(s.take(i) + s.skip(i) =~= s);
}

fn line_at(cs: &Vec<char>, i: usize) -> (n: u32)
    requires
        i <= cs@.len(),
        breaks(cs@) < u32::MAX,
    ensures
        n == line_of(cs@, i as int),
{
    let mut n: u32 = 1;
    let mut j: usize = 0;
    assert(cs@.take(0) =~= seq![]);
    while j < i
        invariant
            j <= i <= cs@.len(),
            breaks(cs@) < u32::MAX,
            n == line_of(cs@, j as int),
        decreases i - j,
    {
        proof {
            assert(cs@.take(j + 1).drop_last() =~= cs@.take(j as int));
            lemma_breaks_bound(cs@, j + 1);
        }
        if cs[j] == '\n' {
            n = n + 1;
        }
        j = j + 1;
    }
    n
}

/// Make a chunk of the stretch `[start, end)`, without the line breaks at its end.
/// Where there is nothing else in it, no chunk comes of it.
fn push_chunk(
    cs: &Vec<char>,
    offs: &Vec<u128>,
    start: usize,
    end: usize,
    chunks: &mut Vec<ChunkInfo>,
)
    requires
        offsets(cs@, offs@),
        start <= end <= cs@.len(),
        breaks(cs@) < u32::MAX,
    ensures
        ({
            let b = cut_breaks(cs@, start as int, end as int);
            if b > start {
                final(chunks)@.len() == old(chunks)@.len() + 1 && final(chunks)@.drop_last()
                    == old(chunks)@ && is_chunk(cs@, final(chunks)@.last(), (start as int, b))
            } else {
                final(chunks)@ == old(chunks)@
            }
        }),
{
    let mut b: usize = end;
    while b > start && (cs[b - 1] == '\n' || cs[b - 1] == '\r')
        invariant
            start <= b <= end <= cs@.len(),
            cut_breaks(cs@, start as int, end as int) == cut_breaks(cs@, start as int, b as int),
        decreases b,
    {
        b = b - 1;
    }
    if b > start {
        let ghost before = chunks@;
        chunks.push(
            ChunkInfo {
                text: string_of(slice_subrange(cs.as_slice(), start, b)),
                start_line: line_at(cs, start),
                end_line: line_at(cs, b - 1),
                start_byte: offs[start] as u32,
                end_byte: offs[b] as u32,
            },
        );
        assert(chunks@.drop_last() =~= before);
    }
}

fn push_all(cs: &Vec<char>, offs: &Vec<u128>, spans: &Vec<(usize, usize)>) -> (r: Vec<ChunkInfo>)
    requires
        offsets(cs@, offs@),
        breaks(cs@) < u32::MAX,
        forall|i: int|
            0 <= i < spans@.len() ==> (#[trigger] spans@[i]).0 <= spans@[i].1 <= cs@.len(),
    ensures
        are_chunks(cs@, r@, kept(cs@, spans_of(spans@))),
{
    let mut r: Vec<ChunkInfo> = Vec::new();
    let ghost all = spans_of(spans@);
    let mut i: usize = 0;
    while i < spans.len()
        invariant
            i <= spans@.len(),
            offsets(cs@, offs@),
            breaks(cs@) < u32::MAX,
            all == spans_of(spans@),
            forall|j: int|
                0 <= j < spans@.len() ==> (#[trigger] spans@[j]).0 <= spans@[j].1 <= cs@.len(),
            are_chunks(cs@, r@, kept(cs@, all.take(i as int))),
        decreases spans.len() - i,
    {
        let ghost before = r@;
        let (a, b) = spans[i];
        proof {
            assert(all.take(i + 1).drop_last() =~= all.take(i as int));
            assert(all.take(i + 1).last() == (a as int, b as int));
        }
        push_chunk(cs, offs, a, b, &mut r);
        proof {
            let k0 = kept(cs@, all.take(i as int));
            let k1 = kept(cs@, all.take(i + 1));
            assert forall|j: int| 0 <= j < r@.len() implies is_chunk(
                cs@,
                #[trigger] r@[j],
                k1[j],
            ) by {
                if j < before.len() {
                    if r@.len() > before.len() {
                        assert(r@.drop_last()[j] == before[j]);
                    }
                    assert(r@[j] == before[j]);
                    assert(k1[j] == k0[j]);
                }
            }
        }
        i = i + 1;
    }
    assert(all.take(spans@.len() as int) =~= all);
    r
}

/// Cut a document into chunks of at most `max_chars` bytes: paragraphs that fit
/// together stay together, a larger paragraph is cut at its lines, and a larger line
/// inside.
pub fn chunk_text(text: &str, max_chars: usize) -> (r: Vec<ChunkInfo>)
    requires
        breaks(text@) < u32::MAX,
    ensures
        are_chunks(text@, r@, chunk_spans(text@, max_chars as nat)),
{
    let cs = chars_of(text);
    let offs = byte_offsets(&cs);
    let ps = find_paragraphs(&cs);
    let spans = pack(&cs, &offs, &ps, max_chars);
    proof {
        lemma_packed_ordered(cs@, max_chars as nat);
        assert forall|i: int| 0 <= i < spans@.len() implies (#[trigger] spans@[i]).0 <= spans@[i].1
            <= cs@.len() by {
            let all = spans_of(spans@);
            assert(all[i] == (spans@[i].0 as int, spans@[i].1 as int));
        }
    }
    let chunks = push_all(&cs, &offs, &spans);
    if chunks.len() == 0 {
        let mut whole: Vec<(usize, usize)> = Vec::new();
        push_oversized_on_lines(&cs, &offs, 0, cs.len(), max_chars, &mut whole);
        proof {
            let w = windows(cs@, 0, 0, cs@.len() as int, max_chars as nat);
            assert(spans_of(whole@) =~= w);
            lemma_windows_ordered(cs@, 0, 0, cs@.len() as int, max_chars as nat);
            assert forall|i: int| 0 <= i < whole@.len() implies (#[trigger] whole@[i]).0
                <= whole@[i].1 <= cs@.len() by {
                assert(w[i] == (whole@[i].0 as int, whole@[i].1 as int));
            }
        }
        push_all(&cs, &offs, &whole)
    } else {
        chunks
    }
}

// ---------------------------------------------------------------------------
// What holds of every document
// ---------------------------------------------------------------------------

/// The pieces of a line follow one another and leave nothing out.
proof fn lemma_hard_cuts_ordered(s: Seq<char>, off: int, hi: int, max: nat)
    requires
        0 <= off <= hi <= s.len(),
    ensures
        ordered_within(hard_cuts(s, off, hi, max), off, hi),
        forall|i: int| off <= i < hi ==> #[trigger] covered(hard_cuts(s, off, hi, max), i),
    decreases hi - off,
{
    if off < hi {
        lemma_fit(s, off, off, hi, max);
        let stop = hard_stop(s, off, hi, max);
        lemma_hard_cuts_ordered(s, stop, hi, max);
        let own: Seq<Span> = seq![(off, stop)];
        let rest = hard_cuts(s, stop, hi, max);
        assert(own[0] == (off, stop));
        lemma_ordered_concat(own, rest, off, stop, hi);
        assert forall|i: int| off <= i < hi implies #[trigger] covered(
            hard_cuts(s, off, hi, max),
            i,
        ) by {
            if i < stop {
                assert(covered(own, i));
                lemma_covered_left(own, rest, i);
            } else {
                lemma_covered_right(own, rest, i);
            }
        }
    }
}

/// The stretches that a paragraph is cut into follow one another and leave nothing
/// out.
proof fn lemma_windows_ordered(s: Seq<char>, win: int, lo: int, end: int, max: nat)
    requires
        0 <= win <= lo <= end <= s.len(),
    ensures
        ordered_within(windows(s, win, lo, end, max), win, end),
        forall|i: int| win <= i < end ==> #[trigger] covered(windows(s, win, lo, end, max), i),
    decreases end - lo,
{
    let all = windows(s, win, lo, end, max);
    if lo >= end {
        if end > win {
            assert(all[0] == (win, end));
            assert forall|i: int| win <= i < end implies #[trigger] covered(all, i) by {
                assert(all[0].0 <= i < all[0].1);
            }
        }
    } else {
        lemma_next_line(s, lo, end);
        let hi = next_line(s, lo, end);
        let flush = bytes(s, win, hi) > max && lo > win;
        let out: Seq<Span> = if flush {
            seq![(win, lo)]
        } else {
            seq![]
        };
        if flush {
            assert(out[0] == (win, lo));
        }
        if bytes(s, lo, hi) > max {
            lemma_hard_cuts_ordered(s, lo, hi, max);
            lemma_windows_ordered(s, hi, hi, end, max);
            if !flush && lo > win {
                lemma_bytes(s, win, hi);
                lemma_bytes(s, lo, hi);
                pieces::lemma_byte_len_grows(s, win, lo);
                assert(false);
            }
            let h = hard_cuts(s, lo, hi, max);
            let w = windows(s, hi, hi, end, max);
            lemma_ordered_concat(out, h, win, lo, hi);
            lemma_ordered_concat(out + h, w, win, hi, end);
            assert(all =~= out + h + w);
            assert forall|i: int| win <= i < end implies #[trigger] covered(all, i) by {
                if i < lo {
                    assert(out[0].0 <= i < out[0].1);
                    assert(covered(out, i));
                    lemma_covered_left(out, h, i);
                    lemma_covered_left(out + h, w, i);
                } else if i < hi {
                    lemma_covered_right(out, h, i);
                    lemma_covered_left(out + h, w, i);
                } else {
                    lemma_covered_right(out + h, w, i);
                }
            }
        } else {
            let next = if flush {
                lo
            } else {
                win
            };
            lemma_windows_ordered(s, next, hi, end, max);
            let w = windows(s, next, hi, end, max);
            lemma_ordered_concat(out, w, win, next, end);
            assert forall|i: int| win <= i < end implies #[trigger] covered(all, i) by {
                if i < next {
                    assert(out[0].0 <= i < out[0].1);
                    assert(covered(out, i));
                    lemma_covered_left(out, w, i);
                } else {
                    lemma_covered_right(out, w, i);
                }
            }
        }
    }
}

/// A character stands in the stretch that is being packed.
pub open spec fn inside(c: Option<Span>, i: int) -> bool {
    match c {
        Some(x) => x.0 <= i < x.1,
        None => false,
    }
}

/// What is packed from a place on follows the order of the document, and holds every
/// paragraph that is still to come.
proof fn lemma_packed(s: Seq<char>, ps: Seq<Span>, k: int, cur: Option<Span>, max: nat, from: int)
    requires
        0 <= k <= ps.len(),
        0 <= from <= s.len(),
        ordered_within(ps, 0, s.len() as int),
        match cur {
            Some(c) => from <= c.0 < c.1 <= s.len() && (k < ps.len() ==> c.1 <= ps[k].0),
            None => k < ps.len() ==> from <= ps[k].0,
        },
    ensures
        ordered_within(packed(s, ps, k, cur, max), from, s.len() as int),
        forall|i: int|
            inside(cur, i) ==> #[trigger] covered(
                packed(s, ps, k, cur, max),
                i,
            ),
        forall|j: int, i: int|
            k <= j < ps.len() && (#[trigger] ps[j]).0 <= i < ps[j].1 ==> #[trigger] covered(
                packed(s, ps, k, cur, max),
                i,
            ),
    decreases ps.len() - k,
{
    let all = packed(s, ps, k, cur, max);
    let end = s.len() as int;
    let out: Seq<Span> = match cur {
        Some(c) => seq![c],
        None => seq![],
    };
    if k >= ps.len() {
        match cur {
            Some(c) => {
                assert(all[0] == c);
                assert forall|i: int| c.0 <= i < c.1 implies #[trigger] covered(all, i) by {
                    assert(all[0].0 <= i < all[0].1);
                }
            },
            None => {},
        }
    } else {
        let p = ps[k];
        let first = match cur {
            Some(c) => c.0,
            None => p.0,
        };
        if k + 1 < ps.len() {
            assert(ps[k].1 <= ps[k + 1].0);
        }
        if bytes(s, first, p.1) <= max {
            let next = Some((first, p.1));
            lemma_packed(s, ps, k + 1, next, max, from);
            assert forall|j: int, i: int|
                k <= j < ps.len() && (#[trigger] ps[j]).0 <= i < ps[j].1 implies #[trigger] covered(
                all,
                i,
            ) by {
                if j == k {
                    assert(inside(next, i));
                }
            }
        } else {
            let mid = match cur {
                Some(c) => c.1,
                None => from,
            };
            match cur {
                Some(c) => {
                    assert(out[0] == c);
                },
                None => {},
            }
            assert(ordered_within(out, from, mid));
            let body: Seq<Span> = if bytes(s, p.0, p.1) <= max {
                seq![]
            } else {
                windows(s, p.0, p.0, p.1, max)
            };
            let next: Option<Span> = if bytes(s, p.0, p.1) <= max {
                Some(p)
            } else {
                None
            };
            let stop = if bytes(s, p.0, p.1) <= max {
                mid
            } else {
                p.1
            };
            if bytes(s, p.0, p.1) > max {
                lemma_windows_ordered(s, p.0, p.0, p.1, max);
                assert(ordered_within(body, mid, stop)) by {
                    assert forall|i: int| 0 <= i < body.len() implies mid <= (#[trigger] body[i]).0
                        < body[i].1 <= stop by {}
                }
            }
            lemma_packed(s, ps, k + 1, next, max, stop);
            let rest = packed(s, ps, k + 1, next, max);
            lemma_ordered_concat(out, body, from, mid, stop);
            lemma_ordered_concat(out + body, rest, from, stop, end);
            assert(all =~= out + body + rest);
            assert forall|i: int|
                inside(cur, i) implies #[trigger] covered(all, i) by {
                assert(out[0].0 <= i < out[0].1);
                assert(covered(out, i));
                lemma_covered_left(out, body, i);
                lemma_covered_left(out + body, rest, i);
            }
            assert forall|j: int, i: int|
                k <= j < ps.len() && (#[trigger] ps[j]).0 <= i < ps[j].1 implies #[trigger] covered(
                all,
                i,
            ) by {
                if j == k && bytes(s, p.0, p.1) > max {
                    assert(covered(body, i));
                    lemma_covered_right(out, body, i);
                    lemma_covered_left(out + body, rest, i);
                } else {
                    assert(covered(rest, i));
                    lemma_covered_right(out + body, rest, i);
                }
            }
        }
    }
}

proof fn lemma_packed_ordered(s: Seq<char>, max: nat)
    ensures
        ordered_within(packed(s, paragraphs(s, 0), 0, None, max), 0, s.len() as int),
        forall|i: int|
            0 <= i < s.len() && !text::char_is_space(#[trigger] s[i]) ==> covered(
                packed(s, paragraphs(s, 0), 0, None, max),
                i,
            ),
{
    let ps = paragraphs(s, 0);
    lemma_paragraphs(s, 0);
    lemma_packed(s, ps, 0, None, max, 0);
    assert forall|i: int| 0 <= i < s.len() && !text::char_is_space(#[trigger] s[i]) implies covered(
        packed(s, ps, 0, None, max),
        i,
    ) by {
        assert(covered(ps, i));
        let j = choose|j: int| 0 <= j < ps.len() && (#[trigger] ps[j]).0 <= i < ps[j].1;
        assert(ps[j].0 <= i < ps[j].1);
    }
}

proof fn lemma_cut_breaks(s: Seq<char>, a: int, b: int)
    requires
        a <= b,
    ensures
        a <= cut_breaks(s, a, b) <= b,
        forall|i: int| cut_breaks(s, a, b) <= i < b ==> text::char_is_space(#[trigger] s[i]),
    decreases b - a,
{
    if b > a && (s[b - 1] == '\n' || s[b - 1] == '\r') {
        lemma_cut_breaks(s, a, b - 1);
    }
}

proof fn lemma_kept(s: Seq<char>, spans: Seq<Span>, from: int, to: int)
    requires
        ordered_within(spans, from, to),
    ensures
        ordered_within(kept(s, spans), from, to),
        forall|i: int|
            !text::char_is_space(#[trigger] s[i]) && covered(spans, i) ==> covered(
                kept(s, spans),
                i,
            ),
        forall|i: int|
            0 <= i < kept(s, spans).len() ==> within_one(#[trigger] kept(s, spans)[i], spans),
    decreases spans.len(),
{
    if spans.len() > 0 {
        let init = spans.drop_last();
        let n = spans.len() - 1;
        let (a, b) = spans.last();
        let c = cut_breaks(s, a, b);
        assert(spans[n] == (a, b));
        lemma_cut_breaks(s, a, b);
        assert forall|i: int| 0 <= i < init.len() implies from <= (#[trigger] init[i]).0
            < init[i].1 <= a by {
            assert(init[i] == spans[i]);
            assert(spans[i].1 <= spans[n].0);
        }
        assert forall|i: int, j: int| 0 <= i < j < init.len() implies (#[trigger] init[i]).1 <= (
        #[trigger] init[j]).0 by {
            assert(init[i] == spans[i] && init[j] == spans[j]);
        }
        lemma_kept(s, init, from, a);
        let head = kept(s, init);
        let all = kept(s, spans);
        let own: Seq<Span> = if c > a {
            seq![(a, c)]
        } else {
            seq![]
        };
        assert(all =~= head + own);
        if c > a {
            assert(own[0] == (a, c));
        }
        assert(ordered_within(own, a, to));
        lemma_ordered_concat(head, own, from, a, to);
        assert forall|i: int|
            !text::char_is_space(#[trigger] s[i]) && covered(spans, i) implies covered(all, i) by {
            let k = choose|k: int| 0 <= k < spans.len() && (#[trigger] spans[k]).0 <= i
                < spans[k].1;
            if k < n {
                assert(init[k] == spans[k]);
                assert(covered(init, i));
                lemma_covered_left(head, own, i);
            } else {
                assert(i < c);
                assert(own[0].0 <= i < own[0].1);
                assert(covered(own, i));
                lemma_covered_right(head, own, i);
            }
        }
        assert forall|i: int| 0 <= i < all.len() implies within_one(#[trigger] all[i], spans) by {
            if i < head.len() {
                assert(all[i] == head[i]);
                let k = choose|k: int|
                    0 <= k < init.len() && (#[trigger] init[k]).0 == head[i].0 && head[i].1
                        <= init[k].1;
                assert(spans[k] == init[k]);
            } else {
                assert(all[i] == own[0]);
                assert(spans[n].0 == all[i].0);
            }
        }
    }
}

/// A stretch is the beginning of one of the stretches.
pub open spec fn within_one(x: Span, spans: Seq<Span>) -> bool {
    exists|k: int| 0 <= k < spans.len() && (#[trigger] spans[k]).0 == x.0 && x.1 <= spans[k].1
}

/// The chunks are stretches of the document that follow one another: none is empty,
/// and no two overlap.
pub proof fn chunks_follow_the_document(s: Seq<char>, max: nat)
    ensures
        ordered_within(chunk_spans(s, max), 0, s.len() as int),
{
    lemma_packed_ordered(s, max);
    lemma_kept(s, packed(s, paragraphs(s, 0), 0, None, max), 0, s.len() as int);
    lemma_windows_ordered(s, 0, 0, s.len() as int, max);
    lemma_kept(s, windows(s, 0, 0, s.len() as int, max), 0, s.len() as int);
}

/// Nothing but white space is lost: every other character of the document stands in a
/// chunk.
pub proof fn chunks_hold_all_content(s: Seq<char>, max: nat)
    ensures
        forall|i: int|
            0 <= i < s.len() && !text::char_is_space(#[trigger] s[i]) ==> covered(
                chunk_spans(s, max),
                i,
            ),
{
    let raw = packed(s, paragraphs(s, 0), 0, None, max);
    lemma_packed_ordered(s, max);
    lemma_kept(s, raw, 0, s.len() as int);
    let by_paragraph = kept(s, raw);
    if by_paragraph.len() == 0 {
        assert forall|i: int|
            0 <= i < s.len() && !text::char_is_space(#[trigger] s[i]) implies covered(
            chunk_spans(s, max),
            i,
        ) by {
            assert(covered(by_paragraph, i));
        }
    }
}

/// The line that a chunk's own line stands on in the document: counting the line
/// breaks of the chunk from its first line on gives the document's lines.
pub proof fn chunk_lines_are_document_lines(s: Seq<char>, a: int, i: int)
    requires
        0 <= a <= i <= s.len(),
    ensures
        line_of(s, i) == line_of(s, a) + breaks(s.subrange(a, i)),
{
    assert(s.take(i) =~= s.take(a) + s.subrange(a, i));
    lemma_breaks_concat(s.take(a), s.subrange(a, i));
}

/// Every stretch is no larger than the limit.
pub open spec fn all_small(s: Seq<char>, spans: Seq<Span>, max: nat) -> bool {
    forall|i: int| 0 <= i < spans.len() ==> bytes(s, (#[trigger] spans[i]).0, spans[i].1) <= max
}

proof fn lemma_small_concat(s: Seq<char>, x: Seq<Span>, y: Seq<Span>, max: nat)
    requires
        all_small(s, x, max),
        all_small(s, y, max),
    ensures
        all_small(s, x + y, max),
{
    let z = x + y;
    assert forall|i: int| 0 <= i < z.len() implies bytes(s, (#[trigger] z[i]).0, z[i].1) <= max by {
        if i < x.len() {
            assert(z[i] == x[i]);
        } else {
            assert(z[i] == y[i - x.len()]);
        }
    }
}

proof fn lemma_hard_cuts_small(s: Seq<char>, off: int, hi: int, max: nat)
    requires
        0 <= off <= hi <= s.len(),
        max >= 4,
    ensures
        all_small(s, hard_cuts(s, off, hi, max), max),
    decreases hi - off,
{
    if off < hi {
        lemma_fit(s, off, off, hi, max);
        let stop = hard_stop(s, off, hi, max);
        pieces::lemma_byte_len_bounds(s.subrange(off, off + 1));
        lemma_hard_cuts_small(s, stop, hi, max);
        let own: Seq<Span> = seq![(off, stop)];
        assert(own[0] == (off, stop));
        lemma_small_concat(s, own, hard_cuts(s, stop, hi, max), max);
    }
}

proof fn lemma_windows_small(s: Seq<char>, win: int, lo: int, end: int, max: nat)
    requires
        0 <= win <= lo <= end <= s.len(),
        max >= 4,
        bytes(s, win, lo) <= max,
    ensures
        all_small(s, windows(s, win, lo, end, max), max),
    decreases end - lo,
{
    let all = windows(s, win, lo, end, max);
    if lo >= end {
        if end > win {
            assert(all[0] == (win, end));
        }
    } else {
        lemma_next_line(s, lo, end);
        let hi = next_line(s, lo, end);
        let flush = bytes(s, win, hi) > max && lo > win;
        let out: Seq<Span> = if flush {
            seq![(win, lo)]
        } else {
            seq![]
        };
        if flush {
            assert(out[0] == (win, lo));
        }
        assert(all_small(s, out, max));
        if bytes(s, lo, hi) > max {
            lemma_hard_cuts_small(s, lo, hi, max);
            assert(s.subrange(hi, hi) =~= seq![]);
            lemma_windows_small(s, hi, hi, end, max);
            lemma_small_concat(s, out, hard_cuts(s, lo, hi, max), max);
            lemma_small_concat(
                s,
                out + hard_cuts(s, lo, hi, max),
                windows(s, hi, hi, end, max),
                max,
            );
        } else {
            let next = if flush {
                lo
            } else {
                win
            };
            lemma_windows_small(s, next, hi, end, max);
            lemma_small_concat(s, out, windows(s, next, hi, end, max), max);
        }
    }
}

proof fn lemma_packed_small(s: Seq<char>, ps: Seq<Span>, k: int, cur: Option<Span>, max: nat)
    requires
        0 <= k <= ps.len(),
        ordered_within(ps, 0, s.len() as int),
        max >= 4,
        match cur {
            Some(c) => bytes(s, c.0, c.1) <= max,
            None => true,
        },
    ensures
        all_small(s, packed(s, ps, k, cur, max), max),
    decreases ps.len() - k,
{
    let all = packed(s, ps, k, cur, max);
    let out: Seq<Span> = match cur {
        Some(c) => seq![c],
        None => seq![],
    };
    match cur {
        Some(c) => {
            assert(out[0] == c);
        },
        None => {},
    }
    assert(all_small(s, out, max));
    if k < ps.len() {
        let p = ps[k];
        let first = match cur {
            Some(c) => c.0,
            None => p.0,
        };
        if bytes(s, first, p.1) <= max {
            lemma_packed_small(s, ps, k + 1, Some((first, p.1)), max);
        } else if bytes(s, p.0, p.1) <= max {
            lemma_packed_small(s, ps, k + 1, Some(p), max);
            lemma_small_concat(s, out, packed(s, ps, k + 1, Some(p), max), max);
        } else {
            let w = windows(s, p.0, p.0, p.1, max);
            assert(s.subrange(p.0, p.0) =~= seq![]);
            lemma_windows_small(s, p.0, p.0, p.1, max);
            lemma_packed_small(s, ps, k + 1, None, max);
            lemma_small_concat(s, out, w, max);
            lemma_small_concat(s, out + w, packed(s, ps, k + 1, None, max), max);
        }
    }
}

proof fn lemma_kept_small(s: Seq<char>, spans: Seq<Span>, max: nat)
    requires
        ordered_within(spans, 0, s.len() as int),
        all_small(s, spans, max),
    ensures
        all_small(s, kept(s, spans), max),
{
    lemma_kept(s, spans, 0, s.len() as int);
    let ks = kept(s, spans);
    assert forall|i: int| 0 <= i < ks.len() implies bytes(s, (#[trigger] ks[i]).0, ks[i].1)
        <= max by {
        assert(within_one(ks[i], spans));
        let k = choose|k: int|
            0 <= k < spans.len() && (#[trigger] spans[k]).0 == ks[i].0 && ks[i].1 <= spans[k].1;
        lemma_bytes(s, ks[i].0, ks[i].1);
        lemma_bytes(s, spans[k].0, spans[k].1);
        if ks[i].1 < spans[k].1 {
            pieces::lemma_byte_len_grows(s, ks[i].1, spans[k].1);
        }
    }
}

/// No chunk is larger than the limit, as long as the limit leaves room for any one
/// character.
pub proof fn chunks_keep_the_limit(s: Seq<char>, max: nat)
    requires
        max >= 4,
    ensures
        all_small(s, chunk_spans(s, max), max),
{
    let ps = paragraphs(s, 0);
    let n = s.len() as int;
    lemma_paragraphs(s, 0);
    lemma_packed_ordered(s, max);
    lemma_packed_small(s, ps, 0, None, max);
    lemma_kept_small(s, packed(s, ps, 0, None, max), max);
    lemma_windows_ordered(s, 0, 0, n, max);
    assert(s.subrange(0, 0) =~= seq![]);
    lemma_windows_small(s, 0, 0, n, max);
    lemma_kept_small(s, windows(s, 0, 0, n, max), max);
}

/// A place where a line begins, within a stretch.
pub open spec fn line_start(s: Seq<char>, start: int, i: int) -> bool {
    i == start || s[i - 1] == '\n'
}

proof fn lemma_next_line_is_start(s: Seq<char>, p: int, end: int)
    requires
        0 <= p < end <= s.len(),
    ensures
        next_line(s, p, end) == end || s[next_line(s, p, end) - 1] == '\n',
    decreases end - p,
{
    if s[p] != '\n' {
        lemma_next_line(s, p + 1, end);
        if p + 1 < end {
            lemma_next_line_is_start(s, p + 1, end);
        }
    }
}

/// A paragraph whose lines all fit is cut only where a line begins: no stretch begins
/// or ends inside a line.
pub proof fn large_paragraphs_are_cut_at_lines(
    s: Seq<char>,
    start: int,
    win: int,
    lo: int,
    end: int,
    max: nat,
)
    requires
        0 <= start <= win <= lo <= end <= s.len(),
        line_start(s, start, win),
        line_start(s, start, lo),
        forall|p: int|
            start <= p < end ==> #[trigger] bytes(s, p, next_line(s, p, end)) <= max,
    ensures
        forall|i: int|
            0 <= i < windows(s, win, lo, end, max).len() ==> line_start(
                s,
                start,
                (#[trigger] windows(s, win, lo, end, max)[i]).0,
            ) && (windows(s, win, lo, end, max)[i].1 == end || line_start(
                s,
                start,
                windows(s, win, lo, end, max)[i].1,
            )),
    decreases end - lo,
{
    let all = windows(s, win, lo, end, max);
    if lo >= end {
        if end > win {
            assert(all[0] == (win, end));
        }
    } else {
        lemma_next_line(s, lo, end);
        lemma_next_line_is_start(s, lo, end);
        let hi = next_line(s, lo, end);
        assert(bytes(s, lo, hi) <= max);
        let flush = bytes(s, win, hi) > max && lo > win;
        let next = if flush {
            lo
        } else {
            win
        };
        if hi < end {
            large_paragraphs_are_cut_at_lines(s, start, next, hi, end, max);
        }
        let rest = windows(s, next, hi, end, max);
        let out: Seq<Span> = if flush {
            seq![(win, lo)]
        } else {
            seq![]
        };
        assert(all =~= out + rest);
        assert forall|i: int| 0 <= i < all.len() implies line_start(s, start, (#[trigger] all[i]).0)
            && (all[i].1 == end || line_start(s, start, all[i].1)) by {
            if i < out.len() {
                assert(all[i] == out[0]);
            } else {
                assert(all[i] == rest[i - out.len()]);
                if hi >= end {
                    assert(rest[i - out.len()] == (next, end));
                }
            }
        }
    }
}

proof fn lemma_first_of_packed(s: Seq<char>, ps: Seq<Span>, k: int, c: Span, max: nat)
    requires
        0 <= k,
        c.1 <= s.len(),
        forall|j: int| k <= j < ps.len() ==> c.1 <= (#[trigger] ps[j]).0 < ps[j].1 <= s.len(),
        forall|i: int, j: int|
            k <= i < j < ps.len() ==> (#[trigger] ps[i]).1 <= (#[trigger] ps[j]).0,
    ensures
        packed(s, ps, k, Some(c), max).len() > 0,
        packed(s, ps, k, Some(c), max)[0].0 == c.0,
        c.1 <= packed(s, ps, k, Some(c), max)[0].1 <= s.len(),
    decreases ps.len() - k,
{
    if k < ps.len() {
        let p = ps[k];
        if bytes(s, c.0, p.1) <= max {
            assert forall|j: int| k + 1 <= j < ps.len() implies p.1 <= (#[trigger] ps[j]).0
                < ps[j].1 <= s.len() by {}
            lemma_first_of_packed(s, ps, k + 1, (c.0, p.1), max);
        } else {
            let out = seq![c];
            if bytes(s, p.0, p.1) <= max {
                assert((out + packed(s, ps, k + 1, Some(p), max))[0] == c);
            } else {
                assert((out + windows(s, p.0, p.0, p.1, max) + packed(s, ps, k + 1, None, max))[0]
                    == c);
            }
        }
    }
}

/// Paragraphs that fit together stay together: where every paragraph fits by itself, no two
/// neighbouring stretches would fit into one.
pub proof fn neighbours_that_fit_go_together(
    s: Seq<char>,
    ps: Seq<Span>,
    k: int,
    cur: Option<Span>,
    max: nat,
    i: int,
)
    requires
        0 <= k,
        forall|j: int|
            k <= j < ps.len() ==> 0 <= (#[trigger] ps[j]).0 < ps[j].1 <= s.len() && bytes(
                s,
                ps[j].0,
                ps[j].1,
            ) <= max,
        forall|i: int, j: int|
            k <= i < j < ps.len() ==> (#[trigger] ps[i]).1 <= (#[trigger] ps[j]).0,
        cur matches Some(c) ==> 0 <= c.0 < c.1 <= s.len() && forall|j: int|
            k <= j < ps.len() ==> c.1 <= (#[trigger] ps[j]).0,
        0 <= i < packed(s, ps, k, cur, max).len() - 1,
    ensures
        bytes(
            s,
            packed(s, ps, k, cur, max)[i].0,
            packed(s, ps, k, cur, max)[i + 1].1,
        ) > max,
    decreases ps.len() - k,
{
    let all = packed(s, ps, k, cur, max);
    if k < ps.len() {
        let p = ps[k];
        let first = match cur {
            Some(c) => c.0,
            None => p.0,
        };
        if bytes(s, first, p.1) <= max {
            neighbours_that_fit_go_together(s, ps, k + 1, Some((first, p.1)), max, i);
        } else {
            let c = cur->0;
            let rest = packed(s, ps, k + 1, Some(p), max);
            assert(all =~= seq![c] + rest);
            lemma_first_of_packed(s, ps, k + 1, p, max);
            if i == 0 {
                assert(all[0] == c && all[1] == rest[0]);
                lemma_bytes(s, c.0, p.1);
                lemma_bytes(s, c.0, rest[0].1);
                if p.1 < rest[0].1 {
                    pieces::lemma_byte_len_grows(s, p.1, rest[0].1);
                }
            } else {
                neighbours_that_fit_go_together(s, ps, k + 1, Some(p), max, i - 1);
                assert(all[i] == rest[i - 1] && all[i + 1] == rest[i]);
            }
        }
    }
}

/// A chunk says where it stands: it is the text between its bytes, and begins and ends on its
/// lines.
pub proof fn chunks_say_where_they_stand(s: Seq<char>, c: ChunkInfo, span: Span)
    requires
        is_chunk(s, c, span),
        0 <= span.0 < span.1 <= s.len(),
        pieces::byte_len(s) <= u32::MAX,
    ensures
        c.text@ == s.subrange(span.0, span.1),
        c.end_byte - c.start_byte == pieces::byte_len(c.text@),
        c.end_line - c.start_line == breaks(s.subrange(span.0, span.1 - 1)),
        span.0 == 0 ==> c.start_byte == 0 && c.start_line == 1,
{
    lemma_bytes(s, span.0, span.1);
    assert(s.take(s.len() as int) =~= s);
    if span.1 < s.len() {
        pieces::lemma_byte_len_grows(s, span.1, s.len() as int);
    }
    pieces::lemma_byte_len_grows(s, span.0, span.1);
    chunk_lines_are_document_lines(s, span.0, span.1 - 1);
    if span.0 == 0 {
        assert(s.take(0) =~= Seq::<char>::empty());
    }
}

/// Line breaks are counted one by one.
pub proof fn line_breaks_add_up(a: Seq<char>, b: Seq<char>, c: char)
    ensures
        breaks(a + b) == breaks(a) + breaks(b),
        breaks(seq!['\n']) == 1,
        c != '\n' ==> breaks(seq![c]) == 0,
{
    reveal_with_fuel(breaks, 2);
    lemma_breaks_concat(a, b);
    assert(seq!['\n'].drop_last() =~= Seq::<char>::empty());
    assert(seq![c].drop_last() =~= Seq::<char>::empty());
}

proof fn lemma_packed_whole(s: Seq<char>, ps: Seq<Span>, k: int, cur: Option<Span>, max: nat)
    requires
        0 <= k,
        pieces::byte_len(s) <= max,
        forall|j: int| k <= j < ps.len() ==> 0 <= (#[trigger] ps[j]).0 < ps[j].1 <= s.len(),
        forall|i: int, j: int|
            k <= i < j < ps.len() ==> (#[trigger] ps[i]).1 <= (#[trigger] ps[j]).0,
        cur matches Some(c) ==> 0 <= c.0 < c.1 <= s.len() && forall|j: int|
            k <= j < ps.len() ==> c.1 <= (#[trigger] ps[j]).0,
    ensures
        packed(s, ps, k, cur, max).len() <= 1,
    decreases ps.len() - k,
{
    if k < ps.len() {
        let p = ps[k];
        let first = match cur {
            Some(c) => c.0,
            None => p.0,
        };
        lemma_bytes(s, first, p.1);
        assert(s.take(s.len() as int) =~= s);
        if p.1 < s.len() {
            pieces::lemma_byte_len_grows(s, p.1, s.len() as int);
        }
        assert(bytes(s, first, p.1) <= max);
        lemma_packed_whole(s, ps, k + 1, Some((first, p.1)), max);
    }
}

/// A document that fits into a chunk is one chunk.
pub proof fn a_small_document_is_one_chunk(s: Seq<char>, max: nat, i: int)
    requires
        pieces::byte_len(s) <= max,
        0 <= i < s.len(),
        !text::char_is_space(s[i]),
    ensures
        chunk_spans(s, max).len() == 1,
        chunk_spans(s, max)[0].0 <= i < chunk_spans(s, max)[0].1,
{
    let ps = paragraphs(s, 0);
    lemma_paragraphs(s, 0);
    lemma_packed_whole(s, ps, 0, None, max);
    let raw = packed(s, ps, 0, None, max);
    lemma_packed_ordered(s, max);
    assert(covered(raw, i));
    lemma_kept(s, raw, 0, s.len() as int);
    assert(covered(kept(s, raw), i));
    reveal_with_fuel(kept, 2);
    assert(raw.len() == 1);
    assert(raw.drop_last().len() == 0);
    assert(kept(s, raw).len() <= 1);
}

/// A paragraph ends at two line breaks, and there is no such place in it.
pub proof fn paragraphs_end_at_empty_lines(s: Seq<char>, p: int, q: int)
    requires
        0 <= p <= s.len(),
    ensures
        p <= para_end(s, p) <= s.len(),
        para_end(s, p) < s.len() ==> s[para_end(s, p)] == '\n' && s[para_end(s, p) + 1] == '\n',
        p <= q < para_end(s, p) && q + 1 < s.len() ==> !(s[q] == '\n' && s[q + 1] == '\n'),
    decreases s.len() - p,
{
    lemma_para_end(s, p);
    if p + 2 <= s.len() && !(s[p] == '\n' && s[p + 1] == '\n') {
        paragraphs_end_at_empty_lines(s, p + 1, q);
    }
}

} // verus!
