//! Reading documentation back: the chunks of a file put together again, as a whole or
//! line by line.

use vstd::prelude::*;

use crate::chunker;
use crate::github;
use crate::github::cut;
use crate::lance::DocSlice;
use crate::pieces;
use crate::pieces::{join_texts, read_number, split_class};
use crate::rank;
use crate::rank::order_rising;
use crate::text;
use crate::text::{chars_of, string_of, CharClass};

verus! {

/// A chunk of a documentation file as its table has it.
#[derive(Debug, Clone)]
pub struct DocRow {
    /// The file, with `#` and the number of the chunk behind it or without.
    pub path: String,
    pub content: String,
    /// The chunk's first line; 0 where the table has no lines.
    pub start_line: u32,
    /// The chunk's last line.
    pub end_line: u32,
    /// Where the row stands in its batch.
    pub row: u32,
}

/// The number of a chunk: what stands behind the `#`, 0 where that is no number, else
/// the place of its row.
pub open spec fn chunk_number(r: DocRow) -> nat {
    match github::after(r.path@, '#') {
        Some(t) => match pieces::number(t) {
            Some(n) => if n <= u32::MAX {
                n
            } else {
                0
            },
            None => 0,
        },
        None => r.row as nat,
    }
}

fn number_of(r: &DocRow) -> (n: u64)
    ensures
        n == chunk_number(*r),
        n <= u32::MAX,
{
    let pc = chars_of(r.path.as_str());
    let (_, t) = cut(pc.as_slice(), '#');
    match t {
        Some(t) => match read_number(t, u32::MAX as u64) {
            Some(n) => n,
            None => 0,
        },
        None => r.row as u64,
    }
}

/// What a chunk is put in order by: its first line and then its number, or its number
/// alone where there are no lines.
pub open spec fn order_key(r: DocRow, has_lines: bool) -> int {
    if has_lines {
        r.start_line * 0x1_0000_0000 + chunk_number(r)
    } else {
        chunk_number(r) as int
    }
}

pub open spec fn order_keys(rows: Seq<DocRow>, has_lines: bool) -> Seq<int> {
    rows.map_values(|r: DocRow| order_key(r, has_lines))
}

/// The chunks in the order of the file.
pub open spec fn doc_order(rows: Seq<DocRow>, has_lines: bool) -> Seq<int> {
    rank::rising(order_keys(rows, has_lines))
}

fn row_order(rows: &Vec<DocRow>, has_lines: bool) -> (r: Vec<usize>)
    ensures
        rank::places(r@) == doc_order(rows@, has_lines),
        r@.len() == rows@.len(),
        forall|i: int| 0 <= i < r@.len() ==> #[trigger] r@[i] < rows@.len(),
{
    let mut keys: Vec<i128> = Vec::new();
    let mut i: usize = 0;
    assert(rank::numbers(keys@) =~= order_keys(rows@.take(0), has_lines));
    while i < rows.len()
        invariant
            i <= rows@.len(),
            rank::numbers(keys@) == order_keys(rows@.take(i as int), has_lines),
        decreases rows.len() - i,
    {
        let n: i128 = number_of(&rows[i]) as i128;
        let key: i128 = if has_lines {
            rows[i].start_line as i128 * 0x1_0000_0000 + n
        } else {
            n
        };
        let ghost before = rank::numbers(keys@);
        keys.push(key);
        i = i + 1;
        assert(rank::numbers(keys@) =~= before.push(key as int));
        assert(rank::numbers(keys@) =~= order_keys(rows@.take(i as int), has_lines));
    }
    assert(rows@.take(rows@.len() as int) =~= rows@);
    let r = order_rising(&keys);
    proof {
        rank::rising_is_in_order(rank::numbers(keys@));
        assert(rank::places(r@).len() == r@.len());
    }
    r
}

/// The lines of a chunk.
pub open spec fn row_lines(r: DocRow) -> Seq<Seq<char>> {
    pieces::split(r.content@, CharClass::Is('\n'))
}

/// The text of a line of the file, where a chunk has it. A chunk whose place is not
/// known has no line.
pub open spec fn row_line(r: DocRow, ln: int) -> Option<Seq<char>> {
    if r.start_line > 0 && r.start_line <= ln < r.start_line + row_lines(r).len() {
        Some(row_lines(r)[ln - r.start_line])
    } else {
        None
    }
}

/// The text of a line of the file: what the last of the chunks that have it says.
pub open spec fn line_text(rows: Seq<DocRow>, order: Seq<int>, ln: int) -> Option<Seq<char>>
    decreases order.len(),
{
    if order.len() == 0 {
        None
    } else {
        match row_line(rows[order.last()], ln) {
            Some(t) => Some(t),
            None => line_text(rows, order.drop_last(), ln),
        }
    }
}

/// A line inside the range that some chunk has.
pub open spec fn shown(rows: Seq<DocRow>, lo: int, hi: int, ln: int) -> bool {
    lo <= ln <= hi && exists|i: int|
        0 <= i < rows.len() && row_line(#[trigger] rows[i], ln) is Some
}

/// A chunk that has a line inside the range.
pub open spec fn contributes(r: DocRow, lo: int, hi: int) -> bool {
    exists|ln: int| lo <= ln <= hi && #[trigger] row_line(r, ln) is Some
}

/// How many chunks have a line inside the range.
pub open spec fn contributors(rows: Seq<DocRow>, lo: int, hi: int) -> nat
    decreases rows.len(),
{
    if rows.len() == 0 {
        0
    } else {
        contributors(rows.drop_last(), lo, hi) + (if contributes(rows.last(), lo, hi) {
            1nat
        } else {
            0
        })
    }
}

/// The lines `[from, to]` of the file. A line that no chunk has is empty: the blank
/// lines between chunks are not stored.
pub open spec fn slice_lines(rows: Seq<DocRow>, order: Seq<int>, from: int, to: int) -> Seq<
    Seq<char>,
> {
    Seq::new(
        (to - from + 1) as nat,
        |i: int|
            match line_text(rows, order, from + i) {
                Some(t) => t,
                None => seq![],
            },
    )
}

/// The contents of the chunks, in an order.
pub open spec fn contents_in(rows: Seq<DocRow>, order: Seq<int>) -> Seq<Seq<char>> {
    order.map_values(|i: int| rows[i].content@)
}

/// The smallest first line that is known, 0 where none is.
pub open spec fn first_known(rows: Seq<DocRow>) -> nat
    decreases rows.len(),
{
    if rows.len() == 0 {
        0
    } else {
        let n = first_known(rows.drop_last());
        let s = rows.last().start_line as nat;
        if s > 0 && (n == 0 || s < n) {
            s
        } else {
            n
        }
    }
}

/// The largest last line.
pub open spec fn last_known(rows: Seq<DocRow>) -> nat
    decreases rows.len(),
{
    if rows.len() == 0 {
        0
    } else {
        let n = last_known(rows.drop_last());
        let e = rows.last().end_line as nat;
        if e > n {
            e
        } else {
            n
        }
    }
}

/// The lower end of a range, the beginning of the file where none is given.
pub open spec fn low_end(start: Option<u32>) -> int {
    match start {
        Some(n) => n as int,
        None => 0,
    }
}

/// The upper end of a range.
pub open spec fn high_end(end: Option<u32>) -> int {
    match end {
        Some(n) => n as int,
        None => u32::MAX as int,
    }
}

/// A range of lines was asked for and can be applied.
pub open spec fn by_line(has_lines: bool, start: Option<u32>, end: Option<u32>) -> bool {
    has_lines && (start is Some || end is Some)
}

/// The slice that a range of lines gives: from the first to the last line inside the
/// range that a chunk has, each in full, and nothing beyond.
pub open spec fn is_line_slice(d: DocSlice, rows: Seq<DocRow>, lo: int, hi: int) -> bool {
    &&& shown(rows, lo, hi, d.start_line as int)
    &&& shown(rows, lo, hi, d.end_line as int)
    &&& forall|ln: int|
        #[trigger] shown(rows, lo, hi, ln) ==> d.start_line <= ln <= d.end_line
    &&& d.content@ == pieces::join(
        slice_lines(rows, doc_order(rows, true), d.start_line as int, d.end_line as int),
        "\n"@,
    )
    &&& d.chunk_count == contributors(rows, lo, hi)
    &&& !d.line_meta_missing
}

/// The slice that a whole file is: every chunk, in the order of the file.
pub open spec fn is_whole_file(d: DocSlice, rows: Seq<DocRow>, has_lines: bool) -> bool {
    &&& d.content@ == pieces::join(contents_in(rows, doc_order(rows, has_lines)), "\n\n"@)
    &&& d.start_line == first_known(rows)
    &&& d.end_line == last_known(rows)
    &&& d.chunk_count == rows.len()
    &&& d.line_meta_missing == !has_lines
}

/// The lines of each row can be numbered.
pub open spec fn lines_fit(rows: Seq<DocRow>) -> bool {
    forall|i: int|
        0 <= i < rows.len() ==> (#[trigger] rows[i]).start_line + row_lines(rows[i]).len() - 1
            <= u32::MAX
}

fn whole_file(path: String, rows: &Vec<DocRow>, order: &Vec<usize>, has_lines: bool) -> (d: DocSlice)
    requires
        rank::places(order@) == doc_order(rows@, has_lines),
        order@.len() == rows@.len(),
        forall|i: int| 0 <= i < order@.len() ==> #[trigger] order@[i] < rows@.len(),
    ensures
        d.path == path,
        is_whole_file(d, rows@, has_lines),
{
    let mut parts: Vec<String> = Vec::new();
    let ghost want = contents_in(rows@, doc_order(rows@, has_lines));
    let mut i: usize = 0;
    assert(pieces::texts(parts@) =~= want.take(0));
    while i < order.len()
        invariant
            i <= order@.len(),
            order@.len() == rows@.len(),
            rank::places(order@) == doc_order(rows@, has_lines),
            want == contents_in(rows@, doc_order(rows@, has_lines)),
            forall|j: int| 0 <= j < order@.len() ==> #[trigger] order@[j] < rows@.len(),
            pieces::texts(parts@) == want.take(i as int),
        decreases order.len() - i,
    {
        let ghost before = pieces::texts(parts@);
        parts.push(rows[order[i]].content.clone());
        proof {
            assert(rank::places(order@)[i as int] == order@[i as int]);
            assert(want[i as int] == rows@[order@[i as int] as int].content@);
            assert(pieces::texts(parts@) =~= before.push(want[i as int]));
            assert(want.take(i + 1) =~= want.take(i as int).push(want[i as int]));
        }
        i = i + 1;
    }
    proof {
        assert(want.len() == rank::places(order@).len());
        assert(want.take(order@.len() as int) =~= want);
    }
    let mut first: u32 = 0;
    let mut last: u32 = 0;
    let mut k: usize = 0;
    while k < rows.len()
        invariant
            k <= rows@.len(),
            first == first_known(rows@.take(k as int)),
            last == last_known(rows@.take(k as int)),
        decreases rows.len() - k,
    {
        proof {
            assert(rows@.take(k + 1).drop_last() =~= rows@.take(k as int));
        }
        let s: u32 = rows[k].start_line;
        if s > 0 && (first == 0 || s < first) {
            first = s;
        }
        if rows[k].end_line > last {
            last = rows[k].end_line;
        }
        k = k + 1;
    }
    assert(rows@.take(rows@.len() as int) =~= rows@);
    DocSlice {
        path,
        content: join_texts(&parts, "\n\n"),
        start_line: first,
        end_line: last,
        chunk_count: rows.len(),
        line_meta_missing: !has_lines,
    }
}

/// The lines of every row.
pub open spec fn split_rows(rows: Seq<DocRow>, v: Seq<Vec<Vec<char>>>) -> bool {
    v.len() == rows.len() && forall|i: int|
        0 <= i < rows.len() ==> pieces::rows((#[trigger] v[i])@) == row_lines(rows[i])
}

fn split_all(rows: &Vec<DocRow>) -> (v: Vec<Vec<Vec<char>>>)
    ensures
        split_rows(rows@, v@),
{
    let mut v: Vec<Vec<Vec<char>>> = Vec::new();
    let mut i: usize = 0;
    while i < rows.len()
        invariant
            i <= rows@.len(),
            v@.len() == i,
            forall|j: int|
                0 <= j < i ==> pieces::rows((#[trigger] v@[j])@) == row_lines(rows@[j]),
        decreases rows.len() - i,
    {
        let cs = chars_of(rows[i].content.as_str());
        v.push(split_class(cs.as_slice(), CharClass::Is('\n')));
        i = i + 1;
    }
    v
}

proof fn lemma_split_some(s: Seq<char>)
    ensures
        pieces::split(s, CharClass::Is('\n')).len() > 0,
{
}

fn find_line(
    rows: &Vec<DocRow>,
    split: &Vec<Vec<Vec<char>>>,
    order: &Vec<usize>,
    ln: u32,
) -> (r: String)
    requires
        split_rows(rows@, split@),
        forall|i: int| 0 <= i < order@.len() ==> #[trigger] order@[i] < rows@.len(),
    ensures
        r@ == (match line_text(rows@, rank::places(order@), ln as int) {
            Some(t) => t,
            None => seq![],
        }),
{
    let ghost all = rank::places(order@);
    let mut k: usize = order.len();
    assert(all.take(order@.len() as int) =~= all);
    while k > 0
        invariant
            k <= order@.len(),
            all == rank::places(order@),
            split_rows(rows@, split@),
            forall|i: int| 0 <= i < order@.len() ==> #[trigger] order@[i] < rows@.len(),
            line_text(rows@, all, ln as int) == line_text(rows@, all.take(k as int), ln as int),
        decreases k,
    {
        let at: usize = order[k - 1];
        proof {
            assert(all.take(k as int).last() == at);
            assert(all.take(k as int).drop_last() =~= all.take(k - 1));
            assert(pieces::rows(split@[at as int]@) == row_lines(rows@[at as int]));
        }
        let s: u32 = rows[at].start_line;
        if s > 0 && s <= ln && ((ln - s) as usize) < split[at].len() {
            let n: usize = (ln - s) as usize;
            assert(row_lines(rows@[at as int])[n as int] == split@[at as int]@[n as int]@);
            return string_of(split[at][n].as_slice());
        }
        k = k - 1;
    }
    String::new()
}

/// Where a chunk's lines inside a range begin and end.
fn overlap(row: &DocRow, count: usize, lo: u32, hi: u32) -> (r: Option<(u32, u32)>)
    requires
        count == row_lines(*row).len(),
        row.start_line + count - 1 <= u32::MAX,
    ensures
        match r {
            Some((a, b)) => contributes(*row, lo as int, hi as int) && a <= b && lo <= a && b <= hi
                && row_line(*row, a as int) is Some && row_line(*row, b as int) is Some
                && forall|ln: int|
                lo <= ln <= hi && #[trigger] row_line(*row, ln) is Some ==> a <= ln <= b,
            None => !contributes(*row, lo as int, hi as int),
        },
{
    proof {
        lemma_split_some(row.content@);
    }
    let s: u32 = row.start_line;
    if s == 0 {
        return None;
    }
    let e: u32 = s + (count - 1) as u32;
    let a: u32 = if s > lo {
        s
    } else {
        lo
    };
    let b: u32 = if e < hi {
        e
    } else {
        hi
    };
    if a <= b {
        assert(row_line(*row, a as int) is Some);
        assert(row_line(*row, b as int) is Some);
        Some((a, b))
    } else {
        None
    }
}

/// Put the chunks of a file together. `rows` are those of the chunks that were found,
/// `has_lines` says whether their table has line numbers. Without a range the whole
/// file comes back; with one only the lines inside it, and nothing where there are
/// none. A range cannot be applied where the table has no line numbers.
pub fn fetch_doc_lines(
    file: &str,
    rows: &Vec<DocRow>,
    has_lines: bool,
    start_line: Option<u32>,
    end_line: Option<u32>,
) -> (r: Option<DocSlice>)
    requires
        by_line(has_lines, start_line, end_line) ==> lines_fit(rows@),
    ensures
        match r {
            Some(d) => rows@.len() > 0 && d.path@ == github::before(rows@[0].path@, '#') && (
            if by_line(has_lines, start_line, end_line) {
                is_line_slice(d, rows@, low_end(start_line), high_end(end_line))
            } else {
                is_whole_file(d, rows@, has_lines)
            }),
            None => rows@.len() == 0 || (by_line(has_lines, start_line, end_line) && forall|ln: int|
                !#[trigger] shown(rows@, low_end(start_line), high_end(end_line), ln)),
        },
{
    if rows.len() == 0 {
        return None;
    }
    let pc = chars_of(rows[0].path.as_str());
    let (path, _) = cut(pc.as_slice(), '#');
    let path = string_of(path);
    let order = row_order(rows, has_lines);
    if !(has_lines && (start_line.is_some() || end_line.is_some())) {
        return Some(whole_file(path, rows, &order, has_lines));
    }
    let lo: u32 = match start_line {
        Some(n) => n,
        None => 0,
    };
    let hi: u32 = match end_line {
        Some(n) => n,
        None => u32::MAX,
    };
    let split = split_all(rows);
    let mut found: Option<(u32, u32)> = None;
    let mut count: usize = 0;
    let mut i: usize = 0;
    while i < rows.len()
        invariant
            i <= rows@.len(),
            lines_fit(rows@),
            split_rows(rows@, split@),
            count <= i,
            count == contributors(rows@.take(i as int), lo as int, hi as int),
            match found {
                Some((a, b)) => a <= b && shown(rows@, lo as int, hi as int, a as int) && shown(
                    rows@,
                    lo as int,
                    hi as int,
                    b as int,
                ) && forall|j: int, ln: int|
                    0 <= j < i && lo <= ln <= hi && #[trigger] row_line(rows@[j], ln) is Some ==> a
                        <= ln <= b,
                None => forall|j: int, ln: int|
                    0 <= j < i && lo <= ln <= hi ==> #[trigger] row_line(rows@[j], ln) is None,
            },
        decreases rows.len() - i,
    {
        proof {
            assert(rows@.take(i + 1).drop_last() =~= rows@.take(i as int));
            assert(rows@.take(i + 1).last() == rows@[i as int]);
            assert(pieces::rows(split@[i as int]@) == row_lines(rows@[i as int]));
        }
        match overlap(&rows[i], split[i].len(), lo, hi) {
            None => {
                proof {
                    assert forall|ln: int| lo <= ln <= hi implies #[trigger] row_line(
                        rows@[i as int],
                        ln,
                    ) is None by {
                        if row_line(rows@[i as int], ln) is Some {
                            assert(contributes(rows@[i as int], lo as int, hi as int));
                        }
                    }
                }
            },
            Some((a, b)) => {
                proof {
                    assert(row_line(rows@[i as int], a as int) is Some);
                    assert(shown(rows@, lo as int, hi as int, a as int));
                    assert(row_line(rows@[i as int], b as int) is Some);
                    assert(shown(rows@, lo as int, hi as int, b as int));
                }
                count = count + 1;
                found = match found {
                    None => Some((a, b)),
                    Some((x, y)) => Some(
                        (
                            if a < x {
                                a
                            } else {
                                x
                            },
                            if b > y {
                                b
                            } else {
                                y
                            },
                        ),
                    ),
                };
            },
        }
        i = i + 1;
    }
    assert(rows@.take(rows@.len() as int) =~= rows@);
    match found {
        None => {
            proof {
                assert forall|ln: int| !#[trigger] shown(rows@, lo as int, hi as int, ln) by {
                    if shown(rows@, lo as int, hi as int, ln) {
                        let j = choose|j: int|
                            0 <= j < rows@.len() && row_line(#[trigger] rows@[j], ln) is Some;
                        assert(row_line(rows@[j], ln) is None);
                    }
                }
            }
            None
        },
        Some((from, to)) => {
            let mut parts: Vec<String> = Vec::new();
            let ghost want = slice_lines(rows@, doc_order(rows@, true), from as int, to as int);
            let mut ln: u32 = from;
            let mut more = true;
            assert(pieces::texts(parts@) =~= want.take(0));
            while more
                invariant
                    from <= ln <= to,
                    has_lines,
                    split_rows(rows@, split@),
                    forall|k: int| 0 <= k < order@.len() ==> #[trigger] order@[k] < rows@.len(),
                    rank::places(order@) == doc_order(rows@, has_lines),
                    want == slice_lines(rows@, doc_order(rows@, true), from as int, to as int),
                    more ==> pieces::texts(parts@) == want.take(ln - from),
                    !more ==> pieces::texts(parts@) == want,
                decreases to - ln + (if more {
                    1int
                } else {
                    0int
                }),
            {
                let ghost before = pieces::texts(parts@);
                parts.push(find_line(rows, &split, &order, ln));
                proof {
                    assert(pieces::texts(parts@) =~= before.push(want[ln - from]));
                    assert(want.take(ln - from + 1) =~= want.take(ln - from).push(want[ln - from]));
                }
                if ln == to {
                    more = false;
                    assert(want.take(to - from + 1) =~= want);
                } else {
                    ln = ln + 1;
                }
            }
            let d = DocSlice {
                path,
                content: join_texts(&parts, "\n"),
                start_line: from,
                end_line: to,
                chunk_count: count,
                line_meta_missing: false,
            };
            proof {
                assert forall|ln: int| #[trigger] shown(rows@, lo as int, hi as int, ln) implies from
                    <= ln <= to by {
                    let j = choose|j: int|
                        0 <= j < rows@.len() && row_line(#[trigger] rows@[j], ln) is Some;
                    assert(row_line(rows@[j], ln) is Some);
                }
            }
            Some(d)
        },
    }
}

/// A range never brings back a line outside it.
pub proof fn only_requested_lines_come_back(
    d: DocSlice,
    rows: Seq<DocRow>,
    lo: int,
    hi: int,
)
    requires
        is_line_slice(d, rows, lo, hi),
    ensures
        lo <= d.start_line <= d.end_line <= hi,
        slice_lines(rows, doc_order(rows, true), d.start_line as int, d.end_line as int).len()
            == d.end_line - d.start_line + 1,
{
    assert(shown(rows, lo, hi, d.start_line as int));
    assert(shown(rows, lo, hi, d.end_line as int));
}

// ---------------------------------------------------------------------------
// What a read gives back of what was indexed
// ---------------------------------------------------------------------------

/// A text stands on a line of a document.
pub open spec fn stands_on(s: Seq<char>, t: Seq<char>, ln: int) -> bool {
    exists|p: int| #[trigger] stands_at(s, t, p, ln)
}

/// A text stands on a line of a document, from a place on.
pub open spec fn stands_at(s: Seq<char>, t: Seq<char>, p: int, ln: int) -> bool {
    text::occurs_at(s, t, p) && forall|i: int|
        p <= i <= p + t.len() ==> #[trigger] chunker::line_of(s, i) == ln
}

proof fn lemma_no_breaks(s: Seq<char>, n: int, i: int)
    requires
        0 <= i <= n <= s.len(),
        forall|j: int| 0 <= j < n ==> #[trigger] s[j] != '\n',
    ensures
        chunker::breaks(s.take(i)) == 0,
    decreases i,
{
    if i > 0 {
        lemma_no_breaks(s, n, i - 1);
        assert(s.take(i).drop_last() =~= s.take(i - 1));
        assert(s.take(i).last() == s[i - 1]);
    }
}

/// The pieces between the line breaks of a text are its lines: the piece `j` stands on
/// line `j + 1`.
proof fn lemma_split_stands(s: Seq<char>, j: int)
    requires
        0 <= j < pieces::split(s, CharClass::Is('\n')).len(),
    ensures
        stands_on(s, pieces::split(s, CharClass::Is('\n'))[j], j + 1),
    decreases s.len(),
{
    let k = CharClass::Is('\n');
    let n = text::find(s, k);
    text::lemma_find_bounds(s, k);
    let all = pieces::split(s, k);
    assert forall|x: int| 0 <= x < n implies #[trigger] s[x] != '\n' by {
        assert(!text::in_class(k, s[x]));
    }
    if j == 0 {
        let t = if n >= s.len() {
            s
        } else {
            s.take(n)
        };
        assert(all[0] == t);
        assert(s.subrange(0, t.len() as int) =~= t);
        assert forall|i: int| 0 <= i <= 0 + t.len() implies #[trigger] chunker::line_of(s, i)
            == 1 by {
            lemma_no_breaks(s, n, i);
        }
        assert(stands_at(s, t, 0, 1));
    } else {
        let rest = s.skip(n + 1);
        lemma_split_stands(rest, j - 1);
        let t = pieces::split(rest, k)[j - 1];
        assert(all[j] == t);
        let p = choose|p: int| #[trigger] stands_at(rest, t, p, j);
        let q = p + n + 1;
        assert(s.subrange(q, q + t.len()) =~= rest.subrange(p, p + t.len()));
        assert forall|i: int| q <= i <= q + t.len() implies #[trigger] chunker::line_of(s, i) == j
            + 1 by {
            chunker::chunk_lines_are_document_lines(s, n + 1, i);
            lemma_no_breaks(s, n, n);
            assert(s.take(n + 1).drop_last() =~= s.take(n));
            assert(s.take(n + 1).last() == s[n]);
            assert(text::in_class(k, s[n]));
            assert(s.subrange(n + 1, i) =~= rest.take(i - n - 1));
            assert(chunker::line_of(rest, i - n - 1) == j);
        }
        assert(stands_at(s, t, q, j + 1));
    }
}

/// A row holds a chunk of a document: a stretch of it, with the line that it begins
/// on.
pub open spec fn row_of(s: Seq<char>, r: DocRow) -> bool {
    exists|a: int, b: int| #[trigger] row_between(s, r, a, b)
}

pub open spec fn row_between(s: Seq<char>, r: DocRow, a: int, b: int) -> bool {
    0 <= a <= b <= s.len() && r.content@ == s.subrange(a, b) && r.start_line == chunker::line_of(
        s,
        a,
    )
}

/// A read gives back what was written: where the rows are chunks of a document, the
/// text that comes back for a line stands on that very line of the document.
pub proof fn returned_lines_stand_in_the_document(
    s: Seq<char>,
    rows: Seq<DocRow>,
    order: Seq<int>,
    ln: int,
)
    requires
        forall|i: int| 0 <= i < rows.len() ==> row_of(s, #[trigger] rows[i]),
        forall|i: int| 0 <= i < order.len() ==> 0 <= #[trigger] order[i] < rows.len(),
    ensures
        match line_text(rows, order, ln) {
            Some(t) => stands_on(s, t, ln),
            None => true,
        },
    decreases order.len(),
{
    if order.len() > 0 {
        let at = order[order.len() - 1];
        let r = rows[at];
        assert(row_of(s, r));
        match row_line(r, ln) {
            Some(t) => {
                let (a, b) = choose|a: int, b: int| #[trigger] row_between(s, r, a, b);
                let c = s.subrange(a, b);
                let j = ln - r.start_line;
                lemma_split_stands(c, j);
                let p = choose|p: int| #[trigger] stands_at(c, t, p, j + 1);
                let q = p + a;
                assert(s.subrange(q, q + t.len()) =~= c.subrange(p, p + t.len()));
                assert forall|i: int| q <= i <= q + t.len() implies #[trigger] chunker::line_of(
                    s,
                    i,
                ) == ln by {
                    chunker::chunk_lines_are_document_lines(s, a, i);
                    assert(s.subrange(a, i) =~= c.take(i - a));
                    assert(chunker::line_of(c, i - a) == j + 1);
                }
                assert(stands_at(s, t, q, ln));
            },
            None => {
                let rest = order.drop_last();
                assert forall|i: int| 0 <= i < rest.len() implies 0 <= #[trigger] rest[i]
                    < rows.len() by {
                    assert(rest[i] == order[i]);
                }
                returned_lines_stand_in_the_document(s, rows, rest, ln);
            },
        }
    }
}

/// The number of a chunk is what its path says behind the `#`.
pub proof fn chunks_have_their_number(r: DocRow, file: Seq<char>, n: nat)
    requires
        !file.contains('#'),
    ensures
        r.path@ == file + seq!['#'] + pieces::decimal(n) && n <= u32::MAX ==> chunk_number(r) == n,
        r.path@ == file ==> chunk_number(r) == r.row,
{
    assert forall|i: int| 0 <= i < file.len() implies #[trigger] file[i] != '#' by {
        assert(file.contains(file[i]));
    }
    github::joined_texts_are_cut(file, '#', pieces::decimal(n));
    pieces::written_numbers_are_read_back(n);
    github::cut_texts_are_whole(r.path@, '#');
    if r.path@ == file && github::after(r.path@, '#') is Some {
        let b = github::before(r.path@, '#');
        assert(file[b.len() as int] == '#');
    }
}

/// A whole file has every chunk once, in the order of their lines, and those of one line in
/// the order of their numbers.
pub proof fn every_chunk_stands_in_its_place(rows: Seq<DocRow>, has_lines: bool, i: int, j: int)
    requires
        0 <= i < j < rows.len(),
    ensures
        ({
            let o = doc_order(rows, has_lines);
            let a = rows[o[i]];
            let b = rows[o[j]];
            &&& contents_in(rows, o).len() == rows.len()
            &&& contents_in(rows, o)[i] == a.content@
            &&& contents_in(rows, o).contains(rows[i].content@)
            &&& contents_in(rows, o).contains(rows[j].content@)
            &&& 0 <= o[i] < rows.len() && 0 <= o[j] < rows.len() && o[i] != o[j]
            &&& has_lines ==> a.start_line <= b.start_line
            &&& has_lines && a.start_line == b.start_line ==> chunk_number(a) <= chunk_number(b)
            &&& !has_lines ==> chunk_number(a) <= chunk_number(b)
        }),
{
    let keys = order_keys(rows, has_lines);
    rank::rising_is_in_order(keys);
    let o = doc_order(rows, has_lines);
    assert(o.contains(i) && o.contains(j));
    let x = choose|x: int| 0 <= x < o.len() && o[x] == i;
    let y = choose|y: int| 0 <= y < o.len() && o[y] == j;
    assert(contents_in(rows, o)[x] == rows[i].content@);
    assert(contents_in(rows, o)[y] == rows[j].content@);
    assert(0 <= o[i] < keys.len() && 0 <= o[j] < keys.len());
    assert(keys[o[i]] <= keys[o[j]]);
    assert(keys[o[i]] == order_key(rows[o[i]], has_lines));
    assert(keys[o[j]] == order_key(rows[o[j]], has_lines));
    lemma_chunk_number(rows[o[i]]);
    lemma_chunk_number(rows[o[j]]);
}

proof fn lemma_chunk_number(r: DocRow)
    ensures
        chunk_number(r) <= u32::MAX,
{
}

/// A file begins at the smallest first line that is known and ends at the largest last line.
pub proof fn a_file_has_its_first_and_last_line(rows: Seq<DocRow>, i: int)
    requires
        0 <= i < rows.len(),
    ensures
        rows[i].start_line > 0 ==> 0 < first_known(rows) <= rows[i].start_line,
        rows[i].end_line <= last_known(rows),
        first_known(rows) > 0 ==> exists|j: int|
            0 <= j < rows.len() && (#[trigger] rows[j]).start_line == first_known(rows),
        last_known(rows) > 0 ==> exists|j: int|
            0 <= j < rows.len() && (#[trigger] rows[j]).end_line == last_known(rows),
    decreases rows.len(),
{
    let t = rows.drop_last();
    let n = rows.len() - 1;
    if t.len() > 0 {
        let k = if i < n {
            i
        } else {
            0
        };
        a_file_has_its_first_and_last_line(t, k);
        if first_known(t) > 0 {
            let j = choose|j: int|
                0 <= j < t.len() && (#[trigger] t[j]).start_line == first_known(t);
            assert(rows[j] == t[j]);
        }
        if last_known(t) > 0 {
            let j = choose|j: int| 0 <= j < t.len() && (#[trigger] t[j]).end_line == last_known(t);
            assert(rows[j] == t[j]);
        }
    } else {
        assert(first_known(t) == 0 && last_known(t) == 0);
    }
    assert(rows[n] == rows.last());
}

proof fn lemma_line_text(rows: Seq<DocRow>, order: Seq<int>, ln: int)
    ensures
        line_text(rows, order, ln) is None ==> forall|k: int|
            0 <= k < order.len() ==> row_line(rows[#[trigger] order[k]], ln) is None,
        line_text(rows, order, ln) matches Some(t) ==> exists|k: int|
            0 <= k < order.len() && row_line(rows[#[trigger] order[k]], ln) == Some(t) && forall|
                m: int,
            |
                k < m < order.len() ==> row_line(rows[#[trigger] order[m]], ln) is None,
    decreases order.len(),
{
    if order.len() > 0 {
        let t = order.drop_last();
        let n = order.len() - 1;
        assert(order[n] == order.last());
        if row_line(rows[order.last()], ln) is None {
            lemma_line_text(rows, t, ln);
            match line_text(rows, t, ln) {
                Some(x) => {
                    let k = choose|k: int|
                        0 <= k < t.len() && row_line(rows[#[trigger] t[k]], ln) == Some(x)
                            && forall|m: int|
                            k < m < t.len() ==> row_line(rows[#[trigger] t[m]], ln) is None;
                    assert(order[k] == t[k]);
                    assert forall|m: int| k < m < order.len() implies row_line(
                        rows[#[trigger] order[m]],
                        ln,
                    ) is None by {
                        if m < n {
                            assert(order[m] == t[m]);
                        }
                    }
                },
                None => {
                    assert forall|k: int| 0 <= k < order.len() implies row_line(
                        rows[#[trigger] order[k]],
                        ln,
                    ) is None by {
                        if k < n {
                            assert(order[k] == t[k]);
                        }
                    }
                },
            }
        }
    }
}

/// Every line that is asked for and that a chunk has comes back, with the text that a chunk
/// has on that line.
pub proof fn every_line_asked_for_comes_back(
    d: DocSlice,
    rows: Seq<DocRow>,
    lo: int,
    hi: int,
    i: int,
    ln: int,
)
    requires
        is_line_slice(d, rows, lo, hi),
        0 <= i < rows.len(),
        lo <= ln <= hi,
        rows[i].start_line > 0,
        rows[i].start_line <= ln < rows[i].start_line + pieces::split(
            rows[i].content@,
            CharClass::Is('\n'),
        ).len(),
    ensures
        d.start_line <= ln <= d.end_line,
        exists|j: int|
            {
                &&& 0 <= j < rows.len()
                &&& (#[trigger] rows[j]).start_line > 0
                &&& rows[j].start_line <= ln < rows[j].start_line + pieces::split(
                    rows[j].content@,
                    CharClass::Is('\n'),
                ).len()
                &&& slice_lines(
                    rows,
                    doc_order(rows, true),
                    d.start_line as int,
                    d.end_line as int,
                )[ln - d.start_line] == pieces::split(rows[j].content@, CharClass::Is('\n'))[ln
                    - rows[j].start_line]
            },
{
    assert(row_line(rows[i], ln) is Some);
    assert(shown(rows, lo, hi, ln));
    let o = doc_order(rows, true);
    rank::rising_is_in_order(order_keys(rows, true));
    assert(o.contains(i));
    let k = choose|k: int| 0 <= k < o.len() && o[k] == i;
    lemma_line_text(rows, o, ln);
    assert(row_line(rows[o[k]], ln) is Some);
    let t = line_text(rows, o, ln)->0;
    let m = choose|m: int|
        0 <= m < o.len() && row_line(rows[#[trigger] o[m]], ln) == Some(t) && forall|x: int|
            m < x < o.len() ==> row_line(rows[#[trigger] o[x]], ln) is None;
    let j = o[m];
    assert(0 <= j < rows.len());
    assert(rows[j].start_line > 0);
}

/// Where no end of a range is given, the range goes to that end of the file.
pub proof fn open_ranges_go_to_the_end(n: u32)
    ensures
        low_end(None) == 0,
        high_end(None) == u32::MAX,
        low_end(Some(n)) == n,
        high_end(Some(n)) == n,
        by_line(true, Some(n), None) && by_line(true, None, Some(n)),
        !by_line(true, None, None) && !by_line(false, Some(n), Some(n)),
{
}

/// A chunk whose place is not known has no line of the file.
pub proof fn unplaced_chunks_have_no_lines(r: DocRow, ln: int, lo: int, hi: int)
    requires
        r.start_line == 0,
    ensures
        row_line(r, ln) is None,
        !contributes(r, lo, hi),
{
}

/// The chunks that a range is put together from are counted one by one: those that have a line
/// inside it.
pub proof fn chunks_in_a_range_are_counted(
    a: Seq<DocRow>,
    b: Seq<DocRow>,
    r: DocRow,
    lo: int,
    hi: int,
    ln: int,
)
    ensures
        contributors(a + b, lo, hi) == contributors(a, lo, hi) + contributors(b, lo, hi),
        contributors(seq![r], lo, hi) <= 1,
        r.start_line > 0 && lo <= ln <= hi && r.start_line <= ln < r.start_line + pieces::split(
            r.content@,
            CharClass::Is('\n'),
        ).len() ==> contributors(seq![r], lo, hi) == 1,
        r.start_line > hi ==> contributors(seq![r], lo, hi) == 0,
    decreases b.len(),
{
    reveal_with_fuel(contributors, 2);
    assert(seq![r].drop_last() =~= Seq::<DocRow>::empty());
    if r.start_line > 0 && lo <= ln <= hi && r.start_line <= ln < r.start_line + pieces::split(
        r.content@,
        CharClass::Is('\n'),
    ).len() {
        assert(row_line(r, ln) is Some);
    }
    if b.len() == 0 {
        assert(a + b =~= a);
    } else {
        chunks_in_a_range_are_counted(a, b.drop_last(), r, lo, hi, ln);
        assert((a + b).drop_last() =~= a + b.drop_last());
    }
}

/// A whole file is all its chunks, with an empty line between neighbours.
pub proof fn a_whole_file_is_all_its_chunks(d: DocSlice, rows: Seq<DocRow>, has_lines: bool)
    requires
        is_whole_file(d, rows, has_lines),
    ensures
        d.content@ == pieces::join(contents_in(rows, doc_order(rows, has_lines)), "\n\n"@),
        d.chunk_count == rows.len(),
        d.start_line == first_known(rows),
        d.end_line == last_known(rows),
        d.line_meta_missing == !has_lines,
{
}

} // verus!
