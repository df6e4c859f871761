//! Overlapping windows of a long text, cut at its lines.

use vstd::prelude::*;
use vstd::slice::slice_subrange;

use crate::pieces;
use crate::text;
use crate::text::{chars_of, find_class, string_of, CharClass};

verus! {

/// The characters after which a window ends at the next line break.
pub const KWIC_WINDOW_CHARS: usize = 1_500;

/// The characters after which the next window begins behind the next line break.
pub const KWIC_STRIDE_CHARS: usize = 750;

/// How far so many characters reach, which is no further than the end.
pub open spec fn reach(s: Seq<char>, n: nat) -> nat {
    if n < s.len() {
        n
    } else {
        s.len()
    }
}

/// The place behind the first line break from a place on, or the end.
pub open spec fn after_break(s: Seq<char>, i: int) -> int {
    let j = i + text::find(s.skip(i), CharClass::Is('\n'));
    if j < s.len() {
        j + 1
    } else {
        s.len() as int
    }
}

/// The place behind the first line break that is so many characters away, or the end.
pub open spec fn ahead(s: Seq<char>, start: int, n: nat) -> int {
    start + after_break(s.skip(start), reach(s.skip(start), n) as int)
}

/// The windows of a text from a place on.
pub open spec fn windows(s: Seq<char>, start: int) -> Seq<(int, int)>
    decreases s.len() - start,
{
    let end = ahead(s, start, KWIC_WINDOW_CHARS as nat);
    let next = ahead(s, start, KWIC_STRIDE_CHARS as nat);
    if end >= s.len() || next <= start || next > s.len() {
        seq![(start, end)]
    } else {
        seq![(start, end)] + windows(s, next)
    }
}

/// The texts of the windows.
pub open spec fn window_texts(s: Seq<char>) -> Seq<Seq<char>> {
    windows(s, 0).map_values(|w: (int, int)| s.subrange(w.0, w.1))
}

proof fn lemma_after_break(s: Seq<char>, i: int)
    requires
        0 <= i <= s.len(),
    ensures
        i <= after_break(s, i) <= s.len(),
        after_break(s, i) == s.len() || s[after_break(s, i) - 1] == '\n',
        i < s.len() ==> after_break(s, i) > i,
{
    let k = CharClass::Is('\n');
    let t = s.skip(i);
    text::lemma_find_bounds(t, k);
    if text::find(t, k) < t.len() {
        assert(text::in_class(k, t[text::find(t, k)]));
        assert(t[text::find(t, k)] == s[i + text::find(t, k)]);
    }
}

proof fn lemma_after_break_grows(s: Seq<char>, i: int, j: int)
    requires
        0 <= i <= j <= s.len(),
    ensures
        after_break(s, i) <= after_break(s, j),
{
    let k = CharClass::Is('\n');
    let a = s.skip(i);
    let b = s.skip(j);
    text::lemma_find_bounds(a, k);
    text::lemma_find_bounds(b, k);
    let p = j + text::find(b, k);
    lemma_after_break(s, i);
    if p < s.len() && i + text::find(a, k) > p {
        assert(b[text::find(b, k)] == s[p]);
        assert(a[p - i] == s[p]);
        assert(text::in_class(k, a[p - i]));
    }
}

/// What a step ahead is.
proof fn lemma_ahead(s: Seq<char>, start: int, n: nat)
    requires
        0 <= start <= s.len(),
        n > 0,
    ensures
        start <= ahead(s, start, n) <= s.len(),
        start < s.len() ==> start < ahead(s, start, n),
        ahead(s, start, n) == s.len() || s[ahead(s, start, n) - 1] == '\n',
{
    let t = s.skip(start);
    lemma_after_break(t, reach(t, n) as int);
    let e = after_break(t, reach(t, n) as int);
    if e < t.len() {
        assert(t[e - 1] == s[start + e - 1]);
    }
}

/// How far a step of so many characters goes.
fn step_ahead(cs: &Vec<char>, start: usize, n: usize) -> (r: usize)
    requires
        start <= cs@.len(),
        0 < n <= KWIC_WINDOW_CHARS,
    ensures
        r == ahead(cs@, start as int, n as nat),
        r <= cs@.len(),
{
    let ghost rest = cs@.skip(start as int);
    let i: usize = if n < cs.len() - start {
        start + n
    } else {
        cs.len()
    };
    let tail = slice_subrange(cs.as_slice(), i, cs.len());
    assert(tail@ =~= rest.skip(i - start));
    let off: usize = find_class(tail, CharClass::Is('\n'));
    if off < tail.len() {
        i + off + 1
    } else {
        cs.len()
    }
}

/// Split a text into overlapping windows that begin and end at lines, so that whatever
/// stands near the end of one window stands in full in another.
pub fn kwic_windows(text: &str) -> (r: Vec<String>)
    ensures
        pieces::texts(r@) == window_texts(text@),
        r@.len() > 0,
{
    let cs = chars_of(text);
    let ghost s = text@;
    let ghost all = window_texts(s);
    let mut r: Vec<String> = Vec::new();
    let mut start: usize = 0;
    assert(pieces::texts(r@) + windows(s, 0).map_values(|w: (int, int)| s.subrange(w.0, w.1))
        =~= all);
    loop
        invariant_except_break
            cs@ == s,
            s == text@,
            all == window_texts(s),
            start <= cs@.len(),
            pieces::texts(r@) + windows(s, start as int).map_values(
                |w: (int, int)| s.subrange(w.0, w.1),
            ) == all,
        ensures
            pieces::texts(r@) == all,
            r@.len() > 0,
        decreases cs.len() - start,
    {
        let end: usize = step_ahead(&cs, start, KWIC_WINDOW_CHARS);
        let next: usize = step_ahead(&cs, start, KWIC_STRIDE_CHARS);
        let ghost before = pieces::texts(r@);
        proof {
            lemma_ahead(s, start as int, KWIC_WINDOW_CHARS as nat);
        }
        r.push(string_of(slice_subrange(cs.as_slice(), start, end)));
        let ghost ws = windows(s, start as int);
        proof {
            assert(pieces::texts(r@) =~= before.push(s.subrange(start as int, end as int)));
            assert(ws[0] == (start as int, end as int));
        }
        if end >= cs.len() || next <= start {
            proof {
                assert(ws =~= seq![(start as int, end as int)]);
                assert(pieces::texts(r@) =~= all);
            }
            break;
        }
        proof {
            let rest = windows(s, next as int);
            assert(ws =~= seq![(start as int, end as int)] + rest);
            assert(pieces::texts(r@) + rest.map_values(|w: (int, int)| s.subrange(w.0, w.1))
                =~= before + ws.map_values(|w: (int, int)| s.subrange(w.0, w.1)));
        }
        start = next;
    }
    r
}

/// The windows of a text begin at its start and end at its end, and each begins no later
/// than the one before it ends: together they hold the whole text. No line is cut: every
/// window begins at the start of a line and ends at the end of one.
pub proof fn windows_cover_whole_lines(s: Seq<char>, start: int)
    requires
        0 <= start <= s.len(),
    ensures
        windows(s, start).len() > 0,
        windows(s, start)[0].0 == start,
        windows(s, start).last().1 == s.len(),
        forall|i: int|
            0 < i < windows(s, start).len() ==> windows(s, start)[i - 1].0 < (#[trigger] windows(
                s,
                start,
            )[i]).0 <= windows(s, start)[i - 1].1,
        forall|i: int|
            0 <= i < windows(s, start).len() ==> (#[trigger] windows(s, start)[i]).0 <= windows(
                s,
                start,
            )[i].1 <= s.len() && (windows(s, start)[i].0 == start || s[windows(s, start)[i].0 - 1]
                == '\n') && (windows(s, start)[i].1 == s.len() || s[windows(s, start)[i].1 - 1]
                == '\n'),
    decreases s.len() - start,
{
    let end = ahead(s, start, KWIC_WINDOW_CHARS as nat);
    let next = ahead(s, start, KWIC_STRIDE_CHARS as nat);
    lemma_ahead(s, start, KWIC_WINDOW_CHARS as nat);
    lemma_ahead(s, start, KWIC_STRIDE_CHARS as nat);
    let t = s.skip(start);
    lemma_after_break_grows(
        t,
        reach(t, KWIC_STRIDE_CHARS as nat) as int,
        reach(t, KWIC_WINDOW_CHARS as nat) as int,
    );
    let ws = windows(s, start);
    if !(end >= s.len() || next <= start || next > s.len()) {
        windows_cover_whole_lines(s, next);
        let rest = windows(s, next);
        assert(ws =~= seq![(start, end)] + rest);
        assert forall|i: int| 0 < i < ws.len() implies ws[i - 1].0 < (#[trigger] ws[i]).0 <= ws[i
            - 1].1 by {
            assert(ws[i] == rest[i - 1]);
            if i > 1 {
                assert(ws[i - 1] == rest[i - 2]);
            }
        }
        assert forall|i: int| 0 <= i < ws.len() implies (#[trigger] ws[i]).0 <= ws[i].1 <= s.len()
            && (ws[i].0 == start || s[ws[i].0 - 1] == '\n') && (ws[i].1 == s.len() || s[ws[i].1
            - 1] == '\n') by {
            if i > 0 {
                assert(ws[i] == rest[i - 1]);
            }
        }
        assert(ws.last() == rest.last());
    } else if !(end >= s.len()) {
        // a text with characters ahead always has a next window
        assert(start < s.len());
        assert(next > start);
    }
}

/// A text that fits into a window is one window, and that window is the text.
pub proof fn a_short_text_is_one_window(s: Seq<char>)
    requires
        s.len() <= KWIC_WINDOW_CHARS,
    ensures
        window_texts(s) == seq![s],
{
    lemma_ahead(s, 0, KWIC_WINDOW_CHARS as nat);
    let t = s.skip(0);
    assert(t =~= s);
    lemma_after_break(t, reach(t, KWIC_WINDOW_CHARS as nat) as int);
    assert(windows(s, 0) =~= seq![(0int, s.len() as int)]);
    assert(s.subrange(0, s.len() as int) =~= s);
    assert(window_texts(s) =~= seq![s]);
}

/// A window has the length that it is to have, but for the last one, and the next one begins
/// half a window later: at least 1,500 and 750 characters.
pub proof fn windows_are_long_and_overlap(s: Seq<char>, start: int, i: int)
    requires
        0 <= start <= s.len(),
        0 <= i < windows(s, start).len() - 1,
    ensures
        windows(s, start)[i].1 - windows(s, start)[i].0 >= 1_500,
        windows(s, start)[i + 1].0 - windows(s, start)[i].0 >= 750,
    decreases s.len() - start,
{
    let end = ahead(s, start, KWIC_WINDOW_CHARS as nat);
    let next = ahead(s, start, KWIC_STRIDE_CHARS as nat);
    lemma_ahead(s, start, KWIC_WINDOW_CHARS as nat);
    lemma_ahead(s, start, KWIC_STRIDE_CHARS as nat);
    let t = s.skip(start);
    lemma_after_break(t, reach(t, KWIC_WINDOW_CHARS as nat) as int);
    lemma_after_break(t, reach(t, KWIC_STRIDE_CHARS as nat) as int);
    let ws = windows(s, start);
    windows_cover_whole_lines(s, next);
    let rest = windows(s, next);
    assert(ws =~= seq![(start, end)] + rest);
    if i == 0 {
        assert(ws[0] == (start, end));
        assert(ws[1] == rest[0]);
    } else {
        windows_are_long_and_overlap(s, next, i - 1);
        assert(ws[i] == rest[i - 1]);
        assert(ws[i + 1] == rest[i]);
    }
}

/// A window reaches no further than the line on which its length is reached.
pub proof fn windows_end_with_their_line(s: Seq<char>, start: int, i: int, j: int)
    requires
        0 <= start <= s.len(),
        0 <= i < windows(s, start).len(),
        windows(s, start)[i].0 + 1_500 <= j < windows(s, start)[i].1 - 1,
    ensures
        s[j] != '\n',
    decreases s.len() - start,
{
    let n = KWIC_WINDOW_CHARS as nat;
    let end = ahead(s, start, n);
    let next = ahead(s, start, KWIC_STRIDE_CHARS as nat);
    lemma_ahead(s, start, n);
    lemma_ahead(s, start, KWIC_STRIDE_CHARS as nat);
    let ws = windows(s, start);
    if i == 0 {
        assert(ws[0] == (start, end));
        let t = s.skip(start);
        let r = reach(t, n) as int;
        let u = t.skip(r);
        let k = CharClass::Is('\n');
        text::lemma_find_bounds(u, k);
        assert(u[j - start - r] == s[j]);
        assert(!text::in_class(k, u[j - start - r]));
    } else {
        let rest = windows(s, next);
        assert(ws =~= seq![(start, end)] + rest);
        assert(ws[i] == rest[i - 1]);
        windows_end_with_their_line(s, next, i - 1, j);
    }
}

} // verus!
