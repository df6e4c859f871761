//! Taking texts apart and putting them together: splitting, lines, joining,
//! replacing, and writing numbers.

use vstd::prelude::*;
use vstd::slice::slice_subrange;
use vstd::slice::slice_to_vec;

use crate::text;
use crate::text::{chars_of, find_class, text_at, to_ascii_lower, CharClass};

verus! {

/// The characters of each piece.
pub open spec fn rows(v: Seq<Vec<char>>) -> Seq<Seq<char>> {
    v.map_values(|x: Vec<char>| x@)
}

/// The characters of each text.
pub open spec fn texts(v: Seq<String>) -> Seq<Seq<char>> {
    v.map_values(|x: String| x@)
}

/// The characters of a text that may be absent.
pub open spec fn opt_text(s: Option<String>) -> Option<Seq<char>> {
    match s {
        Some(t) => Some(t@),
        None => None,
    }
}

/// The characters of a borrowed text that may be absent.
pub open spec fn opt_str(s: Option<&str>) -> Option<Seq<char>> {
    match s {
        Some(t) => Some(t@),
        None => None,
    }
}

/// A copy of a text that may be absent.
pub fn copy_opt(s: &Option<String>) -> (r: Option<String>)
    ensures
        opt_text(r) == opt_text(*s),
        r == *s,
{
    match s {
        Some(t) => Some(t.clone()),
        None => None,
    }
}

/// A copy of a list of texts.
pub fn copy_texts(v: &Vec<String>) -> (r: Vec<String>)
    ensures
        r@ == v@,
        texts(r@) == texts(v@),
{
    let mut r: Vec<String> = Vec::new();
    let mut i: usize = 0;
    while i < v.len()
        invariant
            i <= v@.len(),
            r@ == v@.take(i as int),
        decreases v.len() - i,
    {
        r.push(v[i].clone());
        i = i + 1;
        assert(v@.take(i as int) =~= v@.take(i - 1).push(v@[i - 1]));
    }
    assert(v@.take(v@.len() as int) =~= v@);
    r
}

/// Whether a text is one of a list.
pub fn has_member(v: &Vec<String>, t: &str) -> (r: bool)
    ensures
        r == texts(v@).contains(t@),
{
    let key = t.to_owned();
    let mut i: usize = 0;
    while i < v.len()
        invariant
            i <= v@.len(),
            key@ == t@,
            forall|j: int| 0 <= j < i ==> texts(v@)[j] != t@,
        decreases v.len() - i,
    {
        if v[i] == key {
            assert(texts(v@)[i as int] == t@);
            return true;
        }
        i = i + 1;
    }
    false
}

// ---------------------------------------------------------------------------
// Splitting
// ---------------------------------------------------------------------------

/// The pieces between the characters of a class.
pub open spec fn split(s: Seq<char>, k: CharClass) -> Seq<Seq<char>>
    decreases s.len(),
{
    let i = text::find(s, k);
    if i < 0 || i >= s.len() {
        seq![s]
    } else {
        seq![s.take(i)] + split(s.skip(i + 1), k)
    }
}

pub fn split_class(s: &[char], k: CharClass) -> (r: Vec<Vec<char>>)
    ensures
        rows(r@) == split(s@, k),
{
    let mut r: Vec<Vec<char>> = Vec::new();
    let mut rest: &[char] = s;
    loop
        invariant_except_break
            rows(r@) + split(rest@, k) == split(s@, k),
        ensures
            rows(r@) == split(s@, k),
        decreases rest@.len(),
    {
        let i: usize = find_class(rest, k);
        let ghost before = rows(r@);
        if i >= rest.len() {
            r.push(slice_to_vec(rest));
            assert(rows(r@) =~= before + seq![rest@]);
            break;
        }
        let piece = slice_subrange(rest, 0, i);
        r.push(slice_to_vec(piece));
        let next = slice_subrange(rest, i + 1, rest.len());
        proof {
            assert(piece@ =~= rest@.take(i as int));
            assert(next@ =~= rest@.skip(i + 1));
            assert(rows(r@) =~= before + seq![piece@]);
            assert(rows(r@) + split(next@, k) =~= before + split(rest@, k));
        }
        rest = next;
    }
    r
}

/// A line without the carriage return that a Windows line break leaves on it.
pub open spec fn without_cr(s: Seq<char>) -> Seq<char> {
    if s.len() > 0 && s.last() == '\r' {
        s.drop_last()
    } else {
        s
    }
}

/// The lines of a text: what stands before each line break, and what follows the
/// last one where that is not empty. A carriage return is taken off only where a
/// line break follows it.
pub open spec fn lines(s: Seq<char>) -> Seq<Seq<char>>
    decreases s.len(),
{
    if s.len() == 0 {
        seq![]
    } else {
        let i = text::find(s, CharClass::Is('\n'));
        if i < 0 || i >= s.len() {
            seq![s]
        } else {
            seq![without_cr(s.take(i))] + lines(s.skip(i + 1))
        }
    }
}

pub fn lines_of(s: &[char]) -> (r: Vec<Vec<char>>)
    ensures
        rows(r@) == lines(s@),
{
    let mut r: Vec<Vec<char>> = Vec::new();
    let mut rest: &[char] = s;
    while rest.len() > 0
        invariant
            rows(r@) + lines(rest@) == lines(s@),
        decreases rest@.len(),
    {
        let i: usize = find_class(rest, CharClass::Is('\n'));
        let ghost before = rows(r@);
        if i >= rest.len() {
            r.push(slice_to_vec(rest));
            let next = slice_subrange(rest, rest.len(), rest.len());
            proof {
                assert(rows(r@) =~= before + seq![rest@]);
                assert(next@.len() == 0);
                assert(rows(r@) + lines(next@) =~= before + lines(rest@));
            }
            rest = next;
        } else {
            let end: usize = if i > 0 && rest[i - 1] == '\r' {
                i - 1
            } else {
                i
            };
            let piece = slice_subrange(rest, 0, end);
            r.push(slice_to_vec(piece));
            let next = slice_subrange(rest, i + 1, rest.len());
            proof {
                assert(piece@ =~= without_cr(rest@.take(i as int)));
                assert(next@ =~= rest@.skip(i + 1));
                assert(rows(r@) =~= before + seq![piece@]);
                assert(rows(r@) + lines(next@) =~= before + lines(rest@));
            }
            rest = next;
        }
    }
    proof {
        assert(rows(r@) + lines(rest@) =~= rows(r@));
    }
    r
}

// ---------------------------------------------------------------------------
// Joining
// ---------------------------------------------------------------------------

/// The texts one after another, with `sep` between neighbours.
pub open spec fn join(parts: Seq<Seq<char>>, sep: Seq<char>) -> Seq<char>
    decreases parts.len(),
{
    if parts.len() == 0 {
        seq![]
    } else if parts.len() == 1 {
        parts[0]
    } else {
        join(parts.drop_last(), sep) + sep + parts.last()
    }
}

pub fn join_texts(parts: &Vec<String>, sep: &str) -> (r: String)
    ensures
        r@ == join(texts(parts@), sep@),
{
    let mut r = String::new();
    let mut i: usize = 0;
    while i < parts.len()
        invariant
            i <= parts@.len(),
            r@ == join(texts(parts@.take(i as int)), sep@),
        decreases parts.len() - i,
    {
        let ghost before = texts(parts@.take(i as int));
        let ghost after = texts(parts@.take(i + 1));
        proof {
            assert(after.drop_last() =~= before);
            assert(after.last() == parts@[i as int]@);
        }
        if i > 0 {
            r.append(sep);
        }
        r.append(parts[i].as_str());
        proof {
            if i == 0 {
                assert(r@ =~= parts@[0]@);
            }
        }
        i = i + 1;
    }
    assert(parts@.take(parts@.len() as int) =~= parts@);
    r
}

/// A text with every ASCII capital turned into the small letter.
pub open spec fn ascii_lowered(s: Seq<char>) -> Seq<char> {
    s.map_values(|c: char| text::ascii_lower(c))
}

pub fn lower_ascii(s: &[char]) -> (r: String)
    ensures
        r@ == ascii_lowered(s@),
{
    let mut r = String::new();
    let mut i: usize = 0;
    while i < s.len()
        invariant
            i <= s@.len(),
            r@ == ascii_lowered(s@.take(i as int)),
        decreases s.len() - i,
    {
        r.push(to_ascii_lower(s[i]));
        i = i + 1;
        assert(ascii_lowered(s@.take(i as int)) =~= ascii_lowered(s@.take(i - 1)).push(
            text::ascii_lower(s@[i - 1]),
        ));
    }
    assert(s@.take(s@.len() as int) =~= s@);
    r
}

/// `s` with `with` in place of each occurrence of `pat`, from the left.
pub open spec fn replaced(s: Seq<char>, pat: Seq<char>, with: Seq<char>) -> Seq<char>
    decreases s.len(),
{
    if s.len() == 0 || pat.len() == 0 {
        s
    } else if text::starts_with(s, pat) {
        with + replaced(s.skip(pat.len() as int), pat, with)
    } else {
        seq![s[0]] + replaced(s.drop_first(), pat, with)
    }
}

/// `s` with `with` in place of each occurrence of the non-empty `pat`.
pub fn replace_text(s: &str, pat: &str, with: &str) -> (r: String)
    requires
        pat@.len() > 0,
    ensures
        r@ == replaced(s@, pat@, with@),
{
    let cs = chars_of(s);
    let ps = chars_of(pat);
    let mut r = String::new();
    let mut i: usize = 0;
    assert(cs@.skip(0) =~= cs@);
    while i < cs.len()
        invariant
            i <= cs@.len(),
            cs@ == s@,
            ps@ == pat@,
            pat@.len() > 0,
            r@ + replaced(cs@.skip(i as int), pat@, with@) == replaced(s@, pat@, with@),
        decreases cs.len() - i,
    {
        let ghost tail = cs@.skip(i as int);
        let ghost before = r@;
        let hit = text_at(cs.as_slice(), ps.as_slice(), i);
        proof {
            if i + pat@.len() <= cs@.len() {
                assert(tail.subrange(0, pat@.len() as int) =~= cs@.subrange(
                    i as int,
                    i + pat@.len(),
                ));
            }
            assert(hit == text::starts_with(tail, pat@));
        }
        if hit {
            r.append(with);
            proof {
                assert(tail.skip(pat@.len() as int) =~= cs@.skip(i + pat@.len()));
                assert(r@ + replaced(cs@.skip(i + pat@.len()), pat@, with@) =~= before + replaced(
                    tail,
                    pat@,
                    with@,
                ));
            }
            i = i + ps.len();
        } else {
            r.push(cs[i]);
            proof {
                assert(tail.drop_first() =~= cs@.skip(i + 1));
                assert(r@ + replaced(cs@.skip(i + 1), pat@, with@) =~= before + replaced(
                    tail,
                    pat@,
                    with@,
                ));
            }
            i = i + 1;
        }
    }
    proof {
        assert(cs@.skip(i as int).len() == 0);
        assert(r@ + replaced(cs@.skip(i as int), pat@, with@) =~= r@);
    }
    r
}

// ---------------------------------------------------------------------------
// Numbers
// ---------------------------------------------------------------------------

/// The digit that writes `d`, for `d` under ten.
pub open spec fn digit(d: nat) -> char {
    ('0' as u8 + d) as char
}

/// A number in decimal notation.
pub open spec fn decimal(n: nat) -> Seq<char>
    decreases n,
{
    if n < 10 {
        seq![digit(n)]
    } else {
        decimal(n / 10).push(digit(n % 10))
    }
}

pub fn write_decimal(n: u64) -> (r: String)
    ensures
        r@ == decimal(n as nat),
    decreases n,
{
    let d: u64 = n % 10;
    let c: char = (48 + d as u8) as char;
    if n < 10 {
        let mut r = String::new();
        r.push(c);
        assert(r@ =~= seq![digit(n as nat)]);
        r
    } else {
        let mut r = write_decimal(n / 10);
        r.push(c);
        r
    }
}

// ---------------------------------------------------------------------------
// Bytes
// ---------------------------------------------------------------------------

/// A whole number in decimal.
pub open spec fn integer_text(n: int) -> Seq<char> {
    if n < 0 {
        "-"@ + decimal((-n) as nat)
    } else {
        decimal(n as nat)
    }
}

/// Write a whole number in decimal.
pub fn write_integer(n: i64) -> (r: String)
    ensures
        r@ == integer_text(n as int),
{
    if n < 0 {
        let mut r = "-".to_owned();
        r.append(write_decimal((-(n as i128)) as u64).as_str());
        r
    } else {
        write_decimal(n as u64)
    }
}

/// How many bytes a character takes in UTF-8.
pub open spec fn char_width(c: char) -> nat {
    if (c as u32) < 0x80 {
        1
    } else if (c as u32) < 0x800 {
        2
    } else if (c as u32) < 0x10000 {
        3
    } else {
        4
    }
}

/// How many bytes a text takes in UTF-8.
pub open spec fn byte_len(s: Seq<char>) -> nat
    decreases s.len(),
{
    if s.len() == 0 {
        0
    } else {
        byte_len(s.drop_last()) + char_width(s.last())
    }
}

pub fn width_of(c: char) -> (r: usize)
    ensures
        r == char_width(c),
        1 <= r <= 4,
{
    let n: u32 = c as u32;
    if n < 0x80 {
        1
    } else if n < 0x800 {
        2
    } else if n < 0x10000 {
        3
    } else {
        4
    }
}

/// How many bytes a text takes in UTF-8.
pub fn byte_size(s: &str) -> (n: u128)
    ensures
        n == byte_len(s@),
{
    let cs = chars_of(s);
    let mut n: u128 = 0;
    let mut i: usize = 0;
    assert(cs@.take(0) =~= seq![]);
    while i < cs.len()
        invariant
            i <= cs@.len(),
            i <= usize::MAX,
            n == byte_len(cs@.take(i as int)),
            n <= 4 * i,
        decreases cs.len() - i,
    {
        proof {
            assert(cs@.take(i + 1).drop_last() =~= cs@.take(i as int));
        }
        n = n + width_of(cs[i]) as u128;
        i = i + 1;
    }
    assert(cs@.take(cs@.len() as int) =~= cs@);
    n
}

pub proof fn lemma_byte_len_concat(a: Seq<char>, b: Seq<char>)
    ensures
        byte_len(a + b) == byte_len(a) + byte_len(b),
    decreases b.len(),
{
    if b.len() == 0 {
        assert(a + b =~= a);
    } else {
        lemma_byte_len_concat(a, b.drop_last());
        assert((a + b).drop_last() =~= a + b.drop_last());
        assert((a + b).last() == b.last());
    }
}

pub proof fn lemma_byte_len_bounds(s: Seq<char>)
    ensures
        s.len() <= byte_len(s) <= 4 * s.len(),
    decreases s.len(),
{
    if s.len() > 0 {
        lemma_byte_len_bounds(s.drop_last());
    }
}

/// A character of `s` begins, or `s` ends, behind exactly `n` bytes.
pub open spec fn byte_boundary(s: Seq<char>, n: nat) -> bool {
    exists|i: int| 0 <= i <= s.len() && byte_len(#[trigger] s.take(i)) == n
}

/// The first `n` bytes of a text, where a character ends there.
pub open spec fn byte_prefix(s: Seq<char>, n: nat) -> Seq<char> {
    s.take(choose|i: int| 0 <= i <= s.len() && byte_len(#[trigger] s.take(i)) == n)
}

/// A longer beginning of a text takes more bytes.
pub proof fn lemma_byte_len_grows(s: Seq<char>, i: int, j: int)
    requires
        0 <= i < j <= s.len(),
    ensures
        byte_len(s.take(i)) < byte_len(s.take(j)),
    decreases j - i,
{
    assert(s.take(j).drop_last() =~= s.take(j - 1));
    if i < j - 1 {
        lemma_byte_len_grows(s, i, j - 1);
    }
}

/// Only one beginning of a text has a given number of bytes.
pub proof fn lemma_byte_prefix(s: Seq<char>, n: nat, i: int)
    requires
        0 <= i <= s.len(),
        byte_len(s.take(i)) == n,
    ensures
        byte_boundary(s, n),
        byte_prefix(s, n) == s.take(i),
{
    let j = choose|j: int| 0 <= j <= s.len() && byte_len(#[trigger] s.take(j)) == n;
    if j < i {
        lemma_byte_len_grows(s, j, i);
    }
    if i < j {
        lemma_byte_len_grows(s, i, j);
    }
}

/// The first `n` bytes of a text that a character ends behind.
pub fn take_bytes(s: &str, n: usize) -> (r: String)
    requires
        byte_boundary(s@, n as nat),
    ensures
        r@ == byte_prefix(s@, n as nat),
{
    let cs = chars_of(s);
    let mut r = String::new();
    let mut done: usize = 0;
    let mut i: usize = 0;
    proof {
        assert(cs@.take(0) =~= seq![]);
    }
    while done < n
        invariant
            i <= cs@.len(),
            cs@ == s@,
            r@ == cs@.take(i as int),
            done == byte_len(cs@.take(i as int)),
            done <= n,
            byte_boundary(s@, n as nat),
        decreases n - done,
    {
        let ghost m = choose|m: int| 0 <= m <= s@.len() && byte_len(#[trigger] s@.take(m)) == n;
        proof {
            if m <= i {
                if m < i {
                    lemma_byte_len_grows(s@, m, i as int);
                }
                assert(false);
            }
            assert(cs@.take(i + 1).drop_last() =~= cs@.take(i as int));
            if i + 1 < m {
                lemma_byte_len_grows(s@, i + 1, m);
            }
            assert(i < cs.len());
        }
        r.push(cs[i]);
        done = done + width_of(cs[i]);
        i = i + 1;
        assert(cs@.take(i as int) =~= cs@.take(i - 1).push(cs@[i - 1]));
    }
    proof {
        lemma_byte_prefix(s@, n as nat, i as int);
    }
    r
}

// ---------------------------------------------------------------------------
// Reading numbers
// ---------------------------------------------------------------------------

/// What a digit is worth.
pub open spec fn digit_value(c: char) -> nat {
    (c as u32 - '0' as u32) as nat
}

/// What digits are worth together.
pub open spec fn digits_value(s: Seq<char>) -> nat
    decreases s.len(),
{
    if s.len() == 0 {
        0
    } else {
        digits_value(s.drop_last()) * 10 + digit_value(s.last())
    }
}

pub open spec fn all_digits(s: Seq<char>) -> bool {
    forall|i: int| 0 <= i < s.len() ==> text::is_ascii_digit(#[trigger] s[i])
}

/// The number that a text is: digits, with a plus sign in front or none.
pub open spec fn number(s: Seq<char>) -> Option<nat> {
    let t = if s.len() > 1 && s[0] == '+' {
        s.skip(1)
    } else {
        s
    };
    if t.len() > 0 && all_digits(t) {
        Some(digits_value(t))
    } else {
        None
    }
}

/// The number that a text is, where it is one and no larger than `max`.
pub fn read_number(s: &[char], max: u64) -> (r: Option<u64>)
    ensures
        match r {
            Some(n) => number(s@) == Some(n as nat) && n <= max,
            None => number(s@) is None || number(s@)->0 > max,
        },
{
    let from: usize = if s.len() > 1 && s[0] == '+' {
        1
    } else {
        0
    };
    let ghost t = s@.skip(from as int);
    assert(s@.skip(0) =~= s@);
    if from >= s.len() {
        return None;
    }
    let mut n: u64 = 0;
    let mut i: usize = from;
    assert(t.take(0) =~= seq![]);
    while i < s.len()
        invariant
            from <= i <= s@.len(),
            from < s@.len(),
            from == (if s@.len() > 1 && s@[0] == '+' {
                1int
            } else {
                0int
            }),
            t == s@.skip(from as int),
            number(s@) == (if t.len() > 0 && all_digits(t) {
                Some(digits_value(t))
            } else {
                None
            }),
            n == digits_value(t.take(i - from)),
            n <= max,
            forall|j: int| from <= j < i ==> text::is_ascii_digit(#[trigger] s@[j]),
        decreases s.len() - i,
    {
        let c = s[i];
        if !('0' <= c && c <= '9') {
            assert(t[i - from] == c);
            assert(!all_digits(t));
            return None;
        }
        let d: u64 = (c as u32 - 48) as u64;
        proof {
            assert(t.take(i - from + 1).drop_last() =~= t.take(i - from));
            assert(t.take(i - from + 1).last() == c);
            assert(digits_value(t.take(i - from + 1)) == n * 10 + d);
            lemma_digits_grow(t, i - from + 1);
        }
        if d > max || n > (max - d) / 10 {
            return None;
        }
        n = n * 10 + d;
        i = i + 1;
    }
    proof {
        assert(t.take(t.len() as int) =~= t);
        assert(all_digits(t)) by {
            assert forall|j: int| 0 <= j < t.len() implies text::is_ascii_digit(#[trigger] t[j]) by {
                assert(s@[j + from] == t[j]);
            }
        }
    }
    Some(n)
}

/// More digits never make a number smaller.
proof fn lemma_digits_grow(s: Seq<char>, i: int)
    requires
        0 <= i <= s.len(),
    ensures
        digits_value(s.take(i)) <= digits_value(s),
    decreases s.len() - i,
{
    if i < s.len() {
        lemma_digits_grow(s, i + 1);
        assert(s.take(i + 1).drop_last() =~= s.take(i));
    } else {
        assert(s.take(i) =~= s);
    }
}

// ---------------------------------------------------------------------------
// Taking apart and putting together
// ---------------------------------------------------------------------------

/// Joined texts are the first of them, the separator, and the others joined.
pub proof fn joining_goes_in_order(parts: Seq<Seq<char>>, sep: Seq<char>)
    requires
        parts.len() > 0,
    ensures
        parts.len() == 1 ==> join(parts, sep) == parts[0],
        parts.len() > 1 ==> join(parts, sep) == parts[0] + sep + join(parts.drop_first(), sep),
    decreases parts.len(),
{
    if parts.len() > 1 {
        let init = parts.drop_last();
        joining_goes_in_order(init, sep);
        if parts.len() == 2 {
            assert(parts.drop_first() =~= seq![parts[1]]);
            assert(init =~= seq![parts[0]]);
        } else {
            let rest = parts.drop_first();
            assert(rest.drop_last() =~= init.drop_first());
            assert(rest.last() == parts.last());
            assert(init[0] == parts[0]);
            assert(join(parts, sep) =~= parts[0] + sep + join(rest, sep));
        }
    }
}

/// Texts that are joined by a character that none of them has are the pieces that the whole
/// is split into at that character.
pub proof fn joined_pieces_are_split_again(parts: Seq<Seq<char>>, c: char)
    requires
        parts.len() > 0,
        forall|i: int, j: int|
            0 <= i < parts.len() && 0 <= j < parts[i].len() ==> #[trigger] parts[i][j] != c,
    ensures
        split(join(parts, seq![c]), CharClass::Is(c)) == parts,
    decreases parts.len(),
{
    let k = CharClass::Is(c);
    let s = join(parts, seq![c]);
    let n = parts[0].len() as int;
    joining_goes_in_order(parts, seq![c]);
    if parts.len() == 1 {
        assert forall|j: int| 0 <= j < s.len() implies !text::in_class(k, #[trigger] s[j]) by {
            assert(parts[0][j] != c);
        }
        text::lemma_find(s, k, n);
        assert(split(s, k) =~= parts);
    } else {
        let rest = parts.drop_first();
        assert forall|i: int, j: int| 0 <= i < rest.len() && 0 <= j < rest[i].len() implies
            #[trigger] rest[i][j] != c by {
            assert(parts[i + 1][j] != c);
        }
        joined_pieces_are_split_again(rest, c);
        assert forall|j: int| 0 <= j < n implies !text::in_class(k, #[trigger] s[j]) by {
            assert(s[j] == parts[0][j]);
            assert(parts[0][j] != c);
        }
        assert(s[n] == c);
        text::lemma_find(s, k, n);
        assert(s.take(n) =~= parts[0]);
        assert(s.skip(n + 1) =~= join(rest, seq![c]));
        assert(split(s, k) =~= parts);
    }
}

/// A line has no line break in it, and no carriage return at its end.
pub open spec fn is_line(l: Seq<char>) -> bool {
    (forall|j: int| 0 <= j < l.len() ==> #[trigger] l[j] != '\n') && (l.len() > 0 ==> l.last()
        != '\r')
}

/// A text that was put together from lines has just those lines, with a line break at its
/// end or without.
pub proof fn joined_lines_are_read_back(ls: Seq<Seq<char>>)
    requires
        forall|i: int| 0 <= i < ls.len() ==> is_line(#[trigger] ls[i]),
    ensures
        ls.len() > 0 ==> lines(join(ls, "\n"@) + "\n"@) == ls,
        ls.len() > 0 && ls.last().len() > 0 ==> lines(join(ls, "\n"@)) == ls,
        lines(seq![]) == Seq::<Seq<char>>::empty(),
    decreases ls.len(),
{
    reveal_strlit("\n");
    let nl = "\n"@;
    assert(nl =~= seq!['\n']);
    if ls.len() > 0 {
        joining_goes_in_order(ls, nl);
        let k = CharClass::Is('\n');
        let s = join(ls, nl);
        let t = s + nl;
        let n = ls[0].len() as int;
        assert(is_line(ls[0]));
        let rest = ls.drop_first();
        assert forall|i: int| 0 <= i < rest.len() implies is_line(#[trigger] rest[i]) by {
            assert(rest[i] == ls[i + 1]);
        }
        joined_lines_are_read_back(rest);
        assert forall|j: int| 0 <= j < n implies !text::in_class(k, #[trigger] t[j]) by {
            assert(t[j] == ls[0][j]);
        }
        assert forall|j: int| 0 <= j < n implies !text::in_class(k, #[trigger] s[j]) by {
            assert(s[j] == ls[0][j]);
        }
        assert(t[n] == '\n');
        text::lemma_find(t, k, n);
        assert(t.take(n) =~= ls[0]);
        if ls.len() == 1 {
            assert(t.skip(n + 1) =~= seq![]);
            assert(rest =~= seq![]);
            assert(lines(t) =~= ls);
            if ls.last().len() > 0 {
                text::lemma_find(s, k, n);
                assert(lines(s) =~= ls);
            }
        } else {
            assert(t.skip(n + 1) =~= join(rest, nl) + nl);
            assert(lines(t) =~= ls);
            assert(rest.last() == ls.last());
            if ls.last().len() > 0 {
                assert(s[n] == '\n');
                text::lemma_find(s, k, n);
                assert(s.take(n) =~= ls[0]);
                assert(s.skip(n + 1) =~= join(rest, nl));
                assert(lines(s) =~= ls);
            }
        }
    }
}

/// A number that was written is read back, and it is written without needless zeroes.
pub proof fn written_numbers_are_read_back(n: nat)
    ensures
        number(decimal(n)) == Some(n),
        decimal(n).len() > 0,
        decimal(n).len() > 1 ==> decimal(n)[0] != '0',
{
    lemma_decimal(n);
    let s = decimal(n);
    assert(text::is_ascii_digit(s[0]));
}

proof fn lemma_decimal(n: nat)
    ensures
        decimal(n).len() > 0,
        all_digits(decimal(n)),
        digits_value(decimal(n)) == n,
        n > 0 ==> decimal(n)[0] != '0',
        n < 10 ==> decimal(n).len() == 1,
    decreases n,
{
    let s = decimal(n);
    if n < 10 {
        assert(s.drop_last() =~= seq![]);
        assert(s.last() == digit(n));
        assert(digits_value(s.drop_last()) == 0);
    } else {
        lemma_decimal(n / 10);
        assert(s.drop_last() =~= decimal(n / 10));
        assert(s.last() == digit(n % 10));
        assert(s[0] == decimal(n / 10)[0]);
    }
}

/// Different numbers are written differently.
pub proof fn numbers_are_told_apart(a: nat, b: nat)
    requires
        decimal(a) == decimal(b),
    ensures
        a == b,
{
    written_numbers_are_read_back(a);
    written_numbers_are_read_back(b);
}

/// A character is replaced wherever it stands, and nothing else is.
pub proof fn characters_are_replaced_one_by_one(
    a: Seq<char>,
    b: Seq<char>,
    c: char,
    d: char,
    with: Seq<char>,
)
    ensures
        replaced(a + b, seq![c], with) == replaced(a, seq![c], with) + replaced(b, seq![c], with),
        replaced(seq![c], seq![c], with) == with,
        c != d ==> replaced(seq![d], seq![c], with) == seq![d],
        replaced(Seq::empty(), seq![c], with) == Seq::<char>::empty(),
    decreases a.len(),
{
    reveal_with_fuel(replaced, 2);
    let pat = seq![c];
    assert(seq![c].subrange(0, 1) =~= pat);
    assert(seq![c].skip(1) =~= Seq::<char>::empty());
    assert(with + Seq::<char>::empty() =~= with);
    assert(seq![d].drop_first() =~= Seq::<char>::empty());
    assert(seq![d] + Seq::<char>::empty() =~= seq![d]);
    if c != d && text::starts_with(seq![d], pat) {
        assert(seq![d].subrange(0, 1)[0] == d);
        assert(false);
    }
    if a.len() == 0 {
        assert(a + b =~= b);
        assert(replaced(a, pat, with) + replaced(b, pat, with) =~= replaced(b, pat, with));
    } else {
        let t = a.drop_first();
        characters_are_replaced_one_by_one(t, b, c, d, with);
        assert((a + b).drop_first() =~= t + b);
        assert((a + b).skip(1) =~= t + b);
        assert(a.skip(1) =~= t);
        assert((a + b).subrange(0, 1)[0] == a[0]);
        assert(a.subrange(0, 1)[0] == a[0]);
        if a[0] == c {
            assert((a + b).subrange(0, 1) =~= pat);
            assert(a.subrange(0, 1) =~= pat);
            assert(with + (replaced(t, pat, with) + replaced(b, pat, with)) =~= with + replaced(
                t,
                pat,
                with,
            ) + replaced(b, pat, with));
        } else {
            assert(seq![a[0]] + (replaced(t, pat, with) + replaced(b, pat, with)) =~= seq![a[0]]
                + replaced(t, pat, with) + replaced(b, pat, with));
        }
    }
}

/// A text takes at least a byte for each character, as many as there are where all are ASCII,
/// and the bytes of two texts add up.
pub proof fn bytes_add_up(a: Seq<char>, b: Seq<char>, c: char)
    ensures
        byte_len(a + b) == byte_len(a) + byte_len(b),
        (c as u32) < 0x80 ==> byte_len(seq![c]) == 1,
        0x80 <= (c as u32) < 0x800 ==> byte_len(seq![c]) == 2,
        0x800 <= (c as u32) < 0x1_0000 ==> byte_len(seq![c]) == 3,
        0x1_0000 <= (c as u32) ==> byte_len(seq![c]) == 4,
{
    reveal_with_fuel(byte_len, 2);
    lemma_byte_len_concat(a, b);
    assert(seq![c].drop_last() =~= Seq::<char>::empty());
}

/// Whole numbers are written with a minus sign where they are below zero.
pub proof fn whole_numbers_are_written(n: int)
    ensures
        n >= 0 ==> number(integer_text(n)) == Some(n as nat),
        n < 0 ==> integer_text(n).len() > 1 && integer_text(n)[0] == '-' && number(
            integer_text(n).skip(1),
        ) == Some((-n) as nat),
{
    reveal_strlit("-");
    if n >= 0 {
        written_numbers_are_read_back(n as nat);
    } else {
        written_numbers_are_read_back((-n) as nat);
        assert(integer_text(n).skip(1) =~= decimal((-n) as nat));
    }
}

/// Putting a text into small letters goes character by character.
pub proof fn small_letters_come_one_by_one(a: Seq<char>, b: Seq<char>, i: int)
    ensures
        ascii_lowered(a + b) == ascii_lowered(a) + ascii_lowered(b),
        ascii_lowered(a).len() == a.len(),
        0 <= i < a.len() && 'A' <= a[i] <= 'Z' ==> ascii_lowered(a)[i] as u32 == a[i] as u32 + 32,
        0 <= i < a.len() && !('A' <= a[i] <= 'Z') ==> ascii_lowered(a)[i] == a[i],
{
    assert(ascii_lowered(a + b) =~= ascii_lowered(a) + ascii_lowered(b));
}

/// A text is a number just where it is digits, with a plus sign in front or none.
pub proof fn only_digits_are_numbers(s: Seq<char>, i: int)
    ensures
        s.len() == 0 ==> number(s) is None,
        0 < i < s.len() && !('0' <= s[i] <= '9') ==> number(s) is None,
        s.len() > 0 && !('0' <= s[0] <= '9') && s[0] != '+' ==> number(s) is None,
        s.len() == 1 && s[0] == '+' ==> number(s) is None,
        s.len() > 0 && (forall|j: int| 0 <= j < s.len() ==> '0' <= #[trigger] s[j] <= '9')
            ==> number(s) is Some && number(seq!['+'] + s) == number(s),
{
    if 0 < i < s.len() && !('0' <= s[i] <= '9') {
        if s[0] == '+' {
            assert(s.skip(1)[i - 1] == s[i]);
        }
        if all_digits(s) {
            assert(text::is_ascii_digit(s[i]));
        }
        if s[0] == '+' && all_digits(s.skip(1)) {
            assert(text::is_ascii_digit(s.skip(1)[i - 1]));
        }
    }
    if s.len() > 0 && all_digits(s) {
        assert(text::is_ascii_digit(s[0]));
    }
    if s.len() > 0 && (forall|j: int| 0 <= j < s.len() ==> '0' <= #[trigger] s[j] <= '9') {
        let p = seq!['+'] + s;
        assert(p.skip(1) =~= s);
        assert(p[0] == '+');
        assert(all_digits(s));
        assert(s[0] != '+');
    }
}

} // verus!
