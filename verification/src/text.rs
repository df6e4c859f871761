//! Text as a sequence of characters: the handful of operations on strings that
//! the rest of the library is written with, each stated over `Seq<char>`.

use vstd::prelude::*;
use vstd::slice::slice_subrange;

use crate::pieces;

verus! {

// ---------------------------------------------------------------------------
// Character properties
// ---------------------------------------------------------------------------

/// A character with Unicode's White_Space property.
pub open spec fn char_is_space(c: char) -> bool {
    let n = c as u32;
    0x9 <= n <= 0xd || n == 0x20 || n == 0x85 || n == 0xa0 || n == 0x1680 || 0x2000 <= n <= 0x200a
        || n == 0x2028 || n == 0x2029 || n == 0x202f || n == 0x205f || n == 0x3000
}

/// `char::is_whitespace`: whether a character has the White_Space property.
pub assume_specification[ char::is_whitespace ](c: char) -> (r: bool)
    ensures
        r == char_is_space(c),
;

/// Whether a character beyond ASCII is a letter or a number.
pub uninterp spec fn wide_alnum(c: char) -> bool;

/// A letter or a number. Among the ASCII characters these are the 62 letters and
/// digits.
pub open spec fn char_is_alnum(c: char) -> bool {
    if (c as u32) < 0x80 {
        is_ascii_alnum(c)
    } else {
        wide_alnum(c)
    }
}

/// `char::is_alphanumeric`: of an ASCII character, whether it is a letter or a digit;
/// of any other, an answer that depends on the character alone.
pub assume_specification[ char::is_alphanumeric ](c: char) -> (r: bool)
    ensures
        r == char_is_alnum(c),
        (c as u32) >= 0x80 ==> r == wide_alnum(c),
;

/// `String::push`: the character is put behind the text.
pub assume_specification[ String::push ](s: &mut String, c: char)
    ensures
        final(s)@ == old(s)@.push(c),
;

/// A text of ASCII characters.
pub open spec fn is_ascii_text(s: Seq<char>) -> bool {
    forall|i: int| 0 <= i < s.len() ==> (#[trigger] s[i] as u32) < 0x80
}

/// The lower-case form of a text that has characters beyond ASCII.
pub uninterp spec fn wide_lower(s: Seq<char>) -> Seq<char>;

/// The lower-case form of a text. In an ASCII text the letters from `A` to `Z` become those
/// from `a` to `z`, and nothing else changes.
pub open spec fn lowercased(s: Seq<char>) -> Seq<char> {
    if is_ascii_text(s) {
        pieces::ascii_lowered(s)
    } else {
        wide_lower(s)
    }
}

/// `str::to_lowercase`: of an ASCII text, the text with its letters in lower case; of any
/// other, a result that depends on the text alone.
pub assume_specification[ str::to_lowercase ](s: &str) -> (r: String)
    ensures
        r@ == lowercased(s@),
        !is_ascii_text(s@) ==> r@ == wide_lower(s@),
;

pub open spec fn is_ascii_upper(c: char) -> bool {
    'A' <= c <= 'Z'
}

pub open spec fn is_ascii_lower(c: char) -> bool {
    'a' <= c <= 'z'
}

pub open spec fn is_ascii_digit(c: char) -> bool {
    '0' <= c <= '9'
}

pub open spec fn is_ascii_alnum(c: char) -> bool {
    is_ascii_upper(c) || is_ascii_lower(c) || is_ascii_digit(c)
}

pub open spec fn is_ascii_hex(c: char) -> bool {
    is_ascii_digit(c) || 'a' <= c <= 'f' || 'A' <= c <= 'F'
}

/// `c` with an ASCII capital turned into the small letter.
pub open spec fn ascii_lower(c: char) -> char {
    if is_ascii_upper(c) {
        (c as u8 + 32) as char
    } else {
        c
    }
}

/// `c` with an ASCII small letter turned into the capital.
pub open spec fn ascii_upper(c: char) -> char {
    if is_ascii_lower(c) {
        (c as u8 - 32) as char
    } else {
        c
    }
}

pub fn to_ascii_lower(c: char) -> (r: char)
    ensures
        r == ascii_lower(c),
{
    if 'A' <= c && c <= 'Z' {
        (c as u8 + 32) as char
    } else {
        c
    }
}

pub fn to_ascii_upper(c: char) -> (r: char)
    ensures
        r == ascii_upper(c),
{
    if 'a' <= c && c <= 'z' {
        (c as u8 - 32) as char
    } else {
        c
    }
}

/// The sets of characters that the library trims, splits and searches by.
#[derive(Clone, Copy, PartialEq, Eq, Debug)]
pub enum CharClass {
    /// White space.
    Space,
    /// One character.
    Is(char),
    /// Anything that is neither a letter nor a number.
    NotAlnum,
    /// The marks that open a list item.
    Bullet,
    /// The marks that end a reference inside a URL.
    RefEnd,
    /// A path separator of either kind.
    Separator,
}

pub open spec fn in_class(k: CharClass, c: char) -> bool {
    match k {
        CharClass::Space => char_is_space(c),
        CharClass::Is(d) => c == d,
        CharClass::NotAlnum => !char_is_alnum(c),
        CharClass::Bullet => c == '-' || c == '*' || c == '•',
        CharClass::RefEnd => c == '#' || c == '?',
        CharClass::Separator => c == '/' || c == '\\',
    }
}

pub fn class_has(k: CharClass, c: char) -> (r: bool)
    ensures
        r == in_class(k, c),
{
    match k {
        CharClass::Space => c.is_whitespace(),
        CharClass::Is(d) => c == d,
        CharClass::NotAlnum => !c.is_alphanumeric(),
        CharClass::Bullet => c == '-' || c == '*' || c == '•',
        CharClass::RefEnd => c == '#' || c == '?',
        CharClass::Separator => c == '/' || c == '\\',
    }
}

// ---------------------------------------------------------------------------
// Between strings and characters
// ---------------------------------------------------------------------------

/// The characters of a text.
pub fn chars_of(s: &str) -> (v: Vec<char>)
    ensures
        v@ == s@,
{
    let mut v: Vec<char> = Vec::new();
    for c in iter: s.chars()
        invariant
            iter.seq() == s@,
            v@ == s@.take(iter.index() as int),
    {
        v.push(c);
    }
    v
}

/// The text that the characters spell.
pub fn string_of(cs: &[char]) -> (s: String)
    ensures
        s@ == cs@,
{
    let mut s = String::new();
    let mut i: usize = 0;
    while i < cs.len()
        invariant
            i <= cs@.len(),
            s@ == cs@.take(i as int),
        decreases cs.len() - i,
    {
        s.push(cs[i]);
        i = i + 1;
        assert(cs@.take(i as int) =~= cs@.take(i - 1).push(cs@[i - 1]));
    }
    assert(cs@.take(cs@.len() as int) =~= cs@);
    s
}

/// Whether two texts hold the same characters.
pub fn same_text(a: &str, b: &str) -> (r: bool)
    ensures
        r == (a@ == b@),
{
    a.to_owned() == b.to_owned()
}

// ---------------------------------------------------------------------------
// Searching
// ---------------------------------------------------------------------------

/// Where the first character of a class stands, or the length where none does.
pub open spec fn find(s: Seq<char>, k: CharClass) -> int
    decreases s.len(),
{
    if s.len() == 0 || in_class(k, s[0]) {
        0
    } else {
        1 + find(s.drop_first(), k)
    }
}

/// `find` is the one index with nothing of the class before it and, short of the
/// end, something of the class at it.
pub proof fn lemma_find(s: Seq<char>, k: CharClass, i: int)
    requires
        0 <= i <= s.len(),
        forall|j: int| 0 <= j < i ==> !in_class(k, #[trigger] s[j]),
        i < s.len() ==> in_class(k, s[i]),
    ensures
        find(s, k) == i,
    decreases i,
{
    if i > 0 {
        let t = s.drop_first();
        assert forall|j: int| 0 <= j < i - 1 implies !in_class(k, #[trigger] t[j]) by {
            assert(t[j] == s[j + 1]);
        }
        assert(!in_class(k, s[0]));
        lemma_find(t, k, i - 1);
    }
}

pub proof fn lemma_find_bounds(s: Seq<char>, k: CharClass)
    ensures
        0 <= find(s, k) <= s.len(),
        find(s, k) < s.len() ==> in_class(k, s[find(s, k)]),
        forall|j: int| 0 <= j < find(s, k) ==> !in_class(k, #[trigger] s[j]),
    decreases s.len(),
{
    if s.len() == 0 || in_class(k, s[0]) {
    } else {
        let t = s.drop_first();
        lemma_find_bounds(t, k);
        assert forall|j: int| 0 <= j < find(s, k) implies !in_class(k, #[trigger] s[j]) by {
            if j > 0 {
                assert(s[j] == t[j - 1]);
            }
        }
    }
}

pub fn find_class(s: &[char], k: CharClass) -> (i: usize)
    ensures
        i == find(s@, k),
        i <= s@.len(),
        i < s@.len() ==> in_class(k, s@[i as int]),
        forall|j: int| 0 <= j < i ==> !in_class(k, #[trigger] s@[j]),
{
    let mut i: usize = 0;
    while i < s.len() && !class_has(k, s[i])
        invariant
            i <= s@.len(),
            forall|j: int| 0 <= j < i ==> !in_class(k, #[trigger] s@[j]),
        decreases s.len() - i,
    {
        i = i + 1;
    }
    proof {
        lemma_find(s@, k, i as int);
    }
    i
}

/// Where the last character of a class stands; -1 where none does.
pub open spec fn rfind(s: Seq<char>, k: CharClass) -> int
    decreases s.len(),
{
    if s.len() == 0 {
        -1
    } else if in_class(k, s.last()) {
        s.len() - 1
    } else {
        rfind(s.drop_last(), k)
    }
}

pub proof fn lemma_rfind(s: Seq<char>, k: CharClass, i: int)
    requires
        -1 <= i < s.len(),
        forall|j: int| i < j < s.len() ==> !in_class(k, #[trigger] s[j]),
        i >= 0 ==> in_class(k, s[i]),
    ensures
        rfind(s, k) == i,
    decreases s.len(),
{
    if s.len() > 0 && i < s.len() - 1 {
        assert(!in_class(k, s[s.len() - 1]));
        let t = s.drop_last();
        assert forall|j: int| i < j < t.len() implies !in_class(k, #[trigger] t[j]) by {
            assert(t[j] == s[j]);
        }
        lemma_rfind(t, k, i);
    }
}

pub fn rfind_class(s: &[char], k: CharClass) -> (r: Option<usize>)
    ensures
        match r {
            Some(i) => i < s@.len() && rfind(s@, k) == i && in_class(k, s@[i as int])
                && forall|j: int| i < j < s@.len() ==> !in_class(k, #[trigger] s@[j]),
            None => rfind(s@, k) == -1 && forall|j: int|
                0 <= j < s@.len() ==> !in_class(k, #[trigger] s@[j]),
        },
{
    let mut i: usize = s.len();
    while i > 0
        invariant
            i <= s@.len(),
            forall|j: int| i <= j < s@.len() ==> !in_class(k, #[trigger] s@[j]),
        decreases i,
    {
        if class_has(k, s[i - 1]) {
            proof {
                lemma_rfind(s@, k, i - 1);
            }
            return Some(i - 1);
        }
        i = i - 1;
    }
    proof {
        lemma_rfind(s@, k, -1);
    }
    None
}

/// `s` has `pat` at index `i`.
pub open spec fn occurs_at(s: Seq<char>, pat: Seq<char>, i: int) -> bool {
    0 <= i && i + pat.len() <= s.len() && s.subrange(i, i + pat.len()) == pat
}

/// `s` has `pat` somewhere.
pub open spec fn has_text(s: Seq<char>, pat: Seq<char>) -> bool {
    exists|i: int| #[trigger] occurs_at(s, pat, i)
}

pub open spec fn starts_with(s: Seq<char>, pat: Seq<char>) -> bool {
    occurs_at(s, pat, 0)
}

pub open spec fn ends_with(s: Seq<char>, pat: Seq<char>) -> bool {
    occurs_at(s, pat, s.len() - pat.len())
}

/// Where `pat` first occurs in `s`; -1 where it does not.
pub open spec fn find_text(s: Seq<char>, pat: Seq<char>) -> int
    decreases s.len(),
{
    if starts_with(s, pat) {
        0
    } else if s.len() == 0 {
        -1
    } else {
        let r = find_text(s.drop_first(), pat);
        if r < 0 {
            -1
        } else {
            r + 1
        }
    }
}

pub proof fn lemma_find_text(s: Seq<char>, pat: Seq<char>, i: int)
    requires
        occurs_at(s, pat, i),
        forall|j: int| 0 <= j < i ==> !#[trigger] occurs_at(s, pat, j),
    ensures
        find_text(s, pat) == i,
    decreases i,
{
    if i > 0 {
        let t = s.drop_first();
        assert(!occurs_at(s, pat, 0));
        assert(t.subrange(i - 1, i - 1 + pat.len()) =~= s.subrange(i, i + pat.len()));
        assert forall|j: int| 0 <= j < i - 1 implies !#[trigger] occurs_at(t, pat, j) by {
            assert(t.subrange(j, j + pat.len()) =~= s.subrange(j + 1, j + 1 + pat.len()));
            assert(!occurs_at(s, pat, j + 1));
        }
        lemma_find_text(t, pat, i - 1);
    }
}

pub proof fn lemma_find_text_none(s: Seq<char>, pat: Seq<char>)
    requires
        forall|j: int| 0 <= j <= s.len() ==> !#[trigger] occurs_at(s, pat, j),
    ensures
        find_text(s, pat) == -1,
    decreases s.len(),
{
    assert(!occurs_at(s, pat, 0));
    if s.len() > 0 {
        let t = s.drop_first();
        assert forall|j: int| 0 <= j <= t.len() implies !#[trigger] occurs_at(t, pat, j) by {
            if occurs_at(t, pat, j) {
                assert(t.subrange(j, j + pat.len()) =~= s.subrange(j + 1, j + 1 + pat.len()));
                assert(occurs_at(s, pat, j + 1));
            }
        }
        lemma_find_text_none(t, pat);
    }
}

/// Whether `pat` stands at index `i` of `s`.
pub fn text_at(s: &[char], pat: &[char], i: usize) -> (r: bool)
    ensures
        r == occurs_at(s@, pat@, i as int),
{
    if pat.len() > s.len() || i > s.len() - pat.len() {
        return false;
    }
    let mut j: usize = 0;
    while j < pat.len()
        invariant
            j <= pat@.len(),
            i + pat@.len() <= s.len(),
            forall|m: int| 0 <= m < j ==> s@[i + m] == #[trigger] pat@[m],
        decreases pat.len() - j,
    {
        if s[i + j] != pat[j] {
            assert(s@.subrange(i as int, i + pat@.len())[j as int] != pat@[j as int]);
            return false;
        }
        j = j + 1;
    }
    assert(s@.subrange(i as int, i + pat@.len()) =~= pat@);
    true
}

/// The first occurrence of `pat` in `s`.
pub fn search(s: &[char], pat: &[char]) -> (r: Option<usize>)
    ensures
        match r {
            Some(i) => occurs_at(s@, pat@, i as int) && find_text(s@, pat@) == i && forall|j: int|
                0 <= j < i ==> !#[trigger] occurs_at(s@, pat@, j),
            None => find_text(s@, pat@) == -1 && !has_text(s@, pat@),
        },
{
    let mut i: usize = 0;
    while i < s.len()
        invariant
            i <= s@.len(),
            forall|j: int| 0 <= j < i ==> !#[trigger] occurs_at(s@, pat@, j),
        decreases s.len() - i,
    {
        if text_at(s, pat, i) {
            proof {
                lemma_find_text(s@, pat@, i as int);
            }
            return Some(i);
        }
        i = i + 1;
    }
    if text_at(s, pat, i) {
        proof {
            lemma_find_text(s@, pat@, i as int);
        }
        return Some(i);
    }
    proof {
        lemma_find_text_none(s@, pat@);
    }
    None
}

/// Whether `pat` occurs in `s`.
pub fn contains_text(s: &str, pat: &str) -> (r: bool)
    ensures
        r == has_text(s@, pat@),
{
    let cs = chars_of(s);
    let ps = chars_of(pat);
    match search(cs.as_slice(), ps.as_slice()) {
        Some(_) => true,
        None => false,
    }
}

pub fn starts_with_text(s: &str, pat: &str) -> (r: bool)
    ensures
        r == starts_with(s@, pat@),
{
    let cs = chars_of(s);
    let ps = chars_of(pat);
    text_at(cs.as_slice(), ps.as_slice(), 0)
}

pub fn ends_with_text(s: &str, pat: &str) -> (r: bool)
    ensures
        r == ends_with(s@, pat@),
{
    let cs = chars_of(s);
    let ps = chars_of(pat);
    if ps.len() > cs.len() {
        false
    } else {
        text_at(cs.as_slice(), ps.as_slice(), cs.len() - ps.len())
    }
}

/// Whether every character is an ASCII hexadecimal digit.
pub open spec fn all_hex(s: Seq<char>) -> bool {
    forall|i: int| 0 <= i < s.len() ==> is_ascii_hex(#[trigger] s[i])
}

pub fn is_all_hex(s: &[char]) -> (r: bool)
    ensures
        r == all_hex(s@),
{
    let mut i: usize = 0;
    while i < s.len()
        invariant
            i <= s@.len(),
            forall|j: int| 0 <= j < i ==> is_ascii_hex(#[trigger] s@[j]),
        decreases s.len() - i,
    {
        let c = s[i];
        if !(('0' <= c && c <= '9') || ('a' <= c && c <= 'f') || ('A' <= c && c <= 'F')) {
            assert(!is_ascii_hex(s@[i as int]));
            return false;
        }
        i = i + 1;
    }
    true
}

// ---------------------------------------------------------------------------
// Trimming
// ---------------------------------------------------------------------------

/// `s` without the characters of a class that it begins with.
pub open spec fn trim_start(s: Seq<char>, k: CharClass) -> Seq<char>
    decreases s.len(),
{
    if s.len() > 0 && in_class(k, s[0]) {
        trim_start(s.drop_first(), k)
    } else {
        s
    }
}

/// `s` without the characters of a class that it ends with.
pub open spec fn trim_end(s: Seq<char>, k: CharClass) -> Seq<char>
    decreases s.len(),
{
    if s.len() > 0 && in_class(k, s.last()) {
        trim_end(s.drop_last(), k)
    } else {
        s
    }
}

/// `s` without the characters of a class at either end.
pub open spec fn trim(s: Seq<char>, k: CharClass) -> Seq<char> {
    trim_end(trim_start(s, k), k)
}

pub proof fn lemma_trim_start(s: Seq<char>, k: CharClass, i: int)
    requires
        0 <= i <= s.len(),
        forall|j: int| 0 <= j < i ==> in_class(k, #[trigger] s[j]),
        i < s.len() ==> !in_class(k, s[i]),
    ensures
        trim_start(s, k) == s.skip(i),
    decreases i,
{
    if i > 0 {
        let t = s.drop_first();
        assert(in_class(k, s[0]));
        assert forall|j: int| 0 <= j < i - 1 implies in_class(k, #[trigger] t[j]) by {
            assert(t[j] == s[j + 1]);
        }
        lemma_trim_start(t, k, i - 1);
        assert(t.skip(i - 1) =~= s.skip(i));
    } else {
        assert(s.skip(0) =~= s);
    }
}

pub proof fn lemma_trim_end(s: Seq<char>, k: CharClass, i: int)
    requires
        0 <= i <= s.len(),
        forall|j: int| i <= j < s.len() ==> in_class(k, #[trigger] s[j]),
        i > 0 ==> !in_class(k, s[i - 1]),
    ensures
        trim_end(s, k) == s.take(i),
    decreases s.len(),
{
    if i < s.len() {
        let t = s.drop_last();
        assert(in_class(k, s[s.len() - 1]));
        assert forall|j: int| i <= j < t.len() implies in_class(k, #[trigger] t[j]) by {
            assert(t[j] == s[j]);
        }
        lemma_trim_end(t, k, i);
        assert(t.take(i) =~= s.take(i));
    } else {
        assert(s.take(i) =~= s);
    }
}

pub fn trim_start_class(s: &[char], k: CharClass) -> (r: &[char])
    ensures
        r@ == trim_start(s@, k),
        r@.len() <= s@.len(),
{
    let mut i: usize = 0;
    while i < s.len() && class_has(k, s[i])
        invariant
            i <= s@.len(),
            forall|j: int| 0 <= j < i ==> in_class(k, #[trigger] s@[j]),
        decreases s.len() - i,
    {
        i = i + 1;
    }
    proof {
        lemma_trim_start(s@, k, i as int);
        assert(s@.skip(i as int) =~= s@.subrange(i as int, s@.len() as int));
    }
    slice_subrange(s, i, s.len())
}

pub fn trim_end_class(s: &[char], k: CharClass) -> (r: &[char])
    ensures
        r@ == trim_end(s@, k),
        r@.len() <= s@.len(),
{
    let mut i: usize = s.len();
    while i > 0 && class_has(k, s[i - 1])
        invariant
            i <= s@.len(),
            forall|j: int| i <= j < s@.len() ==> in_class(k, #[trigger] s@[j]),
        decreases i,
    {
        i = i - 1;
    }
    proof {
        lemma_trim_end(s@, k, i as int);
        assert(s@.take(i as int) =~= s@.subrange(0, i as int));
    }
    slice_subrange(s, 0, i)
}

pub fn trim_class(s: &[char], k: CharClass) -> (r: &[char])
    ensures
        r@ == trim(s@, k),
        r@.len() <= s@.len(),
{
    trim_end_class(trim_start_class(s, k), k)
}

/// A text with the characters of a class taken off its end.
pub fn trim_end_text(s: &str, k: CharClass) -> (r: String)
    ensures
        r@ == trim_end(s@, k),
{
    let cs = chars_of(s);
    string_of(trim_end_class(cs.as_slice(), k))
}

/// A text with the white space at both ends taken off.
pub fn trim_text(s: &str) -> (r: String)
    ensures
        r@ == trim(s@, CharClass::Space),
{
    let cs = chars_of(s);
    string_of(trim_class(cs.as_slice(), CharClass::Space))
}

/// `s` without `pat` in front, where it stands there.
pub open spec fn without_prefix(s: Seq<char>, pat: Seq<char>) -> Seq<char> {
    if starts_with(s, pat) {
        s.skip(pat.len() as int)
    } else {
        s
    }
}

/// `s` without `pat` at its end, where it stands there.
pub open spec fn without_suffix(s: Seq<char>, pat: Seq<char>) -> Seq<char> {
    if ends_with(s, pat) {
        s.take(s.len() - pat.len())
    } else {
        s
    }
}

/// What follows `pat` where `s` begins with it.
pub fn strip_front<'a>(s: &'a [char], pat: &[char]) -> (r: Option<&'a [char]>)
    ensures
        match r {
            Some(t) => starts_with(s@, pat@) && t@ == s@.skip(pat@.len() as int),
            None => !starts_with(s@, pat@),
        },
{
    if text_at(s, pat, 0) {
        assert(s@.skip(pat@.len() as int) =~= s@.subrange(pat@.len() as int, s@.len() as int));
        Some(slice_subrange(s, pat.len(), s.len()))
    } else {
        None
    }
}

/// `s` without `pat` at its end.
pub fn drop_suffix<'a>(s: &'a [char], pat: &[char]) -> (r: &'a [char])
    ensures
        r@ == without_suffix(s@, pat@),
        r@.len() <= s@.len(),
{
    if pat.len() <= s.len() && text_at(s, pat, s.len() - pat.len()) {
        assert(s@.take(s@.len() - pat@.len()) =~= s@.subrange(0, s@.len() - pat@.len()));
        slice_subrange(s, 0, s.len() - pat.len())
    } else {
        s
    }
}

/// Only the letters from `A` to `Z` become small, and only those from `a` to `z` become
/// capitals; each becomes the same letter of the other kind.
pub proof fn letters_keep_their_place(c: char)
    ensures
        'A' <= c <= 'Z' ==> ascii_lower(c) as u32 == c as u32 + 32,
        !('A' <= c <= 'Z') ==> ascii_lower(c) == c,
        'a' <= c <= 'z' ==> ascii_upper(c) as u32 == c as u32 - 32,
        !('a' <= c <= 'z') ==> ascii_upper(c) == c,
{
}

/// An ending falls off where it is there, and a text without it stays; so with a beginning.
pub proof fn ends_fall_off(s: Seq<char>, pat: Seq<char>)
    ensures
        without_suffix(s + pat, pat) == s,
        without_prefix(pat + s, pat) == s,
        !ends_with(s, pat) ==> without_suffix(s, pat) == s,
        !starts_with(s, pat) ==> without_prefix(s, pat) == s,
{
    let t = s + pat;
    assert(t.subrange(t.len() - pat.len(), t.len() as int) =~= pat);
    assert(t.take(s.len() as int) =~= s);
    let u = pat + s;
    assert(u.subrange(0, pat.len() as int) =~= pat);
    assert(u.skip(pat.len() as int) =~= s);
}

/// What is trimmed off a text is of the class, at both ends, and all of that is trimmed off.
pub proof fn only_the_ends_are_trimmed(a: Seq<char>, s: Seq<char>, b: Seq<char>, k: CharClass)
    requires
        forall|i: int| 0 <= i < a.len() ==> in_class(k, #[trigger] a[i]),
        forall|i: int| 0 <= i < b.len() ==> in_class(k, #[trigger] b[i]),
        s.len() > 0,
        !in_class(k, s[0]),
        !in_class(k, s.last()),
    ensures
        trim(a + s + b, k) == s,
        trim_start(a + s + b, k) == s + b,
        trim_end(a + s + b, k) == a + s,
{
    let t = a + s + b;
    let n = a.len() as int;
    assert forall|j: int| 0 <= j < n implies in_class(k, #[trigger] t[j]) by {
        assert(t[j] == a[j]);
    }
    assert(t[n] == s[0]);
    lemma_trim_start(t, k, n);
    assert(t.skip(n) =~= s + b);
    let u = s + b;
    let m = s.len() as int;
    assert forall|j: int| m <= j < u.len() implies in_class(k, #[trigger] u[j]) by {
        assert(u[j] == b[j - m]);
    }
    assert(u[m - 1] == s.last());
    lemma_trim_end(u, k, m);
    assert(u.take(m) =~= s);
    assert forall|j: int| n + m <= j < t.len() implies in_class(k, #[trigger] t[j]) by {
        assert(t[j] == b[j - n - m]);
    }
    assert(t[n + m - 1] == s.last());
    lemma_trim_end(t, k, n + m);
    assert(t.take(n + m) =~= a + s);
}

/// What the classes of characters hold: ASCII letters and digits are alphanumeric and nothing
/// else of ASCII is; blanks, tabs and line breaks are white space.
pub proof fn classes_hold_their_characters(c: char, d: char)
    ensures
        'a' <= c <= 'z' || 'A' <= c <= 'Z' || '0' <= c <= '9' ==> !in_class(CharClass::NotAlnum, c)
            && !in_class(CharClass::Space, c),
        (c as u32) < 0x80 && !('a' <= c <= 'z' || 'A' <= c <= 'Z' || '0' <= c <= '9') ==> in_class(
            CharClass::NotAlnum,
            c,
        ),
        c == ' ' || c == '\t' || c == '\n' || c == '\r' ==> in_class(CharClass::Space, c),
        '!' <= c <= '~' ==> !in_class(CharClass::Space, c),
        in_class(CharClass::Is(d), c) <==> c == d,
        in_class(CharClass::Separator, c) <==> c == '/' || c == '\\',
        in_class(CharClass::RefEnd, c) <==> c == '?' || c == '#',
        in_class(CharClass::Bullet, c) <==> c == '*' || c == '-' || c == '•',
{
}

} // verus!
