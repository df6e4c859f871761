//! The order of versions.

use vstd::prelude::*;

use crate::pieces;
use crate::text;
use crate::text::chars_of;

verus! {

/// How many digits a text begins with.
pub open spec fn digit_run(s: Seq<char>) -> int
    decreases s.len(),
{
    if s.len() == 0 || !text::is_ascii_digit(s[0]) {
        0
    } else {
        1 + digit_run(s.drop_first())
    }
}

/// Digits without the zeros at their start.
pub open spec fn significant(d: Seq<char>) -> Seq<char>
    decreases d.len(),
{
    if d.len() > 0 && d[0] == '0' {
        significant(d.drop_first())
    } else {
        d
    }
}

pub open spec fn codes(s: Seq<char>) -> Seq<int> {
    s.map_values(|c: char| (c as u32) as int)
}

/// On which side of the numbers a character stands.
pub open spec fn side(c: char) -> int {
    if '0' > c {
        0
    } else {
        2
    }
}

/// What a version is ordered by. A number in it counts as a number: by how many digits it
/// has, and then by its digits. Any other character counts by itself, and stands before or
/// behind all numbers as it does before or behind the digits.
pub open spec fn version_key(s: Seq<char>) -> Seq<int>
    decreases s.len(),
{
    if s.len() == 0 {
        seq![]
    } else if text::is_ascii_digit(s[0]) {
        proof {
            lemma_digit_run(s);
        }
        let d = significant(s.take(digit_run(s)));
        seq![1, d.len() as int] + codes(d) + version_key(s.skip(digit_run(s)))
    } else {
        seq![side(s[0]), (s[0] as u32) as int] + version_key(s.skip(1))
    }
}

/// One sequence stands before another, like words in a dictionary.
pub open spec fn before(a: Seq<int>, b: Seq<int>) -> bool
    decreases a.len(),
{
    if b.len() == 0 {
        false
    } else if a.len() == 0 {
        true
    } else if a[0] != b[0] {
        a[0] < b[0]
    } else {
        before(a.drop_first(), b.drop_first())
    }
}

/// A version is earlier than another: `1.9` than `1.10`, and `1.2` than `1.2.1`.
pub open spec fn earlier(a: Seq<char>, b: Seq<char>) -> bool {
    before(version_key(a), version_key(b))
}

pub proof fn lemma_digit_run(s: Seq<char>)
    ensures
        0 <= digit_run(s) <= s.len(),
        s.len() > 0 && text::is_ascii_digit(s[0]) ==> digit_run(s) > 0,
    decreases s.len(),
{
    if s.len() > 0 && text::is_ascii_digit(s[0]) {
        lemma_digit_run(s.drop_first());
    }
}

proof fn lemma_before(a: Seq<int>, b: Seq<int>, c: Seq<int>)
    requires
        !before(a, b),
        !before(b, c),
    ensures
        !before(a, c),
    decreases a.len(),
{
    if a.len() > 0 && b.len() > 0 && c.len() > 0 && a[0] == b[0] && b[0] == c[0] {
        lemma_before(a.drop_first(), b.drop_first(), c.drop_first());
    }
}

/// A version that is not earlier than one that is not earlier than a third is not earlier
/// than the third.
pub proof fn versions_are_ordered(a: Seq<char>, b: Seq<char>, c: Seq<char>)
    requires
        !earlier(a, b),
        !earlier(b, c),
    ensures
        !earlier(a, c),
{
    lemma_before(version_key(a), version_key(b), version_key(c));
}

proof fn lemma_before_once(a: Seq<int>, b: Seq<int>)
    ensures
        !(before(a, b) && before(b, a)),
    decreases a.len(),
{
    if a.len() > 0 && b.len() > 0 && a[0] == b[0] {
        lemma_before_once(a.drop_first(), b.drop_first());
    }
}

pub proof fn lemma_not_both_earlier(a: Seq<char>, b: Seq<char>)
    ensures
        !(earlier(a, b) && earlier(b, a)),
{
    lemma_before_once(version_key(a), version_key(b));
}

pub proof fn lemma_not_earlier_than_itself(a: Seq<char>)
    ensures
        !earlier(a, a),
{
    lemma_before_once(version_key(a), version_key(a));
}

spec fn ints(v: Seq<u64>) -> Seq<int> {
    v.map_values(|x: u64| x as int)
}

fn is_digit(c: char) -> (r: bool)
    ensures
        r == text::is_ascii_digit(c),
{
    '0' <= c && c <= '9'
}

/// Where the digits end that begin at a place.
fn run_end(cs: &Vec<char>, i: usize) -> (j: usize)
    requires
        i <= cs@.len(),
    ensures
        i <= j <= cs@.len(),
        j - i == digit_run(cs@.skip(i as int)),
{
    let mut j: usize = i;
    while j < cs.len() && is_digit(cs[j])
        invariant
            i <= j <= cs@.len(),
            digit_run(cs@.skip(i as int)) == (j - i) + digit_run(cs@.skip(j as int)),
        decreases cs.len() - j,
    {
        assert(cs@.skip(j as int).drop_first() =~= cs@.skip(j + 1));
        j = j + 1;
    }
    j
}

fn push_number(cs: &Vec<char>, i: usize, j: usize, r: &mut Vec<u64>)
    requires
        i <= j <= cs@.len(),
    ensures
        ({
            let d = significant(cs@.subrange(i as int, j as int));
            ints(final(r)@) == ints(old(r)@) + (seq![1, d.len() as int] + codes(d))
        }),
{
    let ghost all = cs@.subrange(i as int, j as int);
    let mut z: usize = i;
    while z < j && cs[z] == '0'
        invariant
            i <= z <= j <= cs@.len(),
            significant(all) == significant(cs@.subrange(z as int, j as int)),
        decreases j - z,
    {
        assert(cs@.subrange(z as int, j as int).drop_first() =~= cs@.subrange(z + 1, j as int));
        z = z + 1;
    }
    let ghost d = cs@.subrange(z as int, j as int);
    let ghost start = ints(r@);
    assert(significant(all) == d);
    r.push(1);
    r.push((j - z) as u64);
    let ghost head = start + seq![1, d.len() as int];
    let mut k: usize = z;
    assert(ints(r@) =~= head + codes(d.take(0)));
    while k < j
        invariant
            z <= k <= j <= cs@.len(),
            d == cs@.subrange(z as int, j as int),
            ints(r@) == head + codes(d.take(k - z)),
        decreases j - k,
    {
        let ghost was = ints(r@);
        r.push((cs[k] as u32) as u64);
        proof {
            assert(ints(r@) =~= was.push((cs@[k as int] as u32) as int));
            assert(d.take(k + 1 - z) =~= d.take(k - z).push(cs@[k as int]));
            assert(ints(r@) =~= head + codes(d.take(k + 1 - z)));
        }
        k = k + 1;
    }
    assert(d.take(j - z) =~= d);
    assert(ints(r@) =~= start + (seq![1, d.len() as int] + codes(d)));
}

fn key_of(version: &str) -> (r: Vec<u64>)
    ensures
        ints(r@) == version_key(version@),
{
    let cs = chars_of(version);
    let mut r: Vec<u64> = Vec::new();
    let mut i: usize = 0;
    proof {
        assert(cs@.skip(0) =~= cs@);
        assert(ints(r@) + version_key(cs@) =~= version_key(cs@));
    }
    while i < cs.len()
        invariant
            i <= cs@.len(),
            ints(r@) + version_key(cs@.skip(i as int)) == version_key(cs@),
        decreases cs.len() - i,
    {
        let ghost t = cs@.skip(i as int);
        let ghost was = ints(r@);
        assert(t[0] == cs@[i as int]);
        if is_digit(cs[i]) {
            let j = run_end(&cs, i);
            push_number(&cs, i, j, &mut r);
            proof {
                lemma_digit_run(t);
                assert(t.take(digit_run(t)) =~= cs@.subrange(i as int, j as int));
                assert(t.skip(digit_run(t)) =~= cs@.skip(j as int));
                assert(ints(r@) + version_key(cs@.skip(j as int)) =~= was + version_key(t));
            }
            i = j;
        } else {
            let on: u64 = if '0' > cs[i] {
                0
            } else {
                2
            };
            r.push(on);
            r.push((cs[i] as u32) as u64);
            proof {
                assert(t.skip(1) =~= cs@.skip(i + 1));
                assert(ints(r@) + version_key(cs@.skip(i + 1)) =~= was + version_key(t));
            }
            i = i + 1;
        }
    }
    assert(ints(r@) + version_key(cs@.skip(i as int)) =~= ints(r@));
    r
}

/// Whether a version is earlier than another.
pub fn is_earlier(a: &str, b: &str) -> (r: bool)
    ensures
        r == earlier(a@, b@),
{
    let x = key_of(a);
    let y = key_of(b);
    let ghost kx = ints(x@);
    let ghost ky = ints(y@);
    let mut i: usize = 0;
    proof {
        assert(kx.skip(0) =~= kx);
        assert(ky.skip(0) =~= ky);
    }
    while i < x.len() && i < y.len() && x[i] == y[i]
        invariant
            i <= x@.len(),
            i <= y@.len(),
            kx == ints(x@),
            ky == ints(y@),
            before(kx, ky) == before(kx.skip(i as int), ky.skip(i as int)),
        decreases x.len() - i,
    {
        proof {
            assert(kx.skip(i as int).drop_first() =~= kx.skip(i + 1));
            assert(ky.skip(i as int).drop_first() =~= ky.skip(i + 1));
        }
        i = i + 1;
    }
    if i >= y.len() {
        false
    } else if i >= x.len() {
        true
    } else {
        x[i] < y[i]
    }
}

proof fn lemma_run(d: Seq<char>, s: Seq<char>)
    requires
        forall|i: int| 0 <= i < d.len() ==> text::is_ascii_digit(#[trigger] d[i]),
        s.len() > 0 ==> !text::is_ascii_digit(s[0]),
    ensures
        digit_run(d + s) == d.len(),
    decreases d.len(),
{
    if d.len() > 0 {
        assert((d + s)[0] == d[0]);
        let t = d.drop_first();
        assert((d + s).drop_first() =~= t + s);
        assert forall|i: int| 0 <= i < t.len() implies text::is_ascii_digit(#[trigger] t[i]) by {
            assert(t[i] == d[i + 1]);
        }
        lemma_run(t, s);
    } else {
        assert(d + s =~= s);
    }
}

proof fn lemma_run_is_digits(s: Seq<char>)
    ensures
        0 <= digit_run(s) <= s.len(),
        forall|i: int| 0 <= i < digit_run(s) ==> text::is_ascii_digit(#[trigger] s[i]),
        digit_run(s) < s.len() ==> !text::is_ascii_digit(s[digit_run(s)]),
    decreases s.len(),
{
    if s.len() > 0 && text::is_ascii_digit(s[0]) {
        let t = s.drop_first();
        lemma_run_is_digits(t);
        assert forall|i: int| 0 <= i < digit_run(s) implies text::is_ascii_digit(#[trigger] s[i]) by {
            if i > 0 {
                assert(s[i] == t[i - 1]);
            }
        }
    }
}

/// Two versions stand apart where no number of the one goes on in the other.
pub open spec fn apart(p: Seq<char>, s: Seq<char>) -> bool {
    p.len() == 0 || s.len() == 0 || !('0' <= p.last() <= '9') || !('0' <= s[0] <= '9')
}

proof fn lemma_key_of_both(p: Seq<char>, s: Seq<char>)
    requires
        apart(p, s),
    ensures
        version_key(p + s) == version_key(p) + version_key(s),
    decreases p.len(),
{
    if p.len() == 0 {
        assert(p + s =~= s);
        assert(version_key(p) + version_key(s) =~= version_key(s));
    } else if text::is_ascii_digit(p[0]) {
        lemma_run_is_digits(p);
        lemma_digit_run(p);
        let n = digit_run(p);
        let d = p.take(n);
        let rest = p.skip(n);
        assert(p =~= d + rest);
        assert(p + s =~= d + (rest + s));
        assert forall|i: int| 0 <= i < d.len() implies text::is_ascii_digit(#[trigger] d[i]) by {
            assert(d[i] == p[i]);
        }
        if rest.len() == 0 {
            assert(p.last() == p[n - 1]);
        }
        assert((rest + s).len() > 0 ==> !text::is_ascii_digit((rest + s)[0]));
        lemma_run(d, rest + s);
        assert((p + s).take(n) =~= d);
        assert((p + s).skip(n) =~= rest + s);
        if rest.len() > 0 {
            assert(rest.last() == p.last());
        }
        lemma_key_of_both(rest, s);
        let head = seq![1, significant(d).len() as int] + codes(significant(d));
        assert((p + s)[0] == p[0]);
        assert(version_key(p) =~= head + version_key(rest));
        assert(version_key(p + s) =~= head + version_key(rest + s));
        assert(head + version_key(rest) + version_key(s) =~= head + (version_key(rest)
            + version_key(s)));
    } else {
        let rest = p.skip(1);
        assert((p + s)[0] == p[0]);
        assert((p + s).skip(1) =~= rest + s);
        if rest.len() > 0 {
            assert(rest.last() == p.last());
        }
        lemma_key_of_both(rest, s);
        let head = seq![side(p[0]), (p[0] as u32) as int];
        assert(version_key(p) =~= head + version_key(rest));
        assert(version_key(p + s) =~= head + version_key(rest + s));
        assert(head + version_key(rest) + version_key(s) =~= head + (version_key(rest)
            + version_key(s)));
    }
}

proof fn lemma_before_behind(x: Seq<int>, a: Seq<int>, b: Seq<int>)
    ensures
        before(x + a, x + b) == before(a, b),
    decreases x.len(),
{
    if x.len() == 0 {
        assert(x + a =~= a);
        assert(x + b =~= b);
    } else {
        assert((x + a)[0] == x[0] && (x + b)[0] == x[0]);
        assert((x + a).drop_first() =~= x.drop_first() + a);
        assert((x + b).drop_first() =~= x.drop_first() + b);
        lemma_before_behind(x.drop_first(), a, b);
    }
}

/// A version that goes on behind another is later than it: `1.2.1` than `1.2`.
pub proof fn longer_versions_are_later(p: Seq<char>, s: Seq<char>)
    requires
        s.len() > 0,
        apart(p, s),
    ensures
        earlier(p, p + s),
        !earlier(p + s, p),
{
    lemma_key_of_both(p, s);
    lemma_digit_run(s);
    let k = version_key(p);
    let none = Seq::<int>::empty();
    assert(k + none =~= k);
    assert(version_key(s).len() > 0);
    lemma_before_behind(k, none, version_key(s));
    lemma_before_behind(k, version_key(s), none);
}

proof fn lemma_significant(n: nat)
    requires
        n > 0,
    ensures
        significant(pieces::decimal(n)) == pieces::decimal(n),
{
    pieces::written_numbers_are_read_back(n);
    pieces::written_numbers_are_read_back(0);
    if n < 10 {
        assert(pieces::decimal(n)[0] == pieces::digit(n));
    } else {
        pieces::written_numbers_are_read_back(n / 10);
        assert(pieces::decimal(n).len() > 1);
    }
}

proof fn lemma_fewer_digits(a: nat, b: nat)
    requires
        a < b,
    ensures
        pieces::decimal(a).len() <= pieces::decimal(b).len(),
        pieces::decimal(a).len() == pieces::decimal(b).len() ==> before(
            codes(pieces::decimal(a)),
            codes(pieces::decimal(b)),
        ),
        pieces::decimal(a).len() > 0,
    decreases b,
{
    let x = pieces::decimal(a);
    let y = pieces::decimal(b);
    if b < 10 {
        assert(x =~= seq![pieces::digit(a)] && y =~= seq![pieces::digit(b)]);
        assert(codes(x)[0] < codes(y)[0]);
    } else if a < 10 {
        lemma_fewer_digits(0, b / 10);
        assert(y.len() >= 2);
    } else {
        let u = pieces::decimal(a / 10);
        let v = pieces::decimal(b / 10);
        let p = seq![codes(x).last()];
        let q = seq![codes(y).last()];
        assert(codes(x) =~= codes(u) + p);
        assert(codes(y) =~= codes(v) + q);
        if a / 10 == b / 10 {
            lemma_before_behind(codes(u), p, q);
            assert(p[0] < q[0]);
        } else {
            lemma_fewer_digits(a / 10, b / 10);
            if x.len() == y.len() {
                lemma_before_goes_on(codes(u), codes(v), p, q);
            }
        }
    }
}

proof fn lemma_before_goes_on(a: Seq<int>, b: Seq<int>, x: Seq<int>, y: Seq<int>)
    requires
        before(a, b),
        a.len() == b.len(),
    ensures
        before(a + x, b + y),
    decreases a.len(),
{
    assert((a + x)[0] == a[0] && (b + y)[0] == b[0]);
    if a[0] == b[0] {
        assert((a + x).drop_first() =~= a.drop_first() + x);
        assert((b + y).drop_first() =~= b.drop_first() + y);
        lemma_before_goes_on(a.drop_first(), b.drop_first(), x, y);
    }
}

proof fn lemma_smaller_number(a: nat, b: nat, s: Seq<int>, t: Seq<int>)
    requires
        a < b,
    ensures
        before(
            seq![1, pieces::decimal(a).len() as int] + codes(pieces::decimal(a)) + s,
            seq![1, pieces::decimal(b).len() as int] + codes(pieces::decimal(b)) + t,
        ),
{
    let ca = codes(pieces::decimal(a));
    let cb = codes(pieces::decimal(b));
    let na = pieces::decimal(a).len() as int;
    let nb = pieces::decimal(b).len() as int;
    lemma_fewer_digits(a, b);
    assert(seq![1, na] + ca + s =~= seq![1, na] + (ca + s));
    assert(seq![1, nb] + cb + t =~= seq![1, nb] + (cb + t));
    if na == nb {
        lemma_before_goes_on(ca, cb, s, t);
        lemma_before_behind(seq![1, na], ca + s, cb + t);
    } else {
        assert(seq![1, na] + (ca + s) =~= seq![1int] + (seq![na] + (ca + s)));
        assert(seq![1, nb] + (cb + t) =~= seq![1int] + (seq![nb] + (cb + t)));
        assert((seq![na] + (ca + s))[0] < (seq![nb] + (cb + t))[0]);
        lemma_before_behind(seq![1int], seq![na] + (ca + s), seq![nb] + (cb + t));
    }
}

/// Numbers in a version count as numbers: `1.9.2` is earlier than `1.10.1`.
pub proof fn numbers_count_as_numbers(p: Seq<char>, a: nat, b: nat, s: Seq<char>, t: Seq<char>)
    requires
        0 < a < b,
        p.len() > 0 ==> !('0' <= p.last() <= '9'),
        s.len() > 0 ==> !('0' <= s[0] <= '9'),
        t.len() > 0 ==> !('0' <= t[0] <= '9'),
    ensures
        earlier(p + pieces::decimal(a) + s, p + pieces::decimal(b) + t),
        !earlier(p + pieces::decimal(b) + t, p + pieces::decimal(a) + s),
{
    let da = pieces::decimal(a);
    let db = pieces::decimal(b);
    pieces::written_numbers_are_read_back(a);
    pieces::written_numbers_are_read_back(b);
    lemma_number_key(a, s);
    lemma_number_key(b, t);
    assert(p + da + s =~= p + (da + s));
    assert(p + db + t =~= p + (db + t));
    lemma_key_of_both(p, da + s);
    lemma_key_of_both(p, db + t);
    let x = version_key(da + s);
    let y = version_key(db + t);
    lemma_smaller_number(a, b, version_key(s), version_key(t));
    lemma_before_behind(version_key(p), x, y);
    lemma_not_both_earlier(p + da + s, p + db + t);
}

proof fn lemma_number_key(n: nat, s: Seq<char>)
    requires
        n > 0,
        s.len() > 0 ==> !text::is_ascii_digit(s[0]),
    ensures
        version_key(pieces::decimal(n) + s) == seq![1, pieces::decimal(n).len() as int] + codes(
            pieces::decimal(n),
        ) + version_key(s),
{
    let d = pieces::decimal(n);
    pieces::written_numbers_are_read_back(n);
    lemma_significant(n);
    lemma_all_digits(n);
    lemma_run(d, s);
    assert((d + s)[0] == d[0]);
    assert((d + s).take(d.len() as int) =~= d);
    assert((d + s).skip(d.len() as int) =~= s);
}

proof fn lemma_all_digits(n: nat)
    ensures
        forall|i: int|
            0 <= i < pieces::decimal(n).len() ==> text::is_ascii_digit(
                #[trigger] pieces::decimal(n)[i],
            ),
    decreases n,
{
    if n >= 10 {
        lemma_all_digits(n / 10);
        let d = pieces::decimal(n);
        let e = pieces::decimal(n / 10);
        assert forall|i: int| 0 <= i < d.len() implies text::is_ascii_digit(#[trigger] d[i]) by {
            if i < e.len() {
                assert(d[i] == e[i]);
            }
        }
    }
}

/// Zeroes in front of a number do not matter: `1.02` is neither earlier nor later than `1.2`.
pub proof fn zeroes_in_front_do_not_matter(p: Seq<char>, d: Seq<char>, s: Seq<char>)
    requires
        p.len() > 0 ==> !('0' <= p.last() <= '9'),
        s.len() > 0 ==> !('0' <= s[0] <= '9'),
        d.len() > 0,
        forall|i: int| 0 <= i < d.len() ==> '0' <= #[trigger] d[i] <= '9',
    ensures
        !earlier(p + (seq!['0'] + d) + s, p + d + s),
        !earlier(p + d + s, p + (seq!['0'] + d) + s),
{
    let e = seq!['0'] + d;
    assert(e[0] == '0');
    assert(e.drop_first() =~= d);
    assert(significant(e) == significant(d));
    assert(p + e + s =~= p + (e + s));
    assert(p + d + s =~= p + (d + s));
    lemma_key_of_both(p, e + s);
    lemma_key_of_both(p, d + s);
    assert forall|i: int| 0 <= i < e.len() implies text::is_ascii_digit(#[trigger] e[i]) by {
        if i > 0 {
            assert(e[i] == d[i - 1]);
        }
    }
    lemma_run(e, s);
    lemma_run(d, s);
    assert((e + s).take(e.len() as int) =~= e);
    assert((d + s).take(d.len() as int) =~= d);
    assert((e + s).skip(e.len() as int) =~= s);
    assert((d + s).skip(d.len() as int) =~= s);
    assert((e + s)[0] == e[0] && (d + s)[0] == d[0]);
    assert(version_key(e + s) == version_key(d + s));
    lemma_not_earlier_than_itself(p + d + s);
    assert(version_key(p + e + s) == version_key(p + d + s));
}

/// Where two versions differ in a character that is no digit on one side, the characters decide.
pub proof fn other_characters_stand_in_order(
    p: Seq<char>,
    c: char,
    s: Seq<char>,
    d: char,
    t: Seq<char>,
)
    requires
        c < d,
        p.len() > 0 ==> !('0' <= p.last() <= '9'),
        !('0' <= c <= '9') || !('0' <= d <= '9'),
    ensures
        earlier(p + (seq![c] + s), p + (seq![d] + t)),
        !earlier(p + (seq![d] + t), p + (seq![c] + s)),
{
    let x = seq![c] + s;
    let y = seq![d] + t;
    assert(x[0] == c && y[0] == d);
    lemma_key_of_both(p, x);
    lemma_key_of_both(p, y);
    lemma_digit_run(x);
    lemma_digit_run(y);
    let a = version_key(x);
    let b = version_key(y);
    assert(a.len() > 1 && b.len() > 1);
    if text::is_ascii_digit(c) {
        assert(a[0] == 1 && b[0] == 2);
    } else if text::is_ascii_digit(d) {
        assert(a[0] == 0 && b[0] == 1);
    } else {
        assert(a[0] == side(c) && b[0] == side(d));
        assert(a[1] == c as u32 && b[1] == d as u32);
        assert(a.drop_first()[0] == a[1] && b.drop_first()[0] == b[1]);
        reveal_with_fuel(before, 2);
    }
    assert(before(a, b));
    lemma_before_behind(version_key(p), a, b);
    lemma_not_both_earlier(p + x, p + y);
}

} // verus!
