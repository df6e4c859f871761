//! Putting things in order by a number that each of them has. Equal numbers keep the
//! order that they came in.

use vstd::prelude::*;

verus! {

/// Where a key goes among places that are already in order: behind every place up to
/// `p` whose key is not larger.
pub open spec fn slot(keys: Seq<int>, order: Seq<int>, key: int, p: int) -> int
    decreases p,
{
    if p > 0 && keys[order[p - 1]] > key {
        slot(keys, order, key, p - 1)
    } else {
        p
    }
}

/// The places in rising order of their keys.
pub open spec fn rising(keys: Seq<int>) -> Seq<int>
    decreases keys.len(),
{
    if keys.len() == 0 {
        seq![]
    } else {
        let before = rising(keys.drop_last());
        before.insert(
            slot(keys, before, keys.last(), before.len() as int),
            keys.len() - 1,
        )
    }
}

/// `a` stands before `b`: its key is smaller, or the keys are equal and it came first.
pub open spec fn goes_first(keys: Seq<int>, a: int, b: int) -> bool {
    keys[a] < keys[b] || (keys[a] == keys[b] && a < b)
}

/// The order holds every place once, and each place goes before those behind it.
pub open spec fn in_order(keys: Seq<int>, order: Seq<int>) -> bool {
    &&& order.len() == keys.len()
    &&& forall|i: int| 0 <= i < order.len() ==> 0 <= #[trigger] order[i] < keys.len()
    &&& forall|i: int, j: int|
        0 <= i < j < order.len() ==> goes_first(keys, #[trigger] order[i], #[trigger] order[j])
    &&& forall|k: int| 0 <= k < keys.len() ==> #[trigger] order.contains(k)
}

proof fn lemma_slot(keys: Seq<int>, order: Seq<int>, key: int, p: int)
    requires
        0 <= p <= order.len(),
    ensures
        0 <= slot(keys, order, key, p) <= p,
        forall|i: int|
            slot(keys, order, key, p) <= i < p ==> keys[#[trigger] order[i]] > key,
        slot(keys, order, key, p) > 0 ==> keys[order[slot(keys, order, key, p) - 1]] <= key,
    decreases p,
{
    if p > 0 && keys[order[p - 1]] > key {
        lemma_slot(keys, order, key, p - 1);
    }
}

/// The rising order is in order: smaller keys first, equal keys as they came, and no
/// place left out or repeated.
pub proof fn rising_is_in_order(keys: Seq<int>)
    ensures
        in_order(keys, rising(keys)),
    decreases keys.len(),
{
    if keys.len() > 0 {
        let init = keys.drop_last();
        let n = keys.len() - 1;
        rising_is_in_order(init);
        let before = rising(init);
        let p = slot(keys, before, keys.last(), before.len() as int);
        lemma_slot(keys, before, keys.last(), before.len() as int);
        let after = rising(keys);
        assert(after =~= before.insert(p, n));
        assert forall|i: int| 0 <= i < before.len() implies keys[#[trigger] before[i]]
            == init[before[i]] by {}
        assert forall|i: int| 0 <= i < after.len() implies 0 <= #[trigger] after[i]
            < keys.len() by {
            if i < p {
                assert(after[i] == before[i]);
            } else if i > p {
                assert(after[i] == before[i - 1]);
            }
        }
        assert forall|i: int, j: int| 0 <= i < j < after.len() implies goes_first(
            keys,
            #[trigger] after[i],
            #[trigger] after[j],
        ) by {
            let i0 = if i < p {
                i
            } else {
                i - 1
            };
            let j0 = if j < p {
                j
            } else {
                j - 1
            };
            if i != p && j != p {
                assert(after[i] == before[i0] && after[j] == before[j0]);
                assert(goes_first(init, before[i0], before[j0]));
            } else if j == p {
                assert(after[i] == before[i]);
                if i < p - 1 {
                    assert(goes_first(init, before[i], before[p - 1]));
                }
            } else {
                assert(after[j] == before[j0]);
                assert(keys[before[j0]] > keys.last());
            }
        }
        assert forall|k: int| 0 <= k < keys.len() implies #[trigger] after.contains(k) by {
            if k == n {
                assert(after[p] == n);
            } else {
                assert(before.contains(k));
                let i = choose|i: int| 0 <= i < before.len() && before[i] == k;
                let t = if i < p {
                    i
                } else {
                    i + 1
                };
                assert(after[t] == before[i]);
            }
        }
    }
}

/// The places that indices name.
pub open spec fn places(v: Seq<usize>) -> Seq<int> {
    v.map_values(|x: usize| x as int)
}

/// The numbers that keys are.
pub open spec fn numbers(keys: Seq<i128>) -> Seq<int> {
    keys.map_values(|k: i128| k as int)
}

/// The places in rising order of their keys.
pub fn order_rising(keys: &Vec<i128>) -> (r: Vec<usize>)
    ensures
        places(r@) == rising(numbers(keys@)),
        forall|i: int| 0 <= i < r@.len() ==> #[trigger] r@[i] < keys@.len(),
{
    let mut r: Vec<usize> = Vec::new();
    let mut i: usize = 0;
    let ghost all = numbers(keys@);
    assert(places(r@) =~= rising(all.take(0)));
    while i < keys.len()
        invariant
            i <= keys@.len(),
            all == numbers(keys@),
            r@.len() == i,
            places(r@) == rising(all.take(i as int)),
            forall|j: int| 0 <= j < r@.len() ==> #[trigger] r@[j] < i,
        decreases keys.len() - i,
    {
        let ghost now = all.take(i + 1);
        let ghost before = places(r@);
        proof {
            assert(now.drop_last() =~= all.take(i as int));
            assert(now.last() == keys@[i as int]);
        }
        let mut p: usize = r.len();
        while p > 0 && keys[r[p - 1]] > keys[i]
            invariant
                i < keys@.len(),
                r@.len() == i,
                p <= r@.len(),
                all == numbers(keys@),
                now == all.take(i + 1),
                before == places(r@),
                forall|j: int| 0 <= j < r@.len() ==> #[trigger] r@[j] < i,
                slot(now, before, keys@[i as int] as int, before.len() as int) == slot(
                    now,
                    before,
                    keys@[i as int] as int,
                    p as int,
                ),
            decreases p,
        {
            assert(before[p - 1] == r@[p - 1]);
            assert(now[before[p - 1]] == keys@[r@[p - 1] as int]);
            p = p - 1;
        }
        proof {
            if p > 0 {
                assert(before[p - 1] == r@[p - 1]);
                assert(now[before[p - 1]] == keys@[r@[p - 1] as int]);
            }
        }
        let ghost old_r = r@;
        r.insert(p, i);
        proof {
            assert(places(r@) =~= before.insert(p as int, i as int));
            assert forall|j: int| 0 <= j < r@.len() implies #[trigger] r@[j] < i + 1 by {
                if j < p {
                    assert(r@[j] == old_r[j]);
                } else if j > p {
                    assert(r@[j] == old_r[j - 1]);
                }
            }
        }
        i = i + 1;
    }
    assert(all.take(keys@.len() as int) =~= all);
    r
}

/// The keys turned round, so that the largest becomes the smallest.
pub open spec fn turned(keys: Seq<u64>) -> Seq<int> {
    keys.map_values(|k: u64| -(k as int))
}

/// The places in falling order of their keys.
pub open spec fn falling(keys: Seq<u64>) -> Seq<int> {
    rising(turned(keys))
}

/// The places in falling order of their keys.
pub fn order_falling(keys: &Vec<u64>) -> (r: Vec<usize>)
    ensures
        places(r@) == falling(keys@),
        forall|i: int| 0 <= i < r@.len() ==> #[trigger] r@[i] < keys@.len(),
{
    let mut t: Vec<i128> = Vec::new();
    let mut i: usize = 0;
    assert(numbers(t@) =~= turned(keys@.take(0)));
    while i < keys.len()
        invariant
            i <= keys@.len(),
            numbers(t@) == turned(keys@.take(i as int)),
        decreases keys.len() - i,
    {
        let ghost before = numbers(t@);
        t.push(-(keys[i] as i128));
        i = i + 1;
        assert(numbers(t@) =~= before.push(-(keys@[i - 1] as int)));
        assert(numbers(t@) =~= turned(keys@.take(i as int)));
    }
    assert(keys@.take(keys@.len() as int) =~= keys@);
    order_rising(&t)
}

/// The falling order holds every place once, with larger keys first and equal keys as
/// they came.
pub proof fn falling_is_in_order(keys: Seq<u64>)
    ensures
        falling(keys).len() == keys.len(),
        forall|i: int| 0 <= i < keys.len() ==> 0 <= #[trigger] falling(keys)[i] < keys.len(),
        forall|i: int, j: int|
            0 <= i < j < keys.len() ==> keys[#[trigger] falling(keys)[i]] > keys[
            #[trigger] falling(keys)[j]] || (keys[falling(keys)[i]] == keys[falling(keys)[j]]
                && falling(keys)[i] < falling(keys)[j]),
        forall|k: int| 0 <= k < keys.len() ==> #[trigger] falling(keys).contains(k),
{
    let t = turned(keys);
    rising_is_in_order(t);
    let o = falling(keys);
    assert forall|i: int, j: int| 0 <= i < j < keys.len() implies keys[#[trigger] o[i]] > keys[
    #[trigger] o[j]] || (keys[o[i]] == keys[o[j]] && o[i] < o[j]) by {
        assert(goes_first(t, o[i], o[j]));
        assert(t[o[i]] == -(keys[o[i]] as int));
        assert(t[o[j]] == -(keys[o[j]] as int));
    }
    assert forall|k: int| 0 <= k < keys.len() implies #[trigger] o.contains(k) by {
        assert(rising(t).contains(k));
    }
}

// ---------------------------------------------------------------------------
// Scores
// ---------------------------------------------------------------------------

/// A relevance score: where it stands in the order of scores, and how it is written
/// with two and with three places after the point.
#[derive(Debug, Clone)]
pub struct Score {
    pub key: u64,
    pub short: String,
    pub long: String,
}

/// What a score is.
pub ghost struct ScoreView {
    pub key: u64,
    pub short: Seq<char>,
    pub long: Seq<char>,
}

impl View for Score {
    type V = ScoreView;

    open spec fn view(&self) -> ScoreView {
        ScoreView { key: self.key, short: self.short@, long: self.long@ }
    }
}

impl Score {
    pub fn copy(&self) -> (r: Score)
        ensures
            r@ == self@,
    {
        Score { key: self.key, short: self.short.clone(), long: self.long.clone() }
    }
}

pub open spec fn score_views(v: Seq<Score>) -> Seq<ScoreView> {
    v.map_values(|x: Score| x@)
}

pub open spec fn score_keys(v: Seq<ScoreView>) -> Seq<u64> {
    v.map_values(|x: ScoreView| x.key)
}

/// The number that the bits of a 32-bit floating-point number write as a sign and a
/// magnitude. The numbers rise with the floating-point numbers, and both zeroes are 0.
pub open spec fn signed_bits(bits: u32) -> int {
    if bits < 0x8000_0000 {
        bits as int
    } else {
        0x8000_0000 - bits
    }
}

/// The key of the score 0.
pub const ZERO_KEY: u64 = 0x8000_0000;

/// Where a floating-point number with these bits stands in the order of scores.
pub fn score_key(bits: u32) -> (r: u64)
    ensures
        r == ZERO_KEY + signed_bits(bits),
{
    if bits < 0x8000_0000 {
        ZERO_KEY + bits as u64
    } else {
        0x1_0000_0000 - bits as u64
    }
}

/// The first places of an order.
pub fn first_places(order: &Vec<usize>, n: usize) -> (r: Vec<usize>)
    ensures
        places(r@) == places(order@).take(if n < order@.len() {
            n as int
        } else {
            order@.len() as int
        }),
        r@ == order@.take(r@.len() as int),
        r@.len() <= order@.len(),
{
    let mut r: Vec<usize> = Vec::new();
    let mut i: usize = 0;
    while i < order.len() && i < n
        invariant
            i <= order@.len(),
            i <= n,
            r@ == order@.take(i as int),
        decreases order.len() - i,
    {
        r.push(order[i]);
        i = i + 1;
        assert(r@ =~= order@.take(i as int));
    }
    assert(places(r@) =~= places(order@).take(i as int));
    r
}

/// Scores stand in the order of their bits: of two that are not below zero the one with the
/// larger bits is larger, of two below zero the one with the smaller, and both zeroes stand
/// at the same place, between them.
pub proof fn scores_stand_in_order(a: u32, b: u32)
    ensures
        a < b < 0x8000_0000 ==> signed_bits(a) < signed_bits(b),
        0x8000_0000 <= a < b ==> signed_bits(a) > signed_bits(b),
        a > 0x8000_0000 && b < 0x8000_0000 ==> signed_bits(a) < signed_bits(b),
        signed_bits(0) == 0,
        signed_bits(0x8000_0000) == 0,
{
}

} // verus!
