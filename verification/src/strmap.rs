//! A map with texts for keys, kept in the order of the keys.

use vstd::prelude::*;

use crate::text::{chars_of, same_text};

verus! {

// ---------------------------------------------------------------------------
// The order of texts
// ---------------------------------------------------------------------------

/// `a` comes before `b`: character by character, a shorter text before a longer one
/// that begins with it.
pub open spec fn text_lt(a: Seq<char>, b: Seq<char>) -> bool
    decreases a.len(),
{
    if b.len() == 0 {
        false
    } else if a.len() == 0 {
        true
    } else if a[0] == b[0] {
        text_lt(a.drop_first(), b.drop_first())
    } else {
        a[0] < b[0]
    }
}

pub proof fn lemma_text_lt_irreflexive(a: Seq<char>)
    ensures
        !text_lt(a, a),
    decreases a.len(),
{
    if a.len() > 0 {
        lemma_text_lt_irreflexive(a.drop_first());
    }
}

pub proof fn lemma_text_lt_transitive(a: Seq<char>, b: Seq<char>, c: Seq<char>)
    requires
        text_lt(a, b),
        text_lt(b, c),
    ensures
        text_lt(a, c),
    decreases a.len(),
{
    if a.len() > 0 && a[0] == b[0] && b[0] == c[0] {
        lemma_text_lt_transitive(a.drop_first(), b.drop_first(), c.drop_first());
    }
}

pub proof fn lemma_text_lt_total(a: Seq<char>, b: Seq<char>)
    ensures
        text_lt(a, b) || text_lt(b, a) || a == b,
    decreases a.len(),
{
    if a.len() == 0 {
        if b.len() == 0 {
            assert(a =~= b);
        }
    } else if b.len() > 0 && a[0] == b[0] {
        lemma_text_lt_total(a.drop_first(), b.drop_first());
        if a.drop_first() == b.drop_first() {
            assert(a =~= seq![a[0]] + a.drop_first());
            assert(b =~= seq![b[0]] + b.drop_first());
        }
    }
}

/// Whether `a` comes before `b`.
pub fn comes_before(a: &str, b: &str) -> (r: bool)
    ensures
        r == text_lt(a@, b@),
{
    let x = chars_of(a);
    let y = chars_of(b);
    let mut i: usize = 0;
    proof {
        assert(x@.skip(0) =~= x@);
        assert(y@.skip(0) =~= y@);
    }
    while i < x.len() && i < y.len() && x[i] == y[i]
        invariant
            i <= x@.len(),
            i <= y@.len(),
            x@ == a@,
            y@ == b@,
            text_lt(a@, b@) == text_lt(x@.skip(i as int), y@.skip(i as int)),
        decreases x.len() - i,
    {
        proof {
            assert(x@.skip(i as int).drop_first() =~= x@.skip(i + 1));
            assert(y@.skip(i as int).drop_first() =~= y@.skip(i + 1));
        }
        i = i + 1;
    }
    if i >= y.len() {
        false
    } else if i >= x.len() {
        true
    } else {
        x[i] < y[i]
    }
}

// ---------------------------------------------------------------------------
// The map
// ---------------------------------------------------------------------------

/// A map from texts to values. Its entries stand in the order of their keys.
#[derive(Debug, Clone)]
pub struct StringMap<V> {
    pub entries: Vec<(String, V)>,
}

/// The first entry of a key, or the number of entries where there is none.
pub open spec fn slot<V>(entries: Seq<(String, V)>, key: Seq<char>) -> int
    decreases entries.len(),
{
    if entries.len() == 0 || entries[0].0@ == key {
        0
    } else {
        1 + slot(entries.drop_first(), key)
    }
}

pub proof fn lemma_slot<V>(entries: Seq<(String, V)>, key: Seq<char>, i: int)
    requires
        0 <= i <= entries.len(),
        forall|j: int| 0 <= j < i ==> (#[trigger] entries[j]).0@ != key,
        i < entries.len() ==> entries[i].0@ == key,
    ensures
        slot(entries, key) == i,
    decreases i,
{
    if i > 0 {
        let t = entries.drop_first();
        assert(entries[0].0@ != key);
        assert forall|j: int| 0 <= j < i - 1 implies (#[trigger] t[j]).0@ != key by {
            assert(t[j] == entries[j + 1]);
        }
        lemma_slot(t, key, i - 1);
    }
}

pub proof fn lemma_slot_bounds<V>(entries: Seq<(String, V)>, key: Seq<char>)
    ensures
        0 <= slot(entries, key) <= entries.len(),
        slot(entries, key) < entries.len() ==> entries[slot(entries, key)].0@ == key,
        forall|j: int| 0 <= j < slot(entries, key) ==> (#[trigger] entries[j]).0@ != key,
    decreases entries.len(),
{
    if entries.len() > 0 && entries[0].0@ != key {
        let t = entries.drop_first();
        lemma_slot_bounds(t, key);
        assert forall|j: int| 0 <= j < slot(entries, key) implies (#[trigger] entries[j]).0@
            != key by {
            if j > 0 {
                assert(entries[j] == t[j - 1]);
            }
        }
    }
}

/// What entries map each key to.
pub open spec fn contents<V>(entries: Seq<(String, V)>) -> Map<Seq<char>, V> {
    Map::new(
        |k: Seq<char>| slot(entries, k) < entries.len(),
        |k: Seq<char>| entries[slot(entries, k)].1,
    )
}

/// The keys rise from each entry to the next.
pub open spec fn rising<V>(entries: Seq<(String, V)>) -> bool {
    forall|i: int, j: int|
        0 <= i < j < entries.len() ==> text_lt(
            (#[trigger] entries[i]).0@,
            (#[trigger] entries[j]).0@,
        )
}

impl<V> View for StringMap<V> {
    type V = Map<Seq<char>, V>;

    open spec fn view(&self) -> Map<Seq<char>, V> {
        contents(self.entries@)
    }
}

impl<V> StringMap<V> {
    /// The entries are in order, so that no key occurs twice.
    pub open spec fn wf(&self) -> bool {
        rising(self.entries@)
    }

    /// The keys, in order.
    pub open spec fn keys(&self) -> Seq<Seq<char>> {
        self.entries@.map_values(|e: (String, V)| e.0@)
    }

    pub fn new() -> (r: Self)
        ensures
            r.wf(),
            r.entries@.len() == 0,
            r@ == Map::<Seq<char>, V>::empty(),
    {
        let r = StringMap { entries: Vec::new() };
        proof {
            lemma_empty_contents(r.entries@);
        }
        r
    }

    pub fn len(&self) -> (n: usize)
        ensures
            n == self.entries@.len(),
    {
        self.entries.len()
    }

    pub fn is_empty(&self) -> (b: bool)
        ensures
            b == (self.entries@.len() == 0),
            b == (self@ == Map::<Seq<char>, V>::empty()),
    {
        proof {
            if self.entries@.len() == 0 {
                lemma_empty_contents(self.entries@);
            } else {
                let k = self.entries@[0].0@;
                lemma_slot(self.entries@, k, 0);
                assert(self@.contains_key(k));
            }
        }
        self.entries.len() == 0
    }

    /// Where a key's entry is.
    pub fn position(&self, key: &str) -> (i: usize)
        ensures
            i == slot(self.entries@, key@),
            i <= self.entries@.len(),
            i < self.entries@.len() ==> self.entries@[i as int].0@ == key@,
            forall|j: int| 0 <= j < i ==> (#[trigger] self.entries@[j]).0@ != key@,
    {
        let mut i: usize = 0;
        while i < self.entries.len() && !same_text(self.entries[i].0.as_str(), key)
            invariant
                i <= self.entries@.len(),
                forall|j: int| 0 <= j < i ==> (#[trigger] self.entries@[j]).0@ != key@,
            decreases self.entries.len() - i,
        {
            i = i + 1;
        }
        proof {
            lemma_slot(self.entries@, key@, i as int);
        }
        i
    }

    pub fn contains_key(&self, key: &str) -> (b: bool)
        ensures
            b == self@.contains_key(key@),
    {
        self.position(key) < self.entries.len()
    }

    pub fn get(&self, key: &str) -> (r: Option<&V>)
        ensures
            match r {
                Some(v) => self@.contains_key(key@) && *v == self@[key@],
                None => !self@.contains_key(key@),
            },
    {
        let i: usize = self.position(key);
        if i < self.entries.len() {
            Some(&self.entries[i].1)
        } else {
            None
        }
    }

    /// Map `key` to `value`, in place of what it was mapped to.
    pub fn insert(&mut self, key: String, value: V)
        requires
            old(self).wf(),
        ensures
            final(self).wf(),
            final(self)@ == old(self)@.insert(key@, value),
    {
        let ghost before = self.entries@;
        let i: usize = self.position(key.as_str());
        if i < self.entries.len() {
            self.entries.set(i, (key, value));
            proof {
                lemma_replaced(before, i as int, (key, value));
                assert(self.entries@ =~= before.update(i as int, (key, value)));
            }
        } else {
            let mut at: usize = 0;
            while at < self.entries.len() && comes_before(
                self.entries[at].0.as_str(),
                key.as_str(),
            )
                invariant
                    at <= self.entries@.len(),
                    self.entries@ == before,
                    forall|j: int|
                        0 <= j < at ==> text_lt((#[trigger] self.entries@[j]).0@, key@),
                decreases self.entries.len() - at,
            {
                at = at + 1;
            }
            self.entries.insert(at, (key, value));
            proof {
                lemma_inserted(before, at as int, (key, value));
            }
        }
    }

    /// Take a key out, with what it was mapped to.
    pub fn take(&mut self, key: &str) -> (r: Option<V>)
        requires
            old(self).wf(),
        ensures
            final(self).wf(),
            match r {
                Some(v) => old(self)@.contains_key(key@) && v == old(self)@[key@],
                None => !old(self)@.contains_key(key@),
            },
            final(self)@ == old(self)@.remove(key@),
    {
        let ghost before = self.entries@;
        let i: usize = self.position(key);
        if i < self.entries.len() {
            let e = self.entries.remove(i);
            proof {
                lemma_removed(before, i as int);
            }
            Some(e.1)
        } else {
            proof {
                assert(self@ =~= self@.remove(key@));
            }
            None
        }
    }

    /// Take a key out, and say whether it was there.
    pub fn remove(&mut self, key: &str) -> (b: bool)
        requires
            old(self).wf(),
        ensures
            final(self).wf(),
            b == old(self)@.contains_key(key@),
            final(self)@ == old(self)@.remove(key@),
    {
        match self.take(key) {
            Some(_) => true,
            None => false,
        }
    }
}

impl<V> Default for StringMap<V> {
    fn default() -> (r: Self)
        ensures
            r.wf(),
            r.entries@.len() == 0,
            r@ == Map::<Seq<char>, V>::empty(),
    {
        StringMap::new()
    }
}

proof fn lemma_empty_contents<V>(entries: Seq<(String, V)>)
    requires
        entries.len() == 0,
    ensures
        contents(entries) == Map::<Seq<char>, V>::empty(),
{
    assert(contents(entries) =~= Map::<Seq<char>, V>::empty());
}

/// In rising entries a key is found wherever it stands.
pub proof fn lemma_unique_slot<V>(entries: Seq<(String, V)>, i: int)
    requires
        rising(entries),
        0 <= i < entries.len(),
    ensures
        slot(entries, entries[i].0@) == i,
        contents(entries).contains_key(entries[i].0@),
        contents(entries)[entries[i].0@] == entries[i].1,
{
    let k = entries[i].0@;
    assert forall|j: int| 0 <= j < i implies (#[trigger] entries[j]).0@ != k by {
        lemma_text_lt_irreflexive(k);
    }
    lemma_slot(entries, k, i);
}

proof fn lemma_replaced<V>(e: Seq<(String, V)>, i: int, x: (String, V))
    requires
        rising(e),
        0 <= i < e.len(),
        e[i].0@ == x.0@,
    ensures
        rising(e.update(i, x)),
        contents(e.update(i, x)) == contents(e).insert(x.0@, x.1),
{
    let f = e.update(i, x);
    assert forall|a: int, b: int| 0 <= a < b < f.len() implies text_lt(
        (#[trigger] f[a]).0@,
        (#[trigger] f[b]).0@,
    ) by {
        assert(f[a].0@ == e[a].0@);
        assert(f[b].0@ == e[b].0@);
    }
    lemma_unique_slot(e, i);
    lemma_unique_slot(f, i);
    let want = contents(e).insert(x.0@, x.1);
    assert forall|k: Seq<char>| #[trigger] contents(f).contains_key(k) == want.contains_key(k)
        && (want.contains_key(k) ==> contents(f)[k] == want[k]) by {
        lemma_slot_bounds(e, k);
        let s = slot(e, k);
        assert forall|j: int| 0 <= j < s implies (#[trigger] f[j]).0@ != k by {
            assert(e[j].0@ == f[j].0@);
        }
        if s < e.len() {
            assert(f[s].0@ == e[s].0@);
        }
        lemma_slot(f, k, s);
        if k == x.0@ {
        } else if s < e.len() {
            assert(s != i);
        }
    }
    assert(contents(f) =~= want);
}

proof fn lemma_inserted<V>(e: Seq<(String, V)>, at: int, x: (String, V))
    requires
        rising(e),
        0 <= at <= e.len(),
        forall|j: int| 0 <= j < e.len() ==> (#[trigger] e[j]).0@ != x.0@,
        forall|j: int| 0 <= j < at ==> text_lt((#[trigger] e[j]).0@, x.0@),
        at < e.len() ==> !text_lt(e[at].0@, x.0@),
    ensures
        rising(e.insert(at, x)),
        contents(e.insert(at, x)) == contents(e).insert(x.0@, x.1),
{
    let f = e.insert(at, x);
    assert forall|a: int, b: int| 0 <= a < b < f.len() implies text_lt(
        (#[trigger] f[a]).0@,
        (#[trigger] f[b]).0@,
    ) by {
        if a < at {
            assert(f[a] == e[a]);
            if b < at {
                assert(f[b] == e[b]);
            } else if b > at {
                assert(f[b] == e[b - 1]);
            }
        } else {
            assert(f[b] == e[b - 1]);
            if a > at {
                assert(f[a] == e[a - 1]);
            } else {
                lemma_text_lt_total(e[at].0@, x.0@);
                if b - 1 > at {
                    lemma_text_lt_transitive(x.0@, e[at].0@, e[b - 1].0@);
                }
            }
        }
    }
    lemma_unique_slot(f, at);
    let want = contents(e).insert(x.0@, x.1);
    assert forall|k: Seq<char>| #[trigger] contents(f).contains_key(k) == want.contains_key(k)
        && (want.contains_key(k) ==> contents(f)[k] == want[k]) by {
        lemma_slot_bounds(e, k);
        let s = slot(e, k);
        if k != x.0@ {
            if s < e.len() {
                let t = if s < at {
                    s
                } else {
                    s + 1
                };
                assert(f[t] == e[s]);
                lemma_unique_slot(f, t);
            } else {
                assert forall|j: int| 0 <= j < f.len() implies (#[trigger] f[j]).0@ != k by {
                    if j < at {
                        assert(f[j] == e[j]);
                    } else if j > at {
                        assert(f[j] == e[j - 1]);
                    }
                }
                lemma_slot(f, k, f.len() as int);
            }
        }
    }
    assert(contents(f) =~= want);
}

/// An entry with a new key, put behind the others, adds that key.
pub proof fn lemma_appended<V>(e: Seq<(String, V)>, x: (String, V))
    requires
        forall|j: int| 0 <= j < e.len() ==> (#[trigger] e[j]).0@ != x.0@,
    ensures
        contents(e.push(x)) == contents(e).insert(x.0@, x.1),
{
    let f = e.push(x);
    let want = contents(e).insert(x.0@, x.1);
    assert forall|k: Seq<char>| #[trigger] contents(f).contains_key(k) == want.contains_key(k)
        && (want.contains_key(k) ==> contents(f)[k] == want[k]) by {
        lemma_slot_bounds(e, k);
        let s = slot(e, k);
        assert forall|j: int| 0 <= j < s implies (#[trigger] f[j]).0@ != k by {
            assert(f[j] == e[j]);
        }
        if s < e.len() {
            assert(f[s] == e[s]);
            lemma_slot(f, k, s);
        } else if k == x.0@ {
            lemma_slot(f, k, s);
        } else {
            assert forall|j: int| 0 <= j < f.len() implies (#[trigger] f[j]).0@ != k by {
                if j < e.len() {
                    assert(f[j] == e[j]);
                }
            }
            lemma_slot(f, k, f.len() as int);
        }
    }
    assert(contents(f) =~= want);
}

proof fn lemma_removed<V>(e: Seq<(String, V)>, i: int)
    requires
        rising(e),
        0 <= i < e.len(),
    ensures
        rising(e.remove(i)),
        contents(e.remove(i)) == contents(e).remove(e[i].0@),
{
    let f = e.remove(i);
    let x = e[i].0@;
    assert forall|a: int, b: int| 0 <= a < b < f.len() implies text_lt(
        (#[trigger] f[a]).0@,
        (#[trigger] f[b]).0@,
    ) by {
        let a0 = if a < i {
            a
        } else {
            a + 1
        };
        let b0 = if b < i {
            b
        } else {
            b + 1
        };
        assert(f[a] == e[a0]);
        assert(f[b] == e[b0]);
    }
    lemma_unique_slot(e, i);
    let want = contents(e).remove(x);
    assert forall|k: Seq<char>| #[trigger] contents(f).contains_key(k) == want.contains_key(k)
        && (want.contains_key(k) ==> contents(f)[k] == want[k]) by {
        lemma_slot_bounds(e, k);
        let s = slot(e, k);
        if k != x && s < e.len() {
            let t = if s < i {
                s
            } else {
                s - 1
            };
            assert(f[t] == e[s]);
            lemma_unique_slot(f, t);
        } else {
            assert forall|j: int| 0 <= j < f.len() implies (#[trigger] f[j]).0@ != k by {
                let j0 = if j < i {
                    j
                } else {
                    j + 1
                };
                assert(f[j] == e[j0]);
                if k == x {
                    lemma_text_lt_irreflexive(x);
                    if j0 < i {
                        assert(text_lt(e[j0].0@, e[i].0@));
                    } else {
                        assert(text_lt(e[i].0@, e[j0].0@));
                    }
                }
            }
            lemma_slot(f, k, f.len() as int);
        }
    }
    assert(contents(f) =~= want);
}

/// Whatever a map has stands among its entries.
pub proof fn keys_are_in_the_entries<V>(entries: Seq<(String, V)>, key: Seq<char>)
    requires
        contents(entries).contains_key(key),
    ensures
        exists|i: int|
            0 <= i < entries.len() && (#[trigger] entries[i]).0@ == key && entries[i].1 == contents(
                entries,
            )[key],
{
    lemma_slot_bounds(entries, key);
    let i = slot(entries, key);
    assert(entries[i].0@ == key);
}

/// Texts stand as in a dictionary: the first character in which they differ decides, and a
/// text comes before one that goes on behind it.
pub proof fn texts_stand_as_in_a_dictionary(
    p: Seq<char>,
    a: char,
    s: Seq<char>,
    b: char,
    t: Seq<char>,
)
    requires
        a < b,
    ensures
        text_lt(p + seq![a] + s, p + seq![b] + t),
        text_lt(p, p + seq![a] + s),
    decreases p.len(),
{
    let x = p + seq![a] + s;
    let y = p + seq![b] + t;
    if p.len() == 0 {
        assert(x[0] == a && y[0] == b);
    } else {
        let q = p.drop_first();
        texts_stand_as_in_a_dictionary(q, a, s, b, t);
        assert(x[0] == p[0] && y[0] == p[0]);
        assert(x.drop_first() =~= q + seq![a] + s);
        assert(y.drop_first() =~= q + seq![b] + t);
    }
}

} // verus!
