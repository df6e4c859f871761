//! Hits of a search over all packages: what they are, how hits of the same thing are
//! fused, and which of them are looked at closely.

use vstd::prelude::*;

use crate::pieces;
use crate::pieces::{byte_size, copy_opt, replace_text, write_decimal};
use crate::rank;
use crate::rank::{order_falling, places};
use crate::text;
use crate::text::same_text;

verus! {

/// The kind of index that a hit was found in.
#[derive(Debug, Clone, Copy, PartialEq, Eq, Structural)]
pub enum HitOrigin {
    Code,
    Docs,
    Codegraph,
}

pub open spec fn origin_name(o: HitOrigin) -> Seq<char> {
    match o {
        HitOrigin::Code => "code"@,
        HitOrigin::Docs => "docs"@,
        HitOrigin::Codegraph => "codegraph"@,
    }
}

/// How much a hit of an origin carries: source code more than a place, a place more than
/// a passage.
pub open spec fn priority(o: HitOrigin) -> int {
    match o {
        HitOrigin::Code => 2,
        HitOrigin::Codegraph => 1,
        HitOrigin::Docs => 0,
    }
}

impl HitOrigin {
    pub fn as_str(&self) -> (r: &'static str)
        ensures
            r@ == origin_name(*self),
    {
        match self {
            HitOrigin::Code => "code",
            HitOrigin::Docs => "docs",
            HitOrigin::Codegraph => "codegraph",
        }
    }
}

/// How much a hit of an origin carries.
pub fn origin_priority(o: HitOrigin) -> (r: u8)
    ensures
        r == priority(o),
{
    match o {
        HitOrigin::Code => 2,
        HitOrigin::Codegraph => 1,
        HitOrigin::Docs => 0,
    }
}

/// The weight of the searches for the query itself.
pub const QUERY_WEIGHT: u32 = 2;

/// The weight of the searches for a variant of the query.
pub const VARIANT_WEIGHT: u32 = 1;

/// What one search contributes to the score of a hit: the weight of the search, and the
/// rank of the hit in it, from one on. The contribution is the weight over sixty more
/// than the rank.
#[derive(Debug, Clone, Copy, PartialEq, Eq, Structural)]
pub struct Share {
    pub weight: u32,
    pub rank: u64,
}

/// A hit of any search.
#[derive(Debug, Clone)]
pub struct UnifiedHit {
    /// The package, with its version where it is a bundle.
    pub package: String,
    pub origin: HitOrigin,
    pub path: String,
    /// The first line, or 0.
    pub start_line: u32,
    /// The last line, or 0.
    pub end_line: u32,
    pub snippet: String,
    pub symbol: Option<String>,
    pub kind: Option<String>,
    pub signature: Option<String>,
    /// What the searches that found the hit contribute to its score, in order.
    pub shares: Vec<Share>,
    /// The whole symbol, where it was fetched.
    pub expanded_text: Option<String>,
    /// The window of the symbol that fits the query best.
    pub best_window: Option<String>,
    /// The best window is the first.
    pub best_window_first: bool,
    /// How many windows the symbol has.
    pub kwic_count: usize,
}

/// What a hit is.
pub ghost struct HitView {
    pub package: Seq<char>,
    pub origin: HitOrigin,
    pub path: Seq<char>,
    pub start_line: u32,
    pub end_line: u32,
    pub snippet: Seq<char>,
    pub symbol: Option<Seq<char>>,
    pub kind: Option<Seq<char>>,
    pub signature: Option<Seq<char>>,
    pub shares: Seq<Share>,
    pub expanded_text: Option<Seq<char>>,
    pub best_window: Option<Seq<char>>,
    pub best_window_first: bool,
    pub kwic_count: usize,
}

impl View for UnifiedHit {
    type V = HitView;

    open spec fn view(&self) -> HitView {
        HitView {
            package: self.package@,
            origin: self.origin,
            path: self.path@,
            start_line: self.start_line,
            end_line: self.end_line,
            snippet: self.snippet@,
            symbol: pieces::opt_text(self.symbol),
            kind: pieces::opt_text(self.kind),
            signature: pieces::opt_text(self.signature),
            shares: self.shares@,
            expanded_text: pieces::opt_text(self.expanded_text),
            best_window: pieces::opt_text(self.best_window),
            best_window_first: self.best_window_first,
            kwic_count: self.kwic_count,
        }
    }
}

pub open spec fn hit_views(v: Seq<UnifiedHit>) -> Seq<HitView> {
    v.map_values(|h: UnifiedHit| h@)
}

fn copy_shares(v: &Vec<Share>) -> (r: Vec<Share>)
    ensures
        r@ == v@,
{
    let mut r: Vec<Share> = Vec::new();
    let mut i: usize = 0;
    while i < v.len()
        invariant
            i <= v@.len(),
            r@ == v@.take(i as int),
        decreases v.len() - i,
    {
        r.push(v[i]);
        i = i + 1;
        assert(r@ =~= v@.take(i as int));
    }
    assert(v@.take(v@.len() as int) =~= v@);
    r
}

impl UnifiedHit {
    pub fn copy(&self) -> (r: UnifiedHit)
        ensures
            r@ == self@,
    {
        UnifiedHit {
            package: self.package.clone(),
            origin: self.origin,
            path: self.path.clone(),
            start_line: self.start_line,
            end_line: self.end_line,
            snippet: self.snippet.clone(),
            symbol: copy_opt(&self.symbol),
            kind: copy_opt(&self.kind),
            signature: copy_opt(&self.signature),
            shares: copy_shares(&self.shares),
            expanded_text: copy_opt(&self.expanded_text),
            best_window: copy_opt(&self.best_window),
            best_window_first: self.best_window_first,
            kwic_count: self.kwic_count,
        }
    }
}

// ---------------------------------------------------------------------------
// When two hits are of the same thing
// ---------------------------------------------------------------------------

/// A path as it is compared: with forward slashes, in lower case.
pub open spec fn normal_path(p: Seq<char>) -> Seq<char> {
    text::lowercased(pieces::replaced(p, "\\"@, "/"@))
}

/// A path as it is compared: with forward slashes, in lower case.
pub fn normalise_path(path: &str) -> (r: String)
    ensures
        r@ == normal_path(path@),
{
    proof {
        reveal_strlit("\\");
        assert("\\"@.len() == 1);
    }
    replace_text(path, "\\", "/").as_str().to_lowercase()
}

/// An optional text that says something.
pub open spec fn said(t: Option<Seq<char>>) -> bool {
    match t {
        Some(s) => s.len() > 0,
        None => false,
    }
}

pub fn is_said(t: &Option<String>) -> (r: bool)
    ensures
        r == said(pieces::opt_text(*t)),
{
    match t {
        Some(s) => !s.as_str().is_empty(),
        None => false,
    }
}

/// What hits of the same thing have in common. Code is told apart by its place. A passage
/// has no lines, so it is told apart by what it says.
#[derive(Debug, Clone)]
pub struct DedupKey {
    pub passage: bool,
    pub place: String,
    pub content: String,
}

pub ghost struct KeyView {
    pub passage: bool,
    pub place: Seq<char>,
    pub content: Seq<char>,
}

impl View for DedupKey {
    type V = KeyView;

    open spec fn view(&self) -> KeyView {
        KeyView { passage: self.passage, place: self.place@, content: self.content@ }
    }
}

pub open spec fn key(h: HitView) -> KeyView {
    let file = h.package + ":"@ + normal_path(h.path);
    if h.origin == HitOrigin::Docs {
        KeyView { passage: true, place: file, content: h.snippet }
    } else {
        KeyView {
            passage: false,
            place: if h.start_line > 0 {
                file + ":"@ + pieces::decimal(h.start_line as nat)
            } else if said(h.symbol) {
                file + ":"@ + text::lowercased(h.symbol->0)
            } else {
                file
            },
            content: seq![],
        }
    }
}

/// What a hit has in common with other hits of the same thing.
pub fn dedup_key(h: &UnifiedHit) -> (r: DedupKey)
    ensures
        r@ == key(h@),
{
    let mut file = h.package.clone();
    file.append(":");
    file.append(normalise_path(h.path.as_str()).as_str());
    if h.origin == HitOrigin::Docs {
        return DedupKey { passage: true, place: file, content: h.snippet.clone() };
    }
    if h.start_line > 0 {
        file.append(":");
        file.append(write_decimal(h.start_line as u64).as_str());
    } else {
        match &h.symbol {
            Some(s) => {
                if !s.as_str().is_empty() {
                    file.append(":");
                    file.append(s.as_str().to_lowercase().as_str());
                }
            },
            None => {},
        }
    }
    let content = String::new();
    assert(content@ =~= seq![]);
    DedupKey { passage: false, place: file, content }
}

fn same_key(a: &DedupKey, b: &DedupKey) -> (r: bool)
    ensures
        r == (a@ == b@),
{
    a.passage == b.passage && same_text(a.place.as_str(), b.place.as_str()) && same_text(
        a.content.as_str(),
        b.content.as_str(),
    )
}

// ---------------------------------------------------------------------------
// Fusing
// ---------------------------------------------------------------------------

/// The longer of two names, so that a qualified name wins.
pub open spec fn longer_name(w: Option<Seq<char>>, d: Option<Seq<char>>) -> Option<Seq<char>> {
    match (w, d) {
        (Some(x), Some(y)) => if pieces::byte_len(y) > pieces::byte_len(x) {
            d
        } else {
            w
        },
        (None, Some(_)) => d,
        _ => w,
    }
}

/// What one hit says, else what the other says.
pub open spec fn first_said(w: Option<Seq<char>>, d: Option<Seq<char>>) -> Option<Seq<char>> {
    if !said(w) && said(d) {
        d
    } else {
        w
    }
}

/// A hit with what it lacks filled in from another.
pub open spec fn completed(w: HitView, d: HitView) -> HitView {
    let fills = w.start_line == 0 && d.start_line > 0;
    HitView {
        symbol: longer_name(w.symbol, d.symbol),
        signature: first_said(w.signature, d.signature),
        kind: first_said(w.kind, d.kind),
        start_line: if fills {
            d.start_line
        } else {
            w.start_line
        },
        end_line: if fills {
            d.end_line
        } else {
            w.end_line
        },
        ..w
    }
}

/// Fill in what a hit lacks from another hit of the same thing.
pub fn merge_complementary(winner: &mut UnifiedHit, donor: &UnifiedHit)
    ensures
        final(winner)@ == completed(old(winner)@, donor@),
{
    let longer = match (&winner.symbol, &donor.symbol) {
        (Some(w), Some(d)) => byte_size(d.as_str()) > byte_size(w.as_str()),
        (None, Some(_)) => true,
        _ => false,
    };
    if longer {
        winner.symbol = copy_opt(&donor.symbol);
    }
    if !is_said(&winner.signature) && is_said(&donor.signature) {
        winner.signature = copy_opt(&donor.signature);
    }
    if !is_said(&winner.kind) && is_said(&donor.kind) {
        winner.kind = copy_opt(&donor.kind);
    }
    if winner.start_line == 0 && donor.start_line > 0 {
        winner.start_line = donor.start_line;
        winner.end_line = donor.end_line;
    }
}

/// Which of two hits of the same thing is kept: the one with the richer origin, and the
/// longer one of the same origin.
pub open spec fn replaces(new: HitView, kept: HitView) -> bool {
    priority(new.origin) > priority(kept.origin) || (priority(new.origin) == priority(kept.origin)
        && pieces::byte_len(new.snippet) > pieces::byte_len(kept.snippet))
}

/// Two hits of the same thing as one, which has the shares of both.
pub open spec fn fused(kept: HitView, new: HitView) -> HitView {
    let both = kept.shares + new.shares;
    if replaces(new, kept) {
        HitView { shares: both, ..completed(new, kept) }
    } else {
        HitView { shares: both, ..completed(kept, new) }
    }
}

fn fuse(kept: &UnifiedHit, new: &UnifiedHit) -> (r: UnifiedHit)
    ensures
        r@ == fused(kept@, new@),
{
    let a: u8 = origin_priority(new.origin);
    let b: u8 = origin_priority(kept.origin);
    let wins = a > b || (a == b && byte_size(new.snippet.as_str()) > byte_size(
        kept.snippet.as_str(),
    ));
    let mut shares = copy_shares(&kept.shares);
    let mut more = copy_shares(&new.shares);
    shares.append(&mut more);
    let mut r = if wins {
        let mut r = new.copy();
        merge_complementary(&mut r, kept);
        r
    } else {
        let mut r = kept.copy();
        merge_complementary(&mut r, new);
        r
    };
    r.shares = shares;
    r
}

/// A fused hit, and the key under which it was first found.
pub ghost struct Entry {
    pub key: KeyView,
    pub hit: HitView,
}

/// The first entry under a key, or the number of entries where there is none.
pub open spec fn entry_slot(es: Seq<Entry>, k: KeyView) -> int
    decreases es.len(),
{
    if es.len() == 0 || es[0].key == k {
        0
    } else {
        1 + entry_slot(es.drop_first(), k)
    }
}

proof fn lemma_entry_slot(es: Seq<Entry>, k: KeyView, i: int)
    requires
        0 <= i <= es.len(),
        forall|j: int| 0 <= j < i ==> (#[trigger] es[j]).key != k,
        i < es.len() ==> es[i].key == k,
    ensures
        entry_slot(es, k) == i,
    decreases i,
{
    if i > 0 {
        let t = es.drop_first();
        assert(es[0].key != k);
        assert forall|j: int| 0 <= j < i - 1 implies (#[trigger] t[j]).key != k by {
            assert(t[j] == es[j + 1]);
        }
        lemma_entry_slot(t, k, i - 1);
    }
}

proof fn lemma_entry_slot_bounds(es: Seq<Entry>, k: KeyView)
    ensures
        0 <= entry_slot(es, k) <= es.len(),
        entry_slot(es, k) < es.len() ==> es[entry_slot(es, k)].key == k,
        forall|j: int| 0 <= j < entry_slot(es, k) ==> (#[trigger] es[j]).key != k,
    decreases es.len(),
{
    if es.len() > 0 && es[0].key != k {
        let t = es.drop_first();
        lemma_entry_slot_bounds(t, k);
        assert forall|j: int| 0 <= j < entry_slot(es, k) implies (#[trigger] es[j]).key != k by {
            if j > 0 {
                assert(es[j] == t[j - 1]);
            }
        }
    }
}

/// The entries after one more hit.
pub open spec fn with_hit(es: Seq<Entry>, h: HitView) -> Seq<Entry> {
    let k = key(h);
    let i = entry_slot(es, k);
    if i < es.len() {
        es.update(i, Entry { key: k, hit: fused(es[i].hit, h) })
    } else {
        es.push(Entry { key: k, hit: h })
    }
}

/// The entries of hits, in the order in which things were first found.
pub open spec fn entries(hs: Seq<HitView>) -> Seq<Entry>
    decreases hs.len(),
{
    if hs.len() == 0 {
        seq![]
    } else {
        with_hit(entries(hs.drop_last()), hs.last())
    }
}

/// The hits of hits, each thing once.
pub open spec fn deduped(hs: Seq<HitView>) -> Seq<HitView> {
    entries(hs).map_values(|e: Entry| e.hit)
}

spec fn entry_views(keys: Seq<DedupKey>, hits: Seq<UnifiedHit>) -> Seq<Entry> {
    Seq::new(hits.len(), |i: int| Entry { key: keys[i]@, hit: hits[i]@ })
}

/// Fuse hits of the same thing. What the kept hit lacks is filled in from the others, and
/// it gets the shares of all.
pub fn merge_hits(hits: &Vec<UnifiedHit>) -> (r: Vec<UnifiedHit>)
    ensures
        hit_views(r@) == deduped(hit_views(hits@)),
{
    let ghost all = hit_views(hits@);
    let mut keys: Vec<DedupKey> = Vec::new();
    let mut r: Vec<UnifiedHit> = Vec::new();
    let mut i: usize = 0;
    proof {
        assert(all.take(0) =~= seq![]);
        assert(entry_views(keys@, r@) =~= seq![]);
    }
    while i < hits.len()
        invariant
            i <= hits@.len(),
            all == hit_views(hits@),
            keys@.len() == r@.len(),
            entry_views(keys@, r@) == entries(all.take(i as int)),
        decreases hits.len() - i,
    {
        proof {
            assert(all.take(i + 1).drop_last() =~= all.take(i as int));
            assert(all.take(i + 1).last() == hits@[i as int]@);
        }
        let ghost es = entry_views(keys@, r@);
        let k = dedup_key(&hits[i]);
        let mut j: usize = 0;
        while j < keys.len() && !same_key(&keys[j], &k)
            invariant
                j <= keys@.len(),
                keys@.len() == r@.len(),
                es == entry_views(keys@, r@),
                forall|x: int| 0 <= x < j ==> (#[trigger] es[x]).key != k@,
            decreases keys.len() - j,
        {
            assert(es[j as int].key == keys@[j as int]@);
            j = j + 1;
        }
        proof {
            if j < keys@.len() {
                assert(es[j as int].key == keys@[j as int]@);
            }
            lemma_entry_slot(es, k@, j as int);
        }
        if j < keys.len() {
            let one = fuse(&r[j], &hits[i]);
            r.set(j, one);
            assert(entry_views(keys@, r@) =~= with_hit(es, hits@[i as int]@));
        } else {
            keys.push(k);
            r.push(hits[i].copy());
            assert(entry_views(keys@, r@) =~= with_hit(es, hits@[i as int]@));
        }
        i = i + 1;
    }
    proof {
        assert(all.take(hits@.len() as int) =~= all);
        assert(hit_views(r@) =~= deduped(all));
    }
    r
}

/// The shares of the hits under a key, in order.
pub open spec fn collected(hs: Seq<HitView>, k: KeyView) -> Seq<Share>
    decreases hs.len(),
{
    if hs.len() == 0 {
        seq![]
    } else {
        let before = collected(hs.drop_last(), k);
        if key(hs.last()) == k {
            before + hs.last().shares
        } else {
            before
        }
    }
}

/// Fusing loses nothing: each thing that was found comes out once, with the shares of all
/// hits of it in the order in which they came.
pub proof fn fusing_keeps_every_share(hs: Seq<HitView>)
    ensures
        forall|i: int, j: int|
            0 <= i < j < entries(hs).len() ==> (#[trigger] entries(hs)[i]).key != (
            #[trigger] entries(hs)[j]).key,
        forall|i: int|
            0 <= i < entries(hs).len() ==> (#[trigger] entries(hs)[i]).hit.shares == collected(
                hs,
                entries(hs)[i].key,
            ),
        forall|i: int|
            0 <= i < hs.len() ==> entry_slot(entries(hs), key(#[trigger] hs[i])) < entries(
                hs,
            ).len(),
    decreases hs.len(),
{
    if hs.len() > 0 {
        let before = hs.drop_last();
        let h = hs.last();
        let es = entries(before);
        let after = entries(hs);
        let k = key(h);
        let p = entry_slot(es, k);
        fusing_keeps_every_share(before);
        lemma_entry_slot_bounds(es, k);
        lemma_absent_keys(before, es);
        assert forall|i: int, j: int| 0 <= i < j < after.len() implies (#[trigger] after[i]).key
            != (#[trigger] after[j]).key by {
            if p < es.len() {
                assert(after[i].key == es[i].key && after[j].key == es[j].key);
            } else if j < es.len() {
                assert(after[i] == es[i] && after[j] == es[j]);
            } else {
                assert(after[i] == es[i]);
            }
        }
        assert forall|i: int| 0 <= i < after.len() implies (#[trigger] after[i]).hit.shares
            == collected(hs, after[i].key) by {
            if p < es.len() {
                if i == p {
                    assert(es[p].hit.shares == collected(before, k));
                } else {
                    assert(after[i] == es[i]);
                    assert(es[i].key != es[p].key);
                }
            } else if i < es.len() {
                assert(after[i] == es[i]);
                assert(es[i].key != k);
            } else {
                assert(collected(before, k) =~= seq![]);
                assert(seq![] + h.shares =~= h.shares);
            }
        }
        assert forall|i: int| 0 <= i < hs.len() implies entry_slot(
            after,
            key(#[trigger] hs[i]),
        ) < after.len() by {
            let x = key(hs[i]);
            lemma_entry_slot_bounds(after, x);
            if i < before.len() {
                assert(before[i] == hs[i]);
                lemma_entry_slot_bounds(es, x);
                let q = entry_slot(es, x);
                assert(after[q].key == x);
            } else if p < es.len() {
                assert(after[p].key == x);
            } else {
                assert(after[es.len() as int].key == x);
            }
        }
    }
}

/// A key without an entry has no shares.
proof fn lemma_absent_keys(hs: Seq<HitView>, es: Seq<Entry>)
    requires
        forall|i: int|
            0 <= i < hs.len() ==> entry_slot(es, key(#[trigger] hs[i])) < es.len(),
    ensures
        forall|k: KeyView|
            entry_slot(es, k) >= es.len() ==> #[trigger] collected(hs, k) =~= seq![],
    decreases hs.len(),
{
    if hs.len() > 0 {
        let t = hs.drop_last();
        assert forall|i: int| 0 <= i < t.len() implies entry_slot(es, key(#[trigger] t[i]))
            < es.len() by {
            assert(t[i] == hs[i]);
        }
        lemma_absent_keys(t, es);
        assert forall|k: KeyView| entry_slot(es, k) >= es.len() implies #[trigger] collected(hs, k)
            =~= seq![] by {
            assert(hs[hs.len() - 1] == hs.last());
            assert(collected(t, k) =~= seq![]);
        }
    }
}

// ---------------------------------------------------------------------------
// What variants of the query add
// ---------------------------------------------------------------------------

/// A hit that the query itself found, and not its variants alone.
pub open spec fn own(h: HitView) -> bool {
    exists|i: int| 0 <= i < h.shares.len() && (#[trigger] h.shares[i]).weight == QUERY_WEIGHT
}

/// Whether the query itself found a hit.
pub fn is_own(h: &UnifiedHit) -> (r: bool)
    ensures
        r == own(h@),
{
    let mut i: usize = 0;
    while i < h.shares.len()
        invariant
            i <= h.shares@.len(),
            forall|j: int| 0 <= j < i ==> (#[trigger] h.shares@[j]).weight != QUERY_WEIGHT,
        decreases h.shares.len() - i,
    {
        if h.shares[i].weight == QUERY_WEIGHT {
            assert(h@.shares[i as int].weight == QUERY_WEIGHT);
            return true;
        }
        i = i + 1;
    }
    false
}

/// The hits that the query itself found, in their order.
pub open spec fn own_hits(hs: Seq<HitView>) -> Seq<HitView>
    decreases hs.len(),
{
    if hs.len() == 0 {
        seq![]
    } else {
        let before = own_hits(hs.drop_last());
        if own(hs.last()) {
            before.push(hs.last())
        } else {
            before
        }
    }
}

/// Leave out the hits that only variants of the query found.
pub fn drop_introduced(hits: &Vec<UnifiedHit>) -> (r: Vec<UnifiedHit>)
    ensures
        hit_views(r@) == own_hits(hit_views(hits@)),
{
    let ghost all = hit_views(hits@);
    let mut r: Vec<UnifiedHit> = Vec::new();
    let mut i: usize = 0;
    proof {
        assert(all.take(0) =~= seq![]);
        assert(hit_views(r@) =~= seq![]);
    }
    while i < hits.len()
        invariant
            i <= hits@.len(),
            all == hit_views(hits@),
            hit_views(r@) == own_hits(all.take(i as int)),
        decreases hits.len() - i,
    {
        proof {
            assert(all.take(i + 1).drop_last() =~= all.take(i as int));
            assert(all.take(i + 1).last() == hits@[i as int]@);
        }
        if is_own(&hits[i]) {
            let ghost before = hit_views(r@);
            r.push(hits[i].copy());
            assert(hit_views(r@) =~= before.push(hits@[i as int]@));
        }
        i = i + 1;
    }
    assert(all.take(hits@.len() as int) =~= all);
    r
}

/// Where variants may only reinforce, what is left was found by the query itself, and all
/// that the query found is left.
pub proof fn variants_only_reinforce(hs: Seq<HitView>)
    ensures
        forall|i: int| 0 <= i < own_hits(hs).len() ==> own(#[trigger] own_hits(hs)[i]),
        forall|i: int|
            0 <= i < own_hits(hs).len() ==> hs.contains(#[trigger] own_hits(hs)[i]),
        forall|i: int|
            0 <= i < hs.len() && own(#[trigger] hs[i]) ==> own_hits(hs).contains(hs[i]),
    decreases hs.len(),
{
    if hs.len() > 0 {
        let t = hs.drop_last();
        let before = own_hits(t);
        let after = own_hits(hs);
        variants_only_reinforce(t);
        assert forall|i: int| 0 <= i < after.len() implies own(#[trigger] after[i]) && hs.contains(
            after[i],
        ) by {
            if i < before.len() {
                assert(after[i] == before[i]);
                let j = choose|j: int| 0 <= j < t.len() && t[j] == before[i];
                assert(hs[j] == after[i]);
            } else {
                assert(hs[hs.len() - 1] == after[i]);
            }
        }
        assert forall|i: int| 0 <= i < hs.len() && own(#[trigger] hs[i]) implies after.contains(
            hs[i],
        ) by {
            if i < t.len() {
                assert(t[i] == hs[i]);
                let j = choose|j: int| 0 <= j < before.len() && before[j] == t[i];
                assert(after[j] == hs[i]);
            } else {
                assert(after[after.len() - 1] == hs[i]);
            }
        }
    }
}

/// What is fused from hits of the query itself is a hit of the query itself.
pub proof fn lemma_own_entries(hs: Seq<HitView>)
    requires
        forall|i: int| 0 <= i < hs.len() ==> own(#[trigger] hs[i]),
    ensures
        forall|i: int| 0 <= i < entries(hs).len() ==> own((#[trigger] entries(hs)[i]).hit),
    decreases hs.len(),
{
    if hs.len() > 0 {
        let t = hs.drop_last();
        let h = hs.last();
        assert forall|i: int| 0 <= i < t.len() implies own(#[trigger] t[i]) by {
            assert(t[i] == hs[i]);
        }
        lemma_own_entries(t);
        let es = entries(t);
        let after = entries(hs);
        assert(own(hs[hs.len() - 1]));
        lemma_entry_slot_bounds(es, key(h));
        assert forall|i: int| 0 <= i < after.len() implies own((#[trigger] after[i]).hit) by {
            let p = entry_slot(es, key(h));
            if p < es.len() && i == p {
                let k = choose|k: int|
                    0 <= k < es[p].hit.shares.len() && (#[trigger] es[p].hit.shares[k]).weight
                        == QUERY_WEIGHT;
                assert(own(es[p].hit));
                assert(after[i].hit.shares[k] == es[p].hit.shares[k]);
            } else if i < es.len() {
                assert(after[i] == es[i]);
            }
        }
    }
}

/// Where the query itself found all hits, all are left.
pub proof fn lemma_all_own(hs: Seq<HitView>)
    requires
        forall|i: int| 0 <= i < hs.len() ==> own(#[trigger] hs[i]),
    ensures
        own_hits(hs) == hs,
    decreases hs.len(),
{
    if hs.len() > 0 {
        let t = hs.drop_last();
        assert forall|i: int| 0 <= i < t.len() implies own(#[trigger] t[i]) by {
            assert(t[i] == hs[i]);
        }
        lemma_all_own(t);
        assert(own(hs[hs.len() - 1]));
        assert(t.push(hs.last()) =~= hs);
    }
}

/// The query itself found something in a package.
pub open spec fn surfaced(hs: Seq<HitView>, package: Seq<char>) -> bool {
    exists|i: int| 0 <= i < hs.len() && own(#[trigger] hs[i]) && hs[i].package == package
}

/// Whether the query itself found something in a package.
pub fn is_surfaced(hits: &Vec<UnifiedHit>, package: &str) -> (r: bool)
    ensures
        r == surfaced(hit_views(hits@), package@),
{
    let ghost hs = hit_views(hits@);
    let mut i: usize = 0;
    while i < hits.len()
        invariant
            i <= hits@.len(),
            hs == hit_views(hits@),
            forall|j: int| 0 <= j < i && own(#[trigger] hs[j]) ==> hs[j].package != package@,
        decreases hits.len() - i,
    {
        assert(hs[i as int] == hits@[i as int]@);
        if is_own(&hits[i]) && same_text(hits[i].package.as_str(), package) {
            return true;
        }
        i = i + 1;
    }
    false
}

// ---------------------------------------------------------------------------
// The pool
// ---------------------------------------------------------------------------

/// Two hits come from the same index of the same package.
pub open spec fn same_bucket(a: HitView, b: HitView) -> bool {
    a.package == b.package && a.origin == b.origin
}

/// How many of the chosen hits come from where a hit comes from.
pub open spec fn bucket_count(hs: Seq<HitView>, chosen: Seq<int>, h: HitView) -> nat
    decreases chosen.len(),
{
    if chosen.len() == 0 {
        0
    } else {
        let before = bucket_count(hs, chosen.drop_last(), h);
        if same_bucket(hs[chosen.last()], h) {
            before + 1
        } else {
            before
        }
    }
}

/// How many of the chosen hits only variants of the query found.
pub open spec fn introduced_count(hs: Seq<HitView>, chosen: Seq<int>) -> nat
    decreases chosen.len(),
{
    if chosen.len() == 0 {
        0
    } else {
        let before = introduced_count(hs, chosen.drop_last());
        if own(hs[chosen.last()]) {
            before
        } else {
            before + 1
        }
    }
}

/// A hit that still has room beside the chosen ones.
pub open spec fn has_room(
    hs: Seq<HitView>,
    chosen: Seq<int>,
    h: HitView,
    cap: nat,
    introduced: nat,
) -> bool {
    bucket_count(hs, chosen, h) < cap && (own(h) || introduced_count(hs, chosen) < introduced)
}

/// The hits in an order, with no more than `cap` from one index of one package, and no
/// more than `introduced` that only variants of the query found.
pub open spec fn diverse(hs: Seq<HitView>, order: Seq<int>, cap: nat, introduced: nat) -> Seq<int>
    decreases order.len(),
{
    if order.len() == 0 {
        seq![]
    } else {
        let before = diverse(hs, order.drop_last(), cap, introduced);
        if has_room(hs, before, hs[order.last()], cap, introduced) {
            before.push(order.last())
        } else {
            before
        }
    }
}

/// How many hits of a pool may come from one index of one package: a third of it, but no
/// fewer than three.
pub open spec fn bucket_cap(pool_size: nat) -> nat {
    if pool_size / 3 > 3 {
        pool_size / 3
    } else {
        3
    }
}

/// The first of a sequence, as many as are asked for.
pub open spec fn at_most<T>(s: Seq<T>, n: nat) -> Seq<T> {
    if n < s.len() {
        s.take(n as int)
    } else {
        s
    }
}

/// The pool: the best hits in falling order, spread over the indices.
pub open spec fn pool(hs: Seq<HitView>, keys: Seq<u64>, pool_size: nat, introduced: nat) -> Seq<
    int,
> {
    at_most(diverse(hs, rank::falling(keys), bucket_cap(pool_size), introduced), pool_size)
}

fn count_bucket(hits: &Vec<UnifiedHit>, chosen: &Vec<usize>, h: &UnifiedHit) -> (n: usize)
    requires
        forall|i: int| 0 <= i < chosen@.len() ==> #[trigger] chosen@[i] < hits@.len(),
    ensures
        n == bucket_count(hit_views(hits@), places(chosen@), h@),
{
    let mut n: usize = 0;
    let mut i: usize = 0;
    let ghost hs = hit_views(hits@);
    let ghost cs = places(chosen@);
    assert(cs.take(0) =~= seq![]);
    while i < chosen.len()
        invariant
            i <= chosen@.len(),
            n <= i,
            hs == hit_views(hits@),
            cs == places(chosen@),
            forall|j: int| 0 <= j < chosen@.len() ==> #[trigger] chosen@[j] < hits@.len(),
            n == bucket_count(hs, cs.take(i as int), h@),
        decreases chosen.len() - i,
    {
        let at: usize = chosen[i];
        proof {
            assert(cs.take(i + 1).drop_last() =~= cs.take(i as int));
            assert(cs.take(i + 1).last() == at);
            assert(hs[at as int] == hits@[at as int]@);
        }
        if hits[at].origin == h.origin && same_text(hits[at].package.as_str(), h.package.as_str()) {
            n = n + 1;
        }
        i = i + 1;
    }
    assert(cs.take(chosen@.len() as int) =~= cs);
    n
}

/// Choose the hits to look at closely. `keys` gives the place of each hit's score in the
/// order of scores; `introduced` is how many hits may be chosen that only variants of the
/// query found.
pub fn select_pool(
    hits: &Vec<UnifiedHit>,
    keys: &Vec<u64>,
    pool_size: usize,
    introduced: usize,
) -> (r: Vec<usize>)
    requires
        keys@.len() == hits@.len(),
    ensures
        places(r@) == pool(hit_views(hits@), keys@, pool_size as nat, introduced as nat),
        forall|i: int| 0 <= i < r@.len() ==> #[trigger] r@[i] < hits@.len(),
{
    let cap: usize = if pool_size / 3 > 3 {
        pool_size / 3
    } else {
        3
    };
    let order = order_falling(keys);
    let ghost hs = hit_views(hits@);
    let ghost os = rank::falling(keys@);
    let ghost all = diverse(hs, os, cap as nat, introduced as nat);
    let mut r: Vec<usize> = Vec::new();
    let mut added: usize = 0;
    let mut i: usize = 0;
    proof {
        assert(os.take(0) =~= seq![]);
        assert(places(r@) =~= seq![]);
        assert(os.take(os.len() as int) =~= os);
        lemma_diverse_grows(hs, os, cap as nat, introduced as nat, 0);
    }
    while i < order.len() && r.len() < pool_size
        invariant
            i <= order@.len(),
            hs == hit_views(hits@),
            os == places(order@),
            r@.len() <= pool_size,
            forall|j: int| 0 <= j < order@.len() ==> #[trigger] order@[j] < hits@.len(),
            forall|j: int| 0 <= j < r@.len() ==> #[trigger] r@[j] < hits@.len(),
            places(r@) == diverse(hs, os.take(i as int), cap as nat, introduced as nat),
            added == introduced_count(hs, places(r@)),
            added <= r@.len(),
        decreases order.len() - i,
    {
        let at: usize = order[i];
        proof {
            assert(os.take(i + 1).drop_last() =~= os.take(i as int));
            assert(os.take(i + 1).last() == at);
            assert(hs[at as int] == hits@[at as int]@);
        }
        let ghost before = places(r@);
        let from_query = is_own(&hits[at]);
        if count_bucket(hits, &r, &hits[at]) < cap && (from_query || added < introduced) {
            r.push(at);
            proof {
                assert(places(r@) =~= before.push(at as int));
                assert(places(r@).drop_last() =~= before);
            }
            if !from_query {
                added = added + 1;
            }
        }
        i = i + 1;
    }
    proof {
        lemma_diverse_grows(hs, os, cap as nat, introduced as nat, i as int);
        assert(os.take(os.len() as int) =~= os);
        assert(places(r@).len() == r@.len());
        if i == order@.len() {
            assert(places(r@) == all);
        }
        assert(places(r@) =~= at_most(all, pool_size as nat));
    }
    r
}

/// The choice from the first of an order begins the choice from all of it.
proof fn lemma_diverse_grows(
    hs: Seq<HitView>,
    order: Seq<int>,
    cap: nat,
    introduced: nat,
    i: int,
)
    requires
        0 <= i <= order.len(),
    ensures
        diverse(hs, order.take(i), cap, introduced).len() <= diverse(
            hs,
            order,
            cap,
            introduced,
        ).len(),
        diverse(hs, order, cap, introduced).take(
            diverse(hs, order.take(i), cap, introduced).len() as int,
        ) =~= diverse(hs, order.take(i), cap, introduced),
    decreases order.len() - i,
{
    let all = diverse(hs, order, cap, introduced);
    let a = diverse(hs, order.take(i), cap, introduced);
    if i < order.len() {
        lemma_diverse_grows(hs, order, cap, introduced, i + 1);
        assert(order.take(i + 1).drop_last() =~= order.take(i));
        let b = diverse(hs, order.take(i + 1), cap, introduced);
        assert(b.take(a.len() as int) =~= a);
        assert(all.take(a.len() as int) =~= b.take(a.len() as int));
    } else {
        assert(order.take(i) =~= order);
        assert(all.take(all.len() as int) =~= all);
    }
}

/// No index of a package fills a pool: no more hits than the cap come from it.
pub proof fn no_source_fills_the_pool(
    hs: Seq<HitView>,
    keys: Seq<u64>,
    pool_size: nat,
    introduced: nat,
    h: HitView,
)
    ensures
        bucket_count(hs, pool(hs, keys, pool_size, introduced), h) <= bucket_cap(pool_size),
{
    let cap = bucket_cap(pool_size);
    let all = diverse(hs, rank::falling(keys), cap, introduced);
    lemma_diverse_counts(hs, rank::falling(keys), cap, introduced, h);
    if pool_size < all.len() {
        lemma_counts_grow(hs, all, h, pool_size as int);
    }
}

/// Where variants may add hits of their own, no more of these are in a pool than are
/// allowed.
pub proof fn variants_do_not_fill_the_pool(
    hs: Seq<HitView>,
    keys: Seq<u64>,
    pool_size: nat,
    introduced: nat,
)
    ensures
        introduced_count(hs, pool(hs, keys, pool_size, introduced)) <= introduced,
{
    let h = hs[0];
    let cap = bucket_cap(pool_size);
    let all = diverse(hs, rank::falling(keys), cap, introduced);
    lemma_diverse_counts(hs, rank::falling(keys), cap, introduced, h);
    if pool_size < all.len() {
        lemma_counts_grow(hs, all, h, pool_size as int);
    }
}

proof fn lemma_diverse_counts(
    hs: Seq<HitView>,
    order: Seq<int>,
    cap: nat,
    introduced: nat,
    h: HitView,
)
    ensures
        bucket_count(hs, diverse(hs, order, cap, introduced), h) <= cap,
        introduced_count(hs, diverse(hs, order, cap, introduced)) <= introduced,
    decreases order.len(),
{
    if order.len() > 0 {
        let before = diverse(hs, order.drop_last(), cap, introduced);
        let x = hs[order.last()];
        lemma_diverse_counts(hs, order.drop_last(), cap, introduced, h);
        let after = diverse(hs, order, cap, introduced);
        if has_room(hs, before, x, cap, introduced) {
            assert(after.drop_last() =~= before);
            if same_bucket(x, h) {
                lemma_same_count(hs, before, x, h);
            }
        }
    }
}

proof fn lemma_counts_grow(hs: Seq<HitView>, chosen: Seq<int>, h: HitView, n: int)
    requires
        0 <= n <= chosen.len(),
    ensures
        bucket_count(hs, chosen.take(n), h) <= bucket_count(hs, chosen, h),
        introduced_count(hs, chosen.take(n)) <= introduced_count(hs, chosen),
    decreases chosen.len(),
{
    if n < chosen.len() {
        lemma_counts_grow(hs, chosen.drop_last(), h, n);
        assert(chosen.drop_last().take(n) =~= chosen.take(n));
    } else {
        assert(chosen.take(n) =~= chosen);
    }
}

proof fn lemma_same_count(hs: Seq<HitView>, chosen: Seq<int>, a: HitView, b: HitView)
    requires
        same_bucket(a, b),
    ensures
        bucket_count(hs, chosen, a) == bucket_count(hs, chosen, b),
    decreases chosen.len(),
{
    if chosen.len() > 0 {
        lemma_same_count(hs, chosen.drop_last(), a, b);
    }
}

// ---------------------------------------------------------------------------
// What fusing and choosing come to
// ---------------------------------------------------------------------------

/// Two hits of code at the same line of the same file are the same thing, whichever index
/// they come from; at another line they are not. Passages are told apart by their text, and
/// are never the same thing as code.
pub proof fn hits_are_told_apart(a: HitView, b: HitView)
    requires
        a.package == b.package,
        a.path == b.path,
    ensures
        a.origin != HitOrigin::Docs && b.origin != HitOrigin::Docs && a.start_line > 0
            && b.start_line > 0 ==> (key(a) == key(b) <==> a.start_line == b.start_line),
        a.origin == HitOrigin::Docs && b.origin == HitOrigin::Docs ==> (key(a) == key(b) <==> a.snippet
            == b.snippet),
        (a.origin == HitOrigin::Docs) != (b.origin == HitOrigin::Docs) ==> key(a) != key(b),
        a.origin != HitOrigin::Docs && b.origin != HitOrigin::Docs && a.start_line == 0
            && b.start_line == 0 && said(a.symbol) && a.symbol == b.symbol ==> key(a) == key(b),
{
    let file = a.package + ":"@ + normal_path(a.path);
    if a.origin != HitOrigin::Docs && b.origin != HitOrigin::Docs && a.start_line > 0
        && b.start_line > 0 && key(a) == key(b) {
        let front = file + ":"@;
        let x = front + pieces::decimal(a.start_line as nat);
        let y = front + pieces::decimal(b.start_line as nat);
        assert(x == y);
        assert(x.skip(front.len() as int) =~= pieces::decimal(a.start_line as nat));
        assert(y.skip(front.len() as int) =~= pieces::decimal(b.start_line as nat));
        pieces::numbers_are_told_apart(a.start_line as nat, b.start_line as nat);
    }
}

/// Of two hits of the same thing the one that carries more is kept: code before a place in
/// the graph, a place before a passage, and of the same origin the longer text. It keeps its
/// file and its text, has the shares of both, and lacks nothing that either of them says.
pub proof fn the_richer_hit_is_kept(kept: HitView, new: HitView)
    ensures
        ({
            let f = fused(kept, new);
            let has = |o: HitOrigin| kept.origin == o || new.origin == o;
            &&& f.origin == (if has(HitOrigin::Code) {
                HitOrigin::Code
            } else if has(HitOrigin::Codegraph) {
                HitOrigin::Codegraph
            } else {
                HitOrigin::Docs
            })
            &&& (f.snippet == kept.snippet && f.origin == kept.origin && f.path == kept.path && f.package
                == kept.package) || (f.snippet == new.snippet && f.origin == new.origin && f.path
                == new.path && f.package == new.package)
            &&& kept.origin == new.origin ==> pieces::byte_len(f.snippet) >= pieces::byte_len(
                kept.snippet,
            ) && pieces::byte_len(f.snippet) >= pieces::byte_len(new.snippet)
            &&& f.shares == kept.shares + new.shares
            &&& said(kept.symbol) || said(new.symbol) ==> said(f.symbol)
            &&& said(kept.kind) || said(new.kind) ==> said(f.kind)
            &&& said(kept.signature) || said(new.signature) ==> said(f.signature)
            &&& kept.start_line > 0 || new.start_line > 0 ==> f.start_line > 0
            &&& f.symbol == kept.symbol || f.symbol == new.symbol
            &&& f.kind == kept.kind || f.kind == new.kind
            &&& f.signature == kept.signature || f.signature == new.signature
            &&& (f.start_line == kept.start_line && f.end_line == kept.end_line) || (f.start_line
                == new.start_line && f.end_line == new.end_line)
        }),
{
    if said(kept.symbol) || said(new.symbol) {
        lemma_longer_said(kept.symbol, new.symbol);
        lemma_longer_said(new.symbol, kept.symbol);
    }
}

proof fn lemma_longer_said(w: Option<Seq<char>>, d: Option<Seq<char>>)
    requires
        said(w) || said(d),
    ensures
        said(longer_name(w, d)),
{
    match (w, d) {
        (Some(x), Some(y)) => {
            pieces::lemma_byte_len_bounds(x);
            pieces::lemma_byte_len_bounds(y);
        },
        _ => {},
    }
}

/// What comes out of fusing was found: each thing has the file, the text and the origin of
/// one of the hits of it, and none of those carries more.
pub proof fn fused_hits_were_found(hs: Seq<HitView>, j: int)
    requires
        0 <= j < entries(hs).len(),
    ensures
        exists|i: int|
            0 <= i < hs.len() && key(#[trigger] hs[i]) == entries(hs)[j].key && hs[i].package
                == entries(hs)[j].hit.package && hs[i].path == entries(hs)[j].hit.path
                && hs[i].snippet == entries(hs)[j].hit.snippet && hs[i].origin
                == entries(hs)[j].hit.origin,
        forall|i: int|
            0 <= i < hs.len() && key(#[trigger] hs[i]) == entries(hs)[j].key ==> priority(
                hs[i].origin,
            ) <= priority(entries(hs)[j].hit.origin),
    decreases hs.len(),
{
    let t = hs.drop_last();
    let h = hs.last();
    let before = entries(t);
    let after = entries(hs);
    let s = entry_slot(before, key(h));
    lemma_entry_slot_bounds(before, key(h));
    let last = hs.len() - 1;
    if j < before.len() {
        fused_hits_were_found(t, j);
        let i = choose|i: int|
            0 <= i < t.len() && key(#[trigger] t[i]) == before[j].key && t[i].package
                == before[j].hit.package && t[i].path == before[j].hit.path && t[i].snippet
                == before[j].hit.snippet && t[i].origin == before[j].hit.origin;
        assert(hs[i] == t[i]);
        if s == j {
            the_richer_hit_is_kept(before[j].hit, h);
            assert(hs[last] == h);
        } else {
            assert(after[j] == before[j]);
            fusing_keeps_every_share(t);
        }
        assert forall|i: int|
            0 <= i < hs.len() && key(#[trigger] hs[i]) == after[j].key implies priority(hs[i].origin)
            <= priority(after[j].hit.origin) by {
            if i < last {
                assert(t[i] == hs[i]);
            } else if s != j {
                assert(before[j].key == key(h));
                assert(false);
            }
        }
    } else {
        assert(after[j] == (Entry { key: key(h), hit: h }));
        assert(hs[last] == h);
        assert forall|i: int|
            0 <= i < hs.len() && key(#[trigger] hs[i]) == after[j].key implies priority(hs[i].origin)
            <= priority(after[j].hit.origin) by {
            if i < last {
                assert(t[i] == hs[i]);
                fusing_keeps_every_share(t);
            }
        }
    }
}

proof fn lemma_diverse(hs: Seq<HitView>, order: Seq<int>, cap: nat, introduced: nat)
    ensures
        forall|i: int|
            0 <= i < diverse(hs, order, cap, introduced).len() ==> order.contains(
                #[trigger] diverse(hs, order, cap, introduced)[i],
            ),
        forall|i: int|
            0 <= i < order.len() && !diverse(hs, order, cap, introduced).contains(
                #[trigger] order[i],
            ) ==> !has_room(
                hs,
                diverse(hs, order, cap, introduced),
                hs[order[i]],
                cap,
                introduced,
            ),
    decreases order.len(),
{
    if order.len() > 0 {
        let t = order.drop_last();
        let x = order.last();
        lemma_diverse(hs, t, cap, introduced);
        let before = diverse(hs, t, cap, introduced);
        let after = diverse(hs, order, cap, introduced);
        assert forall|i: int| 0 <= i < after.len() implies order.contains(#[trigger] after[i]) by {
            if i < before.len() {
                assert(after[i] == before[i]);
                let k = choose|k: int| 0 <= k < t.len() && t[k] == before[i];
                assert(order[k] == before[i]);
            } else {
                assert(order[order.len() - 1] == x);
            }
        }
        assert forall|i: int| 0 <= i < order.len() && !after.contains(#[trigger] order[i]) implies
            !has_room(hs, after, hs[order[i]], cap, introduced) by {
            if i < t.len() {
                assert(t[i] == order[i]);
                if before.contains(t[i]) {
                    let k = choose|k: int| 0 <= k < before.len() && before[k] == t[i];
                    assert(after[k] == t[i]);
                }
                if after.len() > before.len() {
                    assert(after.drop_last() =~= before);
                }
            } else if after.len() > before.len() {
                assert(after[before.len() as int] == x);
            }
        }
    }
}

/// Nothing is left out of the pool without a cause: the pool is full, or it has as many hits
/// from that index of the package as it may have, or the hit was found by variants only and
/// there are as many of these as may be.
pub proof fn nothing_is_left_out_without_cause(
    hs: Seq<HitView>,
    keys: Seq<u64>,
    pool_size: nat,
    introduced: nat,
    i: int,
)
    requires
        keys.len() == hs.len(),
        0 <= i < hs.len(),
        !pool(hs, keys, pool_size, introduced).contains(i),
    ensures
        ({
            let p = pool(hs, keys, pool_size, introduced);
            ||| p.len() == pool_size
            ||| bucket_count(hs, p, hs[i]) >= 3 && bucket_count(hs, p, hs[i]) >= pool_size / 3
            ||| !own(hs[i]) && introduced_count(hs, p) >= introduced
        }),
{
    let order = rank::falling(keys);
    rank::falling_is_in_order(keys);
    lemma_diverse(hs, order, bucket_cap(pool_size), introduced);
    let d = diverse(hs, order, bucket_cap(pool_size), introduced);
    if d.len() < pool_size {
        assert(order.contains(i));
        let k = choose|k: int| 0 <= k < order.len() && order[k] == i;
        assert(!d.contains(order[k]));
    }
}

proof fn lemma_diverse_order(
    hs: Seq<HitView>,
    order: Seq<int>,
    cap: nat,
    introduced: nat,
    a: int,
    b: int,
)
    requires
        0 <= a < b < diverse(hs, order, cap, introduced).len(),
    ensures
        exists|x: int, y: int|
            0 <= x < y < order.len() && #[trigger] order[x] == diverse(hs, order, cap, introduced)[a]
                && #[trigger] order[y] == diverse(hs, order, cap, introduced)[b],
    decreases order.len(),
{
    let t = order.drop_last();
    let before = diverse(hs, t, cap, introduced);
    let after = diverse(hs, order, cap, introduced);
    if b < before.len() {
        lemma_diverse_order(hs, t, cap, introduced, a, b);
        let (x, y) = choose|x: int, y: int|
            0 <= x < y < t.len() && #[trigger] t[x] == before[a] && #[trigger] t[y] == before[b];
        assert(order[x] == after[a] && order[y] == after[b]);
    } else {
        lemma_diverse(hs, t, cap, introduced);
        assert(t.contains(before[a]));
        let x = choose|x: int| 0 <= x < t.len() && t[x] == before[a];
        assert(order[x] == after[a] && order[order.len() - 1] == after[b]);
    }
}

/// The pool holds no more hits than it may, each of them once, and the better ones first.
pub proof fn the_pool_is_in_order(
    hs: Seq<HitView>,
    keys: Seq<u64>,
    pool_size: nat,
    introduced: nat,
    a: int,
    b: int,
)
    requires
        keys.len() == hs.len(),
        0 <= a < b < pool(hs, keys, pool_size, introduced).len(),
    ensures
        ({
            let p = pool(hs, keys, pool_size, introduced);
            &&& p.len() <= pool_size
            &&& 0 <= p[a] < hs.len() && 0 <= p[b] < hs.len()
            &&& p[a] != p[b]
            &&& keys[p[a]] >= keys[p[b]]
        }),
{
    let order = rank::falling(keys);
    rank::falling_is_in_order(keys);
    lemma_diverse_order(hs, order, bucket_cap(pool_size), introduced, a, b);
    let p = pool(hs, keys, pool_size, introduced);
    let (x, y) = choose|x: int, y: int|
        0 <= x < y < order.len() && #[trigger] order[x] == p[a] && #[trigger] order[y] == p[b];
    assert(0 <= order[x] < keys.len() && 0 <= order[y] < keys.len());
}

/// The query itself counts twice, and a variant of it once.
pub proof fn the_query_counts_twice()
    ensures
        VARIANT_WEIGHT == 1,
        QUERY_WEIGHT == 2 * VARIANT_WEIGHT,
{
}

/// The first of a list are the list as far as it goes, and no more than asked for.
pub proof fn the_first_are_kept<T>(s: Seq<T>, n: nat, i: int)
    ensures
        at_most(s, n).len() <= n,
        at_most(s, n).len() <= s.len(),
        s.len() <= n ==> at_most(s, n) == s,
        s.len() >= n ==> at_most(s, n).len() == n,
        0 <= i < n && i < s.len() ==> at_most(s, n)[i] == s[i],
{
}

/// The hits that the query itself found are kept one by one, in their order.
pub proof fn own_hits_are_kept_one_by_one(a: Seq<HitView>, b: Seq<HitView>, h: HitView)
    ensures
        own_hits(a + b) == own_hits(a) + own_hits(b),
        own(h) ==> own_hits(seq![h]) == seq![h],
        !own(h) ==> own_hits(seq![h]).len() == 0,
    decreases b.len(),
{
    reveal_with_fuel(own_hits, 2);
    let one = seq![h];
    assert(one.drop_last() =~= Seq::<HitView>::empty());
    assert(Seq::<HitView>::empty().push(h) =~= one);
    if b.len() == 0 {
        assert(a + b =~= a);
        assert(own_hits(a) + own_hits(b) =~= own_hits(a));
    } else {
        let t = b.drop_last();
        own_hits_are_kept_one_by_one(a, t, h);
        assert((a + b).drop_last() =~= a + t);
        assert((own_hits(a) + own_hits(t)).push(b.last()) =~= own_hits(a) + own_hits(t).push(
            b.last(),
        ));
    }
}

/// A thing keeps its place among the things found as more hits come in, and a new thing comes
/// last.
pub proof fn things_keep_their_place(hs: Seq<HitView>, h: HitView, j: int)
    requires
        0 <= j < entries(hs).len(),
    ensures
        entries(hs.push(h))[j].key == entries(hs)[j].key,
        key(h) != entries(hs)[j].key ==> entries(hs.push(h))[j] == entries(hs)[j],
        (forall|i: int| 0 <= i < hs.len() ==> key(#[trigger] hs[i]) != key(h)) ==> entries(
            hs.push(h),
        ) == entries(hs).push(Entry { key: key(h), hit: h }),
{
    let es = entries(hs);
    assert(hs.push(h).drop_last() =~= hs);
    lemma_entry_slot_bounds(es, key(h));
    if forall|i: int| 0 <= i < hs.len() ==> key(#[trigger] hs[i]) != key(h) {
        let s = entry_slot(es, key(h));
        if s < es.len() {
            fused_hits_were_found(hs, s);
            let i = choose|i: int|
                0 <= i < hs.len() && key(#[trigger] hs[i]) == es[s].key && hs[i].package
                    == es[s].hit.package && hs[i].path == es[s].hit.path && hs[i].snippet
                    == es[s].hit.snippet && hs[i].origin == es[s].hit.origin;
            assert(key(hs[i]) == key(h));
        }
    }
}

proof fn lemma_slashes(p: Seq<char>)
    ensures
        pieces::replaced(p, "\\"@, "/"@).len() == p.len(),
        forall|i: int|
            0 <= i < p.len() ==> #[trigger] pieces::replaced(p, "\\"@, "/"@)[i] == (if p[i] == '\\' {
                '/'
            } else {
                p[i]
            }),
    decreases p.len(),
{
    reveal_strlit("\\");
    reveal_strlit("/");
    assert("\\"@ =~= seq!['\\']);
    assert("/"@ =~= seq!['/']);
    if p.len() > 0 {
        let t = p.drop_last();
        let c = p.last();
        lemma_slashes(t);
        assert(p =~= t + seq![c]);
        pieces::characters_are_replaced_one_by_one(t, seq![c], '\\', c, "/"@);
    } else {
        pieces::characters_are_replaced_one_by_one(p, p, '\\', 'a', "/"@);
        assert(p =~= Seq::<char>::empty());
    }
}

/// Paths are compared without regard to the case of ASCII letters and to which slash they are
/// written with.
pub proof fn case_and_slashes_do_not_matter(p: Seq<char>, i: int)
    requires
        0 <= i < p.len(),
        forall|j: int| 0 <= j < p.len() ==> (#[trigger] p[j] as u32) < 0x80,
    ensures
        normal_path(p).len() == p.len(),
        p[i] == '\\' ==> normal_path(p)[i] == '/',
        'A' <= p[i] <= 'Z' ==> normal_path(p)[i] as u32 == p[i] as u32 + 32,
        p[i] != '\\' && !('A' <= p[i] <= 'Z') ==> normal_path(p)[i] == p[i],
{
    lemma_slashes(p);
    let r = pieces::replaced(p, "\\"@, "/"@);
    assert forall|j: int| 0 <= j < r.len() implies (#[trigger] r[j] as u32) < 0x80 by {
        assert((p[j] as u32) < 0x80);
    }
    assert(r[i] == (if p[i] == '\\' {
        '/'
    } else {
        p[i]
    }));
}

/// The hits of an index of a package are counted one by one, and so are those that only
/// variants found.
pub proof fn chosen_hits_are_counted(
    hs: Seq<HitView>,
    a: Seq<int>,
    b: Seq<int>,
    p: int,
    h: HitView,
)
    ensures
        bucket_count(hs, a + b, h) == bucket_count(hs, a, h) + bucket_count(hs, b, h),
        bucket_count(hs, seq![p], h) == (if hs[p].package == h.package && hs[p].origin == h.origin {
            1nat
        } else {
            0
        }),
        introduced_count(hs, a + b) == introduced_count(hs, a) + introduced_count(hs, b),
        introduced_count(hs, seq![p]) == (if own(hs[p]) {
            0nat
        } else {
            1
        }),
    decreases b.len(),
{
    reveal_with_fuel(bucket_count, 2);
    reveal_with_fuel(introduced_count, 2);
    assert(seq![p].drop_last() =~= Seq::<int>::empty());
    if b.len() == 0 {
        assert(a + b =~= a);
    } else {
        chosen_hits_are_counted(hs, a, b.drop_last(), p, h);
        assert((a + b).drop_last() =~= a + b.drop_last());
    }
}

/// One index of one package gives no more than a third of the pool, or three hits.
pub proof fn the_cap_is_a_third(pool_size: nat)
    ensures
        pool_size >= 9 ==> 3 * bucket_cap(pool_size) <= pool_size < 3 * bucket_cap(pool_size) + 3,
        pool_size < 9 ==> bucket_cap(pool_size) == 3,
{
}

/// Places whose lines are not known are told apart by their symbols, in whatever case these are
/// written, and files that differ in case or slashes are the same file.
pub proof fn symbols_are_told_apart_without_case(a: HitView, b: HitView)
    requires
        a.package == b.package,
        normal_path(a.path) == normal_path(b.path),
        a.origin != HitOrigin::Docs,
        b.origin != HitOrigin::Docs,
    ensures
        a.start_line == 0 && b.start_line == 0 && said(a.symbol) && said(b.symbol) ==> (key(a) == key(
            b,
        ) <==> text::lowercased(a.symbol->0) == text::lowercased(b.symbol->0)),
        a.start_line == b.start_line && a.start_line > 0 ==> key(a) == key(b),
        a.start_line == 0 && b.start_line == 0 && !said(a.symbol) && !said(b.symbol) ==> key(a)
            == key(b),
{
    if a.start_line == 0 && b.start_line == 0 && said(a.symbol) && said(b.symbol) && key(a) == key(
        b,
    ) {
        let front = a.package + ":"@ + normal_path(a.path) + ":"@;
        let x = front + text::lowercased(a.symbol->0);
        let y = front + text::lowercased(b.symbol->0);
        assert(x == y);
        assert(x.skip(front.len() as int) =~= text::lowercased(a.symbol->0));
        assert(y.skip(front.len() as int) =~= text::lowercased(b.symbol->0));
    }
}

/// A longer name replaces a shorter one, and of two that are as long the one that is there
/// stays; a signature and a kind that are there always stay.
pub proof fn longer_names_win(w: Seq<char>, d: Seq<char>)
    ensures
        pieces::byte_len(d) > pieces::byte_len(w) ==> longer_name(Some(w), Some(d)) == Some(d),
        pieces::byte_len(d) <= pieces::byte_len(w) ==> longer_name(Some(w), Some(d)) == Some(w),
        longer_name(None, Some(d)) == Some(d),
        longer_name(Some(w), None) == Some(w),
        w.len() > 0 ==> first_said(Some(w), Some(d)) == Some(w),
        d.len() > 0 ==> first_said(None, Some(d)) == Some(d),
        w.len() == 0 && d.len() > 0 ==> first_said(Some(w), Some(d)) == Some(d),
{
}

/// A package is surfaced by any hit in it that the query itself found, and by nothing else.
pub proof fn only_own_hits_surface_a_package(hs: Seq<HitView>, package: Seq<char>, i: int)
    ensures
        0 <= i < hs.len() && own(hs[i]) && hs[i].package == package ==> surfaced(hs, package),
        (forall|j: int| 0 <= j < hs.len() ==> (#[trigger] hs[j]).package != package) ==> !surfaced(
            hs,
            package,
        ),
        (forall|j: int| 0 <= j < hs.len() ==> !own(#[trigger] hs[j])) ==> !surfaced(hs, package),
{
}

} // verus!
