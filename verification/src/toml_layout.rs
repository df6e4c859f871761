//! How TOML is written: the comments and the white space beside what is set.

use vstd::prelude::*;

verus! {

/// How one entry is written.
pub ghost enum EntryLayout {
    /// A value: how its key is written, with the comments above it; what stands before and
    /// behind the value on its line; and how the value itself is written.
    Value {
        key: Seq<char>,
        around: (Option<Seq<char>>, Option<Seq<char>>),
        written: Seq<char>,
    },
    /// A table: what stands around its header, with the comments above it.
    Header(Seq<char>),
    /// An array of tables.
    Rows(Seq<char>),
}

/// How each entry is written that a path of keys leads to. The empty path leads to the
/// table itself.
pub type Layout = Map<Seq<Seq<char>>, EntryLayout>;

/// A key is set to a value.
pub open spec fn at_value(l: Layout, key: Seq<char>) -> bool {
    l.dom().contains(seq![key]) && l[seq![key]] is Value
}

/// A key is set to a table.
pub open spec fn at_header(l: Layout, key: Seq<char>) -> bool {
    l.dom().contains(seq![key]) && l[seq![key]] is Header
}

/// The paths that begin with a key.
pub open spec fn begins(p: Seq<Seq<char>>, key: Seq<char>) -> bool {
    p.len() > 0 && p[0] == key
}

/// The part of a layout that a key leads to.
pub open spec fn under(l: Layout, key: Seq<char>) -> Layout {
    Map::new(
        |p: Seq<Seq<char>>| l.dom().contains(seq![key] + p),
        |p: Seq<Seq<char>>| l[seq![key] + p],
    )
}

/// Two layouts differ at most in what a key leads to.
#[verifier::opaque]
pub open spec fn apart(a: Layout, b: Layout, key: Seq<char>) -> bool {
    forall|p: Seq<Seq<char>>|
        !begins(p, key) ==> (#[trigger] a.dom().contains(p) == b.dom().contains(p)) && (
        a.dom().contains(p) ==> b[p] == a[p])
}

/// The comments of a value: those above its key and those on its line.
pub open spec fn same_comments(x: EntryLayout, y: EntryLayout) -> bool {
    match (x, y) {
        (
            EntryLayout::Value { key: k, around: a, .. },
            EntryLayout::Value { key: l, around: b, .. },
        ) => k == l && a == b,
        _ => false,
    }
}

/// A key was set to a value: nothing else changed, and where the key was set to a value
/// before, its comments are still there.
pub open spec fn is_set(a: Layout, b: Layout, key: Seq<char>) -> bool {
    apart(a, b, key) && (at_value(a, key) ==> at_value(b, key) && same_comments(
        a[seq![key]],
        b[seq![key]],
    ))
}

/// What is kept of a layout: an entry that is not rewritten is written as it was, and a
/// value that is not dropped has the comments that it had.
#[verifier::opaque]
pub open spec fn keeps(
    a: Layout,
    b: Layout,
    rewritten: spec_fn(Seq<Seq<char>>) -> bool,
    dropped: spec_fn(Seq<Seq<char>>) -> bool,
) -> bool {
    &&& forall|p: Seq<Seq<char>>| #[trigger]
        a.dom().contains(p) && !rewritten(p) ==> b.dom().contains(p) && b[p] == a[p]
    &&& forall|p: Seq<Seq<char>>| #[trigger]
        a.dom().contains(p) && a[p] is Value && !dropped(p) ==> b.dom().contains(p)
            && same_comments(a[p], b[p])
}

/// A layout keeps itself.
pub proof fn lemma_keeps_self(
    a: Layout,
    rewritten: spec_fn(Seq<Seq<char>>) -> bool,
    dropped: spec_fn(Seq<Seq<char>>) -> bool,
)
    ensures
        keeps(a, a, rewritten, dropped),
{
    reveal(keeps);
}

/// What is kept by one step and by the next is kept by both.
pub proof fn lemma_keeps_on(
    a: Layout,
    b: Layout,
    c: Layout,
    rewritten: spec_fn(Seq<Seq<char>>) -> bool,
    dropped: spec_fn(Seq<Seq<char>>) -> bool,
)
    requires
        keeps(a, b, rewritten, dropped),
        keeps(b, c, rewritten, dropped),
    ensures
        keeps(a, c, rewritten, dropped),
{
    reveal(keeps);
    assert forall|p: Seq<Seq<char>>| #[trigger]
        a.dom().contains(p) && !rewritten(p) implies c.dom().contains(p) && c[p] == a[p] by {
        assert(b.dom().contains(p));
    }
    assert forall|p: Seq<Seq<char>>| #[trigger]
        a.dom().contains(p) && a[p] is Value && !dropped(p) implies c.dom().contains(p)
        && same_comments(a[p], c[p]) by {
        assert(b.dom().contains(p));
    }
}

/// What a key leads to was replaced or taken out.
pub proof fn lemma_replaced(
    a: Layout,
    b: Layout,
    key: Seq<char>,
    rewritten: spec_fn(Seq<Seq<char>>) -> bool,
    dropped: spec_fn(Seq<Seq<char>>) -> bool,
)
    requires
        apart(a, b, key),
        forall|p: Seq<Seq<char>>| begins(p, key) ==> #[trigger] rewritten(p),
        forall|p: Seq<Seq<char>>| begins(p, key) ==> #[trigger] dropped(p),
    ensures
        keeps(a, b, rewritten, dropped),
{
    reveal(keeps);
    reveal(apart);
    assert forall|p: Seq<Seq<char>>| #[trigger]
        a.dom().contains(p) && !rewritten(p) implies b.dom().contains(p) && b[p] == a[p] by {
        assert(!begins(p, key));
    }
    assert forall|p: Seq<Seq<char>>| #[trigger]
        a.dom().contains(p) && a[p] is Value && !dropped(p) implies b.dom().contains(p)
        && same_comments(a[p], b[p]) by {
        assert(!begins(p, key));
    }
}

/// A key was set to a value.
pub proof fn lemma_set(
    a: Layout,
    b: Layout,
    key: Seq<char>,
    rewritten: spec_fn(Seq<Seq<char>>) -> bool,
    dropped: spec_fn(Seq<Seq<char>>) -> bool,
)
    requires
        is_set(a, b, key),
        forall|p: Seq<Seq<char>>| begins(p, key) ==> #[trigger] rewritten(p),
        forall|p: Seq<Seq<char>>| begins(p, key) && p.len() > 1 ==> #[trigger] dropped(p),
    ensures
        keeps(a, b, rewritten, dropped),
{
    reveal(keeps);
    reveal(apart);
    assert forall|p: Seq<Seq<char>>| #[trigger]
        a.dom().contains(p) && !rewritten(p) implies b.dom().contains(p) && b[p] == a[p] by {
        assert(!begins(p, key));
    }
    assert forall|p: Seq<Seq<char>>| #[trigger]
        a.dom().contains(p) && a[p] is Value && !dropped(p) implies b.dom().contains(p)
        && same_comments(a[p], b[p]) by {
        if begins(p, key) {
            assert(p =~= seq![key]);
        }
    }
}

/// What a key leads to was changed: what is kept of it is kept of the whole.
pub proof fn lemma_under(
    a: Layout,
    b: Layout,
    key: Seq<char>,
    inner_rewritten: spec_fn(Seq<Seq<char>>) -> bool,
    inner_dropped: spec_fn(Seq<Seq<char>>) -> bool,
    rewritten: spec_fn(Seq<Seq<char>>) -> bool,
    dropped: spec_fn(Seq<Seq<char>>) -> bool,
)
    requires
        apart(a, b, key),
        keeps(under(a, key), under(b, key), inner_rewritten, inner_dropped),
        forall|p: Seq<Seq<char>>|
            begins(p, key) && inner_rewritten(p.skip(1)) ==> #[trigger] rewritten(p),
        forall|p: Seq<Seq<char>>|
            begins(p, key) && inner_dropped(p.skip(1)) ==> #[trigger] dropped(p),
    ensures
        keeps(a, b, rewritten, dropped),
{
    reveal(keeps);
    reveal(apart);
    let x = under(a, key);
    let y = under(b, key);
    assert forall|p: Seq<Seq<char>>| #[trigger]
        a.dom().contains(p) && !rewritten(p) implies b.dom().contains(p) && b[p] == a[p] by {
        if begins(p, key) {
            let q = p.skip(1);
            assert(seq![key] + q =~= p);
            assert(x.dom().contains(q) && x[q] == a[p]);
            assert(y.dom().contains(q) && y[q] == b[p]);
        }
    }
    assert forall|p: Seq<Seq<char>>| #[trigger]
        a.dom().contains(p) && a[p] is Value && !dropped(p) implies b.dom().contains(p)
        && same_comments(a[p], b[p]) by {
        if begins(p, key) {
            let q = p.skip(1);
            assert(seq![key] + q =~= p);
            assert(x.dom().contains(q) && x[q] == a[p]);
            assert(y.dom().contains(q) && y[q] == b[p]);
        }
    }
}

/// A table that is not rewritten is still a table.
pub proof fn lemma_header_stays(
    a: Layout,
    b: Layout,
    key: Seq<char>,
    rewritten: spec_fn(Seq<Seq<char>>) -> bool,
    dropped: spec_fn(Seq<Seq<char>>) -> bool,
)
    requires
        keeps(a, b, rewritten, dropped),
        at_header(a, key),
        !rewritten(seq![key]),
    ensures
        at_header(b, key),
{
    reveal(keeps);
    assert(a.dom().contains(seq![key]));
}

} // verus!
