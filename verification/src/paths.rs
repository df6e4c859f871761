//! File paths as texts with `/` between their components.

use vstd::prelude::*;

use crate::pieces;
use crate::pieces::{join_texts, split_class};
use crate::text;
use crate::text::{chars_of, same_text, string_of, CharClass};

verus! {

/// The path `name` taken from `base`: `name` itself where it is absolute, else
/// `name` behind `base` with one separator between them.
pub open spec fn joined(base: Seq<char>, name: Seq<char>) -> Seq<char> {
    if name.len() > 0 && name[0] == '/' {
        name
    } else if base.len() == 0 || base.last() == '/' {
        base + name
    } else {
        base + seq!['/'] + name
    }
}

pub fn join_path(base: &str, name: &str) -> (r: String)
    ensures
        r@ == joined(base@, name@),
{
    let bs = chars_of(base);
    let ns = chars_of(name);
    if ns.len() > 0 && ns[0] == '/' {
        return name.to_owned();
    }
    let mut r = base.to_owned();
    if bs.len() > 0 && bs[bs.len() - 1] != '/' {
        r.push('/');
        assert(r@ =~= base@ + seq!['/']);
    }
    r.append(name);
    r
}

pub open spec fn is_absolute(p: Seq<char>) -> bool {
    p.len() > 0 && p[0] == '/'
}

/// The named components of a path among its pieces: empty pieces fall out, and so
/// does `.`, but for a `.` that a relative path begins with.
pub open spec fn named(ps: Seq<Seq<char>>) -> Seq<Seq<char>>
    decreases ps.len(),
{
    if ps.len() == 0 {
        seq![]
    } else {
        let head = named(ps.drop_last());
        let p = ps.last();
        if p.len() == 0 || (p == "."@ && ps.len() > 1) {
            head
        } else {
            head.push(p)
        }
    }
}

/// The components of a path, without the root of an absolute one.
pub open spec fn components(p: Seq<char>) -> Seq<Seq<char>> {
    named(pieces::split(p, CharClass::Is('/')))
}

pub fn components_of(p: &str) -> (r: Vec<String>)
    ensures
        pieces::texts(r@) == components(p@),
{
    let cs = chars_of(p);
    let ps = split_class(cs.as_slice(), CharClass::Is('/'));
    let mut r: Vec<String> = Vec::new();
    let mut i: usize = 0;
    while i < ps.len()
        invariant
            i <= ps@.len(),
            pieces::rows(ps@) == pieces::split(p@, CharClass::Is('/')),
            pieces::texts(r@) == named(pieces::rows(ps@).take(i as int)),
        decreases ps.len() - i,
    {
        let ghost all = pieces::rows(ps@);
        let ghost before = pieces::texts(r@);
        let t = string_of(ps[i].as_slice());
        proof {
            assert(all.take(i + 1).drop_last() =~= all.take(i as int));
            assert(all.take(i + 1).last() == t@);
        }
        if ps[i].len() == 0 || (i > 0 && same_text(t.as_str(), ".")) {
        } else {
            r.push(t);
            assert(pieces::texts(r@) =~= before.push(t@));
        }
        i = i + 1;
    }
    assert(pieces::rows(ps@).take(ps@.len() as int) =~= pieces::rows(ps@));
    r
}

/// A path without its first component.
pub open spec fn without_first(p: Seq<char>) -> Seq<char> {
    let cs = components(p);
    if cs.len() == 0 {
        seq![]
    } else {
        pieces::join(cs.drop_first(), "/"@)
    }
}

/// What to do with one entry of a source archive.
#[derive(Debug, Clone)]
pub enum EntryAction {
    /// The entry names an absolute path: refuse the archive.
    RefuseAbsolute,
    /// The entry walks out of the directory that it is unpacked in: refuse the archive.
    RefuseTraversal,
    /// Leave the entry out.
    Skip,
    /// Unpack the entry at this path below the destination.
    Unpack(String),
}

/// What becomes of an entry of a source archive. Every entry is below one directory
/// that the archive was made from, and that component is left off.
pub open spec fn archive_entry(path: Seq<char>, is_symlink: bool, a: EntryAction) -> bool {
    if is_absolute(path) {
        a is RefuseAbsolute
    } else if components(path).contains(".."@) {
        a is RefuseTraversal
    } else if is_symlink || components(path).len() <= 1 {
        a is Skip
    } else {
        a matches EntryAction::Unpack(t) && t@ == without_first(path)
    }
}

pub fn archive_entry_action(path: &str, is_symlink: bool) -> (a: EntryAction)
    ensures
        archive_entry(path@, is_symlink, a),
{
    let cs = chars_of(path);
    if cs.len() > 0 && cs[0] == '/' {
        return EntryAction::RefuseAbsolute;
    }
    let parts = components_of(path);
    if pieces::has_member(&parts, "..") {
        return EntryAction::RefuseTraversal;
    }
    if is_symlink || parts.len() <= 1 {
        return EntryAction::Skip;
    }
    EntryAction::Unpack(join_tail(&parts))
}

/// The components behind the first one, as a path.
pub fn join_tail(parts: &Vec<String>) -> (r: String)
    requires
        parts@.len() > 0,
    ensures
        r@ == pieces::join(pieces::texts(parts@).drop_first(), "/"@),
{
    let mut tail: Vec<String> = Vec::new();
    let mut i: usize = 1;
    while i < parts.len()
        invariant
            1 <= i <= parts@.len(),
            tail@ == parts@.subrange(1, i as int),
        decreases parts.len() - i,
    {
        tail.push(parts[i].clone());
        i = i + 1;
        assert(parts@.subrange(1, i as int) =~= parts@.subrange(1, i - 1).push(parts@[i - 1]));
    }
    proof {
        assert(pieces::texts(tail@) =~= pieces::texts(parts@).drop_first());
    }
    join_texts(&tail, "/")
}

/// Nothing that is unpacked from an archive leaves the destination: the path is
/// relative and has no component that names a parent directory.
pub proof fn unpacked_paths_stay_inside(path: Seq<char>, is_symlink: bool, a: EntryAction)
    requires
        archive_entry(path, is_symlink, a),
        a is Unpack,
    ensures
        !is_absolute(a->Unpack_0@),
        forall|i: int|
            0 <= i < components(path).drop_first().len() ==> #[trigger] components(
                path,
            ).drop_first()[i] != ".."@,
        a->Unpack_0@ == pieces::join(components(path).drop_first(), "/"@),
{
    let cs = components(path);
    let tail = cs.drop_first();
    lemma_named(pieces::split(path, CharClass::Is('/')));
    lemma_split_free(path, '/');
    assert forall|i: int| 0 <= i < tail.len() implies #[trigger] tail[i] != ".."@ by {
        assert(tail[i] == cs[i + 1]);
        assert(cs.contains(cs[i + 1]));
    }
    let first = tail[0];
    assert(first == cs[1]);
    assert(first.len() > 0);
    lemma_join_first(tail, "/"@);
    assert(pieces::split(path, CharClass::Is('/')).contains(first));
    assert(first[0] != '/');
}

/// Every named component is one of the pieces, and none is empty.
pub proof fn lemma_named(ps: Seq<Seq<char>>)
    ensures
        forall|i: int|
            0 <= i < named(ps).len() ==> (#[trigger] named(ps)[i]).len() > 0 && ps.contains(
                named(ps)[i],
            ),
    decreases ps.len(),
{
    if ps.len() > 0 {
        let init = ps.drop_last();
        lemma_named(init);
        assert forall|i: int| 0 <= i < named(ps).len() implies (#[trigger] named(ps)[i]).len() > 0
            && ps.contains(named(ps)[i]) by {
            if i < named(init).len() {
                assert(named(ps)[i] == named(init)[i]);
                let j = choose|j: int| 0 <= j < init.len() && init[j] == named(init)[i];
                assert(ps[j] == init[j]);
            } else {
                assert(named(ps)[i] == ps[ps.len() - 1]);
            }
        }
    }
}

/// No piece of a text split at a character holds that character.
pub proof fn lemma_split_free(s: Seq<char>, c: char)
    ensures
        forall|i: int, j: int|
            0 <= i < pieces::split(s, CharClass::Is(c)).len() && 0 <= j < pieces::split(
                s,
                CharClass::Is(c),
            )[i].len() ==> #[trigger] pieces::split(s, CharClass::Is(c))[i][j] != c,
    decreases s.len(),
{
    let k = CharClass::Is(c);
    text::lemma_find_bounds(s, k);
    let n = text::find(s, k);
    let all = pieces::split(s, k);
    if n >= s.len() {
        assert forall|i: int, j: int|
            0 <= i < all.len() && 0 <= j < all[i].len() implies #[trigger] all[i][j] != c by {
            assert(all[i] == s);
            assert(!text::in_class(k, s[j]));
        }
    } else {
        let rest = s.skip(n + 1);
        lemma_split_free(rest, c);
        assert forall|i: int, j: int|
            0 <= i < all.len() && 0 <= j < all[i].len() implies #[trigger] all[i][j] != c by {
            if i == 0 {
                assert(all[0] == s.take(n));
                assert(!text::in_class(k, s[j]));
            } else {
                assert(all[i] == pieces::split(rest, k)[i - 1]);
            }
        }
    }
}

/// A joined text begins with the first of its parts.
pub proof fn lemma_join_first(parts: Seq<Seq<char>>, sep: Seq<char>)
    requires
        parts.len() > 0,
    ensures
        pieces::join(parts, sep).len() >= parts[0].len(),
        pieces::join(parts, sep).take(parts[0].len() as int) == parts[0],
    decreases parts.len(),
{
    if parts.len() == 1 {
        assert(parts[0].take(parts[0].len() as int) =~= parts[0]);
    } else {
        let init = parts.drop_last();
        lemma_join_first(init, sep);
        assert(init[0] == parts[0]);
        let n = parts[0].len() as int;
        let a = pieces::join(init, sep);
        assert((a + sep + parts.last()).take(n) =~= a.take(n));
    }
}

/// A path that is taken from another ends in what was taken: an absolute one is itself, and
/// any other stands behind the base with a single slash between them.
pub proof fn joined_paths_end_in_the_name(base: Seq<char>, name: Seq<char>)
    ensures
        is_absolute(name) ==> joined(base, name) == name,
        !is_absolute(name) && base.len() > 0 && base.last() != '/' ==> joined(base, name) == base
            + seq!['/'] + name,
        !is_absolute(name) && base.len() > 0 && base.last() == '/' ==> joined(base, name) == base
            + name,
        base.len() == 0 ==> joined(base, name) == name,
{
    assert(base.len() == 0 ==> base + name =~= name);
}

/// What is unpacked is everything below the first directory, and only that: a relative path
/// that goes up nowhere is unpacked, unless it is a link or the first directory itself.
pub proof fn what_is_below_is_unpacked(path: Seq<char>, is_symlink: bool, a: EntryAction)
    requires
        archive_entry(path, is_symlink, a),
    ensures
        a is Unpack <==> !is_absolute(path) && !components(path).contains(".."@) && !is_symlink
            && components(path).len() > 1,
        a is RefuseAbsolute <==> is_absolute(path),
        a is RefuseTraversal <==> !is_absolute(path) && components(path).contains(".."@),
        a matches EntryAction::Unpack(t) ==> pieces::join(seq![components(path)[0], t@], "/"@)
            == pieces::join(components(path), "/"@),
{
    if a is Unpack {
        let cs = components(path);
        let t = a->Unpack_0@;
        pieces::joining_goes_in_order(cs, "/"@);
        let two = seq![cs[0], t];
        pieces::joining_goes_in_order(two, "/"@);
        assert(two.drop_first() =~= seq![t]);
        pieces::joining_goes_in_order(seq![t], "/"@);
    }
}

/// The components of a path that was put together from names are those names.
pub proof fn joined_components_are_read_back(cs: Seq<Seq<char>>)
    requires
        cs.len() > 0,
        forall|i: int| 0 <= i < cs.len() ==> (#[trigger] cs[i]).len() > 0 && cs[i] != "."@,
        forall|i: int, j: int|
            0 <= i < cs.len() && 0 <= j < cs[i].len() ==> #[trigger] cs[i][j] != '/',
    ensures
        components(pieces::join(cs, seq!['/'])) == cs,
{
    pieces::joined_pieces_are_split_again(cs, '/');
    lemma_all_named(cs);
}

proof fn lemma_all_named(cs: Seq<Seq<char>>)
    requires
        forall|i: int| 0 <= i < cs.len() ==> (#[trigger] cs[i]).len() > 0 && cs[i] != "."@,
    ensures
        named(cs) == cs,
    decreases cs.len(),
{
    if cs.len() > 0 {
        let t = cs.drop_last();
        assert forall|i: int| 0 <= i < t.len() implies (#[trigger] t[i]).len() > 0 && t[i] != "."@ by {
            assert(t[i] == cs[i]);
        }
        lemma_all_named(t);
        assert(cs[cs.len() - 1] == cs.last());
        assert(named(cs) =~= cs);
    }
}

/// Parts without a name do not matter: an empty part, and the current directory behind another
/// part. Every other part is a name of the path.
pub proof fn unnamed_parts_do_not_matter(ps: Seq<Seq<char>>, name: Seq<char>)
    ensures
        named(ps.push(Seq::empty())) == named(ps),
        ps.len() > 0 ==> named(ps.push("."@)) == named(ps),
        name.len() > 0 && name != "."@ ==> named(ps.push(name)) == named(ps).push(name),
        named(Seq::empty()).len() == 0,
{
    assert(ps.push(Seq::<char>::empty()).drop_last() =~= ps);
    assert(ps.push("."@).drop_last() =~= ps);
    assert(ps.push(name).drop_last() =~= ps);
}

} // verus!
