//! The parts of a TOML document that the workspace manifest is written into. The
//! document itself is `toml_edit`'s; here stands what its tables hold.

use vstd::prelude::*;

use crate::toml_layout;
use crate::toml_layout::Layout;

verus! {

/// What an entry of a TOML table is.
pub ghost enum TomlNode {
    Text(Seq<char>),
    Flag(bool),
    Number(int),
    /// An array of texts.
    List(Seq<Seq<char>>),
    /// An inline table.
    Inline(Seq<(Seq<char>, TomlNode)>),
    /// A table with a header of its own.
    Section(Seq<(Seq<char>, TomlNode)>),
    /// An array of tables.
    Rows(Seq<Seq<(Seq<char>, TomlNode)>>),
    /// An entry that is set to nothing.
    Vacant,
    /// Anything else.
    Foreign(int),
}

/// Where a key stands among entries, or their number where it does not.
pub open spec fn place(e: Seq<(Seq<char>, TomlNode)>, key: Seq<char>) -> int
    decreases e.len(),
{
    if e.len() == 0 || e[0].0 == key {
        0
    } else {
        1 + place(e.drop_first(), key)
    }
}

/// What a key is set to.
pub open spec fn lookup(e: Seq<(Seq<char>, TomlNode)>, key: Seq<char>) -> Option<TomlNode> {
    if place(e, key) < e.len() {
        Some(e[place(e, key)].1)
    } else {
        None
    }
}

/// The entries with a key set: in its place where it has one, else at the end.
pub open spec fn put(e: Seq<(Seq<char>, TomlNode)>, key: Seq<char>, node: TomlNode) -> Seq<
    (Seq<char>, TomlNode),
> {
    if place(e, key) < e.len() {
        e.update(place(e, key), (key, node))
    } else {
        e.push((key, node))
    }
}

/// The entries without a key.
pub open spec fn dropped(e: Seq<(Seq<char>, TomlNode)>, key: Seq<char>) -> Seq<
    (Seq<char>, TomlNode),
> {
    if place(e, key) < e.len() {
        e.remove(place(e, key))
    } else {
        e
    }
}

/// No key stands among the entries twice.
pub open spec fn distinct(e: Seq<(Seq<char>, TomlNode)>) -> bool {
    forall|i: int, j: int|
        0 <= i < j < e.len() ==> (#[trigger] e[i]).0 != (#[trigger] e[j]).0
}

pub proof fn lemma_place_is(e: Seq<(Seq<char>, TomlNode)>, key: Seq<char>, i: int)
    requires
        0 <= i <= e.len(),
        forall|j: int| 0 <= j < i ==> (#[trigger] e[j]).0 != key,
        i < e.len() ==> e[i].0 == key,
    ensures
        place(e, key) == i,
    decreases i,
{
    if i > 0 {
        let t = e.drop_first();
        assert(e[0].0 != key);
        assert forall|j: int| 0 <= j < i - 1 implies (#[trigger] t[j]).0 != key by {
            assert(t[j] == e[j + 1]);
        }
        lemma_place_is(t, key, i - 1);
    }
}

pub proof fn lemma_place(e: Seq<(Seq<char>, TomlNode)>, key: Seq<char>)
    ensures
        0 <= place(e, key) <= e.len(),
        place(e, key) < e.len() ==> e[place(e, key)].0 == key,
        forall|j: int| 0 <= j < place(e, key) ==> (#[trigger] e[j]).0 != key,
    decreases e.len(),
{
    if e.len() > 0 && e[0].0 != key {
        let t = e.drop_first();
        lemma_place(t, key);
        assert forall|j: int| 0 <= j < place(e, key) implies (#[trigger] e[j]).0 != key by {
            if j > 0 {
                assert(e[j] == t[j - 1]);
            }
        }
    }
}

/// Setting a key sets that key and no other.
pub proof fn lemma_put(e: Seq<(Seq<char>, TomlNode)>, key: Seq<char>, node: TomlNode, k: Seq<char>)
    ensures
        lookup(put(e, key, node), k) == (if k == key {
            Some(node)
        } else {
            lookup(e, k)
        }),
        distinct(e) ==> distinct(put(e, key, node)),
{
    lemma_place(e, key);
    lemma_place(e, k);
    let f = put(e, key, node);
    let i = place(e, key);
    let n = place(e, k);
    if k == key {
        assert forall|j: int| 0 <= j < i implies (#[trigger] f[j]).0 != key by {
            assert(f[j] == e[j]);
        }
        lemma_place_is(f, key, i);
    } else if n < e.len() {
        assert forall|j: int| 0 <= j < n implies (#[trigger] f[j]).0 != k by {
            if j != i {
                assert(f[j] == e[j]);
            }
        }
        assert(f[n] == e[n]);
        lemma_place_is(f, k, n);
    } else {
        assert forall|j: int| 0 <= j < f.len() implies (#[trigger] f[j]).0 != k by {
            if j < e.len() && j != i {
                assert(f[j] == e[j]);
            }
        }
        lemma_place_is(f, k, f.len() as int);
    }
    if distinct(e) {
        assert forall|a: int, b: int| 0 <= a < b < f.len() implies (#[trigger] f[a]).0 != (
        #[trigger] f[b]).0 by {
            if a < e.len() && b < e.len() {
                assert(f[a].0 == e[a].0);
                assert(f[b].0 == e[b].0);
            } else {
                assert(f[a] == e[a]);
            }
        }
    }
}

/// The entries with a key set, where there is something to set it to.
#[verifier::opaque]
pub open spec fn with_node(
    e: Seq<(Seq<char>, TomlNode)>,
    key: Seq<char>,
    node: Option<TomlNode>,
) -> Seq<(Seq<char>, TomlNode)> {
    match node {
        Some(n) => put(e, key, n),
        None => e,
    }
}

/// The entries with a key set to a node, or without the key.
pub open spec fn set_or_dropped(
    e: Seq<(Seq<char>, TomlNode)>,
    key: Seq<char>,
    node: Option<TomlNode>,
) -> Seq<(Seq<char>, TomlNode)> {
    match node {
        Some(n) => put(e, key, n),
        None => dropped(e, key),
    }
}

pub broadcast proof fn lemma_with_node(
    e: Seq<(Seq<char>, TomlNode)>,
    key: Seq<char>,
    node: Option<TomlNode>,
    k: Seq<char>,
)
    ensures
        #[trigger] lookup(with_node(e, key, node), k) == (if k == key && node is Some {
            node
        } else {
            lookup(e, k)
        }),
{
    reveal(with_node);
    match node {
        Some(n) => {
            lemma_put(e, key, n, k);
        },
        None => {},
    }
}

/// Dropping a key drops that key and no other.
pub proof fn lemma_dropped(e: Seq<(Seq<char>, TomlNode)>, key: Seq<char>, k: Seq<char>)
    requires
        distinct(e),
    ensures
        lookup(dropped(e, key), k) == (if k == key {
            None
        } else {
            lookup(e, k)
        }),
        distinct(dropped(e, key)),
{
    lemma_place(e, key);
    lemma_place(e, k);
    let f = dropped(e, key);
    let i = place(e, key);
    let n = place(e, k);
    if i < e.len() {
        assert forall|j: int| 0 <= j < f.len() implies #[trigger] f[j] == e[if j < i {
            j
        } else {
            j + 1
        }] by {}
        assert forall|a: int, b: int| 0 <= a < b < f.len() implies (#[trigger] f[a]).0 != (
        #[trigger] f[b]).0 by {
            let a0 = if a < i {
                a
            } else {
                a + 1
            };
            let b0 = if b < i {
                b
            } else {
                b + 1
            };
            assert(f[a] == e[a0]);
            assert(f[b] == e[b0]);
        }
        if k == key {
            assert forall|j: int| 0 <= j < f.len() implies (#[trigger] f[j]).0 != k by {
                let j0 = if j < i {
                    j
                } else {
                    j + 1
                };
                assert(f[j] == e[j0]);
                assert(e[i].0 == k);
            }
            lemma_place_is(f, k, f.len() as int);
        } else if n < e.len() {
            let m = if n < i {
                n
            } else {
                n - 1
            };
            assert(f[m] == e[n]);
            assert forall|j: int| 0 <= j < m implies (#[trigger] f[j]).0 != k by {
                let j0 = if j < i {
                    j
                } else {
                    j + 1
                };
                assert(f[j] == e[j0]);
            }
            lemma_place_is(f, k, m);
        } else {
            assert forall|j: int| 0 <= j < f.len() implies (#[trigger] f[j]).0 != k by {
                let j0 = if j < i {
                    j
                } else {
                    j + 1
                };
                assert(f[j] == e[j0]);
            }
            lemma_place_is(f, k, f.len() as int);
        }
    }
}

/// Setting or dropping a key touches no other key.
pub proof fn lemma_set_or_dropped(
    e: Seq<(Seq<char>, TomlNode)>,
    key: Seq<char>,
    node: Option<TomlNode>,
    k: Seq<char>,
)
    requires
        distinct(e),
    ensures
        distinct(set_or_dropped(e, key, node)),
        lookup(set_or_dropped(e, key, node), k) == (if k == key {
            node
        } else {
            lookup(e, k)
        }),
{
    match node {
        Some(n) => {
            lemma_put(e, key, n, k);
        },
        None => {
            lemma_dropped(e, key, k);
        },
    }
}

// ---------------------------------------------------------------------------
// toml_edit
// ---------------------------------------------------------------------------

#[verifier::external_type_specification]
#[verifier::external_body]
pub struct ExTable(toml_edit::Table);

#[verifier::external_type_specification]
#[verifier::external_body]
pub struct ExInlineTable(toml_edit::InlineTable);

#[verifier::external_type_specification]
#[verifier::external_body]
pub struct ExArray(toml_edit::Array);

#[verifier::external_type_specification]
#[verifier::external_body]
pub struct ExArrayOfTables(toml_edit::ArrayOfTables);

#[verifier::external_type_specification]
#[verifier::external_body]
pub struct ExValue(toml_edit::Value);

#[verifier::external_type_specification]
#[verifier::external_body]
pub struct ExItem(toml_edit::Item);

#[verifier::external_type_specification]
#[verifier::external_body]
pub struct ExDecor(toml_edit::Decor);

/// The entries of a table, in their order.
pub uninterp spec fn table_entries(t: toml_edit::Table) -> Seq<(Seq<char>, TomlNode)>;

/// The entries of an inline table, in their order.
pub uninterp spec fn inline_entries(t: toml_edit::InlineTable) -> Seq<(Seq<char>, TomlNode)>;

/// The texts that an array holds.
pub uninterp spec fn array_texts(a: toml_edit::Array) -> Seq<Seq<char>>;

/// The entries of each table of an array of tables.
pub uninterp spec fn row_entries(a: toml_edit::ArrayOfTables) -> Seq<Seq<(Seq<char>, TomlNode)>>;

/// What a value is.
pub uninterp spec fn value_node(v: toml_edit::Value) -> TomlNode;

/// What an item is.
pub uninterp spec fn item_node(i: toml_edit::Item) -> TomlNode;

/// How the entries of a table are written, and those of the tables in it.
pub uninterp spec fn table_layout(t: toml_edit::Table) -> Layout;

/// How an item is written that is a table.
pub uninterp spec fn item_layout(i: toml_edit::Item) -> Layout;

/// What is written before a value and behind it, where it has something of its own there.
pub uninterp spec fn value_around(v: toml_edit::Value) -> (Option<Seq<char>>, Option<Seq<char>>);

/// What a decor writes before something and behind it.
pub uninterp spec fn decor_parts(d: toml_edit::Decor) -> (Option<Seq<char>>, Option<Seq<char>>);

/// `toml_edit::Table::new`: a table without entries.
#[verifier::external_body]
pub(crate) fn new_table() -> (t: toml_edit::Table)
    ensures
        table_entries(t).len() == 0,
{
    toml_edit::Table::new()
}

/// `toml_edit::Table::insert`: the item replaces what the key was set to, where the
/// key stood, or goes behind the last entry. The other entries are written as before, and a
/// table that is put in brings its own layout along.
#[verifier::external_body]
pub(crate) fn table_insert(t: &mut toml_edit::Table, key: &str, item: toml_edit::Item)
    ensures
        table_entries(*final(t)) == put(table_entries(*old(t)), key@, item_node(item)),
        toml_layout::apart(table_layout(*old(t)), table_layout(*final(t)), key@),
        item_node(item) is Section ==> toml_layout::under(table_layout(*final(t)), key@)
            == item_layout(item),
{
    t.insert(key, item);
}

/// `toml_edit::Table` indexed by a key, and a value put there: the value replaces what the
/// key was set to, where the key stood, or goes behind the last entry. The other entries are
/// written as before. A key that was set to a value is written as before, with the comments
/// above it, and what stands around the new value is the value's own.
#[verifier::external_body]
pub(crate) fn set_value(t: &mut toml_edit::Table, key: &str, value: toml_edit::Value)
    ensures
        table_entries(*final(t)) == put(table_entries(*old(t)), key@, value_node(value)),
        toml_layout::apart(table_layout(*old(t)), table_layout(*final(t)), key@),
        toml_layout::at_value(table_layout(*final(t)), key@),
        table_layout(*final(t))[seq![key@]]->around == value_around(value),
        toml_layout::at_value(table_layout(*old(t)), key@) ==> table_layout(
            *final(t),
        )[seq![key@]]->Value_key == table_layout(*old(t))[seq![key@]]->Value_key,
{
    t[key] = toml_edit::Item::Value(value);
}

/// `toml_edit::Table::get` and `toml_edit::Value::decor`: a copy of what stands around the
/// value that a key is set to, where it is set to one.
#[verifier::external_body]
pub(crate) fn copy_around(t: &toml_edit::Table, key: &str) -> (r: Option<toml_edit::Decor>)
    ensures
        match r {
            Some(d) => toml_layout::at_value(table_layout(*t), key@) && decor_parts(d)
                == table_layout(*t)[seq![key@]]->around,
            None => !toml_layout::at_value(table_layout(*t), key@),
        },
{
    Some(t.get(key)?.as_value()?.decor().clone())
}

/// `toml_edit::Value::decor_mut`: the value with something else around it.
#[verifier::external_body]
pub(crate) fn with_around(value: toml_edit::Value, around: toml_edit::Decor) -> (r:
    toml_edit::Value)
    ensures
        value_node(r) == value_node(value),
        value_around(r) == decor_parts(around),
{
    let mut r = value;
    *r.decor_mut() = around;
    r
}

/// Set a key to a value. Where it was set to a value before, its comments stay.
pub(crate) fn set_setting(t: &mut toml_edit::Table, key: &str, value: toml_edit::Value)
    ensures
        table_entries(*final(t)) == put(table_entries(*old(t)), key@, value_node(value)),
        toml_layout::is_set(table_layout(*old(t)), table_layout(*final(t)), key@),
{
    let value = match copy_around(t, key) {
        Some(d) => with_around(value, d),
        None => value,
    };
    set_value(t, key, value);
}

/// `toml_edit::Table::remove`: the key is taken out; the others keep their order, and are
/// written as before.
#[verifier::external_body]
pub(crate) fn table_remove(t: &mut toml_edit::Table, key: &str)
    ensures
        table_entries(*final(t)) == dropped(table_entries(*old(t)), key@),
        toml_layout::apart(table_layout(*old(t)), table_layout(*final(t)), key@),
{
    t.remove(key);
}

/// `toml_edit::Table::get`, and a copy of what it finds where that is a table, as it is
/// written.
#[verifier::external_body]
pub(crate) fn copy_section(t: &toml_edit::Table, key: &str) -> (r: Option<toml_edit::Table>)
    ensures
        match r {
            Some(s) => lookup(table_entries(*t), key@) == Some(
                TomlNode::Section(table_entries(s)),
            ) && toml_layout::under(table_layout(*t), key@) == table_layout(s),
            None => !(lookup(table_entries(*t), key@) matches Some(TomlNode::Section(_)))
                && !toml_layout::at_header(table_layout(*t), key@),
        },
{
    match t.get(key)? {
        toml_edit::Item::None => None,
        toml_edit::Item::Value(_) => None,
        toml_edit::Item::Table(s) => Some(s.clone()),
        toml_edit::Item::ArrayOfTables(_) => None,
    }
}

/// `toml_edit::Table::key`: whether a key is set, to nothing or to something.
#[verifier::external_body]
pub(crate) fn has_key(t: &toml_edit::Table, key: &str) -> (r: bool)
    ensures
        r == (lookup(table_entries(*t), key@) is Some),
{
    t.key(key).is_some()
}

/// `toml_edit::Table::contains_array_of_tables`: whether a key is set to an array of tables.
#[verifier::external_body]
pub(crate) fn has_rows(t: &toml_edit::Table, key: &str) -> (r: bool)
    ensures
        r == (lookup(table_entries(*t), key@) matches Some(TomlNode::Rows(_))),
{
    t.contains_array_of_tables(key)
}

/// Whether a key is free for an array of tables: unset, or set to one.
pub(crate) fn takes_rows(t: &toml_edit::Table, key: &str) -> (r: bool)
    ensures
        r == (match lookup(table_entries(*t), key@) {
            None => true,
            Some(n) => n is Rows,
        }),
{
    !has_key(t, key) || has_rows(t, key)
}

/// `toml_edit::InlineTable::new`: an inline table without entries.
#[verifier::external_body]
pub(crate) fn new_inline() -> (t: toml_edit::InlineTable)
    ensures
        inline_entries(t).len() == 0,
{
    toml_edit::InlineTable::new()
}

/// `toml_edit::InlineTable::insert`: the value replaces what the key was set to, where
/// the key stood, or goes behind the last entry.
#[verifier::external_body]
pub(crate) fn inline_insert(t: &mut toml_edit::InlineTable, key: &str, value: toml_edit::Value)
    ensures
        inline_entries(*final(t)) == put(inline_entries(*old(t)), key@, value_node(value)),
{
    t.insert(key, value);
}

/// `toml_edit::Array::new`: an array without values.
#[verifier::external_body]
pub(crate) fn new_array() -> (a: toml_edit::Array)
    ensures
        array_texts(a).len() == 0,
{
    toml_edit::Array::new()
}

/// `toml_edit::Array::push`: the text goes behind the last value.
#[verifier::external_body]
pub(crate) fn array_push(a: &mut toml_edit::Array, text: &str)
    ensures
        array_texts(*final(a)) == array_texts(*old(a)).push(text@),
{
    a.push(text);
}

/// `toml_edit::ArrayOfTables::new`: an array without tables.
#[verifier::external_body]
pub(crate) fn new_rows() -> (a: toml_edit::ArrayOfTables)
    ensures
        row_entries(a).len() == 0,
{
    toml_edit::ArrayOfTables::new()
}

/// `toml_edit::ArrayOfTables::push`: the table goes behind the last one.
#[verifier::external_body]
pub(crate) fn rows_push(a: &mut toml_edit::ArrayOfTables, t: toml_edit::Table)
    ensures
        row_entries(*final(a)) == row_entries(*old(a)).push(table_entries(t)),
{
    a.push(t);
}

/// `toml_edit::Value::from` on a text.
#[verifier::external_body]
pub(crate) fn text_value(s: &str) -> (v: toml_edit::Value)
    ensures
        value_node(v) == TomlNode::Text(s@),
{
    toml_edit::Value::from(s)
}

/// `toml_edit::Value::from` on a flag.
#[verifier::external_body]
pub(crate) fn flag_value(b: bool) -> (v: toml_edit::Value)
    ensures
        value_node(v) == TomlNode::Flag(b),
{
    toml_edit::Value::from(b)
}

/// `toml_edit::Value::from` on a number.
#[verifier::external_body]
pub(crate) fn number_value(n: i64) -> (v: toml_edit::Value)
    ensures
        value_node(v) == TomlNode::Number(n as int),
{
    toml_edit::Value::from(n)
}

/// `toml_edit::Value::Array`: an array of texts as a value.
#[verifier::external_body]
pub(crate) fn array_value(a: toml_edit::Array) -> (v: toml_edit::Value)
    ensures
        value_node(v) == TomlNode::List(array_texts(a)),
{
    toml_edit::Value::Array(a)
}

/// `toml_edit::Value::InlineTable`: an inline table as a value.
#[verifier::external_body]
pub(crate) fn inline_value(t: toml_edit::InlineTable) -> (v: toml_edit::Value)
    ensures
        value_node(v) == TomlNode::Inline(inline_entries(t)),
{
    toml_edit::Value::InlineTable(t)
}

/// `toml_edit::Item::Value`: a value as an item.
#[verifier::external_body]
pub(crate) fn value_item(v: toml_edit::Value) -> (i: toml_edit::Item)
    ensures
        item_node(i) == value_node(v),
{
    toml_edit::Item::Value(v)
}

/// `toml_edit::Item::Table`: a table as an item.
#[verifier::external_body]
pub(crate) fn table_item(t: toml_edit::Table) -> (i: toml_edit::Item)
    ensures
        item_node(i) == TomlNode::Section(table_entries(t)),
        item_layout(i) == table_layout(t),
{
    toml_edit::Item::Table(t)
}

/// `toml_edit::Item::ArrayOfTables`: an array of tables as an item.
#[verifier::external_body]
pub(crate) fn rows_item(a: toml_edit::ArrayOfTables) -> (i: toml_edit::Item)
    ensures
        item_node(i) == TomlNode::Rows(row_entries(a)),
{
    toml_edit::Item::ArrayOfTables(a)
}

// ---------------------------------------------------------------------------
// Documents
// ---------------------------------------------------------------------------

#[verifier::external_type_specification]
#[verifier::external_body]
pub struct ExDocumentMut(toml_edit::DocumentMut);

/// The entries of a document, in their order.
pub uninterp spec fn doc_entries(d: toml_edit::DocumentMut) -> Seq<(Seq<char>, TomlNode)>;

/// How the entries of a document are written.
pub uninterp spec fn doc_layout(d: toml_edit::DocumentMut) -> Layout;

/// What a text is as TOML: its entries, and how they are written.
pub ghost struct TomlText {
    pub entries: Seq<(Seq<char>, TomlNode)>,
    pub layout: Layout,
}

/// What a text is as TOML, where it is TOML.
pub uninterp spec fn doc_read(s: Seq<char>) -> Option<TomlText>;

/// How a document is written.
pub uninterp spec fn doc_text(d: toml_edit::DocumentMut) -> Seq<char>;

/// `toml_edit::DocumentMut::new`: a document without entries.
#[verifier::external_body]
pub(crate) fn new_doc() -> (d: toml_edit::DocumentMut)
    ensures
        doc_entries(d).len() == 0,
{
    toml_edit::DocumentMut::new()
}

/// `str::parse` for a `toml_edit::DocumentMut`: whether a text is TOML, and what it then
/// holds and how that is written, depends on the text alone.
#[verifier::external_body]
pub(crate) fn parse_doc(s: &str) -> (r: Option<toml_edit::DocumentMut>)
    ensures
        match r {
            Some(d) => doc_read(s@) == Some(
                TomlText { entries: doc_entries(d), layout: doc_layout(d) },
            ),
            None => doc_read(s@) is None,
        },
{
    s.parse::<toml_edit::DocumentMut>().ok()
}

/// `toml_edit::DocumentMut::as_table_mut`: the table that a document is.
#[verifier::external_body]
pub(crate) fn root_table(d: &mut toml_edit::DocumentMut) -> (t: &mut toml_edit::Table)
    ensures
        table_entries(*t) == doc_entries(*old(d)),
        doc_entries(*final(d)) == table_entries(*final(t)),
        table_layout(*t) == doc_layout(*old(d)),
        doc_layout(*final(d)) == table_layout(*final(t)),
{
    d.as_table_mut()
}

/// `ToString::to_string` of a `toml_edit::DocumentMut`: the text depends on the document
/// alone. That the text has the entries of the document again is not said: a document can
/// carry layout that is no TOML.
#[verifier::external_body]
pub(crate) fn show_doc(d: &toml_edit::DocumentMut) -> (r: String)
    ensures
        r@ == doc_text(*d),
{
    d.to_string()
}

} // verus!
