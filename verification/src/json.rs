//! JSON values as the library reads them.

use vstd::prelude::*;

use crate::pieces;
use crate::pieces::{write_decimal, write_integer};
use crate::text::same_text;

verus! {

/// A JSON number: its value as a natural number and as an integer, where it has one,
/// and how it is written.
#[derive(Debug, Clone)]
pub struct JsonNumber {
    pub whole: Option<u64>,
    pub signed: Option<i64>,
    pub shown: String,
}

/// A JSON value.
#[derive(Debug)]
pub enum Json {
    Null,
    Flag(bool),
    Number(JsonNumber),
    Text(String),
    List(Vec<Json>),
    Object(Vec<(String, Json)>),
}

/// What a JSON value is.
pub ghost enum JsonView {
    Null,
    Flag(bool),
    Number(Option<u64>, Option<i64>, Seq<char>),
    Text(Seq<char>),
    List(Seq<JsonView>),
    Object(Seq<(Seq<char>, JsonView)>),
}

pub open spec fn tree(j: Json) -> JsonView
    decreases j,
{
    match j {
        Json::Null => JsonView::Null,
        Json::Flag(b) => JsonView::Flag(b),
        Json::Number(n) => JsonView::Number(n.whole, n.signed, n.shown@),
        Json::Text(t) => JsonView::Text(t@),
        Json::List(v) => JsonView::List(trees(v@)),
        Json::Object(v) => JsonView::Object(members(v@)),
    }
}

pub open spec fn trees(s: Seq<Json>) -> Seq<JsonView>
    decreases s,
{
    if s.len() == 0 {
        seq![]
    } else {
        trees(s.drop_last()).push(tree(s.last()))
    }
}

pub open spec fn members(s: Seq<(String, Json)>) -> Seq<(Seq<char>, JsonView)>
    decreases s,
{
    if s.len() == 0 {
        seq![]
    } else {
        members(s.drop_last()).push((s.last().0@, tree(s.last().1)))
    }
}

impl View for Json {
    type V = JsonView;

    open spec fn view(&self) -> JsonView {
        tree(*self)
    }
}

// ---------------------------------------------------------------------------
// Reading
// ---------------------------------------------------------------------------

#[verifier::external_type_specification]
#[verifier::external_body]
pub struct ExValue(serde_json::Value);

/// What a value of the JSON crate holds.
pub uninterp spec fn value_tree(v: serde_json::Value) -> JsonView;

/// What a text says as JSON, or why it is none.
pub uninterp spec fn json_read(s: Seq<char>) -> Result<JsonView, Seq<char>>;

/// `serde_json::from_str` for a JSON value: what comes out, and the message where the
/// text is no JSON, depends on the text alone.
#[verifier::external_body]
fn parse_value(s: &str) -> (r: Result<serde_json::Value, String>)
    ensures
        match r {
            Ok(v) => json_read(s@) == Ok::<JsonView, Seq<char>>(value_tree(v)),
            Err(e) => json_read(s@) == Err::<JsonView, Seq<char>>(e@),
        },
{
    serde_json::from_str::<serde_json::Value>(s).map_err(|e| e.to_string())
}

/// A `serde_json::Value` variant by variant: of a number, what `Number::as_u64`,
/// `Number::as_i64` and its display say. What a value holds is a name; it is tied to
/// the text that was read by `parse_value`.
#[verifier::external_body]
fn convert(v: &serde_json::Value) -> (r: Json)
    ensures
        r@ == value_tree(*v),
{
    match v {
        serde_json::Value::Null => Json::Null,
        serde_json::Value::Bool(b) => Json::Flag(*b),
        serde_json::Value::Number(n) => Json::Number(
            JsonNumber { whole: n.as_u64(), signed: n.as_i64(), shown: n.to_string() },
        ),
        serde_json::Value::String(t) => Json::Text(t.clone()),
        serde_json::Value::Array(a) => Json::List(a.iter().map(convert).collect()),
        serde_json::Value::Object(m) => Json::Object(
            m.iter().map(|(k, x)| (k.clone(), convert(x))).collect(),
        ),
    }
}

/// Read a JSON text.
pub fn read_json(s: &str) -> (r: Result<Json, String>)
    ensures
        match r {
            Ok(j) => json_read(s@) == Ok::<JsonView, Seq<char>>(j@),
            Err(e) => json_read(s@) == Err::<JsonView, Seq<char>>(e@),
        },
{
    match parse_value(s) {
        Ok(v) => Ok(convert(&v)),
        Err(e) => Err(e),
    }
}

/// The items of a text that says a JSON list.
pub open spec fn listed(s: Seq<char>) -> Option<Seq<JsonView>> {
    match json_read(s) {
        Ok(JsonView::List(items)) => Some(items),
        _ => None,
    }
}

/// Read a JSON list.
pub fn read_list(s: &str) -> (r: Option<Vec<Json>>)
    ensures
        match r {
            Some(v) => listed(s@) == Some(trees(v@)),
            None => listed(s@) is None,
        },
{
    match read_json(s) {
        Ok(Json::List(v)) => Some(v),
        Ok(j) => None,
        Err(e) => None,
    }
}

/// The items of a list of values, one by one.
pub proof fn lemma_trees(s: Seq<Json>)
    ensures
        trees(s).len() == s.len(),
        forall|i: int| 0 <= i < s.len() ==> trees(s)[i] == tree(#[trigger] s[i]),
    decreases s.len(),
{
    if s.len() > 0 {
        lemma_trees(s.drop_last());
        assert forall|i: int| 0 <= i < s.len() implies trees(s)[i] == tree(#[trigger] s[i]) by {
            if i < s.len() - 1 {
                assert(s.drop_last()[i] == s[i]);
            }
        }
    }
}

proof fn lemma_members(s: Seq<(String, Json)>)
    ensures
        members(s).len() == s.len(),
        forall|i: int|
            0 <= i < s.len() ==> members(s)[i] == ((#[trigger] s[i]).0@, tree(s[i].1)),
    decreases s.len(),
{
    if s.len() > 0 {
        lemma_members(s.drop_last());
        assert forall|i: int| 0 <= i < s.len() implies members(s)[i] == (
            (#[trigger] s[i]).0@,
            tree(s[i].1),
        ) by {
            if i < s.len() - 1 {
                assert(s.drop_last()[i] == s[i]);
            }
        }
    }
}

// ---------------------------------------------------------------------------
// Members
// ---------------------------------------------------------------------------

/// What the first member of a name is.
pub open spec fn found(ms: Seq<(Seq<char>, JsonView)>, key: Seq<char>) -> Option<JsonView>
    decreases ms.len(),
{
    if ms.len() == 0 {
        None
    } else if ms[0].0 == key {
        Some(ms[0].1)
    } else {
        found(ms.drop_first(), key)
    }
}

/// The member of a name, where the value is an object that has it.
pub open spec fn member(v: JsonView, key: Seq<char>) -> Option<JsonView> {
    match v {
        JsonView::Object(ms) => found(ms, key),
        _ => None,
    }
}

/// A value as a text.
pub open spec fn as_text(v: Option<JsonView>) -> Option<Seq<char>> {
    match v {
        Some(JsonView::Text(t)) => Some(t),
        _ => None,
    }
}

/// A value as a natural number.
pub open spec fn as_whole(v: Option<JsonView>) -> Option<u64> {
    match v {
        Some(JsonView::Number(n, _, _)) => n,
        _ => None,
    }
}

/// A member that is a text, or the empty text.
pub open spec fn word(v: JsonView, key: Seq<char>) -> Seq<char> {
    match as_text(member(v, key)) {
        Some(t) => t,
        None => seq![],
    }
}

/// A member that is a natural number, or a default.
pub open spec fn count(v: JsonView, key: Seq<char>, default: u64) -> u64 {
    match as_whole(member(v, key)) {
        Some(n) => n,
        None => default,
    }
}

impl Json {
    /// The member of a name.
    pub fn get(&self, key: &str) -> (r: Option<&Json>)
        ensures
            match r {
                Some(j) => member(self@, key@) == Some(j@),
                None => member(self@, key@) is None,
            },
    {
        match self {
            Json::Object(v) => {
                let mut i: usize = 0;
                let ghost all = members(v@);
                proof {
                    lemma_members(v@);
                    assert(all.skip(0) =~= all);
                }
                while i < v.len()
                    invariant
                        i <= v@.len(),
                        tree(*self) == JsonView::Object(all),
                        all.len() == v@.len(),
                        forall|j: int|
                            0 <= j < v@.len() ==> all[j] == ((#[trigger] v@[j]).0@, tree(v@[j].1)),
                        found(all, key@) == found(all.skip(i as int), key@),
                    decreases v.len() - i,
                {
                    assert(all.skip(i as int)[0] == all[i as int]);
                    assert(all.skip(i as int).drop_first() =~= all.skip(i + 1));
                    assert(all[i as int] == (v@[i as int].0@, tree(v@[i as int].1)));
                    if same_text(v[i].0.as_str(), key) {
                        return Some(&v[i].1);
                    }
                    i = i + 1;
                }
                None
            },
            _ => None,
        }
    }

    /// The value as a text.
    pub fn as_str(&self) -> (r: Option<&str>)
        ensures
            pieces::opt_str(r) == as_text(Some(self@)),
    {
        match self {
            Json::Text(t) => Some(t.as_str()),
            _ => None,
        }
    }

    /// The value as a natural number.
    pub fn as_u64(&self) -> (r: Option<u64>)
        ensures
            r == as_whole(Some(self@)),
    {
        match self {
            Json::Number(n) => n.whole,
            _ => None,
        }
    }

    /// The member of a name as a text, where it is one.
    pub fn text_member(&self, key: &str) -> (r: Option<&str>)
        ensures
            pieces::opt_str(r) == as_text(member(self@, key@)),
    {
        match self.get(key) {
            Some(j) => j.as_str(),
            None => None,
        }
    }

    /// The member of a name as a text, or the empty text.
    pub fn word(&self, key: &str) -> (r: String)
        ensures
            r@ == word(self@, key@),
    {
        match self.text_member(key) {
            Some(t) => t.to_owned(),
            None => {
                let r = String::new();
                assert(r@ =~= seq![]);
                r
            },
        }
    }

    /// The member of a name as a natural number, or a default.
    pub fn count(&self, key: &str, default: u64) -> (r: u64)
        ensures
            r == count(self@, key@, default),
    {
        match self.get(key) {
            Some(j) => match j.as_u64() {
                Some(n) => n,
                None => default,
            },
            None => default,
        }
    }
}

// ---------------------------------------------------------------------------
// Writing
// ---------------------------------------------------------------------------

/// A natural number in JSON.
pub open spec fn number_tree(n: u32) -> JsonView {
    JsonView::Number(Some(n as u64), Some(n as i64), pieces::decimal(n as nat))
}

/// A natural number in JSON.
pub fn number(n: u32) -> (r: Json)
    ensures
        r@ == number_tree(n),
{
    Json::Number(
        JsonNumber {
            whole: Some(n as u64),
            signed: Some(n as i64),
            shown: write_decimal(n as u64),
        },
    )
}

/// A whole number in JSON.
pub open spec fn integer_tree(n: i64) -> JsonView {
    JsonView::Number(
        if n >= 0 {
            Some(n as u64)
        } else {
            None
        },
        Some(n),
        pieces::integer_text(n as int),
    )
}

/// A whole number in JSON.
pub fn integer(n: i64) -> (r: Json)
    ensures
        r@ == integer_tree(n),
{
    Json::Number(
        JsonNumber {
            whole: if n >= 0 {
                Some(n as u64)
            } else {
                None
            },
            signed: Some(n),
            shown: write_integer(n),
        },
    )
}

/// Texts in JSON.
pub open spec fn text_trees(ts: Seq<Seq<char>>) -> Seq<JsonView> {
    ts.map_values(|t: Seq<char>| JsonView::Text(t))
}

/// A list of texts in JSON.
pub fn text_list(v: &Vec<String>) -> (r: Json)
    ensures
        r@ == JsonView::List(text_trees(pieces::texts(v@))),
{
    let ghost want = text_trees(pieces::texts(v@));
    let mut list: Vec<Json> = Vec::new();
    let mut i: usize = 0;
    assert(trees(list@) =~= want.take(0));
    while i < v.len()
        invariant
            i <= v@.len(),
            want == text_trees(pieces::texts(v@)),
            trees(list@) == want.take(i as int),
        decreases v.len() - i,
    {
        let ghost before = list@;
        list.push(Json::Text(v[i].clone()));
        proof {
            assert(list@.drop_last() =~= before);
            assert(pieces::texts(v@)[i as int] == v@[i as int]@);
            assert(tree(list@.last()) == want[i as int]);
            assert(trees(list@) =~= want.take(i as int).push(want[i as int]));
            assert(want.take(i + 1) =~= want.take(i as int).push(want[i as int]));
        }
        i = i + 1;
    }
    assert(want.take(want.len() as int) =~= want);
    Json::List(list)
}

/// Put a member behind the others.
pub fn push_member(v: &mut Vec<(String, Json)>, key: &str, value: Json)
    ensures
        members(final(v)@) == members(old(v)@).push((key@, value@)),
{
    let ghost before = v@;
    v.push((key.to_owned(), value));
    assert(v@.drop_last() =~= before);
}

/// Members with one set: it takes the place of the one of its name, or comes last.
pub open spec fn with_member(
    ms: Seq<(Seq<char>, JsonView)>,
    key: Seq<char>,
    value: JsonView,
) -> Seq<(Seq<char>, JsonView)>
    decreases ms.len(),
{
    if ms.len() == 0 {
        seq![(key, value)]
    } else if ms[0].0 == key {
        seq![(key, value)] + ms.drop_first()
    } else {
        seq![ms[0]] + with_member(ms.drop_first(), key, value)
    }
}

/// Set a member.
pub fn set_member(v: &mut Vec<(String, Json)>, key: &str, value: Json)
    ensures
        members(final(v)@) == with_member(members(old(v)@), key@, value@),
{
    let ghost all = members(v@);
    let ghost want = with_member(all, key@, value@);
    let mut i: usize = 0;
    proof {
        lemma_members(v@);
        assert(all.skip(0) =~= all);
        assert(want =~= all.take(0) + with_member(all.skip(0), key@, value@));
    }
    while i < v.len()
        invariant
            i <= v@.len(),
            *v == *old(v),
            all == members(v@),
            all.len() == v@.len(),
            forall|j: int| 0 <= j < v@.len() ==> all[j] == ((#[trigger] v@[j]).0@, tree(v@[j].1)),
            want == with_member(all, key@, value@),
            want == all.take(i as int) + with_member(all.skip(i as int), key@, value@),
        decreases v.len() - i,
    {
        assert(all.skip(i as int)[0] == all[i as int]);
        assert(all.skip(i as int).drop_first() =~= all.skip(i + 1));
        assert(all[i as int] == (v@[i as int].0@, tree(v@[i as int].1)));
        if same_text(v[i].0.as_str(), key) {
            let ghost before = v@;
            v.set(i, (key.to_owned(), value));
            proof {
                lemma_members(v@);
                assert forall|j: int| 0 <= j < v@.len() implies members(v@)[j] == want[j] by {
                    if j != i {
                        assert(v@[j] == before[j]);
                        assert(all[j] == (before[j].0@, tree(before[j].1)));
                    } else {
                        assert(v@[j].0@ == key@);
                    }
                }
                assert(members(v@) =~= want);
            }
            return;
        }
        proof {
            let rest = with_member(all.skip(i + 1), key@, value@);
            assert(with_member(all.skip(i as int), key@, value@) =~= seq![all[i as int]] + rest);
            assert(all.take(i + 1) =~= all.take(i as int).push(all[i as int]));
            assert(all.take(i as int) + (seq![all[i as int]] + rest) =~= all.take(i + 1) + rest);
        }
        i = i + 1;
    }
    proof {
        assert(all.take(all.len() as int) =~= all);
        assert(all.skip(all.len() as int) =~= seq![]);
        assert(want =~= all.push((key@, value@)));
    }
    push_member(v, key, value);
}

/// A member that was set is what it was set to, and the others are what they were.
pub proof fn set_members_are_found(
    ms: Seq<(Seq<char>, JsonView)>,
    key: Seq<char>,
    value: JsonView,
    other: Seq<char>,
)
    ensures
        found(with_member(ms, key, value), key) == Some(value),
        other != key ==> found(with_member(ms, key, value), other) == found(ms, other),
    decreases ms.len(),
{
    let set = with_member(ms, key, value);
    if ms.len() == 0 {
        assert(set.drop_first().len() == 0);
        assert(found(set.drop_first(), other) is None);
    } else {
        let rest = with_member(ms.drop_first(), key, value);
        set_members_are_found(ms.drop_first(), key, value, other);
        if ms[0].0 == key {
            assert(set.drop_first() =~= ms.drop_first());
        } else {
            assert(set =~= seq![ms[0]] + rest);
            assert(set.drop_first() =~= rest);
        }
    }
}

/// The member of a name is the first one that has the name, and there is none only where no
/// member has it.
pub proof fn the_first_member_is_found(ms: Seq<(Seq<char>, JsonView)>, key: Seq<char>, i: int)
    ensures
        0 <= i < ms.len() && ms[i].0 == key && (forall|j: int|
            0 <= j < i ==> (#[trigger] ms[j]).0 != key) ==> found(ms, key) == Some(ms[i].1),
        (forall|j: int| 0 <= j < ms.len() ==> (#[trigger] ms[j]).0 != key) ==> found(ms, key)
            is None,
    decreases ms.len(),
{
    if ms.len() > 0 && ms[0].0 != key {
        let t = ms.drop_first();
        the_first_member_is_found(t, key, i - 1);
        assert(forall|j: int| 0 <= j < t.len() ==> #[trigger] t[j] == ms[j + 1]);
        if 0 <= i < ms.len() && ms[i].0 == key && (forall|j: int|
            0 <= j < i ==> (#[trigger] ms[j]).0 != key) {
            assert(t[i - 1] == ms[i]);
            assert forall|j: int| 0 <= j < i - 1 implies (#[trigger] t[j]).0 != key by {
                assert(t[j] == ms[j + 1]);
            }
        }
        if forall|j: int| 0 <= j < ms.len() ==> (#[trigger] ms[j]).0 != key {
            assert forall|j: int| 0 <= j < t.len() implies (#[trigger] t[j]).0 != key by {
                assert(t[j] == ms[j + 1]);
            }
        }
    } else if ms.len() > 0 {
        if 0 < i < ms.len() && (forall|j: int| 0 <= j < i ==> (#[trigger] ms[j]).0 != key) {
            assert(ms[0].0 != key);
        }
    }
}

/// What is read of a value is what was written: a text as a text, a number as a number, and
/// nothing else as either.
pub proof fn members_are_read_as_what_they_are(v: JsonView, key: Seq<char>, default: u64)
    ensures
        member(v, key) matches Some(JsonView::Text(t)) ==> word(v, key) == t && count(
            v,
            key,
            default,
        ) == default,
        member(v, key) matches Some(JsonView::Number(Some(n), s, t)) ==> count(v, key, default) == n
            && word(v, key).len() == 0,
        member(v, key) is None ==> word(v, key).len() == 0 && count(v, key, default) == default,
        !(v is Object) ==> member(v, key) is None,
{
}

} // verus!
