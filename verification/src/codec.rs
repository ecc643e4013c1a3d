//! The way between documents and JSON text, which `serde_json` reads and writes.
use crate::json::{Json, JsonTree, Member, NumberTree, OtherNumber};
use vstd::prelude::*;

verus! {

/// The value type of `serde_json`.
#[verifier::external_type_specification]
#[verifier::external_body]
pub struct ExValue(serde_json::Value);

/// The error type of `serde_json`.
#[verifier::external_type_specification]
#[verifier::external_body]
pub struct ExError(serde_json::Error);

/// The object type of `serde_json`.
#[verifier::external_type_specification]
#[verifier::external_body]
#[verifier::reject_recursive_types(K)]
#[verifier::reject_recursive_types(V)]
pub struct ExMap<K, V>(serde_json::Map<K, V>);

/// What a `serde_json::Value` holds.
pub uninterp spec fn value_tree(v: serde_json::Value) -> JsonTree;

/// What a `serde_json::Map` holds.
pub uninterp spec fn map_tree(m: serde_json::Map<String, serde_json::Value>) -> Map<
    Seq<char>,
    JsonTree,
>;

/// What `serde_json::Number::as_u64` gives.
pub uninterp spec fn number_u64(n: serde_json::Number) -> Option<u64>;

/// What `serde_json::Number::as_i64` gives.
pub uninterp spec fn number_i64(n: serde_json::Number) -> Option<i64>;

/// The document that `serde_json::from_str` reads from a text, or `None` where it
/// refuses the text.
pub uninterp spec fn parsed_text(text: Seq<char>) -> Option<JsonTree>;

/// The text that `serde_json::to_string_pretty` writes for a document.
pub uninterp spec fn pretty_text(t: JsonTree) -> Seq<char>;

/// The number of a document that a `serde_json::Number` stands for.
pub open spec fn number_tree(n: serde_json::Number) -> NumberTree {
    match number_u64(n) {
        Some(u) => NumberTree::Integer(u as int),
        None => match number_i64(n) {
            Some(i) => NumberTree::Integer(i as int),
            None => NumberTree::Other(n),
        },
    }
}

/// The outermost layer of a `serde_json::Value`.
pub enum Layer {
    Null,
    Bool(bool),
    Number(serde_json::Number),
    Text(String),
    List(Vec<serde_json::Value>),
    Members(serde_json::Map<String, serde_json::Value>),
}

/// What a layer and the values under it hold.
pub open spec fn layer_tree(l: Layer) -> JsonTree {
    match l {
        Layer::Null => JsonTree::Null,
        Layer::Bool(b) => JsonTree::Bool(b),
        Layer::Number(n) => JsonTree::Number(number_tree(n)),
        Layer::Text(s) => JsonTree::Text(s@),
        Layer::List(v) => JsonTree::Array(v@.map_values(|x: serde_json::Value| value_tree(x))),
        Layer::Members(m) => JsonTree::Object(map_tree(m)),
    }
}

/// The map that pairs stand for, where the later of two pairs of one key counts.
pub open spec fn pair_map(s: Seq<(String, serde_json::Value)>) -> Map<Seq<char>, JsonTree>
    decreases s.len(),
{
    if s.len() == 0 {
        Map::empty()
    } else {
        pair_map(s.drop_last()).insert(s.last().0@, value_tree(s.last().1))
    }
}

/// `serde_json::Number::as_u64`, whose result has a name.
pub assume_specification[ serde_json::Number::as_u64 ](n: &serde_json::Number) -> (r: Option<u64>)
    ensures
        r == number_u64(*n),
;

/// `serde_json::Number::as_i64`, whose result has a name. A number with an unsigned
/// form has a signed one where that fits; any other signed form is negative.
pub assume_specification[ serde_json::Number::as_i64 ](n: &serde_json::Number) -> (r: Option<i64>)
    ensures
        r == number_i64(*n),
        match number_u64(*n) {
            Some(u) => r == (if u <= i64::MAX {
                Some(u as i64)
            } else {
                None
            }),
            None => match r {
                Some(i) => i < 0,
                None => true,
            },
        },
;

/// `From<u64>` of `serde_json::Number`: the number is that integer.
#[verifier::external_body]
fn number_from_u64(n: u64) -> (r: serde_json::Number)
    ensures
        number_u64(r) == Some(n),
{
    serde_json::Number::from(n)
}

/// `From<i64>` of `serde_json::Number`: the number is that integer, which has an
/// unsigned form where it is not negative.
#[verifier::external_body]
fn number_from_i64(n: i64) -> (r: serde_json::Number)
    ensures
        number_i64(r) == Some(n),
        number_u64(r) == (if n < 0 {
            None
        } else {
            Some(n as u64)
        }),
{
    serde_json::Number::from(n)
}

/// `serde_json::Map::new`: the object is empty.
pub assume_specification[ serde_json::Map::<String, serde_json::Value>::new ]() -> (r:
    serde_json::Map<String, serde_json::Value>)
    ensures
        map_tree(r).dom() == Set::<Seq<char>>::empty(),
;

/// `serde_json::Map::insert`: the key has the value, and every other key what it
/// had. The value that it had comes back.
pub assume_specification[ serde_json::Map::<String, serde_json::Value>::insert ](
    m: &mut serde_json::Map<String, serde_json::Value>,
    k: String,
    v: serde_json::Value,
) -> (r: Option<serde_json::Value>)
    ensures
        map_tree(*final(m)) == map_tree(*old(m)).insert(k@, value_tree(v)),
        match r {
            Some(w) => map_tree(*old(m)).dom().contains(k@) && map_tree(*old(m))[k@] == value_tree(
                w,
            ),
            None => !map_tree(*old(m)).dom().contains(k@),
        },
;

/// `IntoIterator` of `serde_json::Map`, collected: the pairs are those of the
/// object, each key once.
#[verifier::external_body]
fn map_pairs(m: serde_json::Map<String, serde_json::Value>) -> (r: Vec<
    (String, serde_json::Value),
>)
    ensures
        pair_map(r@) == map_tree(m),
        forall|i: int, j: int|
            0 <= i < j < r@.len() ==> (#[trigger] r@[i]).0@ != (#[trigger] r@[j]).0@,
{
    m.into_iter().collect()
}

/// The variants of `serde_json::Value`, told apart.
#[verifier::external_body]
fn open_value(v: serde_json::Value) -> (r: Layer)
    ensures
        layer_tree(r) == value_tree(v),
{
    match v {
        serde_json::Value::Null => Layer::Null,
        serde_json::Value::Bool(b) => Layer::Bool(b),
        serde_json::Value::Number(n) => Layer::Number(n),
        serde_json::Value::String(s) => Layer::Text(s),
        serde_json::Value::Array(a) => Layer::List(a),
        serde_json::Value::Object(m) => Layer::Members(m),
    }
}

/// The variants of `serde_json::Value`, put together.
#[verifier::external_body]
fn close_value(l: Layer) -> (r: serde_json::Value)
    ensures
        value_tree(r) == layer_tree(l),
{
    match l {
        Layer::Null => serde_json::Value::Null,
        Layer::Bool(b) => serde_json::Value::Bool(b),
        Layer::Number(n) => serde_json::Value::Number(n),
        Layer::Text(s) => serde_json::Value::String(s),
        Layer::List(a) => serde_json::Value::Array(a),
        Layer::Members(m) => serde_json::Value::Object(m),
    }
}

/// How deep arrays and objects may nest in a text that is read.
pub const MAX_NESTING: u64 = 127;

/// Whether a document can be written and read back without loss: its numbers are
/// integers, and its arrays and objects nest at most `levels` deep.
pub open spec fn storable(t: JsonTree, levels: nat) -> bool
    decreases t,
{
    match t {
        JsonTree::Number(n) => n is Integer,
        JsonTree::Array(s) => levels > 0 && (forall|i: int|
            0 <= i < s.len() ==> storable(#[trigger] s[i], (levels - 1) as nat)),
        JsonTree::Object(m) => levels > 0 && (forall|k: Seq<char>|
            m.dom().contains(k) ==> storable(#[trigger] m[k], (levels - 1) as nat)),
        _ => true,
    }
}

/// `serde_json::from_str`, whose outcome depends on the text alone and has a name.
#[verifier::external_body]
fn read_value(text: &str) -> (r: Result<serde_json::Value, serde_json::Error>)
    ensures
        match r {
            Ok(v) => parsed_text(text@) == Some(value_tree(v)),
            Err(_) => parsed_text(text@) is None,
        },
{
    serde_json::from_str(text)
}

/// `serde_json::to_string_pretty`. A value has only text keys and finite numbers,
/// so that writing it does not fail. The text depends on what the value holds
/// alone, since objects are kept in the order of their keys, and has a name.
/// Where the value is storable, reading the text gives the same value, whatever its
/// keys are: `serde_json` has no keys of its own but with its features `raw_value` and
/// `arbitrary_precision`, which are not on.
#[verifier::external_body]
fn write_value(v: &serde_json::Value) -> (r: Result<String, serde_json::Error>)
    ensures
        match r {
            Ok(s) => s@ == pretty_text(value_tree(*v)) && (storable(
                value_tree(*v),
                MAX_NESTING as nat,
            ) ==> parsed_text(s@) == Some(value_tree(*v))),
            Err(_) => false,
        },
{
    serde_json::to_string_pretty(v)
}

/// An item is smaller than its array.
proof fn lemma_item_smaller(t: JsonTree, i: int)
    requires
        t is Array,
        0 <= i < t->Array_0.len(),
    ensures
        decreases_to!(t => t->Array_0[i]),
{
    assert(decreases_to!(t => t->Array_0));
    assert(decreases_to!(t->Array_0 => t->Array_0[i]));
}

/// A member's value is smaller than its object.
proof fn lemma_member_smaller(t: JsonTree, k: Seq<char>)
    requires
        t is Object,
        t->Object_0.dom().finite(),
        t->Object_0.dom().contains(k),
    ensures
        decreases_to!(t => t->Object_0[k]),
{
    assert(decreases_to!(t => t->Object_0));
    assert(decreases_to!(t->Object_0 => t->Object_0[k]));
}

/// The documents right under a document are smaller.
proof fn lemma_document_smaller(j: Json, i: int)
    ensures
        j is Array && 0 <= i < j->Array_0@.len() ==> decreases_to!(j => j->Array_0@[i]),
        j is Object && 0 <= i < j->Object_0@.len() ==> decreases_to!(j => j->Object_0@[i].value),
{
    if j is Array && 0 <= i < j->Array_0@.len() {
        assert(decreases_to!(j => j->Array_0));
        assert(decreases_to!(j->Array_0 => j->Array_0@));
        assert(decreases_to!(j->Array_0@ => j->Array_0@[i]));
    }
    if j is Object && 0 <= i < j->Object_0@.len() {
        assert(decreases_to!(j => j->Object_0));
        assert(decreases_to!(j->Object_0 => j->Object_0@));
        assert(decreases_to!(j->Object_0@ => j->Object_0@[i]));
        assert(decreases_to!(j->Object_0@[i] => j->Object_0@[i].value));
    }
}

/// Pairs of distinct keys make a finite map that has each of them.
proof fn lemma_pair_map(s: Seq<(String, serde_json::Value)>, i: int)
    requires
        0 <= i < s.len(),
        forall|a: int, b: int|
            0 <= a < b < s.len() ==> (#[trigger] s[a]).0@ != (#[trigger] s[b]).0@,
    ensures
        pair_map(s).dom().finite(),
        pair_map(s).dom().contains(s[i].0@),
        pair_map(s)[s[i].0@] == value_tree(s[i].1),
    decreases s.len(),
{
    let front = s.drop_last();
    if front.len() > 0 {
        lemma_pair_map(front, if i < front.len() { i } else { 0 });
    } else {
        assert(pair_map(front) =~= Map::empty());
    }
    if i < front.len() {
        assert(front[i] == s[i]);
        assert(s[i].0@ != s[s.len() - 1].0@);
    }
}

impl Json {
    /// The document that a `serde_json::Value` holds.
    pub fn from_value(v: serde_json::Value) -> (r: Json)
        ensures
            r@ == value_tree(v),
        decreases value_tree(v),
    {
        match open_value(v) {
            Layer::Null => Json::Null,
            Layer::Bool(b) => Json::Bool(b),
            Layer::Number(n) => match n.as_u64() {
                Some(u) => Json::Unsigned(u),
                None => match n.as_i64() {
                    Some(i) => Json::Signed(i),
                    None => Json::Other(OtherNumber::new(n)),
                },
            },
            Layer::Text(s) => Json::Text(s),
            Layer::List(list) => {
                let ghost all = list@;
                let mut out: Vec<Json> = Vec::new();
                for x in it: list
                    invariant
                        it.seq() == all,
                        value_tree(v) == layer_tree(Layer::List(list)),
                        list@ == all,
                        out@.len() == it.index(),
                        forall|j: int| 0 <= j < it.index() ==> (#[trigger] out@[j])@ == value_tree(
                            all[j],
                        ),
                {
                    proof {
                        let s = all.map_values(|y: serde_json::Value| value_tree(y));
                        assert(value_tree(v) == JsonTree::Array(s));
                        assert(s[it.index() as int] == value_tree(x));
                        lemma_item_smaller(value_tree(v), it.index() as int);
                    }
                    out.push(Json::from_value(x));
                }
                assert(crate::json::trees(out@) =~= all.map_values(
                    |y: serde_json::Value| value_tree(y),
                ));
                Json::Array(out)
            },
            Layer::Members(m) => {
                let pairs = map_pairs(m);
                let ghost all = pairs@;
                let mut out: Vec<Member> = Vec::new();
                assert(all.take(0) =~= Seq::<(String, serde_json::Value)>::empty());
                for p in it: pairs
                    invariant
                        it.seq() == all,
                        value_tree(v) == JsonTree::Object(pair_map(all)),
                        forall|a: int, b: int|
                            0 <= a < b < all.len() ==> (#[trigger] all[a]).0@ != (
                            #[trigger] all[b]).0@,
                        crate::json::member_map(out@) == pair_map(all.take(it.index() as int)),
                {
                    let ghost i = it.index() as int;
                    let ghost before = out@;
                    proof {
                        lemma_pair_map(all, i);
                        lemma_member_smaller(value_tree(v), p.0@);
                    }
                    let (key, value) = p;
                    let value = Json::from_value(value);
                    out.push(Member { key, value });
                    proof {
                        assert(out@.drop_last() =~= before);
                        assert(all.take(i + 1).drop_last() =~= all.take(i));
                    }
                }
                assert(all.take(all.len() as int) =~= all);
                Json::Object(out)
            },
        }
    }

    /// This document as a `serde_json::Value`.
    pub fn to_value(&self) -> (r: serde_json::Value)
        ensures
            value_tree(r) == self@,
        decreases self,
    {
        match self {
            Json::Null => close_value(Layer::Null),
            Json::Bool(b) => close_value(Layer::Bool(*b)),
            Json::Unsigned(n) => close_value(Layer::Number(number_from_u64(*n))),
            Json::Signed(n) => close_value(Layer::Number(number_from_i64(*n))),
            Json::Other(n) => close_value(Layer::Number(n.to_number())),
            Json::Text(s) => close_value(Layer::Text(s.clone())),
            Json::Array(list) => {
                let mut out: Vec<serde_json::Value> = Vec::new();
                let mut i: usize = 0;
                while i < list.len()
                    invariant
                        i <= list@.len(),
                        out@.len() == i,
                        *self == Json::Array(*list),
                        forall|j: int|
                            0 <= j < i ==> value_tree(#[trigger] out@[j]) == list@[j]@,
                    decreases list@.len() - i,
                {
                    proof {
                        lemma_document_smaller(*self, i as int);
                    }
                    out.push(list[i].to_value());
                    i = i + 1;
                }
                assert(out@.map_values(|x: serde_json::Value| value_tree(x))
                    =~= crate::json::trees(list@));
                close_value(Layer::List(out))
            },
            Json::Object(members) => {
                let mut out = serde_json::Map::<String, serde_json::Value>::new();
                let mut i: usize = 0;
                assert(members@.take(0) =~= Seq::<Member>::empty());
                assert(map_tree(out) =~= Map::empty());
                while i < members.len()
                    invariant
                        i <= members@.len(),
                        *self == Json::Object(*members),
                        map_tree(out) == crate::json::member_map(members@.take(i as int)),
                    decreases members@.len() - i,
                {
                    proof {
                        lemma_document_smaller(*self, i as int);
                    }
                    let value = members[i].value.to_value();
                    let _ = out.insert(members[i].key.clone(), value);
                    proof {
                        assert(members@.take(i + 1).drop_last() =~= members@.take(i as int));
                    }
                    i = i + 1;
                }
                assert(members@.take(i as int) =~= members@);
                close_value(Layer::Members(out))
            },
        }
    }

    /// Reads a document from JSON text. `None` where the text is none.
    pub fn parse(text: &str) -> (r: Option<Json>)
        ensures
            match r {
                Some(j) => parsed_text(text@) == Some(j@),
                None => parsed_text(text@) is None,
            },
    {
        match read_value(text) {
            Ok(v) => Some(Json::from_value(v)),
            Err(_) => None,
        }
    }

    /// Writes this document as indented JSON text. A storable document is read
    /// back from it.
    pub fn pretty(&self) -> (r: String)
        ensures
            r@ == pretty_text(self@),
            storable(self@, MAX_NESTING as nat) ==> parsed_text(r@) == Some(self@),
    {
        let v = self.to_value();
        match write_value(&v) {
            Ok(s) => s,
            Err(_) => String::new(),
        }
    }
}

} // verus!
