//! JSON documents: the document type, its mathematical model, and reading and
//! setting members.
use crate::text::same_text;
use vstd::prelude::*;

verus! {

/// The number type of `serde_json`, carried as it is.
#[verifier::external_type_specification]
#[verifier::external_body]
pub struct ExNumber(serde_json::Number);

/// `Clone` of `serde_json::Number`: the clone is the same number.
pub assume_specification[ <serde_json::Number as Clone>::clone ](n: &serde_json::Number) -> (r:
    serde_json::Number)
    ensures
        r == *n,
;

/// A number of a document: an integer, or any other number as `serde_json`
/// holds it.
pub enum NumberTree {
    Integer(int),
    Other(serde_json::Number),
}

/// The mathematical model of a document. An object is a finite map: the order of
/// its members has no meaning.
pub enum JsonTree {
    Null,
    Bool(bool),
    Number(NumberTree),
    Text(Seq<char>),
    Array(Seq<JsonTree>),
    Object(Map<Seq<char>, JsonTree>),
}

/// A number that is no integer of 64 bits.
pub struct OtherNumber {
    number: serde_json::Number,
}

impl OtherNumber {
    /// The number itself.
    pub closed spec fn number(self) -> serde_json::Number {
        self.number
    }

    /// Neither form as an integer exists.
    #[verifier::type_invariant]
    spec fn no_integer(self) -> bool {
        crate::codec::number_tree(self.number) == NumberTree::Other(self.number)
    }

    /// Keeps a number that is no integer of 64 bits.
    pub(crate) fn new(number: serde_json::Number) -> (r: OtherNumber)
        requires
            crate::codec::number_tree(number) == NumberTree::Other(number),
        ensures
            r.number() == number,
    {
        OtherNumber { number }
    }

    /// A copy of the number.
    pub(crate) fn to_number(&self) -> (r: serde_json::Number)
        ensures
            r == self.number(),
            crate::codec::number_tree(r) == NumberTree::Other(r),
    {
        proof {
            use_type_invariant(self);
        }
        self.number.clone()
    }
}

/// One member of an object.
pub struct Member {
    pub key: String,
    pub value: Json,
}

/// A JSON document. Where an object has two members of one key, the later counts.
pub enum Json {
    Null,
    Bool(bool),
    Unsigned(u64),
    Signed(i64),
    Other(OtherNumber),
    Text(String),
    Array(Vec<Json>),
    Object(Vec<Member>),
}

/// The models of the documents in `s`.
pub open spec fn trees(s: Seq<Json>) -> Seq<JsonTree>
    decreases s,
{
    Seq::new(
        s.len(),
        |i: int|
            if 0 <= i < s.len() {
                s[i].tree()
            } else {
                JsonTree::Null
            },
    )
}

/// The map that the members `s` stand for.
pub open spec fn member_map(s: Seq<Member>) -> Map<Seq<char>, JsonTree>
    decreases s,
{
    if s.len() == 0 {
        Map::empty()
    } else {
        member_map(s.drop_last()).insert(s.last().key@, s.last().value.tree())
    }
}

impl Json {
    /// The model of this document.
    pub open spec fn tree(self) -> JsonTree
        decreases self,
    {
        match self {
            Json::Null => JsonTree::Null,
            Json::Bool(b) => JsonTree::Bool(b),
            Json::Unsigned(n) => JsonTree::Number(NumberTree::Integer(n as int)),
            Json::Signed(n) => JsonTree::Number(NumberTree::Integer(n as int)),
            Json::Other(n) => JsonTree::Number(NumberTree::Other(n.number())),
            Json::Text(s) => JsonTree::Text(s@),
            Json::Array(v) => JsonTree::Array(trees(v@)),
            Json::Object(m) => JsonTree::Object(member_map(m@)),
        }
    }
}

impl View for Json {
    type V = JsonTree;

    open spec fn view(&self) -> JsonTree {
        self.tree()
    }
}

impl JsonTree {
    /// The member of that key, where this is an object that has one.
    pub open spec fn member(self, key: Seq<char>) -> Option<JsonTree> {
        match self {
            JsonTree::Object(m) => if m.dom().contains(key) {
                Some(m[key])
            } else {
                None
            },
            _ => None,
        }
    }

    /// The characters, where this is a text.
    pub open spec fn as_text(self) -> Option<Seq<char>> {
        match self {
            JsonTree::Text(s) => Some(s),
            _ => None,
        }
    }

    /// The truth value, where this is one.
    pub open spec fn as_flag(self) -> Option<bool> {
        match self {
            JsonTree::Bool(b) => Some(b),
            _ => None,
        }
    }

    /// The integer, where this is one between `low` and `high`.
    pub open spec fn as_integer(self, low: int, high: int) -> Option<int> {
        match self {
            JsonTree::Number(NumberTree::Integer(n)) => if low <= n <= high {
                Some(n)
            } else {
                None
            },
            _ => None,
        }
    }

    /// The items, where this is an array.
    pub open spec fn as_items(self) -> Option<Seq<JsonTree>> {
        match self {
            JsonTree::Array(s) => Some(s),
            _ => None,
        }
    }

    /// The text member of that key.
    pub open spec fn text_at(self, key: Seq<char>) -> Option<Seq<char>> {
        match self.member(key) {
            Some(t) => t.as_text(),
            None => None,
        }
    }

    /// The truth value of that key.
    pub open spec fn flag_at(self, key: Seq<char>) -> Option<bool> {
        match self.member(key) {
            Some(t) => t.as_flag(),
            None => None,
        }
    }

    /// The array member of that key.
    pub open spec fn items_at(self, key: Seq<char>) -> Option<Seq<JsonTree>> {
        match self.member(key) {
            Some(t) => t.as_items(),
            None => None,
        }
    }

    /// The text member of that key, or the empty text.
    pub open spec fn text_or_empty(self, key: Seq<char>) -> Seq<char> {
        match self.text_at(key) {
            Some(s) => s,
            None => Seq::empty(),
        }
    }
}

/// Members that lie behind position `k` and have other keys do not count for `key`.
proof fn lemma_member_map_take(s: Seq<Member>, key: Seq<char>, k: int)
    requires
        0 <= k <= s.len(),
        forall|j: int| k <= j < s.len() ==> (#[trigger] s[j]).key@ != key,
    ensures
        member_map(s).dom().contains(key) == member_map(s.take(k)).dom().contains(key),
        member_map(s).dom().contains(key) ==> member_map(s)[key] == member_map(s.take(k))[key],
    decreases s.len(),
{
    if k == s.len() {
        assert(s.take(k) =~= s);
    } else {
        let front = s.drop_last();
        assert forall|j: int| k <= j < front.len() implies (#[trigger] front[j]).key@ != key by {
            assert(front[j] == s[j]);
        }
        lemma_member_map_take(front, key, k);
        assert(front.take(k) =~= s.take(k));
        assert(s[s.len() - 1].key@ != key);
    }
}

/// The members without those of one key, and the value of that key.
pub fn take_member(members: Vec<Member>, key: &str) -> (r: (Vec<Member>, Option<Json>))
    ensures
        member_map(r.0@) == member_map(members@).remove(key@),
        match r.1 {
            Some(v) => member_map(members@).dom().contains(key@) && member_map(members@)[key@]
                == v@,
            None => !member_map(members@).dom().contains(key@),
        },
{
    let ghost all = members@;
    let mut rest: Vec<Member> = Vec::new();
    let mut found: Option<Json> = None;
    assert(all.take(0) =~= Seq::<Member>::empty());
    assert(member_map(all.take(0)).remove(key@) =~= Map::<Seq<char>, JsonTree>::empty());
    for m in it: members
        invariant
            it.seq() == all,
            member_map(rest@) == member_map(all.take(it.index() as int)).remove(key@),
            match found {
                Some(v) => member_map(all.take(it.index() as int)).dom().contains(key@)
                    && member_map(all.take(it.index() as int))[key@] == v@,
                None => !member_map(all.take(it.index() as int)).dom().contains(key@),
            },
    {
        let ghost i = it.index() as int;
        let ghost before = member_map(all.take(i));
        let ghost old_rest = rest@;
        proof {
            assert(all.take(i + 1).drop_last() =~= all.take(i));
            assert(all.take(i + 1).last() == m);
        }
        if same_text(m.key.as_str(), key) {
            found = Some(m.value);
            assert(before.insert(key@, m.value@).remove(key@) =~= before.remove(key@));
        } else {
            rest.push(m);
            proof {
                assert(rest@.drop_last() =~= old_rest);
                assert(before.insert(m.key@, m.value@).remove(key@) =~= before.remove(key@).insert(
                    m.key@,
                    m.value@,
                ));
            }
        }
    }
    assert(all.take(all.len() as int) =~= all);
    (rest, found)
}

/// The members with the value of one key set.
pub fn put_member(members: Vec<Member>, key: &str, value: Json) -> (r: Vec<Member>)
    ensures
        member_map(r@) == member_map(members@).insert(key@, value@),
{
    let taken = take_member(members, key);
    let mut r = taken.0;
    let ghost front = r@;
    r.push(Member { key: key.to_owned(), value });
    proof {
        assert(r@.drop_last() =~= front);
        assert(member_map(members@).remove(key@).insert(key@, value@) =~= member_map(
            members@,
        ).insert(key@, value@));
    }
    r
}

impl Json {
    /// The member of that key, where this is an object that has one.
    pub fn get(&self, key: &str) -> (r: Option<&Json>)
        ensures
            match r {
                Some(v) => self@.member(key@) == Some(v@),
                None => self@.member(key@) is None,
            },
    {
        match self {
            Json::Object(members) => {
                let mut i: usize = members.len();
                assert(members@.take(i as int) =~= members@);
                while i > 0
                    invariant
                        i <= members@.len(),
                        self@ == JsonTree::Object(member_map(members@)),
                        forall|j: int|
                            i <= j < members@.len() ==> (#[trigger] members@[j]).key@ != key@,
                    decreases i,
                {
                    i = i - 1;
                    if same_text(members[i].key.as_str(), key) {
                        proof {
                            lemma_member_map_take(members@, key@, i + 1);
                            assert(members@.take(i + 1).drop_last() =~= members@.take(i as int));
                        }
                        return Some(&members[i].value);
                    }
                }
                proof {
                    lemma_member_map_take(members@, key@, 0);
                    assert(members@.take(0) =~= Seq::<Member>::empty());
                }
                None
            },
            _ => None,
        }
    }

    /// The characters, where this is a text.
    pub fn as_str(&self) -> (r: Option<&str>)
        ensures
            match r {
                Some(s) => self@.as_text() == Some(s@),
                None => self@.as_text() is None,
            },
    {
        match self {
            Json::Text(s) => Some(s.as_str()),
            _ => None,
        }
    }

    /// The truth value, where this is one.
    pub fn as_bool(&self) -> (r: Option<bool>)
        ensures
            r == self@.as_flag(),
    {
        match self {
            Json::Bool(b) => Some(*b),
            _ => None,
        }
    }

    /// The integer, where this is one of 64 bits with a sign.
    pub fn as_i64(&self) -> (r: Option<i64>)
        ensures
            match r {
                Some(n) => self@.as_integer(i64::MIN as int, i64::MAX as int) == Some(n as int),
                None => self@.as_integer(i64::MIN as int, i64::MAX as int) is None,
            },
    {
        match self {
            Json::Unsigned(n) => if *n <= 0x7fff_ffff_ffff_ffff {
                Some(*n as i64)
            } else {
                None
            },
            Json::Signed(n) => Some(*n),
            _ => None,
        }
    }

    /// The integer, where this is one of 64 bits without a sign.
    pub fn as_u64(&self) -> (r: Option<u64>)
        ensures
            match r {
                Some(n) => self@.as_integer(0, u64::MAX as int) == Some(n as int),
                None => self@.as_integer(0, u64::MAX as int) is None,
            },
    {
        match self {
            Json::Unsigned(n) => Some(*n),
            Json::Signed(n) => if *n >= 0 {
                Some(*n as u64)
            } else {
                None
            },
            _ => None,
        }
    }

    /// The items, where this is an array.
    pub fn as_array(&self) -> (r: Option<&Vec<Json>>)
        ensures
            match r {
                Some(v) => self@.as_items() == Some(trees(v@)),
                None => self@.as_items() is None,
            },
    {
        match self {
            Json::Array(v) => Some(v),
            _ => None,
        }
    }

    /// The text member of that key.
    pub fn str_at(&self, key: &str) -> (r: Option<&str>)
        ensures
            match r {
                Some(s) => self@.text_at(key@) == Some(s@),
                None => self@.text_at(key@) is None,
            },
    {
        match self.get(key) {
            Some(v) => v.as_str(),
            None => None,
        }
    }

    /// The text member of that key, or the empty text.
    pub fn str_or_empty(&self, key: &str) -> (r: String)
        ensures
            r@ == self@.text_or_empty(key@),
    {
        match self.str_at(key) {
            Some(s) => s.to_owned(),
            None => String::new(),
        }
    }

    /// The truth value of that key.
    pub fn bool_at(&self, key: &str) -> (r: Option<bool>)
        ensures
            r == self@.flag_at(key@),
    {
        match self.get(key) {
            Some(v) => v.as_bool(),
            None => None,
        }
    }

    /// The array member of that key.
    pub fn array_at(&self, key: &str) -> (r: Option<&Vec<Json>>)
        ensures
            match r {
                Some(v) => self@.items_at(key@) == Some(trees(v@)),
                None => self@.items_at(key@) is None,
            },
    {
        match self.get(key) {
            Some(v) => v.as_array(),
            None => None,
        }
    }
}

} // verus!
