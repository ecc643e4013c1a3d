//! Laws on documents: what reading a member gives, and what a document in memory stands
//! for.
use crate::backups::{RestoreModel, RestoreStep};
use crate::codec::Layer;
use crate::disk::DiskStep;
use crate::files::FileStep;
use crate::holidays::{HolidayStep, HolidayStepModel};
use crate::json::{Json, JsonTree, Member, NumberTree};
use crate::reminders::{Notice, Reminder};
use crate::store::{ContentWrite, LoadResult, LoadStep, LoadStepModel, Loaded};
use vstd::prelude::*;

verus! {

/// Reading a member gives what the object holds under the key, and nothing where it
/// holds nothing there or is no object.
pub proof fn law_member(t: JsonTree, key: Seq<char>, v: JsonTree)
    ensures
        t.member(key) == Some(v) <==> crate::laws::holds(t, key, v),
{
}

/// Reading a text, a truth value or a list gives it exactly where the member is one.
pub proof fn law_typed_members(
    t: JsonTree,
    key: Seq<char>,
    s: Seq<char>,
    b: bool,
    items: Seq<JsonTree>,
)
    ensures
        t.text_at(key) == Some(s) <==> crate::laws::holds(t, key, JsonTree::Text(s)),
        t.flag_at(key) == Some(b) <==> crate::laws::holds(t, key, JsonTree::Bool(b)),
        t.items_at(key) == Some(items) <==> crate::laws::holds(t, key, JsonTree::Array(items)),
{
}

/// Reading a text or else nothing gives the whole text where the member is one, and the
/// empty text where it is not.
pub proof fn law_text_or_empty(t: JsonTree, key: Seq<char>, s: Seq<char>)
    ensures
        t.text_or_empty(key) == s <==> crate::laws::text_or_nothing(t, key, s),
{
    if crate::laws::text_or_nothing(t, key, s) && !crate::laws::holds_text(t, key, s) {
        if t.text_at(key) is Some {
            assert(crate::laws::holds_text(t, key, t.text_at(key)->0));
        }
        assert(s =~= Seq::empty());
    }
    if t.text_or_empty(key) == s && t.text_at(key) is None {
        assert forall|x: Seq<char>| !#[trigger] crate::laws::holds_text(t, key, x) by {}
    }
}

/// Reading a truth value or else a default gives the default only where the member is
/// no truth value.
pub proof fn law_flag_or(t: JsonTree, key: Seq<char>, default: bool)
    ensures
        crate::reminders::flag_or(t, key, default) == (if default {
            !crate::laws::holds(t, key, JsonTree::Bool(false))
        } else {
            crate::laws::holds(t, key, JsonTree::Bool(true))
        }),
{
}

/// Reading a list or else nothing gives the list where the member is one, and no items
/// where it is not.
pub proof fn law_items_or_none(t: JsonTree, key: Seq<char>, items: Seq<JsonTree>)
    ensures
        crate::laws::holds(t, key, JsonTree::Array(items)) ==> crate::reminders::items_or_none(
            t,
            key,
        ) == items && crate::store::entries(t, key) == items,
        (forall|x: Seq<JsonTree>| !#[trigger] crate::laws::holds(t, key, JsonTree::Array(x)))
            ==> crate::reminders::items_or_none(t, key).len() == 0 && crate::store::entries(
            t,
            key,
        ).len() == 0,
{
    if t.items_at(key) is Some {
        assert(crate::laws::holds(t, key, JsonTree::Array(t.items_at(key)->0)));
    }
}

/// An integer is read where it lies within the bounds, and as itself.
pub proof fn law_integer(t: JsonTree, low: int, high: int, n: int)
    ensures
        t.as_integer(low, high) == Some(n) <==> t == JsonTree::Number(NumberTree::Integer(n))
            && low <= n <= high,
{
}

/// A document in memory stands for the value that it is made of.
pub proof fn law_documents(b: bool, u: u64, i: i64, s: String, v: Vec<Json>)
    ensures
        Json::Null@ == JsonTree::Null,
        Json::Bool(b)@ == JsonTree::Bool(b),
        Json::Unsigned(u)@ == JsonTree::Number(NumberTree::Integer(u as int)),
        Json::Signed(i)@ == JsonTree::Number(NumberTree::Integer(i as int)),
        Json::Text(s)@ == JsonTree::Text(s@),
        Json::Array(v)@ is Array,
        Json::Array(v)@->Array_0.len() == v@.len(),
        forall|k: int| 0 <= k < v@.len() ==> #[trigger] Json::Array(v)@->Array_0[k] == v@[k]@,
{
}

/// An object in memory stands for the map of its members, where the last of a key
/// counts.
pub proof fn law_objects(m: Vec<Member>, key: Seq<char>, k: int)
    requires
        0 <= k < m@.len(),
        m@[k].key@ == key,
        forall|j: int| k < j < m@.len() ==> (#[trigger] m@[j]).key@ != key,
    ensures
        crate::laws::holds(Json::Object(m)@, key, m@[k].value@),
{
    lemma_last_counts(m@, key, k);
}

/// The map of members has the last value of a key.
proof fn lemma_last_counts(s: Seq<Member>, key: Seq<char>, k: int)
    requires
        0 <= k < s.len(),
        s[k].key@ == key,
        forall|j: int| k < j < s.len() ==> (#[trigger] s[j]).key@ != key,
    ensures
        crate::json::member_map(s).dom().contains(key),
        crate::json::member_map(s)[key] == s[k].value@,
    decreases s.len(),
{
    let front = s.drop_last();
    if k < s.len() - 1 {
        assert(s[s.len() - 1].key@ != key);
        assert forall|j: int| k < j < front.len() implies (#[trigger] front[j]).key@ != key by {
            assert(front[j] == s[j]);
        }
        lemma_last_counts(front, key, k);
    }
}

/// An object in memory has only the keys of its members.
pub proof fn law_objects_keys(m: Vec<Member>, key: Seq<char>)
    requires
        forall|j: int| 0 <= j < m@.len() ==> (#[trigger] m@[j]).key@ != key,
    ensures
        Json::Object(m)@ is Object,
        !Json::Object(m)@->Object_0.dom().contains(key),
{
    lemma_no_other_key(m@, key);
}

/// The map of members has no other key.
proof fn lemma_no_other_key(s: Seq<Member>, key: Seq<char>)
    requires
        forall|j: int| 0 <= j < s.len() ==> (#[trigger] s[j]).key@ != key,
    ensures
        !crate::json::member_map(s).dom().contains(key),
    decreases s.len(),
{
    if s.len() > 0 {
        let front = s.drop_last();
        assert forall|j: int| 0 <= j < front.len() implies (#[trigger] front[j]).key@ != key by {
            assert(front[j] == s[j]);
        }
        assert(s[s.len() - 1].key@ != key);
        lemma_no_other_key(front, key);
    }
}

/// The models of notices, reminders and contents hold their texts whole, in their order.
pub proof fn law_models(notices: Seq<Notice>, reminders: Seq<Reminder>, contents: Seq<ContentWrite>)
    ensures
        crate::reminders::notice_texts(notices).len() == notices.len(),
        forall|i: int|
            0 <= i < notices.len() ==> (#[trigger] crate::reminders::notice_texts(notices)[i]).title
                == notices[i].title@ && crate::reminders::notice_texts(notices)[i].body
                == notices[i].body@,
        crate::reminders::reminder_texts(reminders).len() == reminders.len(),
        forall|i: int|
            0 <= i < reminders.len() ==> (#[trigger] crate::reminders::reminder_texts(
                reminders,
            )[i]).key == reminders[i].key@ && crate::reminders::reminder_texts(
                reminders,
            )[i].notice == reminders[i].notice@,
        crate::store::content_texts(contents).len() == contents.len(),
        forall|i: int|
            0 <= i < contents.len() ==> {
                let c = #[trigger] crate::store::content_texts(contents)[i];
                c.kind == contents[i].kind@ && c.id == contents[i].id@ && c.content
                    == contents[i].content@
            },
{
}

/// A document without arrays and objects can be stored where its number, if it is one, is
/// an integer; an array or an object exactly where what it holds can be stored one level
/// further in, and never where no level is left.
pub proof fn law_storable(
    s: Seq<char>,
    b: bool,
    n: int,
    other: serde_json::Number,
    items: Seq<JsonTree>,
    members: Map<Seq<char>, JsonTree>,
    levels: nat,
)
    ensures
        crate::codec::storable(JsonTree::Null, levels),
        crate::codec::storable(JsonTree::Bool(b), levels),
        crate::codec::storable(JsonTree::Text(s), levels),
        crate::codec::storable(JsonTree::Number(NumberTree::Integer(n)), levels),
        !crate::codec::storable(JsonTree::Number(NumberTree::Other(other)), levels),
        crate::codec::storable(JsonTree::Array(items), levels + 1) <==> forall|i: int|
            0 <= i < items.len() ==> crate::codec::storable(#[trigger] items[i], levels),
        crate::codec::storable(JsonTree::Object(members), levels + 1) <==> forall|k: Seq<char>|
            members.dom().contains(k) ==> crate::codec::storable(#[trigger] members[k], levels),
        !crate::codec::storable(JsonTree::Array(items), 0),
        !crate::codec::storable(JsonTree::Object(members), 0),
        crate::codec::MAX_NESTING == 127,
{
    lemma_storable_inside(JsonTree::Array(items), levels + 1);
    lemma_storable_inside(JsonTree::Object(members), levels + 1);
    let object = JsonTree::Object(members);
    assert(object->Object_0 == members);
    let inner = (levels + 1 - 1) as nat;
    assert(inner == levels);
    if crate::codec::storable(object, levels + 1) {
        assert forall|k: Seq<char>| members.dom().contains(k) implies crate::codec::storable(
            #[trigger] members[k],
            levels,
        ) by {
            assert(object->Object_0[k] == members[k]);
        }
    } else if forall|k: Seq<char>|
        members.dom().contains(k) ==> crate::codec::storable(#[trigger] members[k], levels) {
        assert forall|k: Seq<char>| members.dom().contains(k) implies crate::codec::storable(
            #[trigger] members[k],
            inner,
        ) by {}
    }
}

/// What a storable array or object holds is storable one level further in.
proof fn lemma_storable_inside(t: JsonTree, levels: nat)
    requires
        levels > 0,
    ensures
        crate::codec::storable(t, levels) && t is Array ==> forall|i: int|
            0 <= i < t->Array_0.len() ==> crate::codec::storable(
                #[trigger] t->Array_0[i],
                (levels - 1) as nat,
            ),
        crate::codec::storable(t, levels) && t is Object ==> forall|k: Seq<char>|
            t->Object_0.dom().contains(k) ==> crate::codec::storable(
                #[trigger] t->Object_0[k],
                (levels - 1) as nat,
            ),
{
    if crate::codec::storable(t, levels) {
        let inner = (levels - 1) as nat;
        if let JsonTree::Array(s) = t {
            assert forall|i: int| 0 <= i < s.len() implies crate::codec::storable(
                #[trigger] s[i],
                inner,
            ) by {}
        }
        if let JsonTree::Object(m) = t {
            assert forall|k: Seq<char>| m.dom().contains(k) implies crate::codec::storable(
                #[trigger] m[k],
                inner,
            ) by {}
        }
    }
}

/// A number of `serde_json` stands for the integer that it gives, without a sign or with
/// one, and for itself where it gives none; a layer of a value stands for what it holds.
pub proof fn law_values(n: serde_json::Number, b: bool, s: String, v: Vec<serde_json::Value>)
    ensures
        crate::codec::layer_tree(Layer::Null) == JsonTree::Null,
        crate::codec::layer_tree(Layer::Bool(b)) == JsonTree::Bool(b),
        crate::codec::layer_tree(Layer::Text(s)) == JsonTree::Text(s@),
        crate::codec::layer_tree(Layer::Number(n)) == (if crate::codec::number_u64(n) is Some {
            JsonTree::Number(NumberTree::Integer(crate::codec::number_u64(n)->0 as int))
        } else if crate::codec::number_i64(n) is Some {
            JsonTree::Number(NumberTree::Integer(crate::codec::number_i64(n)->0 as int))
        } else {
            JsonTree::Number(NumberTree::Other(n))
        }),
        ({
            let t = crate::codec::layer_tree(Layer::List(v));
            &&& t is Array
            &&& t->Array_0.len() == v@.len()
            &&& forall|i: int|
                0 <= i < v@.len() ==> #[trigger] t->Array_0[i] == crate::codec::value_tree(v@[i])
        }),
{
}

/// The models of steps and of optional values are what they are made of.
pub proof fn law_more_models(
    texts: Seq<String>,
    steps: Seq<FileStep>,
    name: String,
    text: String,
    j: Json,
    restored: bool,
    i: usize,
)
    ensures
        crate::text::texts(texts).len() == texts.len(),
        forall|k: int| 0 <= k < texts.len() ==> #[trigger] crate::text::texts(texts)[k] == texts[k]@,
        crate::files::step_models(steps).len() == steps.len(),
        forall|k: int|
            0 <= k < steps.len() ==> #[trigger] crate::files::step_models(steps)[k] == steps[k]@,
        FileStep::Write(name, text)@ == DiskStep::Write(name@, text@),
        FileStep::Rename(name, text)@ == DiskStep::<char>::Rename(name@, text@),
        crate::store::optional_tree(Some(j)) == Some(j@),
        crate::store::optional_tree(None) is None,
        crate::store::optional_text(None) is None,
        crate::holidays::optional_reply(Some(&j)) == Some(j@),
        crate::holidays::optional_reply(None) is None,
        (LoadResult { data: Some(j), restored })@ == (Loaded { data: Some(j@), restored }),
        (LoadResult { data: None, restored })@ == (Loaded { data: None, restored }),
        LoadStep::Restore@ == LoadStepModel::Restore,
        LoadStep::Done(LoadResult { data: Some(j), restored })@ == LoadStepModel::Done(
            Loaded { data: Some(j@), restored },
        ),
        HolidayStep::Show(j)@ == HolidayStepModel::Show(j@),
        HolidayStep::Ask@ == HolidayStepModel::Ask,
        RestoreStep::Read(i)@ == RestoreModel::Read(i),
        RestoreStep::Use(i, j)@ == RestoreModel::Use(i, j@),
        RestoreStep::GiveUp@ == RestoreModel::GiveUp,
{
}

/// The model of a text that is there is the whole text.
pub proof fn law_optional_text(s: &str)
    ensures
        crate::store::optional_text(Some(s)) == Some(s@),
{
}

} // verus!
