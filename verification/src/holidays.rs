//! Holidays: from the answer of the service to the table that is shown and kept.
use crate::json::{Json, JsonTree, Member, NumberTree};
use crate::store::read_data;
use crate::text::decimal_int_text;
use vstd::prelude::*;
use vstd::string::*;

verus! {

/// What is kept of a day: whether it is a holiday, and its name.
pub open spec fn day_entry(v: JsonTree) -> JsonTree {
    JsonTree::Object(
        Map::<Seq<char>, JsonTree>::empty().insert(
            "holiday"@,
            JsonTree::Bool(crate::reminders::flag_or(v, "holiday"@, false)),
        ).insert("name"@, JsonTree::Text(v.text_or_empty("name"@))),
    )
}

/// The year and a hyphen, with which the keys of the table begin.
pub open spec fn year_prefix(year: int) -> Seq<char> {
    crate::text::decimal_int(year) + "-"@
}

/// Whether `key` is the year, a hyphen and a day that `days` has.
pub open spec fn is_day_of(
    days: Map<Seq<char>, JsonTree>,
    prefix: Seq<char>,
    key: Seq<char>,
) -> bool {
    &&& key.len() >= prefix.len()
    &&& key.take(prefix.len() as int) == prefix
    &&& days.dom().contains(key.skip(prefix.len() as int))
}

/// The table of a year: every day of `days`, under its key with the year before it.
pub open spec fn holiday_table(
    days: Map<Seq<char>, JsonTree>,
    prefix: Seq<char>,
) -> Map<Seq<char>, JsonTree> {
    Map::new(
        |k: Seq<char>| is_day_of(days, prefix, k),
        |k: Seq<char>| day_entry(days[k.skip(prefix.len() as int)]),
    )
}

/// A table as the document that is shown.
pub open spec fn holiday_document(table: Map<Seq<char>, JsonTree>) -> JsonTree {
    JsonTree::Object(
        Map::<Seq<char>, JsonTree>::empty().insert("holiday"@, JsonTree::Object(table)),
    )
}

/// The days that an answer gives: those of an answer that reports success.
pub open spec fn days_in(reply: JsonTree) -> Option<Map<Seq<char>, JsonTree>> {
    match reply.member("code"@) {
        Some(JsonTree::Number(NumberTree::Integer(n))) => if n == 0 {
            match reply.member("holiday"@) {
                Some(JsonTree::Object(days)) => Some(days),
                _ => None,
            }
        } else {
            None
        },
        _ => None,
    }
}

/// The days that the service gives, which answered or not.
pub open spec fn answered_days(reply: Option<JsonTree>) -> Option<Map<Seq<char>, JsonTree>> {
    match reply {
        Some(t) => days_in(t),
        None => None,
    }
}

/// What to do once it was looked for holidays that were kept.
pub enum HolidayStep {
    /// They are shown.
    Show(Json),
    /// The service is asked.
    Ask,
}

/// The model of what to do once it was looked for holidays that were kept.
pub enum HolidayStepModel {
    Show(JsonTree),
    Ask,
}

impl View for HolidayStep {
    type V = HolidayStepModel;

    open spec fn view(&self) -> HolidayStepModel {
        match self {
            HolidayStep::Show(j) => HolidayStepModel::Show(j@),
            HolidayStep::Ask => HolidayStepModel::Ask,
        }
    }
}

/// What to do with a file of holidays that was read as `raw`, or not at all: what it
/// holds is shown, and where it holds no document the service is asked.
pub open spec fn holiday_step(raw: Option<Seq<char>>) -> HolidayStepModel {
    match crate::store::document_in(raw) {
        Some(t) => HolidayStepModel::Show(t),
        None => HolidayStepModel::Ask,
    }
}

/// What to do with the file that keeps the holidays of a year, which was read as `raw`
/// or not at all.
pub fn kept_holidays(raw: Option<&str>) -> (r: HolidayStep)
    ensures
        r@ == holiday_step(crate::store::optional_text(raw)),
{
    match read_data(raw) {
        Some(j) => HolidayStep::Show(j),
        None => HolidayStep::Ask,
    }
}

/// The model of an optional answer.
pub open spec fn optional_reply(reply: Option<&Json>) -> Option<JsonTree> {
    match reply {
        Some(j) => Some(j@),
        None => None,
    }
}

/// The holidays of a year.
pub struct Holidays {
    /// What is shown.
    pub shown: Json,
    /// The text that is kept for the next time, if any.
    pub kept: Option<String>,
}

/// Adding a day to the days adds its entry to the table.
proof fn lemma_table_insert(
    days: Map<Seq<char>, JsonTree>,
    prefix: Seq<char>,
    day: Seq<char>,
    v: JsonTree,
)
    ensures
        holiday_table(days.insert(day, v), prefix) == holiday_table(days, prefix).insert(
            prefix + day,
            day_entry(v),
        ),
{
    let n = prefix.len() as int;
    let key = prefix + day;
    let a = holiday_table(days.insert(day, v), prefix);
    let b = holiday_table(days, prefix).insert(key, day_entry(v));
    assert(key.take(n) =~= prefix);
    assert(key.skip(n) =~= day);
    assert forall|k: Seq<char>| a.dom().contains(k) == b.dom().contains(k) by {
        if is_day_of(days.insert(day, v), prefix, k) && k.skip(n) == day {
            assert(k =~= k.take(n) + k.skip(n));
        }
    }
    assert forall|k: Seq<char>| a.dom().contains(k) implies a[k] == b[k] by {
        if k != key {
            if k.skip(n) == day {
                assert(k =~= k.take(n) + k.skip(n));
            }
        }
    }
    assert(a =~= b);
}

/// The entry that is kept of a day.
fn day_json(v: &Json) -> (r: Json)
    ensures
        r@ == day_entry(v@),
{
    let holiday = match v.bool_at("holiday") {
        Some(b) => b,
        None => false,
    };
    let name = v.str_or_empty("name");
    let mut members: Vec<Member> = Vec::new();
    members.push(Member { key: "holiday".to_owned(), value: Json::Bool(holiday) });
    let ghost one = members@;
    members.push(Member { key: "name".to_owned(), value: Json::Text(name) });
    proof {
        assert(one.drop_last() =~= Seq::<Member>::empty());
        assert(members@.drop_last() =~= one);
        assert(Json::Bool(holiday)@ == JsonTree::Bool(holiday));
        assert(Json::Text(name)@ == JsonTree::Text(name@));
        assert(crate::json::member_map(Seq::<Member>::empty()) == Map::<
            Seq<char>,
            JsonTree,
        >::empty());
        assert(crate::json::member_map(one) == Map::<Seq<char>, JsonTree>::empty().insert(
            "holiday"@,
            JsonTree::Bool(holiday),
        ));
    }
    Json::Object(members)
}

/// The table of the days, as an object.
fn table_json(days: &Vec<Member>, prefix: &str) -> (r: Json)
    ensures
        r@ == JsonTree::Object(holiday_table(crate::json::member_map(days@), prefix@)),
{
    let mut out: Vec<Member> = Vec::new();
    let mut i: usize = 0;
    proof {
        assert(days@.take(0) =~= Seq::<Member>::empty());
        assert(holiday_table(crate::json::member_map(days@.take(0)), prefix@) =~= Map::<
            Seq<char>,
            JsonTree,
        >::empty());
    }
    while i < days.len()
        invariant
            i <= days@.len(),
            crate::json::member_map(out@) == holiday_table(
                crate::json::member_map(days@.take(i as int)),
                prefix@,
            ),
        decreases days@.len() - i,
    {
        let ghost before = out@;
        let mut key = prefix.to_owned();
        key.append(days[i].key.as_str());
        let value = day_json(&days[i].value);
        out.push(Member { key, value });
        proof {
            assert(out@.drop_last() =~= before);
            assert(days@.take(i + 1).drop_last() =~= days@.take(i as int));
            lemma_table_insert(
                crate::json::member_map(days@.take(i as int)),
                prefix@,
                days@[i as int].key@,
                days@[i as int].value@,
            );
        }
        i = i + 1;
    }
    assert(days@.take(i as int) =~= days@);
    Json::Object(out)
}

/// A table under its key.
fn shown_json(table: Json) -> (r: Json)
    ensures
        r@ == JsonTree::Object(
            Map::<Seq<char>, JsonTree>::empty().insert("holiday"@, table@),
        ),
{
    let mut members: Vec<Member> = Vec::new();
    members.push(Member { key: "holiday".to_owned(), value: table });
    proof {
        assert(members@.drop_last() =~= Seq::<Member>::empty());
        assert(crate::json::member_map(Seq::<Member>::empty()) == Map::<
            Seq<char>,
            JsonTree,
        >::empty());
    }
    Json::Object(members)
}

/// The holidays of a year where none are known.
pub fn no_holidays() -> (r: Json)
    ensures
        r@ == holiday_document(Map::<Seq<char>, JsonTree>::empty()),
{
    let none: Vec<Member> = Vec::new();
    let table = Json::Object(none);
    assert(crate::json::member_map(none@) == Map::<Seq<char>, JsonTree>::empty());
    shown_json(table)
}

/// The holidays that the service's answer gives for a year. An answer that reports
/// success is kept; the text that is kept is shown as it is the next time. Any other
/// answer, and none at all, shows none and keeps nothing.
pub fn holidays_of(year: i32, reply: Option<&Json>) -> (r: Holidays)
    ensures
        match answered_days(optional_reply(reply)) {
            Some(days) => {
                &&& r.shown@ == holiday_document(holiday_table(days, year_prefix(year as int)))
                &&& r.kept is Some
                &&& r.kept->0@ == crate::codec::pretty_text(r.shown@)
                &&& holiday_step(Some(r.kept->0@)) == HolidayStepModel::Show(r.shown@)
            },
            None => r.shown@ == holiday_document(Map::<Seq<char>, JsonTree>::empty()) && r.kept
                is None,
        },
{
    let reply = match reply {
        Some(j) => j,
        None => {
            return Holidays { shown: no_holidays(), kept: None };
        },
    };
    if let Some(code) = reply.get("code") {
        if let Some(n) = code.as_i64() {
            if n == 0 {
                if let Some(Json::Object(days)) = reply.get("holiday") {
                    let mut prefix = decimal_int_text(year);
                    prefix.append("-");
                    let shown = shown_json(table_json(days, prefix.as_str()));
                    let kept = shown.pretty();
                    proof {
                        law_table_storable(
                            crate::json::member_map(days@),
                            year as int,
                            crate::codec::MAX_NESTING as nat,
                        );
                    }
                    return Holidays { shown, kept: Some(kept) };
                }
            }
        }
    }
    Holidays { shown: no_holidays(), kept: None }
}

/// A table of holidays can always be stored.
pub proof fn law_table_storable(days: Map<Seq<char>, JsonTree>, year: int, levels: nat)
    requires
        levels >= 3,
    ensures
        crate::codec::storable(holiday_document(holiday_table(days, year_prefix(year))), levels),
{
    let prefix = year_prefix(year);
    let table = holiday_table(days, prefix);
    assert forall|k: Seq<char>| table.dom().contains(k) implies crate::codec::storable(
        #[trigger] table[k],
        (levels - 2) as nat,
    ) by {
        let v = days[k.skip(prefix.len() as int)];
        assert(table[k] == day_entry(v));
        lemma_day_storable(v, (levels - 2) as nat);
    }
    assert(crate::codec::storable(JsonTree::Object(table), (levels - 1) as nat));
    let top = Map::<Seq<char>, JsonTree>::empty().insert("holiday"@, JsonTree::Object(table));
    assert forall|k: Seq<char>| top.dom().contains(k) implies crate::codec::storable(
        #[trigger] top[k],
        (levels - 1) as nat,
    ) by {
        assert(top[k] == JsonTree::Object(table));
    }
}

/// The entry of a day can be stored.
proof fn lemma_day_storable(v: JsonTree, levels: nat)
    requires
        levels >= 1,
    ensures
        crate::codec::storable(day_entry(v), levels),
{
    let m = day_entry(v)->Object_0;
    assert forall|k: Seq<char>| m.dom().contains(k) implies crate::codec::storable(
        #[trigger] m[k],
        (levels - 1) as nat,
    ) by {
        assert(k == "holiday"@ || k == "name"@);
    }
}

/// Every day that was answered is in the table of the year.
pub proof fn law_every_day_kept(days: Map<Seq<char>, JsonTree>, year: int, day: Seq<char>)
    requires
        days.dom().contains(day),
    ensures
        holiday_table(days, year_prefix(year)).dom().contains(year_prefix(year) + day),
        holiday_table(days, year_prefix(year))[year_prefix(year) + day] == day_entry(days[day]),
{
    let prefix = year_prefix(year);
    assert((prefix + day).take(prefix.len() as int) =~= prefix);
    assert((prefix + day).skip(prefix.len() as int) =~= day);
}

} // verus!
