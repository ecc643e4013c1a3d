//! Laws on holidays: what becomes of the answer of the service.
use crate::holidays::HolidayStepModel;
use crate::json::{JsonTree, NumberTree};
use vstd::prelude::*;

verus! {

/// The key of a day in the table: the year in decimal, a hyphen, and the day.
pub open spec fn day_key(year: int, day: Seq<char>) -> Seq<char> {
    crate::text::decimal_int(year) + seq!['-'] + day
}

/// Every day of an answer is in the table under its year, with exactly two members: the
/// whole name, empty where the answer has no such text, and whether it is a holiday,
/// false where the answer does not say so.
pub proof fn law_day(
    days: Map<Seq<char>, JsonTree>,
    year: int,
    day: Seq<char>,
    name: Seq<char>,
    key: Seq<char>,
)
    requires
        days.dom().contains(day),
        crate::laws::text_or_nothing(days[day], "name"@, name),
    ensures
        ({
            let table = crate::holidays::holiday_table(
                days,
                crate::holidays::year_prefix(year),
            );
            let entry = table[day_key(year, day)];
            &&& table.dom().contains(day_key(year, day))
            &&& entry is Object
            &&& crate::laws::holds(entry, "name"@, JsonTree::Text(name))
            &&& crate::laws::holds(
                entry,
                "holiday"@,
                JsonTree::Bool(crate::laws::holds(days[day], "holiday"@, JsonTree::Bool(true))),
            )
            &&& entry->Object_0.dom().contains(key) ==> key == "name"@ || key == "holiday"@
        }),
{
    reveal_strlit("-");
    reveal_strlit("name");
    reveal_strlit("holiday");
    assert("name"@[0] == 'n' && "holiday"@[0] == 'h');
    assert(crate::holidays::year_prefix(year) =~= crate::text::decimal_int(year) + seq!['-']);
    crate::holidays::law_every_day_kept(days, year, day);
    crate::laws::documents::law_text_or_empty(days[day], "name"@, name);
    crate::laws::documents::law_flag_or(days[day], "holiday"@, false);
}

/// The table has no other days.
pub proof fn law_no_other_day(days: Map<Seq<char>, JsonTree>, year: int, key: Seq<char>)
    requires
        crate::holidays::holiday_table(
            days,
            crate::holidays::year_prefix(year),
        ).dom().contains(key),
    ensures
        exists|day: Seq<char>| #[trigger] days.dom().contains(day) && key == day_key(year, day),
{
    reveal_strlit("-");
    let prefix = crate::holidays::year_prefix(year);
    assert(prefix =~= crate::text::decimal_int(year) + seq!['-']);
    let day = key.skip(prefix.len() as int);
    assert(key =~= key.take(prefix.len() as int) + day);
    assert(days.dom().contains(day));
}

/// An answer gives days exactly where its code is the integer 0 and its member `holiday`
/// is an object, and then those of that object; no answer gives none.
pub proof fn law_answer(reply: JsonTree, days: Map<Seq<char>, JsonTree>)
    ensures
        crate::holidays::answered_days(Some(reply)) == Some(days) <==> crate::laws::holds(
            reply,
            "code"@,
            JsonTree::Number(NumberTree::Integer(0)),
        ) && crate::laws::holds(reply, "holiday"@, JsonTree::Object(days)),
        crate::holidays::answered_days(None) is None,
{
}

/// What is shown has one member, the table.
pub proof fn law_shown(table: Map<Seq<char>, JsonTree>, key: Seq<char>)
    ensures
        ({
            let shown = crate::holidays::holiday_document(table);
            &&& crate::laws::holds(shown, "holiday"@, JsonTree::Object(table))
            &&& shown->Object_0.dom().contains(key) ==> key == "holiday"@
        }),
{
}

/// What was kept is shown where it is a document; otherwise the service is asked.
pub proof fn law_kept(text: Seq<char>)
    ensures
        crate::holidays::holiday_step(Some(text)) == (match crate::codec::parsed_text(text) {
            Some(t) => HolidayStepModel::Show(t),
            None => HolidayStepModel::Ask,
        }),
        crate::holidays::holiday_step(None) == HolidayStepModel::Ask,
{
}

} // verus!
