//! Laws on reminders: which reminders are due, on the members of the data, and which of
//! them are told.
use crate::background::BackgroundState;
use crate::json::{JsonTree, NumberTree};
use crate::reminders::{NoticeText, ReminderText};
use vstd::prelude::*;

verus! {

/// Whether `items` is the list of that key, or empty where there is no such list.
pub open spec fn list_or_nothing(t: JsonTree, key: Seq<char>, items: Seq<JsonTree>) -> bool {
    crate::laws::holds(t, key, JsonTree::Array(items)) || (items.len() == 0 && forall|x: Seq<
        JsonTree,
    >| !#[trigger] crate::laws::holds(t, key, JsonTree::Array(x)))
}

/// Whether the settings say that reminders come `n` minutes ahead.
pub open spec fn advance_said(data: JsonTree, settings: JsonTree, n: int) -> bool {
    &&& crate::laws::holds(data, "settings"@, settings)
    &&& crate::laws::holds(
        settings,
        "reminderAdvanceMinutes"@,
        JsonTree::Number(NumberTree::Integer(n)),
    )
    &&& i64::MIN <= n <= i64::MAX
}

/// The advance is the integer that the settings hold, and 0 where they hold none.
pub proof fn law_advance(data: JsonTree, settings: JsonTree, n: int)
    ensures
        advance_said(data, settings, n) ==> crate::reminders::advance_setting(data) == n,
        (forall|s: JsonTree, k: int| !#[trigger] advance_said(data, s, k))
            ==> crate::reminders::advance_setting(data) == 0,
{
    if crate::reminders::advance_setting(data) != 0 {
        let s = data->Object_0["settings"@];
        assert(advance_said(data, s, crate::reminders::advance_setting(data) as int));
    }
}

/// Whether `n` is the number that a piece of a clock time writes, or 0 where it writes
/// none.
pub open spec fn number_or_zero(s: Seq<char>, n: int) -> bool {
    match crate::text::signed_number(s) {
        Some(k) => n == k,
        None => n == 0,
    }
}

/// A clock time is sixty times what stands before the first colon and what stands behind
/// it; without a colon it is whole hours, and what stands behind a second colon does not
/// count.
pub proof fn law_minutes(
    hours: Seq<char>,
    minutes: Seq<char>,
    rest: Seq<char>,
    h: int,
    m: int,
)
    requires
        !hours.contains(':'),
        !minutes.contains(':'),
        number_or_zero(hours, h),
        number_or_zero(minutes, m),
        i64::MIN <= 60 * h <= i64::MAX,
        i64::MIN <= 60 * h + m <= i64::MAX,
    ensures
        crate::reminders::minutes(hours) == 60 * h,
        crate::reminders::minutes(hours + seq![':'] + minutes) == 60 * h + m,
        crate::reminders::minutes(hours + seq![':'] + (minutes + seq![':'] + rest)) == 60 * h + m,
{
    crate::laws::numbers::law_signed(hours, h);
    crate::laws::numbers::law_signed(minutes, m);
    crate::laws::numbers::law_split(hours, minutes, ':');
    crate::laws::numbers::law_split(minutes, rest, ':');
    crate::laws::numbers::law_split(hours, minutes + seq![':'] + rest, ':');
}

/// Whether a reminder for a clock time, so many minutes ahead, comes now: from that
/// minute on, for thirty minutes. Where the numbers do not fit into 64 bits, what the
/// arithmetic of 64 bits makes of them counts.
pub open spec fn timely(now: i64, time: i64, advance: i64) -> bool {
    let trigger = time - advance;
    if i64::MIN <= trigger <= i64::MAX && now - trigger <= i64::MAX {
        0 <= now - trigger <= 30
    } else {
        crate::reminders::in_window(now, time.wrapping_sub(advance))
    }
}

/// The window of a reminder is the minute for which it is set and the thirty that follow.
pub proof fn law_window(now: i64, trigger: i64)
    requires
        now - trigger <= i64::MAX,
    ensures
        crate::reminders::in_window(now, trigger) == (trigger <= now <= trigger + 30),
{
}

/// Whether a task gives a reminder: it is dated today, not marked as done, and timely.
pub open spec fn task_due(
    t: JsonTree,
    today: Seq<char>,
    now: i64,
    advance: i64,
    r: ReminderText,
) -> bool {
    &&& crate::laws::holds_text(t, "date"@, today)
    &&& !crate::laws::holds(t, "done"@, JsonTree::Bool(true))
    &&& crate::laws::holds_text(t, "id"@, r.key)
    &&& r.notice.title == "待办提醒"@
    &&& exists|time: Seq<char>, title: Seq<char>|
        {
            &&& #[trigger] crate::laws::holds_text(t, "time"@, time)
            &&& #[trigger] crate::laws::text_or_nothing(t, "title"@, title)
            &&& timely(now, crate::reminders::minutes(time), advance)
            &&& r.notice.body == time + " · "@ + title
        }
}

/// Whether an appointment gives a reminder: it is dated today and timely.
pub open spec fn appointment_due(
    t: JsonTree,
    today: Seq<char>,
    now: i64,
    advance: i64,
    r: ReminderText,
) -> bool {
    &&& crate::laws::holds_text(t, "date"@, today)
    &&& r.notice.title == "日程提醒"@
    &&& exists|id: Seq<char>, time: Seq<char>, title: Seq<char>|
        {
            &&& #[trigger] crate::laws::holds_text(t, "id"@, id)
            &&& #[trigger] crate::laws::holds_text(t, "time"@, time)
            &&& #[trigger] crate::laws::text_or_nothing(t, "title"@, title)
            &&& timely(now, crate::reminders::minutes(time), advance)
            &&& r.key == "s-"@ + id
            &&& r.notice.body == time + " · "@ + title
        }
}

/// Whether a supplement is set for that weekday: it has no list of weekdays, an empty
/// one, or one that holds the number.
pub open spec fn set_for(s: JsonTree, weekday: u64) -> bool {
    forall|days: Seq<JsonTree>| #[trigger]
        crate::laws::holds(s, "weekdays"@, JsonTree::Array(days)) ==> days.len() == 0
            || days.contains(JsonTree::Number(NumberTree::Integer(weekday as int)))
}

/// Whether the log of a supplement holds a time under today's date.
pub open spec fn logged(s: JsonTree, today: Seq<char>, time: Seq<char>) -> bool {
    exists|logs: JsonTree, taken: Seq<JsonTree>|
        {
            &&& #[trigger] crate::laws::holds(s, "logs"@, logs)
            &&& #[trigger] crate::laws::holds(logs, today, JsonTree::Array(taken))
            &&& taken.contains(JsonTree::Text(time))
        }
}

/// Whether one of the times of a supplement gives a reminder: the supplement is not
/// switched off and set for that weekday, and the time is timely and not logged.
pub open spec fn dose_due(
    s: JsonTree,
    today: Seq<char>,
    now: i64,
    weekday: u64,
    time: Seq<char>,
    r: ReminderText,
) -> bool {
    &&& !crate::laws::holds(s, "enabled"@, JsonTree::Bool(false))
    &&& set_for(s, weekday)
    &&& !logged(s, today, time)
    &&& timely(now, crate::reminders::minutes(time), 0)
    &&& r.notice.title == "补剂提醒"@
    &&& exists|id: Seq<char>, name: Seq<char>, dose: Seq<char>|
        {
            &&& #[trigger] crate::laws::holds_text(s, "id"@, id)
            &&& #[trigger] crate::laws::holds_text(s, "name"@, name)
            &&& #[trigger] crate::laws::text_or_nothing(s, "dose"@, dose)
            &&& r.key == "supp-"@ + id + "-"@ + time
            &&& r.notice.body == (if dose.len() == 0 {
                time + " · "@ + name
            } else {
                time + " · "@ + name + " · "@ + dose
            })
        }
}

/// Whether a supplement gives a reminder: one of its times does.
pub open spec fn supplement_due(
    s: JsonTree,
    today: Seq<char>,
    now: i64,
    weekday: u64,
    r: ReminderText,
) -> bool {
    exists|times: Seq<JsonTree>, k: int|
        {
            &&& #[trigger] crate::laws::holds(s, "times"@, JsonTree::Array(times))
            &&& 0 <= k < times.len()
            &&& (#[trigger] times[k]) is Text
            &&& dose_due(s, today, now, weekday, times[k]->Text_0, r)
        }
}

/// What is gathered from items comes from one of them, and all of it is gathered.
proof fn lemma_gathered(
    items: Seq<JsonTree>,
    f: spec_fn(JsonTree) -> Seq<ReminderText>,
    r: ReminderText,
)
    ensures
        crate::reminders::gather(items, f).contains(r) <==> exists|i: int|
            0 <= i < items.len() && f(#[trigger] items[i]).contains(r),
    decreases items.len(),
{
    if items.len() > 0 {
        let front = items.drop_last();
        lemma_gathered(front, f, r);
        let a = crate::reminders::gather(front, f);
        let b = f(items.last());
        lemma_contains_sum(a, b, r);
        if exists|i: int| 0 <= i < items.len() && f(#[trigger] items[i]).contains(r) {
            let i = choose|i: int| 0 <= i < items.len() && f(#[trigger] items[i]).contains(r);
            if i < front.len() {
                assert(front[i] == items[i]);
            }
        }
        if a.contains(r) {
            let i = choose|i: int| 0 <= i < front.len() && f(#[trigger] front[i]).contains(r);
            assert(items[i] == front[i]);
        }
        if b.contains(r) {
            assert(items[items.len() - 1] == items.last());
        }
    }
}

/// Two runs one after the other hold what one of them holds.
proof fn lemma_contains_sum(a: Seq<ReminderText>, b: Seq<ReminderText>, r: ReminderText)
    ensures
        (a + b).contains(r) <==> a.contains(r) || b.contains(r),
{
    if a.contains(r) {
        let i = choose|i: int| 0 <= i < a.len() && a[i] == r;
        assert((a + b)[i] == r);
    }
    if b.contains(r) {
        let i = choose|i: int| 0 <= i < b.len() && b[i] == r;
        assert((a + b)[a.len() + i] == r);
    }
    if (a + b).contains(r) {
        let i = choose|i: int| 0 <= i < (a + b).len() && (a + b)[i] == r;
        if i < a.len() {
            assert(a[i] == r);
        } else {
            assert(b[i - a.len()] == r);
        }
    }
}

/// The reminder of a task.
proof fn lemma_task(t: JsonTree, today: Seq<char>, now: i64, advance: i64, r: ReminderText)
    ensures
        crate::reminders::task_reminder(t, today, now, advance).contains(r) <==> task_due(
            t,
            today,
            now,
            advance,
            r,
        ),
{
    let out = crate::reminders::task_reminder(t, today, now, advance);
    let title = t.text_or_empty("title"@);
    crate::laws::documents::law_text_or_empty(t, "title"@, title);
    if out.contains(r) {
        assert(out[0] == r);
        assert(crate::laws::holds_text(t, "time"@, t.text_at("time"@)->0));
        assert(crate::laws::text_or_nothing(t, "title"@, title));
    }
    if task_due(t, today, now, advance, r) {
        let (time, title) = choose|time: Seq<char>, title: Seq<char>|
            {
                &&& #[trigger] crate::laws::holds_text(t, "time"@, time)
                &&& #[trigger] crate::laws::text_or_nothing(t, "title"@, title)
                &&& timely(now, crate::reminders::minutes(time), advance)
                &&& r.notice.body == time + " · "@ + title
            };
        crate::laws::documents::law_text_or_empty(t, "title"@, title);
        assert(out[0] == r);
    }
}

/// The reminder of an appointment.
proof fn lemma_appointment(t: JsonTree, today: Seq<char>, now: i64, advance: i64, r: ReminderText)
    ensures
        crate::reminders::appointment_reminder(t, today, now, advance).contains(r)
            <==> appointment_due(t, today, now, advance, r),
{
    let out = crate::reminders::appointment_reminder(t, today, now, advance);
    let title = t.text_or_empty("title"@);
    crate::laws::documents::law_text_or_empty(t, "title"@, title);
    if out.contains(r) {
        assert(out[0] == r);
        assert(crate::laws::holds_text(t, "id"@, t.text_at("id"@)->0));
        assert(crate::laws::holds_text(t, "time"@, t.text_at("time"@)->0));
        assert(crate::laws::text_or_nothing(t, "title"@, title));
    }
    if appointment_due(t, today, now, advance, r) {
        let (id, time, title) = choose|id: Seq<char>, time: Seq<char>, title: Seq<char>|
            {
                &&& #[trigger] crate::laws::holds_text(t, "id"@, id)
                &&& #[trigger] crate::laws::holds_text(t, "time"@, time)
                &&& #[trigger] crate::laws::text_or_nothing(t, "title"@, title)
                &&& timely(now, crate::reminders::minutes(time), advance)
                &&& r.key == "s-"@ + id
                &&& r.notice.body == time + " · "@ + title
            };
        crate::laws::documents::law_text_or_empty(t, "title"@, title);
        assert(out[0] == r);
    }
}

/// The weekdays of a supplement.
proof fn lemma_weekday(s: JsonTree, weekday: u64)
    ensures
        crate::reminders::on_weekday(s, weekday) == set_for(s, weekday),
{
    let day = JsonTree::Number(NumberTree::Integer(weekday as int));
    if s.items_at("weekdays"@) is Some {
        let days = s.items_at("weekdays"@)->0;
        assert(crate::laws::holds(s, "weekdays"@, JsonTree::Array(days)));
        if days.contains(day) {
            let i = choose|i: int| 0 <= i < days.len() && days[i] == day;
            assert(days[i].as_integer(0, u64::MAX as int) == Some(weekday as int));
        }
        if exists|i: int|
            0 <= i < days.len() && (#[trigger] days[i]).as_integer(0, u64::MAX as int) == Some(
                weekday as int,
            ) {
            let i = choose|i: int|
                0 <= i < days.len() && (#[trigger] days[i]).as_integer(0, u64::MAX as int) == Some(
                    weekday as int,
                );
            assert(days[i] == day);
        }
    }
}

/// The log of a supplement.
proof fn lemma_logged(s: JsonTree, today: Seq<char>, time: Seq<char>)
    ensures
        crate::reminders::was_taken(s, today, time) == logged(s, today, time),
{
    if crate::reminders::was_taken(s, today, time) {
        let logs = s.member("logs"@)->0;
        let taken = logs.items_at(today)->0;
        let i = choose|i: int|
            0 <= i < taken.len() && (#[trigger] taken[i]).as_text() == Some(time);
        assert(taken[i] == JsonTree::Text(time));
        assert(crate::laws::holds(s, "logs"@, logs));
        assert(crate::laws::holds(logs, today, JsonTree::Array(taken)));
    }
    if logged(s, today, time) {
        let (logs, taken) = choose|logs: JsonTree, taken: Seq<JsonTree>|
            {
                &&& #[trigger] crate::laws::holds(s, "logs"@, logs)
                &&& #[trigger] crate::laws::holds(logs, today, JsonTree::Array(taken))
                &&& taken.contains(JsonTree::Text(time))
            };
        let i = choose|i: int| 0 <= i < taken.len() && taken[i] == JsonTree::Text(time);
        assert(taken[i].as_text() == Some(time));
    }
}

/// The reminder of one time of a supplement.
proof fn lemma_dose(
    s: JsonTree,
    id: Seq<char>,
    name: Seq<char>,
    time: JsonTree,
    today: Seq<char>,
    now: i64,
    weekday: u64,
    r: ReminderText,
)
    requires
        crate::laws::holds_text(s, "id"@, id),
        crate::laws::holds_text(s, "name"@, name),
        crate::reminders::on_weekday(s, weekday),
        !crate::laws::holds(s, "enabled"@, JsonTree::Bool(false)),
    ensures
        crate::reminders::dose_reminder(s, id, name, time, today, now).contains(r) <==> time
            is Text && dose_due(s, today, now, weekday, time->Text_0, r),
{
    let out = crate::reminders::dose_reminder(s, id, name, time, today, now);
    let dose = s.text_or_empty("dose"@);
    crate::laws::documents::law_text_or_empty(s, "dose"@, dose);
    lemma_weekday(s, weekday);
    if time is Text {
        let at = time->Text_0;
        lemma_logged(s, today, at);
        assert(crate::reminders::minutes(at).wrapping_sub(0) == crate::reminders::minutes(at));
        if out.contains(r) {
            assert(out[0] == r);
            assert(crate::laws::text_or_nothing(s, "dose"@, dose));
        }
        if dose_due(s, today, now, weekday, at, r) {
            let (i, n, d) = choose|i: Seq<char>, n: Seq<char>, d: Seq<char>|
                {
                    &&& #[trigger] crate::laws::holds_text(s, "id"@, i)
                    &&& #[trigger] crate::laws::holds_text(s, "name"@, n)
                    &&& #[trigger] crate::laws::text_or_nothing(s, "dose"@, d)
                    &&& r.key == "supp-"@ + i + "-"@ + at
                    &&& r.notice.body == (if d.len() == 0 {
                        at + " · "@ + n
                    } else {
                        at + " · "@ + n + " · "@ + d
                    })
                };
            crate::laws::documents::law_text_or_empty(s, "dose"@, d);
            assert(out[0] == r);
        }
    }
}

/// The reminders of a supplement.
proof fn lemma_supplement(
    s: JsonTree,
    today: Seq<char>,
    now: i64,
    weekday: u64,
    r: ReminderText,
)
    ensures
        crate::reminders::supplement_reminders(s, today, now, weekday).contains(r)
            <==> supplement_due(s, today, now, weekday, r),
{
    let out = crate::reminders::supplement_reminders(s, today, now, weekday);
    lemma_weekday(s, weekday);
    if s.text_at("id"@) is Some && s.text_at("name"@) is Some && s.items_at("times"@) is Some {
        let id = s.text_at("id"@)->0;
        let name = s.text_at("name"@)->0;
        let times = s.items_at("times"@)->0;
        let f = |t: JsonTree| crate::reminders::dose_reminder(s, id, name, t, today, now);
        assert(crate::laws::holds(s, "times"@, JsonTree::Array(times)));
        if crate::reminders::flag_or(s, "enabled"@, true) && crate::reminders::on_weekday(
            s,
            weekday,
        ) {
            lemma_gathered(times, f, r);
            if out.contains(r) {
                let k = choose|k: int| 0 <= k < times.len() && f(#[trigger] times[k]).contains(r);
                lemma_dose(s, id, name, times[k], today, now, weekday, r);
            }
            if supplement_due(s, today, now, weekday, r) {
                let (ts, k) = choose|ts: Seq<JsonTree>, k: int|
                    {
                        &&& #[trigger] crate::laws::holds(s, "times"@, JsonTree::Array(ts))
                        &&& 0 <= k < ts.len()
                        &&& (#[trigger] ts[k]) is Text
                        &&& dose_due(s, today, now, weekday, ts[k]->Text_0, r)
                    };
                lemma_dose(s, id, name, times[k], today, now, weekday, r);
                assert(f(times[k]).contains(r));
            }
        }
    }
}

/// The reminders that are due are those of the tasks, of the appointments and of the
/// supplements, and no others.
pub proof fn law_due(
    data: JsonTree,
    today: Seq<char>,
    now: i64,
    weekday: u64,
    tasks: Seq<JsonTree>,
    schedule: Seq<JsonTree>,
    supplements: Seq<JsonTree>,
    r: ReminderText,
)
    requires
        list_or_nothing(data, "tasks"@, tasks),
        list_or_nothing(data, "schedule"@, schedule),
        list_or_nothing(data, "supplements"@, supplements),
    ensures
        ({
            let advance = crate::reminders::advance_setting(data);
            crate::reminders::due(data, today, now, weekday).contains(r) <==> {
                ||| exists|i: int|
                    0 <= i < tasks.len() && task_due(#[trigger] tasks[i], today, now, advance, r)
                ||| exists|i: int|
                    0 <= i < schedule.len() && appointment_due(
                        #[trigger] schedule[i],
                        today,
                        now,
                        advance,
                        r,
                    )
                ||| exists|i: int|
                    0 <= i < supplements.len() && supplement_due(
                        #[trigger] supplements[i],
                        today,
                        now,
                        weekday,
                        r,
                    )
            }
        }),
{
    lemma_lists(data, tasks, schedule, supplements);
    let advance = crate::reminders::advance_setting(data);
    let f = |t: JsonTree| crate::reminders::task_reminder(t, today, now, advance);
    let g = |t: JsonTree| crate::reminders::appointment_reminder(t, today, now, advance);
    let h = |t: JsonTree| crate::reminders::supplement_reminders(t, today, now, weekday);
    let a = crate::reminders::gather(tasks, f);
    let b = crate::reminders::gather(schedule, g);
    let c = crate::reminders::gather(supplements, h);
    lemma_gathered(tasks, f, r);
    lemma_gathered(schedule, g, r);
    lemma_gathered(supplements, h, r);
    lemma_contains_sum(a, b, r);
    lemma_contains_sum(a + b, c, r);
    assert forall|i: int| 0 <= i < tasks.len() implies f(#[trigger] tasks[i]).contains(r)
        == task_due(tasks[i], today, now, advance, r) by {
        lemma_task(tasks[i], today, now, advance, r);
    }
    assert forall|i: int| 0 <= i < schedule.len() implies g(#[trigger] schedule[i]).contains(r)
        == appointment_due(schedule[i], today, now, advance, r) by {
        lemma_appointment(schedule[i], today, now, advance, r);
    }
    assert forall|i: int| 0 <= i < supplements.len() implies h(
        #[trigger] supplements[i],
    ).contains(r) == supplement_due(supplements[i], today, now, weekday, r) by {
        lemma_supplement(supplements[i], today, now, weekday, r);
    }
}

/// The lists of the data are those that are read.
proof fn lemma_lists(
    data: JsonTree,
    tasks: Seq<JsonTree>,
    schedule: Seq<JsonTree>,
    supplements: Seq<JsonTree>,
)
    requires
        list_or_nothing(data, "tasks"@, tasks),
        list_or_nothing(data, "schedule"@, schedule),
        list_or_nothing(data, "supplements"@, supplements),
    ensures
        crate::reminders::items_or_none(data, "tasks"@) == tasks,
        crate::reminders::items_or_none(data, "schedule"@) == schedule,
        crate::reminders::items_or_none(data, "supplements"@) == supplements,
{
    crate::laws::documents::law_items_or_none(data, "tasks"@, tasks);
    crate::laws::documents::law_items_or_none(data, "schedule"@, schedule);
    crate::laws::documents::law_items_or_none(data, "supplements"@, supplements);
    if tasks.len() == 0 {
        assert(crate::reminders::items_or_none(data, "tasks"@) =~= tasks);
    }
    if schedule.len() == 0 {
        assert(crate::reminders::items_or_none(data, "schedule"@) =~= schedule);
    }
    if supplements.len() == 0 {
        assert(crate::reminders::items_or_none(data, "supplements"@) =~= supplements);
    }
}

/// A task of today that is not marked as done speaks up: from its time less the advance
/// on, for thirty minutes, there is a reminder under its id with its time and title.
pub proof fn law_task_speaks(
    data: JsonTree,
    tasks: Seq<JsonTree>,
    i: int,
    today: Seq<char>,
    now: i64,
    weekday: u64,
    id: Seq<char>,
    time: Seq<char>,
    title: Seq<char>,
)
    requires
        crate::laws::holds(data, "tasks"@, JsonTree::Array(tasks)),
        0 <= i < tasks.len(),
        crate::laws::holds_text(tasks[i], "date"@, today),
        !crate::laws::holds(tasks[i], "done"@, JsonTree::Bool(true)),
        crate::laws::holds_text(tasks[i], "id"@, id),
        crate::laws::holds_text(tasks[i], "time"@, time),
        crate::laws::text_or_nothing(tasks[i], "title"@, title),
        i64::MIN <= crate::reminders::minutes(time) - crate::reminders::advance_setting(data)
            <= i64::MAX,
        0 <= now - (crate::reminders::minutes(time) - crate::reminders::advance_setting(data))
            <= 30,
    ensures
        crate::reminders::due(data, today, now, weekday).contains(
            ReminderText {
                key: id,
                notice: NoticeText { title: "待办提醒"@, body: time + " · "@ + title },
            },
        ),
{
    let r = ReminderText {
        key: id,
        notice: NoticeText { title: "待办提醒"@, body: time + " · "@ + title },
    };
    let schedule = crate::reminders::items_or_none(data, "schedule"@);
    let supplements = crate::reminders::items_or_none(data, "supplements"@);
    assert(task_due(tasks[i], today, now, crate::reminders::advance_setting(data), r));
    law_due(data, today, now, weekday, tasks, schedule, supplements, r);
}

/// An appointment of today speaks up in the same way, whether or not it is marked as
/// done.
pub proof fn law_appointment_speaks(
    data: JsonTree,
    schedule: Seq<JsonTree>,
    i: int,
    today: Seq<char>,
    now: i64,
    weekday: u64,
    id: Seq<char>,
    time: Seq<char>,
    title: Seq<char>,
)
    requires
        crate::laws::holds(data, "schedule"@, JsonTree::Array(schedule)),
        0 <= i < schedule.len(),
        crate::laws::holds_text(schedule[i], "date"@, today),
        crate::laws::holds_text(schedule[i], "id"@, id),
        crate::laws::holds_text(schedule[i], "time"@, time),
        crate::laws::text_or_nothing(schedule[i], "title"@, title),
        i64::MIN <= crate::reminders::minutes(time) - crate::reminders::advance_setting(data)
            <= i64::MAX,
        0 <= now - (crate::reminders::minutes(time) - crate::reminders::advance_setting(data))
            <= 30,
    ensures
        crate::reminders::due(data, today, now, weekday).contains(
            ReminderText {
                key: "s-"@ + id,
                notice: NoticeText { title: "日程提醒"@, body: time + " · "@ + title },
            },
        ),
{
    let r = ReminderText {
        key: "s-"@ + id,
        notice: NoticeText { title: "日程提醒"@, body: time + " · "@ + title },
    };
    let tasks = crate::reminders::items_or_none(data, "tasks"@);
    let supplements = crate::reminders::items_or_none(data, "supplements"@);
    assert(appointment_due(
        schedule[i],
        today,
        now,
        crate::reminders::advance_setting(data),
        r,
    ));
    law_due(data, today, now, weekday, tasks, schedule, supplements, r);
}

/// A supplement that is not switched off speaks up on each weekday that its list holds,
/// Sunday being 0, at each of its times that is not logged today, for thirty minutes.
pub proof fn law_supplement_speaks(
    data: JsonTree,
    supplements: Seq<JsonTree>,
    i: int,
    days: Seq<JsonTree>,
    times: Seq<JsonTree>,
    today: Seq<char>,
    now: i64,
    weekday: u64,
    id: Seq<char>,
    name: Seq<char>,
    dose: Seq<char>,
    time: Seq<char>,
)
    requires
        crate::laws::holds(data, "supplements"@, JsonTree::Array(supplements)),
        0 <= i < supplements.len(),
        !crate::laws::holds(supplements[i], "enabled"@, JsonTree::Bool(false)),
        crate::laws::holds_text(supplements[i], "id"@, id),
        crate::laws::holds_text(supplements[i], "name"@, name),
        crate::laws::text_or_nothing(supplements[i], "dose"@, dose),
        weekday < 7,
        crate::laws::holds(supplements[i], "weekdays"@, JsonTree::Array(days)),
        days.contains(JsonTree::Number(NumberTree::Integer(weekday as int))),
        crate::laws::holds(supplements[i], "times"@, JsonTree::Array(times)),
        times.contains(JsonTree::Text(time)),
        !logged(supplements[i], today, time),
        0 <= now - crate::reminders::minutes(time) <= 30,
    ensures
        crate::reminders::due(data, today, now, weekday).contains(
            ReminderText {
                key: "supp-"@ + id + "-"@ + time,
                notice: NoticeText {
                    title: "补剂提醒"@,
                    body: if dose.len() == 0 {
                        time + " · "@ + name
                    } else {
                        time + " · "@ + name + " · "@ + dose
                    },
                },
            },
        ),
{
    let r = ReminderText {
        key: "supp-"@ + id + "-"@ + time,
        notice: NoticeText {
            title: "补剂提醒"@,
            body: if dose.len() == 0 {
                time + " · "@ + name
            } else {
                time + " · "@ + name + " · "@ + dose
            },
        },
    };
    let s = supplements[i];
    let tasks = crate::reminders::items_or_none(data, "tasks"@);
    let schedule = crate::reminders::items_or_none(data, "schedule"@);
    let k = choose|k: int| 0 <= k < times.len() && times[k] == JsonTree::Text(time);
    assert(set_for(s, weekday));
    assert(times[k] is Text);
    assert(dose_due(s, today, now, weekday, time, r));
    assert(supplement_due(s, today, now, weekday, r));
    law_due(data, today, now, weekday, tasks, schedule, supplements, r);
}

/// A supplement whose list of weekdays holds some, but not this one, is silent.
pub proof fn law_other_weekdays_silent(
    s: JsonTree,
    days: Seq<JsonTree>,
    today: Seq<char>,
    now: i64,
    weekday: u64,
)
    requires
        crate::laws::holds(s, "weekdays"@, JsonTree::Array(days)),
        days.len() > 0,
        !days.contains(JsonTree::Number(NumberTree::Integer(weekday as int))),
    ensures
        crate::reminders::supplement_reminders(s, today, now, weekday).len() == 0,
{
    let out = crate::reminders::supplement_reminders(s, today, now, weekday);
    if out.len() > 0 {
        assert(out.contains(out[0]));
        lemma_supplement(s, today, now, weekday, out[0]);
    }
}

/// Where a run has `r` at some position and later `s`.
pub open spec fn in_order(rs: Seq<ReminderText>, r: ReminderText, s: ReminderText) -> bool {
    exists|p: int, q: int|
        0 <= p < q < rs.len() && #[trigger] rs[p] == r && #[trigger] rs[q] == s
}

/// What earlier items give is gathered before what later ones give.
proof fn lemma_gathered_in_order(
    items: Seq<JsonTree>,
    f: spec_fn(JsonTree) -> Seq<ReminderText>,
    i: int,
    j: int,
    r: ReminderText,
    s: ReminderText,
)
    requires
        0 <= i < j < items.len(),
        f(items[i]).contains(r),
        f(items[j]).contains(s),
    ensures
        in_order(crate::reminders::gather(items, f), r, s),
    decreases items.len(),
{
    let front = items.drop_last();
    let all = crate::reminders::gather(items, f);
    let before = crate::reminders::gather(front, f);
    if j == items.len() - 1 {
        lemma_gathered(front, f, r);
        assert(front[i] == items[i]);
        let p = choose|p: int| 0 <= p < before.len() && before[p] == r;
        let last = f(items.last());
        let q = choose|q: int| 0 <= q < last.len() && last[q] == s;
        assert(all[p] == r);
        assert(all[before.len() + q] == s);
    } else {
        lemma_gathered_in_order(front, f, i, j, r, s);
        let (p, q) = choose|p: int, q: int|
            0 <= p < q < before.len() && #[trigger] before[p] == r && #[trigger] before[q] == s;
        assert(all[p] == r && all[q] == s);
    }
}

/// The reminders of tasks come in the order of the tasks, and so do those of appointments
/// and of supplements; those of tasks come before those of appointments, and these before
/// those of supplements.
pub proof fn law_due_in_order(
    data: JsonTree,
    today: Seq<char>,
    now: i64,
    weekday: u64,
    tasks: Seq<JsonTree>,
    schedule: Seq<JsonTree>,
    supplements: Seq<JsonTree>,
    i: int,
    j: int,
    r: ReminderText,
    s: ReminderText,
)
    requires
        list_or_nothing(data, "tasks"@, tasks),
        list_or_nothing(data, "schedule"@, schedule),
        list_or_nothing(data, "supplements"@, supplements),
    ensures
        ({
            let advance = crate::reminders::advance_setting(data);
            let rs = crate::reminders::due(data, today, now, weekday);
            let task = |k: int, x: ReminderText|
                0 <= k < tasks.len() && task_due(tasks[k], today, now, advance, x);
            let appointment = |k: int, x: ReminderText|
                0 <= k < schedule.len() && appointment_due(schedule[k], today, now, advance, x);
            let supplement = |k: int, x: ReminderText|
                0 <= k < supplements.len() && supplement_due(
                    supplements[k],
                    today,
                    now,
                    weekday,
                    x,
                );
            &&& i < j && task(i, r) && task(j, s) ==> in_order(rs, r, s)
            &&& i < j && appointment(i, r) && appointment(j, s) ==> in_order(rs, r, s)
            &&& i < j && supplement(i, r) && supplement(j, s) ==> in_order(rs, r, s)
            &&& task(i, r) && appointment(j, s) ==> in_order(rs, r, s)
            &&& task(i, r) && supplement(j, s) ==> in_order(rs, r, s)
            &&& appointment(i, r) && supplement(j, s) ==> in_order(rs, r, s)
        }),
{
    lemma_lists(data, tasks, schedule, supplements);
    let advance = crate::reminders::advance_setting(data);
    let f = |t: JsonTree| crate::reminders::task_reminder(t, today, now, advance);
    let g = |t: JsonTree| crate::reminders::appointment_reminder(t, today, now, advance);
    let h = |t: JsonTree| crate::reminders::supplement_reminders(t, today, now, weekday);
    let a = crate::reminders::gather(tasks, f);
    let b = crate::reminders::gather(schedule, g);
    let c = crate::reminders::gather(supplements, h);
    assert(crate::reminders::due(data, today, now, weekday) == a + b + c);
    let task_i = 0 <= i < tasks.len() && task_due(tasks[i], today, now, advance, r);
    let task_j = 0 <= j < tasks.len() && task_due(tasks[j], today, now, advance, s);
    let appointment_i = 0 <= i < schedule.len() && appointment_due(
        schedule[i],
        today,
        now,
        advance,
        r,
    );
    let appointment_j = 0 <= j < schedule.len() && appointment_due(
        schedule[j],
        today,
        now,
        advance,
        s,
    );
    let supplement_i = 0 <= i < supplements.len() && supplement_due(
        supplements[i],
        today,
        now,
        weekday,
        r,
    );
    let supplement_j = 0 <= j < supplements.len() && supplement_due(
        supplements[j],
        today,
        now,
        weekday,
        s,
    );
    if task_i {
        lemma_task(tasks[i], today, now, advance, r);
        lemma_gathered(tasks, f, r);
        assert(f(tasks[i]).contains(r));
    }
    if task_j {
        lemma_task(tasks[j], today, now, advance, s);
    }
    if appointment_i {
        lemma_appointment(schedule[i], today, now, advance, r);
        lemma_gathered(schedule, g, r);
        assert(g(schedule[i]).contains(r));
    }
    if appointment_j {
        lemma_appointment(schedule[j], today, now, advance, s);
        lemma_gathered(schedule, g, s);
        assert(g(schedule[j]).contains(s));
    }
    if supplement_i {
        lemma_supplement(supplements[i], today, now, weekday, r);
    }
    if supplement_j {
        lemma_supplement(supplements[j], today, now, weekday, s);
        lemma_gathered(supplements, h, s);
        assert(h(supplements[j]).contains(s));
    }
    if i < j && task_i && task_j {
        lemma_gathered_in_order(tasks, f, i, j, r, s);
        lemma_order_within(Seq::empty(), a, b + c, r, s);
        assert(Seq::<ReminderText>::empty() + a + (b + c) =~= a + b + c);
    }
    if i < j && appointment_i && appointment_j {
        lemma_gathered_in_order(schedule, g, i, j, r, s);
        lemma_order_within(a, b, c, r, s);
    }
    if i < j && supplement_i && supplement_j {
        lemma_gathered_in_order(supplements, h, i, j, r, s);
        lemma_order_within(a + b, c, Seq::empty(), r, s);
        assert(a + b + c + Seq::<ReminderText>::empty() =~= a + b + c);
    }
    if task_i && appointment_j {
        lemma_order_across(a, b, c, r, s);
    }
    if task_i && supplement_j {
        lemma_contains_sum(b, c, s);
        lemma_order_across(a, b + c, Seq::empty(), r, s);
        assert(a + (b + c) + Seq::<ReminderText>::empty() =~= a + b + c);
    }
    if appointment_i && supplement_j {
        lemma_contains_sum(a, b, r);
        lemma_order_across(a + b, c, Seq::empty(), r, s);
        assert(a + b + c + Seq::<ReminderText>::empty() =~= a + b + c);
    }
}

/// The order within a part is that of the whole.
proof fn lemma_order_within(
    x: Seq<ReminderText>,
    y: Seq<ReminderText>,
    z: Seq<ReminderText>,
    r: ReminderText,
    s: ReminderText,
)
    requires
        in_order(y, r, s),
    ensures
        in_order(x + y + z, r, s),
{
    let (p, q) = choose|p: int, q: int|
        0 <= p < q < y.len() && #[trigger] y[p] == r && #[trigger] y[q] == s;
    let all = x + y + z;
    assert(all[x.len() + p] == r && all[x.len() + q] == s);
}

/// What is in a first part comes before what is in a second.
proof fn lemma_order_across(
    x: Seq<ReminderText>,
    y: Seq<ReminderText>,
    z: Seq<ReminderText>,
    r: ReminderText,
    s: ReminderText,
)
    requires
        x.contains(r),
        y.contains(s),
    ensures
        in_order(x + y + z, r, s),
{
    let p = choose|p: int| 0 <= p < x.len() && x[p] == r;
    let q = choose|q: int| 0 <= q < y.len() && y[q] == s;
    let all = x + y + z;
    assert(all[p] == r && all[x.len() + q] == s);
}

/// The order of what one item gives is that of what is gathered.
proof fn lemma_gathered_part(
    items: Seq<JsonTree>,
    f: spec_fn(JsonTree) -> Seq<ReminderText>,
    i: int,
    r: ReminderText,
    s: ReminderText,
)
    requires
        0 <= i < items.len(),
        in_order(f(items[i]), r, s),
    ensures
        in_order(crate::reminders::gather(items, f), r, s),
    decreases items.len(),
{
    let front = items.drop_last();
    let before = crate::reminders::gather(front, f);
    let last = f(items.last());
    if i == items.len() - 1 {
        lemma_order_within(before, last, Seq::empty(), r, s);
        assert(before + last + Seq::<ReminderText>::empty() =~= before + last);
    } else {
        assert(front[i] == items[i]);
        lemma_gathered_part(front, f, i, r, s);
        lemma_order_within(Seq::empty(), before, last, r, s);
        assert(Seq::<ReminderText>::empty() + before + last =~= before + last);
    }
}

/// The reminders of one supplement come in the order of its times.
pub proof fn law_doses_in_order(
    data: JsonTree,
    today: Seq<char>,
    now: i64,
    weekday: u64,
    supplements: Seq<JsonTree>,
    i: int,
    times: Seq<JsonTree>,
    k: int,
    l: int,
    r: ReminderText,
    s: ReminderText,
)
    requires
        crate::laws::holds(data, "supplements"@, JsonTree::Array(supplements)),
        0 <= i < supplements.len(),
        crate::laws::holds(supplements[i], "times"@, JsonTree::Array(times)),
        0 <= k < l < times.len(),
        times[k] is Text,
        times[l] is Text,
        dose_due(supplements[i], today, now, weekday, times[k]->Text_0, r),
        dose_due(supplements[i], today, now, weekday, times[l]->Text_0, s),
    ensures
        in_order(crate::reminders::due(data, today, now, weekday), r, s),
{
    let x = supplements[i];
    let id = x.text_at("id"@)->0;
    let name = x.text_at("name"@)->0;
    let f = |t: JsonTree| crate::reminders::dose_reminder(x, id, name, t, today, now);
    lemma_weekday(x, weekday);
    lemma_dose(x, id, name, times[k], today, now, weekday, r);
    lemma_dose(x, id, name, times[l], today, now, weekday, s);
    lemma_gathered_in_order(times, f, k, l, r, s);
    let h = |t: JsonTree| crate::reminders::supplement_reminders(t, today, now, weekday);
    assert(h(x) == crate::reminders::gather(times, f));
    lemma_gathered_part(supplements, h, i, r, s);
    let advance = crate::reminders::advance_setting(data);
    let before = crate::reminders::gather(
        crate::reminders::items_or_none(data, "tasks"@),
        |t: JsonTree| crate::reminders::task_reminder(t, today, now, advance),
    ) + crate::reminders::gather(
        crate::reminders::items_or_none(data, "schedule"@),
        |t: JsonTree| crate::reminders::appointment_reminder(t, today, now, advance),
    );
    let c = crate::reminders::gather(supplements, h);
    lemma_order_within(before, c, Seq::empty(), r, s);
    assert(before + c + Seq::<ReminderText>::empty() =~= crate::reminders::due(
        data,
        today,
        now,
        weekday,
    ));
}

/// A single reminder is told where its key was not told yet; of two runs, the second is
/// told as if the keys of the first were told already.
pub proof fn law_told_in_turn(
    told: Set<Seq<char>>,
    r: ReminderText,
    a: Seq<ReminderText>,
    b: Seq<ReminderText>,
)
    ensures
        crate::reminders::fresh(told, seq![r]) == (if told.contains(r.key) {
            Seq::<ReminderText>::empty()
        } else {
            seq![r]
        }),
        crate::reminders::keys(seq![r]) == set![r.key],
        crate::reminders::keys(a + b) == crate::reminders::keys(a).union(
            crate::reminders::keys(b),
        ),
        crate::reminders::fresh(told, a + b) == crate::reminders::fresh(told, a)
            + crate::reminders::fresh(told.union(crate::reminders::keys(a)), b),
    decreases b.len(),
{
    let one = seq![r];
    assert(one.drop_last() =~= Seq::<ReminderText>::empty());
    assert(crate::reminders::keys(one.drop_last()) =~= Set::empty());
    assert(crate::reminders::fresh(told, one.drop_last()) =~= Seq::empty());
    assert(one.last() == r);
    if !told.contains(r.key) {
        assert(crate::reminders::fresh(told, one) =~= seq![r]);
    }
    assert forall|k: Seq<char>| crate::reminders::keys(one).contains(k) == (k == r.key) by {
        assert(one[0].key == r.key);
    }
    assert(crate::reminders::keys(one) =~= set![r.key]);
    lemma_keys_sum(a, b);
    let told_a = told.union(crate::reminders::keys(a));
    if b.len() == 0 {
        assert(a + b =~= a);
        assert(crate::reminders::fresh(told, a) + crate::reminders::fresh(told_a, b)
            =~= crate::reminders::fresh(told, a));
    } else {
        let front = b.drop_last();
        law_told_in_turn(told, r, a, front);
        lemma_keys_sum(a, front);
        assert((a + b).drop_last() =~= a + front);
        assert((a + b).last() == b.last());
        assert(crate::reminders::fresh(told, a + b) =~= crate::reminders::fresh(told, a)
            + crate::reminders::fresh(told_a, b));
    }
}

/// The keys of two runs are those of the one and those of the other.
proof fn lemma_keys_sum(a: Seq<ReminderText>, b: Seq<ReminderText>)
    ensures
        crate::reminders::keys(a + b) == crate::reminders::keys(a).union(
            crate::reminders::keys(b),
        ),
{
    let all = a + b;
    assert forall|k: Seq<char>| crate::reminders::keys(all).contains(k) == (
    crate::reminders::keys(a).contains(k) || crate::reminders::keys(b).contains(k)) by {
        if crate::reminders::keys(a).contains(k) {
            let i = choose|i: int| 0 <= i < a.len() && (#[trigger] a[i]).key == k;
            assert(all[i].key == k);
        }
        if crate::reminders::keys(b).contains(k) {
            let i = choose|i: int| 0 <= i < b.len() && (#[trigger] b[i]).key == k;
            assert(all[a.len() + i].key == k);
        }
        if crate::reminders::keys(all).contains(k) {
            let i = choose|i: int| 0 <= i < all.len() && (#[trigger] all[i]).key == k;
            if i < a.len() {
                assert(a[i].key == k);
            } else {
                assert(b[i - a.len()].key == k);
            }
        }
    }
    assert(crate::reminders::keys(all) =~= crate::reminders::keys(a).union(
        crate::reminders::keys(b),
    ));
}

/// What is shown of reminders is the notice of each, in their order.
pub proof fn law_notices(rs: Seq<ReminderText>)
    ensures
        crate::reminders::notices_of(rs).len() == rs.len(),
        forall|i: int|
            0 <= i < rs.len() ==> #[trigger] crate::reminders::notices_of(rs)[i] == rs[i].notice,
{
}

/// At start an entry counts where it is dated today and, where only open ones count, is
/// not marked as done; the counts of two lists add up.
pub proof fn law_count(t: JsonTree, a: Seq<JsonTree>, b: Seq<JsonTree>, today: Seq<char>, open: bool)
    ensures
        crate::reminders::count_today(seq![t], today, open) == (if crate::laws::holds_text(
            t,
            "date"@,
            today,
        ) && !(open && crate::laws::holds(t, "done"@, JsonTree::Bool(true))) {
            1nat
        } else {
            0nat
        }),
        crate::reminders::count_today(a + b, today, open) == crate::reminders::count_today(
            a,
            today,
            open,
        ) + crate::reminders::count_today(b, today, open),
    decreases b.len(),
{
    assert(seq![t].drop_last() =~= Seq::<JsonTree>::empty());
    assert(seq![t].last() == t);
    assert(crate::reminders::count_today(seq![t].drop_last(), today, open) == 0);
    if b.len() == 0 {
        assert(a + b =~= a);
    } else {
        law_count(t, a, b.drop_last(), today, open);
        assert((a + b).drop_last() =~= a + b.drop_last());
        assert((a + b).last() == b.last());
    }
}

/// The notice at start names the counts that are above 0, the tasks first.
pub proof fn law_startup_body(tasks: nat, appointments: nat)
    requires
        tasks + appointments > 0,
    ensures
        crate::reminders::startup_body(tasks, appointments) == (if appointments == 0 {
            "今天还有 "@ + (crate::text::decimal(tasks) + " 件待办"@)
        } else if tasks == 0 {
            "今天还有 "@ + (crate::text::decimal(appointments) + " 项日程"@)
        } else {
            "今天还有 "@ + (crate::text::decimal(tasks) + " 件待办"@ + "、"@ + (
            crate::text::decimal(appointments) + " 项日程"@))
        }),
{
}

/// A round makes a backup exactly where the last one was on another day. On the day on
/// which something was told, beginning a round forgets nothing of it; on another it
/// forgets all. Reminding notes the keys of all that is due, and changes nothing else.
pub proof fn law_rounds(
    s: BackgroundState,
    today: Seq<char>,
    data: JsonTree,
    now: i64,
    weekday: u64,
)
    ensures
        crate::background::backs_up(s, today) <==> s.backup_day != today,
        s.told_day == today ==> crate::background::begun(s, today).told == s.told,
        s.told_day != today ==> crate::background::begun(s, today).told == Set::<
            Seq<char>,
        >::empty(),
        crate::background::begun(s, today).told_day == today,
        crate::background::begun(s, today).backup_day == today,
        ({
            let r = crate::background::reminded(s, data, today, now, weekday);
            &&& forall|k: Seq<char>| #[trigger]
                r.told.contains(k) <==> s.told.contains(k) || exists|x: ReminderText|
                    #[trigger] crate::reminders::due(data, today, now, weekday).contains(x)
                        && x.key == k
            &&& r.told_day == s.told_day
            &&& r.backup_day == s.backup_day
        }),
{
    let rs = crate::reminders::due(data, today, now, weekday);
    let r = crate::background::reminded(s, data, today, now, weekday);
    assert forall|k: Seq<char>| #[trigger]
        r.told.contains(k) <==> s.told.contains(k) || exists|x: ReminderText|
            #[trigger] rs.contains(x) && x.key == k by {
        if crate::reminders::keys(rs).contains(k) {
            let i = choose|i: int| 0 <= i < rs.len() && (#[trigger] rs[i]).key == k;
            assert(rs.contains(rs[i]));
        }
        if exists|x: ReminderText| #[trigger] rs.contains(x) && x.key == k {
            let x = choose|x: ReminderText| #[trigger] rs.contains(x) && x.key == k;
            let i = choose|i: int| 0 <= i < rs.len() && rs[i] == x;
            assert(rs[i].key == k);
        }
    }
}

} // verus!
