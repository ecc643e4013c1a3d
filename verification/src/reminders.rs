//! Reminders: which tasks, appointments and supplements are due at a minute of a
//! day, and which of them were not told yet.
use crate::calendar::Moment;
use crate::json::{Json, JsonTree};
use crate::text::{decimal_text, parse_i64, same_text, split};
use vstd::hash_set::StringHashSet;
use vstd::prelude::*;
use vstd::string::*;

verus! {

/// What a notification shows.
pub struct Notice {
    pub title: String,
    pub body: String,
}

/// The model of a notice.
pub struct NoticeText {
    pub title: Seq<char>,
    pub body: Seq<char>,
}

impl View for Notice {
    type V = NoticeText;

    open spec fn view(&self) -> NoticeText {
        NoticeText { title: self.title@, body: self.body@ }
    }
}

/// A notice under the key by which it is told only once.
pub struct Reminder {
    pub key: String,
    pub notice: Notice,
}

/// The model of a reminder.
pub struct ReminderText {
    pub key: Seq<char>,
    pub notice: NoticeText,
}

impl View for Reminder {
    type V = ReminderText;

    open spec fn view(&self) -> ReminderText {
        ReminderText { key: self.key@, notice: self.notice@ }
    }
}

/// The models of a run of reminders.
pub open spec fn reminder_texts(s: Seq<Reminder>) -> Seq<ReminderText> {
    s.map_values(|r: Reminder| r@)
}

/// The models of a run of notices.
pub open spec fn notice_texts(s: Seq<Notice>) -> Seq<NoticeText> {
    s.map_values(|n: Notice| n@)
}

/// How many minutes after its time a reminder may still come.
pub const WINDOW: i64 = 30;

/// The number in piece `k` of a clock time, or 0 where there is none.
pub open spec fn clock_part(hm: Seq<char>, k: int) -> i64 {
    let parts = crate::text::pieces(hm, ':');
    if k < parts.len() {
        match crate::text::signed_number(parts[k]) {
            Some(n) => n as i64,
            None => 0,
        }
    } else {
        0
    }
}

/// The minute of the day that a clock time names, in arithmetic that wraps around
/// at 64 bits.
pub open spec fn minutes(hm: Seq<char>) -> i64 {
    clock_part(hm, 0).wrapping_mul(60).wrapping_add(clock_part(hm, 1))
}

/// The number in piece `k`, or 0 where there is none.
fn part_or_zero(parts: &Vec<String>, k: usize) -> (r: i64)
    ensures
        r == (if k < parts@.len() {
            match crate::text::signed_number(parts@[k as int]@) {
                Some(n) => n as i64,
                None => 0i64,
            }
        } else {
            0i64
        }),
{
    if k < parts.len() {
        match parse_i64(parts[k].as_str()) {
            Some(n) => n,
            None => 0,
        }
    } else {
        0
    }
}

/// The minute of the day of a clock time `hour:minute`. A part that is missing or
/// no number counts as 0; what follows a second colon is ignored.
pub fn minutes_of_day(hm: &str) -> (r: i64)
    ensures
        r == minutes(hm@),
        i64::MIN <= 60 * clock_part(hm@, 0) + clock_part(hm@, 1) <= i64::MAX && i64::MIN <= 60
            * clock_part(hm@, 0) <= i64::MAX ==> r == 60 * clock_part(hm@, 0) + clock_part(hm@, 1),
{
    let parts = split(hm, ':');
    proof {
        let t = crate::text::texts(parts@);
        assert(t.len() == parts@.len());
        assert(forall|k: int| 0 <= k < t.len() ==> t[k] == (#[trigger] parts@[k])@);
    }
    let h: i64 = part_or_zero(&parts, 0);
    let m: i64 = part_or_zero(&parts, 1);
    h.wrapping_mul(60).wrapping_add(m)
}

/// Whether a reminder for the minute `trigger` comes at the minute `now`: not
/// before it, and at most `WINDOW` minutes after it.
pub open spec fn in_window(now: i64, trigger: i64) -> bool {
    now >= trigger && now.wrapping_sub(trigger) <= WINDOW
}

/// Whether a reminder for the minute `trigger` comes at the minute `now`.
pub fn is_due(now: i64, trigger: i64) -> (r: bool)
    ensures
        r == in_window(now, trigger),
        now - trigger <= i64::MAX ==> r == (0 <= now - trigger <= WINDOW),
{
    now >= trigger && now.wrapping_sub(trigger) <= WINDOW
}

/// `time` and `title` as the body of a notice.
pub open spec fn timed_body(time: Seq<char>, title: Seq<char>) -> Seq<char> {
    time + " · "@ + title
}

/// The body of a notice on an entry at a time.
fn timed_text(time: &str, title: &str) -> (r: String)
    ensures
        r@ == timed_body(time@, title@),
{
    let mut r = time.to_owned();
    r.append(" · ");
    r.append(title);
    r
}

/// How many minutes before its time a task or an appointment is due: the setting
/// of that name, or 0.
pub open spec fn advance_setting(data: JsonTree) -> i64 {
    match data.member("settings"@) {
        Some(s) => match s.member("reminderAdvanceMinutes"@) {
            Some(n) => match n.as_integer(i64::MIN as int, i64::MAX as int) {
                Some(k) => k as i64,
                None => 0,
            },
            None => 0,
        },
        None => 0,
    }
}

/// The setting of how many minutes ahead reminders come.
pub fn advance_minutes(data: &Json) -> (r: i64)
    ensures
        r == advance_setting(data@),
{
    match data.get("settings") {
        Some(s) => match s.get("reminderAdvanceMinutes") {
            Some(n) => match n.as_i64() {
                Some(k) => k,
                None => 0,
            },
            None => 0,
        },
        None => 0,
    }
}

/// The truth value of that key, or `default` where there is none.
pub open spec fn flag_or(t: JsonTree, key: Seq<char>, default: bool) -> bool {
    match t.flag_at(key) {
        Some(b) => b,
        None => default,
    }
}

/// Whether an entry is dated `today`.
pub open spec fn is_today(t: JsonTree, today: Seq<char>) -> bool {
    t.text_at("date"@) == Some(today)
}

/// Whether an entry is dated `today`.
pub(crate) fn dated(t: &Json, today: &str) -> (r: bool)
    ensures
        r == is_today(t@, today@),
{
    match t.str_at("date") {
        Some(d) => same_text(d, today),
        None => false,
    }
}

/// Whether an entry is marked as done.
pub(crate) fn done(t: &Json) -> (r: bool)
    ensures
        r == flag_or(t@, "done"@, false),
{
    match t.bool_at("done") {
        Some(b) => b,
        None => false,
    }
}

/// The reminder of a task: one where it is dated today, not done, has an id and a
/// time, and `now` lies in the window of its time less the advance.
pub open spec fn task_reminder(
    t: JsonTree,
    today: Seq<char>,
    now: i64,
    advance: i64,
) -> Seq<ReminderText> {
    match (t.text_at("id"@), t.text_at("time"@)) {
        (Some(id), Some(time)) => if is_today(t, today) && !flag_or(t, "done"@, false)
            && in_window(now, minutes(time).wrapping_sub(advance)) {
            seq![
                ReminderText {
                    key: id,
                    notice: NoticeText {
                        title: "待办提醒"@,
                        body: timed_body(time, t.text_or_empty("title"@)),
                    },
                },
            ]
        } else {
            Seq::empty()
        },
        _ => Seq::empty(),
    }
}

/// The reminder of an appointment: as that of a task, but that none is done.
pub open spec fn appointment_reminder(
    s: JsonTree,
    today: Seq<char>,
    now: i64,
    advance: i64,
) -> Seq<ReminderText> {
    match (s.text_at("id"@), s.text_at("time"@)) {
        (Some(id), Some(time)) => if is_today(s, today) && in_window(
            now,
            minutes(time).wrapping_sub(advance),
        ) {
            seq![
                ReminderText {
                    key: "s-"@ + id,
                    notice: NoticeText {
                        title: "日程提醒"@,
                        body: timed_body(time, s.text_or_empty("title"@)),
                    },
                },
            ]
        } else {
            Seq::empty()
        },
        _ => Seq::empty(),
    }
}

/// Whether a supplement is taken on that weekday, counted from Sunday: on every day
/// where it names no weekdays.
pub open spec fn on_weekday(s: JsonTree, weekday: u64) -> bool {
    match s.items_at("weekdays"@) {
        Some(days) => days.len() == 0 || exists|i: int|
            0 <= i < days.len() && (#[trigger] days[i]).as_integer(0, u64::MAX as int) == Some(
                weekday as int,
            ),
        None => true,
    }
}

/// Whether a supplement's log of today holds that time.
pub open spec fn was_taken(s: JsonTree, today: Seq<char>, time: Seq<char>) -> bool {
    match s.member("logs"@) {
        Some(logs) => match logs.items_at(today) {
            Some(taken) => exists|i: int|
                0 <= i < taken.len() && (#[trigger] taken[i]).as_text() == Some(time),
            None => false,
        },
        None => false,
    }
}

/// The body of a supplement's notice, with the dose where there is one.
pub open spec fn supplement_body(
    time: Seq<char>,
    name: Seq<char>,
    dose: Seq<char>,
) -> Seq<char> {
    if dose.len() == 0 {
        timed_body(time, name)
    } else {
        timed_body(timed_body(time, name), dose)
    }
}

/// The reminder of one time of a supplement: one where the time is a text that the
/// log of today does not hold and `now` lies in its window.
pub open spec fn dose_reminder(
    s: JsonTree,
    id: Seq<char>,
    name: Seq<char>,
    time: JsonTree,
    today: Seq<char>,
    now: i64,
) -> Seq<ReminderText> {
    match time.as_text() {
        Some(at) => if !was_taken(s, today, at) && in_window(now, minutes(at)) {
            seq![
                ReminderText {
                    key: "supp-"@ + id + "-"@ + at,
                    notice: NoticeText {
                        title: "补剂提醒"@,
                        body: supplement_body(at, name, s.text_or_empty("dose"@)),
                    },
                },
            ]
        } else {
            Seq::empty()
        },
        None => Seq::empty(),
    }
}

/// The reminders that the items give, in their order.
pub open spec fn gather(
    items: Seq<JsonTree>,
    f: spec_fn(JsonTree) -> Seq<ReminderText>,
) -> Seq<ReminderText>
    decreases items.len(),
{
    if items.len() == 0 {
        Seq::empty()
    } else {
        gather(items.drop_last(), f) + f(items.last())
    }
}

/// The reminders of a supplement: those of its times, where it is enabled, has an
/// id and a name, and is taken on that weekday.
pub open spec fn supplement_reminders(
    s: JsonTree,
    today: Seq<char>,
    now: i64,
    weekday: u64,
) -> Seq<ReminderText> {
    match (s.text_at("id"@), s.text_at("name"@), s.items_at("times"@)) {
        (Some(id), Some(name), Some(times)) => if flag_or(s, "enabled"@, true) && on_weekday(
            s,
            weekday,
        ) {
            gather(times, |t: JsonTree| dose_reminder(s, id, name, t, today, now))
        } else {
            Seq::empty()
        },
        _ => Seq::empty(),
    }
}

/// The items of that key, or none.
pub open spec fn items_or_none(t: JsonTree, key: Seq<char>) -> Seq<JsonTree> {
    match t.items_at(key) {
        Some(s) => s,
        None => Seq::empty(),
    }
}

/// All reminders that are due: those of the tasks, then those of the appointments,
/// then those of the supplements.
pub open spec fn due(
    data: JsonTree,
    today: Seq<char>,
    now: i64,
    weekday: u64,
) -> Seq<ReminderText> {
    let advance = advance_setting(data);
    gather(
        items_or_none(data, "tasks"@),
        |t: JsonTree| task_reminder(t, today, now, advance),
    ) + gather(
        items_or_none(data, "schedule"@),
        |t: JsonTree| appointment_reminder(t, today, now, advance),
    ) + gather(
        items_or_none(data, "supplements"@),
        |t: JsonTree| supplement_reminders(t, today, now, weekday),
    )
}

/// Adds the reminder of a task, where it is due.
fn add_task(t: &Json, today: &str, now: i64, advance: i64, out: &mut Vec<Reminder>)
    ensures
        reminder_texts(final(out)@) == reminder_texts(old(out)@) + task_reminder(
            t@,
            today@,
            now,
            advance,
        ),
{
    if !dated(t, today) || done(t) {
        assert(reminder_texts(out@) =~= reminder_texts(out@) + Seq::<ReminderText>::empty());
        return;
    }
    if let (Some(id), Some(time)) = (t.str_at("id"), t.str_at("time")) {
        let trigger: i64 = minutes_of_day(time).wrapping_sub(advance);
        if is_due(now, trigger) {
            let title = t.str_or_empty("title");
            let body = timed_text(time, title.as_str());
            let ghost before = reminder_texts(out@);
            out.push(
                Reminder {
                    key: id.to_owned(),
                    notice: Notice { title: "待办提醒".to_owned(), body },
                },
            );
            assert(reminder_texts(out@) =~= before + task_reminder(t@, today@, now, advance));
            return;
        }
    }
    assert(reminder_texts(out@) =~= reminder_texts(out@) + Seq::<ReminderText>::empty());
}

/// Adds the reminder of an appointment, where it is due.
fn add_appointment(s: &Json, today: &str, now: i64, advance: i64, out: &mut Vec<Reminder>)
    ensures
        reminder_texts(final(out)@) == reminder_texts(old(out)@) + appointment_reminder(
            s@,
            today@,
            now,
            advance,
        ),
{
    if !dated(s, today) {
        assert(reminder_texts(out@) =~= reminder_texts(out@) + Seq::<ReminderText>::empty());
        return;
    }
    if let (Some(id), Some(time)) = (s.str_at("id"), s.str_at("time")) {
        let trigger: i64 = minutes_of_day(time).wrapping_sub(advance);
        if is_due(now, trigger) {
            let title = s.str_or_empty("title");
            let body = timed_text(time, title.as_str());
            let mut key = "s-".to_owned();
            key.append(id);
            let ghost before = reminder_texts(out@);
            out.push(
                Reminder { key, notice: Notice { title: "日程提醒".to_owned(), body } },
            );
            assert(reminder_texts(out@) =~= before + appointment_reminder(
                s@,
                today@,
                now,
                advance,
            ));
            return;
        }
    }
    assert(reminder_texts(out@) =~= reminder_texts(out@) + Seq::<ReminderText>::empty());
}

/// Whether a supplement is taken on that weekday.
fn weekday_matches(s: &Json, weekday: u64) -> (r: bool)
    ensures
        r == on_weekday(s@, weekday),
{
    match s.array_at("weekdays") {
        Some(days) => {
            if days.len() == 0 {
                return true;
            }
            let ghost t = crate::json::trees(days@);
            let mut i: usize = 0;
            while i < days.len()
                invariant
                    i <= days@.len(),
                    t == crate::json::trees(days@),
                    s@.items_at("weekdays"@) == Some(t),
                    forall|k: int|
                        0 <= k < i ==> (#[trigger] t[k]).as_integer(0, u64::MAX as int) != Some(
                            weekday as int,
                        ),
                decreases days@.len() - i,
            {
                assert(t[i as int] == days@[i as int]@);
                if let Some(w) = days[i].as_u64() {
                    if w == weekday {
                        return true;
                    }
                }
                i = i + 1;
            }
            false
        },
        None => true,
    }
}

/// Whether a supplement's log of today holds that time.
fn taken_today(s: &Json, today: &str, time: &str) -> (r: bool)
    ensures
        r == was_taken(s@, today@, time@),
{
    let logs = match s.get("logs") {
        Some(l) => l,
        None => {
            return false;
        },
    };
    match logs.array_at(today) {
        Some(taken) => {
            let ghost t = crate::json::trees(taken@);
            let mut i: usize = 0;
            while i < taken.len()
                invariant
                    i <= taken@.len(),
                    t == crate::json::trees(taken@),
                    s@.member("logs"@) == Some(logs@),
                    logs@.items_at(today@) == Some(t),
                    forall|k: int| 0 <= k < i ==> (#[trigger] t[k]).as_text() != Some(time@),
                decreases taken@.len() - i,
            {
                assert(t[i as int] == taken@[i as int]@);
                if let Some(x) = taken[i].as_str() {
                    if same_text(x, time) {
                        return true;
                    }
                }
                i = i + 1;
            }
            false
        },
        None => false,
    }
}

/// Adds the reminder of one time of a supplement, where it is due.
fn add_dose(
    s: &Json,
    id: &str,
    name: &str,
    time: &Json,
    today: &str,
    now: i64,
    out: &mut Vec<Reminder>,
)
    ensures
        reminder_texts(final(out)@) == reminder_texts(old(out)@) + dose_reminder(
            s@,
            id@,
            name@,
            time@,
            today@,
            now,
        ),
{
    if let Some(at) = time.as_str() {
        if !taken_today(s, today, at) && is_due(now, minutes_of_day(at)) {
            let mut key = "supp-".to_owned();
            key.append(id);
            key.append("-");
            key.append(at);
            let dose = s.str_or_empty("dose");
            let mut body = timed_text(at, name);
            if !dose.as_str().is_empty() {
                body = timed_text(body.as_str(), dose.as_str());
            }
            let ghost before = reminder_texts(out@);
            out.push(
                Reminder { key, notice: Notice { title: "补剂提醒".to_owned(), body } },
            );
            assert(reminder_texts(out@) =~= before + dose_reminder(
                s@,
                id@,
                name@,
                time@,
                today@,
                now,
            ));
            return;
        }
    }
    assert(reminder_texts(out@) =~= reminder_texts(out@) + Seq::<ReminderText>::empty());
}

/// Adds the reminders of a supplement.
fn add_supplement(s: &Json, today: &str, now: i64, weekday: u64, out: &mut Vec<Reminder>)
    ensures
        reminder_texts(final(out)@) == reminder_texts(old(out)@) + supplement_reminders(
            s@,
            today@,
            now,
            weekday,
        ),
{
    let enabled = match s.bool_at("enabled") {
        Some(b) => b,
        None => true,
    };
    let ghost before = reminder_texts(out@);
    if !enabled || !weekday_matches(s, weekday) {
        assert(before =~= before + Seq::<ReminderText>::empty());
        return;
    }
    if let (Some(id), Some(name), Some(times)) = (
        s.str_at("id"),
        s.str_at("name"),
        s.array_at("times"),
    ) {
        let ghost f = |t: JsonTree| dose_reminder(s@, id@, name@, t, today@, now);
        let ghost t = crate::json::trees(times@);
        let mut i: usize = 0;
        assert(t.take(0) =~= Seq::<JsonTree>::empty());
        assert(before =~= before + Seq::<ReminderText>::empty());
        while i < times.len()
            invariant
                i <= times@.len(),
                t == crate::json::trees(times@),
                f == (|t: JsonTree| dose_reminder(s@, id@, name@, t, today@, now)),
                reminder_texts(out@) == before + gather(t.take(i as int), f),
            decreases times@.len() - i,
        {
            add_dose(s, id, name, &times[i], today, now, out);
            proof {
                assert(t.take(i + 1).drop_last() =~= t.take(i as int));
                assert(t[i as int] == times@[i as int]@);
                assert(before + (gather(t.take(i as int), f) + f(t[i as int])) =~= (before + gather(
                    t.take(i as int),
                    f,
                )) + f(t[i as int]));
            }
            i = i + 1;
        }
        assert(t.take(i as int) =~= t);
    } else {
        assert(before =~= before + Seq::<ReminderText>::empty());
    }
}

/// All reminders that are due on the day `today`, at the minute `now` of a day of
/// that weekday.
pub fn due_reminders(data: &Json, today: &str, now: i64, weekday: u64) -> (r: Vec<Reminder>)
    ensures
        reminder_texts(r@) == due(data@, today@, now, weekday),
{
    let advance: i64 = advance_minutes(data);
    let mut out: Vec<Reminder> = Vec::new();
    let ghost f = |t: JsonTree| task_reminder(t, today@, now, advance);
    let ghost g = |t: JsonTree| appointment_reminder(t, today@, now, advance);
    let ghost h = |t: JsonTree| supplement_reminders(t, today@, now, weekday);
    assert(reminder_texts(out@) =~= Seq::<ReminderText>::empty());
    let ghost tasks = items_or_none(data@, "tasks"@);
    let ghost appointments = items_or_none(data@, "schedule"@);
    let ghost supplements = items_or_none(data@, "supplements"@);
    if let Some(list) = data.array_at("tasks") {
        let mut i: usize = 0;
        assert(tasks.take(0) =~= Seq::<JsonTree>::empty());
        while i < list.len()
            invariant
                i <= list@.len(),
                tasks == crate::json::trees(list@),
                f == (|t: JsonTree| task_reminder(t, today@, now, advance)),
                reminder_texts(out@) == gather(tasks.take(i as int), f),
            decreases list@.len() - i,
        {
            add_task(&list[i], today, now, advance, &mut out);
            proof {
                assert(tasks.take(i + 1).drop_last() =~= tasks.take(i as int));
                assert(tasks[i as int] == list@[i as int]@);
            }
            i = i + 1;
        }
        assert(tasks.take(i as int) =~= tasks);
    }
    let ghost first = gather(tasks, f);
    assert(first =~= first + Seq::<ReminderText>::empty());
    if let Some(list) = data.array_at("schedule") {
        let mut i: usize = 0;
        assert(appointments.take(0) =~= Seq::<JsonTree>::empty());
        while i < list.len()
            invariant
                i <= list@.len(),
                appointments == crate::json::trees(list@),
                g == (|t: JsonTree| appointment_reminder(t, today@, now, advance)),
                reminder_texts(out@) == first + gather(appointments.take(i as int), g),
            decreases list@.len() - i,
        {
            add_appointment(&list[i], today, now, advance, &mut out);
            proof {
                let k = i as int;
                assert(appointments.take(k + 1).drop_last() =~= appointments.take(k));
                assert(appointments[k] == list@[k]@);
                assert(first + (gather(appointments.take(k), g) + g(appointments[k])) =~= (first
                    + gather(appointments.take(k), g)) + g(appointments[k]));
            }
            i = i + 1;
        }
        assert(appointments.take(i as int) =~= appointments);
    }
    let ghost second = first + gather(appointments, g);
    assert(second =~= second + Seq::<ReminderText>::empty());
    if let Some(list) = data.array_at("supplements") {
        let mut i: usize = 0;
        assert(supplements.take(0) =~= Seq::<JsonTree>::empty());
        while i < list.len()
            invariant
                i <= list@.len(),
                supplements == crate::json::trees(list@),
                h == (|t: JsonTree| supplement_reminders(t, today@, now, weekday)),
                reminder_texts(out@) == second + gather(supplements.take(i as int), h),
            decreases list@.len() - i,
        {
            add_supplement(&list[i], today, now, weekday, &mut out);
            proof {
                let k = i as int;
                assert(supplements.take(k + 1).drop_last() =~= supplements.take(k));
                assert(supplements[k] == list@[k]@);
                assert(second + (gather(supplements.take(k), h) + h(supplements[k])) =~= (second
                    + gather(supplements.take(k), h)) + h(supplements[k]));
            }
            i = i + 1;
        }
        assert(supplements.take(i as int) =~= supplements);
    }
    out
}

/// The keys of a run of reminders.
pub open spec fn keys(rs: Seq<ReminderText>) -> Set<Seq<char>> {
    Set::new(|k: Seq<char>| exists|i: int| 0 <= i < rs.len() && (#[trigger] rs[i]).key == k)
}

/// The reminders of `rs` that are told, in their order: those whose key was not told
/// before and is that of no earlier reminder in `rs`.
pub open spec fn fresh(told: Set<Seq<char>>, rs: Seq<ReminderText>) -> Seq<ReminderText>
    decreases rs.len(),
{
    if rs.len() == 0 {
        Seq::empty()
    } else {
        let front = fresh(told, rs.drop_last());
        if told.contains(rs.last().key) || keys(rs.drop_last()).contains(rs.last().key) {
            front
        } else {
            front.push(rs.last())
        }
    }
}

/// The notices of a run of reminders.
pub open spec fn notices_of(rs: Seq<ReminderText>) -> Seq<NoticeText> {
    rs.map_values(|r: ReminderText| r.notice)
}

/// The keys of the reminders that were told.
pub struct Notified {
    keys: StringHashSet,
}

impl View for Notified {
    type V = Set<Seq<char>>;

    closed spec fn view(&self) -> Set<Seq<char>> {
        self.keys@
    }
}

impl Notified {
    /// Nothing was told.
    pub fn new() -> (r: Notified)
        ensures
            r@ == Set::<Seq<char>>::empty(),
    {
        Notified { keys: StringHashSet::new() }
    }

    /// Whether the reminder of that key was told.
    pub fn contains(&self, key: &str) -> (r: bool)
        ensures
            r == self@.contains(key@),
    {
        self.keys.contains(key)
    }

    /// Notes that the reminder of that key was told. True where it was not before.
    pub fn insert(&mut self, key: String) -> (r: bool)
        ensures
            final(self)@ == old(self)@.insert(key@),
            r == !old(self)@.contains(key@),
    {
        self.keys.insert(key)
    }

    /// Forgets what was told.
    pub fn clear(&mut self)
        ensures
            final(self)@ == Set::<Seq<char>>::empty(),
    {
        self.keys.clear()
    }
}

/// One more reminder adds its key.
proof fn lemma_keys_push(rs: Seq<ReminderText>, n: int)
    requires
        0 <= n < rs.len(),
    ensures
        keys(rs.take(n + 1)) == keys(rs.take(n)).insert(rs[n].key),
{
    let front = rs.take(n);
    let all = rs.take(n + 1);
    assert forall|k: Seq<char>| keys(all).contains(k) == keys(front).insert(rs[n].key).contains(
        k,
    ) by {
        if keys(front).contains(k) {
            let i = choose|i: int| 0 <= i < front.len() && (#[trigger] front[i]).key == k;
            assert(all[i].key == k);
        }
        if k == rs[n].key {
            assert(all[n].key == k);
        }
        if keys(all).contains(k) && k != rs[n].key {
            let i = choose|i: int| 0 <= i < all.len() && (#[trigger] all[i]).key == k;
            assert(front[i].key == k);
        }
    }
    assert(keys(all) =~= keys(front).insert(rs[n].key));
}

/// Tells the reminders that were not told yet, and notes their keys.
pub fn tell(reminders: Vec<Reminder>, notified: &mut Notified) -> (r: Vec<Notice>)
    ensures
        notice_texts(r@) == notices_of(fresh(old(notified)@, reminder_texts(reminders@))),
        final(notified)@ == old(notified)@.union(keys(reminder_texts(reminders@))),
{
    let ghost told = notified@;
    let ghost all = reminders@;
    let ghost rs = reminder_texts(reminders@);
    let mut out: Vec<Notice> = Vec::new();
    proof {
        assert(rs.take(0) =~= Seq::<ReminderText>::empty());
        assert(keys(rs.take(0)) =~= Set::<Seq<char>>::empty());
        assert(told.union(keys(rs.take(0))) =~= told);
        assert(notice_texts(out@) =~= notices_of(fresh(told, rs.take(0))));
    }
    for x in it: reminders
        invariant
            it.seq() == all,
            rs == reminder_texts(all),
            notified@ == told.union(keys(rs.take(it.index() as int))),
            notice_texts(out@) == notices_of(fresh(told, rs.take(it.index() as int))),
    {
        let ghost i = it.index() as int;
        let ghost before = out@;
        proof {
            assert(rs[i] == x@);
            lemma_keys_push(rs, i);
            assert(rs.take(i + 1).drop_last() =~= rs.take(i));
            assert(told.union(keys(rs.take(i))).insert(x.key@) =~= told.union(
                keys(rs.take(i)).insert(x.key@),
            ));
        }
        if notified.insert(x.key) {
            out.push(x.notice);
            assert(notice_texts(out@) =~= notice_texts(before).push(x.notice@));
            assert(notices_of(fresh(told, rs.take(i)).push(rs[i])) =~= notices_of(
                fresh(told, rs.take(i)),
            ).push(rs[i].notice));
        }
    }
    assert(rs.take(rs.len() as int) =~= rs);
    out
}

/// The notices that come on the day `today` at the moment `now`, of what was not
/// told yet.
pub fn check_reminders(
    data: &Json,
    today: &str,
    now: &Moment,
    notified: &mut Notified,
) -> (r: Vec<Notice>)
    ensures
        notice_texts(r@) == notices_of(
            fresh(old(notified)@, due(data@, today@, now.minute, now.weekday)),
        ),
        final(notified)@ == old(notified)@.union(
            keys(due(data@, today@, now.minute, now.weekday)),
        ),
{
    let reminders = due_reminders(data, today, now.minute, now.weekday);
    tell(reminders, notified)
}

/// How many of the items are dated today and, where `open`, not done.
pub open spec fn count_today(items: Seq<JsonTree>, today: Seq<char>, open: bool) -> nat
    decreases items.len(),
{
    if items.len() == 0 {
        0
    } else {
        count_today(items.drop_last(), today, open) + (if is_today(items.last(), today) && !(open
            && flag_or(items.last(), "done"@, false)) {
            1nat
        } else {
            0nat
        })
    }
}

/// The body of the notice at start for so many tasks and appointments.
pub open spec fn startup_body(tasks: nat, appointments: nat) -> Seq<char> {
    let first = crate::text::decimal(tasks) + " 件待办"@;
    let second = crate::text::decimal(appointments) + " 项日程"@;
    "今天还有 "@ + (if tasks > 0 && appointments > 0 {
        first + "、"@ + second
    } else if tasks > 0 {
        first
    } else {
        second
    })
}

/// How many of the items of that key are dated today and, where `open`, not done.
fn count_items(data: &Json, key: &str, today: &str, open: bool) -> (r: usize)
    ensures
        r == count_today(items_or_none(data@, key@), today@, open),
{
    match data.array_at(key) {
        Some(list) => {
            let ghost t = crate::json::trees(list@);
            let mut n: usize = 0;
            let mut i: usize = 0;
            assert(t.take(0) =~= Seq::<JsonTree>::empty());
            while i < list.len()
                invariant
                    i <= list@.len(),
                    t == crate::json::trees(list@),
                    n <= i,
                    n == count_today(t.take(i as int), today@, open),
                decreases list@.len() - i,
            {
                proof {
                    assert(t.take(i + 1).drop_last() =~= t.take(i as int));
                    assert(t[i as int] == list@[i as int]@);
                }
                if dated(&list[i], today) && !(open && done(&list[i])) {
                    n = n + 1;
                }
                i = i + 1;
            }
            assert(t.take(i as int) =~= t);
            n
        },
        None => 0,
    }
}

/// The notice at start: how many open tasks and how many appointments today has.
/// None where it has neither.
pub fn startup_reminder(data: &Json, today: &str) -> (r: Option<Notice>)
    ensures
        ({
            let tasks = count_today(items_or_none(data@, "tasks"@), today@, true);
            let appointments = count_today(items_or_none(data@, "schedule"@), today@, false);
            match r {
                Some(n) => tasks + appointments > 0 && n@ == (NoticeText {
                    title: "月蓝琉璃工作台"@,
                    body: startup_body(tasks, appointments),
                }),
                None => tasks + appointments == 0,
            }
        }),
{
    let tasks: usize = count_items(data, "tasks", today, true);
    let appointments: usize = count_items(data, "schedule", today, false);
    if tasks == 0 && appointments == 0 {
        return None;
    }
    let mut body = "今天还有 ".to_owned();
    let mut parts = String::new();
    if tasks > 0 {
        parts = decimal_text(tasks as u128);
        parts.append(" 件待办");
    }
    if appointments > 0 {
        let mut second = decimal_text(appointments as u128);
        second.append(" 项日程");
        if tasks > 0 {
            parts.append("、");
            parts.append(second.as_str());
        } else {
            parts = second;
        }
    }
    body.append(parts.as_str());
    Some(Notice { title: "月蓝琉璃工作台".to_owned(), body })
}

/// Every reminder that is told is one of those that are due; its key was not told
/// before and is told once.
pub proof fn law_fresh_keys(told: Set<Seq<char>>, rs: Seq<ReminderText>)
    ensures
        forall|i: int|
            0 <= i < fresh(told, rs).len() ==> rs.contains(#[trigger] fresh(told, rs)[i])
                && !told.contains(fresh(told, rs)[i].key),
        forall|i: int, j: int|
            0 <= i < j < fresh(told, rs).len() ==> (#[trigger] fresh(told, rs)[i]).key != (
            #[trigger] fresh(told, rs)[j]).key,
    decreases rs.len(),
{
    if rs.len() > 0 {
        let front = rs.drop_last();
        law_fresh_keys(told, front);
        let f = fresh(told, front);
        let g = fresh(told, rs);
        assert forall|i: int| 0 <= i < g.len() implies rs.contains(#[trigger] g[i])
            && !told.contains(g[i].key) by {
            if i < f.len() {
                assert(g[i] == f[i]);
                let k = choose|k: int| 0 <= k < front.len() && front[k] == f[i];
                assert(rs[k] == f[i]);
            } else {
                assert(rs[rs.len() - 1] == g[i]);
            }
        }
        assert forall|i: int, j: int| 0 <= i < j < g.len() implies (#[trigger] g[i]).key != (
        #[trigger] g[j]).key by {
            assert(g[i] == f[i]);
            if j < f.len() {
                assert(g[j] == f[j]);
            } else {
                assert(front.contains(f[i]));
                let k = choose|k: int| 0 <= k < front.len() && front[k] == f[i];
                assert(front[k].key == f[i].key);
                assert(keys(front).contains(f[i].key));
            }
        }
    }
}

/// No due reminder is lost: its key was told before, or is told now.
pub proof fn law_none_lost(told: Set<Seq<char>>, rs: Seq<ReminderText>)
    ensures
        forall|i: int|
            0 <= i < rs.len() ==> told.contains((#[trigger] rs[i]).key) || keys(
                fresh(told, rs),
            ).contains(rs[i].key),
    decreases rs.len(),
{
    if rs.len() > 0 {
        let front = rs.drop_last();
        law_none_lost(told, front);
        let f = fresh(told, front);
        let g = fresh(told, rs);
        assert forall|k: Seq<char>| keys(f).contains(k) implies keys(g).contains(k) by {
            let i = choose|i: int| 0 <= i < f.len() && (#[trigger] f[i]).key == k;
            assert(g[i].key == k);
        }
        assert forall|i: int| 0 <= i < rs.len() implies told.contains((#[trigger] rs[i]).key)
            || keys(g).contains(rs[i].key) by {
            if i < front.len() {
                assert(front[i] == rs[i]);
            } else if !told.contains(rs[i].key) {
                if keys(front).contains(rs[i].key) {
                    let k = choose|k: int|
                        0 <= k < front.len() && (#[trigger] front[k]).key == rs[i].key;
                    assert(told.contains(front[k].key) || keys(f).contains(front[k].key));
                } else {
                    assert(g[g.len() - 1].key == rs[i].key);
                }
            }
        }
    }
}

/// What was told is not told again: of any reminders that are due later, none is told
/// whose key is among those told by then.
pub proof fn law_told_once(
    told: Set<Seq<char>>,
    first: Seq<ReminderText>,
    later: Seq<ReminderText>,
)
    ensures
        forall|i: int|
            0 <= i < fresh(told.union(keys(first)), later).len() ==> !told.contains(
                (#[trigger] fresh(told.union(keys(first)), later)[i]).key,
            ) && !keys(first).contains(fresh(told.union(keys(first)), later)[i].key),
{
    law_fresh_keys(told.union(keys(first)), later);
}

/// Checking the same reminders twice tells nothing the second time.
pub proof fn law_second_check_silent(told: Set<Seq<char>>, rs: Seq<ReminderText>)
    ensures
        fresh(told.union(keys(rs)), rs) == Seq::<ReminderText>::empty(),
        told.union(keys(rs)).union(keys(rs)) == told.union(keys(rs)),
{
    let all = told.union(keys(rs));
    law_fresh_keys(all, rs);
    let g = fresh(all, rs);
    if g.len() > 0 {
        let r = g[0];
        assert(rs.contains(r));
        let k = choose|k: int| 0 <= k < rs.len() && rs[k] == r;
        assert(rs[k].key == r.key);
        assert(keys(rs).contains(r.key));
    }
    assert(g =~= Seq::<ReminderText>::empty());
    assert(all.union(keys(rs)) =~= all);
}

/// A task that is done or dated otherwise is never reminded of.
pub proof fn law_silent_task(t: JsonTree, today: Seq<char>, now: i64, advance: i64)
    requires
        t.flag_at("done"@) == Some(true) || t.text_at("date"@) != Some(today),
    ensures
        task_reminder(t, today, now, advance) == Seq::<ReminderText>::empty(),
{
}

/// A supplement that is switched off, or that is not taken on that weekday, is never
/// reminded of.
pub proof fn law_silent_supplement(s: JsonTree, today: Seq<char>, now: i64, weekday: u64)
    requires
        s.flag_at("enabled"@) == Some(false) || !on_weekday(s, weekday),
    ensures
        supplement_reminders(s, today, now, weekday) == Seq::<ReminderText>::empty(),
{
}

/// A dose that the log of today holds is never reminded of.
pub proof fn law_silent_dose(
    s: JsonTree,
    id: Seq<char>,
    name: Seq<char>,
    time: Seq<char>,
    today: Seq<char>,
    now: i64,
)
    requires
        was_taken(s, today, time),
    ensures
        dose_reminder(s, id, name, JsonTree::Text(time), today, now) == Seq::<
            ReminderText,
        >::empty(),
{
}

/// A clock time of hours and minutes in two digits each names that minute of the day.
pub proof fn law_clock_time(hour: nat, minute: nat)
    requires
        hour < 24,
        minute < 60,
    ensures
        minutes(
            crate::calendar::padded(hour, 2) + seq![':'] + crate::calendar::padded(minute, 2),
        ) == 60 * hour + minute,
{
    let a = crate::calendar::padded(hour, 2);
    let b = crate::calendar::padded(minute, 2);
    lemma_two_digits(hour);
    lemma_two_digits(minute);
    crate::text::lemma_pieces_joined(a, b, ':');
    crate::text::lemma_pieces_single(a, ':');
    crate::text::lemma_pieces_single(b, ':');
    assert(crate::text::pieces(a + seq![':'] + b, ':') =~= seq![a, b]);
}

/// A number below 100 in two digits is read back as that number.
proof fn lemma_two_digits(n: nat)
    requires
        n < 100,
    ensures
        crate::text::signed_number(crate::calendar::padded(n, 2)) == Some(n as int),
        crate::calendar::padded(n, 2).len() == 2,
        !crate::calendar::padded(n, 2).contains(':'),
{
    reveal_with_fuel(crate::text::decimal, 3);
    reveal_with_fuel(crate::text::digits_value, 3);
    let s = crate::calendar::padded(n, 2);
    assert(s =~= seq![crate::text::digit((n / 10) as int), crate::text::digit((n % 10) as int)]);
    assert(s.drop_last() =~= seq![crate::text::digit((n / 10) as int)]);
    assert(s.drop_last().drop_last() =~= Seq::<char>::empty());
    assert(s[0] != '-' && s[0] != '+');
    assert(crate::text::after_plus(s) == s);
    assert(crate::text::digit_value(s[0]) == Some((n / 10) as int));
    assert(crate::text::digit_value(s[1]) == Some((n % 10) as int));
}

} // verus!
