//! The round that runs every minute: one backup a day, and reminders that are told
//! once a day.
use crate::calendar::Moment;
use crate::json::{Json, JsonTree};
use crate::reminders::{check_reminders, Notice, Notified};
use crate::text::same_text;
use vstd::prelude::*;

verus! {

/// What the rounds remember.
pub struct Background {
    notified: Notified,
    notified_day: String,
    last_backup_day: String,
}

/// The model of what the rounds remember.
pub struct BackgroundState {
    /// The keys of the reminders that were told.
    pub told: Set<Seq<char>>,
    /// The day on which they were told.
    pub told_day: Seq<char>,
    /// The day of the last backup.
    pub backup_day: Seq<char>,
}

impl View for Background {
    type V = BackgroundState;

    closed spec fn view(&self) -> BackgroundState {
        BackgroundState {
            told: self.notified@,
            told_day: self.notified_day@,
            backup_day: self.last_backup_day@,
        }
    }
}

/// What is remembered once a round has begun on the day `today`: what was told is
/// forgotten where the day is new.
pub open spec fn begun(s: BackgroundState, today: Seq<char>) -> BackgroundState {
    BackgroundState {
        told: if s.told_day == today {
            s.told
        } else {
            Set::empty()
        },
        told_day: today,
        backup_day: today,
    }
}

/// Whether a round that begins on the day `today` makes a backup.
pub open spec fn backs_up(s: BackgroundState, today: Seq<char>) -> bool {
    s.backup_day != today
}

/// What is remembered once the reminders of `data` were told.
pub open spec fn reminded(
    s: BackgroundState,
    data: JsonTree,
    today: Seq<char>,
    now: i64,
    weekday: u64,
) -> BackgroundState {
    BackgroundState {
        told: s.told.union(
            crate::reminders::keys(crate::reminders::due(data, today, now, weekday)),
        ),
        ..s
    }
}

impl Background {
    /// Nothing was told and no backup made.
    pub fn new() -> (r: Background)
        ensures
            r@ == (BackgroundState {
                told: Set::empty(),
                told_day: Seq::empty(),
                backup_day: Seq::empty(),
            }),
    {
        Background {
            notified: Notified::new(),
            notified_day: String::new(),
            last_backup_day: String::new(),
        }
    }

    /// Begins a round on the day `today`. True where the round makes a backup.
    pub fn begin(&mut self, today: &str) -> (backup: bool)
        ensures
            final(self)@ == begun(old(self)@, today@),
            backup == backs_up(old(self)@, today@),
    {
        let backup = !same_text(today, self.last_backup_day.as_str());
        if backup {
            self.last_backup_day = today.to_owned();
        }
        if !same_text(today, self.notified_day.as_str()) {
            self.notified_day = today.to_owned();
            self.notified.clear();
        }
        backup
    }

    /// Tells the reminders that are due and were not told yet.
    pub fn remind(&mut self, data: &Json, today: &str, now: &Moment) -> (r: Vec<Notice>)
        ensures
            crate::reminders::notice_texts(r@) == crate::reminders::notices_of(
                crate::reminders::fresh(
                    old(self)@.told,
                    crate::reminders::due(data@, today@, now.minute, now.weekday),
                ),
            ),
            final(self)@ == reminded(old(self)@, data@, today@, now.minute, now.weekday),
    {
        check_reminders(data, today, now, &mut self.notified)
    }
}

/// A day has one backup: the next round on the same day makes none, whatever was told
/// in between.
pub proof fn law_one_backup_a_day(
    s: BackgroundState,
    today: Seq<char>,
    data: JsonTree,
    now: i64,
    weekday: u64,
)
    ensures
        !backs_up(begun(s, today), today),
        !backs_up(reminded(begun(s, today), data, today, now, weekday), today),
{
}

/// A round on another day makes a backup and starts with nothing told.
pub proof fn law_new_day(s: BackgroundState, yesterday: Seq<char>, today: Seq<char>)
    requires
        yesterday != today,
    ensures
        backs_up(begun(s, yesterday), today),
        begun(begun(s, yesterday), today).told == Set::<Seq<char>>::empty(),
{
}

/// What was told stays told for the day, through every round of it.
pub proof fn law_told_for_the_day(
    s: BackgroundState,
    today: Seq<char>,
    data: JsonTree,
    now: i64,
    weekday: u64,
    key: Seq<char>,
)
    requires
        s.told_day == today,
        s.told.contains(key),
    ensures
        ({
            let t = reminded(begun(s, today), data, today, now, weekday);
            t.told_day == today && t.told.contains(key)
        }),
{
}

/// A reminder comes once a day: what one round told, the next round of the same day
/// does not tell again, at whatever minute it runs and whatever the data are by then.
pub proof fn law_told_once_a_day(
    s: BackgroundState,
    today: Seq<char>,
    data: JsonTree,
    now: i64,
    weekday: u64,
    data_later: JsonTree,
    now_later: i64,
    weekday_later: u64,
)
    ensures
        ({
            let first = crate::reminders::due(data, today, now, weekday);
            let next = begun(reminded(begun(s, today), data, today, now, weekday), today);
            let later = crate::reminders::fresh(
                next.told,
                crate::reminders::due(data_later, today, now_later, weekday_later),
            );
            forall|i: int|
                0 <= i < later.len() ==> !crate::reminders::keys(first).contains(
                    (#[trigger] later[i]).key,
                )
        }),
{
    let first = crate::reminders::due(data, today, now, weekday);
    crate::reminders::law_told_once(
        begun(s, today).told,
        first,
        crate::reminders::due(data_later, today, now_later, weekday_later),
    );
}

} // verus!
