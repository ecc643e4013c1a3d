use lumi_workbench::background::Background;
use lumi_workbench::calendar::Moment;
use lumi_workbench::json::Json;
use lumi_workbench::reminders::{
    advance_minutes, check_reminders, is_due, minutes_of_day, startup_reminder, Notice, Notified,
};

fn json(text: &str) -> Json {
    Json::parse(text).unwrap()
}

fn at(minute: i64, weekday: u64) -> Moment {
    Moment { today: "2025-06-02".to_string(), minute, weekday }
}

fn shown(notices: &[Notice]) -> Vec<String> {
    notices.iter().map(|n| format!("{}|{}", n.title, n.body)).collect()
}

fn check(data: &str, minute: i64, weekday: u64) -> Vec<String> {
    let mut told = Notified::new();
    shown(&check_reminders(&json(data), "2025-06-02", &at(minute, weekday), &mut told))
}

#[test]
fn clock_times() {
    assert_eq!(minutes_of_day("09:05"), 545);
    assert_eq!(minutes_of_day("00:00"), 0);
    assert_eq!(minutes_of_day("23:59"), 1439);
    assert_eq!(minutes_of_day("9"), 540);
    assert_eq!(minutes_of_day("9:5:59"), 545);
    assert_eq!(minutes_of_day(""), 0);
    assert_eq!(minutes_of_day("x:30"), 30);
    assert_eq!(minutes_of_day("9:x"), 540);
    assert_eq!(minutes_of_day("-1:30"), -30);
    assert_eq!(minutes_of_day("9223372036854775807:0"), i64::MAX.wrapping_mul(60));
}

#[test]
fn window_of_a_reminder() {
    assert!(!is_due(539, 540));
    assert!(is_due(540, 540));
    assert!(is_due(570, 540));
    assert!(!is_due(571, 540));
}

#[test]
fn advance_is_read_from_the_settings() {
    assert_eq!(advance_minutes(&json("{\"settings\":{\"reminderAdvanceMinutes\":15}}")), 15);
    assert_eq!(advance_minutes(&json("{\"settings\":{\"reminderAdvanceMinutes\":\"15\"}}")), 0);
    assert_eq!(advance_minutes(&json("{\"settings\":[]}")), 0);
    assert_eq!(advance_minutes(&json("{}")), 0);
}

#[test]
fn a_due_task() {
    let data = "{\"tasks\":[{\"id\":\"1\",\"date\":\"2025-06-02\",\"time\":\"09:00\",\"title\":\"写作\"}]}";
    assert_eq!(check(data, 540, 1), vec!["待办提醒|09:00 · 写作"]);
    assert_eq!(check(data, 570, 1).len(), 1);
    assert!(check(data, 571, 1).is_empty());
    assert!(check(data, 539, 1).is_empty());
}

#[test]
fn tasks_that_stay_silent() {
    for t in [
        "{\"id\":\"1\",\"date\":\"2025-06-03\",\"time\":\"09:00\"}",
        "{\"id\":\"1\",\"date\":\"2025-06-02\",\"time\":\"09:00\",\"done\":true}",
        "{\"date\":\"2025-06-02\",\"time\":\"09:00\"}",
        "{\"id\":1,\"date\":\"2025-06-02\",\"time\":\"09:00\"}",
        "{\"id\":\"1\",\"date\":\"2025-06-02\"}",
        "[]",
    ] {
        assert!(check(&format!("{{\"tasks\":[{t}]}}"), 540, 1).is_empty(), "{t}");
    }
    let open = "{\"tasks\":[{\"id\":\"1\",\"date\":\"2025-06-02\",\"time\":\"09:00\",\"done\":\"yes\"}]}";
    assert_eq!(check(open, 540, 1), vec!["待办提醒|09:00 · "]);
}

#[test]
fn the_advance_moves_tasks_and_appointments_but_not_supplements() {
    let data = "{\"settings\":{\"reminderAdvanceMinutes\":10},\
        \"tasks\":[{\"id\":\"1\",\"date\":\"2025-06-02\",\"time\":\"09:00\",\"title\":\"a\"}],\
        \"schedule\":[{\"id\":\"1\",\"date\":\"2025-06-02\",\"time\":\"09:00\",\"title\":\"b\"}],\
        \"supplements\":[{\"id\":\"1\",\"name\":\"c\",\"times\":[\"09:00\"]}]}";
    assert_eq!(check(data, 530, 1), vec!["待办提醒|09:00 · a", "日程提醒|09:00 · b"]);
    assert_eq!(
        check(data, 560, 1),
        vec!["待办提醒|09:00 · a", "日程提醒|09:00 · b", "补剂提醒|09:00 · c"]
    );
    assert_eq!(check(data, 561, 1), vec!["补剂提醒|09:00 · c"]);
}

#[test]
fn supplements() {
    let with = |rest: &str| {
        format!("{{\"supplements\":[{{\"id\":\"7\",\"name\":\"鱼油\",\"times\":[\"08:00\",8,\"08:10\"]{rest}}}]}}")
    };
    assert_eq!(check(&with(""), 490, 0), vec!["补剂提醒|08:00 · 鱼油", "补剂提醒|08:10 · 鱼油"]);
    assert_eq!(check(&with(",\"dose\":\"1粒\""), 480, 0), vec!["补剂提醒|08:00 · 鱼油 · 1粒"]);
    assert!(check(&with(",\"enabled\":false"), 490, 0).is_empty());
    assert_eq!(check(&with(",\"weekdays\":[]"), 480, 3).len(), 1);
    assert_eq!(check(&with(",\"weekdays\":[1,3]"), 480, 3).len(), 1);
    assert!(check(&with(",\"weekdays\":[1,3]"), 480, 2).is_empty());
    assert!(check(&with(",\"weekdays\":[\"2\",2.0]"), 480, 2).is_empty());
    assert_eq!(
        check(&with(",\"logs\":{\"2025-06-02\":[\"08:00\",5]}"), 490, 0),
        vec!["补剂提醒|08:10 · 鱼油"]
    );
    assert_eq!(check(&with(",\"logs\":{\"2025-06-01\":[\"08:00\"]}"), 490, 0).len(), 2);
    assert!(check("{\"supplements\":[{\"id\":\"7\",\"times\":[\"08:00\"]}]}", 480, 0).is_empty());
    assert!(check("{\"supplements\":[{\"id\":\"7\",\"name\":\"x\"}]}", 480, 0).is_empty());
}

#[test]
fn a_reminder_is_told_once() {
    let data = json(
        "{\"tasks\":[{\"id\":\"1\",\"date\":\"2025-06-02\",\"time\":\"09:00\",\"title\":\"a\"},\
         {\"id\":\"1\",\"date\":\"2025-06-02\",\"time\":\"09:01\",\"title\":\"b\"}],\
         \"schedule\":[{\"id\":\"1\",\"date\":\"2025-06-02\",\"time\":\"09:02\",\"title\":\"c\"}]}",
    );
    let mut told = Notified::new();
    let first = check_reminders(&data, "2025-06-02", &at(545, 1), &mut told);
    assert_eq!(shown(&first), vec!["待办提醒|09:00 · a", "日程提醒|09:02 · c"]);
    assert!(told.contains("1") && told.contains("s-1") && !told.contains("2"));
    assert!(check_reminders(&data, "2025-06-02", &at(546, 1), &mut told).is_empty());
    told.clear();
    assert_eq!(check_reminders(&data, "2025-06-02", &at(546, 1), &mut told).len(), 2);
}

#[test]
fn keys_of_supplements_name_the_time() {
    let data = json("{\"supplements\":[{\"id\":\"7\",\"name\":\"x\",\"times\":[\"08:00\"]}]}");
    let mut told = Notified::new();
    check_reminders(&data, "2025-06-02", &at(480, 1), &mut told);
    assert!(told.contains("supp-7-08:00"));
}

#[test]
fn a_key_that_two_lists_share_is_told_once() {
    let data = "{\"tasks\":[{\"id\":\"s-1\",\"date\":\"2025-06-02\",\"time\":\"09:00\",\"title\":\"a\"}],\
        \"schedule\":[{\"id\":\"1\",\"date\":\"2025-06-02\",\"time\":\"09:00\",\"title\":\"b\"}]}";
    assert_eq!(check(data, 540, 1), vec!["待办提醒|09:00 · a"]);
}

#[test]
fn notice_at_start() {
    let body = |data: &str| startup_reminder(&json(data), "2025-06-02").map(|n| (n.title, n.body));
    let title = "月蓝琉璃工作台".to_string();
    let day = "{\"date\":\"2025-06-02\"}";
    let done = "{\"date\":\"2025-06-02\",\"done\":true}";
    let other = "{\"date\":\"2025-06-01\"}";
    assert_eq!(body("{}"), None);
    assert_eq!(body(&format!("{{\"tasks\":[{done},{other}],\"schedule\":[{other}]}}")), None);
    assert_eq!(
        body(&format!("{{\"tasks\":[{day},{done},{day}]}}")),
        Some((title.clone(), "今天还有 2 件待办".to_string()))
    );
    assert_eq!(
        body(&format!("{{\"schedule\":[{done}]}}")),
        Some((title.clone(), "今天还有 1 项日程".to_string()))
    );
    assert_eq!(
        body(&format!("{{\"tasks\":[{day}],\"schedule\":[{day},{day}]}}")),
        Some((title, "今天还有 1 件待办、2 项日程".to_string()))
    );
}

#[test]
fn one_backup_a_day() {
    let mut b = Background::new();
    assert!(b.begin("2025-06-02"));
    assert!(!b.begin("2025-06-02"));
    assert!(b.begin("2025-06-03"));
    assert!(b.begin("2025-06-02"));
}

#[test]
fn a_new_day_forgets_what_was_told() {
    let data = json("{\"supplements\":[{\"id\":\"7\",\"name\":\"x\",\"times\":[\"08:00\"]}]}");
    let mut b = Background::new();
    b.begin("2025-06-02");
    assert_eq!(b.remind(&data, "2025-06-02", &at(480, 1)).len(), 1);
    b.begin("2025-06-02");
    assert!(b.remind(&data, "2025-06-02", &at(481, 1)).is_empty());
    b.begin("2025-06-03");
    assert_eq!(b.remind(&data, "2025-06-03", &at(480, 2)).len(), 1);
}

#[test]
fn moments() {
    let m = Moment::at(2024, 2, 29, 9, 5).unwrap();
    assert_eq!(m.today, "2024-02-29");
    assert_eq!(m.minute, 545);
    assert_eq!(m.weekday, 4);
    assert_eq!(Moment::at(2025, 6, 1, 0, 0).unwrap().weekday, 0);
    assert_eq!(Moment::at(2025, 6, 7, 23, 59).unwrap().weekday, 6);
    assert_eq!(Moment::at(2025, 6, 7, 23, 59).unwrap().minute, 1439);
    assert!(Moment::at(2025, 2, 29, 0, 0).is_none());
    assert!(Moment::at(1900, 2, 29, 0, 0).is_none());
    assert!(Moment::at(2000, 2, 29, 0, 0).is_some());
    assert!(Moment::at(2025, 4, 31, 0, 0).is_none());
    assert!(Moment::at(2025, 13, 1, 0, 0).is_none());
    assert!(Moment::at(2025, 0, 1, 0, 0).is_none());
    assert!(Moment::at(2025, 1, 0, 0, 0).is_none());
}

#[test]
fn years_far_away() {
    assert_eq!(Moment::at(7, 1, 2, 0, 0).unwrap().today, "0007-01-02");
    assert_eq!(Moment::at(0, 1, 2, 0, 0).unwrap().today, "0000-01-02");
    assert_eq!(Moment::at(-4, 2, 29, 0, 0).unwrap().today, "-0004-02-29");
    assert_eq!(Moment::at(12345, 1, 2, 0, 0).unwrap().today, "+12345-01-02");
    assert!(Moment::at(262142, 12, 31, 0, 0).is_some());
    assert!(Moment::at(262143, 1, 1, 0, 0).is_none());
    assert!(Moment::at(-262143, 1, 1, 0, 0).is_some());
    assert!(Moment::at(-262144, 12, 31, 0, 0).is_none());
}

#[test]
fn weekdays() {
    for (year, month, day, weekday) in [
        (1970, 1, 1, 4),
        (2000, 1, 1, 6),
        (2000, 2, 29, 2),
        (2000, 12, 31, 0),
        (1900, 2, 28, 3),
        (1900, 3, 1, 4),
        (1, 1, 1, 1),
        (0, 12, 31, 0),
    ] {
        assert_eq!(Moment::at(year, month, day, 0, 0).unwrap().weekday, weekday);
    }
}

#[test]
fn weekdays_follow_each_other() {
    for start in [-262143, -1201, -1, 1899, 1999, 262140] {
        let mut last: Option<u64> = None;
        for year in start..start + 3 {
            for month in 1..13 {
                for day in 1..32 {
                    if let Some(m) = Moment::at(year, month, day, 0, 0) {
                        if let Some(w) = last {
                            assert_eq!(m.weekday, (w + 1) % 7);
                        }
                        last = Some(m.weekday);
                    }
                }
            }
        }
    }
}

#[test]
fn weekdays_of_all_years_by_counting() {
    for year in -262143i32..=262142 {
        let y = year as i64 - 1;
        let count = 365 * y + y.div_euclid(4) - y.div_euclid(100) + y.div_euclid(400) + 1;
        let m = Moment::at(year, 1, 1, 0, 0).unwrap();
        assert_eq!(m.weekday as i64, count.rem_euclid(7), "{year}");
    }
}
