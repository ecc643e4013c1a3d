use lumi_workbench::holidays::{holidays_of, kept_holidays, no_holidays, HolidayStep};
use lumi_workbench::json::Json;
use serde_json::Value;

fn json(text: &str) -> Json {
    Json::parse(text).unwrap()
}

fn value(text: &str) -> Value {
    serde_json::from_str(text).unwrap()
}

#[test]
fn a_year_of_holidays() {
    let reply = json(
        "{\"code\":0,\"holiday\":{\"01-01\":{\"holiday\":true,\"name\":\"元旦\",\"wage\":3},\
         \"01-26\":{\"holiday\":false,\"name\":\"补班\"},\"02-01\":{},\"02-02\":5}}",
    );
    let h = holidays_of(2025, Some(&reply));
    let expected = value(
        "{\"holiday\":{\"2025-01-01\":{\"holiday\":true,\"name\":\"元旦\"},\
         \"2025-01-26\":{\"holiday\":false,\"name\":\"补班\"},\
         \"2025-02-01\":{\"holiday\":false,\"name\":\"\"},\
         \"2025-02-02\":{\"holiday\":false,\"name\":\"\"}}}",
    );
    assert_eq!(h.shown.to_value(), expected);
    let kept = h.kept.unwrap();
    assert_eq!(Json::parse(&kept).unwrap().to_value(), expected);
    assert_eq!(kept, serde_json::to_string_pretty(&expected).unwrap());
}

#[test]
fn an_empty_year_is_kept() {
    let h = holidays_of(-1, Some(&json("{\"code\":0,\"holiday\":{}}")));
    assert_eq!(h.shown.to_value(), value("{\"holiday\":{}}"));
    assert!(h.kept.is_some());
    let h = holidays_of(-1, Some(&json("{\"code\":0,\"holiday\":{\"01-01\":{}}}")));
    assert!(h.shown.get("holiday").unwrap().get("-1-01-01").is_some());
}

#[test]
fn other_answers_show_none_and_keep_nothing() {
    for t in [
        "{}",
        "{\"code\":-1,\"holiday\":{}}",
        "{\"code\":0}",
        "{\"code\":0,\"holiday\":[]}",
        "{\"code\":\"0\",\"holiday\":{}}",
        "{\"code\":0.0,\"holiday\":{}}",
        "{\"holiday\":{}}",
        "[]",
    ] {
        let h = holidays_of(2025, Some(&json(t)));
        assert_eq!(h.shown.to_value(), value("{\"holiday\":{}}"), "{t}");
        assert!(h.kept.is_none(), "{t}");
    }
    assert_eq!(no_holidays().to_value(), value("{\"holiday\":{}}"));
}

#[test]
fn no_answer_shows_none() {
    let h = holidays_of(2025, None);
    assert_eq!(h.shown.to_value(), value("{\"holiday\":{}}"));
    assert!(h.kept.is_none());
}

#[test]
fn what_was_kept_is_shown_without_asking() {
    let reply = json("{\"code\":0,\"holiday\":{\"01-01\":{\"holiday\":true,\"name\":\"a\"}}}");
    let h = holidays_of(2025, Some(&reply));
    match kept_holidays(h.kept.as_deref()) {
        HolidayStep::Show(j) => assert_eq!(j.to_value(), h.shown.to_value()),
        HolidayStep::Ask => panic!(),
    }
    assert!(matches!(kept_holidays(None), HolidayStep::Ask));
    assert!(matches!(kept_holidays(Some("{")), HolidayStep::Ask));
}
