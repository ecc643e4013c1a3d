use lumi_workbench::files::{write_content, write_data, FileStep};
use lumi_workbench::json::Json;
use lumi_workbench::store::{
    book_contents, document_contents, get_content, load_data, preview, read_data, restored_data,
    save_data, split_content, ContentWrite, LoadStep,
};
use serde_json::Value;

fn json(text: &str) -> Json {
    Json::parse(text).unwrap()
}

fn value(text: &str) -> Value {
    serde_json::from_str(text).unwrap()
}

fn named(writes: &[ContentWrite]) -> Vec<(&str, &str, &str)> {
    writes.iter().map(|w| (w.kind, w.id.as_str(), w.content.as_str())).collect()
}

const DATA: &str = "{\"books\":[{\"id\":\"1\",\"content\":\"one\",\"title\":\"t\"},\
    {\"id\":\"\",\"content\":\"no id\"},{\"id\":\"2\",\"content\":\"\"},{\"id\":\"3\",\"content\":\"three\"},7],\
    \"documents\":[{\"id\":\"9\",\"content\":\"nine\"},{\"id\":\"8\",\"content\":5}],\"notes\":[{\"id\":\"5\",\"content\":\"x\"}]}";

#[test]
fn contents_that_go_to_files() {
    let data = json(DATA);
    assert_eq!(named(&book_contents(&data)), vec![("book", "1", "one"), ("book", "3", "three")]);
    assert_eq!(named(&document_contents(&data)), vec![("doc", "9", "nine")]);
    assert!(book_contents(&json("{\"books\":{}}")).is_empty());
    assert!(book_contents(&json("[]")).is_empty());
}

#[test]
fn written_contents_leave_a_preview() {
    let split = split_content(json(DATA), &vec![true, true], &vec![true]);
    let expected = "{\"books\":[{\"id\":\"1\",\"content\":\"\",\"preview\":\"one\",\"title\":\"t\"},\
        {\"id\":\"\",\"content\":\"no id\"},{\"id\":\"2\",\"content\":\"\"},\
        {\"id\":\"3\",\"content\":\"\",\"preview\":\"three\"},7],\
        \"documents\":[{\"id\":\"9\",\"content\":\"\",\"preview\":\"nine\"},{\"id\":\"8\",\"content\":5}],\
        \"notes\":[{\"id\":\"5\",\"content\":\"x\"}]}";
    assert_eq!(split.to_value(), value(expected));
    assert!(book_contents(&split).is_empty());
    assert!(document_contents(&split).is_empty());
}

#[test]
fn contents_that_were_not_written_stay() {
    let split = split_content(json(DATA), &vec![false, false], &vec![false]);
    assert_eq!(split.to_value(), value(DATA));
    let split = split_content(json(DATA), &vec![], &vec![]);
    assert_eq!(split.to_value(), value(DATA));
    let split = split_content(json(DATA), &vec![false, true], &vec![false]);
    assert_eq!(named(&book_contents(&split)), vec![("book", "1", "one")]);
    assert_eq!(named(&document_contents(&split)), vec![("doc", "9", "nine")]);
}

#[test]
fn data_of_another_shape_stay() {
    for t in ["5", "[]", "{\"books\":5,\"documents\":{\"a\":1}}", "null"] {
        assert_eq!(split_content(json(t), &vec![true], &vec![true]).to_value(), value(t));
    }
}

#[test]
fn previews_count_characters() {
    assert_eq!(preview("短"), "短");
    assert_eq!(preview(""), "");
    let exact = "月".repeat(200);
    assert_eq!(preview(&exact), exact);
    assert_eq!(preview(&format!("{exact}蓝")), exact);
}

#[test]
fn what_is_saved_is_loaded() {
    let saved = save_data(json(DATA), &vec![true, false], &vec![true]);
    let expected = split_content(json(DATA), &vec![true, false], &vec![true]).to_value();
    assert_eq!(value(&saved.text), expected);
    match load_data(true, Some(&saved.text)) {
        LoadStep::Done(r) => {
            assert!(!r.restored);
            assert_eq!(r.data.unwrap().to_value(), expected);
        }
        LoadStep::Restore => panic!(),
    }
}

#[test]
fn any_key_is_saved_and_loaded() {
    for key in ["$serde_json::private::Number", "$serde_json::private::RawValue", ""] {
        let text = format!("{{\"{key}\":\"1\",\"x\":{{\"{key}\":\"[1]\"}}}}");
        let saved = save_data(json(&text), &vec![], &vec![]);
        match load_data(true, Some(&saved.text)) {
            LoadStep::Done(r) => {
                let j = r.data.unwrap();
                assert_eq!(j.str_at(key), Some("1"));
                assert_eq!(j.get("x").unwrap().str_at(key), Some("[1]"));
            }
            LoadStep::Restore => panic!(),
        }
    }
}

#[test]
fn start_with_the_system() {
    let auto = |t: &str| save_data(json(t), &vec![], &vec![]).auto_launch;
    assert!(auto("{}"));
    assert!(auto("{\"settings\":{\"autoLaunch\":true}}"));
    assert!(!auto("{\"settings\":{\"autoLaunch\":false}}"));
    assert!(auto("{\"settings\":{\"autoLaunch\":0}}"));
    assert!(auto("{\"settings\":5}"));
}

#[test]
fn loading() {
    let done = |exists: bool, raw: Option<&str>| match load_data(exists, raw) {
        LoadStep::Done(r) => Some((r.data.map(|j| j.to_value()), r.restored)),
        LoadStep::Restore => None,
    };
    assert_eq!(done(false, None), Some((None, false)));
    assert_eq!(done(false, Some("{}")), Some((None, false)));
    assert_eq!(done(true, None), Some((None, false)));
    assert_eq!(done(true, Some("{\"a\":1}")), Some((Some(value("{\"a\":1}")), false)));
    assert_eq!(done(true, Some("{\"a\":")), None);
    assert_eq!(done(true, Some("")), None);
}

#[test]
fn the_end_of_restoring() {
    let r = restored_data(Some(json("[1]")));
    assert!(r.restored);
    assert_eq!(r.data.unwrap().to_value(), value("[1]"));
    let r = restored_data(None);
    assert!(!r.restored);
    assert!(r.data.is_none());
}

#[test]
fn reading_data() {
    assert_eq!(read_data(Some("[1]")).unwrap().to_value(), value("[1]"));
    assert!(read_data(Some("[1")).is_none());
    assert!(read_data(None).is_none());
}

#[test]
fn content_that_cannot_be_read_is_empty() {
    assert_eq!(get_content(true, Some("x".to_string())), "x");
    assert_eq!(get_content(true, None), "");
    assert_eq!(get_content(false, None), "");
    assert_eq!(get_content(false, Some("x".to_string())), "");
}

#[test]
fn files_are_written_beside_their_place() {
    let steps = write_content("book", "1", "text".to_string());
    assert_eq!(steps.len(), 2);
    assert!(matches!(&steps[0], FileStep::Write(n, t) if n == "book-1.txt.tmp" && t == "text"));
    assert!(matches!(&steps[1], FileStep::Rename(a, b) if a == "book-1.txt.tmp" && b == "book-1.txt"));
    let steps = write_data("{}".to_string());
    assert_eq!(steps.len(), 2);
    assert!(matches!(&steps[0], FileStep::Write(n, t) if n == "workbench-data.json.tmp" && t == "{}"));
    assert!(matches!(&steps[1], FileStep::Rename(a, b)
        if a == "workbench-data.json.tmp" && b == "workbench-data.json"));
}
