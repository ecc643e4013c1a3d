use lumi_workbench::names::{
    backup_name, content_file_name, content_temporary_name, holiday_file_name, holiday_url,
    select_argument,
};
use lumi_workbench::shell::{
    click_shows, close_action, export_filter, menu_action, show_steps, takes_over, CloseAction,
    MenuAction, WindowStep,
};

#[test]
fn names_of_files() {
    assert_eq!(content_file_name("book", "1"), "book-1.txt");
    assert_eq!(content_temporary_name("doc", "月"), "doc-月.txt.tmp");
    assert_eq!(backup_name(1700000000123), "backup-1700000000123");
    assert_eq!(backup_name(0), "backup-0");
    assert_eq!(holiday_file_name(2025), "holidays-2025.json");
    assert_eq!(holiday_file_name(-5), "holidays--5.json");
    assert_eq!(holiday_url(2025), "https://timor.tech/api/holiday/year/2025");
    assert_eq!(select_argument("C:\\a b"), "/select,C:\\a b");
}

#[test]
fn later_backups_have_later_names() {
    assert!(backup_name(1700000000123) < backup_name(1700000000124));
    assert!(backup_name(1700000000999) < backup_name(1700000001000));
}

#[test]
fn formats_of_export() {
    assert_eq!(export_filter("md"), ("Markdown", "md"));
    assert_eq!(export_filter("txt"), ("文本文件", "txt"));
    assert_eq!(export_filter("json"), ("JSON", "json"));
    assert_eq!(export_filter("MD"), ("JSON", "json"));
    assert_eq!(export_filter(""), ("JSON", "json"));
}

#[test]
fn items_of_the_menu() {
    assert_eq!(menu_action("show"), MenuAction::Show);
    assert_eq!(menu_action("quit"), MenuAction::Quit);
    assert_eq!(menu_action("other"), MenuAction::Nothing);
}

#[test]
fn closing_the_window() {
    assert_eq!(close_action(false), CloseAction::Hide);
    assert_eq!(close_action(true), CloseAction::Close);
}

#[test]
fn bringing_the_window_to_the_front() {
    let raise =
        [WindowStep::Show, WindowStep::KeepOnTop, WindowStep::Focus, WindowStep::ReleaseLater];
    assert_eq!(show_steps(Some(false)), raise);
    assert_eq!(show_steps(None), raise);
    let steps = show_steps(Some(true));
    assert_eq!(steps[0], WindowStep::Unminimize);
    assert_eq!(&steps[1..], raise);
}

#[test]
fn clicks_on_the_tray() {
    assert!(click_shows(true, true));
    assert!(!click_shows(true, false));
    assert!(!click_shows(false, true));
}

#[test]
fn taking_over_earlier_data() {
    assert!(takes_over(false, true));
    assert!(!takes_over(true, true));
    assert!(!takes_over(false, false));
}
