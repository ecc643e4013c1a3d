use lumi_workbench::backups::{
    backup_steps, backups_to_remove, order_by_name, restore_actions, BackupStep, DirEntry, Restore,
    RestoreAction, RestoreStep, KEPT_BACKUPS,
};

fn dir(name: &str) -> DirEntry {
    DirEntry { name: name.as_bytes().to_vec(), is_dir: true }
}

fn file(name: &str) -> DirEntry {
    DirEntry { name: name.as_bytes().to_vec(), is_dir: false }
}

#[test]
fn the_order_of_names() {
    let entries = vec![dir("backup-2"), file("backup-0"), dir("other"), dir("backup-10"), dir("b")];
    assert_eq!(order_by_name(&entries, true), vec![3, 0]);
    assert_eq!(order_by_name(&entries, false), vec![4, 3, 0, 2]);
    assert!(order_by_name(&vec![], false).is_empty());
}

#[test]
fn equal_names_keep_their_places() {
    assert_eq!(order_by_name(&vec![dir("x"), dir("a"), dir("x")], false), vec![1, 0, 2]);
}

#[test]
fn names_that_are_no_text() {
    let entries = vec![
        DirEntry { name: b"backup-\xff".to_vec(), is_dir: true },
        DirEntry { name: b"\xffbackup-".to_vec(), is_dir: true },
        dir("backup-"),
        dir("backup"),
    ];
    assert_eq!(order_by_name(&entries, true), vec![2, 0]);
}

#[test]
fn few_backups_stay() {
    let entries: Vec<DirEntry> = (0..10).map(|i| dir(&format!("backup-{i}"))).collect();
    assert_eq!(entries.len(), KEPT_BACKUPS);
    assert!(backups_to_remove(&entries).is_empty());
}

#[test]
fn the_oldest_go() {
    let mut entries: Vec<DirEntry> =
        (0..13).rev().map(|i| dir(&format!("backup-17000000000{i:02}"))).collect();
    entries.push(dir("aaa"));
    entries.push(file("backup-0"));
    assert_eq!(backups_to_remove(&entries), vec![12, 11, 10]);
}

#[test]
fn the_latest_readable_backup_is_restored() {
    let entries = vec![dir("backup-1"), dir("backup-2"), file("backup-4"), dir("backup-3")];
    let mut search = Restore::new(&entries);
    assert!(matches!(search.first(), RestoreStep::Read(3)));
    assert!(matches!(search.next(Some("{broken")), RestoreStep::Read(1)));
    match search.next(Some("{\"a\":1}")) {
        RestoreStep::Use(i, j) => {
            assert_eq!(i, 1);
            assert_eq!(j.get("a").unwrap().as_u64(), Some(1));
        }
        _ => panic!(),
    }
}

#[test]
fn no_backup_is_readable() {
    let mut search = Restore::new(&vec![dir("a"), dir("b")]);
    assert!(matches!(search.next(None), RestoreStep::Read(0)));
    assert!(matches!(search.next(Some("")), RestoreStep::GiveUp));
    assert!(matches!(search.next(Some("{}")), RestoreStep::GiveUp));
    assert!(matches!(Restore::new(&vec![]).first(), RestoreStep::GiveUp));
}

#[test]
fn making_a_backup() {
    assert!(backup_steps(false, true).is_empty());
    assert!(backup_steps(false, false).is_empty());
    assert_eq!(
        backup_steps(true, false),
        vec![BackupStep::MakeDirectory, BackupStep::CopyData, BackupStep::Prune]
    );
    assert_eq!(
        backup_steps(true, true),
        vec![
            BackupStep::MakeDirectory,
            BackupStep::CopyData,
            BackupStep::ShareContent,
            BackupStep::Prune
        ]
    );
}

#[test]
fn contents_are_replaced_only_where_the_backup_has_some() {
    assert_eq!(restore_actions(false), vec![RestoreAction::WriteData]);
    assert_eq!(
        restore_actions(true),
        vec![RestoreAction::WriteData, RestoreAction::RemoveContent, RestoreAction::CopyContent]
    );
}
