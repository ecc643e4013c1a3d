use lumi_workbench::copying::{
    copy_dir, copy_tree, shareable, CopyAction, CopyEntry, CopyEvent, CopyRun, EntryKind,
};

fn entry(id: u64, kind: EntryKind) -> CopyEntry {
    CopyEntry { id, kind }
}

fn name(a: CopyAction) -> String {
    match a {
        CopyAction::Open(i) => format!("open {i}"),
        CopyAction::Compare(i) => format!("compare {i}"),
        CopyAction::Link(i) => format!("link {i}"),
        CopyAction::Detach(i) => format!("detach {i}"),
        CopyAction::Copy(i) => format!("copy {i}"),
        CopyAction::Fail => "fail".to_string(),
        CopyAction::Finish => "finish".to_string(),
    }
}

fn drive(run: &mut CopyRun, events: Vec<CopyEvent>) -> Vec<String> {
    let mut seen = vec![name(run.action())];
    for e in events {
        run.report(e);
        seen.push(name(run.action()));
    }
    seen
}

#[test]
fn lengths_that_may_be_shared() {
    assert!(shareable(None, Some(5)));
    assert!(shareable(None, None));
    assert!(shareable(Some(5), Some(5)));
    assert!(!shareable(Some(5), Some(6)));
    assert!(!shareable(Some(5), None));
    assert!(!shareable(Some(u64::MAX), None));
}

#[test]
fn a_copy_of_its_own() {
    let mut run = copy_dir(0);
    let seen = drive(
        &mut run,
        vec![
            CopyEvent::Listed(vec![
                entry(1, EntryKind::File),
                entry(2, EntryKind::Dir),
                entry(3, EntryKind::File),
            ]),
            CopyEvent::Lengths(None, Some(5)),
            CopyEvent::Done,
            CopyEvent::Listed(vec![entry(4, EntryKind::File)]),
            CopyEvent::Lengths(Some(5), Some(5)),
            CopyEvent::Done,
            CopyEvent::Lengths(Some(4), Some(5)),
            CopyEvent::Done,
        ],
    );
    assert_eq!(
        seen,
        vec![
            "open 0", "compare 1", "copy 1", "open 2", "compare 4", "copy 4", "compare 3",
            "copy 3", "finish"
        ]
    );
}

#[test]
fn a_copy_of_its_own_gives_up_a_link_first() {
    let seen = drive(
        &mut copy_dir(0),
        vec![
            CopyEvent::Listed(vec![entry(1, EntryKind::File)]),
            CopyEvent::Same,
            CopyEvent::Done,
            CopyEvent::Done,
        ],
    );
    assert_eq!(seen, vec!["open 0", "compare 1", "detach 1", "copy 1", "finish"]);
    let seen = drive(
        &mut copy_dir(0),
        vec![
            CopyEvent::Listed(vec![entry(1, EntryKind::File)]),
            CopyEvent::Same,
            CopyEvent::Failed,
        ],
    );
    assert_eq!(seen, vec!["open 0", "compare 1", "detach 1", "fail"]);
}

#[test]
fn a_copy_that_shares() {
    let mut run = copy_tree(0, true);
    let seen = drive(
        &mut run,
        vec![
            CopyEvent::Listed(vec![
                entry(1, EntryKind::File),
                entry(2, EntryKind::File),
                entry(3, EntryKind::File),
            ]),
            CopyEvent::Lengths(None, Some(5)),
            CopyEvent::Done,
            CopyEvent::Lengths(Some(4), Some(5)),
            CopyEvent::Done,
            CopyEvent::Lengths(Some(5), Some(5)),
            CopyEvent::Failed,
            CopyEvent::Done,
        ],
    );
    assert_eq!(
        seen,
        vec![
            "open 0", "compare 1", "link 1", "compare 2", "copy 2", "compare 3", "link 3",
            "copy 3", "finish"
        ]
    );
}

#[test]
fn a_second_copy_that_shares_leaves_links_alone() {
    let seen = drive(
        &mut copy_tree(0, true),
        vec![
            CopyEvent::Listed(vec![entry(1, EntryKind::File), entry(2, EntryKind::Dir)]),
            CopyEvent::Same,
            CopyEvent::Listed(vec![entry(3, EntryKind::File)]),
            CopyEvent::Same,
        ],
    );
    assert_eq!(seen, vec!["open 0", "compare 1", "open 2", "compare 3", "finish"]);
}

#[test]
fn failures_end_the_copy() {
    assert_eq!(drive(&mut copy_dir(0), vec![CopyEvent::Failed]), vec!["open 0", "fail"]);
    let listed = || CopyEvent::Listed(vec![entry(1, EntryKind::File), entry(2, EntryKind::Unknown)]);
    let compared = || CopyEvent::Lengths(None, None);
    assert_eq!(
        drive(&mut copy_dir(0), vec![listed(), compared(), CopyEvent::Failed, CopyEvent::Done]),
        vec!["open 0", "compare 1", "copy 1", "fail", "fail"]
    );
    assert_eq!(
        drive(&mut copy_dir(0), vec![listed(), compared(), CopyEvent::Done, CopyEvent::Done]),
        vec!["open 0", "compare 1", "copy 1", "fail", "fail"]
    );
    assert_eq!(
        drive(&mut copy_dir(0), vec![listed(), CopyEvent::Failed]),
        vec!["open 0", "compare 1", "fail"]
    );
}

#[test]
fn an_event_that_was_not_asked_for_ends_the_copy() {
    assert_eq!(drive(&mut copy_dir(0), vec![CopyEvent::Done]), vec!["open 0", "fail"]);
}

#[test]
fn a_finished_copy_stays_finished() {
    let seen = drive(&mut copy_dir(0), vec![CopyEvent::Listed(vec![]), CopyEvent::Failed]);
    assert_eq!(seen, vec!["open 0", "finish", "finish"]);
}
