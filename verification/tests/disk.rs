use std::collections::HashMap;

use lumi_workbench::backups::{restore_actions, RestoreAction};
use lumi_workbench::copying::{
    copy_dir, copy_tree, CopyAction, CopyEntry, CopyEvent, CopyRun, EntryKind,
};

/// Names that lead to data.
#[derive(Default)]
struct Disk {
    names: HashMap<String, usize>,
    data: Vec<String>,
    links: bool,
}

impl Disk {
    fn with(files: &[(&str, &str)]) -> Disk {
        let mut d = Disk { links: true, ..Disk::default() };
        for (name, text) in files {
            d.write(name, text);
        }
        d
    }

    fn write(&mut self, name: &str, text: &str) {
        match self.names.get(name) {
            Some(i) => self.data[*i] = text.to_string(),
            None => {
                self.names.insert(name.to_string(), self.data.len());
                self.data.push(text.to_string());
            }
        }
    }

    fn read(&self, name: &str) -> Option<&str> {
        self.names.get(name).map(|i| self.data[*i].as_str())
    }

    fn share(&self, a: &str, b: &str) -> bool {
        self.names.contains_key(a) && self.names.get(a) == self.names.get(b)
    }

    fn link(&mut self, from: &str, to: &str) -> bool {
        if !self.links || self.names.contains_key(to) {
            return false;
        }
        let place = self.names[from];
        self.names.insert(to.to_string(), place);
        true
    }

    fn copy(&mut self, from: &str, to: &str) {
        let text = if self.share(from, to) { "" } else { self.read(from).unwrap() };
        let text = text.to_string();
        self.write(to, &text);
    }

    /// Copies the files `names` of one directory to another.
    fn perform(&mut self, mut run: CopyRun, from: &str, to: &str, names: &[&str]) {
        let src = |id: u64| format!("{from}/{}", names[id as usize - 1]);
        let dst = |id: u64| format!("{to}/{}", names[id as usize - 1]);
        loop {
            let event = match run.action() {
                CopyAction::Finish => return,
                CopyAction::Fail => panic!("the copy failed"),
                CopyAction::Open(_) => CopyEvent::Listed(
                    (1..=names.len() as u64)
                        .map(|id| CopyEntry { id, kind: EntryKind::File })
                        .collect(),
                ),
                CopyAction::Compare(id) => {
                    let length = |t: &str| t.len() as u64;
                    if self.share(&src(id), &dst(id)) {
                        CopyEvent::Same
                    } else {
                        CopyEvent::Lengths(
                            self.read(&dst(id)).map(length),
                            self.read(&src(id)).map(length),
                        )
                    }
                }
                CopyAction::Link(id) => {
                    if self.link(&src(id), &dst(id)) {
                        CopyEvent::Done
                    } else {
                        CopyEvent::Failed
                    }
                }
                CopyAction::Detach(id) => {
                    self.names.remove(&dst(id));
                    CopyEvent::Done
                }
                CopyAction::Copy(id) => {
                    self.copy(&src(id), &dst(id));
                    CopyEvent::Done
                }
            };
            run.report(event);
        }
    }
}

#[test]
fn a_first_copy_that_shares_links_everything() {
    let mut d = Disk::with(&[("a/1", "one"), ("a/2", "two")]);
    d.perform(copy_tree(0, true), "a", "b", &["1", "2"]);
    assert!(d.share("a/1", "b/1") && d.share("a/2", "b/2"));
    assert_eq!(d.data.len(), 2);
}

#[test]
fn a_second_copy_that_shares_loses_nothing() {
    for links in [true, false] {
        let mut d = Disk::with(&[("a/1", "one"), ("a/2", "two")]);
        d.links = links;
        for _ in 0..2 {
            d.perform(copy_tree(0, true), "a", "b", &["1", "2"]);
            for dir in ["a", "b"] {
                assert_eq!(d.read(&format!("{dir}/1")), Some("one"));
                assert_eq!(d.read(&format!("{dir}/2")), Some("two"));
            }
            assert_eq!(d.share("a/1", "b/1"), links);
        }
    }
}

#[test]
fn a_copy_of_its_own_shares_nothing() {
    let mut d = Disk::with(&[("a/1", "one"), ("a/2", "two"), ("b/2", "old")]);
    assert!(d.link("a/1", "b/1"));
    d.perform(copy_dir(0), "a", "b", &["1", "2"]);
    assert!(!d.share("a/1", "b/1") && !d.share("a/2", "b/2"));
    assert_eq!(d.read("a/1"), Some("one"));
    assert_eq!(d.read("b/1"), Some("one"));
    assert_eq!(d.read("b/2"), Some("two"));
}

#[test]
fn a_backup_gives_back_what_it_holds() {
    let mut d = Disk::with(&[
        ("data", "{damaged"),
        ("backup/data", "{}"),
        ("content/1", "new"),
        ("content/3", "three"),
        ("backup/content/2", "two"),
    ]);
    d.perform(copy_tree(0, true), "content", "backup/content", &["1"]);
    for action in restore_actions(true) {
        match action {
            RestoreAction::WriteData => {
                let text = d.read("backup/data").unwrap().to_string();
                d.write("data", &text);
            }
            RestoreAction::RemoveContent => d.names.retain(|n, _| !n.starts_with("content/")),
            RestoreAction::CopyContent => {
                d.perform(copy_dir(0), "backup/content", "content", &["1", "2"])
            }
        }
    }
    assert_eq!(d.read("data"), Some("{}"));
    assert_eq!(d.read("content/1"), Some("new"));
    assert_eq!(d.read("content/2"), Some("two"));
    assert_eq!(d.read("content/3"), None);
    assert!(!d.share("content/1", "backup/content/1"));
    assert_eq!(d.read("backup/content/1"), Some("new"));
    assert_eq!(d.read("backup/data"), Some("{}"));
}
