//! Laws on backups, copies and the window: the order of names, what is removed, what is
//! restored, how a copy goes on and fails, and how the window comes to the front.
use crate::backups::{BackupStep, DirEntry, RestoreModel};
use crate::copying::{CopyAction, CopyEntry, CopyOutcome, CopyState, EntryKind};
use crate::shell::WindowStep;
use vstd::prelude::*;

verus! {

/// Names are in the order of their bytes: the first byte in which they differ decides,
/// and a name comes before any longer one that begins with it.
pub proof fn law_byte_order(p: Seq<u8>, x: u8, a: Seq<u8>, y: u8, b: Seq<u8>)
    ensures
        x != y ==> crate::backups::name_before(p + seq![x] + a, p + seq![y] + b) == (x < y),
        crate::backups::name_before(p, p + seq![x] + a),
        !crate::backups::name_before(p + seq![x] + a, p),
        !crate::backups::name_before(p, p),
    decreases p.len(),
{
    let s = p + seq![x] + a;
    let t = p + seq![y] + b;
    if p.len() > 0 {
        let q = p.skip(1);
        law_byte_order(q, x, a, y, b);
        assert(s.skip(1) =~= q + seq![x] + a);
        assert(t.skip(1) =~= q + seq![y] + b);
        assert(s[0] == p[0] && t[0] == p[0]);
    } else {
        assert(s[0] == x && t[0] == y);
    }
}

/// Whether the seven bytes with which a name begins are those of `backup-`.
pub open spec fn begins_as_backup(name: Seq<u8>) -> bool {
    &&& name.len() >= 7
    &&& name[0] == 98 && name[1] == 97 && name[2] == 99 && name[3] == 107 && name[4] == 117
        && name[5] == 112
    &&& name[6] == 45
}

/// A backup is a directory whose name begins with `backup-`; restoring looks at every
/// directory.
pub proof fn law_backup(e: DirEntry)
    ensures
        crate::backups::counts(e, true) <==> e.is_dir && begins_as_backup(e.name@),
        crate::backups::is_backup(e) <==> e.is_dir && begins_as_backup(e.name@),
        crate::backups::counts(e, false) <==> e.is_dir,
{
    reveal_strlit("backup-");
    let p = crate::backups::ascii("backup-"@);
    assert(p =~= seq![98u8, 97u8, 99u8, 107u8, 117u8, 112u8, 45u8]);
    let name = e.name@;
    if name.len() >= 7 {
        let front = name.subrange(0, 7);
        assert(front[0] == name[0] && front[1] == name[1] && front[2] == name[2] && front[3]
            == name[3] && front[4] == name[4] && front[5] == name[5] && front[6] == name[6]);
        if begins_as_backup(name) {
            assert(front =~= p);
        }
    }
}

/// An order has each directory that counts once, by name, and those of one name by
/// position.
pub proof fn law_order(
    entries: Seq<DirEntry>,
    named: bool,
    order: Seq<usize>,
    i: usize,
    k: int,
    l: int,
)
    requires
        crate::backups::is_order(entries, named, order),
    ensures
        order.contains(i) <==> i < entries.len() && entries[i as int].is_dir && (named
            ==> begins_as_backup(entries[i as int].name@)),
        0 <= k < l < order.len() ==> {
            let a = entries[order[k] as int].name@;
            let b = entries[order[l] as int].name@;
            crate::backups::name_before(a, b) || (a == b && order[k] < order[l])
        },
{
    if i < entries.len() {
        law_backup(entries[i as int]);
    }
    if order.contains(i) {
        let m = choose|m: int| 0 <= m < order.len() && order[m] == i;
        assert(order[m] < entries.len());
    }
    if 0 <= k < l < order.len() {
        assert(crate::backups::entry_before(entries, order[k], order[l]));
    }
}

/// What is removed are the first of the order, so many that ten are left, and none where
/// there are no more than ten.
pub proof fn law_surplus(order: Seq<usize>)
    ensures
        ({
            let gone = crate::backups::surplus(order);
            &&& order.len() <= 10 ==> gone.len() == 0
            &&& order.len() > 10 ==> gone.len() == order.len() - 10
            &&& forall|k: int| 0 <= k < gone.len() ==> #[trigger] gone[k] == order[k]
        }),
{
}

/// Without a data file nothing is done for a backup. With one its directory is made
/// first, the data file is copied, the contents are shared where there are any, and the
/// old backups are removed last.
pub proof fn law_backup_steps(data: bool, content: bool)
    ensures
        ({
            let steps = crate::backups::steps_of_backup(data, content);
            &&& !data ==> steps.len() == 0
            &&& data ==> steps.len() == (if content {
                4int
            } else {
                3int
            })
            &&& data ==> steps[0] == BackupStep::MakeDirectory && steps[1] == BackupStep::CopyData
                && steps[steps.len() - 1] == BackupStep::Prune
            &&& data && content ==> steps[2] == BackupStep::ShareContent
        }),
{
}

/// A search reads the last entry that is left, uses it where its file holds a document,
/// and goes on to the one before it where it does not.
pub proof fn law_search(left: Seq<usize>, i: usize, raw: Option<Seq<char>>)
    ensures
        crate::backups::try_next(Seq::empty()) == RestoreModel::GiveUp,
        crate::backups::try_next(left.push(i)) == RestoreModel::Read(i),
        crate::backups::try_with(Seq::empty(), raw) == RestoreModel::GiveUp,
        crate::backups::try_with(left.push(i), None) == crate::backups::try_next(left),
        raw is Some ==> crate::backups::try_with(left.push(i), raw) == (
        match crate::codec::parsed_text(raw->0) {
            Some(t) => RestoreModel::Use(i, t),
            None => crate::backups::try_next(left),
        }),
{
    assert(left.push(i).drop_last() =~= left);
}

/// A target may become a link where there is none, or where it is exactly as long as the
/// source.
pub proof fn law_may_share(n: u64, m: u64, src: Option<u64>)
    ensures
        crate::copying::may_share(None, src),
        crate::copying::may_share(Some(n), Some(m)) == (n == m),
        !crate::copying::may_share(Some(n), None),
{
}

/// A directory that cannot be opened, a file that cannot be copied or detached, and an
/// entry of unknown kind fail the copy, and a copy that failed stays failed.
pub proof fn law_copy_fails(s: CopyState, id: u64, e: CopyOutcome)
    ensures
        ({
            let failed = crate::copying::after(s, CopyOutcome::Failed);
            let a = crate::copying::next_action(s);
            &&& a == CopyAction::Open(id) || a == CopyAction::Copy(id) || a == CopyAction::Detach(
                id,
            ) ==> crate::copying::next_action(failed) == CopyAction::Fail
            &&& a == CopyAction::Fail ==> crate::copying::next_action(crate::copying::after(s, e))
                == CopyAction::Fail
            &&& a == CopyAction::Finish ==> crate::copying::after(s, e) == s
        }),
        crate::copying::entry_action((CopyEntry { id, kind: EntryKind::Unknown }))
            == CopyAction::Fail,
{
}

/// Once a directory is listed, its entries are next, the first of them first: directories
/// are opened and files compared, and what was left to do before comes after them.
pub proof fn law_listed(s: CopyState, id: u64, entries: Seq<CopyEntry>, i: int)
    requires
        crate::copying::next_action(s) == CopyAction::Open(id),
        0 <= i < entries.len(),
    ensures
        ({
            let t = crate::copying::after(s, CopyOutcome::Listed(entries));
            let a = t.stack[t.stack.len() - 1 - i];
            &&& t.stack.len() == s.stack.len() - 1 + entries.len()
            &&& t.stack.take(s.stack.len() - 1) == s.stack.take(s.stack.len() - 1)
            &&& t.share == s.share && t.failed == s.failed
            &&& entries[i].kind is Dir ==> a == CopyAction::Open(entries[i].id)
            &&& entries[i].kind is File ==> a == CopyAction::Compare(entries[i].id)
            &&& entries[i].kind is Unknown ==> a == CopyAction::Fail
        }),
{
    let t = crate::copying::after(s, CopyOutcome::Listed(entries));
    assert(t.stack.take(s.stack.len() - 1) =~= s.stack.take(s.stack.len() - 1));
}

/// What was done is not asked for again, and nothing else changes.
pub proof fn law_done(s: CopyState, id: u64)
    ensures
        ({
            let a = crate::copying::next_action(s);
            let t = crate::copying::after(s, CopyOutcome::Done);
            a == CopyAction::Link(id) || a == CopyAction::Copy(id) || a == CopyAction::Detach(id)
                ==> t.stack == s.stack.take(s.stack.len() - 1) && t.share == s.share && t.failed
                == s.failed
        }),
        crate::copying::next_action(s) == CopyAction::Open(id) ==> crate::copying::after(
            s,
            CopyOutcome::Listed(Seq::empty()),
        ).stack == s.stack.take(s.stack.len() - 1),
{
    if s.stack.len() > 0 {
        assert(s.stack.drop_last() =~= s.stack.take(s.stack.len() - 1));
        assert(crate::copying::entry_actions(Seq::empty()) =~= Seq::empty());
    }
}

/// A copy that shares nothing takes a target that may be the source's own file off its
/// data and then copies, and copies to any other at once.
pub proof fn law_unshared(s: CopyState, id: u64, dst: Option<u64>, src: Option<u64>)
    requires
        !s.share,
        crate::copying::next_action(s) == CopyAction::Compare(id),
    ensures
        ({
            let same = crate::copying::after(s, CopyOutcome::Same);
            let other = crate::copying::after(s, CopyOutcome::Lengths(dst, src));
            &&& crate::copying::next_action(same) == CopyAction::Detach(id)
            &&& crate::copying::next_action(crate::copying::after(same, CopyOutcome::Done))
                == CopyAction::Copy(id)
            &&& crate::copying::next_action(other) == CopyAction::Copy(id)
        }),
{
}

/// A finished copy has nothing left to do and did not fail.
pub proof fn law_finished(s: CopyState)
    ensures
        crate::copying::next_action(s) == CopyAction::Finish ==> !s.failed,
        !s.failed && s.stack.len() == 0 ==> crate::copying::next_action(s) == CopyAction::Finish,
        !s.failed && s.stack.len() > 0 ==> crate::copying::next_action(s) == s.stack[s.stack.len()
            - 1],
{
}

/// An export is offered as Markdown or as text where it is asked for as such, and as JSON
/// in any other case.
pub proof fn law_export(format: Seq<char>)
    ensures
        format == seq!['m', 'd'] ==> crate::shell::filter_of(format) == ("Markdown"@, "md"@),
        format == seq!['t', 'x', 't'] ==> crate::shell::filter_of(format) == (
            "文本文件"@,
            "txt"@,
        ),
        format != seq!['m', 'd'] && format != seq!['t', 'x', 't'] ==> crate::shell::filter_of(
            format,
        ) == ("JSON"@, "json"@),
{
    reveal_strlit("md");
    reveal_strlit("txt");
    assert("md"@ =~= seq!['m', 'd']);
    assert("txt"@ =~= seq!['t', 'x', 't']);
    assert("md"@.len() == 2 && "txt"@.len() == 3);
}

/// The window is shown, is on top before it gets the focus, and is released at the end; it
/// is unminimized, first, only where it is known to be minimized.
pub proof fn law_window(minimized: Option<bool>)
    ensures
        ({
            let steps = crate::shell::window_steps(minimized);
            let n = steps.len() as int;
            &&& n == (if minimized == Some(true) {
                5int
            } else {
                4int
            })
            &&& steps[n - 4] == WindowStep::Show
            &&& steps[n - 3] == WindowStep::KeepOnTop
            &&& steps[n - 2] == WindowStep::Focus
            &&& steps[n - 1] == WindowStep::ReleaseLater
            &&& n == 5 ==> steps[0] == WindowStep::Unminimize
        }),
{
}

} // verus!
