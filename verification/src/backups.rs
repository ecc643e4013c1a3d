//! Backups: which are removed once a new one was made, and which one is restored.
use crate::copying::{CopyTree, Places};
use crate::disk::{Disk, DiskStep};
use crate::json::{Json, JsonTree};
use crate::store::read_data;
use vstd::prelude::*;

verus! {

/// How many backups are kept.
pub const KEPT_BACKUPS: usize = 10;

/// An entry of the directory of backups. The name is in bytes, as the system has it.
pub struct DirEntry {
    pub name: Vec<u8>,
    pub is_dir: bool,
}

/// Whether the name `a` comes before the name `b` in the order of their bytes.
pub open spec fn name_before(a: Seq<u8>, b: Seq<u8>) -> bool
    decreases a.len(),
{
    if b.len() == 0 {
        false
    } else if a.len() == 0 {
        true
    } else if a[0] != b[0] {
        a[0] < b[0]
    } else {
        name_before(a.skip(1), b.skip(1))
    }
}

/// Whether entry `i` comes before entry `j`: by their names, and where the names are
/// the same, by their positions.
pub open spec fn entry_before(entries: Seq<DirEntry>, i: usize, j: usize) -> bool {
    name_before(entries[i as int].name@, entries[j as int].name@) || (entries[i as int].name@
        == entries[j as int].name@ && i < j)
}

/// The bytes of a text of ASCII characters.
pub open spec fn ascii(s: Seq<char>) -> Seq<u8> {
    s.map_values(|c: char| c as u8)
}

/// Whether an entry is a backup: a directory whose name begins as those of backups do.
pub open spec fn is_backup(e: DirEntry) -> bool {
    e.is_dir && ascii("backup-"@).is_prefix_of(e.name@)
}

/// Whether an entry counts: as a backup where `named`, and else as any directory.
pub open spec fn counts(e: DirEntry, named: bool) -> bool {
    if named {
        is_backup(e)
    } else {
        e.is_dir
    }
}

/// Whether `order` holds the positions of exactly the entries that count, in the order
/// of their names.
pub open spec fn is_order(entries: Seq<DirEntry>, named: bool, order: Seq<usize>) -> bool {
    &&& forall|k: int|
        0 <= k < order.len() ==> (#[trigger] order[k]) < entries.len() && counts(
            entries[order[k] as int],
            named,
        )
    &&& forall|i: usize|
        i < entries.len() && counts(entries[i as int], named) ==> #[trigger] order.contains(i)
    &&& forall|k: int, l: int|
        0 <= k < l < order.len() ==> entry_before(entries, #[trigger] order[k], #[trigger] order[l])
}

/// The positions of the entries that count, in the order of their names.
pub open spec fn ordered(entries: Seq<DirEntry>, named: bool) -> Seq<usize> {
    choose|order: Seq<usize>| is_order(entries, named, order)
}

/// No name comes before itself.
proof fn lemma_name_irreflexive(a: Seq<u8>)
    ensures
        !name_before(a, a),
    decreases a.len(),
{
    if a.len() > 0 {
        lemma_name_irreflexive(a.skip(1));
    }
}

/// The order of names is transitive.
proof fn lemma_name_transitive(a: Seq<u8>, b: Seq<u8>, c: Seq<u8>)
    requires
        name_before(a, b),
        name_before(b, c),
    ensures
        name_before(a, c),
    decreases a.len(),
{
    if a.len() > 0 && b.len() > 0 && c.len() > 0 && a[0] == b[0] && b[0] == c[0] {
        lemma_name_transitive(a.skip(1), b.skip(1), c.skip(1));
    }
}

/// Of two names that differ, one comes before the other.
proof fn lemma_name_total(a: Seq<u8>, b: Seq<u8>)
    ensures
        name_before(a, b) || name_before(b, a) || a == b,
    decreases a.len(),
{
    if a.len() > 0 && b.len() > 0 && a[0] == b[0] {
        lemma_name_total(a.skip(1), b.skip(1));
        if a.skip(1) == b.skip(1) {
            assert(a =~= seq![a[0]] + a.skip(1));
            assert(b =~= seq![b[0]] + b.skip(1));
        }
    } else if a.len() == 0 && b.len() == 0 {
        assert(a =~= b);
    }
}

/// The order of entries is transitive.
proof fn lemma_entry_transitive(entries: Seq<DirEntry>, i: usize, j: usize, k: usize)
    requires
        entry_before(entries, i, j),
        entry_before(entries, j, k),
    ensures
        entry_before(entries, i, k),
{
    let a = entries[i as int].name@;
    let b = entries[j as int].name@;
    let c = entries[k as int].name@;
    if name_before(a, b) && name_before(b, c) {
        lemma_name_transitive(a, b, c);
    }
}

/// No entry comes before itself.
proof fn lemma_entry_irreflexive(entries: Seq<DirEntry>, i: usize)
    ensures
        !entry_before(entries, i, i),
{
    lemma_name_irreflexive(entries[i as int].name@);
}

/// Whether the name `a` comes before the name `b`.
fn name_less(a: &Vec<u8>, b: &Vec<u8>) -> (r: bool)
    ensures
        r == name_before(a@, b@),
{
    let mut i: usize = 0;
    assert(a@.skip(0) =~= a@);
    assert(b@.skip(0) =~= b@);
    while i < a.len() && i < b.len()
        invariant
            i <= a@.len(),
            i <= b@.len(),
            name_before(a@, b@) == name_before(a@.skip(i as int), b@.skip(i as int)),
        decreases a@.len() - i,
    {
        let x: u8 = a[i];
        let y: u8 = b[i];
        if x != y {
            return x < y;
        }
        assert(a@.skip(i as int).skip(1) =~= a@.skip(i + 1));
        assert(b@.skip(i as int).skip(1) =~= b@.skip(i + 1));
        i = i + 1;
    }
    i < b.len()
}

/// Whether a name begins as those of backups do.
fn has_backup_prefix(name: &Vec<u8>) -> (r: bool)
    ensures
        r == ascii("backup-"@).is_prefix_of(name@),
{
    proof {
        reveal_strlit("backup-");
    }
    let ghost p = ascii("backup-"@);
    assert(p =~= seq![98u8, 97u8, 99u8, 107u8, 117u8, 112u8, 45u8]);
    if name.len() < 7 {
        return false;
    }
    let r = name[0] == 98 && name[1] == 97 && name[2] == 99 && name[3] == 107 && name[4] == 117
        && name[5] == 112 && name[6] == 45;
    proof {
        if r {
            assert(p =~= name@.subrange(0, 7));
        } else {
            assert(p[0] == 98 && p[1] == 97 && p[2] == 99 && p[3] == 107 && p[4] == 117 && p[5]
                == 112 && p[6] == 45);
            if p == name@.subrange(0, 7) {
                assert(name@.subrange(0, 7)[0] == name@[0]);
                assert(name@.subrange(0, 7)[1] == name@[1]);
                assert(name@.subrange(0, 7)[2] == name@[2]);
                assert(name@.subrange(0, 7)[3] == name@[3]);
                assert(name@.subrange(0, 7)[4] == name@[4]);
                assert(name@.subrange(0, 7)[5] == name@[5]);
                assert(name@.subrange(0, 7)[6] == name@[6]);
            }
        }
    }
    r
}

/// There is one order of the entries that count.
pub proof fn law_order_unique(
    entries: Seq<DirEntry>,
    named: bool,
    a: Seq<usize>,
    b: Seq<usize>,
)
    requires
        is_order(entries, named, a),
        is_order(entries, named, b),
    ensures
        a == b,
        a == ordered(entries, named),
{
    lemma_order_prefix(entries, named, a, b);
    lemma_order_prefix(entries, named, b, a);
    assert(a =~= b);
    let c = ordered(entries, named);
    assert(is_order(entries, named, c));
    lemma_order_prefix(entries, named, a, c);
    lemma_order_prefix(entries, named, c, a);
    assert(a =~= c);
}

/// One order of the entries is a beginning of any other.
proof fn lemma_order_prefix(entries: Seq<DirEntry>, named: bool, a: Seq<usize>, b: Seq<usize>)
    requires
        is_order(entries, named, a),
        is_order(entries, named, b),
    ensures
        a.len() <= b.len(),
        forall|k: int| 0 <= k < a.len() ==> #[trigger] a[k] == b[k],
{
    lemma_order_prefix_to(entries, named, a, b, a.len() as int);
}

/// Two orders of the entries agree on their first `n` positions.
proof fn lemma_order_prefix_to(
    entries: Seq<DirEntry>,
    named: bool,
    a: Seq<usize>,
    b: Seq<usize>,
    n: int,
)
    requires
        is_order(entries, named, a),
        is_order(entries, named, b),
        0 <= n <= a.len(),
    ensures
        n <= b.len(),
        forall|k: int| 0 <= k < n ==> #[trigger] a[k] == b[k],
    decreases n,
{
    if n > 0 {
        let k = n - 1;
        lemma_order_prefix_to(entries, named, a, b, k);
        assert(b.contains(a[k]));
        let m = choose|m: int| 0 <= m < b.len() && b[m] == a[k];
        if m < k {
            assert(a[m] == b[m]);
            lemma_entry_irreflexive(entries, a[k]);
            assert(entry_before(entries, a[m], a[k]));
        }
        assert(a.contains(b[k]));
        let l = choose|l: int| 0 <= l < a.len() && a[l] == b[k];
        if l < k {
            assert(a[l] == b[l]);
            lemma_entry_irreflexive(entries, b[k]);
            assert(entry_before(entries, b[l], b[k]));
        }
        if m > k && l > k {
            assert(entry_before(entries, b[k], b[m]));
            assert(entry_before(entries, a[k], a[l]));
            lemma_entry_transitive(entries, a[k], b[k], a[k]);
            lemma_entry_irreflexive(entries, a[k]);
        }
    }
}

/// The positions of the entries that count, in the order of their names.
pub fn order_by_name(entries: &Vec<DirEntry>, named: bool) -> (r: Vec<usize>)
    ensures
        is_order(entries@, named, r@),
        r@ == ordered(entries@, named),
{
    let mut order: Vec<usize> = Vec::new();
    let mut i: usize = 0;
    while i < entries.len()
        invariant
            i <= entries@.len(),
            forall|k: int|
                0 <= k < order@.len() ==> (#[trigger] order@[k]) < i && counts(
                    entries@[order@[k] as int],
                    named,
                ),
            forall|j: usize|
                j < i && counts(entries@[j as int], named) ==> #[trigger] order@.contains(j),
            forall|k: int, l: int|
                0 <= k < l < order@.len() ==> entry_before(
                    entries@,
                    #[trigger] order@[k],
                    #[trigger] order@[l],
                ),
        decreases entries@.len() - i,
    {
        if entries[i].is_dir && (!named || has_backup_prefix(&entries[i].name)) {
            insert_in_order(entries, named, &mut order, i);
        }
        i = i + 1;
    }
    proof {
        law_order_unique(entries@, named, order@, order@);
    }
    order
}

/// Puts position `i` among lower positions that are in order.
fn insert_in_order(entries: &Vec<DirEntry>, named: bool, order: &mut Vec<usize>, i: usize)
    requires
        i < entries@.len(),
        counts(entries@[i as int], named),
        forall|k: int|
            0 <= k < old(order)@.len() ==> (#[trigger] old(order)@[k]) < i && counts(
                entries@[old(order)@[k] as int],
                named,
            ),
        forall|k: int, l: int|
            0 <= k < l < old(order)@.len() ==> entry_before(
                entries@,
                #[trigger] old(order)@[k],
                #[trigger] old(order)@[l],
            ),
    ensures
        forall|k: int|
            0 <= k < final(order)@.len() ==> (#[trigger] final(order)@[k]) <= i && counts(
                entries@[final(order)@[k] as int],
                named,
            ),
        forall|j: usize|
            old(order)@.contains(j) || j == i ==> #[trigger] final(order)@.contains(j),
        forall|k: int, l: int|
            0 <= k < l < final(order)@.len() ==> entry_before(
                entries@,
                #[trigger] final(order)@[k],
                #[trigger] final(order)@[l],
            ),
{
    let ghost before = order@;
    let mut p: usize = 0;
    while p < order.len() && !name_less(&entries[i].name, &entries[order[p]].name)
        invariant
            p <= order@.len(),
            order@ == before,
            i < entries@.len(),
            forall|k: int| 0 <= k < before.len() ==> (#[trigger] before[k]) < i,
            forall|k: int| 0 <= k < p ==> entry_before(entries@, #[trigger] before[k], i),
        decreases order@.len() - p,
    {
        proof {
            lemma_name_total(
                entries@[i as int].name@,
                entries@[before[p as int] as int].name@,
            );
        }
        p = p + 1;
    }
    order.insert(p, i);
    proof {
        let after = order@;
        assert forall|k: int| p <= k < before.len() implies entry_before(
            entries@,
            i,
            #[trigger] before[k],
        ) by {
            if k > p {
                lemma_entry_transitive(entries@, i, before[p as int], before[k]);
            }
        }
        assert forall|j: usize| before.contains(j) || j == i implies #[trigger] after.contains(
            j,
        ) by {
            if j == i {
                assert(after[p as int] == i);
            } else {
                let k = choose|k: int| 0 <= k < before.len() && before[k] == j;
                if k < p {
                    assert(after[k] == j);
                } else {
                    assert(after[k + 1] == j);
                }
            }
        }
        assert forall|k: int, l: int| 0 <= k < l < after.len() implies entry_before(
            entries@,
            #[trigger] after[k],
            #[trigger] after[l],
        ) by {
            let x = if k < p {
                k
            } else {
                k - 1
            };
            let y = if l < p {
                l
            } else {
                l - 1
            };
            if k == p {
                assert(after[l] == before[y]);
            } else if l == p {
                assert(after[k] == before[x]);
            } else {
                assert(after[k] == before[x] && after[l] == before[y]);
            }
        }
    }
}

/// The backups that are removed, of those in `order`: the first ones, until
/// `KEPT_BACKUPS` are left.
pub open spec fn surplus(order: Seq<usize>) -> Seq<usize> {
    if order.len() > KEPT_BACKUPS {
        order.take(order.len() - KEPT_BACKUPS)
    } else {
        Seq::empty()
    }
}

/// The positions of the backups that are removed, oldest name first.
pub fn backups_to_remove(entries: &Vec<DirEntry>) -> (r: Vec<usize>)
    ensures
        is_order(entries@, true, ordered(entries@, true)),
        r@ == surplus(ordered(entries@, true)),
{
    let mut order = order_by_name(entries, true);
    if order.len() > KEPT_BACKUPS {
        let n: usize = order.len() - KEPT_BACKUPS;
        let ghost all = order@;
        order.truncate(n);
        assert(order@ =~= all.take(n as int));
    } else {
        order.truncate(0);
        assert(order@ =~= Seq::<usize>::empty());
    }
    order
}

/// A step by which a backup is made.
#[derive(Clone, Copy, Debug, PartialEq, Eq, Structural)]
pub enum BackupStep {
    /// Make the directory of the new backup.
    MakeDirectory,
    /// Copy the data file there, as a file of its own.
    CopyData,
    /// Copy the contents there, sharing the data of files that were not rewritten.
    ShareContent,
    /// Remove the backups that are too many.
    Prune,
}

/// The steps by which a backup is made, from whether there are a data file and contents:
/// none without a data file.
pub open spec fn steps_of_backup(data: bool, content: bool) -> Seq<BackupStep> {
    if !data {
        Seq::empty()
    } else if content {
        seq![
            BackupStep::MakeDirectory,
            BackupStep::CopyData,
            BackupStep::ShareContent,
            BackupStep::Prune,
        ]
    } else {
        seq![BackupStep::MakeDirectory, BackupStep::CopyData, BackupStep::Prune]
    }
}

/// The steps by which a backup is made. One that fails does not keep the others from
/// being taken.
pub fn backup_steps(data: bool, content: bool) -> (r: Vec<BackupStep>)
    ensures
        r@ == steps_of_backup(data, content),
{
    let mut r: Vec<BackupStep> = Vec::new();
    if data {
        r.push(BackupStep::MakeDirectory);
        r.push(BackupStep::CopyData);
        if content {
            r.push(BackupStep::ShareContent);
        }
        r.push(BackupStep::Prune);
    }
    assert(r@ =~= steps_of_backup(data, content));
    r
}

/// The data file of a new backup reads as the one in use, shares its data with no file,
/// and stays as it is when the one in use is replaced.
pub proof fn law_data_backed_up(
    d: Disk<char>,
    file: Seq<char>,
    backup: Seq<char>,
    temporary: Seq<char>,
    text: Seq<char>,
)
    requires
        d.well_formed(),
        d.has(file),
        file != backup,
        d.has(backup) ==> d.private(backup),
        temporary != file,
        temporary != backup,
    ensures
        ({
            let e = d.step(DiskStep::Copy(file, backup));
            let steps = crate::files::replacing(temporary, file, text);
            &&& e.read(backup) == d.read(file)
            &&& e.private(backup)
            &&& e.read(file) == d.read(file)
            &&& e.step(steps[0]).step(steps[1]).read(backup) == d.read(file)
        }),
{
    crate::disk::law_copied_apart(d, file, backup);
    let e = d.step(DiskStep::Copy(file, backup));
    assert(crate::disk::same_file(d, e, file));
    assert(!e.share(temporary, backup));
    crate::files::law_links_spared(e, temporary, file, text, backup);
}

/// A step by which a backup is restored.
#[derive(Clone, Copy, Debug, PartialEq, Eq, Structural)]
pub enum RestoreAction {
    /// Write the text of its data file to the one in use.
    WriteData,
    /// Remove the contents in use.
    RemoveContent,
    /// Copy its contents there, as files of their own.
    CopyContent,
}

/// The steps by which a backup is restored, from whether it has contents: the contents
/// in use are removed only where it has.
pub open spec fn steps_of_restoring(content: bool) -> Seq<RestoreAction> {
    if content {
        seq![RestoreAction::WriteData, RestoreAction::RemoveContent, RestoreAction::CopyContent]
    } else {
        seq![RestoreAction::WriteData]
    }
}

/// The steps by which a backup is restored. One that fails does not keep the others from
/// being taken.
pub fn restore_actions(content: bool) -> (r: Vec<RestoreAction>)
    ensures
        r@ == steps_of_restoring(content),
{
    let mut r: Vec<RestoreAction> = Vec::new();
    r.push(RestoreAction::WriteData);
    if content {
        r.push(RestoreAction::RemoveContent);
        r.push(RestoreAction::CopyContent);
    }
    assert(r@ =~= steps_of_restoring(content));
    r
}

/// What to do next to restore a backup.
pub enum RestoreStep {
    /// Read the data file of the entry at this position.
    Read(usize),
    /// Restore the entry at this position, whose data file holds this document.
    Use(usize, Json),
    /// No backup can be restored.
    GiveUp,
}

/// The model of what to do next to restore a backup.
pub enum RestoreModel {
    Read(usize),
    Use(usize, JsonTree),
    GiveUp,
}

impl View for RestoreStep {
    type V = RestoreModel;

    open spec fn view(&self) -> RestoreModel {
        match self {
            RestoreStep::Read(i) => RestoreModel::Read(*i),
            RestoreStep::Use(i, j) => RestoreModel::Use(*i, j@),
            RestoreStep::GiveUp => RestoreModel::GiveUp,
        }
    }
}

/// The search for a backup that can be restored, from the latest name on.
pub struct Restore {
    candidates: Vec<usize>,
}

impl View for Restore {
    type V = Seq<usize>;

    /// The entries that are left to try, in the order of their names.
    closed spec fn view(&self) -> Seq<usize> {
        self.candidates@
    }
}

/// The first thing to do, with those entries left to try: read the last of them.
pub open spec fn try_next(left: Seq<usize>) -> RestoreModel {
    if left.len() == 0 {
        RestoreModel::GiveUp
    } else {
        RestoreModel::Read(left.last())
    }
}

/// The thing to do once the data file of the last entry left was read as `raw`, or not
/// at all: restore it where it holds a document, and else try the one before it.
pub open spec fn try_with(left: Seq<usize>, raw: Option<Seq<char>>) -> RestoreModel {
    if left.len() == 0 {
        RestoreModel::GiveUp
    } else {
        match crate::store::document_in(raw) {
            Some(t) => RestoreModel::Use(left.last(), t),
            None => try_next(left.drop_last()),
        }
    }
}

impl Restore {
    /// A search among all directories there.
    pub fn new(entries: &Vec<DirEntry>) -> (r: Restore)
        ensures
            is_order(entries@, false, r@),
            r@ == ordered(entries@, false),
    {
        Restore { candidates: order_by_name(entries, false) }
    }

    /// The first thing to do.
    pub fn first(&self) -> (r: RestoreStep)
        ensures
            r@ == try_next(self@),
    {
        if self.candidates.len() == 0 {
            RestoreStep::GiveUp
        } else {
            RestoreStep::Read(self.candidates[self.candidates.len() - 1])
        }
    }

    /// The thing to do once the data file that was to be read was read as `raw`, or not
    /// at all.
    pub fn next(&mut self, raw: Option<&str>) -> (r: RestoreStep)
        ensures
            r@ == try_with(old(self)@, crate::store::optional_text(raw)),
            final(self)@ == (if old(self)@.len() == 0 {
                old(self)@
            } else {
                old(self)@.drop_last()
            }),
    {
        match self.candidates.pop() {
            Some(i) => match read_data(raw) {
                Some(j) => RestoreStep::Use(i, j),
                None => self.first(),
            },
            None => RestoreStep::GiveUp,
        }
    }
}

/// What a search comes to among the entries left, where `files` tells what reading each
/// entry's data file gives.
pub open spec fn search(
    left: Seq<usize>,
    files: spec_fn(usize) -> Option<Seq<char>>,
) -> RestoreModel
    decreases left.len(),
{
    match try_next(left) {
        RestoreModel::Read(i) => match try_with(left, files(i)) {
            RestoreModel::Read(_) => if left.len() > 0 {
                search(left.drop_last(), files)
            } else {
                RestoreModel::GiveUp
            },
            done => done,
        },
        done => done,
    }
}

/// A search restores the latest entry whose data file holds a document, and gives up
/// only where there is none.
pub proof fn law_latest_readable_restored(
    left: Seq<usize>,
    files: spec_fn(usize) -> Option<Seq<char>>,
)
    ensures
        match search(left, files) {
            RestoreModel::Use(i, t) => exists|k: int|
                0 <= k < left.len() && #[trigger] left[k] == i && crate::store::document_in(
                    files(i),
                ) == Some(t) && forall|l: int|
                    k < l < left.len() ==> crate::store::document_in(files(#[trigger] left[l]))
                        is None,
            RestoreModel::GiveUp => forall|l: int|
                0 <= l < left.len() ==> crate::store::document_in(files(#[trigger] left[l]))
                    is None,
            RestoreModel::Read(_) => false,
        },
    decreases left.len(),
{
    if left.len() > 0 {
        let front = left.drop_last();
        law_latest_readable_restored(front, files);
        let last = left.len() - 1;
        match crate::store::document_in(files(left.last())) {
            Some(t) => {
                assert(left[last] == left.last());
            },
            None => {
                match search(front, files) {
                    RestoreModel::Use(i, t) => {
                        let k = choose|k: int|
                            0 <= k < front.len() && #[trigger] front[k] == i
                                && crate::store::document_in(files(i)) == Some(t) && forall|l: int|
                                k < l < front.len() ==> crate::store::document_in(
                                    files(#[trigger] front[l]),
                                ) is None;
                        assert(left[k] == i);
                        assert forall|l: int| k < l < left.len() implies crate::store::document_in(
                            files(#[trigger] left[l]),
                        ) is None by {
                            if l < last {
                                assert(front[l] == left[l]);
                            }
                        }
                    },
                    _ => {
                        assert forall|l: int| 0 <= l < left.len() implies crate::store::document_in(
                            files(#[trigger] left[l]),
                        ) is None by {
                            if l < last {
                                assert(front[l] == left[l]);
                            }
                        }
                    },
                }
                if front.len() == 0 {
                    assert(search(left, files) is GiveUp);
                }
            },
        }
    }
}

/// Removing the surplus leaves all backups where there are few, and else as many as are
/// kept; every one that is removed comes before every one that stays, and is a backup.
pub proof fn law_latest_kept(entries: Seq<DirEntry>, order: Seq<usize>)
    requires
        is_order(entries, true, order),
    ensures
        order.len() - surplus(order).len() == (if order.len() < KEPT_BACKUPS {
            order.len() as int
        } else {
            KEPT_BACKUPS as int
        }),
        forall|k: int, i: usize|
            0 <= k < surplus(order).len() && #[trigger] order.contains(i) && !surplus(
                order,
            ).contains(i) ==> entry_before(entries, #[trigger] surplus(order)[k], i),
        forall|k: int|
            0 <= k < surplus(order).len() ==> is_backup(
                entries[#[trigger] surplus(order)[k] as int],
            ),
{
    let gone = surplus(order);
    assert forall|k: int, i: usize|
        0 <= k < gone.len() && #[trigger] order.contains(i) && !gone.contains(i) implies entry_before(
        entries,
        #[trigger] gone[k],
        i,
    ) by {
        let m = choose|m: int| 0 <= m < order.len() && order[m] == i;
        if m < gone.len() {
            assert(gone[m] == i);
        }
        assert(gone[k] == order[k]);
    }
    assert forall|k: int| 0 <= k < gone.len() implies is_backup(
        entries[#[trigger] gone[k] as int],
    ) by {
        assert(gone[k] == order[k]);
    }
}

/// Names that begin alike are ordered by what follows.
proof fn lemma_common_beginning(p: Seq<u8>, x: Seq<u8>, y: Seq<u8>)
    ensures
        name_before(p + x, p + y) == name_before(x, y),
    decreases p.len(),
{
    if p.len() == 0 {
        assert(p + x =~= x);
        assert(p + y =~= y);
    } else {
        lemma_common_beginning(p.skip(1), x, y);
        assert((p + x).skip(1) =~= p.skip(1) + x);
        assert((p + y).skip(1) =~= p.skip(1) + y);
    }
}

/// Names of one length are ordered by all but their last bytes, and then by those.
proof fn lemma_last_byte(x: Seq<u8>, y: Seq<u8>, c: u8, d: u8)
    requires
        x.len() == y.len(),
    ensures
        name_before(x.push(c), y.push(d)) == (name_before(x, y) || (x == y && c < d)),
    decreases x.len(),
{
    let a = x.push(c);
    let b = y.push(d);
    if x.len() == 0 {
        assert(x =~= y);
        assert(a.skip(1) =~= Seq::<u8>::empty());
        assert(b.skip(1) =~= Seq::<u8>::empty());
        assert(!name_before(a.skip(1), b.skip(1)));
    } else {
        assert(a.skip(1) =~= x.skip(1).push(c));
        assert(b.skip(1) =~= y.skip(1).push(d));
        lemma_last_byte(x.skip(1), y.skip(1), c, d);
        if x[0] == y[0] && x.skip(1) == y.skip(1) {
            assert(x =~= seq![x[0]] + x.skip(1));
            assert(y =~= seq![y[0]] + y.skip(1));
        }
    }
}

/// Decimal forms of one length are ordered as their numbers.
proof fn lemma_decimal_order(a: nat, b: nat)
    requires
        a < b,
        crate::text::decimal(a).len() == crate::text::decimal(b).len(),
    ensures
        name_before(ascii(crate::text::decimal(a)), ascii(crate::text::decimal(b))),
    decreases a,
{
    let x = crate::text::decimal(a);
    let y = crate::text::decimal(b);
    if a < 10 {
        if b >= 10 {
            crate::text::lemma_decimal_value(b / 10);
            assert(y.len() >= 2);
        }
        assert(ascii(x)[0] < ascii(y)[0]);
    } else {
        let p = crate::text::decimal(a / 10);
        let q = crate::text::decimal(b / 10);
        let c = crate::text::digit((a % 10) as int) as u8;
        let d = crate::text::digit((b % 10) as int) as u8;
        assert(ascii(x) =~= ascii(p).push(c));
        assert(ascii(y) =~= ascii(q).push(d));
        lemma_last_byte(ascii(p), ascii(q), c, d);
        if a / 10 < b / 10 {
            lemma_decimal_order(a / 10, b / 10);
        } else {
            assert(a / 10 == b / 10);
            assert(a % 10 < b % 10);
        }
    }
}

/// A later backup has a later name, as long as the stamps have as many digits.
pub proof fn law_names_in_time_order(earlier: nat, later: nat)
    requires
        earlier < later,
        crate::text::decimal(earlier).len() == crate::text::decimal(later).len(),
    ensures
        name_before(
            ascii(crate::names::backup_of(earlier)),
            ascii(crate::names::backup_of(later)),
        ),
{
    let p = ascii("backup-"@);
    assert(ascii(crate::names::backup_of(earlier)) =~= p + ascii(crate::text::decimal(earlier)));
    assert(ascii(crate::names::backup_of(later)) =~= p + ascii(crate::text::decimal(later)));
    lemma_decimal_order(earlier, later);
    lemma_common_beginning(
        p,
        ascii(crate::text::decimal(earlier)),
        ascii(crate::text::decimal(later)),
    );
}

/// A new backup counts as one.
pub proof fn law_backup_name_counts(stamp: nat)
    ensures
        ascii("backup-"@).is_prefix_of(ascii(crate::names::backup_of(stamp))),
{
    let p = ascii("backup-"@);
    let n = ascii(crate::names::backup_of(stamp));
    assert(p =~= n.subrange(0, p.len() as int));
}

/// A backup whose name comes after those of all others is kept.
pub proof fn law_last_name_kept(entries: Seq<DirEntry>, order: Seq<usize>, i: usize)
    requires
        is_order(entries, true, order),
        forall|j: usize|
            j < entries.len() && j != i && is_backup(entries[j as int]) ==> #[trigger] entry_before(
                entries,
                j,
                i,
            ),
    ensures
        !surplus(order).contains(i),
{
    let gone = surplus(order);
    if gone.contains(i) {
        let k = choose|k: int| 0 <= k < gone.len() && gone[k] == i;
        assert(order[k] == i);
        let next = order[k + 1];
        assert(entry_before(entries, order[k], next));
        lemma_entry_irreflexive(entries, i);
        assert(counts(entries[next as int], true));
        assert(entry_before(entries, next, i));
        lemma_entry_transitive(entries, i, next, i);
    }
}

/// Whether an entry is named for a stamp.
pub open spec fn named_for(e: DirEntry, stamp: nat) -> bool {
    e.name@ == ascii(crate::names::backup_of(stamp))
}

/// The newest backup is never removed, as long as the stamps have as many digits.
pub proof fn law_newest_kept(
    entries: Seq<DirEntry>,
    order: Seq<usize>,
    i: usize,
    stamps: Seq<nat>,
)
    requires
        is_order(entries, true, order),
        i < entries.len(),
        stamps.len() == entries.len(),
        forall|j: int|
            0 <= j < entries.len() && is_backup(#[trigger] entries[j]) ==> named_for(
                entries[j],
                stamps[j],
            ),
        is_backup(entries[i as int]),
        forall|j: int|
            0 <= j < entries.len() && j != i && is_backup(#[trigger] entries[j]) ==> stamps[j]
                < stamps[i as int] && crate::text::decimal(stamps[j]).len() == crate::text::decimal(
                stamps[i as int],
            ).len(),
    ensures
        !surplus(order).contains(i),
{
    assert forall|j: usize|
        j < entries.len() && j != i && is_backup(entries[j as int]) implies #[trigger] entry_before(
        entries,
        j,
        i,
    ) by {
        law_names_in_time_order(stamps[j as int], stamps[i as int]);
    }
    law_last_name_kept(entries, order, i);
}

/// Where the files of a backup and of the data in use are.
pub struct RestorePlaces {
    /// The data file in use.
    pub data: Seq<char>,
    /// The data file of the backup.
    pub backup_data: Seq<char>,
    /// The names in the directory of the contents in use.
    pub content: Set<Seq<char>>,
    /// The contents of the backup, and where they go.
    pub places: Places,
}

/// The disk after a step of restoring a backup with the contents `t`, or `None` where
/// its files are not there.
pub open spec fn restore_effect<T>(
    d: Disk<T>,
    r: RestorePlaces,
    t: CopyTree,
    a: RestoreAction,
) -> Option<Disk<T>> {
    match a {
        RestoreAction::WriteData => match d.read(r.backup_data) {
            Some(text) => Some(d.step(DiskStep::Write(r.data, text))),
            None => None,
        },
        RestoreAction::RemoveContent => Some(d.step(DiskStep::Clear(r.content))),
        RestoreAction::CopyContent => crate::copying::performed(d, r.places, crate::copying::tree_steps(t, false)),
    }
}

/// The disk after those steps of restoring.
pub open spec fn restored<T>(
    d: Disk<T>,
    r: RestorePlaces,
    t: CopyTree,
    actions: Seq<RestoreAction>,
) -> Option<Disk<T>>
    decreases actions.len(),
{
    if actions.len() == 0 {
        Some(d)
    } else {
        match restore_effect(d, r, t, actions[0]) {
            Some(m) => restored(m, r, t, actions.skip(1)),
            None => None,
        }
    }
}

/// Whether a backup can be restored without touching other files: its files are neither
/// the data file nor among the contents in use, where its contents go, each to a name of
/// its own; and the data of the data file are no other file's, but for those of the
/// backup's own, which say the same.
pub open spec fn restorable<T>(d: Disk<T>, r: RestorePlaces, ids: Set<u64>) -> bool {
    let p = r.places;
    &&& d.well_formed()
    &&& r.data != r.backup_data
    &&& !r.content.contains(r.data)
    &&& !r.content.contains(r.backup_data)
    &&& d.has(r.data) ==> d.private(r.data) || d.share(r.data, r.backup_data)
    &&& forall|a: u64| #[trigger]
        ids.contains(a) ==> r.content.contains((p.dst)(a)) && !r.content.contains((p.src)(a))
            && (p.src)(a) != r.data
    &&& forall|a: u64, b: u64|
        ids.contains(a) && ids.contains(b) && a != b ==> #[trigger] (p.dst)(a) != #[trigger] (
        p.dst)(b)
}

/// Writing the data file of a backup to the one in use changes no other file.
proof fn lemma_data_written<T>(d: Disk<T>, r: RestorePlaces, ids: Set<u64>)
    requires
        restorable(d, r, ids),
        d.has(r.backup_data),
    ensures
        ({
            let m = d.step(DiskStep::Write(r.data, d.read(r.backup_data)->0));
            &&& m.well_formed()
            &&& m.read(r.data) == d.read(r.backup_data)
            &&& crate::disk::only_changed(d, m, r.data)
        }),
{
    let m = d.step(DiskStep::Write(r.data, d.read(r.backup_data)->0));
    assert forall|n: Seq<char>| n != r.data implies #[trigger] crate::disk::same_file(d, m, n) by {
        if d.has(n) {
            assert(d.names[n] < d.free);
        }
    }
    assert forall|n: Seq<char>| #[trigger] m.names.dom().contains(n) implies m.names[n]
        < m.free by {
        if n != r.data {
            assert(crate::disk::same_file(d, m, n));
            assert(d.names.dom().contains(n));
        }
    }
}

/// Restoring a backup that has contents gives back what it holds: the data file reads as
/// the backup's, and the contents in use are exactly the backup's, each with data of its
/// own. The backup, and every other file, is as it was.
pub proof fn law_backup_restored<T>(d: Disk<T>, e: Disk<T>, r: RestorePlaces, t: CopyTree)
    requires
        restorable(d, r, crate::copying::files_of(t)),
        restored(d, r, t, steps_of_restoring(true)) == Some(e),
    ensures
        d.has(r.backup_data),
        e.read(r.data) == d.read(r.backup_data),
        forall|id: u64| #[trigger]
            crate::copying::files_of(t).contains(id) ==> d.has((r.places.src)(id)) && e.read((r.places.dst)(id))
                == d.read((r.places.src)(id)) && e.private((r.places.dst)(id)),
        forall|n: Seq<char>| #[trigger]
            r.content.contains(n) ==> e.has(n) == crate::copying::is_target(r.places, crate::copying::files_of(t), n),
        forall|n: Seq<char>|
            n != r.data && !r.content.contains(n) ==> #[trigger] e.read(n) == d.read(n),
{
    reveal_with_fuel(restored, 4);
    let p = r.places;
    let ids = crate::copying::files_of(t);
    let actions = steps_of_restoring(true);
    assert(actions.skip(1) =~= seq![actions[1], actions[2]]);
    assert(actions.skip(1).skip(1) =~= seq![actions[2]]);
    assert(actions.skip(1).skip(1).skip(1) =~= Seq::empty());
    lemma_data_written(d, r, ids);
    let m = d.step(DiskStep::Write(r.data, d.read(r.backup_data)->0));
    let c = m.step(DiskStep::Clear(r.content));
    assert forall|n: Seq<char>| !r.content.contains(n) implies #[trigger] crate::disk::same_file(
        m,
        c,
        n,
    ) by {}
    assert forall|n: Seq<char>| #[trigger] c.names.dom().contains(n) implies c.names[n]
        < c.free by {
        assert(m.names.dom().contains(n));
    }
    assert(crate::copying::ready(c, p, ids)) by {
        assert forall|a: u64| #[trigger] ids.contains(a) implies crate::copying::safe_target(c, p, a) by {
            assert(!c.has((p.dst)(a)));
        }
    }
    crate::copying::law_files_copied(c, e, p, t, false);
    assert forall|n: Seq<char>| !r.content.contains(n) implies #[trigger] crate::disk::same_file(
        m,
        e,
        n,
    ) by {
        assert(!crate::copying::is_target(p, ids, n));
        assert(crate::disk::same_file(m, c, n));
        assert(crate::disk::same_file(c, e, n));
    }
    assert forall|id: u64| #[trigger] ids.contains(id) implies d.has((p.src)(id)) && e.read(
        (p.dst)(id),
    ) == d.read((p.src)(id)) && e.private((p.dst)(id)) by {
        assert(crate::copying::file_copied(c, e, p, id, false));
        assert(crate::disk::same_file(m, c, (p.src)(id)));
        assert(crate::disk::same_file(d, m, (p.src)(id)));
    }
    assert forall|n: Seq<char>| #[trigger] r.content.contains(n) implies e.has(n) == crate::copying::is_target(
        p,
        ids,
        n,
    ) by {
        if crate::copying::is_target(p, ids, n) {
            let id = choose|id: u64| #[trigger] ids.contains(id) && (p.dst)(id) == n;
            assert(crate::copying::file_copied(c, e, p, id, false));
        } else {
            assert(crate::disk::same_file(c, e, n));
        }
    }
    assert forall|n: Seq<char>| n != r.data && !r.content.contains(n) implies #[trigger] e.read(n)
        == d.read(n) by {
        assert(crate::disk::same_file(d, m, n));
        assert(crate::disk::same_file(m, e, n));
    }
    assert(crate::disk::same_file(m, e, r.data));
}

/// Restoring a backup without contents gives back its data file and leaves every other
/// file as it was, the contents in use among them.
pub proof fn law_data_restored<T>(d: Disk<T>, e: Disk<T>, r: RestorePlaces, t: CopyTree)
    requires
        restorable(d, r, Set::empty()),
        restored(d, r, t, steps_of_restoring(false)) == Some(e),
    ensures
        d.has(r.backup_data),
        e.read(r.data) == d.read(r.backup_data),
        forall|n: Seq<char>| n != r.data ==> #[trigger] e.read(n) == d.read(n),
{
    reveal_with_fuel(restored, 2);
    let actions = steps_of_restoring(false);
    assert(actions.skip(1) =~= Seq::empty());
    lemma_data_written(d, r, Set::empty());
    assert forall|n: Seq<char>| n != r.data implies #[trigger] e.read(n) == d.read(n) by {
        assert(crate::disk::same_file(d, e, n));
    }
}

} // verus!
