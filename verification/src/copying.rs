//! Copying a directory tree: what to do next, from what was done so far.
//!
//! Every file and directory of the tree has a number that whoever performs the steps
//! gives it.
use crate::disk::{Disk, DiskStep};
use vstd::prelude::*;

verus! {

/// What an entry of a directory is.
#[derive(Clone, Copy)]
pub enum EntryKind {
    Dir,
    File,
    /// It could not be found out.
    Unknown,
}

/// An entry of a directory.
#[derive(Clone, Copy)]
pub struct CopyEntry {
    pub id: u64,
    pub kind: EntryKind,
}

/// What to do next.
#[derive(Clone, Copy)]
pub enum CopyAction {
    /// Make the target directory and list the source directory.
    Open(u64),
    /// Find out whether the target is the source's own file, or cannot be told from it,
    /// and else how long the target file and the source file are.
    Compare(u64),
    /// Make the target a hard link to the source.
    Link(u64),
    /// Take the target's name off its data, which stay.
    Detach(u64),
    /// Copy the source to the target.
    Copy(u64),
    /// Stop: the copy failed.
    Fail,
    /// Stop: the tree is copied.
    Finish,
}

/// What came of it.
pub enum CopyEvent {
    /// The entries of the directory.
    Listed(Vec<CopyEntry>),
    /// The target is the source's own file, or a file that reads as it does.
    Same,
    /// The lengths of the target and of the source, as far as there are any.
    Lengths(Option<u64>, Option<u64>),
    /// It was done.
    Done,
    /// It failed.
    Failed,
}

/// The model of what came of it.
pub enum CopyOutcome {
    Listed(Seq<CopyEntry>),
    Same,
    Lengths(Option<u64>, Option<u64>),
    Done,
    Failed,
}

impl View for CopyEvent {
    type V = CopyOutcome;

    open spec fn view(&self) -> CopyOutcome {
        match self {
            CopyEvent::Listed(v) => CopyOutcome::Listed(v@),
            CopyEvent::Same => CopyOutcome::Same,
            CopyEvent::Lengths(dst, src) => CopyOutcome::Lengths(*dst, *src),
            CopyEvent::Done => CopyOutcome::Done,
            CopyEvent::Failed => CopyOutcome::Failed,
        }
    }
}

/// A copy under way.
pub struct CopyRun {
    share: bool,
    stack: Vec<CopyAction>,
    failed: bool,
}

/// The model of a copy under way.
pub struct CopyState {
    /// Whether files may share their data with the source.
    pub share: bool,
    /// What is left to do, the next last.
    pub stack: Seq<CopyAction>,
    /// Whether the copy failed.
    pub failed: bool,
}

impl View for CopyRun {
    type V = CopyState;

    closed spec fn view(&self) -> CopyState {
        CopyState { share: self.share, stack: self.stack@, failed: self.failed }
    }
}

/// Whether a target may become a link to its source: there is none, or it is as long as
/// the source.
pub open spec fn may_share(dst: Option<u64>, src: Option<u64>) -> bool {
    match dst {
        Some(n) => src == Some(n),
        None => true,
    }
}

/// Whether a target of length `dst` may become a link to a source of length `src`.
pub fn shareable(dst: Option<u64>, src: Option<u64>) -> (r: bool)
    ensures
        r == may_share(dst, src),
{
    match dst {
        Some(n) => match src {
            Some(m) => n == m,
            None => false,
        },
        None => true,
    }
}

/// What an entry asks for.
pub open spec fn entry_action(e: CopyEntry) -> CopyAction {
    match e.kind {
        EntryKind::Dir => CopyAction::Open(e.id),
        EntryKind::File => CopyAction::Compare(e.id),
        EntryKind::Unknown => CopyAction::Fail,
    }
}

/// What the entries of a directory ask for, the first of them last.
pub open spec fn entry_actions(entries: Seq<CopyEntry>) -> Seq<CopyAction> {
    Seq::new(entries.len(), |i: int| entry_action(entries[entries.len() - 1 - i]))
}

/// What to do next.
pub open spec fn next_action(s: CopyState) -> CopyAction {
    if s.failed {
        CopyAction::Fail
    } else if s.stack.len() == 0 {
        CopyAction::Finish
    } else {
        s.stack.last()
    }
}

/// The copy once it is known what came of the next action. A target that may be the
/// source's own file is left alone where files may share their data, and else taken off
/// its data before it is copied to. A link that failed is made up for by a copy; anything else that
/// failed, or that was not asked for, fails the copy.
pub open spec fn after(s: CopyState, e: CopyOutcome) -> CopyState {
    let rest = s.stack.drop_last();
    match (next_action(s), e) {
        (CopyAction::Fail, _) => CopyState { failed: true, ..s },
        (CopyAction::Finish, _) => s,
        (CopyAction::Open(_), CopyOutcome::Listed(entries)) => CopyState {
            stack: rest + entry_actions(entries),
            ..s
        },
        (CopyAction::Compare(id), CopyOutcome::Same) => CopyState {
            stack: if s.share {
                rest
            } else {
                rest.push(CopyAction::Copy(id)).push(CopyAction::Detach(id))
            },
            ..s
        },
        (CopyAction::Compare(id), CopyOutcome::Lengths(dst, src)) => CopyState {
            stack: rest.push(
                if s.share && may_share(dst, src) {
                    CopyAction::Link(id)
                } else {
                    CopyAction::Copy(id)
                },
            ),
            ..s
        },
        (CopyAction::Link(_), CopyOutcome::Done) => CopyState { stack: rest, ..s },
        (CopyAction::Link(id), CopyOutcome::Failed) => CopyState {
            stack: rest.push(CopyAction::Copy(id)),
            ..s
        },
        (CopyAction::Detach(_), CopyOutcome::Done) => CopyState { stack: rest, ..s },
        (CopyAction::Copy(_), CopyOutcome::Done) => CopyState { stack: rest, ..s },
        _ => CopyState { failed: true, ..s },
    }
}

/// A copy of the tree of the directory `root`. Where `share`, files that were not
/// rewritten become links to the source.
pub fn copy_tree(root: u64, share: bool) -> (r: CopyRun)
    ensures
        r@ == (CopyState { share, stack: seq![CopyAction::Open(root)], failed: false }),
{
    let mut stack: Vec<CopyAction> = Vec::new();
    stack.push(CopyAction::Open(root));
    assert(stack@ =~= seq![CopyAction::Open(root)]);
    CopyRun { share, stack, failed: false }
}

/// A copy of the tree of the directory `root` that shares nothing with the source.
pub fn copy_dir(root: u64) -> (r: CopyRun)
    ensures
        r@ == (CopyState { share: false, stack: seq![CopyAction::Open(root)], failed: false }),
{
    copy_tree(root, false)
}

impl CopyRun {
    /// What to do next.
    pub fn action(&self) -> (r: CopyAction)
        ensures
            r == next_action(self@),
    {
        if self.failed {
            CopyAction::Fail
        } else if self.stack.len() == 0 {
            CopyAction::Finish
        } else {
            self.stack[self.stack.len() - 1]
        }
    }

    /// Takes in what came of the next action.
    pub fn report(&mut self, event: CopyEvent)
        ensures
            final(self)@ == after(old(self)@, event@),
    {
        let action = self.action();
        match action {
            CopyAction::Fail => {
                self.failed = true;
            },
            CopyAction::Finish => {},
            CopyAction::Open(_) => match event {
                CopyEvent::Listed(entries) => {
                    let _ = self.stack.pop();
                    self.push_entries(&entries);
                },
                _ => {
                    self.failed = true;
                },
            },
            CopyAction::Compare(id) => match event {
                CopyEvent::Same => {
                    let _ = self.stack.pop();
                    if !self.share {
                        self.stack.push(CopyAction::Copy(id));
                        self.stack.push(CopyAction::Detach(id));
                    }
                },
                CopyEvent::Lengths(dst, src) => {
                    let _ = self.stack.pop();
                    if self.share && shareable(dst, src) {
                        self.stack.push(CopyAction::Link(id));
                    } else {
                        self.stack.push(CopyAction::Copy(id));
                    }
                },
                _ => {
                    self.failed = true;
                },
            },
            CopyAction::Link(id) => match event {
                CopyEvent::Done => {
                    let _ = self.stack.pop();
                },
                CopyEvent::Failed => {
                    let _ = self.stack.pop();
                    self.stack.push(CopyAction::Copy(id));
                },
                _ => {
                    self.failed = true;
                },
            },
            CopyAction::Detach(_) | CopyAction::Copy(_) => match event {
                CopyEvent::Done => {
                    let _ = self.stack.pop();
                },
                _ => {
                    self.failed = true;
                },
            },
        }
    }

    /// Puts what the entries ask for on top of what is left to do.
    fn push_entries(&mut self, entries: &Vec<CopyEntry>)
        ensures
            final(self)@ == (CopyState {
                stack: old(self)@.stack + entry_actions(entries@),
                ..old(self)@
            }),
    {
        let ghost base = self.stack@;
        let ghost all = entry_actions(entries@);
        let mut i: usize = entries.len();
        assert(base + all.take(0) =~= base);
        while i > 0
            invariant
                i <= entries@.len(),
                self.share == old(self).share,
                self.failed == old(self).failed,
                all == entry_actions(entries@),
                self.stack@ == base + all.take(entries@.len() - i),
            decreases i,
        {
            i = i - 1;
            let e = entries[i];
            let action = match e.kind {
                EntryKind::Dir => CopyAction::Open(e.id),
                EntryKind::File => CopyAction::Compare(e.id),
                EntryKind::Unknown => CopyAction::Fail,
            };
            self.stack.push(action);
            proof {
                let n = entries@.len() - i;
                assert(all[n - 1] == action);
                assert(all.take(n) =~= all.take(n - 1).push(action));
                assert(base + all.take(n) =~= (base + all.take(n - 1)).push(action));
            }
        }
        assert(all.take(all.len() as int) =~= all);
    }
}

/// Whether no link is made, nor asked for.
pub open spec fn links_nothing(s: CopyState) -> bool {
    !s.share && forall|i: int| 0 <= i < s.stack.len() ==> !((#[trigger] s.stack[i]) is Link)
}

/// A copy that shares nothing with the source never makes a link: it starts so, and
/// whatever comes of an action keeps it so.
pub proof fn law_independent_copy(root: u64, s: CopyState, e: CopyOutcome)
    ensures
        links_nothing(
            (CopyState { share: false, stack: seq![CopyAction::Open(root)], failed: false }),
        ),
        links_nothing(s) ==> links_nothing(after(s, e)) && !(next_action(s) is Link),
{
    if links_nothing(s) {
        let t = after(s, e);
        assert forall|i: int| 0 <= i < t.stack.len() implies !((#[trigger] t.stack[i])
            is Link) by {
            if i < s.stack.len() - 1 {
                assert(t.stack[i] == s.stack[i]);
            }
        }
    }
}

/// Where files may share their data, a target that is the source's own file is done
/// with. Any other target is made a link only where there is none or it is as long as
/// the source, and a link that fails is made up for by a copy.
pub proof fn law_link_or_copy(s: CopyState, id: u64, dst: Option<u64>, src: Option<u64>)
    requires
        s.share,
        next_action(s) == CopyAction::Compare(id),
    ensures
        after(s, CopyOutcome::Same) == (CopyState { stack: s.stack.drop_last(), ..s }),
        ({
            let compared = after(s, CopyOutcome::Lengths(dst, src));
            if may_share(dst, src) {
                next_action(compared) == CopyAction::Link(id) && next_action(
                    after(compared, CopyOutcome::Failed),
                ) == CopyAction::Copy(id)
            } else {
                next_action(compared) == CopyAction::Copy(id)
            }
        }),
{
}

/// What happens to a file of the tree.
pub struct FileFate {
    /// Whether the target is told to be the source's own file.
    pub same: bool,
    /// The length of the target, if any.
    pub dst: Option<u64>,
    /// The length of the source, if any.
    pub src: Option<u64>,
    /// Whether a link to it can be made.
    pub linked: bool,
}

/// A tree of directories and files.
pub enum CopyTree {
    File(u64, FileFate),
    Dir(u64, Seq<CopyTree>),
}

/// The tree as an entry of its directory.
pub open spec fn entry_of(t: CopyTree) -> CopyEntry {
    match t {
        CopyTree::File(id, _) => CopyEntry { id, kind: EntryKind::File },
        CopyTree::Dir(id, _) => CopyEntry { id, kind: EntryKind::Dir },
    }
}

/// The entries of a directory with those trees.
pub open spec fn entries_of(trees: Seq<CopyTree>) -> Seq<CopyEntry> {
    trees.map_values(|t: CopyTree| entry_of(t))
}

/// The steps by which one file is copied, and what comes of them.
pub open spec fn file_steps(id: u64, fate: FileFate, share: bool) -> Seq<
    (CopyAction, CopyOutcome),
> {
    let same = (CopyAction::Compare(id), CopyOutcome::Same);
    let compare = (CopyAction::Compare(id), CopyOutcome::Lengths(fate.dst, fate.src));
    let copy = (CopyAction::Copy(id), CopyOutcome::Done);
    if fate.same && share {
        seq![same]
    } else if fate.same {
        seq![same, (CopyAction::Detach(id), CopyOutcome::Done), copy]
    } else if !share || !may_share(fate.dst, fate.src) {
        seq![compare, copy]
    } else if fate.linked {
        seq![compare, (CopyAction::Link(id), CopyOutcome::Done)]
    } else {
        seq![compare, (CopyAction::Link(id), CopyOutcome::Failed), copy]
    }
}

/// The steps by which a tree is copied: a directory first, and then what it holds, in
/// the order in which it was listed.
pub open spec fn tree_steps(t: CopyTree, share: bool) -> Seq<(CopyAction, CopyOutcome)>
    decreases t,
{
    match t {
        CopyTree::File(id, fate) => file_steps(id, fate, share),
        CopyTree::Dir(id, trees) => seq![
            (CopyAction::Open(id), CopyOutcome::Listed(entries_of(trees))),
        ] + all_steps(trees, share),
    }
}

/// The steps by which several trees are copied, one after the other.
pub open spec fn all_steps(trees: Seq<CopyTree>, share: bool) -> Seq<(CopyAction, CopyOutcome)>
    decreases trees,
{
    if trees.len() == 0 {
        Seq::empty()
    } else {
        tree_steps(trees[0], share) + all_steps(trees.subrange(1, trees.len() as int), share)
    }
}

/// The copy after those steps, or `None` where it asks for other ones.
pub open spec fn run(s: CopyState, steps: Seq<(CopyAction, CopyOutcome)>) -> Option<CopyState>
    decreases steps.len(),
{
    if steps.len() == 0 {
        Some(s)
    } else if next_action(s) == steps[0].0 {
        run(after(s, steps[0].1), steps.skip(1))
    } else {
        None
    }
}

/// Steps in two parts are taken one part after the other.
proof fn lemma_run_parts(
    s: CopyState,
    a: Seq<(CopyAction, CopyOutcome)>,
    b: Seq<(CopyAction, CopyOutcome)>,
)
    ensures
        run(s, a + b) == (match run(s, a) {
            Some(t) => run(t, b),
            None => None,
        }),
    decreases a.len(),
{
    if a.len() == 0 {
        assert(a + b =~= b);
    } else {
        assert((a + b).skip(1) =~= a.skip(1) + b);
        if next_action(s) == a[0].0 {
            lemma_run_parts(after(s, a[0].1), a.skip(1), b);
        }
    }
}

/// Where nothing fails, a copy of a tree asks for exactly the steps that copy every
/// directory and every file of it, and is then finished.
pub proof fn law_whole_tree_copied(root: u64, trees: Seq<CopyTree>, share: bool)
    ensures
        ({
            let start = CopyState { share, stack: seq![CopyAction::Open(root)], failed: false };
            let end = CopyState { share, stack: Seq::empty(), failed: false };
            &&& run(start, tree_steps(CopyTree::Dir(root, trees), share)) == Some(end)
            &&& next_action(end) == CopyAction::Finish
        }),
{
    let base = Seq::<CopyAction>::empty();
    lemma_tree_run(CopyTree::Dir(root, trees), base, share);
    assert(base.push(CopyAction::Open(root)) =~= seq![CopyAction::Open(root)]);
}

/// The steps of a file are those that are asked for.
proof fn lemma_file_run(id: u64, fate: FileFate, base: Seq<CopyAction>, share: bool)
    ensures
        run(
            CopyState { share, stack: base.push(CopyAction::Compare(id)), failed: false },
            file_steps(id, fate, share),
        ) == Some(CopyState { share, stack: base, failed: false }),
{
    reveal_with_fuel(run, 4);
    let copy = CopyAction::Copy(id);
    assert(base.push(CopyAction::Compare(id)).drop_last() =~= base);
    assert(base.push(CopyAction::Link(id)).drop_last() =~= base);
    assert(base.push(copy).drop_last() =~= base);
    assert(base.push(copy).push(CopyAction::Detach(id)).drop_last() =~= base.push(copy));
    let steps = file_steps(id, fate, share);
    if steps.len() == 1 {
        assert(steps.skip(1) =~= Seq::empty());
    } else if steps.len() == 2 {
        assert(steps.skip(1) =~= seq![steps[1]]);
        assert(steps.skip(1).skip(1) =~= Seq::empty());
    } else {
        assert(steps.skip(1) =~= seq![steps[1], steps[2]]);
        assert(steps.skip(1).skip(1) =~= seq![steps[2]]);
        assert(steps.skip(1).skip(1).skip(1) =~= Seq::empty());
    }
}

/// The steps of a tree are those that are asked for while it is on top.
proof fn lemma_tree_run(t: CopyTree, base: Seq<CopyAction>, share: bool)
    ensures
        run(
            CopyState { share, stack: base.push(entry_action(entry_of(t))), failed: false },
            tree_steps(t, share),
        ) == Some(CopyState { share, stack: base, failed: false }),
    decreases t,
{
    match t {
        CopyTree::File(id, fate) => {
            lemma_file_run(id, fate, base, share);
        },
        CopyTree::Dir(id, trees) => {
            let s = CopyState {
                share,
                stack: base.push(entry_action(entry_of(t))),
                failed: false,
            };
            let steps = tree_steps(t, share);
            assert(steps.skip(1) =~= all_steps(trees, share));
            assert(s.stack.drop_last() =~= base);
            lemma_all_run(trees, base, share);
        },
    }
}

/// The steps of several trees are those that are asked for while they are on top.
proof fn lemma_all_run(trees: Seq<CopyTree>, base: Seq<CopyAction>, share: bool)
    ensures
        run(
            CopyState { share, stack: base + entry_actions(entries_of(trees)), failed: false },
            all_steps(trees, share),
        ) == Some(CopyState { share, stack: base, failed: false }),
    decreases trees,
{
    let actions = entry_actions(entries_of(trees));
    if trees.len() == 0 {
        assert(base + actions =~= base);
    } else {
        let rest = trees.subrange(1, trees.len() as int);
        let others = entry_actions(entries_of(rest));
        let first = entry_action(entry_of(trees[0]));
        assert(actions =~= others.push(first));
        assert(base + actions =~= (base + others).push(first));
        lemma_tree_run(trees[0], base + others, share);
        lemma_all_run(rest, base, share);
        lemma_run_parts(
            CopyState { share, stack: base + actions, failed: false },
            tree_steps(trees[0], share),
            all_steps(rest, share),
        );
    }
}

/// Where the files of a tree are: the name of each source and of its target.
pub struct Places {
    pub src: spec_fn(u64) -> Seq<char>,
    pub dst: spec_fn(u64) -> Seq<char>,
}

/// Whether an action on a disk can have that outcome. A target that is the source's own
/// file is always told to be, and any other only where it reads as the source; a target
/// has a length only where there is one; a link is made only to a new name; a link may
/// fail for any reason.
pub open spec fn may_come<T>(d: Disk<T>, p: Places, step: (CopyAction, CopyOutcome)) -> bool {
    match step {
        (CopyAction::Open(_), CopyOutcome::Listed(_)) => true,
        (CopyAction::Compare(id), CopyOutcome::Same) => d.has((p.src)(id)) && d.has(
            (p.dst)(id),
        ) && d.read((p.src)(id)) == d.read((p.dst)(id)),
        (CopyAction::Compare(id), CopyOutcome::Lengths(dst, _)) => !d.share(
            (p.src)(id),
            (p.dst)(id),
        ) && (dst is Some ==> d.has((p.dst)(id))),
        (CopyAction::Link(id), CopyOutcome::Done) => d.has((p.src)(id)) && !d.has((p.dst)(id)),
        (CopyAction::Link(_), CopyOutcome::Failed) => true,
        (CopyAction::Detach(_), CopyOutcome::Done) => true,
        (CopyAction::Copy(id), CopyOutcome::Done) => d.has((p.src)(id)),
        _ => false,
    }
}

/// The disk after an action with that outcome.
pub open spec fn effect<T>(d: Disk<T>, p: Places, step: (CopyAction, CopyOutcome)) -> Disk<T> {
    match step {
        (CopyAction::Link(id), CopyOutcome::Done) => d.step(
            DiskStep::Link((p.src)(id), (p.dst)(id)),
        ),
        (CopyAction::Detach(id), CopyOutcome::Done) => d.step(DiskStep::Remove((p.dst)(id))),
        (CopyAction::Copy(id), CopyOutcome::Done) => d.step(
            DiskStep::Copy((p.src)(id), (p.dst)(id)),
        ),
        _ => d,
    }
}

/// The disk after those steps, or `None` where one of them cannot have its outcome.
pub open spec fn performed<T>(
    d: Disk<T>,
    p: Places,
    steps: Seq<(CopyAction, CopyOutcome)>,
) -> Option<Disk<T>>
    decreases steps.len(),
{
    if steps.len() == 0 {
        Some(d)
    } else if may_come(d, p, steps[0]) {
        performed(effect(d, p, steps[0]), p, steps.skip(1))
    } else {
        None
    }
}

/// Steps in two parts are performed one part after the other.
proof fn lemma_performed_parts<T>(
    d: Disk<T>,
    p: Places,
    a: Seq<(CopyAction, CopyOutcome)>,
    b: Seq<(CopyAction, CopyOutcome)>,
)
    ensures
        performed(d, p, a + b) == (match performed(d, p, a) {
            Some(e) => performed(e, p, b),
            None => None,
        }),
    decreases a.len(),
{
    if a.len() == 0 {
        assert(a + b =~= b);
    } else {
        assert((a + b).skip(1) =~= a.skip(1) + b);
        if may_come(d, p, a[0]) {
            lemma_performed_parts(effect(d, p, a[0]), p, a.skip(1), b);
        }
    }
}

/// The files of a tree.
pub open spec fn files_of(t: CopyTree) -> Set<u64>
    decreases t,
{
    match t {
        CopyTree::File(id, _) => set![id],
        CopyTree::Dir(_, trees) => all_files(trees),
    }
}

/// The files of several trees.
pub open spec fn all_files(trees: Seq<CopyTree>) -> Set<u64>
    decreases trees,
{
    if trees.len() == 0 {
        Set::empty()
    } else {
        files_of(trees[0]).union(all_files(trees.subrange(1, trees.len() as int)))
    }
}

/// Whether copying to a target touches no other file: there is none, or it is the
/// source's own file, or no other name leads to its data.
pub open spec fn safe_target<T>(d: Disk<T>, p: Places, id: u64) -> bool {
    !d.has((p.dst)(id)) || d.share((p.src)(id), (p.dst)(id)) || d.private((p.dst)(id))
}

/// Whether the files can be copied: no source is a target, each has a target of its
/// own, and copying to it touches no other file.
pub open spec fn ready<T>(d: Disk<T>, p: Places, ids: Set<u64>) -> bool {
    &&& d.well_formed()
    &&& forall|a: u64, b: u64|
        ids.contains(a) && ids.contains(b) ==> #[trigger] (p.src)(a) != #[trigger] (p.dst)(b)
    &&& forall|a: u64, b: u64|
        ids.contains(a) && ids.contains(b) && a != b ==> #[trigger] (p.dst)(a) != #[trigger] (
        p.dst)(b)
    &&& forall|a: u64| #[trigger] ids.contains(a) ==> safe_target(d, p, a)
}

/// Whether a name is the target of one of the files.
pub open spec fn is_target(p: Places, ids: Set<u64>, name: Seq<char>) -> bool {
    exists|a: u64| #[trigger] ids.contains(a) && (p.dst)(a) == name
}

/// Whether a file is copied: its target reads as its source, and is a link to it or has
/// data of its own. A target that shared the source's data still does, where files may
/// share; where they may not, it always has data of its own.
pub open spec fn file_copied<T>(d: Disk<T>, e: Disk<T>, p: Places, id: u64, share: bool) -> bool {
    let src = (p.src)(id);
    let dst = (p.dst)(id);
    &&& d.has(src)
    &&& e.read(dst) == d.read(src)
    &&& e.share(src, dst) || e.private(dst)
    &&& share && d.share(src, dst) ==> e.share(src, dst)
    &&& !share ==> e.private(dst)
}

/// Whether exactly those files are copied: each of them is, and every name that is no
/// target of theirs leads where it led and reads as it read.
pub open spec fn copied<T>(d: Disk<T>, e: Disk<T>, p: Places, ids: Set<u64>, share: bool) -> bool {
    &&& forall|id: u64| #[trigger] ids.contains(id) ==> file_copied(d, e, p, id, share)
    &&& forall|n: Seq<char>| !is_target(p, ids, n) ==> #[trigger] crate::disk::same_file(d, e, n)
}

/// The steps of a file copy it.
proof fn lemma_file_performed<T>(
    d: Disk<T>,
    e: Disk<T>,
    p: Places,
    id: u64,
    fate: FileFate,
    share: bool,
)
    requires
        ready(d, p, set![id]),
        performed(d, p, file_steps(id, fate, share)) == Some(e),
    ensures
        e.well_formed(),
        copied(d, e, p, set![id], share),
{
    reveal_with_fuel(performed, 4);
    let src = (p.src)(id);
    let dst = (p.dst)(id);
    assert(set![id].contains(id));
    let steps = file_steps(id, fate, share);
    if steps.len() == 1 {
        assert(steps.skip(1) =~= Seq::empty());
        assert(e == d);
    } else if steps.len() == 2 {
        assert(steps.skip(1) =~= seq![steps[1]]);
        assert(steps.skip(1).skip(1) =~= Seq::empty());
        if steps[1].0 is Link {
            crate::disk::law_linked(d, src, dst);
        } else {
            crate::disk::law_copied_apart(d, src, dst);
        }
    } else {
        assert(steps.skip(1) =~= seq![steps[1], steps[2]]);
        assert(steps.skip(1).skip(1) =~= seq![steps[2]]);
        assert(steps.skip(1).skip(1).skip(1) =~= Seq::empty());
        let m = effect(d, p, steps[1]);
        assert forall|n: Seq<char>| n != dst implies #[trigger] crate::disk::same_file(
            d,
            m,
            n,
        ) by {}
        assert(crate::disk::same_file(d, m, src));
        assert forall|n: Seq<char>| #[trigger] m.names.dom().contains(n) implies m.names[n]
            < m.free by {
            assert(d.names.dom().contains(n));
        }
        crate::disk::law_copied_apart(m, src, dst);
        assert forall|n: Seq<char>| n != dst implies #[trigger] crate::disk::same_file(
            d,
            e,
            n,
        ) by {
            assert(crate::disk::same_file(d, m, n));
            assert(crate::disk::same_file(m, e, n));
        }
    }
    assert forall|n: Seq<char>| !is_target(p, set![id], n) implies #[trigger] crate::disk::same_file(
        d,
        e,
        n,
    ) by {
        assert(n != dst);
    }
}

/// Copying leaves a file with data of its own alone, where it is neither a source nor a
/// target.
proof fn lemma_private_kept<T>(
    d: Disk<T>,
    e: Disk<T>,
    p: Places,
    done: Set<u64>,
    share: bool,
    name: Seq<char>,
)
    requires
        copied(d, e, p, done, share),
        d.private(name),
        !is_target(p, done, name),
        forall|a: u64| #[trigger] done.contains(a) ==> (p.src)(a) != name && (p.src)(a) != (
        p.dst)(a) && !is_target(p, done, (p.src)(a)),
    ensures
        e.private(name),
{
    assert(crate::disk::same_file(d, e, name));
    assert forall|n: Seq<char>| n != name && #[trigger] e.names.dom().contains(n) implies e.names[n]
        != e.names[name] by {
        if is_target(p, done, n) {
            let a = choose|a: u64| #[trigger] done.contains(a) && (p.dst)(a) == n;
            assert(file_copied(d, e, p, a, share));
            assert(crate::disk::same_file(d, e, (p.src)(a)));
            assert(d.names.dom().contains((p.src)(a)));
            if e.private(n) {
                assert(e.names.dom().contains(name));
            }
        } else {
            assert(crate::disk::same_file(d, e, n));
            assert(d.names.dom().contains(n));
        }
    }
}

/// Copying some of the files leaves all of them ready.
proof fn lemma_still_ready<T>(
    d: Disk<T>,
    e: Disk<T>,
    p: Places,
    done: Set<u64>,
    ids: Set<u64>,
    share: bool,
)
    requires
        ready(d, p, ids),
        done.subset_of(ids),
        copied(d, e, p, done, share),
        e.well_formed(),
    ensures
        ready(e, p, ids),
{
    assert forall|a: u64| #[trigger] ids.contains(a) implies safe_target(e, p, a) by {
        assert(safe_target(d, p, a));
        if done.contains(a) {
            assert(file_copied(d, e, p, a, share));
        } else {
            let src = (p.src)(a);
            let dst = (p.dst)(a);
            assert(!is_target(p, done, dst));
            assert(!is_target(p, done, src));
            assert(crate::disk::same_file(d, e, src));
            assert(crate::disk::same_file(d, e, dst));
            if d.private(dst) {
                assert forall|b: u64| #[trigger] done.contains(b) implies (p.src)(b) != dst && (
                p.src)(b) != (p.dst)(b) && !is_target(p, done, (p.src)(b)) by {}
                lemma_private_kept(d, e, p, done, share, dst);
            }
        }
    }
}

/// Copying some of the files and then others copies them all.
proof fn lemma_copied_both<T>(
    d: Disk<T>,
    m: Disk<T>,
    e: Disk<T>,
    p: Places,
    first: Set<u64>,
    second: Set<u64>,
    ids: Set<u64>,
    share: bool,
)
    requires
        ready(d, p, ids),
        first.subset_of(ids),
        second.subset_of(ids),
        copied(d, m, p, first, share),
        copied(m, e, p, second, share),
    ensures
        copied(d, e, p, first.union(second), share),
{
    let both = first.union(second);
    assert forall|n: Seq<char>| !is_target(p, both, n) implies #[trigger] crate::disk::same_file(
        d,
        e,
        n,
    ) by {
        if is_target(p, first, n) {
            let a = choose|a: u64| #[trigger] first.contains(a) && (p.dst)(a) == n;
            assert(both.contains(a));
        }
        if is_target(p, second, n) {
            let a = choose|a: u64| #[trigger] second.contains(a) && (p.dst)(a) == n;
            assert(both.contains(a));
        }
        assert(crate::disk::same_file(d, m, n));
        assert(crate::disk::same_file(m, e, n));
    }
    assert forall|id: u64| #[trigger] both.contains(id) implies file_copied(
        d,
        e,
        p,
        id,
        share,
    ) by {
        let src = (p.src)(id);
        let dst = (p.dst)(id);
        assert(ids.contains(id));
        assert(!is_target(p, first, src));
        assert(!is_target(p, second, src));
        assert(crate::disk::same_file(d, m, src));
        assert(crate::disk::same_file(m, e, src));
        if second.contains(id) {
            assert(file_copied(m, e, p, id, share));
            if first.contains(id) {
                assert(file_copied(d, m, p, id, share));
            } else {
                assert(!is_target(p, first, dst));
                assert(crate::disk::same_file(d, m, dst));
            }
        } else {
            assert(file_copied(d, m, p, id, share));
            assert(!is_target(p, second, dst));
            assert(crate::disk::same_file(m, e, dst));
            if m.private(dst) {
                assert forall|b: u64| #[trigger] second.contains(b) implies (p.src)(b) != dst && (
                p.src)(b) != (p.dst)(b) && !is_target(p, second, (p.src)(b)) by {}
                lemma_private_kept(m, e, p, second, share, dst);
            }
        }
    }
}

/// The steps of a tree copy its files.
proof fn lemma_tree_performed<T>(
    d: Disk<T>,
    e: Disk<T>,
    p: Places,
    t: CopyTree,
    ids: Set<u64>,
    share: bool,
)
    requires
        ready(d, p, ids),
        files_of(t).subset_of(ids),
        performed(d, p, tree_steps(t, share)) == Some(e),
    ensures
        ready(e, p, ids),
        copied(d, e, p, files_of(t), share),
    decreases t,
{
    match t {
        CopyTree::File(id, fate) => {
            assert(files_of(t).contains(id));
            lemma_file_performed(d, e, p, id, fate, share);
            lemma_still_ready(d, e, p, files_of(t), ids, share);
        },
        CopyTree::Dir(id, trees) => {
            let steps = tree_steps(t, share);
            assert(steps.skip(1) =~= all_steps(trees, share));
            lemma_all_performed(d, e, p, trees, ids, share);
        },
    }
}

/// The steps of several trees copy their files.
proof fn lemma_all_performed<T>(
    d: Disk<T>,
    e: Disk<T>,
    p: Places,
    trees: Seq<CopyTree>,
    ids: Set<u64>,
    share: bool,
)
    requires
        ready(d, p, ids),
        all_files(trees).subset_of(ids),
        performed(d, p, all_steps(trees, share)) == Some(e),
    ensures
        ready(e, p, ids),
        copied(d, e, p, all_files(trees), share),
    decreases trees,
{
    if trees.len() > 0 {
        let rest = trees.subrange(1, trees.len() as int);
        let a = tree_steps(trees[0], share);
        let b = all_steps(rest, share);
        assert(files_of(trees[0]).subset_of(ids)) by {
            assert(files_of(trees[0]).subset_of(all_files(trees)));
        }
        assert(all_files(rest).subset_of(ids)) by {
            assert(all_files(rest).subset_of(all_files(trees)));
        }
        lemma_performed_parts(d, p, a, b);
        let m = performed(d, p, a)->0;
        lemma_tree_performed(d, m, p, trees[0], ids, share);
        lemma_all_performed(m, e, p, rest, ids, share);
        lemma_copied_both(d, m, e, p, files_of(trees[0]), all_files(rest), ids, share);
    }
}

/// A copy of a tree copies its files: in the end every target reads as its source read,
/// and is a link to it or has data of its own; in a copy that shares nothing it always
/// has data of its own. Every source, and every other file, is as it was. A target
/// whose data belong to some other file besides is left out, since copying to it would
/// write over that file.
pub proof fn law_files_copied<T>(
    d: Disk<T>,
    e: Disk<T>,
    p: Places,
    t: CopyTree,
    share: bool,
)
    requires
        ready(d, p, files_of(t)),
        performed(d, p, tree_steps(t, share)) == Some(e),
    ensures
        copied(d, e, p, files_of(t), share),
        forall|id: u64| #[trigger]
            files_of(t).contains(id) ==> e.read((p.src)(id)) == d.read((p.src)(id)),
        ready(e, p, files_of(t)),
{
    lemma_tree_performed(d, e, p, t, files_of(t), share);
    assert forall|id: u64| #[trigger] files_of(t).contains(id) implies e.read((p.src)(id))
        == d.read((p.src)(id)) by {
        assert(!is_target(p, files_of(t), (p.src)(id)));
        assert(crate::disk::same_file(d, e, (p.src)(id)));
    }
}

/// A second copy that shares loses nothing: once a tree was copied, copying its files
/// again leaves every file on the disk as it reads, and every link a link.
pub proof fn law_second_copy_loses_nothing<T>(
    d: Disk<T>,
    once: Disk<T>,
    twice: Disk<T>,
    p: Places,
    first: CopyTree,
    second: CopyTree,
)
    requires
        ready(d, p, files_of(first)),
        performed(d, p, tree_steps(first, true)) == Some(once),
        files_of(second) == files_of(first),
        performed(once, p, tree_steps(second, true)) == Some(twice),
    ensures
        forall|n: Seq<char>| #[trigger] twice.read(n) == once.read(n),
        forall|id: u64| #[trigger]
            files_of(first).contains(id) && once.share((p.src)(id), (p.dst)(id)) ==> twice.share(
                (p.src)(id),
                (p.dst)(id),
            ),
{
    let ids = files_of(first);
    law_files_copied(d, once, p, first, true);
    law_files_copied(once, twice, p, second, true);
    assert forall|n: Seq<char>| #[trigger] twice.read(n) == once.read(n) by {
        if is_target(p, ids, n) {
            let id = choose|id: u64| #[trigger] ids.contains(id) && (p.dst)(id) == n;
            assert(file_copied(d, once, p, id, true));
            assert(file_copied(once, twice, p, id, true));
        } else {
            assert(crate::disk::same_file(once, twice, n));
        }
    }
    assert forall|id: u64| #[trigger]
        ids.contains(id) && once.share((p.src)(id), (p.dst)(id)) implies twice.share(
        (p.src)(id),
        (p.dst)(id),
    ) by {
        assert(file_copied(once, twice, p, id, true));
    }
}

/// A copy that shares does nothing to a tree whose files are all links to their sources
/// already.
pub proof fn law_linked_tree_untouched<T>(d: Disk<T>, e: Disk<T>, p: Places, t: CopyTree)
    requires
        forall|id: u64| #[trigger] files_of(t).contains(id) ==> d.share((p.src)(id), (p.dst)(id)),
        performed(d, p, tree_steps(t, true)) == Some(e),
    ensures
        e == d,
    decreases t,
{
    match t {
        CopyTree::File(id, fate) => {
            reveal_with_fuel(performed, 2);
            assert(files_of(t).contains(id));
            let steps = file_steps(id, fate, true);
            assert(may_come(d, p, steps[0]));
            assert(steps.skip(1) =~= Seq::empty());
        },
        CopyTree::Dir(id, trees) => {
            assert(files_of(t) == all_files(trees));
            assert(tree_steps(t, true).skip(1) =~= all_steps(trees, true));
            lemma_linked_trees_untouched(d, e, p, trees);
        },
    }
}

/// A copy that shares does nothing to trees whose files are all links already.
proof fn lemma_linked_trees_untouched<T>(
    d: Disk<T>,
    e: Disk<T>,
    p: Places,
    trees: Seq<CopyTree>,
)
    requires
        forall|id: u64| #[trigger]
            all_files(trees).contains(id) ==> d.share((p.src)(id), (p.dst)(id)),
        performed(d, p, all_steps(trees, true)) == Some(e),
    ensures
        e == d,
    decreases trees,
{
    if trees.len() > 0 {
        let rest = trees.subrange(1, trees.len() as int);
        let a = tree_steps(trees[0], true);
        lemma_performed_parts(d, p, a, all_steps(rest, true));
        let m = performed(d, p, a)->0;
        assert forall|id: u64| #[trigger] files_of(trees[0]).contains(id) implies d.share(
            (p.src)(id),
            (p.dst)(id),
        ) by {
            assert(all_files(trees).contains(id));
        }
        assert forall|id: u64| #[trigger] all_files(rest).contains(id) implies d.share(
            (p.src)(id),
            (p.dst)(id),
        ) by {
            assert(all_files(trees).contains(id));
        }
        law_linked_tree_untouched(d, m, p, trees[0]);
        lemma_linked_trees_untouched(d, e, p, rest);
    }
}

/// Whether a link to every file of a tree can be made.
pub open spec fn all_linked(t: CopyTree) -> bool
    decreases t,
{
    match t {
        CopyTree::File(_, fate) => fate.linked,
        CopyTree::Dir(_, trees) => each_linked(trees),
    }
}

/// Whether a link to every file of several trees can be made.
pub open spec fn each_linked(trees: Seq<CopyTree>) -> bool
    decreases trees,
{
    trees.len() == 0 || (all_linked(trees[0]) && each_linked(
        trees.subrange(1, trees.len() as int),
    ))
}

/// Whether every file has no target yet, or one that is a link to it.
pub open spec fn unmade_or_linked<T>(d: Disk<T>, p: Places, ids: Set<u64>) -> bool {
    forall|id: u64| #[trigger]
        ids.contains(id) ==> !d.has((p.dst)(id)) || d.share((p.src)(id), (p.dst)(id))
}

/// Whether every target is a link to its source.
pub open spec fn linked<T>(d: Disk<T>, p: Places, ids: Set<u64>) -> bool {
    forall|id: u64| #[trigger] ids.contains(id) ==> d.share((p.src)(id), (p.dst)(id))
}

/// Copies that share take up no room: where there are no targets yet, or only links, and
/// every link can be made, a copy that shares makes every target a link to its source.
pub proof fn law_everything_linked<T>(d: Disk<T>, e: Disk<T>, p: Places, t: CopyTree)
    requires
        ready(d, p, files_of(t)),
        unmade_or_linked(d, p, files_of(t)),
        all_linked(t),
        performed(d, p, tree_steps(t, true)) == Some(e),
    ensures
        linked(e, p, files_of(t)),
{
    lemma_tree_linked(d, e, p, t, files_of(t));
}

/// Links are kept, and targets that were not copied are as they were.
proof fn lemma_links_kept<T>(
    d: Disk<T>,
    e: Disk<T>,
    p: Places,
    done: Set<u64>,
    ids: Set<u64>,
    id: u64,
)
    requires
        ready(d, p, ids),
        done.subset_of(ids),
        ids.contains(id),
        copied(d, e, p, done, true),
    ensures
        d.share((p.src)(id), (p.dst)(id)) ==> e.share((p.src)(id), (p.dst)(id)),
        !done.contains(id) ==> e.has((p.dst)(id)) == d.has((p.dst)(id)),
{
    if done.contains(id) {
        assert(file_copied(d, e, p, id, true));
    } else {
        assert(!is_target(p, done, (p.src)(id)));
        assert(!is_target(p, done, (p.dst)(id)));
        assert(crate::disk::same_file(d, e, (p.src)(id)));
        assert(crate::disk::same_file(d, e, (p.dst)(id)));
    }
}

/// A copy that shares links the files of a tree.
proof fn lemma_tree_linked<T>(d: Disk<T>, e: Disk<T>, p: Places, t: CopyTree, ids: Set<u64>)
    requires
        ready(d, p, ids),
        unmade_or_linked(d, p, ids),
        all_linked(t),
        files_of(t).subset_of(ids),
        performed(d, p, tree_steps(t, true)) == Some(e),
    ensures
        linked(e, p, files_of(t)),
        unmade_or_linked(e, p, ids),
        ready(e, p, ids),
        copied(d, e, p, files_of(t), true),
    decreases t,
{
    lemma_tree_performed(d, e, p, t, ids, true);
    match t {
        CopyTree::File(id, fate) => {
            reveal_with_fuel(performed, 3);
            assert(files_of(t).contains(id));
            let steps = file_steps(id, fate, true);
            assert(may_come(d, p, steps[0]));
            if fate.same {
                assert(steps.skip(1) =~= Seq::empty());
            } else {
                assert(steps.skip(1) =~= seq![steps[1]]);
                assert(steps.skip(1).skip(1) =~= Seq::empty());
                crate::disk::law_linked(d, (p.src)(id), (p.dst)(id));
            }
        },
        CopyTree::Dir(id, trees) => {
            assert(files_of(t) == all_files(trees));
            assert(tree_steps(t, true).skip(1) =~= all_steps(trees, true));
            lemma_trees_linked(d, e, p, trees, ids);
        },
    }
    assert forall|a: u64| #[trigger] ids.contains(a) implies !e.has((p.dst)(a)) || e.share(
        (p.src)(a),
        (p.dst)(a),
    ) by {
        lemma_links_kept(d, e, p, files_of(t), ids, a);
    }
}

/// A copy that shares links the files of several trees.
proof fn lemma_trees_linked<T>(
    d: Disk<T>,
    e: Disk<T>,
    p: Places,
    trees: Seq<CopyTree>,
    ids: Set<u64>,
)
    requires
        ready(d, p, ids),
        unmade_or_linked(d, p, ids),
        each_linked(trees),
        all_files(trees).subset_of(ids),
        performed(d, p, all_steps(trees, true)) == Some(e),
    ensures
        linked(e, p, all_files(trees)),
    decreases trees,
{
    if trees.len() > 0 {
        let rest = trees.subrange(1, trees.len() as int);
        let a = tree_steps(trees[0], true);
        assert(files_of(trees[0]).subset_of(ids)) by {
            assert(files_of(trees[0]).subset_of(all_files(trees)));
        }
        assert(all_files(rest).subset_of(ids)) by {
            assert(all_files(rest).subset_of(all_files(trees)));
        }
        lemma_performed_parts(d, p, a, all_steps(rest, true));
        let m = performed(d, p, a)->0;
        lemma_tree_linked(d, m, p, trees[0], ids);
        lemma_trees_linked(m, e, p, rest, ids);
        lemma_all_performed(m, e, p, rest, ids, true);
        assert forall|id: u64| #[trigger] all_files(trees).contains(id) implies e.share(
            (p.src)(id),
            (p.dst)(id),
        ) by {
            lemma_links_kept(m, e, p, all_files(rest), ids, id);
            if !all_files(rest).contains(id) {
                assert(files_of(trees[0]).contains(id));
            }
        }
    }
}

} // verus!
