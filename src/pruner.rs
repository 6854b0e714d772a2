use vstd::prelude::*;

use crate::entry::{Entry, EntryKind};
use crate::mode::PruneMode;

verus! {

/// What the caller is asked to do next on the filesystem.
#[derive(Debug, PartialEq, Eq)]
pub enum Action {
    /// List the directory at this path and report the result with
    /// `Event::Listed` or `Event::ListFailed`.
    List(String),
    /// Remove the zero-length file at this path, then report `Event::Removed`
    /// or `Event::RemoveFailed`.
    RemoveFile(String),
    /// Remove the directory at this path, which fails unless it is empty, then
    /// report `Event::Removed` or `Event::RemoveFailed`.
    RemoveDir(String),
    /// The walk is over.
    Finished,
}

/// What came of the last action.
#[derive(Debug)]
pub enum Event {
    /// The directory was listed; its entries in the order the system gave them.
    Listed(Vec<Entry>),
    /// The directory could not be listed: it and its subtree stay as they are.
    ListFailed,
    /// The removal succeeded.
    Removed,
    /// The removal was refused; the entry stays where it is.
    RemoveFailed,
}

/// The outcome of an action as the walk sees it.
pub enum Report {
    Listed(Seq<Entry>),
    ListFailed,
    Removed,
    RemoveFailed,
}

impl View for Event {
    type V = Report;

    open spec fn view(&self) -> Report {
        match self {
            Event::Listed(es) => Report::Listed(es@),
            Event::ListFailed => Report::ListFailed,
            Event::Removed => Report::Removed,
            Event::RemoveFailed => Report::RemoveFailed,
        }
    }
}

/// A directory whose listing is being worked through: `rest` are the entries
/// not yet looked at, in listing order.
pub struct Level {
    pub dir: String,
    pub rest: Seq<Entry>,
}

/// The state of a walk: the directories entered and not yet finished, from
/// the root down, and the action the caller has been asked to perform.
pub struct PrunerView {
    pub mode: PruneMode,
    pub levels: Seq<Level>,
    pub pending: Action,
}

/// The entries of a directory whose listing is being worked through; those
/// before `next` have been looked at.
struct Frame {
    dir: String,
    entries: Vec<Entry>,
    next: usize,
}

impl Frame {
    closed spec fn wf(&self) -> bool {
        self.next <= self.entries.len()
    }

    closed spec fn level(&self) -> Level {
        Level { dir: self.dir, rest: self.entries@.skip(self.next as int) }
    }
}

closed spec fn frames_wf(frames: Seq<Frame>) -> bool {
    forall|i: int| 0 <= i < frames.len() ==> #[trigger] frames[i].wf()
}

closed spec fn levels_of(frames: Seq<Frame>) -> Seq<Level> {
    frames.map_values(|f: Frame| f.level())
}

/// The walk goes on from `levels` up to the next thing to do on the
/// filesystem, and gives the levels left and that action.
///
/// At the deepest level the next entry is looked at: a directory is listed,
/// a zero-length regular file is removed where the mode removes files, and
/// anything else is passed over. A level with no entries left is closed, and
/// its directory removed where the mode removes directories. With no level
/// left the walk is finished.
pub open spec fn advance(mode: PruneMode, levels: Seq<Level>) -> (Seq<Level>, Action)
    decreases levels.len(), if levels.len() > 0 { levels.last().rest.len() } else { 0 },
{
    if levels.len() == 0 {
        (levels, Action::Finished)
    } else {
        let top = levels.last();
        if top.rest.len() == 0 {
            let below = levels.drop_last();
            if mode.spec_removes_dirs() {
                (below, Action::RemoveDir(top.dir))
            } else {
                advance(mode, below)
            }
        } else {
            let e = top.rest[0];
            let after = levels.update(
                levels.len() - 1,
                Level { dir: top.dir, rest: top.rest.drop_first() },
            );
            match e.kind {
                EntryKind::Dir => (after, Action::List(e.path)),
                EntryKind::File { len } => {
                    if len == 0 && mode.spec_removes_files() {
                        (after, Action::RemoveFile(e.path))
                    } else {
                        advance(mode, after)
                    }
                },
                _ => advance(mode, after),
            }
        }
    }
}

impl PrunerView {
    /// A walk of the tree at `root` that has not begun: it asks for `root`
    /// to be listed.
    pub open spec fn start(root: String, mode: PruneMode) -> PrunerView {
        PrunerView { mode, levels: Seq::empty(), pending: Action::List(root) }
    }

    /// Is `ev` an answer to the pending action?
    pub open spec fn accepts(self, ev: Report) -> bool {
        match self.pending {
            Action::List(_) => ev is Listed || ev is ListFailed,
            Action::RemoveFile(_) | Action::RemoveDir(_) => ev is Removed || ev is RemoveFailed,
            Action::Finished => false,
        }
    }

    /// The walk after the pending action came to `ev`: a listed directory
    /// becomes the deepest level, and the walk advances to the next action.
    pub open spec fn after(self, ev: Report) -> PrunerView {
        let levels = match ev {
            Report::Listed(es) => self.levels.push(Level { dir: self.pending->List_0, rest: es }),
            _ => self.levels,
        };
        let (levels2, next) = advance(self.mode, levels);
        PrunerView { mode: self.mode, levels: levels2, pending: next }
    }
}

/// A post-order walk of a directory tree that removes what its mode calls
/// empty, one filesystem action at a time.
///
/// The walk does no I/O itself: it names an action, the caller performs it
/// and reports the outcome with `step`, and the walk names the next one, until
/// `Action::Finished`. Directories are walked with an explicit stack, so the
/// depth of the tree does not grow the call stack.
///
/// Where the mode removes directories, each directory that could be listed,
/// the root included, is removed once, right after everything below it was
/// dealt with; the removal fails, and is reported, unless the directory is
/// then empty. A directory that could not be listed is left as it is. No
/// outcome stops the walk.
pub struct Pruner {
    mode: PruneMode,
    frames: Vec<Frame>,
    pending: Action,
}

impl View for Pruner {
    type V = PrunerView;

    closed spec fn view(&self) -> PrunerView {
        PrunerView { mode: self.mode, levels: levels_of(self.frames@), pending: self.pending }
    }
}

fn copy_action(a: &Action) -> (r: Action)
    ensures
        r == *a,
{
    match a {
        Action::List(p) => Action::List(p.clone()),
        Action::RemoveFile(p) => Action::RemoveFile(p.clone()),
        Action::RemoveDir(p) => Action::RemoveDir(p.clone()),
        Action::Finished => Action::Finished,
    }
}

proof fn lemma_levels_pop(frames: Seq<Frame>)
    requires
        frames.len() > 0,
    ensures
        levels_of(frames.drop_last()) == levels_of(frames).drop_last(),
{
    assert(levels_of(frames.drop_last()) =~= levels_of(frames).drop_last());
}

/// Runs `advance` on the frames: the walk's next action, with the frames
/// brought to the levels that `advance` leaves.
fn advance_frames(mode: PruneMode, frames: &mut Vec<Frame>) -> (a: Action)
    requires
        frames_wf(old(frames)@),
    ensures
        frames_wf(final(frames)@),
        (levels_of(final(frames)@), a) == advance(mode, levels_of(old(frames)@)),
{
    loop
        invariant
            frames_wf(frames@),
            advance(mode, levels_of(frames@)) == advance(mode, levels_of(old(frames)@)),
        decreases
            frames@.len(),
            if frames@.len() > 0 { frames@.last().entries@.len() - frames@.last().next } else { 0 },
    {
        let n = frames.len();
        if n == 0 {
            return Action::Finished;
        }
        let ghost before = frames@;
        let mut top = frames.pop().unwrap();
        proof {
            assert(before[n - 1].wf());
            lemma_levels_pop(before);
            assert(frames_wf(frames@)) by {
                assert forall|i: int| 0 <= i < frames@.len() implies #[trigger] frames@[i].wf() by {
                    assert(frames@[i] == before[i]);
                }
            }
        }
        if top.next >= top.entries.len() {
            if mode.removes_dirs() {
                return Action::RemoveDir(top.dir);
            }
        } else {
            let i = top.next;
            let kind = top.entries[i].kind;
            let path = top.entries[i].path.clone();
            top.next = i + 1;
            frames.push(top);
            proof {
                let lv = levels_of(before);
                assert(lv.last().rest[0] == before[n - 1].entries@[i as int]);
                assert(lv.last().rest.drop_first() =~= frames@.last().level().rest);
                assert(levels_of(frames@) =~= lv.update(
                    lv.len() - 1,
                    Level { dir: lv.last().dir, rest: lv.last().rest.drop_first() },
                ));
                assert(frames_wf(frames@)) by {
                    assert forall|j: int| 0 <= j < frames@.len() implies #[trigger] frames@[j].wf() by {
                        if j < n - 1 {
                            assert(frames@[j] == before[j]);
                        }
                    }
                }
            }
            match kind {
                EntryKind::Dir => {
                    return Action::List(path);
                },
                EntryKind::File { len } => {
                    if len == 0 && mode.removes_files() {
                        return Action::RemoveFile(path);
                    }
                },
                _ => {},
            }
        }
    }
}

impl Pruner {
    pub closed spec fn wf(&self) -> bool {
        frames_wf(self.frames@)
    }

    /// A walk of the tree at `root`; its first action lists `root`.
    pub fn new(root: String, mode: PruneMode) -> (p: Pruner)
        ensures
            p.wf(),
            p@ == PrunerView::start(root, mode),
    {
        let p = Pruner { mode, frames: Vec::new(), pending: Action::List(root) };
        assert(levels_of(p.frames@) =~= Seq::empty());
        p
    }

    /// The mode the walk was started with.
    pub fn mode(&self) -> (m: PruneMode)
        ensures
            m == self@.mode,
    {
        self.mode
    }

    /// The action the caller is to perform next.
    pub fn action(&self) -> (a: Action)
        ensures
            a == self@.pending,
    {
        copy_action(&self.pending)
    }

    /// Has the walk come to an end?
    pub fn is_finished(&self) -> (r: bool)
        ensures
            r == (self@.pending is Finished),
    {
        matches!(self.pending, Action::Finished)
    }

    /// Takes the outcome of the pending action and returns the next action,
    /// which is also the new pending one.
    pub fn step(&mut self, ev: Event) -> (a: Action)
        requires
            old(self).wf(),
            old(self)@.accepts(ev@),
        ensures
            final(self).wf(),
            final(self)@ == old(self)@.after(ev@),
            a == final(self)@.pending,
    {
        match ev {
            Event::Listed(es) => {
                let dir = match &self.pending {
                    Action::List(p) => p.clone(),
                    _ => String::new(),
                };
                let ghost before = self.frames@;
                self.frames.push(Frame { dir, entries: es, next: 0 });
                proof {
                    assert(self.frames@.last().level().rest =~= es@);
                    assert(levels_of(self.frames@) =~= levels_of(before).push(
                        self.frames@.last().level(),
                    ));
                    assert(frames_wf(self.frames@)) by {
                        assert forall|j: int|
                            0 <= j < self.frames@.len() implies #[trigger] self.frames@[j].wf() by {
                            if j < before.len() {
                                assert(self.frames@[j] == before[j]);
                            }
                        }
                    }
                }
            },
            _ => {},
        }
        let next = advance_frames(self.mode, &mut self.frames);
        self.pending = copy_action(&next);
        next
    }
}

} // verus!
