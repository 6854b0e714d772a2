use vstd::prelude::*;

use crate::entry::{Entry, EntryKind};
use crate::mode::PruneMode;
use crate::pruner::{advance, Action, Level, PrunerView, Report};

verus! {

/// A directory tree as the filesystem holds it when a walk begins.
pub enum Node {
    /// A directory; `readable` is false where listing it fails.
    Dir { path: String, readable: bool, children: Seq<Node> },
    /// A regular file of `len` bytes.
    File { path: String, len: u64 },
    /// Neither a directory nor a regular file.
    Other { path: String },
    /// An entry whose type or size cannot be read.
    Unknown { path: String },
}

/// The entry that a listing of the parent reports for `n`.
pub open spec fn entry_of(n: Node) -> Entry {
    match n {
        Node::Dir { path, .. } => Entry { path, kind: EntryKind::Dir },
        Node::File { path, len } => Entry { path, kind: EntryKind::File { len } },
        Node::Other { path } => Entry { path, kind: EntryKind::Other },
        Node::Unknown { path } => Entry { path, kind: EntryKind::Unknown },
    }
}

pub open spec fn listing(cs: Seq<Node>) -> Seq<Entry> {
    cs.map_values(|c: Node| entry_of(c))
}

pub open spec fn tail(cs: Seq<Node>) -> Seq<Node> {
    cs.subrange(1, cs.len() as int)
}

/// Is `n` gone after a walk in `mode`? A zero-length file goes where the mode
/// removes files; a directory goes where the mode removes directories, it
/// could be listed, and everything in it went first.
pub open spec fn pruned(n: Node, mode: PruneMode) -> bool
    decreases n,
{
    match n {
        Node::Dir { readable, children, .. } => mode.spec_removes_dirs() && readable
            && all_pruned(children, mode),
        Node::File { len, .. } => len == 0 && mode.spec_removes_files(),
        _ => false,
    }
}

pub open spec fn all_pruned(cs: Seq<Node>, mode: PruneMode) -> bool
    decreases cs,
{
    if cs.len() == 0 {
        true
    } else {
        pruned(cs[0], mode) && all_pruned(tail(cs), mode)
    }
}

/// What a filesystem holding the directory `n` answers to the walk of `n`,
/// from the listing of `n` to the removal of `n`: a listing gives the
/// children, a file removal succeeds, and a directory removal succeeds
/// exactly when everything in the directory is gone.
pub open spec fn walk_reports(n: Node, mode: PruneMode) -> Seq<Report>
    decreases n,
{
    match n {
        Node::Dir { readable, children, .. } => {
            if readable {
                seq![Report::Listed(listing(children))] + children_reports(children, mode)
                    + close_reports(children, mode)
            } else {
                seq![Report::ListFailed]
            }
        },
        _ => seq![],
    }
}

/// The answers to the walk through the entries `cs` of one directory.
pub open spec fn children_reports(cs: Seq<Node>, mode: PruneMode) -> Seq<Report>
    decreases cs,
{
    if cs.len() == 0 {
        seq![]
    } else {
        let first = match cs[0] {
            Node::Dir { .. } => walk_reports(cs[0], mode),
            Node::File { len, .. } => {
                if len == 0 && mode.spec_removes_files() {
                    seq![Report::Removed]
                } else {
                    seq![]
                }
            },
            _ => seq![],
        };
        first + children_reports(tail(cs), mode)
    }
}

/// The answer to the removal of a directory whose entries were `cs`.
pub open spec fn close_reports(cs: Seq<Node>, mode: PruneMode) -> Seq<Report> {
    if mode.spec_removes_dirs() {
        seq![if all_pruned(cs, mode) { Report::Removed } else { Report::RemoveFailed }]
    } else {
        seq![]
    }
}

/// The walk after it took the answers `rs` in turn, or `None` where one of
/// them does not answer the pending action.
pub open spec fn run(v: PrunerView, rs: Seq<Report>) -> Option<PrunerView>
    decreases rs.len(),
{
    if rs.len() == 0 {
        Some(v)
    } else if v.accepts(rs[0]) {
        run(v.after(rs[0]), rs.subrange(1, rs.len() as int))
    } else {
        None
    }
}

/// The walk where it has advanced from `levels`.
pub open spec fn advanced(mode: PruneMode, levels: Seq<Level>) -> PrunerView {
    PrunerView { mode, levels: advance(mode, levels).0, pending: advance(mode, levels).1 }
}

proof fn lemma_run_concat(v: PrunerView, a: Seq<Report>, b: Seq<Report>)
    ensures
        run(v, a + b) == (match run(v, a) {
            Some(w) => run(w, b),
            None => None,
        }),
    decreases a.len(),
{
    if a.len() > 0 {
        assert((a + b).subrange(1, (a + b).len() as int) =~= a.subrange(1, a.len() as int) + b);
        assert((a + b)[0] == a[0]);
        lemma_run_concat(v.after(a[0]), a.subrange(1, a.len() as int), b);
    } else {
        assert(a + b =~= b);
    }
}

proof fn lemma_run_one(v: PrunerView, r: Report)
    requires
        v.accepts(r),
    ensures
        run(v, seq![r]) == Some(v.after(r)),
{
    assert(seq![r].subrange(1, 1) =~= Seq::<Report>::empty());
    assert(run(v.after(r), Seq::<Report>::empty()) == Some(v.after(r)));
}

/// The answers to the walk through the entries `cs` take the walk from the
/// start of those entries to their end.
proof fn lemma_run_children(mode: PruneMode, below: Seq<Level>, dir: String, cs: Seq<Node>)
    ensures
        run(
            advanced(mode, below.push(Level { dir, rest: listing(cs) })),
            children_reports(cs, mode),
        ) == Some(advanced(mode, below.push(Level { dir, rest: seq![] }))),
    decreases cs,
{
    let x = below.push(Level { dir, rest: listing(cs) });
    if cs.len() == 0 {
        assert(listing(cs) =~= seq![]);
    } else {
        let c = cs[0];
        let rest = tail(cs);
        let x2 = below.push(Level { dir, rest: listing(rest) });
        assert(listing(cs).drop_first() =~= listing(rest));
        assert(x.update(x.len() - 1, Level { dir, rest: listing(cs).drop_first() }) =~= x2);
        assert(x.drop_last() =~= below);
        assert(listing(cs)[0] == entry_of(c));
        lemma_run_children(mode, below, dir, rest);
        match c {
            Node::Dir { .. } => {
                lemma_run_dir(advanced(mode, x), c);
                lemma_run_concat(advanced(mode, x), walk_reports(c, mode), children_reports(rest, mode));
            },
            Node::File { len, .. } => {
                if len == 0 && mode.spec_removes_files() {
                    lemma_run_one(advanced(mode, x), Report::Removed);
                    lemma_run_concat(advanced(mode, x), seq![Report::Removed], children_reports(rest, mode));
                } else {
                    assert(children_reports(cs, mode) =~= children_reports(rest, mode));
                }
            },
            _ => {
                assert(children_reports(cs, mode) =~= children_reports(rest, mode));
            },
        }
    }
}

/// The answers to the walk of the directory `n` take the walk from the
/// listing of `n` to the point past `n`.
pub(crate) proof fn lemma_run_dir(v: PrunerView, n: Node)
    requires
        n is Dir,
        v.pending == Action::List(entry_of(n).path),
    ensures
        run(v, walk_reports(n, v.mode)) == Some(advanced(v.mode, v.levels)),
    decreases n, 0int,
{
    let mode = v.mode;
    match n {
        Node::Dir { path, readable, children } => {
            if readable {
                let opened = v.levels.push(Level { dir: path, rest: listing(children) });
                let closed = v.levels.push(Level { dir: path, rest: seq![] });
                let listed = Report::Listed(listing(children));
                lemma_run_one(v, listed);
                assert(v.after(listed) == advanced(mode, opened));
                lemma_run_children(mode, v.levels, path, children);
                assert(closed.drop_last() =~= v.levels);
                let tail_reports = close_reports(children, mode);
                if mode.spec_removes_dirs() {
                    lemma_run_one(advanced(mode, closed), tail_reports[0]);
                    assert(tail_reports =~= seq![tail_reports[0]]);
                } else {
                    assert(tail_reports =~= Seq::<Report>::empty());
                }
                lemma_run_concat(v, seq![listed], children_reports(children, mode));
                lemma_run_concat(
                    v,
                    seq![listed] + children_reports(children, mode),
                    tail_reports,
                );
                lemma_run_concat(advanced(mode, opened), children_reports(children, mode), tail_reports);
            } else {
                lemma_run_one(v, Report::ListFailed);
            }
        },
        _ => {},
    }
}

} // verus!
