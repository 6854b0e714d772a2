use vstd::prelude::*;

use crate::mode::PruneMode;
use crate::model::{
    advanced, all_pruned, children_reports, close_reports, entry_of, listing, pruned, run, tail,
    walk_reports, Node,
};
use crate::model::lemma_run_dir;
use crate::pruner::{advance, Action, Level, PrunerView, Report};

verus! {

/// Is `m` the node `n` or a node anywhere below it?
pub open spec fn within(m: Node, n: Node) -> bool
    decreases n,
{
    m == n || match n {
        Node::Dir { children, .. } => within_any(m, children),
        _ => false,
    }
}

pub open spec fn within_any(m: Node, cs: Seq<Node>) -> bool
    decreases cs,
{
    cs.len() > 0 && (within(m, cs[0]) || within_any(m, tail(cs)))
}

/// Is `n` a readable directory with nothing below it but readable
/// directories?
pub open spec fn only_dirs(n: Node) -> bool
    decreases n,
{
    match n {
        Node::Dir { readable, children, .. } => readable && all_only_dirs(children),
        _ => false,
    }
}

pub open spec fn all_only_dirs(cs: Seq<Node>) -> bool
    decreases cs,
{
    cs.len() == 0 || (only_dirs(cs[0]) && all_only_dirs(tail(cs)))
}

/// The node `n` as it stands after a walk in `mode` that left it in place.
pub open spec fn remains(n: Node, mode: PruneMode) -> Node
    decreases n,
{
    match n {
        Node::Dir { path, readable, children } => {
            if readable {
                Node::Dir { path, readable, children: remains_all(children, mode) }
            } else {
                n
            }
        },
        _ => n,
    }
}

/// The entries `cs` of a directory after a walk in `mode`: those that were
/// not removed, as they then stand.
pub open spec fn remains_all(cs: Seq<Node>, mode: PruneMode) -> Seq<Node>
    decreases cs,
{
    if cs.len() == 0 {
        seq![]
    } else {
        let first = if pruned(cs[0], mode) {
            seq![]
        } else {
            seq![remains(cs[0], mode)]
        };
        first + remains_all(tail(cs), mode)
    }
}

pub open spec fn no_removal(rs: Seq<Report>) -> bool {
    forall|i: int| 0 <= i < rs.len() ==> !(#[trigger] rs[i] is Removed)
}

/// How many of the answers `rs` say that a directory could not be listed.
pub open spec fn failed_listings(rs: Seq<Report>) -> nat
    decreases rs.len(),
{
    if rs.len() == 0 {
        0
    } else {
        (if rs[0] is ListFailed { 1nat } else { 0nat }) + failed_listings(
            rs.subrange(1, rs.len() as int),
        )
    }
}

proof fn lemma_failed_listings_concat(a: Seq<Report>, b: Seq<Report>)
    ensures
        failed_listings(a + b) == failed_listings(a) + failed_listings(b),
    decreases a.len(),
{
    if a.len() == 0 {
        assert(a + b =~= b);
    } else {
        assert((a + b).subrange(1, (a + b).len() as int) =~= a.subrange(1, a.len() as int) + b);
        assert((a + b)[0] == a[0]);
        lemma_failed_listings_concat(a.subrange(1, a.len() as int), b);
    }
}

proof fn lemma_failed_listings_one(r: Report)
    ensures
        failed_listings(seq![r]) == (if r is ListFailed { 1nat } else { 0nat }),
{
    assert(seq![r].subrange(1, 1) =~= Seq::<Report>::empty());
    assert(failed_listings(Seq::<Report>::empty()) == 0);
}

proof fn lemma_close_lists_nothing(cs: Seq<Node>, mode: PruneMode)
    ensures
        failed_listings(close_reports(cs, mode)) == 0,
{
    if mode.spec_removes_dirs() {
        lemma_failed_listings_one(close_reports(cs, mode)[0]);
        assert(close_reports(cs, mode) =~= seq![close_reports(cs, mode)[0]]);
    }
}

/// The answers to the walk of a directory `n`, split where they come from.
proof fn lemma_dir_failed_listings(n: Node, mode: PruneMode)
    requires
        n matches Node::Dir { readable, .. } && readable,
    ensures
        failed_listings(walk_reports(n, mode)) == failed_listings(children_reports(n->children, mode)),
{
    let cs = n->children;
    let listed = seq![Report::Listed(listing(cs))];
    lemma_failed_listings_one(Report::Listed(listing(cs)));
    lemma_close_lists_nothing(cs, mode);
    lemma_failed_listings_concat(listed, children_reports(cs, mode));
    lemma_failed_listings_concat(listed + children_reports(cs, mode), close_reports(cs, mode));
}

proof fn lemma_pruned_lists_all(n: Node, mode: PruneMode)
    requires
        pruned(n, mode),
    ensures
        failed_listings(walk_reports(n, mode)) == 0,
    decreases n, 0int,
{
    match n {
        Node::Dir { children, .. } => {
            lemma_dir_failed_listings(n, mode);
            lemma_pruned_lists_all_children(children, mode);
        },
        _ => {},
    }
}

proof fn lemma_pruned_lists_all_children(cs: Seq<Node>, mode: PruneMode)
    requires
        all_pruned(cs, mode),
    ensures
        failed_listings(children_reports(cs, mode)) == 0,
    decreases cs,
{
    if cs.len() > 0 {
        let c = cs[0];
        lemma_pruned_lists_all_children(tail(cs), mode);
        lemma_pruned_lists_all(c, mode);
        match c {
            Node::File { len, .. } => {
                if len == 0 && mode.spec_removes_files() {
                    lemma_failed_listings_one(Report::Removed);
                    lemma_failed_listings_concat(seq![Report::Removed], children_reports(tail(cs), mode));
                }
            },
            Node::Dir { .. } => {
                lemma_failed_listings_concat(walk_reports(c, mode), children_reports(tail(cs), mode));
            },
            _ => {},
        }
    }
}

/// The walk of the directory `root` over a filesystem that holds it comes to
/// an end: it takes every answer in turn and then is finished, with no
/// directory left open.
pub proof fn lemma_walk_finishes(root: Node, mode: PruneMode)
    requires
        root is Dir,
    ensures
        run(PrunerView::start(entry_of(root).path, mode), walk_reports(root, mode)) == Some(
            PrunerView { mode, levels: Seq::empty(), pending: Action::Finished },
        ),
{
    let v = PrunerView::start(entry_of(root).path, mode);
    lemma_run_dir(v, root);
    assert(advanced(mode, Seq::<Level>::empty()) == PrunerView {
        mode,
        levels: Seq::<Level>::empty(),
        pending: Action::Finished,
    });
}

/// Where the mode removes directories and `root` can be listed, the last
/// thing the walk of `root` does is to remove `root` itself, and that
/// removal succeeds exactly when `root` is pruned.
pub proof fn lemma_root_removed_last(root: Node, mode: PruneMode)
    requires
        root matches Node::Dir { readable, .. } && readable,
        mode.spec_removes_dirs(),
    ensures
        walk_reports(root, mode).len() > 0,
        walk_reports(root, mode).last() == (if pruned(root, mode) {
            Report::Removed
        } else {
            Report::RemoveFailed
        }),
{
    match root {
        Node::Dir { children, .. } => {
            let rs = walk_reports(root, mode);
            assert(rs == seq![Report::Listed(listing(children))] + children_reports(children, mode)
                + close_reports(children, mode));
            assert(rs.last() == close_reports(children, mode)[0]);
        },
        _ => {},
    }
}

/// A tree of nothing but readable directories goes entirely, root included,
/// in every mode that removes directories.
pub proof fn lemma_full_pruning(n: Node, mode: PruneMode)
    requires
        only_dirs(n),
        mode.spec_removes_dirs(),
    ensures
        pruned(n, mode),
    decreases n, 0int,
{
    match n {
        Node::Dir { children, .. } => {
            lemma_full_pruning_all(children, mode);
        },
        _ => {},
    }
}

proof fn lemma_full_pruning_all(cs: Seq<Node>, mode: PruneMode)
    requires
        all_only_dirs(cs),
        mode.spec_removes_dirs(),
    ensures
        all_pruned(cs, mode),
    decreases cs,
{
    if cs.len() > 0 {
        lemma_full_pruning(cs[0], mode);
        lemma_full_pruning_all(tail(cs), mode);
    }
}

/// A node that stays keeps every directory above it in place: a directory
/// goes only once everything in it went.
pub proof fn lemma_kept_blocks(m: Node, n: Node, mode: PruneMode)
    requires
        within(m, n),
        !pruned(m, mode),
    ensures
        !pruned(n, mode),
    decreases n, 0int,
{
    if m != n {
        match n {
            Node::Dir { children, .. } => {
                lemma_kept_blocks_any(m, children, mode);
            },
            _ => {},
        }
    }
}

proof fn lemma_kept_blocks_any(m: Node, cs: Seq<Node>, mode: PruneMode)
    requires
        within_any(m, cs),
        !pruned(m, mode),
    ensures
        !all_pruned(cs, mode),
    decreases cs,
{
    if within(m, cs[0]) {
        lemma_kept_blocks(m, cs[0], mode);
    } else {
        lemma_kept_blocks_any(m, tail(cs), mode);
    }
}

/// A regular file anywhere in the tree keeps the root in place where the
/// mode does not remove files, and so does a file that is not empty in every
/// mode.
pub proof fn lemma_file_blocks(f: Node, n: Node, mode: PruneMode)
    requires
        within(f, n),
        f matches Node::File { len, .. } && (len > 0 || !mode.spec_removes_files()),
    ensures
        !pruned(n, mode),
{
    lemma_kept_blocks(f, n, mode);
}

/// A directory that cannot be listed stays, and keeps the root in place;
/// a sibling of it that holds nothing but directories goes all the same
/// where the mode removes directories.
pub proof fn lemma_unreadable_isolated(u: Node, n: Node, sibling: Node, mode: PruneMode)
    requires
        within(u, n),
        u matches Node::Dir { readable, .. } && !readable,
        within(sibling, n),
        only_dirs(sibling),
        mode.spec_removes_dirs(),
    ensures
        !pruned(u, mode),
        !pruned(n, mode),
        pruned(sibling, mode),
{
    lemma_kept_blocks(u, n, mode);
    lemma_full_pruning(sibling, mode);
}

/// In the mode that removes files only, no directory is ever pruned, and
/// every zero-length file is.
pub proof fn lemma_files_mode_keeps_dirs(n: Node)
    ensures
        n is Dir ==> !pruned(n, PruneMode::Files),
        n matches Node::File { len, .. } && len == 0 ==> pruned(n, PruneMode::Files),
{
}

proof fn lemma_advance_respects_mode(mode: PruneMode, levels: Seq<Level>)
    ensures
        advance(mode, levels).1 is RemoveDir ==> mode.spec_removes_dirs(),
        advance(mode, levels).1 is RemoveFile ==> mode.spec_removes_files(),
    decreases levels.len(), if levels.len() > 0 { levels.last().rest.len() } else { 0 },
{
    if levels.len() > 0 {
        let top = levels.last();
        if top.rest.len() == 0 {
            lemma_advance_respects_mode(mode, levels.drop_last());
        } else {
            let after = levels.update(
                levels.len() - 1,
                Level { dir: top.dir, rest: top.rest.drop_first() },
            );
            lemma_advance_respects_mode(mode, after);
        }
    }
}

/// The walk asks to remove a directory only in a mode that removes
/// directories, and a file only in a mode that removes files: in the mode
/// for files alone no directory removal is ever asked for, and in the mode
/// for directories alone no file removal.
pub proof fn lemma_actions_respect_mode(v: PrunerView, r: Report)
    ensures
        v.after(r).pending is RemoveDir ==> v.mode.spec_removes_dirs(),
        v.after(r).pending is RemoveFile ==> v.mode.spec_removes_files(),
{
    let levels = match r {
        Report::Listed(es) => v.levels.push(Level { dir: v.pending->List_0, rest: es }),
        _ => v.levels,
    };
    lemma_advance_respects_mode(v.mode, levels);
}

proof fn lemma_no_removal_concat(a: Seq<Report>, b: Seq<Report>)
    requires
        no_removal(a),
        no_removal(b),
    ensures
        no_removal(a + b),
{
    assert forall|i: int| 0 <= i < (a + b).len() implies !(#[trigger] (a + b)[i] is Removed) by {
        if i < a.len() {
            assert((a + b)[i] == a[i]);
        } else {
            assert((a + b)[i] == b[i - a.len()]);
        }
    }
}

proof fn lemma_second_walk(n: Node, mode: PruneMode)
    requires
        !pruned(n, mode),
    ensures
        !pruned(remains(n, mode), mode),
        no_removal(walk_reports(remains(n, mode), mode)),
        failed_listings(walk_reports(remains(n, mode), mode)) == failed_listings(
            walk_reports(n, mode),
        ),
    decreases n, 0int,
{
    match n {
        Node::Dir { path, readable, children } => {
            if readable {
                let r = remains_all(children, mode);
                lemma_second_walk_all(children, mode);
                let rs = walk_reports(remains(n, mode), mode);
                assert(rs == seq![Report::Listed(listing(r))] + children_reports(r, mode)
                    + close_reports(r, mode));
                lemma_no_removal_concat(seq![Report::Listed(listing(r))], children_reports(r, mode));
                lemma_no_removal_concat(
                    seq![Report::Listed(listing(r))] + children_reports(r, mode),
                    close_reports(r, mode),
                );
                lemma_dir_failed_listings(n, mode);
                lemma_dir_failed_listings(remains(n, mode), mode);
            } else {
                assert(no_removal(seq![Report::ListFailed]));
            }
        },
        _ => {},
    }
}

proof fn lemma_second_walk_all(cs: Seq<Node>, mode: PruneMode)
    ensures
        no_removal(children_reports(remains_all(cs, mode), mode)),
        !all_pruned(cs, mode) ==> !all_pruned(remains_all(cs, mode), mode),
        failed_listings(children_reports(remains_all(cs, mode), mode)) == failed_listings(
            children_reports(cs, mode),
        ),
    decreases cs,
{
    if cs.len() == 0 {
        assert(remains_all(cs, mode) =~= Seq::<Node>::empty());
    } else {
        let c = cs[0];
        let r2 = remains_all(tail(cs), mode);
        lemma_second_walk_all(tail(cs), mode);
        let first_of = |x: Node|
            match x {
                Node::Dir { .. } => walk_reports(x, mode),
                Node::File { len, .. } => {
                    if len == 0 && mode.spec_removes_files() {
                        seq![Report::Removed]
                    } else {
                        seq![]
                    }
                },
                _ => seq![],
            };
        assert(children_reports(cs, mode) == first_of(c) + children_reports(tail(cs), mode));
        lemma_failed_listings_concat(first_of(c), children_reports(tail(cs), mode));
        lemma_failed_listings_one(Report::Removed);
        assert(failed_listings(Seq::<Report>::empty()) == 0);
        if pruned(c, mode) {
            assert(remains_all(cs, mode) =~= r2);
            lemma_pruned_lists_all(c, mode);
        } else {
            let rc = remains(c, mode);
            let r = remains_all(cs, mode);
            assert(r =~= seq![rc] + r2);
            assert(tail(r) =~= r2);
            assert(r[0] == rc);
            lemma_second_walk(c, mode);
            let first = first_of(rc);
            assert(children_reports(r, mode) == first + children_reports(r2, mode));
            assert(no_removal(first));
            lemma_no_removal_concat(first, children_reports(r2, mode));
            lemma_failed_listings_concat(first, children_reports(r2, mode));
        }
    }
}

/// A second walk right after one that left the directory `n` in place
/// removes nothing: what stands after the first walk is not pruned, no
/// answer to the second walk is a successful removal, and the second walk
/// finds as many directories it cannot list as the first did.
pub proof fn lemma_idempotent(n: Node, mode: PruneMode)
    requires
        n is Dir,
        !pruned(n, mode),
    ensures
        remains(n, mode) is Dir,
        !pruned(remains(n, mode), mode),
        no_removal(walk_reports(remains(n, mode), mode)),
        failed_listings(walk_reports(remains(n, mode), mode)) == failed_listings(
            walk_reports(n, mode),
        ),
{
    lemma_second_walk(n, mode);
}

} // verus!
