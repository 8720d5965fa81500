//! What a tree walk shows, stated once as a recursive description of the
//! tree and proved of the walker step by step.

use vstd::prelude::*;
use crate::classify::FileType;
use crate::entry::FileInfo;
use crate::render::{category_of, is_shown};
use crate::walker::{stacked, Stage, TreeLine, WalkState};

verus! {

/// What the filesystem answers about the nodes of a walk.
#[verifier::reject_recursive_types(P)]
pub struct World<P> {
    /// Whether a node exists.
    pub exists: spec_fn(P) -> bool,
    /// The attribute record of a node, unless it cannot be obtained.
    pub info: spec_fn(P) -> Option<FileInfo>,
    /// The children of a node in the order in which the directory gives
    /// them, unless it cannot be read.
    pub children: spec_fn(P) -> Option<Seq<P>>,
}

/// The bounds of a walk.
pub struct Bounds {
    /// Nodes deeper than this are not visited.
    pub max_depth: u8,
    /// Whether hidden entries are shown.
    pub show_hidden: bool,
}

/// How many levels are left below a node at `depth`, counting one more
/// than the bound allows: the measure by which the description ends.
pub open spec fn levels_left(depth: u16, bounds: Bounds) -> nat {
    if depth <= bounds.max_depth + 1 {
        (bounds.max_depth + 2 - depth) as nat
    } else {
        0
    }
}

/// The lines of the tree below and including `node`, which stands at
/// `depth`: a node that does not exist gives the missing line; one deeper
/// than the bound gives nothing; any other gives what [`lines_found`] says.
pub open spec fn lines<P>(world: World<P>, node: P, depth: u16, bounds: Bounds) -> Seq<TreeLine>
    decreases levels_left(depth, bounds), 0nat, 3nat,
{
    if !(world.exists)(node) {
        seq![TreeLine::Missing { depth }]
    } else if depth > bounds.max_depth {
        Seq::empty()
    } else {
        lines_found(world, node, depth, bounds)
    }
}

/// The lines of a node that exists, within the depth bound: the missing
/// line where its attributes cannot be obtained; nothing where it is hidden
/// and hidden entries are not shown; else the line of the entry, followed
/// for a directory by what [`lines_below`] says.
pub open spec fn lines_found<P>(world: World<P>, node: P, depth: u16, bounds: Bounds) -> Seq<
    TreeLine,
>
    decreases levels_left(depth, bounds), 0nat, 2nat,
{
    match (world.info)(node) {
        None => seq![TreeLine::Missing { depth }],
        Some(info) => if !is_shown(info, bounds.show_hidden) {
            Seq::empty()
        } else {
            let line = TreeLine::Entry {
                depth,
                name: info.name,
                category: category_of(info.file_type),
            };
            if info.file_type == FileType::Dir {
                seq![line] + lines_below(world, node, depth, bounds)
            } else {
                seq![line]
            }
        },
    }
}

/// The lines below a directory at `depth`: the denied line at the depth of
/// its children where it cannot be read, else the lines of its children in
/// the order in which the directory gives them. Nothing is below a node
/// deeper than the bound.
pub open spec fn lines_below<P>(world: World<P>, node: P, depth: u16, bounds: Bounds) -> Seq<
    TreeLine,
>
    decreases levels_left(depth, bounds), 0nat, 1nat,
{
    if depth > bounds.max_depth {
        Seq::empty()
    } else {
        match (world.children)(node) {
            None => seq![TreeLine::Denied { depth: (depth + 1) as u16 }],
            Some(children) => lines_of_all(world, children, (depth + 1) as u16, bounds),
        }
    }
}

/// The lines of several nodes at the same depth, one node after another.
pub open spec fn lines_of_all<P>(
    world: World<P>,
    nodes: Seq<P>,
    depth: u16,
    bounds: Bounds,
) -> Seq<TreeLine>
    decreases levels_left(depth, bounds), 1nat, nodes.len(),
{
    if nodes.len() == 0 {
        Seq::empty()
    } else {
        lines(world, nodes[0], depth, bounds) + lines_of_all(
            world,
            nodes.drop_first(),
            depth,
            bounds,
        )
    }
}

/// Whether a line respects the depth bound: an entry stands within it; a
/// missing path or an unreadable directory is reported at most one level
/// below it.
pub open spec fn within_bound(line: TreeLine, bounds: Bounds) -> bool {
    match line {
        TreeLine::Entry { depth, .. } => depth <= bounds.max_depth,
        TreeLine::Missing { depth } => depth <= bounds.max_depth + 1,
        TreeLine::Denied { depth } => depth <= bounds.max_depth + 1,
    }
}

/// Whether every line respects the depth bound.
pub open spec fn all_within_bound(lines: Seq<TreeLine>, bounds: Bounds) -> bool {
    forall|i: int| 0 <= i < lines.len() ==> within_bound(#[trigger] lines[i], bounds)
}

/// The lines of a node that exists within the bound respect the bound.
proof fn lemma_found_within_bound<P>(world: World<P>, node: P, depth: u16, bounds: Bounds)
    requires
        depth <= bounds.max_depth,
    ensures
        all_within_bound(lines_found(world, node, depth, bounds), bounds),
    decreases levels_left(depth, bounds), 0nat, 2nat,
{
    lemma_below_within_bound(world, node, depth, bounds);
}

/// The lines below a directory within the bound respect the bound.
proof fn lemma_below_within_bound<P>(world: World<P>, node: P, depth: u16, bounds: Bounds)
    requires
        depth <= bounds.max_depth,
    ensures
        all_within_bound(lines_below(world, node, depth, bounds), bounds),
    decreases levels_left(depth, bounds), 0nat, 1nat,
{
    match (world.children)(node) {
        None => {},
        Some(children) => {
            lemma_all_within_bound(world, children, (depth + 1) as u16, bounds);
        },
    }
}

/// The lines of nodes at most one level below the bound respect the bound.
proof fn lemma_all_within_bound<P>(world: World<P>, nodes: Seq<P>, depth: u16, bounds: Bounds)
    requires
        depth <= bounds.max_depth + 1,
    ensures
        all_within_bound(lines_of_all(world, nodes, depth, bounds), bounds),
    decreases levels_left(depth, bounds), 1nat, nodes.len(),
{
    if nodes.len() > 0 {
        lemma_lines_within_bound(world, nodes[0], depth, bounds);
        lemma_all_within_bound(world, nodes.drop_first(), depth, bounds);
    }
}

/// The depth bound: in the tree of a node that stands no deeper than one
/// level below the bound, no entry deeper than the bound is shown, and the
/// two messages appear at most one level below it.
pub proof fn lemma_lines_within_bound<P>(world: World<P>, node: P, depth: u16, bounds: Bounds)
    requires
        depth <= bounds.max_depth + 1,
    ensures
        all_within_bound(lines(world, node, depth, bounds), bounds),
    decreases levels_left(depth, bounds), 0nat, 3nat,
{
    if (world.exists)(node) && depth <= bounds.max_depth {
        lemma_found_within_bound(world, node, depth, bounds);
    }
}

/// Who is visited: a node that exists deeper than the bound gives no line
/// at all, while one that exists within the bound, has attributes and is
/// not filtered out as hidden gives its own line first. With a bound of 1
/// that is every child of the root and no grandchild.
pub proof fn lemma_visited_iff_within_bound<P>(
    world: World<P>,
    node: P,
    depth: u16,
    bounds: Bounds,
)
    requires
        (world.exists)(node),
    ensures
        depth > bounds.max_depth ==> lines(world, node, depth, bounds) == Seq::<
            TreeLine,
        >::empty(),
        depth <= bounds.max_depth ==> match (world.info)(node) {
            Some(info) => is_shown(info, bounds.show_hidden) ==> lines(
                world,
                node,
                depth,
                bounds,
            ).len() > 0 && lines(world, node, depth, bounds)[0] == (TreeLine::Entry {
                depth,
                name: info.name,
                category: category_of(info.file_type),
            }),
            None => true,
        },
{
}

/// The bounds of a walk in a given state.
pub open spec fn bounds_of<P>(s: WalkState<P>) -> Bounds {
    Bounds { max_depth: s.max_depth, show_hidden: s.show_hidden }
}

/// The lines of the nodes that are pending, the last of them first.
pub open spec fn pending_lines<P>(
    world: World<P>,
    pending: Seq<(P, u16)>,
    bounds: Bounds,
) -> Seq<TreeLine>
    decreases pending.len(),
{
    if pending.len() == 0 {
        Seq::empty()
    } else {
        lines(world, pending.last().0, pending.last().1, bounds) + pending_lines(
            world,
            pending.drop_last(),
            bounds,
        )
    }
}

/// The lines that a walk in state `s` has still to give: what is left of
/// the node in hand, then the lines of the other pending nodes.
pub open spec fn remaining<P>(world: World<P>, s: WalkState<P>) -> Seq<TreeLine> {
    let node = s.pending.last().0;
    let rest = pending_lines(world, s.pending.drop_last(), bounds_of(s));
    match s.stage {
        Stage::Done => Seq::empty(),
        Stage::Probe => pending_lines(world, s.pending, bounds_of(s)),
        Stage::Inspect => lines_found(world, node, s.depth(), bounds_of(s)) + rest,
        Stage::List => lines_below(world, node, s.depth(), bounds_of(s)) + rest,
    }
}

/// The state and the line that follow when the filesystem answers what the
/// walk in state `s` waits for.
pub open spec fn answered<P>(world: World<P>, s: WalkState<P>) -> (
    WalkState<P>,
    Option<TreeLine>,
) {
    let node = s.pending.last().0;
    match s.stage {
        Stage::Done => (s, None),
        Stage::Probe => s.after_probe((world.exists)(node)),
        Stage::Inspect => s.after_inspect((world.info)(node)),
        Stage::List => s.after_list((world.children)(node)),
    }
}

/// A line that was given, as a sequence of one or none.
pub open spec fn given(line: Option<TreeLine>) -> Seq<TreeLine> {
    match line {
        Some(line) => seq![line],
        None => Seq::empty(),
    }
}

/// Children put on the stack are walked in the order of the directory,
/// before anything that was pending.
proof fn lemma_stacked_lines<P>(
    world: World<P>,
    rest: Seq<(P, u16)>,
    children: Seq<P>,
    depth: u16,
    bounds: Bounds,
)
    ensures
        pending_lines(world, rest + stacked(children, depth), bounds) == lines_of_all(
            world,
            children,
            depth,
            bounds,
        ) + pending_lines(world, rest, bounds),
    decreases children.len(),
{
    let whole = rest + stacked(children, depth);
    if children.len() == 0 {
        assert(whole =~= rest);
        assert(lines_of_all(world, children, depth, bounds) + pending_lines(world, rest, bounds)
            =~= pending_lines(world, rest, bounds));
    } else {
        let others = children.drop_first();
        assert(whole.last() == (children[0], depth));
        assert(whole.drop_last() =~= rest + stacked(others, depth));
        lemma_stacked_lines(world, rest, others, depth, bounds);
        assert(pending_lines(world, whole, bounds) =~= lines_of_all(
            world,
            children,
            depth,
            bounds,
        ) + pending_lines(world, rest, bounds));
    }
}

/// Each answer of the filesystem makes the walker give exactly the next
/// line of the tree, or none where the tree has none for the step: what was
/// still to give before the answer is the line given, if any, followed by
/// what is still to give after it. A walk that is over has nothing left to
/// give, so a walk from a root gives the lines of [`lines`], in their order.
pub proof fn lemma_walk_gives_the_tree<P>(world: World<P>, s: WalkState<P>)
    requires
        s.well_formed(),
    ensures
        remaining(world, s) == given(answered(world, s).1) + remaining(
            world,
            answered(world, s).0,
        ),
        answered(world, s).0.well_formed(),
        s.stage == Stage::Done ==> remaining(world, s) == Seq::<TreeLine>::empty(),
{
    let bounds = bounds_of(s);
    let (next, line) = answered(world, s);
    if s.stage != Stage::Done {
        let node = s.pending.last().0;
        let depth = s.depth();
        let rest = s.pending.drop_last();
        let rest_lines = pending_lines(world, rest, bounds);
        assert(pending_lines(world, Seq::<(P, u16)>::empty(), bounds) =~= Seq::<
            TreeLine,
        >::empty());
        assert(remaining(world, s.dropped()) == rest_lines) by {
            if rest.len() == 0 {
                assert(rest_lines =~= Seq::<TreeLine>::empty());
            }
        }
        match s.stage {
            Stage::Probe => {},
            Stage::Inspect => {},
            _ => {
                match (world.children)(node) {
                    None => {},
                    Some(children) => {
                        let below = (depth + 1) as u16;
                        lemma_stacked_lines(world, rest, children, below, bounds);
                        if (rest + stacked(children, below)).len() == 0 {
                            assert(pending_lines(world, rest + stacked(children, below), bounds)
                                =~= Seq::<TreeLine>::empty());
                        }
                    },
                }
            },
        }
        assert(remaining(world, s) =~= given(line) + remaining(world, next));
    } else {
        assert(remaining(world, s) =~= given(line) + remaining(world, next));
    }
}

/// How many answers the walk of `node`, which stands at `depth`, takes: one
/// for the probe, one for the inspection of a node that exists within the
/// bound, one for the listing of a directory that is shown, and those of its
/// children.
pub open spec fn answers<P>(world: World<P>, node: P, depth: u16, bounds: Bounds) -> nat
    decreases levels_left(depth, bounds), 0nat, 3nat,
{
    if !(world.exists)(node) || depth > bounds.max_depth {
        1
    } else {
        1 + answers_found(world, node, depth, bounds)
    }
}

/// The answers that the walk of a node takes once it is known to exist.
pub open spec fn answers_found<P>(world: World<P>, node: P, depth: u16, bounds: Bounds) -> nat
    decreases levels_left(depth, bounds), 0nat, 2nat,
{
    match (world.info)(node) {
        Some(info) => if is_shown(info, bounds.show_hidden) && info.file_type == FileType::Dir {
            1 + answers_below(world, node, depth, bounds)
        } else {
            1
        },
        None => 1,
    }
}

/// The answers that the walk of a directory takes once its line is given.
pub open spec fn answers_below<P>(world: World<P>, node: P, depth: u16, bounds: Bounds) -> nat
    decreases levels_left(depth, bounds), 0nat, 1nat,
{
    if depth > bounds.max_depth {
        1
    } else {
        match (world.children)(node) {
            None => 1,
            Some(children) => 1 + answers_of_all(world, children, (depth + 1) as u16, bounds),
        }
    }
}

/// The answers that the walks of several nodes at the same depth take.
pub open spec fn answers_of_all<P>(
    world: World<P>,
    nodes: Seq<P>,
    depth: u16,
    bounds: Bounds,
) -> nat
    decreases levels_left(depth, bounds), 1nat, nodes.len(),
{
    if nodes.len() == 0 {
        0
    } else {
        answers(world, nodes[0], depth, bounds) + answers_of_all(
            world,
            nodes.drop_first(),
            depth,
            bounds,
        )
    }
}

/// The answers that the walks of the pending nodes take.
pub open spec fn pending_answers<P>(
    world: World<P>,
    pending: Seq<(P, u16)>,
    bounds: Bounds,
) -> nat
    decreases pending.len(),
{
    if pending.len() == 0 {
        0
    } else {
        answers(world, pending.last().0, pending.last().1, bounds) + pending_answers(
            world,
            pending.drop_last(),
            bounds,
        )
    }
}

/// The answers that a walk in state `s` still takes.
pub open spec fn answers_left<P>(world: World<P>, s: WalkState<P>) -> nat {
    let node = s.pending.last().0;
    let rest = pending_answers(world, s.pending.drop_last(), bounds_of(s));
    match s.stage {
        Stage::Done => 0,
        Stage::Probe => pending_answers(world, s.pending, bounds_of(s)),
        Stage::Inspect => answers_found(world, node, s.depth(), bounds_of(s)) + rest,
        Stage::List => answers_below(world, node, s.depth(), bounds_of(s)) + rest,
    }
}

/// Children put on the stack add the answers that their walks take.
proof fn lemma_stacked_answers<P>(
    world: World<P>,
    rest: Seq<(P, u16)>,
    children: Seq<P>,
    depth: u16,
    bounds: Bounds,
)
    ensures
        pending_answers(world, rest + stacked(children, depth), bounds) == answers_of_all(
            world,
            children,
            depth,
            bounds,
        ) + pending_answers(world, rest, bounds),
    decreases children.len(),
{
    let whole = rest + stacked(children, depth);
    if children.len() == 0 {
        assert(whole =~= rest);
    } else {
        let others = children.drop_first();
        assert(whole.last() == (children[0], depth));
        assert(whole.drop_last() =~= rest + stacked(others, depth));
        lemma_stacked_answers(world, rest, others, depth, bounds);
    }
}

/// The walk ends: every answer of the filesystem to a walk that is not over
/// leaves one answer less to take, and a walk with no answer left to take is
/// over. With [`lemma_walk_starts_with_all`], a walk from a root is over
/// after `answers(world, root, 0, bounds)` answers.
pub proof fn lemma_walk_ends<P>(world: World<P>, s: WalkState<P>)
    requires
        s.well_formed(),
        s.stage != Stage::Done,
    ensures
        answers_left(world, answered(world, s).0) + 1 == answers_left(world, s),
{
    let bounds = bounds_of(s);
    let node = s.pending.last().0;
    let rest = s.pending.drop_last();
    assert(answers_left(world, s.dropped()) == pending_answers(world, rest, bounds));
    if s.stage == Stage::List {
        match (world.children)(node) {
            None => {},
            Some(children) => {
                lemma_stacked_answers(world, rest, children, (s.depth() + 1) as u16, bounds);
            },
        }
    }
}

/// A walk starts with the whole tree still to give.
pub proof fn lemma_walk_starts_with_all<P>(world: World<P>, root: P, bounds: Bounds)
    ensures
        remaining(world, WalkState::start(root, bounds.max_depth, bounds.show_hidden)) == lines(
            world,
            root,
            0,
            bounds,
        ),
        answers_left(world, WalkState::start(root, bounds.max_depth, bounds.show_hidden))
            == answers(world, root, 0, bounds),
{
    let s = WalkState::start(root, bounds.max_depth, bounds.show_hidden);
    assert(s.pending.drop_last() =~= Seq::<(P, u16)>::empty());
    assert(pending_lines(world, s.pending.drop_last(), bounds) =~= Seq::<TreeLine>::empty());
    assert(remaining(world, s) =~= lines(world, root, 0, bounds));
    assert(pending_answers(world, s.pending.drop_last(), bounds) == 0);
}

} // verus!
