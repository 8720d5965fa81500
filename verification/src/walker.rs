//! The depth-bounded tree walk as a state machine: the walker decides what
//! is asked of the filesystem next and which line each answer produces; the
//! caller performs the reads and hands back what they gave.

use vstd::prelude::*;
use crate::classify::FileType;
use crate::entry::FileInfo;
use crate::render::{category_of, display_category, is_shown, DisplayCategory};

verus! {

/// What the walker waits for.
#[derive(Debug, Clone, Copy, PartialEq, Eq, Structural)]
pub enum Stage {
    /// Whether the node in hand exists.
    Probe,
    /// The attribute record of the node in hand.
    Inspect,
    /// The children of the node in hand, a directory.
    List,
    /// Nothing: the walk is over.
    Done,
}

/// One line of the tree, before it is painted and indented.
#[derive(Debug, Clone, PartialEq, Eq)]
pub enum TreeLine {
    /// An entry that was visited.
    Entry { depth: u16, name: String, category: DisplayCategory },
    /// A path that does not exist, or whose attributes cannot be obtained.
    Missing { depth: u16 },
    /// A directory whose children cannot be read; `depth` is that of the
    /// children.
    Denied { depth: u16 },
}

/// The state of a walk over nodes named by `P`.
pub struct WalkState<P> {
    /// Nodes deeper than this are not visited.
    pub max_depth: u8,
    /// Whether hidden entries are shown.
    pub show_hidden: bool,
    pub stage: Stage,
    /// The nodes still to be walked with their depths, the node in hand last.
    pub pending: Seq<(P, u16)>,
}

/// `children` as they are put on the stack: last child first, so that the
/// first child is walked next, each at `depth`.
pub open spec fn stacked<P>(children: Seq<P>, depth: u16) -> Seq<(P, u16)> {
    Seq::new(children.len(), |i: int| (children[children.len() - 1 - i], depth))
}

impl<P> WalkState<P> {
    /// The state at the start of a walk from `root`.
    pub open spec fn start(root: P, max_depth: u8, show_hidden: bool) -> WalkState<P> {
        WalkState { max_depth, show_hidden, stage: Stage::Probe, pending: seq![(root, 0u16)] }
    }

    /// Every pending node is at most one level below the bound, a node that is
    /// inspected or listed is within the bound, and the walk is over exactly
    /// when nothing is pending.
    pub open spec fn well_formed(self) -> bool {
        &&& self.stage == Stage::Done <==> self.pending.len() == 0
        &&& forall|i: int|
            0 <= i < self.pending.len() ==> (#[trigger] self.pending[i]).1 <= self.max_depth + 1
        &&& self.stage == Stage::Inspect || self.stage == Stage::List ==> self.pending.last().1
            <= self.max_depth
    }

    /// The depth of the node in hand.
    pub open spec fn depth(self) -> u16 {
        self.pending.last().1
    }

    /// The state with its pending nodes replaced and the next one in hand.
    pub open spec fn with_pending(self, pending: Seq<(P, u16)>) -> WalkState<P> {
        WalkState {
            stage: if pending.len() == 0 {
                Stage::Done
            } else {
                Stage::Probe
            },
            pending,
            ..self
        }
    }

    /// The state after the node in hand is done with.
    pub open spec fn dropped(self) -> WalkState<P> {
        self.with_pending(self.pending.drop_last())
    }

    /// The answer to a probe: a node that does not exist gives the missing
    /// line at its depth and is dropped; one below the depth bound is dropped
    /// in silence; any other is inspected next.
    pub open spec fn after_probe(self, found: bool) -> (WalkState<P>, Option<TreeLine>) {
        if self.stage != Stage::Probe {
            (self, None)
        } else if !found {
            (self.dropped(), Some(TreeLine::Missing { depth: self.depth() }))
        } else if self.depth() > self.max_depth {
            (self.dropped(), None)
        } else {
            (WalkState { stage: Stage::Inspect, ..self }, None)
        }
    }

    /// The answer to an inspection: a node without attributes gives the
    /// missing line; a hidden one that is not shown is dropped in silence;
    /// any other gives its entry line, and a directory is listed next.
    pub open spec fn after_inspect(self, info: Option<FileInfo>) -> (
        WalkState<P>,
        Option<TreeLine>,
    ) {
        if self.stage != Stage::Inspect {
            (self, None)
        } else {
            match info {
                None => (self.dropped(), Some(TreeLine::Missing { depth: self.depth() })),
                Some(info) => if !is_shown(info, self.show_hidden) {
                    (self.dropped(), None)
                } else {
                    let line = TreeLine::Entry {
                        depth: self.depth(),
                        name: info.name,
                        category: category_of(info.file_type),
                    };
                    if info.file_type == FileType::Dir {
                        (WalkState { stage: Stage::List, ..self }, Some(line))
                    } else {
                        (self.dropped(), Some(line))
                    }
                },
            }
        }
    }

    /// The answer to a listing: a directory that cannot be read gives the
    /// denied line at the depth of its children; the children of one that
    /// can take its place among the pending nodes, one level deeper, the
    /// first child next.
    pub open spec fn after_list(self, children: Option<Seq<P>>) -> (
        WalkState<P>,
        Option<TreeLine>,
    ) {
        if self.stage != Stage::List {
            (self, None)
        } else {
            match children {
                None => (
                    self.dropped(),
                    Some(TreeLine::Denied { depth: (self.depth() + 1) as u16 }),
                ),
                Some(children) => (
                    self.with_pending(
                        self.pending.drop_last() + stacked(children, (self.depth() + 1) as u16),
                    ),
                    None,
                ),
            }
        }
    }
}

/// A walk in progress over nodes named by `P`, which the walker hands back
/// and forth without looking into them.
pub struct TreeWalker<P> {
    max_depth: u8,
    show_hidden: bool,
    /// What the node in hand waits for; of no account once nothing is pending.
    phase: Stage,
    pending: Vec<(P, u16)>,
}

impl<P> View for TreeWalker<P> {
    type V = WalkState<P>;

    closed spec fn view(&self) -> WalkState<P> {
        WalkState {
            max_depth: self.max_depth,
            show_hidden: self.show_hidden,
            stage: if self.pending@.len() == 0 {
                Stage::Done
            } else {
                self.phase
            },
            pending: self.pending@,
        }
    }
}

impl<P> TreeWalker<P> {
    #[verifier::type_invariant]
    spec fn inv(self) -> bool {
        &&& self.phase != Stage::Done
        &&& self@.well_formed()
    }

    /// Starts a walk at `root`, which is at depth 0.
    pub fn new(root: P, max_depth: u8, show_hidden: bool) -> (walker: Self)
        ensures
            walker@ == WalkState::start(root, max_depth, show_hidden),
            walker@.well_formed(),
    {
        let mut pending: Vec<(P, u16)> = Vec::new();
        pending.push((root, 0u16));
        assert(pending@ =~= seq![(root, 0u16)]);
        TreeWalker { max_depth, show_hidden, phase: Stage::Probe, pending }
    }

    /// What the walker waits for.
    pub fn stage(&self) -> (stage: Stage)
        ensures
            stage == self@.stage,
            self@.well_formed(),
    {
        proof {
            use_type_invariant(self);
        }
        if self.pending.len() == 0 {
            Stage::Done
        } else {
            self.phase
        }
    }

    /// The node in hand, unless the walk is over.
    pub fn current(&self) -> (node: Option<&P>)
        ensures
            self@.pending.len() == 0 ==> node is None,
            self@.pending.len() > 0 ==> node == Some(&self@.pending.last().0),
    {
        if self.pending.len() == 0 {
            None
        } else {
            Some(&self.pending[self.pending.len() - 1].0)
        }
    }

    /// The depth of the node in hand, unless the walk is over.
    pub fn depth(&self) -> (depth: Option<u16>)
        ensures
            self@.pending.len() == 0 ==> depth is None,
            self@.pending.len() > 0 ==> depth == Some(self@.depth()),
    {
        if self.pending.len() == 0 {
            None
        } else {
            Some(self.pending[self.pending.len() - 1].1)
        }
    }

    /// Takes the answer to a probe: whether the node in hand exists.
    pub fn probed(&mut self, found: bool) -> (line: Option<TreeLine>)
        ensures
            (final(self)@, line) == old(self)@.after_probe(found),
            final(self)@.well_formed(),
    {
        proof {
            use_type_invariant(&*self);
        }
        if self.pending.len() == 0 || self.phase != Stage::Probe {
            return None;
        }
        let depth = self.pending[self.pending.len() - 1].1;
        if found && depth <= self.max_depth as u16 {
            self.phase = Stage::Inspect;
            return None;
        }
        let mut pending: Vec<(P, u16)> = Vec::new();
        std::mem::swap(&mut pending, &mut self.pending);
        pending.pop();
        self.pending = pending;
        if found {
            None
        } else {
            Some(TreeLine::Missing { depth })
        }
    }

    /// Takes the answer to an inspection: the attribute record of the node in
    /// hand, or `None` where it could not be obtained.
    pub fn inspected(&mut self, info: Option<FileInfo>) -> (line: Option<TreeLine>)
        ensures
            (final(self)@, line) == old(self)@.after_inspect(info),
            final(self)@.well_formed(),
    {
        proof {
            use_type_invariant(&*self);
        }
        if self.pending.len() == 0 || self.phase != Stage::Inspect {
            return None;
        }
        let depth = self.pending[self.pending.len() - 1].1;
        let line = match info {
            None => Some(TreeLine::Missing { depth }),
            Some(info) => {
                if !self.show_hidden && info.is_hidden {
                    None
                } else {
                    let category = display_category(info.file_type);
                    let is_dir = info.file_type == FileType::Dir;
                    let line = TreeLine::Entry { depth, name: info.name, category };
                    if is_dir {
                        self.phase = Stage::List;
                        return Some(line);
                    }
                    Some(line)
                }
            },
        };
        let mut pending: Vec<(P, u16)> = Vec::new();
        std::mem::swap(&mut pending, &mut self.pending);
        pending.pop();
        self.phase = Stage::Probe;
        self.pending = pending;
        line
    }

    /// Takes the answer to a listing: the children of the node in hand in the
    /// order in which the directory gave them, or `None` where it could not
    /// be read.
    pub fn listed(&mut self, children: Option<Vec<P>>) -> (line: Option<TreeLine>)
        ensures
            (final(self)@, line) == old(self)@.after_list(
                match children {
                    Some(children) => Some(children@),
                    None => None,
                },
            ),
            final(self)@.well_formed(),
    {
        proof {
            use_type_invariant(&*self);
        }
        if self.pending.len() == 0 || self.phase != Stage::List {
            return None;
        }
        let below = self.pending[self.pending.len() - 1].1 + 1;
        let mut pending: Vec<(P, u16)> = Vec::new();
        std::mem::swap(&mut pending, &mut self.pending);
        pending.pop();
        self.phase = Stage::Probe;
        let line = match children {
            None => Some(TreeLine::Denied { depth: below }),
            Some(children) => {
                let mut children = children;
                let ghost all = children@;
                let ghost rest = pending@;
                while children.len() > 0
                    invariant
                        children@.len() <= all.len(),
                        children@ == all.take(children@.len() as int),
                        pending@ == rest + stacked(all, below).take(all.len() - children@.len()),
                        forall|i: int|
                            0 <= i < rest.len() ==> (#[trigger] rest[i]).1 <= self.max_depth + 1,
                        below <= self.max_depth + 1,
                    decreases children@.len(),
                {
                    let ghost n = children@.len() as int;
                    let child = children.pop().unwrap();
                    pending.push((child, below));
                    proof {
                        assert(children@ =~= all.take(n - 1));
                        assert(child == all[n - 1]);
                        assert(stacked(all, below)[all.len() - n] == (child, below));
                        assert(pending@ =~= rest + stacked(all, below).take(all.len() - n + 1));
                    }
                }
                assert(pending@ =~= rest + stacked(all, below));
                None
            },
        };
        self.pending = pending;
        line
    }
}

/// Every answer leaves a well-formed walk well-formed.
pub proof fn lemma_steps_keep_well_formed<P>(
    s: WalkState<P>,
    found: bool,
    info: Option<FileInfo>,
    children: Option<Seq<P>>,
)
    requires
        s.well_formed(),
    ensures
        s.after_probe(found).0.well_formed(),
        s.after_inspect(info).0.well_formed(),
        s.after_list(children).0.well_formed(),
{
}

} // verus!
