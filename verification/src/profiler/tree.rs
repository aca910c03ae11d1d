//! The call tree of a finished recording: every call with its place
//! in time and the call that made it. It is kept beside the flat
//! statistics for the sake of the flame graph.

use vstd::prelude::*;
use super::trace::RecorderView;

verus! {

/// One call of a finished recording.
#[derive(Clone, Debug, PartialEq, Eq)]
pub struct CallNode {
    /// Name of the called function.
    pub name: String,
    /// Number of calls around this one.
    pub depth: usize,
    /// Position of the calling node; `None` for a top-level call.
    pub parent: Option<usize>,
    /// Time of entry, in nanoseconds since the recording began.
    pub start: u64,
    /// Inclusive time of the call in nanoseconds.
    pub duration: u64,
}

/// A `CallNode` as plain mathematical values.
pub struct CallNodeView {
    pub name: Seq<char>,
    pub depth: nat,
    pub parent: Option<int>,
    pub start: nat,
    pub duration: nat,
}

impl View for CallNode {
    type V = CallNodeView;

    open spec fn view(&self) -> CallNodeView {
        CallNodeView {
            name: self.name@,
            depth: self.depth as nat,
            parent: match self.parent {
                Some(p) => Some(p as int),
                None => None,
            },
            start: self.start as nat,
            duration: self.duration as nat,
        }
    }
}

/// The views of a sequence of nodes, in the same order.
pub open spec fn node_views(nodes: Seq<CallNode>) -> Seq<CallNodeView> {
    Seq::new(nodes.len(), |i: int| nodes[i]@)
}

/// A `CallTree` as plain mathematical values.
pub struct CallTreeView {
    /// The calls in the order of their entry.
    pub nodes: Seq<CallNodeView>,
    /// Length of the whole run in nanoseconds.
    pub span: nat,
}

impl CallTreeView {
    /// Whether node `i` lies within the run and within the call that made
    /// it, one level below it; a top-level call is at level zero.
    pub open spec fn node_ok(self, i: int) -> bool {
        let node = self.nodes[i];
        &&& node.start + node.duration <= self.span
        &&& match node.parent {
            Some(p) => {
                &&& 0 <= p < i
                &&& node.depth == self.nodes[p].depth + 1
                &&& self.nodes[p].start <= node.start
                &&& node.start + node.duration <= self.nodes[p].start + self.nodes[p].duration
            },
            None => node.depth == 0,
        }
    }

    /// What holds of every call tree.
    pub open spec fn wf(self) -> bool {
        forall|i: int| 0 <= i < self.nodes.len() ==> #[trigger] self.node_ok(i)
    }
}

/// The call tree of a recording in which no call is open.
pub open spec fn tree_of(state: RecorderView) -> CallTreeView {
    CallTreeView {
        nodes: Seq::new(
            state.frames.len(),
            |i: int|
                CallNodeView {
                    name: state.frames[i].name,
                    depth: state.frames[i].depth,
                    parent: state.frames[i].parent,
                    start: state.frames[i].start,
                    duration: match state.frames[i].elapsed {
                        Some(e) => e,
                        None => 0,
                    },
                },
        ),
        span: state.now,
    }
}

/// The call tree of a recording with no call open is well formed.
pub proof fn lemma_tree_of_wf(state: RecorderView)
    requires
        state.inv(),
        state.stack.len() == 0,
    ensures
        tree_of(state).wf(),
{
    reveal(RecorderView::frames_ok);
    reveal(RecorderView::nesting_ok);
    state.lemma_idle();
    let tree = tree_of(state);
    assert forall|i: int| 0 <= i < tree.nodes.len() implies #[trigger] tree.node_ok(i) by {
        let f = state.frames[i];
        assert(f.elapsed is Some);
        if let Some(p) = f.parent {
            assert(state.frames[p].elapsed is Some);
        }
    }
}

/// The call tree of a finished recording.
#[derive(Debug, PartialEq, Eq)]
pub struct CallTree {
    nodes: Vec<CallNode>,
    span: u64,
}

impl View for CallTree {
    type V = CallTreeView;

    closed spec fn view(&self) -> CallTreeView {
        CallTreeView { nodes: node_views(self.nodes@), span: self.span as nat }
    }
}

impl CallTree {
    #[verifier::type_invariant]
    closed spec fn valid(&self) -> bool {
        self@.wf()
    }

    /// Puts a tree together from nodes that are known to fit.
    pub(crate) fn assemble(nodes: Vec<CallNode>, span: u64) -> (tree: CallTree)
        requires
            (CallTreeView { nodes: node_views(nodes@), span: span as nat }).wf(),
        ensures
            tree@ == (CallTreeView { nodes: node_views(nodes@), span: span as nat }),
            tree@.wf(),
    {
        CallTree { nodes, span }
    }

    /// The calls in the order of their entry.
    pub fn nodes(&self) -> (nodes: &Vec<CallNode>)
        ensures
            node_views(nodes@) == self@.nodes,
            self@.wf(),
    {
        proof {
            use_type_invariant(self);
        }
        &self.nodes
    }

    /// Length of the whole run in nanoseconds.
    pub fn span(&self) -> (span: u64)
        ensures
            span == self@.span,
    {
        self.span
    }
}

} // verus!
