//! The layout tree: split containers (`Span`) and panes (`Void` leaves).

use vstd::prelude::*;

verus! {

/// The axis along which a span lays its children out.
#[derive(Clone, Copy, Debug, PartialEq, Eq, Structural)]
pub enum SpanDirection {
    Horizontal,
    Vertical,
}

/// The weight a fresh child starts with.  Weights are relative: siblings
/// share the axis in proportion to their weights, so the unit only sets
/// the granularity that later averaged weights can take.
pub const DEFAULT_WEIGHT: u64 = 1024;

/// Weights stay within `[1, MAX_WEIGHT]` so that every share and average
/// the layout computes fits comfortably in machine integers.
pub const MAX_WEIGHT: u64 = 0x1_0000_0000;

/// A span never holds more children than this; together with
/// `MAX_WEIGHT` it bounds the total weight of a span by `2^60`.
pub const MAX_CHILDREN: usize = 0x1000_0000;

/// What a tree node is: an inner split or a leaf pane.
#[derive(Debug)]
pub enum NodeData {
    Span(Span),
    Void,
}

/// An inner node: a direction and at least one weighted child.
#[derive(Debug)]
pub struct Span {
    pub direction: SpanDirection,
    pub children: Vec<SpanChild>,
}

/// A child of a span: its relative weight and its subtree.
#[derive(Debug)]
pub struct SpanChild {
    pub size: u64,
    pub node: Node,
}

/// A tree node: a unique id and its payload.
#[derive(Debug)]
pub struct Node {
    pub id: usize,
    pub data: NodeData,
}

/// All ids in the subtree rooted at `n`.
pub open spec fn node_ids(n: Node) -> Set<int>
    decreases n,
{
    match n.data {
        NodeData::Void => set![n.id as int],
        NodeData::Span(s) => set![n.id as int].union(children_ids(s.children@)),
    }
}

/// All ids in the given child list.
pub open spec fn children_ids(cs: Seq<SpanChild>) -> Set<int>
    decreases cs,
{
    if cs.len() == 0 {
        Set::empty()
    } else {
        children_ids(cs.drop_last()).union(node_ids(cs.last().node))
    }
}

/// Well-formedness of a subtree: every span holds between one and
/// `MAX_CHILDREN` children, every weight lies in `[1, MAX_WEIGHT]`, and
/// ids never repeat: a node's id occurs in no child subtree and the
/// children's id sets are pairwise disjoint.
pub open spec fn node_wf(n: Node) -> bool
    decreases n,
{
    match n.data {
        NodeData::Void => true,
        NodeData::Span(s) => {
            let cs = s.children@;
            &&& 1 <= cs.len() <= MAX_CHILDREN
            &&& forall|i: int| 0 <= i < cs.len() ==> 1 <= (#[trigger] cs[i]).size <= MAX_WEIGHT
            &&& forall|i: int| 0 <= i < cs.len() ==> node_wf((#[trigger] cs[i]).node)
            &&& forall|i: int|
                0 <= i < cs.len() ==> !node_ids((#[trigger] cs[i]).node).contains(n.id as int)
            &&& forall|i: int, j: int|
                0 <= i < cs.len() && 0 <= j < cs.len() && i != j ==> node_ids(
                    (#[trigger] cs[i]).node,
                ).disjoint(node_ids((#[trigger] cs[j]).node))
        },
    }
}

/// Membership in `children_ids` is membership in some child subtree.
pub proof fn lemma_children_ids_index(cs: Seq<SpanChild>, id: int)
    ensures
        children_ids(cs).contains(id) <==> exists|i: int|
            0 <= i < cs.len() && node_ids(#[trigger] cs[i].node).contains(id),
    decreases cs,
{
    if cs.len() > 0 {
        lemma_children_ids_index(cs.drop_last(), id);
        if children_ids(cs).contains(id) {
            if node_ids(cs.last().node).contains(id) {
                assert(node_ids(cs[cs.len() - 1].node).contains(id));
            } else {
                let i = choose|i: int|
                    0 <= i < cs.drop_last().len() && node_ids(
                        #[trigger] cs.drop_last()[i].node,
                    ).contains(id);
                assert(node_ids(cs[i].node).contains(id));
            }
        }
        if exists|i: int| 0 <= i < cs.len() && node_ids(#[trigger] cs[i].node).contains(id) {
            let i = choose|i: int|
                0 <= i < cs.len() && node_ids(#[trigger] cs[i].node).contains(id);
            if i == cs.len() - 1 {
                assert(children_ids(cs).contains(id));
            } else {
                assert(cs.drop_last()[i] == cs[i]);
                assert(children_ids(cs.drop_last()).contains(id));
            }
        }
    }
}

impl Span {
    /// A span with no children yet; callers add at least one before the
    /// tree is used.
    pub fn new(kind: SpanDirection) -> (r: Self)
        ensures
            r.direction == kind,
            r.children@ =~= Seq::<SpanChild>::empty(),
    {
        Span { direction: kind, children: Vec::new() }
    }
}

impl NodeData {
    /// A fresh leaf payload.
    pub fn new() -> (r: Self)
        ensures
            r is Void,
    {
        NodeData::Void
    }
}

impl SpanChild {
    pub fn new(child: Node) -> (r: Self)
        ensures
            r.size == DEFAULT_WEIGHT,
            r.node == child,
    {
        SpanChild { size: DEFAULT_WEIGHT, node: child }
    }

    pub fn with_size(self, size: u64) -> (r: Self)
        ensures
            r.size == size,
            r.node == self.node,
    {
        SpanChild { size, node: self.node }
    }
}

impl Node {
    pub fn new(id: usize, data: NodeData) -> (r: Self)
        ensures
            r.id == id,
            r.data == data,
    {
        Self { id, data }
    }

    pub fn id(&self) -> (r: usize)
        ensures
            r == self.id,
    {
        self.id
    }

    /// Whether `id` occurs anywhere in this subtree.
    pub fn contains_id(&self, id: usize) -> (r: bool)
        ensures
            r == node_ids(*self).contains(id as int),
        decreases *self,
    {
        if self.id == id {
            return true;
        }
        match &self.data {
            NodeData::Void => false,
            NodeData::Span(span) => {
                let n = span.children.len();
                let mut i: usize = 0;
                while i < n
                    invariant
                        0 <= i <= n,
                        n == span.children@.len(),
                        self.id != id,
                        node_ids(*self) == set![self.id as int].union(children_ids(span.children@)),
                        !children_ids(span.children@.take(i as int)).contains(id as int),
                        decreases_to!(*self => *span),
                    decreases n - i,
                {
                    proof {
                        assert(span.children@.take(i as int + 1).drop_last() =~= span
                            .children@.take(i as int));
                        assert(span.children@.take(i as int + 1).last() == span.children@[i as int]);
                        assert(decreases_to!(*span => span.children@[i as int].node));
                    }
                    if span.children[i].node.contains_id(id) {
                        proof {
                            lemma_children_ids_index(span.children@, id as int);
                        }
                        return true;
                    }
                    i = i + 1;
                }
                proof {
                    assert(span.children@.take(n as int) =~= span.children@);
                }
                false
            },
        }
    }
}

} // verus!
