//! Restructuring of the layout tree: inserting a pane for a fresh id and
//! removing a pane, with the automatic collapse of emptied spans.

use vstd::prelude::*;
use crate::layout::{span_child_rect, span_extent, sum_weights, weights_of};
use crate::rect::Rect;
use crate::view::view_rect_wf;
use crate::span::{
    children_ids, lemma_children_ids_index, node_ids, node_wf, Node, NodeData, Span, SpanChild,
    SpanDirection, DEFAULT_WEIGHT,
};

verus! {

/// Why a tree operation failed.
#[derive(Clone, Copy, Debug, PartialEq, Eq, Structural)]
pub enum LayoutError {
    /// The requested id is nowhere in the tree.
    NodeNotFound,
    /// The active node has no parent span to splice a sibling into.
    ParentNotFound,
}

/// What removing an id from inside a subtree did to it.
pub enum RemoveOutcome {
    /// The id is not in this subtree; the tree is handed back unchanged.
    NotFound(Node),
    /// The id was removed; the rebuilt subtree and the id of the child
    /// that becomes active.
    Removed(Node, usize),
    /// Removing the id emptied this subtree entirely; the caller must
    /// discard it.
    Collapsed,
}

/// Removing `id` from the subtree `n` empties it: every span on the way
/// down holds a single child, at the bottom of which `id` sits.
pub open spec fn remove_collapses(n: Node, id: int) -> bool
    decreases n,
{
    match n.data {
        NodeData::Void => false,
        NodeData::Span(s) => s.children@.len() == 1 && (s.children@[0].node.id == id
            || remove_collapses(s.children@[0].node, id)),
    }
}

/// How a subtree that survives the removal of `id` relates to its old
/// self: some child either vanished (it was the id, or collapsed) and
/// the last remaining sibling became active, or the removal happened
/// deeper inside one child and only that child changed.
pub open spec fn remove_rel(n: Node, m: Node, a: int, id: int) -> bool
    decreases n,
{
    match n.data {
        NodeData::Void => false,
        NodeData::Span(s) => {
            let cs = s.children@;
            match m.data {
                NodeData::Void => false,
                NodeData::Span(s2) => m.id == n.id && s2.direction == s.direction && exists|k: int|
                    #![trigger cs[k]]
                    0 <= k < cs.len() && {
                        ||| ((cs[k].node.id == id || remove_collapses(cs[k].node, id)) && cs.len()
                            > 1 && s2.children@ == cs.remove(k) && a == cs.remove(
                            k,
                        ).last().node.id)
                        ||| (cs[k].node.id != id && node_ids(cs[k].node).contains(id)
                            && !remove_collapses(cs[k].node, id) && s2.children@.len() == cs.len()
                            && (forall|j: int|
                            0 <= j < cs.len() && j != k ==> #[trigger] s2.children@[j] == cs[j])
                            && s2.children@[k].size == cs[k].size && remove_rel(
                            cs[k].node,
                            s2.children@[k].node,
                            a,
                            id,
                        ))
                    },
            }
        },
    }
}

/// A node always holds its own id.
pub proof fn lemma_node_ids_self(n: Node)
    ensures
        node_ids(n).contains(n.id as int),
{
    match n.data {
        NodeData::Void => {},
        NodeData::Span(s) => {},
    }
}

/// Removing an element of a child list keeps the remaining ids.
pub proof fn lemma_children_ids_remove(cs: Seq<SpanChild>, k: int, id: int)
    requires
        0 <= k < cs.len(),
    ensures
        children_ids(cs.remove(k)).contains(id) ==> children_ids(cs).contains(id),
{
    lemma_children_ids_index(cs, id);
    lemma_children_ids_index(cs.remove(k), id);
    if children_ids(cs.remove(k)).contains(id) {
        let i = choose|i: int|
            0 <= i < cs.remove(k).len() && node_ids(#[trigger] cs.remove(k)[i].node).contains(id);
        if i < k {
            assert(cs.remove(k)[i] == cs[i]);
            assert(node_ids(cs[i].node).contains(id));
        } else {
            assert(cs.remove(k)[i] == cs[i + 1]);
            assert(node_ids(cs[i + 1].node).contains(id));
        }
    }
}

/// Removes the node with the given id from the subtree, collapsing
/// emptied spans.  The returned outcome relates old and new subtree as
/// `remove_rel` states.
#[verifier::loop_isolation(false)]
fn remove_rec(node: Node, id: usize) -> (r: RemoveOutcome)
    requires
        node_wf(node),
        node.id != id,
    ensures
        match r {
            RemoveOutcome::NotFound(m) => m == node && !node_ids(node).contains(id as int),
            RemoveOutcome::Removed(m, a) => {
                &&& remove_rel(node, m, a as int, id as int)
                &&& node_wf(m)
                &&& node_ids(m).subset_of(node_ids(node))
                &&& !node_ids(m).contains(id as int)
                &&& node_ids(m).contains(a as int)
                &&& m.id == node.id
            },
            RemoveOutcome::Collapsed => remove_collapses(node, id as int),
        },
        (r is NotFound) == !node_ids(node).contains(id as int),
    decreases node,
{
    let ghost n0 = node;
    proof {
        lemma_node_ids_self(node);
    }
    let Node { id: my_id, data } = node;
    match data {
        NodeData::Void => RemoveOutcome::NotFound(Node { id: my_id, data: NodeData::Void }),
        NodeData::Span(s) => {
            let Span { direction, mut children } = s;
            let ghost children0 = children;
            let ghost cs = children@;
            let mut k: usize = 0;
            while k < children.len()
                invariant
                    0 <= k <= cs.len(),
                    children == children0,
                    children@ == cs,
                    forall|j: int|
                        0 <= j < k ==> !node_ids((#[trigger] cs[j]).node).contains(id as int),
                decreases cs.len() - k,
            {
                let is_target = children[k].node.id() == id;
                let contains = if is_target {
                    true
                } else {
                    children[k].node.contains_id(id)
                };
                if contains {
                    proof {
                        lemma_node_ids_self(cs[k as int].node);
                    }
                    let child = children.remove(k);
                    if is_target {
                        if children.len() > 0 {
                            let a = children[children.len() - 1].node.id();
                            let m = Node {
                                id: my_id,
                                data: NodeData::Span(Span { direction, children }),
                            };
                            proof {
                                lemma_removed_wf(n0, m, a as int, id as int, k as int);
                                lemma_children_ids_index(cs, id as int);
                            }
                            return RemoveOutcome::Removed(m, a);
                        } else {
                            return RemoveOutcome::Collapsed;
                        }
                    }
                    let weight = child.size;
                    proof {
                        assert(decreases_to!(cs => cs[k as int]));
                    }
                    match remove_rec(child.node, id) {
                        RemoveOutcome::NotFound(_) => {
                            proof {
                                assert(false);
                            }
                            return RemoveOutcome::Collapsed;
                        },
                        RemoveOutcome::Removed(n2, a) => {
                            children.insert(k, SpanChild { size: weight, node: n2 });
                            let m = Node {
                                id: my_id,
                                data: NodeData::Span(Span { direction, children }),
                            };
                            proof {
                                assert(m.data->Span_0.children@ =~= cs.update(
                                    k as int,
                                    SpanChild { size: cs[k as int].size, node: n2 },
                                ));
                                lemma_replaced_wf(n0, m, a as int, id as int, k as int);
                                lemma_children_ids_index(cs, id as int);
                            }
                            return RemoveOutcome::Removed(m, a);
                        },
                        RemoveOutcome::Collapsed => {
                            if children.len() > 0 {
                                let a = children[children.len() - 1].node.id();
                                let m = Node {
                                    id: my_id,
                                    data: NodeData::Span(Span { direction, children }),
                                };
                                proof {
                                    lemma_removed_wf(n0, m, a as int, id as int, k as int);
                                    lemma_children_ids_index(cs, id as int);
                                }
                                return RemoveOutcome::Removed(m, a);
                            } else {
                                return RemoveOutcome::Collapsed;
                            }
                        },
                    }
                }
                k = k + 1;
            }
            proof {
                lemma_children_ids_index(cs, id as int);
            }
            RemoveOutcome::NotFound(
                Node { id: my_id, data: NodeData::Span(Span { direction, children }) },
            )
        },
    }
}

/// After dropping child `k` (the id itself or a collapsed subtree), the
/// rebuilt span is well formed, relates to the old tree as stated, and
/// its ids are the old ones minus the dropped subtree.
proof fn lemma_removed_wf(n: Node, m: Node, a: int, id: int, k: int)
    requires
        node_wf(n),
        n.id != id,
        n.data matches NodeData::Span(s) && 0 <= k < s.children@.len() && (s.children@[k].node.id
            == id || remove_collapses(s.children@[k].node, id)) && s.children@.len() > 1
            && node_ids(s.children@[k].node).contains(id),
        m.id == n.id,
        m.data matches NodeData::Span(s2) && s2.direction == n.data->Span_0.direction
            && s2.children@ == n.data->Span_0.children@.remove(k),
        a == n.data->Span_0.children@.remove(k).last().node.id,
    ensures
        remove_rel(n, m, a, id),
        node_wf(m),
        node_ids(m).subset_of(node_ids(n)),
        !node_ids(m).contains(id),
        node_ids(m).contains(a),
{
    let s = n.data->Span_0;
    let cs = s.children@;
    let s2 = m.data->Span_0;
    let cs2 = cs.remove(k);
    assert forall|j: int| 0 <= j < cs2.len() implies (if j < k {
        cs2[j] == cs[j]
    } else {
        cs2[j] == cs[j + 1]
    }) by {}
    assert(node_wf(m)) by {
        assert forall|i: int| 0 <= i < cs2.len() implies 1 <= (#[trigger] cs2[i]).size
            <= crate::span::MAX_WEIGHT && node_wf(cs2[i].node) && !node_ids(cs2[i].node).contains(
            m.id as int,
        ) by {
            if i < k {
                assert(cs2[i] == cs[i]);
            } else {
                assert(cs2[i] == cs[i + 1]);
            }
        }
        assert forall|i: int, j: int|
            0 <= i < cs2.len() && 0 <= j < cs2.len() && i != j implies node_ids(
            (#[trigger] cs2[i]).node,
        ).disjoint(node_ids((#[trigger] cs2[j]).node)) by {
            let i0 = if i < k {
                i
            } else {
                i + 1
            };
            let j0 = if j < k {
                j
            } else {
                j + 1
            };
            assert(cs2[i] == cs[i0]);
            assert(cs2[j] == cs[j0]);
            assert(node_ids(cs[i0].node).disjoint(node_ids(cs[j0].node)));
        }
    }
    assert(remove_rel(n, m, a, id)) by {
        assert(0 <= k < cs.len() && ((cs[k].node.id == id || remove_collapses(cs[k].node, id))
            && cs.len() > 1 && s2.children@ == cs.remove(k) && a == cs.remove(k).last().node.id));
    }
    assert(node_ids(m).subset_of(node_ids(n)) && !node_ids(m).contains(id) && node_ids(m).contains(
        a,
    )) by {
        lemma_children_ids_index(cs, id);
        lemma_children_ids_index(cs2, id);
        assert forall|x: int| node_ids(m).contains(x) implies node_ids(n).contains(x) by {
            if x != m.id {
                lemma_children_ids_remove(cs, k, x);
            }
        }
        if children_ids(cs2).contains(id) {
            let i = choose|i: int|
                0 <= i < cs2.len() && node_ids(#[trigger] cs2[i].node).contains(id);
            let i0 = if i < k {
                i
            } else {
                i + 1
            };
            assert(cs2[i] == cs[i0]);
            assert(node_ids(cs[k].node).disjoint(node_ids(cs[i0].node)));
        }
        let last = cs2.len() - 1;
        lemma_node_ids_self(cs2[last].node);
        lemma_children_ids_index(cs2, a);
    }
}

/// After replacing child `k` by its rebuilt subtree, the span is well
/// formed and relates to the old tree as stated.
proof fn lemma_replaced_wf(n: Node, m: Node, a: int, id: int, k: int)
    requires
        node_wf(n),
        n.id != id,
        n.data matches NodeData::Span(s) && 0 <= k < s.children@.len() && s.children@[k].node.id
            != id && node_ids(s.children@[k].node).contains(id) && !remove_collapses(
            s.children@[k].node,
            id,
        ),
        m.id == n.id,
        m.data matches NodeData::Span(s2) && s2.direction == n.data->Span_0.direction
            && s2.children@ == n.data->Span_0.children@.update(
            k,
            SpanChild {
                size: n.data->Span_0.children@[k].size,
                node: s2.children@[k].node,
            },
        ),
        remove_rel(n.data->Span_0.children@[k].node, m.data->Span_0.children@[k].node, a, id),
        node_wf(m.data->Span_0.children@[k].node),
        node_ids(m.data->Span_0.children@[k].node).subset_of(
            node_ids(n.data->Span_0.children@[k].node),
        ),
        !node_ids(m.data->Span_0.children@[k].node).contains(id),
        node_ids(m.data->Span_0.children@[k].node).contains(a),
    ensures
        remove_rel(n, m, a, id),
        node_wf(m),
        node_ids(m).subset_of(node_ids(n)),
        !node_ids(m).contains(id),
        node_ids(m).contains(a),
{
    let s = n.data->Span_0;
    let cs = s.children@;
    let s2 = m.data->Span_0;
    let cs2 = s2.children@;
    assert(cs2.len() == cs.len());
    assert forall|j: int| 0 <= j < cs.len() && j != k implies #[trigger] cs2[j] == cs[j] by {}
    assert(node_wf(m)) by {
        assert forall|i: int| 0 <= i < cs2.len() implies 1 <= (#[trigger] cs2[i]).size
            <= crate::span::MAX_WEIGHT && node_wf(cs2[i].node) && !node_ids(cs2[i].node).contains(
            m.id as int,
        ) by {
            if i != k {
                assert(cs2[i] == cs[i]);
            }
        }
        assert forall|i: int, j: int|
            0 <= i < cs2.len() && 0 <= j < cs2.len() && i != j implies node_ids(
            (#[trigger] cs2[i]).node,
        ).disjoint(node_ids((#[trigger] cs2[j]).node)) by {
            assert(node_ids(cs[i].node).disjoint(node_ids(cs[j].node)));
        }
    }
    assert(remove_rel(n, m, a, id)) by {
        assert(0 <= k < cs.len() && (cs[k].node.id != id && node_ids(cs[k].node).contains(id)
            && !remove_collapses(cs[k].node, id) && cs2.len() == cs.len() && (forall|j: int|
            0 <= j < cs.len() && j != k ==> #[trigger] cs2[j] == cs[j]) && cs2[k].size == cs[k].size
            && remove_rel(cs[k].node, cs2[k].node, a, id)));
    }
    assert(node_ids(m).subset_of(node_ids(n)) && !node_ids(m).contains(id) && node_ids(m).contains(
        a,
    )) by {
        lemma_children_ids_index(cs2, id);
        lemma_children_ids_index(cs2, a);
        assert(node_ids(cs2[k].node).contains(a));
        assert forall|x: int| node_ids(m).contains(x) implies node_ids(n).contains(x) by {
            if x != m.id {
                lemma_children_ids_index(cs2, x);
                lemma_children_ids_index(cs, x);
                let i = choose|i: int|
                    0 <= i < cs2.len() && node_ids(#[trigger] cs2[i].node).contains(x);
                if i == k {
                    assert(node_ids(cs[k].node).contains(x));
                } else {
                    assert(cs2[i] == cs[i]);
                }
            }
        }
        if children_ids(cs2).contains(id) {
            let i = choose|i: int|
                0 <= i < cs2.len() && node_ids(#[trigger] cs2[i].node).contains(id);
            assert(i != k);
            assert(cs2[i] == cs[i]);
            assert(node_ids(cs[k].node).disjoint(node_ids(cs[i].node)));
        }
    }
}

/// Removes the node with the given id.  Removing the root id empties
/// the whole tree and yields `Ok(None)`: no pane is left and the caller
/// must shut down.  Otherwise the id's subtree is dropped, emptied
/// ancestor spans collapse away, and the last remaining sibling of the
/// dropped node becomes the active one, returned as `Ok(Some(..))`.
/// An id that is nowhere in the tree leaves it unchanged and yields
/// `Err(NodeNotFound)`.
pub fn remove_node(root: &mut Node, id: usize) -> (r: Result<Option<usize>, LayoutError>)
    requires
        node_wf(*old(root)),
    ensures
        node_wf(*final(root)),
        old(root).id == id ==> r == Ok::<Option<usize>, LayoutError>(None) && *final(root) == (Node {
            id: id,
            data: NodeData::Void,
        }),
        old(root).id != id && !node_ids(*old(root)).contains(id as int) ==> r == Err::<
            Option<usize>,
            LayoutError,
        >(LayoutError::NodeNotFound) && *final(root) == *old(root),
        old(root).id != id && node_ids(*old(root)).contains(id as int) && remove_collapses(
            *old(root),
            id as int,
        ) ==> r == Ok::<Option<usize>, LayoutError>(None) && *final(root) == (Node {
            id: old(root).id,
            data: NodeData::Void,
        }),
        old(root).id != id && node_ids(*old(root)).contains(id as int) && !remove_collapses(
            *old(root),
            id as int,
        ) ==> (r matches Ok(or) && or matches Some(a) && remove_rel(
            *old(root),
            *final(root),
            a as int,
            id as int,
        ) && node_ids(*final(root)).contains(a as int) && !node_ids(*final(root)).contains(
            id as int,
        ) && node_ids(*final(root)).subset_of(node_ids(*old(root)))),
{
    if root.id() == id {
        let my_id = root.id();
        *root = Node { id: my_id, data: NodeData::Void };
        return Ok(None);
    }
    let my_id = root.id();
    let mut owned = Node { id: my_id, data: NodeData::Void };
    core::mem::swap(root, &mut owned);
    match remove_rec(owned, id) {
        RemoveOutcome::NotFound(m) => {
            *root = m;
            Err(LayoutError::NodeNotFound)
        },
        RemoveOutcome::Removed(m, a) => {
            *root = m;
            Ok(Some(a))
        },
        RemoveOutcome::Collapsed => {
            Ok(None)
        },
    }
}

/// The number of nodes in a subtree.
pub open spec fn node_count(n: Node) -> int
    decreases n,
{
    match n.data {
        NodeData::Void => 1,
        NodeData::Span(s) => 1 + children_count(s.children@),
    }
}

/// The number of nodes in all the subtrees of a child list.
pub open spec fn children_count(cs: Seq<SpanChild>) -> int
    decreases cs,
{
    if cs.len() == 0 {
        0
    } else {
        children_count(cs.drop_last()) + node_count(cs.last().node)
    }
}

pub proof fn lemma_node_count_pos(n: Node)
    ensures
        node_count(n) >= 1,
    decreases n, 0int,
{
    match n.data {
        NodeData::Void => {},
        NodeData::Span(s) => {
            lemma_children_count_bounds(s.children@);
        },
    }
}

/// A child list holds at least one node per child, and each child
/// subtree counts no more than the whole list.
pub proof fn lemma_children_count_bounds(cs: Seq<SpanChild>)
    ensures
        children_count(cs) >= cs.len(),
        forall|k: int|
            0 <= k < cs.len() ==> node_count((#[trigger] cs[k]).node) <= children_count(cs),
    decreases cs, 0int,
{
    if cs.len() > 0 {
        lemma_children_count_bounds(cs.drop_last());
        lemma_node_count_pos(cs.last().node);
        assert forall|k: int| 0 <= k < cs.len() implies node_count((#[trigger] cs[k]).node)
            <= children_count(cs) by {
            if k < cs.len() - 1 {
                assert(cs.drop_last()[k] == cs[k]);
            }
        }
    }
}

/// Replacing one child changes the count by its subtree's difference.
proof fn lemma_children_count_update(cs: Seq<SpanChild>, k: int, c: SpanChild)
    requires
        0 <= k < cs.len(),
    ensures
        children_count(cs.update(k, c)) == children_count(cs) - node_count(cs[k].node) + node_count(
            c.node,
        ),
    decreases cs,
{
    if k == cs.len() - 1 {
        assert(cs.update(k, c).drop_last() =~= cs.drop_last());
    } else {
        assert(cs.update(k, c).drop_last() =~= cs.drop_last().update(k, c));
        lemma_children_count_update(cs.drop_last(), k, c);
    }
}

/// Appending a child adds its subtree's count.
proof fn lemma_children_count_push(cs: Seq<SpanChild>, c: SpanChild)
    ensures
        children_count(cs.push(c)) == children_count(cs) + node_count(c.node),
{
    assert(cs.push(c).drop_last() =~= cs);
    assert(cs.push(c).last() == c);
}

/// The perpendicular direction.
pub open spec fn perp(d: SpanDirection) -> SpanDirection {
    match d {
        SpanDirection::Horizontal => SpanDirection::Vertical,
        SpanDirection::Vertical => SpanDirection::Horizontal,
    }
}

/// The average weight of a span's children, rounded down.
pub open spec fn avg_weight(cs: Seq<SpanChild>) -> int {
    sum_weights(weights_of(cs)) / (cs.len() as int)
}

/// The nesting test of the insertion heuristic: when the pane that a
/// plain append would create were thinner along the span's axis than
/// the active pane's cross extent, nest a perpendicular split instead.
/// The comparison is the exact rational form of
/// `cross > extent * avg / (total + avg)`.
pub open spec fn nests(s: Span, rect: Rect, k: int) -> bool {
    let cs = s.children@;
    let total = sum_weights(weights_of(cs));
    let avg = avg_weight(cs);
    let extent = span_extent(s.direction, rect);
    let crect = span_child_rect(s, rect, k);
    let cross = match s.direction {
        SpanDirection::Horizontal => crect.size.y as int,
        SpanDirection::Vertical => crect.size.x as int,
    };
    cross * (total + avg) > extent * avg
}

/// The fresh perpendicular split that nesting creates: the old active
/// node on top (or left), the new pane below (or right), equal weights.
pub open spec fn is_nest_node(
    x: Node,
    dir: SpanDirection,
    old_child: Node,
    new_id: int,
    container: int,
) -> bool {
    x.id == container && match x.data {
        NodeData::Void => false,
        NodeData::Span(inner) => inner.direction == perp(dir) && inner.children@.len() == 2
            && inner.children@[0] == (SpanChild { size: DEFAULT_WEIGHT, node: old_child })
            && inner.children@[1] == (SpanChild {
            size: DEFAULT_WEIGHT,
            node: Node { id: new_id as usize, data: NodeData::Void },
        }),
    }
}

/// How a subtree with the new pane spliced in relates to its old self.
/// At the span that directly holds the active node, the new pane either
/// replaces the active child by a fresh perpendicular split holding the
/// old child and the new pane (when `nests` holds, using the container
/// id), or joins the span as a last sibling with the average weight.
/// Above that span, exactly the child on the path to the active node
/// changed.
pub open spec fn insert_rel(
    n: Node,
    m: Node,
    rect: Rect,
    active: int,
    new_id: int,
    container: int,
    used: bool,
) -> bool
    decreases n,
{
    match n.data {
        NodeData::Void => false,
        NodeData::Span(s) => {
            let cs = s.children@;
            match m.data {
                NodeData::Void => false,
                NodeData::Span(s2) => m.id == n.id && s2.direction == s.direction && exists|k: int|
                    #![trigger cs[k]]
                    0 <= k < cs.len() && {
                        ||| (cs[k].node.id == active && nests(s, rect, k) && used
                            && s2.children@.len() == cs.len() && (forall|j: int|
                            0 <= j < cs.len() && j != k ==> #[trigger] s2.children@[j] == cs[j])
                            && s2.children@[k].size == cs[k].size && is_nest_node(
                            s2.children@[k].node,
                            s.direction,
                            cs[k].node,
                            new_id,
                            container,
                        ))
                        ||| (cs[k].node.id == active && !nests(s, rect, k) && !used
                            && s2.children@.len() == cs.len() + 1 && (forall|j: int|
                            0 <= j < cs.len() ==> #[trigger] s2.children@[j] == cs[j])
                            && s2.children@[cs.len() as int].size == avg_weight(cs)
                            && s2.children@[cs.len() as int].node == (Node {
                            id: new_id as usize,
                            data: NodeData::Void,
                        }))
                        ||| (cs[k].node.id != active && node_ids(cs[k].node).contains(active)
                            && s2.children@.len() == cs.len() && (forall|j: int|
                            0 <= j < cs.len() && j != k ==> #[trigger] s2.children@[j] == cs[j])
                            && s2.children@[k].size == cs[k].size && insert_rel(
                            cs[k].node,
                            s2.children@[k].node,
                            span_child_rect(s, rect, k),
                            active,
                            new_id,
                            container,
                            used,
                        ))
                    },
            }
        },
    }
}

/// Weight sums are bounded by count times the largest weight.
pub proof fn lemma_sum_weights_upper(ws: Seq<u64>, b: int)
    requires
        forall|i: int| 0 <= i < ws.len() ==> #[trigger] ws[i] <= b,
    ensures
        sum_weights(ws) <= ws.len() * b,
    decreases ws,
{
    if ws.len() > 0 {
        lemma_sum_weights_upper(ws.drop_last(), b);
        assert(ws.len() * b == (ws.len() - 1) * b + b) by (nonlinear_arith);
    }
}

/// The average weight of a well-formed span's children is itself a
/// valid weight.
pub proof fn lemma_avg_weight_bounds(cs: Seq<SpanChild>)
    requires
        1 <= cs.len(),
        forall|i: int| 0 <= i < cs.len() ==> 1 <= (#[trigger] cs[i]).size <= crate::span::MAX_WEIGHT,
    ensures
        1 <= avg_weight(cs) <= crate::span::MAX_WEIGHT,
{
    let ws = weights_of(cs);
    let len = cs.len() as int;
    assert forall|i: int| 0 <= i < ws.len() implies 1 <= #[trigger] ws[i]
        <= crate::span::MAX_WEIGHT by {
        assert(ws[i] == cs[i].size);
    }
    crate::layout::lemma_sum_weights_bounds(ws);
    lemma_sum_weights_upper(ws, crate::span::MAX_WEIGHT as int);
    let total = sum_weights(ws);
    vstd::arithmetic::div_mod::lemma_div_is_ordered(len, total, len);
    vstd::arithmetic::div_mod::lemma_div_by_self(len);
    vstd::arithmetic::div_mod::lemma_div_is_ordered(
        total,
        len * (crate::span::MAX_WEIGHT as int),
        len,
    );
    vstd::arithmetic::div_mod::lemma_div_multiples_vanish(crate::span::MAX_WEIGHT as int, len);
}

/// How the insertion went inside a subtree.
pub enum InsertStatus {
    /// The active id is not below this node; the tree is unchanged.
    NotFound,
    /// The pane was spliced in; the flag says whether the container id
    /// was consumed for a nested split.
    Inserted(bool),
}

/// Ids of a child list after appending a child.
proof fn lemma_children_ids_push(cs: Seq<SpanChild>, c: SpanChild)
    ensures
        children_ids(cs.push(c)) == children_ids(cs).union(node_ids(c.node)),
{
    assert(cs.push(c).drop_last() =~= cs);
    assert(cs.push(c).last() == c);
}

/// After nesting the new pane next to the active child `k`, the span is
/// well formed, relates as `insert_rel` states, and gained exactly the
/// two fresh ids.
proof fn lemma_insert_nest_wf(
    n: Node,
    m: Node,
    rect: Rect,
    active: int,
    new_id: int,
    container: int,
    k: int,
)
    requires
        node_wf(n),
        view_rect_wf(rect),
        !node_ids(n).contains(new_id),
        !node_ids(n).contains(container),
        new_id != container,
        new_id == new_id as usize as int,
        n.data matches NodeData::Span(s) && 0 <= k < s.children@.len() && s.children@[k].node.id
            == active && nests(s, rect, k),
        m.id == n.id,
        m.data matches NodeData::Span(s2) && s2.direction == n.data->Span_0.direction
            && s2.children@.len() == n.data->Span_0.children@.len() && (forall|j: int|
            0 <= j < s2.children@.len() && j != k ==> #[trigger] s2.children@[j]
                == n.data->Span_0.children@[j]) && s2.children@[k].size
            == n.data->Span_0.children@[k].size && is_nest_node(
            s2.children@[k].node,
            n.data->Span_0.direction,
            n.data->Span_0.children@[k].node,
            new_id,
            container,
        ),
    ensures
        insert_rel(n, m, rect, active, new_id, container, true),
        node_wf(m),
        m.id == n.id,
        node_ids(m) == node_ids(n).insert(new_id).insert(container),
        node_count(m) == node_count(n) + 2,
{
    let s = n.data->Span_0;
    let cs = s.children@;
    let s2 = m.data->Span_0;
    let cs2 = s2.children@;
    let x = cs2[k].node;
    let inner = x.data->Span_0;
    assert(node_count(m) == node_count(n) + 2) by {
        let ic = inner.children@;
        assert(ic.last() == ic[1]);
        assert(ic.drop_last() =~= seq![ic[0]]);
        assert(children_count(ic) == children_count(seq![ic[0]]) + node_count(ic[1].node));
        assert(seq![ic[0]].last() == ic[0]);
        assert(seq![ic[0]].drop_last() =~= Seq::<SpanChild>::empty());
        assert(children_count(seq![ic[0]]) == children_count(Seq::<SpanChild>::empty())
            + node_count(ic[0].node));
        assert(node_count(x) == node_count(cs[k].node) + 2);
        assert(cs2 =~= cs.update(k, cs2[k]));
        lemma_children_count_update(cs, k, cs2[k]);
    }
    assert(node_ids(x) =~= node_ids(cs[k].node).insert(new_id).insert(container)) by {
        let ic = inner.children@;
        assert(ic.last() == ic[1]);
        assert(ic.drop_last() =~= seq![ic[0]]);
        assert(children_ids(ic) == children_ids(seq![ic[0]]).union(node_ids(ic[1].node)));
        assert(seq![ic[0]].last() == ic[0]);
        assert(seq![ic[0]].drop_last() =~= Seq::<SpanChild>::empty());
        assert(children_ids(seq![ic[0]]) == children_ids(Seq::<SpanChild>::empty()).union(
            node_ids(ic[0].node),
        ));
        assert(children_ids(Seq::<SpanChild>::empty()) =~= Set::<int>::empty());
        assert(node_ids(ic[1].node) =~= set![new_id]);
        assert(node_ids(ic[0].node) == node_ids(cs[k].node));
        assert(children_ids(ic) =~= node_ids(cs[k].node).insert(new_id));
    }
    assert(node_wf(x)) by {
        lemma_node_ids_self(cs[k].node);
        assert(node_wf(inner.children@[0].node));
        assert(node_wf(inner.children@[1].node));
        assert(node_ids(inner.children@[1].node) =~= set![new_id]);
        assert forall|i: int, j: int|
            0 <= i < 2 && 0 <= j < 2 && i != j implies node_ids(
            (#[trigger] inner.children@[i]).node,
        ).disjoint(node_ids((#[trigger] inner.children@[j]).node)) by {
            lemma_children_ids_index(cs, new_id);
            lemma_children_ids_index(cs, container);
        }
        assert forall|i: int| 0 <= i < 2 implies !node_ids(
            (#[trigger] inner.children@[i]).node,
        ).contains(x.id as int) by {
            lemma_children_ids_index(cs, container);
        }
    }
    assert(node_wf(m)) by {
        lemma_children_ids_index(cs, new_id);
        lemma_children_ids_index(cs, container);
        assert forall|i: int| 0 <= i < cs2.len() implies 1 <= (#[trigger] cs2[i]).size
            <= crate::span::MAX_WEIGHT && node_wf(cs2[i].node) && !node_ids(cs2[i].node).contains(
            m.id as int,
        ) by {
            if i != k {
                assert(cs2[i] == cs[i]);
            } else {
                lemma_node_ids_self(n);
            }
        }
        assert forall|i: int, j: int|
            0 <= i < cs2.len() && 0 <= j < cs2.len() && i != j implies node_ids(
            (#[trigger] cs2[i]).node,
        ).disjoint(node_ids((#[trigger] cs2[j]).node)) by {
            if i != k && j != k {
                assert(cs2[i] == cs[i]);
                assert(cs2[j] == cs[j]);
                assert(node_ids(cs[i].node).disjoint(node_ids(cs[j].node)));
            } else {
                let o = if i == k {
                    j
                } else {
                    i
                };
                assert(cs2[o] == cs[o]);
                assert(node_ids(cs[o].node).disjoint(node_ids(cs[k].node)));
            }
        }
    }
    assert(insert_rel(n, m, rect, active, new_id, container, true)) by {
        assert(0 <= k < cs.len() && (cs[k].node.id == active && nests(s, rect, k) && true
            && cs2.len() == cs.len() && (forall|j: int|
            0 <= j < cs.len() && j != k ==> #[trigger] cs2[j] == cs[j]) && cs2[k].size == cs[k].size
            && is_nest_node(cs2[k].node, s.direction, cs[k].node, new_id, container)));
    }
    assert(node_ids(m) =~= node_ids(n).insert(new_id).insert(container)) by {
        assert forall|z: int| node_ids(m).contains(z) implies node_ids(n).insert(new_id).insert(
            container,
        ).contains(z) by {
            if z != m.id {
                lemma_children_ids_index(cs2, z);
                let i = choose|i: int|
                    0 <= i < cs2.len() && node_ids(#[trigger] cs2[i].node).contains(z);
                lemma_children_ids_index(cs, z);
                if i != k {
                    assert(cs2[i] == cs[i]);
                } else {
                    if z != new_id && z != container {
                        assert(node_ids(cs[k].node).contains(z));
                    }
                }
            }
        }
        assert forall|z: int| node_ids(n).insert(new_id).insert(container).contains(
            z,
        ) implies node_ids(m).contains(z) by {
            lemma_children_ids_index(cs2, z);
            if z == new_id || z == container {
                assert(node_ids(cs2[k].node).contains(z));
            } else {
                if z != n.id {
                    lemma_children_ids_index(cs, z);
                    let i = choose|i: int|
                        0 <= i < cs.len() && node_ids(#[trigger] cs[i].node).contains(z);
                    if i != k {
                        assert(cs2[i] == cs[i]);
                    } else {
                        assert(node_ids(cs2[k].node).contains(z));
                    }
                }
            }
        }
    }
}

/// After appending the new pane as a sibling, the span is well formed,
/// relates as `insert_rel` states, and gained exactly the new id.
proof fn lemma_insert_append_wf(
    n: Node,
    m: Node,
    rect: Rect,
    active: int,
    new_id: int,
    container: int,
    k: int,
)
    requires
        node_wf(n),
        view_rect_wf(rect),
        !node_ids(n).contains(new_id),
        n.data matches NodeData::Span(s) && 0 <= k < s.children@.len() && s.children@[k].node.id
            == active && !nests(s, rect, k),
        m.id == n.id,
        m.data matches NodeData::Span(s2) && s2.direction == n.data->Span_0.direction
            && s2.children@ == n.data->Span_0.children@.push(
            SpanChild {
                size: avg_weight(n.data->Span_0.children@) as u64,
                node: Node { id: new_id as usize, data: NodeData::Void },
            },
        ),
        n.data->Span_0.children@.len() < crate::span::MAX_CHILDREN,
        0 <= new_id <= usize::MAX,
        new_id == new_id as usize as int,
    ensures
        insert_rel(n, m, rect, active, new_id, container, false),
        node_wf(m),
        m.id == n.id,
        node_ids(m) == node_ids(n).insert(new_id),
        node_count(m) == node_count(n) + 1,
{
    let s = n.data->Span_0;
    let cs = s.children@;
    let s2 = m.data->Span_0;
    let cs2 = s2.children@;
    let newc = SpanChild {
        size: avg_weight(cs) as u64,
        node: Node { id: new_id as usize, data: NodeData::Void },
    };
    lemma_avg_weight_bounds(cs);
    lemma_children_ids_push(cs, newc);
    lemma_children_count_push(cs, newc);
    assert(node_ids(newc.node) =~= set![new_id]);
    assert(node_wf(m)) by {
        assert forall|i: int| 0 <= i < cs2.len() implies 1 <= (#[trigger] cs2[i]).size
            <= crate::span::MAX_WEIGHT && node_wf(cs2[i].node) && !node_ids(cs2[i].node).contains(
            m.id as int,
        ) by {
            if i < cs.len() {
                assert(cs2[i] == cs[i]);
            } else {
                assert(cs2[i] == newc);
                lemma_node_ids_self(n);
            }
        }
        assert forall|i: int, j: int|
            0 <= i < cs2.len() && 0 <= j < cs2.len() && i != j implies node_ids(
            (#[trigger] cs2[i]).node,
        ).disjoint(node_ids((#[trigger] cs2[j]).node)) by {
            lemma_children_ids_index(cs, new_id);
            if i < cs.len() && j < cs.len() {
                assert(cs2[i] == cs[i]);
                assert(cs2[j] == cs[j]);
                assert(node_ids(cs[i].node).disjoint(node_ids(cs[j].node)));
            } else {
                let o = if i < cs.len() {
                    i
                } else {
                    j
                };
                assert(cs2[o] == cs[o]);
            }
        }
    }
    assert(insert_rel(n, m, rect, active, new_id, container, false)) by {
        assert(0 <= k < cs.len() && (cs[k].node.id == active && !nests(s, rect, k)
            && cs2.len() == cs.len() + 1 && (forall|j: int|
            0 <= j < cs.len() ==> #[trigger] cs2[j] == cs[j]) && cs2[cs.len() as int].size
            == avg_weight(cs) && cs2[cs.len() as int].node == (Node {
            id: new_id as usize,
            data: NodeData::Void,
        })));
    }
    assert(node_ids(m) =~= node_ids(n).insert(new_id));
}

/// After replacing the child on the path to the active node by its
/// rebuilt subtree, the span is well formed and relates as stated.
proof fn lemma_insert_replace_wf(
    n: Node,
    m: Node,
    rect: Rect,
    active: int,
    new_id: int,
    container: int,
    used: bool,
    k: int,
)
    requires
        node_wf(n),
        view_rect_wf(rect),
        !node_ids(n).contains(new_id),
        !node_ids(n).contains(container),
        new_id != container,
        n.data matches NodeData::Span(s) && 0 <= k < s.children@.len() && s.children@[k].node.id
            != active && node_ids(s.children@[k].node).contains(active),
        m.id == n.id,
        m.data matches NodeData::Span(s2) && s2.direction == n.data->Span_0.direction
            && s2.children@.len() == n.data->Span_0.children@.len() && (forall|j: int|
            0 <= j < s2.children@.len() && j != k ==> #[trigger] s2.children@[j]
                == n.data->Span_0.children@[j]) && s2.children@[k].size
            == n.data->Span_0.children@[k].size,
        insert_rel(
            n.data->Span_0.children@[k].node,
            m.data->Span_0.children@[k].node,
            span_child_rect(n.data->Span_0, rect, k),
            active,
            new_id,
            container,
            used,
        ),
        node_wf(m.data->Span_0.children@[k].node),
        m.data->Span_0.children@[k].node.id == n.data->Span_0.children@[k].node.id,
        node_ids(m.data->Span_0.children@[k].node) == if used {
            node_ids(n.data->Span_0.children@[k].node).insert(new_id).insert(container)
        } else {
            node_ids(n.data->Span_0.children@[k].node).insert(new_id)
        },
        node_count(m.data->Span_0.children@[k].node) == node_count(
            n.data->Span_0.children@[k].node,
        ) + if used {
            2int
        } else {
            1int
        },
    ensures
        insert_rel(n, m, rect, active, new_id, container, used),
        node_wf(m),
        m.id == n.id,
        node_ids(m) == if used {
            node_ids(n).insert(new_id).insert(container)
        } else {
            node_ids(n).insert(new_id)
        },
        node_count(m) == node_count(n) + if used {
            2int
        } else {
            1int
        },
{
    let s = n.data->Span_0;
    let cs = s.children@;
    let s2 = m.data->Span_0;
    let cs2 = s2.children@;
    assert(node_count(m) == node_count(n) + if used {
        2int
    } else {
        1int
    }) by {
        assert(cs2 =~= cs.update(k, cs2[k]));
        lemma_children_count_update(cs, k, cs2[k]);
    }
    assert(node_wf(m)) by {
        lemma_children_ids_index(cs, new_id);
        lemma_children_ids_index(cs, container);
        assert forall|i: int| 0 <= i < cs2.len() implies 1 <= (#[trigger] cs2[i]).size
            <= crate::span::MAX_WEIGHT && node_wf(cs2[i].node) && !node_ids(cs2[i].node).contains(
            m.id as int,
        ) by {
            if i != k {
                assert(cs2[i] == cs[i]);
            } else {
                lemma_node_ids_self(n);
            }
        }
        assert forall|i: int, j: int|
            0 <= i < cs2.len() && 0 <= j < cs2.len() && i != j implies node_ids(
            (#[trigger] cs2[i]).node,
        ).disjoint(node_ids((#[trigger] cs2[j]).node)) by {
            if i != k && j != k {
                assert(cs2[i] == cs[i]);
                assert(cs2[j] == cs[j]);
                assert(node_ids(cs[i].node).disjoint(node_ids(cs[j].node)));
            } else {
                let o = if i == k {
                    j
                } else {
                    i
                };
                assert(cs2[o] == cs[o]);
                assert(node_ids(cs[o].node).disjoint(node_ids(cs[k].node)));
            }
        }
    }
    assert(insert_rel(n, m, rect, active, new_id, container, used)) by {
        assert(0 <= k < cs.len() && (cs[k].node.id != active && node_ids(cs[k].node).contains(
            active,
        ) && cs2.len() == cs.len() && (forall|j: int|
            0 <= j < cs.len() && j != k ==> #[trigger] cs2[j] == cs[j]) && cs2[k].size == cs[k].size
            && insert_rel(
            cs[k].node,
            cs2[k].node,
            span_child_rect(s, rect, k),
            active,
            new_id,
            container,
            used,
        )));
    }
    let target = if used {
        node_ids(n).insert(new_id).insert(container)
    } else {
        node_ids(n).insert(new_id)
    };
    assert(node_ids(m) =~= target) by {
        assert forall|z: int| node_ids(m).contains(z) implies target.contains(z) by {
            if z != m.id {
                lemma_children_ids_index(cs2, z);
                let i = choose|i: int|
                    0 <= i < cs2.len() && node_ids(#[trigger] cs2[i].node).contains(z);
                lemma_children_ids_index(cs, z);
                if i != k {
                    assert(cs2[i] == cs[i]);
                }
            }
        }
        assert forall|z: int| target.contains(z) implies node_ids(m).contains(z) by {
            lemma_children_ids_index(cs2, z);
            if z == new_id || (used && z == container) {
                assert(node_ids(cs2[k].node).contains(z));
            } else {
                if z != n.id {
                    lemma_children_ids_index(cs, z);
                    let i = choose|i: int|
                        0 <= i < cs.len() && node_ids(#[trigger] cs[i].node).contains(z);
                    if i != k {
                        assert(cs2[i] == cs[i]);
                    } else {
                        assert(node_ids(cs2[k].node).contains(z));
                    }
                }
            }
        }
    }
}

/// Splices the new pane in next to the active node inside this subtree,
/// as `insert_rel` states; hands the tree back unchanged when the
/// active id is not below this node.
#[verifier::loop_isolation(false)]
fn insert_rec(node: Node, rect: Rect, active: usize, new_id: usize, container_id: usize) -> (r: (
    Node,
    InsertStatus,
))
    requires
        node_wf(node),
        view_rect_wf(rect),
        node_count(node) <= crate::span::MAX_CHILDREN,
        !node_ids(node).contains(new_id as int),
        !node_ids(node).contains(container_id as int),
        new_id != container_id,
    ensures
        match r.1 {
            InsertStatus::NotFound => r.0 == node && (node.data matches NodeData::Span(s)
                ==> !children_ids(s.children@).contains(active as int)),
            InsertStatus::Inserted(used) => {
                &&& insert_rel(
                    node,
                    r.0,
                    rect,
                    active as int,
                    new_id as int,
                    container_id as int,
                    used,
                )
                &&& node_wf(r.0)
                &&& r.0.id == node.id
                &&& node.data matches NodeData::Span(s) && children_ids(s.children@).contains(
                    active as int,
                )
                &&& node_ids(r.0) == if used {
                    node_ids(node).insert(new_id as int).insert(container_id as int)
                } else {
                    node_ids(node).insert(new_id as int)
                }
                &&& node_count(r.0) == node_count(node) + if used {
                    2int
                } else {
                    1int
                }
            },
        },
    decreases node,
{
    let ghost n0 = node;
    let Node { id: my_id, data } = node;
    match data {
        NodeData::Void => (Node { id: my_id, data: NodeData::Void }, InsertStatus::NotFound),
        NodeData::Span(s) => {
            let ghost s0 = s;
            let Span { direction, mut children } = s;
            let ghost children0 = children;
            let ghost cs = children@;
            proof {
                lemma_children_count_bounds(cs);
            }
            let extent: i32 = match direction {
                SpanDirection::Horizontal => rect.size.x,
                SpanDirection::Vertical => rect.size.y,
            };
            let n = children.len();
            let mut weights: Vec<u64> = Vec::new();
            let mut total: u64 = 0;
            let mut i: usize = 0;
            while i < n
                invariant
                    0 <= i <= n,
                    children == children0,
                    weights@ == weights_of(cs).take(i as int),
                    total == sum_weights(weights@),
                    total <= (i as int) * (crate::span::MAX_WEIGHT as int),
                decreases n - i,
            {
                proof {
                    assert(weights_of(cs).take(i as int + 1).drop_last() =~= weights_of(cs).take(
                        i as int,
                    ));
                    assert(weights_of(cs).take(i as int + 1).last() == cs[i as int].size);
                }
                weights.push(span_child_size(&children, i));
                total = total + span_child_size(&children, i);
                proof {
                    assert(weights@ =~= weights_of(cs).take(i as int + 1));
                }
                i = i + 1;
            }
            proof {
                assert(weights_of(cs).take(n as int) =~= weights_of(cs));
                assert forall|j: int| 0 <= j < n implies 1 <= #[trigger] weights@[j]
                    <= crate::span::MAX_WEIGHT by {
                    assert(weights@[j] == cs[j].size);
                }
            }
            let sizes = crate::layout::compute_child_sizes(extent, &weights);
            let ghost shares = crate::layout::span_child_shares(s0, rect);
            proof {
                assert(shares == crate::layout::int_view(sizes@));
                crate::layout::lemma_span_child_shares(s0, rect);
            }
            let avg: u64 = total / (n as u64);
            proof {
                lemma_avg_weight_bounds(cs);
            }
            let mut offset: i32 = 0;
            let mut k: usize = 0;
            while k < n
                invariant
                    0 <= k <= n,
                    children == children0,
                    offset == crate::layout::child_offset(shares, k as int),
                    0 <= offset <= extent,
                    forall|j: int|
                        0 <= j < k ==> !node_ids((#[trigger] cs[j]).node).contains(active as int),
                decreases n - k,
            {
                proof {
                    crate::layout::lemma_span_child_rect_wf(s0, rect, k as int);
                }
                let crect = match direction {
                    SpanDirection::Horizontal => Rect {
                        position: crate::vector::Vector2 {
                            x: rect.position.x + offset,
                            y: rect.position.y,
                        },
                        size: crate::vector::Vector2 { x: sizes[k], y: rect.size.y },
                    },
                    SpanDirection::Vertical => Rect {
                        position: crate::vector::Vector2 {
                            x: rect.position.x,
                            y: rect.position.y + offset,
                        },
                        size: crate::vector::Vector2 { x: rect.size.x, y: sizes[k] },
                    },
                };
                proof {
                    assert(crect == span_child_rect(s0, rect, k as int));
                }
                let cid = span_child_id(&children, k);
                if cid == active {
                    let cross: i32 = match direction {
                        SpanDirection::Horizontal => crect.size.y,
                        SpanDirection::Vertical => crect.size.x,
                    };
                    proof {
                        lemma_sum_weights_upper(weights_of(cs), crate::span::MAX_WEIGHT as int);
                        assert((n as int) * (crate::span::MAX_WEIGHT as int) <= 0x1000_0000
                            * 0x1_0000_0000) by (nonlinear_arith)
                            requires
                                0 <= n as int <= 0x1000_0000,
                        ;
                        assert((cross as int) * ((total + avg) as int) <= 0x8000_0000
                            * 0x2000_0000_0000_0000) by (nonlinear_arith)
                            requires
                                0 <= cross as int <= 0x8000_0000,
                                0 <= (total + avg) as int <= 0x2000_0000_0000_0000,
                        ;
                        assert((extent as int) * (avg as int) <= 0x8000_0000 * 0x1_0000_0000)
                            by (nonlinear_arith)
                            requires
                                0 <= extent as int <= 0x8000_0000,
                                0 <= avg as int <= 0x1_0000_0000,
                        ;
                    }
                    let nest = (cross as u128) * ((total + avg) as u128) > (extent as u128) * (
                    avg as u128);
                    proof {
                        assert(nest == nests(s0, rect, k as int));
                        lemma_node_ids_self(cs[k as int].node);
                        lemma_children_ids_index(cs, active as int);
                    }
                    if nest {
                        let child = children.remove(k);
                        let mut inner_children: Vec<SpanChild> = Vec::new();
                        inner_children.push(
                            SpanChild { size: crate::span::DEFAULT_WEIGHT, node: child.node },
                        );
                        inner_children.push(
                            SpanChild {
                                size: crate::span::DEFAULT_WEIGHT,
                                node: Node { id: new_id, data: NodeData::Void },
                            },
                        );
                        let inner = Node {
                            id: container_id,
                            data: NodeData::Span(
                                Span {
                                    direction: match direction {
                                        SpanDirection::Horizontal => SpanDirection::Vertical,
                                        SpanDirection::Vertical => SpanDirection::Horizontal,
                                    },
                                    children: inner_children,
                                },
                            ),
                        };
                        children.insert(k, SpanChild { size: child.size, node: inner });
                        let m = Node {
                            id: my_id,
                            data: NodeData::Span(Span { direction, children }),
                        };
                        proof {
                            assert(m.data->Span_0.children@.len() == cs.len());
                            assert forall|j: int|
                                0 <= j < cs.len() && j != k implies #[trigger] m
                                .data->Span_0.children@[j] == cs[j] by {
                                if j < k {
                                    assert(m.data->Span_0.children@[j] == cs.remove(k as int)[j]);
                                } else {
                                    assert(m.data->Span_0.children@[j] == cs.remove(k as int)[j
                                        - 1]);
                                }
                            }
                            lemma_insert_nest_wf(
                                n0,
                                m,
                                rect,
                                active as int,
                                new_id as int,
                                container_id as int,
                                k as int,
                            );
                        }
                        return (m, InsertStatus::Inserted(true));
                    } else {
                        children.push(
                            SpanChild { size: avg, node: Node { id: new_id, data: NodeData::Void } },
                        );
                        let m = Node {
                            id: my_id,
                            data: NodeData::Span(Span { direction, children }),
                        };
                        proof {
                            assert(m.data->Span_0.children@ =~= cs.push(
                                SpanChild {
                                    size: avg_weight(cs) as u64,
                                    node: Node { id: new_id, data: NodeData::Void },
                                },
                            ));
                            lemma_insert_append_wf(
                                n0,
                                m,
                                rect,
                                active as int,
                                new_id as int,
                                container_id as int,
                                k as int,
                            );
                        }
                        return (m, InsertStatus::Inserted(false));
                    }
                }
                let deeper = span_child_contains(&children, k, active);
                if deeper {
                    proof {
                        assert(decreases_to!(cs => cs[k as int]));
                        lemma_children_count_bounds(cs);
                        lemma_children_ids_index(cs, active as int);
                        lemma_children_ids_index(cs, new_id as int);
                        lemma_children_ids_index(cs, container_id as int);
                    }
                    let child = children.remove(k);
                    let w = child.size;
                    let (n2, st) = insert_rec(child.node, crect, active, new_id, container_id);
                    match st {
                        InsertStatus::NotFound => {
                            proof {
                                lemma_node_ids_self(cs[k as int].node);
                                assert(false);
                            }
                            children.insert(k, SpanChild { size: w, node: n2 });
                            return (
                                Node { id: my_id, data: NodeData::Span(Span { direction, children }) },
                                InsertStatus::NotFound,
                            );
                        },
                        InsertStatus::Inserted(used) => {
                            children.insert(k, SpanChild { size: w, node: n2 });
                            let m = Node {
                                id: my_id,
                                data: NodeData::Span(Span { direction, children }),
                            };
                            proof {
                                assert(m.data->Span_0.children@.len() == cs.len());
                                assert forall|j: int|
                                    0 <= j < cs.len() && j != k implies #[trigger] m
                                    .data->Span_0.children@[j] == cs[j] by {
                                    if j < k {
                                        assert(m.data->Span_0.children@[j] == cs.remove(
                                            k as int,
                                        )[j]);
                                    } else {
                                        assert(m.data->Span_0.children@[j] == cs.remove(k as int)[j
                                            - 1]);
                                    }
                                }
                                lemma_insert_replace_wf(
                                    n0,
                                    m,
                                    rect,
                                    active as int,
                                    new_id as int,
                                    container_id as int,
                                    used,
                                    k as int,
                                );
                            }
                            return (m, InsertStatus::Inserted(used));
                        },
                    }
                }
                proof {
                    crate::layout::lemma_sum_take_succ(shares, k as int);
                    crate::layout::lemma_child_offset_bounds(shares, k as int + 1);
                }
                offset = offset + sizes[k];
                k = k + 1;
            }
            proof {
                lemma_children_ids_index(cs, active as int);
            }
            (
                Node { id: my_id, data: NodeData::Span(Span { direction, children }) },
                InsertStatus::NotFound,
            )
        },
    }
}

/// The weight of child `i`.
fn span_child_size(children: &Vec<SpanChild>, i: usize) -> (r: u64)
    requires
        i < children@.len(),
    ensures
        r == children@[i as int].size,
{
    children[i].size
}

/// The id of child `i`'s node.
fn span_child_id(children: &Vec<SpanChild>, i: usize) -> (r: usize)
    requires
        i < children@.len(),
    ensures
        r == children@[i as int].node.id,
{
    children[i].node.id
}

/// Whether child `i`'s subtree holds the given id.
fn span_child_contains(children: &Vec<SpanChild>, i: usize, id: usize) -> (r: bool)
    requires
        i < children@.len(),
    ensures
        r == node_ids(children@[i as int].node).contains(id as int),
{
    children[i].node.contains_id(id)
}

/// The explicit layout state of the multiplexer: the tree (empty before
/// the first pane), the monotone id counter, and the active node id.
pub struct LayoutTree {
    pub root: Option<Node>,
    pub span_id_counter: usize,
    pub active_id: usize,
}

impl LayoutTree {
    /// The tree invariant: a well-formed tree whose ids were all handed
    /// out by the counter; since every insertion adds at most two nodes
    /// while consuming at least one fresh id, the counter also bounds
    /// the number of nodes.
    pub open spec fn wf(self) -> bool {
        match self.root {
            None => true,
            Some(n) => {
                &&& node_wf(n)
                &&& forall|i: int| node_ids(n).contains(i) ==> 0 <= i <= self.span_id_counter
                &&& node_count(n) <= self.span_id_counter
            },
        }
    }

    pub fn new() -> (r: Self)
        ensures
            r.root is None,
            r.span_id_counter == 0,
            r.active_id == 0,
            r.wf(),
    {
        LayoutTree { root: None, span_id_counter: 0, active_id: 0 }
    }
}

/// The direction a first split takes: by the root rectangle's aspect.
pub open spec fn aspect_direction(rect: Rect) -> SpanDirection {
    if rect.size.x > rect.size.y {
        SpanDirection::Horizontal
    } else {
        SpanDirection::Vertical
    }
}

/// The split that wraps a single-pane root when a second pane arrives:
/// old pane first, new pane second, equal weights, direction by the
/// root rectangle's aspect.
pub open spec fn is_wrap_node(m: Node, old_root: Node, rect: Rect, new_id: int, container: int) -> bool {
    m.id == container && match m.data {
        NodeData::Void => false,
        NodeData::Span(s2) => s2.direction == aspect_direction(rect) && s2.children@.len() == 2
            && s2.children@[0] == (SpanChild { size: DEFAULT_WEIGHT, node: old_root })
            && s2.children@[1] == (SpanChild {
            size: DEFAULT_WEIGHT,
            node: Node { id: new_id as usize, data: NodeData::Void },
        }),
    }
}

/// Allocates a fresh pane id, makes it active, and splices a pane for
/// it into the tree.  An empty tree gains the pane as its root; a
/// single-pane tree is wrapped in a split whose direction follows the
/// root rectangle's aspect; otherwise the pane joins the span holding
/// the previously active node, as `insert_rel` states: either as a
/// plain sibling, or inside a fresh perpendicular split when a sibling
/// would come out thinner than the active pane's cross extent.  When
/// the previously active node has no parent span to splice into, the
/// tree and the active pane are left as they were and an error is
/// returned; the fresh id is consumed either way.
pub fn create_span(tree: &mut LayoutTree, root_rect: Rect) -> (r: Result<usize, LayoutError>)
    requires
        old(tree).wf(),
        view_rect_wf(root_rect),
        old(tree).span_id_counter + 2 <= usize::MAX,
        old(tree).span_id_counter <= crate::span::MAX_CHILDREN,
    ensures
        final(tree).wf(),
        r is Ok ==> final(tree).active_id == old(tree).span_id_counter + 1,
        r matches Ok(v) ==> v == old(tree).span_id_counter + 1,
        old(tree).root is None ==> {
            &&& r is Ok
            &&& final(tree).span_id_counter == old(tree).span_id_counter + 1
            &&& final(tree).root == Some(
                Node { id: (old(tree).span_id_counter + 1) as usize, data: NodeData::Void },
            )
        },
        (old(tree).root matches Some(n) && n.data is Void) ==> {
            &&& r is Ok
            &&& final(tree).span_id_counter == old(tree).span_id_counter + 2
            &&& final(tree).root matches Some(m) && is_wrap_node(
                m,
                old(tree).root->Some_0,
                root_rect,
                old(tree).span_id_counter + 1,
                old(tree).span_id_counter + 2,
            )
        },
        (old(tree).root matches Some(n) && n.data matches NodeData::Span(s) && children_ids(
            s.children@,
        ).contains(old(tree).active_id as int)) ==> {
            &&& r is Ok
            &&& (final(tree).span_id_counter == old(tree).span_id_counter + 1 || final(tree)
                .span_id_counter == old(tree).span_id_counter + 2)
            &&& final(tree).root matches Some(m) && insert_rel(
                old(tree).root->Some_0,
                m,
                root_rect,
                old(tree).active_id as int,
                old(tree).span_id_counter + 1,
                old(tree).span_id_counter + 2,
                final(tree).span_id_counter == old(tree).span_id_counter + 2,
            )
        },
        (old(tree).root matches Some(n) && n.data matches NodeData::Span(s) && !children_ids(
            s.children@,
        ).contains(old(tree).active_id as int)) ==> {
            &&& r == Err::<usize, LayoutError>(
                if old(tree).root->Some_0.id == old(tree).active_id {
                    LayoutError::ParentNotFound
                } else {
                    LayoutError::NodeNotFound
                },
            )
            &&& final(tree).root == old(tree).root
            &&& final(tree).span_id_counter == old(tree).span_id_counter + 1
            &&& final(tree).active_id == old(tree).active_id
        },
{
    let active_old = tree.active_id;
    let new_id = tree.span_id_counter + 1;
    tree.span_id_counter = new_id;
    tree.active_id = new_id;
    let mut owned: Option<Node> = None;
    core::mem::swap(&mut tree.root, &mut owned);
    match owned {
        None => {
            tree.root = Some(Node { id: new_id, data: NodeData::Void });
            Ok(new_id)
        },
        Some(root) => {
            let is_leaf = match &root.data {
                NodeData::Void => true,
                NodeData::Span(_) => false,
            };
            if is_leaf {
                let container_id = tree.span_id_counter + 1;
                tree.span_id_counter = container_id;
                let direction = if root_rect.size.x > root_rect.size.y {
                    SpanDirection::Horizontal
                } else {
                    SpanDirection::Vertical
                };
                let mut children: Vec<SpanChild> = Vec::new();
                children.push(SpanChild { size: DEFAULT_WEIGHT, node: root });
                children.push(
                    SpanChild {
                        size: DEFAULT_WEIGHT,
                        node: Node { id: new_id, data: NodeData::Void },
                    },
                );
                let m = Node { id: container_id, data: NodeData::Span(Span { direction, children }) };
                proof {
                    let ic = m.data->Span_0.children@;
                    assert(ic.last() == ic[1]);
                    assert(ic.drop_last() =~= seq![ic[0]]);
                    assert(seq![ic[0]].last() == ic[0]);
                    assert(seq![ic[0]].drop_last() =~= Seq::<SpanChild>::empty());
                    assert(children_ids(Seq::<SpanChild>::empty()) =~= Set::<int>::empty());
                    assert(node_ids(ic[1].node) =~= set![new_id as int]);
                    lemma_node_ids_self(ic[0].node);
                    assert(children_ids(ic) == children_ids(seq![ic[0]]).union(
                        node_ids(ic[1].node),
                    ));
                    assert(children_ids(seq![ic[0]]) == children_ids(
                        Seq::<SpanChild>::empty(),
                    ).union(node_ids(ic[0].node)));
                    assert(children_ids(ic) =~= node_ids(ic[0].node).insert(new_id as int));
                    assert(children_count(ic) == children_count(seq![ic[0]]) + node_count(
                        ic[1].node,
                    ));
                    assert(children_count(seq![ic[0]]) == children_count(
                        Seq::<SpanChild>::empty(),
                    ) + node_count(ic[0].node));
                    assert(node_count(ic[1].node) == 1);
                    assert(node_count(m) == node_count(ic[0].node) + 2);
                    assert(node_ids(m) =~= children_ids(ic).insert(container_id as int));
                    assert(node_wf(m)) by {
                        assert forall|i: int| 0 <= i < 2 implies 1 <= (#[trigger] ic[i]).size
                            <= crate::span::MAX_WEIGHT && node_wf(ic[i].node) && !node_ids(
                            ic[i].node,
                        ).contains(m.id as int) by {}
                        assert forall|i: int, j: int|
                            0 <= i < 2 && 0 <= j < 2 && i != j implies node_ids(
                            (#[trigger] ic[i]).node,
                        ).disjoint(node_ids((#[trigger] ic[j]).node)) by {
                            assert(node_ids(ic[1].node) =~= set![new_id as int]);
                        }
                    }
                }
                tree.root = Some(m);
                Ok(new_id)
            } else {
                let container_id = tree.span_id_counter + 1;
                proof {
                    lemma_node_ids_self(root);
                }
                let (m, st) = insert_rec(root, root_rect, active_old, new_id, container_id);
                match st {
                    InsertStatus::NotFound => {
                        let e = if m.id() == active_old {
                            LayoutError::ParentNotFound
                        } else {
                            LayoutError::NodeNotFound
                        };
                        tree.root = Some(m);
                        tree.active_id = active_old;
                        Err(e)
                    },
                    InsertStatus::Inserted(used) => {
                        if used {
                            tree.span_id_counter = container_id;
                        }
                        tree.root = Some(m);
                        Ok(new_id)
                    },
                }
            }
        },
    }
}

/// Removing one of two sibling panes leaves the other one active; with
/// the root-id case of `remove_node` (which empties the tree and
/// signals shutdown by `Ok(None)`), this is the whole story of removal
/// from a two-pane split.
pub proof fn lemma_remove_sibling_active(n: Node, m: Node, a: int, id: int, j: int)
    requires
        node_wf(n),
        n.data matches NodeData::Span(s) && s.children@.len() == 2 && (0 <= j < 2) && id
            == s.children@[j].node.id && s.children@[0].node.data is Void
            && s.children@[1].node.data is Void,
        id != n.id,
        remove_rel(n, m, a, id),
    ensures
        a == n.data->Span_0.children@[1 - j].node.id,
{
    let s = n.data->Span_0;
    let cs = s.children@;
    let s2 = m.data->Span_0;
    let k = choose|k: int|
        #![trigger cs[k]]
        0 <= k < cs.len() && {
            ||| ((cs[k].node.id == id || remove_collapses(cs[k].node, id)) && cs.len() > 1
                && s2.children@ == cs.remove(k) && a == cs.remove(k).last().node.id)
            ||| (cs[k].node.id != id && node_ids(cs[k].node).contains(id) && !remove_collapses(
                cs[k].node,
                id,
            ) && s2.children@.len() == cs.len() && (forall|j2: int|
                0 <= j2 < cs.len() && j2 != k ==> #[trigger] s2.children@[j2] == cs[j2])
                && s2.children@[k].size == cs[k].size && remove_rel(
                cs[k].node,
                s2.children@[k].node,
                a,
                id,
            ))
        };
    lemma_node_ids_self(cs[0].node);
    lemma_node_ids_self(cs[1].node);
    assert(node_ids(cs[0].node) =~= set![cs[0].node.id as int]);
    assert(node_ids(cs[1].node) =~= set![cs[1].node.id as int]);
    assert(node_ids(cs[0].node).disjoint(node_ids(cs[1].node)));
    assert(k == j);
    assert(cs.remove(j).last() == cs[1 - j]);
}

} // verus!
