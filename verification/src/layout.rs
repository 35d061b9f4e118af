//! Sizing of the layout tree: how a span divides its extent among its
//! children, and where each node's rectangle lies.

use vstd::prelude::*;
use vstd::arithmetic::div_mod::{
    lemma_div_is_ordered, lemma_div_multiples_vanish, lemma_div_pos_is_pos,
    lemma_fundamental_div_mod,
};
use vstd::arithmetic::mul::{lemma_mul_inequality, lemma_mul_is_distributive_add};
use crate::canvas::MAX_CANVAS_DIM;
use crate::span::{node_ids, node_wf, Node, NodeData, Span, SpanChild, SpanDirection, MAX_WEIGHT};
use crate::rect::Rect;
use crate::vector::Vector2;
use crate::view::view_rect_wf;

verus! {

/// The sum of a sequence of integers.
pub open spec fn sum_seq(s: Seq<int>) -> int
    decreases s,
{
    if s.len() == 0 {
        0
    } else {
        sum_seq(s.drop_last()) + s.last()
    }
}

/// The mathematical values of a sequence of machine integers.
pub open spec fn int_view(s: Seq<i32>) -> Seq<int> {
    s.map_values(|v: i32| v as int)
}

/// The weights of a span's children.
pub open spec fn weights_of(cs: Seq<SpanChild>) -> Seq<u64> {
    cs.map_values(|c: SpanChild| c.size)
}

/// The sum of a sequence of weights.
pub open spec fn sum_weights(ws: Seq<u64>) -> int
    decreases ws,
{
    if ws.len() == 0 {
        0
    } else {
        sum_weights(ws.drop_last()) + ws.last()
    }
}

/// Each child's un-corrected share of `extent`:
/// `floor(extent * weight / total_weight)`.
pub open spec fn floor_shares(extent: int, ws: Seq<u64>) -> Seq<int> {
    Seq::new(ws.len(), |i: int| (extent * ws[i]) / sum_weights(ws))
}

/// The first index of the minimum of a non-empty sequence.
pub open spec fn min_index(s: Seq<int>) -> int
    recommends
        s.len() >= 1,
    decreases s,
{
    if s.len() <= 1 {
        0
    } else {
        let m = min_index(s.drop_last());
        if s.last() < s[m] {
            s.len() - 1
        } else {
            m
        }
    }
}

/// `k` rounds of remainder correction: each round adds one unit to the
/// first smallest entry.
pub open spec fn distribute(s: Seq<int>, k: nat) -> Seq<int>
    decreases k,
{
    if k == 0 {
        s
    } else {
        let m = min_index(s);
        distribute(s.update(m, s[m] + 1), (k - 1) as nat)
    }
}

/// The extents a span hands its children: floor shares, then remainder
/// correction until the whole extent is used.
pub open spec fn span_shares(extent: int, ws: Seq<u64>) -> Seq<int> {
    let f = floor_shares(extent, ws);
    distribute(f, (extent - sum_seq(f)) as nat)
}

pub proof fn lemma_min_index_bounds(s: Seq<int>)
    requires
        s.len() >= 1,
    ensures
        0 <= min_index(s) < s.len(),
        forall|j: int| 0 <= j < s.len() ==> s[min_index(s)] <= #[trigger] s[j],
    decreases s,
{
    if s.len() > 1 {
        lemma_min_index_bounds(s.drop_last());
        assert forall|j: int| 0 <= j < s.len() implies s[min_index(s)] <= #[trigger] s[j] by {
            if j < s.len() - 1 {
                assert(s.drop_last()[j] == s[j]);
                assert(s.drop_last()[min_index(s.drop_last())] <= s.drop_last()[j]);
            }
        }
    }
}

/// Updating one entry moves the sum by the same difference.
pub proof fn lemma_sum_update(s: Seq<int>, i: int, v: int)
    requires
        0 <= i < s.len(),
    ensures
        sum_seq(s.update(i, v)) == sum_seq(s) + v - s[i],
    decreases s,
{
    if s.len() > 0 {
        if i == s.len() - 1 {
            assert(s.update(i, v).drop_last() =~= s.drop_last());
        } else {
            assert(s.update(i, v).drop_last() =~= s.drop_last().update(i, v));
            lemma_sum_update(s.drop_last(), i, v);
        }
    }
}

/// In a sequence of entries bounded below by zero and above by `b`,
/// the sum lies between any entry and `len * b`.
pub proof fn lemma_sum_bounds(s: Seq<int>, b: int)
    requires
        forall|i: int| 0 <= i < s.len() ==> 0 <= #[trigger] s[i] <= b,
    ensures
        0 <= sum_seq(s) <= s.len() * b,
        forall|i: int| 0 <= i < s.len() ==> #[trigger] s[i] <= sum_seq(s),
    decreases s,
{
    if s.len() > 0 {
        lemma_sum_bounds(s.drop_last(), b);
        assert(sum_seq(s) == sum_seq(s.drop_last()) + s.last());
        assert(s.len() * b == (s.len() - 1) * b + b) by (nonlinear_arith);
        assert forall|i: int| 0 <= i < s.len() implies #[trigger] s[i] <= sum_seq(s) by {
            if i < s.len() - 1 {
                assert(s.drop_last()[i] == s[i]);
            }
        }
    }
}

/// `distribute` performs `k` unit additions: the sum grows by exactly
/// `k`, no entry shrinks, and entries stay non-negative.
pub proof fn lemma_distribute_sum(s: Seq<int>, k: nat)
    requires
        s.len() >= 1,
        forall|i: int| 0 <= i < s.len() ==> 0 <= #[trigger] s[i],
    ensures
        distribute(s, k).len() == s.len(),
        sum_seq(distribute(s, k)) == sum_seq(s) + k,
        forall|i: int| 0 <= i < s.len() ==> #[trigger] distribute(s, k)[i] >= s[i],
    decreases k,
{
    if k > 0 {
        let m = min_index(s);
        lemma_min_index_bounds(s);
        let s2 = s.update(m, s[m] + 1);
        lemma_sum_update(s, m, s[m] + 1);
        lemma_distribute_sum(s2, (k - 1) as nat);
        assert forall|i: int| 0 <= i < s.len() implies #[trigger] distribute(s, k)[i] >= s[i] by {
            assert(distribute(s, k)[i] >= s2[i]);
        }
    }
}

/// Integer division distributes super-additively over addition of
/// numerators.
pub proof fn lemma_div_superadd(a: int, b: int, d: int)
    requires
        0 <= a,
        0 <= b,
        0 < d,
    ensures
        a / d + b / d <= (a + b) / d,
{
    let q = a / d + b / d;
    lemma_fundamental_div_mod(a, d);
    lemma_fundamental_div_mod(b, d);
    lemma_mul_is_distributive_add(d, a / d, b / d);
    assert(d * q <= a + b);
    lemma_div_is_ordered(d * q, a + b, d);
    lemma_div_multiples_vanish(q, d);
}

/// One floor share is at most the whole extent and at least zero.
pub proof fn lemma_floor_share_bounds(extent: int, w: int, total: int)
    requires
        0 <= extent,
        0 <= w <= total,
        1 <= total,
    ensures
        0 <= (extent * w) / total <= extent,
{
    lemma_mul_inequality(w, total, extent);
    assert(extent * w == w * extent) by (nonlinear_arith);
    assert(extent * total == total * extent) by (nonlinear_arith);
    lemma_div_pos_is_pos(extent * w, total);
    lemma_div_is_ordered(extent * w, extent * total, total);
    lemma_div_multiples_vanish(extent, total);
    assert(total * extent == extent * total) by (nonlinear_arith);
}

/// The floor shares under-allocate: they sum to at most the extent.
/// The proof walks the children, folding each share into a running
/// lower bound of the scaled total weight.
pub proof fn lemma_floor_shares_sum(extent: int, ws: Seq<u64>)
    requires
        0 <= extent,
        ws.len() >= 1,
        forall|i: int| 0 <= i < ws.len() ==> 1 <= #[trigger] ws[i],
    ensures
        sum_seq(floor_shares(extent, ws)) <= (extent * sum_weights(ws)) / sum_weights(ws),
        sum_seq(floor_shares(extent, ws)) <= extent,
        sum_weights(ws) >= ws.len(),
{
    let total = sum_weights(ws);
    lemma_sum_weights_bounds(ws);
    lemma_floor_shares_sum_partial(extent, ws, ws.len() as int);
    assert(ws.subrange(0, ws.len() as int) =~= ws);
    assert(floor_shares(extent, ws).take(ws.len() as int) =~= floor_shares(extent, ws));
    lemma_div_multiples_vanish(extent, total);
    assert(total * extent == extent * total) by (nonlinear_arith);
}

/// Weights are at least one each, so their sum is at least their count,
/// and any prefix sums to no more than the whole.
pub proof fn lemma_sum_weights_bounds(ws: Seq<u64>)
    requires
        forall|i: int| 0 <= i < ws.len() ==> 1 <= #[trigger] ws[i],
    ensures
        sum_weights(ws) >= ws.len(),
    decreases ws,
{
    if ws.len() > 0 {
        lemma_sum_weights_bounds(ws.drop_last());
    }
}

/// The first `k` floor shares sum to at most the scaled sum of the
/// first `k` weights.
pub proof fn lemma_floor_shares_sum_partial(extent: int, ws: Seq<u64>, k: int)
    requires
        0 <= extent,
        0 <= k <= ws.len(),
        ws.len() >= 1,
        forall|i: int| 0 <= i < ws.len() ==> 1 <= #[trigger] ws[i],
    ensures
        sum_seq(floor_shares(extent, ws).take(k)) <= (extent * sum_weights(ws.subrange(0, k)))
            / sum_weights(ws),
    decreases k,
{
    let total = sum_weights(ws);
    lemma_sum_weights_bounds(ws);
    if k == 0 {
        lemma_div_pos_is_pos(0, total);
        assert(extent * sum_weights(ws.subrange(0, 0)) == 0) by (nonlinear_arith);
    } else {
        lemma_floor_shares_sum_partial(extent, ws, k - 1);
        let f = floor_shares(extent, ws);
        assert(f.take(k).drop_last() =~= f.take(k - 1));
        assert(sum_seq(f.take(k)) == sum_seq(f.take(k - 1)) + f[k - 1]);
        lemma_sum_weights_nonneg(ws.subrange(0, k - 1));
        assert(extent * sum_weights(ws.subrange(0, k - 1)) >= 0) by (nonlinear_arith)
            requires
                extent >= 0,
                sum_weights(ws.subrange(0, k - 1)) >= 0,
        ;
        assert(extent * ws[k - 1] >= 0) by (nonlinear_arith)
            requires
                extent >= 0,
                ws[k - 1] >= 1,
        ;
        lemma_div_superadd(extent * sum_weights(ws.subrange(0, k - 1)), extent * ws[k - 1], total);
        assert(ws.subrange(0, k).drop_last() =~= ws.subrange(0, k - 1));
        assert(sum_weights(ws.subrange(0, k)) == sum_weights(ws.subrange(0, k - 1)) + ws[k - 1]);
        assert(extent * sum_weights(ws.subrange(0, k - 1)) + extent * ws[k - 1] == extent
            * sum_weights(ws.subrange(0, k))) by {
            lemma_mul_is_distributive_add(
                extent,
                sum_weights(ws.subrange(0, k - 1)),
                ws[k - 1] as int,
            );
        }
    }
}

pub proof fn lemma_sum_weights_nonneg(ws: Seq<u64>)
    ensures
        sum_weights(ws) >= 0,
    decreases ws,
{
    if ws.len() > 0 {
        lemma_sum_weights_nonneg(ws.drop_last());
    }
}

/// The corrected shares of a span sum to the extent exactly, and each
/// child receives at least its floor share.
pub proof fn lemma_span_shares(extent: int, ws: Seq<u64>)
    requires
        0 <= extent,
        ws.len() >= 1,
        forall|i: int| 0 <= i < ws.len() ==> 1 <= #[trigger] ws[i],
    ensures
        span_shares(extent, ws).len() == ws.len(),
        sum_seq(span_shares(extent, ws)) == extent,
        forall|i: int|
            0 <= i < ws.len() ==> 0 <= floor_shares(extent, ws)[i] <= #[trigger] span_shares(
                extent,
                ws,
            )[i],
{
    let total = sum_weights(ws);
    lemma_sum_weights_bounds(ws);
    let f = floor_shares(extent, ws);
    assert forall|i: int| 0 <= i < ws.len() implies 0 <= #[trigger] f[i] <= extent by {
        lemma_weight_le_total(ws, i);
        lemma_floor_share_bounds(extent, ws[i] as int, total);
    }
    lemma_floor_shares_sum(extent, ws);
    lemma_sum_bounds(f, extent);
    lemma_distribute_sum(f, (extent - sum_seq(f)) as nat);
}

/// A single weight never exceeds the sum of all weights.
pub proof fn lemma_weight_le_total(ws: Seq<u64>, i: int)
    requires
        0 <= i < ws.len(),
        forall|j: int| 0 <= j < ws.len() ==> 1 <= #[trigger] ws[j],
    ensures
        ws[i] <= sum_weights(ws),
    decreases ws,
{
    if ws.len() > 0 {
        if i == ws.len() - 1 {
            lemma_sum_weights_nonneg(ws.drop_last());
        } else {
            lemma_weight_le_total(ws.drop_last(), i);
        }
    }
}

/// The extent of a rectangle along a span's axis.
pub open spec fn span_extent(dir: SpanDirection, rect: Rect) -> int {
    match dir {
        SpanDirection::Horizontal => rect.size.x as int,
        SpanDirection::Vertical => rect.size.y as int,
    }
}

/// The corrected shares a span with rectangle `rect` hands its children.
pub open spec fn span_child_shares(s: Span, rect: Rect) -> Seq<int> {
    span_shares(span_extent(s.direction, rect), weights_of(s.children@))
}

/// Where child `k` starts along the axis, relative to the span's origin:
/// after the extents of its earlier siblings.
pub open spec fn child_offset(shares: Seq<int>, k: int) -> int {
    sum_seq(shares.take(k))
}

/// The rectangle of child `k` of a span with rectangle `rect`: children
/// lie consecutively along the axis and span the full cross extent.
pub open spec fn span_child_rect(s: Span, rect: Rect, k: int) -> Rect {
    let shares = span_child_shares(s, rect);
    let off = child_offset(shares, k);
    match s.direction {
        SpanDirection::Horizontal => Rect {
            position: Vector2 { x: (rect.position.x + off) as i32, y: rect.position.y },
            size: Vector2 { x: shares[k] as i32, y: rect.size.y },
        },
        SpanDirection::Vertical => Rect {
            position: Vector2 { x: rect.position.x, y: (rect.position.y + off) as i32 },
            size: Vector2 { x: rect.size.x, y: shares[k] as i32 },
        },
    }
}

/// The rectangle that the node with the given id occupies, when the
/// subtree `n` occupies `rect`; `None` when the id is absent.
pub open spec fn dims_spec(n: Node, id: int, rect: Rect) -> Option<Rect>
    decreases n, 0int,
{
    if n.id == id {
        Some(rect)
    } else {
        match n.data {
            NodeData::Void => None,
            NodeData::Span(s) => dims_search(s, s.children@, id, rect, 0),
        }
    }
}

/// Searches the children of a span from index `k` on for the id's
/// rectangle; the first hit wins.
pub open spec fn dims_search(s: Span, cs: Seq<SpanChild>, id: int, rect: Rect, k: int) -> Option<
    Rect,
>
    decreases cs, cs.len() - k,
{
    if k < 0 || k >= cs.len() {
        None
    } else {
        let r = dims_spec(cs[k].node, id, span_child_rect(s, rect, k));
        if r is Some {
            r
        } else {
            dims_search(s, cs, id, rect, k + 1)
        }
    }
}

/// A sum over one more entry.
pub proof fn lemma_sum_take_succ(s: Seq<int>, k: int)
    requires
        0 <= k < s.len(),
    ensures
        sum_seq(s.take(k + 1)) == sum_seq(s.take(k)) + s[k],
{
    assert(s.take(k + 1).drop_last() =~= s.take(k));
}

/// Entries of a non-negative sequence are bounded by its sum.
pub proof fn lemma_sum_nonneg(s: Seq<int>)
    requires
        forall|i: int| 0 <= i < s.len() ==> 0 <= #[trigger] s[i],
    ensures
        0 <= sum_seq(s),
    decreases s,
{
    if s.len() > 0 {
        lemma_sum_nonneg(s.drop_last());
    }
}

/// Child offsets grow along the children and never pass the extent.
pub proof fn lemma_child_offset_bounds(shares: Seq<int>, k: int)
    requires
        forall|i: int| 0 <= i < shares.len() ==> 0 <= #[trigger] shares[i],
        0 <= k <= shares.len(),
    ensures
        0 <= child_offset(shares, k),
        child_offset(shares, k) + sum_seq(shares.skip(k)) == sum_seq(shares),
        child_offset(shares, k) <= sum_seq(shares),
    decreases shares.len() - k,
{
    assert forall|i: int| 0 <= i < shares.take(k).len() implies 0 <= #[trigger] shares.take(
        k,
    )[i] by {
        assert(shares.take(k)[i] == shares[i]);
    }
    lemma_sum_nonneg(shares.take(k));
    if k == shares.len() {
        assert(shares.take(k) =~= shares);
        assert(shares.skip(k) =~= Seq::<int>::empty());
    } else {
        lemma_child_offset_bounds(shares, k + 1);
        lemma_sum_take_succ(shares, k);
        assert(shares.skip(k).drop_first() =~= shares.skip(k + 1));
        lemma_sum_drop_first(shares.skip(k));
        assert(shares.skip(k)[0] == shares[k]);
    }
}

/// Splitting a non-empty sequence at the front splits its sum.
pub proof fn lemma_sum_drop_first(s: Seq<int>)
    requires
        s.len() >= 1,
    ensures
        sum_seq(s) == s[0] + sum_seq(s.drop_first()),
    decreases s,
{
    if s.len() == 1 {
        assert(s.drop_first() =~= Seq::<int>::empty());
        assert(s.drop_last() =~= Seq::<int>::empty());
    } else {
        lemma_sum_drop_first(s.drop_last());
        assert(s.drop_first().drop_last() =~= s.drop_last().drop_first());
        assert(s.drop_last()[0] == s[0]);
    }
}

/// `a` lies entirely inside `b`.
pub open spec fn rect_within(a: Rect, b: Rect) -> bool {
    &&& b.position.x <= a.position.x
    &&& b.position.y <= a.position.y
    &&& a.position.x + a.size.x <= b.position.x + b.size.x
    &&& a.position.y + a.size.y <= b.position.y + b.size.y
}

/// The share conditions of a well-formed span: as many shares as
/// children, each non-negative, together exactly the extent.
pub proof fn lemma_span_child_shares(s: Span, rect: Rect)
    requires
        1 <= s.children@.len(),
        forall|i: int| 0 <= i < s.children@.len() ==> 1 <= (#[trigger] s.children@[i]).size,
        0 <= span_extent(s.direction, rect),
    ensures
        span_child_shares(s, rect).len() == s.children@.len(),
        sum_seq(span_child_shares(s, rect)) == span_extent(s.direction, rect),
        forall|i: int| 0 <= i < s.children@.len() ==> 0 <= #[trigger] span_child_shares(s, rect)[i],
{
    let ws = weights_of(s.children@);
    assert forall|i: int| 0 <= i < ws.len() implies 1 <= #[trigger] ws[i] by {
        assert(ws[i] == s.children@[i].size);
    }
    lemma_span_shares(span_extent(s.direction, rect), ws);
}

/// Each child rectangle of a well-formed span is itself well formed and
/// lies inside the span's rectangle.
pub proof fn lemma_span_child_rect_wf(s: Span, rect: Rect, k: int)
    requires
        1 <= s.children@.len(),
        forall|i: int| 0 <= i < s.children@.len() ==> 1 <= (#[trigger] s.children@[i]).size,
        view_rect_wf(rect),
        0 <= k < s.children@.len(),
    ensures
        view_rect_wf(span_child_rect(s, rect, k)),
        rect_within(span_child_rect(s, rect, k), rect),
        child_offset(span_child_shares(s, rect), k) + span_child_shares(s, rect)[k] <= span_extent(
            s.direction,
            rect,
        ),
        0 <= child_offset(span_child_shares(s, rect), k),
        0 <= span_child_shares(s, rect)[k],
{
    let shares = span_child_shares(s, rect);
    lemma_span_child_shares(s, rect);
    lemma_child_offset_bounds(shares, k);
    lemma_child_offset_bounds(shares, k + 1);
    lemma_sum_take_succ(shares, k);
}

/// The search hits exactly when some child subtree from `k` on holds the
/// id.
pub proof fn lemma_search_some_iff(s: Span, cs: Seq<SpanChild>, id: int, rect: Rect, k: int)
    requires
        0 <= k <= cs.len(),
    ensures
        (dims_search(s, cs, id, rect, k) is Some) <==> exists|i: int|
            k <= i < cs.len() && node_ids(#[trigger] cs[i].node).contains(id),
    decreases cs, cs.len() - k + 1,
{
    if k < cs.len() {
        assert(decreases_to!(cs => cs[k]));
        lemma_dims_some_iff(cs[k].node, id, span_child_rect(s, rect, k));
        lemma_search_some_iff(s, cs, id, rect, k + 1);
        if dims_search(s, cs, id, rect, k) is Some {
            if dims_spec(cs[k].node, id, span_child_rect(s, rect, k)) is Some {
                assert(k <= k < cs.len() && node_ids(cs[k].node).contains(id));
            } else {
                let i = choose|i: int|
                    k + 1 <= i < cs.len() && node_ids(#[trigger] cs[i].node).contains(id);
                assert(k <= i < cs.len() && node_ids(cs[i].node).contains(id));
            }
        }
        if exists|i: int| k <= i < cs.len() && node_ids(#[trigger] cs[i].node).contains(id) {
            let i = choose|i: int| k <= i < cs.len() && node_ids(#[trigger] cs[i].node).contains(id);
            if i == k {
                assert(dims_spec(cs[k].node, id, span_child_rect(s, rect, k)) is Some);
            } else {
                assert(k + 1 <= i < cs.len() && node_ids(cs[i].node).contains(id));
                assert(dims_search(s, cs, id, rect, k + 1) is Some);
            }
        }
    }
}

/// A node's rectangle exists exactly when the id occurs in the subtree.
pub proof fn lemma_dims_some_iff(n: Node, id: int, rect: Rect)
    ensures
        (dims_spec(n, id, rect) is Some) <==> node_ids(n).contains(id),
    decreases n, 0int,
{
    if n.id == id {
        match n.data {
            NodeData::Void => {},
            NodeData::Span(s) => {},
        }
    } else {
        match n.data {
            NodeData::Void => {},
            NodeData::Span(s) => {
                lemma_search_some_iff(s, s.children@, id, rect, 0);
                crate::span::lemma_children_ids_index(s.children@, id);
            },
        }
    }
}

/// Whatever rectangle the search yields is well formed and lies inside
/// the span's rectangle.
pub proof fn lemma_search_result_wf(s: Span, cs: Seq<SpanChild>, id: int, rect: Rect, k: int)
    requires
        0 <= k <= cs.len(),
        cs == s.children@,
        1 <= cs.len(),
        forall|i: int| 0 <= i < cs.len() ==> 1 <= (#[trigger] cs[i]).size,
        forall|i: int| 0 <= i < cs.len() ==> node_wf((#[trigger] cs[i]).node),
        view_rect_wf(rect),
    ensures
        dims_search(s, cs, id, rect, k) matches Some(rr) ==> view_rect_wf(rr) && rect_within(
            rr,
            rect,
        ),
    decreases cs, cs.len() - k + 1,
{
    if k < cs.len() {
        lemma_span_child_rect_wf(s, rect, k);
        lemma_dims_result_wf(cs[k].node, id, span_child_rect(s, rect, k));
        lemma_search_result_wf(s, cs, id, rect, k + 1);
    }
}

/// The rectangle of any node in a well-formed subtree is well formed
/// and lies inside the subtree's own rectangle.
pub proof fn lemma_dims_result_wf(n: Node, id: int, rect: Rect)
    requires
        node_wf(n),
        view_rect_wf(rect),
    ensures
        dims_spec(n, id, rect) matches Some(rr) ==> view_rect_wf(rr) && rect_within(rr, rect),
    decreases n, 0int,
{
    if n.id != id {
        match n.data {
            NodeData::Void => {},
            NodeData::Span(s) => {
                lemma_search_result_wf(s, s.children@, id, rect, 0);
            },
        }
    }
}

/// The first index of the smallest entry, scanning left to right.
fn find_min_index(sizes: &Vec<i32>) -> (m: usize)
    requires
        sizes@.len() >= 1,
    ensures
        m == min_index(int_view(sizes@)),
{
    let mut best: usize = 0;
    let mut i: usize = 1;
    proof {
        assert(int_view(sizes@).take(1).len() == 1);
    }
    while i < sizes.len()
        invariant
            1 <= i <= sizes@.len(),
            0 <= best < i,
            best == min_index(int_view(sizes@).take(i as int)),
        decreases sizes@.len() - i,
    {
        proof {
            let s = int_view(sizes@);
            assert(s.take(i as int + 1).drop_last() =~= s.take(i as int));
            assert(s.take(i as int + 1).last() == s[i as int]);
            lemma_min_index_bounds(s.take(i as int));
        }
        if sizes[i] < sizes[best] {
            best = i;
        }
        i = i + 1;
    }
    proof {
        assert(int_view(sizes@).take(sizes@.len() as int) =~= int_view(sizes@));
    }
    best
}

/// Divides `extent` among children with the given weights: floor shares
/// first, then the remainder one unit at a time to the currently
/// smallest child.  The shares sum to the extent exactly.
pub fn compute_child_sizes(extent: i32, weights: &Vec<u64>) -> (r: Vec<i32>)
    requires
        0 <= extent <= MAX_CANVAS_DIM,
        1 <= weights@.len() <= crate::span::MAX_CHILDREN,
        forall|i: int| 0 <= i < weights@.len() ==> 1 <= #[trigger] weights@[i] <= MAX_WEIGHT,
    ensures
        int_view(r@) == span_shares(extent as int, weights@),
        r@.len() == weights@.len(),
        sum_seq(int_view(r@)) == extent,
        forall|i: int| 0 <= i < r@.len() ==> 0 <= #[trigger] r@[i] <= extent,
{
    let n = weights.len();
    let mut total: u64 = 0;
    let mut i: usize = 0;
    while i < n
        invariant
            0 <= i <= n,
            n == weights@.len() <= crate::span::MAX_CHILDREN,
            forall|j: int| 0 <= j < n ==> 1 <= #[trigger] weights@[j] <= MAX_WEIGHT,
            total == sum_weights(weights@.take(i as int)),
            total <= (i as int) * (MAX_WEIGHT as int),
        decreases n - i,
    {
        proof {
            assert(weights@.take(i as int + 1).drop_last() =~= weights@.take(i as int));
            assert(weights@.take(i as int + 1).last() == weights@[i as int]);
        }
        total = total + weights[i];
        i = i + 1;
    }
    proof {
        assert(weights@.take(n as int) =~= weights@);
        lemma_sum_weights_bounds(weights@);
    }
    let ghost ws = weights@;
    let ghost e = extent as int;
    let mut sizes: Vec<i32> = Vec::new();
    let mut i: usize = 0;
    while i < n
        invariant
            0 <= i <= n,
            n == ws.len(),
            ws == weights@,
            0 <= e <= MAX_CANVAS_DIM,
            e == extent as int,
            forall|j: int| 0 <= j < n ==> 1 <= #[trigger] ws[j] <= MAX_WEIGHT,
            total == sum_weights(ws),
            total >= n >= 1,
            sizes@.len() == i,
            forall|j: int| 0 <= j < i ==> (#[trigger] sizes@[j]) as int == floor_shares(e, ws)[j],
        decreases n - i,
    {
        proof {
            assert(e * (ws[i as int] as int) <= 0xffff * 0x1_0000_0000) by (nonlinear_arith)
                requires
                    0 <= e <= MAX_CANVAS_DIM,
                    0 <= ws[i as int] <= MAX_WEIGHT,
            ;
            lemma_weight_le_total(ws, i as int);
            lemma_floor_share_bounds(e, ws[i as int] as int, sum_weights(ws));
        }
        let share64 = ((extent as u64) * weights[i]) / total;
        let share: i32 = share64 as i32;
        sizes.push(share);
        i = i + 1;
    }
    proof {
        assert(int_view(sizes@) =~= floor_shares(e, ws));
        lemma_floor_shares_sum(e, ws);
        assert forall|j: int| 0 <= j < n implies 0 <= #[trigger] floor_shares(e, ws)[j] <= e by {
            lemma_weight_le_total(ws, j);
            lemma_floor_share_bounds(e, ws[j] as int, sum_weights(ws));
        }
        lemma_sum_bounds(floor_shares(e, ws), e);
    }
    let mut used: i32 = 0;
    let mut i: usize = 0;
    while i < n
        invariant
            0 <= i <= n,
            n == sizes@.len(),
            int_view(sizes@) == floor_shares(e, ws),
            forall|j: int| 0 <= j < n ==> 0 <= #[trigger] sizes@[j] <= e,
            0 <= e <= MAX_CANVAS_DIM,
            sum_seq(int_view(sizes@)) <= e,
            used == sum_seq(int_view(sizes@).take(i as int)),
            0 <= used <= e,
        decreases n - i,
    {
        proof {
            let s = int_view(sizes@);
            assert(s.take(i as int + 1).drop_last() =~= s.take(i as int));
            assert(s.take(i as int + 1).last() == s[i as int]);
            lemma_child_offset_bounds(s, i as int + 1);
        }
        used = used + sizes[i];
        i = i + 1;
    }
    proof {
        assert(int_view(sizes@).take(n as int) =~= int_view(sizes@));
    }
    let mut remaining: i32 = extent - used;
    let ghost floors = floor_shares(e, ws);
    let ghost k0 = (e - sum_seq(floors)) as nat;
    proof {
        lemma_distribute_sum(floors, k0);
    }
    while remaining > 0
        invariant
            0 <= remaining,
            n == sizes@.len() >= 1,
            0 <= e <= MAX_CANVAS_DIM,
            forall|j: int| 0 <= j < n ==> 0 <= #[trigger] sizes@[j],
            sum_seq(int_view(sizes@)) == e - remaining,
            distribute(floors, k0) == distribute(int_view(sizes@), remaining as nat),
        decreases remaining,
    {
        let m = find_min_index(&sizes);
        proof {
            lemma_min_index_bounds(int_view(sizes@));
            lemma_sum_elem_le(int_view(sizes@), m as int);
        }
        let ghost pre = int_view(sizes@);
        let bumped = sizes[m] + 1;
        sizes.set(m, bumped);
        proof {
            assert(int_view(sizes@) =~= pre.update(m as int, pre[m as int] + 1));
            lemma_sum_update(pre, m as int, pre[m as int] + 1);
        }
        remaining = remaining - 1;
    }
    proof {
        assert(span_shares(e, ws) == distribute(int_view(sizes@), 0));
        assert forall|j: int| 0 <= j < n implies 0 <= #[trigger] sizes@[j] <= e by {
            lemma_sum_elem_le(int_view(sizes@), j);
        }
    }
    sizes
}

/// An entry of a non-negative sequence never exceeds the sum.
pub proof fn lemma_sum_elem_le(s: Seq<int>, i: int)
    requires
        0 <= i < s.len(),
        forall|j: int| 0 <= j < s.len() ==> 0 <= #[trigger] s[j],
    ensures
        s[i] <= sum_seq(s),
{
    lemma_child_offset_bounds(s, i);
    lemma_child_offset_bounds(s, i + 1);
    lemma_sum_take_succ(s, i);
}

/// The rectangle that the node `span_id` occupies when the tree `node`
/// occupies `parent_dimensions`; `None` exactly when the id is not in
/// the tree.  Children split their parent's extent as `span_shares`
/// states: floor shares by weight, with the remainder granted one cell
/// at a time to the smallest child.
#[verifier::loop_isolation(false)]
pub fn get_span_dimensions(node: &Node, span_id: usize, parent_dimensions: Rect) -> (r: Option<
    Rect,
>)
    requires
        node_wf(*node),
        view_rect_wf(parent_dimensions),
    ensures
        r == dims_spec(*node, span_id as int, parent_dimensions),
        (r is Some) == node_ids(*node).contains(span_id as int),
        r matches Some(rr) ==> view_rect_wf(rr) && rect_within(rr, parent_dimensions),
    decreases *node,
{
    proof {
        lemma_dims_some_iff(*node, span_id as int, parent_dimensions);
        lemma_dims_result_wf(*node, span_id as int, parent_dimensions);
    }
    if node.id == span_id {
        return Some(parent_dimensions);
    }
    match &node.data {
        NodeData::Void => None,
        NodeData::Span(span) => {
            let ghost cs = span.children@;
            let extent: i32 = match span.direction {
                SpanDirection::Horizontal => parent_dimensions.size.x,
                SpanDirection::Vertical => parent_dimensions.size.y,
            };
            let n = span.children.len();
            let mut weights: Vec<u64> = Vec::new();
            let mut i: usize = 0;
            while i < n
                invariant
                    0 <= i <= n,
                    weights@ == weights_of(cs).take(i as int),
                decreases n - i,
            {
                weights.push(span.children[i].size);
                proof {
                    assert(weights@ =~= weights_of(cs).take(i as int + 1));
                }
                i = i + 1;
            }
            proof {
                assert(weights_of(cs).take(n as int) =~= weights_of(cs));
                assert forall|j: int| 0 <= j < n implies 1 <= #[trigger] weights@[j]
                    <= MAX_WEIGHT by {
                    assert(weights@[j] == cs[j].size);
                }
            }
            let sizes = compute_child_sizes(extent, &weights);
            let ghost shares = span_child_shares(*span, parent_dimensions);
            proof {
                assert(shares == int_view(sizes@));
                lemma_span_child_shares(*span, parent_dimensions);
            }
            let mut offset: i32 = 0;
            let mut k: usize = 0;
            while k < n
                invariant
                    0 <= k <= n,
                    offset == child_offset(shares, k as int),
                    0 <= offset <= extent,
                    dims_search(*span, cs, span_id as int, parent_dimensions, 0) == dims_search(
                        *span,
                        cs,
                        span_id as int,
                        parent_dimensions,
                        k as int,
                    ),
                decreases n - k,
            {
                proof {
                    lemma_span_child_rect_wf(*span, parent_dimensions, k as int);
                    assert(decreases_to!(cs => cs[k as int]));
                }
                let crect = match span.direction {
                    SpanDirection::Horizontal => Rect {
                        position: Vector2 {
                            x: parent_dimensions.position.x + offset,
                            y: parent_dimensions.position.y,
                        },
                        size: Vector2 { x: sizes[k], y: parent_dimensions.size.y },
                    },
                    SpanDirection::Vertical => Rect {
                        position: Vector2 {
                            x: parent_dimensions.position.x,
                            y: parent_dimensions.position.y + offset,
                        },
                        size: Vector2 { x: parent_dimensions.size.x, y: sizes[k] },
                    },
                };
                proof {
                    assert(crect == span_child_rect(*span, parent_dimensions, k as int));
                }
                let sub = get_span_dimensions(&span.children[k].node, span_id, crect);
                if sub.is_some() {
                    return sub;
                }
                proof {
                    lemma_sum_take_succ(shares, k as int);
                    lemma_child_offset_bounds(shares, k as int + 1);
                }
                offset = offset + sizes[k];
                k = k + 1;
            }
            None
        },
    }
}

/// All ids of leaf panes in the subtree.
pub open spec fn leaf_ids(n: Node) -> Set<int>
    decreases n,
{
    match n.data {
        NodeData::Void => set![n.id as int],
        NodeData::Span(s) => children_leaf_ids(s.children@),
    }
}

/// All leaf ids in the given child list.
pub open spec fn children_leaf_ids(cs: Seq<SpanChild>) -> Set<int>
    decreases cs,
{
    if cs.len() == 0 {
        Set::empty()
    } else {
        children_leaf_ids(cs.drop_last()).union(leaf_ids(cs.last().node))
    }
}

/// The rectangle holds the point `(x, y)`.
pub open spec fn rect_has_point(r: Rect, x: int, y: int) -> bool {
    &&& r.position.x <= x < r.position.x + r.size.x
    &&& r.position.y <= y < r.position.y + r.size.y
}

/// Membership in `children_leaf_ids` is membership in some child.
pub proof fn lemma_children_leaf_ids_index(cs: Seq<SpanChild>, id: int)
    ensures
        children_leaf_ids(cs).contains(id) <==> exists|i: int|
            0 <= i < cs.len() && leaf_ids(#[trigger] cs[i].node).contains(id),
    decreases cs,
{
    if cs.len() > 0 {
        lemma_children_leaf_ids_index(cs.drop_last(), id);
        if children_leaf_ids(cs).contains(id) {
            if leaf_ids(cs.last().node).contains(id) {
                assert(leaf_ids(cs[cs.len() - 1].node).contains(id));
            } else {
                let i = choose|i: int|
                    0 <= i < cs.drop_last().len() && leaf_ids(
                        #[trigger] cs.drop_last()[i].node,
                    ).contains(id);
                assert(leaf_ids(cs[i].node).contains(id));
            }
        }
        if exists|i: int| 0 <= i < cs.len() && leaf_ids(#[trigger] cs[i].node).contains(id) {
            let i = choose|i: int| 0 <= i < cs.len() && leaf_ids(#[trigger] cs[i].node).contains(id);
            if i == cs.len() - 1 {
                assert(children_leaf_ids(cs).contains(id));
            } else {
                assert(cs.drop_last()[i] == cs[i]);
                assert(children_leaf_ids(cs.drop_last()).contains(id));
            }
        }
    }
}

/// Every leaf id is an id of the tree.
pub proof fn lemma_leaf_ids_subset(n: Node)
    ensures
        leaf_ids(n).subset_of(node_ids(n)),
    decreases n, 0int,
{
    match n.data {
        NodeData::Void => {},
        NodeData::Span(s) => {
            lemma_children_leaf_ids_subset(s.children@);
        },
    }
}

pub proof fn lemma_children_leaf_ids_subset(cs: Seq<SpanChild>)
    ensures
        children_leaf_ids(cs).subset_of(children_ids_set(cs)),
    decreases cs, 0int,
{
    if cs.len() > 0 {
        lemma_children_leaf_ids_subset(cs.drop_last());
        lemma_leaf_ids_subset(cs.last().node);
    }
}

/// A synonym so the subset lemma can speak of the id set of a child
/// list without importing its module path everywhere.
pub open spec fn children_ids_set(cs: Seq<SpanChild>) -> Set<int> {
    crate::span::children_ids(cs)
}

/// Offsets of later children never lie before offsets of earlier ones.
pub proof fn lemma_offset_monotone(shares: Seq<int>, k1: int, k2: int)
    requires
        forall|i: int| 0 <= i < shares.len() ==> 0 <= #[trigger] shares[i],
        0 <= k1 <= k2 <= shares.len(),
    ensures
        child_offset(shares, k1) <= child_offset(shares, k2),
    decreases k2 - k1,
{
    if k1 < k2 {
        lemma_offset_monotone(shares, k1, k2 - 1);
        lemma_sum_take_succ(shares, k2 - 1);
    }
}

/// Any point of the extent falls into some child's slab.
pub proof fn lemma_slab_exists(shares: Seq<int>, t: int)
    requires
        forall|i: int| 0 <= i < shares.len() ==> 0 <= #[trigger] shares[i],
        0 <= t < sum_seq(shares),
    ensures
        exists|k: int|
            0 <= k < shares.len() && #[trigger] child_offset(shares, k) <= t < child_offset(
                shares,
                k,
            ) + shares[k],
    decreases shares,
{
    let last = shares.len() - 1;
    assert(shares.len() >= 1);
    assert forall|i: int| 0 <= i < shares.drop_last().len() implies 0 <= #[trigger] shares
        .drop_last()[i] by {
        assert(shares.drop_last()[i] == shares[i]);
    }
    if t < sum_seq(shares.drop_last()) {
        lemma_slab_exists(shares.drop_last(), t);
        let k = choose|k: int|
            0 <= k < shares.drop_last().len() && #[trigger] child_offset(shares.drop_last(), k)
                <= t < child_offset(shares.drop_last(), k) + shares.drop_last()[k];
        assert(shares.drop_last().take(k) =~= shares.take(k));
        assert(child_offset(shares, k) <= t < child_offset(shares, k) + shares[k]);
    } else {
        assert(shares.take(last) =~= shares.drop_last());
        assert(sum_seq(shares) == sum_seq(shares.drop_last()) + shares[last]);
        assert(child_offset(shares, last) <= t < child_offset(shares, last) + shares[last]);
    }
}

/// When a child holds the id and no sibling before it does, the search
/// lands on exactly that child.
pub proof fn lemma_search_routes(s: Span, cs: Seq<SpanChild>, id: int, rect: Rect, k: int, j: int)
    requires
        0 <= k <= j < cs.len(),
        node_ids(cs[j].node).contains(id),
        forall|i: int|
            0 <= i < cs.len() && i != j ==> !node_ids((#[trigger] cs[i]).node).contains(id),
    ensures
        dims_search(s, cs, id, rect, k) == dims_spec(cs[j].node, id, span_child_rect(s, rect, j)),
    decreases j - k,
{
    lemma_dims_some_iff(cs[k].node, id, span_child_rect(s, rect, k));
    if k < j {
        lemma_search_routes(s, cs, id, rect, k + 1, j);
    } else {
        assert(dims_spec(cs[j].node, id, span_child_rect(s, rect, j)) is Some);
    }
}

/// Coverage: any point of a well-formed tree's rectangle lies in the
/// rectangle of some leaf pane.
pub proof fn lemma_leaf_rects_cover(n: Node, rect: Rect, x: int, y: int)
    requires
        node_wf(n),
        view_rect_wf(rect),
        rect_has_point(rect, x, y),
    ensures
        exists|id: int|
            (#[trigger] dims_spec(n, id, rect)) matches Some(rr) && leaf_ids(n).contains(id)
                && rect_has_point(rr, x, y),
    decreases n, 0int,
{
    match n.data {
        NodeData::Void => {
            assert(dims_spec(n, n.id as int, rect) == Some(rect));
            assert(dims_spec(n, n.id as int, rect) matches Some(rr) && leaf_ids(n).contains(
                n.id as int,
            ) && rect_has_point(rr, x, y));
        },
        NodeData::Span(s) => {
            let cs = s.children@;
            let shares = span_child_shares(s, rect);
            lemma_span_child_shares(s, rect);
            let t = match s.direction {
                SpanDirection::Horizontal => x - rect.position.x,
                SpanDirection::Vertical => y - rect.position.y,
            };
            lemma_slab_exists(shares, t);
            let k = choose|k: int|
                0 <= k < shares.len() && #[trigger] child_offset(shares, k) <= t < child_offset(
                    shares,
                    k,
                ) + shares[k];
            lemma_span_child_rect_wf(s, rect, k);
            let crect = span_child_rect(s, rect, k);
            assert(rect_has_point(crect, x, y));
            assert(decreases_to!(cs => cs[k]));
            lemma_leaf_rects_cover(cs[k].node, crect, x, y);
            let id = choose|id: int|
                (#[trigger] dims_spec(cs[k].node, id, crect)) matches Some(rr) && leaf_ids(
                    cs[k].node,
                ).contains(id) && rect_has_point(rr, x, y);
            lemma_leaf_ids_subset(cs[k].node);
            assert forall|i: int|
                0 <= i < cs.len() && i != k implies !node_ids((#[trigger] cs[i]).node).contains(
                id,
            ) by {
                assert(node_ids(cs[k].node).disjoint(node_ids(cs[i].node)));
            }
            lemma_search_routes(s, cs, id, rect, 0, k);
            assert(!node_ids(cs[k].node).contains(n.id as int));
            assert(n.id as int != id);
            assert(dims_spec(n, id, rect) == dims_spec(cs[k].node, id, crect));
            lemma_children_leaf_ids_index(cs, id);
            assert(leaf_ids(n).contains(id));
        },
    }
}

/// Non-overlap: the rectangles of two different leaf panes never share
/// a point.
pub proof fn lemma_leaf_rects_disjoint(
    n: Node,
    rect: Rect,
    id1: int,
    id2: int,
    r1: Rect,
    r2: Rect,
    x: int,
    y: int,
)
    requires
        node_wf(n),
        view_rect_wf(rect),
        id1 != id2,
        leaf_ids(n).contains(id1),
        leaf_ids(n).contains(id2),
        dims_spec(n, id1, rect) == Some(r1),
        dims_spec(n, id2, rect) == Some(r2),
        rect_has_point(r1, x, y),
    ensures
        !rect_has_point(r2, x, y),
    decreases n, 0int,
{
    match n.data {
        NodeData::Void => {
            assert(leaf_ids(n) =~= set![n.id as int]);
        },
        NodeData::Span(s) => {
            let cs = s.children@;
            let shares = span_child_shares(s, rect);
            lemma_span_child_shares(s, rect);
            lemma_children_leaf_ids_index(cs, id1);
            lemma_children_leaf_ids_index(cs, id2);
            let k1 = choose|i: int| 0 <= i < cs.len() && leaf_ids(#[trigger] cs[i].node).contains(id1);
            let k2 = choose|i: int| 0 <= i < cs.len() && leaf_ids(#[trigger] cs[i].node).contains(id2);
            lemma_leaf_ids_subset(cs[k1].node);
            lemma_leaf_ids_subset(cs[k2].node);
            assert(!node_ids(cs[k1].node).contains(n.id as int));
            assert(!node_ids(cs[k2].node).contains(n.id as int));
            assert forall|i: int|
                0 <= i < cs.len() && i != k1 implies !node_ids((#[trigger] cs[i]).node).contains(
                id1,
            ) by {
                assert(node_ids(cs[k1].node).disjoint(node_ids(cs[i].node)));
            }
            assert forall|i: int|
                0 <= i < cs.len() && i != k2 implies !node_ids((#[trigger] cs[i]).node).contains(
                id2,
            ) by {
                assert(node_ids(cs[k2].node).disjoint(node_ids(cs[i].node)));
            }
            lemma_search_routes(s, cs, id1, rect, 0, k1);
            lemma_search_routes(s, cs, id2, rect, 0, k2);
            let c1 = span_child_rect(s, rect, k1);
            let c2 = span_child_rect(s, rect, k2);
            lemma_span_child_rect_wf(s, rect, k1);
            lemma_span_child_rect_wf(s, rect, k2);
            if k1 == k2 {
                assert(decreases_to!(cs => cs[k1]));
                lemma_leaf_rects_disjoint(cs[k1].node, c1, id1, id2, r1, r2, x, y);
            } else {
                lemma_dims_result_wf(cs[k1].node, id1, c1);
                lemma_dims_result_wf(cs[k2].node, id2, c2);
                if k1 < k2 {
                    lemma_offset_monotone(shares, k1 + 1, k2);
                    lemma_sum_take_succ(shares, k1);
                } else {
                    lemma_offset_monotone(shares, k2 + 1, k1);
                    lemma_sum_take_succ(shares, k2);
                }
                assert(!rect_has_point(r2, x, y));
            }
        },
    }
}

} // verus!
