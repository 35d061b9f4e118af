use citymux::layout::{compute_child_sizes, get_span_dimensions};
use citymux::rect::Rect;
use citymux::span::{Node, NodeData, Span, SpanChild, SpanDirection, DEFAULT_WEIGHT};
use citymux::vector::Vector2;

fn leaf(id: usize) -> Node {
    Node::new(id, NodeData::Void)
}

fn two_leaf_h_root() -> Node {
    Node::new(
        3,
        NodeData::Span(Span {
            direction: SpanDirection::Horizontal,
            children: vec![SpanChild::new(leaf(1)), SpanChild::new(leaf(2))],
        }),
    )
}

#[test]
fn shares_split_even_extent_exactly() {
    let sizes = compute_child_sizes(80, &vec![DEFAULT_WEIGHT, DEFAULT_WEIGHT]);
    assert_eq!(sizes, vec![40, 40]);
}

#[test]
fn shares_hand_remainder_to_smallest_children() {
    let sizes = compute_child_sizes(81, &vec![DEFAULT_WEIGHT, DEFAULT_WEIGHT]);
    assert_eq!(sizes, vec![41, 40]);
    let sizes = compute_child_sizes(80, &vec![DEFAULT_WEIGHT, DEFAULT_WEIGHT, DEFAULT_WEIGHT]);
    assert_eq!(sizes, vec![27, 27, 26]);
    let total: i32 = sizes.iter().sum();
    assert_eq!(total, 80);
}

#[test]
fn shares_follow_weights() {
    let sizes = compute_child_sizes(90, &vec![2 * DEFAULT_WEIGHT, DEFAULT_WEIGHT]);
    assert_eq!(sizes, vec![60, 30]);
}

#[test]
fn dimensions_of_sibling_panes() {
    let root = two_leaf_h_root();
    let rect = Rect::new(Vector2::new(0, 0), Vector2::new(80, 24));
    assert_eq!(
        get_span_dimensions(&root, 1, rect),
        Some(Rect::new(Vector2::new(0, 0), Vector2::new(40, 24)))
    );
    assert_eq!(
        get_span_dimensions(&root, 2, rect),
        Some(Rect::new(Vector2::new(40, 0), Vector2::new(40, 24)))
    );
    assert_eq!(get_span_dimensions(&root, 3, rect), Some(rect));
}

#[test]
fn dimensions_none_iff_absent() {
    let root = two_leaf_h_root();
    let rect = Rect::new(Vector2::new(0, 0), Vector2::new(80, 24));
    assert_eq!(get_span_dimensions(&root, 9, rect), None);
    assert!(root.contains_id(1));
    assert!(root.contains_id(2));
    assert!(root.contains_id(3));
    assert!(!root.contains_id(9));
}

#[test]
fn nested_split_dimensions_cover_the_rect() {
    // A horizontal root holding a leaf and a vertical split of two
    // leaves: the four leaf rectangles tile the root rectangle.
    let inner = Node::new(
        5,
        NodeData::Span(Span {
            direction: SpanDirection::Vertical,
            children: vec![SpanChild::new(leaf(2)), SpanChild::new(leaf(4))],
        }),
    );
    let root = Node::new(
        3,
        NodeData::Span(Span {
            direction: SpanDirection::Horizontal,
            children: vec![SpanChild::new(leaf(1)), SpanChild::new(inner)],
        }),
    );
    let rect = Rect::new(Vector2::new(0, 0), Vector2::new(81, 25));
    let r1 = get_span_dimensions(&root, 1, rect).unwrap();
    let r2 = get_span_dimensions(&root, 2, rect).unwrap();
    let r4 = get_span_dimensions(&root, 4, rect).unwrap();
    assert_eq!(r1, Rect::new(Vector2::new(0, 0), Vector2::new(41, 25)));
    assert_eq!(r2, Rect::new(Vector2::new(41, 0), Vector2::new(40, 13)));
    assert_eq!(r4, Rect::new(Vector2::new(41, 13), Vector2::new(40, 12)));
    assert_eq!(r1.size().x + r2.size().x, 81);
    assert_eq!(r2.size().y + r4.size().y, 25);
}
