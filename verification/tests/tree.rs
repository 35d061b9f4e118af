use citymux::layout::get_span_dimensions;
use citymux::rect::Rect;
use citymux::span::{Node, NodeData, Span, SpanChild, SpanDirection};
use citymux::tree::{create_span, remove_node, LayoutError, LayoutTree};
use citymux::vector::Vector2;

fn leaf(id: usize) -> Node {
    Node::new(id, NodeData::Void)
}

fn landscape() -> Rect {
    Rect::new(Vector2::new(0, 0), Vector2::new(80, 24))
}

#[test]
fn first_pane_becomes_root() {
    let mut tree = LayoutTree::new();
    assert_eq!(create_span(&mut tree, landscape()), Ok(1));
    assert_eq!(tree.active_id, 1);
    assert_eq!(tree.span_id_counter, 1);
    let root = tree.root.as_ref().unwrap();
    assert_eq!(root.id, 1);
    assert!(matches!(root.data, NodeData::Void));
}

#[test]
fn second_pane_splits_by_aspect() {
    let mut tree = LayoutTree::new();
    create_span(&mut tree, landscape()).unwrap();
    assert_eq!(create_span(&mut tree, landscape()), Ok(2));
    assert_eq!(tree.active_id, 2);
    let root = tree.root.as_ref().unwrap();
    assert_eq!(root.id, 3);
    match &root.data {
        NodeData::Span(span) => {
            assert!(matches!(span.direction, SpanDirection::Horizontal));
            assert_eq!(span.children.len(), 2);
            assert_eq!(span.children[0].node.id, 1);
            assert_eq!(span.children[1].node.id, 2);
        }
        NodeData::Void => panic!("expected a split root"),
    }
    let r1 = get_span_dimensions(root, 1, landscape()).unwrap();
    let r2 = get_span_dimensions(root, 2, landscape()).unwrap();
    assert_eq!(r1, Rect::new(Vector2::new(0, 0), Vector2::new(40, 24)));
    assert_eq!(r2, Rect::new(Vector2::new(40, 0), Vector2::new(40, 24)));
}

#[test]
fn second_pane_splits_vertically_in_portrait() {
    let mut tree = LayoutTree::new();
    let rect = Rect::new(Vector2::new(0, 0), Vector2::new(24, 80));
    create_span(&mut tree, rect).unwrap();
    create_span(&mut tree, rect).unwrap();
    match &tree.root.as_ref().unwrap().data {
        NodeData::Span(span) => assert!(matches!(span.direction, SpanDirection::Vertical)),
        NodeData::Void => panic!("expected a split root"),
    }
}

#[test]
fn third_pane_joins_wide_span_as_sibling() {
    // On an 80 by 24 root the projected sibling width, 80 / 3, exceeds
    // the active pane's height of 24, so the new pane joins the row.
    let mut tree = LayoutTree::new();
    create_span(&mut tree, landscape()).unwrap();
    create_span(&mut tree, landscape()).unwrap();
    assert_eq!(create_span(&mut tree, landscape()), Ok(4));
    assert_eq!(tree.active_id, 4);
    let root = tree.root.as_ref().unwrap();
    match &root.data {
        NodeData::Span(span) => {
            assert_eq!(span.children.len(), 3);
            assert_eq!(span.children[2].node.id, 4);
        }
        NodeData::Void => panic!("expected a split root"),
    }
    let r4 = get_span_dimensions(root, 4, landscape()).unwrap();
    assert_eq!(r4, Rect::new(Vector2::new(54, 0), Vector2::new(26, 24)));
}

#[test]
fn third_pane_nests_when_a_sibling_would_be_a_sliver() {
    // On an 80 by 60 root the projected sibling width, 80 / 3, is less
    // than the active pane's height of 60: the new pane nests below it
    // in a perpendicular split.
    let tall = Rect::new(Vector2::new(0, 0), Vector2::new(80, 60));
    let mut tree = LayoutTree::new();
    create_span(&mut tree, tall).unwrap();
    create_span(&mut tree, tall).unwrap();
    assert_eq!(create_span(&mut tree, tall), Ok(4));
    let root = tree.root.as_ref().unwrap();
    match &root.data {
        NodeData::Span(span) => {
            assert_eq!(span.children.len(), 2);
            let replaced = &span.children[1].node;
            assert_eq!(replaced.id, 5);
            match &replaced.data {
                NodeData::Span(inner) => {
                    assert!(matches!(inner.direction, SpanDirection::Vertical));
                    assert_eq!(inner.children[0].node.id, 2);
                    assert_eq!(inner.children[1].node.id, 4);
                }
                NodeData::Void => panic!("expected a nested split"),
            }
        }
        NodeData::Void => panic!("expected a split root"),
    }
    let r2 = get_span_dimensions(root, 2, tall).unwrap();
    let r4 = get_span_dimensions(root, 4, tall).unwrap();
    assert_eq!(r2, Rect::new(Vector2::new(40, 0), Vector2::new(40, 30)));
    assert_eq!(r4, Rect::new(Vector2::new(40, 30), Vector2::new(40, 30)));
}

#[test]
fn create_without_active_pane_fails() {
    let mut tree = LayoutTree {
        root: Some(Node::new(
            3,
            NodeData::Span(Span {
                direction: SpanDirection::Horizontal,
                children: vec![SpanChild::new(leaf(1)), SpanChild::new(leaf(2))],
            }),
        )),
        span_id_counter: 3,
        active_id: 9,
    };
    assert_eq!(create_span(&mut tree, landscape()), Err(LayoutError::NodeNotFound));
    // The fresh id is consumed but the active pane is left as it was.
    assert_eq!(tree.active_id, 9);
    assert_eq!(tree.span_id_counter, 4);
    let mut tree2 = LayoutTree {
        root: Some(Node::new(
            3,
            NodeData::Span(Span {
                direction: SpanDirection::Horizontal,
                children: vec![SpanChild::new(leaf(1)), SpanChild::new(leaf(2))],
            }),
        )),
        span_id_counter: 3,
        active_id: 3,
    };
    assert_eq!(create_span(&mut tree2, landscape()), Err(LayoutError::ParentNotFound));
    assert_eq!(tree2.active_id, 3);
}

#[test]
fn removing_the_last_pane_signals_shutdown() {
    let mut root = leaf(1);
    assert_eq!(remove_node(&mut root, 1), Ok(None));
    assert!(matches!(root.data, NodeData::Void));
}

#[test]
fn removing_one_of_two_siblings_activates_the_other() {
    let mut root = Node::new(
        3,
        NodeData::Span(Span {
            direction: SpanDirection::Horizontal,
            children: vec![SpanChild::new(leaf(1)), SpanChild::new(leaf(2))],
        }),
    );
    assert_eq!(remove_node(&mut root, 1), Ok(Some(2)));
    match &root.data {
        NodeData::Span(span) => {
            assert_eq!(span.children.len(), 1);
            assert_eq!(span.children[0].node.id, 2);
        }
        NodeData::Void => panic!("expected the span to survive"),
    }
}

#[test]
fn removing_a_missing_id_is_an_error() {
    let mut root = Node::new(
        3,
        NodeData::Span(Span {
            direction: SpanDirection::Horizontal,
            children: vec![SpanChild::new(leaf(1)), SpanChild::new(leaf(2))],
        }),
    );
    assert_eq!(remove_node(&mut root, 9), Err(LayoutError::NodeNotFound));
    assert!(root.contains_id(1));
    assert!(root.contains_id(2));
}

#[test]
fn emptied_spans_collapse_upward() {
    // The root holds one child span which holds a single pane:
    // removing the pane empties both spans and the whole tree.
    let inner = Node::new(
        5,
        NodeData::Span(Span {
            direction: SpanDirection::Vertical,
            children: vec![SpanChild::new(leaf(2))],
        }),
    );
    let mut root = Node::new(
        3,
        NodeData::Span(Span {
            direction: SpanDirection::Horizontal,
            children: vec![SpanChild::new(inner)],
        }),
    );
    assert_eq!(remove_node(&mut root, 2), Ok(None));
    assert_eq!(root.id, 3);
    assert!(matches!(root.data, NodeData::Void));
}
