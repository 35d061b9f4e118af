use citymux::canvas::Canvas;
use citymux::cell::Cell;
use citymux::rect::Rect;
use citymux::vector::Vector2;

#[test]
fn canvas_view_read() {
    let mut canvas = Canvas::new_filled(Vector2::new(100, 100), Cell::new('#'));
    let view = canvas.to_sub_view(Rect::new(Vector2::new(10, 10), Vector2::new(50, 50)));
    assert_eq!(view.get_cell(&canvas, Vector2::new(10, 10)), Cell::new('#'));
    assert_eq!(view.get_cell(&canvas, Vector2::new(0, 0)), Cell::new('#'));
    assert_eq!(view.get_cell(&canvas, Vector2::new(-1, -1)), Cell::new(' '));
    assert_eq!(view.get_cell(&canvas, Vector2::new(50, 50)), Cell::new(' '));
    assert_eq!(view.get_cell(&canvas, Vector2::new(51, 51)), Cell::new(' '));
}

#[test]
fn canvas_view_write() {
    let mut canvas = Canvas::new(Vector2::new(100, 100));
    let view = canvas.to_sub_view(Rect::new(Vector2::new(10, 10), Vector2::new(50, 50)));
    view.set_cell(&mut canvas, Vector2::new(0, 0), Cell::new('A'));
    println!("{:?}", &canvas);
    assert_eq!(canvas.get_cell(Vector2::new(10, 10)), Cell::new('A'));
}

#[test]
fn canvas_resize_preserves_overlap() {
    let mut canvas = Canvas::new(Vector2::new(8, 6));
    canvas.set_cell(Vector2::new(2, 3), Cell::new('x'));
    canvas.set_cell(Vector2::new(7, 5), Cell::new('y'));
    canvas.set_size(Vector2::new(5, 9));
    assert_eq!(canvas.get_cell(Vector2::new(2, 3)), Cell::new('x'));
    assert_eq!(canvas.get_cell(Vector2::new(7, 5)), Cell::new(' '));
    assert_eq!(canvas.get_cell(Vector2::new(3, 7)), Cell::new(' '));
    canvas.set_size(Vector2::new(8, 6));
    assert_eq!(canvas.get_cell(Vector2::new(2, 3)), Cell::new('x'));
}

#[test]
fn canvas_out_of_bounds_accesses_are_tolerated() {
    let mut canvas = Canvas::new(Vector2::new(4, 4));
    canvas.set_cell(Vector2::new(-1, 0), Cell::new('q'));
    canvas.set_cell(Vector2::new(0, 4), Cell::new('q'));
    assert_eq!(canvas.get_cell(Vector2::new(-1, 0)), Cell::new(' '));
    assert_eq!(canvas.get_cell(Vector2::new(0, 4)), Cell::new(' '));
    assert_eq!(canvas.get_cell(Vector2::new(0, 0)), Cell::new(' '));
}

#[test]
fn nested_views_translate_and_clip() {
    let mut canvas = Canvas::new(Vector2::new(20, 20));
    let outer = canvas.to_sub_view(Rect::new(Vector2::new(5, 5), Vector2::new(10, 10)));
    let inner = outer.to_sub_view(Rect::new(Vector2::new(2, 2), Vector2::new(4, 4)));
    inner.set_cell(&mut canvas, Vector2::new(1, 1), Cell::new('n'));
    assert_eq!(canvas.get_cell(Vector2::new(8, 8)), Cell::new('n'));
    inner.set_cell(&mut canvas, Vector2::new(4, 0), Cell::new('o'));
    assert_eq!(inner.get_cell(&canvas, Vector2::new(4, 0)), Cell::new(' '));
    assert_eq!(inner.get_cell(&canvas, Vector2::new(1, 1)), Cell::new('n'));
}

#[test]
fn canvas_equality_is_structural() {
    let mut a = Canvas::new(Vector2::new(3, 3));
    let mut b = Canvas::new(Vector2::new(3, 3));
    assert!(a == b);
    a.set_cell(Vector2::new(1, 1), Cell::new('z'));
    assert!(a != b);
    b.set_cell(Vector2::new(1, 1), Cell::new('z'));
    assert!(a == b);
}
