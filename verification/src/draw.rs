//! The double-buffered diff renderer and the compositor.

use vstd::prelude::*;
use vstd::utf8::encode_utf8;
use crate::canvas::{Canvas, MAX_CANVAS_DIM};
use crate::cell::{blank_cell, Cell, CellValue, CellView};
use crate::escape_codes::{
    cursor_forward_bytes, cursor_visibility_bytes, erase_character_bytes, move_cursor_bytes,
    reset_style_bytes, CursorForward, EraseCharacter, MoveCursor, ResetStyle, SetCursorVisibility,
};
use crate::layout::{dims_spec, get_span_dimensions, rect_within};
use crate::rect::Rect;
use crate::span::{node_wf, Node, NodeData};
use crate::style::{default_style, style_bytes, Style};
use crate::vector::Vector2;
use crate::view::view_rect_wf;

verus! {

/// A cell the diff renderer treats as empty: a plain space with no
/// styling, so that a whole run of them can be covered by one
/// erase-characters sequence.
pub open spec fn is_blank(c: CellView) -> bool {
    c == blank_cell()
}

/// Row `y` of a canvas, left to right.
pub open spec fn row_of(c: Canvas, y: int) -> Seq<CellView> {
    Seq::new(c.spec_size().x as nat, |x: int| c.cell_view(x, y))
}

/// The length of the run of blank cells starting at `i`.
pub open spec fn run_len(row: Seq<CellView>, i: int) -> int
    decreases row.len() - i,
{
    if i < 0 || i >= row.len() || !is_blank(row[i]) {
        0
    } else {
        1 + run_len(row, i + 1)
    }
}

pub proof fn lemma_run_len_bounds(row: Seq<CellView>, i: int)
    ensures
        0 <= run_len(row, i),
        0 <= i <= row.len() ==> i + run_len(row, i) <= row.len(),
    decreases row.len() - i,
{
    if !(i < 0 || i >= row.len() || !is_blank(row[i])) {
        lemma_run_len_bounds(row, i + 1);
    }
}

/// The bytes that repaint one row from column `i` on, and the style the
/// terminal is left in.  A run of blank cells becomes a style reset (if
/// styling is active), one erase-characters and one cursor-forward
/// sequence; any other cell becomes a style change (only when its style
/// differs from the running one) followed by its content bytes.
pub open spec fn row_emit(row: Seq<CellView>, i: int, st: Style) -> (Seq<u8>, Style)
    decreases row.len() - i,
    via row_emit_dec
{
    if i < 0 || i >= row.len() {
        (Seq::<u8>::empty(), st)
    } else if is_blank(row[i]) {
        let n = run_len(row, i);
        let pre = if st != default_style() {
            reset_style_bytes()
        } else {
            Seq::<u8>::empty()
        };
        let rest = row_emit(row, i + n, default_style());
        (pre + erase_character_bytes(n) + cursor_forward_bytes(n) + rest.0, rest.1)
    } else {
        let sb = if row[i].style != st {
            reset_style_bytes() + style_bytes(row[i].style)
        } else {
            Seq::<u8>::empty()
        };
        let rest = row_emit(row, i + 1, row[i].style);
        (sb + encode_utf8(row[i].text) + rest.0, rest.1)
    }
}

#[via_fn]
proof fn row_emit_dec(row: Seq<CellView>, i: int, st: Style) {
    if 0 <= i < row.len() && is_blank(row[i]) {
        lemma_run_len_bounds(row, i);
        lemma_run_len_bounds(row, i + 1);
        assert(run_len(row, i) == 1 + run_len(row, i + 1));
    }
}

/// The bytes that repaint the frame from row `y` on: per row, a cursor
/// move to its first column and the row's own bytes, the running style
/// carried from row to row.
pub open spec fn rows_emit(c: Canvas, y: int, st: Style) -> (Seq<u8>, Style)
    decreases c.spec_size().y - y,
{
    if y < 0 || y >= c.spec_size().y {
        (Seq::<u8>::empty(), st)
    } else {
        let r = row_emit(row_of(c, y), 0, st);
        let rest = rows_emit(c, y + 1, r.1);
        (move_cursor_bytes(y, 0) + r.0 + rest.0, rest.1)
    }
}

/// What the diff renderer sends: nothing at all when the frames are
/// structurally equal, otherwise a full repaint of every row followed
/// by a final style reset.
pub open spec fn diff_bytes(last: Canvas, new: Canvas) -> Seq<u8> {
    if last.same_content(new) {
        Seq::<u8>::empty()
    } else {
        rows_emit(new, 0, default_style()).0 + reset_style_bytes()
    }
}

/// True when the cell at `(x, y)` is blank in the diff renderer's
/// sense.
fn cell_is_blank(c: &Canvas, x: i32, y: i32) -> (r: bool)
    requires
        c.wf(),
    ensures
        r == is_blank(c.cell_view(x as int, y as int)),
{
    let cell = c.get_cell(Vector2 { x, y });
    cell.is_empty() && cell.style == Style::default()
}

/// Emits the escape-byte stream that brings a terminal showing
/// `last` to show `new`.  Rendering the same frame twice emits nothing:
/// equal frames are skipped entirely.
#[verifier::loop_isolation(false)]
pub fn render_diff(last: &Canvas, new: &Canvas) -> (r: Vec<u8>)
    requires
        last.wf(),
        new.wf(),
    ensures
        r@ == diff_bytes(*last, *new),
        last.same_content(*new) ==> r@.len() == 0,
{
    if last == new {
        let r: Vec<u8> = Vec::new();
        proof {
            assert(r@ =~= diff_bytes(*last, *new));
        }
        return r;
    }
    let mut out: Vec<u8> = Vec::new();
    let h = new.size().y;
    let w = new.size().x;
    let mut last_style = Style::default();
    let ghost whole = rows_emit(*new, 0, default_style());
    let mut y: i32 = 0;
    proof {
        assert(out@ + rows_emit(*new, 0, last_style).0 =~= whole.0);
    }
    while y < h
        invariant
            0 <= y <= h,
            out@ + rows_emit(*new, y as int, last_style).0 == whole.0,
            rows_emit(*new, y as int, last_style).1 == whole.1,
        decreases h - y,
    {
        let ghost st_row = last_style;
        let mv = MoveCursor::new(y, 0);
        let mut mvb = mv.to_vec();
        out.append(&mut mvb);
        let ghost row = row_of(*new, y as int);
        let ghost row_whole = row_emit(row, 0, st_row);
        let ghost out0 = out@;
        let mut x: i32 = 0;
        while x < w
            invariant
                0 <= x <= w,
                0 <= y < h,
                out@ + row_emit(row, x as int, last_style).0 == out0 + row_whole.0,
                row_emit(row, x as int, last_style).1 == row_whole.1,
            decreases w - x,
        {
            proof {
                assert(row[x as int] == new.cell_view(x as int, y as int));
            }
            if cell_is_blank(new, x, y) {
                proof {
                    lemma_run_len_bounds(row, x as int);
                }
                let ghost st_before = last_style;
                if !(last_style == Style::default()) {
                    let rs = ResetStyle {  };
                    let mut rsb = rs.to_vec();
                    out.append(&mut rsb);
                    last_style = Style::default();
                }
                let ghost x0 = x as int;
                let mut n: i32 = 1;
                while x + n < w && cell_is_blank(new, x + n, y)
                    invariant
                        0 <= y < h,
                        x as int == x0,
                        1 <= n,
                        x0 + n <= w,
                        forall|j: int| x0 <= j < x0 + n ==> is_blank(#[trigger] row[j]),
                    decreases w - x - n,
                {
                    proof {
                        assert(row[x as int + n] == new.cell_view(x as int + n, y as int));
                    }
                    n = n + 1;
                }
                proof {
                    if x0 + n < w {
                        assert(row[x0 + n] == new.cell_view(x0 + n, y as int));
                    }
                    lemma_run_len_prefix(row, x0, n as int);
                }
                let ec = EraseCharacter::new(n as u64);
                let mut ecb = ec.to_vec();
                out.append(&mut ecb);
                let cf = CursorForward::new(n as u64);
                let mut cfb = cf.to_vec();
                out.append(&mut cfb);
                x = x + n;
                proof {
                    assert(out@ + row_emit(row, x as int, last_style).0 =~= out0 + row_whole.0);
                }
            } else {
                let cell = new.get_cell(Vector2 { x, y });
                if !(cell.style == last_style) {
                    let rs = ResetStyle {  };
                    let mut rsb = rs.to_vec();
                    out.append(&mut rsb);
                    let mut stb = cell.style.to_vec();
                    out.append(&mut stb);
                    last_style = cell.style;
                }
                let mut cb = cell.value.to_vec();
                out.append(&mut cb);
                x = x + 1;
                proof {
                    assert(out@ + row_emit(row, x as int, last_style).0 =~= out0 + row_whole.0);
                }
            }
        }
        y = y + 1;
        proof {
            assert(row_emit(row, w as int, last_style).0 =~= Seq::<u8>::empty());
            assert(out@ + rows_emit(*new, y as int, last_style).0 =~= whole.0);
        }
    }
    let rs = ResetStyle {  };
    let mut rsb = rs.to_vec();
    out.append(&mut rsb);
    proof {
        assert(rows_emit(*new, h as int, last_style).0 =~= Seq::<u8>::empty());
        assert(out@ =~= diff_bytes(*last, *new));
    }
    out
}

/// A run of blanks scanned cell by cell is the run the spec counts.
pub proof fn lemma_run_len_prefix(row: Seq<CellView>, i: int, n: int)
    requires
        0 <= i,
        i + n <= row.len(),
        n >= 0,
        forall|j: int| i <= j < i + n ==> is_blank(#[trigger] row[j]),
        i + n == row.len() || !is_blank(row[i + n]),
    ensures
        run_len(row, i) == n,
    decreases n,
{
    if n > 0 {
        lemma_run_len_prefix(row, i + 1, n - 1);
    }
}

/// What the compositor knows about one pane: its id in the layout
/// tree, the title its application set, the emulated screen contents,
/// and the cursor state.
pub struct PaneSnapshot {
    pub span_id: usize,
    pub title: String,
    pub content: Canvas,
    pub cursor: Vector2,
    pub cursor_visible: bool,
}

/// The first snapshot carrying the given pane id.
pub open spec fn find_pane(panes: Seq<PaneSnapshot>, id: int) -> Option<int>
    decreases panes.len(),
{
    if panes.len() == 0 {
        None
    } else if panes[0].span_id == id {
        Some(0int)
    } else {
        match find_pane(panes.drop_first(), id) {
            Some(i) => Some(i + 1),
            None => None,
        }
    }
}

/// The snapshot the compositor uses for the given pane id, if any.
pub open spec fn snapshot_for(panes: Seq<PaneSnapshot>, id: int) -> Option<PaneSnapshot> {
    match find_pane(panes, id) {
        Some(i) => Some(panes[i]),
        None => None,
    }
}

/// A borrowed snapshot, as a value for the specifications.
pub open spec fn snapshot_val(p: Option<&PaneSnapshot>) -> Option<PaneSnapshot> {
    match p {
        Some(x) => Some(*x),
        None => None,
    }
}

/// The border color: a highlight for the active pane, grey otherwise.
pub open spec fn border_style(active: bool) -> Style {
    Style {
        foreground_color: crate::color::Color {
            color: crate::color::ColorEnum::OneByte(
                if active {
                    14
                } else {
                    8
                },
            ),
        },
        background_color: crate::color::Color { color: crate::color::ColorEnum::Default },
        is_bold: false,
        is_italic: false,
    }
}

/// The title bar style: black on the highlight color.
pub open spec fn title_style() -> Style {
    Style {
        foreground_color: crate::color::Color { color: crate::color::ColorEnum::OneByte(0) },
        background_color: crate::color::Color { color: crate::color::ColorEnum::OneByte(14) },
        is_bold: false,
        is_italic: false,
    }
}

/// The text run drawn along a pane's top border: its title in
/// brackets.
pub open spec fn title_text(p: PaneSnapshot) -> Seq<char> {
    seq!['['] + p.title@ + seq![']']
}

/// What one cell of a pane's rectangle shows after the pane is
/// painted, in local coordinates `(px, py)` of a `w` by `h` rectangle:
/// the bracketed title along the top border, the box-drawing border
/// with its corners, the pane's own screen contents inset by one cell,
/// and the previous contents wherever the screen does not reach.
pub open spec fn pane_cell_spec(
    w: int,
    h: int,
    active: bool,
    pane: Option<PaneSnapshot>,
    px: int,
    py: int,
    old: CellView,
) -> CellView {
    if pane is Some && py == 0 && 1 <= px < w - 1 && px - 1 < title_text(pane->0).len() {
        CellView { text: seq![title_text(pane->0)[px - 1]], style: title_style() }
    } else if px == w - 1 && py == h - 1 {
        CellView { text: seq!['\u{2518}'], style: border_style(active) }
    } else if px == 0 && py == h - 1 {
        CellView { text: seq!['\u{2514}'], style: border_style(active) }
    } else if px == w - 1 && py == 0 {
        CellView { text: seq!['\u{2510}'], style: border_style(active) }
    } else if px == 0 && py == 0 {
        CellView { text: seq!['\u{250C}'], style: border_style(active) }
    } else if py == 0 || py == h - 1 {
        CellView { text: seq!['\u{2500}'], style: border_style(active) }
    } else if px == 0 || px == w - 1 {
        CellView { text: seq!['\u{2502}'], style: border_style(active) }
    } else if pane is Some && px - 1 < pane->0.content.spec_size().x && py - 1
        < pane->0.content.spec_size().y {
        pane->0.content.cell_view(px - 1, py - 1)
    } else {
        old
    }
}

/// The first snapshot with the given id, borrowed.
fn find_pane_ref<'a>(panes: &'a Vec<PaneSnapshot>, id: usize) -> (r: Option<&'a PaneSnapshot>)
    ensures
        snapshot_val(r) == snapshot_for(panes@, id as int),
{
    let mut i: usize = 0;
    proof {
        assert(panes@.skip(0) =~= panes@);
    }
    while i < panes.len()
        invariant
            0 <= i <= panes@.len(),
            find_pane(panes@, id as int) == match find_pane(panes@.skip(i as int), id as int) {
                Some(j) => Some(j + i),
                None => None::<int>,
            },
        decreases panes@.len() - i,
    {
        proof {
            assert(panes@.skip(i as int)[0] == panes@[i as int]);
            assert(panes@.skip(i as int).drop_first() =~= panes@.skip(i as int + 1));
        }
        if panes[i].span_id == id {
            return Some(&panes[i]);
        }
        i = i + 1;
    }
    proof {
        assert(panes@.skip(panes@.len() as int).len() == 0);
    }
    None
}

/// Paints one pane into its rectangle: border, title run, and screen
/// contents, cell by cell, exactly as `pane_cell_spec` states; cells
/// outside the rectangle stay as they were.
#[verifier::loop_isolation(false)]
#[verifier::rlimit(100)]
pub fn paint_pane(canvas: &mut Canvas, rect: Rect, active: bool, pane: Option<&PaneSnapshot>)
    requires
        old(canvas).wf(),
        view_rect_wf(rect),
        pane matches Some(p) ==> p.content.wf(),
    ensures
        final(canvas).wf(),
        final(canvas).spec_size() == old(canvas).spec_size(),
        forall|qx: int, qy: int|
            #[trigger] final(canvas).cell_view(qx, qy) == if crate::layout::rect_has_point(
                rect,
                qx,
                qy,
            ) && old(canvas).in_bounds(qx, qy) {
                pane_cell_spec(
                    rect.size.x as int,
                    rect.size.y as int,
                    active,
                    snapshot_val(pane),
                    qx - rect.position.x,
                    qy - rect.position.y,
                    old(canvas).cell_view(qx, qy),
                )
            } else {
                old(canvas).cell_view(qx, qy)
            },
{
    let w = rect.size.x;
    let h = rect.size.y;
    let ghost pv = snapshot_val(pane);
    let tlen: usize = match pane {
        Some(p) => p.title.as_str().unicode_len(),
        None => 0,
    };
    let mut py: i32 = 0;
    while py < h
        invariant
            0 <= py <= h,
            canvas.wf(),
            canvas.spec_size() == old(canvas).spec_size(),
            pane matches Some(p) ==> tlen == p.title@.len(),
            forall|qx: int, qy: int|
                #[trigger] canvas.cell_view(qx, qy) == if crate::layout::rect_has_point(
                    rect,
                    qx,
                    qy,
                ) && old(canvas).in_bounds(qx, qy) && qy - rect.position.y < py {
                    pane_cell_spec(
                        w as int,
                        h as int,
                        active,
                        pv,
                        qx - rect.position.x,
                        qy - rect.position.y,
                        old(canvas).cell_view(qx, qy),
                    )
                } else {
                    old(canvas).cell_view(qx, qy)
                },
        decreases h - py,
    {
        let mut px: i32 = 0;
        while px < w
            invariant
                0 <= px <= w,
                0 <= py < h,
                canvas.wf(),
                canvas.spec_size() == old(canvas).spec_size(),
                pane matches Some(p) ==> tlen == p.title@.len(),
                forall|qx: int, qy: int|
                    #[trigger] canvas.cell_view(qx, qy) == if crate::layout::rect_has_point(
                        rect,
                        qx,
                        qy,
                    ) && old(canvas).in_bounds(qx, qy) && (qy - rect.position.y < py || (qy
                        - rect.position.y == py && qx - rect.position.x < px)) {
                        pane_cell_spec(
                            w as int,
                            h as int,
                            active,
                            pv,
                            qx - rect.position.x,
                            qy - rect.position.y,
                            old(canvas).cell_view(qx, qy),
                        )
                    } else {
                        old(canvas).cell_view(qx, qy)
                    },
            decreases w - px,
        {
            let ax = rect.position.x + px;
            let ay = rect.position.y + py;
            let is_title = match pane {
                Some(_) => if py == 0 && 1 <= px && px < w - 1 {
                    let t2: usize = (px - 1) as usize;
                    t2 < 2 || t2 - 2 < tlen
                } else {
                    false
                },
                None => false,
            };
            let ghost pre = *canvas;
            if is_title {
                let p = match pane {
                    Some(p) => p,
                    None => unreached(),
                };
                let t: usize = (px - 1) as usize;
                let c: char = if t == 0 {
                    '['
                } else if t <= tlen {
                    p.title.as_str().get_char(t - 1)
                } else {
                    ']'
                };
                proof {
                    assert(title_text(*p)[t as int] == c);
                }
                let cell = Cell::new_styled(
                    CellValue::from_char(c),
                    Style {
                        foreground_color: crate::color::Color {
                            color: crate::color::ColorEnum::OneByte(0),
                        },
                        background_color: crate::color::Color {
                            color: crate::color::ColorEnum::OneByte(14),
                        },
                        is_bold: false,
                        is_italic: false,
                    },
                );
                canvas.set_cell(Vector2 { x: ax, y: ay }, cell);
            } else {
                let bchar: Option<char> = if px == w - 1 && py == h - 1 {
                    Some('\u{2518}')
                } else if px == 0 && py == h - 1 {
                    Some('\u{2514}')
                } else if px == w - 1 && py == 0 {
                    Some('\u{2510}')
                } else if px == 0 && py == 0 {
                    Some('\u{250C}')
                } else if py == 0 || py == h - 1 {
                    Some('\u{2500}')
                } else if px == 0 || px == w - 1 {
                    Some('\u{2502}')
                } else {
                    None
                };
                match bchar {
                    Some(g) => {
                        let cell = Cell::new_styled(
                            CellValue::from_char(g),
                            Style {
                                foreground_color: crate::color::Color {
                                    color: crate::color::ColorEnum::OneByte(
                                        if active {
                                            14
                                        } else {
                                            8
                                        },
                                    ),
                                },
                                background_color: crate::color::Color {
                                    color: crate::color::ColorEnum::Default,
                                },
                                is_bold: false,
                                is_italic: false,
                            },
                        );
                        canvas.set_cell(Vector2 { x: ax, y: ay }, cell);
                    },
                    None => {
                        match pane {
                            Some(p) => {
                                let cs = p.content.size();
                                if px - 1 < cs.x && py - 1 < cs.y {
                                    let cell = p.content.get_cell(
                                        Vector2 { x: px - 1, y: py - 1 },
                                    );
                                    canvas.set_cell(Vector2 { x: ax, y: ay }, cell);
                                }
                            },
                            None => {},
                        }
                    },
                }
            }
            proof {
                assert forall|qx: int, qy: int|
                    #[trigger] canvas.cell_view(qx, qy) == if crate::layout::rect_has_point(
                        rect,
                        qx,
                        qy,
                    ) && old(canvas).in_bounds(qx, qy) && (qy - rect.position.y < py as int || (qy
                        - rect.position.y == py as int && qx - rect.position.x < px + 1)) {
                        pane_cell_spec(
                            w as int,
                            h as int,
                            active,
                            pv,
                            qx - rect.position.x,
                            qy - rect.position.y,
                            old(canvas).cell_view(qx, qy),
                        )
                    } else {
                        old(canvas).cell_view(qx, qy)
                    } by {
                    if qx == ax as int && qy == ay as int {
                    } else {
                        assert(canvas.cell_view(qx, qy) == pre.cell_view(qx, qy));
                    }
                }
            }
            px = px + 1;
        }
        py = py + 1;
    }
}

/// The rectangles of two different children of a span never share a
/// point: children occupy consecutive, disjoint slabs along the axis.
pub proof fn lemma_sibling_rects_disjoint(
    s: crate::span::Span,
    rect: Rect,
    j: int,
    k: int,
    qx: int,
    qy: int,
)
    requires
        1 <= s.children@.len(),
        forall|i: int| 0 <= i < s.children@.len() ==> 1 <= (#[trigger] s.children@[i]).size,
        view_rect_wf(rect),
        0 <= j < s.children@.len(),
        0 <= k < s.children@.len(),
        j != k,
        crate::layout::rect_has_point(crate::layout::span_child_rect(s, rect, j), qx, qy),
    ensures
        !crate::layout::rect_has_point(crate::layout::span_child_rect(s, rect, k), qx, qy),
{
    let shares = crate::layout::span_child_shares(s, rect);
    crate::layout::lemma_span_child_shares(s, rect);
    crate::layout::lemma_span_child_rect_wf(s, rect, j);
    crate::layout::lemma_span_child_rect_wf(s, rect, k);
    let lo = if j < k {
        j
    } else {
        k
    };
    let hi = if j < k {
        k
    } else {
        j
    };
    crate::layout::lemma_sum_take_succ(shares, lo);
    crate::layout::lemma_offset_monotone(shares, lo + 1, hi);
}

/// Composites a subtree into its rectangle: every leaf pane paints its
/// border, title and contents into its own rectangle, and nothing
/// outside the subtree's rectangle changes.
#[verifier::loop_isolation(false)]
#[verifier::rlimit(100)]
fn compose_rec(
    node: &Node,
    rect: Rect,
    active_id: usize,
    panes: &Vec<PaneSnapshot>,
    canvas: &mut Canvas,
)
    requires
        node_wf(*node),
        view_rect_wf(rect),
        old(canvas).wf(),
        forall|i: int|
            0 <= i < panes@.len() ==> (#[trigger] panes@[i]).content.wf(),
    ensures
        final(canvas).wf(),
        final(canvas).spec_size() == old(canvas).spec_size(),
        forall|qx: int, qy: int|
            !crate::layout::rect_has_point(rect, qx, qy) ==> #[trigger] final(canvas).cell_view(
                qx,
                qy,
            ) == old(canvas).cell_view(qx, qy),
        forall|id: int, qx: int, qy: int|
            #![trigger crate::layout::leaf_ids(*node).contains(id), final(canvas).cell_view(qx, qy)]
            crate::layout::leaf_ids(*node).contains(id) && (dims_spec(*node, id, rect) matches Some(
                rr,
            ) && crate::layout::rect_has_point(rr, qx, qy) && old(canvas).in_bounds(qx, qy))
                ==> final(canvas).cell_view(qx, qy) == pane_cell_spec(
                dims_spec(*node, id, rect)->Some_0.size.x as int,
                dims_spec(*node, id, rect)->Some_0.size.y as int,
                active_id == id,
                snapshot_for(panes@, id),
                qx - dims_spec(*node, id, rect)->Some_0.position.x,
                qy - dims_spec(*node, id, rect)->Some_0.position.y,
                old(canvas).cell_view(qx, qy),
            ),
    decreases *node,
{
    match &node.data {
        NodeData::Void => {
            let pane = find_pane_ref(panes, node.id());
            proof {
                assert(crate::layout::leaf_ids(*node) =~= set![node.id as int]);
                lemma_find_pane_in_range(panes@, node.id as int);
            }
            paint_pane(canvas, rect, active_id == node.id(), pane);
            proof {
                assert forall|id: int, qx: int, qy: int|
                    #![trigger crate::layout::leaf_ids(*node).contains(id), canvas.cell_view(qx, qy)]
                    crate::layout::leaf_ids(*node).contains(id) && (dims_spec(*node, id, rect)
                        matches Some(rr) && crate::layout::rect_has_point(rr, qx, qy) && old(
                        canvas,
                    ).in_bounds(qx, qy)) implies canvas.cell_view(qx, qy) == pane_cell_spec(
                    dims_spec(*node, id, rect)->Some_0.size.x as int,
                    dims_spec(*node, id, rect)->Some_0.size.y as int,
                    active_id == id,
                    snapshot_for(panes@, id),
                    qx - dims_spec(*node, id, rect)->Some_0.position.x,
                    qy - dims_spec(*node, id, rect)->Some_0.position.y,
                    old(canvas).cell_view(qx, qy),
                ) by {
                    assert(id == node.id as int);
                    assert(dims_spec(*node, id, rect) == Some(rect));
                }
            }
        },
        NodeData::Span(span) => {
            let ghost s0 = *span;
            let ghost cs = span.children@;
            let extent: i32 = match span.direction {
                crate::span::SpanDirection::Horizontal => rect.size.x,
                crate::span::SpanDirection::Vertical => rect.size.y,
            };
            let n = span.children.len();
            let mut weights: Vec<u64> = Vec::new();
            let mut i: usize = 0;
            while i < n
                invariant
                    0 <= i <= n,
                    weights@ == crate::layout::weights_of(cs).take(i as int),
                decreases n - i,
            {
                weights.push(span.children[i].size);
                proof {
                    assert(weights@ =~= crate::layout::weights_of(cs).take(i as int + 1));
                }
                i = i + 1;
            }
            proof {
                assert(crate::layout::weights_of(cs).take(n as int) =~= crate::layout::weights_of(
                    cs,
                ));
                assert forall|j: int| 0 <= j < n implies 1 <= #[trigger] weights@[j]
                    <= crate::span::MAX_WEIGHT by {
                    assert(weights@[j] == cs[j].size);
                }
            }
            let sizes = crate::layout::compute_child_sizes(extent, &weights);
            let ghost shares = crate::layout::span_child_shares(s0, rect);
            proof {
                assert(shares == crate::layout::int_view(sizes@));
                crate::layout::lemma_span_child_shares(s0, rect);
            }
            let mut offset: i32 = 0;
            let mut k: usize = 0;
            while k < n
                invariant
                    0 <= k <= n,
                    offset == crate::layout::child_offset(shares, k as int),
                    0 <= offset <= extent,
                    canvas.wf(),
                    canvas.spec_size() == old(canvas).spec_size(),
                    forall|qx: int, qy: int|
                        (forall|j: int|
                            0 <= j < k ==> !crate::layout::rect_has_point(
                                crate::layout::span_child_rect(s0, rect, j),
                                qx,
                                qy,
                            )) ==> #[trigger] canvas.cell_view(qx, qy) == old(canvas).cell_view(
                            qx,
                            qy,
                        ),
                    forall|id: int, qx: int, qy: int|
                        #![trigger crate::layout::children_leaf_ids(cs.take(k as int)).contains(id), canvas.cell_view(qx, qy)]
                        crate::layout::children_leaf_ids(cs.take(k as int)).contains(id) && (
                        dims_spec(*node, id, rect) matches Some(rr)
                            && crate::layout::rect_has_point(rr, qx, qy) && old(canvas).in_bounds(
                            qx,
                            qy,
                        )) ==> canvas.cell_view(qx, qy) == pane_cell_spec(
                            dims_spec(*node, id, rect)->Some_0.size.x as int,
                            dims_spec(*node, id, rect)->Some_0.size.y as int,
                            active_id == id,
                            snapshot_for(panes@, id),
                            qx - dims_spec(*node, id, rect)->Some_0.position.x,
                            qy - dims_spec(*node, id, rect)->Some_0.position.y,
                            old(canvas).cell_view(qx, qy),
                        ),
                decreases n - k,
            {
                proof {
                    crate::layout::lemma_span_child_rect_wf(s0, rect, k as int);
                    assert(decreases_to!(cs => cs[k as int]));
                }
                let crect = match span.direction {
                    crate::span::SpanDirection::Horizontal => Rect {
                        position: Vector2 {
                            x: rect.position.x + offset,
                            y: rect.position.y,
                        },
                        size: Vector2 { x: sizes[k], y: rect.size.y },
                    },
                    crate::span::SpanDirection::Vertical => Rect {
                        position: Vector2 {
                            x: rect.position.x,
                            y: rect.position.y + offset,
                        },
                        size: Vector2 { x: rect.size.x, y: sizes[k] },
                    },
                };
                proof {
                    assert(crect == crate::layout::span_child_rect(s0, rect, k as int));
                }
                let ghost pre = *canvas;
                compose_rec(&span.children[k].node, crect, active_id, panes, canvas);
                proof {
                    lemma_compose_step(
                        *node,
                        s0,
                        rect,
                        k as int,
                        active_id as int,
                        panes@,
                        *old(canvas),
                        pre,
                        *canvas,
                    );
                }
                proof {
                    crate::layout::lemma_sum_take_succ(shares, k as int);
                    crate::layout::lemma_child_offset_bounds(shares, k as int + 1);
                }
                offset = offset + sizes[k];
                k = k + 1;
            }
            proof {
                assert(cs.take(n as int) =~= cs);
                assert forall|qx: int, qy: int|
                    !crate::layout::rect_has_point(rect, qx, qy) implies #[trigger] canvas
                    .cell_view(qx, qy) == old(canvas).cell_view(qx, qy) by {
                    assert forall|j: int| 0 <= j < n implies !crate::layout::rect_has_point(
                        crate::layout::span_child_rect(s0, rect, j),
                        qx,
                        qy,
                    ) by {
                        crate::layout::lemma_span_child_rect_wf(s0, rect, j);
                    }
                }
                assert forall|id: int, qx: int, qy: int|
                    #![trigger crate::layout::leaf_ids(*node).contains(id), canvas.cell_view(qx, qy)]
                    crate::layout::leaf_ids(*node).contains(id) && (dims_spec(*node, id, rect)
                        matches Some(rr) && crate::layout::rect_has_point(rr, qx, qy) && old(
                        canvas,
                    ).in_bounds(qx, qy)) implies canvas.cell_view(qx, qy) == pane_cell_spec(
                    dims_spec(*node, id, rect)->Some_0.size.x as int,
                    dims_spec(*node, id, rect)->Some_0.size.y as int,
                    active_id == id,
                    snapshot_for(panes@, id),
                    qx - dims_spec(*node, id, rect)->Some_0.position.x,
                    qy - dims_spec(*node, id, rect)->Some_0.position.y,
                    old(canvas).cell_view(qx, qy),
                ) by {
                    assert(crate::layout::children_leaf_ids(cs.take(n as int)).contains(id));
                }
            }
        },
    }
}

/// The index `find_pane` yields is in range.
pub proof fn lemma_find_pane_in_range(panes: Seq<PaneSnapshot>, id: int)
    ensures
        find_pane(panes, id) matches Some(i) ==> 0 <= i < panes.len() && panes[i].span_id == id,
    decreases panes.len(),
{
    if panes.len() > 0 && panes[0].span_id != id {
        lemma_find_pane_in_range(panes.drop_first(), id);
        if find_pane(panes.drop_first(), id) is Some {
            let i = find_pane(panes.drop_first(), id)->Some_0;
            assert(panes.drop_first()[i] == panes[i + 1]);
        }
    }
}

/// One step of the compositor's walk: what painting child `k` adds to
/// and preserves of the cells painted so far.
#[verifier::rlimit(100)]
proof fn lemma_compose_step(
    n0: Node,
    s0: crate::span::Span,
    rect: Rect,
    k: int,
    active_id: int,
    panes: Seq<PaneSnapshot>,
    canvas0: Canvas,
    pre: Canvas,
    now: Canvas,
)
    requires
        node_wf(n0),
        n0.data == crate::span::NodeData::Span(s0),
        view_rect_wf(rect),
        0 <= k < s0.children@.len(),
        canvas0.wf(),
        pre.wf(),
        now.wf(),
        pre.spec_size() == canvas0.spec_size(),
        now.spec_size() == canvas0.spec_size(),
        forall|qx: int, qy: int|
            (forall|j: int|
                0 <= j < k ==> !crate::layout::rect_has_point(
                    crate::layout::span_child_rect(s0, rect, j),
                    qx,
                    qy,
                )) ==> #[trigger] pre.cell_view(qx, qy) == canvas0.cell_view(qx, qy),
        forall|id: int, qx: int, qy: int|
            #![trigger crate::layout::children_leaf_ids(s0.children@.take(k)).contains(id), pre.cell_view(qx, qy)]
            crate::layout::children_leaf_ids(s0.children@.take(k)).contains(id) && (dims_spec(
                n0,
                id,
                rect,
            ) matches Some(rr) && crate::layout::rect_has_point(rr, qx, qy) && canvas0.in_bounds(
                qx,
                qy,
            )) ==> pre.cell_view(qx, qy) == pane_cell_spec(
                dims_spec(n0, id, rect)->Some_0.size.x as int,
                dims_spec(n0, id, rect)->Some_0.size.y as int,
                active_id == id,
                snapshot_for(panes, id),
                qx - dims_spec(n0, id, rect)->Some_0.position.x,
                qy - dims_spec(n0, id, rect)->Some_0.position.y,
                canvas0.cell_view(qx, qy),
            ),
        forall|qx: int, qy: int|
            !crate::layout::rect_has_point(
                crate::layout::span_child_rect(s0, rect, k),
                qx,
                qy,
            ) ==> #[trigger] now.cell_view(qx, qy) == pre.cell_view(qx, qy),
        forall|id: int, qx: int, qy: int|
            #![trigger crate::layout::leaf_ids(s0.children@[k].node).contains(id), now.cell_view(qx, qy)]
            crate::layout::leaf_ids(s0.children@[k].node).contains(id) && (dims_spec(
                s0.children@[k].node,
                id,
                crate::layout::span_child_rect(s0, rect, k),
            ) matches Some(rr) && crate::layout::rect_has_point(rr, qx, qy) && pre.in_bounds(
                qx,
                qy,
            )) ==> now.cell_view(qx, qy) == pane_cell_spec(
                dims_spec(
                    s0.children@[k].node,
                    id,
                    crate::layout::span_child_rect(s0, rect, k),
                )->Some_0.size.x as int,
                dims_spec(
                    s0.children@[k].node,
                    id,
                    crate::layout::span_child_rect(s0, rect, k),
                )->Some_0.size.y as int,
                active_id == id,
                snapshot_for(panes, id),
                qx - dims_spec(
                    s0.children@[k].node,
                    id,
                    crate::layout::span_child_rect(s0, rect, k),
                )->Some_0.position.x,
                qy - dims_spec(
                    s0.children@[k].node,
                    id,
                    crate::layout::span_child_rect(s0, rect, k),
                )->Some_0.position.y,
                pre.cell_view(qx, qy),
            ),
    ensures
        forall|qx: int, qy: int|
            (forall|j: int|
                0 <= j < k + 1 ==> !crate::layout::rect_has_point(
                    crate::layout::span_child_rect(s0, rect, j),
                    qx,
                    qy,
                )) ==> #[trigger] now.cell_view(qx, qy) == canvas0.cell_view(qx, qy),
        forall|id: int, qx: int, qy: int|
            #![trigger crate::layout::children_leaf_ids(s0.children@.take(k + 1)).contains(id), now.cell_view(qx, qy)]
            crate::layout::children_leaf_ids(s0.children@.take(k + 1)).contains(id) && (dims_spec(
                n0,
                id,
                rect,
            ) matches Some(rr) && crate::layout::rect_has_point(rr, qx, qy) && canvas0.in_bounds(
                qx,
                qy,
            )) ==> now.cell_view(qx, qy) == pane_cell_spec(
                dims_spec(n0, id, rect)->Some_0.size.x as int,
                dims_spec(n0, id, rect)->Some_0.size.y as int,
                active_id == id,
                snapshot_for(panes, id),
                qx - dims_spec(n0, id, rect)->Some_0.position.x,
                qy - dims_spec(n0, id, rect)->Some_0.position.y,
                canvas0.cell_view(qx, qy),
            ),
{
    let cs = s0.children@;
    let crk = crate::layout::span_child_rect(s0, rect, k);
    crate::layout::lemma_span_child_rect_wf(s0, rect, k);
    assert(cs.take(k + 1).drop_last() =~= cs.take(k));
    assert(cs.take(k + 1).last() == cs[k]);
    assert forall|id: int, qx: int, qy: int|
        #![trigger crate::layout::children_leaf_ids(cs.take(k + 1)).contains(id), now.cell_view(qx, qy)]
        crate::layout::children_leaf_ids(cs.take(k + 1)).contains(id) && (dims_spec(n0, id, rect)
            matches Some(rr) && crate::layout::rect_has_point(rr, qx, qy) && canvas0.in_bounds(
            qx,
            qy,
        )) implies now.cell_view(qx, qy) == pane_cell_spec(
        dims_spec(n0, id, rect)->Some_0.size.x as int,
        dims_spec(n0, id, rect)->Some_0.size.y as int,
        active_id == id,
        snapshot_for(panes, id),
        qx - dims_spec(n0, id, rect)->Some_0.position.x,
        qy - dims_spec(n0, id, rect)->Some_0.position.y,
        canvas0.cell_view(qx, qy),
    ) by {
        let rr = dims_spec(n0, id, rect)->Some_0;
        if crate::layout::leaf_ids(cs[k].node).contains(id) {
            crate::layout::lemma_leaf_ids_subset(cs[k].node);
            crate::tree::lemma_node_ids_self(n0);
            assert forall|i: int|
                0 <= i < cs.len() && i != k implies !crate::span::node_ids(
                (#[trigger] cs[i]).node,
            ).contains(id) by {
                assert(crate::span::node_ids(cs[k].node).disjoint(
                    crate::span::node_ids(cs[i].node),
                ));
            }
            crate::layout::lemma_search_routes(s0, cs, id, rect, 0, k);
            assert(id != n0.id);
            assert(dims_spec(n0, id, rect) == dims_spec(cs[k].node, id, crk));
            crate::layout::lemma_dims_result_wf(cs[k].node, id, crk);
            assert(crate::layout::rect_within(rr, crk));
            assert(crate::layout::rect_has_point(crk, qx, qy));
            assert forall|j: int| 0 <= j < k implies !crate::layout::rect_has_point(
                crate::layout::span_child_rect(s0, rect, j),
                qx,
                qy,
            ) by {
                lemma_sibling_rects_disjoint(s0, rect, k, j, qx, qy);
            }
            assert(pre.cell_view(qx, qy) == canvas0.cell_view(qx, qy));
            assert(pre.in_bounds(qx, qy));
        } else {
            crate::layout::lemma_children_leaf_ids_index(cs.take(k + 1), id);
            crate::layout::lemma_children_leaf_ids_index(cs.take(k), id);
            let i = choose|i: int|
                0 <= i < cs.take(k + 1).len() && crate::layout::leaf_ids(
                    #[trigger] cs.take(k + 1)[i].node,
                ).contains(id);
            assert(cs.take(k + 1)[i] == cs[i]);
            assert(i < k);
            assert(cs.take(k)[i] == cs[i]);
            assert(crate::layout::children_leaf_ids(cs.take(k)).contains(id));
            assert(pre.cell_view(qx, qy) == pane_cell_spec(
                rr.size.x as int,
                rr.size.y as int,
                active_id == id,
                snapshot_for(panes, id),
                qx - rr.position.x,
                qy - rr.position.y,
                canvas0.cell_view(qx, qy),
            ));
            crate::layout::lemma_leaf_ids_subset(cs[i].node);
            crate::tree::lemma_node_ids_self(n0);
            assert forall|i2: int|
                0 <= i2 < cs.len() && i2 != i implies !crate::span::node_ids(
                (#[trigger] cs[i2]).node,
            ).contains(id) by {
                assert(crate::span::node_ids(cs[i].node).disjoint(
                    crate::span::node_ids(cs[i2].node),
                ));
            }
            crate::layout::lemma_search_routes(s0, cs, id, rect, 0, i);
            assert(dims_spec(n0, id, rect) == dims_spec(
                cs[i].node,
                id,
                crate::layout::span_child_rect(s0, rect, i),
            ));
            crate::layout::lemma_span_child_rect_wf(s0, rect, i);
            crate::layout::lemma_dims_result_wf(
                cs[i].node,
                id,
                crate::layout::span_child_rect(s0, rect, i),
            );
            assert(crate::layout::rect_has_point(
                crate::layout::span_child_rect(s0, rect, i),
                qx,
                qy,
            ));
            lemma_sibling_rects_disjoint(s0, rect, i, k, qx, qy);
            assert(now.cell_view(qx, qy) == pre.cell_view(qx, qy));
        }
    }
    assert forall|qx: int, qy: int|
        (forall|j: int|
            0 <= j < k + 1 ==> !crate::layout::rect_has_point(
                crate::layout::span_child_rect(s0, rect, j),
                qx,
                qy,
            )) implies #[trigger] now.cell_view(qx, qy) == canvas0.cell_view(qx, qy) by {
        assert(!crate::layout::rect_has_point(crk, qx, qy));
    }
}

/// Composites the whole frame: walks the layout tree over the canvas's
/// own rectangle and paints every leaf pane.
pub fn compose_frame(
    root: &Node,
    active_id: usize,
    panes: &Vec<PaneSnapshot>,
    canvas: &mut Canvas,
)
    requires
        node_wf(*root),
        old(canvas).wf(),
        forall|i: int| 0 <= i < panes@.len() ==> (#[trigger] panes@[i]).content.wf(),
    ensures
        final(canvas).wf(),
        final(canvas).spec_size() == old(canvas).spec_size(),
        forall|id: int, qx: int, qy: int|
            #![trigger crate::layout::leaf_ids(*root).contains(id), final(canvas).cell_view(qx, qy)]
            crate::layout::leaf_ids(*root).contains(id) && (dims_spec(
                *root,
                id,
                Rect {
                    position: Vector2 { x: 0, y: 0 },
                    size: old(canvas).spec_size(),
                },
            ) matches Some(rr) && crate::layout::rect_has_point(rr, qx, qy) && old(
                canvas,
            ).in_bounds(qx, qy)) ==> final(canvas).cell_view(qx, qy) == pane_cell_spec(
                dims_spec(
                    *root,
                    id,
                    Rect { position: Vector2 { x: 0, y: 0 }, size: old(canvas).spec_size() },
                )->Some_0.size.x as int,
                dims_spec(
                    *root,
                    id,
                    Rect { position: Vector2 { x: 0, y: 0 }, size: old(canvas).spec_size() },
                )->Some_0.size.y as int,
                active_id == id,
                snapshot_for(panes@, id),
                qx - dims_spec(
                    *root,
                    id,
                    Rect { position: Vector2 { x: 0, y: 0 }, size: old(canvas).spec_size() },
                )->Some_0.position.x,
                qy - dims_spec(
                    *root,
                    id,
                    Rect { position: Vector2 { x: 0, y: 0 }, size: old(canvas).spec_size() },
                )->Some_0.position.y,
                old(canvas).cell_view(qx, qy),
            ),
{
    let size = canvas.size();
    let rect = Rect { position: Vector2 { x: 0, y: 0 }, size };
    compose_rec(root, rect, active_id, panes, canvas);
}

/// The two frame canvases and the toggle that says which one was shown
/// last.  The renderer composites into the current canvas, diffs it
/// against the last one, and swaps them after a frame that changed
/// anything.
pub struct FrameBuffers {
    canvas_1: Canvas,
    canvas_2: Canvas,
    canvas_toggle: bool,
}

impl FrameBuffers {
    pub closed spec fn wf(self) -> bool {
        self.canvas_1.wf() && self.canvas_2.wf()
    }

    /// The frame shown on the terminal: the baseline for the next diff.
    pub closed spec fn spec_last(self) -> Canvas {
        if self.canvas_toggle {
            self.canvas_1
        } else {
            self.canvas_2
        }
    }

    /// The frame being composed.
    pub closed spec fn spec_current(self) -> Canvas {
        if self.canvas_toggle {
            self.canvas_2
        } else {
            self.canvas_1
        }
    }

    /// Both canvases of a well-formed pair are well formed.
    pub proof fn lemma_wf(self)
        requires
            self.wf(),
        ensures
            self.spec_last().wf(),
            self.spec_current().wf(),
    {
    }

    pub fn new() -> (r: Self)
        ensures
            r.wf(),
            r.spec_last().spec_size() == (Vector2 { x: 0, y: 0 }),
            r.spec_current().spec_size() == (Vector2 { x: 0, y: 0 }),
    {
        FrameBuffers {
            canvas_1: Canvas::new(Vector2 { x: 0, y: 0 }),
            canvas_2: Canvas::new(Vector2 { x: 0, y: 0 }),
            canvas_toggle: false,
        }
    }

    pub fn get_last_canvas(&self) -> (r: &Canvas)
        ensures
            *r == self.spec_last(),
    {
        if self.canvas_toggle {
            &self.canvas_1
        } else {
            &self.canvas_2
        }
    }

    pub fn get_current_canvas(&self) -> (r: &Canvas)
        ensures
            *r == self.spec_current(),
    {
        if self.canvas_toggle {
            &self.canvas_2
        } else {
            &self.canvas_1
        }
    }

    /// Exchanges the roles of the two canvases.
    pub fn swap_canvas(&mut self)
        ensures
            final(self).spec_last() == old(self).spec_current(),
            final(self).spec_current() == old(self).spec_last(),
            final(self).wf() == old(self).wf(),
    {
        self.canvas_toggle = !self.canvas_toggle;
    }
}

/// A borrowed tree, as a value for the specifications.
pub open spec fn node_val(r: Option<&Node>) -> Option<Node> {
    match r {
        Some(n) => Some(*n),
        None => None,
    }
}

/// The bytes that place and reveal the hardware cursor after a frame:
/// nothing unless there is a tree, the active pane has a snapshot, its
/// cursor is visible, and its rectangle exists; then a cursor move to
/// the pane's origin plus the emulator's cursor offset plus the
/// one-cell border inset, and a show-cursor toggle.
pub open spec fn cursor_tail_bytes(
    root: Option<Node>,
    size: Vector2,
    active: int,
    panes: Seq<PaneSnapshot>,
) -> Seq<u8> {
    match root {
        None => Seq::<u8>::empty(),
        Some(rt) => match snapshot_for(panes, active) {
            None => Seq::<u8>::empty(),
            Some(p) => if p.cursor_visible {
                match dims_spec(rt, active, Rect { position: Vector2 { x: 0, y: 0 }, size }) {
                    Some(rr) => move_cursor_bytes(
                        rr.position.y + p.cursor.y + 1,
                        rr.position.x + p.cursor.x + 1,
                    ) + cursor_visibility_bytes(true),
                    None => Seq::<u8>::empty(),
                }
            } else {
                Seq::<u8>::empty()
            },
        },
    }
}

/// What a cell of the current canvas shows right after it takes the
/// new frame size, before the compositor paints: its old content where
/// the old extent covered the position, a blank cell where the resize
/// exposed new area.
pub open spec fn resized_cell(c: Canvas, x: int, y: int) -> CellView {
    if c.in_bounds(x, y) {
        c.cell_view(x, y)
    } else {
        blank_cell()
    }
}

/// Everything `render_frame` promises, holding between its inputs, the
/// final buffers, the composed frame, and the bytes it returns.
pub open spec fn render_frame_post(
    r: Seq<u8>,
    old_b: FrameBuffers,
    new_b: FrameBuffers,
    composed: Canvas,
    root: Option<Node>,
    size: Vector2,
    active: int,
    panes: Seq<PaneSnapshot>,
) -> bool {
    &&& composed.wf()
    &&& composed.spec_size().x == if size.x >= 0 {
        size.x as int
    } else {
        0int
    }
    &&& composed.spec_size().y == if size.y >= 0 {
        size.y as int
    } else {
        0int
    }
    &&& r == reset_style_bytes() + cursor_visibility_bytes(false) + diff_bytes(
        old_b.spec_last(),
        composed,
    ) + cursor_tail_bytes(root, size, active, panes)
    &&& if old_b.spec_last().same_content(composed) {
        new_b.spec_current() == composed && new_b.spec_last() == old_b.spec_last()
    } else {
        new_b.spec_last() == composed && new_b.spec_current() == old_b.spec_last()
    }
    &&& (root is None ==> forall|x: int, y: int|
        composed.in_bounds(x, y) ==> #[trigger] composed.cell_view(x, y) == resized_cell(
            old_b.spec_current(),
            x,
            y,
        ))
    &&& (root matches Some(rt) ==> forall|id: int, qx: int, qy: int|
        #![trigger crate::layout::leaf_ids(rt).contains(id), composed.cell_view(qx, qy)]
        crate::layout::leaf_ids(rt).contains(id) && (dims_spec(
            rt,
            id,
            Rect { position: Vector2 { x: 0, y: 0 }, size: composed.spec_size() },
        ) matches Some(rr) && crate::layout::rect_has_point(rr, qx, qy) && composed.in_bounds(
            qx,
            qy,
        )) ==> composed.cell_view(qx, qy) == pane_cell_spec(
            dims_spec(
                rt,
                id,
                Rect { position: Vector2 { x: 0, y: 0 }, size: composed.spec_size() },
            )->Some_0.size.x as int,
            dims_spec(
                rt,
                id,
                Rect { position: Vector2 { x: 0, y: 0 }, size: composed.spec_size() },
            )->Some_0.size.y as int,
            active == id,
            snapshot_for(panes, id),
            qx - dims_spec(
                rt,
                id,
                Rect { position: Vector2 { x: 0, y: 0 }, size: composed.spec_size() },
            )->Some_0.position.x,
            qy - dims_spec(
                rt,
                id,
                Rect { position: Vector2 { x: 0, y: 0 }, size: composed.spec_size() },
            )->Some_0.position.y,
            resized_cell(old_b.spec_current(), qx, qy),
        ))
}

/// Renders one frame: resizes the current canvas, composites the tree
/// into it, emits the byte stream that updates the terminal (a diff
/// against the last frame, empty when nothing changed), places the
/// cursor, and swaps the buffers when the frame differed.
#[verifier::rlimit(100)]
pub fn render_frame(
    buffers: &mut FrameBuffers,
    root: Option<&Node>,
    active_id: usize,
    size: Vector2,
    panes: &Vec<PaneSnapshot>,
) -> (r: Vec<u8>)
    requires
        old(buffers).wf(),
        0 <= size.x <= MAX_CANVAS_DIM,
        0 <= size.y <= MAX_CANVAS_DIM,
        root matches Some(rt) ==> node_wf(*rt),
        forall|i: int| 0 <= i < panes@.len() ==> (#[trigger] panes@[i]).content.wf(),
        forall|i: int|
            0 <= i < panes@.len() ==> 0 <= (#[trigger] panes@[i]).cursor.x <= 65535 && 0 <= panes@[
                i
            ].cursor.y <= 65535,
    ensures
        final(buffers).wf(),
        exists|composed: Canvas|
            #[trigger] render_frame_post(
                r@,
                *old(buffers),
                *final(buffers),
                composed,
                node_val(root),
                size,
                active_id as int,
                panes@,
            ),
{
    let mut out = (ResetStyle {  }).to_vec();
    let mut hb = SetCursorVisibility::new(false).to_vec();
    out.append(&mut hb);
    let changed: bool;
    let ghost mut composed: Canvas;
    if buffers.canvas_toggle {
        buffers.canvas_2.set_size(size);
        match root {
            Some(rt) => compose_frame(rt, active_id, panes, &mut buffers.canvas_2),
            None => {},
        }
        proof {
            composed = buffers.canvas_2;
        }
        let mut diff = render_diff(&buffers.canvas_1, &buffers.canvas_2);
        changed = diff.len() > 0;
        proof {
            if !buffers.canvas_1.same_content(buffers.canvas_2) {
                assert(diff@.len() >= 4);
            }
        }
        out.append(&mut diff);
        if changed {
            buffers.canvas_toggle = false;
        }
    } else {
        buffers.canvas_1.set_size(size);
        match root {
            Some(rt) => compose_frame(rt, active_id, panes, &mut buffers.canvas_1),
            None => {},
        }
        proof {
            composed = buffers.canvas_1;
        }
        let mut diff = render_diff(&buffers.canvas_2, &buffers.canvas_1);
        changed = diff.len() > 0;
        proof {
            if !buffers.canvas_2.same_content(buffers.canvas_1) {
                assert(diff@.len() >= 4);
            }
        }
        out.append(&mut diff);
        if changed {
            buffers.canvas_toggle = true;
        }
    }
    match root {
        Some(rt) => {
            match find_pane_ref(panes, active_id) {
                Some(p) => {
                    proof {
                        lemma_find_pane_in_range(panes@, active_id as int);
                        let idx = find_pane(panes@, active_id as int)->Some_0;
                        assert(*p == panes@[idx]);
                    }
                    if p.cursor_visible {
                        let rect = Rect { position: Vector2 { x: 0, y: 0 }, size };
                        match get_span_dimensions(rt, active_id, rect) {
                            Some(rr) => {
                                let mv = MoveCursor::new(
                                    rr.position.y + p.cursor.y + 1,
                                    rr.position.x + p.cursor.x + 1,
                                );
                                let mut mb = mv.to_vec();
                                out.append(&mut mb);
                                let mut vb = SetCursorVisibility::new(true).to_vec();
                                out.append(&mut vb);
                            },
                            None => {},
                        }
                    }
                },
                None => {},
            }
        },
        None => {},
    }
    proof {
        assert(out@ =~= reset_style_bytes() + cursor_visibility_bytes(false) + diff_bytes(
            old(buffers).spec_last(),
            composed,
        ) + cursor_tail_bytes(node_val(root), size, active_id as int, panes@));
        assert(render_frame_post(
            out@,
            *old(buffers),
            *buffers,
            composed,
            node_val(root),
            size,
            active_id as int,
            panes@,
        ));
    }
    out
}

} // verus!
