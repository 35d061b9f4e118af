//! Drawable styled strings.

use vstd::prelude::*;
use vstd::string::StrSliceExecFns;
use crate::canvas::{Canvas, MAX_CANVAS_DIM};
use crate::cell::{Cell, CellValue, CellView};
use crate::rect::Rect;
use crate::style::Style;
use crate::vector::Vector2;
use crate::view::{project, SurfaceView};

verus! {

/// A string with a style, painted one character per cell along a row.
#[derive(Debug)]
pub struct DrawableStr<'a> {
    pub string: &'a str,
    pub style: Style,
}

/// Distinct columns project to distinct positions, when both survive the
/// clipping.
pub proof fn lemma_project_injective_x(rects: Seq<Rect>, x1: int, x2: int, y: int)
    requires
        x1 != x2,
        project(rects, x1, y) is Some,
        project(rects, x2, y) is Some,
    ensures
        project(rects, x1, y) != project(rects, x2, y),
    decreases rects,
{
    if rects.len() > 0 {
        let r = rects.last();
        lemma_project_injective_x(rects.drop_last(), x1 + r.position.x, x2 + r.position.x, y
            + r.position.y);
    }
}

impl<'a> DrawableStr<'a> {
    pub fn new(string: &'a str, style: Style) -> (r: Self)
        ensures
            r.string@ == string@,
            r.style == style,
    {
        DrawableStr { string, style }
    }

    /// The cells the string covers: one column per character, one row.
    pub fn size(&self) -> (r: Vector2)
        requires
            self.string@.len() <= MAX_CANVAS_DIM,
        ensures
            r.x == self.string@.len(),
            r.y == 1,
    {
        Vector2 { x: self.string.unicode_len() as i32, y: 1 }
    }

    /// Paints the string through `view` onto `canvas`: character `i` goes
    /// to position `(i, 0)` of the view.  Positions that the view clips
    /// off stay as they were.
    pub fn draw(&self, view: &SurfaceView, canvas: &mut Canvas)
        requires
            view.wf(),
            old(canvas).wf(),
            self.string@.len() <= MAX_CANVAS_DIM,
        ensures
            final(canvas).wf(),
            final(canvas).spec_size() == old(canvas).spec_size(),
            forall|i: int|
                #![trigger project(view.spec_rects(), i, 0)]
                0 <= i < self.string@.len() ==> match project(view.spec_rects(), i, 0) {
                    Some(p) => old(canvas).in_bounds(p.0, p.1) ==> final(canvas).cell_view(p.0, p.1)
                        == (CellView { text: seq![self.string@[i]], style: self.style }),
                    None => true,
                },
            forall|x: int, y: int|
                (forall|i: int|
                    0 <= i < self.string@.len() ==> project(view.spec_rects(), i, 0) != Some(
                        (x, y),
                    )) ==> #[trigger] final(canvas).cell_view(x, y) == old(canvas).cell_view(x, y),
    {
        let len = self.string.unicode_len();
        let mut i: usize = 0;
        while i < len
            invariant
                0 <= i <= len,
                len == self.string@.len(),
                len <= MAX_CANVAS_DIM,
                view.wf(),
                canvas.wf(),
                old(canvas).wf(),
                canvas.spec_size() == old(canvas).spec_size(),
                forall|k: int|
                    #![trigger project(view.spec_rects(), k, 0)]
                    0 <= k < i ==> match project(view.spec_rects(), k, 0) {
                        Some(p) => old(canvas).in_bounds(p.0, p.1) ==> canvas.cell_view(p.0, p.1)
                            == (CellView { text: seq![self.string@[k]], style: self.style }),
                        None => true,
                    },
                forall|x: int, y: int|
                    (forall|k: int|
                        0 <= k < i ==> project(view.spec_rects(), k, 0) != Some((x, y)))
                        ==> #[trigger] canvas.cell_view(x, y) == old(canvas).cell_view(x, y),
            decreases len - i,
        {
            let c = self.string.get_char(i);
            let cell = Cell::new_styled(CellValue::from_char(c), self.style);
            let ghost pre = *canvas;
            view.set_cell(canvas, Vector2 { x: i as i32, y: 0 }, cell);
            proof {
                assert forall|k: int|
                    #![trigger project(view.spec_rects(), k, 0)]
                    0 <= k < i + 1 implies match project(view.spec_rects(), k, 0) {
                    Some(p) => pre.in_bounds(p.0, p.1) ==> canvas.cell_view(p.0, p.1) == (CellView {
                        text: seq![self.string@[k]],
                        style: self.style,
                    }),
                    None => true,
                } by {
                    if k < i {
                        match project(view.spec_rects(), k, 0) {
                            Some(p) => {
                                if project(view.spec_rects(), i as int, 0) is Some {
                                    lemma_project_injective_x(
                                        view.spec_rects(),
                                        k,
                                        i as int,
                                        0,
                                    );
                                }
                            },
                            None => {},
                        }
                    }
                }
            }
            i = i + 1;
        }
    }
}

} // verus!
