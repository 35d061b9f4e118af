//! Rectangular sub-views of a canvas.
//!
//! A view restricts reads and writes to a rectangle of a parent surface:
//! coordinates are clipped against `[0, rect.size)` and then translated by
//! `rect.top_left()`.  Views nest, so a view is a chain of rectangles,
//! outermost first; every access walks the chain from the innermost
//! rectangle outward.  A view borrows nothing: each access names the
//! canvas it reads or writes.

use vstd::prelude::*;
use crate::canvas::{Canvas, MAX_CANVAS_DIM};
use crate::cell::{blank_cell, Cell, CellView};
use crate::rect::Rect;
use crate::vector::Vector2;

verus! {

/// A nested sub-view: the rectangle chain, outermost first.
#[derive(Debug)]
pub struct SurfaceView {
    pub rects: Vec<Rect>,
}

/// A rectangle a view may hold: within the canvas coordinate range, with
/// a non-negative origin and extent.
pub open spec fn view_rect_wf(r: Rect) -> bool {
    &&& 0 <= r.position.x
    &&& 0 <= r.position.y
    &&& 0 <= r.size.x
    &&& 0 <= r.size.y
    &&& r.position.x + r.size.x <= MAX_CANVAS_DIM
    &&& r.position.y + r.size.y <= MAX_CANVAS_DIM
}

/// Translates `(x, y)` through the rectangle chain, innermost last:
/// clipping against each rectangle's extent, then moving by its origin.
/// `None` means the position falls outside some level and the access is
/// dropped.
pub open spec fn project(rects: Seq<Rect>, x: int, y: int) -> Option<(int, int)>
    decreases rects.len(),
{
    if rects.len() == 0 {
        Some((x, y))
    } else {
        let r = rects.last();
        if 0 <= x < r.size.x && 0 <= y < r.size.y {
            project(rects.drop_last(), x + r.position.x, y + r.position.y)
        } else {
            None
        }
    }
}

impl SurfaceView {
    pub open spec fn wf(self) -> bool {
        &&& self.rects@.len() >= 1
        &&& forall|i: int| 0 <= i < self.rects@.len() ==> view_rect_wf(#[trigger] self.rects@[i])
    }

    pub open spec fn spec_rects(self) -> Seq<Rect> {
        self.rects@
    }

    /// The innermost rectangle: the one this view clips against.
    pub open spec fn spec_rect(self) -> Rect {
        self.rects@.last()
    }

    /// What a read of `(x, y)` through this view yields from `canvas`.
    pub open spec fn view_cell(self, canvas: Canvas, x: int, y: int) -> CellView {
        match project(self.rects@, x, y) {
            Some(p) => canvas.cell_view(p.0, p.1),
            None => blank_cell(),
        }
    }

    /// The extent of the view: its innermost rectangle's extent.
    pub fn size(&self) -> (r: Vector2)
        requires
            self.wf(),
        ensures
            r == self.spec_rect().size,
    {
        self.rects[self.rects.len() - 1].size()
    }

    /// Replaces the extent of the innermost rectangle; a negative extent
    /// is clamped to zero.  The origin of the view does not move.
    pub fn set_size(&mut self, size: Vector2)
        requires
            old(self).wf(),
            size.x <= MAX_CANVAS_DIM - old(self).spec_rect().position.x,
            size.y <= MAX_CANVAS_DIM - old(self).spec_rect().position.y,
        ensures
            final(self).wf(),
            final(self).spec_rects() == old(self).spec_rects().update(
                old(self).spec_rects().len() - 1,
                Rect {
                    position: old(self).spec_rect().position,
                    size: Vector2 {
                        x: if size.x >= 0 { size.x } else { 0 },
                        y: if size.y >= 0 { size.y } else { 0 },
                    },
                },
            ),
    {
        let i = self.rects.len() - 1;
        let mut r = self.rects[i];
        r.set_size(size);
        self.rects.set(i, r);
        proof {
            assert(final(self).spec_rects().last() == r);
            assert forall|j: int| 0 <= j < self.rects@.len() implies view_rect_wf(
                #[trigger] self.rects@[j],
            ) by {
                if j < self.rects@.len() - 1 {
                    assert(self.rects@[j] == old(self).spec_rects()[j]);
                }
            }
        }
    }

    /// Replaces the innermost rectangle outright.
    pub fn set_rect(&mut self, rect: Rect)
        requires
            old(self).wf(),
            view_rect_wf(rect),
        ensures
            final(self).wf(),
            final(self).spec_rects() == old(self).spec_rects().update(
                old(self).spec_rects().len() - 1,
                rect,
            ),
    {
        let i = self.rects.len() - 1;
        self.rects.set(i, rect);
        proof {
            assert forall|j: int| 0 <= j < self.rects@.len() implies view_rect_wf(
                #[trigger] self.rects@[j],
            ) by {
                if j < self.rects@.len() - 1 {
                    assert(self.rects@[j] == old(self).spec_rects()[j]);
                }
            }
        }
    }

    /// True when `(x, y)` survives the innermost clip, the only one this
    /// view adds over its parent.
    pub fn is_position_in_rect(&self, position: Vector2) -> (r: bool)
        requires
            self.wf(),
        ensures
            r == (0 <= position.x < self.spec_rect().size.x && 0 <= position.y
                < self.spec_rect().size.y),
    {
        let rect = self.rects[self.rects.len() - 1];
        position.x >= 0 && position.y >= 0 && position.x < rect.size.x && position.y < rect.size.y
    }

    /// A view of a rectangle of this view: the chain grows by one level.
    pub fn to_sub_view(&self, rect: Rect) -> (r: SurfaceView)
        requires
            self.wf(),
            view_rect_wf(rect),
        ensures
            r.wf(),
            r.spec_rects() == self.spec_rects().push(rect),
    {
        let mut rects = self.rects.clone();
        rects.push(rect);
        SurfaceView { rects }
    }

    /// Reads through the view: out-of-bounds positions, at any nesting
    /// level, yield the blank cell.
    pub fn get_cell(&self, canvas: &Canvas, position: Vector2) -> (r: Cell)
        requires
            self.wf(),
            canvas.wf(),
        ensures
            r@ == self.view_cell(*canvas, position.x as int, position.y as int),
    {
        let ghost full = self.rects@;
        let mut x = position.x;
        let mut y = position.y;
        let mut i = self.rects.len();
        proof {
            assert(self.rects@.take(self.rects@.len() as int) =~= self.rects@);
        }
        while i > 0
            invariant
                0 <= i <= self.rects@.len(),
                self.wf(),
                canvas.wf(),
                project(full, position.x as int, position.y as int) == project(
                    self.rects@.take(i as int),
                    x as int,
                    y as int,
                ),
                i < self.rects@.len() ==> (0 <= x && 0 <= y && x <= MAX_CANVAS_DIM && y
                    <= MAX_CANVAS_DIM),
                full == self.rects@,
            decreases i,
        {
            let rect = self.rects[i - 1];
            proof {
                assert(self.rects@.take(i as int).last() == rect);
                assert(self.rects@.take(i as int).drop_last() =~= self.rects@.take(i as int - 1));
            }
            if !(x >= 0 && y >= 0 && x < rect.size.x && y < rect.size.y) {
                proof {
                    assert(project(full, position.x as int, position.y as int) is None);
                }
                return Cell::default();
            }
            x = x + rect.position.x;
            y = y + rect.position.y;
            i = i - 1;
        }
        proof {
            assert(self.rects@.take(0) =~= Seq::<Rect>::empty());
            assert(project(full, position.x as int, position.y as int) == Some(
                (x as int, y as int),
            ));
        }
        canvas.get_cell(Vector2 { x, y })
    }

    /// Writes through the view: out-of-bounds positions, at any nesting
    /// level, change nothing.
    pub fn set_cell(&self, canvas: &mut Canvas, position: Vector2, cell: Cell)
        requires
            self.wf(),
            old(canvas).wf(),
        ensures
            final(canvas).wf(),
            final(canvas).spec_size() == old(canvas).spec_size(),
            forall|x: int, y: int|
                #[trigger] final(canvas).cell_view(x, y) == if Some((x, y)) == project(
                    self.spec_rects(),
                    position.x as int,
                    position.y as int,
                ) && old(canvas).in_bounds(x, y) {
                    cell@
                } else {
                    old(canvas).cell_view(x, y)
                },
    {
        let ghost full = self.rects@;
        let mut x = position.x;
        let mut y = position.y;
        let mut i = self.rects.len();
        proof {
            assert(self.rects@.take(self.rects@.len() as int) =~= self.rects@);
        }
        while i > 0
            invariant
                0 <= i <= self.rects@.len(),
                self.wf(),
                old(canvas).wf(),
                *canvas == *old(canvas),
                project(full, position.x as int, position.y as int) == project(
                    self.rects@.take(i as int),
                    x as int,
                    y as int,
                ),
                i < self.rects@.len() ==> (0 <= x && 0 <= y && x <= MAX_CANVAS_DIM && y
                    <= MAX_CANVAS_DIM),
                full == self.rects@,
            decreases i,
        {
            let rect = self.rects[i - 1];
            proof {
                assert(self.rects@.take(i as int).last() == rect);
                assert(self.rects@.take(i as int).drop_last() =~= self.rects@.take(i as int - 1));
            }
            if !(x >= 0 && y >= 0 && x < rect.size.x && y < rect.size.y) {
                proof {
                    assert(project(full, position.x as int, position.y as int) is None);
                }
                return ;
            }
            x = x + rect.position.x;
            y = y + rect.position.y;
            i = i - 1;
        }
        proof {
            assert(self.rects@.take(0) =~= Seq::<Rect>::empty());
            assert(project(full, position.x as int, position.y as int) == Some(
                (x as int, y as int),
            ));
        }
        canvas.set_cell(Vector2 { x, y }, cell);
    }
}

/// A position outside the view's own rectangle projects nowhere: reads
/// there yield the blank cell, and writes there are no-ops.
pub proof fn lemma_view_clips(v: SurfaceView, x: int, y: int)
    requires
        v.wf(),
        !(0 <= x < v.spec_rect().size.x && 0 <= y < v.spec_rect().size.y),
    ensures
        project(v.spec_rects(), x, y) is None,
{
}

impl Canvas {
    /// A view of the rectangle `rect` of this canvas.  If the rectangle's
    /// bottom-right corner lies beyond the current extent, the canvas
    /// first grows to cover it.
    pub fn to_sub_view(&mut self, rect: Rect) -> (r: SurfaceView)
        requires
            old(self).wf(),
            view_rect_wf(rect),
        ensures
            r.wf(),
            r.spec_rects() == seq![rect],
            final(self).wf(),
            final(self).spec_size().x == vstd::math::max(
                old(self).spec_size().x as int,
                rect.position.x + rect.size.x,
            ),
            final(self).spec_size().y == vstd::math::max(
                old(self).spec_size().y as int,
                rect.position.y + rect.size.y,
            ),
            forall|x: int, y: int| final(self).in_bounds(x, y) ==>
                #[trigger] final(self).cell_view(x, y) == if old(self).in_bounds(x, y) {
                    old(self).cell_view(x, y)
                } else {
                    blank_cell()
                },
    {
        let corner = rect.bottom_right();
        let current = self.size();
        self.set_size(current.max(corner));
        let mut rects: Vec<Rect> = Vec::new();
        rects.push(rect);
        let r = SurfaceView { rects };
        proof {
            assert(r.spec_rects() =~= seq![rect]);
        }
        r
    }

    /// A view of the whole canvas.
    pub fn to_view(&mut self) -> (r: SurfaceView)
        requires
            old(self).wf(),
        ensures
            r.wf(),
            r.spec_rects() == seq![
                Rect {
                    position: Vector2 { x: 0, y: 0 },
                    size: old(self).spec_size(),
                },
            ],
            *final(self) == *old(self),
    {
        let size = self.size();
        let mut rects: Vec<Rect> = Vec::new();
        rects.push(Rect::new(Vector2::null(), size));
        let r = SurfaceView { rects };
        proof {
            assert(r.spec_rects() =~= seq![
                Rect { position: Vector2 { x: 0, y: 0 }, size: old(self).spec_size() },
            ]);
        }
        r
    }
}

} // verus!
