//! The owned grid of cells that frames are composed into.

use vstd::prelude::*;
use crate::cell::{blank_cell, Cell, CellView};
use crate::vector::Vector2;

verus! {

/// The largest width or height a canvas can take; real terminals report
/// their size in 16-bit quantities, and this bound keeps every cell index
/// representable on any machine.
pub const MAX_CANVAS_DIM: i32 = 65535;

/// A rectangular grid of cells stored row-major.  The cell storage always
/// holds exactly `size.x * size.y` cells.
#[derive(Debug)]
pub struct Canvas {
    cells: Vec<Cell>,
    size: Vector2,
}

/// The views of a sequence of stored cells.
pub open spec fn cell_views(s: Seq<Cell>) -> Seq<CellView> {
    s.map_values(|c: Cell| c@)
}

/// Position `(x, y)` of a `w`-wide row-major grid lies at this offset.
pub open spec fn row_major(x: int, y: int, w: int) -> int {
    y * w + x
}

pub proof fn lemma_row_major_bounds(x: int, y: int, w: int, h: int)
    by (nonlinear_arith)
    requires
        0 <= x < w,
        0 <= y < h,
    ensures
        0 <= row_major(x, y, w) < w * h,
{
}

pub proof fn lemma_dim_product_bound(x: int, y: int)
    by (nonlinear_arith)
    requires
        0 <= x <= MAX_CANVAS_DIM,
        0 <= y <= MAX_CANVAS_DIM,
    ensures
        0 <= x * y <= 0xfffe0001,
{
}

pub proof fn lemma_row_major_injective(x1: int, y1: int, x2: int, y2: int, w: int)
    by (nonlinear_arith)
    requires
        0 <= x1 < w,
        0 <= x2 < w,
        0 <= y1,
        0 <= y2,
        !(x1 == x2 && y1 == y2),
    ensures
        row_major(x1, y1, w) != row_major(x2, y2, w),
{
}

impl Canvas {
    /// The canvas invariant: a non-negative, bounded extent, and one
    /// stored cell per grid position.
    pub open spec fn wf(self) -> bool {
        &&& 0 <= self.spec_size().x <= MAX_CANVAS_DIM
        &&& 0 <= self.spec_size().y <= MAX_CANVAS_DIM
        &&& self.grid().len() == self.spec_size().x * self.spec_size().y
    }

    pub closed spec fn spec_size(self) -> Vector2 {
        self.size
    }

    /// The stored cells, as their mathematical views, row-major.
    pub closed spec fn grid(self) -> Seq<CellView> {
        cell_views(self.cells@)
    }

    pub open spec fn in_bounds(self, x: int, y: int) -> bool {
        0 <= x < self.spec_size().x && 0 <= y < self.spec_size().y
    }

    /// What a read at `(x, y)` yields: the stored cell inside the grid,
    /// the blank cell anywhere outside.
    pub open spec fn cell_view(self, x: int, y: int) -> CellView {
        if self.in_bounds(x, y) {
            self.grid()[row_major(x, y, self.spec_size().x as int)]
        } else {
            blank_cell()
        }
    }

    /// All positions hold the given cell view.
    pub open spec fn filled_with(self, v: CellView) -> bool {
        forall|x: int, y: int| self.in_bounds(x, y) ==> self.cell_view(x, y) == v
    }

    pub fn new(size: Vector2) -> (r: Self)
        requires
            size.x <= MAX_CANVAS_DIM,
            size.y <= MAX_CANVAS_DIM,
        ensures
            r.wf(),
            r.spec_size().x == if size.x >= 0 { size.x as int } else { 0int },
            r.spec_size().y == if size.y >= 0 { size.y as int } else { 0int },
            r.filled_with(blank_cell()),
    {
        Self::new_filled(size, Cell::default())
    }

    pub fn new_filled(size: Vector2, cell: Cell) -> (r: Self)
        requires
            size.x <= MAX_CANVAS_DIM,
            size.y <= MAX_CANVAS_DIM,
        ensures
            r.wf(),
            r.spec_size().x == if size.x >= 0 { size.x as int } else { 0int },
            r.spec_size().y == if size.y >= 0 { size.y as int } else { 0int },
            r.filled_with(cell@),
    {
        let size = size.max(Vector2::null());
        proof {
            lemma_dim_product_bound(size.x as int, size.y as int);
        }
        let n: usize = (size.x as usize) * (size.y as usize);
        let mut cells: Vec<Cell> = Vec::new();
        let mut i: usize = 0;
        while i < n
            invariant
                0 <= i <= n,
                cells.len() == i,
                forall|j: int| 0 <= j < i ==> (#[trigger] cells@[j])@ == cell@,
            decreases n - i,
        {
            cells.push(cell.clone());
            i = i + 1;
        }
        let r = Canvas { cells, size };
        proof {
            assert(r.grid().len() == n);
            assert forall|x: int, y: int| r.in_bounds(x, y) implies r.cell_view(x, y) == cell@ by {
                lemma_row_major_bounds(x, y, size.x as int, size.y as int);
            }
        }
        r
    }

    pub fn size(&self) -> (r: Vector2)
        ensures
            r == self.spec_size(),
    {
        self.size
    }

    pub fn get_cell(&self, position: Vector2) -> (r: Cell)
        requires
            self.wf(),
        ensures
            r@ == self.cell_view(position.x as int, position.y as int),
    {
        let x = position.x;
        let y = position.y;
        if x < 0 || y < 0 {
            return Cell::default();
        }
        if x >= self.size.x || y >= self.size.y {
            return Cell::default();
        }
        let total = self.cells.len();
        proof {
            lemma_row_major_bounds(x as int, y as int, self.size.x as int, self.size.y as int);
            assert(self.grid().len() == self.cells@.len());
        }
        let index: usize = (y as usize) * (self.size.x as usize) + (x as usize);
        assert(index < total);
        self.cells[index].clone()
    }

    pub fn set_cell(&mut self, position: Vector2, cell: Cell)
        requires
            old(self).wf(),
        ensures
            final(self).wf(),
            final(self).spec_size() == old(self).spec_size(),
            forall|x: int, y: int|
                #[trigger] final(self).cell_view(x, y) == if x == position.x && y == position.y
                    && old(self).in_bounds(x, y) {
                    cell@
                } else {
                    old(self).cell_view(x, y)
                },
    {
        let x = position.x;
        let y = position.y;
        if x < 0 || y < 0 {
            return;
        }
        if x >= self.size.x || y >= self.size.y {
            return;
        }
        let total = self.cells.len();
        proof {
            lemma_row_major_bounds(x as int, y as int, self.size.x as int, self.size.y as int);
            assert(self.grid().len() == self.cells@.len());
        }
        let index: usize = (y as usize) * (self.size.x as usize) + (x as usize);
        assert(index < total);
        self.cells.set(index, cell);
        proof {
            let w = self.size.x as int;
            assert forall|x2: int, y2: int|
                #[trigger] self.cell_view(x2, y2) == if x2 == x as int && y2 == y as int
                    && old(self).in_bounds(x2, y2) {
                    cell@
                } else {
                    old(self).cell_view(x2, y2)
                } by {
                if self.in_bounds(x2, y2) && !(x2 == x as int && y2 == y as int) {
                    lemma_row_major_injective(x2, y2, x as int, y as int, w);
                    lemma_row_major_bounds(x2, y2, w, self.size.y as int);
                }
            }
        }
    }

    /// Resizing preserves the overlapping top-left region of the old
    /// content and fills any newly exposed area with blank cells.
    pub fn set_size(&mut self, size: Vector2)
        requires
            old(self).wf(),
            size.x <= MAX_CANVAS_DIM,
            size.y <= MAX_CANVAS_DIM,
        ensures
            final(self).wf(),
            final(self).spec_size().x == if size.x >= 0 { size.x as int } else { 0int },
            final(self).spec_size().y == if size.y >= 0 { size.y as int } else { 0int },
            forall|x: int, y: int| final(self).in_bounds(x, y) ==>
                #[trigger] final(self).cell_view(x, y) == if old(self).in_bounds(x, y) {
                    old(self).cell_view(x, y)
                } else {
                    blank_cell()
                },
    {
        let size = size.max(Vector2::null());
        if self.size.x == size.x && self.size.y == size.y {
            return;
        }
        let old_canvas = Ghost(*self);
        let old_size = self.size;
        proof {
            lemma_dim_product_bound(size.x as int, size.y as int);
        }
        let n: usize = (size.x as usize) * (size.y as usize);
        let mut cells: Vec<Cell> = Vec::new();
        let mut i: usize = 0;
        while i < n
            invariant
                0 <= i <= n,
                cells.len() == i,
                forall|j: int| 0 <= j < i ==> (#[trigger] cells@[j])@ == blank_cell(),
            decreases n - i,
        {
            cells.push(Cell::default());
            i = i + 1;
        }
        let copy_w: i32 = if size.x <= old_size.x { size.x } else { old_size.x };
        let copy_h: i32 = if size.y <= old_size.y { size.y } else { old_size.y };
        proof {
            assert forall|x2: int, y2: int| 0 <= x2 < size.x && 0 <= y2 < size.y implies (cells@[
            row_major(x2, y2, size.x as int)])@ == blank_cell() by {
                lemma_row_major_bounds(x2, y2, size.x as int, size.y as int);
            }
        }
        let mut y: i32 = 0;
        while y < copy_h
            invariant
                0 <= y <= copy_h,
                copy_w <= size.x,
                copy_w <= old_size.x,
                copy_h <= size.y,
                copy_h <= old_size.y,
                0 <= copy_w,
                0 <= copy_h,
                0 <= size.x <= MAX_CANVAS_DIM,
                0 <= size.y <= MAX_CANVAS_DIM,
                old_canvas@.wf(),
                old_canvas@.spec_size() == old_size,
                *self == old_canvas@,
                n == size.x * size.y,
                cells.len() == n,
                forall|x2: int, y2: int|
                    0 <= x2 < size.x && 0 <= y2 < size.y ==> (#[trigger] cells@[row_major(
                        x2,
                        y2,
                        size.x as int,
                    )])@ == if x2 < copy_w && y2 < y {
                        old_canvas@.cell_view(x2, y2)
                    } else {
                        blank_cell()
                    },
            decreases copy_h - y,
        {
            let mut x: i32 = 0;
            while x < copy_w
                invariant
                    0 <= x <= copy_w,
                    0 <= y < copy_h,
                    copy_w <= size.x,
                    copy_w <= old_size.x,
                    copy_h <= size.y,
                    copy_h <= old_size.y,
                    0 <= size.x <= MAX_CANVAS_DIM,
                    0 <= size.y <= MAX_CANVAS_DIM,
                    old_canvas@.wf(),
                    old_canvas@.spec_size() == old_size,
                    *self == old_canvas@,
                    n == size.x * size.y,
                    cells.len() == n,
                    forall|x2: int, y2: int|
                        0 <= x2 < size.x && 0 <= y2 < size.y ==> (#[trigger] cells@[row_major(
                            x2,
                            y2,
                            size.x as int,
                        )])@ == if (y2 < y && x2 < copy_w) || (y2 == y && x2 < x) {
                            old_canvas@.cell_view(x2, y2)
                        } else {
                            blank_cell()
                        },
                decreases copy_w - x,
            {
                let old_total = self.cells.len();
                proof {
                    lemma_row_major_bounds(x as int, y as int, old_size.x as int, old_size.y as int);
                    lemma_row_major_bounds(x as int, y as int, size.x as int, size.y as int);
                    assert(old_canvas@.grid().len() == self.cells@.len());
                }
                let old_index: usize = (y as usize) * (old_size.x as usize) + (x as usize);
                assert(old_index < old_total);
                let new_index: usize = (y as usize) * (size.x as usize) + (x as usize);
                let cell = self.cells[old_index].clone();
                let ghost cells_pre = cells@;
                cells.set(new_index, cell);
                proof {
                    assert forall|x2: int, y2: int|
                        0 <= x2 < size.x && 0 <= y2 < size.y && !(x2 == x as int && y2
                            == y as int) implies (#[trigger] cells@[row_major(x2, y2, size.x as int)])@
                        == (cells_pre[row_major(x2, y2, size.x as int)])@ by {
                        lemma_row_major_injective(x2, y2, x as int, y as int, size.x as int);
                        lemma_row_major_bounds(x2, y2, size.x as int, size.y as int);
                    }
                }
                x = x + 1;
            }
            y = y + 1;
        }
        self.cells = cells;
        self.size = size;
        proof {
            assert forall|x2: int, y2: int| self.in_bounds(x2, y2) implies #[trigger] self
                .cell_view(x2, y2) == if old(self).in_bounds(x2, y2) {
                old(self).cell_view(x2, y2)
            } else {
                blank_cell()
            } by {
                lemma_row_major_bounds(x2, y2, size.x as int, size.y as int);
            }
        }
    }

    /// Structural frame equality: same extent and the same cell at every
    /// position.
    pub open spec fn same_content(self, other: Canvas) -> bool {
        self.spec_size() == other.spec_size() && self.grid() == other.grid()
    }
}

impl Clone for Canvas {
    fn clone(&self) -> (r: Self)
        ensures
            r.spec_size() == self.spec_size(),
            r.grid() == self.grid(),
            r.wf() == self.wf(),
    {
        let r = Canvas { cells: self.cells.clone(), size: self.size };
        proof {
            assert(r.grid() =~= self.grid());
        }
        r
    }
}

impl PartialEq for Canvas {
    fn eq(&self, other: &Self) -> (r: bool) {
        proof {
            assert(self.grid().len() == self.cells@.len());
            assert(other.grid().len() == other.cells@.len());
        }
        if self.size.x != other.size.x || self.size.y != other.size.y {
            return false;
        }
        if self.cells.len() != other.cells.len() {
            return false;
        }
        let mut i: usize = 0;
        while i < self.cells.len()
            invariant
                0 <= i <= self.cells.len(),
                self.cells.len() == other.cells.len(),
                self.size == other.size,
                forall|j: int| 0 <= j < i ==> (#[trigger] self.cells@[j])@ == (other.cells@[j])@,
            decreases self.cells.len() - i,
        {
            if !(self.cells[i] == other.cells[i]) {
                proof {
                    assert(self.grid()[i as int] != other.grid()[i as int]);
                }
                return false;
            }
            i = i + 1;
        }
        proof {
            assert(self.grid() =~= other.grid());
        }
        true
    }
}

impl vstd::std_specs::cmp::PartialEqSpecImpl for Canvas {
    open spec fn obeys_eq_spec() -> bool {
        true
    }

    open spec fn eq_spec(&self, other: &Canvas) -> bool {
        self.same_content(*other)
    }
}

} // verus!
