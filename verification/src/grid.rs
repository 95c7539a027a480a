use vstd::prelude::*;
use vstd::arithmetic::div_mod::lemma_fundamental_div_mod;
use vstd::arithmetic::div_mod::lemma_mod_bound;
use crate::color::Color;

verus! {

broadcast use vstd::seq_lib::lemma_seq_contains_after_push;

/// The state of one grid position: empty, or occupied by an organism of a
/// given color. There is no other variant and no transitional state.
#[derive(Clone, Copy, Debug, PartialEq, Eq, Structural)]
pub enum Cell {
    Empty,
    Occupied(Color),
}

/// The color reported for an empty position: the fixed background, solid
/// black.
pub open spec fn background_color() -> Color {
    Color { r: 0, g: 0, b: 0 }
}

/// A dense 2D field of cells, stored row-major as a flat buffer of length
/// `width * height`. Position (x, y) lives at flat index `y * width + x`;
/// positions outside the bounds are never stored and read as Empty.
pub struct Grid {
    cells: Vec<Cell>,
    width: usize,
    height: usize,
}

impl Grid {
    /// The grid's width, as a mathematical integer.
    pub closed spec fn spec_width(&self) -> int {
        self.width as int
    }

    /// The grid's height, as a mathematical integer.
    pub closed spec fn spec_height(&self) -> int {
        self.height as int
    }

    /// Structural invariant: the flat buffer holds exactly one cell per
    /// in-bounds position, and the cell count fits the machine word that
    /// indexes the buffer.
    pub closed spec fn wf(&self) -> bool {
        &&& self.cells@.len() == self.width * self.height
        &&& self.width * self.height <= usize::MAX
    }

    /// Whether (x, y) denotes a stored position.
    pub open spec fn spec_in_bounds(&self, x: int, y: int) -> bool {
        0 <= x < self.spec_width() && 0 <= y < self.spec_height()
    }

    /// The cell stored at (x, y), or Empty when (x, y) is out of bounds:
    /// out-of-range positions are permanently Empty.
    pub closed spec fn cell_at(&self, x: int, y: int) -> Cell {
        if self.spec_in_bounds(x, y) {
            self.cells@[flat_index(self.spec_width(), x, y)]
        } else {
            Cell::Empty
        }
    }

    /// How many positions hold an organism.
    pub closed spec fn occupied_count(&self) -> nat {
        occupied_in(self.cells@)
    }
}

/// How many cells of `s` are Occupied.
pub open spec fn occupied_in(s: Seq<Cell>) -> nat
    decreases s.len(),
{
    if s.len() == 0 {
        0
    } else {
        occupied_in(s.drop_last()) + (if s.last() is Occupied {
            1nat
        } else {
            0nat
        })
    }
}

/// Every cell occupied in `g1` is occupied, with the same color, in `g2`:
/// `g2` arose from `g1` without overwriting or killing any organism.
pub open spec fn preserves_occupied(g1: &Grid, g2: &Grid) -> bool {
    forall|x: int, y: int|
        #[trigger] g1.cell_at(x, y) is Occupied ==> g2.cell_at(x, y) == g1.cell_at(x, y)
}

/// An out-of-bounds read is always Empty: the grid behaves as if bordered by
/// an infinite empty plane, and reading it can never fail.
pub proof fn lemma_out_of_bounds_empty(g: &Grid, x: int, y: int)
    requires
        !g.spec_in_bounds(x, y),
    ensures
        g.cell_at(x, y) == Cell::Empty,
{
}

/// The row-major flat index of position (x, y) in a grid of width `w`.
pub open spec fn flat_index(w: int, x: int, y: int) -> int {
    y * w + x
}

/// A row-major flat index stays within a `w * h` buffer.
proof fn lemma_flat_index_in_range(w: int, h: int, x: int, y: int)
    requires
        0 <= x < w,
        0 <= y < h,
    ensures
        0 <= flat_index(w, x, y) < w * h,
{
    assert(y * w + x < w * h) by (nonlinear_arith)
        requires
            0 <= x < w,
            0 <= y < h,
    ;
    assert(0 <= y * w + x) by (nonlinear_arith)
        requires
            0 <= x,
            0 <= y,
            0 < w,
    ;
}

/// Every in-bounds position's flat index stays within a `w * h` buffer.
proof fn lemma_flat_index_range_all(w: int, h: int)
    ensures
        forall|i: int, j: int|
            0 <= i < w && 0 <= j < h ==> 0 <= #[trigger] flat_index(w, i, j) < w * h,
{
    assert forall|i: int, j: int|
        0 <= i < w && 0 <= j < h implies 0 <= #[trigger] flat_index(w, i, j) < w * h by {
        lemma_flat_index_in_range(w, h, i, j);
    }
}

/// The row-major flat index maps distinct in-bounds positions to distinct
/// buffer slots: writing one position disturbs no other.
proof fn lemma_flat_index_injective(w: int, h: int, x: int, y: int)
    requires
        0 <= x < w,
        0 <= y < h,
    ensures
        forall|i: int, j: int|
            0 <= i < w && 0 <= j < h && !(i == x && j == y) ==> #[trigger] flat_index(w, i, j)
                != flat_index(w, x, y),
{
    assert forall|i: int, j: int|
        0 <= i < w && 0 <= j < h && !(i == x && j == y) implies #[trigger] flat_index(w, i, j)
        != flat_index(w, x, y) by {
        assert(j * w + i != y * w + x) by (nonlinear_arith)
            requires
                0 <= i < w,
                0 <= j < h,
                0 <= x < w,
                0 <= y < h,
                !(i == x && j == y),
        ;
    }
}

impl Grid {
    /// A grid of the given dimensions with every position Empty. Dimensions
    /// are fixed for the grid's whole lifetime.
    pub fn new(width: usize, height: usize) -> (g: Grid)
        requires
            width * height <= usize::MAX,
        ensures
            g.wf(),
            g.spec_width() == width as int,
            g.spec_height() == height as int,
            forall|x: int, y: int| g.cell_at(x, y) == Cell::Empty,
    {
        let len: usize = width * height;
        let mut cells: Vec<Cell> = Vec::new();
        let mut i: usize = 0;
        while i < len
            invariant
                i <= len,
                cells@.len() == i as int,
                forall|k: int| 0 <= k < i as int ==> cells@[k] == Cell::Empty,
            decreases len - i,
        {
            cells.push(Cell::Empty);
            i = i + 1;
        }
        let g = Grid { cells, width, height };
        proof {
            assert forall|x: int, y: int| g.cell_at(x, y) == Cell::Empty by {
                if g.spec_in_bounds(x, y) {
                    lemma_flat_index_in_range(g.spec_width(), g.spec_height(), x, y);
                }
            }
        }
        g
    }

    /// A deep copy of another grid, cell for cell: a full-state snapshot for
    /// testing or display.
    pub fn from_grid(other: &Grid) -> (g: Grid)
        requires
            other.wf(),
        ensures
            g.wf(),
            g.spec_width() == other.spec_width(),
            g.spec_height() == other.spec_height(),
            forall|x: int, y: int| g.cell_at(x, y) == other.cell_at(x, y),
    {
        let len: usize = other.cells.len();
        let mut cells: Vec<Cell> = Vec::new();
        let mut i: usize = 0;
        while i < len
            invariant
                i <= len,
                len as int == other.cells@.len(),
                cells@.len() == i as int,
                forall|k: int| 0 <= k < i as int ==> cells@[k] == other.cells@[k],
            decreases len - i,
        {
            cells.push(other.cells[i]);
            i = i + 1;
        }
        proof {
            lemma_flat_index_range_all(other.spec_width(), other.spec_height());
        }
        Grid { cells, width: other.width, height: other.height }
    }

    /// The grid's dimensions, fixed at construction.
    pub fn dimensions(&self) -> (d: (usize, usize))
        ensures
            d.0 as int == self.spec_width(),
            d.1 as int == self.spec_height(),
    {
        (self.width, self.height)
    }

    /// The grid's width.
    pub fn width(&self) -> (w: usize)
        ensures
            w as int == self.spec_width(),
    {
        self.width
    }

    /// The grid's height.
    pub fn height(&self) -> (h: usize)
        ensures
            h as int == self.spec_height(),
    {
        self.height
    }

    /// True exactly when (x, y) denotes a stored position: false for x < 0,
    /// x >= width, y < 0 or y >= height, and true otherwise.
    pub fn in_bounds(&self, x: isize, y: isize) -> (r: bool)
        ensures
            r == self.spec_in_bounds(x as int, y as int),
    {
        x >= 0 && (x as usize) < self.width && y >= 0 && (y as usize) < self.height
    }

    /// The cell at (x, y). Out-of-bounds positions read as Empty: this
    /// lookup is total and never fails.
    pub fn at(&self, x: isize, y: isize) -> (c: Cell)
        requires
            self.wf(),
        ensures
            c == self.cell_at(x as int, y as int),
    {
        if !self.in_bounds(x, y) {
            Cell::Empty
        } else {
            proof {
                lemma_flat_index_in_range(
                    self.spec_width(),
                    self.spec_height(),
                    x as int,
                    y as int,
                );
            }
            self.cells[(y as usize) * self.width + (x as usize)]
        }
    }

    /// The color to draw at (x, y): the stored organism's color, or the
    /// fixed background for an Empty (or out-of-bounds) position.
    pub fn color_at(&self, x: isize, y: isize) -> (c: Color)
        requires
            self.wf(),
        ensures
            c == (match self.cell_at(x as int, y as int) {
                Cell::Empty => background_color(),
                Cell::Occupied(f) => f,
            }),
    {
        match self.at(x, y) {
            Cell::Empty => Color { r: 0, g: 0, b: 0 },
            Cell::Occupied(f) => f,
        }
    }

    /// Write `value` at the validated in-bounds position (x, y). Callers must
    /// check `in_bounds` first: the precondition makes an unvalidated call a
    /// loud verification failure, never a silent corruption.
    pub fn set(&mut self, x: isize, y: isize, value: Cell)
        requires
            old(self).wf(),
            old(self).spec_in_bounds(x as int, y as int),
        ensures
            final(self).wf(),
            final(self).spec_width() == old(self).spec_width(),
            final(self).spec_height() == old(self).spec_height(),
            final(self).cell_at(x as int, y as int) == value,
            forall|i: int, j: int|
                !(i == x as int && j == y as int) ==> final(self).cell_at(i, j) == old(
                    self,
                ).cell_at(i, j),
    {
        proof {
            lemma_flat_index_in_range(self.spec_width(), self.spec_height(), x as int, y as int);
            lemma_flat_index_range_all(self.spec_width(), self.spec_height());
            lemma_flat_index_injective(self.spec_width(), self.spec_height(), x as int, y as int);
        }
        let idx: usize = (y as usize) * self.width + (x as usize);
        self.cells.set(idx, value);
    }

    /// A mutable slot for in-place update of the validated in-bounds position
    /// (x, y); the caller must have checked `in_bounds`. Whatever the caller
    /// stores through the slot becomes the cell at (x, y); every other
    /// position is untouched.
    pub fn get_mut(&mut self, x: isize, y: isize) -> (cell: &mut Cell)
        requires
            old(self).wf(),
            old(self).spec_in_bounds(x as int, y as int),
        ensures
            *cell == old(self).cell_at(x as int, y as int),
            final(self).wf(),
            final(self).spec_width() == old(self).spec_width(),
            final(self).spec_height() == old(self).spec_height(),
            final(self).cell_at(x as int, y as int) == *final(cell),
            forall|i: int, j: int|
                !(i == x as int && j == y as int) ==> final(self).cell_at(i, j) == old(
                    self,
                ).cell_at(i, j),
    {
        proof {
            lemma_flat_index_in_range(self.spec_width(), self.spec_height(), x as int, y as int);
            lemma_flat_index_range_all(self.spec_width(), self.spec_height());
            lemma_flat_index_injective(self.spec_width(), self.spec_height(), x as int, y as int);
        }
        let idx: usize = (y as usize) * self.width + (x as usize);
        &mut self.cells[idx]
    }

    /// How many positions currently hold an organism.
    pub fn count_occupied(&self) -> (n: usize)
        requires
            self.wf(),
        ensures
            n as nat == self.occupied_count(),
    {
        let len: usize = self.cells.len();
        let mut n: usize = 0;
        let mut i: usize = 0;
        while i < len
            invariant
                i <= len,
                n <= i,
                len as int == self.cells@.len(),
                n as nat == occupied_in(self.cells@.take(i as int)),
            decreases len - i,
        {
            let occupied: bool = match self.cells[i] {
                Cell::Occupied(_) => true,
                Cell::Empty => false,
            };
            if occupied {
                n = n + 1;
            }
            proof {
                assert(self.cells@.take(i as int + 1).drop_last() =~= self.cells@.take(i as int));
                assert(self.cells@.take(i as int + 1).last() == self.cells@[i as int]);
            }
            i = i + 1;
        }
        proof {
            assert(self.cells@.take(len as int) =~= self.cells@);
        }
        n
    }

    /// Place an organism of the given color at the validated in-bounds
    /// position (x, y), whatever stood there before, and report exactly that
    /// position as changed.
    pub fn place(&mut self, x: isize, y: isize, color: Color) -> (changed: Vec<(isize, isize)>)
        requires
            old(self).wf(),
            old(self).spec_in_bounds(x as int, y as int),
        ensures
            final(self).wf(),
            final(self).spec_width() == old(self).spec_width(),
            final(self).spec_height() == old(self).spec_height(),
            final(self).cell_at(x as int, y as int) == Cell::Occupied(color),
            forall|i: int, j: int|
                !(i == x as int && j == y as int) ==> final(self).cell_at(i, j) == old(
                    self,
                ).cell_at(i, j),
            changed@ =~= seq![(x, y)],
    {
        self.set(x, y, Cell::Occupied(color));
        let mut changed: Vec<(isize, isize)> = Vec::new();
        changed.push((x, y));
        changed
    }
}

/// Appending an element that a sequence does not hold keeps it
/// duplicate-free.
pub(crate) proof fn lemma_push_no_duplicates<T>(s: Seq<T>, v: T)
    requires
        s.no_duplicates(),
        !s.contains(v),
    ensures
        s.push(v).no_duplicates(),
{
    assert forall|i: int, j: int|
        0 <= i < s.push(v).len() && 0 <= j < s.push(v).len() && i != j implies s.push(v)[i]
        != s.push(v)[j] by {
        if i < s.len() && j < s.len() {
        } else if j == s.len() {
            assert(s.push(v)[i] == s[i]);
        } else {
            assert(s.push(v)[j] == s[j]);
        }
    }
}

/// If `s2` keeps every occupied cell of `s1` occupied, it holds at least as
/// many organisms.
proof fn lemma_occupied_in_le(s1: Seq<Cell>, s2: Seq<Cell>)
    requires
        s1.len() == s2.len(),
        forall|k: int| 0 <= k < s1.len() && #[trigger] s1[k] is Occupied ==> s2[k] is Occupied,
    ensures
        occupied_in(s1) <= occupied_in(s2),
    decreases s1.len(),
{
    if s1.len() > 0 {
        assert forall|k: int|
            0 <= k < s1.drop_last().len() && #[trigger] s1.drop_last()[k] is Occupied implies s2.drop_last()[k] is Occupied by {
            assert(s1.drop_last()[k] == s1[k]);
            assert(s2.drop_last()[k] == s2[k]);
        }
        lemma_occupied_in_le(s1.drop_last(), s2.drop_last());
    }
}

/// (x, y) lies within the axis-aligned square of the given radius centered
/// on (cx, cy): the region a clear edit sweeps.
pub open spec fn in_square(cx: int, cy: int, radius: int, x: int, y: int) -> bool {
    cx - radius <= x <= cx + radius && cy - radius <= y <= cy + radius
}

/// (x, y) lies in the part of the square already swept when the row-major
/// scan stands at column bx of row by.
spec fn swept(cx: int, cy: int, radius: int, x: int, y: int, bx: int, by: int) -> bool {
    in_square(cx, cy, radius, x, y) && (y < by || (y == by && x < bx))
}

impl Grid {
    /// Set every in-bounds position of the square of the given radius around
    /// (cx, cy) to Empty, whatever stood there, and report exactly those
    /// positions as changed — each once, even if it was already Empty.
    pub fn clear_area(&mut self, cx: isize, cy: isize, radius: usize) -> (changed: Vec<
        (isize, isize),
    >)
        requires
            old(self).wf(),
            cx - radius >= isize::MIN,
            cx + radius <= isize::MAX,
            cy - radius >= isize::MIN,
            cy + radius <= isize::MAX,
            2 * radius + 1 <= isize::MAX,
        ensures
            final(self).wf(),
            final(self).spec_width() == old(self).spec_width(),
            final(self).spec_height() == old(self).spec_height(),
            forall|i: int, j: int|
                in_square(cx as int, cy as int, radius as int, i, j) ==> final(self).cell_at(i, j)
                    == Cell::Empty,
            forall|i: int, j: int|
                !in_square(cx as int, cy as int, radius as int, i, j) ==> final(self).cell_at(i, j)
                    == old(self).cell_at(i, j),
            forall|p: (isize, isize)|
                #[trigger] changed@.contains(p) <==> (in_square(
                    cx as int,
                    cy as int,
                    radius as int,
                    p.0 as int,
                    p.1 as int,
                ) && old(self).spec_in_bounds(p.0 as int, p.1 as int)),
            changed@.no_duplicates(),
    {
        let ghost g0 = *self;
        let ghost cxi = cx as int;
        let ghost cyi = cy as int;
        let ghost ri = radius as int;
        let r: isize = radius as isize;
        let span: usize = 2 * radius + 1;
        let mut changed: Vec<(isize, isize)> = Vec::new();
        let mut dj: usize = 0;
        while dj < span
            invariant
                self.wf(),
                self.spec_width() == g0.spec_width(),
                self.spec_height() == g0.spec_height(),
                g0.wf(),
                dj <= span,
                span == 2 * ri + 1,
                span <= isize::MAX,
                r == ri,
                cx == cxi,
                cy == cyi,
                cxi - ri >= isize::MIN,
                cxi + ri <= isize::MAX,
                cyi - ri >= isize::MIN,
                cyi + ri <= isize::MAX,
                forall|i: int, j: int|
                    swept(cxi, cyi, ri, i, j, cxi - ri, cyi - ri + dj) ==> self.cell_at(i, j)
                        == Cell::Empty,
                forall|i: int, j: int|
                    !swept(cxi, cyi, ri, i, j, cxi - ri, cyi - ri + dj) ==> self.cell_at(i, j)
                        == g0.cell_at(i, j),
                forall|p: (isize, isize)|
                    #[trigger] changed@.contains(p) <==> (swept(
                        cxi,
                        cyi,
                        ri,
                        p.0 as int,
                        p.1 as int,
                        cxi - ri,
                        cyi - ri + dj,
                    ) && g0.spec_in_bounds(p.0 as int, p.1 as int)),
                changed@.no_duplicates(),
            decreases span - dj,
        {
            let yy: isize = cy - r + (dj as isize);
            let mut di: usize = 0;
            while di < span
                invariant
                    self.wf(),
                    self.spec_width() == g0.spec_width(),
                    self.spec_height() == g0.spec_height(),
                    g0.wf(),
                    di <= span,
                    dj < span,
                    span == 2 * ri + 1,
                    span <= isize::MAX,
                    r == ri,
                    cx == cxi,
                    cy == cyi,
                    cxi - ri >= isize::MIN,
                    cxi + ri <= isize::MAX,
                    cyi - ri >= isize::MIN,
                    cyi + ri <= isize::MAX,
                    yy == cyi - ri + dj,
                    forall|i: int, j: int|
                        swept(cxi, cyi, ri, i, j, cxi - ri + di, yy as int) ==> self.cell_at(i, j)
                            == Cell::Empty,
                    forall|i: int, j: int|
                        !swept(cxi, cyi, ri, i, j, cxi - ri + di, yy as int) ==> self.cell_at(i, j)
                            == g0.cell_at(i, j),
                    forall|p: (isize, isize)|
                        #[trigger] changed@.contains(p) <==> (swept(
                            cxi,
                            cyi,
                            ri,
                            p.0 as int,
                            p.1 as int,
                            cxi - ri + di,
                            yy as int,
                        ) && g0.spec_in_bounds(p.0 as int, p.1 as int)),
                    changed@.no_duplicates(),
                decreases span - di,
            {
                let xx: isize = cx - r + (di as isize);
                if self.in_bounds(xx, yy) {
                    self.set(xx, yy, Cell::Empty);
                    proof {
                        assert(!changed@.contains((xx, yy)));
                        lemma_push_no_duplicates(changed@, (xx, yy));
                    }
                    changed.push((xx, yy));
                }
                di = di + 1;
            }
            dj = dj + 1;
        }
        proof {
            assert forall|i: int, j: int|
                in_square(cxi, cyi, ri, i, j) implies swept(
                cxi,
                cyi,
                ri,
                i,
                j,
                cxi - ri,
                cyi - ri + span,
            ) by {}
        }
        changed
    }
}

/// The no-death law: any step that preserves every occupied cell — as every
/// tick and every placement does — never lowers the count of organisms.
pub proof fn lemma_occupied_count_monotone(g1: &Grid, g2: &Grid)
    requires
        g1.wf(),
        g2.wf(),
        g1.spec_width() == g2.spec_width(),
        g1.spec_height() == g2.spec_height(),
        preserves_occupied(g1, g2),
    ensures
        g1.occupied_count() <= g2.occupied_count(),
{
    let w = g1.spec_width();
    let h = g1.spec_height();
    assert forall|k: int|
        0 <= k < g1.cells@.len() && #[trigger] g1.cells@[k] is Occupied implies g2.cells@[k] is Occupied by {
        assert(w > 0 && h > 0) by (nonlinear_arith)
            requires
                0 <= w,
                0 <= h,
                w * h > 0,
        ;
        let x = k % w;
        let y = k / w;
        lemma_fundamental_div_mod(k, w);
        lemma_mod_bound(k, w);
        assert(y < h) by (nonlinear_arith)
            requires
                k == w * y + x,
                0 <= x < w,
                k < w * h,
        ;
        assert(0 <= y) by (nonlinear_arith)
            requires
                k == w * y + x,
                0 <= x < w,
                0 <= k,
        ;
        assert(y * w + x == k) by (nonlinear_arith)
            requires
                k == w * y + x,
        ;
        assert(flat_index(w, x, y) == k);
        assert(g1.cell_at(x, y) == g1.cells@[k]);
        assert(g2.cell_at(x, y) == g2.cells@[k]);
        assert(g1.cell_at(x, y) is Occupied);
    }
    lemma_occupied_in_le(g1.cells@, g2.cells@);
}

} // verus!
