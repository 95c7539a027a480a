use vstd::prelude::*;
use crate::color::Color;
use crate::color::mutated_from;
use crate::grid::Cell;
use crate::grid::Grid;
use crate::grid::preserves_occupied;
use crate::grid::lemma_occupied_count_monotone;
use crate::grid::lemma_push_no_duplicates;
use crate::rng::gen_range_usize;

verus! {

broadcast use vstd::seq_lib::lemma_seq_contains_after_push;

/// How many random positions one tick samples. The default keeps per-tick
/// work constant whatever the grid holds.
pub const TICK_SAMPLES: usize = 8000;

/// (dx, dy) is one of the four orthogonal offsets: left, right, up, down.
pub open spec fn orthogonal(dx: int, dy: int) -> bool {
    ||| (dx == -1 && dy == 0)
    ||| (dx == 1 && dy == 0)
    ||| (dx == 0 && dy == -1)
    ||| (dx == 0 && dy == 1)
}

/// Some orthogonal neighbor of (x, y) holds an organism.
pub open spec fn has_occupied_neighbor(g: &Grid, x: int, y: int) -> bool {
    exists|nx: int, ny: int|
        orthogonal(nx - x, ny - y) && #[trigger] g.cell_at(nx, ny) is Occupied
}

/// The cell `parent` holds an organism and the cell `child` holds one whose
/// color is a mutated copy of it.
pub open spec fn spread_pair(parent: Cell, child: Cell) -> bool {
    parent matches Cell::Occupied(p) && child matches Cell::Occupied(c) && mutated_from(p, c)
}

/// The organism at (x, y) is a mutated copy of one of its orthogonal
/// neighbors.
pub open spec fn grown_from_neighbor(g: &Grid, x: int, y: int) -> bool {
    exists|nx: int, ny: int|
        orthogonal(nx - x, ny - y) && spread_pair(#[trigger] g.cell_at(nx, ny), g.cell_at(x, y))
}

/// No stored Empty cell borders an organism: growth has nowhere to go. A
/// fully empty grid and a fully occupied one are both saturated.
pub open spec fn saturated(g: &Grid) -> bool {
    forall|x: int, y: int|
        g.spec_in_bounds(x, y) && #[trigger] g.cell_at(x, y) is Empty ==> !has_occupied_neighbor(
            g,
            x,
            y,
        )
}

/// What one tick — and every prefix of one — guarantees about the grid `g`
/// it produced from `g0`, with `changed` the positions reported so far:
/// dimensions are fixed; no organism is lost or recolored; every reported
/// position underwent a real Empty-to-Occupied transition; every changed
/// cell was Empty, is now a mutated copy of a neighboring organism, and was
/// reported; no position is reported twice; and a saturated grid is left
/// exactly as it was, with nothing reported.
pub open spec fn tick_rel(g0: &Grid, g: &Grid, changed: Seq<(isize, isize)>) -> bool {
    &&& g0.spec_width() <= isize::MAX
    &&& g0.spec_height() <= isize::MAX
    &&& g.spec_width() == g0.spec_width()
    &&& g.spec_height() == g0.spec_height()
    &&& preserves_occupied(g0, g)
    &&& forall|k: int|
        0 <= k < changed.len() ==> {
            &&& g0.cell_at((#[trigger] changed[k]).0 as int, changed[k].1 as int) is Empty
            &&& g.cell_at(changed[k].0 as int, changed[k].1 as int) is Occupied
        }
    &&& forall|x: int, y: int|
        #[trigger] g.cell_at(x, y) != g0.cell_at(x, y) ==> {
            &&& g0.cell_at(x, y) is Empty
            &&& g.cell_at(x, y) is Occupied
            &&& has_occupied_neighbor(g, x, y)
            &&& grown_from_neighbor(g, x, y)
            &&& changed.contains((x as isize, y as isize))
        }
    &&& changed.no_duplicates()
    &&& (saturated(g0) ==> (forall|x: int, y: int|
        #[trigger] g.cell_at(x, y) == g0.cell_at(x, y)) && changed.len() == 0)
}

/// Saturation survives any step that leaves every cell as it was — in
/// particular a tick of a saturated grid, which changes nothing. So a
/// saturated grid comes back unchanged from any number of ticks.
pub proof fn lemma_saturated_stable(g0: &Grid, g: &Grid)
    requires
        g.spec_width() == g0.spec_width(),
        g.spec_height() == g0.spec_height(),
        forall|x: int, y: int| #[trigger] g.cell_at(x, y) == g0.cell_at(x, y),
        saturated(g0),
    ensures
        saturated(g),
{
    assert forall|x: int, y: int|
        g.spec_in_bounds(x, y) && #[trigger] g.cell_at(x, y) is Empty implies !has_occupied_neighbor(
        g,
        x,
        y,
    ) by {
        if has_occupied_neighbor(g, x, y) {
            let (nx, ny) = choose|nx: int, ny: int|
                orthogonal(nx - x, ny - y) && #[trigger] g.cell_at(nx, ny) is Occupied;
            assert(g0.cell_at(nx, ny) is Occupied);
            assert(has_occupied_neighbor(g0, x, y));
        }
    }
}

/// One spread attempt from the organism of color `parent` at (sx, sy) into
/// its orthogonal neighbor (x, y): if that neighbor is a stored Empty cell it
/// becomes Occupied by a mutated copy of `parent` and is reported; an
/// out-of-bounds or already occupied neighbor is left untouched — growth
/// never overwrites an organism.
fn spread_into(
    grid: &mut Grid,
    changed: &mut Vec<(isize, isize)>,
    rng: &mut rand::rngs::StdRng,
    x: isize,
    y: isize,
    parent: Color,
    Ghost(g0): Ghost<Grid>,
    Ghost(sx): Ghost<int>,
    Ghost(sy): Ghost<int>,
)
    requires
        old(grid).wf(),
        tick_rel(&g0, old(grid), old(changed)@),
        old(grid).cell_at(sx, sy) == Cell::Occupied(parent),
        orthogonal(x as int - sx, y as int - sy),
    ensures
        final(grid).wf(),
        tick_rel(&g0, final(grid), final(changed)@),
        final(grid).cell_at(sx, sy) == Cell::Occupied(parent),
{
    let ghost g1 = *grid;
    let ghost c1 = changed@;
    let ghost xi = x as int;
    let ghost yi = y as int;
    if grid.in_bounds(x, y) {
        let target_empty: bool = match grid.at(x, y) {
            Cell::Empty => true,
            Cell::Occupied(_) => false,
        };
        if target_empty {
            let child = parent.mutate(rng);
            grid.set(x, y, Cell::Occupied(child));
            changed.push((x, y));
            proof {
                let g2 = *grid;
                let c2 = changed@;
                assert(xi != sx || yi != sy);
                assert(g2.cell_at(sx, sy) == Cell::Occupied(parent));
                assert(g0.cell_at(xi, yi) is Empty);
                // the target cannot have been reported before: every earlier
                // report left its position Occupied, and the target was Empty
                assert(!c1.contains((x, y))) by {
                    if c1.contains((x, y)) {
                        let k = choose|k: int| 0 <= k < c1.len() && c1[k] == (x, y);
                        assert(g1.cell_at((c1[k]).0 as int, (c1[k]).1 as int) is Occupied);
                    }
                }
                lemma_push_no_duplicates(c1, (x, y));
                // no organism is lost or recolored
                assert forall|i: int, j: int|
                    #[trigger] g0.cell_at(i, j) is Occupied implies g2.cell_at(i, j)
                    == g0.cell_at(i, j) by {
                    if i == xi && j == yi {
                        assert(g1.cell_at(i, j) == g0.cell_at(i, j));
                    }
                }
                // every reported position really went Empty to Occupied
                assert forall|k: int| 0 <= k < c2.len() implies {
                    &&& g0.cell_at((#[trigger] c2[k]).0 as int, c2[k].1 as int) is Empty
                    &&& g2.cell_at(c2[k].0 as int, c2[k].1 as int) is Occupied
                } by {
                    if k < c1.len() {
                        let p = c1[k];
                        assert(g0.cell_at(p.0 as int, p.1 as int) is Empty);
                        assert(g1.cell_at(p.0 as int, p.1 as int) is Occupied);
                        assert(!(p.0 as int == xi && p.1 as int == yi));
                    } else {
                        assert(c2[k] == (x, y));
                    }
                }
                // every changed cell is a reported, adjacent new organism
                assert forall|i: int, j: int|
                    #[trigger] g2.cell_at(i, j) != g0.cell_at(i, j) implies {
                    &&& g0.cell_at(i, j) is Empty
                    &&& g2.cell_at(i, j) is Occupied
                    &&& has_occupied_neighbor(&g2, i, j)
                    &&& grown_from_neighbor(&g2, i, j)
                    &&& c2.contains((i as isize, j as isize))
                } by {
                    if i == xi && j == yi {
                        assert(orthogonal(sx - xi, sy - yi));
                        assert(has_occupied_neighbor(&g2, i, j));
                        assert(spread_pair(g2.cell_at(sx, sy), g2.cell_at(i, j)));
                        assert(grown_from_neighbor(&g2, i, j));
                        assert(c2.contains((x, y)));
                        assert((xi as isize, yi as isize) == (x, y));
                    } else {
                        assert(g2.cell_at(i, j) == g1.cell_at(i, j));
                        assert(g1.cell_at(i, j) != g0.cell_at(i, j));
                        assert(has_occupied_neighbor(&g1, i, j));
                        let (nx, ny) = choose|nx: int, ny: int|
                            orthogonal(nx - i, ny - j) && #[trigger] g1.cell_at(nx, ny)
                                is Occupied;
                        assert(!(nx == xi && ny == yi));
                        assert(g2.cell_at(nx, ny) is Occupied);
                        assert(has_occupied_neighbor(&g2, i, j));
                        assert(grown_from_neighbor(&g1, i, j));
                        let (px, py) = choose|px: int, py: int|
                            orthogonal(px - i, py - j) && spread_pair(
                                #[trigger] g1.cell_at(px, py),
                                g1.cell_at(i, j),
                            );
                        assert(!(px == xi && py == yi));
                        assert(spread_pair(g2.cell_at(px, py), g2.cell_at(i, j)));
                        assert(grown_from_neighbor(&g2, i, j));
                        assert(c1.contains((i as isize, j as isize)));
                    }
                }
                // a saturated grid could never have reached this write
                if saturated(&g0) {
                    assert(g1.cell_at(xi, yi) == g0.cell_at(xi, yi));
                    assert(g1.cell_at(sx, sy) == g0.cell_at(sx, sy));
                    assert(g0.cell_at(sx, sy) is Occupied);
                    assert(has_occupied_neighbor(&g0, xi, yi)) by {
                        assert(orthogonal(sx - xi, sy - yi) && g0.cell_at(sx, sy) is Occupied);
                    }
                    assert(false);
                }
            }
        }
    }
}

/// Advance the simulation one tick: sample TICK_SAMPLES uniformly random
/// positions; for each sampled position holding an organism, read its color
/// once and attempt to spread a mutated copy into each of its four orthogonal
/// neighbors in the fixed order left, right, up, down, filling only Empty
/// ones. Growth never overwrites or removes an organism; every position whose
/// cell changed is reported exactly for repaint, and each reported position
/// underwent a real Empty-to-Occupied transition. A saturated grid comes back
/// unchanged with an empty report, and the organism count never decreases.
pub fn tick(grid: &mut Grid, rng: &mut rand::rngs::StdRng) -> (changed: Vec<(isize, isize)>)
    requires
        old(grid).wf(),
        1 <= old(grid).spec_width(),
        1 <= old(grid).spec_height(),
        old(grid).spec_width() <= isize::MAX,
        old(grid).spec_height() <= isize::MAX,
    ensures
        final(grid).wf(),
        tick_rel(old(grid), final(grid), changed@),
        old(grid).occupied_count() <= final(grid).occupied_count(),
{
    let ghost g0 = *grid;
    let w: usize = grid.width();
    let h: usize = grid.height();
    let mut changed: Vec<(isize, isize)> = Vec::new();
    let mut k: usize = 0;
    while k < TICK_SAMPLES
        invariant
            k <= TICK_SAMPLES,
            grid.wf(),
            w as int == g0.spec_width(),
            h as int == g0.spec_height(),
            1 <= w,
            1 <= h,
            w <= isize::MAX,
            h <= isize::MAX,
            tick_rel(&g0, grid, changed@),
        decreases TICK_SAMPLES - k,
    {
        let sx: isize = gen_range_usize(rng, 0, w) as isize;
        let sy: isize = gen_range_usize(rng, 0, h) as isize;
        match grid.at(sx, sy) {
            Cell::Occupied(parent) => {
                let ghost sxi = sx as int;
                let ghost syi = sy as int;
                spread_into(grid, &mut changed, rng, sx - 1, sy, parent, Ghost(g0), Ghost(sxi), Ghost(syi));
                spread_into(grid, &mut changed, rng, sx + 1, sy, parent, Ghost(g0), Ghost(sxi), Ghost(syi));
                spread_into(grid, &mut changed, rng, sx, sy - 1, parent, Ghost(g0), Ghost(sxi), Ghost(syi));
                spread_into(grid, &mut changed, rng, sx, sy + 1, parent, Ghost(g0), Ghost(sxi), Ghost(syi));
            },
            Cell::Empty => {},
        }
        k = k + 1;
    }
    proof {
        lemma_occupied_count_monotone(&g0, grid);
    }
    changed
}

} // verus!
