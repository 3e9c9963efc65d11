//! Regions of the world, districts, and the plots laid out in them.

use vstd::prelude::*;

verus! {

/// The edge length of the square world, in world units of one metre.
pub const WORLD_SIZE: i32 = 25600;

/// A half-open rectangle of the world: `[x0, x1) x [y0, y1)`.
#[derive(Debug, Clone, Copy, PartialEq, Eq)]
pub struct Rect {
    pub x0: i32,
    pub y0: i32,
    pub x1: i32,
    pub y1: i32,
}

/// Whether a rectangle holds a point.
pub open spec fn holds(r: Rect, x: int, y: int) -> bool {
    r.x0 <= x < r.x1 && r.y0 <= y < r.y1
}

/// Half of a number, towards zero.
pub open spec fn half(n: int) -> int {
    if n >= 0 {
        n / 2
    } else {
        -((-n) / 2)
    }
}

pub open spec fn centre_of(r: Rect) -> (int, int) {
    (half(r.x0 + r.x1), half(r.y0 + r.y1))
}

pub open spec fn area_of(r: Rect) -> int {
    (r.x1 - r.x0) * (r.y1 - r.y0)
}

pub open spec fn shares_area(a: Rect, b: Rect) -> bool {
    a.x0 < b.x1 && b.x0 < a.x1 && a.y0 < b.y1 && b.y0 < a.y1
}

pub open spec fn fits_i32(n: int) -> bool {
    i32::MIN <= n <= i32::MAX
}

impl Rect {
    pub fn new(x0: i32, y0: i32, x1: i32, y1: i32) -> (r: Rect)
        ensures
            r == (Rect { x0, y0, x1, y1 }),
    {
        Rect { x0, y0, x1, y1 }
    }

    pub fn contains(&self, x: i32, y: i32) -> (yes: bool)
        ensures
            yes == holds(*self, x as int, y as int),
    {
        x >= self.x0 && x < self.x1 && y >= self.y0 && y < self.y1
    }

    pub fn centre(&self) -> (c: (i32, i32))
        requires
            fits_i32(self.x0 + self.x1),
            fits_i32(self.y0 + self.y1),
        ensures
            (c.0 as int, c.1 as int) == centre_of(*self),
    {
        (half_of(self.x0 + self.x1), half_of(self.y0 + self.y1))
    }

    pub fn area(&self) -> (a: i64)
        requires
            fits_i32(self.x1 - self.x0),
            fits_i32(self.y1 - self.y0),
        ensures
            a == area_of(*self),
    {
        let w: i64 = (self.x1 - self.x0) as i64;
        let h: i64 = (self.y1 - self.y0) as i64;
        assert(-0x4000_0000_0000_0000 <= w * h <= 0x4000_0000_0000_0000) by (nonlinear_arith)
            requires
                -0x8000_0000 <= w <= 0x8000_0000,
                -0x8000_0000 <= h <= 0x8000_0000,
        ;
        w * h
    }

    /// Whether two rectangles share any area. A common edge is none.
    pub fn overlaps(&self, other: Rect) -> (yes: bool)
        ensures
            yes == shares_area(*self, other),
    {
        self.x0 < other.x1 && other.x0 < self.x1 && self.y0 < other.y1 && other.y0 < self.y1
    }
}

fn half_of(n: i32) -> (h: i32)
    ensures
        h == half(n as int),
{
    let wide: i64 = n as i64;
    if wide >= 0 {
        (wide / 2) as i32
    } else {
        -((-wide) / 2) as i32
    }
}

/// Whether a district is a safe hub or open wilds.
#[derive(Debug, Clone, Copy, PartialEq, Eq)]
pub enum Safety {
    Safe,
    Wilds,
}

/// How a district's plots are laid out. Where a plot stands follows from this, so that what is stored, its grid
/// indices, and what is drawn, its place, come from one source.
#[derive(Debug, Clone, Copy, PartialEq, Eq)]
pub struct PlotGrid {
    pub cols: i32,
    pub rows: i32,
    /// How far the grid stands off from the district's corner.
    pub margin: i32,
    pub plot_w: i32,
    pub plot_h: i32,
    /// The space between neighbouring plots.
    pub gap: i32,
    pub tier: i64,
}

/// One plot: its grid indices, and the corner it stands at in the world.
#[derive(Debug, Clone, Copy, PartialEq, Eq)]
pub struct PlotCell {
    pub grid_x: i32,
    pub grid_y: i32,
    pub x: i32,
    pub y: i32,
    pub w: i32,
    pub h: i32,
    pub tier: i64,
}

/// The view of a [`PlotCell`].
pub struct PlotCellView {
    pub grid_x: int,
    pub grid_y: int,
    pub x: int,
    pub y: int,
    pub w: int,
    pub h: int,
    pub tier: int,
}

impl View for PlotCell {
    type V = PlotCellView;

    open spec fn view(&self) -> PlotCellView {
        PlotCellView {
            grid_x: self.grid_x as int,
            grid_y: self.grid_y as int,
            x: self.x as int,
            y: self.y as int,
            w: self.w as int,
            h: self.h as int,
            tier: self.tier as int,
        }
    }
}

impl PlotCell {
    /// The ground that the plot covers.
    pub fn rect(&self) -> (r: Rect)
        requires
            fits_i32(self.x + self.w),
            fits_i32(self.y + self.h),
        ensures
            r.x0 == self.x,
            r.y0 == self.y,
            r.x1 == self.x + self.w,
            r.y1 == self.y + self.h,
    {
        Rect::new(self.x, self.y, self.x + self.w, self.y + self.h)
    }
}

/// A named region of the world, with or without a grid of plots.
#[derive(Debug, Clone)]
pub struct District {
    pub id: &'static str,
    pub name: &'static str,
    pub region: Rect,
    pub safety: Safety,
    pub plot_grid: Option<PlotGrid>,
}

/// The view of a [`District`].
pub struct DistrictView {
    pub id: Seq<char>,
    pub name: Seq<char>,
    pub region: Rect,
    pub safety: Safety,
    pub plot_grid: Option<PlotGrid>,
}

impl View for District {
    type V = DistrictView;

    open spec fn view(&self) -> DistrictView {
        DistrictView {
            id: self.id@,
            name: self.name@,
            region: self.region,
            safety: self.safety,
            plot_grid: self.plot_grid,
        }
    }
}

/// The plot in a column and a row of a grid.
pub open spec fn grid_cell(r: Rect, g: PlotGrid, gx: int, gy: int) -> PlotCellView {
    PlotCellView {
        grid_x: gx,
        grid_y: gy,
        x: r.x0 + g.margin + gx * (g.plot_w + g.gap),
        y: r.y0 + g.margin + gy * (g.plot_h + g.gap),
        w: g.plot_w as int,
        h: g.plot_h as int,
        tier: g.tier as int,
    }
}

pub open spec fn at_least_zero(n: int) -> nat {
    if n >= 0 {
        n as nat
    } else {
        0
    }
}

/// One row of a grid.
pub open spec fn grid_row(r: Rect, g: PlotGrid, gy: int) -> Seq<PlotCellView> {
    Seq::new(at_least_zero(g.cols as int), |gx: int| grid_cell(r, g, gx, gy))
}

/// The first rows of a grid.
pub open spec fn grid_rows(r: Rect, g: PlotGrid, n: int) -> Seq<PlotCellView>
    decreases n,
{
    if n <= 0 {
        Seq::empty()
    } else {
        grid_rows(r, g, n - 1) + grid_row(r, g, n - 1)
    }
}

/// The plots of a district, row by row.
pub open spec fn plots_of(d: DistrictView) -> Seq<PlotCellView> {
    match d.plot_grid {
        Some(g) => grid_rows(d.region, g, g.rows as int),
        None => Seq::empty(),
    }
}

/// Every plot of a grid stands where a number can say.
pub open spec fn grid_fits(r: Rect, g: PlotGrid) -> bool {
    &&& fits_i32(r.x0 + g.margin)
    &&& fits_i32(r.y0 + g.margin)
    &&& fits_i32(g.plot_w + g.gap)
    &&& fits_i32(g.plot_h + g.gap)
    &&& forall|gx: int|
        0 <= gx < g.cols ==> fits_i32(#[trigger] (gx * (g.plot_w + g.gap))) && fits_i32(
            r.x0 + g.margin + gx * (g.plot_w + g.gap),
        )
    &&& forall|gy: int|
        0 <= gy < g.rows ==> fits_i32(#[trigger] (gy * (g.plot_h + g.gap))) && fits_i32(
            r.y0 + g.margin + gy * (g.plot_h + g.gap),
        )
}

/// The views of a list of plots.
pub open spec fn cells_view(cells: Seq<PlotCell>) -> Seq<PlotCellView> {
    Seq::new(cells.len(), |i: int| cells[i]@)
}

/// The plots of a district can be laid out.
pub open spec fn plots_fit(d: DistrictView) -> bool {
    d.plot_grid matches Some(g) ==> grid_fits(d.region, g)
}

impl District {
    /// The plots of this district, row by row; none where it has no grid.
    pub fn plots(&self) -> (cells: Vec<PlotCell>)
        requires
            plots_fit(self@),
        ensures
            cells_view(cells@) == plots_of(self@),
    {
        let mut cells: Vec<PlotCell> = Vec::new();
        let g = match self.plot_grid {
            Some(g) => g,
            None => {
                assert(cells_view(cells@) =~= plots_of(self@));
                return cells;
            },
        };
        let r = self.region;
        let mut gy: i32 = 0;
        assert(cells_view(cells@) =~= grid_rows(r, g, 0));
        while gy < g.rows
            invariant
                0 <= gy,
                gy <= g.rows || gy == 0,
                r == self.region,
                grid_fits(r, g),
                cells_view(cells@) == grid_rows(r, g, gy as int),
            decreases g.rows - gy,
        {
            let ghost above = grid_rows(r, g, gy as int);
            let ghost row = grid_row(r, g, gy as int);
            let mut gx: i32 = 0;
            assert(above + row.take(0) =~= above);
            while gx < g.cols
                invariant
                    0 <= gx,
                    gx <= g.cols || gx == 0,
                    0 <= gy < g.rows,
                    r == self.region,
                    grid_fits(r, g),
                    row == grid_row(r, g, gy as int),
                    cells_view(cells@) == above + row.take(gx as int),
                decreases g.cols - gx,
            {
                let ghost was = cells@;
                proof {
                    assert(fits_i32(gx * (g.plot_w + g.gap)));
                    assert(fits_i32(gy * (g.plot_h + g.gap)));
                }
                cells.push(
                    PlotCell {
                        grid_x: gx,
                        grid_y: gy,
                        x: r.x0 + g.margin + gx * (g.plot_w + g.gap),
                        y: r.y0 + g.margin + gy * (g.plot_h + g.gap),
                        w: g.plot_w,
                        h: g.plot_h,
                        tier: g.tier,
                    },
                );
                assert(cells@[cells@.len() - 1]@ == row[gx as int]);
                assert(cells_view(cells@) =~= cells_view(was).push(row[gx as int]));
                assert(above + row.take(gx + 1) =~= (above + row.take(gx as int)).push(row[gx as int]));
                gx = gx + 1;
            }
            assert(row.take(gx as int) =~= row);
            gy = gy + 1;
        }
        assert(cells_view(cells@) == plots_of(self@)) by {
            if g.rows < 0 {
                assert(grid_rows(r, g, 0) =~= grid_rows(r, g, g.rows as int));
            }
        }
        cells
    }
}

/// Which rows and columns a grid's plots stand in: each once, row by row.
pub proof fn lemma_grid_rows(r: Rect, g: PlotGrid, n: int, i: int)
    requires
        0 <= i < grid_rows(r, g, n).len(),
    ensures
        ({
            let c = grid_rows(r, g, n)[i];
            &&& g.cols > 0
            &&& 0 <= c.grid_x < g.cols
            &&& 0 <= c.grid_y < n
            &&& c == grid_cell(r, g, c.grid_x, c.grid_y)
            &&& i == c.grid_y * g.cols + c.grid_x
        }),
    decreases n,
{
    lemma_grid_len(r, g, n - 1);
    let above = grid_rows(r, g, n - 1);
    if i < above.len() {
        lemma_grid_rows(r, g, n - 1, i);
    }
}

pub proof fn lemma_grid_len(r: Rect, g: PlotGrid, n: int)
    ensures
        n >= 0 && g.cols >= 0 ==> grid_rows(r, g, n).len() == n * g.cols,
        n < 0 || g.cols < 0 ==> grid_rows(r, g, n).len() == 0,
    decreases n,
{
    if n > 0 {
        lemma_grid_len(r, g, n - 1);
        assert(n * g.cols == (n - 1) * g.cols + g.cols) by (nonlinear_arith);
    } else {
        assert(0 * g.cols == 0) by (nonlinear_arith);
    }
}

/// A grid has a plot for each column of each row, and no two plots of it share any ground.
pub proof fn law_plots_do_not_overlap(r: Rect, g: PlotGrid, i: int, j: int)
    requires
        g.cols > 0,
        g.rows > 0,
        g.gap >= 0,
        g.plot_w > 0,
        g.plot_h > 0,
        0 <= i < j < grid_rows(r, g, g.rows as int).len(),
    ensures
        grid_rows(r, g, g.rows as int).len() == g.rows * g.cols,
        ({
            let a = grid_rows(r, g, g.rows as int)[i];
            let b = grid_rows(r, g, g.rows as int)[j];
            &&& (a.grid_x, a.grid_y) != (b.grid_x, b.grid_y)
            &&& a.x + a.w <= b.x || b.x + b.w <= a.x || a.y + a.h <= b.y || b.y + b.h <= a.y
        }),
{
    lemma_grid_len(r, g, g.rows as int);
    lemma_grid_rows(r, g, g.rows as int, i);
    lemma_grid_rows(r, g, g.rows as int, j);
    let a = grid_rows(r, g, g.rows as int)[i];
    let b = grid_rows(r, g, g.rows as int)[j];
    let dx = g.plot_w + g.gap;
    let dy = g.plot_h + g.gap;
    if a.grid_y != b.grid_y {
        lemma_apart(a.grid_y, b.grid_y, dy, g.plot_h as int);
    } else {
        lemma_apart(a.grid_x, b.grid_x, dx, g.plot_w as int);
    }
}

proof fn lemma_apart(a: int, b: int, step: int, size: int)
    requires
        a != b,
        0 < size <= step,
    ensures
        a * step + size <= b * step || b * step + size <= a * step,
{
    if a < b {
        assert(a * step + step <= b * step) by (nonlinear_arith)
            requires
                a + 1 <= b,
                step > 0,
        ;
    } else {
        assert(b * step + step <= a * step) by (nonlinear_arith)
            requires
                b + 1 <= a,
                step > 0,
        ;
    }
}

/// A grid that is not too large for its district keeps every plot inside it.
pub proof fn law_plots_stay_inside(r: Rect, g: PlotGrid, i: int)
    requires
        g.gap >= 0,
        g.margin >= 0,
        g.plot_w > 0,
        g.plot_h > 0,
        g.cols > 0,
        g.rows > 0,
        r.x0 + g.margin + g.cols * (g.plot_w + g.gap) <= r.x1,
        r.y0 + g.margin + g.rows * (g.plot_h + g.gap) <= r.y1,
        0 <= i < grid_rows(r, g, g.rows as int).len(),
    ensures
        ({
            let c = grid_rows(r, g, g.rows as int)[i];
            holds(r, c.x, c.y) && holds(r, c.x + c.w - 1, c.y + c.h - 1)
        }),
{
    lemma_grid_rows(r, g, g.rows as int, i);
    let c = grid_rows(r, g, g.rows as int)[i];
    let dx = g.plot_w + g.gap;
    let dy = g.plot_h + g.gap;
    assert(0 <= c.grid_x * dx && c.grid_x * dx + dx <= g.cols * dx) by (nonlinear_arith)
        requires
            0 <= c.grid_x,
            c.grid_x + 1 <= g.cols,
            dx > 0,
    ;
    assert(0 <= c.grid_y * dy && c.grid_y * dy + dy <= g.rows * dy) by (nonlinear_arith)
        requires
            0 <= c.grid_y,
            c.grid_y + 1 <= g.rows,
            dy > 0,
    ;
}

/// Cutting a region in two, down or across, parts its points cleanly: none is in both halves, and none is in
/// neither.
pub proof fn law_a_split_partitions(r: Rect, at: i32, x: int, y: int)
    ensures
        ({
            let left = Rect { x1: at, ..r };
            let right = Rect { x0: at, ..r };
            r.x0 <= at <= r.x1 ==> (holds(r, x, y) <==> holds(left, x, y) || holds(right, x, y)) && !(holds(
                left,
                x,
                y,
            ) && holds(right, x, y))
        }),
        ({
            let above = Rect { y1: at, ..r };
            let below = Rect { y0: at, ..r };
            r.y0 <= at <= r.y1 ==> (holds(r, x, y) <==> holds(above, x, y) || holds(below, x, y)) && !(holds(
                above,
                x,
                y,
            ) && holds(below, x, y))
        }),
{
}

/// Two rectangles share area exactly if some point is in both.
pub proof fn law_overlap_is_a_common_point(a: Rect, b: Rect)
    requires
        a.x0 < a.x1,
        a.y0 < a.y1,
        b.x0 < b.x1,
        b.y0 < b.y1,
    ensures
        shares_area(a, b) <==> exists|x: int, y: int| holds(a, x, y) && #[trigger] holds(b, x, y),
{
    if shares_area(a, b) {
        let x = if a.x0 >= b.x0 {
            a.x0 as int
        } else {
            b.x0 as int
        };
        let y = if a.y0 >= b.y0 {
            a.y0 as int
        } else {
            b.y0 as int
        };
        assert(holds(a, x, y) && holds(b, x, y));
    }
}

} // verus!
