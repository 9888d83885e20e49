//! Border lines, the resolutions they come in, and the grid that finds them.

use vstd::arithmetic::div_mod::*;
use vstd::arithmetic::power2::*;
use vstd::prelude::*;

use crate::double::{bound, Double};
use crate::geo::{Bounds, WorldPoint};

verus! {

#[derive(Debug, Clone, Copy, PartialEq, Eq, Structural)]
pub enum BorderLineKind {
    Country,
    Region,
    Road,
}

/// A polyline in world coordinates with the box around its points.
#[derive(Debug)]
pub struct BorderLine {
    pub kind: BorderLineKind,
    pub points: Vec<WorldPoint>,
    pub bbox: Bounds,
}

/// The largest finite double.
pub const LARGEST_BITS: u64 = 0x7fef_ffff_ffff_ffff;

/// The smallest finite double.
pub const SMALLEST_BITS: u64 = 0xffef_ffff_ffff_ffff;

/// The least of some coordinates, the first of equals; at most the largest
/// finite double.
pub open spec fn least(cs: Seq<Double>) -> Double
    decreases cs.len(),
{
    if cs.len() == 0 {
        Double { bits: LARGEST_BITS }
    } else if cs.last().below(least(cs.drop_last())) {
        cs.last()
    } else {
        least(cs.drop_last())
    }
}

/// The greatest of some coordinates, the first of equals; at least the
/// smallest finite double.
pub open spec fn greatest(cs: Seq<Double>) -> Double
    decreases cs.len(),
{
    if cs.len() == 0 {
        Double { bits: SMALLEST_BITS }
    } else if greatest(cs.drop_last()).below(cs.last()) {
        cs.last()
    } else {
        greatest(cs.drop_last())
    }
}

pub open spec fn xs(points: Seq<WorldPoint>) -> Seq<Double> {
    points.map_values(|p: WorldPoint| p.x)
}

pub open spec fn ys(points: Seq<WorldPoint>) -> Seq<Double> {
    points.map_values(|p: WorldPoint| p.y)
}

/// The least width and height of a line's box: 1e-12 of the map's.
pub const MIN_BBOX_SPAN_BITS: u64 = 0x3d71_9799_812d_ea11;

impl BorderLine {
    /// Whether a box of this width and height is none: it has collapsed, or was
    /// never worked out.
    pub fn is_bbox_degenerate(width: Double, height: Double) -> (r: bool)
        ensures
            r == (width.below(Double { bits: MIN_BBOX_SPAN_BITS }) || height.below(
                Double { bits: MIN_BBOX_SPAN_BITS },
            )),
    {
        let least = Double::from_bits(MIN_BBOX_SPAN_BITS);
        width.lt(least) || height.lt(least)
    }

    /// The smallest box around the line's points.
    pub fn extent(&self) -> (b: Bounds)
        ensures
            b.min_x == least(xs(self.points@)),
            b.max_x == greatest(xs(self.points@)),
            b.min_y == least(ys(self.points@)),
            b.max_y == greatest(ys(self.points@)),
    {
        let mut min_x = Double::from_bits(LARGEST_BITS);
        let mut max_x = Double::from_bits(SMALLEST_BITS);
        let mut min_y = min_x;
        let mut max_y = max_x;
        let mut i: usize = 0;
        assert(xs(self.points@).take(0) =~= Seq::empty());
        assert(ys(self.points@).take(0) =~= Seq::empty());
        while i < self.points.len()
            invariant
                i <= self.points.len(),
                min_x == least(xs(self.points@).take(i as int)),
                max_x == greatest(xs(self.points@).take(i as int)),
                min_y == least(ys(self.points@).take(i as int)),
                max_y == greatest(ys(self.points@).take(i as int)),
            decreases self.points.len() - i,
        {
            let p = self.points[i];
            proof {
                let (x, y) = (xs(self.points@), ys(self.points@));
                assert(x.take(i + 1).drop_last() =~= x.take(i as int));
                assert(y.take(i + 1).drop_last() =~= y.take(i as int));
            }
            if p.x.lt(min_x) {
                min_x = p.x;
            }
            if max_x.lt(p.x) {
                max_x = p.x;
            }
            if p.y.lt(min_y) {
                min_y = p.y;
            }
            if max_y.lt(p.y) {
                max_y = p.y;
            }
            i = i + 1;
        }
        assert(xs(self.points@).take(i as int) =~= xs(self.points@));
        assert(ys(self.points@).take(i as int) =~= ys(self.points@));
        Bounds { min_x, max_x, min_y, max_y }
    }

    /// Set `bbox` to the extent of the points, stretched to reach at least
    /// `least_max_x` and `least_max_y` so that it is never without area.
    pub fn compute_bbox(&mut self, least_max_x: Double, least_max_y: Double)
        ensures
            final(self).kind == old(self).kind,
            final(self).points == old(self).points,
            final(self).bbox.min_x == least(xs(old(self).points@)),
            final(self).bbox.max_x == greatest(xs(old(self).points@)).or_larger(least_max_x),
            final(self).bbox.min_y == least(ys(old(self).points@)),
            final(self).bbox.max_y == greatest(ys(old(self).points@)).or_larger(least_max_y),
    {
        let b = self.extent();
        self.bbox = Bounds {
            min_x: b.min_x,
            max_x: b.max_x.max(least_max_x),
            min_y: b.min_y,
            max_y: b.max_y.max(least_max_y),
        };
    }
}

/// The box around a line touches its points: its edges are coordinates of them,
/// where these are ordinary numbers.
pub proof fn extent_touches_its_points(cs: Seq<Double>)
    requires
        cs.len() > 0,
        forall|i: int|
            0 <= i < cs.len() ==> (#[trigger] cs[i]).below((Double { bits: LARGEST_BITS }))
                && (Double { bits: SMALLEST_BITS }).below(cs[i]),
    ensures
        cs.contains(least(cs)),
        cs.contains(greatest(cs)),
    decreases cs.len(),
{
    let early = cs.drop_last();
    assert(cs[cs.len() - 1] == cs.last());
    if early.len() > 0 {
        assert forall|i: int| 0 <= i < early.len() implies (#[trigger] early[i]).below(
            (Double { bits: LARGEST_BITS }),
        ) && (Double { bits: SMALLEST_BITS }).below(early[i]) by {
            assert(early[i] == cs[i]);
        }
        extent_touches_its_points(early);
        let i = choose|i: int| 0 <= i < early.len() && early[i] == least(early);
        let j = choose|j: int| 0 <= j < early.len() && early[j] == greatest(early);
        assert(cs[i] == least(early));
        assert(cs[j] == greatest(early));
    } else {
        reveal_with_fuel(least, 2);
        reveal_with_fuel(greatest, 2);
    }
}

/// Widths are taken of the `x` of points and heights of their `y`.
pub proof fn coordinates_keep_apart(points: Seq<WorldPoint>, i: int)
    requires
        0 <= i < points.len(),
    ensures
        xs(points).len() == points.len(),
        ys(points).len() == points.len(),
        xs(points)[i] == points[i].x,
        ys(points)[i] == points[i].y,
{
}

/// The box around a line has all its points inside.
pub proof fn extent_encloses_every_coordinate(cs: Seq<Double>, i: int)
    requires
        0 <= i < cs.len(),
        !cs[i].nan(),
    ensures
        least(cs).at_most(cs[i]),
        cs[i].at_most(greatest(cs)),
    decreases cs.len(),
{
    lemma_extremes_are_numbers(cs.drop_last());
    if i < cs.len() - 1 {
        extent_encloses_every_coordinate(cs.drop_last(), i);
        assert(cs.drop_last()[i] == cs[i]);
    }
}

proof fn lemma_extremes_are_numbers(cs: Seq<Double>)
    ensures
        !least(cs).nan(),
        !greatest(cs).nan(),
    decreases cs.len(),
{
    if cs.len() > 0 {
        lemma_extremes_are_numbers(cs.drop_last());
    }
}

#[derive(Debug, Clone, Copy, PartialEq, Eq, Hash, Structural)]
pub enum BorderResolution {
    Low110m,
    Medium50m,
    High10m,
    Regional10m,
}

/// From zoom 7 on regional detail is drawn.
pub const REGIONAL_ZOOM_BITS: u64 = 0x401c_0000_0000_0000;

/// From zoom 4.5 on the finest country outlines are drawn.
pub const HIGH_ZOOM_BITS: u64 = 0x4012_0000_0000_0000;

/// From zoom 3.5 on the medium country outlines are drawn.
pub const MEDIUM_ZOOM_BITS: u64 = 0x400c_0000_0000_0000;

impl BorderResolution {
    /// The zoom of the tiles that borders of this resolution are cached in.
    pub fn tile_zoom(self) -> (z: u8)
        ensures
            z == match self {
                BorderResolution::Low110m => 4u8,
                BorderResolution::Medium50m => 5u8,
                BorderResolution::High10m => 6u8,
                BorderResolution::Regional10m => 7u8,
            },
    {
        match self {
            BorderResolution::Low110m => 4,
            BorderResolution::Medium50m => 5,
            BorderResolution::High10m => 6,
            BorderResolution::Regional10m => 7,
        }
    }

    pub open spec fn of_zoom(zoom: Double) -> BorderResolution {
        if (Double { bits: REGIONAL_ZOOM_BITS }).at_most(zoom) {
            BorderResolution::Regional10m
        } else if (Double { bits: HIGH_ZOOM_BITS }).at_most(zoom) {
            BorderResolution::High10m
        } else if (Double { bits: MEDIUM_ZOOM_BITS }).at_most(zoom) {
            BorderResolution::Medium50m
        } else {
            BorderResolution::Low110m
        }
    }

    pub fn for_zoom(zoom: Double) -> (r: BorderResolution)
        ensures
            r == BorderResolution::of_zoom(zoom),
    {
        if Double::from_bits(REGIONAL_ZOOM_BITS).le(zoom) {
            BorderResolution::Regional10m
        } else if Double::from_bits(HIGH_ZOOM_BITS).le(zoom) {
            BorderResolution::High10m
        } else if Double::from_bits(MEDIUM_ZOOM_BITS).le(zoom) {
            BorderResolution::Medium50m
        } else {
            BorderResolution::Low110m
        }
    }

    pub open spec fn name(self) -> Seq<char> {
        match self {
            BorderResolution::Low110m => "110m"@,
            BorderResolution::Medium50m => "50m"@,
            BorderResolution::High10m => "10m"@,
            BorderResolution::Regional10m => "10m+"@,
        }
    }

    pub fn label(self) -> (s: &'static str)
        ensures
            s@ == self.name(),
    {
        match self {
            BorderResolution::Low110m => "110m",
            BorderResolution::Medium50m => "50m",
            BorderResolution::High10m => "10m",
            BorderResolution::Regional10m => "10m+",
        }
    }

    pub open spec fn scale_name(self) -> Seq<char> {
        match self {
            BorderResolution::Low110m => "110m"@,
            BorderResolution::Medium50m => "50m"@,
            BorderResolution::High10m => "10m"@,
            BorderResolution::Regional10m => "10m"@,
        }
    }

    /// The scale of the country outlines to download.
    pub fn country_scale(self) -> (s: &'static str)
        ensures
            s@ == self.scale_name(),
    {
        match self {
            BorderResolution::Low110m => "110m",
            BorderResolution::Medium50m => "50m",
            BorderResolution::High10m => "10m",
            BorderResolution::Regional10m => "10m",
        }
    }

    /// Whether regions and roads are drawn at this resolution.
    pub fn includes_regions(self) -> (r: bool)
        ensures
            r == (self == BorderResolution::High10m || self == BorderResolution::Regional10m),
    {
        match self {
            BorderResolution::High10m => true,
            BorderResolution::Regional10m => true,
            _ => false,
        }
    }

    /// A zoom, in tenths, that stands for the resolution's band.
    pub open spec fn typical_zoom(self) -> int {
        match self {
            BorderResolution::Low110m => 30,
            BorderResolution::Medium50m => 45,
            BorderResolution::High10m => 60,
            BorderResolution::Regional10m => 80,
        }
    }

    fn typical(self) -> (z: u32)
        ensures
            z == self.typical_zoom(),
    {
        match self {
            BorderResolution::Low110m => 30,
            BorderResolution::Medium50m => 45,
            BorderResolution::High10m => 60,
            BorderResolution::Regional10m => 80,
        }
    }
}

pub open spec fn apart(a: int, b: int) -> int {
    if a >= b {
        a - b
    } else {
        b - a
    }
}

/// How far two resolutions lie apart, in tenths of a zoom level.
pub fn resolution_distance(a: BorderResolution, b: BorderResolution) -> (d: u32)
    ensures
        d == apart(a.typical_zoom(), b.typical_zoom()),
{
    let (p, q): (u32, u32) = (a.typical(), b.typical());
    if p >= q {
        p - q
    } else {
        q - p
    }
}

/// A closer view never has coarser borders.
pub proof fn closer_views_have_finer_borders(a: Double, b: Double)
    requires
        a.at_most(b),
    ensures
        BorderResolution::of_zoom(a).typical_zoom() <= BorderResolution::of_zoom(b).typical_zoom(),
{
}

/// Resolutions are at no distance from themselves alone.
pub proof fn distinct_resolutions_lie_apart(a: BorderResolution, b: BorderResolution)
    ensures
        apart(a.typical_zoom(), b.typical_zoom()) == 0 <==> a == b,
        apart(a.typical_zoom(), b.typical_zoom()) == apart(b.typical_zoom(), a.typical_zoom()),
{
}

/// The lines of one resolution and the grid over them, once it is built.
#[derive(Debug)]
pub struct BorderLayer {
    pub resolution: BorderResolution,
    pub lines: Vec<BorderLine>,
    pub grid: Option<SpatialGrid>,
}

/// The grid cuts the world into 16 by 16 cells.
pub const CELLS: u32 = 16;

pub const TOTAL_CELLS: usize = 256;

/// The first cell, along one axis, that a box from `c` on reaches.
pub open spec fn cell_from(c: Double) -> int {
    if c.nan() {
        0
    } else {
        bound(c.floor_at(4), 0, 16)
    }
}

/// One past the last cell, along one axis, that a box up to `c` reaches.
pub open spec fn cell_to(c: Double) -> int {
    if c.nan() {
        0
    } else {
        bound(c.ceil_at(4), 0, 16)
    }
}

/// Whether a box reaches cell `k` of the grid, counted row by row.
pub open spec fn meets_cell(b: Bounds, k: int) -> bool {
    &&& cell_from(b.min_x) <= k % 16 < cell_to(b.max_x)
    &&& cell_from(b.min_y) <= k / 16 < cell_to(b.max_y)
}

/// The indices of the first `n` lines that reach cell `k`, in order.
pub open spec fn lines_in_cell(lines: Seq<BorderLine>, k: int, n: nat) -> Seq<u32>
    decreases n,
{
    if n == 0 {
        Seq::empty()
    } else {
        let before = lines_in_cell(lines, k, (n - 1) as nat);
        if meets_cell(lines[n - 1].bbox, k) {
            before.push((n - 1) as u32)
        } else {
            before
        }
    }
}

/// The number of entries of the cells before cell `k`.
pub open spec fn entries_before(lines: Seq<BorderLine>, k: nat) -> nat
    decreases k,
{
    if k == 0 {
        0
    } else {
        entries_before(lines, (k - 1) as nat) + lines_in_cell(lines, k - 1, lines.len()).len()
    }
}

/// Fixed-size spatial grid for fast viewport-to-line lookup.
#[derive(Debug)]
pub struct SpatialGrid {
    /// Number of cells per axis.
    pub cells: u32,
    /// The line indices of all cells, one cell after the other.
    pub line_ids: Vec<u32>,
    /// Cell `i` holds `line_ids[offsets[i]..offsets[i + 1]]`.
    pub offsets: Vec<u32>,
}

impl SpatialGrid {
    /// The offsets cut the entries into the grid's cells.
    pub open spec fn well_formed(self) -> bool {
        &&& self.cells == CELLS
        &&& self.offsets.len() == TOTAL_CELLS + 1
        &&& self.offsets[0] == 0
        &&& self.offsets[TOTAL_CELLS as int] == self.line_ids.len()
        &&& forall|i: int, j: int|
            0 <= i <= j <= TOTAL_CELLS ==> self.offsets[i] <= self.offsets[j]
    }

    /// The line indices of cell `k`.
    pub open spec fn cell(self, k: int) -> Seq<u32> {
        self.line_ids@.subrange(self.offsets[k] as int, self.offsets[k + 1] as int)
    }

    /// Index the lines by the cells that their boxes reach.
    pub fn build(lines: &[BorderLine]) -> (grid: SpatialGrid)
        requires
            lines.len() <= u32::MAX,
            entries_before(lines@, TOTAL_CELLS as nat) <= u32::MAX,
        ensures
            grid.well_formed(),
            forall|k: int|
                0 <= k < TOTAL_CELLS ==> #[trigger] grid.cell(k) == lines_in_cell(
                    lines@,
                    k,
                    lines@.len(),
                ),
    {
        let n: usize = lines.len();
        let mut counts: Vec<u32> = vec![0u32; TOTAL_CELLS];
        let mut i: usize = 0;
        while i < n
            invariant
                n == lines.len(),
                n <= u32::MAX,
                i <= n,
                counts.len() == TOTAL_CELLS,
                forall|k: int|
                    0 <= k < TOTAL_CELLS ==> #[trigger] counts[k] == lines_in_cell(
                        lines@,
                        k,
                        i as nat,
                    ).len(),
            decreases n - i,
        {
            assert forall|k: int| 0 <= k < TOTAL_CELLS implies #[trigger] counts[k] < u32::MAX by {
                lemma_cell_len(lines@, k, i as nat);
            }
            count_line(&mut counts, lines[i].bbox);
            i = i + 1;
        }

        let mut offsets: Vec<u32> = vec![0u32; TOTAL_CELLS + 1];
        let mut c: usize = 0;
        while c < TOTAL_CELLS
            invariant
                c <= TOTAL_CELLS,
                counts.len() == TOTAL_CELLS,
                offsets.len() == TOTAL_CELLS + 1,
                entries_before(lines@, TOTAL_CELLS as nat) <= u32::MAX,
                forall|k: int|
                    0 <= k < TOTAL_CELLS ==> #[trigger] counts[k] == lines_in_cell(
                        lines@,
                        k,
                        lines@.len(),
                    ).len(),
                forall|k: int|
                    0 <= k <= c ==> #[trigger] offsets[k] == entries_before(lines@, k as nat),
            decreases TOTAL_CELLS - c,
        {
            proof {
                lemma_entries_grow(lines@, (c + 1) as nat, TOTAL_CELLS as nat);
                assert(counts[c as int] == lines_in_cell(lines@, c as int, lines@.len()).len());
            }
            offsets[c + 1] = offsets[c] + counts[c];
            c = c + 1;
        }
        assert forall|a: int, b: int| 0 <= a <= b <= TOTAL_CELLS implies #[trigger] offsets[a]
            <= #[trigger] offsets[b] by {
            lemma_entries_grow(lines@, a as nat, b as nat);
        }

        let total: usize = offsets[TOTAL_CELLS] as usize;
        let mut line_ids: Vec<u32> = vec![0u32; total];
        let mut cursor: Vec<u32> = Vec::new();
        let mut d: usize = 0;
        while d < TOTAL_CELLS
            invariant
                d <= TOTAL_CELLS,
                offsets.len() == TOTAL_CELLS + 1,
                cursor.len() == d,
                forall|k: int| 0 <= k < d ==> #[trigger] cursor[k] == offsets[k],
            decreases TOTAL_CELLS - d,
        {
            cursor.push(offsets[d]);
            d = d + 1;
        }
        let mut j: usize = 0;
        while j < n
            invariant
                n == lines.len(),
                n <= u32::MAX,
                j <= n,
                offsets.len() == TOTAL_CELLS + 1,
                cursor.len() == TOTAL_CELLS,
                line_ids.len() == entries_before(lines@, TOTAL_CELLS as nat),
                entries_before(lines@, TOTAL_CELLS as nat) <= u32::MAX,
                forall|k: int|
                    0 <= k <= TOTAL_CELLS ==> #[trigger] offsets[k] == entries_before(
                        lines@,
                        k as nat,
                    ),
                filled(lines@, offsets@, cursor@, line_ids@, j as nat),
            decreases n - j,
        {
            let ghost cursor0 = cursor@;
            let ghost ids0 = line_ids@;
            proof {
                lemma_room(lines@, offsets@, cursor@, line_ids@, j as nat);
            }
            place_line(&mut line_ids, &mut cursor, lines[j].bbox, j as u32);
            proof {
                lemma_placed(lines@, offsets@, cursor0, cursor@, ids0, line_ids@, j as nat);
            }
            j = j + 1;
        }
        let grid = SpatialGrid { cells: CELLS, line_ids, offsets };
        assert forall|k: int| 0 <= k < TOTAL_CELLS implies #[trigger] grid.cell(k)
            == lines_in_cell(lines@, k, lines@.len()) by {
            assert(grid.offsets[k + 1] == entries_before(lines@, (k + 1) as nat));
            assert(grid.offsets[k] == entries_before(lines@, k as nat));
            lemma_entries_grow(lines@, (k + 1) as nat, TOTAL_CELLS as nat);
            let want = lines_in_cell(lines@, k, lines@.len());
            assert forall|p: int| 0 <= p < want.len() implies #[trigger] want[p]
                == grid.line_ids[grid.offsets[k] + p] by {}
            assert(grid.cell(k) =~= want);
        }
        grid
    }

    /// The entries of the first `n` cells that a box reaches, cell by cell.
    pub open spec fn entries_reached(self, bounds: Bounds, n: nat) -> Seq<u32>
        decreases n,
    {
        if n == 0 {
            Seq::empty()
        } else {
            let before = self.entries_reached(bounds, (n - 1) as nat);
            if meets_cell(bounds, n - 1) {
                before + self.cell(n - 1)
            } else {
                before
            }
        }
    }

    /// Put into `out` the indices of the lines that share a cell with
    /// `bounds`, each once, in the order in which the cells name them. `seen`
    /// is scratch space with one bit per line; a line whose bit is set is left
    /// out, and every bit is as before at the end.
    pub fn lines_for_bounds(&self, bounds: Bounds, out: &mut Vec<u32>, seen: &mut [u8])
        requires
            self.well_formed(),
            forall|i: int|
                0 <= i < self.line_ids.len() ==> #[trigger] self.line_ids[i] < 8 * old(seen).len(),
        ensures
            final(out)@ == unrepeated(
                self.entries_reached(bounds, TOTAL_CELLS as nat),
                old(seen)@,
            ),
            final(seen)@ == old(seen)@,
    {
        let (x0, x1, y0, y1) = cell_range(bounds);
        let ghost seen0 = seen@;
        out.clear();
        let mut cy: u32 = y0;
        proof {
            self.lemma_skip(bounds, 0, (y0 * 16) as nat);
        }
        assert(self.entries_reached(bounds, 0) =~= Seq::<u32>::empty());
        while cy < y1
            invariant
                x0 == cell_from(bounds.min_x),
                x1 == cell_to(bounds.max_x),
                y0 == cell_from(bounds.min_y),
                y1 == cell_to(bounds.max_y),
                x0 <= 16 && x1 <= 16 && y0 <= 16 && y1 <= 16,
                y0 <= cy <= 16,
                self.well_formed(),
                seen.len() == seen0.len(),
                forall|i: int|
                    0 <= i < self.line_ids.len() ==> #[trigger] self.line_ids[i] < 8 * seen0.len(),
                out@ == unrepeated(self.entries_reached(bounds, (cy * 16) as nat), seen0),
                marks(seen@, seen0, out@),
                within(out@, seen0),
            decreases 16 - cy,
        {
            let mut cx: u32 = x0;
            proof {
                self.lemma_skip(bounds, (cy * 16) as nat, (cy * 16 + x0) as nat);
            }
            while cx < x1
                invariant
                    x0 == cell_from(bounds.min_x),
                    x1 == cell_to(bounds.max_x),
                    y0 == cell_from(bounds.min_y),
                    y1 == cell_to(bounds.max_y),
                    x0 <= 16 && x1 <= 16 && y0 <= 16 && y1 <= 16,
                    y0 <= cy < y1,
                    x0 <= cx <= 16,
                    self.well_formed(),
                    seen.len() == seen0.len(),
                    forall|i: int|
                        0 <= i < self.line_ids.len() ==> #[trigger] self.line_ids[i] < 8
                            * seen0.len(),
                    out@ == unrepeated(self.entries_reached(bounds, (cy * 16 + cx) as nat), seen0),
                    marks(seen@, seen0, out@),
                    within(out@, seen0),
                decreases 16 - cx,
            {
                let k: usize = cy as usize * 16 + cx as usize;
                assert(meets_cell(bounds, k as int));
                let start: usize = self.offsets[k] as usize;
                let end: usize = self.offsets[k + 1] as usize;
                assert(start <= end <= self.line_ids.len());
                let ghost base = self.entries_reached(bounds, k as nat);
                let mut p: usize = start;
                assert(self.cell(k as int).take(0) =~= Seq::<u32>::empty());
                assert(base + Seq::<u32>::empty() =~= base);
                while p < end
                    invariant
                        start <= p <= end,
                        end <= self.line_ids.len(),
                        k < TOTAL_CELLS,
                        start == self.offsets[k as int],
                        end == self.offsets[k + 1],
                        seen.len() == seen0.len(),
                        forall|i: int|
                            0 <= i < self.line_ids.len() ==> #[trigger] self.line_ids[i] < 8
                                * seen0.len(),
                        out@ == unrepeated(base + self.cell(k as int).take(p - start), seen0),
                        marks(seen@, seen0, out@),
                        within(out@, seen0),
                    decreases end - p,
                {
                    let id: u32 = self.line_ids[p];
                    let idx: usize = id as usize;
                    let byte: usize = idx / 8;
                    let bit: u8 = 1u8 << ((idx % 8) as u8);
                    let ghost s = base + self.cell(k as int).take(p - start);
                    let ghost s1 = base + self.cell(k as int).take(p + 1 - start);
                    assert(s1.drop_last() =~= s);
                    assert(s1.last() == id);
                    assert(bit_set(seen@, id as int) == (bit_set(seen0, id as int)
                        || out@.contains(id)));
                    if seen[byte] & bit == 0 {
                        let ghost before = seen@;
                        let ghost out0 = out@;
                        seen[byte] = seen[byte] | bit;
                        out.push(id);
                        proof {
                            lemma_mark(before, seen0, out0, id);
                        }
                    }
                    p = p + 1;
                }
                assert(self.cell(k as int).take(end - start) =~= self.cell(k as int));
                cx = cx + 1;
            }
            proof {
                self.lemma_skip(bounds, (cy * 16 + cx) as nat, ((cy + 1) * 16) as nat);
            }
            cy = cy + 1;
        }
        proof {
            self.lemma_skip(bounds, (cy * 16) as nat, TOTAL_CELLS as nat);
            lemma_unrepeated(self.entries_reached(bounds, TOTAL_CELLS as nat), seen0);
        }
        let mut i: usize = 0;
        assert(out@.skip(0) =~= out@);
        while i < out.len()
            invariant
                i <= out.len(),
                seen.len() == seen0.len(),
                marks(seen@, seen0, out@.skip(i as int)),
                within(out@, seen0),
                unset(out@, seen0),
                out@.no_duplicates(),
            decreases out.len() - i,
        {
            let idx: usize = out[i] as usize;
            let byte: usize = idx / 8;
            let bit: u8 = 1u8 << ((idx % 8) as u8);
            let ghost before = seen@;
            assert(out@.contains(out@[i as int]));
            seen[byte] = seen[byte] & !bit;
            proof {
                lemma_unmark(before, seen0, out@, i as int);
            }
            i = i + 1;
        }
        proof {
            assert(out@.skip(i as int) =~= Seq::<u32>::empty());
            lemma_bits_make_bytes(seen@, seen0);
        }
    }

    /// Cells that a box does not reach add nothing.
    proof fn lemma_skip(self, bounds: Bounds, a: nat, b: nat)
        requires
            a <= b,
            forall|k: int| a <= k < b ==> !#[trigger] meets_cell(bounds, k),
        ensures
            self.entries_reached(bounds, a) == self.entries_reached(bounds, b),
        decreases b,
    {
        if a < b {
            self.lemma_skip(bounds, a, (b - 1) as nat);
            assert(!meets_cell(bounds, b - 1));
        }
    }
}

/// Bit `id` of a bit set.
pub open spec fn bit_set(seen: Seq<u8>, id: int) -> bool {
    seen[id / 8] & (1u8 << ((id % 8) as u8)) != 0
}

/// The members of `ids`, each where it first comes, without those whose bit is
/// set.
pub open spec fn unrepeated(ids: Seq<u32>, seen: Seq<u8>) -> Seq<u32>
    decreases ids.len(),
{
    if ids.len() == 0 {
        Seq::empty()
    } else {
        let before = unrepeated(ids.drop_last(), seen);
        let id = ids.last();
        if bit_set(seen, id as int) || before.contains(id) {
            before
        } else {
            before.push(id)
        }
    }
}

/// What `unrepeated` keeps.
proof fn lemma_unrepeated(ids: Seq<u32>, seen: Seq<u8>)
    ensures
        unrepeated(ids, seen).no_duplicates(),
        forall|id: u32| #[trigger]
            unrepeated(ids, seen).contains(id) <==> ids.contains(id) && !bit_set(seen, id as int),
    decreases ids.len(),
{
    if ids.len() > 0 {
        let last = ids.last();
        let shorter = ids.drop_last();
        let before = unrepeated(shorter, seen);
        let all = unrepeated(ids, seen);
        lemma_unrepeated(shorter, seen);
        assert forall|id: u32| ids.contains(id) <==> id == last || shorter.contains(id) by {
            if ids.contains(id) && id != last {
                let i = choose|i: int| 0 <= i < ids.len() && ids[i] == id;
                assert(shorter[i] == id);
            }
            if shorter.contains(id) {
                let i = choose|i: int| 0 <= i < shorter.len() && shorter[i] == id;
                assert(ids[i] == id);
            }
            if id == last {
                assert(ids[ids.len() - 1] == id);
            }
        }
        if all != before {
            assert forall|id: u32| #[trigger] all.contains(id) <==> id == last || before.contains(
                id,
            ) by {
                if before.contains(id) {
                    let i = choose|i: int| 0 <= i < before.len() && before[i] == id;
                    assert(all[i] == id);
                }
                if id == last {
                    assert(all[before.len() as int] == id);
                }
            }
        }
    }
}

/// The set bits are those set at first and those of `out`.
spec fn marks(seen: Seq<u8>, seen0: Seq<u8>, out: Seq<u32>) -> bool {
    forall|id: int|
        0 <= id < 8 * seen0.len() ==> #[trigger] bit_set(seen, id) == (bit_set(seen0, id) || (id
            <= u32::MAX && out.contains(id as u32)))
}

spec fn within(out: Seq<u32>, seen0: Seq<u8>) -> bool {
    forall|id: u32| #[trigger] out.contains(id) ==> id < 8 * seen0.len()
}

spec fn unset(out: Seq<u32>, seen0: Seq<u8>) -> bool {
    forall|id: u32| #[trigger] out.contains(id) ==> !bit_set(seen0, id as int)
}

proof fn lemma_bit_ops(b: u8, j: u8, k: u8)
    requires
        j < 8,
        k < 8,
    ensures
        (b | (1u8 << k)) & (1u8 << j) != 0 <==> j == k || b & (1u8 << j) != 0,
        (b & !(1u8 << k)) & (1u8 << j) != 0 <==> j != k && b & (1u8 << j) != 0,
{
    assert((b | (1u8 << k)) & (1u8 << j) != 0 <==> j == k || b & (1u8 << j) != 0) by (bit_vector)
        requires
            j < 8,
            k < 8,
    ;
    assert((b & !(1u8 << k)) & (1u8 << j) != 0 <==> j != k && b & (1u8 << j) != 0) by (bit_vector)
        requires
            j < 8,
            k < 8,
    ;
}

proof fn lemma_mark(before: Seq<u8>, seen0: Seq<u8>, out: Seq<u32>, id: u32)
    requires
        before.len() == seen0.len(),
        id < 8 * seen0.len(),
        marks(before, seen0, out),
        within(out, seen0),
    ensures
        ({
            let b = before[id as int / 8];
            let after = before.update(id as int / 8, b | (1u8 << ((id % 8) as u8)));
            marks(after, seen0, out.push(id))
        }),
        within(out.push(id), seen0),
{
    let b = before[id as int / 8];
    let after = before.update(id as int / 8, b | (1u8 << ((id % 8) as u8)));
    let out1 = out.push(id);
    assert(out1[out.len() as int] == id);
    assert forall|j: u32| #[trigger] out1.contains(j) <==> j == id || out.contains(j) by {
        if out.contains(j) {
            let i = choose|i: int| 0 <= i < out.len() && out[i] == j;
            assert(out1[i] == j);
        }
    }
    assert forall|j: int| 0 <= j < 8 * seen0.len() implies #[trigger] bit_set(after, j) == (bit_set(
        seen0,
        j,
    ) || (j <= u32::MAX && out1.contains(j as u32))) by {
        assert(bit_set(before, j) == (bit_set(seen0, j) || (j <= u32::MAX && out.contains(j as u32))));
        lemma_bit_ops(b, (j % 8) as u8, (id % 8) as u8);
    }
}

proof fn lemma_unmark(before: Seq<u8>, seen0: Seq<u8>, out: Seq<u32>, i: int)
    requires
        before.len() == seen0.len(),
        0 <= i < out.len(),
        out[i] < 8 * seen0.len(),
        marks(before, seen0, out.skip(i)),
        unset(out, seen0),
        out.no_duplicates(),
    ensures
        ({
            let id = out[i];
            let b = before[id as int / 8];
            let after = before.update(id as int / 8, b & !(1u8 << ((id % 8) as u8)));
            marks(after, seen0, out.skip(i + 1))
        }),
{
    let id = out[i];
    let b = before[id as int / 8];
    let after = before.update(id as int / 8, b & !(1u8 << ((id % 8) as u8)));
    let (s, t) = (out.skip(i), out.skip(i + 1));
    assert(out.contains(id));
    assert(!t.contains(id)) by {
        if t.contains(id) {
            let p = choose|p: int| 0 <= p < t.len() && t[p] == id;
            assert(out[i + 1 + p] == id);
        }
    }
    assert forall|j: u32| j != id implies (#[trigger] s.contains(j) <==> t.contains(j)) by {
        if s.contains(j) {
            let p = choose|p: int| 0 <= p < s.len() && s[p] == j;
            assert(p > 0);
            assert(t[p - 1] == j);
        }
        if t.contains(j) {
            let p = choose|p: int| 0 <= p < t.len() && t[p] == j;
            assert(s[p + 1] == j);
        }
    }
    assert forall|j: int| 0 <= j < 8 * seen0.len() implies #[trigger] bit_set(after, j) == (bit_set(
        seen0,
        j,
    ) || (j <= u32::MAX && t.contains(j as u32))) by {
        assert(bit_set(before, j) == (bit_set(seen0, j) || (j <= u32::MAX && s.contains(j as u32))));
        lemma_bit_ops(b, (j % 8) as u8, (id % 8) as u8);
    }
}

proof fn lemma_same_bit(a: Seq<u8>, b: Seq<u8>, i: int, j: u8)
    requires
        a.len() == b.len(),
        marks(a, b, Seq::empty()),
        0 <= i < a.len(),
        j < 8,
    ensures
        (a[i] & (1u8 << j) != 0) == (b[i] & (1u8 << j) != 0),
{
    let k = 8 * i + j;
    assert(k / 8 == i && k % 8 == j);
    assert(bit_set(a, k) == bit_set(b, k));
}

/// Bit sets with the same bits are the same bytes.
#[verifier::spinoff_prover]
proof fn lemma_bits_make_bytes(a: Seq<u8>, b: Seq<u8>)
    requires
        a.len() == b.len(),
        marks(a, b, Seq::empty()),
    ensures
        a == b,
{
    assert forall|i: int| 0 <= i < a.len() implies a[i] == b[i] by {
        let (x, y) = (a[i], b[i]);
        lemma_same_bit(a, b, i, 0);
        lemma_same_bit(a, b, i, 1);
        lemma_same_bit(a, b, i, 2);
        lemma_same_bit(a, b, i, 3);
        lemma_same_bit(a, b, i, 4);
        lemma_same_bit(a, b, i, 5);
        lemma_same_bit(a, b, i, 6);
        lemma_same_bit(a, b, i, 7);
        assert(x == y) by (bit_vector)
            requires
                (x & (1u8 << 0u8) != 0) == (y & (1u8 << 0u8) != 0),
                (x & (1u8 << 1u8) != 0) == (y & (1u8 << 1u8) != 0),
                (x & (1u8 << 2u8) != 0) == (y & (1u8 << 2u8) != 0),
                (x & (1u8 << 3u8) != 0) == (y & (1u8 << 3u8) != 0),
                (x & (1u8 << 4u8) != 0) == (y & (1u8 << 4u8) != 0),
                (x & (1u8 << 5u8) != 0) == (y & (1u8 << 5u8) != 0),
                (x & (1u8 << 6u8) != 0) == (y & (1u8 << 6u8) != 0),
                (x & (1u8 << 7u8) != 0) == (y & (1u8 << 7u8) != 0),
        ;
    }
    assert(a =~= b);
}

/// Whether two boxes reach a common cell.
pub open spec fn share_cell(a: Bounds, b: Bounds) -> bool {
    exists|k: int| 0 <= k < TOTAL_CELLS && #[trigger] meets_cell(a, k) && meets_cell(b, k)
}

/// A lookup in a grid built from `lines` names exactly the lines that share a
/// cell with the box and have no bit set, each once.
pub proof fn lookup_names_lines_that_share_a_cell(
    lines: Seq<BorderLine>,
    grid: SpatialGrid,
    bounds: Bounds,
    seen: Seq<u8>,
)
    requires
        lines.len() <= u32::MAX,
        grid.well_formed(),
        forall|k: int|
            0 <= k < TOTAL_CELLS ==> #[trigger] grid.cell(k) == lines_in_cell(
                lines,
                k,
                lines.len(),
            ),
    ensures
        ({
            let found = unrepeated(grid.entries_reached(bounds, TOTAL_CELLS as nat), seen);
            &&& found.no_duplicates()
            &&& forall|id: u32| #[trigger]
                found.contains(id) <==> id < lines.len() && share_cell(lines[id as int].bbox, bounds)
                    && !bit_set(seen, id as int)
        }),
{
    let entries = grid.entries_reached(bounds, TOTAL_CELLS as nat);
    lemma_unrepeated(entries, seen);
    assert forall|id: u32| entries.contains(id) <==> id < lines.len() && share_cell(
        lines[id as int].bbox,
        bounds,
    ) by {
        lemma_entries_reached(lines, grid, bounds, TOTAL_CELLS as nat, id);
    }
}

proof fn lemma_in_cell(lines: Seq<BorderLine>, k: int, n: nat, id: u32)
    requires
        n <= lines.len() <= u32::MAX,
    ensures
        lines_in_cell(lines, k, n).contains(id) <==> id < n && meets_cell(
            lines[id as int].bbox,
            k,
        ),
    decreases n,
{
    if n > 0 {
        let all = lines_in_cell(lines, k, n);
        let before = lines_in_cell(lines, k, (n - 1) as nat);
        lemma_in_cell(lines, k, (n - 1) as nat, id);
        if before.contains(id) {
            let i = choose|i: int| 0 <= i < before.len() && before[i] == id;
            assert(all[i] == id);
        }
        if meets_cell(lines[n - 1].bbox, k) {
            assert(all[before.len() as int] == (n - 1) as u32);
            if all.contains(id) && id != (n - 1) as u32 {
                let i = choose|i: int| 0 <= i < all.len() && all[i] == id;
                assert(before[i] == id);
            }
        }
    }
}

proof fn lemma_entries_reached(
    lines: Seq<BorderLine>,
    grid: SpatialGrid,
    bounds: Bounds,
    n: nat,
    id: u32,
)
    requires
        n <= TOTAL_CELLS,
        lines.len() <= u32::MAX,
        forall|k: int|
            0 <= k < TOTAL_CELLS ==> #[trigger] grid.cell(k) == lines_in_cell(
                lines,
                k,
                lines.len(),
            ),
    ensures
        grid.entries_reached(bounds, n).contains(id) <==> id < lines.len() && exists|k: int|
            0 <= k < n && #[trigger] meets_cell(lines[id as int].bbox, k) && meets_cell(bounds, k),
    decreases n,
{
    if n > 0 {
        lemma_entries_reached(lines, grid, bounds, (n - 1) as nat, id);
        let before = grid.entries_reached(bounds, (n - 1) as nat);
        let all = grid.entries_reached(bounds, n);
        let cell = grid.cell(n - 1);
        lemma_in_cell(lines, n - 1, lines.len(), id);
        if meets_cell(bounds, n - 1) {
            assert(all =~= before + cell);
            if before.contains(id) {
                let i = choose|i: int| 0 <= i < before.len() && before[i] == id;
                assert(all[i] == id);
            }
            if cell.contains(id) {
                let i = choose|i: int| 0 <= i < cell.len() && cell[i] == id;
                assert(all[before.len() + i] == id);
            }
        }
    }
}

/// Whether a box has room inside and lies in the world.
pub open spec fn inside_world(b: Bounds) -> bool {
    &&& b.min_x.below(b.max_x) && b.min_y.below(b.max_y)
    &&& 0 <= b.min_x.units() && b.max_x.units() <= pow2(1074)
    &&& 0 <= b.min_y.units() && b.max_y.units() <= pow2(1074)
}

/// Boxes in the world whose insides overlap share a cell, so that a lookup
/// misses no line whose box reaches into the queried one.
pub proof fn overlapping_boxes_share_a_cell(a: Bounds, b: Bounds)
    requires
        inside_world(a),
        inside_world(b),
        a.min_x.below(b.max_x) && b.min_x.below(a.max_x),
        a.min_y.below(b.max_y) && b.min_y.below(a.max_y),
    ensures
        share_cell(a, b),
{
    lemma_axis(a.min_x, a.max_x);
    lemma_axis(a.min_x, b.max_x);
    lemma_axis(b.min_x, a.max_x);
    lemma_axis(b.min_x, b.max_x);
    lemma_axis(a.min_y, a.max_y);
    lemma_axis(a.min_y, b.max_y);
    lemma_axis(b.min_y, a.max_y);
    lemma_axis(b.min_y, b.max_y);
    let cx = if cell_from(a.min_x) >= cell_from(b.min_x) {
        cell_from(a.min_x)
    } else {
        cell_from(b.min_x)
    };
    let cy = if cell_from(a.min_y) >= cell_from(b.min_y) {
        cell_from(a.min_y)
    } else {
        cell_from(b.min_y)
    };
    let k = cy * 16 + cx;
    assert(meets_cell(a, k));
    assert(meets_cell(b, k));
}

proof fn lemma_axis(lo: Double, hi: Double)
    requires
        lo.below(hi),
        0 <= lo.units(),
        hi.units() <= pow2(1074),
    ensures
        0 <= cell_from(lo) < cell_to(hi) <= 16,
{
    let d = pow2(1074) as int;
    lemma_pow2_pos(1074);
    lemma2_to64();
    let (u, v) = (lo.units() * pow2(4), -hi.units() * pow2(4));
    lemma_fundamental_div_mod(u, d);
    lemma_mod_bound(u, d);
    lemma_fundamental_div_mod(v, d);
    lemma_mod_bound(v, d);
    let (p, q) = (u / d, v / d);
    assert(p < -q) by (nonlinear_arith)
        requires
            d > 0,
            d * p <= u,
            d * q <= v,
            u < -v,
    ;
    assert(p >= 0) by (nonlinear_arith)
        requires
            d > 0,
            u >= 0,
            u < d * p + d,
    ;
    assert(-q <= 16) by (nonlinear_arith)
        requires
            d > 0,
            -v <= 16 * d,
            v < d * q + d,
    ;
}

/// Up to sixteen million lines the grid's offsets cannot overflow.
pub proof fn moderate_line_counts_fit(lines: Seq<BorderLine>)
    requires
        lines.len() <= 0xff_ffff,
    ensures
        entries_before(lines, TOTAL_CELLS as nat) <= u32::MAX,
{
    lemma_entries_bound(lines, TOTAL_CELLS as nat);
}

proof fn lemma_entries_bound(lines: Seq<BorderLine>, k: nat)
    ensures
        entries_before(lines, k) <= k * lines.len(),
    decreases k,
{
    if k > 0 {
        lemma_entries_bound(lines, (k - 1) as nat);
        lemma_cell_len(lines, k - 1, lines.len());
        assert((k - 1) * lines.len() + lines.len() == k * lines.len()) by (nonlinear_arith);
    }
}

/// The state of the filling pass after `n` lines: each cell's entries so far
/// stand at its offset, and its cursor behind them.
spec fn filled(
    lines: Seq<BorderLine>,
    offsets: Seq<u32>,
    cursor: Seq<u32>,
    ids: Seq<u32>,
    n: nat,
) -> bool {
    &&& forall|k: int|
        0 <= k < TOTAL_CELLS ==> #[trigger] cursor[k] == offsets[k] + lines_in_cell(
            lines,
            k,
            n,
        ).len()
    &&& forall|k: int, p: int|
        0 <= k < TOTAL_CELLS && 0 <= p < lines_in_cell(lines, k, n).len()
            ==> #[trigger] lines_in_cell(lines, k, n)[p] == ids[offsets[k] + p]
}

proof fn lemma_cell_len(lines: Seq<BorderLine>, k: int, n: nat)
    ensures
        lines_in_cell(lines, k, n).len() <= n,
    decreases n,
{
    if n > 0 {
        lemma_cell_len(lines, k, (n - 1) as nat);
    }
}

proof fn lemma_cell_grows(lines: Seq<BorderLine>, k: int, m: nat, n: nat)
    requires
        m <= n,
    ensures
        lines_in_cell(lines, k, m).len() <= lines_in_cell(lines, k, n).len(),
    decreases n,
{
    if m < n {
        lemma_cell_grows(lines, k, m, (n - 1) as nat);
    }
}

proof fn lemma_entries_grow(lines: Seq<BorderLine>, a: nat, b: nat)
    requires
        a <= b,
    ensures
        entries_before(lines, a) <= entries_before(lines, b),
    decreases b,
{
    if a < b {
        lemma_entries_grow(lines, a, (b - 1) as nat);
    }
}

/// Before line `n` is placed, the cursors of the cells it reaches stand at
/// distinct free places.
proof fn lemma_room(
    lines: Seq<BorderLine>,
    offsets: Seq<u32>,
    cursor: Seq<u32>,
    ids: Seq<u32>,
    n: nat,
)
    requires
        n < lines.len(),
        offsets.len() == TOTAL_CELLS + 1,
        cursor.len() == TOTAL_CELLS,
        ids.len() == entries_before(lines, TOTAL_CELLS as nat),
        forall|k: int|
            0 <= k <= TOTAL_CELLS ==> #[trigger] offsets[k] == entries_before(lines, k as nat),
        filled(lines, offsets, cursor, ids, n),
    ensures
        forall|k: int|
            0 <= k < TOTAL_CELLS && meets_cell(lines[n as int].bbox, k) ==> #[trigger] cursor[k]
                < ids.len() && cursor[k] < offsets[k + 1],
        forall|a: int, b: int|
            0 <= a < TOTAL_CELLS && 0 <= b < TOTAL_CELLS && a != b && meets_cell(
                lines[n as int].bbox,
                a,
            ) && meets_cell(lines[n as int].bbox, b) ==> #[trigger] cursor[a] != #[trigger] cursor[b],
{
    assert forall|k: int|
        0 <= k < TOTAL_CELLS && meets_cell(lines[n as int].bbox, k) implies #[trigger] cursor[k]
        < ids.len() && cursor[k] < offsets[k + 1] by {
        lemma_cell_grows(lines, k, n + 1, lines.len());
        lemma_entries_grow(lines, (k + 1) as nat, TOTAL_CELLS as nat);
        assert(offsets[k + 1] == entries_before(lines, (k + 1) as nat));
        assert(offsets[k] == entries_before(lines, k as nat));
    }
    assert forall|a: int, b: int|
        0 <= a < TOTAL_CELLS && 0 <= b < TOTAL_CELLS && a != b && meets_cell(
            lines[n as int].bbox,
            a,
        ) && meets_cell(lines[n as int].bbox, b) implies #[trigger] cursor[a]
        != #[trigger] cursor[b] by {
        assert(offsets[a + 1] == entries_before(lines, (a + 1) as nat));
        assert(offsets[b + 1] == entries_before(lines, (b + 1) as nat));
        if a < b {
            lemma_entries_grow(lines, (a + 1) as nat, b as nat);
        } else {
            lemma_entries_grow(lines, (b + 1) as nat, a as nat);
        }
    }
}

proof fn lemma_placed(
    lines: Seq<BorderLine>,
    offsets: Seq<u32>,
    cursor0: Seq<u32>,
    cursor: Seq<u32>,
    ids0: Seq<u32>,
    ids: Seq<u32>,
    n: nat,
)
    requires
        n < lines.len() <= u32::MAX,
        offsets.len() == TOTAL_CELLS + 1,
        cursor0.len() == TOTAL_CELLS,
        cursor.len() == TOTAL_CELLS,
        ids.len() == ids0.len(),
        ids0.len() == entries_before(lines, TOTAL_CELLS as nat),
        forall|k: int|
            0 <= k <= TOTAL_CELLS ==> #[trigger] offsets[k] == entries_before(lines, k as nat),
        filled(lines, offsets, cursor0, ids0, n),
        placed(lines[n as int].bbox, n as u32, cursor0, cursor, ids0, ids),
    ensures
        filled(lines, offsets, cursor, ids, n + 1),
{
    let b = lines[n as int].bbox;
    assert forall|k: int, p: int|
        0 <= k < TOTAL_CELLS && 0 <= p < lines_in_cell(lines, k, n + 1).len()
            implies #[trigger] lines_in_cell(lines, k, n + 1)[p] == ids[offsets[k] + p] by {
        let before = lines_in_cell(lines, k, n);
        assert(cursor0[k] == offsets[k] + before.len());
        if p < before.len() {
            assert(before[p] == ids0[offsets[k] + p]);
            lemma_cell_grows(lines, k, n, lines.len());
            assert(offsets[k + 1] == entries_before(lines, (k + 1) as nat));
            lemma_entries_grow(lines, (k + 1) as nat, TOTAL_CELLS as nat);
            let q = offsets[k] + p;
            assert forall|c: int| 0 <= c < TOTAL_CELLS && meets_cell(b, c) implies #[trigger] cursor0[c]
                != q by {
                assert(cursor0[c] == offsets[c] + lines_in_cell(lines, c, n).len());
                if c < k {
                    lemma_cell_grows(lines, c, n + 1, lines.len());
                    assert(offsets[c + 1] == entries_before(lines, (c + 1) as nat));
                    lemma_entries_grow(lines, (c + 1) as nat, k as nat);
                } else if c > k {
                    lemma_entries_grow(lines, (k + 1) as nat, c as nat);
                }
            }
            assert(ids[q] == ids0[q]);
        } else {
            assert(meets_cell(b, k));
            assert(ids[cursor0[k] as int] == n as u32);
        }
    }
}

/// What placing one line does: each cell it reaches gets the line's index at
/// its cursor, which moves on; nothing else changes.
spec fn placed(
    b: Bounds,
    id: u32,
    cursor0: Seq<u32>,
    cursor: Seq<u32>,
    ids0: Seq<u32>,
    ids: Seq<u32>,
) -> bool {
    &&& cursor.len() == cursor0.len()
    &&& ids.len() == ids0.len()
    &&& forall|k: int|
        0 <= k < TOTAL_CELLS ==> #[trigger] cursor[k] == cursor0[k] + if meets_cell(b, k) {
            1int
        } else {
            0int
        }
    &&& forall|k: int|
        0 <= k < TOTAL_CELLS && meets_cell(b, k) ==> ids[#[trigger] cursor0[k] as int] == id
    &&& forall|p: int|
        0 <= p < ids.len() && (forall|k: int|
            0 <= k < TOTAL_CELLS && meets_cell(b, k) ==> #[trigger] cursor0[k] != p)
            ==> #[trigger] ids[p] == ids0[p]
}

/// Whether cell `k` is one that a box reaches and comes before row `cy`,
/// column `cx`.
spec fn reached_before(b: Bounds, k: int, cy: int, cx: int) -> bool {
    meets_cell(b, k) && (k / 16 < cy || (k / 16 == cy && k % 16 < cx))
}

/// The cells that a box reaches: columns `r.0..r.1`, rows `r.2..r.3`.
fn cell_range(b: Bounds) -> (r: (u32, u32, u32, u32))
    ensures
        r.0 == cell_from(b.min_x),
        r.1 == cell_to(b.max_x),
        r.2 == cell_from(b.min_y),
        r.3 == cell_to(b.max_y),
        r.0 <= 16 && r.1 <= 16 && r.2 <= 16 && r.3 <= 16,
{
    (
        b.min_x.floor_clamped(4, CELLS),
        b.max_x.ceil_clamped(4, CELLS),
        b.min_y.floor_clamped(4, CELLS),
        b.max_y.ceil_clamped(4, CELLS),
    )
}

fn count_line(counts: &mut Vec<u32>, b: Bounds)
    requires
        old(counts).len() == TOTAL_CELLS,
        forall|k: int| 0 <= k < TOTAL_CELLS ==> #[trigger] old(counts)[k] < u32::MAX,
    ensures
        final(counts).len() == TOTAL_CELLS,
        forall|k: int|
            0 <= k < TOTAL_CELLS ==> #[trigger] final(counts)[k] == old(counts)[k] + if meets_cell(
                b,
                k,
            ) {
                1int
            } else {
                0int
            },
{
    let (x0, x1, y0, y1) = cell_range(b);
    let mut cy: u32 = y0;
    while cy < y1
        invariant
            x0 == cell_from(b.min_x),
            x1 == cell_to(b.max_x),
            y0 == cell_from(b.min_y),
            y1 == cell_to(b.max_y),
            x0 <= 16 && x1 <= 16 && y0 <= 16 && y1 <= 16,
            y0 <= cy,
            counts.len() == TOTAL_CELLS,
            forall|k: int| 0 <= k < TOTAL_CELLS ==> #[trigger] old(counts)[k] < u32::MAX,
            forall|k: int|
                0 <= k < TOTAL_CELLS ==> #[trigger] counts[k] == old(counts)[k]
                    + if reached_before(b, k, cy as int, 0) {
                    1int
                } else {
                    0int
                },
        decreases 16 - cy,
    {
        let mut cx: u32 = x0;
        while cx < x1
            invariant
                x0 == cell_from(b.min_x),
                x1 == cell_to(b.max_x),
                y0 == cell_from(b.min_y),
                y1 == cell_to(b.max_y),
                x0 <= 16 && x1 <= 16 && y0 <= 16 && y1 <= 16,
                y0 <= cy < y1,
                x0 <= cx,
                counts.len() == TOTAL_CELLS,
                forall|k: int| 0 <= k < TOTAL_CELLS ==> #[trigger] old(counts)[k] < u32::MAX,
                forall|k: int|
                    0 <= k < TOTAL_CELLS ==> #[trigger] counts[k] == old(counts)[k]
                        + if reached_before(b, k, cy as int, cx as int) {
                        1int
                    } else {
                        0int
                    },
            decreases 16 - cx,
        {
            let k: usize = cy as usize * 16 + cx as usize;
            assert(counts[k as int] == old(counts)[k as int]);
            counts[k] = counts[k] + 1;
            cx = cx + 1;
        }
        cy = cy + 1;
    }
}

fn place_line(line_ids: &mut Vec<u32>, cursor: &mut Vec<u32>, b: Bounds, id: u32)
    requires
        old(cursor).len() == TOTAL_CELLS,
        old(line_ids).len() <= u32::MAX,
        forall|k: int|
            0 <= k < TOTAL_CELLS && meets_cell(b, k) ==> #[trigger] old(cursor)[k] < old(
                line_ids,
            ).len(),
        forall|i: int, j: int|
            0 <= i < TOTAL_CELLS && 0 <= j < TOTAL_CELLS && i != j && meets_cell(b, i)
                && meets_cell(b, j) ==> #[trigger] old(cursor)[i] != #[trigger] old(cursor)[j],
    ensures
        placed(b, id, old(cursor)@, final(cursor)@, old(line_ids)@, final(line_ids)@),
{
    let (x0, x1, y0, y1) = cell_range(b);
    let ghost ids0 = line_ids@;
    let ghost cursor0 = cursor@;
    let mut cy: u32 = y0;
    while cy < y1
        invariant
            x0 == cell_from(b.min_x),
            x1 == cell_to(b.max_x),
            y0 == cell_from(b.min_y),
            y1 == cell_to(b.max_y),
            x0 <= 16 && x1 <= 16 && y0 <= 16 && y1 <= 16,
            y0 <= cy,
            cursor.len() == TOTAL_CELLS,
            cursor0.len() == TOTAL_CELLS,
            line_ids.len() == ids0.len(),
            ids0.len() <= u32::MAX,
            forall|k: int|
                0 <= k < TOTAL_CELLS && meets_cell(b, k) ==> #[trigger] cursor0[k] < ids0.len(),
            forall|i: int, j: int|
                0 <= i < TOTAL_CELLS && 0 <= j < TOTAL_CELLS && i != j && meets_cell(b, i)
                    && meets_cell(b, j) ==> #[trigger] cursor0[i] != #[trigger] cursor0[j],
            partly_placed(b, id, cursor0, cursor@, ids0, line_ids@, cy as int, 0),
        decreases 16 - cy,
    {
        let mut cx: u32 = x0;
        assert(partly_placed(b, id, cursor0, cursor@, ids0, line_ids@, cy as int, cx as int));
        while cx < x1
            invariant
                x0 == cell_from(b.min_x),
                x1 == cell_to(b.max_x),
                y0 == cell_from(b.min_y),
                y1 == cell_to(b.max_y),
                x0 <= 16 && x1 <= 16 && y0 <= 16 && y1 <= 16,
                y0 <= cy < y1,
                x0 <= cx,
                cursor.len() == TOTAL_CELLS,
                cursor0.len() == TOTAL_CELLS,
                line_ids.len() == ids0.len(),
                ids0.len() <= u32::MAX,
                forall|k: int|
                    0 <= k < TOTAL_CELLS && meets_cell(b, k) ==> #[trigger] cursor0[k] < ids0.len(),
                forall|i: int, j: int|
                    0 <= i < TOTAL_CELLS && 0 <= j < TOTAL_CELLS && i != j && meets_cell(b, i)
                        && meets_cell(b, j) ==> #[trigger] cursor0[i] != #[trigger] cursor0[j],
                partly_placed(b, id, cursor0, cursor@, ids0, line_ids@, cy as int, cx as int),
            decreases 16 - cx,
        {
            let k: usize = cy as usize * 16 + cx as usize;
            assert(meets_cell(b, k as int));
            assert(cursor[k as int] == cursor0[k as int]);
            let at: usize = cursor[k] as usize;
            let ghost ids1 = line_ids@;
            line_ids[at] = id;
            cursor[k] = cursor[k] + 1;
            cx = cx + 1;
            assert forall|p: int|
                0 <= p < line_ids.len() && (forall|k: int|
                    0 <= k < TOTAL_CELLS && reached_before(b, k, cy as int, cx as int)
                        ==> #[trigger] cursor0[k] != p) implies #[trigger] line_ids[p] == ids0[p] by {
                assert(cursor0[k as int] != p);
                assert(ids1[p] == ids0[p]);
            }
        }
        cy = cy + 1;
        assert(partly_placed(b, id, cursor0, cursor@, ids0, line_ids@, cy as int, 0));
    }
}

spec fn partly_placed(
    b: Bounds,
    id: u32,
    cursor0: Seq<u32>,
    cursor: Seq<u32>,
    ids0: Seq<u32>,
    ids: Seq<u32>,
    cy: int,
    cx: int,
) -> bool {
    &&& forall|k: int|
        0 <= k < TOTAL_CELLS ==> #[trigger] cursor[k] == cursor0[k] + if reached_before(
            b,
            k,
            cy,
            cx,
        ) {
            1int
        } else {
            0int
        }
    &&& forall|k: int|
        0 <= k < TOTAL_CELLS && reached_before(b, k, cy, cx) ==> ids[#[trigger] cursor0[k] as int]
            == id
    &&& forall|p: int|
        0 <= p < ids.len() && (forall|k: int|
            0 <= k < TOTAL_CELLS && reached_before(b, k, cy, cx) ==> #[trigger] cursor0[k] != p)
            ==> #[trigger] ids[p] == ids0[p]
}

} // verus!
