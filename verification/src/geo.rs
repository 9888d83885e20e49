//! World and geographic coordinates, and the tiles that cover them.
//!
//! The world is the unit square of the Mercator projection: `x` grows
//! eastward, `y` southward. At zoom `z` it is cut into `2^z` by `2^z` tiles.

use vstd::arithmetic::div_mod::*;
use vstd::arithmetic::mul::*;
use vstd::arithmetic::power2::*;
use vstd::bits::*;
use vstd::prelude::*;

use crate::double::{bound, Double};

verus! {

/// The latitude at which the Mercator square ends, 85.05112878.
pub const MAX_LAT_BITS: u64 = 0x4055_4345_b1a5_7f00;

pub const MIN_LAT_BITS: u64 = 0xc055_4345_b1a5_7f00;

/// The easternmost longitude, 180.
pub const MAX_LON_BITS: u64 = 0x4066_8000_0000_0000;

pub const MIN_LON_BITS: u64 = 0xc066_8000_0000_0000;

#[derive(Debug, Clone, Copy, PartialEq, Eq, Structural)]
pub struct GeoPoint {
    pub lon: Double,
    pub lat: Double,
}

#[derive(Debug, Clone, Copy, PartialEq, Eq, Structural)]
pub struct WorldPoint {
    pub x: Double,
    pub y: Double,
}

#[derive(Debug, Clone, Copy, PartialEq, Eq, Structural)]
pub struct Bounds {
    pub min_x: Double,
    pub max_x: Double,
    pub min_y: Double,
    pub max_y: Double,
}

#[derive(Debug, Clone, Copy, PartialEq, Eq, Hash, Structural)]
pub struct TileCoord {
    pub z: u8,
    pub x: u32,
    pub y: u32,
}

/// The column or row of tiles at zoom `z` that a coordinate falls into; what
/// lies outside the world falls into the nearest one, what is not a number
/// into the first.
pub open spec fn tile_index(c: Double, z: u8) -> int {
    if c.nan() {
        0
    } else {
        bound(c.floor_at(z as nat), 0, pow2(z as nat) - 1)
    }
}

pub open spec fn tile_at(z: u8, x: int, y: int) -> TileCoord {
    TileCoord { z, x: x as u32, y: y as u32 }
}

/// The number of indices in `lo..=hi`.
pub open spec fn span(lo: int, hi: int) -> nat {
    if lo <= hi {
        (hi - lo + 1) as nat
    } else {
        0
    }
}

fn tiles_per_side(z: u8) -> (n: u32)
    requires
        z <= 31,
    ensures
        n == pow2(z as nat),
        1 <= n <= 0x8000_0000,
{
    proof {
        lemma2_to64();
        if z < 31 {
            lemma_pow2_strictly_increases(z as nat, 31);
        }
        lemma_pow2_pos(z as nat);
        lemma_u32_shl_is_mul(1, z as u32);
    }
    1u32 << (z as u32)
}

impl GeoPoint {
    /// A point moved into the ranges of `new`.
    pub open spec fn bounded(lon: Double, lat: Double) -> GeoPoint {
        GeoPoint {
            lon: lon.clamped((Double { bits: MIN_LON_BITS }), (Double { bits: MAX_LON_BITS })),
            lat: lat.clamped((Double { bits: MIN_LAT_BITS }), (Double { bits: MAX_LAT_BITS })),
        }
    }

    /// A point with its longitude moved into -180..=180 and its latitude into
    /// the range that the Mercator square covers.
    pub fn new(lon: Double, lat: Double) -> (p: GeoPoint)
        ensures
            p == GeoPoint::bounded(lon, lat),
    {
        GeoPoint {
            lon: lon.clamp(Double::from_bits(MIN_LON_BITS), Double::from_bits(MAX_LON_BITS)),
            lat: lat.clamp(Double::from_bits(MIN_LAT_BITS), Double::from_bits(MAX_LAT_BITS)),
        }
    }
}

impl Bounds {
    /// Whether the two closed boxes have a point in common.
    pub open spec fn overlaps(self, other: Bounds) -> bool {
        &&& self.min_x.at_most(other.max_x)
        &&& other.min_x.at_most(self.max_x)
        &&& self.min_y.at_most(other.max_y)
        &&& other.min_y.at_most(self.max_y)
    }

    /// Whether `other` lies inside this box, edges included.
    pub open spec fn covers(self, other: Bounds) -> bool {
        &&& self.min_x.at_most(other.min_x)
        &&& other.max_x.at_most(self.max_x)
        &&& self.min_y.at_most(other.min_y)
        &&& other.max_y.at_most(self.max_y)
    }

    /// Whether this box and the closed square of `tile` have a point in
    /// common, in units of `2^-1074`.
    pub open spec fn touches_tile(self, tile: TileCoord) -> bool {
        let side = pow2((1074 - tile.z) as nat);
        &&& !self.min_x.nan() && !self.max_x.nan() && !self.min_y.nan() && !self.max_y.nan()
        &&& self.min_x.units() <= (tile.x + 1) * side
        &&& tile.x * side <= self.max_x.units()
        &&& self.min_y.units() <= (tile.y + 1) * side
        &&& tile.y * side <= self.max_y.units()
    }

    pub fn intersects(self, other: Bounds) -> (r: bool)
        ensures
            r == self.overlaps(other),
    {
        self.min_x.le(other.max_x) && other.min_x.le(self.max_x) && self.min_y.le(other.max_y)
            && other.min_y.le(self.max_y)
    }

    pub fn contains(self, other: Bounds) -> (r: bool)
        ensures
            r == self.covers(other),
    {
        self.min_x.le(other.min_x) && other.max_x.le(self.max_x) && self.min_y.le(other.min_y)
            && other.max_y.le(self.max_y)
    }

    pub fn intersects_tile(self, tile: TileCoord) -> (r: bool)
        ensures
            r == self.touches_tile(tile),
    {
        self.intersects(tile_bounds(tile))
    }
}

/// The square of a tile: its corners are exact in units of `2^-1074`.
pub fn tile_bounds(tile: TileCoord) -> (b: Bounds)
    ensures
        ({
            let side = pow2((1074 - tile.z) as nat);
            &&& b.min_x.units() == tile.x * side
            &&& b.max_x.units() == (tile.x + 1) * side
            &&& b.min_y.units() == tile.y * side
            &&& b.max_y.units() == (tile.y + 1) * side
        }),
        !b.min_x.nan() && !b.max_x.nan() && !b.min_y.nan() && !b.max_y.nan(),
{
    Bounds {
        min_x: Double::dyadic(tile.x as u64, tile.z),
        max_x: Double::dyadic(tile.x as u64 + 1, tile.z),
        min_y: Double::dyadic(tile.y as u64, tile.z),
        max_y: Double::dyadic(tile.y as u64 + 1, tile.z),
    }
}

/// The side of a tile at zoom `z`, as a fraction of the world.
pub fn world_span_at_zoom(z: u8) -> (r: Double)
    ensures
        !r.nan(),
        r.units() == pow2((1074 - z) as nat),
{
    Double::dyadic(1, z)
}

fn tile_index_of(c: Double, z: u8) -> (r: u32)
    requires
        z <= 31,
    ensures
        r == tile_index(c, z),
        r < pow2(z as nat),
{
    let n: u32 = tiles_per_side(z);
    c.floor_clamped(z, n - 1)
}

/// The tile at zoom `z` that a point falls into.
pub fn tile_for_world(point: WorldPoint, z: u8) -> (t: TileCoord)
    requires
        z <= 31,
    ensures
        t == tile_at(z, tile_index(point.x, z), tile_index(point.y, z)),
        t.x == tile_index(point.x, z),
        t.y == tile_index(point.y, z),
        t.x < pow2(z as nat),
        t.y < pow2(z as nat),
{
    TileCoord { z, x: tile_index_of(point.x, z), y: tile_index_of(point.y, z) }
}

/// The tiles at zoom `z` that a box meets, row by row from the north-west.
pub open spec fn tiles_in_view(bounds: Bounds, z: u8) -> Seq<TileCoord> {
    let (x0, x1) = (tile_index(bounds.min_x, z), tile_index(bounds.max_x, z));
    let (y0, y1) = (tile_index(bounds.min_y, z), tile_index(bounds.max_y, z));
    let w = span(x0, x1) as int;
    Seq::new((w * span(y0, y1)) as nat, |i: int| tile_at(z, x0 + i % w, y0 + i / w))
}

/// Whether a box meets a tile at zoom `z`.
pub open spec fn in_view(bounds: Bounds, z: u8, t: TileCoord) -> bool {
    &&& t.z == z
    &&& tile_index(bounds.min_x, z) <= t.x <= tile_index(bounds.max_x, z)
    &&& tile_index(bounds.min_y, z) <= t.y <= tile_index(bounds.max_y, z)
}

pub fn visible_tiles(bounds: Bounds, z: u8) -> (tiles: Vec<TileCoord>)
    requires
        z <= 31,
    ensures
        tiles@ == tiles_in_view(bounds, z),
{
    let x0: u32 = tile_index_of(bounds.min_x, z);
    let x1: u32 = tile_index_of(bounds.max_x, z);
    let y0: u32 = tile_index_of(bounds.min_y, z);
    let y1: u32 = tile_index_of(bounds.max_y, z);
    let n: u32 = tiles_per_side(z);
    let mut tiles: Vec<TileCoord> = Vec::new();
    if x0 > x1 || y0 > y1 {
        proof {
            lemma_mul_basics(span(x0 as int, x1 as int) as int);
            lemma_mul_basics(span(y0 as int, y1 as int) as int);
        }
        assert(tiles@ =~= tiles_in_view(bounds, z));
        return tiles;
    }
    let ghost w: int = x1 - x0 + 1;
    let ghost h: int = y1 - y0 + 1;
    let ghost full = tiles_in_view(bounds, z);
    let mut y: u32 = y0;
    while y <= y1
        invariant
            x0 <= x1 < n,
            y0 <= y1 < n,
            n <= 0x8000_0000,
            y0 <= y <= y1 + 1,
            w == x1 - x0 + 1,
            h == y1 - y0 + 1,
            full == Seq::new((w * h) as nat, |i: int| tile_at(z, x0 + i % w, y0 + i / w)),
            tiles.len() == (y - y0) * w,
            w * h >= 0,
            forall|i: int| 0 <= i < tiles.len() && i < w * h ==> tiles[i] == full[i],
        decreases y1 + 1 - y,
    {
        let mut x: u32 = x0;
        while x <= x1
            invariant
                x0 <= x1 < n,
                y0 <= y <= y1 < n,
                n <= 0x8000_0000,
                x0 <= x <= x1 + 1,
                w == x1 - x0 + 1,
                h == y1 - y0 + 1,
                full == Seq::new((w * h) as nat, |i: int| tile_at(z, x0 + i % w, y0 + i / w)),
                tiles.len() == (y - y0) * w + (x - x0),
                w * h >= 0,
                forall|i: int| 0 <= i < tiles.len() && i < w * h ==> tiles[i] == full[i],
            decreases x1 + 1 - x,
        {
            proof {
                let (dy, dx) = (y - y0, x - x0);
                lemma_mul_is_commutative(dy, w);
                lemma_fundamental_div_mod_converse(dy * w + dx, w, dy, dx);
            }
            tiles.push(TileCoord { z, x, y });
            x = x + 1;
        }
        proof {
            lemma_mul_is_distributive_add_other_way(w, y - y0, 1);
        }
        y = y + 1;
    }
    proof {
        lemma_mul_is_commutative(w, h);
    }
    assert(tiles@ =~= full);
    tiles
}

/// The tiles in view are exactly the tiles of the covered rows and columns,
/// each once.
pub proof fn visible_tiles_cover_the_view(bounds: Bounds, z: u8)
    requires
        z <= 31,
    ensures
        tiles_in_view(bounds, z).no_duplicates(),
        forall|t: TileCoord| tiles_in_view(bounds, z).contains(t) <==> in_view(bounds, z, t),
{
    let (x0, x1) = (tile_index(bounds.min_x, z), tile_index(bounds.max_x, z));
    let (y0, y1) = (tile_index(bounds.min_y, z), tile_index(bounds.max_y, z));
    let (w, h) = (span(x0, x1) as int, span(y0, y1) as int);
    let s = tiles_in_view(bounds, z);
    lemma2_to64();
    lemma_pow2_pos(z as nat);
    if z < 31 {
        lemma_pow2_strictly_increases(z as nat, 31);
    }
    lemma_mul_nonnegative(w, h);
    assert forall|i: int| 0 <= i < s.len() implies {
        &&& 0 <= i % w < w
        &&& 0 <= i / w < h
        &&& i == w * (i / w) + i % w
        &&& s[i].x == x0 + i % w
        &&& s[i].y == y0 + i / w
    } by {
        assert(w > 0) by (nonlinear_arith)
            requires
                w >= 0,
                w * h > 0,
        ;
        lemma_fundamental_div_mod(i, w);
        lemma_mod_bound(i, w);
        lemma_div_pos_is_pos(i, w);
        assert(i / w < h) by (nonlinear_arith)
            requires
                i < w * h,
                i == w * (i / w) + i % w,
                0 <= i % w,
                w > 0,
        ;
    }
    assert forall|t: TileCoord| in_view(bounds, z, t) implies s.contains(t) by {
        let (dx, dy) = (t.x - x0, t.y - y0);
        let i = dy * w + dx;
        lemma_mul_is_commutative(dy, w);
        lemma_fundamental_div_mod_converse(i, w, dy, dx);
        assert(0 <= i < w * h) by (nonlinear_arith)
            requires
                i == dy * w + dx,
                0 <= dx < w,
                0 <= dy < h,
        ;
        assert(s[i] == t);
    }
}

/// The first tile column (or row) that a box can reach: not clamped to the
/// world on its far side, so that a box beyond the world reaches nothing.
pub open spec fn first_index(c: Double, z: u8) -> int {
    if c.nan() || c.floor_at(z as nat) < 0 {
        0
    } else {
        c.floor_at(z as nat)
    }
}

/// The last tile column (or row) that a box can reach.
pub open spec fn last_index(c: Double, z: u8) -> int {
    if c.nan() || c.floor_at(z as nat) >= pow2(z as nat) {
        pow2(z as nat) - 1
    } else {
        c.floor_at(z as nat)
    }
}

/// A rectangle of tiles, bounds inclusive.
#[verifier::ext_equal]
pub struct Window {
    pub z: u8,
    pub x0: int,
    pub x1: int,
    pub y0: int,
    pub y1: int,
}

pub open spec fn spiral_window(bounds: Bounds, z: u8) -> Window {
    Window {
        z,
        x0: first_index(bounds.min_x, z),
        x1: last_index(bounds.max_x, z),
        y0: first_index(bounds.min_y, z),
        y1: last_index(bounds.max_y, z),
    }
}

impl Window {
    pub open spec fn empty(self) -> bool {
        self.x0 > self.x1 || self.y0 > self.y1
    }

    pub open spec fn holds(self, t: TileCoord) -> bool {
        t.z == self.z && self.x0 <= t.x <= self.x1 && self.y0 <= t.y <= self.y1
    }

    /// Tiles `xa..=xb` of row `y`, cut to the window, west to east.
    pub open spec fn eastward(self, xa: int, xb: int, y: int) -> Seq<TileCoord> {
        let (a, b) = (larger(xa, self.x0), smaller(xb, self.x1));
        if self.y0 <= y <= self.y1 {
            Seq::new(span(a, b), |i: int| tile_at(self.z, a + i, y))
        } else {
            Seq::empty()
        }
    }

    /// The same, east to west.
    pub open spec fn westward(self, xa: int, xb: int, y: int) -> Seq<TileCoord> {
        let (a, b) = (larger(xa, self.x0), smaller(xb, self.x1));
        if self.y0 <= y <= self.y1 {
            Seq::new(span(a, b), |i: int| tile_at(self.z, b - i, y))
        } else {
            Seq::empty()
        }
    }

    /// Tiles `ya..=yb` of column `x`, cut to the window, north to south.
    pub open spec fn southward(self, x: int, ya: int, yb: int) -> Seq<TileCoord> {
        let (a, b) = (larger(ya, self.y0), smaller(yb, self.y1));
        if self.x0 <= x <= self.x1 {
            Seq::new(span(a, b), |i: int| tile_at(self.z, x, a + i))
        } else {
            Seq::empty()
        }
    }

    /// The same, south to north.
    pub open spec fn northward(self, x: int, ya: int, yb: int) -> Seq<TileCoord> {
        let (a, b) = (larger(ya, self.y0), smaller(yb, self.y1));
        if self.x0 <= x <= self.x1 {
            Seq::new(span(a, b), |i: int| tile_at(self.z, x, b - i))
        } else {
            Seq::empty()
        }
    }

    /// The tiles at distance `k` from `(cx, cy)`, clockwise from the
    /// north-west corner of their square.
    pub open spec fn ring(self, cx: int, cy: int, k: int) -> Seq<TileCoord> {
        self.eastward(cx - k, cx + k, cy - k)
            + self.southward(cx + k, cy - k + 1, cy + k)
            + self.westward(cx - k, cx + k - 1, cy + k)
            + self.northward(cx - k, cy - k + 1, cy + k - 1)
    }

    /// The centre tile, where the window has it, and then the first `n` rings.
    pub open spec fn spiral(self, cx: int, cy: int, n: nat) -> Seq<TileCoord>
        decreases n,
    {
        if n == 0 {
            if self.x0 <= cx <= self.x1 && self.y0 <= cy <= self.y1 {
                seq![tile_at(self.z, cx, cy)]
            } else {
                Seq::empty()
            }
        } else {
            self.spiral(cx, cy, (n - 1) as nat) + self.ring(cx, cy, n as int)
        }
    }

    /// The distance of the farthest tile of the window from `(cx, cy)`.
    pub open spec fn reach(self, cx: int, cy: int) -> int {
        larger(larger(cx - self.x0, self.x1 - cx), larger(cy - self.y0, self.y1 - cy))
    }

    pub open spec fn outward(self, cx: int, cy: int) -> Seq<TileCoord> {
        if self.empty() {
            Seq::empty()
        } else {
            self.spiral(cx, cy, self.reach(cx, cy) as nat)
        }
    }
}

pub open spec fn larger(a: int, b: int) -> int {
    if a >= b {
        a
    } else {
        b
    }
}

pub open spec fn smaller(a: int, b: int) -> int {
    if a <= b {
        a
    } else {
        b
    }
}

/// The number of steps, diagonal ones included, from `(cx, cy)` to a tile.
pub open spec fn tile_distance(cx: int, cy: int, t: TileCoord) -> int {
    larger(larger(cx - t.x, t.x - cx), larger(cy - t.y, t.y - cy))
}

fn max_of(a: i64, b: i64) -> (r: i64)
    ensures
        r == larger(a as int, b as int),
{
    if a >= b {
        a
    } else {
        b
    }
}

fn min_of(a: i64, b: i64) -> (r: i64)
    ensures
        r == smaller(a as int, b as int),
{
    if a <= b {
        a
    } else {
        b
    }
}

/// The tiles at zoom `z` that cover `bounds`, nearest to `center` first, in
/// clockwise rings.
pub fn tiles_spiral_from(bounds: Bounds, z: u8, center: WorldPoint) -> (tiles: Vec<TileCoord>)
    requires
        z <= 31,
    ensures
        tiles@ == spiral_window(bounds, z).outward(
            tile_index(center.x, z),
            tile_index(center.y, z),
        ),
{
    let n: u32 = tiles_per_side(z);
    let ct = tile_for_world(center, z);
    let cx: i64 = ct.x as i64;
    let cy: i64 = ct.y as i64;
    let x0: i64 = bounds.min_x.floor_clamped(z, n) as i64;
    let y0: i64 = bounds.min_y.floor_clamped(z, n) as i64;
    let x1: i64 = if bounds.max_x.is_nan() {
        n as i64 - 1
    } else {
        bounds.max_x.floor_from_below(z, n - 1)
    };
    let y1: i64 = if bounds.max_y.is_nan() {
        n as i64 - 1
    } else {
        bounds.max_y.floor_from_below(z, n - 1)
    };
    let mut tiles: Vec<TileCoord> = Vec::new();
    if x0 > x1 || y0 > y1 {
        return tiles;
    }
    let ghost win = Window { z, x0: x0 as int, x1: x1 as int, y0: y0 as int, y1: y1 as int };
    assert(win == spiral_window(bounds, z));
    let max_ring: i64 = max_of(max_of(cx - x0, x1 - cx), max_of(cy - y0, y1 - cy));
    if x0 <= cx && cx <= x1 && y0 <= cy && cy <= y1 {
        tiles.push(TileCoord { z, x: ct.x, y: ct.y });
    }
    assert(tiles@ =~= win.spiral(cx as int, cy as int, 0));
    let mut ring: i64 = 1;
    while ring <= max_ring
        invariant
            win == (Window { z, x0: x0 as int, x1: x1 as int, y0: y0 as int, y1: y1 as int }),
            0 <= x0 <= x1 < 0x8000_0000,
            0 <= y0 <= y1 < 0x8000_0000,
            0 <= cx < 0x8000_0000,
            0 <= cy < 0x8000_0000,
            1 <= ring <= max_ring + 1,
            max_ring == win.reach(cx as int, cy as int),
            0 <= max_ring < 0x8000_0000,
            tiles@ == win.spiral(cx as int, cy as int, (ring - 1) as nat),
        decreases max_ring + 1 - ring,
    {
        push_ring(&mut tiles, z, cx, cy, ring, x0, x1, y0, y1);
        ring = ring + 1;
    }
    tiles
}

fn push_ring(
    tiles: &mut Vec<TileCoord>,
    z: u8,
    cx: i64,
    cy: i64,
    k: i64,
    x0: i64,
    x1: i64,
    y0: i64,
    y1: i64,
)
    requires
        0 <= x0 <= x1 < 0x8000_0000,
        0 <= y0 <= y1 < 0x8000_0000,
        0 <= cx < 0x8000_0000,
        0 <= cy < 0x8000_0000,
        1 <= k < 0x8000_0000,
    ensures
        final(tiles)@ == old(tiles)@ + (Window {
            z,
            x0: x0 as int,
            x1: x1 as int,
            y0: y0 as int,
            y1: y1 as int,
        }).ring(cx as int, cy as int, k as int),
{
    let ghost win = Window { z, x0: x0 as int, x1: x1 as int, y0: y0 as int, y1: y1 as int };
    let ghost s0 = tiles@;
    let top: i64 = cy - k;
    let bottom: i64 = cy + k;
    let left: i64 = cx - k;
    let right: i64 = cx + k;
    let ghost a = win.eastward(cx - k, cx + k, cy - k);
    if top >= y0 && top <= y1 {
        push_row(tiles, z, max_of(left, x0), min_of(right, x1), top);
    }
    let ghost s1 = tiles@;
    assert(s1 =~= s0 + a);
    let ghost b = win.southward(cx + k, cy - k + 1, cy + k);
    if right >= x0 && right <= x1 {
        push_column(tiles, z, right, max_of(top + 1, y0), min_of(bottom, y1));
    }
    let ghost s2 = tiles@;
    assert(s2 =~= s1 + b);
    let ghost c = win.westward(cx - k, cx + k - 1, cy + k);
    if bottom >= y0 && bottom <= y1 {
        push_row_back(tiles, z, max_of(left, x0), min_of(right - 1, x1), bottom);
    }
    let ghost s3 = tiles@;
    assert(s3 =~= s2 + c);
    let ghost d = win.northward(cx - k, cy - k + 1, cy + k - 1);
    if left >= x0 && left <= x1 {
        push_column_back(tiles, z, left, max_of(top + 1, y0), min_of(bottom - 1, y1));
    }
    assert(tiles@ =~= s3 + d);
    proof {
        lemma_regroup(s0, a, b, c, d);
    }
}

proof fn lemma_regroup<A>(s: Seq<A>, a: Seq<A>, b: Seq<A>, c: Seq<A>, d: Seq<A>)
    ensures
        s + a + b + c + d == s + (a + b + c + d),
{
    assert(s + a + b + c + d =~= s + (a + b + c + d));
}

fn push_row(tiles: &mut Vec<TileCoord>, z: u8, a: i64, b: i64, y: i64)
    requires
        0 <= a < u32::MAX,
        b < u32::MAX,
        0 <= y < u32::MAX,
    ensures
        final(tiles)@ == old(tiles)@ + Seq::new(
            span(a as int, b as int),
            |i: int| tile_at(z, a + i, y as int),
        ),
{
    let mut x: i64 = a;
    while x <= b
        invariant
            0 <= a <= x,
            x <= b + 1 || x == a,
            b < u32::MAX,
            0 <= y < u32::MAX,
            tiles@ =~= old(tiles)@ + Seq::new(
                (x - a) as nat,
                |i: int| tile_at(z, a + i, y as int),
            ),
        decreases b + 1 - x,
    {
        tiles.push(TileCoord { z, x: x as u32, y: y as u32 });
        x = x + 1;
    }
}

fn push_row_back(tiles: &mut Vec<TileCoord>, z: u8, a: i64, b: i64, y: i64)
    requires
        0 <= a < u32::MAX,
        -2 <= b < u32::MAX,
        0 <= y < u32::MAX,
    ensures
        final(tiles)@ == old(tiles)@ + Seq::new(
            span(a as int, b as int),
            |i: int| tile_at(z, b - i, y as int),
        ),
{
    let mut x: i64 = b;
    while x >= a
        invariant
            0 <= a,
            x <= b,
            x >= a - 1 || x == b,
            -2 <= b < u32::MAX,
            0 <= y < u32::MAX,
            tiles@ =~= old(tiles)@ + Seq::new(
                (b - x) as nat,
                |i: int| tile_at(z, b - i, y as int),
            ),
        decreases x + 1 - a,
    {
        tiles.push(TileCoord { z, x: x as u32, y: y as u32 });
        x = x - 1;
    }
}

fn push_column(tiles: &mut Vec<TileCoord>, z: u8, x: i64, a: i64, b: i64)
    requires
        0 <= a < u32::MAX,
        b < u32::MAX,
        0 <= x < u32::MAX,
    ensures
        final(tiles)@ == old(tiles)@ + Seq::new(
            span(a as int, b as int),
            |i: int| tile_at(z, x as int, a + i),
        ),
{
    let mut y: i64 = a;
    while y <= b
        invariant
            0 <= a <= y,
            y <= b + 1 || y == a,
            b < u32::MAX,
            0 <= x < u32::MAX,
            tiles@ =~= old(tiles)@ + Seq::new(
                (y - a) as nat,
                |i: int| tile_at(z, x as int, a + i),
            ),
        decreases b + 1 - y,
    {
        tiles.push(TileCoord { z, x: x as u32, y: y as u32 });
        y = y + 1;
    }
}

fn push_column_back(tiles: &mut Vec<TileCoord>, z: u8, x: i64, a: i64, b: i64)
    requires
        0 <= a < u32::MAX,
        -2 <= b < u32::MAX,
        0 <= x < u32::MAX,
    ensures
        final(tiles)@ == old(tiles)@ + Seq::new(
            span(a as int, b as int),
            |i: int| tile_at(z, x as int, b - i),
        ),
{
    let mut y: i64 = b;
    while y >= a
        invariant
            0 <= a,
            y <= b,
            y >= a - 1 || y == b,
            -2 <= b < u32::MAX,
            0 <= x < u32::MAX,
            tiles@ =~= old(tiles)@ + Seq::new(
                (b - y) as nat,
                |i: int| tile_at(z, x as int, b - i),
            ),
        decreases y + 1 - a,
    {
        tiles.push(TileCoord { z, x: x as u32, y: y as u32 });
        y = y - 1;
    }
}

/// Joining two sequences without repetitions or common members.
proof fn lemma_join<A>(a: Seq<A>, b: Seq<A>)
    requires
        a.no_duplicates(),
        b.no_duplicates(),
        forall|t: A| !(a.contains(t) && b.contains(t)),
    ensures
        (a + b).no_duplicates(),
        forall|t: A| (a + b).contains(t) <==> a.contains(t) || b.contains(t),
{
    let s = a + b;
    assert forall|t: A| a.contains(t) || b.contains(t) implies s.contains(t) by {
        if a.contains(t) {
            let i = choose|i: int| 0 <= i < a.len() && a[i] == t;
            assert(s[i] == t);
        } else {
            let i = choose|i: int| 0 <= i < b.len() && b[i] == t;
            assert(s[a.len() + i] == t);
        }
    }
    assert forall|i: int, j: int| 0 <= i < j < s.len() implies s[i] != s[j] by {
        if i < a.len() && j >= a.len() {
            assert(a.contains(a[i]));
            assert(b.contains(b[j - a.len()]));
        }
    }
}

proof fn lemma_row(win: Window, xa: int, xb: int, y: int)
    requires
        0 <= win.x0 <= win.x1 < u32::MAX,
        0 <= win.y0 <= win.y1 < u32::MAX,
    ensures
        win.eastward(xa, xb, y).no_duplicates(),
        win.westward(xa, xb, y).no_duplicates(),
        forall|t: TileCoord|
            win.eastward(xa, xb, y).contains(t) <==> win.holds(t) && t.y == y && xa <= t.x <= xb,
        forall|t: TileCoord|
            win.westward(xa, xb, y).contains(t) <==> win.holds(t) && t.y == y && xa <= t.x <= xb,
{
    let e = win.eastward(xa, xb, y);
    let w = win.westward(xa, xb, y);
    assert forall|t: TileCoord| win.holds(t) && t.y == y && xa <= t.x <= xb implies e.contains(t)
        && w.contains(t) by {
        assert(e[t.x - larger(xa, win.x0)] == t);
        assert(w[smaller(xb, win.x1) - t.x] == t);
    }
}

proof fn lemma_column(win: Window, x: int, ya: int, yb: int)
    requires
        0 <= win.x0 <= win.x1 < u32::MAX,
        0 <= win.y0 <= win.y1 < u32::MAX,
    ensures
        win.southward(x, ya, yb).no_duplicates(),
        win.northward(x, ya, yb).no_duplicates(),
        forall|t: TileCoord|
            win.southward(x, ya, yb).contains(t) <==> win.holds(t) && t.x == x && ya <= t.y <= yb,
        forall|t: TileCoord|
            win.northward(x, ya, yb).contains(t) <==> win.holds(t) && t.x == x && ya <= t.y <= yb,
{
    let s = win.southward(x, ya, yb);
    let n = win.northward(x, ya, yb);
    assert forall|t: TileCoord| win.holds(t) && t.x == x && ya <= t.y <= yb implies s.contains(t)
        && n.contains(t) by {
        assert(s[t.y - larger(ya, win.y0)] == t);
        assert(n[smaller(yb, win.y1) - t.y] == t);
    }
}

/// A ring holds the window's tiles at its distance, each once.
proof fn lemma_ring(win: Window, cx: int, cy: int, k: int)
    requires
        0 <= win.x0 <= win.x1 < u32::MAX,
        0 <= win.y0 <= win.y1 < u32::MAX,
        k >= 1,
    ensures
        win.ring(cx, cy, k).no_duplicates(),
        forall|t: TileCoord|
            #[trigger] win.ring(cx, cy, k).contains(t) <==> win.holds(t) && tile_distance(cx, cy, t) == k,
{
    let a = win.eastward(cx - k, cx + k, cy - k);
    let b = win.southward(cx + k, cy - k + 1, cy + k);
    let c = win.westward(cx - k, cx + k - 1, cy + k);
    let d = win.northward(cx - k, cy - k + 1, cy + k - 1);
    lemma_row(win, cx - k, cx + k, cy - k);
    lemma_column(win, cx + k, cy - k + 1, cy + k);
    lemma_row(win, cx - k, cx + k - 1, cy + k);
    lemma_column(win, cx - k, cy - k + 1, cy + k - 1);
    lemma_join(a, b);
    lemma_join(a + b, c);
    lemma_join(a + b + c, d);
}

proof fn lemma_spiral(win: Window, cx: int, cy: int, n: nat)
    requires
        0 <= win.x0 <= win.x1 < u32::MAX,
        0 <= win.y0 <= win.y1 < u32::MAX,
        0 <= cx < u32::MAX,
        0 <= cy < u32::MAX,
    ensures
        win.spiral(cx, cy, n).no_duplicates(),
        forall|t: TileCoord|
            #[trigger] win.spiral(cx, cy, n).contains(t) <==> win.holds(t) && tile_distance(cx, cy, t) <= n,
        forall|i: int, j: int|
            0 <= i <= j < win.spiral(cx, cy, n).len() ==> tile_distance(
                cx,
                cy,
                #[trigger] win.spiral(cx, cy, n)[i],
            ) <= tile_distance(cx, cy, #[trigger] win.spiral(cx, cy, n)[j]),
    decreases n,
{
    let s = win.spiral(cx, cy, n);
    if n == 0 {
        assert forall|t: TileCoord| win.holds(t) && tile_distance(cx, cy, t) <= 0 implies s.contains(
            t,
        ) by {
            assert(s[0] == t);
        }
    } else {
        let p = win.spiral(cx, cy, (n - 1) as nat);
        let r = win.ring(cx, cy, n as int);
        lemma_spiral(win, cx, cy, (n - 1) as nat);
        lemma_ring(win, cx, cy, n as int);
        assert(s =~= p + r);
        assert forall|i: int| 0 <= i < p.len() implies tile_distance(cx, cy, #[trigger] p[i]) <= n - 1
            && win.holds(p[i]) by {
            assert(p.contains(p[i]));
        }
        assert forall|i: int| 0 <= i < r.len() implies tile_distance(cx, cy, #[trigger] r[i]) == n
            && win.holds(r[i]) by {
            assert(r.contains(r[i]));
        }
        assert forall|t: TileCoord| win.holds(t) && tile_distance(cx, cy, t) <= n implies s.contains(
            t,
        ) by {
            if tile_distance(cx, cy, t) == n {
                assert(r.contains(t));
                let i = choose|i: int| 0 <= i < r.len() && r[i] == t;
                assert(s[p.len() + i] == t);
            } else {
                assert(p.contains(t));
                let i = choose|i: int| 0 <= i < p.len() && p[i] == t;
                assert(s[i] == t);
            }
        }
        assert forall|i: int, j: int| 0 <= i <= j < s.len() implies tile_distance(
            cx,
            cy,
            #[trigger] s[i],
        ) <= tile_distance(cx, cy, #[trigger] s[j]) by {
            if i < p.len() {
                assert(s[i] == p[i]);
            } else {
                assert(s[i] == r[i - p.len()]);
            }
            if j < p.len() {
                assert(s[j] == p[j]);
            } else {
                assert(s[j] == r[j - p.len()]);
            }
        }
        assert forall|i: int, j: int| 0 <= i < j < s.len() implies s[i] != s[j] by {
            if i < p.len() {
                assert(s[i] == p[i]);
            } else {
                assert(s[i] == r[i - p.len()]);
            }
            if j < p.len() {
                assert(s[j] == p[j]);
            } else {
                assert(s[j] == r[j - p.len()]);
            }
        }
    }
}

/// The outward walk visits every tile of the window once, never steps closer
/// to the centre, and begins with the centre tile where the window has it.
pub proof fn spiral_visits_each_tile_once_nearest_first(bounds: Bounds, z: u8, center: WorldPoint)
    requires
        z <= 31,
    ensures
        ({
            let win = spiral_window(bounds, z);
            let (cx, cy) = (tile_index(center.x, z), tile_index(center.y, z));
            let s = win.outward(cx, cy);
            &&& s.no_duplicates()
            &&& forall|t: TileCoord| #[trigger] s.contains(t) <==> win.holds(t)
            &&& forall|i: int, j: int|
                0 <= i <= j < s.len() ==> tile_distance(cx, cy, #[trigger] s[i]) <= tile_distance(
                    cx,
                    cy,
                    #[trigger] s[j],
                )
            &&& win.holds(tile_at(z, cx, cy)) ==> s.len() > 0 && s[0] == tile_at(z, cx, cy)
        }),
{
    let win = spiral_window(bounds, z);
    let (cx, cy) = (tile_index(center.x, z), tile_index(center.y, z));
    let s = win.outward(cx, cy);
    lemma2_to64();
    lemma_pow2_pos(z as nat);
    if z < 31 {
        lemma_pow2_strictly_increases(z as nat, 31);
    }
    if !win.empty() {
        lemma_spiral(win, cx, cy, win.reach(cx, cy) as nat);
        if win.holds(tile_at(z, cx, cy)) {
            let c = tile_at(z, cx, cy);
            assert(s.contains(c));
            assert(tile_distance(cx, cy, s[0]) <= 0) by {
                let i = choose|i: int| 0 <= i < s.len() && s[i] == c;
                assert(tile_distance(cx, cy, s[i]) == 0);
            }
            assert(s.contains(s[0]));
        }
    }
}

/// A coordinate on the map stays as it is, and one beyond its edge, which is at
/// 180 degrees of longitude and at 85.05112878 of latitude, moves to the edge.
pub proof fn points_keep_to_the_map(lon: Double, lat: Double)
    ensures
        ({
            let p = GeoPoint::bounded(lon, lat);
            let east = Double { bits: 0x4066_8000_0000_0000 };
            let west = Double { bits: 0xc066_8000_0000_0000 };
            let north = Double { bits: 0x4055_4345_b1a5_7f00 };
            let south = Double { bits: 0xc055_4345_b1a5_7f00 };
            &&& west.at_most(lon) && lon.at_most(east) ==> p.lon == lon
            &&& lon.below(west) ==> p.lon == west
            &&& east.below(lon) && !lon.below(west) ==> p.lon == east
            &&& south.at_most(lat) && lat.at_most(north) ==> p.lat == lat
            &&& lat.below(south) ==> p.lat == south
            &&& north.below(lat) && !lat.below(south) ==> p.lat == north
        }),
{
}

proof fn lemma_floor(u: int, z: u8)
    requires
        z <= 31,
    ensures
        ({
            let side = pow2((1074 - z) as nat) as int;
            let q = (u * pow2(z as nat)) / (pow2(1074) as int);
            &&& side > 0
            &&& q * side <= u < (q + 1) * side
            &&& pow2(1074) == pow2(z as nat) * side
            &&& q == u / side
        }),
{
    let a = pow2(z as nat) as int;
    let side = pow2((1074 - z) as nat) as int;
    lemma_pow2_pos(z as nat);
    lemma_pow2_pos((1074 - z) as nat);
    lemma_pow2_adds(z as nat, (1074 - z) as nat);
    lemma_pow2_pos(1074);
    let whole = pow2(1074) as int;
    let q = (u * a) / whole;
    let r = (u * a) % whole;
    lemma_fundamental_div_mod(u * a, whole);
    lemma_mod_bound(u * a, whole);
    assert(a * (u - q * side) == r) by (nonlinear_arith)
        requires
            u * a == whole * q + r,
            whole == a * side,
    ;
    assert(0 <= u - q * side < side) by (nonlinear_arith)
        requires
            a * (u - q * side) == r,
            0 <= r < a * side,
            a > 0,
    ;
    lemma_mul_is_distributive_add_other_way(side, q, 1);
    lemma_mul_is_commutative(side, q);
    lemma_fundamental_div_mod_converse(u, side, q, u - q * side);
}

/// A point of the world lies in the square of its tile: `x` counts the tiles to
/// the west of it and `y` those to the north.
pub proof fn points_lie_in_their_tiles(p: WorldPoint, z: u8)
    requires
        z <= 31,
        !p.x.nan() && 0 <= p.x.units() < pow2(1074),
        !p.y.nan() && 0 <= p.y.units() < pow2(1074),
    ensures
        ({
            let t = tile_at(z, tile_index(p.x, z), tile_index(p.y, z));
            let side = pow2((1074 - z) as nat);
            &&& t.z == z
            &&& t.x * side <= p.x.units() < (t.x + 1) * side
            &&& t.y * side <= p.y.units() < (t.y + 1) * side
        }),
{
    lemma_index_of(p.x, z);
    lemma_index_of(p.y, z);
}

proof fn lemma_index_of(c: Double, z: u8)
    requires
        z <= 31,
        !c.nan() && 0 <= c.units() < pow2(1074),
    ensures
        ({
            let side = pow2((1074 - z) as nat);
            let q = tile_index(c, z);
            &&& q * side <= c.units() < (q + 1) * side
            &&& 0 <= q < pow2(z as nat) <= 0x8000_0000
        }),
{
    let u = c.units();
    let side = pow2((1074 - z) as nat) as int;
    let n = pow2(z as nat) as int;
    let q = c.floor_at(z as nat);
    lemma_floor(u, z);
    lemma2_to64();
    if z < 31 {
        lemma_pow2_strictly_increases(z as nat, 31);
    }
    assert(0 <= q < n) by (nonlinear_arith)
        requires
            q * side <= u < (q + 1) * side,
            0 <= u < n * side,
            side > 0,
    ;
}

/// The tiles in view hold the tile of every point in view.
pub proof fn points_in_view_have_a_tile(bounds: Bounds, z: u8, p: WorldPoint)
    requires
        z <= 31,
        bounds.min_x.at_most(p.x) && p.x.at_most(bounds.max_x),
        bounds.min_y.at_most(p.y) && p.y.at_most(bounds.max_y),
    ensures
        tiles_in_view(bounds, z).contains(tile_at(z, tile_index(p.x, z), tile_index(p.y, z))),
{
    lemma2_to64();
    lemma_pow2_pos(z as nat);
    if z < 31 {
        lemma_pow2_strictly_increases(z as nat, 31);
    }
    lemma_index_order(bounds.min_x, p.x, z);
    lemma_index_order(p.x, bounds.max_x, z);
    lemma_index_order(bounds.min_y, p.y, z);
    lemma_index_order(p.y, bounds.max_y, z);
    visible_tiles_cover_the_view(bounds, z);
    assert(in_view(bounds, z, tile_at(z, tile_index(p.x, z), tile_index(p.y, z))));
}

proof fn lemma_index_order(a: Double, b: Double, z: u8)
    requires
        z <= 31,
        a.at_most(b),
    ensures
        tile_index(a, z) <= tile_index(b, z),
{
    lemma_floor(a.units(), z);
    lemma_floor(b.units(), z);
    lemma_pow2_pos(z as nat);
    lemma_div_is_ordered(a.units(), b.units(), pow2((1074 - z) as nat) as int);
}

/// Two boxes overlap where they have a point in common, and only there: then the
/// larger of their western edges and the larger of their northern edges lie in
/// both.
pub proof fn overlapping_boxes_share_a_point(a: Bounds, b: Bounds, p: WorldPoint)
    ensures
        (a.min_x.at_most(p.x) && p.x.at_most(a.max_x) && a.min_y.at_most(p.y) && p.y.at_most(
            a.max_y,
        ) && b.min_x.at_most(p.x) && p.x.at_most(b.max_x) && b.min_y.at_most(p.y) && p.y.at_most(
            b.max_y,
        )) ==> a.overlaps(b),
        a.overlaps(b) == b.overlaps(a),
        a.overlaps(b) && a.min_x.at_most(a.max_x) && b.min_x.at_most(b.max_x) && a.min_y.at_most(
            a.max_y,
        ) && b.min_y.at_most(b.max_y) ==> ({
            let x = if a.min_x.below(b.min_x) {
                b.min_x
            } else {
                a.min_x
            };
            let y = if a.min_y.below(b.min_y) {
                b.min_y
            } else {
                a.min_y
            };
            &&& a.min_x.at_most(x) && x.at_most(a.max_x) && a.min_y.at_most(y) && y.at_most(a.max_y)
            &&& b.min_x.at_most(x) && x.at_most(b.max_x) && b.min_y.at_most(y) && y.at_most(b.max_y)
        }),
{
}

/// A box that covers another has every point of it.
pub proof fn covering_boxes_have_every_point(a: Bounds, b: Bounds, p: WorldPoint)
    requires
        a.covers(b),
        b.min_x.at_most(p.x) && p.x.at_most(b.max_x),
        b.min_y.at_most(p.y) && p.y.at_most(b.max_y),
    ensures
        a.min_x.at_most(p.x) && p.x.at_most(a.max_x),
        a.min_y.at_most(p.y) && p.y.at_most(a.max_y),
{
}

impl Default for Bounds {
    /// The empty box at the origin.
    fn default() -> (b: Bounds)
        ensures
            b.min_x.bits == 0,
            b.max_x.bits == 0,
            b.min_y.bits == 0,
            b.max_y.bits == 0,
    {
        let zero = Double::from_bits(0);
        Bounds { min_x: zero, max_x: zero, min_y: zero, max_y: zero }
    }
}

} // verus!
