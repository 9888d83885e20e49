//! The cells that the motion estimate between two frames looks at.

use vstd::prelude::*;

verus! {

/// The most levels of a pyramid, the finest one counted.
pub const MAX_PYRAMID_LEVELS: usize = 4;

/// The fewest cells along a side of a coarser level.
pub const MIN_PYRAMID_DIM: usize = 8;

/// The sizes of at most `n` levels, the finest first: each level is half of
/// the one before, as long as its sides are long enough.
pub open spec fn level_sizes(width: nat, height: nat, n: nat) -> Seq<(nat, nat)>
    decreases n,
{
    if n == 0 {
        Seq::empty()
    } else if width / 2 < MIN_PYRAMID_DIM || height / 2 < MIN_PYRAMID_DIM {
        seq![(width, height)]
    } else {
        seq![(width, height)] + level_sizes(width / 2, height / 2, (n - 1) as nat)
    }
}

pub open spec fn sizes_model(s: Seq<(usize, usize)>) -> Seq<(nat, nat)> {
    s.map_values(|e: (usize, usize)| (e.0 as nat, e.1 as nat))
}

/// The sizes of the levels between two frames of a size, the finest first.
pub fn pyramid_sizes(width: usize, height: usize) -> (r: Vec<(usize, usize)>)
    ensures
        sizes_model(r@) == level_sizes(width as nat, height as nat, MAX_PYRAMID_LEVELS as nat),
{
    let mut r: Vec<(usize, usize)> = Vec::new();
    let mut w: usize = width;
    let mut h: usize = height;
    let ghost all = level_sizes(width as nat, height as nat, MAX_PYRAMID_LEVELS as nat);
    assert(sizes_model(r@) + level_sizes(w as nat, h as nat, 4) =~= all);
    loop
        invariant_except_break
            r.len() < MAX_PYRAMID_LEVELS,
            sizes_model(r@) + level_sizes(
                w as nat,
                h as nat,
                (MAX_PYRAMID_LEVELS - r.len()) as nat,
            ) == all,
        ensures
            sizes_model(r@) == all,
        decreases MAX_PYRAMID_LEVELS - r.len(),
    {
        let ghost before = sizes_model(r@);
        let ghost n = (MAX_PYRAMID_LEVELS - r.len()) as nat;
        r.push((w, h));
        assert(sizes_model(r@) =~= before.push((w as nat, h as nat)));
        if w / 2 < MIN_PYRAMID_DIM || h / 2 < MIN_PYRAMID_DIM {
            assert(before + level_sizes(w as nat, h as nat, n) =~= sizes_model(r@));
            break;
        }
        assert(before + level_sizes(w as nat, h as nat, n) =~= sizes_model(r@) + level_sizes(
            w as nat / 2,
            h as nat / 2,
            (n - 1) as nat,
        ));
        if r.len() == MAX_PYRAMID_LEVELS {
            assert(sizes_model(r@) + level_sizes(w as nat / 2, h as nat / 2, 0) =~= sizes_model(
                r@,
            ));
            break;
        }
        w = w / 2;
        h = h / 2;
    }
    r
}

/// A pyramid has one to four levels, and only the finest may have a side of
/// fewer than eight cells.
pub proof fn pyramids_are_shallow(width: nat, height: nat, n: nat, i: int)
    requires
        n > 0,
        0 <= i < level_sizes(width, height, n).len(),
    ensures
        1 <= level_sizes(width, height, n).len() <= n,
        i > 0 ==> level_sizes(width, height, n)[i].0 >= MIN_PYRAMID_DIM && level_sizes(
            width,
            height,
            n,
        )[i].1 >= MIN_PYRAMID_DIM,
    decreases n,
{
    reveal_with_fuel(level_sizes, 3);
    let s = level_sizes(width, height, n);
    if width / 2 >= MIN_PYRAMID_DIM && height / 2 >= MIN_PYRAMID_DIM && n > 1 {
        let rest = level_sizes(width / 2, height / 2, (n - 1) as nat);
        pyramids_are_shallow(width / 2, height / 2, (n - 1) as nat, 0);
        if i > 0 {
            pyramids_are_shallow(width / 2, height / 2, (n - 1) as nat, i - 1);
            assert(s[i] == rest[i - 1]);
            if i == 1 {
                assert(rest[0] == (width / 2, height / 2));
            }
        }
    }
}

/// The finest level has the size of the frames, each further one is half as wide
/// and half as high, and a level is left out only where there are enough or it
/// would be too small.
pub proof fn levels_halve(width: nat, height: nat, n: nat)
    requires
        n > 0,
    ensures
        level_sizes(width, height, n).len() > 0,
        level_sizes(width, height, n)[0] == (width, height),
        forall|i: int|
            0 <= i < level_sizes(width, height, n).len() - 1 ==> #[trigger] level_sizes(
                width,
                height,
                n,
            )[i + 1] == (
                level_sizes(width, height, n)[i].0 / 2,
                level_sizes(width, height, n)[i].1 / 2,
            ),
        level_sizes(width, height, n).len() < n ==> level_sizes(width, height, n).last().0 / 2
            < MIN_PYRAMID_DIM || level_sizes(width, height, n).last().1 / 2 < MIN_PYRAMID_DIM,
    decreases n,
{
    let s = level_sizes(width, height, n);
    if width / 2 >= MIN_PYRAMID_DIM && height / 2 >= MIN_PYRAMID_DIM {
        let rest = level_sizes(width / 2, height / 2, (n - 1) as nat);
        if n > 1 {
            levels_halve(width / 2, height / 2, (n - 1) as nat);
            assert(s.last() == rest.last());
        }
        assert forall|i: int| 0 <= i < s.len() - 1 implies #[trigger] s[i + 1] == (
            s[i].0 / 2,
            s[i].1 / 2,
        ) by {
            assert(s[i + 1] == rest[i]);
            if i > 0 {
                assert(s[i] == rest[i - 1]);
                assert(rest[i - 1 + 1] == (rest[i - 1].0 / 2, rest[i - 1].1 / 2));
            }
        }
    }
}

/// The place of a cell in a list of rows.
pub open spec fn place(x: int, y: int, w: int) -> int {
    y * w + x
}

/// Cells stand row by row: the place of a cell gives its column and its row.
pub proof fn cells_stand_row_by_row(x: int, y: int, w: int)
    requires
        0 <= x < w,
        0 <= y,
    ensures
        place(x, y, w) % w == x,
        place(x, y, w) / w == y,
{
    vstd::arithmetic::div_mod::lemma_fundamental_div_mod_converse(place(x, y, w), w, y, x);
}

/// A coordinate moved onto a side of `n` cells.
pub open spec fn onto(v: int, n: int) -> int {
    if v < 0 {
        0
    } else if v < n {
        v
    } else {
        n - 1
    }
}

proof fn lemma_place(x: int, y: int, w: int, h: int)
    requires
        0 <= x < w,
        0 <= y < h,
    ensures
        0 <= place(x, y, w) < w * h,
        0 <= y * w,
{
    assert(0 <= y * w && y * w + x < w * h) by (nonlinear_arith)
        requires
            0 <= x < w,
            0 <= y < h,
    ;
}

fn cell(x: usize, y: usize, w: usize, h: usize) -> (i: usize)
    requires
        0 < w,
        0 < h,
        w * h <= usize::MAX,
    ensures
        i == place(onto(x as int, w as int), onto(y as int, h as int), w as int),
        i < w * h,
{
    let cx: usize = if x < w {
        x
    } else {
        w - 1
    };
    let cy: usize = if y < h {
        y
    } else {
        h - 1
    };
    proof {
        lemma_place(cx as int, cy as int, w as int, h as int);
    }
    cy * w + cx
}

/// Four cells of a grid, by their places.
#[derive(Debug, Clone, Copy, PartialEq, Eq, Structural)]
pub struct FourCells {
    pub a: usize,
    pub b: usize,
    pub c: usize,
    pub d: usize,
}

/// The cells of a grid of `w` by `h` that the cell at `x`, `y` of a grid half
/// as large averages: two and two, row by row. The last column and row stand
/// for what lies beyond.
pub fn block_cells(x: usize, y: usize, w: usize, h: usize) -> (r: FourCells)
    requires
        0 < w,
        0 < h,
        w * h <= usize::MAX,
        2 * x < usize::MAX,
        2 * y < usize::MAX,
    ensures
        r.a == place(onto(2 * x, w as int), onto(2 * y, h as int), w as int),
        r.b == place(onto(2 * x + 1, w as int), onto(2 * y, h as int), w as int),
        r.c == place(onto(2 * x, w as int), onto(2 * y + 1, h as int), w as int),
        r.d == place(onto(2 * x + 1, w as int), onto(2 * y + 1, h as int), w as int),
        r.a < w * h,
        r.b < w * h,
        r.c < w * h,
        r.d < w * h,
{
    FourCells {
        a: cell(2 * x, 2 * y, w, h),
        b: cell(2 * x + 1, 2 * y, w, h),
        c: cell(2 * x, 2 * y + 1, w, h),
        d: cell(2 * x + 1, 2 * y + 1, w, h),
    }
}

/// The neighbours of a cell: left, right, above, below. A cell at the edge is
/// its own neighbour there.
pub fn neighbor_cells(x: usize, y: usize, w: usize, h: usize) -> (r: FourCells)
    requires
        x < w,
        y < h,
        w * h <= usize::MAX,
    ensures
        r.a == place(onto(x - 1, w as int), y as int, w as int),
        r.b == place(onto(x + 1, w as int), y as int, w as int),
        r.c == place(x as int, onto(y - 1, h as int), w as int),
        r.d == place(x as int, onto(y + 1, h as int), w as int),
        r.a < w * h,
        r.b < w * h,
        r.c < w * h,
        r.d < w * h,
{
    FourCells {
        a: cell(
            if x > 0 {
                x - 1
            } else {
                0
            },
            y,
            w,
            h,
        ),
        b: cell(x + 1, y, w, h),
        c: cell(
            x,
            if y > 0 {
                y - 1
            } else {
                0
            },
            w,
            h,
        ),
        d: cell(x, y + 1, w, h),
    }
}

} // verus!
