//! The regional backdrop: which cells are asked for, in which order, and what
//! is kept of the answers.

use vstd::prelude::*;

use crate::double::Double;
use crate::features::{duplicate_points, ObservationPoint};
use crate::geo::WorldPoint;
use crate::order::{precedes, rank_order, rank_order_is_stable_and_complete, sorted_indices};
use crate::stations::{
    admit_points, is_point_of, new_points, seen_after, station_to_point, AreaFetch, AreaStation,
    SeenIds, StationInfo,
};
use crate::tasks::{elapsed, since};

verus! {

/// Whether the backdrop is asked for: only where the view is too far out to be
/// asked for itself.
pub fn should_fetch_backdrop(zoom: Double, cutoff: Double) -> (r: bool)
    ensures
        r == zoom.below(cutoff),
{
    zoom.lt(cutoff)
}

/// Whether the view itself is asked for.
pub fn should_fetch_viewport(zoom: Double, cutoff: Double) -> (r: bool)
    ensures
        r == cutoff.at_most(zoom),
{
    cutoff.le(zoom)
}

/// The view and the backdrop are never both asked for.
pub proof fn one_tier_at_a_time(zoom: Double, cutoff: Double)
    ensures
        !(zoom.below(cutoff) && cutoff.at_most(zoom)),
        !zoom.nan() && !cutoff.nan() ==> zoom.below(cutoff) || cutoff.at_most(zoom),
{
}

/// A cell of the grid: the rounded latitude and longitude in cell widths.
pub type GridCell = (i64, i64);

/// The cells among the first `n` that did not come before.
pub open spec fn distinct_cells(cells: Seq<GridCell>, n: nat) -> Seq<GridCell>
    decreases n,
{
    if n == 0 || n > cells.len() {
        Seq::empty()
    } else {
        let before = distinct_cells(cells, (n - 1) as nat);
        if before.contains(cells[n - 1]) {
            before
        } else {
            before.push(cells[n - 1])
        }
    }
}

fn has_cell(cells: &[GridCell], c: GridCell) -> (r: bool)
    ensures
        r == cells@.contains(c),
{
    let mut i: usize = 0;
    while i < cells.len()
        invariant
            i <= cells.len(),
            forall|k: int| 0 <= k < i ==> #[trigger] cells@[k] != c,
        decreases cells.len() - i,
    {
        if cells[i].0 == c.0 && cells[i].1 == c.1 {
            assert(cells@[i as int] == c);
            return true;
        }
        i = i + 1;
    }
    false
}

/// The distinct cells that points fall into, in the order of the points.
pub fn region_cells(cells: &[GridCell]) -> (r: Vec<GridCell>)
    ensures
        r@ == distinct_cells(cells@, cells@.len()),
{
    let mut out: Vec<GridCell> = Vec::new();
    let mut i: usize = 0;
    while i < cells.len()
        invariant
            i <= cells.len(),
            out@ == distinct_cells(cells@, i as nat),
        decreases cells.len() - i,
    {
        if !has_cell(out.as_slice(), cells[i]) {
            out.push(cells[i]);
        }
        i = i + 1;
    }
    out
}

/// Every point's cell is asked for, and none twice.
pub proof fn every_point_has_its_cell(cells: Seq<GridCell>, n: nat, i: int)
    requires
        n <= cells.len(),
        0 <= i < n,
    ensures
        distinct_cells(cells, n).contains(cells[i]),
        distinct_cells(cells, n).no_duplicates(),
        distinct_cells(cells, n).len() <= n,
    decreases n,
{
    let before = distinct_cells(cells, (n - 1) as nat);
    if n > 1 {
        every_point_has_its_cell(
            cells,
            (n - 1) as nat,
            if i < n - 1 {
                i
            } else {
                0
            },
        );
    }
    let after = distinct_cells(cells, n);
    if i < n - 1 {
        let k = choose|k: int| 0 <= k < before.len() && before[k] == cells[i];
        assert(after[k] == cells[i]);
    } else if !before.contains(cells[i]) {
        assert(after[before.len() as int] == cells[i]);
    }
}

/// How much a cell matters by its cities.
#[derive(Debug, Clone, Copy, PartialEq, Eq, Structural)]
pub enum CityTier {
    Capital,
    Major,
    Untiered,
}

impl CityTier {
    pub open spec fn rank(self) -> int {
        match self {
            CityTier::Capital => 0,
            CityTier::Major => 1,
            CityTier::Untiered => 2,
        }
    }
}

/// The best city in a cell.
pub open spec fn tier(cell: GridCell, capitals: Seq<GridCell>, majors: Seq<GridCell>) -> CityTier {
    if capitals.contains(cell) {
        CityTier::Capital
    } else if majors.contains(cell) {
        CityTier::Major
    } else {
        CityTier::Untiered
    }
}

pub fn cell_tier(cell: GridCell, capitals: &[GridCell], majors: &[GridCell]) -> (t: CityTier)
    ensures
        t == tier(cell, capitals@, majors@),
{
    if has_cell(capitals, cell) {
        CityTier::Capital
    } else if has_cell(majors, cell) {
        CityTier::Major
    } else {
        CityTier::Untiered
    }
}

/// What decides a cell's place in the order.
#[derive(Debug, Clone, Copy, PartialEq, Eq, Structural)]
pub struct CellRank {
    /// Whether the cell is in view.
    pub overlap: bool,
    pub tier: CityTier,
    /// The squared distance from the centre of the view.
    pub distance: Double,
}

/// Whether a cell comes before another: in view before out of view, then the
/// better city, then the nearer.
pub open spec fn comes_before(a: CellRank, b: CellRank) -> bool {
    if a.overlap != b.overlap {
        a.overlap
    } else if a.tier != b.tier {
        a.tier.rank() < b.tier.rank()
    } else {
        a.distance.below(b.distance)
    }
}

fn is_before(a: &CellRank, b: &CellRank) -> (r: bool)
    ensures
        r == comes_before(*a, *b),
{
    if a.overlap != b.overlap {
        a.overlap
    } else if a.tier != b.tier {
        match (a.tier, b.tier) {
            (CityTier::Capital, _) => true,
            (CityTier::Major, CityTier::Untiered) => true,
            _ => false,
        }
    } else {
        a.distance.lt(b.distance)
    }
}

/// How many of the first `n` cells come before a cell.
pub open spec fn ahead(ranks: Seq<CellRank>, r: CellRank, n: nat) -> nat
    decreases n,
{
    if n == 0 || n > ranks.len() {
        0
    } else {
        ahead(ranks, r, (n - 1) as nat) + if comes_before(ranks[n - 1], r) {
            1nat
        } else {
            0
        }
    }
}

/// The places of the cells: how many come before each.
pub open spec fn places(ranks: Seq<CellRank>) -> Seq<usize> {
    Seq::new(ranks.len(), |i: int| ahead(ranks, ranks[i], ranks.len()) as usize)
}

/// The order in which cells are asked for, as indices. Cells that tie keep
/// their order.
pub fn order_cells(ranks: &[CellRank]) -> (r: Vec<usize>)
    ensures
        r@.map_values(|i: usize| i as int) == rank_order(places(ranks@), ranks@.len()),
{
    let mut keys: Vec<usize> = Vec::new();
    let mut i: usize = 0;
    while i < ranks.len()
        invariant
            i <= ranks.len(),
            keys@ == places(ranks@).take(i as int),
        decreases ranks.len() - i,
    {
        let mut n: usize = 0;
        let mut j: usize = 0;
        while j < ranks.len()
            invariant
                j <= ranks.len(),
                i < ranks.len(),
                n == ahead(ranks@, ranks@[i as int], j as nat),
                n <= j,
            decreases ranks.len() - j,
        {
            if is_before(&ranks[j], &ranks[i]) {
                n = n + 1;
            }
            j = j + 1;
        }
        keys.push(n);
        assert(places(ranks@).take(i + 1) =~= places(ranks@).take(i as int).push(n));
        i = i + 1;
    }
    assert(keys@ =~= places(ranks@));
    let order = sorted_indices(keys.as_slice());
    assert(order@.map_values(|i: usize| i as int) =~= rank_order(places(ranks@), ranks@.len()));
    order
}

/// A cell that comes before another gets the earlier place.
pub proof fn places_follow_importance(ranks: Seq<CellRank>, i: int, j: int)
    requires
        0 <= i < ranks.len() <= usize::MAX,
        0 <= j < ranks.len(),
        comes_before(ranks[i], ranks[j]),
    ensures
        places(ranks)[i] < places(ranks)[j],
{
    lemma_ahead_bounded(ranks, ranks[i], ranks.len());
    lemma_ahead_bounded(ranks, ranks[j], ranks.len());
    lemma_ahead_grows(ranks, i, j, ranks.len());
}

proof fn lemma_ahead_bounded(ranks: Seq<CellRank>, r: CellRank, n: nat)
    ensures
        ahead(ranks, r, n) <= n,
    decreases n,
{
    if n > 0 && n <= ranks.len() {
        lemma_ahead_bounded(ranks, r, (n - 1) as nat);
    }
}

proof fn lemma_ahead_grows(ranks: Seq<CellRank>, i: int, j: int, n: nat)
    requires
        0 <= i < ranks.len(),
        0 <= j < ranks.len(),
        n <= ranks.len(),
        comes_before(ranks[i], ranks[j]),
    ensures
        ahead(ranks, ranks[i], n) + (if i < n {
            1int
        } else {
            0
        }) <= ahead(ranks, ranks[j], n),
    decreases n,
{
    if n > 0 {
        lemma_ahead_grows(ranks, i, j, (n - 1) as nat);
        let c = ranks[n - 1];
        if comes_before(c, ranks[i]) {
            assert(comes_before(c, ranks[j]));
        }
        assert(!comes_before(ranks[i], ranks[i]));
    }
}

/// What is in view comes before what is not, whatever its cities; of two cells
/// that are both in view or both out of it, a capital comes before another city
/// and a city before none; and of two that are alike in both, the nearer comes
/// first.
pub proof fn the_view_comes_first(a: CellRank, b: CellRank)
    ensures
        a.overlap && !b.overlap ==> comes_before(a, b) && !comes_before(b, a),
        a.overlap == b.overlap && a.tier == CityTier::Capital && b.tier != CityTier::Capital
            ==> comes_before(a, b) && !comes_before(b, a),
        a.overlap == b.overlap && a.tier == CityTier::Major && b.tier == CityTier::Untiered
            ==> comes_before(a, b) && !comes_before(b, a),
        a.overlap == b.overlap && a.tier == b.tier && a.distance.below(b.distance)
            ==> comes_before(a, b) && !comes_before(b, a),
        a == b ==> !comes_before(a, b),
{
}

/// Cells are asked for in that order, each once.
pub proof fn cells_are_asked_by_importance(ranks: Seq<CellRank>, a: int, b: int)
    requires
        0 <= a < b < ranks.len() <= usize::MAX,
    ensures
        rank_order(places(ranks), ranks.len()).len() == ranks.len(),
        rank_order(places(ranks), ranks.len()).no_duplicates(),
        forall|i: int|
            0 <= i < ranks.len() ==> #[trigger] rank_order(places(ranks), ranks.len()).contains(i),
        !comes_before(
            ranks[rank_order(places(ranks), ranks.len())[b]],
            ranks[rank_order(places(ranks), ranks.len())[a]],
        ),
{
    let p = places(ranks);
    let order = rank_order(p, ranks.len());
    rank_order_is_stable_and_complete(p, ranks.len());
    assert(order.contains(order[a]) && order.contains(order[b]));
    if comes_before(ranks[order[b]], ranks[order[a]]) {
        places_follow_importance(ranks, order[b], order[a]);
        assert(precedes(p, order[a], order[b]));
    }
}

/// A cell with a capital in it is a capital's, and one with only another large
/// city is that city's.
pub proof fn capitals_outrank_other_cities(
    cell: GridCell,
    capitals: Seq<GridCell>,
    majors: Seq<GridCell>,
)
    ensures
        capitals.contains(cell) <==> tier(cell, capitals, majors) == CityTier::Capital,
        !capitals.contains(cell) && !majors.contains(cell) <==> tier(cell, capitals, majors)
            == CityTier::Untiered,
{
}

/// Readings of a cell are used for six hours.
pub const CAPITAL_DATA_TTL: u64 = 21_600_000_000_000;

/// Cells are kept for a day, in seconds.
pub const BACKDROP_HISTORY_SECS: u64 = 86_400;

/// What a cell of the backdrop gave.
#[derive(Debug)]
pub struct Cell {
    /// The bit patterns of the centre's latitude and longitude.
    pub lat_bits: u64,
    pub lon_bits: u64,
    pub points: Vec<ObservationPoint>,
    /// When it was asked for, on the program's clock.
    pub fetched: u64,
}

impl Cell {
    pub open spec fn key(self) -> (u64, u64) {
        (self.lat_bits, self.lon_bits)
    }
}

/// The cells that were asked for.
#[derive(Debug)]
pub struct CellCache {
    cells: Vec<Cell>,
}

/// What is known of a cell: its readings, and when it was asked for.
pub type CellModel = (Seq<ObservationPoint>, u64);

spec fn cell_of(cells: Seq<Cell>, key: (u64, u64), from: int) -> Option<CellModel>
    decreases cells.len() - from,
{
    if from < 0 || from >= cells.len() {
        None
    } else if cells[from].key() == key {
        Some((cells[from].points@, cells[from].fetched))
    } else {
        cell_of(cells, key, from + 1)
    }
}

impl CellCache {
    pub closed spec fn entry(self, key: (u64, u64)) -> Option<CellModel> {
        cell_of(self.cells@, key, 0)
    }

    pub fn new() -> (c: CellCache)
        ensures
            forall|key: (u64, u64)| (#[trigger] c.entry(key)) is None,
    {
        CellCache { cells: Vec::new() }
    }

    fn find(&self, key: (u64, u64)) -> (r: Option<usize>)
        ensures
            match r {
                Some(i) => i < self.cells.len() && self.cells[i as int].key() == key && self.entry(
                    key,
                ) == Some((self.cells[i as int].points@, self.cells[i as int].fetched)) && (forall|
                    k: int,
                |
                    0 <= k < i ==> (#[trigger] self.cells[k]).key() != key),
                None => self.entry(key) is None && (forall|k: int|
                    0 <= k < self.cells.len() ==> (#[trigger] self.cells[k]).key() != key),
            },
    {
        let mut i: usize = 0;
        while i < self.cells.len()
            invariant
                i <= self.cells.len(),
                self.entry(key) == cell_of(self.cells@, key, i as int),
                forall|k: int| 0 <= k < i ==> (#[trigger] self.cells[k]).key() != key,
            decreases self.cells.len() - i,
        {
            if self.cells[i].lat_bits == key.0 && self.cells[i].lon_bits == key.1 {
                return Some(i);
            }
            i = i + 1;
        }
        None
    }

    /// Record what a cell gave, in place of what is known of it.
    pub fn insert(&mut self, key: (u64, u64), points: Vec<ObservationPoint>, fetched: u64)
        ensures
            forall|k: (u64, u64)|
                (#[trigger] final(self).entry(k)) == if k == key {
                    Some((points@, fetched))
                } else {
                    old(self).entry(k)
                },
    {
        let ghost before = self.cells@;
        let cell = Cell { lat_bits: key.0, lon_bits: key.1, points, fetched };
        match self.find(key) {
            Some(i) => {
                self.cells.set(i, cell);
                proof {
                    assert forall|k: (u64, u64)| cell_of(self.cells@, k, 0) == if k == key {
                        Some((points@, fetched))
                    } else {
                        cell_of(before, k, 0)
                    } by {
                        lemma_set(before, self.cells@, i as int, cell, k, 0);
                    }
                }
            },
            None => {
                self.cells.push(cell);
                proof {
                    assert forall|k: (u64, u64)| cell_of(self.cells@, k, 0) == if k == key {
                        Some((points@, fetched))
                    } else {
                        cell_of(before, k, 0)
                    } by {
                        lemma_add(before, self.cells@, cell, k, 0);
                    }
                }
            },
        }
    }

    /// Record what a cell gave, where nothing is known of it.
    pub fn insert_missing(&mut self, key: (u64, u64), points: Vec<ObservationPoint>, fetched: u64)
        ensures
            forall|k: (u64, u64)|
                (#[trigger] final(self).entry(k)) == if k == key && old(self).entry(k) is None {
                    Some((points@, fetched))
                } else {
                    old(self).entry(k)
                },
    {
        if self.find(key).is_none() {
            self.insert(key, points, fetched);
        }
    }
}

proof fn lemma_set(before: Seq<Cell>, after: Seq<Cell>, at: int, cell: Cell, k: (u64, u64), from: int)
    requires
        0 <= from <= before.len(),
        0 <= at < before.len(),
        after == before.update(at, cell),
        before[at].key() == cell.key(),
        forall|j: int| 0 <= j < at ==> (#[trigger] before[j]).key() != cell.key(),
    ensures
        k != cell.key() ==> cell_of(after, k, from) == cell_of(before, k, from),
        k == cell.key() && from <= at ==> cell_of(after, k, from) == Some(
            (cell.points@, cell.fetched),
        ),
    decreases before.len() - from,
{
    if from < before.len() {
        lemma_set(before, after, at, cell, k, from + 1);
    }
}

proof fn lemma_add(before: Seq<Cell>, after: Seq<Cell>, cell: Cell, k: (u64, u64), from: int)
    requires
        0 <= from <= before.len(),
        after == before.push(cell),
        forall|j: int| 0 <= j < before.len() ==> (#[trigger] before[j]).key() != cell.key(),
    ensures
        cell_of(after, k, from) == if k == cell.key() {
            Some((cell.points@, cell.fetched))
        } else {
            cell_of(before, k, from)
        },
    decreases before.len() - from,
{
    if from < before.len() {
        lemma_add(before, after, cell, k, from + 1);
    } else {
        assert(cell_of(after, k, from + 1) is None);
    }
}

/// A cell as it is saved.
#[derive(Debug)]
pub struct BackdropCacheEntry {
    pub lat_bits: u64,
    pub lon_bits: u64,
    /// When it was asked for, in seconds since the epoch.
    pub fetched_unix: u64,
    pub points: Vec<ObservationPoint>,
}

/// A cell with its age.
#[derive(Debug)]
pub struct AgedCell {
    pub lat_bits: u64,
    pub lon_bits: u64,
    /// In nanoseconds.
    pub age: u64,
    pub points: Vec<ObservationPoint>,
}

impl AgedCell {
    pub open spec fn key(self) -> (u64, u64) {
        (self.lat_bits, self.lon_bits)
    }
}

/// What a saved cell holds.
#[verifier::ext_equal]
pub struct SavedCell {
    pub key: (u64, u64),
    pub fetched_unix: int,
    pub points: Seq<ObservationPoint>,
}

pub open spec fn saved_cells(s: Seq<BackdropCacheEntry>) -> Seq<SavedCell> {
    s.map_values(
        |e: BackdropCacheEntry|
            SavedCell {
                key: (e.lat_bits, e.lon_bits),
                fetched_unix: e.fetched_unix as int,
                points: e.points@,
            },
    )
}

/// Whether a cell of an age in nanoseconds is kept.
pub open spec fn is_kept(age: u64, max_age_secs: u64) -> bool {
    age < max_age_secs * 1_000_000_000
}

/// The moment an age before `now`, in seconds; the epoch where it lies before
/// it.
pub open spec fn moment(now_unix: u64, age: u64) -> int {
    if now_unix >= age / 1_000_000_000 {
        now_unix - age / 1_000_000_000
    } else {
        0
    }
}

/// The first `n` cells as they are saved: those that are too old are left out.
pub open spec fn to_disk(cells: Seq<AgedCell>, now_unix: u64, max_age_secs: u64, n: nat) -> Seq<
    SavedCell,
>
    decreases n,
{
    if n == 0 || n > cells.len() {
        Seq::empty()
    } else {
        let before = to_disk(cells, now_unix, max_age_secs, (n - 1) as nat);
        let c = cells[n - 1];
        if is_kept(c.age, max_age_secs) {
            before.push(
                SavedCell {
                    key: (c.lat_bits, c.lon_bits),
                    fetched_unix: moment(now_unix, c.age),
                    points: c.points@,
                },
            )
        } else {
            before
        }
    }
}

/// Cells as they are saved.
pub fn backdrop_to_disk(cells: Vec<AgedCell>, now_unix: u64, max_age_secs: u64) -> (r: Vec<
    BackdropCacheEntry,
>)
    ensures
        saved_cells(r@) == to_disk(cells@, now_unix, max_age_secs, cells@.len()),
{
    let ghost all = cells@;
    let mut out: Vec<BackdropCacheEntry> = Vec::new();
    assert(saved_cells(out@) =~= Seq::<SavedCell>::empty());
    for c in it: cells
        invariant
            it.seq() == all,
            saved_cells(out@) == to_disk(all, now_unix, max_age_secs, it.index() as nat),
    {
        let ghost before = out@;
        assert(all[it.index() as int] == c);
        if (c.age as u128) < max_age_secs as u128 * 1_000_000_000 {
            let fetched_unix: u64 = now_unix.saturating_sub(c.age / 1_000_000_000);
            let ghost points = c.points@;
            out.push(
                BackdropCacheEntry {
                    lat_bits: c.lat_bits,
                    lon_bits: c.lon_bits,
                    fetched_unix,
                    points: c.points,
                },
            );
            assert(saved_cells(out@) =~= saved_cells(before).push(
                SavedCell {
                    key: (c.lat_bits, c.lon_bits),
                    fetched_unix: fetched_unix as int,
                    points,
                },
            ));
        }
    }
    out
}

/// A cell that was restored.
#[derive(Debug)]
pub struct RestoredCell {
    pub lat_bits: u64,
    pub lon_bits: u64,
    pub age_secs: u64,
    pub points: Vec<ObservationPoint>,
}

/// What a restored cell holds: its key, its age in seconds and its readings.
pub type RestoredModel = ((u64, u64), int, Seq<ObservationPoint>);

pub open spec fn restored_cells(s: Seq<RestoredCell>) -> Seq<RestoredModel> {
    s.map_values(|c: RestoredCell| ((c.lat_bits, c.lon_bits), c.age_secs as int, c.points@))
}

/// The age of a saved cell; a moment in the future is held to be now.
pub open spec fn age_of(fetched_unix: u64, now_unix: u64) -> int {
    since(fetched_unix, now_unix)
}

/// The first `n` saved cells with their ages: those that are too old are left
/// out.
pub open spec fn from_disk(
    entries: Seq<BackdropCacheEntry>,
    now_unix: u64,
    max_age_secs: u64,
    n: nat,
) -> Seq<RestoredModel>
    decreases n,
{
    if n == 0 || n > entries.len() {
        Seq::empty()
    } else {
        let before = from_disk(entries, now_unix, max_age_secs, (n - 1) as nat);
        let e = entries[n - 1];
        if age_of(e.fetched_unix, now_unix) < max_age_secs {
            before.push(
                ((e.lat_bits, e.lon_bits), age_of(e.fetched_unix, now_unix), e.points@),
            )
        } else {
            before
        }
    }
}

/// Restore saved cells.
pub fn backdrop_from_disk(
    entries: Vec<BackdropCacheEntry>,
    now_unix: u64,
    max_age_secs: u64,
) -> (r: Vec<RestoredCell>)
    ensures
        restored_cells(r@) == from_disk(entries@, now_unix, max_age_secs, entries@.len()),
{
    let ghost all = entries@;
    let mut out: Vec<RestoredCell> = Vec::new();
    assert(restored_cells(out@) =~= Seq::<RestoredModel>::empty());
    for e in it: entries
        invariant
            it.seq() == all,
            restored_cells(out@) == from_disk(all, now_unix, max_age_secs, it.index() as nat),
    {
        let ghost before = out@;
        assert(all[it.index() as int] == e);
        let age_secs: u64 = elapsed(e.fetched_unix, now_unix);
        if age_secs < max_age_secs {
            let ghost points = e.points@;
            out.push(
                RestoredCell {
                    lat_bits: e.lat_bits,
                    lon_bits: e.lon_bits,
                    age_secs,
                    points: e.points,
                },
            );
            assert(restored_cells(out@) =~= restored_cells(before).push(
                ((e.lat_bits, e.lon_bits), age_secs as int, points),
            ));
        }
    }
    out
}

/// A cell that is saved and restored later has its key, its readings and its
/// age, which has grown by the time between.
pub proof fn cells_survive_a_restart(
    c: AgedCell,
    e: BackdropCacheEntry,
    saved_at: u64,
    restored_at: u64,
    max_age_secs: u64,
)
    requires
        is_kept(c.age, max_age_secs),
        c.age / 1_000_000_000 <= saved_at <= restored_at,
        restored_at - saved_at + c.age / 1_000_000_000 < max_age_secs,
        saved_cells(seq![e]) == to_disk(seq![c], saved_at, max_age_secs, 1),
    ensures
        from_disk(seq![e], restored_at, max_age_secs, 1) == seq![
            (
                (c.lat_bits, c.lon_bits),
                c.age / 1_000_000_000 + (restored_at - saved_at),
                c.points@,
            ),
        ],
{
    reveal_with_fuel(to_disk, 2);
    reveal_with_fuel(from_disk, 2);
    let saved = saved_cells(seq![e]);
    assert(saved[0].key == (e.lat_bits, e.lon_bits));
    assert(saved[0].points == e.points@);
    assert(saved[0].fetched_unix == e.fetched_unix);
    assert(to_disk(seq![c], saved_at, max_age_secs, 1)[0].key == (c.lat_bits, c.lon_bits));
    assert(from_disk(seq![e], restored_at, max_age_secs, 1) =~= seq![
        ((c.lat_bits, c.lon_bits), c.age / 1_000_000_000 + (restored_at - saved_at), c.points@),
    ]);
}

impl CellCache {
    /// Take in restored cells at `now`. What is known already stays; a cell
    /// that is older than the clock counts as new.
    pub fn load_backdrop(&mut self, cells: Vec<RestoredCell>, now: u64)
        ensures
            forall|k: (u64, u64)|
                (#[trigger] final(self).entry(k)) == if old(self).entry(k) is Some {
                    old(self).entry(k)
                } else {
                    first_restored(restored_cells(cells@), k, now, 0)
                },
    {
        let ghost start = *self;
        let ghost all = cells@;
        let ghost models = restored_cells(cells@);
        for c in it: cells
            invariant
                it.seq() == all,
                models == restored_cells(all),
                forall|k: (u64, u64)|
                    (#[trigger] self.entry(k)) == if start.entry(k) is Some {
                        start.entry(k)
                    } else {
                        last_of_first(models, k, now, it.index() as nat)
                    },
        {
            assert(all[it.index() as int] == c);
            assert(models[it.index() as int] == (
                (c.lat_bits, c.lon_bits),
                c.age_secs as int,
                c.points@,
            ));
            let ghost before = *self;
            let age: u128 = c.age_secs as u128 * 1_000_000_000;
            let fetched: u64 = if age <= now as u128 {
                now - age as u64
            } else {
                now
            };
            let key = (c.lat_bits, c.lon_bits);
            self.insert_missing(key, c.points, fetched);
            assert forall|k: (u64, u64)| (#[trigger] self.entry(k)) == if start.entry(k) is Some {
                start.entry(k)
            } else {
                last_of_first(models, k, now, (it.index() + 1) as nat)
            } by {
                assert(before.entry(k) == if start.entry(k) is Some {
                    start.entry(k)
                } else {
                    last_of_first(models, k, now, it.index() as nat)
                });
            }
        }
        proof {
            assert forall|k: (u64, u64)| last_of_first(models, k, now, models.len())
                == first_restored(models, k, now, 0) by {
                lemma_first_restored(models, k, now, models.len());
            }
        }
    }
}

/// When a cell of an age was asked for; one that is older than the clock
/// counts as new.
pub open spec fn asked_at(now: u64, age_secs: int) -> u64 {
    if age_secs * 1_000_000_000 <= now {
        (now - age_secs * 1_000_000_000) as u64
    } else {
        now
    }
}

/// The first restored cell of a key from `from` on.
pub open spec fn first_restored(
    cells: Seq<RestoredModel>,
    k: (u64, u64),
    now: u64,
    from: int,
) -> Option<CellModel>
    decreases cells.len() - from,
{
    if from < 0 || from >= cells.len() {
        None
    } else if cells[from].0 == k {
        Some((cells[from].2, asked_at(now, cells[from].1)))
    } else {
        first_restored(cells, k, now, from + 1)
    }
}

/// The first restored cell of a key among the first `n`.
spec fn last_of_first(cells: Seq<RestoredModel>, k: (u64, u64), now: u64, n: nat) -> Option<
    CellModel,
>
    decreases n,
{
    if n == 0 || n > cells.len() {
        None
    } else {
        match last_of_first(cells, k, now, (n - 1) as nat) {
            Some(c) => Some(c),
            None => if cells[n - 1].0 == k {
                Some((cells[n - 1].2, asked_at(now, cells[n - 1].1)))
            } else {
                None
            },
        }
    }
}

proof fn lemma_first_restored(cells: Seq<RestoredModel>, k: (u64, u64), now: u64, n: nat)
    requires
        n <= cells.len(),
    ensures
        first_restored(cells, k, now, 0) == match last_of_first(cells, k, now, n) {
            Some(c) => Some(c),
            None => first_restored(cells, k, now, n as int),
        },
    decreases n,
{
    if n > 0 {
        lemma_first_restored(cells, k, now, (n - 1) as nat);
    }
}

/// Whether what is known of a cell can still be used.
pub open spec fn is_fresh(c: Option<CellModel>, now: u64) -> bool {
    c matches Some((_, fetched)) && since(fetched, now) < CAPITAL_DATA_TTL
}

/// The readings of the first `n` cells: of those that are fresh, or of all
/// that are known where `any_age`.
pub open spec fn served(
    cache: CellCache,
    cells: Seq<(u64, u64)>,
    now: u64,
    any_age: bool,
    n: nat,
) -> Seq<ObservationPoint>
    decreases n,
{
    if n == 0 || n > cells.len() {
        Seq::empty()
    } else {
        let before = served(cache, cells, now, any_age, (n - 1) as nat);
        match cache.entry(cells[n - 1]) {
            Some((points, _)) => if any_age || is_fresh(cache.entry(cells[n - 1]), now) {
                before + points
            } else {
                before
            },
            None => before,
        }
    }
}

/// Those of the first `n` cells that have to be asked for.
pub open spec fn stale_cells(cache: CellCache, cells: Seq<(u64, u64)>, now: u64, n: nat) -> Seq<
    (u64, u64),
>
    decreases n,
{
    if n == 0 || n > cells.len() {
        Seq::empty()
    } else {
        let before = stale_cells(cache, cells, now, (n - 1) as nat);
        if is_fresh(cache.entry(cells[n - 1]), now) {
            before
        } else {
            before.push(cells[n - 1])
        }
    }
}

/// How many cells are asked for at once: half of what is left of the budget,
/// and one at least.
pub open spec fn allowance(remaining: u32) -> int {
    if remaining / 2 < 1 {
        1
    } else {
        remaining as int / 2
    }
}

pub open spec fn at_most_first(s: Seq<(u64, u64)>, n: int) -> Seq<(u64, u64)> {
    if s.len() > n {
        s.take(n)
    } else {
        s
    }
}

/// What to do for a list of cells.
#[derive(Debug)]
pub struct BatchPlan {
    /// Reports to show at once.
    pub emit: Vec<ObservationPoint>,
    /// Whether what came so far is to be shown.
    pub flush: bool,
    /// The cells to ask for.
    pub fetch: Vec<(u64, u64)>,
}

impl CellCache {
    fn gather(&self, cells: &[(u64, u64)], now: u64, any_age: bool) -> (r: Vec<ObservationPoint>)
        ensures
            r@ == served(*self, cells@, now, any_age, cells@.len()),
    {
        let mut out: Vec<ObservationPoint> = Vec::new();
        let mut i: usize = 0;
        while i < cells.len()
            invariant
                i <= cells.len(),
                out@ == served(*self, cells@, now, any_age, i as nat),
            decreases cells.len() - i,
        {
            if let Some(k) = self.find(cells[i]) {
                let c = &self.cells[k];
                if any_age || elapsed(c.fetched, now) < CAPITAL_DATA_TTL {
                    let mut more = duplicate_points(&c.points);
                    let ghost before = out@;
                    out.append(&mut more);
                    assert(out@ =~= before + c.points@);
                }
            }
            i = i + 1;
        }
        out
    }

    fn stale(&self, cells: &[(u64, u64)], now: u64) -> (r: Vec<(u64, u64)>)
        ensures
            r@ == stale_cells(*self, cells@, now, cells@.len()),
    {
        let mut out: Vec<(u64, u64)> = Vec::new();
        let mut i: usize = 0;
        while i < cells.len()
            invariant
                i <= cells.len(),
                out@ == stale_cells(*self, cells@, now, i as nat),
            decreases cells.len() - i,
        {
            let fresh = match self.find(cells[i]) {
                Some(k) => elapsed(self.cells[k].fetched, now) < CAPITAL_DATA_TTL,
                None => false,
            };
            if !fresh {
                out.push(cells[i]);
            }
            i = i + 1;
        }
        out
    }

    /// Plan what to show and what to ask for. While the gateway is left alone,
    /// what is known is shown and nothing is asked for.
    pub fn plan_batch(
        &self,
        cells: &[(u64, u64)],
        seen: &mut SeenIds,
        blocked: bool,
        remaining: u32,
        now: u64,
    ) -> (plan: BatchPlan)
        ensures
            ({
                let known = served(*self, cells@, now, blocked, cells@.len());
                let stale = stale_cells(*self, cells@, now, cells@.len());
                &&& plan.emit@ == new_points(known, old(seen).set(), known.len())
                &&& final(seen).set() == seen_after(known, old(seen).set(), known.len())
                &&& plan.flush == !blocked
                &&& plan.fetch@ == if blocked {
                    Seq::empty()
                } else {
                    at_most_first(stale, allowance(remaining))
                }
            }),
    {
        let known = self.gather(cells, now, blocked);
        let emit = admit_points(&known, seen);
        if blocked {
            let fetch: Vec<(u64, u64)> = Vec::new();
            assert(fetch@ =~= Seq::empty());
            return BatchPlan { emit, flush: false, fetch };
        }
        let mut fetch = self.stale(cells, now);
        let allowed: u32 = if remaining / 2 < 1 {
            1
        } else {
            remaining / 2
        };
        if fetch.len() as u64 > allowed as u64 {
            fetch.truncate(allowed as usize);
        }
        BatchPlan { emit, flush: true, fetch }
    }
}

/// While the gateway is left alone it is not asked for anything, and a batch
/// never asks for more than half of what is left of the budget.
pub proof fn batches_leave_headroom(cache: CellCache, cells: Seq<(u64, u64)>, now: u64, remaining: u32)
    requires
        remaining >= 2,
    ensures
        at_most_first(stale_cells(cache, cells, now, cells.len()), allowance(remaining)).len() * 2
            <= remaining,
{
}

/// A cell that was asked for less than six hours ago is shown and not asked for
/// again, and any other is asked for; while the gateway is left alone, whatever is
/// known is shown.
pub proof fn cells_are_shown_or_asked_for(
    cache: CellCache,
    cells: Seq<(u64, u64)>,
    now: u64,
    i: int,
)
    requires
        0 <= i < cells.len(),
    ensures
        cache.entry(cells[i]) is None ==> stale_cells(cache, cells, now, cells.len()).contains(
            cells[i],
        ),
        cache.entry(cells[i]) matches Some((points, fetched)) ==> fetched <= now ==> {
            &&& now - fetched < 6 * 3_600_000_000_000 ==> {
                &&& !stale_cells(cache, cells, now, cells.len()).contains(cells[i])
                &&& forall|p: ObservationPoint| #[trigger]
                    points.contains(p) ==> served(cache, cells, now, false, cells.len()).contains(p)
            }
            &&& now - fetched >= 6 * 3_600_000_000_000 ==> stale_cells(
                cache,
                cells,
                now,
                cells.len(),
            ).contains(cells[i])
            &&& forall|p: ObservationPoint| #[trigger]
                points.contains(p) ==> served(cache, cells, now, true, cells.len()).contains(p)
        },
{
    lemma_stale(cache, cells, now, cells.len(), i);
    lemma_served(cache, cells, now, false, cells.len(), i);
    lemma_served(cache, cells, now, true, cells.len(), i);
}

proof fn lemma_stale(cache: CellCache, cells: Seq<(u64, u64)>, now: u64, n: nat, i: int)
    requires
        n <= cells.len(),
        0 <= i < cells.len(),
    ensures
        i < n && !is_fresh(cache.entry(cells[i]), now) ==> stale_cells(
            cache,
            cells,
            now,
            n,
        ).contains(cells[i]),
        is_fresh(cache.entry(cells[i]), now) ==> !stale_cells(cache, cells, now, n).contains(
            cells[i],
        ),
    decreases n,
{
    if n > 0 {
        lemma_stale(cache, cells, now, (n - 1) as nat, i);
        let before = stale_cells(cache, cells, now, (n - 1) as nat);
        let after = stale_cells(cache, cells, now, n);
        if before.contains(cells[i]) {
            let k = choose|k: int| 0 <= k < before.len() && before[k] == cells[i];
            assert(after[k] == cells[i]);
        } else if i == n - 1 && !is_fresh(cache.entry(cells[i]), now) {
            assert(after[before.len() as int] == cells[i]);
        }
        if after.contains(cells[i]) && is_fresh(cache.entry(cells[i]), now) {
            let k = choose|k: int| 0 <= k < after.len() && after[k] == cells[i];
            if k < before.len() {
                assert(before[k] == cells[i]);
            }
        }
    }
}

proof fn lemma_served(
    cache: CellCache,
    cells: Seq<(u64, u64)>,
    now: u64,
    any_age: bool,
    n: nat,
    i: int,
)
    requires
        n <= cells.len(),
        0 <= i < n,
    ensures
        cache.entry(cells[i]) matches Some((points, _)) ==> (any_age || is_fresh(
            cache.entry(cells[i]),
            now,
        )) ==> forall|p: ObservationPoint| #[trigger]
            points.contains(p) ==> served(cache, cells, now, any_age, n).contains(p),
    decreases n,
{
    let before = served(cache, cells, now, any_age, (n - 1) as nat);
    let after = served(cache, cells, now, any_age, n);
    if i < n - 1 {
        lemma_served(cache, cells, now, any_age, (n - 1) as nat, i);
        assert forall|p: ObservationPoint| #[trigger] before.contains(p) implies after.contains(
            p,
        ) by {
            let k = choose|k: int| 0 <= k < before.len() && before[k] == p;
            assert(after[k] == p);
        }
    } else {
        match cache.entry(cells[i]) {
            Some((points, _)) => {
                if any_age || is_fresh(cache.entry(cells[i]), now) {
                    assert forall|p: ObservationPoint| #[trigger]
                        points.contains(p) implies after.contains(p) by {
                        let k = choose|k: int| 0 <= k < points.len() && points[k] == p;
                        assert(after[before.len() + k] == p);
                    }
                }
            },
            None => {},
        }
    }
}

/// Whether reports are those of stations, one for one.
pub open spec fn are_points_of(
    points: Seq<ObservationPoint>,
    stations: Seq<AreaStation>,
    names: Seq<StationInfo>,
    worlds: Seq<WorldPoint>,
) -> bool {
    &&& points.len() == stations.len()
    &&& forall|i: int|
        0 <= i < points.len() ==> is_point_of(#[trigger] points[i], stations[i], names, worlds[i])
}

/// Stations as reports on the map, each at its place in the world.
pub fn stations_to_points(
    stations: Vec<AreaStation>,
    names: &Vec<StationInfo>,
    worlds: &Vec<WorldPoint>,
) -> (r: Vec<ObservationPoint>)
    requires
        worlds.len() == stations.len(),
    ensures
        are_points_of(r@, stations@, names@, worlds@),
{
    let ghost all = stations@;
    let mut out: Vec<ObservationPoint> = Vec::new();
    let mut i: usize = 0;
    for s in it: stations
        invariant
            it.seq() == all,
            i == it.index(),
            worlds.len() == all.len(),
            out.len() == i,
            forall|k: int|
                0 <= k < i ==> is_point_of(#[trigger] out[k], all[k], names@, worlds@[k]),
    {
        assert(all[i as int] == s);
        out.push(station_to_point(s, names, worlds[i]));
        i = i + 1;
    }
    out
}

/// What follows the answer to a query of a cell.
#[derive(Debug)]
pub struct AreaStep {
    pub emit: Vec<ObservationPoint>,
    pub flush: bool,
    /// Whether the rest of the batch is given up.
    pub stop: bool,
    /// The gateway refused; it may say for how many seconds.
    pub refused: Option<Option<u64>>,
}

impl CellCache {
    /// Take in the answer to a query of a cell at `fetched`. Nothing is
    /// recorded where the query was refused or not sent, so that the cell is
    /// asked for again.
    pub fn take_area(
        &mut self,
        key: (u64, u64),
        fetch: AreaFetch,
        names: &Vec<StationInfo>,
        worlds: &Vec<WorldPoint>,
        seen: &mut SeenIds,
        fetched: u64,
    ) -> (step: AreaStep)
        requires
            fetch matches AreaFetch::Stations(s) ==> worlds.len() == s.len(),
        ensures
            match fetch {
                AreaFetch::Stations(s) => {
                    &&& final(self).entry(key) matches Some((points, t)) && t == fetched
                        && are_points_of(points, s@, names@, worlds@) && step.emit@ == new_points(
                        points,
                        old(seen).set(),
                        points.len(),
                    ) && final(seen).set() == seen_after(points, old(seen).set(), points.len())
                    &&& forall|k: (u64, u64)|
                        k != key ==> (#[trigger] final(self).entry(k)) == old(self).entry(k)
                    &&& step.flush == (step.emit.len() > 0)
                    &&& !step.stop
                    &&& step.refused is None
                },
                AreaFetch::Empty => {
                    &&& final(self).entry(key) == Some((Seq::<ObservationPoint>::empty(), fetched))
                    &&& forall|k: (u64, u64)|
                        k != key ==> (#[trigger] final(self).entry(k)) == old(self).entry(k)
                    &&& *final(seen) == *old(seen)
                    &&& step.emit.len() == 0 && !step.flush && !step.stop && step.refused is None
                },
                AreaFetch::RateLimited(reset) => {
                    &&& *final(self) == *old(self)
                    &&& *final(seen) == *old(seen)
                    &&& step.emit.len() == 0 && !step.flush && step.stop && step.refused == Some(
                        reset,
                    )
                },
                AreaFetch::OverBudget => {
                    &&& *final(self) == *old(self)
                    &&& *final(seen) == *old(seen)
                    &&& step.emit.len() == 0 && !step.flush && step.stop && step.refused is None
                },
            },
    {
        match fetch {
            AreaFetch::Stations(s) => {
                let points = stations_to_points(s, names, worlds);
                let emit = admit_points(&points, seen);
                self.insert(key, points, fetched);
                let flush = emit.len() > 0;
                AreaStep { emit, flush, stop: false, refused: None }
            },
            AreaFetch::Empty => {
                let none: Vec<ObservationPoint> = Vec::new();
                assert(none@ =~= Seq::<ObservationPoint>::empty());
                self.insert(key, none, fetched);
                AreaStep { emit: Vec::new(), flush: false, stop: false, refused: None }
            },
            AreaFetch::RateLimited(reset) => AreaStep {
                emit: Vec::new(),
                flush: false,
                stop: true,
                refused: Some(reset),
            },
            AreaFetch::OverBudget => AreaStep {
                emit: Vec::new(),
                flush: false,
                stop: true,
                refused: None,
            },
        }
    }

    /// The cells with their ages at `now`, each once, for saving.
    pub fn aged_cells(&self, now: u64) -> (r: Vec<AgedCell>)
        ensures
            forall|i: int|
                0 <= i < r.len() ==> known_as(*self, #[trigger] r[i], now),
            forall|k: (u64, u64)| #[trigger] listed(r@, k) <==> self.entry(k) is Some,
            each_key_once(r@),
    {
        let mut out: Vec<AgedCell> = Vec::new();
        let mut i: usize = 0;
        while i < self.cells.len()
            invariant
                i <= self.cells.len(),
                forall|j: int| 0 <= j < out.len() ==> known_as(*self, #[trigger] out[j], now),
                forall|k: (u64, u64)| #[trigger]
                    listed(out@, k) <==> stands(self.cells@, i as int, k),
                each_key_once(out@),
            decreases self.cells.len() - i,
        {
            let key = (self.cells[i].lat_bits, self.cells[i].lon_bits);
            let ghost before = out@;
            let found = self.find(key);
            let first = match found {
                Some(k) => k == i,
                None => false,
            };
            proof {
                lemma_stands(self.cells@, i as int);
            }
            if first {
                let c = &self.cells[i];
                out.push(
                    AgedCell {
                        lat_bits: c.lat_bits,
                        lon_bits: c.lon_bits,
                        age: elapsed(c.fetched, now),
                        points: duplicate_points(&c.points),
                    },
                );
                assert(!stands(self.cells@, i as int, key));
                assert(known_as(*self, out@[before.len() as int], now));
                proof {
                    lemma_listed(before, out@[before.len() as int]);
                    assert(out@ =~= before.push(out@[before.len() as int]));
                }
            } else {
                assert(self.cells[i as int].key() == key);
                assert(stands(self.cells@, i as int, key));
            }
            i = i + 1;
        }
        proof {
            assert forall|k: (u64, u64)| #[trigger] listed(out@, k) <==> self.entry(k) is Some by {
                if self.entry(k) is Some {
                    let j = lemma_known_stands_somewhere(self.cells@, k, 0);
                    assert(self.cells[j].key() == k);
                }
                if listed(out@, k) {
                    let m = choose|m: int| 0 <= m < out.len() && (#[trigger] out[m]).key() == k;
                    assert(known_as(*self, out[m], now));
                }
            }
        }
        out
    }
}

/// Whether one of the cells has a key.
pub open spec fn listed(cells: Seq<AgedCell>, k: (u64, u64)) -> bool {
    exists|m: int| 0 <= m < cells.len() && (#[trigger] cells[m]).key() == k
}

/// Whether no two cells have the same key.
pub open spec fn each_key_once(cells: Seq<AgedCell>) -> bool {
    forall|i: int, j: int|
        0 <= i < j < cells.len() ==> (#[trigger] cells[i]).key() != (#[trigger] cells[j]).key()
}

/// Whether one of the first `n` cells has a key.
spec fn stands(cells: Seq<Cell>, n: int, k: (u64, u64)) -> bool {
    exists|j: int| 0 <= j < n && (#[trigger] cells[j]).key() == k
}

proof fn lemma_stands(cells: Seq<Cell>, n: int)
    requires
        0 <= n < cells.len(),
    ensures
        forall|k: (u64, u64)| #[trigger]
            stands(cells, n + 1, k) <==> stands(cells, n, k) || cells[n].key() == k,
{
    assert forall|k: (u64, u64)| #[trigger] stands(cells, n + 1, k) <==> stands(cells, n, k)
        || cells[n].key() == k by {
        if stands(cells, n, k) {
            let j = choose|j: int| 0 <= j < n && (#[trigger] cells[j]).key() == k;
            assert(cells[j].key() == k);
        }
        if cells[n].key() == k {
            assert(0 <= n < n + 1);
        }
    }
}

proof fn lemma_listed(before: Seq<AgedCell>, c: AgedCell)
    requires
        each_key_once(before),
    ensures
        forall|k: (u64, u64)| #[trigger]
            listed(before.push(c), k) <==> listed(before, k) || c.key() == k,
        !listed(before, c.key()) ==> each_key_once(before.push(c)),
{
    let after = before.push(c);
    assert forall|k: (u64, u64)| #[trigger] listed(after, k) <==> listed(before, k) || c.key()
        == k by {
        if listed(before, k) {
            let m = choose|m: int| 0 <= m < before.len() && (#[trigger] before[m]).key() == k;
            assert(after[m].key() == k);
        }
        if c.key() == k {
            assert(after[before.len() as int].key() == k);
        }
        if listed(after, k) && c.key() != k {
            let m = choose|m: int| 0 <= m < after.len() && (#[trigger] after[m]).key() == k;
            assert(before[m].key() == k);
        }
    }
    if !listed(before, c.key()) {
        assert forall|i: int, j: int| 0 <= i < j < after.len() implies (#[trigger] after[i]).key()
            != (#[trigger] after[j]).key() by {
            assert(before[i] == after[i]);
            if j < before.len() {
                assert(before[j] == after[j]);
            }
        }
    }
}

/// Whether a cell with its age is one that is known.
pub open spec fn known_as(cache: CellCache, c: AgedCell, now: u64) -> bool {
    cache.entry((c.lat_bits, c.lon_bits)) matches Some((points, fetched)) && points == c.points@
        && c.age == since(fetched, now)
}

proof fn lemma_known_stands_somewhere(cells: Seq<Cell>, k: (u64, u64), from: int) -> (j: int)
    requires
        0 <= from,
        cell_of(cells, k, from) is Some,
    ensures
        0 <= j < cells.len(),
        cells[j].key() == k,
    decreases cells.len() - from,
{
    if cells[from].key() == k {
        from
    } else {
        lemma_known_stands_somewhere(cells, k, from + 1)
    }
}

/// What is saved of a cell at `now`, which is the second `now_unix`; nothing of
/// one that is too old.
pub open spec fn saved_of(cache: CellCache, k: (u64, u64), now: u64, now_unix: u64) -> Option<
    SavedCell,
> {
    match cache.entry(k) {
        Some((points, fetched)) => {
            let age = since(fetched, now) as u64;
            if is_kept(age, BACKDROP_HISTORY_SECS) {
                Some(SavedCell { key: k, fetched_unix: moment(now_unix, age), points })
            } else {
                None
            }
        },
        None => None,
    }
}

/// Whether saved cells are all that is to be saved, each once.
pub open spec fn saves_all(
    saved: Seq<SavedCell>,
    cache: CellCache,
    now: u64,
    now_unix: u64,
) -> bool {
    &&& forall|i: int|
        0 <= i < saved.len() ==> saved_of(cache, (#[trigger] saved[i]).key, now, now_unix) == Some(
            saved[i],
        )
    &&& forall|k: (u64, u64)|
        (#[trigger] saved_of(cache, k, now, now_unix)) matches Some(c) ==> saved.contains(c)
    &&& forall|i: int, j: int|
        0 <= i < j < saved.len() ==> (#[trigger] saved[i]).key != (#[trigger] saved[j]).key
}

impl CellCache {
    /// The cells as they are saved.
    pub fn save_backdrop(&self, now: u64, now_unix: u64) -> (r: Vec<BackdropCacheEntry>)
        ensures
            saves_all(saved_cells(r@), *self, now, now_unix),
    {
        let aged = self.aged_cells(now);
        let ghost cells = aged@;
        let r = backdrop_to_disk(aged, now_unix, BACKDROP_HISTORY_SECS);
        proof {
            let saved = saved_cells(r@);
            lemma_saved(cells, now_unix, BACKDROP_HISTORY_SECS, cells.len());
            assert forall|i: int| 0 <= i < saved.len() implies saved_of(
                *self,
                (#[trigger] saved[i]).key,
                now,
                now_unix,
            ) == Some(saved[i]) by {
                assert(comes_from(
                    saved[i],
                    cells,
                    now_unix,
                    BACKDROP_HISTORY_SECS,
                    cells.len(),
                ));
                let j = choose|j: int|
                    0 <= j < cells.len() && is_kept((#[trigger] cells[j]).age, BACKDROP_HISTORY_SECS)
                        && saved[i] == saved_form(cells[j], now_unix);
                assert(known_as(*self, cells[j], now));
            }
            assert forall|k: (u64, u64)|
                (#[trigger] saved_of(*self, k, now, now_unix)) matches Some(c) implies saved.contains(
                saved_of(*self, k, now, now_unix)->0,
            ) by {
                assert(listed(cells, k));
                let j = choose|j: int| 0 <= j < cells.len() && (#[trigger] cells[j]).key() == k;
                assert(known_as(*self, cells[j], now));
                assert(saved.contains(saved_form(cells[j], now_unix)));
            }
        }
        r
    }
}

/// A cell as it is saved.
pub open spec fn saved_form(c: AgedCell, now_unix: u64) -> SavedCell {
    SavedCell { key: c.key(), fetched_unix: moment(now_unix, c.age), points: c.points@ }
}

/// Whether a saved cell is one of the first `n`.
spec fn comes_from(c: SavedCell, cells: Seq<AgedCell>, now_unix: u64, max_age_secs: u64, n: nat) -> bool {
    exists|j: int|
        0 <= j < n && is_kept((#[trigger] cells[j]).age, max_age_secs) && c == saved_form(
            cells[j],
            now_unix,
        )
}

proof fn lemma_saved(cells: Seq<AgedCell>, now_unix: u64, max_age_secs: u64, n: nat)
    requires
        n <= cells.len(),
        each_key_once(cells),
    ensures
        ({
            let saved = to_disk(cells, now_unix, max_age_secs, n);
            &&& forall|i: int|
                0 <= i < saved.len() ==> comes_from(
                    #[trigger] saved[i],
                    cells,
                    now_unix,
                    max_age_secs,
                    n,
                )
            &&& forall|j: int|
                0 <= j < n && is_kept((#[trigger] cells[j]).age, max_age_secs) ==> saved.contains(
                    saved_form(cells[j], now_unix),
                )
            &&& forall|i: int, j: int|
                0 <= i < j < saved.len() ==> (#[trigger] saved[i]).key != (#[trigger] saved[j]).key
        }),
    decreases n,
{
    if n > 0 {
        lemma_saved(cells, now_unix, max_age_secs, (n - 1) as nat);
        let before = to_disk(cells, now_unix, max_age_secs, (n - 1) as nat);
        let saved = to_disk(cells, now_unix, max_age_secs, n);
        assert forall|i: int| 0 <= i < saved.len() implies comes_from(
            #[trigger] saved[i],
            cells,
            now_unix,
            max_age_secs,
            n,
        ) by {
            if i < before.len() {
                assert(saved[i] == before[i]);
                assert(comes_from(before[i], cells, now_unix, max_age_secs, (n - 1) as nat));
            } else {
                assert(is_kept(cells[n - 1].age, max_age_secs));
                assert(saved[i] == saved_form(cells[n - 1], now_unix));
            }
        }
        assert forall|j: int|
            0 <= j < n && is_kept((#[trigger] cells[j]).age, max_age_secs) implies saved.contains(
            saved_form(cells[j], now_unix),
        ) by {
            if j < n - 1 {
                let m = choose|m: int|
                    0 <= m < before.len() && before[m] == saved_form(cells[j], now_unix);
                assert(saved[m] == before[m]);
            } else {
                assert(saved[before.len() as int] == saved_form(cells[j], now_unix));
            }
        }
        assert forall|i: int, j: int| 0 <= i < j < saved.len() implies (#[trigger] saved[i]).key
            != (#[trigger] saved[j]).key by {
            assert(saved[i] == before[i]);
            if j < before.len() {
                assert(saved[j] == before[j]);
            } else {
                assert(comes_from(before[i], cells, now_unix, max_age_secs, (n - 1) as nat));
                let m = choose|m: int|
                    0 <= m < n - 1 && is_kept((#[trigger] cells[m]).age, max_age_secs) && before[i]
                        == saved_form(cells[m], now_unix);
                assert(cells[m].key() != cells[n - 1].key());
            }
        }
    }
}

/// What a session saved, a later one has again: each cell with its readings,
/// as old as it is by then, until it is too old.
pub proof fn the_backdrop_survives_a_restart(
    cache: CellCache,
    saved: Seq<BackdropCacheEntry>,
    k: (u64, u64),
    now: u64,
    now_unix: u64,
    later: u64,
    later_unix: u64,
)
    requires
        saves_all(saved_cells(saved), cache, now, now_unix),
        now_unix <= later_unix,
    ensures
        first_restored(
            from_disk(saved, later_unix, BACKDROP_HISTORY_SECS, saved.len()),
            k,
            later,
            0,
        ) == match saved_of(cache, k, now, now_unix) {
            Some(c) => if later_unix - c.fetched_unix < BACKDROP_HISTORY_SECS {
                Some((c.points, asked_at(later, later_unix - c.fetched_unix)))
            } else {
                None
            },
            None => None,
        },
{
    let models = saved_cells(saved);
    let restored = from_disk(saved, later_unix, BACKDROP_HISTORY_SECS, saved.len());
    lemma_first_restored(restored, k, later, restored.len());
    lemma_restored(saved, k, later, later_unix, saved.len());
    assert(first_restored(restored, k, later, restored.len() as int) is None);
    assert forall|i: int| 0 <= i < saved.len() implies (#[trigger] saved[i]).fetched_unix
        == models[i].fetched_unix && (saved[i].lat_bits, saved[i].lon_bits) == models[i].key
        && saved[i].points@ == models[i].points by {}
    if let Some(c) = saved_of(cache, k, now, now_unix) {
        let i = choose|i: int| 0 <= i < models.len() && models[i] == c;
        assert((saved[i].lat_bits, saved[i].lon_bits) == k);
        assert(c.fetched_unix <= now_unix);
        assert forall|j: int| 0 <= j < saved.len() && j != i implies (
            (#[trigger] saved[j]).lat_bits,
            saved[j].lon_bits,
        ) != k by {
            if j < i {
                assert(models[j].key != models[i].key);
            } else {
                assert(models[i].key != models[j].key);
            }
        }
        lemma_only(saved, k, later, later_unix, saved.len(), i);
    } else {
        assert forall|i: int| 0 <= i < saved.len() implies (
            (#[trigger] saved[i]).lat_bits,
            saved[i].lon_bits,
        ) != k by {
            assert(saved_of(cache, models[i].key, now, now_unix) == Some(models[i]));
        }
        lemma_only(saved, k, later, later_unix, saved.len(), -1);
    }
}

/// What is restored of a key from the first `n` saved cells.
spec fn taken_up(
    saved: Seq<BackdropCacheEntry>,
    k: (u64, u64),
    later: u64,
    later_unix: u64,
    n: nat,
) -> Option<CellModel>
    decreases n,
{
    if n == 0 || n > saved.len() {
        None
    } else {
        match taken_up(saved, k, later, later_unix, (n - 1) as nat) {
            Some(c) => Some(c),
            None => {
                let e = saved[n - 1];
                let age = age_of(e.fetched_unix, later_unix);
                if (e.lat_bits, e.lon_bits) == k && age < BACKDROP_HISTORY_SECS {
                    Some((e.points@, asked_at(later, age)))
                } else {
                    None
                }
            },
        }
    }
}

proof fn lemma_restored(
    saved: Seq<BackdropCacheEntry>,
    k: (u64, u64),
    later: u64,
    later_unix: u64,
    n: nat,
)
    requires
        n <= saved.len(),
    ensures
        ({
            let restored = from_disk(saved, later_unix, BACKDROP_HISTORY_SECS, n);
            last_of_first(restored, k, later, restored.len()) == taken_up(
                saved,
                k,
                later,
                later_unix,
                n,
            )
        }),
    decreases n,
{
    if n > 0 {
        lemma_restored(saved, k, later, later_unix, (n - 1) as nat);
        let before = from_disk(saved, later_unix, BACKDROP_HISTORY_SECS, (n - 1) as nat);
        let restored = from_disk(saved, later_unix, BACKDROP_HISTORY_SECS, n);
        if restored.len() > before.len() {
            lemma_prefix(before, restored.last(), k, later, before.len());
        }
    }
}

proof fn lemma_prefix(
    cells: Seq<RestoredModel>,
    last: RestoredModel,
    k: (u64, u64),
    now: u64,
    n: nat,
)
    requires
        n <= cells.len(),
    ensures
        last_of_first(cells.push(last), k, now, n) == last_of_first(cells, k, now, n),
    decreases n,
{
    if n > 0 {
        lemma_prefix(cells, last, k, now, (n - 1) as nat);
    }
}

proof fn lemma_only(
    saved: Seq<BackdropCacheEntry>,
    k: (u64, u64),
    later: u64,
    later_unix: u64,
    n: nat,
    i: int,
)
    requires
        n <= saved.len(),
        forall|j: int|
            0 <= j < saved.len() && j != i ==> (
                (#[trigger] saved[j]).lat_bits,
                saved[j].lon_bits,
            ) != k,
        0 <= i < saved.len() ==> (saved[i].lat_bits, saved[i].lon_bits) == k,
    ensures
        taken_up(saved, k, later, later_unix, n) == if 0 <= i < n && age_of(
            saved[i].fetched_unix,
            later_unix,
        ) < BACKDROP_HISTORY_SECS {
            Some((saved[i].points@, asked_at(later, age_of(saved[i].fetched_unix, later_unix))))
        } else {
            None
        },
    decreases n,
{
    if n > 0 {
        lemma_only(saved, k, later, later_unix, (n - 1) as nat, i);
        assert(n - 1 != i ==> (saved[n - 1].lat_bits, saved[n - 1].lon_bits) != k);
    }
}

} // verus!
