//! Radar frames assembled from tiles.

use vstd::prelude::*;
use vstd::string::*;

use crate::geo::{in_view, tiles_in_view, visible_tiles, visible_tiles_cover_the_view, Bounds, TileCoord};
use crate::layers::Rgb8;

verus! {

/// A horizontal run of equally coloured pixels.
#[derive(Debug, Clone, Copy, PartialEq, Eq, Structural)]
pub struct RadarRun {
    pub start_x: u16,
    pub end_x: u16,
    pub color: Rgb8,
    pub intensity: u8,
}

#[derive(Debug)]
pub struct RadarTile {
    pub coord: TileCoord,
    pub size: u32,
    pub rows: Vec<Vec<RadarRun>>,
}

/// The tiles of one moment, all built at one zoom.
#[derive(Debug)]
pub struct RadarFrame {
    pub time: i64,
    pub path: String,
    pub tiles: Vec<RadarTile>,
    pub missing_tiles: usize,
    pub target_zoom: u8,
}

/// What a tile holds.
#[verifier::ext_equal]
pub struct TileModel {
    pub coord: TileCoord,
    pub size: u32,
    pub rows: Seq<Seq<RadarRun>>,
}

/// What a frame holds.
#[verifier::ext_equal]
pub struct FrameModel {
    pub time: i64,
    pub path: Seq<char>,
    pub tiles: Seq<TileModel>,
    pub missing_tiles: usize,
    pub target_zoom: u8,
}

impl View for RadarTile {
    type V = TileModel;

    open spec fn view(&self) -> TileModel {
        TileModel {
            coord: self.coord,
            size: self.size,
            rows: self.rows@.map_values(|r: Vec<RadarRun>| r@),
        }
    }
}

pub open spec fn tile_models(tiles: Seq<RadarTile>) -> Seq<TileModel> {
    tiles.map_values(|t: RadarTile| t@)
}

impl View for RadarFrame {
    type V = FrameModel;

    open spec fn view(&self) -> FrameModel {
        FrameModel {
            time: self.time,
            path: self.path@,
            tiles: tile_models(self.tiles@),
            missing_tiles: self.missing_tiles,
            target_zoom: self.target_zoom,
        }
    }
}

/// Whether a tile for `coord` is among `tiles`.
pub open spec fn has_tile(tiles: Seq<TileModel>, coord: TileCoord) -> bool {
    exists|i: int| 0 <= i < tiles.len() && (#[trigger] tiles[i]).coord == coord
}

/// `tiles` with one more, unless its coordinate is there already.
pub open spec fn with_tile(tiles: Seq<TileModel>, tile: TileModel) -> Seq<TileModel> {
    if has_tile(tiles, tile.coord) {
        tiles
    } else {
        tiles.push(tile)
    }
}

/// `base` and those of `more`, in order, that bring a new coordinate.
pub open spec fn joined_tiles(base: Seq<TileModel>, more: Seq<TileModel>) -> Seq<TileModel>
    decreases more.len(),
{
    if more.len() == 0 {
        base
    } else {
        with_tile(joined_tiles(base, more.drop_last()), more.last())
    }
}

/// The tiles of one zoom.
pub open spec fn at_zoom(tiles: Seq<TileModel>, z: u8) -> Seq<TileModel> {
    tiles.filter(|t: TileModel| t.coord.z == z)
}

/// The tiles that a box touches.
pub open spec fn touching(tiles: Seq<TileModel>, bounds: Bounds) -> Seq<TileModel> {
    tiles.filter(|t: TileModel| bounds.touches_tile(t.coord))
}

impl FrameModel {
    /// The tiles that stay when tiles of zoom `z` come in.
    pub open spec fn kept_tiles(self, z: u8) -> Seq<TileModel> {
        if self.target_zoom != z {
            at_zoom(self.tiles, z)
        } else {
            self.tiles
        }
    }

    /// A frame of another time or path replaces this one; otherwise tiles of
    /// another zoom make way and new coordinates are added.
    pub open spec fn merged(self, frame: FrameModel) -> FrameModel {
        if self.time != frame.time || self.path != frame.path {
            frame
        } else {
            FrameModel {
                tiles: joined_tiles(self.kept_tiles(frame.target_zoom), frame.tiles),
                missing_tiles: frame.missing_tiles,
                target_zoom: frame.target_zoom,
                ..self
            }
        }
    }

    /// The frame with one streamed tile added.
    pub open spec fn streamed(self, tile: TileModel) -> FrameModel {
        FrameModel {
            tiles: with_tile(self.kept_tiles(tile.coord.z), tile),
            target_zoom: tile.coord.z,
            ..self
        }
    }

    pub open spec fn trimmed(self, bounds: Bounds) -> FrameModel {
        FrameModel { tiles: touching(self.tiles, bounds), ..self }
    }

    /// Whether every tile that `bounds` meets at zoom `z` is loaded.
    pub open spec fn covers(self, bounds: Bounds, z: u8) -> bool {
        forall|t: TileCoord| #[trigger] in_view(bounds, z, t) ==> has_tile(self.tiles, t)
    }
}

fn find_tile(tiles: &Vec<RadarTile>, coord: TileCoord) -> (r: bool)
    ensures
        r == has_tile(tile_models(tiles@), coord),
{
    let ghost models = tile_models(tiles@);
    let mut i: usize = 0;
    while i < tiles.len()
        invariant
            i <= tiles.len(),
            models == tile_models(tiles@),
            forall|k: int| 0 <= k < i ==> (#[trigger] models[k]).coord != coord,
        decreases tiles.len() - i,
    {
        assert(models[i as int].coord == tiles@[i as int].coord);
        if tiles[i].coord == coord {
            return true;
        }
        i = i + 1;
    }
    false
}

impl RadarTile {
    /// A copy of the tile.
    pub fn duplicate(&self) -> (t: RadarTile)
        ensures
            t@ == self@,
    {
        let mut rows: Vec<Vec<RadarRun>> = Vec::new();
        let mut i: usize = 0;
        while i < self.rows.len()
            invariant
                i <= self.rows.len(),
                rows.len() == i,
                forall|k: int| 0 <= k < i ==> (#[trigger] rows@[k])@ == self.rows@[k]@,
            decreases self.rows.len() - i,
        {
            let mut row: Vec<RadarRun> = Vec::new();
            let mut j: usize = 0;
            while j < self.rows[i].len()
                invariant
                    i < self.rows.len(),
                    j <= self.rows@[i as int].len(),
                    row@ == self.rows@[i as int]@.take(j as int),
                decreases self.rows@[i as int].len() - j,
            {
                row.push(self.rows[i][j]);
                assert(row@ =~= self.rows@[i as int]@.take(j + 1));
                j = j + 1;
            }
            assert(row@ =~= self.rows@[i as int]@);
            rows.push(row);
            i = i + 1;
        }
        let t = RadarTile { coord: self.coord, size: self.size, rows };
        assert(t@.rows =~= self@.rows);
        t
    }
}

impl RadarFrame {
    /// A copy of the frame.
    pub fn duplicate(&self) -> (f: RadarFrame)
        ensures
            f@ == self@,
    {
        let mut tiles: Vec<RadarTile> = Vec::new();
        let mut i: usize = 0;
        while i < self.tiles.len()
            invariant
                i <= self.tiles.len(),
                tile_models(tiles@) == tile_models(self.tiles@).take(i as int),
            decreases self.tiles.len() - i,
        {
            let ghost before = tiles@;
            tiles.push(self.tiles[i].duplicate());
            assert(tile_models(tiles@) =~= tile_models(before).push(self.tiles@[i as int]@));
            assert(tile_models(tiles@) =~= tile_models(self.tiles@).take(i + 1));
            i = i + 1;
        }
        assert(tile_models(self.tiles@).take(i as int) =~= tile_models(self.tiles@));
        RadarFrame {
            time: self.time,
            path: self.path.clone(),
            tiles,
            missing_tiles: self.missing_tiles,
            target_zoom: self.target_zoom,
        }
    }

    /// Merge newly loaded tiles.
    pub fn merge_tiles(&mut self, frame: RadarFrame)
        ensures
            final(self)@ == old(self)@.merged(frame@),
    {
        if self.time != frame.time || self.path != frame.path {
            *self = frame;
            return;
        }
        let RadarFrame { time: _, path: _, tiles: incoming, missing_tiles, target_zoom } = frame;
        let mut tiles: Vec<RadarTile> = Vec::new();
        std::mem::swap(&mut tiles, &mut self.tiles);
        if self.target_zoom != target_zoom {
            tiles = keep_zoom(tiles, target_zoom);
        }
        let ghost base = tile_models(tiles@);
        let ghost arriving = incoming@;
        let ghost more = tile_models(incoming@);
        assert(more.take(0) =~= Seq::empty());
        for tile in it: incoming
            invariant
                it.seq() == arriving,
                more == tile_models(arriving),
                tile_models(tiles@) == joined_tiles(base, more.take(it.index() as int)),
        {
            assert(more.take(it.index() + 1).drop_last() =~= more.take(it.index() as int));
            assert(more.take(it.index() + 1).last() == tile@);
            let ghost before = tiles@;
            if !find_tile(&tiles, tile.coord) {
                tiles.push(tile);
                assert(tile_models(tiles@) =~= tile_models(before).push(tile@));
            }
        }
        assert(more.take(more.len() as int) =~= more);
        self.tiles = tiles;
        self.target_zoom = target_zoom;
        self.missing_tiles = missing_tiles;
    }

    /// Add one tile of a frame that is still streaming in.
    pub fn add_tile(&mut self, tile: RadarTile)
        ensures
            final(self)@ == old(self)@.streamed(tile@),
    {
        let mut tiles: Vec<RadarTile> = Vec::new();
        std::mem::swap(&mut tiles, &mut self.tiles);
        if self.target_zoom != tile.coord.z {
            tiles = keep_zoom(tiles, tile.coord.z);
            self.target_zoom = tile.coord.z;
        }
        let ghost before = tiles@;
        if !find_tile(&tiles, tile.coord) {
            tiles.push(tile);
            assert(tile_models(tiles@) =~= tile_models(before).push(tile@));
        }
        self.tiles = tiles;
    }

    /// Drop the tiles that a box does not touch.
    pub fn trim_to_bounds(&mut self, bounds: Bounds)
        ensures
            final(self)@ == old(self)@.trimmed(bounds),
    {
        let mut tiles: Vec<RadarTile> = Vec::new();
        std::mem::swap(&mut tiles, &mut self.tiles);
        let ghost all = tiles@;
        let ghost models = tile_models(tiles@);
        let ghost pred = |t: TileModel| bounds.touches_tile(t.coord);
        let mut kept: Vec<RadarTile> = Vec::new();
        proof {
            reveal(Seq::filter);
            assert(models.take(0) =~= Seq::empty());
            assert(tile_models(kept@) =~= Seq::empty());
        }
        for tile in it: tiles
            invariant
                it.seq() == all,
                models == tile_models(all),
                pred == (|t: TileModel| bounds.touches_tile(t.coord)),
                tile_models(kept@) == models.take(it.index() as int).filter(pred),
        {
            proof {
                reveal(Seq::filter);
                assert(models.take(it.index() + 1).drop_last() =~= models.take(it.index() as int));
                assert(models.take(it.index() + 1).last() == tile@);
            }
            let ghost before = kept@;
            if bounds.intersects_tile(tile.coord) {
                kept.push(tile);
                assert(tile_models(kept@) =~= tile_models(before).push(tile@));
            }
        }
        assert(models.take(models.len() as int) =~= models);
        self.tiles = kept;
    }

    /// Whether every tile that `bounds` meets at zoom `z` is loaded.
    pub fn covers_bounds(&self, bounds: Bounds, z: u8) -> (r: bool)
        requires
            z <= 31,
        ensures
            r == self@.covers(bounds, z),
    {
        let wanted = visible_tiles(bounds, z);
        proof {
            visible_tiles_cover_the_view(bounds, z);
        }
        let ghost view = tiles_in_view(bounds, z);
        let mut i: usize = 0;
        while i < wanted.len()
            invariant
                i <= wanted.len(),
                wanted@ == view,
                forall|t: TileCoord| #[trigger] view.contains(t) <==> in_view(bounds, z, t),
                forall|k: int| 0 <= k < i ==> has_tile(self@.tiles, #[trigger] view[k]),
            decreases wanted.len() - i,
        {
            if !find_tile(&self.tiles, wanted[i]) {
                assert(view.contains(view[i as int]));
                return false;
            }
            i = i + 1;
        }
        assert forall|t: TileCoord| #[trigger] in_view(bounds, z, t) implies has_tile(
            self@.tiles,
            t,
        ) by {
            assert(view.contains(t));
        }
        true
    }
}

fn keep_zoom(tiles: Vec<RadarTile>, z: u8) -> (kept: Vec<RadarTile>)
    ensures
        tile_models(kept@) == at_zoom(tile_models(tiles@), z),
{
    let ghost all = tiles@;
    let ghost models = tile_models(tiles@);
    let ghost pred = |t: TileModel| t.coord.z == z;
    let mut kept: Vec<RadarTile> = Vec::new();
    proof {
        reveal(Seq::filter);
        assert(models.take(0) =~= Seq::empty());
        assert(tile_models(kept@) =~= Seq::empty());
    }
    for tile in it: tiles
        invariant
            it.seq() == all,
            models == tile_models(all),
            pred == (|t: TileModel| t.coord.z == z),
            tile_models(kept@) == models.take(it.index() as int).filter(pred),
    {
        proof {
            reveal(Seq::filter);
            assert(models.take(it.index() + 1).drop_last() =~= models.take(it.index() as int));
            assert(models.take(it.index() + 1).last() == tile@);
        }
        let ghost before = kept@;
        if tile.coord.z == z {
            kept.push(tile);
            assert(tile_models(kept@) =~= tile_models(before).push(tile@));
        }
    }
    assert(models.take(models.len() as int) =~= models);
    kept
}

/// Whether no coordinate comes twice.
pub open spec fn distinct_coords(tiles: Seq<TileModel>) -> bool {
    forall|i: int, j: int|
        0 <= i < j < tiles.len() ==> (#[trigger] tiles[i]).coord != (#[trigger] tiles[j]).coord
}

/// Merging keeps what was there, brings every new coordinate, and never makes
/// a coordinate come twice.
pub proof fn merging_brings_every_tile_once(base: Seq<TileModel>, more: Seq<TileModel>)
    ensures
        joined_tiles(base, more).len() >= base.len(),
        joined_tiles(base, more).take(base.len() as int) == base,
        forall|i: int|
            0 <= i < more.len() ==> has_tile(
                joined_tiles(base, more),
                (#[trigger] more[i]).coord,
            ),
        distinct_coords(base) ==> distinct_coords(joined_tiles(base, more)),
    decreases more.len(),
{
    let all = joined_tiles(base, more);
    if more.len() > 0 {
        let before = joined_tiles(base, more.drop_last());
        merging_brings_every_tile_once(base, more.drop_last());
        assert forall|c: TileCoord| has_tile(before, c) implies has_tile(all, c) by {
            let i = choose|i: int| 0 <= i < before.len() && (#[trigger] before[i]).coord == c;
            assert(all[i].coord == c);
        }
        assert(has_tile(all, more.last().coord)) by {
            if !has_tile(before, more.last().coord) {
                assert(all[before.len() as int] == more.last());
            }
        }
        assert forall|i: int| 0 <= i < more.len() implies has_tile(
            all,
            (#[trigger] more[i]).coord,
        ) by {
            if i < more.len() - 1 {
                assert(more.drop_last()[i] == more[i]);
            }
        }
        assert(all.take(base.len() as int) =~= before.take(base.len() as int));
    } else {
        assert(all.take(base.len() as int) =~= base);
    }
}

/// A merge at the same time and path leaves tiles of one zoom alone, if the
/// incoming tiles have their frame's zoom and this frame's tiles had theirs.
pub proof fn merged_tiles_have_one_zoom(frame: FrameModel, more: Seq<TileModel>, z: u8)
    requires
        forall|i: int| 0 <= i < more.len() ==> (#[trigger] more[i]).coord.z == z,
        forall|i: int|
            0 <= i < frame.tiles.len() ==> (#[trigger] frame.tiles[i]).coord.z
                == frame.target_zoom,
    ensures
        forall|i: int|
            0 <= i < joined_tiles(frame.kept_tiles(z), more).len() ==> (
            #[trigger] joined_tiles(frame.kept_tiles(z), more)[i]).coord.z == z,
    decreases more.len(),
{
    let base = frame.kept_tiles(z);
    let all = joined_tiles(base, more);
    if more.len() == 0 {
        if frame.target_zoom != z {
            let pred = |t: TileModel| t.coord.z == z;
            assert forall|i: int| 0 <= i < base.len() implies (#[trigger] base[i]).coord.z == z by {
                frame.tiles.lemma_filter_pred(pred, i);
                assert(pred(base[i]));
            }
        }
        assert(all == base);
    } else {
        let before = joined_tiles(base, more.drop_last());
        assert forall|i: int| 0 <= i < more.drop_last().len() implies (
        #[trigger] more.drop_last()[i]).coord.z == z by {
            assert(more.drop_last()[i] == more[i]);
        }
        merged_tiles_have_one_zoom(frame, more.drop_last(), z);
        assert(more.last() == more[more.len() - 1]);
        assert forall|i: int| 0 <= i < all.len() implies (#[trigger] all[i]).coord.z == z by {
            if i < before.len() {
                assert(all[i] == before[i]);
            }
        }
    }
}

/// A frame of another moment or of another source replaces the one on screen;
/// one of the same moment is added to it: tiles of its zoom that are there stay,
/// and every coordinate that it brings is there afterwards.
pub proof fn frames_merge_with_their_own_moment(f: FrameModel, g: FrameModel)
    ensures
        f.time != g.time || f.path != g.path ==> f.merged(g) == g,
        f.time == g.time && f.path == g.path ==> {
            let m = f.merged(g);
            &&& m.time == f.time && m.path == f.path
            &&& m.target_zoom == g.target_zoom && m.missing_tiles == g.missing_tiles
            &&& forall|i: int|
                0 <= i < f.tiles.len() && (f.target_zoom == g.target_zoom || (
                #[trigger] f.tiles[i]).coord.z == g.target_zoom) ==> m.tiles.contains(f.tiles[i])
            &&& forall|i: int|
                0 <= i < g.tiles.len() ==> has_tile(m.tiles, (#[trigger] g.tiles[i]).coord)
        },
{
    if f.time == g.time && f.path == g.path {
        let m = f.merged(g);
        let base = f.kept_tiles(g.target_zoom);
        let pred = |t: TileModel| t.coord.z == g.target_zoom;
        merging_brings_every_tile_once(base, g.tiles);
        assert forall|i: int|
            0 <= i < f.tiles.len() && (f.target_zoom == g.target_zoom || (
            #[trigger] f.tiles[i]).coord.z == g.target_zoom) implies m.tiles.contains(
            f.tiles[i],
        ) by {
            if f.target_zoom != g.target_zoom {
                assert(pred(f.tiles[i]));
                f.tiles.lemma_filter_contains(pred, i);
            }
            assert(base.contains(f.tiles[i]));
            let k = choose|k: int| 0 <= k < base.len() && base[k] == f.tiles[i];
            assert(m.tiles.take(base.len() as int)[k] == m.tiles[k]);
        }
    }
}

/// A streamed tile of a new coordinate joins the frame, one of a coordinate that
/// is there changes nothing, and tiles of another zoom make way.
pub proof fn streamed_tiles_join_the_frame(f: FrameModel, tile: TileModel)
    requires
        forall|i: int| 0 <= i < f.tiles.len() ==> (#[trigger] f.tiles[i]).coord.z == f.target_zoom,
    ensures
        f.streamed(tile).time == f.time && f.streamed(tile).path == f.path,
        f.streamed(tile).target_zoom == tile.coord.z,
        f.target_zoom != tile.coord.z ==> f.streamed(tile).tiles == seq![tile],
        f.target_zoom == tile.coord.z ==> f.streamed(tile).tiles == if exists|i: int|
            0 <= i < f.tiles.len() && (#[trigger] f.tiles[i]).coord == tile.coord {
            f.tiles
        } else {
            f.tiles.push(tile)
        },
{
    if f.target_zoom != tile.coord.z {
        let pred = |t: TileModel| t.coord.z == tile.coord.z;
        f.tiles.lemma_all_neg_filter_empty(pred);
        assert(f.kept_tiles(tile.coord.z) =~= Seq::<TileModel>::empty());
        assert(f.streamed(tile).tiles =~= seq![tile]);
    }
}

/// Trimming keeps the tiles that the box touches and no others.
pub proof fn trimming_keeps_what_is_in_view(f: FrameModel, bounds: Bounds, t: TileModel)
    ensures
        f.trimmed(bounds).tiles.contains(t) <==> f.tiles.contains(t) && bounds.touches_tile(
            t.coord,
        ),
        f.trimmed(bounds).time == f.time && f.trimmed(bounds).path == f.path,
        f.trimmed(bounds).target_zoom == f.target_zoom,
{
    let pred = |t: TileModel| bounds.touches_tile(t.coord);
    let kept = f.tiles.filter(pred);
    if kept.contains(t) {
        f.tiles.lemma_filter_contains_rev(pred, t);
        let k = choose|k: int| 0 <= k < kept.len() && kept[k] == t;
        f.tiles.lemma_filter_pred(pred, k);
    }
    if f.tiles.contains(t) && bounds.touches_tile(t.coord) {
        let k = choose|k: int| 0 <= k < f.tiles.len() && f.tiles[k] == t;
        assert(pred(f.tiles[k]));
        f.tiles.lemma_filter_contains(pred, k);
    }
}

} // verus!
