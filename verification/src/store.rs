//! Radar grids at hand: decoded ones, and the saved form of many more.

use std::sync::Arc;

use vstd::prelude::*;

use crate::double::{bound, Double};
use crate::frd::{
    decode_frd, encode_frd, frd_grid, frd_header, is_frd_of, saved_grids_come_back, zstd_encoded,
    FrdError, GridModel, RadarGrid, FRD_ZSTD_LEVEL,
};
use crate::geotiff::{
    grid_model, grids_are_complete, image_reads_as, parse_geotiff, GeotiffError,
};
use crate::slots::{contains_slot, SlotMap};
use crate::text::{
    has_end, parse_signed, signed, signed_of, signed_text, without_end, written_numbers_are_read,
};

verus! {

/// How many decoded grids are kept.
pub const MAX_CACHED_GRIDS: usize = 2;

/// A decoded grid to sample.
#[derive(Debug)]
pub struct RadarField {
    pub grid: Arc<RadarGrid>,
}

/// `Arc::clone` gives another pointer to the same grid.
#[verifier::external_body]
fn share(grid: &Arc<RadarGrid>) -> (r: Arc<RadarGrid>)
    ensures
        r == *grid,
{
    Arc::clone(grid)
}

/// The slots and grids in a list, without those of one slot.
pub open spec fn without(s: Seq<(i64, GridModel)>, ts: i64) -> Seq<(i64, GridModel)> {
    s.filter(|e: (i64, GridModel)| e.0 != ts)
}

/// The last so many of a list.
pub open spec fn last_of(s: Seq<(i64, GridModel)>, n: nat) -> Seq<(i64, GridModel)> {
    if s.len() <= n {
        s
    } else {
        s.skip(s.len() - n)
    }
}

/// Where a slot stands in a list, first places first.
pub open spec fn grid_of(s: Seq<(i64, GridModel)>, ts: i64, from: int) -> Option<GridModel>
    decreases s.len() - from,
{
    if from < 0 || from >= s.len() {
        None
    } else if s[from].0 == ts {
        Some(s[from].1)
    } else {
        grid_of(s, ts, from + 1)
    }
}

/// The list once a grid was used: it goes to the end, and the front gives way.
pub open spec fn used(s: Seq<(i64, GridModel)>, ts: i64, g: GridModel) -> Seq<(i64, GridModel)> {
    last_of(without(s, ts).push((ts, g)), MAX_CACHED_GRIDS as nat)
}

/// Decoded grids, those used last at the end.
#[derive(Debug)]
pub struct GridCache {
    entries: Vec<(i64, Arc<RadarGrid>)>,
}

pub open spec fn grid_entries(s: Seq<(i64, Arc<RadarGrid>)>) -> Seq<(i64, GridModel)> {
    s.map_values(|e: (i64, Arc<RadarGrid>)| (e.0, (*e.1)@))
}

impl View for GridCache {
    type V = Seq<(i64, GridModel)>;

    closed spec fn view(&self) -> Seq<(i64, GridModel)> {
        grid_entries(self.entries@)
    }
}

/// No slot stands in the list twice.
pub open spec fn each_once(s: Seq<(i64, GridModel)>) -> bool {
    forall|i: int, j: int| 0 <= i < j < s.len() ==> (#[trigger] s[i]).0 != (#[trigger] s[j]).0
}

/// Every grid in the list has a code for each cell.
pub open spec fn all_complete(s: Seq<(i64, GridModel)>) -> bool {
    forall|i: int| 0 <= i < s.len() ==> (#[trigger] s[i]).1.complete()
}

proof fn lemma_without_at(s: Seq<(i64, GridModel)>, ts: i64, i: int)
    requires
        each_once(s),
        0 <= i < s.len(),
        s[i].0 == ts,
    ensures
        without(s, ts) == s.remove(i),
    decreases s.len(),
{
    reveal(Seq::filter);
    let rest = s.drop_last();
    if i == s.len() - 1 {
        lemma_without_none(rest, ts);
        assert(s.remove(i) =~= rest);
    } else {
        lemma_without_at(rest, ts, i);
        assert(s.remove(i) =~= rest.remove(i).push(s.last()));
    }
}

proof fn lemma_without_none(s: Seq<(i64, GridModel)>, ts: i64)
    requires
        forall|i: int| 0 <= i < s.len() ==> (#[trigger] s[i]).0 != ts,
    ensures
        without(s, ts) == s,
    decreases s.len(),
{
    reveal(Seq::filter);
    if s.len() > 0 {
        lemma_without_none(s.drop_last(), ts);
        assert(s.drop_last().push(s.last()) =~= s);
    } else {
        assert(without(s, ts) =~= s);
    }
}

proof fn lemma_grid_at(s: Seq<(i64, GridModel)>, ts: i64, i: int, from: int)
    requires
        0 <= from <= i < s.len(),
        s[i].0 == ts,
        forall|j: int| from <= j < i ==> (#[trigger] s[j]).0 != ts,
    ensures
        grid_of(s, ts, from) == Some(s[i].1),
    decreases i - from,
{
    if from < i {
        lemma_grid_at(s, ts, i, from + 1);
    }
}

proof fn lemma_no_grid(s: Seq<(i64, GridModel)>, ts: i64, from: int)
    requires
        0 <= from,
        forall|j: int| from <= j < s.len() ==> (#[trigger] s[j]).0 != ts,
    ensures
        grid_of(s, ts, from) is None,
    decreases s.len() - from,
{
    if from < s.len() {
        lemma_no_grid(s, ts, from + 1);
    }
}

proof fn lemma_used(s: Seq<(i64, GridModel)>, ts: i64, g: GridModel)
    requires
        each_once(s),
        s.len() <= MAX_CACHED_GRIDS,
    ensures
        each_once(used(s, ts, g)),
        all_complete(s) && g.complete() ==> all_complete(used(s, ts, g)),
        used(s, ts, g).len() <= MAX_CACHED_GRIDS,
        used(s, ts, g).len() > 0,
        used(s, ts, g).last() == (ts, g),
{
    if exists|i: int| 0 <= i < s.len() && (#[trigger] s[i]).0 == ts {
        let i = choose|i: int| 0 <= i < s.len() && (#[trigger] s[i]).0 == ts;
        lemma_without_at(s, ts, i);
    } else {
        lemma_without_none(s, ts);
    }
}

impl GridCache {
    #[verifier::type_invariant]
    spec fn inv(self) -> bool {
        each_once(self@) && all_complete(self@) && self@.len() <= MAX_CACHED_GRIDS
    }

    pub fn new() -> (c: GridCache)
        ensures
            c@ == Seq::<(i64, GridModel)>::empty(),
    {
        let entries: Vec<(i64, Arc<RadarGrid>)> = Vec::new();
        assert(grid_entries(entries@) =~= Seq::empty());
        GridCache { entries }
    }

    /// How many grids are kept.
    pub fn count(&self) -> (n: usize)
        ensures
            n == self@.len(),
    {
        self.entries.len()
    }

    fn find(&self, ts: i64) -> (r: Option<usize>)
        ensures
            match r {
                Some(i) => i < self@.len() && self@[i as int].0 == ts && grid_of(self@, ts, 0)
                    == Some(self@[i as int].1),
                None => grid_of(self@, ts, 0) is None && forall|j: int|
                    0 <= j < self@.len() ==> (#[trigger] self@[j]).0 != ts,
            },
    {
        let ghost s = self@;
        let mut i: usize = 0;
        while i < self.entries.len()
            invariant
                i <= self.entries.len(),
                s == self@,
                forall|j: int| 0 <= j < i ==> (#[trigger] s[j]).0 != ts,
            decreases self.entries.len() - i,
        {
            assert(s[i as int].0 == self.entries@[i as int].0);
            if self.entries[i].0 == ts {
                proof {
                    lemma_grid_at(s, ts, i as int, 0);
                }
                return Some(i);
            }
            i = i + 1;
        }
        proof {
            lemma_no_grid(s, ts, 0);
        }
        None
    }

    /// Keep a grid, as the one used last.
    pub fn put(&mut self, ts: i64, grid: Arc<RadarGrid>)
        requires
            (*grid)@.complete(),
        ensures
            final(self)@ == used(old(self)@, ts, (*grid)@),
    {
        proof {
            use_type_invariant(&*self);
            lemma_used(self@, ts, (*grid)@);
        }
        let place = self.find(ts);
        let ghost s = self@;
        let mut entries: Vec<(i64, Arc<RadarGrid>)> = Vec::new();
        assert(grid_entries(entries@) =~= Seq::empty());
        std::mem::swap(&mut entries, &mut self.entries);
        match place {
            Some(i) => {
                let ghost e0 = entries@;
                let _ = entries.remove(i);
                proof {
                    lemma_without_at(s, ts, i as int);
                    assert(grid_entries(entries@) =~= s.remove(i as int));
                }
            },
            None => {
                proof {
                    lemma_without_none(s, ts);
                }
            },
        }
        let ghost kept = grid_entries(entries@);
        let ghost g = (*grid)@;
        entries.push((ts, grid));
        assert(grid_entries(entries@) =~= kept.push((ts, g)));
        if entries.len() > MAX_CACHED_GRIDS {
            let ghost all = grid_entries(entries@);
            let _ = entries.remove(0);
            assert(grid_entries(entries@) =~= all.skip(1));
        }
        self.entries = entries;
    }

    /// The grid of a slot, which becomes the one used last.
    pub fn touch(&mut self, ts: i64) -> (r: Option<RadarField>)
        ensures
            match r {
                Some(f) => f@.complete() && grid_of(old(self)@, ts, 0) == Some(f@) && final(self)@
                    == used(old(self)@, ts, f@),
                None => grid_of(old(self)@, ts, 0) is None && final(self)@ == old(self)@,
            },
    {
        match self.find(ts) {
            Some(i) => {
                proof {
                    use_type_invariant(&*self);
                }
                let grid = share(&self.entries[i].1);
                self.put(ts, share(&grid));
                Some(RadarField { grid })
            },
            None => None,
        }
    }
}

/// The file that a slot's grid is saved in.
pub open spec fn file_of(ts: i64) -> Seq<char> {
    signed(ts as int) + ".frd"@
}

/// The file that a slot's grid is saved in.
pub fn frame_file(ts: i64) -> (s: String)
    ensures
        s@ == file_of(ts),
{
    signed_text(ts).concat(".frd")
}

/// The slot whose grid a file holds, by the file's name.
pub open spec fn slot_of(name: Seq<char>) -> Option<i64> {
    if has_end(name, ".frd"@) {
        signed_of(name.take(name.len() - ".frd"@.len()))
    } else {
        None
    }
}

fn file_slot(name: &str) -> (r: Option<i64>)
    ensures
        r == slot_of(name@),
{
    match without_end(name, ".frd") {
        Some(stem) => parse_signed(stem.as_str()),
        None => None,
    }
}

/// The slots whose grids lie on disk, by the names of the files there.
pub fn cached_timestamps(names: &Vec<String>) -> (r: Vec<i64>)
    ensures
        r@.no_duplicates(),
        forall|ts: i64| #[trigger]
            r@.contains(ts) <==> exists|i: int|
                0 <= i < names.len() && slot_of(#[trigger] names[i]@) == Some(ts),
{
    let mut r: Vec<i64> = Vec::new();
    let mut i: usize = 0;
    while i < names.len()
        invariant
            i <= names.len(),
            r@.no_duplicates(),
            forall|ts: i64| #[trigger]
                r@.contains(ts) <==> exists|k: int|
                    0 <= k < i && slot_of(#[trigger] names[k]@) == Some(ts),
        decreases names.len() - i,
    {
        let ghost before = r@;
        match file_slot(names[i].as_str()) {
            Some(ts) => {
                if !contains_slot(r.as_slice(), ts) {
                    r.push(ts);
                }
                proof {
                    assert forall|t: i64| #[trigger] r@.contains(t) <==> before.contains(t) || t
                        == ts by {
                        if before.contains(t) && r@.len() > before.len() {
                            let j = choose|j: int| 0 <= j < before.len() && before[j] == t;
                            assert(r@[j] == t);
                        }
                        if t == ts && r@.len() > before.len() {
                            assert(r@[before.len() as int] == t);
                        }
                    }
                    assert(slot_of(names[i as int]@) == Some(ts));
                }
            },
            None => {
                assert(slot_of(names[i as int]@) is None);
            },
        }
        i = i + 1;
        proof {
            assert forall|ts: i64| #[trigger] r@.contains(ts) <==> exists|k: int|
                0 <= k < i && slot_of(#[trigger] names[k]@) == Some(ts) by {
                if before.contains(ts) {
                    let k = choose|k: int| 0 <= k < i - 1 && slot_of(#[trigger] names[k]@) == Some(ts);
                    assert(slot_of(names[k]@) == Some(ts));
                }
            }
        }
    }
    r
}

/// Whether a file is an image that an older version kept.
pub fn is_legacy_tiff(name: &str) -> (r: bool)
    ensures
        r == (has_end(name@, ".tiff"@) && name@.len() > ".tiff"@.len()),
{
    match without_end(name, ".tiff") {
        Some(stem) => {
            let cs = crate::text::chars_of(stem.as_str());
            cs.len() > 0
        },
        None => false,
    }
}

/// A grid that was saved is found by its slot.
pub proof fn saved_frames_are_found(ts: i64)
    ensures
        slot_of(file_of(ts)) == Some(ts),
{
    written_numbers_are_read(ts);
    let name = file_of(ts);
    assert(name.skip(name.len() - ".frd"@.len()) =~= ".frd"@);
    assert(name.take(name.len() - ".frd"@.len()) =~= signed(ts as int));
}

/// Why an image could not be turned into a grid.
#[derive(Debug, Clone, Copy, PartialEq, Eq)]
pub enum ConvertError {
    Image(GeotiffError),
    Save(FrdError),
}

/// Whether a grid and saved bytes are what an image comes to.
pub open spec fn converts_to(tiff: Seq<u8>, g: GridModel, b: Seq<u8>) -> bool {
    &&& image_reads_as(tiff, Ok(g))
    &&& zstd_encoded(g.codes, FRD_ZSTD_LEVEL) matches Some(p) && b == frd_header(g) + p
    &&& is_frd_of(b, g)
}

proof fn lemma_converted(tiff: Seq<u8>, g: GridModel, b: Seq<u8>)
    requires
        converts_to(tiff, g, b),
    ensures
        g.complete(),
        frd_grid(b) == Ok::<_, FrdError>(g),
{
    grids_are_complete(tiff, g);
    saved_grids_come_back(g, b);
}

/// Turn an image into a grid and its saved form.
pub fn convert(tiff: &[u8]) -> (r: Result<(RadarGrid, Vec<u8>), ConvertError>)
    ensures
        match r {
            Ok((g, b)) => converts_to(tiff@, g@, b@),
            Err(ConvertError::Image(e)) => image_reads_as(tiff@, Err(e)),
            Err(ConvertError::Save(e)) => e == FrdError::Compress && exists|g: GridModel|
                #[trigger] image_reads_as(tiff@, Ok(g)) && zstd_encoded(
                    g.codes,
                    FRD_ZSTD_LEVEL,
                ) is None,
        },
{
    match parse_geotiff(tiff) {
        Ok(grid) => match encode_frd(&grid) {
            Ok(bytes) => {
                assert(grid_model(Ok(grid)) == Ok::<_, GeotiffError>(grid@));
                Ok((grid, bytes))
            },
            Err(e) => {
                assert(grid_model(Ok(grid)) == Ok::<_, GeotiffError>(grid@));
                Err(ConvertError::Save(e))
            },
        },
        Err(e) => Err(ConvertError::Image(e)),
    }
}

/// The grids at hand.
#[derive(Debug)]
pub struct FieldStore {
    grids: GridCache,
    saved: SlotMap<Vec<u8>>,
}

/// What is at hand: decoded grids, those used last at the end, and saved bytes.
#[verifier::ext_equal]
pub struct StoreModel {
    pub grids: Seq<(i64, GridModel)>,
    pub saved: Map<i64, Seq<u8>>,
}

impl View for FieldStore {
    type V = StoreModel;

    closed spec fn view(&self) -> StoreModel {
        StoreModel { grids: self.grids@, saved: self.saved.map().map_values(|b: Vec<u8>| b@) }
    }
}

impl StoreModel {
    /// The grid that can be had without asking anyone.
    pub open spec fn at_hand(self, ts: i64) -> Option<GridModel> {
        match grid_of(self.grids, ts, 0) {
            Some(g) => Some(g),
            None => if self.saved.dom().contains(ts) {
                match frd_grid(self.saved[ts]) {
                    Ok(g) => Some(g),
                    Err(_) => None,
                }
            } else {
                None
            },
        }
    }

    /// What is at hand once a grid was used.
    pub open spec fn using(self, ts: i64, g: GridModel) -> StoreModel {
        StoreModel { grids: used(self.grids, ts, g), ..self }
    }

    /// What is at hand with the saved bytes of a slot.
    pub open spec fn keeping(self, ts: i64, b: Seq<u8>) -> StoreModel {
        StoreModel { saved: self.saved.insert(ts, b), ..self }
    }

    /// What is at hand without the saved bytes of a slot.
    pub open spec fn dropping(self, ts: i64) -> StoreModel {
        StoreModel { saved: self.saved.remove(ts), ..self }
    }
}

/// What a request for a field comes to.
#[derive(Debug)]
pub enum FieldStep {
    Ready(RadarField),
    /// Look on disk.
    ReadDisk,
    /// The saved form is of no use: delete it and fetch the image.
    Refetch,
    /// Fetch the image.
    Fetch,
}

/// What comes next when the saved bytes of a slot are to be at hand.
#[derive(Debug, Clone, Copy, PartialEq, Eq, Structural)]
pub enum WarmStep {
    /// They are.
    Ready,
    /// Look on disk.
    ReadDisk,
    /// Fetch the image.
    Fetch,
}

impl FieldStore {
    #[verifier::type_invariant]
    spec fn inv(self) -> bool {
        self.saved.well_formed()
    }

    pub fn new() -> (s: FieldStore)
        ensures
            s@.grids == Seq::<(i64, GridModel)>::empty(),
            s@.saved == Map::<i64, Seq<u8>>::empty(),
    {
        let s = FieldStore { grids: GridCache::new(), saved: SlotMap::new() };
        assert(s@.saved =~= Map::empty());
        s
    }

    /// Whether the saved bytes of a slot are at hand.
    pub fn field_is_warm(&self, ts: i64) -> (r: bool)
        ensures
            r == self@.saved.dom().contains(ts),
    {
        proof {
            use_type_invariant(self);
        }
        self.saved.contains(ts)
    }

    /// The slots whose saved bytes are at hand.
    pub fn warm_slots(&self) -> (r: Vec<i64>)
        ensures
            r@.no_duplicates(),
            r@.to_set() == self@.saved.dom(),
    {
        proof {
            use_type_invariant(self);
            self.saved.lemma_slots();
            assert(self@.saved.dom() =~= self.saved.map().dom());
        }
        self.saved.keys()
    }

    /// How many grids are decoded.
    pub fn decoded_count(&self) -> (n: usize)
        ensures
            n == self@.grids.len(),
    {
        self.grids.count()
    }

    /// Drop the saved bytes of slots that `keep` does not list.
    pub fn prune_field_window(&mut self, keep: &[i64])
        ensures
            final(self)@.saved == old(self)@.saved.restrict(keep@.to_set()),
            final(self)@.grids == old(self)@.grids,
    {
        proof {
            use_type_invariant(&*self);
        }
        let mut saved: SlotMap<Vec<u8>> = SlotMap::new();
        std::mem::swap(&mut saved, &mut self.saved);
        saved.retain_in(keep);
        self.saved = saved;
        assert(self@.saved =~= old(self)@.saved.restrict(keep@.to_set()));
    }

    /// Keep the saved bytes of a slot.
    pub fn keep_saved(&mut self, ts: i64, bytes: Vec<u8>)
        ensures
            final(self)@ == old(self)@.keeping(ts, bytes@),
    {
        proof {
            use_type_invariant(&*self);
        }
        let ghost b = bytes@;
        let mut saved: SlotMap<Vec<u8>> = SlotMap::new();
        std::mem::swap(&mut saved, &mut self.saved);
        saved.insert(ts, bytes);
        self.saved = saved;
        assert(self@.saved =~= old(self)@.saved.insert(ts, b));
    }

    fn drop_saved(&mut self, ts: i64)
        ensures
            final(self)@ == old(self)@.dropping(ts),
    {
        proof {
            use_type_invariant(&*self);
        }
        let mut saved: SlotMap<Vec<u8>> = SlotMap::new();
        std::mem::swap(&mut saved, &mut self.saved);
        let _ = saved.remove(ts);
        self.saved = saved;
        assert(self@.saved =~= old(self)@.saved.remove(ts));
    }

    /// Keep a decoded grid, as the one used last.
    fn use_grid(&mut self, ts: i64, grid: RadarGrid) -> (f: RadarField)
        requires
            grid@.complete(),
        ensures
            f@ == grid@,
            final(self)@ == old(self)@.using(ts, grid@),
    {
        proof {
            use_type_invariant(&*self);
        }
        let grid = Arc::new(grid);
        let mut grids = GridCache::new();
        std::mem::swap(&mut grids, &mut self.grids);
        grids.put(ts, share(&grid));
        self.grids = grids;
        RadarField { grid }
    }

    /// The decoded grid of a slot, which becomes the one used last.
    fn touch(&mut self, ts: i64) -> (r: Option<RadarField>)
        ensures
            match r {
                Some(f) => f@.complete() && grid_of(old(self)@.grids, ts, 0) == Some(f@) && final(self)@ == old(self)@.using(ts, f@),
                None => grid_of(old(self)@.grids, ts, 0) is None && final(self)@ == old(self)@,
            },
    {
        proof {
            use_type_invariant(&*self);
        }
        let mut grids = GridCache::new();
        std::mem::swap(&mut grids, &mut self.grids);
        let r = grids.touch(ts);
        self.grids = grids;
        r
    }

    /// The grid of a slot where it can be had without asking anyone.
    pub fn field_warm(&mut self, ts: i64) -> (r: Option<RadarField>)
        ensures
            match r {
                Some(f) => {
                    &&& f@.complete()
                    &&& old(self)@.at_hand(ts) == Some(f@)
                    &&& final(self)@ == old(self)@.using(ts, f@)
                },
                None => old(self)@.at_hand(ts) is None && final(self)@ == old(self)@,
            },
    {
        match self.touch(ts) {
            Some(f) => {
                return Some(f);
            },
            None => {},
        }
        proof {
            use_type_invariant(&*self);
        }
        let decoded = match self.saved.get(ts) {
            Some(bytes) => decode_frd(bytes.as_slice()),
            None => {
                return None;
            },
        };
        match decoded {
            Ok(grid) => Some(self.use_grid(ts, grid)),
            Err(_) => None,
        }
    }

    /// Start on a field: from memory where that serves. Bytes in memory that
    /// cannot be read are dropped.
    pub fn field(&mut self, ts: i64) -> (step: FieldStep)
        ensures
            match step {
                FieldStep::Ready(f) => {
                    &&& f@.complete()
                    &&& old(self)@.at_hand(ts) == Some(f@)
                    &&& final(self)@ == old(self)@.using(ts, f@)
                },
                FieldStep::ReadDisk => old(self)@.at_hand(ts) is None && !old(
                    self,
                )@.saved.dom().contains(ts) && final(self)@ == old(self)@,
                FieldStep::Refetch => old(self)@.at_hand(ts) is None && old(
                    self,
                )@.saved.dom().contains(ts) && final(self)@ == old(self)@.dropping(ts),
                FieldStep::Fetch => false,
            },
    {
        match self.field_warm(ts) {
            Some(f) => FieldStep::Ready(f),
            None => {
                if self.field_is_warm(ts) {
                    self.drop_saved(ts);
                    FieldStep::Refetch
                } else {
                    FieldStep::ReadDisk
                }
            },
        }
    }

    /// Go on with a field from what lay on disk. What can be read is kept.
    pub fn field_from_disk(&mut self, ts: i64, raw: Option<Vec<u8>>) -> (step: FieldStep)
        ensures
            match raw {
                Some(b) => match frd_grid(b@) {
                    Ok(g) => (step matches FieldStep::Ready(f) && f@ == g && g.complete() && final(self)@ == old(self)@.keeping(ts, b@).using(ts, g)),
                    Err(_) => step is Refetch && final(self)@ == old(self)@.dropping(ts),
                },
                None => step is Fetch && final(self)@ == old(self)@,
            },
    {
        match raw {
            Some(bytes) => match decode_frd(bytes.as_slice()) {
                Ok(grid) => {
                    self.keep_saved(ts, bytes);
                    FieldStep::Ready(self.use_grid(ts, grid))
                },
                Err(_) => {
                    self.drop_saved(ts);
                    FieldStep::Refetch
                },
            },
            None => FieldStep::Fetch,
        }
    }

    /// End on a field with the image that was fetched. The bytes that come
    /// with it are to be saved on disk.
    pub fn field_from_image(&mut self, ts: i64, tiff: &[u8]) -> (r: Result<
        (RadarField, Vec<u8>),
        ConvertError,
    >)
        ensures
            match r {
                Ok((f, b)) => {
                    &&& f@.complete()
                    &&& converts_to(tiff@, f@, b@)
                    &&& final(self)@ == old(self)@.keeping(ts, b@).using(ts, f@)
                },
                Err(e) => final(self)@ == old(self)@ && cannot_convert(tiff@, e),
            },
    {
        match convert(tiff) {
            Ok((grid, bytes)) => {
                let copy = bytes.clone();
                assert(copy@ =~= bytes@);
                self.keep_saved(ts, copy);
                proof {
                    lemma_converted(tiff@, grid@, bytes@);
                }
                Ok((self.use_grid(ts, grid), bytes))
            },
            Err(e) => Err(e),
        }
    }

    /// Start on having the saved bytes of a slot at hand.
    pub fn warm(&self, ts: i64) -> (step: WarmStep)
        ensures
            step == if self@.saved.dom().contains(ts) {
                WarmStep::Ready
            } else {
                WarmStep::ReadDisk
            },
    {
        if self.field_is_warm(ts) {
            WarmStep::Ready
        } else {
            WarmStep::ReadDisk
        }
    }

    /// Go on with what lay on disk, which is kept as it is.
    pub fn warm_from_disk(&mut self, ts: i64, raw: Option<Vec<u8>>) -> (step: WarmStep)
        ensures
            match raw {
                Some(b) => step == WarmStep::Ready && final(self)@ == old(self)@.keeping(ts, b@),
                None => step == WarmStep::Fetch && final(self)@ == old(self)@,
            },
    {
        match raw {
            Some(bytes) => {
                self.keep_saved(ts, bytes);
                WarmStep::Ready
            },
            None => WarmStep::Fetch,
        }
    }

    /// Make sure that the saved bytes of a slot are at hand, from an image that
    /// was fetched. They are to be saved on disk.
    pub fn warm_from_image(&mut self, ts: i64, tiff: &[u8]) -> (r: Result<Vec<u8>, ConvertError>)
        ensures
            match r {
                Ok(b) => (exists|g: GridModel| #[trigger] converts_to(tiff@, g, b@)) && final(self)@
                    == old(self)@.keeping(ts, b@),
                Err(e) => final(self)@ == old(self)@ && cannot_convert(tiff@, e),
            },
    {
        match convert(tiff) {
            Ok((grid, bytes)) => {
                let copy = bytes.clone();
                assert(copy@ =~= bytes@);
                self.keep_saved(ts, copy);
                assert(converts_to(tiff@, grid@, bytes@));
                Ok(bytes)
            },
            Err(e) => Err(e),
        }
    }
}

/// Whether an image cannot be turned into a grid, for the reason given.
pub open spec fn cannot_convert(tiff: Seq<u8>, e: ConvertError) -> bool {
    match e {
        ConvertError::Image(e) => image_reads_as(tiff, Err(e)),
        ConvertError::Save(e) => e == FrdError::Compress && exists|g: GridModel|
            #[trigger] image_reads_as(tiff, Ok(g)) && zstd_encoded(g.codes, FRD_ZSTD_LEVEL) is None,
    }
}

/// A frame that was fetched is at hand from then on, as it was, also once its
/// grid had to give way, until its bytes are dropped.
pub proof fn fetched_frames_stay_at_hand(
    m: StoreModel,
    ts: i64,
    tiff: Seq<u8>,
    g: GridModel,
    b: Seq<u8>,
    grids: Seq<(i64, GridModel)>,
)
    requires
        converts_to(tiff, g, b),
        grid_of(grids, ts, 0) is None || grid_of(grids, ts, 0) == Some(g),
    ensures
        (StoreModel { grids, ..m.keeping(ts, b) }).at_hand(ts) == Some(g),
{
    lemma_converted(tiff, g, b);
}

/// However many fields are used, no more than two grids are decoded, and the
/// one used last is among them.
pub proof fn few_grids_are_decoded(m: StoreModel, ts: i64, g: GridModel)
    requires
        each_once(m.grids),
        m.grids.len() <= MAX_CACHED_GRIDS,
    ensures
        each_once(m.using(ts, g).grids),
        m.using(ts, g).grids.len() <= MAX_CACHED_GRIDS,
        grid_of(m.using(ts, g).grids, ts, 0) == Some(g),
        m.using(ts, g).saved == m.saved,
{
    lemma_used(m.grids, ts, g);
    let s = m.using(ts, g).grids;
    lemma_grid_at(s, ts, s.len() - 1, 0);
}

/// The two fields used last are decoded: what was used longest ago gives way.
pub proof fn the_grid_used_longest_ago_gives_way(
    m: StoreModel,
    a: i64,
    b: i64,
    g: GridModel,
    h: GridModel,
)
    requires
        each_once(m.grids),
        m.grids.len() <= MAX_CACHED_GRIDS,
        a != b,
    ensures
        grid_of(m.using(a, g).using(b, h).grids, a, 0) == Some(g),
        grid_of(m.using(a, g).using(b, h).grids, b, 0) == Some(h),
{
    let s = m.using(a, g).grids;
    lemma_used(m.grids, a, g);
    lemma_used(s, b, h);
    let t = used(s, b, h);
    let i = s.len() - 1;
    assert(s[i] == (a, g));
    let kept = without(s, b);
    assert(kept.len() > 0 && kept.last() == (a, g)) by {
        reveal(Seq::filter);
        assert(s.drop_last().push(s.last()) =~= s);
    }
    assert(t.len() == 2 || t == kept.push((b, h)));
    assert(t[t.len() - 2] == (a, g));
    lemma_grid_at(t, b, t.len() - 1, 0);
    lemma_grid_at(t, a, t.len() - 2, 0);
}

/// The column or row that a coordinate falls into.
pub open spec fn cell_of(v: Double) -> int {
    if v.nan() {
        0
    } else {
        bound(v.floor_at(0), 0, u32::MAX as int)
    }
}

/// The four cells around a place on a grid.
#[derive(Debug, Clone, Copy, PartialEq, Eq, Structural)]
pub struct Corners {
    pub col: u32,
    pub row: u32,
    /// The codes of the cells: at the place, right of it, below it, and below
    /// and right of it; the last column and row stand for what lies beyond.
    pub here: u8,
    pub right: u8,
    pub below: u8,
    pub across: u8,
}

impl GridModel {
    /// The code of a cell; the last column and row stand for what lies beyond.
    pub open spec fn code_at(self, col: int, row: int) -> u8 {
        let c = if col < self.width {
            col
        } else {
            self.width - 1
        };
        let r = if row < self.height {
            row
        } else {
            self.height - 1
        };
        self.codes[r * self.width + c]
    }

    /// Whether a place given by fractional column and row lies on the grid.
    pub open spec fn on_grid(self, col: Double, row: Double) -> bool {
        &&& !col.below(Double { bits: 0 })
        &&& !row.below(Double { bits: 0 })
        &&& cell_of(col) < self.width
        &&& cell_of(row) < self.height
    }
}

/// The codes of a grid stand row by row, from the north-west, and beyond the last
/// column and row they go on as there.
pub proof fn codes_stand_row_by_row(g: GridModel, col: int, row: int)
    requires
        0 <= col,
        0 <= row,
    ensures
        col < g.width && row < g.height ==> g.code_at(col, row) == g.codes[row * g.width + col],
        col >= g.width && row < g.height ==> g.code_at(col, row) == g.code_at(g.width - 1, row),
        row >= g.height ==> g.code_at(col, row) == g.code_at(col, g.height - 1),
{
}

impl View for RadarField {
    type V = GridModel;

    open spec fn view(&self) -> GridModel {
        (*self.grid)@
    }
}

impl RadarField {
    fn code(&self, col: u32, row: u32) -> (code: u8)
        requires
            self@.complete(),
            col <= self@.width,
            row <= self@.height,
            0 < self@.width,
            0 < self@.height,
        ensures
            code == self@.code_at(col as int, row as int),
    {
        let w: u32 = self.grid.width;
        let h: u32 = self.grid.height;
        let c: u32 = if col < w {
            col
        } else {
            w - 1
        };
        let r: u32 = if row < h {
            row
        } else {
            h - 1
        };
        proof {
            assert(r * w + c < w * h) by (nonlinear_arith)
                requires
                    0 <= r,
                    r <= h - 1,
                    0 <= c,
                    c <= w - 1,
            ;
            assert(w * h <= 0xffff_ffff * 0xffff_ffff) by (nonlinear_arith)
                requires
                    w <= 0xffff_ffff,
                    h <= 0xffff_ffff,
            ;
            assert(r * w >= 0) by (nonlinear_arith)
                requires
                    r >= 0,
                    w >= 0,
            ;
        }
        let i: u64 = r as u64 * w as u64 + c as u64;
        assert(self.grid.codes.len() == w * h);
        assert(i < self.grid.codes.len());
        self.grid.codes[i as usize]
    }

    /// The four cells around a place given by fractional column and row, none
    /// off the grid.
    pub fn corners(&self, col: Double, row: Double) -> (r: Option<Corners>)
        requires
            self@.complete(),
        ensures
            match r {
                Some(k) => {
                    &&& self@.on_grid(col, row)
                    &&& k.col == cell_of(col)
                    &&& k.row == cell_of(row)
                    &&& k.here == self@.code_at(k.col as int, k.row as int)
                    &&& k.right == self@.code_at(k.col + 1, k.row as int)
                    &&& k.below == self@.code_at(k.col as int, k.row + 1)
                    &&& k.across == self@.code_at(k.col + 1, k.row + 1)
                },
                None => !self@.on_grid(col, row),
            },
    {
        let zero = Double::from_bits(0);
        if col.lt(zero) || row.lt(zero) {
            return None;
        }
        let c: u32 = col.floor_clamped(0, u32::MAX);
        let r: u32 = row.floor_clamped(0, u32::MAX);
        if c >= self.grid.width || r >= self.grid.height {
            return None;
        }
        Some(
            Corners {
                col: c,
                row: r,
                here: self.code(c, r),
                right: self.code(c + 1, r),
                below: self.code(c, r + 1),
                across: self.code(c + 1, r + 1),
            },
        )
    }
}

} // verus!
