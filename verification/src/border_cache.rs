//! Which border resolutions are loaded, shown and being fetched.

use std::sync::Arc;

use vstd::prelude::*;
use vstd::string::*;

use crate::app::announces;
use crate::borders::{
    apart, resolution_distance, BorderLayer, BorderLineKind, BorderResolution,
};
use crate::double::Double;
use crate::geo::WorldPoint;
use crate::layers::{LayerId, LayerRegistry, LayerStatus};
use crate::radar::{id_after, next_id};
use crate::tasks::{TaskKind, TaskMsg};

verus! {

/// Marks the id of a result that no fetch of the view waits for.
pub const PRELOAD_BIT: u64 = 0x8000_0000_0000_0000;

/// How many resolutions are kept.
pub const BORDER_LAYERS_MAX: usize = 2;

/// What border work reports.
#[derive(Debug)]
pub enum BorderRefreshPayload {
    Ready(Arc<BorderLayer>),
    /// The tiles of a resolution have been written.
    TilesBuilt(BorderResolution),
    Error(String),
}

#[derive(Debug)]
pub struct BorderRefreshResult {
    pub id: u64,
    pub result: BorderRefreshPayload,
}

/// What is to be done about the border work.
#[derive(Debug, Clone, Copy, PartialEq, Eq)]
pub struct BorderPlan {
    /// Tell the running fetch and the radar's preload pass to stop, and start
    /// a fetch with this id, of this resolution.
    pub fetch: Option<(u64, BorderResolution)>,
    /// Remove the downloaded maps before the fetch.
    pub clear_disk: bool,
}

/// What borders were drawn for. They are drawn anew where any of it changes.
#[derive(Debug, Clone, Copy, PartialEq, Eq, Structural)]
pub struct BorderMaskStamp {
    /// The bit pattern of the zoom.
    pub zoom_bits: u64,
    pub resolution: BorderResolution,
    pub show_regions: bool,
    pub show_roads: bool,
    pub width: u16,
    pub height: u16,
    /// The version of the loaded resolutions.
    pub layers_version: u64,
}

/// A spot of a border on screen, in the dots that a cell is made of.
#[derive(Debug, Clone, Copy, PartialEq, Eq, Structural)]
pub struct BorderMaskPoint {
    pub sx: u32,
    pub sy: u32,
    pub kind: BorderLineKind,
}

/// Borders as they were drawn.
#[derive(Debug)]
pub struct BorderMask {
    /// What runs through each cell of the screen.
    pub cells: Vec<Option<BorderLineKind>>,
    pub marks: Vec<BorderMaskPoint>,
    /// The centre of the view that they were drawn for. Where the view has
    /// moved since, the marks are shifted.
    pub center: WorldPoint,
}

/// The border resolutions in memory and what is going on with them.
#[derive(Debug)]
pub struct BorderCache {
    pub loaded: Vec<Arc<BorderLayer>>,
    /// Changes whenever the loaded resolutions do.
    pub version: u64,
    /// The layer on screen.
    pub borders: Option<Arc<BorderLayer>>,
    /// The borders as they were drawn last, and what for; none where they are
    /// to be drawn anew.
    pub mask: Option<(BorderMaskStamp, BorderMask)>,
    pub built: Vec<BorderResolution>,
    pub fetching: Option<BorderResolution>,
    pub loading: bool,
    pub refresh_id: u64,
}

/// The place of a resolution's layer.
pub open spec fn layer_at(loaded: Seq<Arc<BorderLayer>>, r: BorderResolution, i: int) -> bool {
    0 <= i < loaded.len() && loaded[i].resolution == r
}

pub open spec fn is_loaded(loaded: Seq<Arc<BorderLayer>>, r: BorderResolution) -> bool {
    exists|i: int| #[trigger] layer_at(loaded, r, i)
}

pub open spec fn distinct_layers(loaded: Seq<Arc<BorderLayer>>) -> bool {
    forall|i: int, j: int|
        0 <= i < j < loaded.len() ==> (#[trigger] loaded[i]).resolution != (
        #[trigger] loaded[j]).resolution
}

/// How far a resolution lies from the one that the view wants.
pub open spec fn remoteness(r: BorderResolution, wanted: BorderResolution) -> int {
    apart(r.typical_zoom(), wanted.typical_zoom())
}

/// Whether place `v` holds a layer to drop: not the wanted one, and none lies
/// farther from it.
pub open spec fn is_victim(
    loaded: Seq<Arc<BorderLayer>>,
    wanted: BorderResolution,
    v: int,
) -> bool {
    &&& 0 <= v < loaded.len()
    &&& loaded[v].resolution != wanted
    &&& forall|i: int|
        0 <= i < loaded.len() && (#[trigger] loaded[i]).resolution != wanted ==> remoteness(
            loaded[i].resolution,
            wanted,
        ) <= remoteness(loaded[v].resolution, wanted)
}

/// What `layer` makes of the loaded ones: it joins them unless its resolution
/// is there, and where that makes too many one of those farthest from the
/// wanted resolution goes.
pub open spec fn inserted(
    before: Seq<Arc<BorderLayer>>,
    after: Seq<Arc<BorderLayer>>,
    layer: Arc<BorderLayer>,
    wanted: BorderResolution,
) -> bool {
    if is_loaded(before, layer.resolution) {
        after == before
    } else {
        let all = before.push(layer);
        if all.len() <= BORDER_LAYERS_MAX || (forall|i: int|
            0 <= i < all.len() ==> (#[trigger] all[i]).resolution == wanted) {
            after == all
        } else {
            exists|v: int| #[trigger] is_victim(all, wanted, v) && after == all.remove(v)
        }
    }
}

/// The place of a resolution from coarse to fine.
pub open spec fn fineness(r: BorderResolution) -> int {
    match r {
        BorderResolution::Low110m => 0,
        BorderResolution::Medium50m => 1,
        BorderResolution::High10m => 2,
        BorderResolution::Regional10m => 3,
    }
}

/// All resolutions from coarse to fine.
pub open spec fn resolutions() -> Seq<BorderResolution> {
    seq![
        BorderResolution::Low110m,
        BorderResolution::Medium50m,
        BorderResolution::High10m,
        BorderResolution::Regional10m,
    ]
}

fn step_of(r: BorderResolution) -> (i: usize)
    ensures
        i == fineness(r),
        i <= 3,
{
    match r {
        BorderResolution::Low110m => 0,
        BorderResolution::Medium50m => 1,
        BorderResolution::High10m => 2,
        BorderResolution::Regional10m => 3,
    }
}

impl BorderCache {
    pub open spec fn well_formed(self) -> bool {
        distinct_layers(self.loaded@)
    }

    /// Whether what was drawn for `stamp` can stay on screen.
    pub fn mask_holds(&self, stamp: BorderMaskStamp) -> (r: bool)
        ensures
            r == (self.mask matches Some(drawn) && drawn.0 == stamp),
    {
        match &self.mask {
            Some(drawn) => drawn.0 == stamp,
            None => false,
        }
    }

    /// Whether nothing is loaded and nothing is under way.
    pub open spec fn at_first(self) -> bool {
        &&& self.loaded@.len() == 0
        &&& self.built@.len() == 0
        &&& self.borders is None
        &&& self.fetching is None
        &&& !self.loading
        &&& self.mask is None
        &&& self.version == 0
        &&& self.refresh_id == 0
    }

    pub fn new() -> (c: BorderCache)
        ensures
            c.well_formed(),
            c.at_first(),
    {
        BorderCache {
            loaded: Vec::new(),
            version: 0,
            borders: None,
            mask: None,
            built: Vec::new(),
            fetching: None,
            loading: false,
            refresh_id: 0,
        }
    }

    fn find(&self, r: BorderResolution) -> (p: Option<usize>)
        ensures
            match p {
                Some(i) => layer_at(self.loaded@, r, i as int),
                None => !is_loaded(self.loaded@, r),
            },
    {
        let mut i: usize = 0;
        while i < self.loaded.len()
            invariant
                i <= self.loaded.len(),
                forall|j: int| 0 <= j < i ==> (#[trigger] self.loaded@[j]).resolution != r,
            decreases self.loaded.len() - i,
        {
            if self.loaded[i].resolution == r {
                return Some(i);
            }
            i = i + 1;
        }
        None
    }

    /// Whether a request for `r` is answered without a fetch: it is loaded or
    /// on its way.
    pub open spec fn has_or_awaits(self, r: BorderResolution) -> bool {
        is_loaded(self.loaded@, r) || self.fetching == Some(r)
    }

    /// Whether `after` is this cache with a fetch of `r` started.
    pub open spec fn fetch_started(self, after: BorderCache, r: BorderResolution) -> bool {
        after == (BorderCache {
            fetching: Some(r),
            loading: true,
            refresh_id: next_id(self.refresh_id),
            ..self
        })
    }

    /// Load a resolution whatever the zoom, unless it is loaded or on its way.
    pub fn request_border_layer(
        &mut self,
        layers: &mut LayerRegistry,
        resolution: BorderResolution,
        now: u64,
    ) -> (plan: BorderPlan)
        requires
            old(layers).well_formed(),
        ensures
            old(self).has_or_awaits(resolution) ==> {
                &&& *final(self) == *old(self)
                &&& *final(layers) == *old(layers)
                &&& plan == (BorderPlan { fetch: None, clear_disk: false })
            },
            !old(self).has_or_awaits(resolution) ==> {
                &&& old(self).fetch_started(*final(self), resolution)
                &&& old(layers).updated(
                    *final(layers),
                    LayerId::MapBorders,
                    LayerStatus::Loading,
                    now,
                )
                &&& plan == (BorderPlan {
                    fetch: Some((final(self).refresh_id, resolution)),
                    clear_disk: false,
                })
            },
    {
        let awaited = match self.fetching {
            Some(r) => r == resolution,
            None => false,
        };
        if self.find(resolution).is_some() || awaited {
            return BorderPlan { fetch: None, clear_disk: false };
        }
        self.start_fetch(layers, resolution, now, false)
    }

    fn start_fetch(
        &mut self,
        layers: &mut LayerRegistry,
        resolution: BorderResolution,
        now: u64,
        clear_disk: bool,
    ) -> (plan: BorderPlan)
        requires
            old(layers).well_formed(),
        ensures
            old(self).fetch_started(*final(self), resolution),
            old(layers).updated(*final(layers), LayerId::MapBorders, LayerStatus::Loading, now),
            plan == (BorderPlan {
                fetch: Some((final(self).refresh_id, resolution)),
                clear_disk,
            }),
    {
        self.fetching = Some(resolution);
        self.loading = true;
        self.refresh_id = id_after(self.refresh_id);
        layers.set_status(LayerId::MapBorders, LayerStatus::Loading, now);
        BorderPlan { fetch: Some((self.refresh_id, resolution)), clear_disk }
    }

    /// Whether the view's request needs nothing at all: its resolution is on
    /// its way, or on screen without being among the loaded ones.
    pub open spec fn settled(self, desired: BorderResolution) -> bool {
        ||| self.fetching == Some(desired)
        ||| !is_loaded(self.loaded@, desired) && match self.borders {
            Some(b) => b.resolution == desired,
            None => false,
        }
    }

    /// Whether `after` is this cache once the borders of a resolution were asked
    /// for: they are settled, shown from memory, or fetched.
    pub open spec fn refreshed(self, after: BorderCache, desired: BorderResolution) -> bool {
        if self.settled(desired) {
            after == self
        } else if is_loaded(self.loaded@, desired) {
            &&& after.borders is Some
            &&& after.borders->0.resolution == desired
            &&& self.loaded@.contains(after.borders->0)
            &&& after == (BorderCache { borders: after.borders, mask: None, ..self })
        } else {
            self.fetch_started(after, desired)
        }
    }

    /// Whether the layers after that are `after`.
    pub open spec fn refresh_told(
        self,
        before: LayerRegistry,
        after: LayerRegistry,
        desired: BorderResolution,
        now: u64,
    ) -> bool {
        if self.settled(desired) {
            after == before
        } else if is_loaded(self.loaded@, desired) {
            before.updated(after, LayerId::MapBorders, LayerStatus::Ready, now)
        } else {
            before.updated(after, LayerId::MapBorders, LayerStatus::Loading, now)
        }
    }

    /// Show the borders for the view's resolution: from memory where they are
    /// loaded, otherwise through a fetch. With `clear_cache` everything is
    /// forgotten and fetched anew.
    pub fn request_border_refresh_with_cache(
        &mut self,
        layers: &mut LayerRegistry,
        desired: BorderResolution,
        clear_cache: bool,
        now: u64,
    ) -> (plan: BorderPlan)
        requires
            old(self).well_formed(),
            old(layers).well_formed(),
        ensures
            final(self).well_formed(),
            clear_cache ==> {
                &&& final(self).loaded@.len() == 0
                &&& *final(self) == (BorderCache {
                    loaded: final(self).loaded,
                    version: next_id(old(self).version),
                    mask: None,
                    fetching: Some(desired),
                    loading: true,
                    refresh_id: next_id(old(self).refresh_id),
                    ..*old(self)
                })
                &&& old(layers).updated(
                    *final(layers),
                    LayerId::MapBorders,
                    LayerStatus::Loading,
                    now,
                )
                &&& plan == (BorderPlan {
                    fetch: Some((final(self).refresh_id, desired)),
                    clear_disk: true,
                })
            },
            !clear_cache && old(self).settled(desired) ==> {
                &&& *final(self) == *old(self)
                &&& *final(layers) == *old(layers)
                &&& plan == (BorderPlan { fetch: None, clear_disk: false })
            },
            !clear_cache && !old(self).settled(desired) && is_loaded(
                old(self).loaded@,
                desired,
            ) ==> {
                &&& final(self).borders is Some
                &&& final(self).borders->0.resolution == desired
                &&& old(self).loaded@.contains(final(self).borders->0)
                &&& *final(self) == (BorderCache {
                    borders: final(self).borders,
                    mask: None,
                    ..*old(self)
                })
                &&& old(layers).updated(
                    *final(layers),
                    LayerId::MapBorders,
                    LayerStatus::Ready,
                    now,
                )
                &&& plan == (BorderPlan { fetch: None, clear_disk: false })
            },
            !clear_cache && !old(self).settled(desired) && !is_loaded(
                old(self).loaded@,
                desired,
            ) ==> {
                &&& old(self).fetch_started(*final(self), desired)
                &&& old(layers).updated(
                    *final(layers),
                    LayerId::MapBorders,
                    LayerStatus::Loading,
                    now,
                )
                &&& plan == (BorderPlan {
                    fetch: Some((final(self).refresh_id, desired)),
                    clear_disk: false,
                })
            },
    {
        if clear_cache {
            self.loaded.clear();
            self.version = id_after(self.version);
            self.mask = None;
            return self.start_fetch(layers, desired, now, true);
        }
        let awaited = match self.fetching {
            Some(r) => r == desired,
            None => false,
        };
        if awaited {
            return BorderPlan { fetch: None, clear_disk: false };
        }
        if let Some(i) = self.find(desired) {
            let layer = self.loaded[i].clone();
            assert(self.loaded@[i as int] == layer);
            assert(layer_at(self.loaded@, desired, i as int));
            self.borders = Some(layer);
            self.mask = None;
            layers.set_status(LayerId::MapBorders, LayerStatus::Ready, now);
            return BorderPlan { fetch: None, clear_disk: false };
        }
        let on_screen = match &self.borders {
            Some(b) => b.resolution == desired,
            None => false,
        };
        if on_screen {
            return BorderPlan { fetch: None, clear_disk: false };
        }
        self.start_fetch(layers, desired, now, false)
    }

    pub fn request_border_refresh(
        &mut self,
        layers: &mut LayerRegistry,
        desired: BorderResolution,
        now: u64,
    ) -> (plan: BorderPlan)
        requires
            old(self).well_formed(),
            old(layers).well_formed(),
        ensures
            final(self).well_formed(),
            final(layers).well_formed(),
            plan == (BorderPlan {
                fetch: if old(self).settled(desired) || is_loaded(old(self).loaded@, desired) {
                    None
                } else {
                    Some((next_id(old(self).refresh_id), desired))
                },
                clear_disk: false,
            }),
            old(self).refreshed(*final(self), desired),
            old(self).refresh_told(*old(layers), *final(layers), desired, now),
    {
        self.request_border_refresh_with_cache(layers, desired, false, now)
    }

    pub fn request_border_refetch(
        &mut self,
        layers: &mut LayerRegistry,
        desired: BorderResolution,
        now: u64,
    ) -> (plan: BorderPlan)
        requires
            old(self).well_formed(),
            old(layers).well_formed(),
        ensures
            final(self).well_formed(),
            final(self).loaded@.len() == 0,
            *final(self) == (BorderCache {
                loaded: final(self).loaded,
                version: next_id(old(self).version),
                mask: None,
                fetching: Some(desired),
                loading: true,
                refresh_id: next_id(old(self).refresh_id),
                ..*old(self)
            }),
            old(layers).updated(*final(layers), LayerId::MapBorders, LayerStatus::Loading, now),
            plan == (BorderPlan {
                fetch: Some((final(self).refresh_id, desired)),
                clear_disk: true,
            }),
    {
        self.request_border_refresh_with_cache(layers, desired, true, now)
    }

    /// Keep a layer in memory, dropping one far from the wanted resolution
    /// where that makes too many.
    pub fn insert_border_layer(&mut self, layer: Arc<BorderLayer>, wanted: BorderResolution)
        requires
            old(self).well_formed(),
        ensures
            final(self).well_formed(),
            inserted(old(self).loaded@, final(self).loaded@, layer, wanted),
            *final(self) == (BorderCache {
                loaded: final(self).loaded,
                version: if is_loaded(old(self).loaded@, layer.resolution) {
                    old(self).version
                } else {
                    next_id(old(self).version)
                },
                ..*old(self)
            }),
    {
        if let Some(i) = self.find(layer.resolution) {
            assert(layer_at(self.loaded@, layer.resolution, i as int));
            return;
        }
        let ghost before = self.loaded@;
        assert forall|i: int| 0 <= i < before.len() implies (#[trigger] before[i]).resolution
            != layer.resolution by {
            assert(!layer_at(before, layer.resolution, i));
        }
        self.loaded.push(layer);
        self.version = id_after(self.version);
        if self.loaded.len() <= BORDER_LAYERS_MAX {
            return;
        }
        let ghost all = self.loaded@;
        let mut victim: Option<usize> = None;
        let mut far: u32 = 0;
        let mut i: usize = 0;
        while i < self.loaded.len()
            invariant
                i <= self.loaded.len(),
                self.loaded@ == all,
                match victim {
                    Some(v) => {
                        &&& v < i
                        &&& all[v as int].resolution != wanted
                        &&& far == remoteness(all[v as int].resolution, wanted)
                        &&& forall|j: int|
                            0 <= j < i && (#[trigger] all[j]).resolution != wanted ==> remoteness(
                                all[j].resolution,
                                wanted,
                            ) <= far
                    },
                    None => forall|j: int|
                        0 <= j < i ==> (#[trigger] all[j]).resolution == wanted,
                },
            decreases self.loaded.len() - i,
        {
            let r = self.loaded[i].resolution;
            if r != wanted {
                let d: u32 = resolution_distance(r, wanted);
                if victim.is_none() || d >= far {
                    victim = Some(i);
                    far = d;
                }
            }
            i = i + 1;
        }
        if let Some(v) = victim {
            let _ = self.loaded.remove(v);
            assert(is_victim(all, wanted, v as int));
            assert(self.loaded@ == all.remove(v as int));
            assert(all[v as int].resolution != wanted);
        }
    }

    /// Whether `after` is this cache once the awaited fetch brought `layer`.
    pub open spec fn layer_arrived(
        self,
        after: BorderCache,
        layer: Arc<BorderLayer>,
        desired: BorderResolution,
    ) -> bool {
        &&& inserted(self.loaded@, after.loaded@, layer, desired)
        &&& after == (BorderCache {
            loaded: after.loaded,
            version: if is_loaded(self.loaded@, layer.resolution) {
                self.version
            } else {
                next_id(self.version)
            },
            borders: if layer.resolution == desired || self.borders is None {
                Some(layer)
            } else {
                self.borders
            },
            mask: None,
            fetching: None,
            loading: false,
            ..self
        })
    }

    /// Take in what border work reports. Finished tiles count once per
    /// resolution, preloaded layers only join the loaded ones, and the result
    /// of a superseded fetch is ignored. Returns whether the screen changes.
    pub fn drain_border_result(
        &mut self,
        layers: &mut LayerRegistry,
        result: BorderRefreshResult,
        desired: BorderResolution,
        now: u64,
    ) -> (changed: bool)
        requires
            old(self).well_formed(),
            old(layers).well_formed(),
        ensures
            final(self).well_formed(),
            final(layers).well_formed(),
            match result.result {
                BorderRefreshPayload::TilesBuilt(r) => {
                    &&& !changed
                    &&& *final(layers) == *old(layers)
                    &&& *final(self) == (BorderCache { built: final(self).built, ..*old(self) })
                    &&& final(self).built@ == if old(self).built@.contains(r) {
                        old(self).built@
                    } else {
                        old(self).built@.push(r)
                    }
                },
                BorderRefreshPayload::Ready(layer) => if result.id >= PRELOAD_BIT {
                    &&& !changed
                    &&& *final(layers) == *old(layers)
                    &&& inserted(old(self).loaded@, final(self).loaded@, layer, desired)
                    &&& *final(self) == (BorderCache {
                        loaded: final(self).loaded,
                        version: final(self).version,
                        ..*old(self)
                    })
                    &&& final(self).version == if is_loaded(
                        old(self).loaded@,
                        layer.resolution,
                    ) {
                        old(self).version
                    } else {
                        next_id(old(self).version)
                    }
                } else if result.id != old(self).refresh_id {
                    !changed && *final(self) == *old(self) && *final(layers) == *old(layers)
                } else {
                    &&& changed
                    &&& old(self).layer_arrived(*final(self), layer, desired)
                    &&& if layer.resolution == desired || old(self).borders is None {
                        old(layers).updated(
                            *final(layers),
                            LayerId::MapBorders,
                            LayerStatus::Ready,
                            now,
                        )
                    } else {
                        *final(layers) == *old(layers)
                    }
                },
                BorderRefreshPayload::Error(error) => if result.id >= PRELOAD_BIT || result.id
                    != old(self).refresh_id {
                    !changed && *final(self) == *old(self) && *final(layers) == *old(layers)
                } else {
                    &&& changed
                    &&& *final(self) == (BorderCache {
                        fetching: None,
                        loading: false,
                        ..*old(self)
                    })
                    &&& old(layers).updated(
                        *final(layers),
                        LayerId::MapBorders,
                        LayerStatus::Error(error),
                        now,
                    )
                },
            },
    {
        match result.result {
            BorderRefreshPayload::TilesBuilt(r) => {
                if !contains_resolution(&self.built, r) {
                    self.built.push(r);
                }
                false
            },
            BorderRefreshPayload::Ready(layer) => {
                if result.id >= PRELOAD_BIT {
                    self.insert_border_layer(layer, desired);
                    return false;
                }
                if result.id != self.refresh_id {
                    return false;
                }
                self.loading = false;
                self.fetching = None;
                self.insert_border_layer(layer.clone(), desired);
                self.mask = None;
                if layer.resolution == desired || self.borders.is_none() {
                    self.borders = Some(layer);
                    layers.set_status(LayerId::MapBorders, LayerStatus::Ready, now);
                }
                true
            },
            BorderRefreshPayload::Error(error) => {
                if result.id >= PRELOAD_BIT || result.id != self.refresh_id {
                    return false;
                }
                self.loading = false;
                self.fetching = None;
                layers.set_status(LayerId::MapBorders, LayerStatus::Error(error), now);
                true
            },
        }
    }

    /// How many resolutions have had their tiles written.
    pub fn border_tiles_built(&self) -> (n: usize)
        ensures
            n == self.built@.len(),
    {
        self.built.len()
    }

    /// Whether a preload pass fetches `r` while the view wants `active`: it is
    /// the wanted one or next to it, not loaded, and not on its way.
    pub open spec fn preloads(self, active: BorderResolution, r: BorderResolution) -> bool {
        &&& apart(fineness(r), fineness(active)) <= 1
        &&& !is_loaded(self.loaded@, r)
        &&& !(r == active && self.loading)
    }

    /// The resolutions next to the wanted one that are to be fetched ahead.
    pub fn preload_border_resolutions(&self, active: BorderResolution) -> (list: Vec<
        BorderResolution,
    >)
        ensures
            list@ == resolutions().filter(|r: BorderResolution| self.preloads(active, r)),
    {
        let ghost want = |r: BorderResolution| self.preloads(active, r);
        let all = [
            BorderResolution::Low110m,
            BorderResolution::Medium50m,
            BorderResolution::High10m,
            BorderResolution::Regional10m,
        ];
        assert(all@ =~= resolutions());
        let mut list: Vec<BorderResolution> = Vec::new();
        let a: usize = step_of(active);
        let mut i: usize = 0;
        proof {
            reveal(Seq::filter);
            assert(resolutions().take(0) =~= Seq::<BorderResolution>::empty());
        }
        while i < 4
            invariant
                i <= 4,
                a == fineness(active),
                a <= 3,
                all@ == resolutions(),
                want == (|r: BorderResolution| self.preloads(active, r)),
                list@ == resolutions().take(i as int).filter(want),
            decreases 4 - i,
        {
            proof {
                reveal(Seq::filter);
                assert(resolutions().take(i + 1).drop_last() =~= resolutions().take(i as int));
                assert(resolutions().take(i + 1).last() == resolutions()[i as int]);
            }
            let r = all[i];
            let s: usize = step_of(r);
            let near = s <= a + 1 && a <= s + 1;
            let on_its_way = r == active && self.loading;
            if near && !self.find(r).is_some() && !on_its_way {
                list.push(r);
            }
            i = i + 1;
        }
        assert(resolutions().take(4) =~= resolutions());
        list
    }
}

fn contains_resolution(list: &Vec<BorderResolution>, r: BorderResolution) -> (b: bool)
    ensures
        b == list@.contains(r),
{
    let mut i: usize = 0;
    while i < list.len()
        invariant
            i <= list.len(),
            forall|j: int| 0 <= j < i ==> #[trigger] list@[j] != r,
        decreases list.len() - i,
    {
        if list[i] == r {
            assert(list@[i as int] == r);
            return true;
        }
        i = i + 1;
    }
    false
}

/// At most two resolutions stay in memory, the wanted one among them once it
/// came.
pub proof fn few_resolutions_stay(
    before: Seq<Arc<BorderLayer>>,
    after: Seq<Arc<BorderLayer>>,
    layer: Arc<BorderLayer>,
    wanted: BorderResolution,
)
    requires
        before.len() <= BORDER_LAYERS_MAX,
        distinct_layers(before),
        inserted(before, after, layer, wanted),
    ensures
        after.len() <= BORDER_LAYERS_MAX,
        is_loaded(before, wanted) ==> is_loaded(after, wanted),
        layer.resolution == wanted ==> is_loaded(after, wanted),
{
    let all = before.push(layer);
    assert(all[before.len() as int] == layer);
    if is_loaded(before, wanted) {
        let i = choose|i: int| #[trigger] layer_at(before, wanted, i);
        assert(layer_at(all, wanted, i));
    }
    if layer.resolution == wanted {
        assert(layer_at(all, wanted, before.len() as int));
    }
    if !is_loaded(before, layer.resolution) && all.len() > BORDER_LAYERS_MAX {
        if forall|i: int| 0 <= i < all.len() ==> (#[trigger] all[i]).resolution == wanted {
            assert(all[0].resolution == wanted);
            assert(all[1].resolution == wanted);
            assert(before[0].resolution != before[1].resolution);
        } else {
            let v = choose|v: int| #[trigger] is_victim(all, wanted, v) && after == all.remove(v);
            if is_loaded(all, wanted) {
                let i = choose|i: int| #[trigger] layer_at(all, wanted, i);
                if i < v {
                    assert(layer_at(after, wanted, i));
                } else {
                    assert(layer_at(after, wanted, i - 1));
                }
            }
        }
    } else if is_loaded(before, wanted) {
        assert(is_loaded(after, wanted));
    }
}

/// Borders that come in for the view are shown, and others are not unless there
/// were none.
pub proof fn the_wanted_borders_are_shown(
    c: BorderCache,
    after: BorderCache,
    layer: Arc<BorderLayer>,
    desired: BorderResolution,
)
    requires
        c.layer_arrived(after, layer, desired),
    ensures
        after.borders is Some,
        layer.resolution == desired ==> after.borders == Some(layer),
        layer.resolution != desired && c.borders is Some ==> after.borders == c.borders,
        after.fetching is None && !after.loading && after.mask is None,
{
}

/// What leaves memory lies at least as far from the wanted resolution as anything
/// that stays.
pub proof fn the_farthest_borders_leave(
    before: Seq<Arc<BorderLayer>>,
    after: Seq<Arc<BorderLayer>>,
    layer: Arc<BorderLayer>,
    wanted: BorderResolution,
    gone: int,
    kept: int,
)
    requires
        distinct_layers(before),
        inserted(before, after, layer, wanted),
        0 <= gone < before.push(layer).len(),
        0 <= kept < after.len(),
        !is_loaded(after, before.push(layer)[gone].resolution),
        after[kept].resolution != wanted,
    ensures
        before.push(layer)[gone].resolution != wanted,
        apart(after[kept].resolution.typical_zoom(), wanted.typical_zoom()) <= apart(
            before.push(layer)[gone].resolution.typical_zoom(),
            wanted.typical_zoom(),
        ),
{
    let all = before.push(layer);
    let r = all[gone].resolution;
    if is_loaded(before, layer.resolution) {
        let i = choose|i: int| #[trigger] layer_at(before, layer.resolution, i);
        assert(layer_at(after, layer.resolution, i));
        assert(layer_at(after, r, gone));
    } else if after == all {
        assert(layer_at(after, r, gone));
    } else {
        let v = choose|v: int| #[trigger] is_victim(all, wanted, v) && after == all.remove(v);
        if gone < v {
            assert(layer_at(after, r, gone));
        } else if gone > v {
            assert(layer_at(after, r, gone - 1));
        }
        let k = if kept < v {
            kept
        } else {
            kept + 1
        };
        assert(all[k] == after[kept]);
    }
}

/// The numbers 0.3 and 0.8.
pub const THREE_TENTHS_BITS: u64 = 0x3fd3_3333_3333_3333;

pub const EIGHT_TENTHS_BITS: u64 = 0x3fe9_9999_9999_999a;

/// What the overlay is told when the fetch of a resolution starts: of the one
/// that the view needs, or of one that was asked for by itself.
pub fn border_start(resolution: BorderResolution, by_itself: bool, task_id: u64) -> (m: TaskMsg)
    ensures
        announces(
            m,
            task_id,
            if by_itself {
                "border "@ + resolution.name()
            } else {
                resolution.name() + " borders"@
            },
            TaskKind::BorderDownload,
        ),
{
    let label = if by_itself {
        "border ".to_string().concat(resolution.label())
    } else {
        resolution.label().to_string().concat(" borders")
    };
    TaskMsg::Start { id: task_id, label, kind: TaskKind::BorderDownload }
}

/// What the overlay is told while a resolution is fetched.
pub fn border_download(resolution: BorderResolution, task_id: u64) -> (m: TaskMsg)
    ensures
        m matches TaskMsg::Progress { id, action, fraction } && id == task_id && action@
            == "downloading "@ + resolution.name() + " geo\u{2026}"@ && fraction == Some(
            Double { bits: THREE_TENTHS_BITS },
        ),
{
    TaskMsg::Progress {
        id: task_id,
        action: "downloading ".to_string().concat(resolution.label()).concat(" geo\u{2026}"),
        fraction: Some(Double::from_bits(THREE_TENTHS_BITS)),
    }
}

/// What the overlay is told once the lines of a resolution are there.
pub fn border_grid(task_id: u64) -> (m: TaskMsg)
    ensures
        m matches TaskMsg::Progress { id, action, fraction } && id == task_id && action@
            == "building grid"@ && fraction == Some(Double { bits: EIGHT_TENTHS_BITS }),
{
    TaskMsg::Progress {
        id: task_id,
        action: "building grid".to_string(),
        fraction: Some(Double::from_bits(EIGHT_TENTHS_BITS)),
    }
}

/// What the overlay is told when the lines of a resolution are being saved.
pub fn border_tiles_start(resolution: BorderResolution, by_itself: bool, task_id: u64) -> (m:
    TaskMsg)
    ensures
        announces(
            m,
            task_id,
            if by_itself {
                "tiles "@ + resolution.name()
            } else {
                resolution.name() + " tiles"@
            },
            TaskKind::BorderTileGen,
        ),
{
    let label = if by_itself {
        "tiles ".to_string().concat(resolution.label())
    } else {
        resolution.label().to_string().concat(" tiles")
    };
    TaskMsg::Start { id: task_id, label, kind: TaskKind::BorderTileGen }
}

} // verus!
