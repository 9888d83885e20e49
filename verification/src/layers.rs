//! The map's layers: what they are, which render mode each of them owns, and
//! the list from which the user switches them.

use vstd::prelude::*;
use vstd::string::*;

verus! {

/// Global render modes. A mode belongs to at most one layer at a time, so that
/// two layers never draw into the same terminal cell in the same way.
#[derive(Debug, Clone, Copy, PartialEq, Eq, Hash, Structural)]
pub enum RenderMode {
    Braille,
    Color,
    Text,
}

impl RenderMode {
    pub open spec fn letter(self) -> Seq<char> {
        match self {
            RenderMode::Braille => "b"@,
            RenderMode::Color => "c"@,
            RenderMode::Text => "l"@,
        }
    }

    pub fn label(&self) -> (s: &'static str)
        ensures
            s@ == self.letter(),
    {
        match self {
            RenderMode::Braille => "b",
            RenderMode::Color => "c",
            RenderMode::Text => "l",
        }
    }
}

/// Which layer, if any, owns each render mode.
#[derive(Debug, Clone, Copy, PartialEq, Eq, Structural)]
pub struct RenderModeState {
    pub braille: Option<LayerId>,
    pub color: Option<LayerId>,
    pub text: Option<LayerId>,
}

impl Default for RenderModeState {
    fn default() -> (s: RenderModeState)
        ensures
            s == RenderModeState::unowned(),
    {
        RenderModeState::new()
    }
}

impl RenderModeState {
    pub open spec fn unowned() -> RenderModeState {
        RenderModeState { braille: None, color: None, text: None }
    }

    pub open spec fn owner(self, mode: RenderMode) -> Option<LayerId> {
        match mode {
            RenderMode::Braille => self.braille,
            RenderMode::Color => self.color,
            RenderMode::Text => self.text,
        }
    }

    /// The state with `mode` given to `to`, and nothing else changed.
    pub open spec fn with_owner(self, mode: RenderMode, to: Option<LayerId>) -> RenderModeState {
        match mode {
            RenderMode::Braille => RenderModeState { braille: to, ..self },
            RenderMode::Color => RenderModeState { color: to, ..self },
            RenderMode::Text => RenderModeState { text: to, ..self },
        }
    }

    pub open spec fn owns_some(self, layer: LayerId) -> bool {
        exists|mode: RenderMode| #[trigger] self.owner(mode) == Some(layer)
    }

    /// The state in which `layer` owns nothing, and nothing else is changed.
    pub open spec fn without(self, layer: LayerId) -> RenderModeState {
        RenderModeState {
            braille: if self.braille == Some(layer) { None } else { self.braille },
            color: if self.color == Some(layer) { None } else { self.color },
            text: if self.text == Some(layer) { None } else { self.text },
        }
    }

    pub open spec fn toggled(self, mode: RenderMode, layer: LayerId) -> RenderModeState {
        if self.owner(mode) == Some(layer) {
            self.with_owner(mode, None)
        } else {
            self.with_owner(mode, Some(layer))
        }
    }

    /// The first of `modes` that nobody but `layer` owns.
    pub open spec fn first_free(self, modes: Seq<RenderMode>, layer: LayerId) -> Option<RenderMode>
        decreases modes.len(),
    {
        if modes.len() == 0 {
            None
        } else if self.owner(modes[0]) is None || self.owner(modes[0]) == Some(layer) {
            Some(modes[0])
        } else {
            self.first_free(modes.drop_first(), layer)
        }
    }

    pub fn new() -> (s: RenderModeState)
        ensures
            s == RenderModeState::unowned(),
    {
        RenderModeState { braille: None, color: None, text: None }
    }

    /// Returns the layer assigned to `mode`, if any.
    pub fn get(&self, mode: RenderMode) -> (r: Option<LayerId>)
        ensures
            r == self.owner(mode),
    {
        match mode {
            RenderMode::Braille => self.braille,
            RenderMode::Color => self.color,
            RenderMode::Text => self.text,
        }
    }

    /// Returns `true` when `layer` owns `mode`.
    pub fn has(&self, mode: RenderMode, layer: LayerId) -> (r: bool)
        ensures
            r == (self.owner(mode) == Some(layer)),
    {
        match self.get(mode) {
            Some(l) => l == layer,
            None => false,
        }
    }

    /// Returns `true` when `layer` owns at least one mode.
    pub fn has_any(&self, layer: LayerId) -> (r: bool)
        ensures
            r == self.owns_some(layer),
    {
        let r = self.has(RenderMode::Braille, layer) || self.has(RenderMode::Color, layer)
            || self.has(RenderMode::Text, layer);
        proof {
            if self.owns_some(layer) {
                let mode = choose|mode: RenderMode| #[trigger] self.owner(mode) == Some(layer);
                assert(mode == RenderMode::Braille || mode == RenderMode::Color || mode
                    == RenderMode::Text);
            }
        }
        r
    }

    /// Returns all modes currently owned by `layer`.
    pub fn modes_for(&self, layer: LayerId) -> (modes: Vec<RenderMode>)
        ensures
            modes@ == seq![RenderMode::Braille, RenderMode::Color, RenderMode::Text].filter(
                |mode: RenderMode| self.owner(mode) == Some(layer),
            ),
    {
        let mut modes: Vec<RenderMode> = Vec::new();
        if self.has(RenderMode::Braille, layer) {
            modes.push(RenderMode::Braille);
        }
        if self.has(RenderMode::Color, layer) {
            modes.push(RenderMode::Color);
        }
        if self.has(RenderMode::Text, layer) {
            modes.push(RenderMode::Text);
        }
        proof {
            reveal_with_fuel(Seq::filter, 4);
            let all = seq![RenderMode::Braille, RenderMode::Color, RenderMode::Text];
            assert(all.drop_last() =~= seq![RenderMode::Braille, RenderMode::Color]);
            assert(all.drop_last().drop_last() =~= seq![RenderMode::Braille]);
            assert(all.drop_last().drop_last().drop_last() =~= Seq::empty());
            assert(modes@ =~= all.filter(|mode: RenderMode| self.owner(mode) == Some(layer)));
        }
        modes
    }

    /// Assign `mode` to `layer`, removing it from any previous owner.
    /// Returns the previous owner, if any.
    pub fn assign(&mut self, mode: RenderMode, layer: LayerId) -> (previous: Option<LayerId>)
        ensures
            previous == old(self).owner(mode),
            *final(self) == old(self).with_owner(mode, Some(layer)),
    {
        let previous = self.get(mode);
        match mode {
            RenderMode::Braille => {
                self.braille = Some(layer);
            },
            RenderMode::Color => {
                self.color = Some(layer);
            },
            RenderMode::Text => {
                self.text = Some(layer);
            },
        }
        previous
    }

    /// Toggle `mode` for `layer`: taken away where it owns it, assigned where
    /// it does not. Returns the owner that lost the mode to `layer`, if any.
    pub fn toggle(&mut self, mode: RenderMode, layer: LayerId) -> (previous: Option<LayerId>)
        ensures
            *final(self) == old(self).toggled(mode, layer),
            previous == if old(self).owner(mode) == Some(layer) {
                None
            } else {
                old(self).owner(mode)
            },
    {
        if self.has(mode, layer) {
            self.unassign(mode);
            None
        } else {
            self.assign(mode, layer)
        }
    }

    /// Remove whatever layer owns `mode`.
    pub fn unassign(&mut self, mode: RenderMode)
        ensures
            *final(self) == old(self).with_owner(mode, None),
    {
        match mode {
            RenderMode::Braille => {
                self.braille = None;
            },
            RenderMode::Color => {
                self.color = None;
            },
            RenderMode::Text => {
                self.text = None;
            },
        }
    }

    /// Remove all render modes from `layer`.
    pub fn remove_all(&mut self, layer: LayerId)
        ensures
            *final(self) == old(self).without(layer),
    {
        if self.has(RenderMode::Braille, layer) {
            self.braille = None;
        }
        if self.has(RenderMode::Color, layer) {
            self.color = None;
        }
        if self.has(RenderMode::Text, layer) {
            self.text = None;
        }
    }

    /// The preferred mode for `layer` that no other layer owns, if one is left.
    pub fn best_available(&self, layer: LayerId) -> (r: Option<RenderMode>)
        ensures
            r == self.first_free(layer.preferences(), layer),
    {
        let modes = preferred_modes(layer);
        let ghost all = layer.preferences();
        let mut i: usize = 0;
        assert(all.skip(0) =~= all);
        while i < modes.len()
            invariant
                i <= modes.len(),
                modes@ == all,
                all == layer.preferences(),
                self.first_free(all, layer) == self.first_free(all.skip(i as int), layer),
            decreases modes.len() - i,
        {
            let mode = modes[i];
            assert(all.skip(i as int).drop_first() =~= all.skip(i + 1));
            assert(all.skip(i as int)[0] == mode);
            let free = match self.get(mode) {
                None => true,
                Some(l) => l == layer,
            };
            if free {
                return Some(mode);
            }
            i = i + 1;
        }
        None
    }
}

fn preferred_modes(id: LayerId) -> (modes: Vec<RenderMode>)
    ensures
        modes@ == id.preferences(),
{
    match id {
        LayerId::Radar => vec![RenderMode::Braille, RenderMode::Color, RenderMode::Text],
        LayerId::MeteoAlarm => vec![RenderMode::Color, RenderMode::Braille, RenderMode::Text],
        _ => {
            if id.is_observation() {
                vec![RenderMode::Text, RenderMode::Braille, RenderMode::Color]
            } else {
                Vec::new()
            }
        },
    }
}

#[derive(Debug, Clone, Copy, PartialEq, Eq, Structural)]
pub struct Rgb8 {
    pub r: u8,
    pub g: u8,
    pub b: u8,
}

impl Default for Rgb8 {
    fn default() -> (c: Rgb8)
        ensures
            c == (Rgb8 { r: 0, g: 0, b: 0 }),
    {
        Rgb8 { r: 0, g: 0, b: 0 }
    }
}

impl Rgb8 {
    pub fn white() -> (c: Rgb8)
        ensures
            c == (Rgb8 { r: 255, g: 255, b: 255 }),
    {
        Rgb8 { r: 255, g: 255, b: 255 }
    }

    pub fn gray() -> (c: Rgb8)
        ensures
            c == (Rgb8 { r: 128, g: 128, b: 128 }),
    {
        Rgb8 { r: 128, g: 128, b: 128 }
    }

    pub fn dark_gray() -> (c: Rgb8)
        ensures
            c == (Rgb8 { r: 80, g: 80, b: 80 }),
    {
        Rgb8 { r: 80, g: 80, b: 80 }
    }

    pub fn green() -> (c: Rgb8)
        ensures
            c == (Rgb8 { r: 0, g: 255, b: 0 }),
    {
        Rgb8 { r: 0, g: 255, b: 0 }
    }

    pub fn red() -> (c: Rgb8)
        ensures
            c == (Rgb8 { r: 255, g: 0, b: 0 }),
    {
        Rgb8 { r: 255, g: 0, b: 0 }
    }

    pub fn amber() -> (c: Rgb8)
        ensures
            c == (Rgb8 { r: 255, g: 191, b: 0 }),
    {
        Rgb8 { r: 255, g: 191, b: 0 }
    }

    pub fn new(r: u8, g: u8, b: u8) -> (c: Rgb8)
        ensures
            c == (Rgb8 { r, g, b }),
    {
        Rgb8 { r, g, b }
    }
}

#[derive(Debug, Clone, Copy, PartialEq, Eq, Hash, Structural)]
pub enum LayerId {
    MapBorders,
    RegionBorders,
    MajorRoads,
    Radar,
    MeteoAlarm,
    SurfTemp,
    SurfWind,
    SurfHumidity,
    SurfPressure,
}

/// What a station-observation layer shows.
#[derive(Debug, Clone, Copy, PartialEq, Eq, Structural)]
pub enum ObservationProperty {
    Temperature,
    WindSpeed,
    Humidity,
    Pressure,
}

impl LayerId {
    pub open spec fn name(self) -> Seq<char> {
        match self {
            LayerId::MapBorders => "Countries"@,
            LayerId::RegionBorders => "Regions"@,
            LayerId::MajorRoads => "Roads"@,
            LayerId::Radar => "Radar"@,
            LayerId::MeteoAlarm => "Warnings"@,
            LayerId::SurfTemp => "Temperature"@,
            LayerId::SurfWind => "Wind Speed"@,
            LayerId::SurfHumidity => "Humidity"@,
            LayerId::SurfPressure => "Pressure"@,
        }
    }

    pub open spec fn property(self) -> Option<ObservationProperty> {
        match self {
            LayerId::SurfTemp => Some(ObservationProperty::Temperature),
            LayerId::SurfWind => Some(ObservationProperty::WindSpeed),
            LayerId::SurfHumidity => Some(ObservationProperty::Humidity),
            LayerId::SurfPressure => Some(ObservationProperty::Pressure),
            _ => None,
        }
    }

    pub open spec fn geographic(self) -> bool {
        self == LayerId::MapBorders || self == LayerId::RegionBorders || self
            == LayerId::MajorRoads
    }

    /// The modes a data layer can be drawn in, best first.
    pub open spec fn preferences(self) -> Seq<RenderMode> {
        if self == LayerId::Radar {
            seq![RenderMode::Braille, RenderMode::Color, RenderMode::Text]
        } else if self == LayerId::MeteoAlarm {
            seq![RenderMode::Color, RenderMode::Braille, RenderMode::Text]
        } else if self.property() is Some {
            seq![RenderMode::Text, RenderMode::Braille, RenderMode::Color]
        } else {
            Seq::empty()
        }
    }

    /// The place of a layer in drawing order.
    pub open spec fn place(self) -> int {
        match self {
            LayerId::MapBorders => 0,
            LayerId::RegionBorders => 1,
            LayerId::MajorRoads => 2,
            LayerId::Radar => 3,
            LayerId::MeteoAlarm => 4,
            LayerId::SurfTemp => 5,
            LayerId::SurfWind => 6,
            LayerId::SurfHumidity => 7,
            LayerId::SurfPressure => 8,
        }
    }

    fn slot(self) -> (i: usize)
        ensures
            i == self.place(),
            i < 9,
    {
        match self {
            LayerId::MapBorders => 0,
            LayerId::RegionBorders => 1,
            LayerId::MajorRoads => 2,
            LayerId::Radar => 3,
            LayerId::MeteoAlarm => 4,
            LayerId::SurfTemp => 5,
            LayerId::SurfWind => 6,
            LayerId::SurfHumidity => 7,
            LayerId::SurfPressure => 8,
        }
    }

    pub fn label(self) -> (s: &'static str)
        ensures
            s@ == self.name(),
    {
        match self {
            LayerId::MapBorders => "Countries",
            LayerId::RegionBorders => "Regions",
            LayerId::MajorRoads => "Roads",
            LayerId::Radar => "Radar",
            LayerId::MeteoAlarm => "Warnings",
            LayerId::SurfTemp => "Temperature",
            LayerId::SurfWind => "Wind Speed",
            LayerId::SurfHumidity => "Humidity",
            LayerId::SurfPressure => "Pressure",
        }
    }

    pub fn observation_property(self) -> (r: Option<ObservationProperty>)
        ensures
            r == self.property(),
    {
        match self {
            LayerId::SurfTemp => Some(ObservationProperty::Temperature),
            LayerId::SurfWind => Some(ObservationProperty::WindSpeed),
            LayerId::SurfHumidity => Some(ObservationProperty::Humidity),
            LayerId::SurfPressure => Some(ObservationProperty::Pressure),
            _ => None,
        }
    }

    /// True for the station-observation layers, which share one data source
    /// and are drawn as text only.
    pub fn is_observation(self) -> (r: bool)
        ensures
            r == (self.property() is Some),
    {
        self.observation_property().is_some()
    }

    /// Geographic layers are switched on and off; the others own render modes.
    pub fn is_geographic(self) -> (r: bool)
        ensures
            r == self.geographic(),
    {
        match self {
            LayerId::MapBorders => true,
            LayerId::RegionBorders => true,
            LayerId::MajorRoads => true,
            _ => false,
        }
    }

    pub fn is_rendered(self) -> (r: bool)
        ensures
            r == !self.geographic(),
    {
        !self.is_geographic()
    }
}

/// Top-level layer groups that contain sub-layers.
#[derive(Debug, Clone, Copy, PartialEq, Eq, Hash, Structural)]
pub enum LayerGroup {
    Observations,
}

impl LayerGroup {
    pub open spec fn members(self) -> Seq<LayerId> {
        seq![LayerId::SurfTemp, LayerId::SurfWind, LayerId::SurfHumidity, LayerId::SurfPressure]
    }

    pub fn children(&self) -> (r: [LayerId; 4])
        ensures
            r@ == self.members(),
    {
        let r = [
            LayerId::SurfTemp,
            LayerId::SurfWind,
            LayerId::SurfHumidity,
            LayerId::SurfPressure,
        ];
        assert(r@ =~= self.members());
        r
    }

    pub fn label(&self) -> (s: &'static str)
        ensures
            s@ == "Observations"@,
    {
        "Observations"
    }
}

/// An entry of the layer list: one layer, or a group that unfolds.
#[derive(Debug, Clone, Copy, PartialEq, Eq, Structural)]
pub enum MainItem {
    Single(LayerId),
    Group(LayerGroup),
}

impl MainItem {
    pub fn label(&self) -> (s: &'static str)
        ensures
            s@ == match self {
                MainItem::Single(id) => id.name(),
                MainItem::Group(_) => "Observations"@,
            },
    {
        match self {
            MainItem::Single(id) => id.label(),
            MainItem::Group(g) => g.label(),
        }
    }

    pub fn is_single(&self) -> (r: bool)
        ensures
            r == (self is Single),
    {
        match self {
            MainItem::Single(_) => true,
            MainItem::Group(_) => false,
        }
    }

    pub fn single_id(&self) -> (r: Option<LayerId>)
        ensures
            r == match self {
                MainItem::Single(id) => Some(*id),
                MainItem::Group(_) => None,
            },
    {
        match self {
            MainItem::Single(id) => Some(*id),
            MainItem::Group(_) => None,
        }
    }
}

/// What a layer is doing.
#[derive(Debug)]
pub enum LayerStatus {
    Idle,
    Loading,
    Ready,
    Error(String),
}

/// A layer's switch and what it is doing.
#[derive(Debug)]
pub struct LayerState {
    pub id: LayerId,
    pub enabled: bool,
    pub locked: bool,
    pub status: LayerStatus,
    /// When the status last changed, in nanoseconds of the program's clock.
    pub updated_at: Option<u64>,
}

impl LayerStatus {
    /// The same status again.
    pub fn duplicate(&self) -> (s: LayerStatus)
        ensures
            s == *self,
    {
        match self {
            LayerStatus::Idle => LayerStatus::Idle,
            LayerStatus::Loading => LayerStatus::Loading,
            LayerStatus::Ready => LayerStatus::Ready,
            LayerStatus::Error(e) => LayerStatus::Error(e.clone()),
        }
    }

    pub fn is_loading(&self) -> (r: bool)
        ensures
            r == (self is Loading),
    {
        match self {
            LayerStatus::Loading => true,
            _ => false,
        }
    }
}

/// All layers, the user's place in the layer list, and the render modes.
#[derive(Debug)]
pub struct LayerRegistry {
    states: Vec<LayerState>,
    selected: LayerId,
    selected_main: usize,
    expanded_group: Option<LayerGroup>,
    sub_cursor: usize,
    render_modes: RenderModeState,
}

/// Where the user stands in the layer list.
#[verifier::ext_equal]
pub struct Cursor {
    /// The entry of the list.
    pub main: int,
    /// The unfolded group, with the place in it: 0 goes back, the members
    /// follow.
    pub inside: Option<(LayerGroup, int)>,
    /// The layer that details are shown of.
    pub selected: LayerId,
}

/// The entries of the layer list.
pub open spec fn main_items() -> Seq<MainItem> {
    seq![
        MainItem::Single(LayerId::MapBorders),
        MainItem::Single(LayerId::RegionBorders),
        MainItem::Single(LayerId::MajorRoads),
        MainItem::Single(LayerId::Radar),
        MainItem::Group(LayerGroup::Observations),
        MainItem::Single(LayerId::MeteoAlarm),
    ]
}

/// All layers in drawing order.
pub open spec fn layer_order() -> Seq<LayerId> {
    seq![
        LayerId::MapBorders,
        LayerId::RegionBorders,
        LayerId::MajorRoads,
        LayerId::Radar,
        LayerId::MeteoAlarm,
        LayerId::SurfTemp,
        LayerId::SurfWind,
        LayerId::SurfHumidity,
        LayerId::SurfPressure,
    ]
}

/// The layer shown for an entry of the list: its own, or a group's first.
pub open spec fn shown_for(item: MainItem) -> LayerId {
    match item {
        MainItem::Single(id) => id,
        MainItem::Group(g) => g.members()[0],
    }
}

impl Cursor {
    pub open spec fn valid(self) -> bool {
        &&& 0 <= self.main < 6
        &&& match self.inside {
            Some((g, p)) => 0 <= p <= 4 && main_items()[self.main] == MainItem::Group(g),
            None => true,
        }
    }

    /// The layer that an action applies to.
    pub open spec fn target(self) -> LayerId {
        match self.inside {
            Some((g, p)) => if p > 0 {
                g.members()[p - 1]
            } else {
                self.selected
            },
            None => self.selected,
        }
    }

    /// Leave any group for the list entry `main`.
    pub open spec fn at_main(self, main: int) -> Cursor {
        Cursor { main, inside: None, selected: shown_for(main_items()[main]) }
    }

    pub open spec fn next(self) -> Cursor {
        match self.inside {
            Some((g, p)) => if p < 4 {
                Cursor { inside: Some((g, p + 1)), ..self }
            } else {
                self.at_main((self.main + 1) % 6)
            },
            None => self.at_main((self.main + 1) % 6),
        }
    }

    pub open spec fn previous(self) -> Cursor {
        match self.inside {
            Some((g, p)) => if p > 0 {
                Cursor { inside: Some((g, p - 1)), ..self }
            } else {
                self.at_main((self.main + 5) % 6)
            },
            None => self.at_main((self.main + 5) % 6),
        }
    }

    /// Where the list shows a layer: every layer is an entry or a member of
    /// the group.
    pub open spec fn showing(id: LayerId) -> Cursor {
        match id {
            LayerId::MapBorders => Cursor { main: 0, inside: None, selected: id },
            LayerId::RegionBorders => Cursor { main: 1, inside: None, selected: id },
            LayerId::MajorRoads => Cursor { main: 2, inside: None, selected: id },
            LayerId::Radar => Cursor { main: 3, inside: None, selected: id },
            LayerId::MeteoAlarm => Cursor { main: 5, inside: None, selected: id },
            _ => Cursor {
                main: 4,
                inside: Some((LayerGroup::Observations, id.place() - 4)),
                selected: id,
            },
        }
    }
}

/// The modes after `id` was activated: an observation takes the text mode, and
/// with it every mode of its siblings, or gives it up; another data layer
/// takes its best free mode, or gives up what it owns.
pub open spec fn activated(modes: RenderModeState, id: LayerId) -> RenderModeState {
    if id.geographic() {
        modes
    } else if id.property() is Some {
        if modes.text == Some(id) {
            modes.without(id)
        } else {
            without_siblings(modes, id).with_owner(RenderMode::Text, Some(id))
        }
    } else if modes.owns_some(id) {
        modes.without(id)
    } else {
        match modes.first_free(id.preferences(), id) {
            Some(mode) => modes.with_owner(mode, Some(id)),
            None => modes,
        }
    }
}

/// Take all modes from the observation layers other than `id`.
pub open spec fn without_siblings(modes: RenderModeState, id: LayerId) -> RenderModeState {
    let keeps = |owner: Option<LayerId>| match owner {
        Some(l) => l == id || l.property() is None,
        None => true,
    };
    RenderModeState {
        braille: if keeps(modes.braille) { modes.braille } else { None },
        color: if keeps(modes.color) { modes.color } else { None },
        text: if keeps(modes.text) { modes.text } else { None },
    }
}

pub open spec fn on_by_default(id: LayerId) -> bool {
    id == LayerId::MapBorders || id == LayerId::RegionBorders || id == LayerId::Radar
}

impl Default for LayerRegistry {
    fn default() -> (r: LayerRegistry)
        ensures
            r.fresh(),
    {
        LayerRegistry::new()
    }
}

impl LayerRegistry {
    pub const ORDER: [LayerId; 9] = [
        LayerId::MapBorders,
        LayerId::RegionBorders,
        LayerId::MajorRoads,
        LayerId::Radar,
        LayerId::MeteoAlarm,
        LayerId::SurfTemp,
        LayerId::SurfWind,
        LayerId::SurfHumidity,
        LayerId::SurfPressure,
    ];

    /// One state for every layer, in drawing order, and a cursor that stands
    /// in the list.
    pub closed spec fn well_formed(self) -> bool {
        &&& self.states.len() == 9
        &&& forall|i: int| 0 <= i < 9 ==> (#[trigger] self.states[i]).id == layer_order()[i]
        &&& self.selected_main < 6
        &&& self.sub_cursor <= 4
        &&& self.cursor().valid()
        &&& self.expanded_group is None ==> self.sub_cursor == 0
    }

    /// A registry keeps each layer's state under that layer, and its cursor
    /// stands in the list.
    pub proof fn well_formed_means(self)
        requires
            self.well_formed(),
        ensures
            forall|id: LayerId| (#[trigger] self.state(id)).id == id,
            self.cursor().valid(),
    {
        assert forall|id: LayerId| (#[trigger] self.state(id)).id == id by {
            assert(layer_order()[id.place()] == id);
        }
    }

    pub closed spec fn state(self, id: LayerId) -> LayerState {
        self.states[id.place()]
    }

    pub closed spec fn modes(self) -> RenderModeState {
        self.render_modes
    }

    pub closed spec fn cursor(self) -> Cursor {
        Cursor {
            main: self.selected_main as int,
            inside: match self.expanded_group {
                Some(g) => Some((g, self.sub_cursor as int)),
                None => None,
            },
            selected: self.selected,
        }
    }

    /// Whether `after` differs from this registry in one layer's status alone,
    /// which was set at `now`.
    pub open spec fn updated(
        self,
        after: LayerRegistry,
        id: LayerId,
        status: LayerStatus,
        now: u64,
    ) -> bool {
        &&& after.well_formed()
        &&& after.cursor() == self.cursor()
        &&& after.modes() == self.modes()
        &&& forall|l: LayerId| #[trigger]
            after.state(l) == if l == id {
                LayerState { status, updated_at: Some(now), ..self.state(id) }
            } else {
                self.state(l)
            }
    }

    /// Whether a layer is drawn.
    pub open spec fn shown(self, id: LayerId) -> bool {
        if id.geographic() {
            self.state(id).enabled
        } else {
            self.modes().owns_some(id)
        }
    }

    /// The states after `id`'s switch was used: a locked layer stays as it is.
    pub open spec fn switched(self, id: LayerId) -> LayerState {
        let s = self.state(id);
        if s.locked {
            s
        } else {
            LayerState { enabled: !s.enabled, ..s }
        }
    }

    fn layer_state(id: LayerId, enabled: bool, locked: bool) -> (s: LayerState)
        ensures
            s.id == id,
            s.enabled == enabled,
            s.locked == locked,
            s.status is Idle,
            s.updated_at is None,
    {
        LayerState { id, enabled, locked, status: LayerStatus::Idle, updated_at: None }
    }

    fn main_item(i: usize) -> (item: MainItem)
        requires
            i < 6,
        ensures
            item == main_items()[i as int],
    {
        match i {
            0 => MainItem::Single(LayerId::MapBorders),
            1 => MainItem::Single(LayerId::RegionBorders),
            2 => MainItem::Single(LayerId::MajorRoads),
            3 => MainItem::Single(LayerId::Radar),
            4 => MainItem::Group(LayerGroup::Observations),
            _ => MainItem::Single(LayerId::MeteoAlarm),
        }
    }

    /// Borders, regions and radar are on, the borders for good; temperatures
    /// own the text mode, so that a fresh install shows observations.
    pub open spec fn fresh(self) -> bool {
        &&& self.well_formed()
        &&& self.cursor() == (Cursor { main: 0, inside: None, selected: LayerId::MapBorders })
        &&& self.modes() == RenderModeState::unowned().with_owner(
            RenderMode::Text,
            Some(LayerId::SurfTemp),
        )
        &&& forall|id: LayerId|
            {
                let s = #[trigger] self.state(id);
                &&& s.enabled == on_by_default(id)
                &&& s.locked == (id == LayerId::MapBorders)
                &&& s.status is Idle
                &&& s.updated_at is None
            }
    }

    /// The layers of a fresh install.
    pub fn new() -> (r: LayerRegistry)
        ensures
            r.fresh(),
    {
        let mut states: Vec<LayerState> = Vec::new();
        states.push(LayerRegistry::layer_state(LayerId::MapBorders, true, true));
        states.push(LayerRegistry::layer_state(LayerId::RegionBorders, true, false));
        states.push(LayerRegistry::layer_state(LayerId::MajorRoads, false, false));
        states.push(LayerRegistry::layer_state(LayerId::Radar, true, false));
        states.push(LayerRegistry::layer_state(LayerId::MeteoAlarm, false, false));
        states.push(LayerRegistry::layer_state(LayerId::SurfTemp, false, false));
        states.push(LayerRegistry::layer_state(LayerId::SurfWind, false, false));
        states.push(LayerRegistry::layer_state(LayerId::SurfHumidity, false, false));
        states.push(LayerRegistry::layer_state(LayerId::SurfPressure, false, false));
        let mut render_modes = RenderModeState::new();
        let _ = render_modes.assign(RenderMode::Text, LayerId::SurfTemp);
        LayerRegistry {
            states,
            selected: LayerId::MapBorders,
            selected_main: 0,
            expanded_group: None,
            sub_cursor: 0,
            render_modes,
        }
    }

    pub fn selected_layer(&self) -> (id: LayerId)
        requires
            self.well_formed(),
        ensures
            id == self.cursor().target(),
    {
        if let Some(g) = self.expanded_group {
            let children = g.children();
            if self.sub_cursor > 0 && self.sub_cursor <= 4 {
                return children[self.sub_cursor - 1];
            }
        }
        self.selected
    }

    pub fn select_next(&mut self)
        requires
            old(self).well_formed(),
        ensures
            final(self).well_formed(),
            final(self).cursor() == old(self).cursor().next(),
            final(self).modes() == old(self).modes(),
            forall|id: LayerId| #[trigger] final(self).state(id) == old(self).state(id),
    {
        if self.expanded_group.is_some() && self.sub_cursor < 4 {
            self.sub_cursor = self.sub_cursor + 1;
            return;
        }
        self.expanded_group = None;
        self.sub_cursor = 0;
        self.selected_main = (self.selected_main + 1) % 6;
        self.sync_selected();
    }

    pub fn select_previous(&mut self)
        requires
            old(self).well_formed(),
        ensures
            final(self).well_formed(),
            final(self).cursor() == old(self).cursor().previous(),
            final(self).modes() == old(self).modes(),
            forall|id: LayerId| #[trigger] final(self).state(id) == old(self).state(id),
    {
        if self.expanded_group.is_some() && self.sub_cursor > 0 {
            self.sub_cursor = self.sub_cursor - 1;
            return;
        }
        self.expanded_group = None;
        self.sub_cursor = 0;
        self.selected_main = (self.selected_main + 5) % 6;
        self.sync_selected();
    }

    fn sync_selected(&mut self)
        requires
            old(self).well_formed_list(),
            old(self).expanded_group is None,
        ensures
            final(self).states == old(self).states,
            final(self).render_modes == old(self).render_modes,
            final(self).selected_main == old(self).selected_main,
            final(self).expanded_group == old(self).expanded_group,
            final(self).sub_cursor == old(self).sub_cursor,
            final(self).selected == shown_for(main_items()[old(self).selected_main as int]),
    {
        let item = LayerRegistry::main_item(self.selected_main);
        self.selected = match item {
            MainItem::Single(id) => id,
            MainItem::Group(g) => g.children()[0],
        };
    }

    spec fn well_formed_list(self) -> bool {
        self.selected_main < 6
    }

    /// Act on the entry under the cursor: unfold a group, leave it, or switch
    /// a layer. Returns the layer that was switched.
    pub fn handle_space(&mut self) -> (r: Option<LayerId>)
        requires
            old(self).well_formed(),
        ensures
            final(self).well_formed(),
            match old(self).cursor().inside {
                Some((g, p)) => if p == 0 {
                    &&& r is None
                    &&& final(self).cursor() == (Cursor { inside: None, ..old(self).cursor() })
                } else {
                    &&& r == Some(g.members()[p - 1])
                    &&& final(self).cursor() == old(self).cursor()
                },
                None => match main_items()[old(self).cursor().main] {
                    MainItem::Group(g) => {
                        &&& r is None
                        &&& final(self).cursor() == (Cursor {
                            inside: Some((g, 0)),
                            ..old(self).cursor()
                        })
                    },
                    MainItem::Single(id) => {
                        &&& r == Some(id)
                        &&& final(self).cursor() == old(self).cursor()
                    },
                },
            },
            match r {
                Some(id) => {
                    &&& final(self).modes() == activated(old(self).modes(), id)
                    &&& forall|l: LayerId| #[trigger]
                        final(self).state(l) == if l == id && id.geographic() {
                            old(self).switched(id)
                        } else {
                            old(self).state(l)
                        }
                },
                None => {
                    &&& final(self).modes() == old(self).modes()
                    &&& forall|l: LayerId| #[trigger] final(self).state(l) == old(self).state(l)
                },
            },
    {
        if let Some(g) = self.expanded_group {
            if self.sub_cursor == 0 {
                self.expanded_group = None;
                return None;
            }
            let children = g.children();
            let id = children[self.sub_cursor - 1];
            self.activate(id);
            return Some(id);
        }
        let item = LayerRegistry::main_item(self.selected_main);
        match item {
            MainItem::Group(g) => {
                self.expanded_group = Some(g);
                self.sub_cursor = 0;
                None
            },
            MainItem::Single(id) => {
                self.activate(id);
                Some(id)
            },
        }
    }

    fn activate(&mut self, id: LayerId)
        requires
            old(self).well_formed(),
        ensures
            final(self).well_formed(),
            final(self).cursor() == old(self).cursor(),
            final(self).modes() == activated(old(self).modes(), id),
            forall|l: LayerId| #[trigger]
                final(self).state(l) == if l == id && id.geographic() {
                    old(self).switched(id)
                } else {
                    old(self).state(l)
                },
    {
        if id.is_geographic() {
            self.toggle(id);
        } else if id.is_observation() {
            if self.render_modes.has(RenderMode::Text, id) {
                self.render_modes.remove_all(id);
            } else {
                let mut modes = self.render_modes;
                if id != LayerId::SurfTemp {
                    modes.remove_all(LayerId::SurfTemp);
                }
                if id != LayerId::SurfWind {
                    modes.remove_all(LayerId::SurfWind);
                }
                if id != LayerId::SurfHumidity {
                    modes.remove_all(LayerId::SurfHumidity);
                }
                if id != LayerId::SurfPressure {
                    modes.remove_all(LayerId::SurfPressure);
                }
                assert(modes == without_siblings(self.render_modes, id));
                let _ = modes.assign(RenderMode::Text, id);
                self.render_modes = modes;
            }
        } else if self.render_modes.has_any(id) {
            self.render_modes.remove_all(id);
        } else if let Some(mode) = self.render_modes.best_available(id) {
            let _ = self.render_modes.assign(mode, id);
        }
    }

    pub fn current_main(&self) -> (item: MainItem)
        requires
            self.well_formed(),
        ensures
            item == main_items()[self.cursor().main],
    {
        LayerRegistry::main_item(self.selected_main)
    }

    pub fn selected_main_index(&self) -> (i: usize)
        ensures
            i == self.cursor().main,
    {
        self.selected_main
    }

    pub fn is_expanded(&self) -> (r: bool)
        ensures
            r == (self.cursor().inside is Some),
    {
        self.expanded_group.is_some()
    }

    pub fn expanded_group(&self) -> (r: Option<LayerGroup>)
        ensures
            r == match self.cursor().inside {
                Some((g, _)) => Some(g),
                None => None,
            },
    {
        self.expanded_group
    }

    pub fn sub_cursor(&self) -> (p: usize)
        requires
            self.well_formed(),
        ensures
            p == match self.cursor().inside {
                Some((_, p)) => p,
                None => 0,
            },
    {
        self.sub_cursor
    }

    /// Record what a layer is doing as of `now`.
    pub fn set_status(&mut self, id: LayerId, status: LayerStatus, now: u64)
        requires
            old(self).well_formed(),
        ensures
            old(self).updated(*final(self), id, status, now),
    {
        let i: usize = id.slot();
        proof {
            lemma_places();
        }
        let (enabled, locked) = (self.states[i].enabled, self.states[i].locked);
        self.states[i] = LayerState { id, enabled, locked, status, updated_at: Some(now) };
    }

    /// Use a layer's switch; a locked layer stays as it is.
    pub fn toggle(&mut self, id: LayerId)
        requires
            old(self).well_formed(),
        ensures
            final(self).well_formed(),
            final(self).cursor() == old(self).cursor(),
            final(self).modes() == old(self).modes(),
            forall|l: LayerId| #[trigger]
                final(self).state(l) == if l == id {
                    old(self).switched(id)
                } else {
                    old(self).state(l)
                },
    {
        let i: usize = id.slot();
        proof {
            lemma_places();
        }
        if !self.states[i].locked {
            let enabled = self.states[i].enabled;
            self.states[i].enabled = !enabled;
        }
    }

    pub fn enabled(&self, id: LayerId) -> (r: bool)
        requires
            self.well_formed(),
        ensures
            r == self.shown(id),
    {
        if id.is_geographic() {
            self.states[id.slot()].enabled
        } else {
            self.render_modes.has_any(id)
        }
    }

    pub fn mode_state(&self) -> (r: &RenderModeState)
        ensures
            *r == self.modes(),
    {
        &self.render_modes
    }

    pub fn mode_state_mut(&mut self) -> (r: &mut RenderModeState)
        ensures
            *r == old(self).modes(),
            final(self).modes() == *final(r),
            final(self).cursor() == old(self).cursor(),
            old(self).well_formed() ==> final(self).well_formed(),
            forall|l: LayerId| #[trigger] final(self).state(l) == old(self).state(l),
    {
        &mut self.render_modes
    }

    pub fn get_state(&self, id: LayerId) -> (r: Option<&LayerState>)
        requires
            self.well_formed(),
        ensures
            r == Some(&self.state(id)),
    {
        Some(&self.states[id.slot()])
    }

    /// Put the cursor on a layer, unfolding its group where it has one.
    pub fn set_selected(&mut self, id: LayerId)
        requires
            old(self).well_formed(),
        ensures
            final(self).well_formed(),
            final(self).cursor() == Cursor::showing(id),
            final(self).modes() == old(self).modes(),
            forall|l: LayerId| #[trigger] final(self).state(l) == old(self).state(l),
    {
        self.selected = id;
        let mut i: usize = 0;
        while i < 6
            invariant
                i <= 6,
                old(self).well_formed(),
                self.states == old(self).states,
                self.render_modes == old(self).render_modes,
                self.selected == id,
                forall|k: int| 0 <= k < i ==> match #[trigger] main_items()[k] {
                    MainItem::Single(l) => l != id,
                    MainItem::Group(g) => id.property() is None,
                },
            decreases 6 - i,
        {
            let item = LayerRegistry::main_item(i);
            match item {
                MainItem::Single(lid) => {
                    if lid == id {
                        self.selected_main = i;
                        self.expanded_group = None;
                        self.sub_cursor = 0;
                        return;
                    }
                },
                MainItem::Group(g) => {
                    if id.is_observation() {
                        self.selected_main = i;
                        self.expanded_group = Some(g);
                        self.sub_cursor = id.slot() - 4;
                        return;
                    }
                },
            }
            i = i + 1;
        }
        proof {
            assert(main_items()[0] == MainItem::Single(LayerId::MapBorders));
            assert(main_items()[1] == MainItem::Single(LayerId::RegionBorders));
            assert(main_items()[2] == MainItem::Single(LayerId::MajorRoads));
            assert(main_items()[3] == MainItem::Single(LayerId::Radar));
            assert(main_items()[4] == MainItem::Group(LayerGroup::Observations));
            assert(main_items()[5] == MainItem::Single(LayerId::MeteoAlarm));
        }
    }

    /// Restore the switches from saved data. Locked layers keep theirs.
    pub fn restore_enabled(&mut self, enabled: &[LayerId])
        requires
            old(self).well_formed(),
        ensures
            final(self).well_formed(),
            final(self).cursor() == old(self).cursor(),
            final(self).modes() == old(self).modes(),
            forall|l: LayerId| #[trigger]
                final(self).state(l) == restored(old(self).state(l), enabled@, l),
    {
        let mut i: usize = 0;
        while i < 9
            invariant
                i <= 9,
                old(self).well_formed(),
                self.well_formed(),
                self.cursor() == old(self).cursor(),
                self.render_modes == old(self).render_modes,
                forall|k: int| 0 <= k < i ==> #[trigger] self.states[k] == restored(
                    old(self).states[k],
                    enabled@,
                    layer_order()[k],
                ),
                forall|k: int| i <= k < 9 ==> #[trigger] self.states[k] == old(self).states[k],
            decreases 9 - i,
        {
            if !self.states[i].locked {
                let on = contains_layer(enabled, self.states[i].id);
                self.states[i].enabled = on;
            }
            i = i + 1;
        }
        proof {
            lemma_places();
        }
    }

    /// Restore the switches of the layers that saved data knows of.
    pub fn restore_known(&mut self, enabled: &[LayerId], known: &[LayerId])
        requires
            old(self).well_formed(),
        ensures
            final(self).well_formed(),
            final(self).cursor() == old(self).cursor(),
            final(self).modes() == old(self).modes(),
            forall|l: LayerId| #[trigger]
                final(self).state(l) == if knows(known@, l) {
                    restored(old(self).state(l), enabled@, l)
                } else {
                    old(self).state(l)
                },
    {
        let mut i: usize = 0;
        while i < 9
            invariant
                i <= 9,
                old(self).well_formed(),
                self.well_formed(),
                self.cursor() == old(self).cursor(),
                self.render_modes == old(self).render_modes,
                forall|k: int| 0 <= k < i ==> #[trigger] self.states[k] == if knows(
                    known@,
                    layer_order()[k],
                ) {
                    restored(old(self).states[k], enabled@, layer_order()[k])
                } else {
                    old(self).states[k]
                },
                forall|k: int| i <= k < 9 ==> #[trigger] self.states[k] == old(self).states[k],
            decreases 9 - i,
        {
            if !self.states[i].locked && is_known(known, self.states[i].id) {
                let on = contains_layer(enabled, self.states[i].id);
                self.states[i].enabled = on;
            }
            i = i + 1;
        }
        proof {
            lemma_places();
        }
    }

    /// The layers whose switch is on, for saving.
    pub fn saved_enabled(&self) -> (r: Vec<LayerId>)
        requires
            self.well_formed(),
        ensures
            r@ == layer_order().filter(|id: LayerId| self.state(id).enabled),
    {
        let ghost on = |id: LayerId| self.state(id).enabled;
        let mut r: Vec<LayerId> = Vec::new();
        let mut i: usize = 0;
        proof {
            assert(layer_order().take(0) =~= Seq::<LayerId>::empty());
            reveal(Seq::filter);
        }
        while i < 9
            invariant
                i <= 9,
                self.well_formed(),
                on == (|id: LayerId| self.state(id).enabled),
                r@ == layer_order().take(i as int).filter(on),
            decreases 9 - i,
        {
            proof {
                let t = layer_order().take(i + 1);
                assert(t.drop_last() =~= layer_order().take(i as int));
                reveal(Seq::filter);
                lemma_places();
            }
            if self.states[i].enabled {
                r.push(self.states[i].id);
            }
            i = i + 1;
        }
        assert(layer_order().take(9) =~= layer_order());
        r
    }

    pub fn ordered(&self) -> (r: Vec<&LayerState>)
        requires
            self.well_formed(),
        ensures
            r.len() == 9,
            forall|i: int| 0 <= i < 9 ==> *(#[trigger] r[i]) == self.state(layer_order()[i]),
    {
        let mut r: Vec<&LayerState> = Vec::new();
        let mut i: usize = 0;
        while i < 9
            invariant
                i <= 9,
                self.well_formed(),
                r.len() == i,
                forall|k: int| 0 <= k < i ==> *(#[trigger] r[k]) == self.states[k],
            decreases 9 - i,
        {
            r.push(&self.states[i]);
            i = i + 1;
        }
        proof {
            lemma_places();
        }
        r
    }

    /// Whether a layer that is switched on is loading.
    pub fn any_loading(&self) -> (r: bool)
        requires
            self.well_formed(),
        ensures
            r == exists|id: LayerId| {
                let s = #[trigger] self.state(id);
                s.enabled && s.status is Loading
            },
    {
        proof {
            lemma_places();
        }
        let mut i: usize = 0;
        while i < 9
            invariant
                i <= 9,
                self.well_formed(),
                forall|k: int| 0 <= k < i ==> !((#[trigger] self.states[k]).enabled
                    && self.states[k].status is Loading),
            decreases 9 - i,
        {
            if self.states[i].enabled && self.states[i].status.is_loading() {
                assert(self.state(layer_order()[i as int]) == self.states[i as int]) by {
                    lemma_places();
                }
                return true;
            }
            i = i + 1;
        }
        false
    }
}

/// The text after a layer's name while it loads.
pub open spec fn refreshing() -> Seq<char> {
    ": refreshing\u{2026}"@
}

impl LayerRegistry {
    /// The first layer in drawing order, the borders left aside, that failed.
    pub open spec fn first_failed(self, from: int) -> Option<LayerId>
        decreases 9 - from,
    {
        if from < 0 || from >= 9 {
            None
        } else {
            let id = layer_order()[from];
            if self.state(id).status is Error && id != LayerId::MapBorders {
                Some(id)
            } else {
                self.first_failed(from + 1)
            }
        }
    }

    pub open spec fn busy(self, id: LayerId) -> bool {
        self.state(id).status is Loading && self.state(id).enabled
    }

    /// What the status line reads: a failure first, then what is loading.
    pub open spec fn status_text(self) -> Seq<char> {
        match self.first_failed(0) {
            Some(id) => id.name() + ": "@ + self.state(id).status->Error_0@,
            None => if self.busy(LayerId::Radar) {
                LayerId::Radar.name() + refreshing()
            } else if self.busy(LayerId::MeteoAlarm) {
                LayerId::MeteoAlarm.name() + refreshing()
            } else if self.busy(LayerId::SurfTemp) || self.busy(LayerId::SurfWind) || self.busy(
                LayerId::SurfHumidity,
            ) || self.busy(LayerId::SurfPressure) {
                "Observations"@ + refreshing()
            } else {
                "Ready"@
            },
        }
    }

    fn is_busy(&self, id: LayerId) -> (r: bool)
        requires
            self.well_formed(),
        ensures
            r == self.busy(id),
    {
        let s = &self.states[id.slot()];
        s.status.is_loading() && s.enabled
    }

    pub fn status_line(&self) -> (s: String)
        requires
            self.well_formed(),
        ensures
            s@ == self.status_text(),
    {
        let mut i: usize = 0;
        while i < 9
            invariant
                i <= 9,
                self.well_formed(),
                self.first_failed(0) == self.first_failed(i as int),
            decreases 9 - i,
        {
            proof {
                lemma_places();
                assert(self.state(layer_order()[i as int]) == self.states[i as int]);
            }
            let state = &self.states[i];
            if let LayerStatus::Error(error) = &state.status {
                if state.id != LayerId::MapBorders {
                    return state.id.label().to_string().concat(": ").concat(error.as_str());
                }
            }
            i = i + 1;
        }
        if self.is_busy(LayerId::Radar) {
            return LayerId::Radar.label().to_string().concat(": refreshing\u{2026}");
        }
        if self.is_busy(LayerId::MeteoAlarm) {
            return LayerId::MeteoAlarm.label().to_string().concat(": refreshing\u{2026}");
        }
        if self.is_busy(LayerId::SurfTemp) || self.is_busy(LayerId::SurfWind) || self.is_busy(
            LayerId::SurfHumidity,
        ) || self.is_busy(LayerId::SurfPressure) {
            return "Observations".to_string().concat(": refreshing\u{2026}");
        }
        "Ready".to_string()
    }
}

/// Toggling a mode twice gives it back to a layer that owned it, and leaves it
/// without an owner otherwise; the other modes never change.
pub proof fn toggling_twice(s: RenderModeState, mode: RenderMode, layer: LayerId)
    ensures
        s.owner(mode) == Some(layer) ==> s.toggled(mode, layer).toggled(mode, layer) == s,
        s.owner(mode) != Some(layer) ==> s.toggled(mode, layer).toggled(mode, layer)
            == s.with_owner(mode, None),
        forall|other: RenderMode|
            other != mode ==> #[trigger] s.toggled(mode, layer).owner(other) == s.owner(other),
{
}

/// Activating an observation layer that does not own the text mode leaves it
/// the only observation layer that is shown.
pub proof fn one_observation_at_a_time(modes: RenderModeState, id: LayerId, other: LayerId)
    requires
        id.property() is Some,
        other.property() is Some,
        modes.text != Some(id),
    ensures
        activated(modes, id).owns_some(other) <==> other == id,
{
    let after = activated(modes, id);
    assert(after.owner(RenderMode::Text) == Some(id));
    if after.owns_some(other) {
        let mode = choose|mode: RenderMode| #[trigger] after.owner(mode) == Some(other);
        assert(mode == RenderMode::Braille || mode == RenderMode::Color || mode
            == RenderMode::Text);
    }
}

/// Activating a data layer never takes a mode from a layer that is no
/// observation, and switches the layer itself unless every mode is taken.
pub proof fn activation_leaves_other_data_layers_alone(
    modes: RenderModeState,
    id: LayerId,
    other: LayerId,
)
    requires
        !id.geographic(),
        id.property() is None,
        other != id,
    ensures
        activated(modes, id).owns_some(other) == modes.owns_some(other),
{
    let after = activated(modes, id);
    lemma_first_free(modes, id.preferences(), id);
    assert forall|mode: RenderMode| after.owner(mode) == Some(other) <==> #[trigger] modes.owner(
        mode,
    ) == Some(other) by {
        assert(mode == RenderMode::Braille || mode == RenderMode::Color || mode
            == RenderMode::Text);
    }
    if modes.owns_some(other) {
        let mode = choose|mode: RenderMode| #[trigger] modes.owner(mode) == Some(other);
        assert(after.owner(mode) == Some(other));
    }
    if after.owns_some(other) {
        let mode = choose|mode: RenderMode| #[trigger] after.owner(mode) == Some(other);
        assert(modes.owner(mode) == Some(other));
    }
}

proof fn lemma_first_free(s: RenderModeState, modes: Seq<RenderMode>, layer: LayerId)
    ensures
        match s.first_free(modes, layer) {
            Some(mode) => s.owner(mode) is None || s.owner(mode) == Some(layer),
            None => true,
        },
    decreases modes.len(),
{
    if modes.len() > 0 {
        lemma_first_free(s, modes.drop_first(), layer);
    }
}

/// On the list itself a step forward and a step back undo each other, and six
/// steps come round. Inside a group the steps undo each other between its
/// ends.
pub proof fn cursor_steps_undo_each_other(c: Cursor)
    requires
        c.valid(),
    ensures
        c.next().valid(),
        c.previous().valid(),
        c.inside is None && c.selected == shown_for(main_items()[c.main]) ==> {
            &&& c.next().previous() == c
            &&& c.previous().next() == c
            &&& c.next().next().next().next().next().next() == c
        },
        match c.inside {
            Some((_, p)) => {
                &&& p < 4 ==> c.next().previous() == c
                &&& p > 0 ==> c.previous().next() == c
            },
            None => true,
        },
{
}

/// A cursor put on a layer applies to that layer.
pub proof fn selecting_a_layer_targets_it(id: LayerId)
    ensures
        Cursor::showing(id).valid(),
        Cursor::showing(id).target() == id,
{
    lemma_places();
}

/// Restoring what was saved changes no switch, and a locked layer keeps its
/// switch whatever is restored.
pub proof fn restoring_a_saved_list_changes_nothing(r: LayerRegistry, id: LayerId)
    requires
        r.well_formed(),
    ensures
        ({
            let saved = layer_order().filter(|l: LayerId| r.state(l).enabled);
            restored(r.state(id), saved, id) == r.state(id)
        }),
        forall|list: Seq<LayerId>|
            r.state(id).locked ==> #[trigger] restored(r.state(id), list, id) == r.state(id),
{
    let on = |l: LayerId| r.state(l).enabled;
    let saved = layer_order().filter(on);
    lemma_places();
    assert(layer_order()[id.place()] == id);
    if on(id) {
        layer_order().lemma_filter_contains(on, id.place());
    }
    if saved.contains(id) {
        let i = choose|i: int| 0 <= i < saved.len() && saved[i] == id;
        layer_order().lemma_filter_pred(on, i);
    }
}

/// Each mode has an owner of its own: giving one away changes no other.
pub proof fn modes_are_owned_apart(
    s: RenderModeState,
    mode: RenderMode,
    other: RenderMode,
    to: Option<LayerId>,
)
    ensures
        s.owner(RenderMode::Braille) == s.braille,
        s.owner(RenderMode::Color) == s.color,
        s.owner(RenderMode::Text) == s.text,
        s.with_owner(mode, to).owner(mode) == to,
        other != mode ==> s.with_owner(mode, to).owner(other) == s.owner(other),
{
}

/// A layer without a mode owns none afterwards, and the owners of other layers
/// stay.
pub proof fn removed_layers_own_nothing(s: RenderModeState, layer: LayerId, mode: RenderMode)
    ensures
        s.without(layer).owner(mode) != Some(layer),
        s.owner(mode) != Some(layer) ==> s.without(layer).owner(mode) == s.owner(mode),
        !s.without(layer).owns_some(layer),
{
    assert forall|m: RenderMode| (#[trigger] s.without(layer).owner(m)) != Some(layer) by {}
}

/// A layer takes the first of its modes that no other layer owns.
pub proof fn the_first_free_mode_is_taken(
    s: RenderModeState,
    modes: Seq<RenderMode>,
    layer: LayerId,
)
    ensures
        match s.first_free(modes, layer) {
            Some(m) => exists|i: int|
                0 <= i < modes.len() && #[trigger] modes[i] == m && (s.owner(m) is None || s.owner(
                    m,
                ) == Some(layer)) && forall|j: int|
                    0 <= j < i ==> s.owner(#[trigger] modes[j]) is Some && s.owner(modes[j])
                        != Some(layer),
            None => forall|j: int|
                0 <= j < modes.len() ==> s.owner(#[trigger] modes[j]) is Some && s.owner(modes[j])
                    != Some(layer),
        },
    decreases modes.len(),
{
    if modes.len() > 0 && !(s.owner(modes[0]) is None || s.owner(modes[0]) == Some(layer)) {
        let rest = modes.drop_first();
        the_first_free_mode_is_taken(s, rest, layer);
        match s.first_free(rest, layer) {
            Some(m) => {
                let i = choose|i: int|
                    0 <= i < rest.len() && #[trigger] rest[i] == m && (s.owner(m) is None
                        || s.owner(m) == Some(layer)) && forall|j: int|
                        0 <= j < i ==> s.owner(#[trigger] rest[j]) is Some && s.owner(rest[j])
                            != Some(layer);
                assert(modes[i + 1] == m);
                assert forall|j: int| 0 <= j < i + 1 implies s.owner(#[trigger] modes[j]) is Some
                    && s.owner(modes[j]) != Some(layer) by {
                    if j > 0 {
                        assert(rest[j - 1] == modes[j]);
                    }
                }
            },
            None => {
                assert forall|j: int| 0 <= j < modes.len() implies s.owner(
                    #[trigger] modes[j],
                ) is Some && s.owner(modes[j]) != Some(layer) by {
                    if j > 0 {
                        assert(rest[j - 1] == modes[j]);
                    }
                }
            },
        }
    } else if modes.len() > 0 {
        assert(modes[0] == s.first_free(modes, layer)->0);
    }
}

/// The status line names a failure before anything that loads: the first layer in
/// drawing order that failed, the borders left aside.
pub proof fn failures_are_named_first(r: LayerRegistry, id: LayerId)
    requires
        r.state(id).status is Error,
        id != LayerId::MapBorders,
    ensures
        r.first_failed(0) matches Some(first) && r.state(first).status is Error && first
            != LayerId::MapBorders && first.place() <= id.place() && r.status_text() == first.name()
            + ": "@ + r.state(first).status->Error_0@,
{
    lemma_places();
    lemma_first_failed(r, id, 0);
}

proof fn lemma_first_failed(r: LayerRegistry, id: LayerId, from: int)
    requires
        0 <= from <= id.place() < 9,
        layer_order()[id.place()] == id,
        forall|k: int| 0 <= k < 9 ==> (#[trigger] layer_order()[k]).place() == k,
        r.state(id).status is Error,
        id != LayerId::MapBorders,
    ensures
        r.first_failed(from) matches Some(first) && r.state(first).status is Error && first
            != LayerId::MapBorders && from <= first.place() <= id.place(),
    decreases 9 - from,
{
    let here = layer_order()[from];
    assert(here.place() == from);
    if !(r.state(here).status is Error && here != LayerId::MapBorders) {
        lemma_first_failed(r, id, from + 1);
    }
}

/// Whether saved data knows of a layer; data that does not say so knows all.
pub open spec fn knows(known: Seq<LayerId>, id: LayerId) -> bool {
    known.len() == 0 || known.contains(id)
}

pub fn is_known(known: &[LayerId], id: LayerId) -> (r: bool)
    ensures
        r == knows(known@, id),
{
    known.len() == 0 || contains_layer(known, id)
}

/// A saved list applied to one layer.
pub open spec fn restored(s: LayerState, enabled: Seq<LayerId>, id: LayerId) -> LayerState {
    if s.locked {
        s
    } else {
        LayerState { enabled: enabled.contains(id), ..s }
    }
}

fn contains_layer(ids: &[LayerId], id: LayerId) -> (r: bool)
    ensures
        r == ids@.contains(id),
{
    let mut i: usize = 0;
    while i < ids.len()
        invariant
            i <= ids.len(),
            forall|k: int| 0 <= k < i ==> #[trigger] ids[k] != id,
        decreases ids.len() - i,
    {
        if ids[i] == id {
            assert(ids@[i as int] == id);
            return true;
        }
        i = i + 1;
    }
    false
}

/// Every layer has its own place in drawing order.
pub proof fn lemma_places()
    ensures
        forall|id: LayerId| 0 <= #[trigger] id.place() < 9 && layer_order()[id.place()] == id,
        forall|i: int| 0 <= i < 9 ==> (#[trigger] layer_order()[i]).place() == i,
        forall|a: LayerId, b: LayerId| #[trigger] a.place() == #[trigger] b.place() ==> a == b,
{
    assert forall|id: LayerId| 0 <= #[trigger] id.place() < 9 && layer_order()[id.place()]
        == id by {}
    assert forall|i: int| 0 <= i < 9 implies (#[trigger] layer_order()[i]).place() == i by {
        assert(i == 0 || i == 1 || i == 2 || i == 3 || i == 4 || i == 5 || i == 6 || i == 7 || i
            == 8);
    }
}

} // verus!
