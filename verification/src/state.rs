//! What is saved between sessions, and how it is restored.

use vstd::prelude::*;

use crate::double::Double;
use crate::layers::{
    is_known, knows, layer_order, restored, restoring_a_saved_list_changes_nothing, Cursor, LayerId,
    LayerRegistry, RenderMode, RenderModeState,
};
use crate::observations::any_obs_enabled;
use crate::timeline::{history_options, is_history_option};

verus! {

/// A render mode and its owner.
#[derive(Debug, Clone, Copy, PartialEq, Eq, Structural)]
pub struct LayerRenderMode {
    pub layer: LayerId,
    pub mode: RenderMode,
}

/// What is saved between sessions.
#[derive(Debug)]
pub struct StateConfig {
    pub center_lat: Double,
    pub center_lon: Double,
    pub zoom: Double,
    pub enabled_layers: Vec<LayerId>,
    pub selected_layer: LayerId,
    /// The layers that there were when the data was saved; empty in data from
    /// before this was recorded.
    pub known_layers: Vec<LayerId>,
    pub render_modes: Vec<LayerRenderMode>,
    /// The owner of a mode in data from before `render_modes` was recorded.
    pub braille_layer: Option<LayerId>,
    pub color_layer: Option<LayerId>,
    pub text_layer: Option<LayerId>,
    pub lightning_trail_minutes: Option<u8>,
    pub history_hours: Option<u8>,
}

/// The list of a mode and its owner, empty where nobody owns it.
pub open spec fn entry(mode: RenderMode, owner: Option<LayerId>) -> Seq<LayerRenderMode> {
    match owner {
        Some(layer) => seq![LayerRenderMode { layer, mode }],
        None => Seq::empty(),
    }
}

/// The owners of the render modes as they are saved.
pub open spec fn saved_modes(m: RenderModeState) -> Seq<LayerRenderMode> {
    entry(RenderMode::Braille, m.braille) + entry(RenderMode::Color, m.color) + entry(
        RenderMode::Text,
        m.text,
    )
}

/// Gather what is saved.
pub fn save_state(
    layers: &LayerRegistry,
    center_lat: Double,
    center_lon: Double,
    zoom: Double,
    lightning_trail_minutes: u8,
    history_hours: u8,
) -> (s: StateConfig)
    requires
        layers.well_formed(),
    ensures
        s.center_lat == center_lat,
        s.center_lon == center_lon,
        s.zoom == zoom,
        s.enabled_layers@ == layer_order().filter(|id: LayerId| layers.state(id).enabled),
        s.selected_layer == layers.cursor().target(),
        s.known_layers@ == layer_order(),
        s.render_modes@ == saved_modes(layers.modes()),
        s.braille_layer is None,
        s.color_layer is None,
        s.text_layer is None,
        s.lightning_trail_minutes == Some(lightning_trail_minutes),
        s.history_hours == Some(history_hours),
{
    let modes = *layers.mode_state();
    let mut render_modes: Vec<LayerRenderMode> = Vec::new();
    if let Some(layer) = modes.braille {
        render_modes.push(LayerRenderMode { layer, mode: RenderMode::Braille });
    }
    if let Some(layer) = modes.color {
        render_modes.push(LayerRenderMode { layer, mode: RenderMode::Color });
    }
    if let Some(layer) = modes.text {
        render_modes.push(LayerRenderMode { layer, mode: RenderMode::Text });
    }
    assert(render_modes@ =~= saved_modes(modes));
    let mut known_layers: Vec<LayerId> = Vec::new();
    let mut i: usize = 0;
    let order = LayerRegistry::ORDER;
    while i < 9
        invariant
            i <= 9,
            order@ == layer_order(),
            known_layers@ == layer_order().take(i as int),
        decreases 9 - i,
    {
        assert(layer_order().take(i + 1) =~= layer_order().take(i as int).push(
            layer_order()[i as int],
        ));
        known_layers.push(order[i]);
        i = i + 1;
    }
    assert(layer_order().take(9) =~= layer_order());
    StateConfig {
        center_lat,
        center_lon,
        zoom,
        enabled_layers: layers.saved_enabled(),
        selected_layer: layers.selected_layer(),
        known_layers,
        render_modes,
        braille_layer: None,
        color_layer: None,
        text_layer: None,
        lightning_trail_minutes: Some(lightning_trail_minutes),
        history_hours: Some(history_hours),
    }
}

/// The trail to use: the saved one within 1 to 30 minutes, else the present.
pub fn restored_trail(saved: Option<u8>, present: u8) -> (r: u8)
    ensures
        r == match saved {
            Some(m) => if m < 1 {
                1u8
            } else if m > 30 {
                30
            } else {
                m
            },
            None => present,
        },
{
    match saved {
        Some(m) => if m < 1 {
            1
        } else if m > 30 {
            30
        } else {
            m
        },
        None => present,
    }
}

/// The depth to use: the saved one where it is on offer, else the present.
pub fn restored_history(saved: Option<u8>, present: u8) -> (r: u8)
    ensures
        r == match saved {
            Some(h) => if history_options().contains(h) {
                h
            } else {
                present
            },
            None => present,
        },
{
    match saved {
        Some(h) => if is_history_option(h) {
            h
        } else {
            present
        },
        None => present,
    }
}

/// An owner that saved data does not know of.
pub open spec fn unknown_owner(owner: Option<LayerId>, known: Seq<LayerId>) -> Option<LayerId> {
    match owner {
        Some(l) => if knows(known, l) {
            None
        } else {
            owner
        },
        None => None,
    }
}

/// The modes without the layers that saved data knows of.
pub open spec fn unknown_owners(m: RenderModeState, known: Seq<LayerId>) -> RenderModeState {
    RenderModeState {
        braille: unknown_owner(m.braille, known),
        color: unknown_owner(m.color, known),
        text: unknown_owner(m.text, known),
    }
}

/// The modes after the first `n` entries were assigned.
pub open spec fn assigned(m: RenderModeState, entries: Seq<LayerRenderMode>, n: nat)
    -> RenderModeState
    decreases n,
{
    if n == 0 || n > entries.len() {
        m
    } else {
        assigned(m, entries, (n - 1) as nat).with_owner(
            entries[n - 1].mode,
            Some(entries[n - 1].layer),
        )
    }
}

pub open spec fn given(m: RenderModeState, mode: RenderMode, to: Option<LayerId>) -> RenderModeState {
    match to {
        Some(l) => m.with_owner(mode, Some(l)),
        None => m,
    }
}

/// The modes that saved data restores. It settles the layers that it knows of;
/// a list of modes takes precedence over the single owners of older data.
pub open spec fn restored_modes(m: RenderModeState, s: StateConfig) -> RenderModeState {
    if s.render_modes.len() > 0 {
        assigned(unknown_owners(m, s.known_layers@), s.render_modes@, s.render_modes@.len())
    } else {
        given(
            given(
                given(m, RenderMode::Braille, s.braille_layer),
                RenderMode::Color,
                s.color_layer,
            ),
            RenderMode::Text,
            s.text_layer,
        )
    }
}

/// Whether modes draw an observation layer.
pub open spec fn draws_observations(m: RenderModeState) -> bool {
    m.owns_some(LayerId::SurfTemp) || m.owns_some(LayerId::SurfWind) || m.owns_some(
        LayerId::SurfHumidity,
    ) || m.owns_some(LayerId::SurfPressure)
}

/// The modes with an observation layer in text mode, where none is drawn.
pub open spec fn with_observations(m: RenderModeState) -> RenderModeState {
    if draws_observations(m) {
        m
    } else {
        m.with_owner(RenderMode::Text, Some(LayerId::SurfTemp))
    }
}

fn forget_known(owner: Option<LayerId>, known: &[LayerId]) -> (r: Option<LayerId>)
    ensures
        r == unknown_owner(owner, known@),
{
    match owner {
        Some(l) => if is_known(known, l) {
            None
        } else {
            owner
        },
        None => None,
    }
}

fn restore_modes(modes: &mut RenderModeState, s: &StateConfig)
    ensures
        *final(modes) == restored_modes(*old(modes), *s),
{
    if s.render_modes.len() > 0 {
        let known = s.known_layers.as_slice();
        modes.braille = forget_known(modes.braille, known);
        modes.color = forget_known(modes.color, known);
        modes.text = forget_known(modes.text, known);
        let ghost start = *modes;
        let mut i: usize = 0;
        while i < s.render_modes.len()
            invariant
                i <= s.render_modes.len(),
                *modes == assigned(start, s.render_modes@, i as nat),
            decreases s.render_modes.len() - i,
        {
            let e = s.render_modes[i];
            let _ = modes.assign(e.mode, e.layer);
            i = i + 1;
        }
    } else {
        if let Some(l) = s.braille_layer {
            let _ = modes.assign(RenderMode::Braille, l);
        }
        if let Some(l) = s.color_layer {
            let _ = modes.assign(RenderMode::Color, l);
        }
        if let Some(l) = s.text_layer {
            let _ = modes.assign(RenderMode::Text, l);
        }
    }
}

/// Restore the layers: their switches, the cursor and the render modes. An
/// observation layer is drawn in any case.
pub fn load_state(layers: &mut LayerRegistry, s: &StateConfig)
    requires
        old(layers).well_formed(),
    ensures
        final(layers).well_formed(),
        final(layers).cursor() == Cursor::showing(s.selected_layer),
        final(layers).modes() == with_observations(restored_modes(old(layers).modes(), *s)),
        forall|l: LayerId| #[trigger]
            final(layers).state(l) == if knows(s.known_layers@, l) {
                restored(old(layers).state(l), s.enabled_layers@, l)
            } else {
                old(layers).state(l)
            },
{
    layers.restore_known(s.enabled_layers.as_slice(), s.known_layers.as_slice());
    layers.set_selected(s.selected_layer);
    restore_modes(layers.mode_state_mut(), s);
    if !any_obs_enabled(layers) {
        let _ = layers.mode_state_mut().assign(RenderMode::Text, LayerId::SurfTemp);
    }
}

/// Data from before the modes were listed gives each mode its single owner, and
/// leaves one without an owner as it is.
pub proof fn older_data_gives_its_owners(m: RenderModeState, s: StateConfig)
    requires
        s.render_modes@.len() == 0,
    ensures
        restored_modes(m, s).braille == if s.braille_layer is Some {
            s.braille_layer
        } else {
            m.braille
        },
        restored_modes(m, s).color == if s.color_layer is Some {
            s.color_layer
        } else {
            m.color
        },
        restored_modes(m, s).text == if s.text_layer is Some {
            s.text_layer
        } else {
            m.text
        },
{
}

/// An observation layer is drawn in any case: temperatures in text mode, unless
/// one is drawn already.
pub proof fn observations_are_always_drawn(m: RenderModeState)
    ensures
        draws_observations(with_observations(m)),
        draws_observations(m) ==> with_observations(m) == m,
        !draws_observations(m) ==> with_observations(m) == (RenderModeState {
            text: Some(LayerId::SurfTemp),
            ..m
        }),
{
    assert(!draws_observations(m) ==> with_observations(m).owner(RenderMode::Text) == Some(
        LayerId::SurfTemp,
    ));
}

/// What was saved comes back: on a registry with the same locks, restoring
/// gives every layer its switch and the modes their owners. A session that
/// drew no observations, and so also one in which nobody owned a mode, comes
/// back with them.
pub proof fn saved_state_comes_back(r: LayerRegistry, other: LayerRegistry, s: StateConfig, id: LayerId)
    requires
        r.well_formed(),
        other.well_formed(),
        r.state(id).locked == other.state(id).locked,
        r.state(id).locked ==> r.state(id).enabled == other.state(id).enabled,
        draws_observations(r.modes()),
        s.enabled_layers@ == layer_order().filter(|l: LayerId| r.state(l).enabled),
        s.known_layers@ == layer_order(),
        s.render_modes@ == saved_modes(r.modes()),
    ensures
        knows(s.known_layers@, id),
        restored(other.state(id), s.enabled_layers@, id).enabled == r.state(id).enabled,
        with_observations(restored_modes(other.modes(), s)) == r.modes(),
{
    restoring_a_saved_list_changes_nothing(r, id);
    crate::layers::lemma_places();
    assert(layer_order()[id.place()] == id);
    assert forall|l: LayerId| knows(s.known_layers@, l) by {
        crate::layers::lemma_places();
        assert(layer_order()[l.place()] == l);
    }
    let m = r.modes();
    let start = unknown_owners(other.modes(), s.known_layers@);
    assert(start == RenderModeState::unowned());
    let e = saved_modes(m);
    reveal_with_fuel(assigned, 4);
    assert(e.len() > 0) by {
        assert(m != RenderModeState::unowned());
    }
    let b = entry(RenderMode::Braille, m.braille);
    let c = entry(RenderMode::Color, m.color);
    let t = entry(RenderMode::Text, m.text);
    assert(e == b + c + t);
    assert(assigned(start, e, e.len()) == m);
}

} // verus!
