//! The settings modal: browsing the fields, editing one, and saving it.

use vstd::prelude::*;
use vstd::string::*;

use crate::config::{Config, ConfigEdit, ConfigEditValue};
use crate::settings::{saves, FieldModel, SettingsModel, EUMETNET_API_KEY, LOCATION_IP_FALLBACK};
use crate::text::{blank, is_blank, same_text, trim, trimmed};
use crate::verify::Verify;

verus! {

/// An editing session.
pub struct SettingsState {
    pub model: SettingsModel,
    /// Whether the focused field is being edited.
    pub editing: bool,
    /// Why the last save failed.
    pub apply_error: Option<String>,
}

/// A link on screen: its column, its row, its width and where it leads.
#[derive(Debug, Clone, Copy)]
pub struct SettingsLink {
    pub x: u16,
    pub y: u16,
    pub width: u16,
    pub url: &'static str,
}

impl SettingsLink {
    pub open spec fn covers(self, col: u16, row: u16) -> bool {
        let end = if self.x + self.width > u16::MAX {
            u16::MAX as int
        } else {
            self.x + self.width
        };
        row == self.y && self.x <= col < end
    }
}

/// The first link from `from` on that covers a cell.
pub open spec fn first_link(links: Seq<SettingsLink>, col: u16, row: u16, from: int) -> Option<int>
    decreases links.len() - from,
{
    if from < 0 || from >= links.len() {
        None
    } else if links[from].covers(col, row) {
        Some(from)
    } else {
        first_link(links, col, row, from + 1)
    }
}

/// A click on a link finds it: the cells of a link lie in its row, from its column
/// on, as many as it is wide; where links overlap the first one counts.
pub proof fn clicks_find_their_link(links: Seq<SettingsLink>, col: u16, row: u16, i: int, from: int)
    requires
        0 <= from <= i < links.len(),
        links[i].x + links[i].width <= u16::MAX,
        links[i].y == row,
        links[i].x <= col < links[i].x + links[i].width,
        forall|j: int| from <= j < i ==> (#[trigger] links[j]).y != row,
    ensures
        first_link(links, col, row, from) == Some(i),
    decreases i - from,
{
    if from < i {
        clicks_find_their_link(links, col, row, i, from + 1);
    }
}

/// Whether a modal was just opened on a configuration.
pub open spec fn opened(m: SettingsModal, config: Config) -> bool {
    m.session matches Some(s) && !s.editing && s.apply_error is None && s.model.focus == 0
        && s.model.fields.len() == 2 && s.model.fields[0].key@ == EUMETNET_API_KEY@
        && s.model.fields[0].current@ == FieldModel::Secret(config.eumetnet.api_key@)
        && s.model.fields[0].staged@ == FieldModel::Secret(config.eumetnet.api_key@)
        && s.model.fields[1].key@ == LOCATION_IP_FALLBACK@ && s.model.fields[1].current@
        == FieldModel::Bool(config.location.ip_fallback) && s.model.fields[1].staged@
        == FieldModel::Bool(config.location.ip_fallback)
}

/// The settings modal, which is open while there is a session.
pub struct SettingsModal {
    pub session: Option<SettingsState>,
    pub links: Vec<SettingsLink>,
}

/// What to do after Enter.
#[derive(Debug)]
pub enum ConfirmStep {
    Nothing,
    /// Write the edit to the file, and report with `settings_saved`.
    Save(ConfigEdit),
}

/// What follows a saved edit.
#[derive(Debug)]
pub struct SaveFollowUp {
    /// The connection for observations has to be made anew.
    pub rebuild_eumetnet: bool,
    /// A key to check.
    pub verify: Option<String>,
}

pub const SAVE_FAILED: &'static str = "save failed \u{2014} see log";

impl SettingsModal {
    pub open spec fn well_formed(self) -> bool {
        self.session matches Some(s) ==> s.model.well_formed()
    }

    pub fn new() -> (m: SettingsModal)
        ensures
            m.well_formed(),
            m.session is None,
            m.links@ == Seq::<SettingsLink>::empty(),
    {
        SettingsModal { session: None, links: Vec::new() }
    }

    /// Open the modal on the present configuration, unless another overlay has
    /// the screen. Returns the key to check, where there is one.
    pub fn open_settings(
        &mut self,
        verify: &mut Verify,
        config: &Config,
        search_open: bool,
        show_help: bool,
    ) -> (key: Option<String>)
        requires
            old(self).well_formed(),
        ensures
            final(self).well_formed(),
            final(self).links == old(self).links,
            search_open || show_help ==> *final(self) == *old(self) && *final(verify) == *old(
                verify,
            ) && key is None,
            !search_open && !show_help ==> {
                &&& opened(*final(self), *config)
                &&& *final(verify) == old(verify).voided(true)
                &&& key is None <==> blank(config.eumetnet.api_key@)
                &&& key matches Some(k) ==> k@ == trimmed(config.eumetnet.api_key@)
            },
    {
        if search_open || show_help {
            return None;
        }
        self.session = Some(
            SettingsState {
                model: SettingsModel::from_config(config),
                editing: false,
                apply_error: None,
            },
        );
        verify.last_verify = None;
        if is_blank(config.eumetnet.api_key.as_str()) {
            None
        } else {
            Some(trim(config.eumetnet.api_key.as_str()))
        }
    }

    pub fn settings_is_open(&self) -> (r: bool)
        ensures
            r == (self.session is Some),
    {
        self.session.is_some()
    }

    /// The first link that covers a cell of the screen.
    pub fn settings_link_index_at(&self, col: u16, row: u16) -> (r: Option<usize>)
        ensures
            match r {
                Some(i) => first_link(self.links@, col, row, 0) == Some(i as int),
                None => first_link(self.links@, col, row, 0) is None,
            },
    {
        let mut i: usize = 0;
        while i < self.links.len()
            invariant
                i <= self.links.len(),
                first_link(self.links@, col, row, 0) == first_link(self.links@, col, row, i as int),
            decreases self.links.len() - i,
        {
            let l = self.links[i];
            if row == l.y && col >= l.x && col < l.x.saturating_add(l.width) {
                return Some(i);
            }
            i = i + 1;
        }
        None
    }

    /// Whether `after` is this modal with the focus moved one field on or back,
    /// round the ends; it stays while a field is being edited.
    pub open spec fn refocused(self, after: SettingsModal, on: bool) -> bool {
        &&& after.links == self.links
        &&& match self.session {
            Some(s) => {
                let n = s.model.fields.len() as int;
                after.session matches Some(t) && t.editing == s.editing && t.apply_error
                    == s.apply_error && t.model.fields == s.model.fields && t.model.focus
                    == if s.editing {
                    s.model.focus as int
                } else if on {
                    if s.model.focus + 1 == n {
                        0
                    } else {
                        s.model.focus + 1
                    }
                } else if s.model.focus == 0 {
                    n - 1
                } else {
                    s.model.focus - 1
                }
            },
            None => after.session is None,
        }
    }

    /// Down moves on while browsing; while editing it does nothing.
    pub fn settings_focus_next(&mut self)
        requires
            old(self).well_formed(),
        ensures
            final(self).well_formed(),
            old(self).refocused(*final(self), true),
    {
        match &mut self.session {
            Some(s) => {
                if !s.editing {
                    s.model.focus_next();
                }
            },
            None => {},
        }
    }

    /// Up moves back while browsing; while editing it does nothing.
    pub fn settings_focus_prev(&mut self)
        requires
            old(self).well_formed(),
        ensures
            final(self).well_formed(),
            old(self).refocused(*final(self), false),
    {
        match &mut self.session {
            Some(s) => {
                if !s.editing {
                    s.model.focus_prev();
                }
            },
            None => {},
        }
    }

    /// Whether `after` is this modal with another value in the field being
    /// edited and no failure shown; a modal in which nothing is being edited
    /// stays as it is.
    pub open spec fn retyped(self, after: SettingsModal, staged: FieldModel) -> bool {
        &&& after.links == self.links
        &&& match self.session {
            Some(s) => if s.editing {
                after.session matches Some(t) && t.editing && t.apply_error is None
                    && s.model.restaged(t.model, staged)
            } else {
                after.session == self.session
            },
            None => after.session is None,
        }
    }

    /// Whether a field is being edited.
    pub open spec fn editing(self) -> bool {
        self.session matches Some(s) && s.editing
    }

    /// The value in the editor of the focused field.
    pub open spec fn staged(self) -> FieldModel {
        (self.session->0).model.in_focus().staged@
    }

    /// A character goes to the secret being edited; the key's check is void.
    pub fn settings_push_char(&mut self, verify: &mut Verify, c: char)
        requires
            old(self).well_formed(),
        ensures
            final(self).well_formed(),
            old(self).retyped(*final(self), old(self).staged().pushed(c)),
            *final(verify) == old(verify).voided(old(self).editing()),
    {
        match &mut self.session {
            Some(s) => {
                if s.editing {
                    s.model.push_char(c);
                    s.apply_error = None;
                    verify.last_verify = None;
                }
            },
            None => {},
        }
    }

    /// Whether `after` is this modal with the edit given up, or closed where
    /// there was none.
    pub open spec fn backed_out(self, after: SettingsModal) -> bool {
        &&& after.links == self.links
        &&& match self.session {
            None => after.session is None,
            Some(s) => if s.editing {
                after.session matches Some(t) && !t.editing && t.apply_error is None
                    && s.model.restaged(t.model, s.model.in_focus().current@)
            } else {
                after.session is None
            },
        }
    }

    /// Delete the last character of the secret being edited; the key's check
    /// is void.
    pub fn settings_backspace(&mut self, verify: &mut Verify)
        requires
            old(self).well_formed(),
        ensures
            final(self).well_formed(),
            old(self).retyped(*final(self), old(self).staged().popped()),
            *final(verify) == old(verify).voided(old(self).editing()),
    {
        match &mut self.session {
            Some(s) => {
                if s.editing {
                    s.model.backspace();
                    s.apply_error = None;
                    verify.last_verify = None;
                }
            },
            None => {},
        }
    }

    /// Flip the truth value being edited.
    pub fn settings_toggle_bool(&mut self)
        requires
            old(self).well_formed(),
        ensures
            final(self).well_formed(),
            old(self).retyped(*final(self), old(self).staged().flipped()),
    {
        match &mut self.session {
            Some(s) => {
                if s.editing {
                    s.model.toggle_bool();
                    s.apply_error = None;
                }
            },
            None => {},
        }
    }

    /// Whether Enter left the modal as `after` and asked for `step`: it starts
    /// an edit, ends one that changed nothing, or has a changed value saved.
    pub open spec fn confirmed(self, after: SettingsModal, step: ConfirmStep) -> bool {
        &&& after.links == self.links
        &&& match self.session {
            None => after.session is None && step is Nothing,
            Some(s) => {
                let f = s.model.in_focus();
                &&& after.session matches Some(t) && t.model == s.model && if !s.editing {
                    t.editing && t.apply_error is None && step is Nothing
                } else if f.staged@ == f.current@ {
                    !t.editing && t.apply_error == s.apply_error && step is Nothing
                } else {
                    after.session == self.session && (step matches ConfirmStep::Save(e) && saves(
                        e,
                        f,
                    ))
                }
            },
        }
    }

    /// Enter: start to edit the focused field, or save the edit. An edit that
    /// changes nothing is done at once.
    pub fn settings_confirm(&mut self) -> (step: ConfirmStep)
        requires
            old(self).well_formed(),
        ensures
            final(self).well_formed(),
            old(self).confirmed(*final(self), step),
    {
        match &mut self.session {
            Some(s) => {
                if !s.editing {
                    s.editing = true;
                    s.apply_error = None;
                    return ConfirmStep::Nothing;
                }
                match s.model.focused_pending_edit() {
                    Some(edit) => ConfirmStep::Save(edit),
                    None => {
                        s.editing = false;
                        ConfirmStep::Nothing
                    },
                }
            },
            None => ConfirmStep::Nothing,
        }
    }

    /// Whether `after` is the modal once the field in focus was saved, or could
    /// not be.
    pub open spec fn save_noted(self, after: SettingsModal, saved: bool) -> bool {
        let s = self.session->0;
        let t = after.session->0;
        &&& after.links == self.links
        &&& after.session is Some
        &&& !t.editing
        &&& t.model.focus == s.model.focus
        &&& !saved ==> t.model == s.model && (t.apply_error matches Some(e) && e@ == SAVE_FAILED@)
        &&& saved ==> t.apply_error is None && t.model.fields.len() == s.model.fields.len()
            && t.model.in_focus().current@ == s.model.in_focus().staged@
            && t.model.in_focus().staged == s.model.in_focus().staged && forall|i: int|
            0 <= i < s.model.fields.len() && i != s.model.focus ==> #[trigger] t.model.fields[i]
                == s.model.fields[i]
    }

    /// Take in how a save ended: a failure is shown and the edit stays
    /// unsaved; a success makes it the saved value, here and in the
    /// configuration.
    pub fn settings_saved(&mut self, config: &mut Config, edit: &ConfigEdit, saved: bool) -> (next:
        SaveFollowUp)
        requires
            old(self).well_formed(),
            old(self).session is Some,
        ensures
            final(self).well_formed(),
            old(self).save_noted(*final(self), saved),
            applied(*old(config), *final(config), *edit, saved),
            next.rebuild_eumetnet == (saved && sets_key(*edit)),
            next.verify is Some <==> saved && sets_key(*edit) && !blank(key_text(*edit)),
            next.verify matches Some(k) ==> k@ == key_text(*edit),
    {
        let mut next = SaveFollowUp { rebuild_eumetnet: false, verify: None };
        match &mut self.session {
            Some(s) => {
                s.editing = false;
                if !saved {
                    s.apply_error = Some(SAVE_FAILED.to_string());
                    return next;
                }
                s.model.commit_focused();
                s.apply_error = None;
            },
            None => {},
        }
        match &edit.value {
            ConfigEditValue::Str(v) => {
                if same_text(edit.key.as_str(), EUMETNET_API_KEY) {
                    config.eumetnet.api_key = v.clone();
                    next.rebuild_eumetnet = true;
                    if !is_blank(v.as_str()) {
                        next.verify = Some(v.clone());
                    }
                }
            },
            ConfigEditValue::Bool(b) => {
                if same_text(edit.key.as_str(), LOCATION_IP_FALLBACK) {
                    config.location.ip_fallback = *b;
                }
            },
        }
        next
    }

    /// Esc: drop the edit, or close the modal where nothing is being edited.
    pub fn settings_back(&mut self, verify: &mut Verify)
        requires
            old(self).well_formed(),
        ensures
            final(self).well_formed(),
            old(self).backed_out(*final(self)),
            *final(verify) == old(verify).voided(old(self).session is Some),
    {
        match &mut self.session {
            Some(s) => {
                verify.last_verify = None;
                if s.editing {
                    s.model.revert_focused();
                    s.editing = false;
                    s.apply_error = None;
                    return ;
                }
            },
            None => {
                return ;
            },
        }
        self.session = None;
    }
}

/// Whether an edit sets the key for observations.
pub open spec fn sets_key(e: ConfigEdit) -> bool {
    e.key@ == EUMETNET_API_KEY@ && e.value is Str
}

/// Whether an edit sets the fallback by network address.
pub open spec fn sets_fallback(e: ConfigEdit) -> bool {
    e.key@ == LOCATION_IP_FALLBACK@ && e.value is Bool
}

pub open spec fn key_text(e: ConfigEdit) -> Seq<char> {
    e.value->Str_0@
}

/// Whether `after` is the configuration with an edit applied, where it was
/// saved.
pub open spec fn applied(before: Config, after: Config, e: ConfigEdit, saved: bool) -> bool {
    &&& after.viewport == before.viewport
    &&& after.meteogate == before.meteogate
    &&& after.meteoalarm == before.meteoalarm
    &&& after.geocode == before.geocode
    &&& after.eumetnet.surface_endpoint == before.eumetnet.surface_endpoint
    &&& after.eumetnet.api_key@ == if saved && sets_key(e) {
        key_text(e)
    } else {
        before.eumetnet.api_key@
    }
    &&& after.location.ip_endpoint == before.location.ip_endpoint
    &&& after.location.ip_fallback == if saved && sets_fallback(e) {
        e.value->Bool_0
    } else {
        before.location.ip_fallback
    }
}

} // verus!
