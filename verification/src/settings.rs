//! The editor of the settings: its fields and the modal around them.

use vstd::prelude::*;
use vstd::string::*;

use crate::config::{Config, ConfigEdit, ConfigEditValue};
use crate::text::{chars_of, same_text, shortened, text_of};

verus! {

#[derive(Debug, Clone, Copy, PartialEq, Eq, Structural)]
pub enum FieldKind {
    /// A secret text, masked unless its field is focused.
    Secret,
    Bool,
}

/// The value of a field.
#[derive(PartialEq, Eq)]
pub enum FieldValue {
    Secret(String),
    Bool(bool),
}

/// What a value means, with the text for a secret.
pub enum FieldModel {
    Secret(Seq<char>),
    Bool(bool),
}

impl View for FieldValue {
    type V = FieldModel;

    open spec fn view(&self) -> FieldModel {
        match self {
            FieldValue::Secret(s) => FieldModel::Secret(s@),
            FieldValue::Bool(b) => FieldModel::Bool(*b),
        }
    }
}

impl FieldModel {
    pub open spec fn kind(self) -> FieldKind {
        match self {
            FieldModel::Secret(_) => FieldKind::Secret,
            FieldModel::Bool(_) => FieldKind::Bool,
        }
    }

    pub open spec fn pushed(self, c: char) -> FieldModel {
        match self {
            FieldModel::Secret(s) => FieldModel::Secret(s.push(c)),
            FieldModel::Bool(_) => self,
        }
    }

    pub open spec fn popped(self) -> FieldModel {
        match self {
            FieldModel::Secret(s) => FieldModel::Secret(shortened(s)),
            FieldModel::Bool(_) => self,
        }
    }

    pub open spec fn flipped(self) -> FieldModel {
        match self {
            FieldModel::Secret(_) => self,
            FieldModel::Bool(b) => FieldModel::Bool(!b),
        }
    }
}

impl FieldValue {
    pub fn kind(&self) -> (k: FieldKind)
        ensures
            k == self@.kind(),
    {
        match self {
            FieldValue::Secret(_) => FieldKind::Secret,
            FieldValue::Bool(_) => FieldKind::Bool,
        }
    }

    /// The same value again.
    pub fn duplicate(&self) -> (v: FieldValue)
        ensures
            v@ == self@,
    {
        match self {
            FieldValue::Secret(s) => FieldValue::Secret(s.clone()),
            FieldValue::Bool(b) => FieldValue::Bool(*b),
        }
    }

    /// Whether two values are the same.
    pub fn same(&self, other: &FieldValue) -> (r: bool)
        ensures
            r == (self@ == other@),
    {
        match (self, other) {
            (FieldValue::Secret(a), FieldValue::Secret(b)) => same_text(a.as_str(), b.as_str()),
            (FieldValue::Bool(a), FieldValue::Bool(b)) => *a == *b,
            _ => false,
        }
    }

    /// The value for a log: a secret is masked.
    pub fn debug_text(&self) -> (s: String)
        ensures
            s@ == match self@ {
                FieldModel::Secret(t) => "Secret("@ + masked(t) + ")"@,
                FieldModel::Bool(true) => "Bool(true)"@,
                FieldModel::Bool(false) => "Bool(false)"@,
            },
    {
        match self {
            FieldValue::Secret(s) => "Secret(".to_string().concat(
                mask_secret(s.as_str()).as_str(),
            ).concat(")"),
            FieldValue::Bool(b) => if *b {
                "Bool(true)".to_string()
            } else {
                "Bool(false)".to_string()
            },
        }
    }
}

/// What a mask shows of a secret: whether there is one, and the last four
/// characters of one that has more.
pub open spec fn masked(s: Seq<char>) -> Seq<char> {
    if s.len() == 0 {
        "unset"@
    } else if s.len() <= 4 {
        "set \u{2022}\u{2022}\u{2022}\u{2022}"@
    } else {
        "set \u{2022}\u{2022}\u{2022}\u{2022}"@ + s.skip(s.len() - 4)
    }
}

/// Mask a secret for display.
pub fn mask_secret(s: &str) -> (r: String)
    ensures
        r@ == masked(s@),
{
    let cs = chars_of(s);
    if cs.len() == 0 {
        return "unset".to_string();
    }
    let dots = "set \u{2022}\u{2022}\u{2022}\u{2022}".to_string();
    if cs.len() <= 4 {
        return dots;
    }
    let mut tail: Vec<char> = Vec::new();
    let mut i: usize = cs.len() - 4;
    while i < cs.len()
        invariant
            4 < cs.len(),
            cs.len() - 4 <= i <= cs.len(),
            tail@ == cs@.subrange(cs.len() - 4, i as int),
        decreases cs.len() - i,
    {
        assert(cs@.subrange(cs.len() - 4, i + 1) =~= cs@.subrange(cs.len() - 4, i as int).push(
            cs@[i as int],
        ));
        tail.push(cs[i]);
        i = i + 1;
    }
    assert(cs@.subrange(cs.len() - 4, cs.len() as int) =~= s@.skip(s@.len() - 4));
    dots.concat(text_of(tail.as_slice()).as_str())
}

/// A mask tells two secrets apart by no more than their last four characters:
/// short secrets all look the same, and so do long ones with the same end.
pub proof fn masks_hide_all_but_the_end(a: Seq<char>, b: Seq<char>)
    requires
        0 < a.len(),
        0 < b.len(),
        a.len() <= 4 <==> b.len() <= 4,
        a.len() > 4 ==> a.skip(a.len() - 4) == b.skip(b.len() - 4),
    ensures
        masked(a) == masked(b),
{
}

pub const EUMETNET_API_KEY: &'static str = "eumetnet.api_key";

pub const LOCATION_IP_FALLBACK: &'static str = "location.ip_fallback";

/// Where to obtain the key for observations.
pub const EUMETNET_KEY_URL: &'static str = "https://devportal.meteogate.eu/";

/// A field of the editor.
pub struct Field {
    /// The dotted key in the configuration file.
    pub key: &'static str,
    pub label: &'static str,
    pub kind: FieldKind,
    /// Where to obtain the value.
    pub help_url: Option<&'static str>,
    /// The value that is saved.
    pub current: FieldValue,
    /// The value in the editor.
    pub staged: FieldValue,
}

impl Field {
    fn new(
        key: &'static str,
        label: &'static str,
        help_url: Option<&'static str>,
        value: FieldValue,
    ) -> (f: Field)
        ensures
            f.key == key,
            f.label == label,
            f.kind == value@.kind(),
            f.help_url == help_url,
            f.current@ == value@,
            f.staged@ == value@,
    {
        Field {
            key,
            label,
            kind: value.kind(),
            help_url,
            current: value.duplicate(),
            staged: value,
        }
    }

    /// Whether the value in the editor is not the saved one.
    pub fn is_dirty(&self) -> (r: bool)
        ensures
            r == (self.staged@ != self.current@),
    {
        !self.staged.same(&self.current)
    }

    /// Whether this is a secret that is empty in the editor.
    pub fn is_secret_empty(&self) -> (r: bool)
        ensures
            r == (self.staged@ == FieldModel::Secret(Seq::empty())),
    {
        match &self.staged {
            FieldValue::Secret(s) => {
                let cs = chars_of(s.as_str());
                proof {
                    assert(s@.len() == 0 ==> s@ =~= Seq::<char>::empty());
                }
                cs.len() == 0
            },
            FieldValue::Bool(_) => false,
        }
    }

    /// The value in the editor for display; a secret is masked unless it is
    /// revealed.
    pub fn display(&self, revealed: bool) -> (s: String)
        ensures
            s@ == match self.staged@ {
                FieldModel::Bool(true) => "on"@,
                FieldModel::Bool(false) => "off"@,
                FieldModel::Secret(t) => if revealed {
                    t
                } else {
                    masked(t)
                },
            },
    {
        match &self.staged {
            FieldValue::Bool(b) => if *b {
                "on".to_string()
            } else {
                "off".to_string()
            },
            FieldValue::Secret(s) => if revealed {
                s.clone()
            } else {
                mask_secret(s.as_str())
            },
        }
    }

    /// Whether `after` is this field with another value in the editor.
    pub open spec fn restaged(self, after: Field, staged: FieldModel) -> bool {
        &&& after.key == self.key
        &&& after.label == self.label
        &&& after.kind == self.kind
        &&& after.help_url == self.help_url
        &&& after.current@ == self.current@
        &&& after.staged@ == staged
    }
}

/// The fields and the one in focus.
pub struct SettingsModel {
    pub fields: Vec<Field>,
    pub focus: usize,
}

impl SettingsModel {
    pub open spec fn well_formed(self) -> bool {
        self.focus < self.fields.len()
    }

    pub open spec fn in_focus(self) -> Field {
        self.fields[self.focus as int]
    }

    /// Whether `after` is this editor with another value of the focused field.
    pub open spec fn restaged(self, after: SettingsModel, staged: FieldModel) -> bool {
        &&& after.focus == self.focus
        &&& after.fields.len() == self.fields.len()
        &&& forall|i: int|
            0 <= i < self.fields.len() && i != self.focus ==> #[trigger] after.fields[i]
                == self.fields[i]
        &&& self.in_focus().restaged(after.in_focus(), staged)
    }

    /// The editor of a configuration, with nothing changed yet.
    pub fn from_config(config: &Config) -> (m: SettingsModel)
        ensures
            m.well_formed(),
            m.focus == 0,
            m.fields.len() == 2,
            m.fields[0].key@ == EUMETNET_API_KEY@,
            m.fields[0].label@ == "EUMETNET API key"@,
            m.fields[0].kind == FieldKind::Secret,
            m.fields[0].help_url matches Some(u) && u@ == EUMETNET_KEY_URL@,
            m.fields[0].current@ == FieldModel::Secret(config.eumetnet.api_key@),
            m.fields[0].staged@ == FieldModel::Secret(config.eumetnet.api_key@),
            m.fields[1].key@ == LOCATION_IP_FALLBACK@,
            m.fields[1].label@ == "IP location fallback"@,
            m.fields[1].kind == FieldKind::Bool,
            m.fields[1].help_url is None,
            m.fields[1].current@ == FieldModel::Bool(config.location.ip_fallback),
            m.fields[1].staged@ == FieldModel::Bool(config.location.ip_fallback),
    {
        let mut fields: Vec<Field> = Vec::new();
        fields.push(
            Field::new(
                EUMETNET_API_KEY,
                "EUMETNET API key",
                Some(EUMETNET_KEY_URL),
                FieldValue::Secret(config.eumetnet.api_key.clone()),
            ),
        );
        fields.push(
            Field::new(
                LOCATION_IP_FALLBACK,
                "IP location fallback",
                None,
                FieldValue::Bool(config.location.ip_fallback),
            ),
        );
        SettingsModel { fields, focus: 0 }
    }

    /// The focused field.
    pub fn focused(&self) -> (f: &Field)
        requires
            self.well_formed(),
        ensures
            *f == self.in_focus(),
    {
        &self.fields[self.focus]
    }

    /// Focus the next field, or the first behind the last.
    pub fn focus_next(&mut self)
        requires
            old(self).well_formed(),
        ensures
            final(self).well_formed(),
            final(self).fields == old(self).fields,
            final(self).focus == if old(self).focus + 1 == old(self).fields.len() {
                0
            } else {
                old(self).focus + 1
            },
    {
        self.focus = if self.focus + 1 == self.fields.len() {
            0
        } else {
            self.focus + 1
        };
    }

    /// Focus the field before, or the last one before the first.
    pub fn focus_prev(&mut self)
        requires
            old(self).well_formed(),
        ensures
            final(self).well_formed(),
            final(self).fields == old(self).fields,
            final(self).focus == if old(self).focus == 0 {
                old(self).fields.len() - 1
            } else {
                old(self).focus - 1
            },
    {
        self.focus = if self.focus == 0 {
            self.fields.len() - 1
        } else {
            self.focus - 1
        };
    }

    /// Append a character to the focused secret. Nothing on a truth value.
    pub fn push_char(&mut self, c: char)
        requires
            old(self).well_formed(),
        ensures
            final(self).well_formed(),
            old(self).restaged(*final(self), old(self).in_focus().staged@.pushed(c)),
    {
        match &mut self.fields[self.focus].staged {
            FieldValue::Secret(s) => {
                s.push(c);
            },
            FieldValue::Bool(_) => {},
        }
    }

    /// Remove the last character of the focused secret. Nothing on a truth
    /// value or an empty secret.
    pub fn backspace(&mut self)
        requires
            old(self).well_formed(),
        ensures
            final(self).well_formed(),
            old(self).restaged(*final(self), old(self).in_focus().staged@.popped()),
    {
        match &mut self.fields[self.focus].staged {
            FieldValue::Secret(s) => {
                let _ = s.pop();
            },
            FieldValue::Bool(_) => {},
        }
    }

    /// Flip the focused truth value. Nothing on a secret.
    pub fn toggle_bool(&mut self)
        requires
            old(self).well_formed(),
        ensures
            final(self).well_formed(),
            old(self).restaged(*final(self), old(self).in_focus().staged@.flipped()),
    {
        match &mut self.fields[self.focus].staged {
            FieldValue::Secret(_) => {},
            FieldValue::Bool(b) => {
                *b = !*b;
            },
        }
    }

    /// The edit that saving the focused field makes, none where it is
    /// unchanged.
    pub fn focused_pending_edit(&self) -> (r: Option<ConfigEdit>)
        requires
            self.well_formed(),
        ensures
            r is Some <==> self.in_focus().staged@ != self.in_focus().current@,
            r matches Some(e) ==> saves(e, self.in_focus()),
    {
        let field = self.focused();
        if !field.is_dirty() {
            return None;
        }
        let value = match &field.staged {
            FieldValue::Secret(s) => ConfigEditValue::Str(s.clone()),
            FieldValue::Bool(b) => ConfigEditValue::Bool(*b),
        };
        Some(ConfigEdit { key: field.key.to_string(), value })
    }

    /// Make the focused field's value in the editor the saved one.
    pub fn commit_focused(&mut self)
        requires
            old(self).well_formed(),
        ensures
            final(self).well_formed(),
            final(self).focus == old(self).focus,
            final(self).fields.len() == old(self).fields.len(),
            forall|i: int|
                0 <= i < old(self).fields.len() && i != old(self).focus
                    ==> #[trigger] final(self).fields[i] == old(self).fields[i],
            final(self).in_focus() == (Field {
                current: final(self).in_focus().current,
                ..old(self).in_focus()
            }),
            final(self).in_focus().current@ == old(self).in_focus().staged@,
    {
        let v = self.fields[self.focus].staged.duplicate();
        self.fields[self.focus].current = v;
    }

    /// Give the focused field its saved value again.
    pub fn revert_focused(&mut self)
        requires
            old(self).well_formed(),
        ensures
            final(self).well_formed(),
            old(self).restaged(*final(self), old(self).in_focus().current@),
    {
        let v = self.fields[self.focus].current.duplicate();
        self.fields[self.focus].staged = v;
    }
}

/// Whether an edit writes a field's value in the editor under its key.
pub open spec fn saves(e: ConfigEdit, f: Field) -> bool {
    &&& e.key@ == f.key@
    &&& match e.value {
        ConfigEditValue::Str(s) => f.staged@ == FieldModel::Secret(s@),
        ConfigEditValue::Bool(b) => f.staged@ == FieldModel::Bool(b),
    }
}

/// Typing a character and deleting it leaves a value as it was.
pub proof fn deleting_undoes_typing(v: FieldModel, c: char)
    ensures
        v.pushed(c).popped() == v,
        v.flipped().flipped() == v,
{
    if let FieldModel::Secret(s) = v {
        assert(s.push(c).drop_last() =~= s);
    }
}

} // verus!
