//! The table of key bindings, and what is read from it.

use vstd::prelude::*;

use crate::order::{by_rank, rank_order, rank_order_is_stable_and_complete, sorted_indices};

verus! {

/// A command.
#[derive(Debug, Clone, Copy, PartialEq, Eq, Structural)]
pub enum Action {
    Quit,
    ToggleHelp,
    PanLeft,
    PanRight,
    PanUp,
    PanDown,
    ZoomIn,
    ZoomOut,
    FrameBack,
    FrameForward,
    TogglePlayback,
    JumpToLive,
    SpeedFaster,
    SpeedSlower,
    CycleHistory,
    ToggleLayer,
    ModeBraille,
    ModeColor,
    ModeText,
    SelectPrevious,
    SelectNext,
    EnterGroup,
    ExitGroup,
    RefetchMap,
    OpenSearch,
    OpenSettings,
}

/// The sections of the help.
#[derive(Debug, Clone, Copy, PartialEq, Eq, Structural)]
pub enum Category {
    Navigation,
    Timeline,
    Layers,
    General,
}

impl Category {
    /// The sections in the order in which the help shows them.
    pub const ORDER: [Category; 4] = [
        Category::Navigation,
        Category::Timeline,
        Category::Layers,
        Category::General,
    ];

    pub fn title(self) -> (s: &'static str)
        ensures
            s@ == match self {
                Category::Navigation => "Navigation"@,
                Category::Timeline => "Timeline"@,
                Category::Layers => "Layers"@,
                Category::General => "General"@,
            },
    {
        match self {
            Category::Navigation => "Navigation",
            Category::Timeline => "Timeline",
            Category::Layers => "Layers",
            Category::General => "General",
        }
    }
}

/// A key.
#[derive(Debug, Clone, Copy, PartialEq, Eq, Structural)]
pub enum KeyCode {
    Left,
    Right,
    Up,
    Down,
    Enter,
    Esc,
    Backspace,
    Char(char),
    F(u8),
    /// Any other key.
    Other,
}

/// The modifiers that are held with a key.
#[derive(Debug, Clone, Copy, PartialEq, Eq, Structural)]
pub struct KeyModifiers {
    pub shift: bool,
    pub alt: bool,
    pub control: bool,
    /// Whether a terminal reports anything else with the key.
    pub other: bool,
}

/// A key press.
#[derive(Debug, Clone, Copy, PartialEq, Eq, Structural)]
pub struct KeyEvent {
    pub code: KeyCode,
    pub modifiers: KeyModifiers,
}

/// A key with the modifiers that must be held with it.
#[derive(Debug, Clone, Copy, PartialEq, Eq, Structural)]
pub struct Chord {
    pub code: KeyCode,
    pub mods: KeyModifiers,
}

/// What is held with the key of a chord.
pub enum Modifier {
    Plain,
    Shift,
    Alt,
}

pub open spec fn chord(code: KeyCode, with: Modifier) -> Chord {
    Chord {
        code,
        mods: KeyModifiers {
            shift: with is Shift,
            alt: with is Alt,
            control: false,
            other: false,
        },
    }
}

impl Chord {
    pub fn plain(code: KeyCode) -> (c: Chord)
        ensures
            c == chord(code, Modifier::Plain),
    {
        Chord {
            code,
            mods: KeyModifiers { shift: false, alt: false, control: false, other: false },
        }
    }

    pub fn shift(code: KeyCode) -> (c: Chord)
        ensures
            c == chord(code, Modifier::Shift),
    {
        Chord {
            code,
            mods: KeyModifiers { shift: true, alt: false, control: false, other: false },
        }
    }

    pub fn alt(code: KeyCode) -> (c: Chord)
        ensures
            c == chord(code, Modifier::Alt),
    {
        Chord {
            code,
            mods: KeyModifiers { shift: false, alt: true, control: false, other: false },
        }
    }
}

/// A short hint for the footer.
#[derive(Debug, Clone, Copy)]
pub struct FooterHint {
    pub keys: &'static str,
    pub label: &'static str,
    /// Hints with a lower rank come first.
    pub rank: u8,
}

/// A row of the table.
#[derive(Debug)]
pub struct Binding {
    /// The command, none for a row that only documents something.
    pub action: Option<Action>,
    pub name: &'static str,
    pub category: Category,
    pub description: &'static str,
    pub chords: Vec<Chord>,
    /// The label of the row in the help, where it has a row of its own.
    pub help_keys: Option<&'static str>,
    pub footer: Option<FooterHint>,
}

/// What a row holds.
#[verifier::ext_equal]
pub struct BindingModel {
    pub action: Option<Action>,
    pub name: Seq<char>,
    pub category: Category,
    pub description: Seq<char>,
    pub chords: Seq<Chord>,
    pub help_keys: Option<Seq<char>>,
    /// Keys, label and rank of the footer's hint.
    pub footer: Option<(Seq<char>, Seq<char>, u8)>,
}

impl View for FooterHint {
    type V = (Seq<char>, Seq<char>, u8);

    open spec fn view(&self) -> (Seq<char>, Seq<char>, u8) {
        (self.keys@, self.label@, self.rank)
    }
}

impl View for Binding {
    type V = BindingModel;

    open spec fn view(&self) -> BindingModel {
        BindingModel {
            action: self.action,
            name: self.name@,
            category: self.category,
            description: self.description@,
            chords: self.chords@,
            help_keys: match self.help_keys {
                Some(k) => Some(k@),
                None => None,
            },
            footer: match self.footer {
                Some(f) => Some(f@),
                None => None,
            },
        }
    }
}

pub open spec fn row(
    action: Option<Action>,
    name: Seq<char>,
    category: Category,
    description: Seq<char>,
    chords: Seq<Chord>,
    help_keys: Option<Seq<char>>,
    footer: Option<(Seq<char>, Seq<char>, u8)>,
) -> BindingModel {
    BindingModel { action, name, category, description, chords, help_keys, footer }
}

fn binding(
    action: Option<Action>,
    name: &'static str,
    category: Category,
    description: &'static str,
    chords: Vec<Chord>,
    help_keys: Option<&'static str>,
    footer: Option<FooterHint>,
) -> (b: Binding)
    ensures
        b@ == row(
            action,
            name@,
            category,
            description@,
            chords@,
            match help_keys {
                Some(k) => Some(k@),
                None => None,
            },
            match footer {
                Some(f) => Some(f@),
                None => None,
            },
        ),
{
    Binding { action, name, category, description, chords, help_keys, footer }
}

fn hint(keys: &'static str, label: &'static str, rank: u8) -> (h: Option<FooterHint>)
    ensures
        h matches Some(f) && f@ == (keys@, label@, rank),
{
    Some(FooterHint { keys, label, rank })
}

/// The table.
pub open spec fn table() -> Seq<BindingModel> {
    seq![
        row(
            Some(Action::PanLeft),
            "Pan the map"@,
            Category::Navigation,
            "move the viewport"@,
            seq![chord(KeyCode::Left, Modifier::Plain)],
            Some("\u{2190} \u{2191} \u{2193} \u{2192}"@),
            Some(("arrows"@, "pan"@, 3u8)),
        ),
        row(
            Some(Action::PanRight),
            "Pan right"@,
            Category::Navigation,
            "move the viewport east"@,
            seq![chord(KeyCode::Right, Modifier::Plain)],
            None,
            None,
        ),
        row(
            Some(Action::PanUp),
            "Pan up"@,
            Category::Navigation,
            "move the viewport north"@,
            seq![chord(KeyCode::Up, Modifier::Plain)],
            None,
            None,
        ),
        row(
            Some(Action::PanDown),
            "Pan down"@,
            Category::Navigation,
            "move the viewport south"@,
            seq![chord(KeyCode::Down, Modifier::Plain)],
            None,
            None,
        ),
        row(
            Some(Action::ZoomIn),
            "Zoom in / out"@,
            Category::Navigation,
            "one quarter step per press"@,
            seq![chord(KeyCode::Char('+'), Modifier::Plain), chord(KeyCode::Char('='), Modifier::Plain)],
            Some("+ / -"@),
            Some(("+/-"@, "zoom"@, 4u8)),
        ),
        row(
            Some(Action::ZoomOut),
            "Zoom out"@,
            Category::Navigation,
            "one quarter step per press"@,
            seq![chord(KeyCode::Char('-'), Modifier::Plain)],
            None,
            None,
        ),
        row(
            None,
            "Drag to pan"@,
            Category::Navigation,
            "hold the left button and move"@,
            seq![],
            Some("drag"@),
            None,
        ),
        row(
            None,
            "Scroll to zoom"@,
            Category::Navigation,
            "zooms about the cursor; Shift for fine steps"@,
            seq![],
            Some("scroll"@),
            None,
        ),
        row(
            Some(Action::FrameBack),
            "Step frame"@,
            Category::Timeline,
            "back / forward one radar frame"@,
            seq![chord(KeyCode::Char(']'), Modifier::Plain)],
            Some("] / ["@),
            Some(("[/]"@, "frame"@, 5u8)),
        ),
        row(
            Some(Action::FrameForward),
            "Step frame forward"@,
            Category::Timeline,
            "advance one radar frame"@,
            seq![chord(KeyCode::Char('['), Modifier::Plain)],
            None,
            None,
        ),
        row(
            Some(Action::TogglePlayback),
            "Play / pause"@,
            Category::Timeline,
            "animate the loaded frames"@,
            seq![chord(KeyCode::Char(' '), Modifier::Plain)],
            Some("space"@),
            Some(("space"@, "play"@, 6u8)),
        ),
        row(
            Some(Action::JumpToLive),
            "Jump to live"@,
            Category::Timeline,
            "return to the newest frame"@,
            seq![chord(KeyCode::Char('0'), Modifier::Plain)],
            Some("0"@),
            Some(("0"@, "live"@, 7u8)),
        ),
        row(
            Some(Action::SpeedFaster),
            "Playback speed"@,
            Category::Timeline,
            "faster / slower"@,
            seq![chord(KeyCode::Char('.'), Modifier::Plain)],
            Some(". / ,"@),
            None,
        ),
        row(
            Some(Action::SpeedSlower),
            "Playback slower"@,
            Category::Timeline,
            "lengthen the frame interval"@,
            seq![chord(KeyCode::Char(','), Modifier::Plain)],
            None,
            None,
        ),
        row(
            Some(Action::CycleHistory),
            "History depth"@,
            Category::Timeline,
            "cycle 3 / 6 / 12 / 24 hours"@,
            seq![chord(KeyCode::Char('i'), Modifier::Plain)],
            Some("i"@),
            Some(("i"@, "history"@, 8u8)),
        ),
        row(
            Some(Action::ToggleLayer),
            "Toggle layer"@,
            Category::Layers,
            "enable or disable the selection"@,
            seq![chord(KeyCode::Enter, Modifier::Plain)],
            Some("enter"@),
            Some(("enter"@, "toggle"@, 9u8)),
        ),
        row(
            Some(Action::SelectPrevious),
            "Select layer"@,
            Category::Layers,
            "move up / down the panel"@,
            seq![chord(KeyCode::Up, Modifier::Alt)],
            Some("alt+\u{2191}\u{2193}"@),
            None,
        ),
        row(
            Some(Action::SelectNext),
            "Select next layer"@,
            Category::Layers,
            "move down the panel"@,
            seq![chord(KeyCode::Down, Modifier::Alt)],
            None,
            None,
        ),
        row(
            Some(Action::EnterGroup),
            "Layer options"@,
            Category::Layers,
            "enter / leave the selected layer's options"@,
            seq![chord(KeyCode::Right, Modifier::Alt), chord(KeyCode::Char('f'), Modifier::Alt)],
            Some("alt+\u{2190}\u{2192}"@),
            None,
        ),
        row(
            Some(Action::ExitGroup),
            "Leave layer options"@,
            Category::Layers,
            "step back out to the layer list"@,
            seq![chord(KeyCode::Left, Modifier::Alt), chord(KeyCode::Char('b'), Modifier::Alt)],
            None,
            None,
        ),
        row(
            Some(Action::ModeBraille),
            "Braille mode"@,
            Category::Layers,
            "assign the braille renderer to this layer"@,
            seq![chord(KeyCode::Char('b'), Modifier::Plain)],
            Some("b"@),
            None,
        ),
        row(
            Some(Action::ModeColor),
            "Colour mode"@,
            Category::Layers,
            "assign the colour renderer to this layer"@,
            seq![chord(KeyCode::Char('c'), Modifier::Plain)],
            Some("c"@),
            None,
        ),
        row(
            Some(Action::ModeText),
            "Text mode"@,
            Category::Layers,
            "assign the text renderer to this layer"@,
            seq![chord(KeyCode::Char('l'), Modifier::Plain)],
            Some("l"@),
            None,
        ),
        row(
            Some(Action::ToggleHelp),
            "Toggle this help"@,
            Category::General,
            "esc also closes it"@,
            seq![chord(KeyCode::Char('?'), Modifier::Plain)],
            Some("?"@),
            Some(("?"@, "help"@, 1u8)),
        ),
        row(
            Some(Action::OpenSearch),
            "Search for a place"@,
            Category::General,
            "type a place name, enter to pin it"@,
            seq![chord(KeyCode::Char('/'), Modifier::Plain)],
            Some("/"@),
            Some(("/"@, "search"@, 10u8)),
        ),
        row(
            Some(Action::OpenSettings),
            "Settings"@,
            Category::General,
            "edit the EUMETNET API key / IP fallback"@,
            seq![chord(KeyCode::Char('s'), Modifier::Plain)],
            Some("s"@),
            Some(("s"@, "settings"@, 2u8)),
        ),
        row(
            Some(Action::RefetchMap),
            "Refetch map data"@,
            Category::General,
            "re-download the border geometry"@,
            seq![chord(KeyCode::Char('m'), Modifier::Plain)],
            Some("m"@),
            None,
        ),
        row(
            Some(Action::Quit),
            "Quit"@,
            Category::General,
            "saves the viewport and layer state"@,
            seq![chord(KeyCode::Char('q'), Modifier::Plain), chord(KeyCode::Esc, Modifier::Plain)],
            Some("q / esc"@),
            Some(("q"@, "quit"@, 0u8)),
        ),
    ]
}

pub open spec fn models(b: Seq<Binding>) -> Seq<BindingModel> {
    b.map_values(|b: Binding| b@)
}

/// The table, row by row.
#[verifier::rlimit(60)]
pub fn bindings() -> (b: Vec<Binding>)
    ensures
        models(b@) == table(),
        b.len() == 28,
{
    let mut b: Vec<Binding> = Vec::new();
    b.push(
        binding(
            Some(Action::PanLeft),
            "Pan the map",
            Category::Navigation,
            "move the viewport",
            vec![Chord::plain(KeyCode::Left)],
            Some("\u{2190} \u{2191} \u{2193} \u{2192}"),
            hint("arrows", "pan", 3),
        ),
    );
    b.push(
        binding(
            Some(Action::PanRight),
            "Pan right",
            Category::Navigation,
            "move the viewport east",
            vec![Chord::plain(KeyCode::Right)],
            None,
            None,
        ),
    );
    b.push(
        binding(
            Some(Action::PanUp),
            "Pan up",
            Category::Navigation,
            "move the viewport north",
            vec![Chord::plain(KeyCode::Up)],
            None,
            None,
        ),
    );
    b.push(
        binding(
            Some(Action::PanDown),
            "Pan down",
            Category::Navigation,
            "move the viewport south",
            vec![Chord::plain(KeyCode::Down)],
            None,
            None,
        ),
    );
    b.push(
        binding(
            Some(Action::ZoomIn),
            "Zoom in / out",
            Category::Navigation,
            "one quarter step per press",
            vec![Chord::plain(KeyCode::Char('+')), Chord::plain(KeyCode::Char('='))],
            Some("+ / -"),
            hint("+/-", "zoom", 4),
        ),
    );
    b.push(
        binding(
            Some(Action::ZoomOut),
            "Zoom out",
            Category::Navigation,
            "one quarter step per press",
            vec![Chord::plain(KeyCode::Char('-'))],
            None,
            None,
        ),
    );
    b.push(
        binding(
            None,
            "Drag to pan",
            Category::Navigation,
            "hold the left button and move",
            Vec::new(),
            Some("drag"),
            None,
        ),
    );
    b.push(
        binding(
            None,
            "Scroll to zoom",
            Category::Navigation,
            "zooms about the cursor; Shift for fine steps",
            Vec::new(),
            Some("scroll"),
            None,
        ),
    );
    b.push(
        binding(
            Some(Action::FrameBack),
            "Step frame",
            Category::Timeline,
            "back / forward one radar frame",
            vec![Chord::plain(KeyCode::Char(']'))],
            Some("] / ["),
            hint("[/]", "frame", 5),
        ),
    );
    b.push(
        binding(
            Some(Action::FrameForward),
            "Step frame forward",
            Category::Timeline,
            "advance one radar frame",
            vec![Chord::plain(KeyCode::Char('['))],
            None,
            None,
        ),
    );
    b.push(
        binding(
            Some(Action::TogglePlayback),
            "Play / pause",
            Category::Timeline,
            "animate the loaded frames",
            vec![Chord::plain(KeyCode::Char(' '))],
            Some("space"),
            hint("space", "play", 6),
        ),
    );
    b.push(
        binding(
            Some(Action::JumpToLive),
            "Jump to live",
            Category::Timeline,
            "return to the newest frame",
            vec![Chord::plain(KeyCode::Char('0'))],
            Some("0"),
            hint("0", "live", 7),
        ),
    );
    b.push(
        binding(
            Some(Action::SpeedFaster),
            "Playback speed",
            Category::Timeline,
            "faster / slower",
            vec![Chord::plain(KeyCode::Char('.'))],
            Some(". / ,"),
            None,
        ),
    );
    b.push(
        binding(
            Some(Action::SpeedSlower),
            "Playback slower",
            Category::Timeline,
            "lengthen the frame interval",
            vec![Chord::plain(KeyCode::Char(','))],
            None,
            None,
        ),
    );
    b.push(
        binding(
            Some(Action::CycleHistory),
            "History depth",
            Category::Timeline,
            "cycle 3 / 6 / 12 / 24 hours",
            vec![Chord::plain(KeyCode::Char('i'))],
            Some("i"),
            hint("i", "history", 8),
        ),
    );
    b.push(
        binding(
            Some(Action::ToggleLayer),
            "Toggle layer",
            Category::Layers,
            "enable or disable the selection",
            vec![Chord::plain(KeyCode::Enter)],
            Some("enter"),
            hint("enter", "toggle", 9),
        ),
    );
    b.push(
        binding(
            Some(Action::SelectPrevious),
            "Select layer",
            Category::Layers,
            "move up / down the panel",
            vec![Chord::alt(KeyCode::Up)],
            Some("alt+\u{2191}\u{2193}"),
            None,
        ),
    );
    b.push(
        binding(
            Some(Action::SelectNext),
            "Select next layer",
            Category::Layers,
            "move down the panel",
            vec![Chord::alt(KeyCode::Down)],
            None,
            None,
        ),
    );
    b.push(
        binding(
            Some(Action::EnterGroup),
            "Layer options",
            Category::Layers,
            "enter / leave the selected layer's options",
            vec![Chord::alt(KeyCode::Right), Chord::alt(KeyCode::Char('f'))],
            Some("alt+\u{2190}\u{2192}"),
            None,
        ),
    );
    b.push(
        binding(
            Some(Action::ExitGroup),
            "Leave layer options",
            Category::Layers,
            "step back out to the layer list",
            vec![Chord::alt(KeyCode::Left), Chord::alt(KeyCode::Char('b'))],
            None,
            None,
        ),
    );
    b.push(
        binding(
            Some(Action::ModeBraille),
            "Braille mode",
            Category::Layers,
            "assign the braille renderer to this layer",
            vec![Chord::plain(KeyCode::Char('b'))],
            Some("b"),
            None,
        ),
    );
    b.push(
        binding(
            Some(Action::ModeColor),
            "Colour mode",
            Category::Layers,
            "assign the colour renderer to this layer",
            vec![Chord::plain(KeyCode::Char('c'))],
            Some("c"),
            None,
        ),
    );
    b.push(
        binding(
            Some(Action::ModeText),
            "Text mode",
            Category::Layers,
            "assign the text renderer to this layer",
            vec![Chord::plain(KeyCode::Char('l'))],
            Some("l"),
            None,
        ),
    );
    b.push(
        binding(
            Some(Action::ToggleHelp),
            "Toggle this help",
            Category::General,
            "esc also closes it",
            vec![Chord::plain(KeyCode::Char('?'))],
            Some("?"),
            hint("?", "help", 1),
        ),
    );
    b.push(
        binding(
            Some(Action::OpenSearch),
            "Search for a place",
            Category::General,
            "type a place name, enter to pin it",
            vec![Chord::plain(KeyCode::Char('/'))],
            Some("/"),
            hint("/", "search", 10),
        ),
    );
    b.push(
        binding(
            Some(Action::OpenSettings),
            "Settings",
            Category::General,
            "edit the EUMETNET API key / IP fallback",
            vec![Chord::plain(KeyCode::Char('s'))],
            Some("s"),
            hint("s", "settings", 2),
        ),
    );
    b.push(
        binding(
            Some(Action::RefetchMap),
            "Refetch map data",
            Category::General,
            "re-download the border geometry",
            vec![Chord::plain(KeyCode::Char('m'))],
            Some("m"),
            None,
        ),
    );
    b.push(
        binding(
            Some(Action::Quit),
            "Quit",
            Category::General,
            "saves the viewport and layer state",
            vec![Chord::plain(KeyCode::Char('q')), Chord::plain(KeyCode::Esc)],
            Some("q / esc"),
            hint("q", "quit", 0),
        ),
    );
    assert(models(b@) =~~= table());
    b
}

/// The form of a key press that the table is searched for: what the terminal
/// reports beside Shift, Alt and Control is dropped, and so is Shift on a
/// character, which holds it already.
pub open spec fn normal(key: KeyEvent) -> Chord {
    Chord {
        code: key.code,
        mods: KeyModifiers {
            shift: key.modifiers.shift && !(key.code is Char),
            alt: key.modifiers.alt,
            control: key.modifiers.control,
            other: false,
        },
    }
}

pub fn normalize(key: KeyEvent) -> (c: Chord)
    ensures
        c == normal(key),
{
    let is_char = match key.code {
        KeyCode::Char(_) => true,
        _ => false,
    };
    Chord {
        code: key.code,
        mods: KeyModifiers {
            shift: key.modifiers.shift && !is_char,
            alt: key.modifiers.alt,
            control: key.modifiers.control,
            other: false,
        },
    }
}

/// What a key does while the settings modal has the keyboard.
#[derive(Debug, Clone, Copy, PartialEq, Eq, Structural)]
pub enum SettingsKeyAction {
    Quit,
    FocusPrev,
    FocusNext,
    ToggleBool,
    Confirm,
    Back,
    PushChar(char),
    Backspace,
}

pub open spec fn settings_action(key: KeyEvent) -> Option<SettingsKeyAction> {
    if key.modifiers.control {
        if key.code == KeyCode::Char('c') {
            Some(SettingsKeyAction::Quit)
        } else {
            None
        }
    } else {
        match key.code {
            KeyCode::Up => Some(SettingsKeyAction::FocusPrev),
            KeyCode::Down => Some(SettingsKeyAction::FocusNext),
            KeyCode::Left => Some(SettingsKeyAction::ToggleBool),
            KeyCode::Right => Some(SettingsKeyAction::ToggleBool),
            KeyCode::Enter => Some(SettingsKeyAction::Confirm),
            KeyCode::Esc => Some(SettingsKeyAction::Back),
            KeyCode::Backspace => Some(SettingsKeyAction::Backspace),
            KeyCode::Char(c) => Some(SettingsKeyAction::PushChar(c)),
            _ => None,
        }
    }
}

/// The action of a key in the settings modal, none where it is ignored.
pub fn settings_key_action(key: KeyEvent) -> (r: Option<SettingsKeyAction>)
    ensures
        r == settings_action(key),
{
    if key.modifiers.control {
        return if key.code == KeyCode::Char('c') {
            Some(SettingsKeyAction::Quit)
        } else {
            None
        };
    }
    match key.code {
        KeyCode::Up => Some(SettingsKeyAction::FocusPrev),
        KeyCode::Down => Some(SettingsKeyAction::FocusNext),
        KeyCode::Left => Some(SettingsKeyAction::ToggleBool),
        KeyCode::Right => Some(SettingsKeyAction::ToggleBool),
        KeyCode::Enter => Some(SettingsKeyAction::Confirm),
        KeyCode::Esc => Some(SettingsKeyAction::Back),
        KeyCode::Backspace => Some(SettingsKeyAction::Backspace),
        KeyCode::Char(c) => Some(SettingsKeyAction::PushChar(c)),
        _ => None,
    }
}

/// The action of the first row from `from` on that has a chord.
pub open spec fn action_of(rows: Seq<BindingModel>, c: Chord, from: int) -> Option<Action>
    decreases rows.len() - from,
{
    if from < 0 || from >= rows.len() {
        None
    } else if rows[from].chords.contains(c) {
        rows[from].action
    } else {
        action_of(rows, c, from + 1)
    }
}

fn has_chord(chords: &Vec<Chord>, c: Chord) -> (r: bool)
    ensures
        r == chords@.contains(c),
{
    let mut i: usize = 0;
    while i < chords.len()
        invariant
            i <= chords.len(),
            forall|k: int| 0 <= k < i ==> chords[k] != c,
        decreases chords.len() - i,
    {
        if chords[i] == c {
            return true;
        }
        i = i + 1;
    }
    false
}

/// The action bound to a key press, if any.
pub fn resolve(key: KeyEvent) -> (r: Option<Action>)
    ensures
        r == action_of(table(), normal(key), 0),
{
    let c = normalize(key);
    let rows = bindings();
    let mut i: usize = 0;
    while i < rows.len()
        invariant
            i <= rows.len(),
            c == normal(key),
            models(rows@) == table(),
            action_of(table(), c, 0) == action_of(table(), c, i as int),
        decreases rows.len() - i,
    {
        assert(table()[i as int] == models(rows@)[i as int]);
        if has_chord(&rows[i].chords, c) {
            return rows[i].action;
        }
        i = i + 1;
    }
    assert(table().len() == models(rows@).len());
    None
}

/// The hints among the first `n` rows.
pub open spec fn hints_in(rows: Seq<BindingModel>, n: nat) -> Seq<(Seq<char>, Seq<char>, u8)>
    decreases n,
{
    if n == 0 || n > rows.len() {
        Seq::empty()
    } else {
        let before = hints_in(rows, (n - 1) as nat);
        match rows[n - 1].footer {
            Some(f) => before.push(f),
            None => before,
        }
    }
}

pub open spec fn ranks_of(hints: Seq<(Seq<char>, Seq<char>, u8)>) -> Seq<usize> {
    hints.map_values(|h: (Seq<char>, Seq<char>, u8)| h.2 as usize)
}

/// The footer's hints, the most needed first.
pub open spec fn ordered_hints() -> Seq<(Seq<char>, Seq<char>, u8)> {
    let hints = hints_in(table(), table().len());
    by_rank(hints, ranks_of(hints))
}

pub fn footer_hints() -> (r: Vec<FooterHint>)
    ensures
        r@.map_values(|h: FooterHint| h@) == ordered_hints(),
{
    let rows = bindings();
    let ghost view = |h: FooterHint| h@;
    let mut hints: Vec<FooterHint> = Vec::new();
    let mut ranks: Vec<usize> = Vec::new();
    let mut i: usize = 0;
    assert(hints@.map_values(view) =~= hints_in(table(), 0));
    while i < rows.len()
        invariant
            i <= rows.len(),
            models(rows@) == table(),
            view == (|h: FooterHint| h@),
            hints@.map_values(view) == hints_in(table(), i as nat),
            ranks@ == ranks_of(hints_in(table(), i as nat)),
            hints.len() == ranks.len(),
        decreases rows.len() - i,
    {
        assert(table()[i as int] == models(rows@)[i as int]);
        let ghost before = hints_in(table(), i as nat);
        match &rows[i].footer {
            Some(f) => {
                let ghost h0 = hints@;
                hints.push(*f);
                ranks.push(f.rank as usize);
                assert(hints@.map_values(view) =~= h0.map_values(view).push(f@));
                assert(ranks_of(before.push(f@)) =~= ranks_of(before).push(f.rank as usize));
            },
            None => {},
        }
        i = i + 1;
    }
    assert(table().len() == models(rows@).len());
    let order = sorted_indices(ranks.as_slice());
    let mut r: Vec<FooterHint> = Vec::new();
    let ghost all = hints_in(table(), table().len());
    let ghost sorted = rank_order(ranks@, ranks@.len());
    proof {
        rank_order_is_stable_and_complete(ranks@, ranks@.len());
    }
    let mut k: usize = 0;
    while k < order.len()
        invariant
            k <= order.len(),
            view == (|h: FooterHint| h@),
            order.len() == sorted.len(),
            hints@.map_values(view) == all,
            hints.len() == ranks.len(),
            forall|j: int| 0 <= j < order.len() ==> (#[trigger] order[j]) == sorted[j] && order[j] < ranks.len(),
            r.len() == k,
            forall|j: int| 0 <= j < k ==> (#[trigger] r[j])@ == all[sorted[j]],
        decreases order.len() - k,
    {
        let o: usize = order[k];
        assert(hints@.map_values(view)[o as int] == all[sorted[k as int]]);
        r.push(hints[o]);
        k = k + 1;
    }
    assert(r@.map_values(view) =~= by_rank(all, ranks_of(all)));
    r
}

/// The rows of a section among the first `n` rows that have a help row: keys,
/// name and description.
pub open spec fn helps_in(rows: Seq<BindingModel>, category: Category, n: nat) -> Seq<
    (Seq<char>, Seq<char>, Seq<char>),
>
    decreases n,
{
    if n == 0 || n > rows.len() {
        Seq::empty()
    } else {
        let b = rows[n - 1];
        let before = helps_in(rows, category, (n - 1) as nat);
        match b.help_keys {
            Some(k) => if b.category == category {
                before.push((k, b.name, b.description))
            } else {
                before
            },
            None => before,
        }
    }
}

/// The help rows of a section.
pub open spec fn helps(category: Category) -> Seq<(Seq<char>, Seq<char>, Seq<char>)> {
    helps_in(table(), category, table().len())
}

/// The help rows of a section, in the table's order: keys, name and
/// description.
pub fn help_rows(category: Category) -> (r: Vec<(&'static str, &'static str, &'static str)>)
    ensures
        r@.map_values(
            |h: (&'static str, &'static str, &'static str)| (h.0@, h.1@, h.2@),
        ) == helps(category),
{
    let rows = bindings();
    let ghost view = |h: (&'static str, &'static str, &'static str)| (h.0@, h.1@, h.2@);
    let mut r: Vec<(&'static str, &'static str, &'static str)> = Vec::new();
    let mut i: usize = 0;
    assert(r@.map_values(view) =~= helps_in(table(), category, 0));
    while i < rows.len()
        invariant
            i <= rows.len(),
            models(rows@) == table(),
            view == (|h: (&'static str, &'static str, &'static str)| (h.0@, h.1@, h.2@)),
            r@.map_values(view) == helps_in(table(), category, i as nat),
        decreases rows.len() - i,
    {
        assert(table()[i as int] == models(rows@)[i as int]);
        let ghost r0 = r@;
        match rows[i].help_keys {
            Some(k) => {
                if rows[i].category == category {
                    let name = rows[i].name;
                    let description = rows[i].description;
                    r.push((k, name, description));
                    assert(r@.map_values(view) =~= r0.map_values(view).push(
                        (k@, name@, description@),
                    ));
                }
            },
            None => {},
        }
        i = i + 1;
    }
    assert(table().len() == models(rows@).len());
    r
}

/// Each chord is bound in one row alone.
#[verifier::rlimit(100)]
pub proof fn chords_are_bound_once(i: int, j: int, c: Chord)
    requires
        0 <= i < table().len(),
        0 <= j < table().len(),
        table()[i].chords.contains(c),
        table()[j].chords.contains(c),
    ensures
        i == j,
{
    lemma_chord_row(i, c);
    lemma_chord_row(j, c);
}

/// The row that a chord stands in.
spec fn row_of(c: Chord) -> int {
    if c.mods.alt {
        match c.code {
            KeyCode::Up => 16,
            KeyCode::Down => 17,
            KeyCode::Right => 18,
            KeyCode::Char('f') => 18,
            KeyCode::Left => 19,
            KeyCode::Char('b') => 19,
            _ => -1,
        }
    } else {
        match c.code {
            KeyCode::Left => 0,
            KeyCode::Right => 1,
            KeyCode::Up => 2,
            KeyCode::Down => 3,
            KeyCode::Char('+') => 4,
            KeyCode::Char('=') => 4,
            KeyCode::Char('-') => 5,
            KeyCode::Char(']') => 8,
            KeyCode::Char('[') => 9,
            KeyCode::Char(' ') => 10,
            KeyCode::Char('0') => 11,
            KeyCode::Char('.') => 12,
            KeyCode::Char(',') => 13,
            KeyCode::Char('i') => 14,
            KeyCode::Enter => 15,
            KeyCode::Char('b') => 20,
            KeyCode::Char('c') => 21,
            KeyCode::Char('l') => 22,
            KeyCode::Char('?') => 23,
            KeyCode::Char('/') => 24,
            KeyCode::Char('s') => 25,
            KeyCode::Char('m') => 26,
            KeyCode::Char('q') => 27,
            KeyCode::Esc => 27,
            _ => -1,
        }
    }
}

#[verifier::rlimit(100)]
proof fn lemma_chord_row(i: int, c: Chord)
    requires
        0 <= i < table().len(),
        table()[i].chords.contains(c),
    ensures
        row_of(c) == i,
{
    let k = choose|k: int| 0 <= k < table()[i].chords.len() && table()[i].chords[k] == c;
    assert(table()[i].chords.len() <= 2);
    assert(k == 0 || k == 1);
}

/// A row that only documents something has no chord.
pub proof fn documentation_has_no_chords(i: int)
    requires
        0 <= i < table().len(),
        table()[i].action is None,
    ensures
        table()[i].chords.len() == 0,
{
}

/// Every chord of the table resolves to its row's action.
pub proof fn chords_resolve_to_their_row(i: int, c: Chord)
    requires
        0 <= i < table().len(),
        table()[i].chords.contains(c),
    ensures
        action_of(table(), c, 0) == table()[i].action,
{
    lemma_first_row(i, c, 0);
}

proof fn lemma_first_row(i: int, c: Chord, from: int)
    requires
        0 <= from <= i < table().len(),
        table()[i].chords.contains(c),
    ensures
        action_of(table(), c, from) == table()[i].action,
    decreases i - from,
{
    if table()[from].chords.contains(c) {
        chords_are_bound_once(i, from, c);
    } else {
        lemma_first_row(i, c, from + 1);
    }
}

/// The keys do what they are known for: the arrows pan, plus and minus zoom, the
/// brackets step through the frames, and so on.
pub proof fn keys_do_what_they_are_known_for()
    ensures
        action_of(table(), chord(KeyCode::Left, Modifier::Plain), 0) == Some(Action::PanLeft),
        action_of(table(), chord(KeyCode::Right, Modifier::Plain), 0) == Some(Action::PanRight),
        action_of(table(), chord(KeyCode::Up, Modifier::Plain), 0) == Some(Action::PanUp),
        action_of(table(), chord(KeyCode::Down, Modifier::Plain), 0) == Some(Action::PanDown),
        action_of(table(), chord(KeyCode::Char('+'), Modifier::Plain), 0) == Some(Action::ZoomIn),
        action_of(table(), chord(KeyCode::Char('='), Modifier::Plain), 0) == Some(Action::ZoomIn),
        action_of(table(), chord(KeyCode::Char('-'), Modifier::Plain), 0) == Some(Action::ZoomOut),
        action_of(table(), chord(KeyCode::Char(']'), Modifier::Plain), 0) == Some(Action::FrameBack),
        action_of(table(), chord(KeyCode::Char('['), Modifier::Plain), 0) == Some(Action::FrameForward),
        action_of(table(), chord(KeyCode::Char(' '), Modifier::Plain), 0) == Some(Action::TogglePlayback),
        action_of(table(), chord(KeyCode::Char('0'), Modifier::Plain), 0) == Some(Action::JumpToLive),
        action_of(table(), chord(KeyCode::Char('.'), Modifier::Plain), 0) == Some(Action::SpeedFaster),
        action_of(table(), chord(KeyCode::Char(','), Modifier::Plain), 0) == Some(Action::SpeedSlower),
        action_of(table(), chord(KeyCode::Char('i'), Modifier::Plain), 0) == Some(Action::CycleHistory),
        action_of(table(), chord(KeyCode::Enter, Modifier::Plain), 0) == Some(Action::ToggleLayer),
        action_of(table(), chord(KeyCode::Up, Modifier::Alt), 0) == Some(Action::SelectPrevious),
        action_of(table(), chord(KeyCode::Down, Modifier::Alt), 0) == Some(Action::SelectNext),
        action_of(table(), chord(KeyCode::Right, Modifier::Alt), 0) == Some(Action::EnterGroup),
        action_of(table(), chord(KeyCode::Char('f'), Modifier::Alt), 0) == Some(Action::EnterGroup),
        action_of(table(), chord(KeyCode::Left, Modifier::Alt), 0) == Some(Action::ExitGroup),
        action_of(table(), chord(KeyCode::Char('b'), Modifier::Alt), 0) == Some(Action::ExitGroup),
        action_of(table(), chord(KeyCode::Char('b'), Modifier::Plain), 0) == Some(Action::ModeBraille),
        action_of(table(), chord(KeyCode::Char('c'), Modifier::Plain), 0) == Some(Action::ModeColor),
        action_of(table(), chord(KeyCode::Char('l'), Modifier::Plain), 0) == Some(Action::ModeText),
        action_of(table(), chord(KeyCode::Char('?'), Modifier::Plain), 0) == Some(Action::ToggleHelp),
        action_of(table(), chord(KeyCode::Char('/'), Modifier::Plain), 0) == Some(Action::OpenSearch),
        action_of(table(), chord(KeyCode::Char('s'), Modifier::Plain), 0) == Some(Action::OpenSettings),
        action_of(table(), chord(KeyCode::Char('m'), Modifier::Plain), 0) == Some(Action::RefetchMap),
        action_of(table(), chord(KeyCode::Char('q'), Modifier::Plain), 0) == Some(Action::Quit),
        action_of(table(), chord(KeyCode::Esc, Modifier::Plain), 0) == Some(Action::Quit),
{
    lemma_bound(0, 0, chord(KeyCode::Left, Modifier::Plain));
    lemma_bound(1, 0, chord(KeyCode::Right, Modifier::Plain));
    lemma_bound(2, 0, chord(KeyCode::Up, Modifier::Plain));
    lemma_bound(3, 0, chord(KeyCode::Down, Modifier::Plain));
    lemma_bound(4, 0, chord(KeyCode::Char('+'), Modifier::Plain));
    lemma_bound(4, 1, chord(KeyCode::Char('='), Modifier::Plain));
    lemma_bound(5, 0, chord(KeyCode::Char('-'), Modifier::Plain));
    lemma_bound(8, 0, chord(KeyCode::Char(']'), Modifier::Plain));
    lemma_bound(9, 0, chord(KeyCode::Char('['), Modifier::Plain));
    lemma_bound(10, 0, chord(KeyCode::Char(' '), Modifier::Plain));
    lemma_bound(11, 0, chord(KeyCode::Char('0'), Modifier::Plain));
    lemma_bound(12, 0, chord(KeyCode::Char('.'), Modifier::Plain));
    lemma_bound(13, 0, chord(KeyCode::Char(','), Modifier::Plain));
    lemma_bound(14, 0, chord(KeyCode::Char('i'), Modifier::Plain));
    lemma_bound(15, 0, chord(KeyCode::Enter, Modifier::Plain));
    lemma_bound(16, 0, chord(KeyCode::Up, Modifier::Alt));
    lemma_bound(17, 0, chord(KeyCode::Down, Modifier::Alt));
    lemma_bound(18, 0, chord(KeyCode::Right, Modifier::Alt));
    lemma_bound(18, 1, chord(KeyCode::Char('f'), Modifier::Alt));
    lemma_bound(19, 0, chord(KeyCode::Left, Modifier::Alt));
    lemma_bound(19, 1, chord(KeyCode::Char('b'), Modifier::Alt));
    lemma_bound(20, 0, chord(KeyCode::Char('b'), Modifier::Plain));
    lemma_bound(21, 0, chord(KeyCode::Char('c'), Modifier::Plain));
    lemma_bound(22, 0, chord(KeyCode::Char('l'), Modifier::Plain));
    lemma_bound(23, 0, chord(KeyCode::Char('?'), Modifier::Plain));
    lemma_bound(24, 0, chord(KeyCode::Char('/'), Modifier::Plain));
    lemma_bound(25, 0, chord(KeyCode::Char('s'), Modifier::Plain));
    lemma_bound(26, 0, chord(KeyCode::Char('m'), Modifier::Plain));
    lemma_bound(27, 0, chord(KeyCode::Char('q'), Modifier::Plain));
    lemma_bound(27, 1, chord(KeyCode::Esc, Modifier::Plain));
}

proof fn lemma_bound(i: int, k: int, c: Chord)
    requires
        0 <= i < table().len(),
        0 <= k < table()[i].chords.len(),
        table()[i].chords[k] == c,
    ensures
        action_of(table(), c, 0) == table()[i].action,
{
    chords_resolve_to_their_row(i, c);
}

/// A chord that no row has does nothing.
pub proof fn other_keys_do_nothing(c: Chord, from: int)
    requires
        0 <= from,
        forall|i: int| 0 <= i < table().len() ==> !(#[trigger] table()[i]).chords.contains(c),
    ensures
        action_of(table(), c, from) is None,
    decreases table().len() - from,
{
    if from < table().len() {
        assert(!table()[from].chords.contains(c));
        other_keys_do_nothing(c, from + 1);
    }
}

/// Every section has a help row.
pub proof fn sections_have_help_rows(category: Category)
    ensures
        helps(category).len() > 0,
{
    let first: int = match category {
        Category::Navigation => 0,
        Category::Timeline => 8,
        Category::Layers => 15,
        Category::General => 23,
    };
    lemma_helps_grow(category, (first + 1) as nat, table().len());
}

proof fn lemma_helps_grow(category: Category, n: nat, m: nat)
    requires
        n <= m <= table().len(),
    ensures
        helps_in(table(), category, n).len() <= helps_in(table(), category, m).len(),
    decreases m - n,
{
    if n < m {
        lemma_helps_grow(category, n, (m - 1) as nat);
    }
}

/// No two hints of the footer have the same rank.
#[verifier::rlimit(100)]
pub proof fn hint_ranks_are_unique(i: int, j: int)
    requires
        0 <= i < table().len(),
        0 <= j < table().len(),
        table()[i].footer is Some,
        table()[j].footer is Some,
        (table()[i].footer->0).2 == (table()[j].footer->0).2,
    ensures
        i == j,
{
}

} // verus!
