//! Keyboard actions, key chords and the per-context binding tables.

use vstd::prelude::*;

use crate::app::{ascii_lower, ascii_lower_char};
use crate::text::{
    chars_equal, chars_of, decimal, decimal_chars, owned, sort_texts, str_is, string_of, text_order,
    texts,
};

verus! {

/// The mode in which a key is interpreted.
#[derive(Clone, Copy, Debug, PartialEq, Eq, Hash, Structural)]
pub enum ActionContext {
    Normal,
    Search,
    Inspect,
    Compare,
}

/// The name of a context as it appears in messages.
pub open spec fn context_name(context: ActionContext) -> Seq<char> {
    match context {
        ActionContext::Normal => "Normal"@,
        ActionContext::Search => "Search"@,
        ActionContext::Inspect => "Inspect"@,
        ActionContext::Compare => "Compare"@,
    }
}

impl ActionContext {
    /// The name of the context as it appears in messages.
    pub fn name(self) -> (out: &'static str)
        ensures
            out@ == context_name(self),
    {
        match self {
            ActionContext::Normal => "Normal",
            ActionContext::Search => "Search",
            ActionContext::Inspect => "Inspect",
            ActionContext::Compare => "Compare",
        }
    }
}

/// Something a key can ask the browser to do.
#[derive(Clone, Copy, Debug, PartialEq, Eq, Hash, Structural)]
pub enum Action {
    Quit,
    StartSearch,
    CancelSearch,
    CommitSearch,
    DeleteSearchCharacter,
    ThumbnailLarger,
    ThumbnailSmaller,
    ThumbnailReset,
    SetQuality(u8),
    MoveLeft,
    MoveRight,
    MoveUp,
    MoveDown,
    PageUp,
    PageDown,
    First,
    Last,
    ToggleHelp,
    ToggleDebug,
    OpenInspect,
    CloseInspect,
    PreviousImage,
    NextImage,
    ToggleFitHundred,
    ZoomIn,
    ZoomOut,
    PanLeft,
    PanRight,
    PanUp,
    PanDown,
    CycleBackground,
    ToggleMark,
    MarkRange,
    ClearMarks,
    ToggleMarkedOnly,
    ConfirmSelection,
    OpenCompare,
    PromoteCandidate,
    SwitchComparePane,
    ToggleCompareSync,
}

/// The configuration name of an action; quality levels outside 1 to 9 have none.
pub open spec fn action_name(action: Action) -> Option<Seq<char>> {
    match action {
        Action::Quit => Some("quit"@),
        Action::StartSearch => Some("search"@),
        Action::CancelSearch => Some("cancel"@),
        Action::CommitSearch => Some("confirm"@),
        Action::DeleteSearchCharacter => Some("backspace"@),
        Action::ThumbnailLarger => Some("thumbnail_larger"@),
        Action::ThumbnailSmaller => Some("thumbnail_smaller"@),
        Action::ThumbnailReset => Some("thumbnail_reset"@),
        Action::SetQuality(level) => if level == 1 {
            Some("quality_1"@)
        } else if level == 2 {
            Some("quality_2"@)
        } else if level == 3 {
            Some("quality_3"@)
        } else if level == 4 {
            Some("quality_4"@)
        } else if level == 5 {
            Some("quality_5"@)
        } else if level == 6 {
            Some("quality_6"@)
        } else if level == 7 {
            Some("quality_7"@)
        } else if level == 8 {
            Some("quality_8"@)
        } else if level == 9 {
            Some("quality_9"@)
        } else {
            None
        },
        Action::MoveLeft => Some("left"@),
        Action::MoveRight => Some("right"@),
        Action::MoveUp => Some("up"@),
        Action::MoveDown => Some("down"@),
        Action::PageUp => Some("page_up"@),
        Action::PageDown => Some("page_down"@),
        Action::First => Some("first"@),
        Action::Last => Some("last"@),
        Action::ToggleHelp => Some("help"@),
        Action::ToggleDebug => Some("debug"@),
        Action::OpenInspect => Some("inspect"@),
        Action::CloseInspect => Some("close"@),
        Action::PreviousImage => Some("previous"@),
        Action::NextImage => Some("next"@),
        Action::ToggleFitHundred => Some("fit_100"@),
        Action::ZoomIn => Some("zoom_in"@),
        Action::ZoomOut => Some("zoom_out"@),
        Action::PanLeft => Some("pan_left"@),
        Action::PanRight => Some("pan_right"@),
        Action::PanUp => Some("pan_up"@),
        Action::PanDown => Some("pan_down"@),
        Action::CycleBackground => Some("background"@),
        Action::ToggleMark => Some("toggle_mark"@),
        Action::MarkRange => Some("mark_range"@),
        Action::ClearMarks => Some("clear_marks"@),
        Action::ToggleMarkedOnly => Some("marked_only"@),
        Action::ConfirmSelection => Some("confirm_selection"@),
        Action::OpenCompare => Some("compare"@),
        Action::PromoteCandidate => Some("promote"@),
        Action::SwitchComparePane => Some("switch_pane"@),
        Action::ToggleCompareSync => Some("sync"@),
    }
}

/// The label shown for an action in help and status lines.
pub open spec fn action_label(action: Action) -> Seq<char> {
    match action {
        Action::Quit => "quit"@,
        Action::StartSearch => "search"@,
        Action::CancelSearch => "cancel"@,
        Action::CommitSearch => "confirm"@,
        Action::DeleteSearchCharacter => "delete character"@,
        Action::ThumbnailLarger => "larger thumbnails"@,
        Action::ThumbnailSmaller => "smaller thumbnails"@,
        Action::ThumbnailReset => "reset thumbnail size"@,
        Action::SetQuality(level) => if level == 1 {
            "quality 1"@
        } else if level == 2 {
            "quality 2"@
        } else if level == 3 {
            "quality 3"@
        } else if level == 4 {
            "quality 4"@
        } else if level == 5 {
            "quality 5"@
        } else if level == 6 {
            "quality 6"@
        } else if level == 7 {
            "quality 7"@
        } else if level == 8 {
            "quality 8"@
        } else if level == 9 {
            "quality 9"@
        } else {
            "quality"@
        },
        Action::MoveLeft => "move left"@,
        Action::MoveRight => "move right"@,
        Action::MoveUp => "move up"@,
        Action::MoveDown => "move down"@,
        Action::PageUp => "page up"@,
        Action::PageDown => "page down"@,
        Action::First => "first image"@,
        Action::Last => "last image"@,
        Action::ToggleHelp => "help"@,
        Action::ToggleDebug => "debug status"@,
        Action::OpenInspect => "inspect image"@,
        Action::CloseInspect => "return to grid"@,
        Action::PreviousImage => "previous image"@,
        Action::NextImage => "next image"@,
        Action::ToggleFitHundred => "fit / 100%"@,
        Action::ZoomIn => "zoom in"@,
        Action::ZoomOut => "zoom out"@,
        Action::PanLeft => "pan left"@,
        Action::PanRight => "pan right"@,
        Action::PanUp => "pan up"@,
        Action::PanDown => "pan down"@,
        Action::CycleBackground => "transparency background"@,
        Action::ToggleMark => "mark / unmark image"@,
        Action::MarkRange => "mark anchored range"@,
        Action::ClearMarks => "clear all marks"@,
        Action::ToggleMarkedOnly => "show only marked"@,
        Action::ConfirmSelection => "confirm selection"@,
        Action::OpenCompare => "compare with candidates"@,
        Action::PromoteCandidate => "promote candidate"@,
        Action::SwitchComparePane => "switch active pane"@,
        Action::ToggleCompareSync => "synchronize views"@,
    }
}

/// The action of a configuration name, when one has it.
pub open spec fn action_named(name: Seq<char>) -> Option<Action> {
    if name == "quit"@ {
        Some(Action::Quit)
    } else if name == "search"@ {
        Some(Action::StartSearch)
    } else if name == "cancel"@ {
        Some(Action::CancelSearch)
    } else if name == "confirm"@ {
        Some(Action::CommitSearch)
    } else if name == "backspace"@ {
        Some(Action::DeleteSearchCharacter)
    } else if name == "thumbnail_larger"@ {
        Some(Action::ThumbnailLarger)
    } else if name == "thumbnail_smaller"@ {
        Some(Action::ThumbnailSmaller)
    } else if name == "thumbnail_reset"@ {
        Some(Action::ThumbnailReset)
    } else if name == "quality_1"@ {
        Some(Action::SetQuality(1))
    } else if name == "quality_2"@ {
        Some(Action::SetQuality(2))
    } else if name == "quality_3"@ {
        Some(Action::SetQuality(3))
    } else if name == "quality_4"@ {
        Some(Action::SetQuality(4))
    } else if name == "quality_5"@ {
        Some(Action::SetQuality(5))
    } else if name == "quality_6"@ {
        Some(Action::SetQuality(6))
    } else if name == "quality_7"@ {
        Some(Action::SetQuality(7))
    } else if name == "quality_8"@ {
        Some(Action::SetQuality(8))
    } else if name == "quality_9"@ {
        Some(Action::SetQuality(9))
    } else if name == "left"@ {
        Some(Action::MoveLeft)
    } else if name == "right"@ {
        Some(Action::MoveRight)
    } else if name == "up"@ {
        Some(Action::MoveUp)
    } else if name == "down"@ {
        Some(Action::MoveDown)
    } else if name == "page_up"@ {
        Some(Action::PageUp)
    } else if name == "page_down"@ {
        Some(Action::PageDown)
    } else if name == "first"@ {
        Some(Action::First)
    } else if name == "last"@ {
        Some(Action::Last)
    } else if name == "help"@ {
        Some(Action::ToggleHelp)
    } else if name == "debug"@ {
        Some(Action::ToggleDebug)
    } else if name == "inspect"@ {
        Some(Action::OpenInspect)
    } else if name == "close"@ {
        Some(Action::CloseInspect)
    } else if name == "previous"@ {
        Some(Action::PreviousImage)
    } else if name == "next"@ {
        Some(Action::NextImage)
    } else if name == "fit_100"@ {
        Some(Action::ToggleFitHundred)
    } else if name == "zoom_in"@ {
        Some(Action::ZoomIn)
    } else if name == "zoom_out"@ {
        Some(Action::ZoomOut)
    } else if name == "pan_left"@ {
        Some(Action::PanLeft)
    } else if name == "pan_right"@ {
        Some(Action::PanRight)
    } else if name == "pan_up"@ {
        Some(Action::PanUp)
    } else if name == "pan_down"@ {
        Some(Action::PanDown)
    } else if name == "background"@ {
        Some(Action::CycleBackground)
    } else if name == "toggle_mark"@ {
        Some(Action::ToggleMark)
    } else if name == "mark_range"@ {
        Some(Action::MarkRange)
    } else if name == "clear_marks"@ {
        Some(Action::ClearMarks)
    } else if name == "marked_only"@ {
        Some(Action::ToggleMarkedOnly)
    } else if name == "confirm_selection"@ {
        Some(Action::ConfirmSelection)
    } else if name == "compare"@ {
        Some(Action::OpenCompare)
    } else if name == "promote"@ {
        Some(Action::PromoteCandidate)
    } else if name == "switch_pane"@ {
        Some(Action::SwitchComparePane)
    } else if name == "sync"@ {
        Some(Action::ToggleCompareSync)
    } else {
        None
    }
}

/// The message for a name that no action has.
pub open spec fn unknown_action_message(name: Seq<char>) -> Seq<char> {
    "unknown action `"@ + name + "`"@
}

impl Action {
    /// The action of a configuration name.
    pub fn from_name(name: &str) -> (out: Result<Action, String>)
        ensures
            match out {
                Ok(action) => action_named(name@) == Some(action),
                Err(_) => action_named(name@) is None,
            },
            match out {
                Ok(action) => action_name(action) == Some(name@),
                Err(e) => (forall|a: Action| action_name(a) != Some(name@))
                    && e@ == unknown_action_message(name@),
            },
    {
        if str_is(name, "quit") {
            Ok(Action::Quit)
        } else if str_is(name, "search") {
            Ok(Action::StartSearch)
        } else if str_is(name, "cancel") {
            Ok(Action::CancelSearch)
        } else if str_is(name, "confirm") {
            Ok(Action::CommitSearch)
        } else if str_is(name, "backspace") {
            Ok(Action::DeleteSearchCharacter)
        } else if str_is(name, "thumbnail_larger") {
            Ok(Action::ThumbnailLarger)
        } else if str_is(name, "thumbnail_smaller") {
            Ok(Action::ThumbnailSmaller)
        } else if str_is(name, "thumbnail_reset") {
            Ok(Action::ThumbnailReset)
        } else if str_is(name, "quality_1") {
            Ok(Action::SetQuality(1))
        } else if str_is(name, "quality_2") {
            Ok(Action::SetQuality(2))
        } else if str_is(name, "quality_3") {
            Ok(Action::SetQuality(3))
        } else if str_is(name, "quality_4") {
            Ok(Action::SetQuality(4))
        } else if str_is(name, "quality_5") {
            Ok(Action::SetQuality(5))
        } else if str_is(name, "quality_6") {
            Ok(Action::SetQuality(6))
        } else if str_is(name, "quality_7") {
            Ok(Action::SetQuality(7))
        } else if str_is(name, "quality_8") {
            Ok(Action::SetQuality(8))
        } else if str_is(name, "quality_9") {
            Ok(Action::SetQuality(9))
        } else if str_is(name, "left") {
            Ok(Action::MoveLeft)
        } else if str_is(name, "right") {
            Ok(Action::MoveRight)
        } else if str_is(name, "up") {
            Ok(Action::MoveUp)
        } else if str_is(name, "down") {
            Ok(Action::MoveDown)
        } else if str_is(name, "page_up") {
            Ok(Action::PageUp)
        } else if str_is(name, "page_down") {
            Ok(Action::PageDown)
        } else if str_is(name, "first") {
            Ok(Action::First)
        } else if str_is(name, "last") {
            Ok(Action::Last)
        } else if str_is(name, "help") {
            Ok(Action::ToggleHelp)
        } else if str_is(name, "debug") {
            Ok(Action::ToggleDebug)
        } else if str_is(name, "inspect") {
            Ok(Action::OpenInspect)
        } else if str_is(name, "close") {
            Ok(Action::CloseInspect)
        } else if str_is(name, "previous") {
            Ok(Action::PreviousImage)
        } else if str_is(name, "next") {
            Ok(Action::NextImage)
        } else if str_is(name, "fit_100") {
            Ok(Action::ToggleFitHundred)
        } else if str_is(name, "zoom_in") {
            Ok(Action::ZoomIn)
        } else if str_is(name, "zoom_out") {
            Ok(Action::ZoomOut)
        } else if str_is(name, "pan_left") {
            Ok(Action::PanLeft)
        } else if str_is(name, "pan_right") {
            Ok(Action::PanRight)
        } else if str_is(name, "pan_up") {
            Ok(Action::PanUp)
        } else if str_is(name, "pan_down") {
            Ok(Action::PanDown)
        } else if str_is(name, "background") {
            Ok(Action::CycleBackground)
        } else if str_is(name, "toggle_mark") {
            Ok(Action::ToggleMark)
        } else if str_is(name, "mark_range") {
            Ok(Action::MarkRange)
        } else if str_is(name, "clear_marks") {
            Ok(Action::ClearMarks)
        } else if str_is(name, "marked_only") {
            Ok(Action::ToggleMarkedOnly)
        } else if str_is(name, "confirm_selection") {
            Ok(Action::ConfirmSelection)
        } else if str_is(name, "compare") {
            Ok(Action::OpenCompare)
        } else if str_is(name, "promote") {
            Ok(Action::PromoteCandidate)
        } else if str_is(name, "switch_pane") {
            Ok(Action::SwitchComparePane)
        } else if str_is(name, "sync") {
            Ok(Action::ToggleCompareSync)
        } else {
            let mut message = chars_of("unknown action `");
            let mut rest = chars_of(name);
            message.append(&mut rest);
            message.push('`');
            proof {
                assert forall|a: Action| action_name(a) != Some(name@) by {
                    match a {
                        Action::SetQuality(level) => {},
                        _ => {},
                    }
                }
                assert(message@ =~= unknown_action_message(name@)) by {
                    reveal_strlit("`");
                }
            }
            Err(string_of(message.as_slice()))
        }
    }

    /// The label shown for this action in help and status lines.
    pub fn label(self) -> (out: &'static str)
        ensures
            out@ == action_label(self),
    {
        match self {
            Action::Quit => "quit",
            Action::StartSearch => "search",
            Action::CancelSearch => "cancel",
            Action::CommitSearch => "confirm",
            Action::DeleteSearchCharacter => "delete character",
            Action::ThumbnailLarger => "larger thumbnails",
            Action::ThumbnailSmaller => "smaller thumbnails",
            Action::ThumbnailReset => "reset thumbnail size",
            Action::SetQuality(level) => if level == 1 {
                "quality 1"
            } else if level == 2 {
                "quality 2"
            } else if level == 3 {
                "quality 3"
            } else if level == 4 {
                "quality 4"
            } else if level == 5 {
                "quality 5"
            } else if level == 6 {
                "quality 6"
            } else if level == 7 {
                "quality 7"
            } else if level == 8 {
                "quality 8"
            } else if level == 9 {
                "quality 9"
            } else {
                "quality"
            },
            Action::MoveLeft => "move left",
            Action::MoveRight => "move right",
            Action::MoveUp => "move up",
            Action::MoveDown => "move down",
            Action::PageUp => "page up",
            Action::PageDown => "page down",
            Action::First => "first image",
            Action::Last => "last image",
            Action::ToggleHelp => "help",
            Action::ToggleDebug => "debug status",
            Action::OpenInspect => "inspect image",
            Action::CloseInspect => "return to grid",
            Action::PreviousImage => "previous image",
            Action::NextImage => "next image",
            Action::ToggleFitHundred => "fit / 100%",
            Action::ZoomIn => "zoom in",
            Action::ZoomOut => "zoom out",
            Action::PanLeft => "pan left",
            Action::PanRight => "pan right",
            Action::PanUp => "pan up",
            Action::PanDown => "pan down",
            Action::CycleBackground => "transparency background",
            Action::ToggleMark => "mark / unmark image",
            Action::MarkRange => "mark anchored range",
            Action::ClearMarks => "clear all marks",
            Action::ToggleMarkedOnly => "show only marked",
            Action::ConfirmSelection => "confirm selection",
            Action::OpenCompare => "compare with candidates",
            Action::PromoteCandidate => "promote candidate",
            Action::SwitchComparePane => "switch active pane",
            Action::ToggleCompareSync => "synchronize views",
        }
    }
}

/// A key as the browser distinguishes it; every other key of the terminal is `Other`.
#[derive(Clone, Copy, Debug, PartialEq, Eq, Hash, Structural)]
pub enum KeyCode {
    Char(char),
    Enter,
    Esc,
    Backspace,
    Left,
    Right,
    Up,
    Down,
    PageUp,
    PageDown,
    Home,
    End,
    Tab,
    F(u8),
    Other,
}

/// The modifier keys that take part in a binding.
#[derive(Clone, Copy, Debug, PartialEq, Eq, Hash, Structural)]
pub struct KeyModifiers {
    pub control: bool,
    pub alt: bool,
    pub shift: bool,
}

/// A key as the terminal reports it, with the modifiers that bindings consider.
#[derive(Clone, Copy, Debug, PartialEq, Eq, Hash, Structural)]
pub struct KeyEvent {
    pub code: KeyCode,
    pub modifiers: KeyModifiers,
}

/// A normalized key with modifiers: letters are lowercase with Shift recorded separately,
/// and symbols carry no Shift.
#[derive(Clone, Copy, Debug, PartialEq, Eq, Hash, Structural)]
pub struct KeyChord {
    pub code: KeyCode,
    pub modifiers: KeyModifiers,
}

/// No modifier held.
pub open spec fn no_modifiers() -> KeyModifiers {
    KeyModifiers { control: false, alt: false, shift: false }
}

/// An ASCII capital letter.
pub open spec fn is_ascii_upper(c: char) -> bool {
    'A' <= c <= 'Z'
}

/// An ASCII letter or digit.
pub open spec fn is_ascii_alphanumeric(c: char) -> bool {
    ('a' <= c <= 'z') || ('A' <= c <= 'Z') || ('0' <= c <= '9')
}

/// The chord a terminal key event stands for: capital letters become lowercase with Shift, and
/// Shift is dropped from every other non-alphanumeric character.
pub open spec fn chord_of_event(event: KeyEvent) -> KeyChord {
    let (code, shift) = match event.code {
        KeyCode::Char(c) => if is_ascii_upper(c) {
            (KeyCode::Char(ascii_lower(c)), true)
        } else {
            (event.code, event.modifiers.shift)
        },
        _ => (event.code, event.modifiers.shift),
    };
    let shift = match code {
        KeyCode::Char(c) => if is_ascii_alphanumeric(c) {
            shift
        } else {
            false
        },
        _ => shift,
    };
    KeyChord {
        code,
        modifiers: KeyModifiers {
            control: event.modifiers.control,
            alt: event.modifiers.alt,
            shift,
        },
    }
}

/// Ctrl+c alone, which always interrupts the browser and cannot be bound.
pub open spec fn is_emergency_chord(chord: KeyChord) -> bool {
    chord == KeyChord {
        code: KeyCode::Char('c'),
        modifiers: KeyModifiers { control: true, alt: false, shift: false },
    }
}

/// The text of a key code in bindings and help.
pub open spec fn code_text(code: KeyCode) -> Seq<char> {
    match code {
        KeyCode::Enter => "Enter"@,
        KeyCode::Esc => "Esc"@,
        KeyCode::Char(c) => if c == ' ' {
            "Space"@
        } else {
            seq![c]
        },
        KeyCode::Backspace => "Backspace"@,
        KeyCode::Left => "Left"@,
        KeyCode::Right => "Right"@,
        KeyCode::Up => "Up"@,
        KeyCode::Down => "Down"@,
        KeyCode::PageUp => "PageUp"@,
        KeyCode::PageDown => "PageDown"@,
        KeyCode::Home => "Home"@,
        KeyCode::End => "End"@,
        KeyCode::Tab => "Tab"@,
        KeyCode::F(n) => "F"@ + decimal(n as nat),
        KeyCode::Other => "unsupported"@,
    }
}

/// The text of a chord: `Ctrl+`, `Alt+` and `Shift+` in that order, then the key.
pub open spec fn chord_text(chord: KeyChord) -> Seq<char> {
    (if chord.modifiers.control { "Ctrl+"@ } else { Seq::empty() })
        + (if chord.modifiers.alt { "Alt+"@ } else { Seq::empty() })
        + (if chord.modifiers.shift { "Shift+"@ } else { Seq::empty() })
        + code_text(chord.code)
}

fn append_literal(out: &mut Vec<char>, literal: &str)
    ensures
        final(out)@ == old(out)@ + literal@,
{
    let mut tail = chars_of(literal);
    out.append(&mut tail);
}

impl KeyChord {
    /// The chord a terminal key event stands for.
    pub fn from_event(event: KeyEvent) -> (chord: KeyChord)
        ensures
            chord == chord_of_event(event),
    {
        let mut code = event.code;
        let mut shift = event.modifiers.shift;
        if let KeyCode::Char(c) = code {
            if 'A' <= c && c <= 'Z' {
                code = KeyCode::Char(ascii_lower_char(c));
                shift = true;
            }
        }
        if let KeyCode::Char(c) = code {
            if !(('a' <= c && c <= 'z') || ('A' <= c && c <= 'Z') || ('0' <= c && c <= '9')) {
                shift = false;
            }
        }
        KeyChord {
            code,
            modifiers: KeyModifiers {
                control: event.modifiers.control,
                alt: event.modifiers.alt,
                shift,
            },
        }
    }

    /// Whether this is Ctrl+c alone.
    pub fn is_emergency_interrupt(&self) -> (out: bool)
        ensures
            out == is_emergency_chord(*self),
    {
        match self.code {
            KeyCode::Char(c) => c == 'c' && self.modifiers.control && !self.modifiers.alt
                && !self.modifiers.shift,
            _ => false,
        }
    }

    /// The text of the chord, as bindings and help show it.
    pub fn text(&self) -> (out: String)
        ensures
            out@ == chord_text(*self),
    {
        let mut out: Vec<char> = Vec::new();
        if self.modifiers.control {
            append_literal(&mut out, "Ctrl+");
        }
        if self.modifiers.alt {
            append_literal(&mut out, "Alt+");
        }
        if self.modifiers.shift {
            append_literal(&mut out, "Shift+");
        }
        let ghost prefix = out@;
        match self.code {
            KeyCode::Enter => append_literal(&mut out, "Enter"),
            KeyCode::Esc => append_literal(&mut out, "Esc"),
            KeyCode::Char(c) => {
                if c == ' ' {
                    append_literal(&mut out, "Space");
                } else {
                    out.push(c);
                }
            },
            KeyCode::Backspace => append_literal(&mut out, "Backspace"),
            KeyCode::Left => append_literal(&mut out, "Left"),
            KeyCode::Right => append_literal(&mut out, "Right"),
            KeyCode::Up => append_literal(&mut out, "Up"),
            KeyCode::Down => append_literal(&mut out, "Down"),
            KeyCode::PageUp => append_literal(&mut out, "PageUp"),
            KeyCode::PageDown => append_literal(&mut out, "PageDown"),
            KeyCode::Home => append_literal(&mut out, "Home"),
            KeyCode::End => append_literal(&mut out, "End"),
            KeyCode::Tab => append_literal(&mut out, "Tab"),
            KeyCode::F(n) => {
                append_literal(&mut out, "F");
                let mut digits = decimal_chars(n as u128);
                out.append(&mut digits);
            },
            KeyCode::Other => append_literal(&mut out, "unsupported"),
        }
        proof {
            assert(out@ =~= chord_text(*self));
        }
        string_of(out.as_slice())
    }
}

/// The pieces of `s` between `+` signs, continuing a piece that already holds `current`.
pub open spec fn split_from(s: Seq<char>, current: Seq<char>) -> Seq<Seq<char>>
    decreases s.len(),
{
    if s.len() == 0 {
        seq![current]
    } else if s[0] == '+' {
        seq![current] + split_from(s.drop_first(), Seq::empty())
    } else {
        split_from(s.drop_first(), current.push(s[0]))
    }
}

/// The pieces of `s` between `+` signs (std's `split('+')`).
pub open spec fn split_plus(s: Seq<char>) -> Seq<Seq<char>> {
    split_from(s, Seq::empty())
}

/// One modifier key.
#[derive(Clone, Copy, Debug, PartialEq, Eq, Structural)]
pub enum Modifier {
    Control,
    Alt,
    Shift,
}

/// The modifier of a binding piece.
pub open spec fn modifier_named(name: Seq<char>) -> Option<Modifier> {
    if name == "Ctrl"@ {
        Some(Modifier::Control)
    } else if name == "Alt"@ {
        Some(Modifier::Alt)
    } else if name == "Shift"@ {
        Some(Modifier::Shift)
    } else {
        None
    }
}

/// Whether a modifier is held.
pub open spec fn holds(modifiers: KeyModifiers, m: Modifier) -> bool {
    match m {
        Modifier::Control => modifiers.control,
        Modifier::Alt => modifiers.alt,
        Modifier::Shift => modifiers.shift,
    }
}

/// The modifiers with one more held.
pub open spec fn with_modifier(modifiers: KeyModifiers, m: Modifier) -> KeyModifiers {
    match m {
        Modifier::Control => KeyModifiers { control: true, ..modifiers },
        Modifier::Alt => KeyModifiers { alt: true, ..modifiers },
        Modifier::Shift => KeyModifiers { shift: true, ..modifiers },
    }
}

/// `a`, then `b` between backquotes, then `c`, then `d` between backquotes.
pub open spec fn quoted_message(a: Seq<char>, b: Seq<char>, c: Seq<char>, d: Seq<char>) -> Seq<char> {
    a + "`"@ + b + "`"@ + c + "`"@ + d + "`"@
}

/// The modifiers named by the pieces before the key, read from the first, added to `held`;
/// an unknown or repeated modifier is an error that quotes the whole binding.
pub open spec fn read_modifiers(pieces: Seq<Seq<char>>, binding: Seq<char>, held: KeyModifiers)
    -> Result<KeyModifiers, Seq<char>>
    decreases pieces.len(),
{
    if pieces.len() == 0 {
        Ok(held)
    } else {
        match modifier_named(pieces[0]) {
            None => Err(quoted_message("unknown key modifier "@, pieces[0], " in "@, binding)),
            Some(m) => if holds(held, m) {
                Err(quoted_message("duplicate key modifier "@, pieces[0], " in "@, binding))
            } else {
                read_modifiers(pieces.drop_first(), binding, with_modifier(held, m))
            },
        }
    }
}

/// The key of a named key piece.
pub open spec fn named_code(name: Seq<char>) -> Option<KeyCode> {
    if name == "Enter"@ {
        Some(KeyCode::Enter)
    } else if name == "Esc"@ {
        Some(KeyCode::Esc)
    } else if name == "Space"@ {
        Some(KeyCode::Char(' '))
    } else if name == "Backspace"@ {
        Some(KeyCode::Backspace)
    } else if name == "Left"@ {
        Some(KeyCode::Left)
    } else if name == "Right"@ {
        Some(KeyCode::Right)
    } else if name == "Up"@ {
        Some(KeyCode::Up)
    } else if name == "Down"@ {
        Some(KeyCode::Down)
    } else if name == "PageUp"@ {
        Some(KeyCode::PageUp)
    } else if name == "PageDown"@ {
        Some(KeyCode::PageDown)
    } else if name == "Home"@ {
        Some(KeyCode::Home)
    } else if name == "End"@ {
        Some(KeyCode::End)
    } else if name == "Tab"@ {
        Some(KeyCode::Tab)
    } else if name == "F1"@ {
        Some(KeyCode::F(1))
    } else if name == "F2"@ {
        Some(KeyCode::F(2))
    } else if name == "F3"@ {
        Some(KeyCode::F(3))
    } else if name == "F4"@ {
        Some(KeyCode::F(4))
    } else if name == "F5"@ {
        Some(KeyCode::F(5))
    } else if name == "F6"@ {
        Some(KeyCode::F(6))
    } else if name == "F7"@ {
        Some(KeyCode::F(7))
    } else if name == "F8"@ {
        Some(KeyCode::F(8))
    } else if name == "F9"@ {
        Some(KeyCode::F(9))
    } else if name == "F10"@ {
        Some(KeyCode::F(10))
    } else if name == "F11"@ {
        Some(KeyCode::F(11))
    } else if name == "F12"@ {
        Some(KeyCode::F(12))
    } else {
        None
    }
}

/// A single character as a key: a capital letter becomes lowercase and adds Shift.
pub open spec fn character_chord(c: char, held: KeyModifiers) -> KeyChord {
    if is_ascii_upper(c) {
        KeyChord { code: KeyCode::Char(ascii_lower(c)), modifiers: KeyModifiers { shift: true, ..held } }
    } else {
        KeyChord { code: KeyCode::Char(c), modifiers: held }
    }
}

/// The message for the reserved interrupt chord.
pub open spec fn reserved_message() -> Seq<char> {
    "Ctrl+c is reserved for the emergency interrupt"@
}

/// The chord a binding text names: one character alone, or modifiers and a key joined by `+`.
pub open spec fn parse_chord(value: Seq<char>) -> Result<KeyChord, Seq<char>> {
    if value.len() == 1 {
        Ok(character_chord(value[0], no_modifiers()))
    } else {
        let pieces = split_plus(value);
        let key = pieces.last();
        if key.len() == 0 {
            Err("invalid key binding `"@ + value + "`"@)
        } else {
            match read_modifiers(pieces.drop_last(), value, no_modifiers()) {
                Err(e) => Err(e),
                Ok(held) => {
                    let chord = match named_code(key) {
                        Some(code) => Some(KeyChord { code, modifiers: held }),
                        None => if key.len() == 1 {
                            Some(character_chord(key[0], held))
                        } else {
                            None
                        },
                    };
                    match chord {
                        None => Err(quoted_message("unknown key code "@, key, " in "@, value)),
                        Some(chord) => if is_emergency_chord(chord) {
                            Err(reserved_message())
                        } else {
                            Ok(chord)
                        },
                    }
                },
            }
        }
    }
}

/// Whether a character slice equals a literal.
fn chars_are(chars: &[char], literal: &str) -> (eq: bool)
    ensures
        eq == (chars@ == literal@),
{
    let expected = chars_of(literal);
    chars_equal(chars, expected.as_slice())
}

fn split_on_plus(value: &[char]) -> (pieces: Vec<Vec<char>>)
    ensures
        pieces@.map_values(|p: Vec<char>| p@) == split_plus(value@),
{
    let mut pieces: Vec<Vec<char>> = Vec::new();
    let mut current: Vec<char> = Vec::new();
    let mut i: usize = 0;
    assert(value@.skip(0) =~= value@);
    assert(pieces@.map_values(|p: Vec<char>| p@) =~= Seq::<Seq<char>>::empty());
    assert(current@ =~= Seq::<char>::empty());
    while i < value.len()
        invariant
            i <= value@.len(),
            split_plus(value@) == pieces@.map_values(|p: Vec<char>| p@) + split_from(
                value@.skip(i as int),
                current@,
            ),
        decreases value.len() - i,
    {
        let ghost rest = value@.skip(i as int);
        assert(rest.drop_first() =~= value@.skip(i as int + 1));
        if value[i] == '+' {
            let ghost before = pieces@.map_values(|p: Vec<char>| p@);
            let done = current;
            current = Vec::new();
            pieces.push(done);
            assert(pieces@.map_values(|p: Vec<char>| p@) =~= before + seq![done@]);
            assert(current@ =~= Seq::<char>::empty());
        } else {
            current.push(value[i]);
        }
        i = i + 1;
    }
    let ghost before = pieces@.map_values(|p: Vec<char>| p@);
    assert(value@.skip(i as int) =~= Seq::<char>::empty());
    pieces.push(current);
    assert(pieces@.map_values(|p: Vec<char>| p@) =~= before + seq![pieces@.last()@]);
    pieces
}

fn modifier_of(name: &[char]) -> (out: Option<Modifier>)
    ensures
        out == modifier_named(name@),
{
    if chars_are(name, "Ctrl") {
        Some(Modifier::Control)
    } else if chars_are(name, "Alt") {
        Some(Modifier::Alt)
    } else if chars_are(name, "Shift") {
        Some(Modifier::Shift)
    } else {
        None
    }
}

fn code_named(name: &[char]) -> (out: Option<KeyCode>)
    ensures
        out == named_code(name@),
{
    if chars_are(name, "Enter") {
        Some(KeyCode::Enter)
    } else if chars_are(name, "Esc") {
        Some(KeyCode::Esc)
    } else if chars_are(name, "Space") {
        Some(KeyCode::Char(' '))
    } else if chars_are(name, "Backspace") {
        Some(KeyCode::Backspace)
    } else if chars_are(name, "Left") {
        Some(KeyCode::Left)
    } else if chars_are(name, "Right") {
        Some(KeyCode::Right)
    } else if chars_are(name, "Up") {
        Some(KeyCode::Up)
    } else if chars_are(name, "Down") {
        Some(KeyCode::Down)
    } else if chars_are(name, "PageUp") {
        Some(KeyCode::PageUp)
    } else if chars_are(name, "PageDown") {
        Some(KeyCode::PageDown)
    } else if chars_are(name, "Home") {
        Some(KeyCode::Home)
    } else if chars_are(name, "End") {
        Some(KeyCode::End)
    } else if chars_are(name, "Tab") {
        Some(KeyCode::Tab)
    } else if chars_are(name, "F1") {
        Some(KeyCode::F(1))
    } else if chars_are(name, "F2") {
        Some(KeyCode::F(2))
    } else if chars_are(name, "F3") {
        Some(KeyCode::F(3))
    } else if chars_are(name, "F4") {
        Some(KeyCode::F(4))
    } else if chars_are(name, "F5") {
        Some(KeyCode::F(5))
    } else if chars_are(name, "F6") {
        Some(KeyCode::F(6))
    } else if chars_are(name, "F7") {
        Some(KeyCode::F(7))
    } else if chars_are(name, "F8") {
        Some(KeyCode::F(8))
    } else if chars_are(name, "F9") {
        Some(KeyCode::F(9))
    } else if chars_are(name, "F10") {
        Some(KeyCode::F(10))
    } else if chars_are(name, "F11") {
        Some(KeyCode::F(11))
    } else if chars_are(name, "F12") {
        Some(KeyCode::F(12))
    } else {
        None
    }
}

fn chord_of_character(c: char, held: KeyModifiers) -> (chord: KeyChord)
    ensures
        chord == character_chord(c, held),
{
    if 'A' <= c && c <= 'Z' {
        KeyChord { code: KeyCode::Char(ascii_lower_char(c)), modifiers: KeyModifiers { shift: true, ..held } }
    } else {
        KeyChord { code: KeyCode::Char(c), modifiers: held }
    }
}

fn quoted(a: &str, b: &[char], c: &str, d: &[char]) -> (out: String)
    ensures
        out@ == quoted_message(a@, b@, c@, d@),
{
    let mut text = chars_of(a);
    text.push('`');
    text.extend_from_slice(b);
    text.push('`');
    append_literal(&mut text, c);
    text.push('`');
    text.extend_from_slice(d);
    text.push('`');
    proof {
        reveal_strlit("`");
        assert(text@ =~= quoted_message(a@, b@, c@, d@));
    }
    string_of(text.as_slice())
}

impl KeyChord {
    /// Parses a binding text such as `q`, `Space`, `Ctrl+s` or `Shift+F5`.
    pub fn parse(value: &str) -> (out: Result<KeyChord, String>)
        ensures
            match out {
                Ok(chord) => parse_chord(value@) == Ok::<KeyChord, Seq<char>>(chord),
                Err(e) => parse_chord(value@) == Err::<KeyChord, Seq<char>>(e@),
            },
    {
        let chars = chars_of(value);
        if chars.len() == 1 {
            return Ok(chord_of_character(chars[0], KeyModifiers { control: false, alt: false, shift: false }));
        }
        let mut pieces = split_on_plus(chars.as_slice());
        let ghost all = pieces@.map_values(|p: Vec<char>| p@);
        proof {
            assert(split_from(value@, Seq::empty()).len() > 0) by {
                lemma_split_nonempty(value@, Seq::empty());
            }
        }
        let key = pieces.pop().unwrap();
        assert(pieces@.map_values(|p: Vec<char>| p@) =~= all.drop_last());
        assert(key@ == all.last());
        assert(chars@ == value@);
        if key.len() == 0 {
            let mut text = chars_of("invalid key binding `");
            text.extend_from_slice(chars.as_slice());
            text.push('`');
            proof {
                reveal_strlit("`");
                assert(text@ =~= "invalid key binding `"@ + value@ + "`"@);
            }
            return Err(string_of(text.as_slice()));
        }
        let mut held = KeyModifiers { control: false, alt: false, shift: false };
        let mut i: usize = 0;
        assert(all.drop_last().skip(0) =~= all.drop_last());
        while i < pieces.len()
            invariant
                i <= pieces@.len(),
                pieces@.map_values(|p: Vec<char>| p@) == all.drop_last(),
                all == split_plus(value@),
                key@ == all.last(),
                key@.len() > 0,
                value@.len() != 1,
                chars@ == value@,
                read_modifiers(all.drop_last(), value@, no_modifiers())
                    == read_modifiers(all.drop_last().skip(i as int), value@, held),
            decreases pieces.len() - i,
        {
            let ghost rest = all.drop_last().skip(i as int);
            assert(rest[0] == pieces@[i as int]@);
            assert(rest.drop_first() =~= all.drop_last().skip(i as int + 1));
            let piece = pieces[i].as_slice();
            match modifier_of(piece) {
                None => {
                    assert(read_modifiers(rest, value@, held) is Err);
                    return Err(quoted("unknown key modifier ", piece, " in ", chars.as_slice()));
                },
                Some(m) => {
                    let already = match m {
                        Modifier::Control => held.control,
                        Modifier::Alt => held.alt,
                        Modifier::Shift => held.shift,
                    };
                    if already {
                        assert(read_modifiers(rest, value@, held) is Err);
                        return Err(quoted("duplicate key modifier ", piece, " in ", chars.as_slice()));
                    }
                    match m {
                        Modifier::Control => held.control = true,
                        Modifier::Alt => held.alt = true,
                        Modifier::Shift => held.shift = true,
                    }
                },
            }
            i = i + 1;
        }
        assert(all.drop_last().skip(i as int) =~= Seq::<Seq<char>>::empty());
        let chord = match code_named(key.as_slice()) {
            Some(code) => KeyChord { code, modifiers: held },
            None => {
                if key.len() == 1 {
                    chord_of_character(key[0], held)
                } else {
                    return Err(quoted("unknown key code ", key.as_slice(), " in ", chars.as_slice()));
                }
            },
        };
        if chord.is_emergency_interrupt() {
            return Err(owned("Ctrl+c is reserved for the emergency interrupt"));
        }
        Ok(chord)
    }
}

impl std::str::FromStr for KeyChord {
    type Err = String;

    fn from_str(value: &str) -> (out: Result<KeyChord, String>)
        ensures
            match out {
                Ok(chord) => parse_chord(value@) == Ok::<KeyChord, Seq<char>>(chord),
                Err(e) => parse_chord(value@) == Err::<KeyChord, Seq<char>>(e@),
            },
    {
        KeyChord::parse(value)
    }
}

proof fn lemma_split_nonempty(s: Seq<char>, current: Seq<char>)
    ensures
        split_from(s, current).len() > 0,
    decreases s.len(),
{
    if s.len() > 0 {
        lemma_split_nonempty(s.drop_first(), if s[0] == '+' { Seq::empty() } else { current.push(s[0]) });
    }
}

/// One binding: in `context`, `key` triggers `action`.
#[derive(Clone, Copy, Debug, PartialEq, Eq, Structural)]
pub struct Binding {
    pub context: ActionContext,
    pub key: KeyChord,
    pub action: Action,
}

/// Where a binding applies: its context and key.
pub open spec fn slot(b: Binding) -> (ActionContext, KeyChord) {
    (b.context, b.key)
}

/// The table that a list of bindings describes; a later binding of a slot wins.
pub open spec fn table_of(s: Seq<Binding>) -> Map<(ActionContext, KeyChord), Action>
    decreases s.len(),
{
    if s.len() == 0 {
        Map::empty()
    } else {
        table_of(s.drop_last()).insert(slot(s.last()), s.last().action)
    }
}

/// No slot is bound twice in the list.
pub open spec fn slots_distinct(s: Seq<Binding>) -> bool
    decreases s.len(),
{
    s.len() == 0 || (slots_distinct(s.drop_last()) && !table_of(s.drop_last()).contains_key(
        slot(s.last()),
    ))
}

proof fn lemma_table_prefix(s: Seq<Binding>, i: int)
    requires
        0 <= i < s.len(),
    ensures
        table_of(s.take(i + 1)) == table_of(s.take(i)).insert(slot(s[i]), s[i].action),
{
    assert(s.take(i + 1).drop_last() =~= s.take(i));
}

proof fn lemma_distinct_prefix(s: Seq<Binding>, i: int)
    requires
        slots_distinct(s),
        0 <= i <= s.len(),
    ensures
        slots_distinct(s.take(i)),
        i < s.len() ==> !table_of(s.take(i)).contains_key(slot(s[i])),
    decreases s.len(),
{
    if i == s.len() {
        assert(s.take(i) =~= s);
    } else if i == s.len() - 1 {
        assert(s.take(i) =~= s.drop_last());
    } else {
        lemma_distinct_prefix(s.drop_last(), i);
        assert(s.drop_last().take(i) =~= s.take(i));
    }
}

proof fn lemma_table_domain(s: Seq<Binding>, k: (ActionContext, KeyChord))
    ensures
        table_of(s).contains_key(k) <==> exists|i: int| 0 <= i < s.len() && slot(#[trigger] s[i]) == k,
    decreases s.len(),
{
    if s.len() > 0 {
        lemma_table_domain(s.drop_last(), k);
        if table_of(s).contains_key(k) && slot(s.last()) != k {
            let i = choose|i: int| 0 <= i < s.drop_last().len() && slot(#[trigger] s.drop_last()[i]) == k;
            assert(s[i] == s.drop_last()[i]);
        }
        if exists|i: int| 0 <= i < s.len() && slot(#[trigger] s[i]) == k {
            let i = choose|i: int| 0 <= i < s.len() && slot(#[trigger] s[i]) == k;
            if i < s.len() - 1 {
                assert(s.drop_last()[i] == s[i]);
            }
        }
    }
}

proof fn lemma_table_entry(s: Seq<Binding>, i: int)
    requires
        slots_distinct(s),
        0 <= i < s.len(),
    ensures
        table_of(s).contains_key(slot(s[i])),
        table_of(s)[slot(s[i])] == s[i].action,
    decreases s.len(),
{
    if i < s.len() - 1 {
        lemma_table_entry(s.drop_last(), i);
        assert(s.drop_last()[i] == s[i]);
    }
}

/// The table without the bindings of `action` in `context`.
pub open spec fn without_action(
    table: Map<(ActionContext, KeyChord), Action>,
    context: ActionContext,
    action: Action,
) -> Map<(ActionContext, KeyChord), Action> {
    Map::new(
        |k: (ActionContext, KeyChord)| table.contains_key(k) && !(k.0 == context && table[k] == action),
        |k: (ActionContext, KeyChord)| table[k],
    )
}

/// Binds `keys` to `action` in `context`, from the first key on, and stops at the first key
/// that is bound to another action there, reporting it and that action.
pub open spec fn assign_keys(
    table: Map<(ActionContext, KeyChord), Action>,
    context: ActionContext,
    action: Action,
    keys: Seq<KeyChord>,
) -> (Map<(ActionContext, KeyChord), Action>, Option<(KeyChord, Action)>)
    decreases keys.len(),
{
    if keys.len() == 0 {
        (table, None)
    } else {
        let k = keys[0];
        if table.contains_key((context, k)) && table[(context, k)] != action {
            (table, Some((k, table[(context, k)])))
        } else {
            assign_keys(table.insert((context, k), action), context, action, keys.drop_first())
        }
    }
}

/// The keys that `assign_keys` binds to `action` in `context`, in order: each key not bound
/// there yet, up to the first key bound to another action.
pub open spec fn assigned_keys(
    table: Map<(ActionContext, KeyChord), Action>,
    context: ActionContext,
    action: Action,
    keys: Seq<KeyChord>,
) -> Seq<KeyChord>
    decreases keys.len(),
{
    if keys.len() == 0 {
        Seq::empty()
    } else {
        let k = keys[0];
        if table.contains_key((context, k)) && table[(context, k)] != action {
            Seq::empty()
        } else if table.contains_key((context, k)) {
            assigned_keys(table, context, action, keys.drop_first())
        } else {
            seq![k] + assigned_keys(table.insert((context, k), action), context, action, keys.drop_first())
        }
    }
}

/// The chords of binding texts, or the error of the first that does not parse.
pub open spec fn parse_chords(texts: Seq<Seq<char>>) -> Result<Seq<KeyChord>, Seq<char>>
    decreases texts.len(),
{
    if texts.len() == 0 {
        Ok(Seq::empty())
    } else {
        match parse_chord(texts[0]) {
            Err(e) => Err(e),
            Ok(chord) => match parse_chords(texts.drop_first()) {
                Err(e) => Err(e),
                Ok(rest) => Ok(seq![chord] + rest),
            },
        }
    }
}

/// The message for a key that is already bound to another action.
pub open spec fn conflict_message(key: KeyChord, existing: Action, action: Action, context: ActionContext) -> Seq<char> {
    "key `"@ + chord_text(key) + "` is bound to both "@ + action_label(existing) + " and "@
        + action_label(action) + " in "@ + context_name(context)
}

/// A key with no modifier.
pub open spec fn plain_chord(code: KeyCode) -> KeyChord {
    KeyChord { code, modifiers: no_modifiers() }
}

/// A key with Ctrl alone.
pub open spec fn ctrl_chord(code: KeyCode) -> KeyChord {
    KeyChord { code, modifiers: KeyModifiers { control: true, alt: false, shift: false } }
}

fn plain(code: KeyCode) -> (chord: KeyChord)
    ensures
        chord == plain_chord(code),
{
    KeyChord { code, modifiers: KeyModifiers { control: false, alt: false, shift: false } }
}

fn with_control(code: KeyCode) -> (chord: KeyChord)
    ensures
        chord == ctrl_chord(code),
{
    KeyChord { code, modifiers: KeyModifiers { control: true, alt: false, shift: false } }
}

/// The first built-in bindings of the Normal context, added to `table`.
pub open spec fn built_in_normal_first(table: Map<(ActionContext, KeyChord), Action>) -> Map<(ActionContext, KeyChord), Action> {
    table
        .insert((ActionContext::Normal, plain_chord(KeyCode::Char('q'))), Action::Quit)
        .insert((ActionContext::Normal, plain_chord(KeyCode::Char('/'))), Action::StartSearch)
        .insert((ActionContext::Normal, plain_chord(KeyCode::Char('+'))), Action::ThumbnailLarger)
        .insert((ActionContext::Normal, plain_chord(KeyCode::Char('='))), Action::ThumbnailLarger)
        .insert((ActionContext::Normal, plain_chord(KeyCode::Char('-'))), Action::ThumbnailSmaller)
        .insert((ActionContext::Normal, plain_chord(KeyCode::Char('0'))), Action::ThumbnailReset)
        .insert((ActionContext::Normal, plain_chord(KeyCode::Char('1'))), Action::SetQuality(1))
        .insert((ActionContext::Normal, plain_chord(KeyCode::Char('2'))), Action::SetQuality(2))
        .insert((ActionContext::Normal, plain_chord(KeyCode::Char('3'))), Action::SetQuality(3))
        .insert((ActionContext::Normal, plain_chord(KeyCode::Char('4'))), Action::SetQuality(4))
        .insert((ActionContext::Normal, plain_chord(KeyCode::Char('5'))), Action::SetQuality(5))
        .insert((ActionContext::Normal, plain_chord(KeyCode::Char('6'))), Action::SetQuality(6))
        .insert((ActionContext::Normal, plain_chord(KeyCode::Char('7'))), Action::SetQuality(7))
        .insert((ActionContext::Normal, plain_chord(KeyCode::Char('8'))), Action::SetQuality(8))
        .insert((ActionContext::Normal, plain_chord(KeyCode::Char('9'))), Action::SetQuality(9))
}

/// The other built-in bindings of the Normal context, added to `table`.
pub open spec fn built_in_normal_rest(table: Map<(ActionContext, KeyChord), Action>) -> Map<(ActionContext, KeyChord), Action> {
    table
        .insert((ActionContext::Normal, plain_chord(KeyCode::Left)), Action::MoveLeft)
        .insert((ActionContext::Normal, plain_chord(KeyCode::Char('h'))), Action::MoveLeft)
        .insert((ActionContext::Normal, plain_chord(KeyCode::Right)), Action::MoveRight)
        .insert((ActionContext::Normal, plain_chord(KeyCode::Char('l'))), Action::MoveRight)
        .insert((ActionContext::Normal, plain_chord(KeyCode::Up)), Action::MoveUp)
        .insert((ActionContext::Normal, plain_chord(KeyCode::Char('k'))), Action::MoveUp)
        .insert((ActionContext::Normal, plain_chord(KeyCode::Down)), Action::MoveDown)
        .insert((ActionContext::Normal, plain_chord(KeyCode::Char('j'))), Action::MoveDown)
        .insert((ActionContext::Normal, plain_chord(KeyCode::PageUp)), Action::PageUp)
        .insert((ActionContext::Normal, plain_chord(KeyCode::PageDown)), Action::PageDown)
        .insert((ActionContext::Normal, plain_chord(KeyCode::Home)), Action::First)
        .insert((ActionContext::Normal, plain_chord(KeyCode::End)), Action::Last)
        .insert((ActionContext::Normal, plain_chord(KeyCode::Char('?'))), Action::ToggleHelp)
        .insert((ActionContext::Normal, plain_chord(KeyCode::F(12))), Action::ToggleDebug)
        .insert((ActionContext::Normal, plain_chord(KeyCode::Enter)), Action::OpenInspect)
        .insert((ActionContext::Normal, plain_chord(KeyCode::Char('c'))), Action::OpenCompare)
        .insert((ActionContext::Normal, plain_chord(KeyCode::Char(' '))), Action::ToggleMark)
        .insert((ActionContext::Normal, plain_chord(KeyCode::Char('v'))), Action::MarkRange)
        .insert((ActionContext::Normal, plain_chord(KeyCode::Char('u'))), Action::ClearMarks)
        .insert((ActionContext::Normal, plain_chord(KeyCode::Char('m'))), Action::ToggleMarkedOnly)
        .insert((ActionContext::Normal, ctrl_chord(KeyCode::Char('s'))), Action::ConfirmSelection)
}

/// The built-in bindings of the Normal context, added to `table`.
pub open spec fn built_in_normal(table: Map<(ActionContext, KeyChord), Action>) -> Map<(ActionContext, KeyChord), Action> {
    built_in_normal_rest(built_in_normal_first(table))
}

/// The built-in bindings of the Search context, added to `table`.
pub open spec fn built_in_search(table: Map<(ActionContext, KeyChord), Action>) -> Map<(ActionContext, KeyChord), Action> {
    table
        .insert((ActionContext::Search, plain_chord(KeyCode::Esc)), Action::CancelSearch)
        .insert((ActionContext::Search, plain_chord(KeyCode::Enter)), Action::CommitSearch)
        .insert((ActionContext::Search, plain_chord(KeyCode::Backspace)), Action::DeleteSearchCharacter)
}
/// The built-in bindings of the Inspect context, added to `table`.
pub open spec fn built_in_inspect(table: Map<(ActionContext, KeyChord), Action>) -> Map<(ActionContext, KeyChord), Action> {
    table
        .insert((ActionContext::Inspect, plain_chord(KeyCode::Char('q'))), Action::Quit)
        .insert((ActionContext::Inspect, plain_chord(KeyCode::Esc)), Action::CloseInspect)
        .insert((ActionContext::Inspect, plain_chord(KeyCode::Char('p'))), Action::PreviousImage)
        .insert((ActionContext::Inspect, plain_chord(KeyCode::Char('n'))), Action::NextImage)
        .insert((ActionContext::Inspect, plain_chord(KeyCode::Char('z'))), Action::ToggleFitHundred)
        .insert((ActionContext::Inspect, plain_chord(KeyCode::Char('+'))), Action::ZoomIn)
        .insert((ActionContext::Inspect, plain_chord(KeyCode::Char('-'))), Action::ZoomOut)
        .insert((ActionContext::Inspect, plain_chord(KeyCode::Left)), Action::PanLeft)
        .insert((ActionContext::Inspect, plain_chord(KeyCode::Char('h'))), Action::PanLeft)
        .insert((ActionContext::Inspect, plain_chord(KeyCode::Right)), Action::PanRight)
        .insert((ActionContext::Inspect, plain_chord(KeyCode::Char('l'))), Action::PanRight)
        .insert((ActionContext::Inspect, plain_chord(KeyCode::Up)), Action::PanUp)
        .insert((ActionContext::Inspect, plain_chord(KeyCode::Char('k'))), Action::PanUp)
        .insert((ActionContext::Inspect, plain_chord(KeyCode::Down)), Action::PanDown)
        .insert((ActionContext::Inspect, plain_chord(KeyCode::Char('j'))), Action::PanDown)
        .insert((ActionContext::Inspect, plain_chord(KeyCode::Char('b'))), Action::CycleBackground)
        .insert((ActionContext::Inspect, plain_chord(KeyCode::Char('?'))), Action::ToggleHelp)
        .insert((ActionContext::Inspect, plain_chord(KeyCode::F(12))), Action::ToggleDebug)
        .insert((ActionContext::Inspect, plain_chord(KeyCode::Char(' '))), Action::ToggleMark)
        .insert((ActionContext::Inspect, plain_chord(KeyCode::Char('v'))), Action::MarkRange)
        .insert((ActionContext::Inspect, plain_chord(KeyCode::Char('u'))), Action::ClearMarks)
        .insert((ActionContext::Inspect, plain_chord(KeyCode::Char('m'))), Action::ToggleMarkedOnly)
        .insert((ActionContext::Inspect, ctrl_chord(KeyCode::Char('s'))), Action::ConfirmSelection)
}
/// The built-in bindings of the Compare context, added to `table`.
pub open spec fn built_in_compare(table: Map<(ActionContext, KeyChord), Action>) -> Map<(ActionContext, KeyChord), Action> {
    table
        .insert((ActionContext::Compare, plain_chord(KeyCode::Char('q'))), Action::Quit)
        .insert((ActionContext::Compare, plain_chord(KeyCode::Esc)), Action::CloseInspect)
        .insert((ActionContext::Compare, plain_chord(KeyCode::Char('p'))), Action::PreviousImage)
        .insert((ActionContext::Compare, plain_chord(KeyCode::Char('n'))), Action::NextImage)
        .insert((ActionContext::Compare, plain_chord(KeyCode::Enter)), Action::PromoteCandidate)
        .insert((ActionContext::Compare, plain_chord(KeyCode::Tab)), Action::SwitchComparePane)
        .insert((ActionContext::Compare, plain_chord(KeyCode::Char('s'))), Action::ToggleCompareSync)
        .insert((ActionContext::Compare, plain_chord(KeyCode::Char('z'))), Action::ToggleFitHundred)
        .insert((ActionContext::Compare, plain_chord(KeyCode::Char('+'))), Action::ZoomIn)
        .insert((ActionContext::Compare, plain_chord(KeyCode::Char('-'))), Action::ZoomOut)
        .insert((ActionContext::Compare, plain_chord(KeyCode::Left)), Action::PanLeft)
        .insert((ActionContext::Compare, plain_chord(KeyCode::Char('h'))), Action::PanLeft)
        .insert((ActionContext::Compare, plain_chord(KeyCode::Right)), Action::PanRight)
        .insert((ActionContext::Compare, plain_chord(KeyCode::Char('l'))), Action::PanRight)
        .insert((ActionContext::Compare, plain_chord(KeyCode::Up)), Action::PanUp)
        .insert((ActionContext::Compare, plain_chord(KeyCode::Char('k'))), Action::PanUp)
        .insert((ActionContext::Compare, plain_chord(KeyCode::Down)), Action::PanDown)
        .insert((ActionContext::Compare, plain_chord(KeyCode::Char('j'))), Action::PanDown)
        .insert((ActionContext::Compare, plain_chord(KeyCode::Char('b'))), Action::CycleBackground)
        .insert((ActionContext::Compare, plain_chord(KeyCode::Char(' '))), Action::ToggleMark)
        .insert((ActionContext::Compare, plain_chord(KeyCode::Char('u'))), Action::ClearMarks)
        .insert((ActionContext::Compare, plain_chord(KeyCode::Char('m'))), Action::ToggleMarkedOnly)
        .insert((ActionContext::Compare, plain_chord(KeyCode::Char('?'))), Action::ToggleHelp)
        .insert((ActionContext::Compare, plain_chord(KeyCode::F(12))), Action::ToggleDebug)
        .insert((ActionContext::Compare, ctrl_chord(KeyCode::Char('s'))), Action::ConfirmSelection)
}

/// The built-in bindings of every context.
pub open spec fn built_in_table() -> Map<(ActionContext, KeyChord), Action> {
    built_in_compare(built_in_inspect(built_in_search(built_in_normal(Map::empty()))))
}

/// The keys of `action` in `context`, in the order of the list.
pub open spec fn keys_where(s: Seq<Binding>, context: ActionContext, action: Action) -> Seq<KeyChord>
    decreases s.len(),
{
    if s.len() == 0 {
        Seq::empty()
    } else {
        let b = s.last();
        keys_where(s.drop_last(), context, action) + (if b.context == context && b.action == action {
            seq![b.key]
        } else {
            Seq::empty()
        })
    }
}

/// The actions bound in `context`, each once, in the order of their first binding in the list.
pub open spec fn actions_where(s: Seq<Binding>, context: ActionContext) -> Seq<Action>
    decreases s.len(),
{
    if s.len() == 0 {
        Seq::empty()
    } else {
        let earlier = actions_where(s.drop_last(), context);
        let b = s.last();
        if b.context == context && !earlier.contains(b.action) {
            earlier.push(b.action)
        } else {
            earlier
        }
    }
}

proof fn lemma_keys_where(s: Seq<Binding>, context: ActionContext, action: Action)
    requires
        slots_distinct(s),
    ensures
        keys_where(s, context, action).no_duplicates(),
        forall|k: KeyChord| #[trigger] keys_where(s, context, action).contains(k) <==> (
            table_of(s).contains_key((context, k)) && table_of(s)[(context, k)] == action),
    decreases s.len(),
{
    if s.len() > 0 {
        let d = s.drop_last();
        let b = s.last();
        lemma_keys_where(d, context, action);
        let earlier = keys_where(d, context, action);
        let now = keys_where(s, context, action);
        if b.context == context && b.action == action {
            assert(now =~= earlier.push(b.key));
            assert(!earlier.contains(b.key));
            assert forall|k: KeyChord| #[trigger] now.contains(k) <==> (
                table_of(s).contains_key((context, k)) && table_of(s)[(context, k)] == action) by {
                if now.contains(k) && k != b.key {
                    let i = choose|i: int| 0 <= i < now.len() && now[i] == k;
                    assert(earlier[i] == k);
                }
                if earlier.contains(k) {
                    let i = choose|i: int| 0 <= i < earlier.len() && earlier[i] == k;
                    assert(now[i] == k);
                }
                if k == b.key {
                    assert(now[now.len() - 1] == k);
                }
            }
            assert forall|i: int, j: int| 0 <= i < j < now.len() implies now[i] != now[j] by {
                if j == now.len() - 1 {
                    assert(now[i] == earlier[i]);
                    assert(earlier[i] != b.key) by {
                        if earlier[i] == b.key {
                            assert(earlier.contains(b.key));
                        }
                    }
                } else {
                    assert(now[i] == earlier[i] && now[j] == earlier[j]);
                }
            }
        } else {
            assert(now =~= earlier);
        }
    }
}

proof fn lemma_actions_where(s: Seq<Binding>, context: ActionContext)
    ensures
        actions_where(s, context).no_duplicates(),
        forall|a: Action| #[trigger] actions_where(s, context).contains(a) <==> keys_where(
            s,
            context,
            a,
        ).len() > 0,
    decreases s.len(),
{
    if s.len() > 0 {
        let d = s.drop_last();
        let b = s.last();
        lemma_actions_where(d, context);
        let earlier = actions_where(d, context);
        let now = actions_where(s, context);
        if b.context == context && !earlier.contains(b.action) {
            assert forall|a: Action| #[trigger] now.contains(a) <==> keys_where(s, context, a).len() > 0 by {
                if now.contains(a) && a != b.action {
                    let i = choose|i: int| 0 <= i < now.len() && now[i] == a;
                    assert(earlier[i] == a);
                }
                if earlier.contains(a) {
                    let i = choose|i: int| 0 <= i < earlier.len() && earlier[i] == a;
                    assert(now[i] == a);
                }
                if a == b.action {
                    assert(now[now.len() - 1] == a);
                }
            }
            assert forall|i: int, j: int| 0 <= i < j < now.len() implies now[i] != now[j] by {
                if j == now.len() - 1 {
                    assert(now[i] == earlier[i]);
                } else {
                    assert(now[i] == earlier[i] && now[j] == earlier[j]);
                }
            }
        } else {
            assert forall|a: Action| #[trigger] now.contains(a) <==> keys_where(s, context, a).len() > 0 by {
                if b.context == context && a == b.action {
                    assert(earlier.contains(a));
                }
            }
        }
    }
}

/// Texts joined with a separator between consecutive ones.
pub open spec fn join(parts: Seq<Seq<char>>, separator: Seq<char>) -> Seq<char>
    decreases parts.len(),
{
    if parts.len() == 0 {
        Seq::empty()
    } else if parts.len() == 1 {
        parts[0]
    } else {
        join(parts.drop_last(), separator) + separator + parts.last()
    }
}

/// The sorted texts of some keys, joined with a separator.
pub open spec fn key_list(keys: Seq<KeyChord>, separator: Seq<char>) -> Seq<char> {
    join(keys.map_values(|k: KeyChord| chord_text(k)).sort_by(text_order()), separator)
}

/// A text padded with spaces on the right to at least `width` characters.
pub open spec fn pad_right(text: Seq<char>, width: nat) -> Seq<char> {
    if text.len() >= width {
        text
    } else {
        text + Seq::new((width - text.len()) as nat, |i: int| ' ')
    }
}

/// One help line: the keys, padded to 24 characters, a space and the action's label.
pub open spec fn help_line(keys: Seq<KeyChord>, action: Action) -> Seq<char> {
    pad_right(key_list(keys, ", "@), 24) + " "@ + action_label(action)
}

fn join_strings(parts: &Vec<String>, separator: &str) -> (out: String)
    ensures
        out@ == join(texts(parts@), separator@),
{
    let mut out: Vec<char> = Vec::new();
    let mut i: usize = 0;
    while i < parts.len()
        invariant
            i <= parts@.len(),
            out@ == join(texts(parts@).take(i as int), separator@),
        decreases parts.len() - i,
    {
        let ghost before = texts(parts@).take(i as int);
        let ghost next = texts(parts@).take(i as int + 1);
        assert(next.drop_last() =~= before);
        if i > 0 {
            append_literal(&mut out, separator);
        }
        let mut piece = chars_of(parts[i].as_str());
        out.append(&mut piece);
        proof {
            if i == 0 {
                assert(out@ =~= join(next, separator@));
            } else {
                assert(out@ =~= join(next, separator@));
            }
        }
        i = i + 1;
    }
    assert(texts(parts@).take(i as int) =~= texts(parts@));
    string_of(out.as_slice())
}

/// The bindings that `bind_built_in_normal_first` adds, in order.
pub open spec fn built_in_normal_first_list() -> Seq<Binding> {
    seq![
        Binding { context: ActionContext::Normal, key: plain_chord(KeyCode::Char('q')), action: Action::Quit },
        Binding { context: ActionContext::Normal, key: plain_chord(KeyCode::Char('/')), action: Action::StartSearch },
        Binding { context: ActionContext::Normal, key: plain_chord(KeyCode::Char('+')), action: Action::ThumbnailLarger },
        Binding { context: ActionContext::Normal, key: plain_chord(KeyCode::Char('=')), action: Action::ThumbnailLarger },
        Binding { context: ActionContext::Normal, key: plain_chord(KeyCode::Char('-')), action: Action::ThumbnailSmaller },
        Binding { context: ActionContext::Normal, key: plain_chord(KeyCode::Char('0')), action: Action::ThumbnailReset },
        Binding { context: ActionContext::Normal, key: plain_chord(KeyCode::Char('1')), action: Action::SetQuality(1) },
        Binding { context: ActionContext::Normal, key: plain_chord(KeyCode::Char('2')), action: Action::SetQuality(2) },
        Binding { context: ActionContext::Normal, key: plain_chord(KeyCode::Char('3')), action: Action::SetQuality(3) },
        Binding { context: ActionContext::Normal, key: plain_chord(KeyCode::Char('4')), action: Action::SetQuality(4) },
        Binding { context: ActionContext::Normal, key: plain_chord(KeyCode::Char('5')), action: Action::SetQuality(5) },
        Binding { context: ActionContext::Normal, key: plain_chord(KeyCode::Char('6')), action: Action::SetQuality(6) },
        Binding { context: ActionContext::Normal, key: plain_chord(KeyCode::Char('7')), action: Action::SetQuality(7) },
        Binding { context: ActionContext::Normal, key: plain_chord(KeyCode::Char('8')), action: Action::SetQuality(8) },
        Binding { context: ActionContext::Normal, key: plain_chord(KeyCode::Char('9')), action: Action::SetQuality(9) },
    ]
}

/// The bindings that `bind_built_in_normal_rest` adds, in order.
pub open spec fn built_in_normal_rest_list() -> Seq<Binding> {
    seq![
        Binding { context: ActionContext::Normal, key: plain_chord(KeyCode::Left), action: Action::MoveLeft },
        Binding { context: ActionContext::Normal, key: plain_chord(KeyCode::Char('h')), action: Action::MoveLeft },
        Binding { context: ActionContext::Normal, key: plain_chord(KeyCode::Right), action: Action::MoveRight },
        Binding { context: ActionContext::Normal, key: plain_chord(KeyCode::Char('l')), action: Action::MoveRight },
        Binding { context: ActionContext::Normal, key: plain_chord(KeyCode::Up), action: Action::MoveUp },
        Binding { context: ActionContext::Normal, key: plain_chord(KeyCode::Char('k')), action: Action::MoveUp },
        Binding { context: ActionContext::Normal, key: plain_chord(KeyCode::Down), action: Action::MoveDown },
        Binding { context: ActionContext::Normal, key: plain_chord(KeyCode::Char('j')), action: Action::MoveDown },
        Binding { context: ActionContext::Normal, key: plain_chord(KeyCode::PageUp), action: Action::PageUp },
        Binding { context: ActionContext::Normal, key: plain_chord(KeyCode::PageDown), action: Action::PageDown },
        Binding { context: ActionContext::Normal, key: plain_chord(KeyCode::Home), action: Action::First },
        Binding { context: ActionContext::Normal, key: plain_chord(KeyCode::End), action: Action::Last },
        Binding { context: ActionContext::Normal, key: plain_chord(KeyCode::Char('?')), action: Action::ToggleHelp },
        Binding { context: ActionContext::Normal, key: plain_chord(KeyCode::F(12)), action: Action::ToggleDebug },
        Binding { context: ActionContext::Normal, key: plain_chord(KeyCode::Enter), action: Action::OpenInspect },
        Binding { context: ActionContext::Normal, key: plain_chord(KeyCode::Char('c')), action: Action::OpenCompare },
        Binding { context: ActionContext::Normal, key: plain_chord(KeyCode::Char(' ')), action: Action::ToggleMark },
        Binding { context: ActionContext::Normal, key: plain_chord(KeyCode::Char('v')), action: Action::MarkRange },
        Binding { context: ActionContext::Normal, key: plain_chord(KeyCode::Char('u')), action: Action::ClearMarks },
        Binding { context: ActionContext::Normal, key: plain_chord(KeyCode::Char('m')), action: Action::ToggleMarkedOnly },
        Binding { context: ActionContext::Normal, key: ctrl_chord(KeyCode::Char('s')), action: Action::ConfirmSelection },
    ]
}

/// The bindings that `bind_built_in_search` adds, in order.
pub open spec fn built_in_search_list() -> Seq<Binding> {
    seq![
        Binding { context: ActionContext::Search, key: plain_chord(KeyCode::Esc), action: Action::CancelSearch },
        Binding { context: ActionContext::Search, key: plain_chord(KeyCode::Enter), action: Action::CommitSearch },
        Binding { context: ActionContext::Search, key: plain_chord(KeyCode::Backspace), action: Action::DeleteSearchCharacter },
    ]
}

/// The bindings that `bind_built_in_inspect` adds, in order.
pub open spec fn built_in_inspect_list() -> Seq<Binding> {
    seq![
        Binding { context: ActionContext::Inspect, key: plain_chord(KeyCode::Char('q')), action: Action::Quit },
        Binding { context: ActionContext::Inspect, key: plain_chord(KeyCode::Esc), action: Action::CloseInspect },
        Binding { context: ActionContext::Inspect, key: plain_chord(KeyCode::Char('p')), action: Action::PreviousImage },
        Binding { context: ActionContext::Inspect, key: plain_chord(KeyCode::Char('n')), action: Action::NextImage },
        Binding { context: ActionContext::Inspect, key: plain_chord(KeyCode::Char('z')), action: Action::ToggleFitHundred },
        Binding { context: ActionContext::Inspect, key: plain_chord(KeyCode::Char('+')), action: Action::ZoomIn },
        Binding { context: ActionContext::Inspect, key: plain_chord(KeyCode::Char('-')), action: Action::ZoomOut },
        Binding { context: ActionContext::Inspect, key: plain_chord(KeyCode::Left), action: Action::PanLeft },
        Binding { context: ActionContext::Inspect, key: plain_chord(KeyCode::Char('h')), action: Action::PanLeft },
        Binding { context: ActionContext::Inspect, key: plain_chord(KeyCode::Right), action: Action::PanRight },
        Binding { context: ActionContext::Inspect, key: plain_chord(KeyCode::Char('l')), action: Action::PanRight },
        Binding { context: ActionContext::Inspect, key: plain_chord(KeyCode::Up), action: Action::PanUp },
        Binding { context: ActionContext::Inspect, key: plain_chord(KeyCode::Char('k')), action: Action::PanUp },
        Binding { context: ActionContext::Inspect, key: plain_chord(KeyCode::Down), action: Action::PanDown },
        Binding { context: ActionContext::Inspect, key: plain_chord(KeyCode::Char('j')), action: Action::PanDown },
        Binding { context: ActionContext::Inspect, key: plain_chord(KeyCode::Char('b')), action: Action::CycleBackground },
        Binding { context: ActionContext::Inspect, key: plain_chord(KeyCode::Char('?')), action: Action::ToggleHelp },
        Binding { context: ActionContext::Inspect, key: plain_chord(KeyCode::F(12)), action: Action::ToggleDebug },
        Binding { context: ActionContext::Inspect, key: plain_chord(KeyCode::Char(' ')), action: Action::ToggleMark },
        Binding { context: ActionContext::Inspect, key: plain_chord(KeyCode::Char('v')), action: Action::MarkRange },
        Binding { context: ActionContext::Inspect, key: plain_chord(KeyCode::Char('u')), action: Action::ClearMarks },
        Binding { context: ActionContext::Inspect, key: plain_chord(KeyCode::Char('m')), action: Action::ToggleMarkedOnly },
        Binding { context: ActionContext::Inspect, key: ctrl_chord(KeyCode::Char('s')), action: Action::ConfirmSelection },
    ]
}

/// The bindings that `bind_built_in_compare` adds, in order.
pub open spec fn built_in_compare_list() -> Seq<Binding> {
    seq![
        Binding { context: ActionContext::Compare, key: plain_chord(KeyCode::Char('q')), action: Action::Quit },
        Binding { context: ActionContext::Compare, key: plain_chord(KeyCode::Esc), action: Action::CloseInspect },
        Binding { context: ActionContext::Compare, key: plain_chord(KeyCode::Char('p')), action: Action::PreviousImage },
        Binding { context: ActionContext::Compare, key: plain_chord(KeyCode::Char('n')), action: Action::NextImage },
        Binding { context: ActionContext::Compare, key: plain_chord(KeyCode::Enter), action: Action::PromoteCandidate },
        Binding { context: ActionContext::Compare, key: plain_chord(KeyCode::Tab), action: Action::SwitchComparePane },
        Binding { context: ActionContext::Compare, key: plain_chord(KeyCode::Char('s')), action: Action::ToggleCompareSync },
        Binding { context: ActionContext::Compare, key: plain_chord(KeyCode::Char('z')), action: Action::ToggleFitHundred },
        Binding { context: ActionContext::Compare, key: plain_chord(KeyCode::Char('+')), action: Action::ZoomIn },
        Binding { context: ActionContext::Compare, key: plain_chord(KeyCode::Char('-')), action: Action::ZoomOut },
        Binding { context: ActionContext::Compare, key: plain_chord(KeyCode::Left), action: Action::PanLeft },
        Binding { context: ActionContext::Compare, key: plain_chord(KeyCode::Char('h')), action: Action::PanLeft },
        Binding { context: ActionContext::Compare, key: plain_chord(KeyCode::Right), action: Action::PanRight },
        Binding { context: ActionContext::Compare, key: plain_chord(KeyCode::Char('l')), action: Action::PanRight },
        Binding { context: ActionContext::Compare, key: plain_chord(KeyCode::Up), action: Action::PanUp },
        Binding { context: ActionContext::Compare, key: plain_chord(KeyCode::Char('k')), action: Action::PanUp },
        Binding { context: ActionContext::Compare, key: plain_chord(KeyCode::Down), action: Action::PanDown },
        Binding { context: ActionContext::Compare, key: plain_chord(KeyCode::Char('j')), action: Action::PanDown },
        Binding { context: ActionContext::Compare, key: plain_chord(KeyCode::Char('b')), action: Action::CycleBackground },
        Binding { context: ActionContext::Compare, key: plain_chord(KeyCode::Char(' ')), action: Action::ToggleMark },
        Binding { context: ActionContext::Compare, key: plain_chord(KeyCode::Char('u')), action: Action::ClearMarks },
        Binding { context: ActionContext::Compare, key: plain_chord(KeyCode::Char('m')), action: Action::ToggleMarkedOnly },
        Binding { context: ActionContext::Compare, key: plain_chord(KeyCode::Char('?')), action: Action::ToggleHelp },
        Binding { context: ActionContext::Compare, key: plain_chord(KeyCode::F(12)), action: Action::ToggleDebug },
        Binding { context: ActionContext::Compare, key: ctrl_chord(KeyCode::Char('s')), action: Action::ConfirmSelection },
    ]
}

/// Every built-in binding, in the order the bindings are made.
pub open spec fn built_in_list() -> Seq<Binding> {
    built_in_normal_first_list() + built_in_normal_rest_list() + built_in_search_list()
        + built_in_inspect_list() + built_in_compare_list()
}

/// The key bindings of every context.
#[derive(Debug)]
pub struct Bindings {
    entries: Vec<Binding>,
}

impl Bindings {
    /// No slot is bound twice.
    pub closed spec fn wf(&self) -> bool {
        slots_distinct(self.entries@)
    }

    /// The action bound to each context and key.
    pub closed spec fn table(&self) -> Map<(ActionContext, KeyChord), Action> {
        table_of(self.entries@)
    }

    fn empty() -> (out: Bindings)
        ensures
            out.wf(),
            out.entries@ == Seq::<Binding>::empty(),
            out.table() == Map::<(ActionContext, KeyChord), Action>::empty(),
    {
        Bindings { entries: Vec::new() }
    }

    fn bind(&mut self, context: ActionContext, key: KeyChord, action: Action)
        requires
            old(self).wf(),
            !old(self).table().contains_key((context, key)),
        ensures
            final(self).wf(),
            final(self).table() == old(self).table().insert((context, key), action),
            final(self).entries@ == old(self).entries@.push(Binding { context, key, action }),
    {
        let ghost before = self.entries@;
        self.entries.push(Binding { context, key, action });
        assert(self.entries@.drop_last() =~= before);
    }

    #[verifier::spinoff_prover]
    #[verifier::rlimit(100)]
    fn bind_built_in_normal_first(&mut self)
        requires
            old(self).wf(),
            forall|k: KeyChord| !old(self).table().contains_key((ActionContext::Normal, k)),
        ensures
            final(self).entries@ == old(self).entries@ + built_in_normal_first_list(),
            final(self).wf(),
            final(self).table() == built_in_normal_first(old(self).table()),
    {
        self.bind(ActionContext::Normal, plain(KeyCode::Char('q')), Action::Quit);
        self.bind(ActionContext::Normal, plain(KeyCode::Char('/')), Action::StartSearch);
        self.bind(ActionContext::Normal, plain(KeyCode::Char('+')), Action::ThumbnailLarger);
        self.bind(ActionContext::Normal, plain(KeyCode::Char('=')), Action::ThumbnailLarger);
        self.bind(ActionContext::Normal, plain(KeyCode::Char('-')), Action::ThumbnailSmaller);
        self.bind(ActionContext::Normal, plain(KeyCode::Char('0')), Action::ThumbnailReset);
        self.bind(ActionContext::Normal, plain(KeyCode::Char('1')), Action::SetQuality(1));
        self.bind(ActionContext::Normal, plain(KeyCode::Char('2')), Action::SetQuality(2));
        self.bind(ActionContext::Normal, plain(KeyCode::Char('3')), Action::SetQuality(3));
        self.bind(ActionContext::Normal, plain(KeyCode::Char('4')), Action::SetQuality(4));
        self.bind(ActionContext::Normal, plain(KeyCode::Char('5')), Action::SetQuality(5));
        self.bind(ActionContext::Normal, plain(KeyCode::Char('6')), Action::SetQuality(6));
        self.bind(ActionContext::Normal, plain(KeyCode::Char('7')), Action::SetQuality(7));
        self.bind(ActionContext::Normal, plain(KeyCode::Char('8')), Action::SetQuality(8));
        self.bind(ActionContext::Normal, plain(KeyCode::Char('9')), Action::SetQuality(9));
        assert(self.entries@ =~= old(self).entries@ + built_in_normal_first_list());
    }

    #[verifier::spinoff_prover]
    #[verifier::rlimit(100)]
    fn bind_built_in_normal_rest(&mut self, Ghost(base): Ghost<Map<(ActionContext, KeyChord), Action>>)
        requires
            old(self).wf(),
            forall|k: KeyChord| !base.contains_key((ActionContext::Normal, k)),
            old(self).table() == built_in_normal_first(base),
        ensures
            final(self).entries@ == old(self).entries@ + built_in_normal_rest_list(),
            final(self).wf(),
            final(self).table() == built_in_normal_rest(old(self).table()),
    {
        self.bind(ActionContext::Normal, plain(KeyCode::Left), Action::MoveLeft);
        self.bind(ActionContext::Normal, plain(KeyCode::Char('h')), Action::MoveLeft);
        self.bind(ActionContext::Normal, plain(KeyCode::Right), Action::MoveRight);
        self.bind(ActionContext::Normal, plain(KeyCode::Char('l')), Action::MoveRight);
        self.bind(ActionContext::Normal, plain(KeyCode::Up), Action::MoveUp);
        self.bind(ActionContext::Normal, plain(KeyCode::Char('k')), Action::MoveUp);
        self.bind(ActionContext::Normal, plain(KeyCode::Down), Action::MoveDown);
        self.bind(ActionContext::Normal, plain(KeyCode::Char('j')), Action::MoveDown);
        self.bind(ActionContext::Normal, plain(KeyCode::PageUp), Action::PageUp);
        self.bind(ActionContext::Normal, plain(KeyCode::PageDown), Action::PageDown);
        self.bind(ActionContext::Normal, plain(KeyCode::Home), Action::First);
        self.bind(ActionContext::Normal, plain(KeyCode::End), Action::Last);
        self.bind(ActionContext::Normal, plain(KeyCode::Char('?')), Action::ToggleHelp);
        self.bind(ActionContext::Normal, plain(KeyCode::F(12)), Action::ToggleDebug);
        self.bind(ActionContext::Normal, plain(KeyCode::Enter), Action::OpenInspect);
        self.bind(ActionContext::Normal, plain(KeyCode::Char('c')), Action::OpenCompare);
        self.bind(ActionContext::Normal, plain(KeyCode::Char(' ')), Action::ToggleMark);
        self.bind(ActionContext::Normal, plain(KeyCode::Char('v')), Action::MarkRange);
        self.bind(ActionContext::Normal, plain(KeyCode::Char('u')), Action::ClearMarks);
        self.bind(ActionContext::Normal, plain(KeyCode::Char('m')), Action::ToggleMarkedOnly);
        self.bind(ActionContext::Normal, with_control(KeyCode::Char('s')), Action::ConfirmSelection);
        assert(self.entries@ =~= old(self).entries@ + built_in_normal_rest_list());
    }

    fn bind_built_in_normal(&mut self)
        requires
            old(self).wf(),
            forall|k: KeyChord| !old(self).table().contains_key((ActionContext::Normal, k)),
        ensures
            final(self).wf(),
            final(self).table() == built_in_normal(old(self).table()),
            final(self).entries@ == old(self).entries@ + built_in_normal_first_list() + built_in_normal_rest_list(),
    {
        let ghost base = self.table();
        self.bind_built_in_normal_first();
        self.bind_built_in_normal_rest(Ghost(base));
        assert(self.entries@ =~= old(self).entries@ + built_in_normal_first_list() + built_in_normal_rest_list());
    }

    #[verifier::spinoff_prover]
    #[verifier::rlimit(100)]
    fn bind_built_in_search(&mut self)
        requires
            old(self).wf(),
            forall|k: KeyChord| !old(self).table().contains_key((ActionContext::Search, k)),
        ensures
            final(self).entries@ == old(self).entries@ + built_in_search_list(),
            final(self).wf(),
            final(self).table() == built_in_search(old(self).table()),
    {
        self.bind(ActionContext::Search, plain(KeyCode::Esc), Action::CancelSearch);
        self.bind(ActionContext::Search, plain(KeyCode::Enter), Action::CommitSearch);
        self.bind(ActionContext::Search, plain(KeyCode::Backspace), Action::DeleteSearchCharacter);
        assert(self.entries@ =~= old(self).entries@ + built_in_search_list());
    }
    #[verifier::spinoff_prover]
    #[verifier::rlimit(100)]
    fn bind_built_in_inspect(&mut self)
        requires
            old(self).wf(),
            forall|k: KeyChord| !old(self).table().contains_key((ActionContext::Inspect, k)),
        ensures
            final(self).entries@ == old(self).entries@ + built_in_inspect_list(),
            final(self).wf(),
            final(self).table() == built_in_inspect(old(self).table()),
    {
        self.bind(ActionContext::Inspect, plain(KeyCode::Char('q')), Action::Quit);
        self.bind(ActionContext::Inspect, plain(KeyCode::Esc), Action::CloseInspect);
        self.bind(ActionContext::Inspect, plain(KeyCode::Char('p')), Action::PreviousImage);
        self.bind(ActionContext::Inspect, plain(KeyCode::Char('n')), Action::NextImage);
        self.bind(ActionContext::Inspect, plain(KeyCode::Char('z')), Action::ToggleFitHundred);
        self.bind(ActionContext::Inspect, plain(KeyCode::Char('+')), Action::ZoomIn);
        self.bind(ActionContext::Inspect, plain(KeyCode::Char('-')), Action::ZoomOut);
        self.bind(ActionContext::Inspect, plain(KeyCode::Left), Action::PanLeft);
        self.bind(ActionContext::Inspect, plain(KeyCode::Char('h')), Action::PanLeft);
        self.bind(ActionContext::Inspect, plain(KeyCode::Right), Action::PanRight);
        self.bind(ActionContext::Inspect, plain(KeyCode::Char('l')), Action::PanRight);
        self.bind(ActionContext::Inspect, plain(KeyCode::Up), Action::PanUp);
        self.bind(ActionContext::Inspect, plain(KeyCode::Char('k')), Action::PanUp);
        self.bind(ActionContext::Inspect, plain(KeyCode::Down), Action::PanDown);
        self.bind(ActionContext::Inspect, plain(KeyCode::Char('j')), Action::PanDown);
        self.bind(ActionContext::Inspect, plain(KeyCode::Char('b')), Action::CycleBackground);
        self.bind(ActionContext::Inspect, plain(KeyCode::Char('?')), Action::ToggleHelp);
        self.bind(ActionContext::Inspect, plain(KeyCode::F(12)), Action::ToggleDebug);
        self.bind(ActionContext::Inspect, plain(KeyCode::Char(' ')), Action::ToggleMark);
        self.bind(ActionContext::Inspect, plain(KeyCode::Char('v')), Action::MarkRange);
        self.bind(ActionContext::Inspect, plain(KeyCode::Char('u')), Action::ClearMarks);
        self.bind(ActionContext::Inspect, plain(KeyCode::Char('m')), Action::ToggleMarkedOnly);
        self.bind(ActionContext::Inspect, with_control(KeyCode::Char('s')), Action::ConfirmSelection);
        assert(self.entries@ =~= old(self).entries@ + built_in_inspect_list());
    }
    #[verifier::spinoff_prover]
    #[verifier::rlimit(100)]
    fn bind_built_in_compare(&mut self)
        requires
            old(self).wf(),
            forall|k: KeyChord| !old(self).table().contains_key((ActionContext::Compare, k)),
        ensures
            final(self).entries@ == old(self).entries@ + built_in_compare_list(),
            final(self).wf(),
            final(self).table() == built_in_compare(old(self).table()),
    {
        self.bind(ActionContext::Compare, plain(KeyCode::Char('q')), Action::Quit);
        self.bind(ActionContext::Compare, plain(KeyCode::Esc), Action::CloseInspect);
        self.bind(ActionContext::Compare, plain(KeyCode::Char('p')), Action::PreviousImage);
        self.bind(ActionContext::Compare, plain(KeyCode::Char('n')), Action::NextImage);
        self.bind(ActionContext::Compare, plain(KeyCode::Enter), Action::PromoteCandidate);
        self.bind(ActionContext::Compare, plain(KeyCode::Tab), Action::SwitchComparePane);
        self.bind(ActionContext::Compare, plain(KeyCode::Char('s')), Action::ToggleCompareSync);
        self.bind(ActionContext::Compare, plain(KeyCode::Char('z')), Action::ToggleFitHundred);
        self.bind(ActionContext::Compare, plain(KeyCode::Char('+')), Action::ZoomIn);
        self.bind(ActionContext::Compare, plain(KeyCode::Char('-')), Action::ZoomOut);
        self.bind(ActionContext::Compare, plain(KeyCode::Left), Action::PanLeft);
        self.bind(ActionContext::Compare, plain(KeyCode::Char('h')), Action::PanLeft);
        self.bind(ActionContext::Compare, plain(KeyCode::Right), Action::PanRight);
        self.bind(ActionContext::Compare, plain(KeyCode::Char('l')), Action::PanRight);
        self.bind(ActionContext::Compare, plain(KeyCode::Up), Action::PanUp);
        self.bind(ActionContext::Compare, plain(KeyCode::Char('k')), Action::PanUp);
        self.bind(ActionContext::Compare, plain(KeyCode::Down), Action::PanDown);
        self.bind(ActionContext::Compare, plain(KeyCode::Char('j')), Action::PanDown);
        self.bind(ActionContext::Compare, plain(KeyCode::Char('b')), Action::CycleBackground);
        self.bind(ActionContext::Compare, plain(KeyCode::Char(' ')), Action::ToggleMark);
        self.bind(ActionContext::Compare, plain(KeyCode::Char('u')), Action::ClearMarks);
        self.bind(ActionContext::Compare, plain(KeyCode::Char('m')), Action::ToggleMarkedOnly);
        self.bind(ActionContext::Compare, plain(KeyCode::Char('?')), Action::ToggleHelp);
        self.bind(ActionContext::Compare, plain(KeyCode::F(12)), Action::ToggleDebug);
        self.bind(ActionContext::Compare, with_control(KeyCode::Char('s')), Action::ConfirmSelection);
        assert(self.entries@ =~= old(self).entries@ + built_in_compare_list());
    }


    /// The built-in bindings. The keys of each action, as help lists them, come in the order of
    /// `built_in_list`.
    pub fn built_in() -> (bindings: Bindings)
        ensures
            bindings.wf(),
            bindings.table() == built_in_table(),
            forall|context: ActionContext, action: Action| #[trigger] bindings.keys_in(context, action)
                == keys_where(built_in_list(), context, action),
            forall|context: ActionContext| #[trigger] bindings.actions_in(context)
                == actions_where(built_in_list(), context),
    {
        let mut bindings = Bindings::empty();
        bindings.bind_built_in_normal();
        bindings.bind_built_in_search();
        bindings.bind_built_in_inspect();
        bindings.bind_built_in_compare();
        assert(bindings.entries@ =~= built_in_list());
        bindings
    }

    /// The action bound to `key` in `context`.
    pub fn lookup(&self, context: ActionContext, key: KeyChord) -> (out: Option<Action>)
        requires
            self.wf(),
        ensures
            out == (if self.table().contains_key((context, key)) {
                Some(self.table()[(context, key)])
            } else {
                None::<Action>
            }),
    {
        let mut i: usize = 0;
        while i < self.entries.len()
            invariant
                i <= self.entries@.len(),
                slots_distinct(self.entries@),
                forall|j: int| 0 <= j < i ==> slot(#[trigger] self.entries@[j]) != (context, key),
            decreases self.entries.len() - i,
        {
            let b = self.entries[i];
            if b.context == context && b.key == key {
                proof {
                    lemma_table_entry(self.entries@, i as int);
                }
                return Some(b.action);
            }
            i = i + 1;
        }
        proof {
            lemma_table_domain(self.entries@, (context, key));
        }
        None
    }

    /// The action a key event triggers in `context`.
    pub fn action(&self, context: ActionContext, event: KeyEvent) -> (out: Option<Action>)
        requires
            self.wf(),
        ensures
            ({
                let slot = (context, chord_of_event(event));
                out == (if self.table().contains_key(slot) {
                    Some(self.table()[slot])
                } else {
                    None::<Action>
                })
            }),
    {
        self.lookup(context, KeyChord::from_event(event))
    }

    fn remove_action(&mut self, context: ActionContext, action: Action)
        requires
            old(self).wf(),
        ensures
            final(self).wf(),
            final(self).table() == without_action(old(self).table(), context, action),
            forall|c: ActionContext, a: Action| #[trigger] keys_where(final(self).entries@, c, a)
                == (if c == context && a == action { Seq::empty() } else { keys_where(old(self).entries@, c, a) }),
    {
        let ghost all = self.entries@;
        let mut kept: Vec<Binding> = Vec::new();
        let mut i: usize = 0;
        proof {
            assert(all.take(0) =~= Seq::<Binding>::empty());
            assert(without_action(table_of(all.take(0)), context, action) =~= table_of(kept@));
        }
        while i < self.entries.len()
            invariant
                self.entries@ == all,
                slots_distinct(all),
                i <= all.len(),
                slots_distinct(kept@),
                table_of(kept@) == without_action(table_of(all.take(i as int)), context, action),
                forall|c: ActionContext, a: Action| #[trigger] keys_where(kept@, c, a)
                    == (if c == context && a == action { Seq::empty() } else { keys_where(all.take(i as int), c, a) }),
            decreases self.entries.len() - i,
        {
            let b = self.entries[i];
            assert(all.take(i as int + 1).drop_last() =~= all.take(i as int));
            assert(all.take(i as int + 1).last() == b);
            proof {
                lemma_distinct_prefix(all, i as int);
                lemma_table_prefix(all, i as int);
            }
            let ghost previous = table_of(all.take(i as int));
            if b.context == context && b.action == action {
                assert(without_action(previous.insert(slot(b), b.action), context, action)
                    =~= without_action(previous, context, action));
                assert forall|c: ActionContext, a: Action| #[trigger] keys_where(kept@, c, a)
                    == (if c == context && a == action { Seq::empty() } else { keys_where(all.take(i as int + 1), c, a) }) by {
                    assert(keys_where(all.take(i as int + 1), c, a) == keys_where(all.take(i as int), c, a) + (if b.context == c && b.action == a {
                        seq![b.key]
                    } else {
                        Seq::empty()
                    }));
                    if !(c == context && a == action) {
                        assert(keys_where(all.take(i as int), c, a) + Seq::<KeyChord>::empty() =~= keys_where(all.take(i as int), c, a));
                    }
                }
            } else {
                let ghost before = kept@;
                kept.push(b);
                assert(kept@.drop_last() =~= before);
                assert(without_action(previous.insert(slot(b), b.action), context, action)
                    =~= without_action(previous, context, action).insert(slot(b), b.action));
                assert forall|c: ActionContext, a: Action| #[trigger] keys_where(kept@, c, a)
                    == (if c == context && a == action { Seq::empty() } else { keys_where(all.take(i as int + 1), c, a) }) by {
                    assert(keys_where(kept@, c, a) == keys_where(before, c, a) + (if b.context == c && b.action == a {
                        seq![b.key]
                    } else {
                        Seq::empty()
                    }));
                    assert(keys_where(all.take(i as int + 1), c, a) == keys_where(all.take(i as int), c, a) + (if b.context == c && b.action == a {
                        seq![b.key]
                    } else {
                        Seq::empty()
                    }));
                    if c == context && a == action {
                        assert(keys_where(before, c, a) + Seq::<KeyChord>::empty() =~= Seq::<KeyChord>::empty());
                    }
                }
            }
            i = i + 1;
        }
        assert(all.take(i as int) =~= all);
        self.entries = kept;
    }

    /// Binds `keys` to `action` in `context` after dropping the keys it had there. A key text
    /// that does not parse fails first and changes nothing; a key bound to another action in
    /// the same context stops the replacement there with an error.
    pub fn replace_action(&mut self, context: ActionContext, action: Action, keys: &[&str]) -> (out: Result<(), String>)
        requires
            old(self).wf(),
        ensures
            final(self).wf(),
            match parse_chords(keys@.map_values(|k: &str| k@)) {
                Err(e) => final(self).table() == old(self).table() && out == Err::<(), String>(
                    out->Err_0,
                ) && out->Err_0@ == e && forall|c: ActionContext, a: Action| #[trigger] final(self).keys_in(c, a)
                    == old(self).keys_in(c, a),
                Ok(chords) => {
                    let (table, conflict) = assign_keys(
                        without_action(old(self).table(), context, action),
                        context,
                        action,
                        chords,
                    );
                    &&& final(self).table() == table
                    &&& final(self).keys_in(context, action) == assigned_keys(
                        without_action(old(self).table(), context, action),
                        context,
                        action,
                        chords,
                    )
                    &&& (forall|c: ActionContext, a: Action| !(c == context && a == action)
                        ==> #[trigger] final(self).keys_in(c, a) == old(self).keys_in(c, a))
                    &&& match conflict {
                        None => out is Ok,
                        Some((key, existing)) => out is Err && out->Err_0@ == conflict_message(
                            key,
                            existing,
                            action,
                            context,
                        ),
                    }
                },
            },
    {
        let ghost texts = keys@.map_values(|k: &str| k@);
        let mut chords: Vec<KeyChord> = Vec::new();
        let mut i: usize = 0;
        assert(texts.skip(0) =~= texts);
        assert(chords@ =~= Seq::<KeyChord>::empty());
        while i < keys.len()
            invariant
                i <= keys@.len(),
                *self == *old(self),
                self.wf(),
                texts == keys@.map_values(|k: &str| k@),
                parse_chords(texts) == (match parse_chords(texts.skip(i as int)) {
                    Err(e) => Err(e),
                    Ok(rest) => Ok(chords@ + rest),
                }),
            decreases keys.len() - i,
        {
            assert(texts.skip(i as int).drop_first() =~= texts.skip(i as int + 1));
            assert(texts.skip(i as int)[0] == keys@[i as int]@);
            match KeyChord::parse(keys[i]) {
                Err(e) => {
                    return Err(e);
                },
                Ok(chord) => {
                    let ghost before = chords@;
                    chords.push(chord);
                    proof {
                        match parse_chords(texts.skip(i as int + 1)) {
                            Err(e) => {},
                            Ok(rest) => {
                                assert(before + (seq![chord] + rest) =~= chords@ + rest);
                            },
                        }
                    }
                },
            }
            i = i + 1;
        }
        assert(texts.skip(i as int) =~= Seq::<Seq<char>>::empty());
        assert(chords@ + Seq::<KeyChord>::empty() =~= chords@);
        self.remove_action(context, action);
        let ghost start = self.table();
        let mut j: usize = 0;
        proof {
            assert(keys_where(self.entries@, context, action) == Seq::<KeyChord>::empty());
            assert(chords@.skip(0) =~= chords@);
            assert(Seq::<KeyChord>::empty() + assigned_keys(start, context, action, chords@)
                =~= assigned_keys(start, context, action, chords@));
        }
        assert(chords@.skip(0) =~= chords@);
        while j < chords.len()
            invariant
                self.wf(),
                j <= chords@.len(),
                texts == keys@.map_values(|k: &str| k@),
                parse_chords(texts) == Ok::<Seq<KeyChord>, Seq<char>>(chords@),
                start == without_action(old(self).table(), context, action),
                assign_keys(start, context, action, chords@) == assign_keys(
                    self.table(),
                    context,
                    action,
                    chords@.skip(j as int),
                ),
                assigned_keys(start, context, action, chords@) == keys_where(self.entries@, context, action)
                    + assigned_keys(self.table(), context, action, chords@.skip(j as int)),
                forall|c: ActionContext, a: Action| !(c == context && a == action) ==> #[trigger] keys_where(
                    self.entries@,
                    c,
                    a,
                ) == keys_where(old(self).entries@, c, a),
            decreases chords.len() - j,
        {
            assert(chords@.skip(j as int).drop_first() =~= chords@.skip(j as int + 1));
            let key = chords[j];
            match self.lookup(context, key) {
                Some(existing) => {
                    if existing != action {
                        let mut message = chars_of("key `");
                        let text = key.text();
                        let mut rest = chars_of(text.as_str());
                        message.append(&mut rest);
                        append_literal(&mut message, "` is bound to both ");
                        append_literal(&mut message, existing.label());
                        append_literal(&mut message, " and ");
                        append_literal(&mut message, action.label());
                        append_literal(&mut message, " in ");
                        append_literal(&mut message, context.name());
                        proof {
                            assert(message@ =~= conflict_message(key, existing, action, context));
                        }
                        proof {
                            assert(assigned_keys(self.table(), context, action, chords@.skip(j as int))
                                == Seq::<KeyChord>::empty());
                            assert(keys_where(self.entries@, context, action) + Seq::<KeyChord>::empty()
                                =~= keys_where(self.entries@, context, action));
                        }
                        return Err(string_of(message.as_slice()));
                    }
                    proof {
                        assert(self.table().insert((context, key), action) =~= self.table());
                        assert(assigned_keys(self.table(), context, action, chords@.skip(j as int))
                            == assigned_keys(self.table(), context, action, chords@.skip(j as int + 1)));
                    }
                },
                None => {
                    let ghost before = self.entries@;
                    let ghost table_before = self.table();
                    self.bind(context, key, action);
                    proof {
                        let b = Binding { context, key, action };
                        assert(self.entries@.drop_last() =~= before);
                        assert(assigned_keys(table_before, context, action, chords@.skip(j as int))
                            == seq![key] + assigned_keys(self.table(), context, action, chords@.skip(j as int + 1)));
                        assert(keys_where(self.entries@, context, action) == keys_where(before, context, action) + seq![key]);
                        assert(keys_where(before, context, action) + (seq![key] + assigned_keys(self.table(), context, action, chords@.skip(j as int + 1)))
                            =~= keys_where(self.entries@, context, action) + assigned_keys(self.table(), context, action, chords@.skip(j as int + 1)));
                        assert forall|c: ActionContext, a: Action| !(c == context && a == action) implies #[trigger] keys_where(
                            self.entries@,
                            c,
                            a,
                        ) == keys_where(old(self).entries@, c, a) by {
                            assert(keys_where(self.entries@, c, a) == keys_where(before, c, a) + Seq::<KeyChord>::empty());
                            assert(keys_where(before, c, a) + Seq::<KeyChord>::empty() =~= keys_where(before, c, a));
                        }
                    }
                },
            }
            j = j + 1;
        }
        assert(chords@.skip(j as int) =~= Seq::<KeyChord>::empty());
        assert(keys_where(self.entries@, context, action) + Seq::<KeyChord>::empty()
            =~= keys_where(self.entries@, context, action));
        Ok(())
    }

    /// The keys of `action` in `context`, each once.
    pub closed spec fn keys_in(&self, context: ActionContext, action: Action) -> Seq<KeyChord> {
        keys_where(self.entries@, context, action)
    }

    /// The actions bound in `context`, each once.
    pub closed spec fn actions_in(&self, context: ActionContext) -> Seq<Action> {
        actions_where(self.entries@, context)
    }

    /// `keys_in` holds each key bound to the action in the context exactly once, and
    /// `actions_in` each action that has such a key.
    pub proof fn lemma_listed(&self, context: ActionContext, action: Action)
        requires
            self.wf(),
        ensures
            self.keys_in(context, action).no_duplicates(),
            forall|k: KeyChord| #[trigger] self.keys_in(context, action).contains(k) <==> (
                self.table().contains_key((context, k)) && self.table()[(context, k)] == action),
            self.actions_in(context).no_duplicates(),
            forall|a: Action| #[trigger] self.actions_in(context).contains(a) <==> self.keys_in(context, a).len() > 0,
    {
        lemma_keys_where(self.entries@, context, action);
        lemma_actions_where(self.entries@, context);
        assert forall|a: Action| #[trigger] self.actions_in(context).contains(a) <==> self.keys_in(context, a).len() > 0 by {
        }
    }

    fn key_texts(&self, context: ActionContext, action: Action) -> (out: Vec<String>)
        ensures
            texts(out@) == self.keys_in(context, action).map_values(|k: KeyChord| chord_text(k)),
    {
        let mut out: Vec<String> = Vec::new();
        let mut i: usize = 0;
        assert(self.entries@.take(0) =~= Seq::<Binding>::empty());
        assert(texts(out@) =~= Seq::<Seq<char>>::empty());
        while i < self.entries.len()
            invariant
                i <= self.entries@.len(),
                texts(out@) == keys_where(self.entries@.take(i as int), context, action).map_values(
                    |k: KeyChord| chord_text(k),
                ),
            decreases self.entries.len() - i,
        {
            let b = self.entries[i];
            let ghost before = texts(out@);
            assert(self.entries@.take(i as int + 1).drop_last() =~= self.entries@.take(i as int));
            if b.context == context && b.action == action {
                let text = b.key.text();
                out.push(text);
                assert(texts(out@) =~= before.push(chord_text(b.key)));
            }
            assert(texts(out@) =~= keys_where(self.entries@.take(i as int + 1), context, action).map_values(
                |k: KeyChord| chord_text(k),
            ));
            i = i + 1;
        }
        assert(self.entries@.take(i as int) =~= self.entries@);
        out
    }

    /// The sorted texts of the keys of `action` in `context`, joined with `separator`.
    pub fn keys_joined(&self, context: ActionContext, action: Action, separator: &str) -> (out: String)
        ensures
            out@ == key_list(self.keys_in(context, action), separator@),
    {
        let found = self.key_texts(context, action);
        let sorted = sort_texts(found);
        join_strings(&sorted, separator)
    }

    /// The keys of `action` in `context`, sorted and joined with `/`, as status lines show them.
    pub fn keys_for(&self, context: ActionContext, action: Action) -> (out: String)
        ensures
            out@ == key_list(self.keys_in(context, action), "/"@),
    {
        self.keys_joined(context, action, "/")
    }

    /// One line per action bound in `context`, sorted: its keys padded to 24 characters, then
    /// its label.
    pub fn help_lines(&self, context: ActionContext) -> (out: Vec<String>)
        ensures
            texts(out@) == self.actions_in(context).map_values(
                |a: Action| help_line(self.keys_in(context, a), a),
            ).sort_by(text_order()),
    {
        let mut actions: Vec<Action> = Vec::new();
        let mut i: usize = 0;
        assert(self.entries@.take(0) =~= Seq::<Binding>::empty());
        while i < self.entries.len()
            invariant
                i <= self.entries@.len(),
                actions@ == actions_where(self.entries@.take(i as int), context),
            decreases self.entries.len() - i,
        {
            let b = self.entries[i];
            assert(self.entries@.take(i as int + 1).drop_last() =~= self.entries@.take(i as int));
            if b.context == context {
                let mut seen = false;
                let mut j: usize = 0;
                while j < actions.len()
                    invariant
                        j <= actions@.len(),
                        seen <==> exists|m: int| 0 <= m < j && actions@[m] == b.action,
                    decreases actions.len() - j,
                {
                    if actions[j] == b.action {
                        seen = true;
                    }
                    j = j + 1;
                }
                if !seen {
                    assert(!actions@.contains(b.action));
                    actions.push(b.action);
                }
            }
            i = i + 1;
        }
        assert(self.entries@.take(i as int) =~= self.entries@);
        let mut lines: Vec<String> = Vec::new();
        let mut k: usize = 0;
        while k < actions.len()
            invariant
                k <= actions@.len(),
                actions@ == self.actions_in(context),
                texts(lines@) == actions@.take(k as int).map_values(
                    |a: Action| help_line(self.keys_in(context, a), a),
                ),
            decreases actions.len() - k,
        {
            let action = actions[k];
            let keys = self.keys_joined(context, action, ", ");
            let mut line = chars_of(keys.as_str());
            while line.len() < 24
                invariant
                    line@.len() <= 24 ==> line@ == pad_right(keys@, line@.len() as nat),
                    line@.len() > 24 ==> line@ == keys@,
                    keys@.len() <= line@.len(),
                decreases 24 - line.len(),
            {
                line.push(' ');
                assert(line@ =~= pad_right(keys@, line@.len() as nat));
            }
            assert(line@ =~= pad_right(keys@, 24));
            line.push(' ');
            append_literal(&mut line, action.label());
            proof {
                reveal_strlit(" ");
                assert(line@ =~= help_line(self.keys_in(context, action), action));
            }
            let ghost before = texts(lines@);
            lines.push(string_of(line.as_slice()));
            assert(texts(lines@) =~= before.push(help_line(self.keys_in(context, action), action)));
            assert(actions@.take(k as int + 1) =~= actions@.take(k as int).push(action));
            k = k + 1;
        }
        assert(actions@.take(k as int) =~= actions@);
        sort_texts(lines)
    }
}

proof fn lemma_assign_keys_keeps(
    table: Map<(ActionContext, KeyChord), Action>,
    context: ActionContext,
    action: Action,
    keys: Seq<KeyChord>,
)
    ensures
        forall|k: (ActionContext, KeyChord)| #[trigger] table.contains_key(k) && (k.0 != context
            || table[k] != action) ==> assign_keys(table, context, action, keys).0.contains_key(k)
            && assign_keys(table, context, action, keys).0[k] == table[k],
        forall|k: (ActionContext, KeyChord)| #[trigger] assign_keys(table, context, action, keys).0.contains_key(k)
            ==> (table.contains_key(k) && assign_keys(table, context, action, keys).0[k] == table[k])
            || (k.0 == context && assign_keys(table, context, action, keys).0[k] == action),
    decreases keys.len(),
{
    if keys.len() > 0 {
        let k0 = keys[0];
        if !(table.contains_key((context, k0)) && table[(context, k0)] != action) {
            let next = table.insert((context, k0), action);
            lemma_assign_keys_keeps(next, context, action, keys.drop_first());
            assert forall|k: (ActionContext, KeyChord)| #[trigger] table.contains_key(k) && (k.0 != context
                || table[k] != action) implies next.contains_key(k) && next[k] == table[k] && (k.0 != context
                || next[k] != action) by {
                if k == (context, k0) {
                    assert(table[(context, k0)] == action);
                }
            }
        }
    }
}

/// Replacing the keys of an action in a context leaves every binding of another action, and
/// every binding in another context, as it was; what it adds binds the action in that context.
pub proof fn law_replacing_keeps_other_bindings(
    table: Map<(ActionContext, KeyChord), Action>,
    context: ActionContext,
    action: Action,
    keys: Seq<KeyChord>,
)
    ensures
        forall|k: (ActionContext, KeyChord)| #[trigger] table.contains_key(k) && (k.0 != context
            || table[k] != action) ==> assign_keys(without_action(table, context, action), context, action, keys).0.contains_key(k)
            && assign_keys(without_action(table, context, action), context, action, keys).0[k] == table[k],
        forall|k: (ActionContext, KeyChord)| #[trigger] assign_keys(without_action(table, context, action), context, action, keys).0.contains_key(k)
            ==> (table.contains_key(k) && !(k.0 == context && table[k] == action) && assign_keys(without_action(table, context, action), context, action, keys).0[k] == table[k])
            || (k.0 == context && assign_keys(without_action(table, context, action), context, action, keys).0[k] == action),
{
    let base = without_action(table, context, action);
    lemma_assign_keys_keeps(base, context, action, keys);
    assert forall|k: (ActionContext, KeyChord)| #[trigger] table.contains_key(k) && (k.0 != context
        || table[k] != action) implies base.contains_key(k) && base[k] == table[k] by {}
}

/// No binding text names the emergency interrupt: Ctrl+c alone can never be bound.
pub proof fn law_interrupt_cannot_be_bound(value: Seq<char>)
    ensures
        parse_chord(value) matches Ok(chord) ==> !is_emergency_chord(chord),
{
}

} // verus!
