//! Messages from keys, menus, drops and pickers.
use vstd::prelude::*;

use crate::app::ContextPage;
use crate::app::Event;
use crate::app::MenuAction;
use crate::app::Message;
use crate::text;

verus! {

/// A key, as far as shortcuts tell keys apart.
#[derive(Debug)]
pub enum Key {
    Character(String),
    Delete,
    Backspace,
    Escape,
    Other,
}

/// The modifier keys that are held.
#[derive(Debug, Clone, Copy)]
pub struct Modifiers {
    pub control: bool,
    pub logo: bool,
    pub alt: bool,
    pub shift: bool,
}

/// What a window reports.
#[derive(Debug)]
pub enum InputEvent {
    KeyPressed(Key, Modifiers),
    FilesDropped(Vec<String>),
    FileHovered,
    FilesHoveredLeft,
    Other,
}

/// The message of a drop or a hover.
pub open spec fn dropped(event: InputEvent) -> Option<Event> {
    match event {
        InputEvent::FilesDropped(paths) => Some(Event::FilesDropped(paths.deep_view())),
        InputEvent::FileHovered => Some(Event::FilesHovered),
        InputEvent::FilesHoveredLeft => Some(Event::FilesHoverLeft),
        _ => None,
    }
}

/// The message of a letter pressed with control alone.
pub open spec fn control_key(letter: Seq<char>) -> Option<Event> {
    let low = text::lower(letter);
    if low == "a"@ {
        Some(Event::SelectAllFiles)
    } else if low == "d"@ {
        Some(Event::DeselectAllFiles)
    } else if low == "o"@ {
        Some(Event::OpenFiles)
    } else if low == "r"@ {
        Some(Event::RetryFailed)
    } else {
        None
    }
}

/// The message of a key: control and a letter, or a key alone.
pub open spec fn pressed(key: Key, held: Modifiers) -> Option<Event> {
    if held.control && !held.logo && !held.alt && !held.shift {
        match key {
            Key::Character(c) => control_key(c@),
            _ => None,
        }
    } else if held.control || held.logo || held.alt || held.shift {
        None
    } else {
        match key {
            Key::Delete => Some(Event::RemoveSelectedFiles),
            Key::Backspace => Some(Event::RemoveSelectedFiles),
            Key::Escape => Some(Event::DeselectAllFiles),
            _ => None,
        }
    }
}

/// The message of an event that no widget has used up.
pub open spec fn shortcut(event: InputEvent, ignored: bool) -> Option<Event> {
    if !ignored {
        None
    } else {
        match event {
            InputEvent::KeyPressed(key, held) => pressed(key, held),
            _ => None,
        }
    }
}

/// Drops and hovers as messages.
pub fn event_mapper(event: InputEvent) -> (r: Option<Message>)
    ensures
        r.deep_view() == dropped(event),
{
    match event {
        InputEvent::FilesDropped(paths) => Some(Message::FilesDropped(paths)),
        InputEvent::FileHovered => Some(Message::FilesHovered),
        InputEvent::FilesHoveredLeft => Some(Message::FilesHoverLeft),
        _ => None,
    }
}

/// Keyboard shortcuts for queue management. Events that a focused widget has
/// handled are left alone.
pub fn shortcut_mapper(event: InputEvent, ignored: bool) -> (r: Option<Message>)
    ensures
        r.deep_view() == shortcut(event, ignored),
{
    if !ignored {
        return None;
    }
    match event {
        InputEvent::KeyPressed(key, held) => {
            if held.control && !held.logo && !held.alt && !held.shift {
                return match key {
                    Key::Character(c) => {
                        let low = text::to_lower(c.as_str());
                        if text::same(low.as_str(), "a") {
                            Some(Message::SelectAllFiles)
                        } else if text::same(low.as_str(), "d") {
                            Some(Message::DeselectAllFiles)
                        } else if text::same(low.as_str(), "o") {
                            Some(Message::OpenFiles)
                        } else if text::same(low.as_str(), "r") {
                            Some(Message::RetryFailed)
                        } else {
                            None
                        }
                    },
                    _ => None,
                };
            }
            if held.control || held.logo || held.alt || held.shift {
                return None;
            }
            match key {
                Key::Delete | Key::Backspace => Some(Message::RemoveSelectedFiles),
                Key::Escape => Some(Message::DeselectAllFiles),
                _ => None,
            }
        },
        _ => None,
    }
}

// ---------------------------------------------------------------------------
// Menus
// ---------------------------------------------------------------------------

/// The message of a menu entry.
pub open spec fn menu_event(action: MenuAction) -> Event {
    match action {
        MenuAction::About => Event::ToggleContextPage(ContextPage::About),
        MenuAction::Settings => Event::ToggleContextPage(ContextPage::Settings),
        MenuAction::OpenFiles => Event::OpenFiles,
        MenuAction::SelectAll => Event::SelectAllFiles,
        MenuAction::DeselectAll => Event::DeselectAllFiles,
        MenuAction::RetryFailed => Event::RetryFailed,
    }
}

impl MenuAction {
    /// The message of a menu entry.
    pub fn message(&self) -> (r: Message)
        ensures
            r.deep_view() == menu_event(*self),
    {
        match self {
            MenuAction::About => Message::ToggleContextPage(ContextPage::About),
            MenuAction::Settings => Message::ToggleContextPage(ContextPage::Settings),
            MenuAction::OpenFiles => Message::OpenFiles,
            MenuAction::SelectAll => Message::SelectAllFiles,
            MenuAction::DeselectAll => Message::DeselectAllFiles,
            MenuAction::RetryFailed => Message::RetryFailed,
        }
    }
}

/// The letters that stand for menu entries when pressed with control.
pub open spec fn key_binds() -> Seq<(char, MenuAction)> {
    seq![
        ('o', MenuAction::OpenFiles),
        ('a', MenuAction::SelectAll),
        ('d', MenuAction::DeselectAll),
        ('r', MenuAction::RetryFailed),
    ]
}

/// Canonical key bindings shown in the menu bar: control and a letter.
pub fn app_key_binds() -> (r: Vec<(char, MenuAction)>)
    ensures
        r@ == key_binds(),
{
    vec![
        ('o', MenuAction::OpenFiles),
        ('a', MenuAction::SelectAll),
        ('d', MenuAction::DeselectAll),
        ('r', MenuAction::RetryFailed),
    ]
}

/// The key bindings that the menu shows do what the menu entries do.
pub proof fn law_key_binds_in_sync(i: int, key: Key)
    requires
        0 <= i < key_binds().len(),
        key matches Key::Character(c) && c@ == seq![key_binds()[i].0],
    ensures
        shortcut(
            InputEvent::KeyPressed(
                key,
                Modifiers { control: true, logo: false, alt: false, shift: false },
            ),
            true,
        ) == Some(menu_event(key_binds()[i].1)),
{
    reveal_strlit("a");
    reveal_strlit("d");
    reveal_strlit("o");
    reveal_strlit("r");
    let c = key_binds()[i].0;
    assert(text::lower(seq![c]) =~= seq![c]);
    assert("a"@ =~= seq!['a']);
    assert("d"@ =~= seq!['d']);
    assert("o"@ =~= seq!['o']);
    assert("r"@ =~= seq!['r']);
    assert(seq![c][0] == c);
    assert(seq!['a'][0] == 'a');
    assert(seq!['d'][0] == 'd');
    assert(seq!['o'][0] == 'o');
    assert(seq!['r'][0] == 'r');
}

// ---------------------------------------------------------------------------
// Pickers
// ---------------------------------------------------------------------------

/// What a picker is for.
#[derive(Debug, Clone, Copy)]
pub enum Picker {
    Files,
    Folder,
    OutputDir,
}

/// What a picker answers.
#[derive(Debug)]
pub enum Picked {
    /// The local paths among what was chosen.
    Chosen(Vec<String>),
    Cancelled,
    Failed(String),
}

/// The message of a picker's answer.
pub open spec fn picked(picker: Picker, answer: Picked) -> Event {
    match answer {
        Picked::Chosen(paths) => match picker {
            Picker::OutputDir => if paths@.len() > 0 {
                Event::OutputDirChosen(paths@[0]@)
            } else {
                Event::DialogError("The chosen folder is not a local path."@)
            },
            _ => Event::FilesChosen(paths.deep_view()),
        },
        Picked::Cancelled => Event::DismissWarning,
        Picked::Failed(why) => match picker {
            Picker::Files => Event::DialogError("Could not open file picker: "@ + why@),
            _ => Event::DialogError("Could not open folder picker: "@ + why@),
        },
    }
}

/// The message of a picker's answer.
pub fn picker_answer(picker: Picker, answer: Picked) -> (r: Message)
    ensures
        r.deep_view() == picked(picker, answer),
{
    match answer {
        Picked::Chosen(paths) => match picker {
            Picker::OutputDir => if paths.len() > 0 {
                Message::OutputDirChosen(paths[0].clone())
            } else {
                Message::DialogError("The chosen folder is not a local path.".to_owned())
            },
            _ => Message::FilesChosen(paths),
        },
        Picked::Cancelled => Message::DismissWarning,
        Picked::Failed(why) => match picker {
            Picker::Files => Message::DialogError(
                text::cat("Could not open file picker: ", why.as_str()),
            ),
            _ => Message::DialogError(text::cat("Could not open folder picker: ", why.as_str())),
        },
    }
}

} // verus!
