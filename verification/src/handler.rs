//! What the picker does when a key is pressed.

use vstd::prelude::*;
use crate::app::{App, AppView};

verus! {

/// The modifier keys that were held down while a key was pressed.
#[derive(Clone, Copy, Debug, PartialEq, Eq, Structural)]
pub struct Modifiers {
    pub shift: bool,
    pub control: bool,
    pub alt: bool,
    pub logo: bool,
    pub hyper: bool,
    pub meta: bool,
}

impl Modifiers {
    /// Whether control was held down, and nothing else.
    pub open spec fn only_control(self) -> bool {
        self.control && !self.shift && !self.alt && !self.logo && !self.hyper && !self.meta
    }

    /// Whether alt was held down, and nothing else.
    pub open spec fn only_alt(self) -> bool {
        self.alt && !self.shift && !self.control && !self.logo && !self.hyper && !self.meta
    }

    /// Whether control was held down, and nothing else.
    pub fn is_only_control(&self) -> (only: bool)
        ensures
            only == self.only_control(),
    {
        self.control && !self.shift && !self.alt && !self.logo && !self.hyper && !self.meta
    }

    /// Whether alt was held down, and nothing else.
    pub fn is_only_alt(&self) -> (only: bool)
        ensures
            only == self.only_alt(),
    {
        self.alt && !self.shift && !self.control && !self.logo && !self.hyper && !self.meta
    }
}

/// A key, as far as the picker tells keys apart.
#[derive(Clone, Copy, Debug, PartialEq, Eq, Structural)]
pub enum Key {
    Char(char),
    Esc,
    Backspace,
    Enter,
    Other,
}

/// What a key asks the picker to do.
#[derive(Clone, Copy, Debug, PartialEq, Eq, Structural)]
pub enum Command {
    /// Leave without a choice.
    Quit,
    /// Go up one in the list.
    Up,
    /// Go down one in the list.
    Down,
    /// Empty the prompt.
    ClearSearch,
    /// Enable or disable the preview.
    TogglePreview,
    /// Add a character to the prompt.
    Push(char),
    /// Take the last character off the prompt.
    Pop,
    /// Leave with the selected project.
    Pick,
    /// Nothing.
    Nothing,
}

/// What is to be written out once a key was handled.
#[derive(Debug)]
pub enum Output {
    /// Nothing.
    Nothing,
    /// The directory in which the picker was started.
    WorkingDirectory(String),
    /// The path of the project that was picked.
    Path(String),
}

/// What pressing `key` with `modifiers` asks for: control-c and escape
/// leave, control-k and control-j go up and down, control-u empties the
/// prompt, alt-p turns the preview on and off, enter picks; every other
/// character is typed into the prompt, and backspace takes one off it.
pub open spec fn command_for(modifiers: Modifiers, key: Key) -> Command {
    match key {
        Key::Esc => Command::Quit,
        Key::Char(c) => if modifiers.only_control() && c == 'c' {
            Command::Quit
        } else if modifiers.only_control() && c == 'k' {
            Command::Up
        } else if modifiers.only_control() && c == 'j' {
            Command::Down
        } else if modifiers.only_control() && c == 'u' {
            Command::ClearSearch
        } else if modifiers.only_alt() && c == 'p' {
            Command::TogglePreview
        } else {
            Command::Push(c)
        },
        Key::Backspace => Command::Pop,
        Key::Enter => Command::Pick,
        Key::Other => Command::Nothing,
    }
}

/// Whether the picker can do what `command` asks for in the state `app`:
/// it cannot go down from the first place of an empty list.
pub open spec fn can_follow(command: Command, app: AppView) -> bool {
    command == Command::Down ==> app.cursor() > 0 || app.filtered.len() > 0
}

/// Whether `after` and `result` are what following `command` in the state
/// `before` leads to, where `working_directory` is what reading the working
/// directory gave.
///
/// Leaving without a choice writes out the working directory and closes the
/// picker; where the directory could not be read, the picker stays as it is
/// and the failure is handed on. No other command looks at the directory, and
/// no other command fails.
pub open spec fn follows<E>(
    command: Command,
    working_directory: Result<String, E>,
    before: AppView,
    after: AppView,
    result: Result<Output, E>,
) -> bool {
    match command {
        Command::Quit => match working_directory {
            Ok(directory) => {
                &&& after == before.stopped()
                &&& result matches Ok(Output::WorkingDirectory(written)) && written@ == directory@
            },
            Err(failure) => after == before && result == Err::<Output, E>(failure),
        },
        Command::Up => after == before.moved_to(before.above()) && result matches Ok(
            Output::Nothing,
        ),
        Command::Down => after == before.moved_to(before.below()) && result matches Ok(
            Output::Nothing,
        ),
        Command::ClearSearch => after == before.cleared() && result matches Ok(Output::Nothing),
        Command::TogglePreview => after == before.toggled() && result matches Ok(Output::Nothing),
        Command::Push(c) => after.is_filtered_from(before.typed(c)) && result matches Ok(
            Output::Nothing,
        ),
        Command::Pop => after.is_popped_from(before) && result matches Ok(Output::Nothing),
        Command::Pick => match before.selected_place() {
            Some(place) => {
                &&& after == before.stopped()
                &&& result matches Ok(Output::Path(path)) && path@ == place.path
            },
            None => after == before && result matches Ok(Output::Nothing),
        },
        Command::Nothing => after == before && result matches Ok(Output::Nothing),
    }
}

impl Command {
    /// What pressing `key` with `modifiers` asks for.
    pub fn of(modifiers: Modifiers, key: Key) -> (command: Command)
        ensures
            command == command_for(modifiers, key),
    {
        match key {
            Key::Esc => Command::Quit,
            Key::Char(c) => {
                if modifiers.is_only_control() && c == 'c' {
                    Command::Quit
                } else if modifiers.is_only_control() && c == 'k' {
                    Command::Up
                } else if modifiers.is_only_control() && c == 'j' {
                    Command::Down
                } else if modifiers.is_only_control() && c == 'u' {
                    Command::ClearSearch
                } else if modifiers.is_only_alt() && c == 'p' {
                    Command::TogglePreview
                } else {
                    Command::Push(c)
                }
            },
            Key::Backspace => Command::Pop,
            Key::Enter => Command::Pick,
            Key::Other => Command::Nothing,
        }
    }
}

/// Handles a key: brings `app` into the state that the key asks for, and
/// says what is to be written out. `working_directory` is what reading the
/// working directory gave: it is looked at for a key that leaves without a
/// choice, and a failure to read it is handed back then, with `app` as it
/// was.
pub fn handle_key_events<E>(
    modifiers: Modifiers,
    key: Key,
    working_directory: Result<String, E>,
    app: &mut App,
) -> (result: Result<Output, E>)
    requires
        can_follow(command_for(modifiers, key), old(app)@),
    ensures
        follows(command_for(modifiers, key), working_directory, old(app)@, final(app)@, result),
{
    match Command::of(modifiers, key) {
        Command::Quit => {
            match working_directory {
                Ok(directory) => {
                    app.quit();
                    Ok(Output::WorkingDirectory(directory))
                },
                Err(failure) => Err(failure),
            }
        },
        Command::Up => {
            app.up();
            Ok(Output::Nothing)
        },
        Command::Down => {
            app.down();
            Ok(Output::Nothing)
        },
        Command::ClearSearch => {
            app.clear_search();
            Ok(Output::Nothing)
        },
        Command::TogglePreview => {
            app.toggle_preview();
            Ok(Output::Nothing)
        },
        Command::Push(c) => {
            app.push_search(c);
            Ok(Output::Nothing)
        },
        Command::Pop => {
            app.pop_search();
            Ok(Output::Nothing)
        },
        Command::Pick => {
            let picked = match app.selected() {
                Some(project) => Some(project.path().to_owned()),
                None => None,
            };
            match picked {
                Some(path) => {
                    app.quit();
                    Ok(Output::Path(path))
                },
                None => Ok(Output::Nothing),
            }
        },
        Command::Nothing => Ok(Output::Nothing),
    }
}

} // verus!
