//! The colours of the picker.

use vstd::prelude::*;
use crate::theme::variant::ThemeVariant;

pub mod variant;

verus! {

/// A colour, by its red, green and blue parts.
#[derive(Clone, Copy, Debug, PartialEq, Eq, Structural)]
pub struct Rgb {
    pub red: u8,
    pub green: u8,
    pub blue: u8,
}

/// The colours of one theme.
#[derive(Clone, Copy, Debug, PartialEq, Eq, Structural)]
pub struct Theme {
    pub variant: ThemeVariant,
    /// Foreground of the borders.
    pub border: Rgb,
    /// Background of the selected project.
    pub selected: Rgb,
    /// Foreground of a project's path.
    pub project_path: Rgb,
}

/// The colours of the dark theme.
pub open spec fn dark_colours() -> Theme {
    Theme {
        variant: ThemeVariant::Dark,
        border: Rgb { red: 131, green: 199, blue: 70 },
        selected: Rgb { red: 59, green: 59, blue: 59 },
        project_path: Rgb { red: 119, green: 119, blue: 119 },
    }
}

/// The colours of the light theme.
pub open spec fn light_colours() -> Theme {
    Theme {
        variant: ThemeVariant::Light,
        border: Rgb { red: 0, green: 132, blue: 0 },
        selected: Rgb { red: 205, green: 205, blue: 205 },
        project_path: Rgb { red: 135, green: 135, blue: 135 },
    }
}

impl Theme {
    /// The dark theme, after <https://github.com/wuelnerdotexe/vim-enfocado>.
    pub fn enfocado_dark() -> (theme: Theme)
        ensures
            theme == dark_colours(),
    {
        Theme {
            variant: ThemeVariant::Dark,
            border: Rgb { red: 131, green: 199, blue: 70 },
            selected: Rgb { red: 59, green: 59, blue: 59 },
            project_path: Rgb { red: 119, green: 119, blue: 119 },
        }
    }

    /// The light theme, after <https://github.com/wuelnerdotexe/vim-enfocado>.
    pub fn enfocado_light() -> (theme: Theme)
        ensures
            theme == light_colours(),
    {
        Theme {
            variant: ThemeVariant::Light,
            border: Rgb { red: 0, green: 132, blue: 0 },
            selected: Rgb { red: 205, green: 205, blue: 205 },
            project_path: Rgb { red: 135, green: 135, blue: 135 },
        }
    }

    /// The theme of the given variant.
    pub fn of(variant: ThemeVariant) -> (theme: Theme)
        ensures
            theme.variant == variant,
            theme == match variant {
                ThemeVariant::Light => light_colours(),
                ThemeVariant::Dark => dark_colours(),
            },
    {
        match variant {
            ThemeVariant::Light => Theme::enfocado_light(),
            ThemeVariant::Dark => Theme::enfocado_dark(),
        }
    }
}

} // verus!
