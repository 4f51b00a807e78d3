use vstd::prelude::*;
use crate::project::{Place, Project};

verus! {

/// The pane that shows the files of the selected project.
pub struct Preview {
    /// Whether the preview is enabled. Even then it may be hidden, where
    /// there is not enough room for it.
    visible: bool,
    selected: Option<Project>,
}

/// How wide the terminal has to be, in columns, for the preview to be shown:
/// wider than this.
pub const MIN_WIDTH: u16 = 100;

/// The share of the width that the list of projects takes, in hundredths:
/// all of it, or what the preview leaves of it.
pub fn projects_pane_share(preview_shown: bool) -> (share: u16)
    ensures
        share == if preview_shown {
            70u16
        } else {
            100u16
        },
{
    if preview_shown {
        70
    } else {
        100
    }
}

/// What can be seen of a [`Preview`] from outside.
pub struct PreviewState {
    /// Whether the preview is enabled.
    pub visible: bool,
    /// The project whose files are shown.
    pub selected: Option<Place>,
}

impl View for Preview {
    type V = PreviewState;

    closed spec fn view(&self) -> PreviewState {
        PreviewState {
            visible: self.visible,
            selected: match self.selected {
                Some(project) => Some(project@),
                None => None,
            },
        }
    }
}

impl Default for Preview {
    fn default() -> (preview: Preview)
        ensures
            preview@ == (PreviewState { visible: true, selected: None }),
    {
        Preview { visible: true, selected: None }
    }
}

impl Preview {
    /// Shows the files of `project` from now on, or of none.
    pub fn select(&mut self, project: Option<Project>)
        ensures
            final(self)@.visible == old(self)@.visible,
            final(self)@.selected == match project {
                Some(project) => Some(project@),
                None => None,
            },
    {
        self.selected = project
    }

    /// Enables the preview where it was disabled, and the other way round.
    pub fn toggle(&mut self)
        ensures
            final(self)@.visible == !old(self)@.visible,
            final(self)@.selected == old(self)@.selected,
    {
        self.visible = !self.visible;
    }

    /// Whether the preview is enabled.
    pub fn is_visible(&self) -> (visible: bool)
        ensures
            visible == self@.visible,
    {
        self.visible
    }

    /// Whether the preview is shown on a terminal that is `width` columns
    /// wide: it is enabled, and the terminal is wide enough.
    pub fn is_shown(&self, width: u16) -> (shown: bool)
        ensures
            shown == (self@.visible && width > MIN_WIDTH),
    {
        self.visible && width > MIN_WIDTH
    }

    /// The project whose files are shown.
    pub fn selected(&self) -> (project: Option<&Project>)
        ensures
            self@.selected == match project {
                Some(project) => Some(project@),
                None => None,
            },
    {
        self.selected.as_ref()
    }
}

} // verus!
