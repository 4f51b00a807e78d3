use vstd::prelude::*;

verus! {

/// Whether the picker is still running.
#[derive(Debug)]
pub enum AppState {
    Running,
    Stopped,
}

impl AppState {
    /// True exactly for [`AppState::Running`].
    pub fn is_running(&self) -> (running: bool)
        ensures
            running == (*self is Running),
    {
        match self {
            AppState::Running => true,
            AppState::Stopped => false,
        }
    }
}

impl Default for AppState {
    fn default() -> (state: Self)
        ensures
            state is Running,
    {
        AppState::Running
    }
}

} // verus!
