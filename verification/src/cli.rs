use vstd::prelude::*;
use crate::theme::variant::ThemeVariant;

verus! {

/// What the command line asks for.
#[derive(Clone, Copy, Debug)]
pub struct Cli {
    /// The theme to use: "light", or "dark", which is the default.
    pub theme: ThemeVariant,
}

impl Default for Cli {
    fn default() -> (cli: Cli)
        ensures
            cli.theme == ThemeVariant::Dark,
    {
        Cli { theme: ThemeVariant::Dark }
    }
}

} // verus!
