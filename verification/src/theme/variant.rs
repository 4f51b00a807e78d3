use vstd::prelude::*;
use crate::text::{chars_of, lowercased, to_lowercase, trim, trimmed};

verus! {

/// Which of the two themes is used.
#[derive(Clone, Copy, Debug, PartialEq, Eq, Structural)]
pub enum ThemeVariant {
    Dark,
    Light,
}

impl Default for ThemeVariant {
    fn default() -> (variant: ThemeVariant)
        ensures
            variant == ThemeVariant::Dark,
    {
        ThemeVariant::Dark
    }
}

/// The variant called `name`: the light one for `light`, the dark one for
/// every other name.
pub open spec fn variant_named(name: Seq<char>) -> ThemeVariant {
    if name == seq!['l', 'i', 'g', 'h', 't'] {
        ThemeVariant::Light
    } else {
        ThemeVariant::Dark
    }
}

impl ThemeVariant {
    /// The variant called `name`, which is taken as it stands.
    pub fn named(name: &str) -> (variant: ThemeVariant)
        ensures
            variant == variant_named(name@),
    {
        Self::of_chars(&chars_of(name))
    }

    fn of_chars(name: &Vec<char>) -> (variant: ThemeVariant)
        ensures
            variant == variant_named(name@),
    {
        if name.len() == 5 && name[0] == 'l' && name[1] == 'i' && name[2] == 'g' && name[3] == 'h'
            && name[4] == 't' {
            assert(name@ =~= seq!['l', 'i', 'g', 'h', 't']);
            ThemeVariant::Light
        } else {
            ThemeVariant::Dark
        }
    }

    /// The variant that `s` asks for: `s` is put in lower case and relieved
    /// of the white space at its ends, and then read as a name.
    pub fn parse(s: &str) -> (variant: ThemeVariant)
        ensures
            variant == variant_named(trimmed(lowercased(s@))),
    {
        let lower = to_lowercase(s);
        let name = trim(&chars_of(lower.as_str()));
        Self::of_chars(&name)
    }
}

impl std::str::FromStr for ThemeVariant {
    type Err = &'static str;

    /// Never fails: see [`ThemeVariant::parse`].
    fn from_str(s: &str) -> (variant: Result<ThemeVariant, &'static str>)
        ensures
            variant == Ok::<ThemeVariant, &'static str>(variant_named(trimmed(lowercased(s@)))),
    {
        Ok(ThemeVariant::parse(s))
    }
}

} // verus!
