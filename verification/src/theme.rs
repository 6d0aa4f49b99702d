use vstd::prelude::*;

verus! {

/// The built-in colour themes.
#[derive(Debug, Clone, Copy, PartialEq, Eq, Structural)]
pub enum ThemeVariant {
    Dark,
    Light,
    Solarized,
}

impl Default for ThemeVariant {
    fn default() -> (v: Self)
        ensures
            v == ThemeVariant::Dark,
    {
        ThemeVariant::Dark
    }
}

} // verus!
