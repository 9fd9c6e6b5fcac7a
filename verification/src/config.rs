//! The persisted user configuration, reduced to the data the tool keeps:
//! the chosen theme.  Reading and writing the configuration file is the
//! caller's business; this type only holds and hands out the value.

use vstd::prelude::*;

verus! {

/// The themes the tool knows, by name.
#[derive(Clone, Copy, Debug, PartialEq, Eq, Structural)]
pub enum LocalTheme {
    Light,
    Dark,
    Dracula,
    Nord,
    SolarizedLight,
    SolarizedDark,
    GruvboxLight,
    GruvboxDark,
    CatppuccinLatte,
    CatppuccinFrappe,
    CatppuccinMacchiato,
    CatppuccinMocha,
    TokyoNight,
    TokyoNightStorm,
    TokyoNightLight,
    KanagawaWave,
    KanagawaDragon,
    KanagawaLotus,
    Moonfly,
    Nightfly,
    Oxocarbon,
    Ferra,
    Unknown,
}

/// The configuration: the currently chosen theme.
pub struct Config {
    pub current_theme: LocalTheme,
}

impl Config {
    /// A configuration holding the given theme.
    pub fn new(theme: LocalTheme) -> (c: Config)
        ensures
            c.current_theme == theme,
    {
        Config { current_theme: theme }
    }

    /// Replaces the chosen theme.
    pub fn change_theme(&mut self, theme: LocalTheme)
        ensures
            final(self).current_theme == theme,
    {
        self.current_theme = theme;
    }

    /// The currently chosen theme.
    pub fn current_theme(&self) -> (r: LocalTheme)
        ensures
            r == self.current_theme,
    {
        self.current_theme
    }
}

impl Default for Config {
    /// The theme used until a configuration is loaded.
    fn default() -> (c: Config)
        ensures
            c.current_theme == LocalTheme::CatppuccinMacchiato,
    {
        Config { current_theme: LocalTheme::CatppuccinMacchiato }
    }
}

} // verus!
