//! The settings screen: the configuration in force, and the one that is
//! being edited and not saved yet.

use vstd::prelude::*;

verus! {

/// The themes that the application can be shown in.
#[derive(Debug, Clone, Copy, PartialEq, Eq, Structural)]
pub enum Theme {
    Light,
    Dark,
}

/// The configuration of the application.
#[derive(Debug, Clone, Copy, PartialEq, Eq, Structural)]
pub struct Config {
    pub theme: Theme,
}

impl Default for Config {
    fn default() -> (out: Config)
        ensures
            out == (Config { theme: Theme::Light }),
    {
        Config { theme: Theme::Light }
    }
}

/// What the user did on the settings screen.
#[derive(Debug, Clone, Copy, PartialEq, Eq, Structural)]
pub enum Message {
    ThemeSelected(Theme),
    SaveSettings,
}

/// The state of the settings screen.
#[derive(Debug, Clone, Copy, PartialEq, Eq)]
pub struct Settings {
    settings_config: Config,
    unsaved_config: Option<Config>,
}

impl Default for Settings {
    fn default() -> (out: Settings)
        ensures
            out.saved() == (Config { theme: Theme::Light }),
            out.unsaved() is None,
    {
        Settings { settings_config: Config { theme: Theme::Light }, unsaved_config: None }
    }
}

impl Settings {
    /// The configuration in force.
    pub closed spec fn saved(&self) -> Config {
        self.settings_config
    }

    /// The configuration that is being edited, where one is.
    pub closed spec fn unsaved(&self) -> Option<Config> {
        self.unsaved_config
    }

    /// The configuration that the screen shows: the one being edited where
    /// there is one, else the one in force.
    pub open spec fn shown(&self) -> Config {
        match self.unsaved() {
            Some(config) => config,
            None => self.saved(),
        }
    }

    /// The screen for a configuration in force, with nothing edited.
    pub fn new(settings_config: Config) -> (out: Settings)
        ensures
            out.saved() == settings_config,
            out.unsaved() is None,
    {
        Settings { settings_config, unsaved_config: None }
    }

    /// The configuration that the screen shows.
    pub fn get_config_settings(&self) -> (out: &Config)
        ensures
            *out == self.shown(),
    {
        if let Some(config) = &self.unsaved_config {
            config
        } else {
            &self.settings_config
        }
    }

    /// Whether the edited configuration differs from the one in force, so
    /// that saving would change something.
    pub fn has_unsaved_changes(&self) -> (out: bool)
        ensures
            out == (self.unsaved() is Some && self.unsaved()->0 != self.saved()),
    {
        match self.unsaved_config {
            Some(config) => config != self.settings_config,
            None => false,
        }
    }

    /// Takes in what the user did, and gives the configuration that is to
    /// be written out, where one is.
    ///
    /// Selecting a theme edits the shown configuration and writes nothing.
    /// Saving puts the edited configuration in force and hands it out to be
    /// written; where nothing was edited it does nothing.
    pub fn update(&mut self, message: Message) -> (out: Option<Config>)
        ensures
            match message {
                Message::ThemeSelected(theme) => {
                    &&& out is None
                    &&& final(self).saved() == old(self).saved()
                    &&& final(self).unsaved() == Some(Config { theme, ..old(self).shown() })
                },
                Message::SaveSettings => {
                    &&& out == old(self).unsaved()
                    &&& final(self).saved() == old(self).shown()
                    &&& final(self).unsaved() is None
                },
            },
    {
        match message {
            Message::ThemeSelected(theme) => {
                let mut edited = match self.unsaved_config {
                    Some(config) => config,
                    None => self.settings_config,
                };
                edited.theme = theme;
                self.unsaved_config = Some(edited);
                None
            },
            Message::SaveSettings => {
                match self.unsaved_config {
                    Some(config) => {
                        self.settings_config = config;
                        self.unsaved_config = None;
                        Some(config)
                    },
                    None => None,
                }
            },
        }
    }
}

} // verus!
