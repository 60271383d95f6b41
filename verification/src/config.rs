//! The configuration of the clipping tool: where clippings go, where
//! screenshots come from, and which leading directory to leave out of the
//! path that is shown.

use crate::error::{IoStage, StoreError};
use crate::path::{expand_user, join, spec_expand_user, spec_join, spec_strip_prefix, strip_prefix};
use vstd::prelude::*;

verus! {

/// The three settings, as written in the configuration file: any `~` in them
/// still stands for the home directory.
pub struct Config {
    /// The directory that holds the clippings.
    pub clippings: String,
    /// A leading directory to remove from the path handed to the clipboard.
    pub strip_dir: Option<String>,
    /// The directory in which screenshots appear.
    pub screenshot_dir: String,
}

/// What was found where the configuration is kept.
pub enum ConfigSource {
    /// There is no configuration directory.
    Absent,
    /// The configuration file could not be read.
    Unreadable,
    /// The file is not well-formed, or a key has the wrong type.
    Malformed,
    /// The file was parsed; each key's value, where the file has the key.
    Keys { clippings: Option<String>, strip_dir: Option<String>, screenshot_dir: Option<String> },
}

/// The directory in which the configuration file of the user whose home is
/// `home` is kept.
pub open spec fn spec_config_dir(home: Seq<char>) -> Seq<char> {
    spec_join(spec_join(home, ".config"@), "store-things"@)
}

/// The configuration file of the user whose home is `home`.
pub open spec fn spec_config_file(home: Seq<char>) -> Seq<char> {
    spec_join(spec_config_dir(home), "config.toml"@)
}

/// A leading directory, as an optional sequence of characters.
pub open spec fn option_view(text: Option<String>) -> Option<Seq<char>> {
    match text {
        Some(s) => Some(s@),
        None => None,
    }
}

/// `path` as it is handed to the clipboard: without the expanded
/// `strip_dir` in front, where one is configured and leads the path.
pub open spec fn spec_shown(strip_dir: Option<Seq<char>>, path: Seq<char>, home: Seq<char>) -> Seq<
    char,
> {
    match strip_dir {
        Some(dir) => spec_strip_prefix(path, spec_expand_user(dir, home)),
        None => path,
    }
}

impl Config {
    /// The directory in which the configuration file is kept.
    pub fn directory(home: &str) -> (dir: String)
        ensures
            dir@ == spec_config_dir(home@),
    {
        let base = join(home, ".config");
        join(base.as_str(), "store-things")
    }

    /// The configuration file.
    pub fn location(home: &str) -> (file: String)
        ensures
            file@ == spec_config_file(home@),
    {
        let dir = Config::directory(home);
        join(dir.as_str(), "config.toml")
    }

    /// The configuration that a source yields.
    ///
    /// A missing directory is `ConfigMissing`, an unreadable file an i/o
    /// failure, and a malformed file or one without `clippings` or
    /// `screenshot_dir` is `ConfigInvalid`. Otherwise the keys are taken as
    /// they are.
    pub fn get(source: ConfigSource) -> (loaded: Result<Config, StoreError>)
        ensures
            source is Absent ==> loaded == Err::<Config, StoreError>(StoreError::ConfigMissing),
            source is Unreadable ==> loaded == Err::<Config, StoreError>(
                StoreError::Io(IoStage::ReadConfig),
            ),
            source is Malformed ==> loaded == Err::<Config, StoreError>(StoreError::ConfigInvalid),
            source matches ConfigSource::Keys { clippings, strip_dir, screenshot_dir } ==> (
            if clippings is Some && screenshot_dir is Some {
                loaded == Ok::<Config, StoreError>(
                    Config {
                        clippings: clippings->0,
                        strip_dir: strip_dir,
                        screenshot_dir: screenshot_dir->0,
                    },
                )
            } else {
                loaded == Err::<Config, StoreError>(StoreError::ConfigInvalid)
            }),
    {
        match source {
            ConfigSource::Absent => Err(StoreError::ConfigMissing),
            ConfigSource::Unreadable => Err(StoreError::Io(IoStage::ReadConfig)),
            ConfigSource::Malformed => Err(StoreError::ConfigInvalid),
            ConfigSource::Keys { clippings, strip_dir, screenshot_dir } => {
                match (clippings, screenshot_dir) {
                    (Some(clippings), Some(screenshot_dir)) => Ok(
                        Config { clippings, strip_dir, screenshot_dir },
                    ),
                    _ => Err(StoreError::ConfigInvalid),
                }
            },
        }
    }

    /// The clippings directory, with `~` resolved.
    pub fn get_clippings_dir(&self, home: &str) -> (dir: String)
        ensures
            dir@ == spec_expand_user(self.clippings@, home@),
    {
        expand_user(self.clippings.as_str(), home)
    }

    /// The screenshot directory, with `~` resolved.
    pub fn get_screenshot_dir(&self, home: &str) -> (dir: String)
        ensures
            dir@ == spec_expand_user(self.screenshot_dir@, home@),
    {
        expand_user(self.screenshot_dir.as_str(), home)
    }

    /// `path` as it is handed to the clipboard.
    pub fn strip_prefix(&self, path: &str, home: &str) -> (shown: String)
        ensures
            shown@ == spec_shown(option_view(self.strip_dir), path@, home@),
    {
        match &self.strip_dir {
            Some(dir) => {
                let prefix = expand_user(dir.as_str(), home);
                strip_prefix(path, prefix.as_str())
            },
            None => path.to_owned(),
        }
    }
}

} // verus!
