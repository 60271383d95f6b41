use store_things::config::{Config, ConfigSource};
use store_things::error::{IoStage, StoreError};

fn sample() -> Config {
    Config {
        clippings: "~/clips".to_string(),
        strip_dir: Some("~/".to_string()),
        screenshot_dir: "~/Pictures/shots".to_string(),
    }
}

#[test]
fn config_location_is_under_home() {
    assert_eq!(Config::directory("/home/u"), "/home/u/.config/store-things");
    assert_eq!(Config::location("/home/u"), "/home/u/.config/store-things/config.toml");
    assert_eq!(Config::location("/home/u/"), "/home/u/.config/store-things/config.toml");
}

#[test]
fn directories_are_expanded() {
    let config = sample();
    assert_eq!(config.get_clippings_dir("/home/u"), "/home/u/clips");
    assert_eq!(config.get_screenshot_dir("/home/u"), "/home/u/Pictures/shots");
}

#[test]
fn directories_without_tilde_are_kept() {
    let config = Config {
        clippings: "/srv/clips".to_string(),
        strip_dir: None,
        screenshot_dir: "/srv/shots".to_string(),
    };
    assert_eq!(config.get_clippings_dir("/home/u"), "/srv/clips");
    assert_eq!(config.get_screenshot_dir("/home/u"), "/srv/shots");
}

#[test]
fn strip_prefix_uses_expanded_strip_dir() {
    let config = sample();
    assert_eq!(config.strip_prefix("/home/u/clips/abc.png", "/home/u"), "clips/abc.png");
    assert_eq!(config.strip_prefix("/srv/clips/abc.png", "/home/u"), "/srv/clips/abc.png");
}

#[test]
fn strip_prefix_without_strip_dir_keeps_path() {
    let config = Config {
        clippings: "~/clips".to_string(),
        strip_dir: None,
        screenshot_dir: "~/shots".to_string(),
    };
    assert_eq!(config.strip_prefix("/home/u/clips/abc.png", "/home/u"), "/home/u/clips/abc.png");
}

#[test]
fn absent_configuration_is_missing() {
    assert!(matches!(Config::get(ConfigSource::Absent), Err(StoreError::ConfigMissing)));
}

#[test]
fn unreadable_configuration_is_io_error() {
    assert!(matches!(
        Config::get(ConfigSource::Unreadable),
        Err(StoreError::Io(IoStage::ReadConfig))
    ));
}

#[test]
fn malformed_configuration_is_invalid() {
    assert!(matches!(Config::get(ConfigSource::Malformed), Err(StoreError::ConfigInvalid)));
}

#[test]
fn missing_required_key_is_invalid() {
    let no_clippings = ConfigSource::Keys {
        clippings: None,
        strip_dir: Some("~".to_string()),
        screenshot_dir: Some("~/shots".to_string()),
    };
    assert!(matches!(Config::get(no_clippings), Err(StoreError::ConfigInvalid)));
    let no_screenshots = ConfigSource::Keys {
        clippings: Some("~/clips".to_string()),
        strip_dir: None,
        screenshot_dir: None,
    };
    assert!(matches!(Config::get(no_screenshots), Err(StoreError::ConfigInvalid)));
}

#[test]
fn complete_keys_make_a_configuration() {
    let keys = ConfigSource::Keys {
        clippings: Some("~/clips".to_string()),
        strip_dir: None,
        screenshot_dir: Some("~/shots".to_string()),
    };
    match Config::get(keys) {
        Ok(config) => {
            assert_eq!(config.clippings, "~/clips");
            assert_eq!(config.strip_dir, None);
            assert_eq!(config.screenshot_dir, "~/shots");
        }
        Err(_) => panic!("both required keys are present"),
    }
    let keys = ConfigSource::Keys {
        clippings: Some("/c".to_string()),
        strip_dir: Some("/s".to_string()),
        screenshot_dir: Some("/d".to_string()),
    };
    match Config::get(keys) {
        Ok(config) => assert_eq!(config.strip_dir, Some("/s".to_string())),
        Err(_) => panic!("both required keys are present"),
    }
}

#[test]
fn error_messages_name_the_failure() {
    assert_eq!(StoreError::NotFound.message(), "the path does not exist");
    assert_eq!(StoreError::NotAFile.message(), "the path is not a file");
    assert_eq!(
        StoreError::NotInitialized.message(),
        "no store found in this directory or any parent"
    );
    assert_eq!(StoreError::ConfigMissing.message(), "no configuration found");
    assert_eq!(StoreError::ConfigInvalid.message(), "the configuration is invalid");
    assert_eq!(
        StoreError::Io(IoStage::CreateDir).message(),
        "i/o failure while creating clippings directory"
    );
    assert_eq!(StoreError::Io(IoStage::Copy).message(), "i/o failure while copying into the store");
    assert_eq!(IoStage::Copy.describe(), "copying into the store");
    assert_eq!(IoStage::Clipboard.describe(), "setting the clipboard");
    assert_eq!(IoStage::Read.describe(), "reading the source file");
    assert_eq!(IoStage::ReadConfig.describe(), "reading the configuration");
}
