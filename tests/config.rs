use emcomm_launcher::config::{radio_descriptor_path, ConfigError, Document};
use emcomm_launcher::radio::{radio_label, RadioDescriptor};
use emcomm_launcher::settings::{resolve_settings, Settings};

fn stored() -> Settings {
    Settings {
        terminal_command: "/usr/bin/xterm".to_string(),
        terminal_arg: "-x".to_string(),
        sys_info_cmd: "info".to_string(),
        sys_info_arg: "gps".to_string(),
    }
}

fn assert_default(s: &Settings) {
    assert_eq!(s.terminal_command, "/usr/bin/mlterm");
    assert_eq!(s.terminal_arg, "-e");
    assert_eq!(s.sys_info_cmd, "et-system-info");
    assert_eq!(s.sys_info_arg, "et-gps");
}

#[test]
fn default_settings() {
    assert_default(&Settings::default());
}

#[test]
fn absent_settings_give_defaults_to_store() {
    let first = match resolve_settings(Err(ConfigError::NotFound)) {
        Ok(l) => l,
        Err(_) => panic!("defaults expected"),
    };
    assert!(first.persist);
    assert_default(&first.settings);
    let second = match resolve_settings(Ok(first.settings.duplicate())) {
        Ok(l) => l,
        Err(_) => panic!("stored settings expected"),
    };
    assert!(!second.persist);
    assert_default(&second.settings);
}

#[test]
fn stored_settings_are_used() {
    let l = match resolve_settings(Ok(stored())) {
        Ok(l) => l,
        Err(_) => panic!("stored settings expected"),
    };
    assert!(!l.persist);
    assert_eq!(l.settings.terminal_command, "/usr/bin/xterm");
    assert_eq!(l.settings.sys_info_arg, "gps");
}

#[test]
fn unreadable_settings_fail() {
    match resolve_settings(Err(ConfigError::Decode("bad".to_string()))) {
        Err(ConfigError::Decode(m)) => assert_eq!(m, "bad"),
        _ => panic!("decode error expected"),
    }
    match resolve_settings(Err(ConfigError::Io("denied".to_string()))) {
        Err(e) => assert_eq!(e.message(), "denied"),
        _ => panic!("io error expected"),
    }
}

#[test]
fn absent_radio_is_no_radio() {
    match radio_label(Err(ConfigError::NotFound)) {
        Ok(s) => assert_eq!(s, "NO-RADIO"),
        Err(_) => panic!("no error expected"),
    }
}

#[test]
fn present_radio_is_named() {
    let d = RadioDescriptor { vendor: "Icom".to_string(), model: "IC-7300".to_string() };
    match radio_label(Ok(d)) {
        Ok(s) => assert_eq!(s, "Icom IC-7300"),
        Err(_) => panic!("no error expected"),
    }
}

#[test]
fn malformed_radio_is_an_error() {
    match radio_label(Err(ConfigError::Decode("missing field `model`".to_string()))) {
        Err(ConfigError::Decode(m)) => assert_eq!(m, "missing field `model`"),
        _ => panic!("decode error expected"),
    }
}

#[test]
fn error_messages() {
    assert_eq!(ConfigError::HomeDirectoryUnresolved.message(), "Could not determine home directory");
    assert_eq!(ConfigError::NotFound.message(), "document not found");
    assert_eq!(ConfigError::Encode("x".to_string()).message(), "x");
}

#[test]
fn document_paths() {
    assert_eq!(Document::Mode.relative_path(), ".config/emcomm-tools/et-mode");
    assert_eq!(Document::User.relative_path(), ".config/emcomm-tools/user.json");
    assert_eq!(Document::Launcher.relative_path(), ".config/emcomm-tools/et-launcher.json");
    assert_eq!(radio_descriptor_path(), "/opt/emcomm-tools/conf/radios.d/active-radio.json");
}
