use vstd::prelude::*;
use crate::config::ConfigError;

verus! {

/// The launcher's settings: how to open a terminal around a program, and
/// how to ask the system-info helper for the position.
pub struct Settings {
    /// Path to the terminal command.
    pub terminal_command: String,
    /// Argument given to the terminal before the command to run.
    pub terminal_arg: String,
    /// The system-info command.
    pub sys_info_cmd: String,
    /// Argument given to the system-info command.
    pub sys_info_arg: String,
}

impl Settings {
    /// The settings that a first run writes.
    pub open spec fn is_default(&self) -> bool {
        &&& self.terminal_command@ == "/usr/bin/mlterm"@
        &&& self.terminal_arg@ == "-e"@
        &&& self.sys_info_cmd@ == "et-system-info"@
        &&& self.sys_info_arg@ == "et-gps"@
    }

    /// A field-by-field copy.
    pub fn duplicate(&self) -> (r: Settings)
        ensures
            r == *self,
    {
        Settings {
            terminal_command: self.terminal_command.clone(),
            terminal_arg: self.terminal_arg.clone(),
            sys_info_cmd: self.sys_info_cmd.clone(),
            sys_info_arg: self.sys_info_arg.clone(),
        }
    }
}

impl Default for Settings {
    fn default() -> (r: Settings)
        ensures
            r.is_default(),
    {
        Settings {
            terminal_command: String::from_str("/usr/bin/mlterm"),
            terminal_arg: String::from_str("-e"),
            sys_info_cmd: String::from_str("et-system-info"),
            sys_info_arg: String::from_str("et-gps"),
        }
    }
}

/// The settings that a load hands back, and whether they must be written
/// to the settings document before they are used.
pub struct SettingsLoad {
    pub settings: Settings,
    pub persist: bool,
}

/// What loading the settings gives, from what reading the document gave:
/// the stored settings as they are; the defaults, to be written, when the
/// document is absent; any other failure as it is.
pub open spec fn load_result(
    read: Result<Settings, ConfigError>,
    r: Result<SettingsLoad, ConfigError>,
) -> bool {
    match read {
        Ok(s) => r == Ok::<SettingsLoad, ConfigError>(SettingsLoad { settings: s, persist: false }),
        Err(ConfigError::NotFound) => r matches Ok(l) && l.settings.is_default() && l.persist,
        Err(e) => r == Err::<SettingsLoad, ConfigError>(e),
    }
}

/// What the settings document holds after a load: the loaded settings if
/// they were to be written, else what it held before.
pub open spec fn stored_after(stored: Option<Settings>, l: SettingsLoad) -> Option<Settings> {
    if l.persist {
        Some(l.settings)
    } else {
        stored
    }
}

/// Decides what loading the settings gives, from the result of reading the
/// settings document.
pub fn resolve_settings(read: Result<Settings, ConfigError>) -> (r: Result<
    SettingsLoad,
    ConfigError,
>)
    ensures
        load_result(read, r),
{
    match read {
        Ok(s) => Ok(SettingsLoad { settings: s, persist: false }),
        Err(ConfigError::NotFound) => Ok(SettingsLoad { settings: Settings::default(), persist: true }),
        Err(e) => Err(e),
    }
}

/// Loading the settings where none are stored yields the defaults and
/// leaves them stored; loading again then yields the same settings and
/// writes nothing.
pub proof fn lemma_first_load_persists(
    first: Result<SettingsLoad, ConfigError>,
    second: Result<SettingsLoad, ConfigError>,
)
    requires
        load_result(Err(ConfigError::NotFound), first),
        first matches Ok(l) && load_result(Ok(l.settings), second),
    ensures
        first matches Ok(l) && l.settings.is_default() && stored_after(None, l) == Some(l.settings),
        second matches Ok(l2) && first matches Ok(l) && l2.settings == l.settings && !l2.persist
            && stored_after(Some(l.settings), l2) == Some(l.settings),
{
}

} // verus!
