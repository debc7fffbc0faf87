use vstd::prelude::*;

verus! {

/// Why reading or writing a configuration document failed.
pub enum ConfigError {
    /// The document does not exist.
    NotFound,
    /// The file system refused a read, a write or a directory creation.
    Io(String),
    /// The document's content is not of the expected shape.
    Decode(String),
    /// The value could not be serialised.
    Encode(String),
    /// The user's home directory, under which the documents live, is unknown.
    HomeDirectoryUnresolved,
}

/// The text shown for an error.
pub open spec fn error_text(e: ConfigError) -> Seq<char> {
    match e {
        ConfigError::NotFound => "document not found"@,
        ConfigError::Io(m) => m@,
        ConfigError::Decode(m) => m@,
        ConfigError::Encode(m) => m@,
        ConfigError::HomeDirectoryUnresolved => "Could not determine home directory"@,
    }
}

impl ConfigError {
    /// A description of the error for the user.
    pub fn message(&self) -> (r: String)
        ensures
            r@ == error_text(*self),
    {
        match self {
            ConfigError::NotFound => String::from_str("document not found"),
            ConfigError::Io(m) => m.clone(),
            ConfigError::Decode(m) => m.clone(),
            ConfigError::Encode(m) => m.clone(),
            ConfigError::HomeDirectoryUnresolved => String::from_str(
                "Could not determine home directory",
            ),
        }
    }
}

/// The operator's profile: call sign, grid locator and mail password.
/// It is always written whole.
pub struct UserConfig {
    pub callsign: String,
    pub grid: String,
    pub winlink_passwd: String,
}

/// The documents that the launcher keeps under the user's home directory.
pub enum Document {
    /// The operating mode, plain text.
    Mode,
    /// The operator's profile, JSON.
    User,
    /// The launcher settings, JSON.
    Launcher,
}

/// Where a document lives, relative to the home directory.
pub open spec fn document_path(d: Document) -> Seq<char> {
    match d {
        Document::Mode => ".config/emcomm-tools/et-mode"@,
        Document::User => ".config/emcomm-tools/user.json"@,
        Document::Launcher => ".config/emcomm-tools/et-launcher.json"@,
    }
}

impl Document {
    /// Where the document lives, relative to the home directory.
    pub fn relative_path(&self) -> (r: String)
        ensures
            r@ == document_path(*self),
    {
        match self {
            Document::Mode => String::from_str(".config/emcomm-tools/et-mode"),
            Document::User => String::from_str(".config/emcomm-tools/user.json"),
            Document::Launcher => String::from_str(".config/emcomm-tools/et-launcher.json"),
        }
    }
}

/// The absolute path of the radio descriptor, which another component owns.
pub fn radio_descriptor_path() -> (r: String)
    ensures
        r@ == "/opt/emcomm-tools/conf/radios.d/active-radio.json"@,
{
    String::from_str("/opt/emcomm-tools/conf/radios.d/active-radio.json")
}

} // verus!
