//! Credential and local-tool configuration records, and their
//! validation rules.  Reading the records from disk and testing whether
//! the paths they name exist are the caller's concern; the library
//! receives the records and the path facts as plain values.

use vstd::prelude::*;
use vstd::string::StrSliceExecFns;
use vstd::string::StringExecFns;

verus! {

/// Paths to platform-specific helper binaries.
pub struct ConfigLocalTools {
    pub linux_x86_64_bin: String,
    pub windows_x86_64_bin: String,
    pub macos_x86_64_bin: String,
}

/// SSH access credentials: a password, a key file, or both.
pub struct ConfigSsh {
    pub hostname: String,
    pub port: u32,
    pub username: String,
    pub password: String,
    pub key_file: String,
}

/// One validated configuration record: a closed set of variants.
#[allow(non_camel_case_types)]
pub enum Config {
    Local_Tools(ConfigLocalTools),
    Ssh(ConfigSsh),
}

/// What the filesystem reports about the paths one record names,
/// gathered by the caller before validation.
#[derive(Clone, Copy, PartialEq, Eq, Structural, Debug)]
pub struct PathPresence {
    pub linux_bin_exists: bool,
    pub windows_bin_exists: bool,
    pub macos_bin_exists: bool,
    pub key_file_exists: bool,
}

/// Why a configuration record is rejected.
pub enum ConfigError {
    /// A path the record names does not exist on disk.
    MissingFile(String),
    /// An SSH record with neither a key file nor a password.
    NoAuthConfigured,
}

impl ConfigError {
    /// The human-readable description of the error.
    pub fn message(&self) -> (r: String)
        ensures
            self matches ConfigError::MissingFile(f) ==> r@ == "Error: \""@ + f@
                + "\" does not exist!"@,
            self matches ConfigError::NoAuthConfigured ==> r@
                == "Error: [ssh] block MUST specify either a key_file or a password, cannot leave both blank"@,
    {
        match self {
            ConfigError::MissingFile(f) => {
                let mut out = String::new();
                out.append("Error: \"");
                out.append(f.as_str());
                out.append("\" does not exist!");
                proof {
                    assert(out@ =~= "Error: \""@ + f@ + "\" does not exist!"@);
                }
                out
            },
            ConfigError::NoAuthConfigured => {
                let out = String::from_str(
                    "Error: [ssh] block MUST specify either a key_file or a password, cannot leave both blank",
                );
                out
            },
        }
    }
}

impl Config {
    /// Validates one record against what the filesystem reports.
    ///
    /// A local-tools record passes when all three binaries exist; when
    /// one is missing the error names the Linux binary path.  An SSH
    /// record fails when it names a key file that does not exist, or
    /// when both the key file and the password are blank.
    pub fn check_config(&self, presence: &PathPresence) -> (r: Result<(), ConfigError>)
        ensures
            self matches Config::Local_Tools(t) ==> {
                &&& (r is Ok <==> (presence.linux_bin_exists && presence.windows_bin_exists
                    && presence.macos_bin_exists))
                &&& (r matches Err(e) ==> (e matches ConfigError::MissingFile(f) && f@
                    == t.linux_x86_64_bin@))
            },
            self matches Config::Ssh(c) ==> {
                &&& (r is Ok <==> ((c.key_file@.len() > 0 ==> presence.key_file_exists) && !(
                c.key_file@.len() == 0 && c.password@.len() == 0)))
                &&& (c.key_file@.len() > 0 && !presence.key_file_exists ==> (r matches Err(e)
                    && (e matches ConfigError::MissingFile(f) && f@ == c.key_file@)))
                &&& (c.key_file@.len() == 0 && c.password@.len() == 0 ==> r matches Err(
                ConfigError::NoAuthConfigured))
            },
    {
        match self {
            Config::Local_Tools(t) => {
                if !presence.linux_bin_exists || !presence.windows_bin_exists
                    || !presence.macos_bin_exists {
                    Err(ConfigError::MissingFile(t.linux_x86_64_bin.clone()))
                } else {
                    Ok(())
                }
            },
            Config::Ssh(c) => {
                if !c.key_file.as_str().is_empty() && !presence.key_file_exists {
                    Err(ConfigError::MissingFile(c.key_file.clone()))
                } else if c.key_file.as_str().is_empty() && c.password.as_str().is_empty() {
                    Err(ConfigError::NoAuthConfigured)
                } else {
                    Ok(())
                }
            },
        }
    }
}

} // verus!
