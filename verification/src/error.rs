//! The error taxonomy of the store, and the flat message form handed to the
//! boundary: every failure kind carries the underlying detail text and is
//! rendered as a single human-readable string.

use vstd::prelude::*;
use vstd::string::StringExecFns;

verus! {

/// A failure of one store operation. The payload is the detail text — for a
/// filesystem failure the operating system's words, supplied by the caller
/// that performed the operation; for a decode failure a short description.
#[derive(Debug)]
pub enum ConfigError {
    /// The host environment could not supply a configuration directory.
    ConfigDirUnavailable(String),
    /// Reading the settings file failed although it exists.
    ReadError(String),
    /// Writing the settings file failed.
    WriteError(String),
    /// Removing an existing settings file failed.
    DeleteError(String),
    /// Creating the configuration directory failed.
    DirCreateError(String),
    /// The settings file is not a well-formed settings document.
    DecodeError(String),
    /// The record could not be written out (unreachable for this fixed
    /// schema, kept so a caller can surface it).
    EncodeError(String),
}

impl ConfigError {
    /// The detail text the error carries.
    pub open spec fn detail(&self) -> Seq<char> {
        match self {
            ConfigError::ConfigDirUnavailable(d) => d@,
            ConfigError::ReadError(d) => d@,
            ConfigError::WriteError(d) => d@,
            ConfigError::DeleteError(d) => d@,
            ConfigError::DirCreateError(d) => d@,
            ConfigError::DecodeError(d) => d@,
            ConfigError::EncodeError(d) => d@,
        }
    }

    /// The fixed prefix of the rendered message, one per failure kind.
    pub open spec fn prefix(&self) -> Seq<char> {
        match self {
            ConfigError::ConfigDirUnavailable(_) => "Failed to get config dir: "@,
            ConfigError::ReadError(_) => "Failed to read config: "@,
            ConfigError::WriteError(_) => "Failed to write config: "@,
            ConfigError::DeleteError(_) => "Failed to delete config: "@,
            ConfigError::DirCreateError(_) => "Failed to create config dir: "@,
            ConfigError::DecodeError(_) => "Failed to parse config: "@,
            ConfigError::EncodeError(_) => "Failed to serialize config: "@,
        }
    }

    /// Renders the error as its boundary message: the kind's prefix followed
    /// by the detail text.
    pub fn message(&self) -> (r: String)
        ensures
            r@ == self.prefix() + self.detail(),
    {
        match self {
            ConfigError::ConfigDirUnavailable(d) => {
                let mut m = "Failed to get config dir: ".to_owned();
                m.append(d.as_str());
                m
            },
            ConfigError::ReadError(d) => {
                let mut m = "Failed to read config: ".to_owned();
                m.append(d.as_str());
                m
            },
            ConfigError::WriteError(d) => {
                let mut m = "Failed to write config: ".to_owned();
                m.append(d.as_str());
                m
            },
            ConfigError::DeleteError(d) => {
                let mut m = "Failed to delete config: ".to_owned();
                m.append(d.as_str());
                m
            },
            ConfigError::DirCreateError(d) => {
                let mut m = "Failed to create config dir: ".to_owned();
                m.append(d.as_str());
                m
            },
            ConfigError::DecodeError(d) => {
                let mut m = "Failed to parse config: ".to_owned();
                m.append(d.as_str());
                m
            },
            ConfigError::EncodeError(d) => {
                let mut m = "Failed to serialize config: ".to_owned();
                m.append(d.as_str());
                m
            },
        }
    }

    /// The flat form handed to the boundary.
    pub fn into_app_error(&self) -> (r: AppError)
        ensures
            r.message@ == self.prefix() + self.detail(),
    {
        AppError { message: self.message() }
    }
}

/// The boundary's error value: a single human-readable message string.
#[derive(Debug)]
pub struct AppError {
    pub message: String,
}

impl AppError {
    pub fn new(message: String) -> (r: AppError)
        ensures
            r.message@ == message@,
    {
        AppError { message }
    }
}

} // verus!
