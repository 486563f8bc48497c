//! The configuration document and the error taxonomy of its lifecycle.

use vstd::prelude::*;

verus! {

/// The persisted configuration document: an ordered list of collection
/// directory paths (order is display order; duplicates are permitted) and
/// the path of the object-detection model artifact.
#[derive(Debug, Clone, PartialEq, Eq)]
pub struct Config {
    pub collections: Vec<String>,
    pub od_model: String,
}

/// Mathematical model of a `Config`: each path as its sequence of characters.
#[verifier::ext_equal]
pub ghost struct ConfigModel {
    pub collections: Seq<Seq<char>>,
    pub od_model: Seq<char>,
}

impl View for Config {
    type V = ConfigModel;

    open spec fn view(&self) -> ConfigModel {
        ConfigModel { collections: self.collections.deep_view(), od_model: self.od_model@ }
    }
}

/// Every way the configuration lifecycle can fail.
///
/// The load-time failures (`ConfigMissing`, `ConfigMalformed`,
/// `ModelPathInvalid`) are fatal to a session: the caller must terminate
/// rather than proceed with a partial or default configuration. The others
/// are local and recoverable.
#[derive(Debug, Clone, Copy, PartialEq, Eq, Structural)]
pub enum ConfigError {
    /// The configuration file does not exist.
    ConfigMissing,
    /// The file exists but cannot be parsed into the expected structure.
    ConfigMalformed,
    /// Parsing succeeded but `od_model` names no existing filesystem entry.
    ModelPathInvalid,
    /// The destination could not be created or written at save time.
    ConfigWriteFailed,
    /// The path offered as a new collection names no existing entry.
    CollectionPathInvalid,
    /// The external process could not be started.
    LaunchFailed,
    /// A collection index was outside the current list.
    IndexOutOfRange,
}

pub open spec fn config_missing_text() -> Seq<char> {
    "config.json does not exist"@
}

pub open spec fn config_malformed_text() -> Seq<char> {
    "malformed configuration file"@
}

pub open spec fn model_path_invalid_text() -> Seq<char> {
    "model path does not exist"@
}

pub open spec fn config_write_failed_text() -> Seq<char> {
    "could not write config.json"@
}

pub open spec fn collection_path_invalid_text() -> Seq<char> {
    "Collection does not exist"@
}

pub open spec fn launch_failed_text() -> Seq<char> {
    "could not start the external process"@
}

pub open spec fn index_out_of_range_text() -> Seq<char> {
    "collection index out of range"@
}

/// The user-facing text of an error.
pub open spec fn error_text(e: ConfigError) -> Seq<char> {
    match e {
        ConfigError::ConfigMissing => config_missing_text(),
        ConfigError::ConfigMalformed => config_malformed_text(),
        ConfigError::ModelPathInvalid => model_path_invalid_text(),
        ConfigError::ConfigWriteFailed => config_write_failed_text(),
        ConfigError::CollectionPathInvalid => collection_path_invalid_text(),
        ConfigError::LaunchFailed => launch_failed_text(),
        ConfigError::IndexOutOfRange => index_out_of_range_text(),
    }
}

impl ConfigError {
    /// A human-readable description of the failure.
    pub fn message(&self) -> (r: String)
        ensures
            r@ == error_text(*self),
    {
        match self {
            ConfigError::ConfigMissing => String::from_str("config.json does not exist"),
            ConfigError::ConfigMalformed => String::from_str("malformed configuration file"),
            ConfigError::ModelPathInvalid => String::from_str("model path does not exist"),
            ConfigError::ConfigWriteFailed => String::from_str("could not write config.json"),
            ConfigError::CollectionPathInvalid => String::from_str("Collection does not exist"),
            ConfigError::LaunchFailed => String::from_str("could not start the external process"),
            ConfigError::IndexOutOfRange => String::from_str("collection index out of range"),
        }
    }
}

} // verus!
