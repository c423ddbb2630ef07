//! Server configuration, as plain values.
use vstd::prelude::*;

verus! {

/// Where to listen and what to serve.
pub struct Config {
    pub host: String,
    pub port: u16,
    /// The document root, relative to the working directory.
    pub static_dir: String,
}

/// Why the configuration could not be had.
#[derive(Debug, Clone, Copy, PartialEq, Eq, Structural)]
pub enum ConfigError {
    ReadConfigFileFail,
    ConfigFormatError,
}

} // verus!
