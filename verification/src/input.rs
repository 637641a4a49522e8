//! The input of the generator: its configuration files, and where they lie.
pub mod apply_schedule;
pub mod copy_delay_config;
pub mod fahrplan_config;
pub mod rolling_stock_config;
pub mod schedule;

use std::path::PathBuf;
use vstd::prelude::*;

verus! {

/// Paths of the standard library, carried through unchanged.
#[verifier::external_type_specification]
#[verifier::external_body]
pub struct ExPathBuf(std::path::PathBuf);

/// A configuration together with the root of the data directory it refers to.
#[derive(PartialEq, Eq, Debug)]
pub struct ZusiEnvironmentConfig<T> {
    /// Path to own data directory root
    pub base_path: PathBuf,
    pub value: T,
}

impl<T> ZusiEnvironmentConfig<T> {
    /// Splits the configuration into its environment, which records where the
    /// configuration file lies, and its value.
    pub fn into_zusi_environment(self, config_path: PathBuf) -> (r: (ZusiEnvironment, T))
        ensures
            r.0.base_path == self.base_path,
            r.0.config_path == config_path,
            r.1 == self.value,
    {
        ZusiEnvironment::from_zusi_environment_config(self, config_path)
    }
}

/// Where the data directory and the configuration file lie.
pub struct ZusiEnvironment {
    /// Path to own data directory root
    pub base_path: PathBuf,
    /// Path to configuration file used as input
    pub config_path: PathBuf,
}

impl ZusiEnvironment {
    /// The environment of a configuration read from `config_path`, and the
    /// configuration's value.
    pub fn from_zusi_environment_config<T>(config: ZusiEnvironmentConfig<T>, config_path: PathBuf) -> (r: (ZusiEnvironment, T))
        ensures
            r.0.base_path == config.base_path,
            r.0.config_path == config_path,
            r.1 == config.value,
    {
        (ZusiEnvironment { base_path: config.base_path, config_path }, config.value)
    }
}

} // verus!
