use std::path::PathBuf;
use zusi_fahrplan_generator::input::{ZusiEnvironment, ZusiEnvironmentConfig};

#[test]
fn test_into_zusi_environment() {
    let config = ZusiEnvironmentConfig { base_path: PathBuf::from("path/to/base"), value: vec!["A", "B"] };
    let (environment, value) = config.into_zusi_environment(PathBuf::from("config/fahrplan.xml"));
    assert_eq!(environment.base_path, PathBuf::from("path/to/base"));
    assert_eq!(environment.config_path, PathBuf::from("config/fahrplan.xml"));
    assert_eq!(value, vec!["A", "B"]);
}

#[test]
fn test_from_zusi_environment_config() {
    let config = ZusiEnvironmentConfig { base_path: PathBuf::from("/data"), value: 7 };
    let (environment, value) = ZusiEnvironment::from_zusi_environment_config(config, PathBuf::from("/c.xml"));
    assert_eq!(environment.base_path, PathBuf::from("/data"));
    assert_eq!(environment.config_path, PathBuf::from("/c.xml"));
    assert_eq!(value, 7);
}
