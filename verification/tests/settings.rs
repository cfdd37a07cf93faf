use static_serve::config::{
    log_filter, BindAddress, ConfigError, DirProbe, LogLevel, ServerConfig,
};

fn directory() -> DirProbe {
    DirProbe::Directory(b"/srv/www".to_vec())
}

fn local() -> Option<BindAddress> {
    Some(BindAddress::V4([127, 0, 0, 1]))
}

#[test]
fn test_setup_logging() {
    assert!(LogLevel::parse(b"debug").is_some());
    assert_eq!(log_filter(&None, LogLevel::parse(b"debug").unwrap()), b"debug".to_vec());
}

#[test]
fn the_five_levels_are_read() {
    assert_eq!(LogLevel::parse(b"error"), Some(LogLevel::Error));
    assert_eq!(LogLevel::parse(b"warn"), Some(LogLevel::Warn));
    assert_eq!(LogLevel::parse(b"info"), Some(LogLevel::Info));
    assert_eq!(LogLevel::parse(b"debug"), Some(LogLevel::Debug));
    assert_eq!(LogLevel::parse(b"trace"), Some(LogLevel::Trace));
    assert_eq!(LogLevel::parse(b"DEBUG"), Some(LogLevel::Debug));
    assert_eq!(LogLevel::parse(b"Warn"), Some(LogLevel::Warn));
}

#[test]
fn other_texts_are_no_level() {
    assert_eq!(LogLevel::parse(b""), None);
    assert_eq!(LogLevel::parse(b"verbose"), None);
    assert_eq!(LogLevel::parse(b"warning"), None);
    assert_eq!(LogLevel::parse(b" info"), None);
    assert_eq!(LogLevel::parse(b"info,debug"), None);
}

#[test]
fn levels_give_their_names() {
    assert_eq!(LogLevel::Error.name(), b"error".to_vec());
    assert_eq!(LogLevel::Warn.name(), b"warn".to_vec());
    assert_eq!(LogLevel::Info.name(), b"info".to_vec());
    assert_eq!(LogLevel::Debug.name(), b"debug".to_vec());
    assert_eq!(LogLevel::Trace.name(), b"trace".to_vec());
    for level in [LogLevel::Error, LogLevel::Warn, LogLevel::Info, LogLevel::Debug, LogLevel::Trace]
    {
        assert_eq!(LogLevel::parse(&level.name()), Some(level));
    }
}

#[test]
fn the_environment_overrides_the_level() {
    let filter = Some(b"static_serve=trace,tower_http=debug".to_vec());
    assert_eq!(log_filter(&filter, LogLevel::Info), b"static_serve=trace,tower_http=debug".to_vec());
    assert_eq!(log_filter(&Some(Vec::new()), LogLevel::Info), Vec::<u8>::new());
    assert_eq!(log_filter(&None, LogLevel::Info), b"info".to_vec());
}

#[test]
fn good_settings_are_kept() {
    let config = ServerConfig::new(&directory(), local(), 13337, b"info").expect("settings");
    assert_eq!(config.root().path(), b"/srv/www".to_vec());
    assert_eq!(config.address(), BindAddress::V4([127, 0, 0, 1]));
    assert_eq!(config.port(), 13337);
    assert_eq!(config.log_level(), LogLevel::Info);
}

#[test]
fn an_address_of_the_other_family_is_kept() {
    let loopback = BindAddress::V6([0, 0, 0, 0, 0, 0, 0, 1]);
    let config = ServerConfig::new(&directory(), Some(loopback), 0, b"trace").expect("settings");
    assert_eq!(config.address(), loopback);
    assert_eq!(config.port(), 0);
    assert_eq!(config.log_level(), LogLevel::Trace);
}

#[test]
fn each_fault_has_its_error() {
    assert_eq!(
        ServerConfig::new(&directory(), local(), 80, b"loud"),
        Err(ConfigError::InvalidLogLevel)
    );
    assert_eq!(
        ServerConfig::new(&DirProbe::Missing, local(), 80, b"info"),
        Err(ConfigError::MissingDirectory)
    );
    assert_eq!(
        ServerConfig::new(&DirProbe::NotADirectory, local(), 80, b"info"),
        Err(ConfigError::NotADirectory)
    );
    assert_eq!(
        ServerConfig::new(&DirProbe::Directory(b"www".to_vec()), local(), 80, b"info"),
        Err(ConfigError::RootNotCanonical)
    );
    assert_eq!(
        ServerConfig::new(&directory(), None, 80, b"info"),
        Err(ConfigError::InvalidAddress)
    );
}

#[test]
fn the_log_level_is_judged_first_and_the_address_last() {
    assert_eq!(
        ServerConfig::new(&DirProbe::Missing, None, 80, b"loud"),
        Err(ConfigError::InvalidLogLevel)
    );
    assert_eq!(
        ServerConfig::new(&DirProbe::Missing, None, 80, b"info"),
        Err(ConfigError::MissingDirectory)
    );
}

#[test]
fn errors_describe_themselves() {
    assert_eq!(
        ConfigError::InvalidLogLevel.message(),
        "log level must be one of error, warn, info, debug, trace"
    );
    assert_eq!(ConfigError::MissingDirectory.message(), "directory does not exist");
    assert_eq!(ConfigError::NotADirectory.message(), "path is not a directory");
    assert_eq!(ConfigError::RootNotCanonical.message(), "directory path is not canonical");
    assert_eq!(ConfigError::InvalidAddress.message(), "invalid IP address");
}
