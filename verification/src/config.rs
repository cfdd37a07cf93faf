//! The configuration of a server, checked once before it starts.

use vstd::prelude::*;
use vstd::slice::slice_to_vec;
use crate::media::same_nocase;
use crate::path::{canonical_segments, RootDir};
use crate::text::{ascii, is_text_nocase, text_bytes};
use crate::validator::opt_bytes;

verus! {

/// How much the server logs.
#[derive(Debug, Clone, Copy, PartialEq, Eq, Structural)]
pub enum LogLevel {
    Error,
    Warn,
    Info,
    Debug,
    Trace,
}

/// The name of a level, as a log filter takes it.
pub open spec fn level_name(level: LogLevel) -> Seq<u8> {
    match level {
        LogLevel::Error => ascii("error"@),
        LogLevel::Warn => ascii("warn"@),
        LogLevel::Info => ascii("info"@),
        LogLevel::Debug => ascii("debug"@),
        LogLevel::Trace => ascii("trace"@),
    }
}

/// The level that a text names, in either case of its letters.
pub open spec fn level_named(text: Seq<u8>) -> Option<LogLevel> {
    if same_nocase(text, ascii("error"@)) {
        Some(LogLevel::Error)
    } else if same_nocase(text, ascii("warn"@)) {
        Some(LogLevel::Warn)
    } else if same_nocase(text, ascii("info"@)) {
        Some(LogLevel::Info)
    } else if same_nocase(text, ascii("debug"@)) {
        Some(LogLevel::Debug)
    } else if same_nocase(text, ascii("trace"@)) {
        Some(LogLevel::Trace)
    } else {
        None
    }
}

/// The filter that the logger is set up with: the override from the
/// environment where there is one, else the name of the configured level.
pub open spec fn filter_directive(env_override: Option<Seq<u8>>, level: LogLevel) -> Seq<u8> {
    match env_override {
        Some(filter) => filter,
        None => level_name(level),
    }
}

impl LogLevel {
    /// Reads the name of a level.
    pub fn parse(text: &[u8]) -> (r: Option<LogLevel>)
        ensures
            r == level_named(text@),
    {
        proof {
            reveal_strlit("error");
            reveal_strlit("warn");
            reveal_strlit("info");
            reveal_strlit("debug");
            reveal_strlit("trace");
        }
        if is_text_nocase(text, "error") {
            Some(LogLevel::Error)
        } else if is_text_nocase(text, "warn") {
            Some(LogLevel::Warn)
        } else if is_text_nocase(text, "info") {
            Some(LogLevel::Info)
        } else if is_text_nocase(text, "debug") {
            Some(LogLevel::Debug)
        } else if is_text_nocase(text, "trace") {
            Some(LogLevel::Trace)
        } else {
            None
        }
    }

    /// The name of the level.
    pub fn name(&self) -> (r: Vec<u8>)
        ensures
            r@ == level_name(*self),
    {
        proof {
            reveal_strlit("error");
            reveal_strlit("warn");
            reveal_strlit("info");
            reveal_strlit("debug");
            reveal_strlit("trace");
        }
        match self {
            LogLevel::Error => text_bytes("error"),
            LogLevel::Warn => text_bytes("warn"),
            LogLevel::Info => text_bytes("info"),
            LogLevel::Debug => text_bytes("debug"),
            LogLevel::Trace => text_bytes("trace"),
        }
    }
}

/// The filter to set the logger up with.
pub fn log_filter(env_override: &Option<Vec<u8>>, level: LogLevel) -> (r: Vec<u8>)
    ensures
        r@ == filter_directive(opt_bytes(*env_override), level),
{
    match env_override {
        Some(filter) => slice_to_vec(filter.as_slice()),
        None => level.name(),
    }
}

/// The name of a level is read back as that level.
pub proof fn lemma_level_name_is_read_back(level: LogLevel)
    ensures
        level_named(level_name(level)) == Some(level),
{
    reveal_strlit("error");
    reveal_strlit("warn");
    reveal_strlit("info");
    reveal_strlit("debug");
    reveal_strlit("trace");
    let e = crate::text::lower_seq(ascii("error"@));
    let w = crate::text::lower_seq(ascii("warn"@));
    let i = crate::text::lower_seq(ascii("info"@));
    let d = crate::text::lower_seq(ascii("debug"@));
    let t = crate::text::lower_seq(ascii("trace"@));
    assert(e.len() == 5 && w.len() == 4 && i.len() == 4 && d.len() == 5 && t.len() == 5);
    assert(w[0] != i[0]);
    assert(e[0] != d[0] && e[0] != t[0] && d[0] != t[0]);
}

/// The address to listen on.
#[derive(Debug, Clone, Copy, PartialEq, Eq)]
pub enum BindAddress {
    V4([u8; 4]),
    V6([u16; 8]),
}

/// What the filesystem says of the directory that is to be served.
#[derive(Debug, Clone, PartialEq, Eq)]
pub enum DirProbe {
    Missing,
    NotADirectory,
    /// A directory, with its canonical absolute path.
    Directory(Vec<u8>),
}

/// Why a server cannot start with the settings that it was given.
#[derive(Debug, Clone, Copy, PartialEq, Eq, Structural)]
pub enum ConfigError {
    InvalidLogLevel,
    MissingDirectory,
    NotADirectory,
    /// The path of the directory is not in canonical absolute form.
    RootNotCanonical,
    InvalidAddress,
}

impl ConfigError {
    /// A description for the person who started the server.
    pub fn message(&self) -> (r: &'static str)
        ensures
            r@ == match *self {
                ConfigError::InvalidLogLevel => "log level must be one of error, warn, info, debug, trace"@,
                ConfigError::MissingDirectory => "directory does not exist"@,
                ConfigError::NotADirectory => "path is not a directory"@,
                ConfigError::RootNotCanonical => "directory path is not canonical"@,
                ConfigError::InvalidAddress => "invalid IP address"@,
            },
    {
        match self {
            ConfigError::InvalidLogLevel => "log level must be one of error, warn, info, debug, trace",
            ConfigError::MissingDirectory => "directory does not exist",
            ConfigError::NotADirectory => "path is not a directory",
            ConfigError::RootNotCanonical => "directory path is not canonical",
            ConfigError::InvalidAddress => "invalid IP address",
        }
    }
}

/// What is wrong with the settings, if anything. The log level is judged
/// first, then the directory, then the address.
pub open spec fn config_fault(
    directory: DirProbe,
    address: Option<BindAddress>,
    log_level: Seq<u8>,
) -> Option<ConfigError> {
    if level_named(log_level).is_none() {
        Some(ConfigError::InvalidLogLevel)
    } else {
        match directory {
            DirProbe::Missing => Some(ConfigError::MissingDirectory),
            DirProbe::NotADirectory => Some(ConfigError::NotADirectory),
            DirProbe::Directory(path) => if canonical_segments(path@).is_none() {
                Some(ConfigError::RootNotCanonical)
            } else if address.is_none() {
                Some(ConfigError::InvalidAddress)
            } else {
                None
            },
        }
    }
}

/// The settings of a running server. They do not change once made.
#[derive(Debug, Clone, PartialEq, Eq)]
pub struct ServerConfig {
    root: RootDir,
    address: BindAddress,
    port: u16,
    log_level: LogLevel,
}

impl ServerConfig {
    /// The segments of the directory that is served.
    pub closed spec fn root_segments(&self) -> Seq<Seq<u8>> {
        self.root@
    }

    /// The address to listen on.
    pub closed spec fn bind_address(&self) -> BindAddress {
        self.address
    }

    /// The port to listen on.
    pub closed spec fn bind_port(&self) -> u16 {
        self.port
    }

    /// The configured log level.
    pub closed spec fn level(&self) -> LogLevel {
        self.log_level
    }

    /// Checks the settings. `directory` is what the filesystem says of the
    /// directory to serve; `address` is the listen address, if the text
    /// given for it was one.
    pub fn new(
        directory: &DirProbe,
        address: Option<BindAddress>,
        port: u16,
        log_level: &[u8],
    ) -> (r: Result<ServerConfig, ConfigError>)
        ensures
            match r {
                Ok(config) => {
                    &&& config_fault(*directory, address, log_level@).is_none()
                    &&& directory is Directory
                    &&& Some(config.root_segments()) == canonical_segments(
                        directory->Directory_0@,
                    )
                    &&& Some(config.bind_address()) == address
                    &&& config.bind_port() == port
                    &&& Some(config.level()) == level_named(log_level@)
                },
                Err(e) => config_fault(*directory, address, log_level@) == Some(e),
            },
    {
        let level = match LogLevel::parse(log_level) {
            Some(level) => level,
            None => {
                return Err(ConfigError::InvalidLogLevel);
            },
        };
        let root = match directory {
            DirProbe::Missing => {
                return Err(ConfigError::MissingDirectory);
            },
            DirProbe::NotADirectory => {
                return Err(ConfigError::NotADirectory);
            },
            DirProbe::Directory(path) => match RootDir::new(path.as_slice()) {
                Some(root) => root,
                None => {
                    return Err(ConfigError::RootNotCanonical);
                },
            },
        };
        match address {
            Some(address) => Ok(ServerConfig { root, address, port, log_level: level }),
            None => Err(ConfigError::InvalidAddress),
        }
    }

    /// The directory that is served.
    pub fn root(&self) -> (r: &RootDir)
        ensures
            r@ == self.root_segments(),
    {
        &self.root
    }

    /// The address to listen on.
    pub fn address(&self) -> (r: BindAddress)
        ensures
            r == self.bind_address(),
    {
        self.address
    }

    /// The port to listen on.
    pub fn port(&self) -> (r: u16)
        ensures
            r == self.bind_port(),
    {
        self.port
    }

    /// The configured log level.
    pub fn log_level(&self) -> (r: LogLevel)
        ensures
            r == self.level(),
    {
        self.log_level
    }
}

} // verus!
