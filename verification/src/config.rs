//! Configuration of the studio (`config.toml`) and the proxy (`proxy.toml`).
use crate::text;
use vstd::prelude::*;

verus! {

/// Proxy configuration (`proxy.toml`).
#[derive(Clone, Debug)]
pub struct Config {
    pub proxy: ProxyConfig,
    pub dump: DumpConfig,
    pub console: ConsoleConfig,
    /// Frame streaming to the studio host.
    pub stream: StreamConfig,
    /// Actions replayed to the console.
    pub replay: ReplayConfig,
    pub performance: PerformanceConfig,
    pub logging: LoggingConfig,
}

/// Forwarding between controller and console.
#[derive(Clone, Copy, Debug)]
pub struct ProxyConfig {
    /// Timeout for reading from the controller (milliseconds).
    pub controller_read_timeout_ms: i32,
    /// Interval for logging frame count progress.
    pub frame_count_log_interval: u64,
    /// Retry delay when the gadget device fails to open (milliseconds).
    pub hidg_retry_delay_ms: u64,
}

/// Local backup recording on the proxy.
#[derive(Clone, Debug)]
pub struct DumpConfig {
    /// Record a session from launch until exit, next to what the studio records.
    pub autostart: bool,
    /// Path prefix of that session folder.
    pub prefix: String,
}

/// Console output configuration.
#[derive(Clone, Copy, Debug)]
pub struct ConsoleConfig {
    /// Enable console output to the terminal.
    pub enable: bool,
}

/// Frame streaming configuration.
#[derive(Clone, Copy, Debug)]
pub struct StreamConfig {
    /// TCP port the studio host connects to.
    pub port: u16,
}

/// Replay configuration.
#[derive(Clone, Copy, Debug)]
pub struct ReplayConfig {
    /// TCP port that takes actions.
    pub port: u16,
}

/// Performance configuration.
#[derive(Clone, Copy, Debug)]
pub struct PerformanceConfig {
    /// Pin the proxy to a random core.
    pub enable_cpu_affinity: bool,
}

/// Logging configuration.
#[derive(Clone, Debug)]
pub struct LoggingConfig {
    /// Log level: error, warn, info, debug, trace.
    pub level: String,
}

/// Studio host configuration (`config.toml`).
#[derive(Clone, Debug)]
pub struct StudioConfig {
    /// Where the proxy streams frames from.
    pub proxy: RemoteProxyConfig,
    /// Dashboard server.
    pub web: WebConfig,
    /// Session recording defaults.
    pub recording: RecordingConfig,
    /// Video capture.
    pub video: VideoConfig,
    pub logging: LoggingConfig,
}

/// The machine running the proxy.
#[derive(Clone, Debug)]
pub struct RemoteProxyConfig {
    /// `host:port` of the proxy's stream port.
    pub address: String,
    /// `host:port` of the proxy's replay port.
    pub replay_address: String,
}

/// Dashboard server configuration.
#[derive(Clone, Copy, Debug)]
pub struct WebConfig {
    /// Port for the dashboard.
    pub port: u16,
}

/// Session recording defaults.
#[derive(Clone, Debug)]
pub struct RecordingConfig {
    /// Path prefix for session folders until one is set from the dashboard.
    pub prefix: String,
}

/// Video capture configuration.
#[derive(Clone, Debug)]
pub struct VideoConfig {
    /// Input at first launch: `screen`, a device like `/dev/video0`, or nothing.
    pub input: String,
    /// Capture frame rate.
    pub fps: u32,
    /// Extra ffmpeg input options for V4L2 devices, such as format and size.
    pub v4l2_args: Vec<String>,
    /// Recorded height in pixels, 0 for the source size.
    pub record_height: u32,
    /// Recorded frame rate.
    pub record_fps: u32,
    /// ffmpeg encoder options for recordings.
    pub encoder: Vec<String>,
    /// Recording file extension.
    pub extension: String,
    /// Preview height in pixels.
    pub preview_height: u32,
    /// Preview frame rate.
    pub preview_fps: u32,
    /// ffmpeg encoder options for the live preview.
    pub preview_encoder: Vec<String>,
}

/// How much is logged.
#[derive(Clone, Copy, Debug, PartialEq, Eq, Structural)]
pub enum LogLevel {
    Error,
    Warn,
    Info,
    Debug,
    Trace,
}

/// The configuration is refused.
#[derive(Clone, Debug)]
pub enum ConfigError {
    /// The log level is none of the five.
    InvalidLogLevel(String),
}

/// The log level of a name, in any case.
pub open spec fn level_named(name: Seq<char>) -> Option<LogLevel> {
    let l = text::lowercase(name);
    if l == "error"@ {
        Some(LogLevel::Error)
    } else if l == "warn"@ {
        Some(LogLevel::Warn)
    } else if l == "info"@ {
        Some(LogLevel::Info)
    } else if l == "debug"@ {
        Some(LogLevel::Debug)
    } else if l == "trace"@ {
        Some(LogLevel::Trace)
    } else {
        None
    }
}

/// The log level of a name already in lower case.
pub fn level_of_lower(l: &str) -> (r: Option<LogLevel>)
    ensures
        r == (if l@ == "error"@ {
            Some(LogLevel::Error)
        } else if l@ == "warn"@ {
            Some(LogLevel::Warn)
        } else if l@ == "info"@ {
            Some(LogLevel::Info)
        } else if l@ == "debug"@ {
            Some(LogLevel::Debug)
        } else if l@ == "trace"@ {
            Some(LogLevel::Trace)
        } else {
            None
        }),
{
    if text::same(l, "error") {
        Some(LogLevel::Error)
    } else if text::same(l, "warn") {
        Some(LogLevel::Warn)
    } else if text::same(l, "info") {
        Some(LogLevel::Info)
    } else if text::same(l, "debug") {
        Some(LogLevel::Debug)
    } else if text::same(l, "trace") {
        Some(LogLevel::Trace)
    } else {
        None
    }
}

/// The log level of a name, in any case.
pub fn log_level(name: &str) -> (r: Option<LogLevel>)
    ensures
        r == level_named(name@),
{
    let l = text::to_lower(name);
    level_of_lower(l.as_str())
}

/// The log level of a name; `info` for one that is none.
pub fn log_level_or_info(name: &str) -> (r: LogLevel)
    ensures
        r == (match level_named(name@) {
            Some(l) => l,
            None => LogLevel::Info,
        }),
{
    match log_level(name) {
        Some(l) => l,
        None => LogLevel::Info,
    }
}

impl LoggingConfig {
    /// Check that the log level is one there is.
    pub fn validate(&self) -> (r: Result<(), ConfigError>)
        ensures
            match r {
                Ok(_) => level_named(self.level@) is Some,
                Err(ConfigError::InvalidLogLevel(level)) => level_named(self.level@) is None && level
                    == self.level,
            },
    {
        match log_level(self.level.as_str()) {
            Some(_) => Ok(()),
            None => Err(ConfigError::InvalidLogLevel(self.level.clone())),
        }
    }
}

impl Config {
    /// Check the configuration's values.
    pub fn validate(&self) -> (r: Result<(), ConfigError>)
        ensures
            match r {
                Ok(_) => level_named(self.logging.level@) is Some,
                Err(ConfigError::InvalidLogLevel(level)) => level_named(self.logging.level@) is None
                    && level == self.logging.level,
            },
    {
        self.logging.validate()
    }
}

/// Whether an environment variable switches pinning on: `1`, or `true` in any
/// case.
pub fn affinity_enabled(value: Option<&str>) -> (r: bool)
    ensures
        r == (match value {
            Some(v) => v@ == "1"@ || text::lowercase(v@) == "true"@,
            None => false,
        }),
{
    match value {
        Some(v) => {
            let l = text::to_lower(v);
            text::same(v, "1") || text::same(l.as_str(), "true")
        },
        None => false,
    }
}

/// Five words name a level, in letters of either size, and no other does.
pub proof fn law_levels_are_named(name: Seq<char>)
    ensures
        ({
            let l = text::lowercase(name);
            &&& (level_named(name) == Some(LogLevel::Error)) == (l == seq!['e', 'r', 'r', 'o', 'r'])
            &&& (level_named(name) == Some(LogLevel::Warn)) == (l == seq!['w', 'a', 'r', 'n'])
            &&& (level_named(name) == Some(LogLevel::Info)) == (l == seq!['i', 'n', 'f', 'o'])
            &&& (level_named(name) == Some(LogLevel::Debug)) == (l == seq!['d', 'e', 'b', 'u', 'g'])
            &&& (level_named(name) == Some(LogLevel::Trace)) == (l == seq!['t', 'r', 'a', 'c', 'e'])
        }),
{
    reveal_strlit("error");
    reveal_strlit("warn");
    reveal_strlit("info");
    reveal_strlit("debug");
    reveal_strlit("trace");
    let e = seq!['e', 'r', 'r', 'o', 'r'];
    let w = seq!['w', 'a', 'r', 'n'];
    let i = seq!['i', 'n', 'f', 'o'];
    let d = seq!['d', 'e', 'b', 'u', 'g'];
    let t = seq!['t', 'r', 'a', 'c', 'e'];
    assert("error"@ =~= e);
    assert("warn"@ =~= w);
    assert("info"@ =~= i);
    assert("debug"@ =~= d);
    assert("trace"@ =~= t);
    assert(e[0] == 'e' && w[0] == 'w' && i[0] == 'i' && d[0] == 'd' && t[0] == 't');
}

} // verus!
