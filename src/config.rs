//! The service's settings, built once at start from optional texts.

use vstd::prelude::*;

use crate::text::str_eq;

verus! {

/// The probe tool run when no executable is named.
pub const DEFAULT_EXECUTABLE: &'static str = "mc-monitor";

/// The time to live when none is given.
pub const DEFAULT_TIME_TO_LIVE: &'static str = "10 seconds";

/// The most entries the cache holds.
pub const CACHE_CAPACITY: usize = 100;

/// Why the settings could not be built.
#[derive(Clone, Copy, Debug, PartialEq, Eq, Structural)]
pub enum ConfigError {
    /// The time to live does not name a duration.
    InvalidTimeToLive,
    /// The time to idle does not name a duration.
    InvalidTimeToIdle,
    /// A duration is longer than the clock can count, in nanoseconds.
    DurationTooLong,
    /// The backend flag is neither `true` nor `false`.
    InvalidBackendFlag,
}

/// The settings. Durations are in nanoseconds, the coordinator's clock unit.
#[derive(Clone, Debug)]
pub struct Config {
    pub mc_monitor_executable: String,
    pub use_mc_monitor: bool,
    pub capacity: usize,
    pub time_to_live: u64,
    pub time_to_idle: Option<u64>,
}

pub ghost struct ConfigView {
    pub mc_monitor_executable: Seq<char>,
    pub use_mc_monitor: bool,
    pub capacity: usize,
    pub time_to_live: u64,
    pub time_to_idle: Option<u64>,
}

impl View for Config {
    type V = ConfigView;

    open spec fn view(&self) -> ConfigView {
        ConfigView {
            mc_monitor_executable: self.mc_monitor_executable@,
            use_mc_monitor: self.use_mc_monitor,
            capacity: self.capacity,
            time_to_live: self.time_to_live,
            time_to_idle: self.time_to_idle,
        }
    }
}

/// The length in nanoseconds of the duration that a text names, or `None`
/// where it names none, as `parse_duration::parse` reads it.
pub uninterp spec fn duration_nanos_of(s: Seq<char>) -> Option<u128>;

/// Relies on `parse_duration::parse`: the duration read depends on the text
/// alone, and is reported here in whole nanoseconds.
#[verifier::external_body]
fn parse_duration_nanos(s: &str) -> (r: Option<u128>)
    ensures
        r == duration_nanos_of(s@),
{
    match parse_duration::parse(s) {
        Ok(d) => Some(d.as_nanos()),
        Err(_) => None,
    }
}

/// What `bool::from_str` accepts.
pub open spec fn flag_of(s: Seq<char>) -> Option<bool> {
    if s == "true"@ {
        Some(true)
    } else if s == "false"@ {
        Some(false)
    } else {
        None
    }
}

/// A duration in nanoseconds as clock ticks, if it fits.
pub open spec fn ticks_of(nanos: u128) -> Result<u64, ConfigError> {
    if nanos <= u64::MAX {
        Ok(nanos as u64)
    } else {
        Err(ConfigError::DurationTooLong)
    }
}

pub open spec fn text_or(s: Option<String>, default: Seq<char>) -> Seq<char> {
    match s {
        Some(t) => t@,
        None => default,
    }
}

/// The settings from the executable's name, the time to live and the
/// optional time to idle (each as read, `None` where unreadable), and the
/// backend flag's text; absent values take their defaults.
pub open spec fn config_of(
    executable: Option<Seq<char>>,
    time_to_live: Option<u128>,
    time_to_idle: Option<Option<u128>>,
    flag: Option<Seq<char>>,
) -> Result<ConfigView, ConfigError> {
    match time_to_live {
        None => Err(ConfigError::InvalidTimeToLive),
        Some(ttl) => match ticks_of(ttl) {
            Err(e) => Err(e),
            Ok(ttl) => {
                let tti: Result<Option<u64>, ConfigError> = match time_to_idle {
                    None => Ok(None),
                    Some(None) => Err(ConfigError::InvalidTimeToIdle),
                    Some(Some(n)) => match ticks_of(n) {
                        Ok(t) => Ok(Some(t)),
                        Err(e) => Err(e),
                    },
                };
                match tti {
                    Err(e) => Err(e),
                    Ok(tti) => {
                        let f = match flag {
                            Some(s) => flag_of(s),
                            None => Some(true),
                        };
                        match f {
                            None => Err(ConfigError::InvalidBackendFlag),
                            Some(b) => Ok(
                                ConfigView {
                                    mc_monitor_executable: match executable {
                                        Some(e) => e,
                                        None => DEFAULT_EXECUTABLE@,
                                    },
                                    use_mc_monitor: b,
                                    capacity: CACHE_CAPACITY,
                                    time_to_live: ttl,
                                    time_to_idle: tti,
                                },
                            ),
                        }
                    },
                }
            },
        },
    }
}

pub open spec fn config_result_view(r: Result<Config, ConfigError>) -> Result<
    ConfigView,
    ConfigError,
> {
    match r {
        Ok(c) => Ok(c@),
        Err(e) => Err(e),
    }
}

pub open spec fn string_opt_view(s: Option<String>) -> Option<Seq<char>> {
    match s {
        Some(t) => Some(t@),
        None => None,
    }
}

/// Reads `true` or `false` as `bool::from_str` does.
pub fn parse_flag(s: &str) -> (r: Option<bool>)
    ensures
        r == flag_of(s@),
{
    if str_eq(s, "true") {
        Some(true)
    } else if str_eq(s, "false") {
        Some(false)
    } else {
        None
    }
}

fn ticks(nanos: u128) -> (r: Result<u64, ConfigError>)
    ensures
        r == ticks_of(nanos),
{
    if nanos <= u64::MAX as u128 {
        Ok(nanos as u64)
    } else {
        Err(ConfigError::DurationTooLong)
    }
}

impl Config {
    /// Builds the settings from durations already read. See [`config_of`].
    pub fn from_parts(
        executable: Option<String>,
        time_to_live: Option<u128>,
        time_to_idle: Option<Option<u128>>,
        use_mc_monitor: Option<String>,
    ) -> (r: Result<Config, ConfigError>)
        ensures
            config_result_view(r) == config_of(
                string_opt_view(executable),
                time_to_live,
                time_to_idle,
                string_opt_view(use_mc_monitor),
            ),
    {
        let ttl = match time_to_live {
            None => return Err(ConfigError::InvalidTimeToLive),
            Some(n) => ticks(n)?,
        };
        let tti = match time_to_idle {
            None => None,
            Some(None) => return Err(ConfigError::InvalidTimeToIdle),
            Some(Some(n)) => Some(ticks(n)?),
        };
        let flag = match &use_mc_monitor {
            Some(s) => parse_flag(s.as_str()),
            None => Some(true),
        };
        let use_mc_monitor = match flag {
            Some(b) => b,
            None => return Err(ConfigError::InvalidBackendFlag),
        };
        let mc_monitor_executable = match executable {
            Some(e) => e,
            None => DEFAULT_EXECUTABLE.to_owned(),
        };
        Ok(
            Config {
                mc_monitor_executable,
                use_mc_monitor,
                capacity: CACHE_CAPACITY,
                time_to_live: ttl,
                time_to_idle: tti,
            },
        )
    }

    /// Builds the settings from their texts, each `None` where unset: the
    /// probe executable, the time to live and time to idle as durations
    /// (`"10 seconds"`, `"1m 30s"`), and the backend flag.
    pub fn load(
        executable: Option<String>,
        time_to_live: Option<String>,
        time_to_idle: Option<String>,
        use_mc_monitor: Option<String>,
    ) -> (r: Result<Config, ConfigError>)
        ensures
            config_result_view(r) == config_of(
                string_opt_view(executable),
                duration_nanos_of(text_or(time_to_live, DEFAULT_TIME_TO_LIVE@)),
                match time_to_idle {
                    Some(t) => Some(duration_nanos_of(t@)),
                    None => None,
                },
                string_opt_view(use_mc_monitor),
            ),
    {
        let ttl = match &time_to_live {
            Some(t) => parse_duration_nanos(t.as_str()),
            None => parse_duration_nanos(DEFAULT_TIME_TO_LIVE),
        };
        let tti = match &time_to_idle {
            Some(t) => Some(parse_duration_nanos(t.as_str())),
            None => None,
        };
        Config::from_parts(executable, ttl, tti, use_mc_monitor)
    }
}

} // verus!
