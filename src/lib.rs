//! Status lookups for game servers: address canonicalisation, the probe
//! output parser, and a single-flight, time-bounded, least-recently-used
//! cache coordinator.

mod address;
mod cache;
mod config;
mod monitor;
mod probe;
mod text;

pub use address::{
    canonical_key, canonicalize, colon_count, domain_of, has_alpha, ips_view, key_of,
    key_result_view, opt_view, plan_address, plan_of, plan_result_view, AddressError,
    AddressPlan, Endpoint, IpAddress, KeyView, PlanView, ServerAddr, DEFAULT_PORT,
};
pub use cache::{
    begin_step, complete_step, entry_pos, has_entry, has_pending, install, is_live, pending_pos,
    success_view, unique_entry_keys, unique_pending_keys, CacheEntry, CacheView, EntryView, Lookup,
    LookupView, PendingView, StatusCache,
};
pub use config::{
    config_of, config_result_view, duration_nanos_of, flag_of, parse_flag, string_opt_view, text_or,
    ticks_of, Config, ConfigError, ConfigView, CACHE_CAPACITY, DEFAULT_EXECUTABLE,
    DEFAULT_TIME_TO_LIVE,
};
pub use monitor::{
    count_value, field_value, parse_report, parse_result_view, unquoted, Field, MonitorOutput,
    MonitorView, ParseError,
};
pub use probe::{
    interpret_run, monitor_opt_view, probe_backend, run_outcome, status_result_view, FetchError,
    ServerStatus, StatusView,
};
pub use text::{find_from, is_ascii_alpha, parse_u16, split_once, str_eq, u16_of};
