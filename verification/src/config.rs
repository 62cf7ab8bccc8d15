use vstd::prelude::*;

verus! {

/// Default port the server binds when none is configured.
pub const DEFAULT_PORT: u16 = 8080;

/// Default interval, in seconds, between snapshot writes.
pub const DEFAULT_SNAPSHOT_INTERVAL_SECS: u64 = 10;

/// Process configuration, read once at startup and passed by value to the
/// components that need it: where to bind, where snapshots go and how
/// often, and the store's retention bound.
pub struct AppConfig {
    pub host: String,
    pub port: u16,
    pub snapshot_path: String,
    pub max_entries: usize,
    pub snapshot_interval_secs: u64,
}

impl AppConfig {
    /// Well-formedness: the retention bound is positive.
    pub open spec fn wf(&self) -> bool {
        1 <= self.max_entries
    }

    pub fn new(
        host: String,
        port: u16,
        snapshot_path: String,
        max_entries: usize,
        snapshot_interval_secs: u64,
    ) -> (r: AppConfig)
        requires
            1 <= max_entries,
        ensures
            r.wf(),
            r.host@ == host@,
            r.port == port,
            r.snapshot_path@ == snapshot_path@,
            r.max_entries == max_entries,
            r.snapshot_interval_secs == snapshot_interval_secs,
    {
        AppConfig { host, port, snapshot_path, max_entries, snapshot_interval_secs }
    }
}

impl Default for AppConfig {
    /// The documented defaults: loopback on the default port, snapshots to
    /// `logs.json` on the default interval, and the default retention
    /// bound.
    fn default() -> (r: AppConfig)
        ensures
            r.wf(),
            r.host@ == "127.0.0.1"@,
            r.port == DEFAULT_PORT,
            r.snapshot_path@ == "logs.json"@,
            r.max_entries == crate::store::DEFAULT_CAPACITY,
            r.snapshot_interval_secs == DEFAULT_SNAPSHOT_INTERVAL_SECS,
    {
        AppConfig {
            host: String::from_str("127.0.0.1"),
            port: DEFAULT_PORT,
            snapshot_path: String::from_str("logs.json"),
            max_entries: crate::store::DEFAULT_CAPACITY,
            snapshot_interval_secs: DEFAULT_SNAPSHOT_INTERVAL_SECS,
        }
    }
}

} // verus!
