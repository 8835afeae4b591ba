//! How a record store is opened.

use vstd::prelude::*;

verus! {

/// Retained log segments unless configuration says otherwise.
pub const DEFAULT_MAX_LOG_COUNT: u8 = 4;

/// Bytes per log segment unless configuration says otherwise.
pub const DEFAULT_MAX_BYTES_PER_LOG: u64 = 2_500_000_000;

/// Bytes of unflushed writes after which a store flushes by itself.
pub const DEFAULT_AUTO_SYNC_THRESHOLD: u64 = 262_144_000;

/// Whose data a store holds.
#[derive(Clone, Copy, Debug, PartialEq, Eq, Structural)]
pub enum StoreType {
    /// Data that exists nowhere else: one log that is never rotated.
    Local,
    /// A cache of data that can be fetched again: rotated logs, the oldest of
    /// which is dropped.
    Shared,
}

/// What configuration may say about a store. A value that is not set is
/// `None`.
#[derive(Clone, Copy, Debug, PartialEq, Eq, Structural)]
pub struct StoreConfig {
    /// How many log segments are retained.
    pub max_log_count: Option<u8>,
    /// After how many bytes a log segment is rotated.
    pub max_bytes_per_log: Option<u64>,
    /// A byte budget for the whole store, divided over its segments when
    /// `max_bytes_per_log` is not set.
    pub cache_limit: Option<u64>,
}

/// The options with which a store is opened.
#[derive(Clone, Copy, Debug, PartialEq, Eq, Structural)]
pub struct StoreOpenOptions {
    /// How many log segments are retained.
    pub max_log_count: u8,
    /// After how many bytes a log segment is rotated.
    pub max_bytes_per_log: u64,
    /// Bytes of unflushed writes after which the store flushes by itself.
    pub auto_sync_threshold: u64,
    /// Whether the store is created where there is none.
    pub create: bool,
}

/// The larger of `a` and `b`.
pub open spec fn larger(a: int, b: int) -> int {
    if a >= b {
        a
    } else {
        b
    }
}

/// The bytes per log segment that follow from a configuration which retains
/// `count` segments.
pub open spec fn bytes_per_log(config: StoreConfig, count: u8) -> int {
    match config.max_bytes_per_log {
        Some(bytes) => bytes as int,
        None => match config.cache_limit {
            Some(limit) => larger(limit as int / larger(count as int, 1), 1),
            None => DEFAULT_MAX_BYTES_PER_LOG as int,
        },
    }
}

/// The options that follow from a configuration.
pub open spec fn options_of(config: StoreConfig) -> StoreOpenOptions {
    let count = match config.max_log_count {
        Some(count) => count,
        None => DEFAULT_MAX_LOG_COUNT,
    };
    StoreOpenOptions {
        max_log_count: count,
        max_bytes_per_log: bytes_per_log(config, count) as u64,
        auto_sync_threshold: DEFAULT_AUTO_SYNC_THRESHOLD,
        create: true,
    }
}

impl StoreConfig {
    /// A configuration that sets nothing.
    pub fn new() -> (config: StoreConfig)
        ensures
            config == (StoreConfig { max_log_count: None, max_bytes_per_log: None, cache_limit: None }),
    {
        StoreConfig { max_log_count: None, max_bytes_per_log: None, cache_limit: None }
    }
}

impl StoreOpenOptions {
    /// Options that can be handed to a rotated store: it retains at least
    /// one segment, of at least one byte.
    pub open spec fn valid(&self) -> bool {
        self.max_log_count >= 1 && self.max_bytes_per_log >= 1
    }

    /// The options of a store that nothing was configured for.
    pub fn new() -> (options: StoreOpenOptions)
        ensures
            options == options_of(
                StoreConfig { max_log_count: None, max_bytes_per_log: None, cache_limit: None },
            ),
            options.valid(),
    {
        StoreOpenOptions {
            max_log_count: DEFAULT_MAX_LOG_COUNT,
            max_bytes_per_log: DEFAULT_MAX_BYTES_PER_LOG,
            auto_sync_threshold: DEFAULT_AUTO_SYNC_THRESHOLD,
            create: true,
        }
    }

    /// The same options with another number of retained segments.
    pub fn max_log_count(self, count: u8) -> (options: StoreOpenOptions)
        ensures
            options == (StoreOpenOptions { max_log_count: count, ..self }),
    {
        StoreOpenOptions { max_log_count: count, ..self }
    }

    /// The same options with another segment size.
    pub fn max_bytes_per_log(self, bytes: u64) -> (options: StoreOpenOptions)
        ensures
            options == (StoreOpenOptions { max_bytes_per_log: bytes, ..self }),
    {
        StoreOpenOptions { max_bytes_per_log: bytes, ..self }
    }

    /// The same options with another threshold for flushing.
    pub fn auto_sync_threshold(self, threshold: u64) -> (options: StoreOpenOptions)
        ensures
            options == (StoreOpenOptions { auto_sync_threshold: threshold, ..self }),
    {
        StoreOpenOptions { auto_sync_threshold: threshold, ..self }
    }

    /// The same options, creating the store or not where there is none.
    pub fn create(self, create: bool) -> (options: StoreOpenOptions)
        ensures
            options == (StoreOpenOptions { create, ..self }),
    {
        StoreOpenOptions { create, ..self }
    }
}

/// The options that follow from a configuration: what it sets, and the
/// defaults for the rest. A byte budget for the whole store is divided
/// evenly over the retained segments, each getting at least one byte.
pub fn open_options(config: &StoreConfig) -> (options: StoreOpenOptions)
    ensures
        options == options_of(*config),
        config.max_log_count != Some(0u8) && config.max_bytes_per_log != Some(0u64)
            ==> options.valid(),
{
    let mut options = StoreOpenOptions::new();
    if let Some(count) = config.max_log_count {
        options = options.max_log_count(count);
    }
    if let Some(bytes) = config.max_bytes_per_log {
        options = options.max_bytes_per_log(bytes);
    } else if let Some(limit) = config.cache_limit {
        let count: u64 = if options.max_log_count >= 1 {
            options.max_log_count as u64
        } else {
            1
        };
        let share: u64 = limit / count;
        options = options.max_bytes_per_log(if share >= 1 {
            share
        } else {
            1
        });
    }
    options
}

} // verus!
