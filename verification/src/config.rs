//! The configuration of a record store.

use vstd::prelude::*;

verus! {

/// A path of the file system. The library hands paths on and looks into none.
#[verifier::external_type_specification]
#[verifier::external_body]
pub struct ExPathBuf(std::path::PathBuf);

/// Cloning a `std::path::PathBuf` gives the same path again.
pub assume_specification[ <std::path::PathBuf as Clone>::clone ](
    path: &std::path::PathBuf,
) -> (copy: std::path::PathBuf)
    ensures
        copy == *path,
;

// Each node has a replication interval between these bounds, in nanoseconds.
// This staggers the intense replication activity across the network.
/// The replication interval of every node is shorter than this: 540 seconds.
pub const REPLICATION_INTERVAL_UPPER_BOUND: u128 = 540_000_000_000;

/// The replication interval of every node is at least this long: 180 seconds.
pub const REPLICATION_INTERVAL_LOWER_BOUND: u128 = 180_000_000_000;

/// The number of records that a store holds unless it is told otherwise.
pub const DEFAULT_MAX_RECORDS: usize = 1024;

/// The maximum size of record values unless a store is told otherwise: 65 KiB.
pub const DEFAULT_MAX_VALUE_BYTES: usize = 66_560;

/// The configuration of a record store.
#[derive(Debug)]
pub struct DiskBackedRecordStoreConfig {
    /// The directory where the records are stored.
    pub storage_dir: std::path::PathBuf,
    /// The maximum number of records.
    pub max_records: usize,
    /// The maximum size of record values, in bytes.
    pub max_value_bytes: usize,
    /// The replication interval of this node, in nanoseconds. It should lie between
    /// `REPLICATION_INTERVAL_LOWER_BOUND` and `REPLICATION_INTERVAL_UPPER_BOUND`.
    pub replication_interval: u128,
}

impl Clone for DiskBackedRecordStoreConfig {
    fn clone(&self) -> (copy: Self)
        ensures
            copy == *self,
    {
        DiskBackedRecordStoreConfig {
            storage_dir: self.storage_dir.clone(),
            max_records: self.max_records,
            max_value_bytes: self.max_value_bytes,
            replication_interval: self.replication_interval,
        }
    }
}

/// Calls `gen_range` on `rand::thread_rng()` for the half-open range from `low` to `high`.
///
/// The number that comes out lies in the range. Which one it is, is left to chance.
#[verifier::external_body]
fn random_below(low: u128, high: u128) -> (number: u128)
    requires
        low < high,
    ensures
        low <= number < high,
{
    rand::Rng::gen_range(&mut rand::thread_rng(), low..high)
}

impl DiskBackedRecordStoreConfig {
    /// The default limits, with the given directory and replication interval.
    pub fn with_interval(storage_dir: std::path::PathBuf, replication_interval: u128) -> (config:
        Self)
        ensures
            config.storage_dir == storage_dir,
            config.max_records == 1024,
            config.max_value_bytes == 65 * 1024,
            config.replication_interval == replication_interval,
    {
        DiskBackedRecordStoreConfig {
            storage_dir,
            max_records: DEFAULT_MAX_RECORDS,
            max_value_bytes: DEFAULT_MAX_VALUE_BYTES,
            replication_interval,
        }
    }

    /// The default configuration for a store in the given directory: the default limits, and a
    /// replication interval that is picked at random between its bounds.
    pub fn default_in(storage_dir: std::path::PathBuf) -> (config: Self)
        ensures
            config.storage_dir == storage_dir,
            config.max_records == 1024,
            config.max_value_bytes == 65 * 1024,
            REPLICATION_INTERVAL_LOWER_BOUND <= config.replication_interval
                < REPLICATION_INTERVAL_UPPER_BOUND,
    {
        let interval: u128 = random_below(
            REPLICATION_INTERVAL_LOWER_BOUND,
            REPLICATION_INTERVAL_UPPER_BOUND,
        );
        Self::with_interval(storage_dir, interval)
    }
}

/// The replication interval of a node is picked between three and nine minutes.
pub proof fn replication_interval_bounds()
    ensures
        REPLICATION_INTERVAL_LOWER_BOUND == 3 * 60 * 1_000_000_000int,
        REPLICATION_INTERVAL_UPPER_BOUND == 9 * 60 * 1_000_000_000int,
        DEFAULT_MAX_RECORDS == 1024,
        DEFAULT_MAX_VALUE_BYTES == 65 * 1024,
{
}

} // verus!
