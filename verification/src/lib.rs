//! Decides which backups in a time-ordered collection are expendable under a
//! configurable retention policy, and which must be kept.
//!
//! The heart of the crate is a family of pruning strategies. Each strategy
//! partitions a collection of [`BackupFileMeta`] records into a kept part
//! (left in the collection) and an expendable part (returned), and each
//! carries a proved contract pinning down exactly which records land where.
//! The strategies are:
//!
//! - [`pruning_strategy::OlderThan`]: age threshold relative to a reference
//!   instant,
//! - [`pruning_strategy::KeepOnePerMonth`]: monthly decimation, keeping at
//!   most the one record closest to the first instant of each calendar month,
//! - [`pruning_strategy::OlderThanButKeepOnePerMonth`]: an age-tiered
//!   composition of the two.
//!
//! Timestamps are civil UTC date-times ([`date_time::Timestamp`]); all
//! comparisons go through their second count on a proleptic Gregorian
//! calendar. Listing and deleting the underlying storage objects is the
//! caller's business: the engine neither performs I/O nor recovers from a
//! collaborator's failure.

mod backup_file_meta;
pub mod date_time;
pub mod pruning_strategy;

pub use backup_file_meta::BackupFileMeta;
pub use backup_file_meta::dates_wf;
