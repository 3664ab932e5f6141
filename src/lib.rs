//! Watches the slow-command log of a key-value server and reports each new
//! slow entry exactly once.
//!
//! The library holds the logic: parsing the server's version, choosing the
//! record schema, decoding and filtering records, and the seen-registry that
//! decides which entries are new. Network access and printing live outside.

mod decode;
mod entry;
mod laws;
mod registry;
mod version;

pub use decode::{collect_slowlogs, decode, decode_all};
pub use entry::{
    is_ignored_upper, retain_reported, should_report, DecodeError, EntryView, SlowlogEntry,
};

pub use laws::{
    lemma_batch_reports_once, lemma_filter_ignores_case, lemma_invalid_stamps_isolated,
    lemma_registry_only_grows, lemma_reported_at_most_once,
};
pub use registry::{timestamp_is_valid, SeenRegistry};
pub use version::{
    parse_version, schema_for, schema_for_major, version_from_field, version_from_info,
    RedisVersion, Schema, VersionError,
};
