//! Content-addressed deduplication of media files: which directory entries
//! are hashed, streaming SHA-256 digests rendered as lowercase hex, the
//! digest-to-path index with its durable JSON form, the scan outcome, and
//! the import report.
pub mod classify;
pub mod hasher;
pub mod hex;
pub mod index;
pub mod laws;
pub mod order;
pub mod report;
pub mod scan;
pub mod store;

pub use classify::{ends_with, is_image, Classifier};
pub use hasher::{digest_chunks, StreamHasher};
pub use hex::to_hex;
pub use index::{BuildOutcome, Duplicate, FileRecord, FingerprintIndex, IndexError};
pub use order::{path_le_exec, sort_by_path};
pub use report::{decimal, report, report_line};
pub use scan::{collect_results, HashFailure, HashResult, ScanOutcome};
