//! Counting, file by file, how many sequencing reads contain each of a set of
//! short query sequences, tolerating a bounded fraction of substituted
//! characters (no insertions, no deletions).
//!
//! - [`fraction`]: the tolerated fraction as an exact ratio, and the mismatch
//!   budget it grants to a query of a given length.
//! - [`matcher`]: whether a query occurs in a read within a budget.
//! - [`text`]: the canonical form of reads and sequences.
//! - [`registry`]: the named queries, their running counts, and their order.
//! - [`report`]: what is reported of one file.
//! - [`aggregator`]: tallying the reads of one file and concluding it.
//! - [`input`]: read files as bytes, plain or gzip-compressed FASTQ.
//! - [`queries`]: where the queries come from.
//!
//! Every contract is stated over plain mathematical values: the views of the
//! types involved. Calls into `fastq`, `flate2`, `csv` and the parts of the
//! standard library that decode and upper-case text are trusted; what each
//! returns is given a name, and the contracts of their callers are exact in
//! terms of that name.

pub mod aggregator;
pub mod fraction;
pub mod input;
pub mod matcher;
pub mod queries;
pub mod registry;
pub mod report;
pub mod text;
