//! Read files held in memory: telling plain from gzip-compressed FASTQ by the
//! file's name, decompressing, extracting the read sequences, and handing
//! them to the aggregator.

use crate::aggregator::{process_sequences, report_of};
use crate::fraction::MismatchFraction;
use crate::registry::QueryRegistry;
use crate::report::FileReport;
use crate::text::{chars_of, normalized_all, raw_view};
use vstd::prelude::*;

verus! {

/// How the reads of a file are encoded.
#[derive(Clone, Copy, Debug, PartialEq, Eq)]
pub enum InputKind {
    /// FASTQ text.
    PlainFastq,
    /// FASTQ text inside a gzip stream, possibly of several members.
    GzipFastq,
}

/// What went wrong with a read file.
#[derive(Clone, Copy, Debug, PartialEq, Eq)]
pub enum StreamFault {
    /// The gzip stream is corrupt or cut short.
    Decompression,
    /// The FASTQ record framing is malformed.
    Framing,
}

/// A read file that could not be processed.
#[derive(Debug)]
pub struct StreamError {
    /// The stage that failed.
    pub fault: StreamFault,
    /// The underlying cause in words.
    pub detail: String,
}

/// The content of the gzip stream `data`, all members concatenated, or `None`
/// where `data` is no well-formed gzip stream.
pub uninterp spec fn gunzipped(data: Seq<u8>) -> Option<Seq<u8>>;

/// The sequence lines of the FASTQ records in `data`, in file order and
/// without their line ends, or `None` where the record framing of `data` is
/// malformed.
pub uninterp spec fn fastq_sequences(data: Seq<u8>) -> Option<Seq<Seq<u8>>>;

/// `std::io::Error`, the error of both outside readers; carried through
/// unopened.
#[verifier::external_type_specification]
#[verifier::external_body]
pub struct ExIoError(std::io::Error);

/// Reads a `flate2::read::MultiGzDecoder` over `data` to its end. Trusted:
/// whether decoding succeeds, and the bytes it yields, depend on `data`
/// alone; the outcome is named [`gunzipped`].
#[verifier::external_body]
fn gunzip(data: &[u8]) -> (result: Result<Vec<u8>, std::io::Error>)
    ensures
        match result {
            Ok(plain) => gunzipped(data@) == Some(plain@),
            Err(_) => gunzipped(data@) is None,
        },
{
    let mut plain: Vec<u8> = Vec::new();
    let mut decoder = flate2::read::MultiGzDecoder::new(data);
    match std::io::Read::read_to_end(&mut decoder, &mut plain) {
        Ok(_) => Ok(plain),
        Err(error) => Err(error),
    }
}

/// Runs `fastq::Parser::each` over `data` and collects the sequence of every
/// record. Trusted: whether parsing succeeds, and the sequences it yields,
/// depend on `data` alone; the outcome is named [`fastq_sequences`].
#[verifier::external_body]
fn fastq_records(data: &[u8]) -> (result: Result<Vec<Vec<u8>>, std::io::Error>)
    ensures
        match result {
            Ok(reads) => fastq_sequences(data@) == Some(raw_view(reads@)),
            Err(_) => fastq_sequences(data@) is None,
        },
{
    let mut reads: Vec<Vec<u8>> = Vec::new();
    let parsed = fastq::Parser::new(data).each(
        |record| {
            reads.push(fastq::Record::seq(&record).to_vec());
            true
        },
    );
    match parsed {
        Ok(_) => Ok(reads),
        Err(error) => Err(error),
    }
}

/// The message of a `std::io::Error`, through its `Display`. Trusted;
/// nothing is claimed of the text.
#[verifier::external_body]
fn io_error_text(error: &std::io::Error) -> (text: String) {
    error.to_string()
}

/// The raw reads that a file of the given kind holds, or the stage at which
/// reading it fails.
pub open spec fn file_sequences(kind: InputKind, data: Seq<u8>) -> Result<
    Seq<Seq<u8>>,
    StreamFault,
> {
    match kind {
        InputKind::PlainFastq => match fastq_sequences(data) {
            Some(raw) => Ok(raw),
            None => Err(StreamFault::Framing),
        },
        InputKind::GzipFastq => match gunzipped(data) {
            Some(plain) => match fastq_sequences(plain) {
                Some(raw) => Ok(raw),
                None => Err(StreamFault::Framing),
            },
            None => Err(StreamFault::Decompression),
        },
    }
}

/// `text` ends with `suffix`.
pub open spec fn ends_with(text: Seq<char>, suffix: Seq<char>) -> bool {
    suffix.len() <= text.len() && text.subrange(text.len() - suffix.len(), text.len() as int)
        == suffix
}

/// The kind of read file that a file name with the given extension and stem
/// denotes: `fastq` and `fq` are plain FASTQ; `gz` is gzip-compressed FASTQ
/// where the stem ends in `.fastq` or `.fq`; anything else is no read file.
pub open spec fn input_kind(extension: Seq<char>, stem: Seq<char>) -> Option<InputKind> {
    if extension == "fastq"@ || extension == "fq"@ {
        Some(InputKind::PlainFastq)
    } else if extension == "gz"@ && (ends_with(stem, ".fastq"@) || ends_with(stem, ".fq"@)) {
        Some(InputKind::GzipFastq)
    } else {
        None
    }
}

fn same_text(left: &[char], right: &[char]) -> (same: bool)
    ensures
        same == (left@ == right@),
{
    if left.len() != right.len() {
        return false;
    }
    let mut i: usize = 0;
    while i < left.len()
        invariant
            i <= left@.len(),
            left@.len() == right@.len(),
            forall|j: int| 0 <= j < i ==> left@[j] == right@[j],
        decreases left@.len() - i,
    {
        if left[i] != right[i] {
            return false;
        }
        i = i + 1;
    }
    assert(left@ =~= right@);
    true
}

fn has_suffix(text: &[char], suffix: &[char]) -> (found: bool)
    ensures
        found == ends_with(text@, suffix@),
{
    if suffix.len() > text.len() {
        return false;
    }
    let offset: usize = text.len() - suffix.len();
    let ghost tail = text@.subrange(offset as int, text@.len() as int);
    let mut i: usize = 0;
    while i < suffix.len()
        invariant
            i <= suffix@.len(),
            text@.len() <= usize::MAX,
            offset + suffix@.len() == text@.len(),
            tail == text@.subrange(offset as int, text@.len() as int),
            forall|j: int| 0 <= j < i ==> tail[j] == suffix@[j],
        decreases suffix@.len() - i,
    {
        if text[offset + i] != suffix[i] {
            assert(tail[i as int] != suffix@[i as int]);
            return false;
        }
        i = i + 1;
    }
    assert(tail =~= suffix@);
    true
}

/// Decides from a file name's extension and stem (the name without its last
/// extension) whether the file holds reads, and in which encoding.
pub fn classify(extension: &str, stem: &str) -> (kind: Option<InputKind>)
    ensures
        kind == input_kind(extension@, stem@),
{
    let ext = chars_of(extension);
    if same_text(ext.as_slice(), chars_of("fastq").as_slice()) || same_text(
        ext.as_slice(),
        chars_of("fq").as_slice(),
    ) {
        Some(InputKind::PlainFastq)
    } else if same_text(ext.as_slice(), chars_of("gz").as_slice()) {
        let name = chars_of(stem);
        if has_suffix(name.as_slice(), chars_of(".fastq").as_slice()) || has_suffix(
            name.as_slice(),
            chars_of(".fq").as_slice(),
        ) {
            Some(InputKind::GzipFastq)
        } else {
            None
        }
    } else {
        None
    }
}

/// Processes one FASTQ file given as its bytes: extracts the read sequences
/// and handles them as [`process_sequences`] does. A file whose framing is
/// malformed yields no report; the registry is left as it was either way.
pub fn process_fastq(
    source: &str,
    data: &[u8],
    registry: &mut QueryRegistry,
    fraction: &MismatchFraction,
) -> (outcome: Result<FileReport, StreamError>)
    requires
        old(registry).wf(),
        old(registry)@.is_reset(),
    ensures
        final(registry).wf(),
        final(registry)@ == old(registry)@,
        match outcome {
            Ok(report) => fastq_sequences(data@) matches Some(raw) && report@ == report_of(
                source@,
                old(registry)@,
                normalized_all(raw),
                fraction@,
            ),
            Err(error) => fastq_sequences(data@) is None && error.fault == StreamFault::Framing,
        },
{
    match fastq_records(data) {
        Ok(reads) => {
            Ok(process_sequences(source, reads.as_slice(), registry, fraction))
        },
        Err(error) => Err(
            StreamError { fault: StreamFault::Framing, detail: io_error_text(&error) },
        ),
    }
}

/// Processes one read file of the given kind, given as its bytes. A
/// gzip-compressed file is decompressed first. A file that cannot be
/// decompressed or whose framing is malformed yields no report, and the
/// error names the stage that failed; the registry is left as it was either
/// way.
pub fn process_fastq_file(
    source: &str,
    kind: InputKind,
    data: &[u8],
    registry: &mut QueryRegistry,
    fraction: &MismatchFraction,
) -> (outcome: Result<FileReport, StreamError>)
    requires
        old(registry).wf(),
        old(registry)@.is_reset(),
    ensures
        final(registry).wf(),
        final(registry)@ == old(registry)@,
        match outcome {
            Ok(report) => file_sequences(kind, data@) matches Ok(raw) && report@ == report_of(
                source@,
                old(registry)@,
                normalized_all(raw),
                fraction@,
            ),
            Err(error) => file_sequences(kind, data@) == Err::<Seq<Seq<u8>>, StreamFault>(
                error.fault,
            ),
        },
{
    match kind {
        InputKind::PlainFastq => process_fastq(source, data, registry, fraction),
        InputKind::GzipFastq => match gunzip(data) {
            Ok(plain) => process_fastq(source, plain.as_slice(), registry, fraction),
            Err(error) => Err(
                StreamError { fault: StreamFault::Decompression, detail: io_error_text(&error) },
            ),
        },
    }
}

} // verus!
