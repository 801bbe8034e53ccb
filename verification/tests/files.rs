use oligo_counter::fraction::MismatchFraction;
use oligo_counter::input::{classify, process_fastq, process_fastq_file, InputKind, StreamFault};
use oligo_counter::registry::QueryRegistry;
use oligo_counter::text::{chars_of, normalize_read};
use std::io::Write;

fn pairs(items: &[(&str, &str)]) -> Vec<(String, String)> {
    items.iter().map(|(name, sequence)| (name.to_string(), sequence.to_string())).collect()
}

fn fastq(reads: &[&str]) -> Vec<u8> {
    let mut text = String::new();
    for (i, read) in reads.iter().enumerate() {
        text.push_str(&format!("@read{}\n{}\n+\n{}\n", i, read, "I".repeat(read.len())));
    }
    text.into_bytes()
}

fn gzip(data: &[u8]) -> Vec<u8> {
    let mut encoder = flate2::write::GzEncoder::new(Vec::new(), flate2::Compression::default());
    encoder.write_all(data).unwrap();
    encoder.finish().unwrap()
}

#[test]
fn plain_fastq_is_parsed_and_counted() {
    let mut registry = QueryRegistry::build(&pairs(&[("probe", "ACGT"), ("other", "GGGG")]));
    let data = fastq(&["TTACGTTT", "ttacgttt", "TTTTTTTT", "GGGGACGT"]);
    let report = process_fastq("sample.fastq", &data, &mut registry, &MismatchFraction::zero()).unwrap();
    assert_eq!(report.source, "sample.fastq");
    assert_eq!(report.total_reads, 4);
    assert_eq!(report.lines.len(), 2);
    assert_eq!(report.lines[0].name, "probe");
    assert_eq!(report.lines[0].sequence, "ACGT");
    assert_eq!(report.lines[0].count, 3);
    assert_eq!(report.lines[0].percentage_hundredths, Some(7500));
    assert_eq!(report.lines[1].name, "other");
    assert_eq!(report.lines[1].count, 1);
    assert_eq!(report.lines[1].percentage_hundredths, Some(2500));
    assert!(registry.is_reset());
}

#[test]
fn only_the_sequence_line_is_searched() {
    let mut registry = QueryRegistry::build(&pairs(&[("probe", "ACGT")]));
    let data = b"@ACGT in the header\nTTTTTTTT\n+ACGT\nACGTACGT\n".to_vec();
    let report = process_fastq("f", &data, &mut registry, &MismatchFraction::zero()).unwrap();
    assert_eq!(report.total_reads, 1);
    assert_eq!(report.lines[0].count, 0);
}

#[test]
fn windows_line_endings_are_not_part_of_a_read() {
    let mut registry = QueryRegistry::build(&pairs(&[("probe", "ACGT")]));
    let data = b"@r\r\nACGT\r\n+\r\nIIII\r\n".to_vec();
    let report = process_fastq("f", &data, &mut registry, &MismatchFraction::new(1, 1).unwrap()).unwrap();
    assert_eq!(report.total_reads, 1);
    assert_eq!(report.lines[0].count, 1);
    let mut longer = QueryRegistry::build(&pairs(&[("probe", "ACGTA")]));
    let report = process_fastq("f", &data, &mut longer, &MismatchFraction::new(1, 1).unwrap()).unwrap();
    assert_eq!(report.lines[0].count, 0);
}

#[test]
fn empty_fastq_has_no_reads() {
    let mut registry = QueryRegistry::build(&pairs(&[("probe", "ACGT")]));
    let report = process_fastq("f", &[], &mut registry, &MismatchFraction::zero()).unwrap();
    assert_eq!(report.total_reads, 0);
    assert_eq!(report.lines[0].count, 0);
    assert_eq!(report.lines[0].percentage_hundredths, None);
}

#[test]
fn malformed_fastq_is_a_framing_error() {
    let mut registry = QueryRegistry::build(&pairs(&[("probe", "ACGT")]));
    let zero = MismatchFraction::zero();
    let no_header = b"ACGT\n+\nIIII\n".to_vec();
    let error = process_fastq("f", &no_header, &mut registry, &zero).unwrap_err();
    assert_eq!(error.fault, StreamFault::Framing);
    assert!(!error.detail.is_empty());

    let truncated = b"@r1\nACGT\n+\nIIII\n@r2\nACGT\n".to_vec();
    let error = process_fastq("f", &truncated, &mut registry, &zero).unwrap_err();
    assert_eq!(error.fault, StreamFault::Framing);

    let uneven = b"@r1\nACGT\n+\nII\n".to_vec();
    let error = process_fastq("f", &uneven, &mut registry, &zero).unwrap_err();
    assert_eq!(error.fault, StreamFault::Framing);

    let no_separator = b"@r1\nACGT\n-\nIIII\n".to_vec();
    let error = process_fastq("f", &no_separator, &mut registry, &zero).unwrap_err();
    assert_eq!(error.fault, StreamFault::Framing);
}

#[test]
fn failed_file_leaves_no_counts_behind() {
    let mut registry = QueryRegistry::build(&pairs(&[("probe", "ACGT")]));
    let zero = MismatchFraction::zero();
    let broken = b"@r1\nACGT\n+\nIIII\n@r2\nACGT\n+\nIIII\nACGT\n".to_vec();
    assert!(process_fastq("broken", &broken, &mut registry, &zero).is_err());
    assert!(registry.is_reset());
    let report = process_fastq("good", &fastq(&["ACGT", "TTTT"]), &mut registry, &zero).unwrap();
    assert_eq!(report.total_reads, 2);
    assert_eq!(report.lines[0].count, 1);
    assert_eq!(report.lines[0].percentage_hundredths, Some(5000));
}

#[test]
fn gzip_fastq_is_decompressed_first() {
    let mut registry = QueryRegistry::build(&pairs(&[("probe", "ACGT")]));
    let plain = fastq(&["TTACGTTT", "TTTTTTTT", "ACGTACGT", "CCCCCCCC", "GGGGGGGG"]);
    let packed = gzip(&plain);
    assert_ne!(packed, plain);
    let report = process_fastq_file("s.fastq.gz", InputKind::GzipFastq, &packed, &mut registry, &MismatchFraction::zero())
        .unwrap();
    assert_eq!(report.source, "s.fastq.gz");
    assert_eq!(report.total_reads, 5);
    assert_eq!(report.lines[0].count, 2);
    assert_eq!(report.lines[0].percentage_hundredths, Some(4000));
}

#[test]
fn gzip_of_several_members_is_read_to_the_end() {
    let mut registry = QueryRegistry::build(&pairs(&[("probe", "ACGT")]));
    let mut packed = gzip(&fastq(&["ACGT", "TTTT"]));
    packed.extend_from_slice(&gzip(&fastq(&["ACGT", "ACGT", "GGGG"])));
    let report = process_fastq_file("s.fq.gz", InputKind::GzipFastq, &packed, &mut registry, &MismatchFraction::zero())
        .unwrap();
    assert_eq!(report.total_reads, 5);
    assert_eq!(report.lines[0].count, 3);
    assert_eq!(report.lines[0].percentage_hundredths, Some(6000));
}

#[test]
fn plain_kind_reads_the_bytes_as_they_are() {
    let mut registry = QueryRegistry::build(&pairs(&[("probe", "ACGT")]));
    let plain = fastq(&["ACGT", "TTTT"]);
    let report = process_fastq_file("s.fq", InputKind::PlainFastq, &plain, &mut registry, &MismatchFraction::zero())
        .unwrap();
    assert_eq!(report.total_reads, 2);
    assert_eq!(report.lines[0].count, 1);
    let error = process_fastq_file("s.fq", InputKind::PlainFastq, &gzip(&plain), &mut registry, &MismatchFraction::zero())
        .unwrap_err();
    assert_eq!(error.fault, StreamFault::Framing);
}

#[test]
fn corrupt_gzip_is_a_decompression_error() {
    let mut registry = QueryRegistry::build(&pairs(&[("probe", "ACGT")]));
    let zero = MismatchFraction::zero();
    let plain = fastq(&["ACGT", "TTTT"]);
    let error = process_fastq_file("s.fastq.gz", InputKind::GzipFastq, &plain, &mut registry, &zero).unwrap_err();
    assert_eq!(error.fault, StreamFault::Decompression);
    assert!(!error.detail.is_empty());

    let packed = gzip(&plain);
    let cut = &packed[..packed.len() / 2];
    let error = process_fastq_file("s.fastq.gz", InputKind::GzipFastq, cut, &mut registry, &zero).unwrap_err();
    assert_eq!(error.fault, StreamFault::Decompression);
    assert!(registry.is_reset());
}

#[test]
fn empty_gzip_input_is_handled() {
    let mut registry = QueryRegistry::build(&pairs(&[("probe", "ACGT")]));
    let zero = MismatchFraction::zero();
    let packed = gzip(b"");
    let report = process_fastq_file("e.fastq.gz", InputKind::GzipFastq, &packed, &mut registry, &zero).unwrap();
    assert_eq!(report.total_reads, 0);
    assert_eq!(report.lines[0].percentage_hundredths, None);
    assert!(registry.is_reset());
}

#[test]
fn gzip_input_without_a_stream_is_a_decompression_error() {
    let mut registry = QueryRegistry::build(&pairs(&[("probe", "ACGT")]));
    let zero = MismatchFraction::zero();
    let error = process_fastq_file("e.fastq.gz", InputKind::GzipFastq, &[], &mut registry, &zero).unwrap_err();
    assert_eq!(error.fault, StreamFault::Decompression);
    let error = process_fastq_file("e.fastq.gz", InputKind::GzipFastq, &[0x1f, 0x8b], &mut registry, &zero)
        .unwrap_err();
    assert_eq!(error.fault, StreamFault::Decompression);
}

#[test]
fn record_beyond_the_parser_buffer_is_a_framing_error() {
    let mut registry = QueryRegistry::build(&pairs(&[("probe", "ACGT")]));
    let mut data = b"@long\n".to_vec();
    data.extend_from_slice(&vec![b'A'; 100_000]);
    data.extend_from_slice(b"\n+\n");
    data.extend_from_slice(&vec![b'I'; 100_000]);
    data.extend_from_slice(b"\n");
    let error = process_fastq("f", &data, &mut registry, &MismatchFraction::zero()).unwrap_err();
    assert_eq!(error.fault, StreamFault::Framing);
}

#[test]
fn long_reads_within_the_parser_buffer_are_searched_whole() {
    let mut registry = QueryRegistry::build(&pairs(&[("probe", "ACGT")]));
    let mut read = vec![b'T'; 20_000];
    read.extend_from_slice(b"acgt");
    let mut data = b"@long\n".to_vec();
    data.extend_from_slice(&read);
    data.extend_from_slice(b"\n+\n");
    data.extend_from_slice(&vec![b'I'; read.len()]);
    data.extend_from_slice(b"\n");
    let report = process_fastq("f", &data, &mut registry, &MismatchFraction::zero()).unwrap();
    assert_eq!(report.total_reads, 1);
    assert_eq!(report.lines[0].count, 1);
}

#[test]
fn gzip_of_malformed_fastq_is_a_framing_error() {
    let mut registry = QueryRegistry::build(&pairs(&[("probe", "ACGT")]));
    let packed = gzip(b"not a read file\n");
    let error = process_fastq_file("s.fastq.gz", InputKind::GzipFastq, &packed, &mut registry, &MismatchFraction::zero())
        .unwrap_err();
    assert_eq!(error.fault, StreamFault::Framing);
}

#[test]
fn file_names_are_told_apart_by_extension() {
    assert_eq!(classify("fastq", "sample"), Some(InputKind::PlainFastq));
    assert_eq!(classify("fq", "sample"), Some(InputKind::PlainFastq));
    assert_eq!(classify("fq", "sample.fastq"), Some(InputKind::PlainFastq));
    assert_eq!(classify("gz", "sample.fastq"), Some(InputKind::GzipFastq));
    assert_eq!(classify("gz", "sample.fq"), Some(InputKind::GzipFastq));
    assert_eq!(classify("gz", ".fq"), Some(InputKind::GzipFastq));
    assert_eq!(classify("gz", "a.b.fastq"), Some(InputKind::GzipFastq));
}

#[test]
fn other_file_names_are_passed_over() {
    assert_eq!(classify("gz", "sample"), None);
    assert_eq!(classify("gz", "sample.txt"), None);
    assert_eq!(classify("gz", "fastq"), None);
    assert_eq!(classify("gz", "fq"), None);
    assert_eq!(classify("gz", "sample.fastq.bak"), None);
    assert_eq!(classify("gz", ""), None);
    assert_eq!(classify("", "sample"), None);
    assert_eq!(classify("", "sample.fastq"), None);
    assert_eq!(classify("txt", "sample"), None);
    assert_eq!(classify("FASTQ", "sample"), None);
    assert_eq!(classify("fastq ", "sample"), None);
    assert_eq!(classify("fasta", "sample"), None);
    assert_eq!(classify("f", "sample"), None);
    assert_eq!(classify("GZ", "sample.fastq"), None);
    assert_eq!(classify("gz", "sample.FASTQ"), None);
    assert_eq!(classify("bz2", "sample.fastq"), None);
}

#[test]
fn read_bytes_are_decoded_and_upper_cased() {
    assert_eq!(normalize_read(b"acgtn"), vec!['A', 'C', 'G', 'T', 'N']);
    assert_eq!(normalize_read(b"AcGt"), vec!['A', 'C', 'G', 'T']);
    assert_eq!(normalize_read(b""), Vec::<char>::new());
    assert_eq!(normalize_read("äc".as_bytes()), vec!['Ä', 'C']);
    assert_eq!(normalize_read(&[b'a', 0xff, b'c']), vec!['A', '\u{fffd}', 'C']);
    assert_eq!(normalize_read("ß".as_bytes()), vec!['S', 'S']);
}

#[test]
fn text_is_split_into_characters() {
    assert_eq!(chars_of("ACGT"), vec!['A', 'C', 'G', 'T']);
    assert_eq!(chars_of(""), Vec::<char>::new());
    assert_eq!(chars_of("aÄz"), vec!['a', 'Ä', 'z']);
}
