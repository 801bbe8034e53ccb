use oligo_counter::queries::{queries_from_csv, queries_from_records, single_query, QueryListError};
use oligo_counter::registry::{QueryRegistry, SequenceInfo};

fn pair(name: &str, sequence: &str) -> (String, String) {
    (name.to_string(), sequence.to_string())
}

fn record(fields: &[&str]) -> Vec<String> {
    fields.iter().map(|f| f.to_string()).collect()
}

#[test]
fn direct_sequence_goes_by_the_name_query() {
    assert_eq!(single_query("acgt"), vec![pair("Query", "acgt")]);
    let registry = QueryRegistry::build(&single_query("acgt"));
    assert_eq!(
        registry.snapshot_in_order(),
        vec![SequenceInfo { name: "Query".to_string(), sequence: "ACGT".to_string(), count: 0 }]
    );
}

#[test]
fn csv_list_skips_the_header_and_keeps_order() {
    let data = b"name,sequence\nzeta,ACGT\nalpha,tttt\nmid,GGCC\n";
    let queries = queries_from_csv(data).unwrap();
    assert_eq!(queries, vec![pair("zeta", "ACGT"), pair("alpha", "tttt"), pair("mid", "GGCC")]);
}

#[test]
fn csv_list_ignores_further_fields() {
    let data = b"name,sequence,note\na,ACGT,first\nb,TTTT,\n";
    let queries = queries_from_csv(data).unwrap();
    assert_eq!(queries, vec![pair("a", "ACGT"), pair("b", "TTTT")]);
}

#[test]
fn csv_list_understands_quoting() {
    let data = b"name,sequence\n\"adapter, left\",ACGT\n\"say \"\"hi\"\"\",TT\n";
    let queries = queries_from_csv(data).unwrap();
    assert_eq!(queries, vec![pair("adapter, left", "ACGT"), pair("say \"hi\"", "TT")]);
}

#[test]
fn csv_list_with_header_only_is_empty() {
    assert_eq!(queries_from_csv(b"name,sequence\n").unwrap(), Vec::<(String, String)>::new());
    assert_eq!(queries_from_csv(b"").unwrap(), Vec::<(String, String)>::new());
}

#[test]
fn csv_list_with_one_column_lacks_a_field() {
    let data = b"sequence\nACGT\nTTTT\n";
    let error = queries_from_csv(data).unwrap_err();
    assert!(matches!(error, QueryListError::MissingField { record: 0 }));
}

#[test]
fn csv_list_with_uneven_records_is_unreadable() {
    let data = b"name,sequence\na,ACGT\nb\n";
    let error = queries_from_csv(data).unwrap_err();
    match error {
        QueryListError::Unreadable { detail } => assert!(!detail.is_empty()),
        other => panic!("unexpected outcome: {:?}", other),
    }
}

#[test]
fn csv_list_with_ill_formed_text_is_unreadable() {
    let data = [b'n', b',', b's', b'\n', b'a', b',', 0xff, 0xfe, b'\n'];
    let error = queries_from_csv(&data).unwrap_err();
    assert!(matches!(error, QueryListError::Unreadable { .. }));
}

#[test]
fn records_become_queries_in_order() {
    let records = vec![record(&["a", "ACGT"]), record(&["b", "tt", "extra"]), record(&["", ""])];
    assert_eq!(
        queries_from_records(&records).unwrap(),
        vec![pair("a", "ACGT"), pair("b", "tt"), pair("", "")]
    );
    assert_eq!(queries_from_records(&[]).unwrap(), Vec::<(String, String)>::new());
}

#[test]
fn first_short_record_is_reported() {
    let records = vec![record(&["a", "ACGT"]), record(&["b"]), record(&["c", "GG"]), record(&[])];
    let error = queries_from_records(&records).unwrap_err();
    assert!(matches!(error, QueryListError::MissingField { record: 1 }));
    let records = vec![record(&[]), record(&["b"])];
    let error = queries_from_records(&records).unwrap_err();
    assert!(matches!(error, QueryListError::MissingField { record: 0 }));
}
