//! Where the queries come from: a single sequence given directly, or a list
//! of named sequences in CSV form.

use crate::registry::supplied;
use vstd::prelude::*;

verus! {

/// Why a list of queries could not be read.
#[derive(Debug)]
pub enum QueryListError {
    /// The text is not well-formed CSV.
    Unreadable {
        /// The underlying cause in words.
        detail: String,
    },
    /// A record has fewer than the two fields, name and sequence, that a
    /// query takes.
    MissingField {
        /// The record's position among the data records, from zero.
        record: usize,
    },
}

/// The data records of the CSV text `data`, each as its fields, or `None`
/// where `data` is not well-formed CSV. The first record of the text is the
/// header and is not among them.
pub uninterp spec fn csv_records(data: Seq<u8>) -> Option<Seq<Seq<Seq<char>>>>;

/// `csv::Error`, the error of the CSV reader; carried through unopened.
#[verifier::external_type_specification]
#[verifier::external_body]
pub struct ExCsvError(csv::Error);

/// Reads every record that a `csv::Reader` in its default configuration
/// yields over `data`. Trusted: whether reading succeeds, and the records and
/// fields it yields, depend on `data` alone; the outcome is named
/// [`csv_records`].
#[verifier::external_body]
fn read_records(data: &[u8]) -> (result: Result<Vec<Vec<String>>, csv::Error>)
    ensures
        match result {
            Ok(records) => csv_records(data@) == Some(records_view(records@)),
            Err(_) => csv_records(data@) is None,
        },
{
    let mut reader = csv::Reader::from_reader(data);
    let mut records: Vec<Vec<String>> = Vec::new();
    for record in reader.records() {
        match record {
            Ok(fields) => records.push(fields.iter().map(String::from).collect()),
            Err(error) => return Err(error),
        }
    }
    Ok(records)
}

/// The message of a `csv::Error`, through its `Display`. Trusted; nothing is
/// claimed of the text.
#[verifier::external_body]
fn csv_error_text(error: &csv::Error) -> (text: String) {
    error.to_string()
}

/// The fields of one record as plain values.
pub open spec fn fields_view(fields: Seq<String>) -> Seq<Seq<char>> {
    Seq::new(fields.len(), |i: int| fields[i]@)
}

/// Records as plain values.
pub open spec fn records_view(records: Seq<Vec<String>>) -> Seq<Seq<Seq<char>>> {
    Seq::new(records.len(), |i: int| fields_view(records[i]@))
}

/// Every record has at least the two fields that a query takes.
pub open spec fn all_complete(records: Seq<Seq<Seq<char>>>) -> bool {
    forall|i: int| 0 <= i < records.len() ==> (#[trigger] records[i]).len() >= 2
}

/// The record at `position` has fewer than two fields, and it is the first
/// such record.
pub open spec fn first_short_record(records: Seq<Seq<Seq<char>>>, position: int) -> bool {
    &&& 0 <= position < records.len()
    &&& records[position].len() < 2
    &&& forall|i: int| 0 <= i < position ==> (#[trigger] records[i]).len() >= 2
}

/// The queries that the records denote: the first field of a record is the
/// query's name, the second its sequence, further fields are ignored.
pub open spec fn queries_of(records: Seq<Seq<Seq<char>>>) -> Seq<(Seq<char>, Seq<char>)> {
    Seq::new(records.len(), |i: int| (records[i][0], records[i][1]))
}

/// The one query that a sequence given directly makes: it goes by the name
/// `Query`.
pub fn single_query(sequence: &str) -> (queries: Vec<(String, String)>)
    ensures
        supplied(queries@) == seq![("Query"@, sequence@)],
{
    let mut queries: Vec<(String, String)> = Vec::new();
    queries.push(("Query".to_owned(), sequence.to_owned()));
    assert(supplied(queries@) =~= seq![("Query"@, sequence@)]);
    queries
}

/// Turns CSV records into queries, in record order: the first field is the
/// name, the second the sequence. Fails at the first record that has fewer
/// than two fields.
pub fn queries_from_records(records: &[Vec<String>]) -> (outcome: Result<
    Vec<(String, String)>,
    QueryListError,
>)
    ensures
        match outcome {
            Ok(queries) => all_complete(records_view(records@)) && supplied(queries@)
                == queries_of(records_view(records@)),
            Err(QueryListError::MissingField { record }) => first_short_record(
                records_view(records@),
                record as int,
            ),
            Err(QueryListError::Unreadable { .. }) => false,
        },
{
    let ghost all = records_view(records@);
    let mut queries: Vec<(String, String)> = Vec::new();
    let mut i: usize = 0;
    while i < records.len()
        invariant
            i <= records@.len(),
            all == records_view(records@),
            forall|j: int| 0 <= j < i ==> (#[trigger] all[j]).len() >= 2,
            queries@.len() == i,
            forall|j: int|
                0 <= j < i ==> (#[trigger] queries@[j]).0@ == all[j][0] && queries@[j].1@
                    == all[j][1],
        decreases records@.len() - i,
    {
        let fields = &records[i];
        assert(all[i as int].len() == fields@.len());
        if fields.len() < 2 {
            return Err(QueryListError::MissingField { record: i });
        }
        queries.push((fields[0].clone(), fields[1].clone()));
        i = i + 1;
    }
    assert(supplied(queries@) =~= queries_of(all));
    Ok(queries)
}

/// Reads a list of queries from CSV text: a header record, then one record
/// per query with the name in the first field and the sequence in the
/// second.
pub fn queries_from_csv(data: &[u8]) -> (outcome: Result<Vec<(String, String)>, QueryListError>)
    ensures
        match outcome {
            Ok(queries) => csv_records(data@) matches Some(records) && all_complete(records)
                && supplied(queries@) == queries_of(records),
            Err(QueryListError::MissingField { record }) => csv_records(data@) matches Some(
                records,
            ) && first_short_record(records, record as int),
            Err(QueryListError::Unreadable { .. }) => csv_records(data@) is None,
        },
{
    match read_records(data) {
        Ok(records) => queries_from_records(records.as_slice()),
        Err(error) => Err(QueryListError::Unreadable { detail: csv_error_text(&error) }),
    }
}

} // verus!
