//! Reading a CSV file, with the `csv` crate, into its header row and records.

use vstd::prelude::*;

use crate::text::string_views;

verus! {

/// The text of a list of records.
pub open spec fn table_view(records: Seq<Vec<String>>) -> Seq<Seq<Seq<char>>> {
    records.map_values(|r: Vec<String>| string_views(r@))
}

/// What the `csv` crate reads from `content` with a header row and every
/// field trimmed of Unicode whitespace: the header row (`None` when reading
/// it fails) and the data records up to the end of the file (`None` when
/// reading one of them fails).
pub uninterp spec fn csv_table(content: Seq<u8>) -> (Option<Seq<Seq<char>>>, Option<Seq<Seq<Seq<char>>>>);

/// Reads `content` with `csv::ReaderBuilder` (`has_headers(true)`,
/// `trim(Trim::All)`): first the header row, then every data record.
///
/// Trusted: both results are those `csv_table` names, and an error is the
/// `csv::Error` the reader returned.
#[verifier::external_body]
pub(crate) fn read_csv_table(content: &[u8]) -> (r: (Result<Vec<String>, csv::Error>, Result<Vec<Vec<String>>, csv::Error>))
    ensures
        (r.0 is Ok) == (csv_table(content@).0 is Some),
        r.0 matches Ok(h) ==> string_views(h@) == csv_table(content@).0->0,
        (r.1 is Ok) == (csv_table(content@).1 is Some),
        r.1 matches Ok(rs) ==> table_view(rs@) == csv_table(content@).1->0,
{
    let mut reader = csv::ReaderBuilder::new()
        .has_headers(true)
        .trim(csv::Trim::All)
        .from_reader(content);
    let headers = reader.headers().map(|h| h.iter().map(String::from).collect());
    let records = reader
        .records()
        .map(|r| r.map(|record| record.iter().map(String::from).collect()))
        .collect();
    (headers, records)
}

} // verus!
